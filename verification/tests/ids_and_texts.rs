//! Ids and texts, held against what the standard library makes of them.
use kittest_inspector::id::Id;
use kittest_inspector::source::{gutter, lines, longest, shorten_path, SourceView, Tint};
use kittest_inspector::text::{
    contains_ci, is_white_char, join, numeral_text, same_text_ci, split_text, strip_tail_copies,
    text_no_later, to_chars, trim_text,
};

const SAMPLES: [&str; 14] = [
    "", " ", "a", "A", "aB", "ab\n", "\u{a0}x\u{3000}", "ÄÖ", "äö", "a/b\\c", "/a/", "[…] […]",
    "x [ […]", "\r\n",
];

#[test]
fn an_id_is_written_as_bare_hex_and_reads_back() {
    for n in [0, 1, 9, 10, 15, 16, 0x12ab, 0xdead_beef, u64::MAX] {
        let id = Id(n);
        assert_eq!(id.text(), format!("{n:x}"));
        assert_eq!(Id::parse(&id.text()), Ok(id));
        assert_eq!(format!(" {n:X}\n").parse(), Ok(id));
    }
}

#[test]
fn an_id_is_read_as_the_standard_library_reads_hex() {
    for text in [
        "", "  ", "+", "-", "-1", "++1", "1 2", "g", "0x1", "ffffffffffffffff",
        "10000000000000000", "0000000000000001", "\u{a0}ff\u{2003}", "fffffffffffffffff",
        "ff_ff", "Ａ", "zz10000000000000000", "ffffffffffffffffz", "fffffffffffffffffz",
    ] {
        let expected = u64::from_str_radix(text.trim(), 16).map(Id).map_err(|err| {
            format!("invalid widget id `{text}` ({err}) — pass an `id` exactly as `widget_tree` returned it")
        });
        assert_eq!(Id::parse(text), expected, "{text:?}");
    }
}

#[test]
fn an_id_is_one_to_sixteen_plain_digits() {
    for text in ["+ff", "+1f", " +0 "] {
        assert_eq!(
            Id::parse(text),
            Err(format!(
                "invalid widget id `{text}` (invalid digit found in string) — pass an `id` exactly as `widget_tree` returned it"
            ))
        );
    }
    for text in ["00000000000000001", "00000000000000000001", "00000000000000000zz"] {
        assert_eq!(
            Id::parse(text),
            Err(format!(
                "invalid widget id `{text}` (number too large to fit in target type) — pass an `id` exactly as `widget_tree` returned it"
            ))
        );
    }
    assert_eq!(Id::parse("000000000000000f"), Ok(Id(15)));
    assert_eq!(Id(u64::MAX).text().len(), 16);
}

#[test]
fn white_space_is_what_the_standard_library_says() {
    for c in '\0'..=char::MAX {
        assert_eq!(is_white_char(c), c.is_whitespace(), "{c:?}");
    }
}

#[test]
fn texts_are_taken_apart_as_the_standard_library_does() {
    for s in SAMPLES {
        let trimmed: String = trim_text(s).into_iter().collect();
        assert_eq!(trimmed, s.trim(), "{s:?}");
        assert_eq!(split_text(s, '/', '\\'), s.split(['/', '\\']).collect::<Vec<_>>(), "{s:?}");
        let stripped: String = strip_tail_copies(to_chars(s), &to_chars(" […]")).into_iter().collect();
        assert_eq!(stripped, s.trim_end_matches(" […]"), "{s:?}");
        assert_eq!(lines(s), s.lines().collect::<Vec<_>>(), "{s:?}");
        for t in SAMPLES {
            assert_eq!(same_text_ci(s, t), s.eq_ignore_ascii_case(t));
            assert_eq!(
                contains_ci(s, t),
                s.to_ascii_lowercase().contains(&t.to_ascii_lowercase()),
                "{s:?} {t:?}"
            );
            assert_eq!(text_no_later(s, t), s <= t, "{s:?} {t:?}");
        }
    }
}

#[test]
fn numerals_and_lists_are_written_plainly() {
    for n in [0, 7, 10, 99, 100, u64::MAX as u128, u128::MAX] {
        assert_eq!(numeral_text(n, 10), n.to_string());
        assert_eq!(numeral_text(n, 16), format!("{n:x}"));
    }
    assert_eq!(join(&Vec::new(), ", "), "");
    assert_eq!(join(&vec!["a".to_owned()], ", "), "a");
    assert_eq!(join(&vec!["a".to_owned(), String::new(), "c".to_owned()], ", "), "a, , c");
}

#[test]
fn a_text_is_split_into_lines() {
    for s in ["", "\n", "a", "a\n", "a\r\n", "a\r", "a\n\nb", "a\r\r\n", "\r\n\r\nx", "ä\nö\r\n"] {
        assert_eq!(lines(s), s.lines().collect::<Vec<_>>(), "{s:?}");
    }
    assert_eq!(longest(&lines("ab\näöü\n")), 3);
    assert_eq!(longest(&Vec::new()), 0);
}

#[test]
fn a_path_is_shortened_to_its_last_two_components() {
    assert_eq!(shorten_path("/home/me/project/tests/menu.rs"), "tests/menu.rs");
    assert_eq!(shorten_path("C:\\work\\tests\\menu.rs"), "tests/menu.rs");
    assert_eq!(shorten_path("tests/menu.rs"), "tests/menu.rs");
    assert_eq!(shorten_path("tests\\menu.rs"), "tests\\menu.rs");
    assert_eq!(shorten_path("menu.rs"), "menu.rs");
    assert_eq!(shorten_path("a/b/"), "b/");
    assert_eq!(shorten_path(""), "");
}

#[test]
fn line_numbers_stand_at_the_right_of_four_columns() {
    for n in [0, 1, 42, 999, 1000, 12345, u32::MAX] {
        assert_eq!(gutter(n), format!("{n:>4} "));
    }
}

fn marked() -> SourceView {
    SourceView {
        path: "/work/tests/menu.rs".to_owned(),
        contents: Some("one\ntwo\nthree\nfour\n".to_owned()),
        call_site_line: Some(3),
        event_lines: vec![2, 3, 4],
        panic_line: Some(4),
    }
}

#[test]
fn a_panic_is_marked_before_a_call_and_a_call_before_an_event() {
    let source = marked();
    assert_eq!(source.tint(1), None);
    assert_eq!(source.tint(2), Some(Tint::Event));
    assert_eq!(source.tint(3), Some(Tint::CallSite));
    assert_eq!(source.tint(4), Some(Tint::Panic));
}

#[test]
fn the_source_scrolls_to_the_panic_else_the_call_else_the_first_event() {
    let mut source = marked();
    assert_eq!((source.focus_line(), source.focus_row()), (Some(4), Some(3)));
    source.panic_line = None;
    assert_eq!((source.focus_line(), source.focus_row()), (Some(3), Some(2)));
    source.call_site_line = None;
    assert_eq!((source.focus_line(), source.focus_row()), (Some(2), Some(1)));
    source.event_lines = vec![0];
    assert_eq!((source.focus_line(), source.focus_row()), (Some(0), Some(0)));
    source.event_lines = Vec::new();
    assert_eq!((source.focus_line(), source.focus_row()), (None, None));
}

#[test]
fn only_the_rows_in_view_are_shown() {
    let source = marked();
    let rows = source.visible_rows(1, 3, 4);
    let shown: Vec<(usize, u32, Option<Tint>)> =
        rows.iter().map(|row| (row.index, row.line_no, row.tint)).collect();
    assert_eq!(shown, [(1, 2, Some(Tint::Event)), (2, 3, Some(Tint::CallSite))]);
    assert_eq!(source.visible_rows(2, 99, 4).len(), 2);
    assert!(source.visible_rows(9, 99, 4).is_empty());
    assert!(source.visible_rows(3, 1, 4).is_empty());
    assert!(source.visible_rows(0, 5, 0).is_empty());
}

#[test]
fn a_source_says_where_it_comes_from() {
    let mut source = marked();
    assert_eq!(source.producer().as_deref(), Some("(producer: line 3)"));
    assert_eq!(source.unreadable(), "(couldn't read /work/tests/menu.rs)");
    source.call_site_line = None;
    assert_eq!(source.producer(), None);
}
