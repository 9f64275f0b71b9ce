//! The source panel: which file it shows, which lines it marks, and where it scrolls.
use vstd::prelude::*;
use vstd::string::*;

use crate::text;
use crate::wording;

verus! {

/// A source file with the lines that matter for a frame.
#[derive(Debug, Clone)]
pub struct SourceView {
    pub path: String,
    /// The text of the file, if it could be read.
    pub contents: Option<String>,
    /// The line that produced the frame.
    pub call_site_line: Option<u32>,
    /// The lines that queued the frame's events.
    pub event_lines: Vec<u32>,
    /// The line that panicked.
    pub panic_line: Option<u32>,
}

/// How a line is marked.
#[derive(Debug, Clone, Copy, PartialEq, Eq, Structural)]
pub enum Tint {
    Panic,
    CallSite,
    Event,
}

impl SourceView {
    /// The mark of a line: a panic before a call site, a call site before an event.
    pub open spec fn tint_of(self, line_no: u32) -> Option<Tint> {
        if self.panic_line == Some(line_no) {
            Some(Tint::Panic)
        } else if self.call_site_line == Some(line_no) {
            Some(Tint::CallSite)
        } else if self.event_lines@.contains(line_no) {
            Some(Tint::Event)
        } else {
            None
        }
    }

    /// The line to scroll to: the panic, else the call site, else the first event.
    pub open spec fn focus(self) -> Option<u32> {
        if self.panic_line is Some {
            self.panic_line
        } else if self.call_site_line is Some {
            self.call_site_line
        } else if self.event_lines@.len() > 0 {
            Some(self.event_lines@[0])
        } else {
            None
        }
    }

    /// The mark of a line: a panic before a call site, a call site before an event.
    pub fn tint(&self, line_no: u32) -> (r: Option<Tint>)
        ensures
            r == self.tint_of(line_no),
            r == Some(Tint::Panic) <==> self.panic_line == Some(line_no),
            r == Some(Tint::CallSite) <==> self.panic_line != Some(line_no) && self.call_site_line
                == Some(line_no),
            r == Some(Tint::Event) <==> self.panic_line != Some(line_no) && self.call_site_line
                != Some(line_no) && self.event_lines@.contains(line_no),
    {
        if let Some(line) = self.panic_line {
            if line == line_no {
                return Some(Tint::Panic);
            }
        }
        if let Some(line) = self.call_site_line {
            if line == line_no {
                return Some(Tint::CallSite);
            }
        }
        let mut i: usize = 0;
        while i < self.event_lines.len()
            invariant
                i <= self.event_lines@.len(),
                self.panic_line != Some(line_no),
                self.call_site_line != Some(line_no),
                forall|k: int| 0 <= k < i ==> self.event_lines@[k] != line_no,
            decreases self.event_lines.len() - i,
        {
            if self.event_lines[i] == line_no {
                return Some(Tint::Event);
            }
            i += 1;
        }
        None
    }

    /// The line to scroll to. A panic takes precedence, so failed tests jump straight to it.
    pub fn focus_line(&self) -> (r: Option<u32>)
        ensures
            r == self.focus(),
            self.panic_line is Some ==> r == self.panic_line,
            self.panic_line is None && self.call_site_line is Some ==> r == self.call_site_line,
            self.panic_line is None && self.call_site_line is None && self.event_lines@.len() > 0
                ==> r == Some(self.event_lines@[0]),
            r is None <==> self.panic_line is None && self.call_site_line is None
                && self.event_lines@.len() == 0,
    {
        if self.panic_line.is_some() {
            self.panic_line
        } else if self.call_site_line.is_some() {
            self.call_site_line
        } else if self.event_lines.len() > 0 {
            Some(self.event_lines[0])
        } else {
            None
        }
    }

    /// What stands beside the path: the line that produced the frame, if it is known.
    pub fn producer(&self) -> (r: Option<String>)
        ensures
            r is Some <==> self.call_site_line is Some,
            r is Some ==> r->0@ == "(producer: line "@ + text::numeral(
                self.call_site_line->0 as nat,
                10,
            ) + ")"@,
    {
        match self.call_site_line {
            None => None,
            Some(line) => {
                let mut words = "(producer: line ".to_owned();
                words.append(text::numeral_text(line as u128, 10).as_str());
                words.append(")");
                Some(words)
            },
        }
    }

    /// What stands in place of the text where the file could not be read.
    pub fn unreadable(&self) -> (r: String)
        ensures
            r@ == "(couldn't read "@ + self.path@ + ")"@,
    {
        let mut words = "(couldn't read ".to_owned();
        words.append(self.path.as_str());
        words.append(")");
        words
    }
}

/// The last two components of a longer path; a path of at most two stays as it is.
pub open spec fn short_path(path: Seq<char>) -> Seq<char> {
    let parts = text::split(path, '/', '\\');
    if parts.len() <= 2 {
        path
    } else {
        parts[parts.len() - 2] + "/"@ + parts[parts.len() - 1]
    }
}

/// Shorten a path for display: keep the last two components so we show `tests/menu.rs` instead
/// of a long absolute path, while still disambiguating.
pub fn shorten_path(path: &str) -> (r: String)
    ensures
        r@ == short_path(path@),
        text::split(path@, '/', '\\').len() <= 2 ==> r@ == path@,
        text::split(path@, '/', '\\').len() > 2 ==> ({
            let parts = text::split(path@, '/', '\\');
            r@ == parts[parts.len() - 2] + "/"@ + parts[parts.len() - 1]
        }),
{
    let parts = text::split_text(path, '/', '\\');
    let n: usize = parts.len();
    assert(text::views(parts@).len() == n);
    if n <= 2 {
        path.to_owned()
    } else {
        let mut r = parts[n - 2].clone();
        r.append("/");
        r.append(parts[n - 1].as_str());
        assert(text::views(parts@)[n - 2] == parts@[n - 2]@);
        assert(text::views(parts@)[n - 1] == parts@[n - 1]@);
        r
    }
}

/// A line without the carriage return that its line feed may follow.
pub open spec fn without_return(s: Seq<char>) -> Seq<char> {
    if s.len() > 0 && s.last() == '\r' {
        s.drop_last()
    } else {
        s
    }
}

/// The lines of a text. A line ends with a line feed, perhaps after a carriage return, neither
/// of which is part of it; the last line may end with the text.
pub open spec fn lines_of(s: Seq<char>) -> Seq<Seq<char>> {
    let parts = text::split(s, '\n', '\n');
    let ended = parts.drop_last().map_values(|p: Seq<char>| without_return(p));
    if parts.last().len() == 0 {
        ended
    } else {
        ended.push(parts.last())
    }
}

/// The lines of a text, without what ends them.
pub fn lines(contents: &str) -> (r: Vec<String>)
    ensures
        text::views(r@) == lines_of(contents@),
{
    let parts = text::split_text(contents, '\n', '\n');
    let last: usize = parts.len() - 1;
    let ghost all = text::views(parts@);
    let ghost ended = all.drop_last().map_values(|p: Seq<char>| without_return(p));
    let mut r: Vec<String> = Vec::new();
    let mut i: usize = 0;
    while i < last
        invariant
            i <= last,
            last == parts@.len() - 1,
            all == text::views(parts@),
            ended == all.drop_last().map_values(|p: Seq<char>| without_return(p)),
            text::views(r@) == ended.take(i as int),
        decreases last - i,
    {
        let ghost before = text::views(r@);
        let mut cs = text::to_chars(parts[i].as_str());
        if cs.len() > 0 && cs[cs.len() - 1] == '\r' {
            cs.truncate(cs.len() - 1);
            assert(cs@ =~= parts@[i as int]@.drop_last());
        }
        assert(cs@ == ended[i as int]);
        r.push(text::from_chars(&cs));
        i += 1;
        assert(text::views(r@) =~= before.push(cs@));
        assert(text::views(r@) =~= ended.take(i as int));
    }
    assert(ended.take(i as int) =~= ended);
    let tail = parts[last].clone();
    assert(all.last() == tail@);
    if !tail.as_str().is_empty() {
        r.push(tail);
        assert(text::views(r@) =~= ended.push(tail@));
    }
    r
}

/// The length of the longest of the lines, in characters.
pub open spec fn longest_of(ls: Seq<Seq<char>>) -> nat
    decreases ls.len(),
{
    if ls.len() == 0 {
        0
    } else {
        let before = longest_of(ls.drop_last());
        if ls.last().len() > before {
            ls.last().len()
        } else {
            before
        }
    }
}

/// The length of the longest of the lines, in characters.
pub fn longest(lines: &Vec<String>) -> (r: usize)
    ensures
        r == longest_of(text::views(lines@)),
        forall|i: int| 0 <= i < lines@.len() ==> (#[trigger] lines@[i])@.len() <= r,
        r > 0 ==> exists|i: int| 0 <= i < lines@.len() && (#[trigger] lines@[i])@.len() == r,
{
    let ghost all = text::views(lines@);
    let mut r: usize = 0;
    let mut i: usize = 0;
    while i < lines.len()
        invariant
            i <= lines@.len(),
            all == text::views(lines@),
            r == longest_of(all.take(i as int)),
            forall|k: int| 0 <= k < i ==> (#[trigger] lines@[k])@.len() <= r,
            r > 0 ==> exists|k: int| 0 <= k < i && (#[trigger] lines@[k])@.len() == r,
        decreases lines.len() - i,
    {
        let n: usize = text::to_chars(lines[i].as_str()).len();
        assert(all.take(i + 1).drop_last() =~= all.take(i as int));
        assert(all[i as int] == lines@[i as int]@);
        if n > r {
            r = n;
        }
        i += 1;
    }
    assert(all.take(i as int) =~= all);
    r
}

/// A row of the panel: a line, its number counted from one, and its mark.
#[derive(Debug, Clone, Copy, PartialEq, Eq, Structural)]
pub struct SourceRow {
    /// The line, counted from zero.
    pub index: usize,
    pub line_no: u32,
    pub tint: Option<Tint>,
}

impl SourceView {
    /// The row of a line.
    pub open spec fn row(self, index: int) -> SourceRow {
        SourceRow {
            index: index as usize,
            line_no: (index + 1) as u32,
            tint: self.tint_of((index + 1) as u32),
        }
    }

    /// The rows of a text of `total` lines that a view from line `first` to before line `past`
    /// shows, in order.
    pub open spec fn rows_shown(self, first: int, past: int, total: int) -> Seq<SourceRow> {
        let end = if past < total {
            past
        } else {
            total
        };
        if first >= end {
            Seq::empty()
        } else {
            Seq::new((end - first) as nat, |i: int| self.row(first + i))
        }
    }

    /// The rows of a text of `total` lines that a view from line `first` to before line `past`
    /// shows, in order.
    pub fn visible_rows(&self, first: usize, past: usize, total: usize) -> (r: Vec<SourceRow>)
        requires
            total <= u32::MAX,
        ensures
            r@ == self.rows_shown(first as int, past as int, total as int),
            first < past && first < total ==> r@.len() == (if past < total {
                past - first
            } else {
                total - first
            }),
            !(first < past && first < total) ==> r@.len() == 0,
            forall|k: int|
                0 <= k < r@.len() ==> {
                    let row = #[trigger] r@[k];
                    let line_no = (first + k + 1) as u32;
                    &&& row.index == first + k
                    &&& row.line_no == first + k + 1
                    &&& row.tint is Some && row.tint->0 is Panic <==> self.panic_line == Some(line_no)
                    &&& row.tint is Some && row.tint->0 is CallSite <==> self.panic_line != Some(
                        line_no,
                    ) && self.call_site_line == Some(line_no)
                    &&& row.tint is None <==> self.panic_line != Some(line_no)
                        && self.call_site_line != Some(line_no) && !self.event_lines@.contains(
                        line_no,
                    )
                },
    {
        let end: usize = if past < total {
            past
        } else {
            total
        };
        let mut r: Vec<SourceRow> = Vec::new();
        let mut i: usize = first;
        while i < end
            invariant
                first <= i,
                first <= end ==> i <= end,
                first >= end ==> i == first,
                end <= total <= u32::MAX,
                r@ == Seq::new((i - first) as nat, |k: int| self.row(first + k)),
            decreases end - i,
        {
            let line_no: u32 = i as u32 + 1;
            r.push(SourceRow { index: i, line_no, tint: self.tint(line_no) });
            i += 1;
            assert(r@ =~= Seq::new((i - first) as nat, |k: int| self.row(first + k)));
        }
        assert(r@ =~= self.rows_shown(first as int, past as int, total as int));
        r
    }

    /// The row to scroll to, counted from zero.
    pub fn focus_row(&self) -> (r: Option<u32>)
        ensures
            r == match self.focus() {
                None => None::<u32>,
                Some(line) => Some(if line == 0 { 0u32 } else { (line - 1) as u32 }),
            },
    {
        match self.focus_line() {
            None => None,
            Some(line) => Some(line.saturating_sub(1)),
        }
    }
}

/// A text at the right of a field of `width` characters, or alone if it is longer.
pub open spec fn right_aligned(s: Seq<char>, width: nat) -> Seq<char> {
    if s.len() >= width {
        s
    } else {
        Seq::new((width - s.len()) as nat, |i: int| ' ') + s
    }
}

/// The number in front of a line: at the right of four columns, with a blank after it.
pub fn gutter(line_no: u32) -> (r: String)
    ensures
        r@ == right_aligned(text::numeral(line_no as nat, 10), 4) + " "@,
        text::numeral(line_no as nat, 10).len() >= 4 ==> r@ == text::numeral(line_no as nat, 10)
            + " "@,
        text::numeral(line_no as nat, 10).len() < 4 ==> r@.len() == 4 + " "@.len(),
        text::numeral(line_no as nat, 10).len() < 4 ==> exists|pad: Seq<char>|
            r@ == #[trigger] (pad + text::numeral(line_no as nat, 10) + " "@) && forall|i: int|
                0 <= i < pad.len() ==> #[trigger] pad[i] == ' ',
{
    let number = text::numeral_text(line_no as u128, 10);
    let n: usize = text::to_chars(number.as_str()).len();
    let mut r = String::new();
    let mut i: usize = n;
    while i < 4
        invariant
            n <= i,
            n < 4 ==> i <= 4,
            n >= 4 ==> i == n,
            r@ == Seq::new((i - n) as nat, |k: int| ' '),
        decreases 4 - i,
    {
        r.push(' ');
        i += 1;
        assert(r@ =~= Seq::new((i - n) as nat, |k: int| ' '));
    }
    r.append(number.as_str());
    assert(r@ =~= right_aligned(number@, 4));
    let ghost pad = Seq::new((i - n) as nat, |k: int| ' ');
    assert(r@ =~= pad + number@);
    r.append(" ");
    r
}

/// The lines of a text: each is free of line feeds, and the text is the lines put together with
/// a line feed after each, and a carriage return before it where one was taken away; only after
/// the last line either may be missing.
pub proof fn law_lines_are_what_stands_between_line_feeds(s: Seq<char>, i: int)
    requires
        0 <= i < lines_of(s).len(),
    ensures
        ({
            let parts = text::split(s, '\n', '\n');
            let line = lines_of(s)[i];
            let ended = i < parts.len() - 1;
            &&& !line.contains('\n')
            &&& ended ==> parts[i] == line || parts[i] == line.push('\r')
            &&& ended && parts[i].len() > 0 && parts[i].last() == '\r' ==> parts[i] == line.push('\r')
            &&& !ended ==> parts[i] == line && line.len() > 0
        }),
        lines_of(s).len() == text::split(s, '\n', '\n').len() || lines_of(s).len() + 1
            == text::split(s, '\n', '\n').len(),
        lines_of(s).len() == text::split(s, '\n', '\n').len() <==> text::split(
            s,
            '\n',
            '\n',
        ).last().len() > 0,
{
    let parts = text::split(s, '\n', '\n');
    wording::law_splitting_is_undone_by_joining(s, '\n', '\n');
    let line = lines_of(s)[i];
    assert(!parts[i].contains('\n'));
    if i < parts.len() - 1 {
        assert(line == without_return(parts.drop_last()[i]));
        if parts[i].len() > 0 && parts[i].last() == '\r' {
            assert(parts[i] =~= line.push('\r'));
        }
    }
    assert forall|k: int| 0 <= k < line.len() implies line[k] != '\n' by {
        assert(line[k] == parts[i][k]);
        assert(parts[i].contains(parts[i][k]));
    }
}

}
