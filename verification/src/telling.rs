//! What callers and users are told, word by word.
use vstd::prelude::*;

use crate::details::{Outlined, WidgetSectionV};
use crate::controls;
use crate::controls::Tone;
use crate::id;
use crate::id::{Id, IdFault};
use crate::inspector::{Frame, StateV};
use crate::node::NodeV;
use crate::outline;
use crate::outline::NodeFacts;
use crate::query::{LocatorV, QueryV};
use crate::resolve::MissV;
use crate::roles;
use crate::source;
use crate::source::{SourceView, Tint};
use crate::text;
use crate::widget;
use crate::wording;

verus! {

/// `s` starts with `head`, ends with `tail`, and has `inner` between them.
pub open spec fn framed(s: Seq<char>, head: Seq<char>, inner: Seq<char>, tail: Seq<char>) -> bool {
    s == head + inner + tail
}

/// Who passes a malformed id is told the whole of what was passed and what is wrong with it.
pub proof fn law_a_malformed_id_is_quoted(t: Seq<char>)
    ensures
        framed(
            id::malformed(t, IdFault::Empty),
            "invalid widget id `"@ + t + "` ("@,
            "cannot parse integer from empty string"@,
            ") — pass an `id` exactly as `widget_tree` returned it"@,
        ),
        framed(
            id::malformed(t, IdFault::InvalidDigit),
            "invalid widget id `"@ + t + "` ("@,
            "invalid digit found in string"@,
            ") — pass an `id` exactly as `widget_tree` returned it"@,
        ),
        framed(
            id::malformed(t, IdFault::TooLarge),
            "invalid widget id `"@ + t + "` ("@,
            "number too large to fit in target type"@,
            ") — pass an `id` exactly as `widget_tree` returned it"@,
        ),
{
}

/// A text is malformed for one reason: it is empty but for white space, or it starts with more
/// than sixteen hexadecimal digits, or else it holds something that is no such digit.
pub proof fn law_why_an_id_is_malformed(t: Seq<char>)
    ensures
        id::parsed(t) == Err::<Id, IdFault>(IdFault::Empty) <==> text::trim(t).len() == 0,
        id::parsed(t) == Err::<Id, IdFault>(IdFault::TooLarge) <==> text::trim(t).len() > 16
            && forall|i: int| 0 <= i < 17 ==> text::hex_digit(#[trigger] text::trim(t)[i]) is Some,
        id::parsed(t) == Err::<Id, IdFault>(IdFault::InvalidDigit) <==> text::trim(t).len() > 0 && !(
        text::trim(t).len() > 16 && forall|i: int|
            0 <= i < 17 ==> text::hex_digit(#[trigger] text::trim(t)[i]) is Some) && exists|i: int|
            0 <= i < text::trim(t).len() && text::hex_digit(#[trigger] text::trim(t)[i]) is None,
{
    let s = text::trim(t);
    if s.len() > 16 {
        let head = s.take(17);
        assert forall|i: int| 0 <= i < 17 implies head[i] == #[trigger] s[i] by {}
        if text::all_hex(head) {
            assert forall|i: int| 0 <= i < 17 implies text::hex_digit(#[trigger] s[i]) is Some by {
                assert(text::hex_digit(head[i]) is Some);
            }
        }
        if forall|i: int| 0 <= i < 17 ==> text::hex_digit(#[trigger] s[i]) is Some {
            assert forall|i: int| 0 <= i < head.len() implies text::hex_digit(#[trigger] head[i]) is Some by {
                assert(text::hex_digit(s[i]) is Some);
            }
        }
        if text::all_hex(s) {
            assert forall|i: int| 0 <= i < head.len() implies text::hex_digit(#[trigger] head[i]) is Some by {
                assert(text::hex_digit(s[i]) is Some);
            }
        }
    }
}

/// A locator is named by its id in hex, or by its constraints in words; one alone is just that.
pub proof fn law_a_locator_is_named(id: Id, needle: Seq<char>)
    ensures
        (LocatorV::Id { id }).words() == "id `"@ + text::numeral(id.0 as nat, 16) + "`"@,
        QueryV::nothing().words() == "the locator"@,
        (QueryV { role: Some(needle), ..QueryV::nothing() }).words() == "role `"@ + needle + "`"@,
        (QueryV { label_contains: Some(needle), ..QueryV::nothing() }).words()
            == "label containing `"@ + needle + "`"@,
        (QueryV { value_contains: Some(needle), ..QueryV::nothing() }).words()
            == "value containing `"@ + needle + "`"@,
        (QueryV { content_contains: Some(needle), ..QueryV::nothing() }).words()
            == "label or value containing `"@ + needle + "`"@,
{
    let a = QueryV { role: Some(needle), ..QueryV::nothing() };
    let b = QueryV { label_contains: Some(needle), ..QueryV::nothing() };
    let c = QueryV { value_contains: Some(needle), ..QueryV::nothing() };
    let d = QueryV { content_contains: Some(needle), ..QueryV::nothing() };
    assert(a.clauses() =~= seq!["role `"@ + needle + "`"@]);
    assert(b.clauses() =~= seq!["label containing `"@ + needle + "`"@]);
    assert(c.clauses() =~= seq!["value containing `"@ + needle + "`"@]);
    assert(d.clauses() =~= seq!["label or value containing `"@ + needle + "`"@]);
}

/// Several constraints are named one after the other, with `and` between them: that on either
/// text, that on the role, that on the label, that on the value.
pub proof fn law_constraints_are_named_in_order(q: QueryV)
    ensures
        (LocatorV::Match { query: q }).words() == q.words(),
        q.content_contains is Some && (q.role is Some || q.label_contains is Some
            || q.value_contains is Some) ==> q.words() == (QueryV {
            content_contains: q.content_contains,
            ..QueryV::nothing()
        }).words() + " and "@ + (QueryV { content_contains: None, ..q }).words(),
        q.content_contains is None && q.role is Some && (q.label_contains is Some
            || q.value_contains is Some) ==> q.words() == (QueryV {
            role: q.role,
            ..QueryV::nothing()
        }).words() + " and "@ + (QueryV { role: None, ..q }).words(),
        q.content_contains is None && q.role is None && q.label_contains is Some
            && q.value_contains is Some ==> q.words() == (QueryV {
            label_contains: q.label_contains,
            ..QueryV::nothing()
        }).words() + " and "@ + (QueryV { label_contains: None, ..q }).words(),
{
    if q.content_contains is Some && (q.role is Some || q.label_contains is Some
        || q.value_contains is Some) {
        let one = QueryV { content_contains: q.content_contains, ..QueryV::nothing() };
        let rest = QueryV { content_contains: None, ..q };
        assert(q.clauses() =~= one.clauses() + rest.clauses());
        wording::law_joining_separates(one.clauses(), rest.clauses(), " and "@);
    } else if q.content_contains is None && q.role is Some && (q.label_contains is Some
        || q.value_contains is Some) {
        let one = QueryV { role: q.role, ..QueryV::nothing() };
        let rest = QueryV { role: None, ..q };
        assert(q.clauses() =~= one.clauses() + rest.clauses());
        wording::law_joining_separates(one.clauses(), rest.clauses(), " and "@);
    } else if q.content_contains is None && q.role is None && q.label_contains is Some
        && q.value_contains is Some {
        let one = QueryV { label_contains: q.label_contains, ..QueryV::nothing() };
        let rest = QueryV { label_contains: None, ..q };
        assert(q.clauses() =~= one.clauses() + rest.clauses());
        wording::law_joining_separates(one.clauses(), rest.clauses(), " and "@);
    }
}

/// A miss is told with what was looked for; where several nodes were found, with their number and
/// with the list of them, or with their number again where there is no list.
pub proof fn law_a_miss_is_told(e: MissV, list: Seq<char>)
    ensures
        e matches MissV::NotFound { what } ==> e.words(None) == "no node found matching "@ + what
            && e.words(Some(list)) == "no node found matching "@ + what,
        e matches MissV::Ambiguous { what, matches } ==> {
            let start = what + " matched "@ + text::numeral(matches.len(), 10)
                + " nodes — narrow the locator (`content_contains`/`role`/`label_contains`/`value_contains`), or target a specific `id`. Matches:\n"@;
            &&& e.words(Some(list)) == start + list
            &&& e.words(None) == start + (text::numeral(matches.len(), 10) + " nodes"@)
        },
{
}

/// Who names an unknown role is told that role and the roles that there are.
pub proof fn law_an_unknown_role_is_told(role: Seq<char>, present: Seq<Seq<char>>)
    ensures
        present.len() == 0 ==> roles::unknown_role(role, present) == "unknown role `"@ + role
            + "` — roles present in the current tree: "@ + "(no nodes in the current tree)"@,
        present.len() > 0 ==> roles::unknown_role(role, present) == "unknown role `"@ + role
            + "` — roles present in the current tree: "@ + text::joined(present, ", "@),
{
}

/// A role is known exactly if it is one of the known ones but for the case of its letters.
pub proof fn law_case_does_not_make_a_role(role: Seq<char>, known: Seq<Seq<char>>, i: int)
    ensures
        0 <= i < known.len() && text::lower(known[i]) == text::lower(role) ==> roles::is_known(
            role,
            known,
        ),
        (forall|k: int| 0 <= k < known.len() ==> text::lower(#[trigger] known[k]) != text::lower(role))
            ==> !roles::is_known(role, known),
{
}

/// Up to a hundred characters of a text are handed out as they are; of a longer one the first
/// hundred and the mark of the cut.
pub proof fn law_a_text_is_cut_after_a_hundred_characters(s: Seq<char>)
    ensures
        s.len() <= 100 ==> widget::shortened(s) == s,
        s.len() > 100 ==> widget::shortened(s) == s.take(100) + " […]"@,
        widget::opt_shortened(Some(s)) == Some(widget::shortened(s)),
        widget::opt_shortened(None::<Seq<char>>) is None,
{
}

/// The text of a node is its label and its value with a blank between them.
pub proof fn law_a_node_carries_its_label_and_its_value(n: NodeV)
    ensures
        n.label is None && n.value is None ==> widget::owned_text(n) == " "@,
        n.label matches Some(label) ==> (n.value matches Some(value) ==> widget::owned_text(n)
            == label + " "@ + value),
        n.label matches Some(label) ==> (n.value is None ==> widget::owned_text(n) == label + " "@),
        n.value matches Some(value) ==> (n.label is None ==> widget::owned_text(n) == " "@ + value),
{
    assert(widget::owned_text(n) =~= text::or_empty(n.label) + " "@ + text::or_empty(n.value));
    if n.label is None && n.value is None {
        assert(widget::owned_text(n) =~= " "@);
    } else if n.label is None {
        assert(widget::owned_text(n) =~= " "@ + n.value->0);
    } else if n.value is None {
        assert(widget::owned_text(n) =~= n.label->0 + " "@);
    }
}

/// The status tells the outcome once there is one, whatever else holds; before that, whether the
/// harness is gone, blocked or running.
pub proof fn law_the_status_tells_the_outcome_first<P, E>(s: StateV<P, E>)
    ensures
        s.test_outcome matches Some(outcome) ==> {
            &&& outcome.ok ==> s.status_shown() == (Tone::Passed, "✅ test passed"@)
            &&& !outcome.ok ==> s.status_shown().0 == Tone::Failed
            &&& !outcome.ok && outcome.message is None ==> s.status_shown().1
                == "❌ test failed: "@ + "(no message)"@
            &&& !outcome.ok ==> (outcome.message matches Some(message) ==> s.status_shown().1
                == "❌ test failed: "@ + message@)
        },
        s.test_outcome is None ==> s.status_shown() == (Tone::Plain, if !s.connected {
            "harness disconnected"@
        } else if s.harness_blocked {
            "harness blocked"@
        } else {
            "harness running"@
        }),
{
}

/// The widget section speaks of the selected widget, else of the hovered one, and its title says
/// which.
pub proof fn law_a_selected_widget_is_in_focus<P, E>(s: StateV<P, E>)
    ensures
        s.selected_node is Some ==> s.focus() == s.selected_node && s.focus_title()
            == "Selected widget"@,
        s.selected_node is None ==> s.focus() == s.hovered_node,
        s.selected_node is None && s.hovered_node is Some ==> s.focus_title() == "Hovered widget"@,
        s.selected_node is None && s.hovered_node is None ==> s.focus_title() == "Widget"@,
{
}

/// The widget section shows the details of the node in focus if the frame has it, says so if it
/// has not, and shows a hint if nothing is in focus or the frame has no nodes.
pub proof fn law_the_widget_in_focus_is_described<P, E>(s: StateV<P, E>, frame: Frame<P>)
    ensures
        s.selected_node is None && s.hovered_node is None ==> s.section_for(frame) is Hint,
        frame.nodes is None ==> s.section_for(frame) is Hint,
        frame.nodes matches Some(list) ==> (s.focus() matches Some(id) ==> {
            &&& s.section_for(frame) is NotInTree <==> forall|k: int|
                0 <= k < list.nodes@.len() ==> (#[trigger] list.nodes@[k]).id != id
            &&& !(s.section_for(frame) is NotInTree) ==> exists|k: int|
                {
                    &&& 0 <= k < list.nodes@.len()
                    &&& (#[trigger] list.nodes@[k]).id == id
                    &&& s.section_for(frame) == WidgetSectionV::Details(list.nodes@[k].rows())
                }
        }),
{
    if frame.nodes is Some && s.focus() is Some {
        let nodes = frame.nodes->0.nodes@;
        let id = s.focus()->0;
        outline::law_what_is_found_has_the_id(nodes, id);
        if outline::first_with(nodes, id) is Some {
            let node = outline::first_with(nodes, id)->0;
            let k = nodes.index_of(node);
            assert(nodes[k] == node);
            assert(nodes[k].id == id);
        }
    }
}

/// The grid of a frame tells the peer's name if it gave one, the step, the size if there is a
/// screenshot, the scale, and the number of nodes, in this order.
pub proof fn law_the_frame_grid_tells_what_is_known<P, E>(
    s: StateV<P, E>,
    frame: Frame<P>,
    scale: Seq<char>,
)
    ensures
        ({
            let rows = s.frame_rows_for(frame, scale);
            let named = if s.peer_label is Some {
                1int
            } else {
                0
            };
            let sized = if frame.screenshot is Some {
                1int
            } else {
                0
            };
            &&& rows.len() == 3 + named + sized
            &&& s.peer_label matches Some(label) ==> rows[0] == ("Peer:"@, label)
            &&& rows[named] == ("Step:"@, text::numeral(frame.step as nat, 10))
            &&& frame.screenshot matches Some(shot) ==> rows[named + 1] == (
                "Size (px):"@,
                text::numeral(shot.width as nat, 10) + " × "@ + text::numeral(
                    shot.height as nat,
                    10,
                ),
            )
            &&& rows[named + sized + 1] == ("Pixels per point:"@, scale)
            &&& rows[named + sized + 2].0 == "AccessKit nodes:"@
            &&& frame.nodes is None ==> rows[named + sized + 2].1 == text::numeral(0, 10)
            &&& frame.nodes matches Some(list) ==> rows[named + sized + 2].1 == text::numeral(
                list.nodes@.len(),
                10,
            )
        }),
{
}

/// On the image the selected widget is outlined, and then the hovered one if it is another, and
/// neither in control mode.
pub proof fn law_what_is_outlined<P, E>(s: StateV<P, E>)
    ensures
        s.control_enabled ==> s.outlines().len() == 0,
        !s.control_enabled ==> {
            &&& s.selected_node is None && s.hovered_node is None ==> s.outlines().len() == 0
            &&& s.selected_node matches Some(id) ==> s.outlines().len() > 0 && s.outlines()[0] == (
                id,
                Outlined::Selected,
            )
            &&& s.selected_node is Some && (s.hovered_node is None || s.hovered_node
                == s.selected_node) ==> s.outlines().len() == 1
            &&& s.hovered_node matches Some(id) ==> (s.selected_node != Some(id)
                ==> s.outlines().len() > 0 && s.outlines().last() == (id, Outlined::Hovered))
            &&& s.selected_node is None && s.hovered_node is Some ==> s.outlines().len() == 1
            &&& s.selected_node is Some && s.hovered_node is Some && s.hovered_node
                != s.selected_node ==> s.outlines().len() == 2
        },
{
}

/// The source shown is the outcome's if it has one, else the frame's.
pub proof fn law_which_source_is_shown<P, E>(s: StateV<P, E>, frame: Frame<P>)
    ensures
        s.test_outcome is None ==> s.source_for(frame) == frame.source,
        s.test_outcome matches Some(outcome) ==> {
            &&& outcome.source is Some ==> s.source_for(frame) == outcome.source
            &&& outcome.source is None ==> s.source_for(frame) == frame.source
        },
{
}

/// A line is marked as the panic, else as the call site, else as an event, else not at all; and
/// the source scrolls to the panic, else to the call site, else to the first event.
pub proof fn law_the_panic_comes_first(source: SourceView, line: u32)
    ensures
        source.panic_line == Some(line) <==> source.tint_of(line) == Some(Tint::Panic),
        source.panic_line != Some(line) ==> (source.call_site_line == Some(line) <==> source.tint_of(
            line,
        ) == Some(Tint::CallSite)),
        source.panic_line != Some(line) && source.call_site_line != Some(line) ==> (
        source.event_lines@.contains(line) <==> source.tint_of(line) == Some(Tint::Event)),
        source.panic_line is Some ==> source.focus() == source.panic_line,
        source.panic_line is None && source.call_site_line is Some ==> source.focus()
            == source.call_site_line,
        source.panic_line is None && source.call_site_line is None ==> (source.focus() is Some
            <==> source.event_lines@.len() > 0) && (source.event_lines@.len() > 0
            ==> source.focus() == Some(source.event_lines@[0])),
{
}

/// The rows shown are those of the lines in view that are there, in order, each with its number
/// and its mark.
pub proof fn law_the_rows_in_view_are_shown(
    source: SourceView,
    first: int,
    past: int,
    total: int,
    k: int,
)
    requires
        0 <= first,
        0 <= total <= u32::MAX,
    ensures
        first < past && first < total ==> source.rows_shown(first, past, total).len() == (if past
            < total {
            past - first
        } else {
            total - first
        }),
        !(first < past && first < total) ==> source.rows_shown(first, past, total).len() == 0,
        0 <= k < source.rows_shown(first, past, total).len() ==> {
            let row = source.rows_shown(first, past, total)[k];
            &&& row.line_no == first + k + 1
            &&& row.index == (first + k) as usize
            &&& row.tint == source.tint_of(row.line_no)
        },
{
}

/// A path of up to two components is shown as it is, and of a longer one the last two, with a
/// slash between them.
pub proof fn law_a_long_path_is_shown_by_its_end(path: Seq<char>)
    ensures
        text::split(path, '/', '\\').len() <= 2 ==> source::short_path(path) == path,
        text::split(path, '/', '\\').len() > 2 ==> exists|head: Seq<Seq<char>>, a: Seq<char>, b: Seq<
            char,
        >|
            text::split(path, '/', '\\') == #[trigger] (head.push(a).push(b)) && source::short_path(
                path,
            ) == a + "/"@ + b,
{
    let parts = text::split(path, '/', '\\');
    if parts.len() > 2 {
        let head = parts.take(parts.len() - 2);
        let a = parts[parts.len() - 2];
        let b = parts[parts.len() - 1];
        assert(parts =~= head.push(a).push(b));
    }
}

/// The longest line is as long as some line, and no line is longer.
pub proof fn law_the_longest_line_is_the_longest(ls: Seq<Seq<char>>)
    ensures
        forall|i: int| 0 <= i < ls.len() ==> (#[trigger] ls[i]).len() <= source::longest_of(ls),
        ls.len() == 0 ==> source::longest_of(ls) == 0,
        ls.len() > 0 ==> exists|i: int|
            0 <= i < ls.len() && (#[trigger] ls[i]).len() == source::longest_of(ls),
    decreases ls.len(),
{
    if ls.len() > 0 {
        let rest = ls.drop_last();
        let last = ls.len() - 1;
        law_the_longest_line_is_the_longest(rest);
        assert forall|i: int| 0 <= i < ls.len() implies (#[trigger] ls[i]).len()
            <= source::longest_of(ls) by {
            if i < last {
                assert(rest[i] == ls[i]);
            }
        }
        if ls[last].len() >= source::longest_of(rest) {
            assert(ls[last].len() == source::longest_of(ls));
        } else {
            let i = choose|i: int|
                0 <= i < rest.len() && (#[trigger] rest[i]).len() == source::longest_of(rest);
            assert(ls[i] == rest[i]);
        }
    }
}

/// A line number stands at the right of its columns: blanks, then the number, and no blank where
/// the number fills them.
pub proof fn law_a_line_number_stands_at_the_right(s: Seq<char>, width: nat, i: int)
    ensures
        s.len() >= width ==> source::right_aligned(s, width) == s,
        s.len() < width ==> source::right_aligned(s, width).len() == width,
        s.len() < width && 0 <= i < width - s.len() ==> source::right_aligned(s, width)[i] == ' ',
        s.len() < width ==> source::right_aligned(s, width).skip(width - s.len()) == s,
{
    if s.len() < width {
        assert(source::right_aligned(s, width).skip(width - s.len()) =~= s);
    }
}

/// The line of a node in the outline is its role, followed by its label if it has one that is not
/// empty, or by its value if it has no label and a value that is not empty.
pub proof fn law_the_outline_quotes_the_label_or_the_value(node: NodeFacts)
    ensures
        node.label matches Some(label) ==> node.line() == (if label@.len() > 0 {
            node.role@ + "  "@ + outline::quoted(label@)
        } else {
            node.role@
        }),
        node.label is None ==> (node.value matches Some(value) ==> node.line() == (if value@.len() > 0 {
            node.role@ + "  "@ + outline::quoted(value@)
        } else {
            node.role@
        })),
        node.label is None && node.value is None ==> node.line() == node.role@,
{
}

/// A size to ask for is kept between one and eight thousand one hundred and ninety-two.
pub proof fn law_a_size_is_kept_in_bounds(n: u32)
    ensures
        1 <= controls::bounded(n) <= 8192,
        1 <= n <= 8192 ==> controls::bounded(n) == n,
        n == 0 ==> controls::bounded(n) == 1,
        n > 8192 ==> controls::bounded(n) == 8192,
{
}

}
