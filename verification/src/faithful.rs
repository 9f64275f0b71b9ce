//! What the library's values are taken to hold: every field, as it is.
use vstd::prelude::*;

use crate::details::{WidgetSection, WidgetSectionV};
use crate::inspector;
use crate::inspector::{Command, CommandV, InspectorApp};
use crate::node::{Node, Tree};
use crate::outline;
use crate::outline::GridRow;
use crate::query::{Exclusion, Locator, LocatorV, Query, QueryFilter};
use crate::resolve::{MissV, ResolveError};
use crate::screenshot::Picture;
use crate::widget;
use crate::widget::{Widget, WidgetDetail};

verus! {

/// A text that may be absent holds that text, or nothing.
pub open spec fn is_text(seen: Option<Seq<char>>, s: Option<String>) -> bool {
    &&& seen is Some <==> s is Some
    &&& s matches Some(s) ==> seen->0 == s@
}

/// A query holds its four constraints.
pub proof fn law_a_query_holds_its_constraints(q: Query)
    ensures
        q.content_contains is Some <==> q@.content_contains is Some,
        q.content_contains matches Some(s) ==> q@.content_contains->0 == s@,
        q.role is Some <==> q@.role is Some,
        q.role matches Some(s) ==> q@.role->0 == s@,
        q.label_contains is Some <==> q@.label_contains is Some,
        q.label_contains matches Some(s) ==> q@.label_contains->0 == s@,
        q.value_contains is Some <==> q@.value_contains is Some,
        q.value_contains matches Some(s) ==> q@.value_contains->0 == s@,
{
}

/// A filter holds its query, root, exclusion, visibility and limit.
pub proof fn law_a_filter_holds_its_fields(f: QueryFilter, e: Exclusion)
    ensures
        f@.query == f.query@,
        f@.root == f.root,
        f@.exclude is Some <==> f.exclude is Some,
        f.exclude matches Some(exclude) ==> f@.exclude->0 == exclude@,
        f@.visible_only == f.visible_only,
        f@.limit == f.limit,
        e@.id == e.id,
        e@.query == e.query@,
{
}

/// A locator holds its id or its query.
pub proof fn law_a_locator_holds_its_target(l: Locator)
    ensures
        l matches Locator::Id { id } ==> l@ == (LocatorV::Id { id }),
        l matches Locator::Match { query } ==> l@ == (LocatorV::Match { query: query@ }),
{
}

/// A node holds its fields and, in order, its children.
pub proof fn law_a_node_holds_its_fields(n: Node, t: Tree, i: int)
    ensures
        n@.id == n.id,
        n@.role == n.role@,
        is_text(n@.label, n.label),
        is_text(n@.value, n.value),
        n@.bounds == n.bounds,
        n@.focused == n.focused,
        n@.disabled == n.disabled,
        n@.hidden == n.hidden,
        n@.parent_id == n.parent_id,
        n@.children.len() == n.children@.len(),
        0 <= i < n.children@.len() ==> n@.children[i] == n.children@[i]@,
        t@ == t.root@,
{
}

/// A widget holds its fields and, in order, its children.
pub proof fn law_a_widget_holds_its_fields(w: Widget, ws: Seq<Widget>, i: int)
    ensures
        w@.id == w.id,
        is_text(w@.role, w.role),
        is_text(w@.label, w.label),
        is_text(w@.value, w.value),
        w@.focused == w.focused,
        w@.disabled == w.disabled,
        w@.hidden == w.hidden,
        w@.omitted_children == w.omitted_children,
        w@.children.len() == w.children@.len(),
        0 <= i < w.children@.len() ==> w@.children[i] == w.children@[i]@,
        widget::forest(ws).len() == ws.len(),
        0 <= i < ws.len() ==> widget::forest(ws)[i] == ws[i]@,
{
}

/// The detail of a widget holds its fields.
pub proof fn law_a_detail_holds_its_fields(d: WidgetDetail)
    ensures
        d@.id == d.id,
        d@.role == d.role@,
        is_text(d@.label, d.label),
        is_text(d@.value, d.value),
        d@.bounds == d.bounds,
        d@.focused == d.focused,
        d@.disabled == d.disabled,
        d@.hidden == d.hidden,
        d@.parent_id == d.parent_id,
{
}

/// A miss holds what was looked for and, in order, the details of what was found instead.
pub proof fn law_a_miss_holds_its_fields(e: ResolveError, i: int)
    ensures
        e matches ResolveError::NotFound { what } ==> e@ == (MissV::NotFound { what: what@ }),
        e matches ResolveError::Ambiguous { what, matches } ==> {
            &&& e@ matches MissV::Ambiguous { what: told, matches: listed }
            &&& told == what@
            &&& listed.len() == matches@.len()
            &&& 0 <= i < matches@.len() ==> listed[i] == matches@[i]@
        },
{
}

/// A picture holds its size and its bytes, and a grid its rows.
pub proof fn law_a_picture_holds_its_pixels(p: Picture, rows: Seq<GridRow>, i: int)
    ensures
        p@ == (p.width, p.height, p.rgba@),
        outline::rows_view(rows).len() == rows.len(),
        0 <= i < rows.len() ==> outline::rows_view(rows)[i] == (rows[i].name@, rows[i].value@),
{
}

/// A command holds what it asks for.
pub proof fn law_a_command_holds_what_it_asks_for<E>(c: Command<E>, o: Option<Command<E>>)
    ensures
        c@ is Play <==> c is Play,
        c@ is Pause <==> c is Pause,
        c@ is Step <==> c is Step,
        c@ is Run <==> c is Run,
        c@ is Screenshot <==> c is Screenshot,
        c matches Command::SetContinuousScreenshots(on) ==> c@
            == CommandV::<E>::SetContinuousScreenshots(on),
        c matches Command::Resize { width, height } ==> c@ == (CommandV::<E>::Resize { width, height }),
        c matches Command::Handle { events } ==> c@ == (CommandV::Handle { events: events@ }),
        o is None <==> inspector::command_view(o) is None,
        o matches Some(c) ==> inspector::command_view(o) == Some(c@),
{
}

/// What the widget section shows holds its rows, if it has any.
pub proof fn law_a_section_holds_its_rows(s: WidgetSection)
    ensures
        s@ is NotInTree <==> s is NotInTree,
        s@ is Hint <==> s is Hint,
        s matches WidgetSection::Details(rows) ==> s@ == WidgetSectionV::Details(
            outline::rows_view(rows@),
        ),
{
}

/// The state of the inspector holds every field.
pub proof fn law_the_state_holds_every_field<P, E>(a: InspectorApp<P, E>)
    ensures
        a@.play_state == a.play_state,
        a@.harness_blocked == a.harness_blocked,
        a@.test_outcome == a.test_outcome,
        a@.history == a.history@,
        a@.view_index == a.view_index,
        a@.textured_step == a.textured_step,
        a@.connected == a.connected,
        a@.hovered_node == a.hovered_node,
        a@.selected_node == a.selected_node,
        a@.control_enabled == a.control_enabled,
        a@.queued_events == a.queued_events@,
        a@.scroll_pending == a.scroll_pending,
        is_text(a@.status_message, a.status_message),
        a@.resize_target == a.resize_target,
        a@.awaiting_screenshot == a.awaiting_screenshot,
        is_text(a@.peer_label, a.peer_label),
{
}

}
