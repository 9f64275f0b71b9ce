//! What a query hands out: widgets, and the detail of one.
use vstd::prelude::*;
use vstd::string::*;

use crate::id::Id;
use crate::node::{Node, NodeV};
use crate::query::{FilterV, QueryFilter};
use crate::text;

verus! {

/// The role of a widget that declares no kind, so it tells an agent nothing.
pub const UNKNOWN_ROLE: &'static str = "Unknown";

/// The role of layout scaffolding: a row, a panel's frame. It is a place, not a widget.
pub const GENERIC_CONTAINER_ROLE: &'static str = "GenericContainer";

/// The role of one laid-out line of text, which repeats what the widget above already carries.
pub const TEXT_RUN_ROLE: &'static str = "TextRun";

/// How much of a widget's `label`/`value` [`Widget`] carries before cutting it short.
///
/// A widget's text is unbounded, so a whole-tree query could hand back far more of it than an
/// agent needs to find its way around. Filters still match the full text, and
/// [`widget_detail`] still returns it.
pub const MAX_TEXT_CHARS: usize = 100;

/// Marks text cut short at [`MAX_TEXT_CHARS`]. Distinct enough that an agent can tell it from
/// an ellipsis the app itself drew.
pub const TRUNCATION_MARKER: &'static str = " […]";

/// Everything there is to say of one node, its text in full.
#[derive(Debug, Clone)]
pub struct WidgetDetail {
    pub id: Id,
    pub role: String,
    pub label: Option<String>,
    pub value: Option<String>,
    /// Where the widget is on screen, in physical pixels.
    pub bounds: Option<accesskit::Rect>,
    pub focused: bool,
    pub disabled: bool,
    pub hidden: bool,
    pub parent_id: Option<Id>,
}

/// What a [`WidgetDetail`] holds.
pub struct DetailV {
    pub id: Id,
    pub role: Seq<char>,
    pub label: Option<Seq<char>>,
    pub value: Option<Seq<char>>,
    pub bounds: Option<accesskit::Rect>,
    pub focused: bool,
    pub disabled: bool,
    pub hidden: bool,
    pub parent_id: Option<Id>,
}

impl View for WidgetDetail {
    type V = DetailV;

    open spec fn view(&self) -> DetailV {
        DetailV {
            id: self.id,
            role: self.role@,
            label: text::opt_view(self.label),
            value: text::opt_view(self.value),
            bounds: self.bounds,
            focused: self.focused,
            disabled: self.disabled,
            hidden: self.hidden,
            parent_id: self.parent_id,
        }
    }
}

/// The detail of a node: all it holds but the nodes below it.
pub open spec fn detail_of(n: NodeV) -> DetailV {
    DetailV {
        id: n.id,
        role: n.role,
        label: n.label,
        value: n.value,
        bounds: n.bounds,
        focused: n.focused,
        disabled: n.disabled,
        hidden: n.hidden,
        parent_id: n.parent_id,
    }
}

/// A widget in the hierarchical result of a query.
///
/// Only matching widgets appear; each one nests the matches found in its own subtree. A
/// non-matching widget contributes its matches to its nearest matching ancestor, so a
/// `children` entry is not necessarily a direct child in the app's tree.
///
/// `label` and `value` are cut short at [`MAX_TEXT_CHARS`], marked with a trailing
/// [`TRUNCATION_MARKER`].
#[derive(Debug)]
pub struct Widget {
    pub id: Id,
    /// Absent for a role of `Unknown`, which carries no information.
    pub role: Option<String>,
    pub label: Option<String>,
    pub value: Option<String>,
    pub focused: bool,
    pub disabled: bool,
    pub hidden: bool,
    pub children: Vec<Widget>,
    /// How many of this widget's children a limit left out.
    pub omitted_children: usize,
}

/// What a [`Widget`] holds.
pub struct WidgetV {
    pub id: Id,
    pub role: Option<Seq<char>>,
    pub label: Option<Seq<char>>,
    pub value: Option<Seq<char>>,
    pub focused: bool,
    pub disabled: bool,
    pub hidden: bool,
    pub children: Seq<WidgetV>,
    pub omitted_children: nat,
}

pub open spec fn widget_view(w: Widget) -> WidgetV
    decreases w,
{
    WidgetV {
        id: w.id,
        role: text::opt_view(w.role),
        label: text::opt_view(w.label),
        value: text::opt_view(w.value),
        focused: w.focused,
        disabled: w.disabled,
        hidden: w.hidden,
        children: forest(w.children@),
        omitted_children: w.omitted_children as nat,
    }
}

pub open spec fn forest(ws: Seq<Widget>) -> Seq<WidgetV>
    decreases ws,
{
    Seq::new(
        ws.len(),
        |i: int|
            if 0 <= i < ws.len() {
                widget_view(ws[i])
            } else {
                arbitrary()
            },
    )
}

impl View for Widget {
    type V = WidgetV;

    open spec fn view(&self) -> WidgetV {
        widget_view(*self)
    }
}

impl Clone for Widget {
    fn clone(&self) -> (r: Widget)
        ensures
            r@ == self@,
        decreases self,
    {
        let mut children: Vec<Widget> = Vec::new();
        let mut i: usize = 0;
        while i < self.children.len()
            invariant
                i <= self.children@.len(),
                forest(children@) == forest(self.children@).take(i as int),
            decreases self.children.len() - i,
        {
            let ghost before = children@;
            let child = &self.children[i];
            let copy = child.clone();
            children.push(copy);
            i += 1;
            assert(forest(children@) =~= forest(before).push(copy@));
            assert(forest(children@) =~= forest(self.children@).take(i as int));
        }
        assert(forest(children@) =~= forest(self.children@));
        Widget {
            id: self.id,
            role: self.role.clone(),
            label: self.label.clone(),
            value: self.value.clone(),
            focused: self.focused,
            disabled: self.disabled,
            hidden: self.hidden,
            children,
            omitted_children: self.omitted_children,
        }
    }
}

impl WidgetV {
    /// Says nothing: no text, no role, nothing below.
    pub open spec fn noise(self) -> bool {
        self.children.len() == 0 && self.label is None && self.value is None && self.role is None
    }

    /// Only stands between its parent and its one child.
    pub open spec fn pass_through(self, f: FilterV) -> bool {
        &&& self.role matches Some(role) ==> role == GENERIC_CONTAINER_ROLE@
        &&& !self.asked_for(f)
        &&& self.children.len() == 1
        &&& self.label is None
        &&& self.value is None
        &&& !self.focused
        &&& !self.disabled
        &&& !self.hidden
    }

    /// The caller named this widget's role. One without a role is of the unknown one.
    pub open spec fn asked_for(self, f: FilterV) -> bool {
        f.query.role matches Some(wanted) && text::lower(wanted) == text::lower(
            match self.role {
                Some(role) => role,
                None => UNKNOWN_ROLE@,
            },
        )
    }

    /// A line of text that `owned` already holds.
    pub open spec fn echoes(self, owned: Seq<char>) -> bool {
        &&& self.role == Some(TEXT_RUN_ROLE@)
        &&& self.children.len() == 0
        &&& self.value matches Some(line) && text::occurs(
            owned,
            text::strip_tails(line, TRUNCATION_MARKER@),
        )
    }
}

/// The first [`MAX_TEXT_CHARS`] characters of a longer text, and the mark of the cut.
pub open spec fn shortened(s: Seq<char>) -> Seq<char> {
    if s.len() <= MAX_TEXT_CHARS {
        s
    } else {
        s.take(MAX_TEXT_CHARS as int) + TRUNCATION_MARKER@
    }
}

pub open spec fn opt_shortened(s: Option<Seq<char>>) -> Option<Seq<char>> {
    match s {
        Some(s) => Some(shortened(s)),
        None => None,
    }
}

/// The widget that stands for a node, with the given widgets below it.
pub open spec fn widget_of(n: NodeV, children: Seq<WidgetV>) -> WidgetV {
    WidgetV {
        id: n.id,
        role: if n.role == UNKNOWN_ROLE@ {
            None
        } else {
            Some(n.role)
        },
        label: opt_shortened(n.label),
        value: opt_shortened(n.value),
        focused: n.focused,
        disabled: n.disabled,
        hidden: n.hidden,
        children,
        omitted_children: 0,
    }
}

/// All the text that a node carries itself.
pub open spec fn owned_text(n: NodeV) -> Seq<char> {
    text::or_empty(n.label) + " "@ + text::or_empty(n.value)
}

/// The widgets that are no echo of `owned`, in order.
pub open spec fn unechoed(owned: Seq<char>, ws: Seq<WidgetV>) -> Seq<WidgetV> {
    ws.filter(|w: WidgetV| !w.echoes(owned))
}

/// Cut `text` short at [`MAX_TEXT_CHARS`], marking the cut with a trailing
/// [`TRUNCATION_MARKER`].
///
/// Counted in characters, not bytes, so the cut lands on a character boundary.
pub fn shorten(text: String) -> (r: String)
    ensures
        r@ == shortened(text@),
        text@.len() <= 100 ==> r@ == text@,
        text@.len() > 100 ==> r@ == text@.take(100) + " […]"@,
{
    let cs = text::to_chars(text.as_str());
    if cs.len() <= MAX_TEXT_CHARS {
        return text;
    }
    let mut kept = cs;
    kept.truncate(MAX_TEXT_CHARS);
    let mut r = text::from_chars(&kept);
    r.append(TRUNCATION_MARKER);
    r
}

/// A text of up to [`MAX_TEXT_CHARS`] characters is handed out as it is. A longer one is cut to
/// that many characters, keeps its start, and ends with [`TRUNCATION_MARKER`].
pub proof fn law_a_cut_keeps_the_start_and_says_so(s: Seq<char>)
    ensures
        s.len() <= MAX_TEXT_CHARS ==> shortened(s) == s,
        s.len() > MAX_TEXT_CHARS ==> {
            &&& shortened(s).len() == MAX_TEXT_CHARS + TRUNCATION_MARKER@.len()
            &&& s.take(MAX_TEXT_CHARS as int).is_prefix_of(shortened(s))
            &&& text::ends_with(shortened(s), TRUNCATION_MARKER@)
        },
        shortened(s).len() == 0 <==> s.len() == 0,
{
    if s.len() > MAX_TEXT_CHARS {
        let kept = s.take(MAX_TEXT_CHARS as int);
        assert(shortened(s).take(kept.len() as int) =~= kept);
        assert(shortened(s).skip(kept.len() as int) =~= TRUNCATION_MARKER@);
    }
}

fn opt_shorten(text: Option<String>) -> (r: Option<String>)
    ensures
        text::opt_view(r) == opt_shortened(text::opt_view(text)),
        text is Some <==> r is Some,
        text matches Some(text) ==> r->0@ == (if text@.len() <= 100 {
            text@
        } else {
            text@.take(100) + " […]"@
        }),
{
    match text {
        Some(text) => Some(shorten(text)),
        None => None,
    }
}

impl Widget {
    /// Does this widget only stand between its parent and its one child?
    ///
    /// Layout containers nest several deep, and a chain of them with one child each is a chain
    /// of nothing: no text, no state, nothing to click. The child says everything the chain
    /// does.
    ///
    /// Not collapsed when the caller asked for this role by name, since they would then get
    /// nothing back at all.
    pub fn is_pass_through(&self, filter: &QueryFilter) -> (r: bool)
        ensures
            r == self@.pass_through(filter@),
            r <==> {
                &&& self.children@.len() == 1
                &&& self.label is None && self.value is None
                &&& !self.focused && !self.disabled && !self.hidden
                &&& self.role matches Some(role) ==> role@ == "GenericContainer"@
                &&& filter.query.role matches Some(wanted) ==> text::lower(wanted@) != text::lower(
                    match self.role {
                        Some(role) => role@,
                        None => "Unknown"@,
                    },
                )
            },
    {
        let is_container: bool = match &self.role {
            None => true,
            Some(role) => text::same_text(role.as_str(), GENERIC_CONTAINER_ROLE),
        };
        let asked_for: bool = match &filter.query.role {
            None => false,
            Some(wanted) => match &self.role {
                None => text::same_text_ci(wanted.as_str(), UNKNOWN_ROLE),
                Some(role) => text::same_text_ci(wanted.as_str(), role.as_str()),
            },
        };
        is_container && !asked_for && self.children.len() == 1 && self.label.is_none()
            && self.value.is_none() && !self.focused && !self.disabled && !self.hidden
    }

    /// A childless widget with no `label`, no `value` and no role says nothing an agent can act
    /// on or read: it is layout scaffolding that survived the filter.
    pub fn is_noise(&self) -> (r: bool)
        ensures
            r == self@.noise(),
            r <==> self.children@.len() == 0 && self.label is None && self.value is None
                && self.role is None,
    {
        self.children.is_empty() && self.label.is_none() && self.value.is_none()
            && self.role.is_none()
    }

    /// Is this a line of text that `owned` already holds?
    pub fn is_echo(&self, owned: &Vec<char>) -> (r: bool)
        ensures
            r == self@.echoes(owned@),
            r <==> {
                &&& self.role matches Some(role)
                &&& role@ == "TextRun"@
                &&& self.children@.len() == 0
                &&& self.value matches Some(line)
                &&& text::occurs(owned@, text::strip_tails(line@, " […]"@))
            },
    {
        let is_run: bool = match &self.role {
            None => false,
            Some(role) => text::same_text(role.as_str(), TEXT_RUN_ROLE),
        };
        if !is_run || !self.children.is_empty() {
            return false;
        }
        match &self.value {
            None => false,
            Some(line) => {
                // The run's own text may have been cut short, so compare the part of it that
                // survived.
                let marker = text::to_chars(TRUNCATION_MARKER);
                let line = text::strip_tail_copies(text::to_chars(line.as_str()), &marker);
                text::contains_chars(owned, &line)
            },
        }
    }
}

fn opt_text(s: &Option<String>) -> (r: &str)
    ensures
        r@ == text::or_empty(text::opt_view(*s)),
{
    match s {
        Some(s) => s.as_str(),
        None => {
            proof {
                reveal_strlit("");
                assert(""@ =~= Seq::empty());
            }
            ""
        },
    }
}

/// Drop the `TextRun` children whose text `parent` already carries.
///
/// A string is laid out as one `TextRun` per line under the widget that owns it, so the text
/// comes back twice. A run is not a widget an agent can act on. A run whose text the parent
/// *doesn't* carry is left alone, since dropping it would lose the only copy.
pub fn drop_echoed_text_runs(parent: &Node, children: Vec<Widget>) -> (r: Vec<Widget>)
    ensures
        forest(r@) == unechoed(owned_text(parent@), forest(children@)),
{
    let mut owned = opt_text(&parent.label).to_owned();
    owned.append(" ");
    owned.append(opt_text(&parent.value));
    let owned = text::to_chars(owned.as_str());
    let ghost all = forest(children@);
    let ghost keep = |w: WidgetV| !w.echoes(owned@);
    let mut kept: Vec<Widget> = Vec::new();
    proof {
        reveal(Seq::filter);
        assert(forest(kept@) =~= all.take(0).filter(keep));
    }
    for child in it: children
        invariant
            keep == (|w: WidgetV| !w.echoes(owned@)),
            it.seq() == children@,
            all == forest(children@),
            forest(kept@) == all.take(it.index()).filter(keep),
    {
        let ghost before = forest(kept@);
        let ghost i = it.index();
        proof {
            reveal(Seq::filter);
            assert(all.take(i + 1).drop_last() =~= all.take(i));
            assert(all.take(i + 1).last() == child@);
        }
        if !child.is_echo(&owned) {
            kept.push(child);
            assert(forest(kept@) =~= before.push(child@));
        }
    }
    assert(all.take(all.len() as int) =~= all);
    kept
}

/// Everything there is to say of `node`.
pub fn widget_detail(node: &Node) -> (r: WidgetDetail)
    ensures
        r@ == detail_of(node@),
        r.id == node.id,
        r.role@ == node.role@,
        r.label == node.label,
        r.value == node.value,
        r.bounds == node.bounds,
        r.focused == node.focused,
        r.disabled == node.disabled,
        r.hidden == node.hidden,
        r.parent_id == node.parent_id,
{
    WidgetDetail {
        id: node.id,
        role: node.role.clone(),
        label: opt_clone(&node.label),
        value: opt_clone(&node.value),
        bounds: node.bounds,
        focused: node.focused,
        disabled: node.disabled,
        hidden: node.hidden,
        parent_id: node.parent_id,
    }
}

fn opt_clone(s: &Option<String>) -> (r: Option<String>)
    ensures
        r == *s,
{
    match s {
        Some(s) => Some(s.clone()),
        None => None,
    }
}

/// The widget that stands for `node`, with `children` below it.
pub fn to_widget(node: &Node, children: Vec<Widget>) -> (r: Widget)
    ensures
        r@ == widget_of(node@, forest(children@)),
        r.id == node.id,
        node.role@ == "Unknown"@ ==> r.role is None,
        node.role@ != "Unknown"@ ==> (r.role matches Some(role) && role@ == node.role@),
        node.label is Some <==> r.label is Some,
        node.label matches Some(label) ==> r.label->0@ == (if label@.len() <= 100 {
            label@
        } else {
            label@.take(100) + " […]"@
        }),
        node.value is Some <==> r.value is Some,
        node.value matches Some(value) ==> r.value->0@ == (if value@.len() <= 100 {
            value@
        } else {
            value@.take(100) + " […]"@
        }),
        r.focused == node.focused,
        r.disabled == node.disabled,
        r.hidden == node.hidden,
        r.children == children,
        r.omitted_children == 0,
{
    let detail = widget_detail(node);
    let known: bool = !text::same_text(detail.role.as_str(), UNKNOWN_ROLE);
    Widget {
        id: detail.id,
        role: if known {
            Some(detail.role)
        } else {
            None
        },
        label: opt_shorten(detail.label),
        value: opt_shorten(detail.value),
        focused: detail.focused,
        disabled: detail.disabled,
        hidden: detail.hidden,
        children,
        omitted_children: 0,
    }
}

}
