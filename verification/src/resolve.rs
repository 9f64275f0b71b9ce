//! Finding the one node that an action means.
use vstd::prelude::*;
use vstd::string::*;

use crate::node;
use crate::node::{Node, NodeV, Tree};
use crate::query::{Locator, LocatorV};
use crate::text;
use crate::widget;
use crate::widget::{DetailV, WidgetDetail};

verus! {

/// Why a locator names no single node.
#[derive(Debug, Clone)]
pub enum ResolveError {
    /// No node matches.
    NotFound { what: String },
    /// More than one node matches: these, in tree order.
    Ambiguous { what: String, matches: Vec<WidgetDetail> },
}

/// What a [`ResolveError`] holds.
pub enum MissV {
    NotFound { what: Seq<char> },
    Ambiguous { what: Seq<char>, matches: Seq<DetailV> },
}

pub open spec fn details(ds: Seq<WidgetDetail>) -> Seq<DetailV> {
    ds.map_values(|d: WidgetDetail| d@)
}

impl View for ResolveError {
    type V = MissV;

    open spec fn view(&self) -> MissV {
        match self {
            ResolveError::NotFound { what } => MissV::NotFound { what: what@ },
            ResolveError::Ambiguous { what, matches } => MissV::Ambiguous {
                what: what@,
                matches: details(matches@),
            },
        }
    }
}

impl MissV {
    /// What the caller is told. `list` is the matches written out; without it only their number
    /// is given.
    pub open spec fn words(self, list: Option<Seq<char>>) -> Seq<char> {
        match self {
            MissV::NotFound { what } => "no node found matching "@ + what,
            MissV::Ambiguous { what, matches } => {
                let n = text::numeral(matches.len(), 10);
                what + " matched "@ + n
                    + " nodes — narrow the locator (`content_contains`/`role`/`label_contains`/`value_contains`), or target a specific `id`. Matches:\n"@
                    + match list {
                    Some(list) => list,
                    None => n + " nodes"@,
                }
            },
        }
    }
}

impl ResolveError {
    /// What the caller is told. `list` is the matches written out; without it only their number
    /// is given.
    pub fn message(&self, list: Option<&str>) -> (r: String)
        ensures
            r@ == self@.words(
                match list {
                    Some(list) => Some(list@),
                    None => None,
                },
            ),
            self matches ResolveError::NotFound { what } ==> r@ == "no node found matching "@
                + what@,
            self matches ResolveError::Ambiguous { what, matches } ==> r@ == what@ + " matched "@
                + text::numeral(matches@.len(), 10)
                + " nodes — narrow the locator (`content_contains`/`role`/`label_contains`/`value_contains`), or target a specific `id`. Matches:\n"@
                + match list {
                Some(list) => list@,
                None => text::numeral(matches@.len(), 10) + " nodes"@,
            },
    {
        match self {
            ResolveError::NotFound { what } => {
                let mut message = "no node found matching ".to_owned();
                message.append(what.as_str());
                message
            },
            ResolveError::Ambiguous { what, matches } => {
                let n = text::numeral_text(matches.len() as u128, 10);
                let mut message = what.clone();
                message.append(" matched ");
                message.append(n.as_str());
                message.append(
                    " nodes — narrow the locator (`content_contains`/`role`/`label_contains`/`value_contains`), or target a specific `id`. Matches:\n",
                );
                match list {
                    Some(list) => message.append(list),
                    None => {
                        let mut number = n;
                        number.append(" nodes");
                        message.append(number.as_str());
                    },
                }
                message
            },
        }
    }
}

/// The nodes that a locator means, in tree order.
pub open spec fn found(n: NodeV, l: LocatorV) -> Seq<NodeV> {
    node::preorder(n).filter(|m: NodeV| l.hits(m))
}

/// The one node of a list, or why there is none.
pub open spec fn only(found: Seq<NodeV>, what: Seq<char>) -> Result<NodeV, MissV> {
    if found.len() == 0 {
        Err(MissV::NotFound { what })
    } else if found.len() == 1 {
        Ok(found[0])
    } else {
        Err(
            MissV::Ambiguous { what, matches: found.map_values(|n: NodeV| widget::detail_of(n)) },
        )
    }
}

/// The one node that a locator means, or why there is none.
pub open spec fn resolution(n: NodeV, l: LocatorV) -> Result<NodeV, MissV> {
    only(found(n, l), l.words())
}

/// A result speaks of the node or of the miss that is due.
pub open spec fn agrees(r: Result<&Node, ResolveError>, due: Result<NodeV, MissV>) -> bool {
    match r {
        Ok(n) => due == Ok::<NodeV, MissV>(n@),
        Err(e) => due == Err::<NodeV, MissV>(e@),
    }
}

pub open spec fn refs(ns: Seq<&Node>) -> Seq<NodeV> {
    ns.map_values(|n: &Node| n@)
}

/// Depth-first collection of every node that the locator means.
pub fn find_all<'a>(node: &'a Node, locator: &Locator, out: &mut Vec<&'a Node>)
    ensures
        refs(final(out)@) == refs(old(out)@) + found(node@, locator@),
    decreases node,
{
    let ghost hit = |m: NodeV| locator@.hits(m);
    let ghost start = refs(out@);
    let ghost kids = node@.children;
    proof {
        lemma_filter_one(node@, hit);
        assert(node::preorder_all(kids.take(0)).filter(hit) =~= Seq::empty()) by {
            reveal(Seq::filter);
        }
    }
    if locator.hits(node) {
        out.push(node);
        assert(refs(out@) =~= start.push(node@));
    }
    let mut i: usize = 0;
    assert(refs(out@) =~= start + seq![node@].filter(hit) + node::preorder_all(
        kids.take(0),
    ).filter(hit));
    while i < node.children.len()
        invariant
            i <= node.children@.len(),
            kids == node@.children,
            hit == (|m: NodeV| locator@.hits(m)),
            refs(out@) == start + seq![node@].filter(hit) + node::preorder_all(
                kids.take(i as int),
            ).filter(hit),
        decreases node.children.len() - i,
    {
        let ghost before = refs(out@);
        find_all(&node.children[i], locator, out);
        i += 1;
        proof {
            let head = kids.take(i - 1);
            let last = kids[i - 1];
            assert(kids.take(i as int).drop_last() =~= head);
            Seq::filter_distributes_over_add(
                node::preorder_all(head),
                node::preorder(last),
                hit,
            );
            assert(refs(out@) =~= before + node::preorder(last).filter(hit));
            assert(refs(out@) =~= start + seq![node@].filter(hit) + node::preorder_all(
                kids.take(i as int),
            ).filter(hit));
        }
    }
    proof {
        assert(kids.take(i as int) =~= kids);
        Seq::filter_distributes_over_add(seq![node@], node::preorder_all(kids), hit);
        assert(refs(out@) =~= start + found(node@, locator@));
    }
}

pub proof fn lemma_filter_one(n: NodeV, keep: spec_fn(NodeV) -> bool)
    ensures
        seq![n].filter(keep) == (if keep(n) {
            seq![n]
        } else {
            Seq::empty()
        }),
{
    reveal(Seq::filter);
    let one = seq![n];
    assert(one.drop_last() =~= Seq::empty());
    assert(one.drop_last().filter(keep) =~= Seq::empty());
    assert(one.filter(keep) =~= if keep(n) {
        seq![n]
    } else {
        Seq::empty()
    });
}

/// Reduce a match list to the single node an action needs, or an error describing the miss.
pub fn one<'a>(found: Vec<&'a Node>, what: String) -> (r: Result<&'a Node, ResolveError>)
    ensures
        agrees(r, only(refs(found@), what@)),
        r is Ok <==> found@.len() == 1,
        r matches Ok(n) ==> *n == *found@[0],
        found@.len() == 0 ==> (r matches Err(ResolveError::NotFound { what: told }) && told == what),
        found@.len() > 1 ==> {
            &&& r matches Err(ResolveError::Ambiguous { what: told, matches })
            &&& told == what
            &&& matches@.len() == found@.len()
            &&& forall|i: int|
                0 <= i < found@.len() ==> {
                    let d = #[trigger] matches@[i];
                    let n = *found@[i];
                    &&& d.id == n.id
                    &&& d.role@ == n.role@
                    &&& d.label == n.label
                    &&& d.value == n.value
                    &&& d.bounds == n.bounds
                    &&& d.focused == n.focused
                    &&& d.disabled == n.disabled
                    &&& d.hidden == n.hidden
                    &&& d.parent_id == n.parent_id
                }
        },
{
    if found.len() == 0 {
        return Err(ResolveError::NotFound { what });
    }
    if found.len() == 1 {
        return Ok(found[0]);
    }
    let mut matches: Vec<WidgetDetail> = Vec::new();
    let mut i: usize = 0;
    let ghost all = refs(found@).map_values(|n: NodeV| widget::detail_of(n));
    while i < found.len()
        invariant
            i <= found.len(),
            all == refs(found@).map_values(|n: NodeV| widget::detail_of(n)),
            details(matches@) == all.take(i as int),
            matches@.len() == i,
            forall|k: int|
                0 <= k < i ==> {
                    let d = #[trigger] matches@[k];
                    let n = *found@[k];
                    &&& d.id == n.id
                    &&& d.role@ == n.role@
                    &&& d.label == n.label
                    &&& d.value == n.value
                    &&& d.bounds == n.bounds
                    &&& d.focused == n.focused
                    &&& d.disabled == n.disabled
                    &&& d.hidden == n.hidden
                    &&& d.parent_id == n.parent_id
                },
        decreases found.len() - i,
    {
        let ghost before = details(matches@);
        let d = widget::widget_detail(found[i]);
        matches.push(d);
        i += 1;
        assert(details(matches@) =~= before.push(d@));
        assert(details(matches@) =~= all.take(i as int));
    }
    assert(all.take(i as int) =~= all);
    Err(ResolveError::Ambiguous { what, matches })
}

/// Resolve a locator to *exactly one* node for an action (click, focus, …).
///
/// This is strict: an ambiguous locator is an error, not a silent "first match wins".
///
/// # Errors
/// If no node matches, or if more than one does.
pub fn resolve_unique<'a>(tree: &'a Tree, locator: &Locator) -> (r: Result<&'a Node, ResolveError>)
    ensures
        agrees(r, resolution(tree@, locator@)),
        r matches Ok(n) ==> resolution(tree@, locator@) == Ok::<NodeV, MissV>(n@),
        r matches Err(e) ==> resolution(tree@, locator@) == Err::<NodeV, MissV>(e@),
{
    let mut hits: Vec<&'a Node> = Vec::new();
    find_all(&tree.root, locator, &mut hits);
    assert(refs(hits@) =~= found(tree@, locator@));
    one(hits, locator.describe())
}

}
