//! The walk that turns a tree into the forest of its matches.
use vstd::prelude::*;

use crate::limit;
use crate::matching;
use crate::node;
use crate::node::{Node, NodeV, Tree};
use crate::query::{FilterV, Locator, LocatorV, QueryFilter};
use crate::resolve;
use crate::resolve::{MissV, ResolveError};
use crate::widget;
use crate::widget::{Widget, WidgetV};

verus! {

/// The matches in a node's subtree (the node itself included), nested by ancestry.
pub open spec fn walked(n: NodeV, f: FilterV) -> Seq<WidgetV>
    decreases n,
{
    if f.excludes(n) {
        Seq::empty()
    } else {
        let below = walked_all(n.children, f);
        if f.matched_by(n) {
            settled(widget::widget_of(n, widget::unechoed(widget::owned_text(n), below)), f)
        } else {
            below
        }
    }
}

/// The matches in several subtrees, one after the other.
pub open spec fn walked_all(ns: Seq<NodeV>, f: FilterV) -> Seq<WidgetV>
    decreases ns,
{
    if ns.len() == 0 {
        Seq::empty()
    } else {
        walked_all(ns.drop_last(), f) + walked(ns.last(), f)
    }
}

/// What is left of a match: nothing of one that says nothing, the one child of one that only
/// stands above it, and else the match.
pub open spec fn settled(w: WidgetV, f: FilterV) -> Seq<WidgetV> {
    if w.noise() {
        Seq::empty()
    } else if w.pass_through(f) {
        w.children
    } else {
        seq![w]
    }
}

/// The matches in `node`'s subtree (including `node` itself), nested by ancestry.
///
/// A non-matching node returns its descendants' matches, which its own parent then adopts. An
/// excluded node returns nothing at all: the exclusion takes its subtree with it.
pub fn walk(node: &Node, filter: &QueryFilter) -> (r: Vec<Widget>)
    ensures
        widget::forest(r@) == walked(node@, filter@),
    decreases node,
{
    if filter.leaves_out(node) {
        let r: Vec<Widget> = Vec::new();
        assert(widget::forest(r@) =~= Seq::empty());
        return r;
    }
    let mut below: Vec<Widget> = Vec::new();
    let mut i: usize = 0;
    assert(widget::forest(below@) =~= walked_all(node@.children.take(0), filter@));
    while i < node.children.len()
        invariant
            i <= node.children@.len(),
            widget::forest(below@) == walked_all(node@.children.take(i as int), filter@),
        decreases node.children.len() - i,
    {
        let ghost before = widget::forest(below@);
        let mut more = walk(&node.children[i], filter);
        let ghost added = widget::forest(more@);
        below.append(&mut more);
        i += 1;
        proof {
            assert(widget::forest(below@) =~= before + added);
            assert(node@.children.take(i as int).drop_last() =~= node@.children.take(i - 1));
        }
    }
    assert(node@.children.take(i as int) =~= node@.children);
    if filter.matches(node) {
        let children = widget::drop_echoed_text_runs(node, below);
        let view = widget::to_widget(node, children);
        // Pruning runs bottom-up, so a node left childless by it is reconsidered here in turn,
        // and a chain of containers collapses a link at a time.
        if view.is_noise() {
            let r: Vec<Widget> = Vec::new();
            assert(widget::forest(r@) =~= Seq::empty());
            r
        } else if view.is_pass_through(filter) {
            view.children
        } else {
            let ghost w = view@;
            let mut r: Vec<Widget> = Vec::new();
            r.push(view);
            assert(widget::forest(r@) =~= seq![w]);
            r
        }
    } else {
        below
    }
}


/// The forest that a query hands out, or why there is none.
pub open spec fn queried(n: NodeV, f: FilterV) -> Result<Seq<WidgetV>, MissV> {
    match f.root {
        None => Ok(limit::limited(walked(n, f), f.limit as nat)),
        Some(id) => match resolve::resolution(n, LocatorV::Id { id }) {
            Ok(m) => Ok(limit::limited(walked(m, f), f.limit as nat)),
            Err(miss) => Err(miss),
        },
    }
}

/// Walk `tree`, returning the widgets that match `filter`, nested by ancestry.
///
/// # Errors
/// If `filter.root` names a widget the tree doesn't have.
pub fn query(tree: &Tree, filter: &QueryFilter) -> (r: Result<Vec<Widget>, ResolveError>)
    requires
        node::size(tree@) <= usize::MAX,
    ensures
        match r {
            Ok(ws) => queried(tree@, filter@) == Ok::<Seq<WidgetV>, MissV>(widget::forest(ws@)),
            Err(e) => queried(tree@, filter@) == Err::<Seq<WidgetV>, MissV>(e@),
        },
        filter.root is None ==> {
            &&& r matches Ok(ws)
            &&& widget::forest(ws@) == limit::limited(
                walked(tree@, filter@),
                filter.limit as nat,
            )
        },
        filter.root matches Some(id) ==> match resolve::resolution(tree@, LocatorV::Id { id }) {
            Ok(m) => {
                &&& r matches Ok(ws)
                &&& widget::forest(ws@) == limit::limited(walked(m, filter@), filter.limit as nat)
            },
            Err(miss) => r matches Err(e) && e@ == miss,
        },
{
    let root: &Node = match &filter.root {
        None => &tree.root,
        Some(id) => match resolve::resolve_unique(tree, &Locator::Id { id: *id }) {
            Ok(node) => node,
            Err(e) => {
                return Err(e);
            },
        },
    };
    let mut nodes = walk(root, filter);
    proof {
        matching::law_no_more_widgets_than_matches(root@, filter@);
        if filter.root is Some {
            let l = LocatorV::Id { id: filter.root->0 };
            let hit = |m: NodeV| l.hits(m);
            assert(resolve::found(tree@, l)[0] == root@);
            node::preorder(tree@).lemma_filter_contains_rev(hit, root@);
            matching::lemma_part_size(tree@, root@);
        }
    }
    limit::truncate(&mut nodes, filter.limit);
    Ok(nodes)
}

}
