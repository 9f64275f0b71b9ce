//! What a walk returns of a tree: which nodes, in which order, and in what form.
use vstd::prelude::*;

use crate::limit;
use crate::node;
use crate::node::NodeV;
use crate::query::{ExclusionV, FilterV, QueryV};
use crate::text;
use crate::walk;
use crate::widget;
use crate::widget::WidgetV;

verus! {

/// Every widget of the forest, each before the widgets below it.
pub open spec fn spread(ws: Seq<WidgetV>) -> Seq<WidgetV>
    decreases ws,
{
    if ws.len() == 0 {
        Seq::empty()
    } else {
        spread(ws.drop_last()) + seq![ws.last()] + spread(ws.last().children)
    }
}

/// The nodes of a subtree that stand in no excluded subtree, in tree order.
pub open spec fn reached(n: NodeV, f: FilterV) -> Seq<NodeV>
    decreases n,
{
    if f.excludes(n) {
        Seq::empty()
    } else {
        seq![n] + reached_all(n.children, f)
    }
}

pub open spec fn reached_all(ns: Seq<NodeV>, f: FilterV) -> Seq<NodeV>
    decreases ns,
{
    if ns.len() == 0 {
        Seq::empty()
    } else {
        reached_all(ns.drop_last(), f) + reached(ns.last(), f)
    }
}

/// The matches of a filter, in tree order.
pub open spec fn matches(n: NodeV, f: FilterV) -> Seq<NodeV> {
    reached(n, f).filter(|m: NodeV| f.matched_by(m))
}

pub open spec fn matches_all(ns: Seq<NodeV>, f: FilterV) -> Seq<NodeV> {
    reached_all(ns, f).filter(|m: NodeV| f.matched_by(m))
}

/// The widget that stands for a node and holds the matches below it.
pub open spec fn own_widget(m: NodeV, f: FilterV) -> WidgetV {
    widget::widget_of(m, widget::unechoed(widget::owned_text(m), walk::walked_all(m.children, f)))
}

/// `w` is what the walk returns for the match `m` itself.
pub open spec fn comes_from(w: WidgetV, m: NodeV, f: FilterV) -> bool {
    &&& !f.excludes(m)
    &&& f.matched_by(m)
    &&& w == own_widget(m, f)
    &&& !w.noise()
    &&& !w.pass_through(f)
}

/// The widgets come from some of the nodes, each from a node after that of the widget before.
pub open spec fn in_order(ws: Seq<WidgetV>, ns: Seq<NodeV>, f: FilterV) -> bool
    decreases ns.len(),
{
    ||| ws.len() == 0
    ||| ns.len() > 0 && comes_from(ws.last(), ns.last(), f) && in_order(
        ws.drop_last(),
        ns.drop_last(),
        f,
    )
    ||| ns.len() > 0 && in_order(ws, ns.drop_last(), f)
}

proof fn lemma_order_add(
    a: Seq<WidgetV>,
    b: Seq<NodeV>,
    c: Seq<WidgetV>,
    d: Seq<NodeV>,
    f: FilterV,
)
    requires
        in_order(a, b, f),
        in_order(c, d, f),
    ensures
        in_order(a + c, b + d, f),
    decreases d.len(),
{
    if d.len() == 0 {
        assert(a + c =~= a);
        assert(b + d =~= b);
    } else {
        assert((b + d).drop_last() =~= b + d.drop_last());
        if c.len() == 0 {
            assert(in_order(c, d.drop_last(), f));
            lemma_order_add(a, b, c, d.drop_last(), f);
        } else if comes_from(c.last(), d.last(), f) && in_order(c.drop_last(), d.drop_last(), f) {
            lemma_order_add(a, b, c.drop_last(), d.drop_last(), f);
            assert((a + c).drop_last() =~= a + c.drop_last());
        } else {
            lemma_order_add(a, b, c, d.drop_last(), f);
        }
    }
}

/// Leaving out a stretch of the widgets keeps the others in order.
proof fn lemma_order_skip(
    a: Seq<WidgetV>,
    x: Seq<WidgetV>,
    c: Seq<WidgetV>,
    ns: Seq<NodeV>,
    f: FilterV,
)
    requires
        in_order(a + x + c, ns, f),
    ensures
        in_order(a + c, ns, f),
    decreases ns.len(),
{
    let all = a + x + c;
    if ns.len() == 0 {
        assert((a + c).len() == 0);
    } else if all.len() > 0 && comes_from(all.last(), ns.last(), f) && in_order(
        all.drop_last(),
        ns.drop_last(),
        f,
    ) {
        if c.len() > 0 {
            assert(all.drop_last() =~= a + x + c.drop_last());
            lemma_order_skip(a, x, c.drop_last(), ns.drop_last(), f);
            assert((a + c).drop_last() =~= a + c.drop_last());
        } else if x.len() > 0 {
            assert(all.drop_last() =~= a + x.drop_last() + c);
            lemma_order_skip(a, x.drop_last(), c, ns.drop_last(), f);
        } else {
            assert(a + c =~= all);
        }
    } else if all.len() > 0 {
        lemma_order_skip(a, x, c, ns.drop_last(), f);
    }
}

proof fn lemma_spread_add(a: Seq<WidgetV>, b: Seq<WidgetV>)
    ensures
        spread(a + b) == spread(a) + spread(b),
    decreases b.len(),
{
    if b.len() == 0 {
        assert(a + b =~= a);
        assert(spread(a + b) =~= spread(a) + spread(b));
    } else {
        lemma_spread_add(a, b.drop_last());
        assert((a + b).drop_last() =~= a + b.drop_last());
        assert(spread(a + b) =~= spread(a) + spread(b));
    }
}

/// Leaving out some roots keeps the widgets in order; `tail` comes after them.
proof fn lemma_order_filter(
    ws: Seq<WidgetV>,
    keep: spec_fn(WidgetV) -> bool,
    tail: Seq<WidgetV>,
    ns: Seq<NodeV>,
    f: FilterV,
)
    requires
        in_order(spread(ws) + tail, ns, f),
    ensures
        in_order(spread(ws.filter(keep)) + tail, ns, f),
    decreases ws.len(),
{
    reveal(Seq::filter);
    if ws.len() > 0 {
        let before = ws.drop_last();
        let last = seq![ws.last()] + spread(ws.last().children);
        assert(spread(ws) + tail =~= spread(before) + last + tail);
        if keep(ws.last()) {
            assert(spread(ws) + tail =~= spread(before) + (last + tail));
            lemma_order_filter(before, keep, last + tail, ns, f);
            let kept = before.filter(keep);
            assert(kept.push(ws.last()).drop_last() =~= kept);
            assert(spread(kept.push(ws.last())) + tail =~= spread(kept) + (last + tail));
        } else {
            lemma_order_skip(spread(before), last, tail, ns, f);
            lemma_order_filter(before, keep, tail, ns, f);
        }
    }
}

proof fn lemma_walk_in_order(n: NodeV, f: FilterV)
    ensures
        in_order(spread(walk::walked(n, f)), matches(n, f), f),
    decreases n,
{
    let hit = |m: NodeV| f.matched_by(m);
    if f.excludes(n) {
        assert(spread(walk::walked(n, f)).len() == 0);
    } else {
        let below = walk::walked_all(n.children, f);
        let under = matches_all(n.children, f);
        lemma_walk_all_in_order(n.children, f);
        Seq::filter_distributes_over_add(seq![n], reached_all(n.children, f), hit);
        let here = seq![n].filter(hit);
        assert(matches(n, f) =~= here + under);
        reveal(Seq::filter);
        assert(seq![n].drop_last() =~= Seq::empty());
        assert(seq![n].drop_last().filter(hit) =~= Seq::empty());
        if f.matched_by(n) {
            assert(here =~= seq![n]);
            let w = own_widget(n, f);
            let keep = |w: WidgetV| !w.echoes(widget::owned_text(n));
            assert(spread(below) + Seq::empty() =~= spread(below));
            lemma_order_filter(below, keep, Seq::empty(), under, f);
            assert(spread(w.children) + Seq::empty() =~= spread(w.children));
            if w.noise() {
                assert(spread(walk::walked(n, f)).len() == 0);
            } else if w.pass_through(f) {
                lemma_order_add(Seq::empty(), here, spread(w.children), under, f);
                assert(Seq::empty() + spread(w.children) =~= spread(w.children));
            } else {
                let one = seq![w];
                assert(one.drop_last() =~= Seq::empty());
                assert(here.drop_last() =~= Seq::empty());
                assert(in_order(one.drop_last(), here.drop_last(), f));
                assert(one.last() == w);
                assert(here.last() == n);
                assert(comes_from(w, n, f));
                assert(in_order(one, here, f));
                lemma_order_add(one, here, spread(w.children), under, f);
                assert(spread(one.drop_last()) =~= Seq::empty());
                assert(spread(one) =~= one + spread(w.children));
            }
        } else {
            lemma_order_add(Seq::empty(), here, spread(below), under, f);
            assert(Seq::empty() + spread(below) =~= spread(below));
        }
    }
}

proof fn lemma_walk_all_in_order(ns: Seq<NodeV>, f: FilterV)
    ensures
        in_order(spread(walk::walked_all(ns, f)), matches_all(ns, f), f),
    decreases ns,
{
    if ns.len() > 0 {
        let hit = |m: NodeV| f.matched_by(m);
        lemma_walk_all_in_order(ns.drop_last(), f);
        lemma_walk_in_order(ns.last(), f);
        lemma_spread_add(walk::walked_all(ns.drop_last(), f), walk::walked(ns.last(), f));
        Seq::filter_distributes_over_add(
            reached_all(ns.drop_last(), f),
            reached(ns.last(), f),
            hit,
        );
        lemma_order_add(
            spread(walk::walked_all(ns.drop_last(), f)),
            matches_all(ns.drop_last(), f),
            spread(walk::walked(ns.last(), f)),
            matches(ns.last(), f),
            f,
        );
    } else {
        assert(spread(walk::walked_all(ns, f)).len() == 0);
    }
}


proof fn lemma_order_len(ws: Seq<WidgetV>, ns: Seq<NodeV>, f: FilterV)
    requires
        in_order(ws, ns, f),
    ensures
        ws.len() <= ns.len(),
    decreases ns.len(),
{
    if ws.len() > 0 {
        if comes_from(ws.last(), ns.last(), f) && in_order(ws.drop_last(), ns.drop_last(), f) {
            lemma_order_len(ws.drop_last(), ns.drop_last(), f);
        } else {
            lemma_order_len(ws, ns.drop_last(), f);
        }
    }
}

/// Each of the widgets comes from one of the nodes.
proof fn lemma_order_source(ws: Seq<WidgetV>, ns: Seq<NodeV>, f: FilterV, w: WidgetV)
    requires
        in_order(ws, ns, f),
        ws.contains(w),
    ensures
        exists|m: NodeV| #[trigger] ns.contains(m) && comes_from(w, m, f),
    decreases ns.len(),
{
    let i = choose|i: int| 0 <= i < ws.len() && ws[i] == w;
    if comes_from(ws.last(), ns.last(), f) && in_order(ws.drop_last(), ns.drop_last(), f) {
        if i == ws.len() - 1 {
            assert(ns.contains(ns.last()));
        } else {
            assert(ws.drop_last()[i] == w);
            lemma_order_source(ws.drop_last(), ns.drop_last(), f, w);
            let m = choose|m: NodeV| #[trigger]
                ns.drop_last().contains(m) && comes_from(w, m, f);
            assert(ns.contains(m));
        }
    } else {
        lemma_order_source(ws, ns.drop_last(), f, w);
        let m = choose|m: NodeV| #[trigger] ns.drop_last().contains(m) && comes_from(w, m, f);
        assert(ns.contains(m));
    }
}

/// A forest has as many widgets as a walk through it meets.
pub proof fn lemma_spread_len(ws: Seq<WidgetV>)
    ensures
        spread(ws).len() == limit::count_of(ws),
    decreases ws,
{
    if ws.len() > 0 {
        lemma_spread_len(ws.drop_last());
        lemma_spread_len(ws.last().children);
    }
}

proof fn lemma_reached_bound(n: NodeV, f: FilterV)
    ensures
        reached(n, f).len() <= node::size(n),
    decreases n,
{
    lemma_reached_all_bound(n.children, f);
}

proof fn lemma_reached_all_bound(ns: Seq<NodeV>, f: FilterV)
    ensures
        reached_all(ns, f).len() <= node::preorder_all(ns).len(),
    decreases ns,
{
    if ns.len() > 0 {
        lemma_reached_all_bound(ns.drop_last(), f);
        lemma_reached_bound(ns.last(), f);
    }
}

/// A part of a tree has no more nodes than the tree.
pub proof fn lemma_part_size(n: NodeV, m: NodeV)
    requires
        node::preorder(n).contains(m),
    ensures
        node::size(m) <= node::size(n),
    decreases n,
{
    let i = choose|i: int| 0 <= i < node::preorder(n).len() && node::preorder(n)[i] == m;
    if i > 0 {
        assert(node::preorder_all(n.children)[i - 1] == m);
        lemma_part_size_all(n.children, m);
    }
}

proof fn lemma_part_size_all(ns: Seq<NodeV>, m: NodeV)
    requires
        node::preorder_all(ns).contains(m),
    ensures
        node::size(m) <= node::preorder_all(ns).len(),
    decreases ns,
{
    let before = node::preorder_all(ns.drop_last());
    let i = choose|i: int| 0 <= i < node::preorder_all(ns).len() && node::preorder_all(ns)[i] == m;
    if i < before.len() {
        assert(before[i] == m);
        lemma_part_size_all(ns.drop_last(), m);
    } else {
        assert(node::preorder(ns.last())[i - before.len()] == m);
        lemma_part_size(ns.last(), m);
    }
}

/// The walk returns the matches in tree order, none of them twice: the widgets of the forest,
/// each taken before those below it, come from nodes that follow one another in the tree.
pub proof fn law_matches_come_in_tree_order(n: NodeV, f: FilterV)
    ensures
        in_order(spread(walk::walked(n, f)), matches(n, f), f),
{
    lemma_walk_in_order(n, f);
}

/// The walk returns at most as many widgets as there are matches, and no more than the tree has
/// nodes.
pub proof fn law_no_more_widgets_than_matches(n: NodeV, f: FilterV)
    ensures
        limit::count_of(walk::walked(n, f)) <= matches(n, f).len() <= node::size(n),
{
    lemma_walk_in_order(n, f);
    lemma_order_len(spread(walk::walked(n, f)), matches(n, f), f);
    lemma_spread_len(walk::walked(n, f));
    reached(n, f).lemma_filter_len(|m: NodeV| f.matched_by(m));
    lemma_reached_bound(n, f);
}

/// Every returned widget stands for a match outside the excluded subtrees: it carries that
/// node's id, role, state and (shortened) text, and walking that node alone returns it again.
pub proof fn law_every_widget_stands_for_a_match(n: NodeV, f: FilterV, w: WidgetV)
    requires
        spread(walk::walked(n, f)).contains(w),
    ensures
        exists|m: NodeV| #[trigger]
            matches(n, f).contains(m) && reached(n, f).contains(m) && f.matched_by(m) && w
                == widget::widget_of(m, w.children) && walk::walked(m, f) == seq![w],
{
    lemma_walk_in_order(n, f);
    lemma_order_source(spread(walk::walked(n, f)), matches(n, f), f, w);
    let m = choose|m: NodeV| #[trigger] matches(n, f).contains(m) && comes_from(w, m, f);
    reached(n, f).lemma_filter_contains_rev(|m: NodeV| f.matched_by(m), m);
}

/// A widget that says nothing is never returned, and neither is one that only stands between
/// its parent and its one child, unless the caller asked for its role.
pub proof fn law_no_scaffolding_is_returned(n: NodeV, f: FilterV, w: WidgetV)
    requires
        spread(walk::walked(n, f)).contains(w),
    ensures
        !w.noise(),
        !w.pass_through(f),
        w.role is Some || w.label is Some || w.value is Some || w.children.len() > 0,
{
    lemma_walk_in_order(n, f);
    lemma_order_source(spread(walk::walked(n, f)), matches(n, f), f, w);
}

/// No text is told twice: below a returned widget there is no line of text that its node already
/// carries. Whatever else was found below the node is kept, so no text is lost.
pub proof fn law_no_text_is_told_twice(n: NodeV, f: FilterV, w: WidgetV)
    requires
        spread(walk::walked(n, f)).contains(w),
    ensures
        exists|m: NodeV| #[trigger]
            matches(n, f).contains(m) && w == widget::widget_of(m, w.children) && (forall|x: WidgetV|
             #[trigger]
                w.children.contains(x) <==> walk::walked_all(m.children, f).contains(x)
                    && !x.echoes(widget::owned_text(m))),
{
    lemma_walk_in_order(n, f);
    lemma_order_source(spread(walk::walked(n, f)), matches(n, f), f, w);
    let m = choose|m: NodeV| #[trigger] matches(n, f).contains(m) && comes_from(w, m, f);
    let owned = widget::owned_text(m);
    let below = walk::walked_all(m.children, f);
    assert forall|x: WidgetV| #[trigger] w.children.contains(x) <==> below.contains(x)
        && !x.echoes(owned) by {
        if w.children.contains(x) {
            below.lemma_filter_contains_rev(|w: WidgetV| !w.echoes(owned), x);
            below.lemma_filter_pred(|w: WidgetV| !w.echoes(owned), w.children.index_of(x));
        }
        if below.contains(x) && !x.echoes(owned) {
            below.lemma_filter_contains(|w: WidgetV| !w.echoes(owned), below.index_of(x));
        }
    }
}

/// With `visible_only` set, no hidden widget is returned.
pub proof fn law_hidden_widgets_stay_out(n: NodeV, f: FilterV, w: WidgetV)
    requires
        f.visible_only,
        spread(walk::walked(n, f)).contains(w),
    ensures
        !w.hidden,
{
    law_every_widget_stands_for_a_match(n, f, w);
}

/// A role filter returns widgets of that role alone, whatever its case.
pub proof fn law_a_role_filter_returns_that_role(n: NodeV, f: FilterV, w: WidgetV)
    requires
        f.query.role is Some,
        spread(walk::walked(n, f)).contains(w),
    ensures
        w.role matches Some(role) ==> text::lower(role) == text::lower(f.query.role->0),
        w.role is None ==> text::lower(widget::UNKNOWN_ROLE@) == text::lower(f.query.role->0),
{
    law_every_widget_stands_for_a_match(n, f, w);
}

/// An excluded node takes its subtree with it.
pub proof fn law_an_exclusion_takes_the_subtree(n: NodeV, f: FilterV)
    requires
        f.excludes(n),
    ensures
        walk::walked(n, f) == Seq::<WidgetV>::empty(),
{
}

/// Every node that a walk reaches is one of the tree, and no excluded one.
pub proof fn law_reached_nodes_are_not_excluded(n: NodeV, f: FilterV, m: NodeV)
    requires
        reached(n, f).contains(m),
    ensures
        !f.excludes(m),
        node::preorder(n).contains(m),
    decreases n,
{
    if !f.excludes(n) {
        let i = choose|i: int| 0 <= i < reached(n, f).len() && reached(n, f)[i] == m;
        if i > 0 {
            assert(reached_all(n.children, f)[i - 1] == m);
            lemma_reached_all_are_free(n.children, f, m);
            let j = choose|j: int|
                0 <= j < node::preorder_all(n.children).len() && node::preorder_all(n.children)[j]
                    == m;
            assert(node::preorder(n)[j + 1] == m);
        } else {
            assert(node::preorder(n)[0] == m);
        }
    }
}

proof fn lemma_reached_all_are_free(ns: Seq<NodeV>, f: FilterV, m: NodeV)
    requires
        reached_all(ns, f).contains(m),
    ensures
        !f.excludes(m),
        node::preorder_all(ns).contains(m),
    decreases ns,
{
    let before = reached_all(ns.drop_last(), f);
    let i = choose|i: int| 0 <= i < reached_all(ns, f).len() && reached_all(ns, f)[i] == m;
    let head = node::preorder_all(ns.drop_last());
    if i < before.len() {
        assert(before[i] == m);
        lemma_reached_all_are_free(ns.drop_last(), f, m);
        let j = choose|j: int| 0 <= j < head.len() && head[j] == m;
        assert(node::preorder_all(ns)[j] == m);
    } else {
        assert(reached(ns.last(), f)[i - before.len()] == m);
        law_reached_nodes_are_not_excluded(ns.last(), f, m);
        let tail = node::preorder(ns.last());
        let j = choose|j: int| 0 <= j < tail.len() && tail[j] == m;
        assert(node::preorder_all(ns)[head.len() + j] == m);
    }
}

/// The same filter, with another exclusion.
pub open spec fn with_exclusion(f: FilterV, exclude: Option<ExclusionV>) -> FilterV {
    FilterV { exclude, ..f }
}

/// An exclusion with neither an id nor a constraint excludes nothing.
pub proof fn law_an_empty_exclusion_excludes_nothing(n: NodeV, f: FilterV)
    ensures
        walk::walked(
            n,
            with_exclusion(f, Some(ExclusionV { id: None, query: QueryV::nothing() })),
        ) == walk::walked(n, with_exclusion(f, None)),
    decreases n,
{
    let a = with_exclusion(f, Some(ExclusionV { id: None, query: QueryV::nothing() }));
    let b = with_exclusion(f, None);
    lemma_empty_exclusion_all(n.children, f);
    let w = own_widget(n, b);
    assert(w.pass_through(a) == w.pass_through(b));
}

proof fn lemma_empty_exclusion_all(ns: Seq<NodeV>, f: FilterV)
    ensures
        walk::walked_all(
            ns,
            with_exclusion(f, Some(ExclusionV { id: None, query: QueryV::nothing() })),
        ) == walk::walked_all(ns, with_exclusion(f, None)),
    decreases ns,
{
    if ns.len() > 0 {
        lemma_empty_exclusion_all(ns.drop_last(), f);
        law_an_empty_exclusion_excludes_nothing(ns.last(), f);
    }
}

/// The node says something of its own: it is no line of text, and it has a label, a value, or a
/// role that is neither unknown nor that of a container.
pub open spec fn speaks(m: NodeV) -> bool {
    &&& m.role != widget::TEXT_RUN_ROLE@
    &&& {
        ||| m.label is Some
        ||| m.value is Some
        ||| m.role != widget::UNKNOWN_ROLE@ && m.role != widget::GENERIC_CONTAINER_ROLE@
    }
}

/// Every match that says something of its own is returned.
pub proof fn law_every_speaking_match_is_returned(n: NodeV, f: FilterV, m: NodeV)
    requires
        reached(n, f).contains(m),
        f.matched_by(m),
        speaks(m),
    ensures
        spread(walk::walked(n, f)).contains(own_widget(m, f)),
    decreases n,
{
    let x = own_widget(m, f);
    if !f.excludes(n) {
        let below = walk::walked_all(n.children, f);
        let w = own_widget(n, f);
        let i = choose|i: int| 0 <= i < reached(n, f).len() && reached(n, f)[i] == m;
        if i == 0 {
            let one = seq![w];
            assert(one.drop_last() =~= Seq::empty());
            assert(spread(one.drop_last()) =~= Seq::empty());
            assert(spread(one)[0] == x);
        } else {
            assert(reached_all(n.children, f)[i - 1] == m);
            lemma_speaking_all(n.children, f, m);
            if f.matched_by(n) {
                lemma_unechoed_keeps(widget::owned_text(n), below, x);
                assert(spread(w.children).contains(x));
                assert(w.children.len() > 0);
                if !w.pass_through(f) {
                    let one = seq![w];
                    assert(one.drop_last() =~= Seq::empty());
                    assert(spread(one.drop_last()) =~= Seq::empty());
                    assert(spread(one) =~= one + spread(w.children));
                    let j = choose|j: int|
                        0 <= j < spread(w.children).len() && spread(w.children)[j] == x;
                    assert(spread(one)[j + 1] == x);
                }
            }
        }
    }
}

proof fn lemma_speaking_all(ns: Seq<NodeV>, f: FilterV, m: NodeV)
    requires
        reached_all(ns, f).contains(m),
        f.matched_by(m),
        speaks(m),
    ensures
        spread(walk::walked_all(ns, f)).contains(own_widget(m, f)),
    decreases ns,
{
    let x = own_widget(m, f);
    let before = reached_all(ns.drop_last(), f);
    let a = walk::walked_all(ns.drop_last(), f);
    let b = walk::walked(ns.last(), f);
    lemma_spread_add(a, b);
    let i = choose|i: int| 0 <= i < reached_all(ns, f).len() && reached_all(ns, f)[i] == m;
    if i < before.len() {
        assert(before[i] == m);
        lemma_speaking_all(ns.drop_last(), f, m);
        let j = choose|j: int| 0 <= j < spread(a).len() && spread(a)[j] == x;
        assert(spread(a + b)[j] == x);
    } else {
        assert(reached(ns.last(), f)[i - before.len()] == m);
        law_every_speaking_match_is_returned(ns.last(), f, m);
        let j = choose|j: int| 0 <= j < spread(b).len() && spread(b)[j] == x;
        assert(spread(a + b)[spread(a).len() + j] == x);
    }
}

/// Dropping echoes drops nothing else.
proof fn lemma_unechoed_keeps(owned: Seq<char>, ws: Seq<WidgetV>, x: WidgetV)
    requires
        spread(ws).contains(x),
        !x.echoes(owned),
    ensures
        spread(widget::unechoed(owned, ws)).contains(x),
    decreases ws.len(),
{
    reveal(Seq::filter);
    let keep = |w: WidgetV| !w.echoes(owned);
    let last = ws.last();
    let before = spread(ws.drop_last());
    let kept = widget::unechoed(owned, ws.drop_last());
    let i = choose|i: int| 0 <= i < spread(ws).len() && spread(ws)[i] == x;
    if keep(last) {
        assert(kept.push(last).drop_last() =~= kept);
        assert(widget::unechoed(owned, ws) == kept.push(last));
    }
    if i < before.len() {
        assert(before[i] == x);
        lemma_unechoed_keeps(owned, ws.drop_last(), x);
        let j = choose|j: int| 0 <= j < spread(kept).len() && spread(kept)[j] == x;
        if keep(last) {
            assert(spread(kept.push(last))[j] == x);
        }
    } else {
        if !keep(last) {
            assert(spread(last.children).len() == 0);
        }
        let j = i - before.len();
        assert(spread(kept.push(last))[spread(kept).len() + j] == x);
    }
}

/// What the walk of a reached node returns, the walk of the whole tree returns too, unless it is
/// a line of text that a node of the tree already carries.
pub proof fn law_a_part_returns_what_the_whole_returns(
    n: NodeV,
    f: FilterV,
    m: NodeV,
    x: WidgetV,
)
    requires
        reached(n, f).contains(m),
        spread(walk::walked(m, f)).contains(x),
        forall|a: NodeV| #[trigger]
            node::preorder(n).contains(a) ==> !x.echoes(widget::owned_text(a)),
    ensures
        spread(walk::walked(n, f)).contains(x),
    decreases n,
{
    if !f.excludes(n) {
        let below = walk::walked_all(n.children, f);
        let w = own_widget(n, f);
        let all = node::preorder(n);
        let i = choose|i: int| 0 <= i < reached(n, f).len() && reached(n, f)[i] == m;
        assert(all[0] == n);
        assert(all.contains(n));
        if i > 0 {
            assert(reached_all(n.children, f)[i - 1] == m);
            let under = node::preorder_all(n.children);
            assert forall|a: NodeV| #[trigger] under.contains(a) implies !x.echoes(
                widget::owned_text(a),
            ) by {
                let k = under.index_of(a);
                assert(all[k + 1] == a);
                assert(all.contains(a));
            }
            lemma_parts_return(n.children, f, m, x);
            if f.matched_by(n) {
                lemma_unechoed_keeps(widget::owned_text(n), below, x);
                assert(spread(w.children).contains(x));
                assert(w.children.len() > 0);
                if !w.pass_through(f) {
                    let one = seq![w];
                    assert(one.drop_last() =~= Seq::empty());
                    assert(spread(one.drop_last()) =~= Seq::empty());
                    assert(spread(one) =~= one + spread(w.children));
                    let j = choose|j: int|
                        0 <= j < spread(w.children).len() && spread(w.children)[j] == x;
                    assert(spread(one)[j + 1] == x);
                }
            }
        }
    }
}

proof fn lemma_parts_return(ns: Seq<NodeV>, f: FilterV, m: NodeV, x: WidgetV)
    requires
        reached_all(ns, f).contains(m),
        spread(walk::walked(m, f)).contains(x),
        forall|a: NodeV| #[trigger]
            node::preorder_all(ns).contains(a) ==> !x.echoes(widget::owned_text(a)),
    ensures
        spread(walk::walked_all(ns, f)).contains(x),
    decreases ns,
{
    let before = reached_all(ns.drop_last(), f);
    let a = walk::walked_all(ns.drop_last(), f);
    let b = walk::walked(ns.last(), f);
    let all = node::preorder_all(ns);
    let head = node::preorder_all(ns.drop_last());
    let tail = node::preorder(ns.last());
    lemma_spread_add(a, b);
    let i = choose|i: int| 0 <= i < reached_all(ns, f).len() && reached_all(ns, f)[i] == m;
    if i < before.len() {
        assert(before[i] == m);
        assert forall|c: NodeV| #[trigger] head.contains(c) implies !x.echoes(
            widget::owned_text(c),
        ) by {
            assert(all[head.index_of(c)] == c);
            assert(all.contains(c));
        }
        lemma_parts_return(ns.drop_last(), f, m, x);
        let j = choose|j: int| 0 <= j < spread(a).len() && spread(a)[j] == x;
        assert(spread(a + b)[j] == x);
    } else {
        assert(reached(ns.last(), f)[i - before.len()] == m);
        assert forall|c: NodeV| #[trigger] tail.contains(c) implies !x.echoes(
            widget::owned_text(c),
        ) by {
            assert(all[head.len() + tail.index_of(c)] == c);
            assert(all.contains(c));
        }
        law_a_part_returns_what_the_whole_returns(ns.last(), f, m, x);
        let j = choose|j: int| 0 <= j < spread(b).len() && spread(b)[j] == x;
        assert(spread(a + b)[spread(a).len() + j] == x);
    }
}

/// A match shows its node: the id, the role unless it is `Unknown`, the state, and the label and
/// the value, each cut after a hundred characters. Below it stands what the walk of its children
/// returns, but for lines of text that the node itself carries.
pub proof fn law_a_widget_shows_its_node(m: NodeV, f: FilterV)
    ensures
        own_widget(m, f).id == m.id,
        m.role == "Unknown"@ ==> own_widget(m, f).role is None,
        m.role != "Unknown"@ ==> own_widget(m, f).role == Some(m.role),
        own_widget(m, f).label is Some <==> m.label is Some,
        m.label matches Some(label) ==> own_widget(m, f).label->0 == (if label.len() <= 100 {
            label
        } else {
            label.take(100) + " […]"@
        }),
        own_widget(m, f).value is Some <==> m.value is Some,
        m.value matches Some(value) ==> own_widget(m, f).value->0 == (if value.len() <= 100 {
            value
        } else {
            value.take(100) + " […]"@
        }),
        own_widget(m, f).focused == m.focused,
        own_widget(m, f).disabled == m.disabled,
        own_widget(m, f).hidden == m.hidden,
        own_widget(m, f).omitted_children == 0,
        forall|x: WidgetV| #[trigger]
            own_widget(m, f).children.contains(x) <==> walk::walked_all(m.children, f).contains(x)
                && !(x.role == Some("TextRun"@) && x.children.len() == 0 && x.value is Some
                && text::occurs(
                (match m.label {
                    Some(label) => label,
                    None => Seq::empty(),
                }) + " "@ + (match m.value {
                    Some(value) => value,
                    None => Seq::empty(),
                }),
                text::strip_tails(x.value->0, " […]"@),
            )),
{
    let owned = widget::owned_text(m);
    let below = walk::walked_all(m.children, f);
    let w = own_widget(m, f);
    assert forall|x: WidgetV| #[trigger] w.children.contains(x) <==> below.contains(x)
        && !x.echoes(owned) by {
        if w.children.contains(x) {
            below.lemma_filter_contains_rev(|w: WidgetV| !w.echoes(owned), x);
            below.lemma_filter_pred(|w: WidgetV| !w.echoes(owned), w.children.index_of(x));
        }
        if below.contains(x) && !x.echoes(owned) {
            below.lemma_filter_contains(|w: WidgetV| !w.echoes(owned), below.index_of(x));
        }
    }
}

/// What a walk returns for one subtree: nothing if its root is excluded; the matches below if the
/// root is no match; and else the root's own widget, unless that says nothing at all, in which
/// case nothing is returned, or only stands above one child and was not asked for by its role, in
/// which case the child is.
pub proof fn law_what_a_walk_returns(n: NodeV, f: FilterV)
    ensures
        f.excludes(n) ==> walk::walked(n, f).len() == 0,
        !f.excludes(n) && !f.matched_by(n) ==> walk::walked(n, f) == walk::walked_all(n.children, f),
        !f.excludes(n) && f.matched_by(n) ==> ({
            let w = own_widget(n, f);
            let blank = n.label is None && n.value is None;
            if blank && n.role == "Unknown"@ && w.children.len() == 0 {
                walk::walked(n, f) == Seq::<WidgetV>::empty()
            } else if blank && (n.role == "Unknown"@ || n.role == "GenericContainer"@)
                && w.children.len() == 1 && !n.focused && !n.disabled && !n.hidden && (
            f.query.role matches Some(wanted) ==> text::lower(wanted) != text::lower(n.role)) {
                walk::walked(n, f) == w.children
            } else {
                walk::walked(n, f) == seq![w]
            }
        }),
{
}

/// The subtrees of a list are walked one after the other.
pub proof fn law_subtrees_are_walked_in_order(a: Seq<NodeV>, b: Seq<NodeV>, n: NodeV, f: FilterV)
    ensures
        walk::walked_all(a + b, f) == walk::walked_all(a, f) + walk::walked_all(b, f),
        walk::walked_all(seq![n], f) == walk::walked(n, f),
        walk::walked_all(Seq::<NodeV>::empty(), f).len() == 0,
    decreases b.len(),
{
    let one = seq![n];
    assert(one.drop_last() =~= Seq::empty());
    assert(walk::walked_all(one.drop_last(), f) =~= Seq::empty());
    assert(walk::walked_all(one, f) =~= walk::walked(n, f));
    if b.len() > 0 {
        law_subtrees_are_walked_in_order(a, b.drop_last(), n, f);
        assert((a + b).drop_last() =~= a + b.drop_last());
        assert(walk::walked_all(a + b, f) =~= walk::walked_all(a, f) + walk::walked_all(b, f));
    } else {
        assert(a + b =~= a);
        assert(walk::walked_all(a + b, f) =~= walk::walked_all(a, f) + walk::walked_all(b, f));
    }
}

/// Every match that a walk reaches is returned, but for three kinds: an `Unknown` one without
/// text and with nothing below it; an `Unknown` one or a container without text or state above one
/// child, whose role was not asked for; and a line of text that some node of the tree carries.
pub proof fn law_only_scaffolding_and_echoes_are_left_out(n: NodeV, f: FilterV, m: NodeV)
    requires
        reached(n, f).contains(m),
        f.matched_by(m),
    ensures
        ({
            let x = own_widget(m, f);
            let blank = m.label is None && m.value is None;
            ||| spread(walk::walked(n, f)).contains(x)
            ||| blank && m.role == "Unknown"@ && x.children.len() == 0
            ||| {
                &&& blank && x.children.len() == 1 && !m.focused && !m.disabled && !m.hidden
                &&& m.role == "Unknown"@ || m.role == "GenericContainer"@
                &&& f.query.role matches Some(wanted) ==> text::lower(wanted) != text::lower(m.role)
            }
            ||| m.role == "TextRun"@ && x.children.len() == 0 && m.value is Some
                && exists|a: NodeV| #[trigger]
                node::preorder(n).contains(a) && text::occurs(
                    (match a.label {
                        Some(label) => label,
                        None => Seq::empty(),
                    }) + " "@ + (match a.value {
                        Some(value) => value,
                        None => Seq::empty(),
                    }),
                    text::strip_tails(x.value->0, " […]"@),
                )
        }),
{
    let x = own_widget(m, f);
    law_reached_nodes_are_not_excluded(n, f, m);
    law_what_a_walk_returns(m, f);
    law_a_widget_shows_its_node(m, f);
    if walk::walked(m, f) == seq![x] {
        let one = seq![x];
        assert(one.drop_last() =~= Seq::empty());
        assert(spread(one.drop_last()) =~= Seq::empty());
        assert(spread(one)[0] == x);
        assert(spread(walk::walked(m, f)).contains(x));
        if forall|a: NodeV| #[trigger]
            node::preorder(n).contains(a) ==> !x.echoes(widget::owned_text(a)) {
            law_a_part_returns_what_the_whole_returns(n, f, m, x);
        }
    }
}

/// A forest is spread out tree by tree, each widget before those below it.
pub proof fn law_a_forest_is_spread_in_order(a: Seq<WidgetV>, b: Seq<WidgetV>, w: WidgetV)
    ensures
        spread(a + b) == spread(a) + spread(b),
        spread(seq![w]) == seq![w] + spread(w.children),
        spread(Seq::<WidgetV>::empty()).len() == 0,
{
    lemma_spread_add(a, b);
    let one = seq![w];
    assert(one.drop_last() =~= Seq::empty());
    assert(spread(one.drop_last()) =~= Seq::empty());
    assert(spread(one) =~= seq![w] + spread(w.children));
}

/// Lines of text that a node carries are dropped where they stand, and nothing else is: the rest
/// keeps its place.
pub proof fn law_echoes_are_dropped_in_place(
    owned: Seq<char>,
    a: Seq<WidgetV>,
    b: Seq<WidgetV>,
    w: WidgetV,
)
    ensures
        widget::unechoed(owned, a + b) == widget::unechoed(owned, a) + widget::unechoed(owned, b),
        widget::unechoed(owned, seq![w]) == if w.role == Some("TextRun"@) && w.children.len() == 0
            && w.value is Some && text::occurs(owned, text::strip_tails(w.value->0, " […]"@)) {
            Seq::<WidgetV>::empty()
        } else {
            seq![w]
        },
        widget::unechoed(owned, Seq::<WidgetV>::empty()).len() == 0,
{
    let keep = |w: WidgetV| !w.echoes(owned);
    Seq::filter_distributes_over_add(a, b, keep);
    reveal(Seq::filter);
    let one = seq![w];
    assert(one.drop_last() =~= Seq::empty());
    assert(one.drop_last().filter(keep) =~= Seq::empty());
    assert(one.filter(keep) =~= if keep(w) {
        one
    } else {
        Seq::empty()
    });
}

/// The subtrees of a list are reached one after the other.
pub proof fn law_subtrees_are_reached_in_order(a: Seq<NodeV>, b: Seq<NodeV>, n: NodeV, f: FilterV)
    ensures
        reached_all(a + b, f) == reached_all(a, f) + reached_all(b, f),
        reached_all(seq![n], f) == reached(n, f),
        !f.excludes(n) ==> reached(n, f) == seq![n] + reached_all(n.children, f),
    decreases b.len(),
{
    let one = seq![n];
    assert(one.drop_last() =~= Seq::empty());
    assert(reached_all(one.drop_last(), f) =~= Seq::empty());
    assert(reached_all(one, f) =~= reached(n, f));
    if b.len() > 0 {
        law_subtrees_are_reached_in_order(a, b.drop_last(), n, f);
        assert((a + b).drop_last() =~= a + b.drop_last());
        assert(reached_all(a + b, f) =~= reached_all(a, f) + reached_all(b, f));
    } else {
        assert(a + b =~= a);
        assert(reached_all(a + b, f) =~= reached_all(a, f) + reached_all(b, f));
    }
}

}
