//! What a caller can rely on in the answer to a query, and do with it.
use vstd::prelude::*;

use crate::budget;
use crate::id::Id;
use crate::limit;
use crate::lookup;
use crate::matching;
use crate::node;
use crate::node::NodeV;
use crate::query::{FilterV, LocatorV};
use crate::resolve;
use crate::resolve::MissV;
use crate::text;
use crate::walk;
use crate::widget;
use crate::widget::WidgetV;

verus! {

/// No two nodes of the list have the same id.
pub open spec fn ids_differ(ns: Seq<NodeV>) -> bool {
    forall|i: int, j: int| 0 <= i < j < ns.len() ==> (#[trigger] ns[i]).id != (#[trigger] ns[j]).id
}

/// The query was answered with this forest.
pub open spec fn answers(n: NodeV, f: FilterV, ws: Seq<WidgetV>) -> bool {
    walk::queried(n, f) == Ok::<Seq<WidgetV>, MissV>(ws)
}

/// A query without `root` is always answered; one with it is answered exactly if one node of
/// the tree has that id.
pub proof fn law_when_a_query_is_answered(n: NodeV, f: FilterV)
    ensures
        f.root is None ==> walk::queried(n, f) is Ok,
        f.root matches Some(id) ==> (walk::queried(n, f) is Ok <==> resolve::found(
            n,
            LocatorV::Id { id },
        ).len() == 1),
{
}

/// The node that an answered query walks.
pub open spec fn walked_root(n: NodeV, f: FilterV) -> NodeV {
    match f.root {
        None => n,
        Some(id) => resolve::found(n, LocatorV::Id { id })[0],
    }
}

proof fn lemma_walked_root(n: NodeV, f: FilterV, ws: Seq<WidgetV>)
    requires
        answers(n, f, ws),
    ensures
        ws == limit::limited(walk::walked(walked_root(n, f), f), f.limit as nat),
        node::preorder(n).contains(walked_root(n, f)),
{
    match f.root {
        None => {
            assert(node::preorder(n)[0] == n);
        },
        Some(id) => {
            let l = LocatorV::Id { id };
            let m = resolve::found(n, l)[0];
            assert(resolve::found(n, l).contains(m));
            node::preorder(n).lemma_filter_contains_rev(|m: NodeV| l.hits(m), m);
        },
    }
}

/// An answer has as many widgets as the limit allows, or all that the walk from its root returns
/// if they are fewer.
pub proof fn law_an_answer_keeps_to_the_limit(n: NodeV, f: FilterV, ws: Seq<WidgetV>)
    requires
        answers(n, f, ws),
    ensures
        limit::count_of(ws) <= f.limit,
        limit::count_of(ws) == limit::least(
            f.limit as nat,
            limit::count_of(walk::walked(walked_root(n, f), f)),
        ),
{
    lemma_walked_root(n, f, ws);
    budget::law_a_limit_is_used_up(walk::walked(walked_root(n, f), f), f.limit as nat);
}

/// Each widget of a trimmed forest is trimmed from one of the whole.
proof fn lemma_trimmed_source(xs: Seq<WidgetV>, ws: Seq<WidgetV>, x: WidgetV)
    requires
        budget::all_trimmed(xs, ws),
        matching::spread(xs).contains(x),
    ensures
        exists|w: WidgetV| #[trigger]
            matching::spread(ws).contains(w) && budget::trimmed(x, w),
    decreases xs,
{
    let all = matching::spread(xs);
    let before = matching::spread(xs.drop_last());
    let i = choose|i: int| 0 <= i < all.len() && all[i] == x;
    let k = xs.len() - 1;
    assert(budget::trimmed(xs[k], ws[k]));
    if i < before.len() {
        assert(before[i] == x);
        assert forall|j: int| 0 <= j < xs.drop_last().len() implies budget::trimmed(
            #[trigger] xs.drop_last()[j],
            ws[j],
        ) by {
            assert(xs.drop_last()[j] == xs[j]);
        }
        lemma_trimmed_source(xs.drop_last(), ws, x);
    } else if i == before.len() {
        assert(x == xs[k]);
        lemma_spread_contains(ws, k, ws[k]);
    } else {
        let below = matching::spread(xs[k].children);
        assert(below[i - before.len() - 1] == x);
        lemma_trimmed_source(xs[k].children, ws[k].children, x);
        let w = choose|w: WidgetV| #[trigger]
            matching::spread(ws[k].children).contains(w) && budget::trimmed(x, w);
        lemma_spread_contains(ws, k, w);
    }
}

/// A root, and whatever stands below it, is in the forest.
proof fn lemma_spread_contains(ws: Seq<WidgetV>, k: int, w: WidgetV)
    requires
        0 <= k < ws.len(),
        w == ws[k] || matching::spread(ws[k].children).contains(w),
    ensures
        matching::spread(ws).contains(w),
    decreases ws.len(),
{
    let all = matching::spread(ws);
    let before = matching::spread(ws.drop_last());
    if k < ws.len() - 1 {
        assert(ws.drop_last()[k] == ws[k]);
        lemma_spread_contains(ws.drop_last(), k, w);
        let i = choose|i: int| 0 <= i < before.len() && before[i] == w;
        assert(all[i] == w);
    } else if w == ws[k] {
        assert(all[before.len() as int] == w);
    } else {
        let below = matching::spread(ws[k].children);
        let i = choose|i: int| 0 <= i < below.len() && below[i] == w;
        assert(all[before.len() + 1 + i] == w);
    }
}

/// What stands in a part of a tree stands in the tree.
proof fn lemma_preorder_nests(n: NodeV, r: NodeV, m: NodeV)
    requires
        node::preorder(n).contains(r),
        node::preorder(r).contains(m),
    ensures
        node::preorder(n).contains(m),
    decreases n,
{
    let all = node::preorder(n);
    let i = choose|i: int| 0 <= i < all.len() && all[i] == r;
    if i > 0 {
        let below = node::preorder_all(n.children);
        assert(below[i - 1] == r);
        lemma_preorder_nests_all(n.children, r, m);
        let j = choose|j: int| 0 <= j < below.len() && below[j] == m;
        assert(all[j + 1] == m);
    }
}

proof fn lemma_preorder_nests_all(ns: Seq<NodeV>, r: NodeV, m: NodeV)
    requires
        node::preorder_all(ns).contains(r),
        node::preorder(r).contains(m),
    ensures
        node::preorder_all(ns).contains(m),
    decreases ns,
{
    let all = node::preorder_all(ns);
    let before = node::preorder_all(ns.drop_last());
    let last = node::preorder(ns.last());
    let i = choose|i: int| 0 <= i < all.len() && all[i] == r;
    if i < before.len() {
        assert(before[i] == r);
        lemma_preorder_nests_all(ns.drop_last(), r, m);
        let j = choose|j: int| 0 <= j < before.len() && before[j] == m;
        assert(all[j] == m);
    } else {
        assert(last[i - before.len()] == r);
        lemma_preorder_nests(ns.last(), r, m);
        let j = choose|j: int| 0 <= j < last.len() && last[j] == m;
        assert(all[before.len() + j] == m);
    }
}

/// Where ids differ, one of the nodes is the only one with its id.
proof fn lemma_only_one(ns: Seq<NodeV>, m: NodeV)
    requires
        ids_differ(ns),
        ns.contains(m),
    ensures
        ns.filter(|x: NodeV| (LocatorV::Id { id: m.id }).hits(x)) == seq![m],
    decreases ns.len(),
{
    reveal(Seq::filter);
    let hit = |x: NodeV| (LocatorV::Id { id: m.id }).hits(x);
    let k = choose|k: int| 0 <= k < ns.len() && ns[k] == m;
    let before = ns.drop_last();
    assert(ids_differ(before)) by {
        assert forall|i: int, j: int| 0 <= i < j < before.len() implies (#[trigger] before[i]).id
            != (#[trigger] before[j]).id by {
            assert(ns[i].id != ns[j].id);
        }
    }
    if k == ns.len() - 1 {
        assert forall|i: int| 0 <= i < before.len() implies !hit(#[trigger] before[i]) by {
            assert(ns[i].id != ns[k].id);
        }
        before.lemma_all_neg_filter_empty(hit);
        assert(before.filter(hit) =~= Seq::empty());
        assert(ns.filter(hit) =~= seq![m]);
    } else {
        assert(before[k] == m);
        lemma_only_one(before, m);
        assert(ns[k].id != ns[ns.len() - 1].id);
    }
}

/// Where no two nodes of a tree share an id, each node is the only one found for its id.
pub proof fn law_distinct_ids_are_found_once(n: NodeV, m: NodeV)
    requires
        ids_differ(node::preorder(n)),
        node::preorder(n).contains(m),
    ensures
        resolve::found(n, LocatorV::Id { id: m.id }) == seq![m],
{
    lemma_only_one(node::preorder(n), m);
}

/// A node of the tree is what is found for its id, if only one node is.
proof fn lemma_found_alone(n: NodeV, m: NodeV)
    requires
        node::preorder(n).contains(m),
        resolve::found(n, LocatorV::Id { id: m.id }).len() == 1,
    ensures
        resolve::found(n, LocatorV::Id { id: m.id }) == seq![m],
{
    let l = LocatorV::Id { id: m.id };
    let all = node::preorder(n);
    all.lemma_filter_contains(|x: NodeV| l.hits(x), all.index_of(m));
    assert(resolve::found(n, l).contains(m));
    assert(resolve::found(n, l) =~= seq![m]);
}

/// An answered widget stands for a node of the tree; limit and walk are undone by asking for
/// that node.
proof fn lemma_answered_source(n: NodeV, f: FilterV, ws: Seq<WidgetV>, x: WidgetV) -> (r: (
    NodeV,
    WidgetV,
))
    requires
        answers(n, f, ws),
        matching::spread(ws).contains(x),
    ensures
        node::preorder(n).contains(r.0),
        walk::walked(r.0, f) == seq![r.1],
        r.1 == widget::widget_of(r.0, r.1.children),
        budget::trimmed(x, r.1),
        !r.1.noise(),
{
    let root = walked_root(n, f);
    let whole = walk::walked(root, f);
    lemma_walked_root(n, f, ws);
    budget::law_a_walk_omits_nothing(root, f);
    budget::law_a_limit_says_what_it_dropped(whole, f.limit as nat);
    lemma_trimmed_source(ws, whole, x);
    let w = choose|w: WidgetV| #[trigger]
        matching::spread(whole).contains(w) && budget::trimmed(x, w);
    matching::law_every_widget_stands_for_a_match(root, f, w);
    matching::law_no_scaffolding_is_returned(root, f, w);
    let m = choose|m: NodeV| #[trigger]
        matching::matches(root, f).contains(m) && matching::reached(root, f).contains(m)
            && f.matched_by(m) && w == widget::widget_of(m, w.children) && walk::walked(m, f)
            == seq![w];
    matching::law_reached_nodes_are_not_excluded(root, f, m);
    lemma_preorder_nests(n, root, m);
    (m, w)
}

/// Every widget of an answer is worth having: it has a role, a label, a value or children, or
/// had children that the limit cut.
pub proof fn law_every_answered_widget_says_something(
    n: NodeV,
    f: FilterV,
    ws: Seq<WidgetV>,
    x: WidgetV,
)
    requires
        answers(n, f, ws),
        matching::spread(ws).contains(x),
    ensures
        x.role is Some || x.label is Some || x.value is Some || x.children.len() > 0
            || x.omitted_children > 0,
{
    let (m, w) = lemma_answered_source(n, f, ws, x);
}

/// An id that an answer hands out, and that one node alone has, resolves to the node that the
/// widget stands for, whose detail holds in full the text that the widget may have cut short.
pub proof fn law_a_handed_out_id_resolves(n: NodeV, f: FilterV, ws: Seq<WidgetV>, x: WidgetV)
    requires
        answers(n, f, ws),
        matching::spread(ws).contains(x),
        resolve::found(n, LocatorV::Id { id: x.id }).len() == 1,
    ensures
        ({
            let due = resolve::resolution(n, LocatorV::Id { id: x.id });
            &&& due matches Ok(m) && {
                let d = widget::detail_of(m);
                &&& d.id == x.id
                &&& x.label == widget::opt_shortened(d.label)
                &&& x.value == widget::opt_shortened(d.value)
                &&& x.role == (if d.role == widget::UNKNOWN_ROLE@ {
                    None
                } else {
                    Some(d.role)
                })
                &&& x.focused == d.focused
                &&& x.disabled == d.disabled
                &&& x.hidden == d.hidden
            }
        }),
{
    let (m, w) = lemma_answered_source(n, f, ws, x);
    assert(m.id == x.id);
    lemma_found_alone(n, m);
}

/// The same filter, from another root and without a limit.
pub open spec fn from_root(f: FilterV, id: Id) -> FilterV {
    FilterV { root: Some(id), limit: usize::MAX, ..f }
}

/// The children that a limit cut are there to be had: where one node alone has the widget's id,
/// the same query with that id as `root`, and room for all, is answered with that widget and
/// everything below it.
pub proof fn law_omitted_children_can_be_fetched(
    n: NodeV,
    f: FilterV,
    ws: Seq<WidgetV>,
    x: WidgetV,
)
    requires
        node::size(n) <= usize::MAX,
        answers(n, f, ws),
        matching::spread(ws).contains(x),
        resolve::found(n, LocatorV::Id { id: x.id }).len() == 1,
    ensures
        exists|w: WidgetV| #[trigger]
            answers(n, from_root(f, x.id), seq![w]) && budget::trimmed(x, w) && w.children.len()
                == x.children.len() + x.omitted_children,
{
    let (m, w) = lemma_answered_source(n, f, ws, x);
    let g = from_root(f, x.id);
    assert(m.id == x.id);
    lemma_found_alone(n, m);
    assert(resolve::found(n, LocatorV::Id { id: x.id }) == seq![m]);
    lemma_root_and_limit_do_not_matter(m, f, g);
    matching::law_no_more_widgets_than_matches(m, g);
    matching::lemma_part_size(n, m);
    budget::law_a_walk_omits_nothing(m, g);
    budget::law_a_roomy_limit_changes_nothing(seq![w], usize::MAX as nat);
    assert(answers(n, g, seq![w]));
}

/// Neither the root nor the limit of a filter changes what a walk returns.
proof fn lemma_root_and_limit_do_not_matter(n: NodeV, f: FilterV, g: FilterV)
    requires
        g == (FilterV { root: g.root, limit: g.limit, ..f }),
    ensures
        walk::walked(n, f) == walk::walked(n, g),
    decreases n,
{
    lemma_root_and_limit_do_not_matter_all(n.children, f, g);
    let w = matching::own_widget(n, f);
    assert(w.pass_through(f) == w.pass_through(g));
}

proof fn lemma_root_and_limit_do_not_matter_all(ns: Seq<NodeV>, f: FilterV, g: FilterV)
    requires
        g == (FilterV { root: g.root, limit: g.limit, ..f }),
    ensures
        walk::walked_all(ns, f) == walk::walked_all(ns, g),
    decreases ns,
{
    if ns.len() > 0 {
        lemma_root_and_limit_do_not_matter_all(ns.drop_last(), f, g);
        lemma_root_and_limit_do_not_matter(ns.last(), f, g);
    }
}

/// Every widget of an answer stands for a node of the tree that meets each constraint that is
/// set, whatever else is set.
pub proof fn law_an_answered_widget_meets_each_constraint(
    n: NodeV,
    f: FilterV,
    ws: Seq<WidgetV>,
    x: WidgetV,
)
    requires
        answers(n, f, ws),
        matching::spread(ws).contains(x),
    ensures
        exists|m: NodeV|
            {
                &&& #[trigger] node::preorder(n).contains(m)
                &&& x.id == m.id
                &&& f.visible_only ==> !m.hidden
                &&& f.query.role matches Some(role) ==> text::lower(role) == text::lower(m.role)
                &&& f.query.label_contains matches Some(needle) ==> {
                    ||| needle.len() == 0
                    ||| m.label matches Some(label) && text::occurs(
                        text::lower(label),
                        text::lower(needle),
                    )
                }
                &&& f.query.value_contains matches Some(needle) ==> {
                    ||| needle.len() == 0
                    ||| m.value matches Some(value) && text::occurs(
                        text::lower(value),
                        text::lower(needle),
                    )
                }
                &&& f.query.content_contains matches Some(needle) ==> {
                    ||| needle.len() == 0
                    ||| m.label matches Some(label) && text::occurs(
                        text::lower(label),
                        text::lower(needle),
                    )
                    ||| m.value matches Some(value) && text::occurs(
                        text::lower(value),
                        text::lower(needle),
                    )
                }
            },
{
    let root = walked_root(n, f);
    let whole = walk::walked(root, f);
    lemma_walked_root(n, f, ws);
    budget::law_a_walk_omits_nothing(root, f);
    budget::law_a_limit_says_what_it_dropped(whole, f.limit as nat);
    lemma_trimmed_source(ws, whole, x);
    let w = choose|w: WidgetV| #[trigger]
        matching::spread(whole).contains(w) && budget::trimmed(x, w);
    lookup::law_a_returned_widget_meets_each_constraint(root, f, w);
    let m = choose|m: NodeV|
            {
                &&& #[trigger] node::preorder(root).contains(m)
                &&& w.id == m.id
                &&& f.visible_only ==> !m.hidden
                &&& f.query.role matches Some(role) ==> text::lower(role) == text::lower(m.role)
                &&& f.query.label_contains matches Some(needle) ==> {
                    ||| needle.len() == 0
                    ||| m.label matches Some(label) && text::occurs(
                        text::lower(label),
                        text::lower(needle),
                    )
                }
                &&& f.query.value_contains matches Some(needle) ==> {
                    ||| needle.len() == 0
                    ||| m.value matches Some(value) && text::occurs(
                        text::lower(value),
                        text::lower(needle),
                    )
                }
                &&& f.query.content_contains matches Some(needle) ==> {
                    ||| needle.len() == 0
                    ||| m.label matches Some(label) && text::occurs(
                        text::lower(label),
                        text::lower(needle),
                    )
                    ||| m.value matches Some(value) && text::occurs(
                        text::lower(value),
                        text::lower(needle),
                    )
                }
            };
    lemma_preorder_nests(n, root, m);
    assert(node::preorder(n).contains(m));
}

/// The detail of a node is the whole node but for what is below it: its id, role, label, value,
/// bounds, state and parent, each as it is and whatever the others are.
pub proof fn law_a_detail_is_the_whole_node(n: NodeV)
    ensures
        widget::detail_of(n).id == n.id,
        widget::detail_of(n).role == n.role,
        widget::detail_of(n).label == n.label,
        widget::detail_of(n).value == n.value,
        widget::detail_of(n).bounds == n.bounds,
        widget::detail_of(n).focused == n.focused,
        widget::detail_of(n).disabled == n.disabled,
        widget::detail_of(n).hidden == n.hidden,
        widget::detail_of(n).parent_id == n.parent_id,
{
}

/// A query walks the whole tree, or the subtree of the one node that has the id of its root, and
/// is answered with what the limit leaves of the walk. Where the root is not one node, the query
/// fails as resolving its id does.
pub proof fn law_what_a_query_is_answered_with(n: NodeV, f: FilterV)
    ensures
        f.root is None ==> walk::queried(n, f) == Ok::<Seq<WidgetV>, MissV>(
            limit::limited(walk::walked(n, f), f.limit as nat),
        ),
        f.root matches Some(id) ==> match resolve::resolution(n, LocatorV::Id { id }) {
            Ok(m) => m.id == id && walk::queried(n, f) == Ok::<Seq<WidgetV>, MissV>(
                limit::limited(walk::walked(m, f), f.limit as nat),
            ),
            Err(miss) => walk::queried(n, f) == Err::<Seq<WidgetV>, MissV>(miss),
        },
{
    if f.root is Some {
        let l = LocatorV::Id { id: f.root->0 };
        let hit = |m: NodeV| l.hits(m);
        if resolve::resolution(n, l) is Ok {
            node::preorder(n).lemma_filter_pred(hit, 0);
        }
    }
}

}
