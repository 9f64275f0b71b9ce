//! What a caller finds with a filter or a locator, said of the nodes' own fields.
use vstd::prelude::*;

use crate::id::Id;
use crate::matching;
use crate::node;
use crate::node::NodeV;
use crate::query;
use crate::query::{ExclusionV, FilterV, LocatorV, QueryV};
use crate::resolve;
use crate::resolve::MissV;
use crate::text;
use crate::walk;
use crate::widget::WidgetV;

verus! {

/// Every widget that a walk returns stands for a node that meets each constraint that is set,
/// whatever else is set: its role is the wanted one, its label and its value hold their needles,
/// and its label or its value holds the needle for either. Case counts nowhere. With
/// `visible_only` the node is not hidden.
pub proof fn law_a_returned_widget_meets_each_constraint(n: NodeV, f: FilterV, w: WidgetV)
    requires
        matching::spread(walk::walked(n, f)).contains(w),
    ensures
        exists|m: NodeV|
            {
                &&& #[trigger] node::preorder(n).contains(m)
                &&& w.id == m.id
                &&& f.visible_only ==> !m.hidden
                &&& f.query.role matches Some(role) ==> text::lower(role) == text::lower(m.role)
                &&& f.query.label_contains matches Some(needle) ==> {
                    ||| needle.len() == 0
                    ||| m.label matches Some(label) && text::occurs(
                        text::lower(label),
                        text::lower(needle),
                    )
                }
                &&& f.query.value_contains matches Some(needle) ==> {
                    ||| needle.len() == 0
                    ||| m.value matches Some(value) && text::occurs(
                        text::lower(value),
                        text::lower(needle),
                    )
                }
                &&& f.query.content_contains matches Some(needle) ==> {
                    ||| needle.len() == 0
                    ||| m.label matches Some(label) && text::occurs(
                        text::lower(label),
                        text::lower(needle),
                    )
                    ||| m.value matches Some(value) && text::occurs(
                        text::lower(value),
                        text::lower(needle),
                    )
                }
            },
{
    matching::law_every_widget_stands_for_a_match(n, f, w);
    let m = choose|m: NodeV| #[trigger]
        matching::matches(n, f).contains(m) && matching::reached(n, f).contains(m) && f.matched_by(m)
            && w == crate::widget::widget_of(m, w.children) && walk::walked(m, f) == seq![w];
    matching::law_reached_nodes_are_not_excluded(n, f, m);
    lemma_needles(f.query, m);
    assert(node::preorder(n).contains(m));
}

proof fn lemma_needles(q: QueryV, m: NodeV)
    ensures
        q.label_contains matches Some(needle) ==> (query::holds_ci(m.label, needle) <==> {
            ||| needle.len() == 0
            ||| m.label matches Some(label) && text::occurs(text::lower(label), text::lower(needle))
        }),
        q.value_contains matches Some(needle) ==> (query::holds_ci(m.value, needle) <==> {
            ||| needle.len() == 0
            ||| m.value matches Some(value) && text::occurs(text::lower(value), text::lower(needle))
        }),
        q.content_contains matches Some(needle) ==> (query::holds_ci(m.label, needle) <==> {
            ||| needle.len() == 0
            ||| m.label matches Some(label) && text::occurs(text::lower(label), text::lower(needle))
        }),
        q.content_contains matches Some(needle) ==> (query::holds_ci(m.value, needle) <==> {
            ||| needle.len() == 0
            ||| m.value matches Some(value) && text::occurs(text::lower(value), text::lower(needle))
        }),
{
    if q.label_contains is Some {
        query::lemma_absent_text_holds_nothing(m.label, q.label_contains->0);
    }
    if q.value_contains is Some {
        query::lemma_absent_text_holds_nothing(m.value, q.value_contains->0);
    }
    if q.content_contains is Some {
        query::lemma_absent_text_holds_nothing(m.label, q.content_contains->0);
        query::lemma_absent_text_holds_nothing(m.value, q.content_contains->0);
    }
}

/// A node that a walk reaches, that may be shown, and that meets each constraint on its own, is a
/// match.
pub proof fn law_a_node_that_meets_each_constraint_is_a_match(n: NodeV, f: FilterV, m: NodeV)
    requires
        matching::reached(n, f).contains(m),
        f.visible_only ==> !m.hidden,
        f.query.role matches Some(role) ==> text::lower(role) == text::lower(m.role),
        f.query.label_contains matches Some(needle) ==> {
            ||| needle.len() == 0
            ||| m.label matches Some(label) && text::occurs(text::lower(label), text::lower(needle))
        },
        f.query.value_contains matches Some(needle) ==> {
            ||| needle.len() == 0
            ||| m.value matches Some(value) && text::occurs(text::lower(value), text::lower(needle))
        },
        f.query.content_contains matches Some(needle) ==> {
            ||| needle.len() == 0
            ||| m.label matches Some(label) && text::occurs(text::lower(label), text::lower(needle))
            ||| m.value matches Some(value) && text::occurs(text::lower(value), text::lower(needle))
        },
    ensures
        f.matched_by(m),
        matching::matches(n, f).contains(m),
{
    lemma_needles(f.query, m);
    let all = matching::reached(n, f);
    all.lemma_filter_contains(|m: NodeV| f.matched_by(m), all.index_of(m));
}

/// A node is excluded exactly if it has the excluded id, or if the exclusion has a constraint and
/// the node meets each that it has.
pub proof fn law_what_an_exclusion_takes(f: FilterV, m: NodeV)
    ensures
        f.exclude is None ==> !f.excludes(m),
        f.exclude matches Some(e) ==> (f.excludes(m) <==> {
            ||| e.id == Some(m.id)
            ||| {
                &&& e.query.role is Some || e.query.label_contains is Some || e.query.value_contains is Some
                    || e.query.content_contains is Some
                &&& e.query.role matches Some(role) ==> text::lower(role) == text::lower(m.role)
                &&& e.query.label_contains matches Some(needle) ==> {
                    ||| needle.len() == 0
                    ||| m.label matches Some(label) && text::occurs(
                        text::lower(label),
                        text::lower(needle),
                    )
                }
                &&& e.query.value_contains matches Some(needle) ==> {
                    ||| needle.len() == 0
                    ||| m.value matches Some(value) && text::occurs(
                        text::lower(value),
                        text::lower(needle),
                    )
                }
                &&& e.query.content_contains matches Some(needle) ==> {
                    ||| needle.len() == 0
                    ||| m.label matches Some(label) && text::occurs(
                        text::lower(label),
                        text::lower(needle),
                    )
                    ||| m.value matches Some(value) && text::occurs(
                        text::lower(value),
                        text::lower(needle),
                    )
                }
            }
        }),
{
    if f.exclude is Some {
        let e: ExclusionV = f.exclude->0;
        lemma_needles(e.query, m);
    }
}

/// A node is reached exactly if it is one of the tree and neither it nor a node above it is
/// excluded: the root is reached unless it is excluded, and below a reached node a child's
/// subtree is reached as that of a root.
pub proof fn law_what_a_walk_reaches(n: NodeV, f: FilterV, m: NodeV)
    ensures
        f.excludes(n) ==> matching::reached(n, f).len() == 0,
        !f.excludes(n) ==> matching::reached(n, f)[0] == n,
        !f.excludes(n) ==> (matching::reached(n, f).contains(m) <==> m == n || exists|i: int|
            0 <= i < n.children.len() && matching::reached(#[trigger] n.children[i], f).contains(m)),
{
    if !f.excludes(n) {
        let all = matching::reached(n, f);
        let below = matching::reached_all(n.children, f);
        assert(all =~= seq![n] + below);
        lemma_reached_all(n.children, f, m);
        if all.contains(m) && m != n {
            let k = all.index_of(m);
            assert(below[k - 1] == m);
        }
        if m == n {
            assert(all[0] == m);
        }
        if below.contains(m) {
            let k = below.index_of(m);
            assert(all[k + 1] == m);
        }
    }
}

proof fn lemma_reached_all(ns: Seq<NodeV>, f: FilterV, m: NodeV)
    ensures
        matching::reached_all(ns, f).contains(m) <==> exists|i: int|
            0 <= i < ns.len() && matching::reached(#[trigger] ns[i], f).contains(m),
    decreases ns.len(),
{
    let all = matching::reached_all(ns, f);
    if ns.len() > 0 {
        let rest = ns.drop_last();
        let before = matching::reached_all(rest, f);
        let last = matching::reached(ns.last(), f);
        lemma_reached_all(rest, f, m);
        assert(all =~= before + last);
        if all.contains(m) {
            let k = all.index_of(m);
            if k < before.len() {
                assert(before[k] == m);
                let i = choose|i: int|
                    0 <= i < rest.len() && matching::reached(#[trigger] rest[i], f).contains(m);
                assert(ns[i] == rest[i]);
            } else {
                assert(last[k - before.len()] == m);
                assert(matching::reached(ns[ns.len() - 1], f).contains(m));
            }
        }
        if exists|i: int| 0 <= i < ns.len() && matching::reached(#[trigger] ns[i], f).contains(m) {
            let i = choose|i: int|
                0 <= i < ns.len() && matching::reached(#[trigger] ns[i], f).contains(m);
            if i < rest.len() {
                assert(rest[i] == ns[i]);
                let k = before.index_of(m);
                assert(all[k] == m);
            } else {
                let k = last.index_of(m);
                assert(all[before.len() + k] == m);
            }
        }
    }
}

/// A node is what an id means exactly if it has that id, hidden or not. It is what a role and
/// text match means exactly if it is not hidden and meets each constraint that is set.
pub proof fn law_what_a_locator_means(id: Id, q: QueryV, m: NodeV)
    ensures
        (LocatorV::Id { id }).hits(m) <==> m.id == id,
        (LocatorV::Match { query: q }).hits(m) <==> {
            &&& !m.hidden
            &&& q.role matches Some(role) ==> text::lower(role) == text::lower(m.role)
            &&& q.label_contains matches Some(needle) ==> {
                ||| needle.len() == 0
                ||| m.label matches Some(label) && text::occurs(
                    text::lower(label),
                    text::lower(needle),
                )
            }
            &&& q.value_contains matches Some(needle) ==> {
                ||| needle.len() == 0
                ||| m.value matches Some(value) && text::occurs(
                    text::lower(value),
                    text::lower(needle),
                )
            }
            &&& q.content_contains matches Some(needle) ==> {
                ||| needle.len() == 0
                ||| m.label matches Some(label) && text::occurs(
                    text::lower(label),
                    text::lower(needle),
                )
                ||| m.value matches Some(value) && text::occurs(
                    text::lower(value),
                    text::lower(needle),
                )
            }
        },
{
    lemma_needles(q, m);
}

/// A role and text match never means a hidden node: neither is one resolved to, nor is one listed
/// where several match.
pub proof fn law_a_match_means_visible_nodes(n: NodeV, q: QueryV)
    ensures
        resolve::resolution(n, LocatorV::Match { query: q }) matches Ok(m) ==> !m.hidden
            && node::preorder(n).contains(m),
        resolve::resolution(n, LocatorV::Match { query: q }) matches Err(
            MissV::Ambiguous { what, matches },
        ) ==> forall|i: int| 0 <= i < matches.len() ==> !(#[trigger] matches[i]).hidden,
{
    let l = LocatorV::Match { query: q };
    let hit = |m: NodeV| l.hits(m);
    let all = node::preorder(n);
    let found = resolve::found(n, l);
    assert forall|i: int| 0 <= i < found.len() implies !(#[trigger] found[i]).hidden && all.contains(
        found[i],
    ) by {
        all.lemma_filter_pred(hit, i);
        assert(found.contains(found[i]));
        all.lemma_filter_contains_rev(hit, found[i]);
    }
}

/// Hidden nodes do not change what a role and text match resolves to: two trees with the same
/// visible nodes in the same order give the same outcome.
pub proof fn law_hidden_nodes_do_not_count(a: NodeV, b: NodeV, q: QueryV)
    requires
        node::preorder(a).filter(|m: NodeV| !m.hidden) == node::preorder(b).filter(
            |m: NodeV| !m.hidden,
        ),
    ensures
        resolve::resolution(a, LocatorV::Match { query: q }) == resolve::resolution(
            b,
            LocatorV::Match { query: q },
        ),
{
    let l = LocatorV::Match { query: q };
    let hit = |m: NodeV| l.hits(m);
    let shown = |m: NodeV| !m.hidden;
    assert forall|m: NodeV| #[trigger] hit(m) implies shown(m) by {
        law_what_a_locator_means(Id(0), q, m);
    }
    lemma_filter_in_two_steps(node::preorder(a), shown, hit);
    lemma_filter_in_two_steps(node::preorder(b), shown, hit);
}

/// Filtering by a wider test first makes no difference.
proof fn lemma_filter_in_two_steps(
    s: Seq<NodeV>,
    wide: spec_fn(NodeV) -> bool,
    narrow: spec_fn(NodeV) -> bool,
)
    requires
        forall|m: NodeV| #[trigger] narrow(m) ==> wide(m),
    ensures
        s.filter(narrow) == s.filter(wide).filter(narrow),
    decreases s.len(),
{
    reveal(Seq::filter);
    if s.len() > 0 {
        let t = s.drop_last();
        lemma_filter_in_two_steps(t, wide, narrow);
        if wide(s.last()) {
            assert(s.filter(wide) =~= t.filter(wide).push(s.last()));
            assert(s.filter(wide).drop_last() =~= t.filter(wide));
        }
        assert(s.filter(narrow) =~= s.filter(wide).filter(narrow));
    } else {
        assert(s.filter(narrow) =~= s.filter(wide).filter(narrow));
    }
}

/// A locator that means no node of the tree has no answer.
pub proof fn law_what_is_not_there_is_not_found(n: NodeV, l: LocatorV)
    ensures
        (forall|k: int| 0 <= k < node::preorder(n).len() ==> !l.hits(#[trigger] node::preorder(n)[k]))
            <==> resolve::resolution(n, l) == Err::<NodeV, MissV>(
            MissV::NotFound { what: l.words() },
        ),
{
    let s = node::preorder(n);
    let hit = |m: NodeV| l.hits(m);
    if forall|k: int| 0 <= k < s.len() ==> !l.hits(#[trigger] s[k]) {
        assert forall|k: int| 0 <= k < s.len() implies !hit(#[trigger] s[k]) by {}
        s.lemma_all_neg_filter_empty(hit);
    } else {
        let k = choose|k: int| 0 <= k < s.len() && l.hits(#[trigger] s[k]);
        s.lemma_filter_contains(hit, k);
        assert(s.filter(hit).len() >= 1);
    }
}

proof fn lemma_filter_around(s: Seq<NodeV>, hit: spec_fn(NodeV) -> bool, i: int)
    requires
        0 <= i < s.len(),
        hit(s[i]),
    ensures
        s.filter(hit) == s.take(i).filter(hit) + seq![s[i]] + s.skip(i + 1).filter(hit),
{
    let head = s.take(i);
    let tail = s.skip(i + 1);
    assert(s =~= head + seq![s[i]] + tail);
    Seq::filter_distributes_over_add(head + seq![s[i]], tail, hit);
    Seq::filter_distributes_over_add(head, seq![s[i]], hit);
    resolve::lemma_filter_one(s[i], hit);
}

/// A locator that means one node of the tree alone is answered with it.
pub proof fn law_what_is_meant_alone_is_the_answer(n: NodeV, l: LocatorV, i: int)
    requires
        0 <= i < node::preorder(n).len(),
        l.hits(node::preorder(n)[i]),
        forall|k: int|
            0 <= k < node::preorder(n).len() && k != i ==> !l.hits(#[trigger] node::preorder(n)[k]),
    ensures
        resolve::resolution(n, l) == Ok::<NodeV, MissV>(node::preorder(n)[i]),
{
    let s = node::preorder(n);
    let hit = |m: NodeV| l.hits(m);
    let head = s.take(i);
    let tail = s.skip(i + 1);
    lemma_filter_around(s, hit, i);
    assert forall|k: int| 0 <= k < head.len() implies !hit(#[trigger] head[k]) by {
        assert(head[k] == s[k]);
    }
    assert forall|k: int| 0 <= k < tail.len() implies !hit(#[trigger] tail[k]) by {
        assert(tail[k] == s[k + i + 1]);
    }
    head.lemma_all_neg_filter_empty(hit);
    tail.lemma_all_neg_filter_empty(hit);
    assert(s.filter(hit) =~= seq![s[i]]);
}

/// A locator that means two nodes of the tree is answered with neither, but with the details of
/// all that it means, in tree order.
pub proof fn law_an_ambiguous_locator_lists_its_nodes(n: NodeV, l: LocatorV, i: int, j: int)
    requires
        0 <= i < j < node::preorder(n).len(),
        l.hits(node::preorder(n)[i]),
        l.hits(node::preorder(n)[j]),
    ensures
        resolve::resolution(n, l) matches Err(MissV::Ambiguous { what, matches }) && what
            == l.words() && matches.len() == node::preorder(n).filter(|m: NodeV| l.hits(m)).len()
            && matches.len() >= 2,
        resolve::resolution(n, l) matches Err(MissV::Ambiguous { what, matches }) ==> forall|k: int|
            0 <= k < matches.len() ==> {
                let d = #[trigger] matches[k];
                let m = node::preorder(n).filter(|m: NodeV| l.hits(m))[k];
                &&& d.id == m.id
                &&& d.role == m.role
                &&& d.label == m.label
                &&& d.value == m.value
                &&& d.bounds == m.bounds
                &&& d.focused == m.focused
                &&& d.disabled == m.disabled
                &&& d.hidden == m.hidden
                &&& d.parent_id == m.parent_id
            },
{
    let s = node::preorder(n);
    let hit = |m: NodeV| l.hits(m);
    let tail = s.skip(i + 1);
    lemma_filter_around(s, hit, i);
    assert(tail[j - i - 1] == s[j]);
    tail.lemma_filter_contains(hit, j - i - 1);
    assert(tail.filter(hit).len() >= 1);
}

/// A tree is walked with each node before those below it, and one child's subtree after the
/// other.
pub proof fn law_a_tree_is_read_in_order(n: NodeV, a: Seq<NodeV>, b: Seq<NodeV>)
    ensures
        node::preorder(n) == seq![n] + node::preorder_all(n.children),
        node::preorder_all(a + b) == node::preorder_all(a) + node::preorder_all(b),
        node::preorder_all(seq![n]) == node::preorder(n),
        node::preorder_all(Seq::<NodeV>::empty()).len() == 0,
        node::size(n) == 1 + node::preorder_all(n.children).len(),
    decreases b.len(),
{
    let one = seq![n];
    assert(one.drop_last() =~= Seq::empty());
    assert(node::preorder_all(one.drop_last()) =~= Seq::empty());
    assert(node::preorder_all(one) =~= node::preorder(n));
    if b.len() > 0 {
        law_a_tree_is_read_in_order(n, a, b.drop_last());
        assert((a + b).drop_last() =~= a + b.drop_last());
        assert(node::preorder_all(a + b) =~= node::preorder_all(a) + node::preorder_all(b));
    } else {
        assert(a + b =~= a);
        assert(node::preorder_all(a + b) =~= node::preorder_all(a) + node::preorder_all(b));
    }
}

}
