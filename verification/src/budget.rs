//! What a limit keeps of a forest, and what it says about the rest.
use vstd::prelude::*;

use crate::id::Id;
use crate::limit;
use crate::matching;
use crate::node::NodeV;
use crate::query::FilterV;
use crate::walk;
use crate::widget::WidgetV;

verus! {

/// How many widgets stand exactly `depth` levels below the roots.
pub open spec fn level(ws: Seq<WidgetV>, depth: nat) -> nat
    decreases ws,
{
    if ws.len() == 0 {
        0
    } else {
        level(ws.drop_last(), depth) + (if depth == 0 {
            1
        } else {
            level(ws.last().children, (depth - 1) as nat)
        })
    }
}

/// No widget of the forest has lost children.
pub open spec fn fresh(ws: Seq<WidgetV>) -> bool
    decreases ws,
{
    ws.len() > 0 ==> {
        &&& fresh(ws.drop_last())
        &&& ws.last().omitted_children == 0
        &&& fresh(ws.last().children)
    }
}

/// `x` is `w` with some of its last children cut away and counted, and so on below.
pub open spec fn trimmed(x: WidgetV, w: WidgetV) -> bool
    decreases w,
{
    &&& x == (WidgetV {
        children: x.children,
        omitted_children: x.omitted_children,
        ..w
    })
    &&& x.children.len() + x.omitted_children == w.children.len()
    &&& all_trimmed(x.children, w.children)
}

/// `xs` are the first of `ws`, each trimmed.
pub open spec fn all_trimmed(xs: Seq<WidgetV>, ws: Seq<WidgetV>) -> bool
    decreases ws,
{
    &&& xs.len() <= ws.len()
    &&& forall|i: int|
        #![trigger xs[i]]
        #![trigger ws[i]]
        0 <= i < xs.len() ==> 0 <= i < ws.len() && trimmed(xs[i], ws[i])
}

proof fn lemma_levels(ws: Seq<WidgetV>, depth: nat)
    ensures
        limit::count_down_to(ws, depth + 1) == limit::count_down_to(ws, depth) + level(
            ws,
            depth + 1,
        ),
        limit::count_down_to(ws, 0) == level(ws, 0) == ws.len(),
    decreases ws,
{
    if ws.len() > 0 {
        lemma_levels(ws.drop_last(), depth);
        let below = ws.last().children;
        if depth == 0 {
            lemma_levels(below, 0);
        } else {
            lemma_levels(below, (depth - 1) as nat);
        }
    }
}

/// Below the last level there is nothing.
proof fn lemma_below_the_last_level(ws: Seq<WidgetV>, depth: nat)
    requires
        depth + 1 >= limit::height_of(ws),
    ensures
        level(ws, depth + 1) == 0,
        limit::count_down_to(ws, depth) == limit::count_of(ws),
    decreases ws,
{
    if ws.len() > 0 {
        lemma_below_the_last_level(ws.drop_last(), depth);
        let below = ws.last().children;
        if depth == 0 {
            assert(limit::height_of(below) == 0);
            lemma_height_zero(below);
            assert(level(below, 0) == 0 && limit::count_of(below) == 0);
        } else {
            lemma_below_the_last_level(below, (depth - 1) as nat);
        }
    }
}

proof fn lemma_height_zero(ws: Seq<WidgetV>)
    ensures
        limit::height_of(ws) == 0 <==> ws.len() == 0,
{
}

proof fn lemma_more_levels_more_widgets(ws: Seq<WidgetV>, a: nat, b: nat)
    requires
        a <= b,
    ensures
        limit::count_down_to(ws, a) <= limit::count_down_to(ws, b),
    decreases b - a,
{
    if a < b {
        lemma_more_levels_more_widgets(ws, a, (b - 1) as nat);
        lemma_levels(ws, (b - 1) as nat);
    }
}

proof fn lemma_closed_count(ws: Seq<WidgetV>, depth: nat)
    ensures
        limit::count_of(limit::all_closed_off(ws)) == ws.len(),
        limit::count_down_to(limit::all_closed_off(ws), depth) == ws.len(),
    decreases ws.len(),
{
    if ws.len() > 0 {
        lemma_closed_count(ws.drop_last(), depth);
        let none = limit::all_closed_off(ws).last().children;
        assert(limit::count_of(none) == 0 && limit::count_down_to(none, (depth - 1) as nat) == 0);
        assert(limit::all_closed_off(ws).drop_last() =~= limit::all_closed_off(ws.drop_last()));
    }
}

/// Pruning keeps the levels down to `depth`, and spends of `extra` what the next level takes.
proof fn lemma_pruned_counts(ws: Seq<WidgetV>, depth: nat, extra: nat)
    ensures
        limit::pruned(ws, depth, extra).0.len() == ws.len(),
        limit::pruned(ws, depth, extra).1 == extra - limit::least(extra, level(ws, depth + 1)),
        limit::count_of(limit::pruned(ws, depth, extra).0) == limit::count_down_to(ws, depth)
            + limit::least(extra, level(ws, depth + 1)),
    decreases ws,
{
    if ws.len() > 0 {
        lemma_pruned_counts(ws.drop_last(), depth, extra);
        let (before, left) = limit::pruned(ws.drop_last(), depth, extra);
        let (last, rest) = limit::pruned_one(ws.last(), depth, left);
        assert(before.push(last).drop_last() =~= before);
        let below = ws.last().children;
        if depth > 0 {
            lemma_pruned_counts(below, (depth - 1) as nat, left);
        } else {
            lemma_levels(below, 0);
            lemma_closed_count(below.take(limit::least(below.len(), left) as int), 0);
        }
    }
}

/// The levels that pruning keeps, it keeps whole.
proof fn lemma_pruned_levels(ws: Seq<WidgetV>, depth: nat, extra: nat, d: nat)
    requires
        d <= depth,
    ensures
        limit::count_down_to(limit::pruned(ws, depth, extra).0, d) == limit::count_down_to(ws, d),
    decreases ws,
{
    if ws.len() > 0 {
        lemma_pruned_levels(ws.drop_last(), depth, extra, d);
        let (before, left) = limit::pruned(ws.drop_last(), depth, extra);
        let (last, rest) = limit::pruned_one(ws.last(), depth, left);
        assert(before.push(last).drop_last() =~= before);
        if d > 0 {
            lemma_pruned_levels(ws.last().children, (depth - 1) as nat, left, (d - 1) as nat);
        }
    }
}

proof fn lemma_full_depth(ws: Seq<WidgetV>, budget: nat, below: nat)
    ensures
        match limit::full_depth(ws, budget, below) {
            Some(depth) => {
                &&& depth < below
                &&& limit::count_down_to(ws, depth) <= budget
                &&& forall|d: nat| depth < d < below ==> #[trigger] limit::count_down_to(ws, d) > budget
            },
            None => forall|d: nat| d < below ==> #[trigger] limit::count_down_to(ws, d) > budget,
        },
    decreases below,
{
    if below > 0 {
        lemma_full_depth(ws, budget, (below - 1) as nat);
    }
}

/// A limit returns as many widgets as it allows, or all there are if they are fewer.
pub proof fn law_a_limit_is_used_up(ws: Seq<WidgetV>, budget: nat)
    ensures
        limit::count_of(limit::limited(ws, budget)) == limit::least(budget, limit::count_of(ws)),
{
    let height = limit::height_of(ws);
    lemma_full_depth(ws, budget, height);
    match limit::full_depth(ws, budget, height) {
        Some(depth) => {
            let extra = (budget - limit::count_down_to(ws, depth)) as nat;
            lemma_pruned_counts(ws, depth, extra);
            lemma_levels(ws, depth);
            if depth + 1 == height {
                lemma_below_the_last_level(ws, depth);
            } else {
                assert(limit::count_down_to(ws, depth + 1) > budget);
                limit::lemma_count_bounds(ws, depth + 1);
            }
        },
        None => {
            lemma_height_zero(ws);
            lemma_levels(ws, 0);
            if height > 0 {
                assert(limit::count_down_to(ws, 0) > budget);
            }
            limit::lemma_count_bounds(ws, 0);
            lemma_closed_count(ws.take(limit::least(ws.len(), budget) as int), 0);
        },
    }
}

/// Every level of the hierarchy that fits the limit, with all levels above it, is kept whole.
pub proof fn law_a_limit_keeps_whole_levels(ws: Seq<WidgetV>, budget: nat, depth: nat)
    requires
        limit::count_down_to(ws, depth) <= budget,
    ensures
        limit::count_down_to(limit::limited(ws, budget), depth) == limit::count_down_to(ws, depth),
{
    let height = limit::height_of(ws);
    let kept = limit::limited(ws, budget);
    lemma_full_depth(ws, budget, height);
    match limit::full_depth(ws, budget, height) {
        Some(full) => {
            let extra = (budget - limit::count_down_to(ws, full)) as nat;
            if depth <= full {
                lemma_pruned_levels(ws, full, extra, depth);
            } else {
                assert(depth >= height);
                lemma_below_the_last_level(ws, depth);
                lemma_pruned_levels(ws, full, extra, full);
                law_a_limit_is_used_up(ws, budget);
                limit::lemma_count_bounds(kept, depth);
                lemma_more_levels_more_widgets(kept, full, depth);
                if full + 1 < height {
                    lemma_more_levels_more_widgets(ws, full + 1, depth);
                }
                lemma_below_the_last_level(ws, full);
            }
        },
        None => {
            lemma_height_zero(ws);
            if height > 0 {
                lemma_more_levels_more_widgets(ws, 0, depth);
            }
            assert(kept =~= Seq::empty());
        },
    }
}

proof fn lemma_pruned_whole(ws: Seq<WidgetV>, depth: nat, extra: nat)
    requires
        fresh(ws),
        limit::height_of(ws) <= depth + 1,
    ensures
        limit::pruned(ws, depth, extra) == (ws, extra),
    decreases ws,
{
    if ws.len() > 0 {
        lemma_pruned_whole(ws.drop_last(), depth, extra);
        let w = ws.last();
        if depth > 0 {
            lemma_pruned_whole(w.children, (depth - 1) as nat, extra);
        } else {
            lemma_height_zero(w.children);
            assert(limit::all_closed_off(w.children.take(0)) =~= w.children);
        }
        assert(limit::pruned_one(w, depth, extra) == (w, extra));
        assert(ws.drop_last().push(w) =~= ws);
    } else {
        assert(limit::pruned(ws, depth, extra).0 =~= ws);
    }
}

/// A limit that everything fits leaves the forest alone.
pub proof fn law_a_roomy_limit_changes_nothing(ws: Seq<WidgetV>, budget: nat)
    requires
        fresh(ws),
        limit::count_of(ws) <= budget,
    ensures
        limit::limited(ws, budget) == ws,
{
    let height = limit::height_of(ws);
    lemma_height_zero(ws);
    if height > 0 {
        lemma_below_the_last_level(ws, (height - 1) as nat);
        let depth = (height - 1) as nat;
        lemma_pruned_whole(ws, depth, (budget - limit::count_down_to(ws, depth)) as nat);
    } else {
        assert(limit::limited(ws, budget) =~= ws);
    }
}

proof fn lemma_fresh_parts(ws: Seq<WidgetV>, i: int)
    requires
        fresh(ws),
        0 <= i < ws.len(),
    ensures
        ws[i].omitted_children == 0,
        fresh(ws[i].children),
    decreases ws.len(),
{
    if i < ws.len() - 1 {
        lemma_fresh_parts(ws.drop_last(), i);
        assert(ws.drop_last()[i] == ws[i]);
    }
}

proof fn lemma_closed_trimmed(ws: Seq<WidgetV>, kept: nat)
    requires
        kept <= ws.len(),
    ensures
        all_trimmed(limit::all_closed_off(ws.take(kept as int)), ws),
{
    let xs = limit::all_closed_off(ws.take(kept as int));
    assert forall|i: int| 0 <= i < xs.len() implies trimmed(xs[i], ws[i]) by {
        assert(xs[i] == limit::closed_off(ws[i]));
        assert(all_trimmed(xs[i].children, ws[i].children));
    }
}

proof fn lemma_same_trimmed(ws: Seq<WidgetV>)
    requires
        fresh(ws),
    ensures
        all_trimmed(ws, ws),
    decreases ws,
{
    assert forall|i: int| 0 <= i < ws.len() implies trimmed(ws[i], ws[i]) by {
        lemma_fresh_parts(ws, i);
        lemma_same_trimmed(ws[i].children);
    }
}

proof fn lemma_pruned_trimmed(ws: Seq<WidgetV>, depth: nat, extra: nat)
    requires
        fresh(ws),
    ensures
        all_trimmed(limit::pruned(ws, depth, extra).0, ws),
        limit::pruned(ws, depth, extra).0.len() == ws.len(),
    decreases ws,
{
    if ws.len() > 0 {
        let w = ws.last();
        lemma_pruned_trimmed(ws.drop_last(), depth, extra);
        let (before, left) = limit::pruned(ws.drop_last(), depth, extra);
        let (last, rest) = limit::pruned_one(w, depth, left);
        if depth > 0 {
            lemma_pruned_trimmed(w.children, (depth - 1) as nat, left);
        } else {
            lemma_closed_trimmed(w.children, limit::least(w.children.len(), left));
        }
        assert(trimmed(last, w));
        let xs = before.push(last);
        assert forall|i: int| 0 <= i < xs.len() implies trimmed(xs[i], ws[i]) by {
            if i < before.len() {
                assert(ws.drop_last()[i] == ws[i]);
                assert(xs[i] == before[i]);
            }
        }
    }
}

/// A limit only cuts children from the end, and every cut is recorded: each kept widget is
/// unchanged but for the children it lost, and says how many they are. Only where not even the
/// roots fit are roots lost, again from the end.
pub proof fn law_a_limit_says_what_it_dropped(ws: Seq<WidgetV>, budget: nat)
    requires
        fresh(ws),
    ensures
        all_trimmed(limit::limited(ws, budget), ws),
        ws.len() <= budget ==> limit::limited(ws, budget).len() == ws.len(),
        ws.len() > budget ==> limit::limited(ws, budget).len() == budget,
{
    let height = limit::height_of(ws);
    lemma_full_depth(ws, budget, height);
    lemma_levels(ws, 0);
    match limit::full_depth(ws, budget, height) {
        Some(depth) => {
            lemma_more_levels_more_widgets(ws, 0, depth);
            lemma_pruned_trimmed(ws, depth, (budget - limit::count_down_to(ws, depth)) as nat);
        },
        None => {
            lemma_height_zero(ws);
            lemma_closed_trimmed(ws, limit::least(ws.len(), budget));
            if height > 0 {
                assert(limit::count_down_to(ws, 0) > budget);
            }
        },
    }
}

/// The walk itself cuts nothing: no widget that it returns has lost children.
pub proof fn law_a_walk_omits_nothing(n: NodeV, f: FilterV)
    ensures
        fresh(walk::walked(n, f)),
{
    let ws = walk::walked(n, f);
    assert forall|w: WidgetV| #[trigger] matching::spread(ws).contains(w) implies w.omitted_children == 0 by {
        matching::law_every_widget_stands_for_a_match(n, f, w);
    }
    lemma_fresh_from_spread(ws);
}

proof fn lemma_fresh_from_spread(ws: Seq<WidgetV>)
    requires
        forall|w: WidgetV| #[trigger] matching::spread(ws).contains(w) ==> w.omitted_children == 0,
    ensures
        fresh(ws),
    decreases ws,
{
    if ws.len() > 0 {
        let all = matching::spread(ws);
        let before = matching::spread(ws.drop_last());
        let below = matching::spread(ws.last().children);
        assert forall|w: WidgetV| #[trigger] before.contains(w) implies w.omitted_children == 0 by {
            let i = choose|i: int| 0 <= i < before.len() && before[i] == w;
            assert(all[i] == w);
            assert(all.contains(w));
        }
        assert forall|w: WidgetV| #[trigger] below.contains(w) implies w.omitted_children == 0 by {
            let i = choose|i: int| 0 <= i < below.len() && below[i] == w;
            assert(all[before.len() + 1 + i] == w);
            assert(all.contains(w));
        }
        assert(all[before.len() as int] == ws.last());
        assert(all.contains(ws.last()));
        lemma_fresh_from_spread(ws.drop_last());
        lemma_fresh_from_spread(ws.last().children);
    }
}

/// The widgets that stand exactly `depth` levels below the roots, from left to right. Each is
/// told by the ids on the way to it: `above`, then those of its ancestors, then its own.
pub open spec fn paths_at(ws: Seq<WidgetV>, above: Seq<Id>, depth: nat) -> Seq<Seq<Id>>
    decreases ws,
{
    if ws.len() == 0 {
        Seq::empty()
    } else {
        let path = above.push(ws.last().id);
        paths_at(ws.drop_last(), above, depth) + (if depth == 0 {
            seq![path]
        } else {
            paths_at(ws.last().children, path, (depth - 1) as nat)
        })
    }
}

/// The widgets of the first `levels` levels, level by level from the top, each from left to
/// right.
pub open spec fn top_levels(ws: Seq<WidgetV>, levels: nat) -> Seq<Seq<Id>>
    decreases levels,
{
    if levels == 0 {
        Seq::empty()
    } else {
        top_levels(ws, (levels - 1) as nat) + paths_at(ws, Seq::empty(), (levels - 1) as nat)
    }
}

/// All widgets of the forest in level order.
pub open spec fn level_order(ws: Seq<WidgetV>) -> Seq<Seq<Id>> {
    top_levels(ws, limit::height_of(ws))
}

proof fn lemma_paths_len(ws: Seq<WidgetV>, above: Seq<Id>, depth: nat)
    ensures
        paths_at(ws, above, depth).len() == level(ws, depth),
    decreases ws,
{
    if ws.len() > 0 {
        lemma_paths_len(ws.drop_last(), above, depth);
        if depth > 0 {
            lemma_paths_len(
                ws.last().children,
                above.push(ws.last().id),
                (depth - 1) as nat,
            );
        }
    }
}

proof fn lemma_top_levels_len(ws: Seq<WidgetV>, depth: nat)
    ensures
        top_levels(ws, depth + 1).len() == limit::count_down_to(ws, depth),
    decreases depth,
{
    lemma_paths_len(ws, Seq::empty(), depth);
    if depth > 0 {
        lemma_top_levels_len(ws, (depth - 1) as nat);
        lemma_levels(ws, (depth - 1) as nat);
    } else {
        assert(top_levels(ws, 0) =~= Seq::empty());
        lemma_levels(ws, 0);
    }
}

/// More levels only add widgets at the end.
proof fn lemma_top_levels_prefix(ws: Seq<WidgetV>, a: nat, b: nat)
    requires
        a <= b,
    ensures
        top_levels(ws, a).len() <= top_levels(ws, b).len(),
        top_levels(ws, b).take(top_levels(ws, a).len() as int) == top_levels(ws, a),
    decreases b - a,
{
    let head = top_levels(ws, a);
    if a < b {
        lemma_top_levels_prefix(ws, a, (b - 1) as nat);
        let more = top_levels(ws, (b - 1) as nat);
        assert(top_levels(ws, b).take(head.len() as int) =~= more.take(head.len() as int));
    } else {
        assert(head.take(head.len() as int) =~= head);
    }
}

proof fn lemma_level_order_len(ws: Seq<WidgetV>)
    ensures
        level_order(ws).len() == limit::count_of(ws),
{
    let height = limit::height_of(ws);
    lemma_height_zero(ws);
    if height > 0 {
        lemma_top_levels_len(ws, (height - 1) as nat);
        lemma_below_the_last_level(ws, (height - 1) as nat);
    }
}

/// Levels that hold every widget are all there are.
proof fn lemma_enough_levels(ws: Seq<WidgetV>, levels: nat)
    requires
        top_levels(ws, levels).len() == limit::count_of(ws),
    ensures
        level_order(ws) == top_levels(ws, levels),
{
    let height = limit::height_of(ws);
    lemma_level_order_len(ws);
    if levels <= height {
        lemma_top_levels_prefix(ws, levels, height);
        assert(level_order(ws).take(level_order(ws).len() as int) =~= level_order(ws));
    } else {
        lemma_top_levels_prefix(ws, height, levels);
        let all = top_levels(ws, levels);
        assert(all.take(all.len() as int) =~= all);
    }
}

proof fn lemma_root_paths(ws: Seq<WidgetV>, above: Seq<Id>)
    ensures
        paths_at(ws, above, 0) == Seq::new(ws.len(), |i: int| above.push(ws[i].id)),
    decreases ws.len(),
{
    if ws.len() > 0 {
        lemma_root_paths(ws.drop_last(), above);
    }
    assert(paths_at(ws, above, 0) =~= Seq::new(ws.len(), |i: int| above.push(ws[i].id)));
}

/// The first widgets of a forest, cut off below, are the first of its roots.
proof fn lemma_closed_paths(ws: Seq<WidgetV>, above: Seq<Id>, kept: nat)
    requires
        kept <= ws.len(),
    ensures
        paths_at(limit::all_closed_off(ws.take(kept as int)), above, 0) == paths_at(
            ws,
            above,
            0,
        ).take(kept as int),
{
    let closed = limit::all_closed_off(ws.take(kept as int));
    lemma_root_paths(ws, above);
    lemma_root_paths(closed, above);
    assert(paths_at(closed, above, 0) =~= paths_at(ws, above, 0).take(kept as int));
}

/// Pruning keeps the levels down to `depth`, and a start of the next one.
proof fn lemma_pruned_paths(ws: Seq<WidgetV>, above: Seq<Id>, depth: nat, extra: nat, d: nat)
    requires
        d <= depth + 1,
    ensures
        paths_at(limit::pruned(ws, depth, extra).0, above, d) == if d <= depth {
            paths_at(ws, above, d)
        } else {
            paths_at(ws, above, d).take(limit::least(extra, level(ws, d)) as int)
        },
    decreases ws,
{
    lemma_paths_len(ws, above, d);
    let kept = limit::pruned(ws, depth, extra).0;
    let due = if d <= depth {
        paths_at(ws, above, d)
    } else {
        paths_at(ws, above, d).take(limit::least(extra, level(ws, d)) as int)
    };
    if ws.len() > 0 {
        let w = ws.last();
        let path = above.push(w.id);
        let (before, left) = limit::pruned(ws.drop_last(), depth, extra);
        let (last, rest) = limit::pruned_one(w, depth, left);
        lemma_pruned_paths(ws.drop_last(), above, depth, extra, d);
        lemma_pruned_counts(ws.drop_last(), depth, extra);
        lemma_paths_len(ws.drop_last(), above, d);
        assert(kept.drop_last() =~= before);
        assert(kept.last() == last);
        if d > 0 {
            let below = (d - 1) as nat;
            lemma_paths_len(w.children, path, below);
            if depth > 0 {
                lemma_pruned_paths(w.children, path, (depth - 1) as nat, left, below);
            } else {
                lemma_levels(w.children, 0);
                lemma_closed_paths(w.children, path, limit::least(w.children.len(), left));
            }
        }
        assert(paths_at(kept, above, d) =~= due);
    } else {
        assert(paths_at(kept, above, d) =~= due);
    }
}

proof fn lemma_pruned_top(ws: Seq<WidgetV>, depth: nat, extra: nat, levels: nat)
    requires
        levels <= depth + 1,
    ensures
        top_levels(limit::pruned(ws, depth, extra).0, levels) == top_levels(ws, levels),
    decreases levels,
{
    if levels > 0 {
        lemma_pruned_top(ws, depth, extra, (levels - 1) as nat);
        lemma_pruned_paths(ws, Seq::empty(), depth, extra, (levels - 1) as nat);
    }
}

/// Pruning keeps every level down to `depth` whole, spends `extra` on the level below it as far
/// as that goes, from left to right, and keeps nothing else: what is left of `extra` is what that
/// level had no use for.
pub proof fn law_pruning_spends_on_the_next_level(ws: Seq<WidgetV>, depth: nat, extra: nat)
    ensures
        ({
            let (kept, left) = limit::pruned(ws, depth, extra);
            let spent = limit::least(extra, level(ws, depth + 1));
            let next = paths_at(ws, Seq::empty(), depth + 1);
            &&& left == extra - spent
            &&& limit::count_of(kept) == limit::count_down_to(ws, depth) + spent
            &&& limit::count_down_to(kept, depth) == limit::count_down_to(ws, depth)
            &&& level_order(kept) == top_levels(ws, depth + 1) + next.take(spent as int)
        }),
{
    let kept = limit::pruned(ws, depth, extra).0;
    lemma_paths_len(ws, Seq::empty(), depth + 1);
    lemma_pruned_counts(ws, depth, extra);
    lemma_pruned_levels(ws, depth, extra, depth);
    lemma_pruned_top(ws, depth, extra, depth + 1);
    lemma_pruned_paths(ws, Seq::empty(), depth, extra, depth + 1);
    lemma_top_levels_len(ws, depth);
    lemma_enough_levels(kept, depth + 2);
}

/// A limit keeps a start of the forest in level order: the widgets that come first when it is
/// read level by level from the top, each level from left to right, as many as the limit allows.
/// Each is kept under the same ancestors.
pub proof fn law_a_limit_keeps_a_start_of_the_level_order(ws: Seq<WidgetV>, budget: nat)
    ensures
        level_order(limit::limited(ws, budget)) == level_order(ws).take(
            limit::least(budget, limit::count_of(ws)) as int,
        ),
{
    let height = limit::height_of(ws);
    let kept = limit::limited(ws, budget);
    let number = limit::least(budget, limit::count_of(ws)) as int;
    lemma_full_depth(ws, budget, height);
    lemma_level_order_len(ws);
    law_a_limit_is_used_up(ws, budget);
    match limit::full_depth(ws, budget, height) {
        Some(depth) => {
            let extra = (budget - limit::count_down_to(ws, depth)) as nat;
            let next = paths_at(ws, Seq::empty(), depth + 1);
            let some = next.take(limit::least(extra, level(ws, depth + 1)) as int);
            lemma_paths_len(ws, Seq::empty(), depth + 1);
            law_pruning_spends_on_the_next_level(ws, depth, extra);
            lemma_top_levels_len(ws, depth);
            // One level more than there are changes nothing.
            lemma_top_levels_len(ws, height);
            lemma_below_the_last_level(ws, height);
            lemma_enough_levels(ws, height + 1);
            lemma_top_levels_prefix(ws, depth + 2, height + 1);
            let two = top_levels(ws, depth + 2);
            assert(level_order(ws).take(two.len() as int) == two);
            assert(two == top_levels(ws, depth + 1) + next);
            assert(level_order(ws).take(number) =~= two.take(number));
            assert(two.take(number) =~= top_levels(ws, depth + 1) + some);
        },
        None => {
            let first = limit::least(ws.len(), budget);
            let roots = paths_at(ws, Seq::empty(), 0);
            lemma_closed_paths(ws, Seq::empty(), first);
            lemma_root_paths(ws, Seq::empty());
            assert(top_levels(kept, 0) =~= Seq::empty());
            assert(top_levels(kept, 1) =~= roots.take(first as int));
            lemma_closed_count(ws.take(first as int), 0);
            lemma_enough_levels(kept, 1);
            lemma_height_zero(ws);
            if height > 0 {
                lemma_levels(ws, 0);
                lemma_top_levels_prefix(ws, 1, height);
                assert(top_levels(ws, 0) =~= Seq::empty());
                assert(top_levels(ws, 1) =~= roots);
                assert(limit::count_down_to(ws, 0) > budget);
                assert(level_order(ws).take(number) =~= roots.take(first as int));
            } else {
                assert(level_order(ws).take(number) =~= roots.take(first as int));
            }
        },
    }
}

/// A forest is counted tree by tree, and its height is that of its highest tree.
pub proof fn law_a_forest_is_counted_tree_by_tree(
    a: Seq<WidgetV>,
    b: Seq<WidgetV>,
    w: WidgetV,
    depth: nat,
)
    ensures
        limit::count_of(a + b) == limit::count_of(a) + limit::count_of(b),
        limit::count_of(seq![w]) == 1 + limit::count_of(w.children),
        limit::height_of(a + b) == if limit::height_of(a) > limit::height_of(b) {
            limit::height_of(a)
        } else {
            limit::height_of(b)
        },
        limit::height_of(seq![w]) == 1 + limit::height_of(w.children),
        limit::count_down_to(a + b, depth) == limit::count_down_to(a, depth) + limit::count_down_to(
            b,
            depth,
        ),
        limit::count_down_to(seq![w], 0) == 1,
        limit::count_down_to(seq![w], depth + 1) == 1 + limit::count_down_to(w.children, depth),
        a.len() == 0 ==> limit::count_of(a) == 0 && limit::height_of(a) == 0
            && limit::count_down_to(a, depth) == 0,
    decreases b.len(),
{
    let one = seq![w];
    assert(one.drop_last() =~= Seq::empty());
    assert(limit::count_of(one.drop_last()) == 0);
    assert(limit::height_of(one.drop_last()) == 0);
    assert(limit::count_down_to(one.drop_last(), 0) == 0);
    assert(limit::count_down_to(one.drop_last(), depth + 1) == 0);
    if b.len() > 0 {
        law_a_forest_is_counted_tree_by_tree(a, b.drop_last(), w, depth);
        assert((a + b).drop_last() =~= a + b.drop_last());
    } else {
        assert(a + b =~= a);
    }
}

/// The widgets of a level are told tree by tree, each by the ids on the way to it.
pub proof fn law_a_level_is_told_tree_by_tree(
    a: Seq<WidgetV>,
    b: Seq<WidgetV>,
    w: WidgetV,
    above: Seq<Id>,
    depth: nat,
)
    ensures
        paths_at(a + b, above, depth) == paths_at(a, above, depth) + paths_at(b, above, depth),
        paths_at(seq![w], above, 0) == seq![above.push(w.id)],
        paths_at(seq![w], above, depth + 1) == paths_at(w.children, above.push(w.id), depth),
        paths_at(a, above, depth).len() == level(a, depth),
    decreases b.len(),
{
    lemma_paths_len(a, above, depth);
    let one = seq![w];
    assert(one.drop_last() =~= Seq::empty());
    assert(paths_at(one.drop_last(), above, 0) =~= Seq::empty());
    assert(paths_at(one.drop_last(), above, depth + 1) =~= Seq::empty());
    assert(paths_at(one, above, 0) =~= seq![above.push(w.id)]);
    assert(paths_at(one, above, depth + 1) =~= paths_at(w.children, above.push(w.id), depth));
    if b.len() > 0 {
        law_a_level_is_told_tree_by_tree(a, b.drop_last(), w, above, depth);
        assert((a + b).drop_last() =~= a + b.drop_last());
        assert(paths_at(a + b, above, depth) =~= paths_at(a, above, depth) + paths_at(
            b,
            above,
            depth,
        ));
    } else {
        assert(a + b =~= a);
        assert(paths_at(a + b, above, depth) =~= paths_at(a, above, depth) + paths_at(
            b,
            above,
            depth,
        ));
    }
}

/// A limit changes nothing of a widget that it keeps but its children and their count: id, role,
/// text and state stay, the children kept are the first ones, and the others are counted.
pub proof fn law_a_kept_widget_stays_as_it_is(ws: Seq<WidgetV>, budget: nat, i: int)
    requires
        fresh(ws),
        0 <= i < limit::limited(ws, budget).len(),
    ensures
        ({
            let x = limit::limited(ws, budget)[i];
            let w = ws[i];
            &&& i < ws.len()
            &&& x.id == w.id
            &&& x.role == w.role
            &&& x.label == w.label
            &&& x.value == w.value
            &&& x.focused == w.focused
            &&& x.disabled == w.disabled
            &&& x.hidden == w.hidden
            &&& x.children.len() + x.omitted_children == w.children.len()
            &&& forall|k: int|
                0 <= k < x.children.len() ==> (#[trigger] x.children[k]).id == w.children[k].id
        }),
{
    law_a_limit_says_what_it_dropped(ws, budget);
    let x = limit::limited(ws, budget)[i];
    assert(trimmed(x, ws[i]));
    assert forall|k: int| 0 <= k < x.children.len() implies (#[trigger] x.children[k]).id
        == ws[i].children[k].id by {
        assert(trimmed(x.children[k], ws[i].children[k]));
    }
}

}
