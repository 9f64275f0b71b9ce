//! Cutting a forest of widgets down to a budget.
use vstd::prelude::*;

use crate::widget;
use crate::widget::{Widget, WidgetV};

verus! {

/// Depth of the deepest widget in the forest, counting a forest of leaves as 1.
pub open spec fn height_of(ws: Seq<WidgetV>) -> nat
    decreases ws,
{
    if ws.len() == 0 {
        0
    } else {
        let before = height_of(ws.drop_last());
        let last = 1 + height_of(ws.last().children);
        if before > last {
            before
        } else {
            last
        }
    }
}

/// How many widgets there are down to and including `depth` (`0` is the roots).
pub open spec fn count_down_to(ws: Seq<WidgetV>, depth: nat) -> nat
    decreases ws,
{
    if ws.len() == 0 {
        0
    } else {
        count_down_to(ws.drop_last(), depth) + 1 + (if depth == 0 {
            0
        } else {
            count_down_to(ws.last().children, (depth - 1) as nat)
        })
    }
}

/// Total number of widgets in a forest.
pub open spec fn count_of(ws: Seq<WidgetV>) -> nat
    decreases ws,
{
    if ws.len() == 0 {
        0
    } else {
        count_of(ws.drop_last()) + 1 + count_of(ws.last().children)
    }
}

/// The widget with everything below it cut away and counted.
pub open spec fn closed_off(w: WidgetV) -> WidgetV {
    WidgetV { children: Seq::empty(), omitted_children: w.children.len(), ..w }
}

pub open spec fn all_closed_off(ws: Seq<WidgetV>) -> Seq<WidgetV> {
    ws.map_values(|w: WidgetV| closed_off(w))
}

/// The widget with its first `kept` children, each of them cut off below.
pub open spec fn cut_below(w: WidgetV, kept: nat) -> WidgetV {
    WidgetV {
        children: all_closed_off(w.children.take(kept as int)),
        omitted_children: (w.children.len() - kept) as nat,
        ..w
    }
}

pub open spec fn least(a: nat, b: nat) -> nat {
    if a < b {
        a
    } else {
        b
    }
}

/// A widget kept whole down to `depth`, with up to `extra` widgets of the level below; and what
/// is left of `extra`.
pub open spec fn pruned_one(w: WidgetV, depth: nat, extra: nat) -> (WidgetV, nat)
    decreases w,
{
    if depth > 0 {
        let (children, left) = pruned(w.children, (depth - 1) as nat, extra);
        (WidgetV { children, ..w }, left)
    } else {
        let kept = least(w.children.len(), extra);
        (cut_below(w, kept), (extra - kept) as nat)
    }
}

/// A forest kept whole down to `depth`, with `extra` spent in order on the level below; and
/// what is left of `extra`.
pub open spec fn pruned(ws: Seq<WidgetV>, depth: nat, extra: nat) -> (Seq<WidgetV>, nat)
    decreases ws,
{
    if ws.len() == 0 {
        (Seq::empty(), extra)
    } else {
        let (before, left) = pruned(ws.drop_last(), depth, extra);
        let (last, rest) = pruned_one(ws.last(), depth, left);
        (before.push(last), rest)
    }
}

/// The last of the first `below` levels down to which everything fits.
pub open spec fn full_depth(ws: Seq<WidgetV>, budget: nat, below: nat) -> Option<nat>
    decreases below,
{
    if below == 0 {
        None
    } else if count_down_to(ws, (below - 1) as nat) <= budget {
        Some((below - 1) as nat)
    } else {
        full_depth(ws, budget, (below - 1) as nat)
    }
}

/// The forest cut down to `budget` widgets, from the bottom up.
///
/// Every level that fits whole is kept whole. What is left of the budget after the last full
/// level is spent on the level below it, in order. Where not even the roots fit, the first of
/// them are kept.
pub open spec fn limited(ws: Seq<WidgetV>, budget: nat) -> Seq<WidgetV> {
    match full_depth(ws, budget, height_of(ws)) {
        Some(depth) => pruned(ws, depth, (budget - count_down_to(ws, depth)) as nat).0,
        None => all_closed_off(ws.take(least(ws.len(), budget) as int)),
    }
}

/// Depth of the deepest widget in the forest, counting a forest of leaves as 1.
pub fn height(nodes: &Vec<Widget>) -> (r: usize)
    requires
        height_of(widget::forest(nodes@)) <= usize::MAX,
    ensures
        r == height_of(widget::forest(nodes@)),
    decreases nodes,
{
    let ghost ws = widget::forest(nodes@);
    let mut tallest: usize = 0;
    let mut i: usize = 0;
    while i < nodes.len()
        invariant
            i <= nodes@.len(),
            ws == widget::forest(nodes@),
            height_of(ws) <= usize::MAX,
            tallest == height_of(ws.take(i as int)),
        decreases nodes.len() - i,
    {
        proof {
            lemma_height_parts(ws, i as int);
            assert(ws.take(i + 1).drop_last() =~= ws.take(i as int));
            assert(ws[i as int] == nodes@[i as int]@);
        }
        let below: usize = height(&nodes[i].children);
        if tallest < 1 + below {
            tallest = 1 + below;
        }
        i += 1;
    }
    assert(ws.take(i as int) =~= ws);
    tallest
}

/// Each tree of a forest is at most as tall as the forest.
pub proof fn lemma_height_parts(ws: Seq<WidgetV>, i: int)
    requires
        0 <= i < ws.len(),
    ensures
        1 + height_of(ws[i].children) <= height_of(ws),
    decreases ws,
{
    if i < ws.len() - 1 {
        lemma_height_parts(ws.drop_last(), i);
        assert(ws.drop_last()[i] == ws[i]);
    }
}


/// Each tree of a forest has at most as many widgets as the forest.
pub proof fn lemma_count_parts(ws: Seq<WidgetV>, i: int)
    requires
        0 <= i < ws.len(),
    ensures
        count_of(ws.take(i)) + 1 + count_of(ws[i].children) == count_of(ws.take(i + 1)),
        count_of(ws.take(i + 1)) <= count_of(ws),
    decreases ws.len() - i,
{
    assert(ws.take(i + 1).drop_last() =~= ws.take(i));
    if i + 1 < ws.len() {
        lemma_count_parts(ws, i + 1);
    } else {
        assert(ws.take(i + 1) =~= ws);
    }
}

/// Neither the depth of a forest nor the number of widgets down to some depth exceeds the
/// number of its widgets.
pub proof fn lemma_count_bounds(ws: Seq<WidgetV>, depth: nat)
    ensures
        height_of(ws) <= count_of(ws),
        count_down_to(ws, depth) <= count_of(ws),
    decreases ws,
{
    if ws.len() > 0 {
        lemma_count_bounds(ws.drop_last(), depth);
        lemma_count_bounds(
            ws.last().children,
            if depth == 0 {
                0
            } else {
                (depth - 1) as nat
            },
        );
    }
}

/// Total number of widgets in a forest.
pub fn count(nodes: &Vec<Widget>) -> (r: usize)
    requires
        count_of(widget::forest(nodes@)) <= usize::MAX,
    ensures
        r == count_of(widget::forest(nodes@)),
    decreases nodes,
{
    let ghost ws = widget::forest(nodes@);
    let mut total: usize = 0;
    let mut i: usize = 0;
    while i < nodes.len()
        invariant
            i <= nodes@.len(),
            ws == widget::forest(nodes@),
            count_of(ws) <= usize::MAX,
            total == count_of(ws.take(i as int)),
        decreases nodes.len() - i,
    {
        proof {
            lemma_count_parts(ws, i as int);
            assert(ws[i as int] == nodes@[i as int]@);
        }
        total = total + 1 + count(&nodes[i].children);
        i += 1;
    }
    assert(ws.take(i as int) =~= ws);
    total
}

/// How many widgets there are down to and including `depth` (`0` is the roots).
pub fn count_within(nodes: &Vec<Widget>, depth: usize) -> (r: usize)
    requires
        count_of(widget::forest(nodes@)) <= usize::MAX,
    ensures
        r == count_down_to(widget::forest(nodes@), depth as nat),
    decreases nodes,
{
    let ghost ws = widget::forest(nodes@);
    let mut total: usize = 0;
    let mut i: usize = 0;
    while i < nodes.len()
        invariant
            i <= nodes@.len(),
            ws == widget::forest(nodes@),
            count_of(ws) <= usize::MAX,
            total == count_down_to(ws.take(i as int), depth as nat),
        decreases nodes.len() - i,
    {
        proof {
            lemma_count_parts(ws, i as int);
            assert(ws[i as int] == nodes@[i as int]@);
            assert(ws.take(i + 1).drop_last() =~= ws.take(i as int));
            lemma_count_bounds(ws.take(i + 1), depth as nat);
        }
        if depth == 0 {
            total = total + 1;
        } else {
            total = total + 1 + count_within(&nodes[i].children, depth - 1);
        }
        i += 1;
    }
    assert(ws.take(i as int) =~= ws);
    total
}

/// Cut away everything below each of the widgets, and count it.
fn close_off_all(nodes: &mut Vec<Widget>)
    ensures
        widget::forest(final(nodes)@) == all_closed_off(widget::forest(old(nodes)@)),
{
    let ghost ws = widget::forest(nodes@);
    let total: usize = nodes.len();
    let mut i: usize = 0;
    while i < total
        invariant
            i <= total,
            total == nodes@.len(),
            ws.len() == total,
            forall|k: int| 0 <= k < i ==> #[trigger] nodes@[k]@ == closed_off(ws[k]),
            forall|k: int| i <= k < total ==> #[trigger] nodes@[k]@ == ws[k],
        decreases total - i,
    {
        let ghost before = nodes@;
        let node = &mut nodes[i];
        let lost: usize = node.children.len();
        node.omitted_children = lost;
        node.children.clear();
        proof {
            assert(widget::forest(nodes@[i as int].children@) =~= Seq::empty());
            assert(before[i as int]@ == ws[i as int]);
            assert(nodes@[i as int]@ == closed_off(ws[i as int]));
        }
        i += 1;
    }
    assert forall|k: int| 0 <= k < total implies #[trigger] widget::forest(nodes@)[k]
        == all_closed_off(ws)[k] by {
        assert(nodes@[k]@ == closed_off(ws[k]));
    }
    assert(widget::forest(nodes@) =~= all_closed_off(ws));
}

/// Keep every widget down to `depth_left`, then spend `extra` on the level below it.
pub fn prune(nodes: &mut Vec<Widget>, depth_left: usize, extra: &mut usize)
    ensures
        widget::forest(final(nodes)@) == pruned(
            widget::forest(old(nodes)@),
            depth_left as nat,
            *old(extra) as nat,
        ).0,
        *final(extra) == pruned(
            widget::forest(old(nodes)@),
            depth_left as nat,
            *old(extra) as nat,
        ).1,
    decreases depth_left,
{
    let ghost ws = widget::forest(nodes@);
    let ghost given = *extra as nat;
    let total: usize = nodes.len();
    let mut i: usize = 0;
    while i < total
        invariant
            i <= total,
            total == nodes@.len(),
            ws.len() == total,
            widget::forest(nodes@.take(i as int)) == pruned(
                ws.take(i as int),
                depth_left as nat,
                given,
            ).0,
            *extra == pruned(ws.take(i as int), depth_left as nat, given).1,
            forall|k: int| i <= k < total ==> #[trigger] nodes@[k]@ == ws[k],
        decreases total - i,
    {
        let ghost before = nodes@;
        let ghost left = *extra as nat;
        proof {
            assert(ws.take(i + 1).drop_last() =~= ws.take(i as int));
            assert(before[i as int]@ == ws[i as int]);
        }
        let node = &mut nodes[i];
        if 0 < depth_left {
            prune(&mut node.children, depth_left - 1, extra);
        } else {
            let held: usize = node.children.len();
            let kept: usize = if held < *extra {
                held
            } else {
                *extra
            };
            *extra = *extra - kept;
            node.omitted_children = held - kept;
            node.children.truncate(kept);
            proof {
                assert(widget::forest(node.children@) =~= ws[i as int].children.take(kept as int));
            }
            close_off_all(&mut node.children);
        }
        i += 1;
        proof {
            let (one, rest) = pruned_one(ws[i - 1], depth_left as nat, left);
            assert(nodes@[i - 1]@ == one);
            assert(widget::forest(nodes@.take(i as int)) =~= widget::forest(before.take(i - 1)).push(
                one,
            ));
        }
    }
    assert(ws.take(i as int) =~= ws);
    assert(nodes@.take(i as int) =~= nodes@);
}

/// Cut the forest down to `budget` widgets, from the bottom up.
///
/// Every level that fits whole is kept whole, so an agent always gets the top of the app's
/// hierarchy and loses the leaves first. What is left of the budget after the last full level
/// is spent on the level below it, in order.
///
/// A widget whose children were cut records how many in `omitted_children`.
pub fn truncate(nodes: &mut Vec<Widget>, budget: usize)
    requires
        count_of(widget::forest(old(nodes)@)) <= usize::MAX,
    ensures
        widget::forest(final(nodes)@) == limited(widget::forest(old(nodes)@), budget as nat),
{
    let ghost ws = widget::forest(nodes@);
    proof {
        lemma_count_bounds(ws, 0);
    }
    let mut below: usize = height(nodes);
    while below > 0 && count_within(nodes, below - 1) > budget
        invariant
            ws == widget::forest(nodes@),
            count_of(ws) <= usize::MAX,
            full_depth(ws, budget as nat, below as nat) == full_depth(
                ws,
                budget as nat,
                height_of(ws),
            ),
        decreases below,
    {
        below -= 1;
    }
    if below == 0 {
        // Not even the roots fit. There is no parent to record the loss on, so this is the one
        // cut an agent can't see; the budget would have to be pathologically small.
        nodes.truncate(budget);
        assert(widget::forest(nodes@) =~= ws.take(least(ws.len(), budget as nat) as int));
        close_off_all(nodes);
        return;
    }
    let mut extra: usize = budget - count_within(nodes, below - 1);
    prune(nodes, below - 1, &mut extra);
}

}
