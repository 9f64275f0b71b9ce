//! Which widget the pointer is over.
use vstd::prelude::*;

use crate::id::Id;

verus! {

/// A widget whose bounds hold the pointer. Of two areas the smaller number is the smaller one;
/// an area that is no number is left out.
#[derive(Debug, Clone, Copy, PartialEq, Eq, Structural)]
pub struct Candidate {
    pub id: Id,
    pub area: Option<u64>,
}

/// `a` is known to be smaller than `b`.
pub open spec fn smaller(a: Candidate, b: Candidate) -> bool {
    a.area is Some && b.area is Some && a.area->0 < b.area->0
}

/// The widget that the pointer means: each candidate takes over from a larger one before it.
pub open spec fn meant(candidates: Seq<Candidate>) -> Option<Candidate>
    decreases candidates.len(),
{
    if candidates.len() == 0 {
        None
    } else {
        match meant(candidates.drop_last()) {
            Some(best) if !smaller(candidates.last(), best) => Some(best),
            _ => Some(candidates.last()),
        }
    }
}

/// The widget that the pointer means: the smallest one, the first of several as small.
pub fn under_pointer(candidates: &Vec<Candidate>) -> (r: Option<Id>)
    ensures
        r == match meant(candidates@) {
            Some(candidate) => Some(candidate.id),
            None => None::<Id>,
        },
{
    let ghost all = candidates@;
    let mut best: Option<Candidate> = None;
    let mut i: usize = 0;
    while i < candidates.len()
        invariant
            i <= candidates@.len(),
            all == candidates@,
            best == meant(all.take(i as int)),
        decreases candidates.len() - i,
    {
        assert(all.take(i + 1).drop_last() =~= all.take(i as int));
        let next = candidates[i];
        let kept = match best {
            None => false,
            Some(best) => match (next.area, best.area) {
                (Some(a), Some(b)) => a >= b,
                _ => true,
            },
        };
        if !kept {
            best = Some(next);
        }
        i += 1;
    }
    assert(all.take(i as int) =~= all);
    match best {
        Some(candidate) => Some(candidate.id),
        None => None,
    }
}

/// Among widgets whose areas are known, the pointer means one as soon as it is over any; none is
/// smaller, and none before it is as small.
pub proof fn law_the_smallest_widget_is_meant(candidates: Seq<Candidate>)
    requires
        forall|i: int| 0 <= i < candidates.len() ==> (#[trigger] candidates[i]).area is Some,
    ensures
        meant(candidates) is None <==> candidates.len() == 0,
        meant(candidates) matches Some(best) ==> exists|k: int|
            {
                &&& 0 <= k < candidates.len()
                &&& #[trigger] candidates[k] == best
                &&& forall|i: int|
                    0 <= i < candidates.len() ==> best.area->0 <= (
                    #[trigger] candidates[i]).area->0
                &&& forall|i: int|
                    0 <= i < k ==> best.area->0 < (#[trigger] candidates[i]).area->0
            },
    decreases candidates.len(),
{
    if candidates.len() > 0 {
        let rest = candidates.drop_last();
        let n = rest.len() as int;
        assert forall|i: int| 0 <= i < rest.len() implies (#[trigger] rest[i]).area is Some by {
            assert(rest[i] == candidates[i]);
        }
        law_the_smallest_widget_is_meant(rest);
        let last = candidates.last();
        assert(candidates[n] == last);
        match meant(rest) {
            None => {},
            Some(best) => {
                let k = choose|k: int|
                    {
                        &&& 0 <= k < rest.len()
                        &&& #[trigger] rest[k] == best
                        &&& forall|i: int|
                            0 <= i < rest.len() ==> best.area->0 <= (#[trigger] rest[i]).area->0
                        &&& forall|i: int|
                            0 <= i < k ==> best.area->0 < (#[trigger] rest[i]).area->0
                    };
                assert(candidates[k] == best);
                assert forall|i: int| 0 <= i < n implies best.area->0 <= (
                #[trigger] candidates[i]).area->0 by {
                    assert(rest[i] == candidates[i]);
                }
                assert forall|i: int| 0 <= i < k implies best.area->0 < (
                #[trigger] candidates[i]).area->0 by {
                    assert(rest[i] == candidates[i]);
                }
                if smaller(last, best) {
                    assert forall|i: int| 0 <= i < n implies last.area->0 < (
                    #[trigger] candidates[i]).area->0 by {
                        assert(rest[i] == candidates[i]);
                    }
                }
            },
        }
    }
}

/// A first candidate whose area is no number is meant, and one after it never is: nothing is
/// known to be smaller than the one, and the other is not known to be smaller than anything.
pub proof fn law_an_unknown_area_is_not_compared(candidates: Seq<Candidate>)
    requires
        candidates.len() > 0,
    ensures
        candidates[0].area is None ==> meant(candidates) == Some(candidates[0]),
        candidates[0].area is Some ==> (meant(candidates) matches Some(best) && best.area is Some),
    decreases candidates.len(),
{
    let rest = candidates.drop_last();
    if rest.len() > 0 {
        law_an_unknown_area_is_not_compared(rest);
        assert(rest[0] == candidates[0]);
    } else {
        assert(meant(rest) is None);
    }
}

/// Where the first area is known, candidates whose area is not make no difference.
pub proof fn law_unknown_areas_are_passed_over(candidates: Seq<Candidate>, i: int)
    requires
        0 < i < candidates.len(),
        candidates[0].area is Some,
        candidates[i].area is None,
    ensures
        meant(candidates) == meant(candidates.remove(i)),
    decreases candidates.len(),
{
    let rest = candidates.drop_last();
    let fewer = candidates.remove(i);
    if i == candidates.len() - 1 {
        assert(fewer =~= rest);
        law_an_unknown_area_is_not_compared(rest);
    } else {
        assert(rest[0] == candidates[0]);
        assert(rest[i] == candidates[i]);
        law_unknown_areas_are_passed_over(rest, i);
        assert(fewer.drop_last() =~= rest.remove(i));
        assert(fewer.last() == candidates.last());
    }
}

}
