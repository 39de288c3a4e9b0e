//! The theory of "nearest qualifying parameter": every hit query returns the
//! least element of a set of candidate parameters that falls in the
//! open-closed query window.  The one combining lemma below justifies both
//! the linear scan of a list and the pruned two-child descent of the
//! bounding volume hierarchy.

use vstd::prelude::*;

verus! {

/// `t` is a candidate from `ts` lying in the window `(tmin, tmax]`.
pub open spec fn qualifies(ts: Set<int>, tmin: int, tmax: int, t: int) -> bool {
    ts.contains(t) && tmin < t <= tmax
}

/// Some candidate lies in the window.
pub open spec fn has_hit(ts: Set<int>, tmin: int, tmax: int) -> bool {
    exists|t: int| #[trigger] qualifies(ts, tmin, tmax, t)
}

/// `t` is the least candidate in the window.
pub open spec fn is_nearest(ts: Set<int>, tmin: int, tmax: int, t: int) -> bool {
    &&& qualifies(ts, tmin, tmax, t)
    &&& forall|t2: int| #[trigger] qualifies(ts, tmin, tmax, t2) ==> t <= t2
}

/// What an optional result must say about a hit query over `ts`.
pub open spec fn answers(ts: Set<int>, tmin: int, tmax: int, o: Option<int>) -> bool {
    match o {
        Some(t) => is_nearest(ts, tmin, tmax, t),
        None => !has_hit(ts, tmin, tmax),
    }
}

/// The far end of the search window after an optional first answer: a found
/// hit shrinks the window to its own parameter.
pub open spec fn window_after(o: Option<int>, tmax: int) -> int {
    match o {
        Some(t) => t,
        None => tmax,
    }
}

/// The later answer wins; otherwise the earlier one stands.
pub open spec fn combined(o1: Option<int>, o2: Option<int>) -> Option<int> {
    match o2 {
        Some(t2) => Some(t2),
        None => o1,
    }
}

/// Least elements are unique.
pub proof fn lemma_nearest_unique(ts: Set<int>, tmin: int, tmax: int, t1: int, t2: int)
    requires
        is_nearest(ts, tmin, tmax, t1),
        is_nearest(ts, tmin, tmax, t2),
    ensures
        t1 == t2,
{
    assert(qualifies(ts, tmin, tmax, t1));
    assert(qualifies(ts, tmin, tmax, t2));
}

/// The scan step: query the first set over the whole window, then the second
/// set over the window cut down to the first answer, and let the second
/// answer win ties.  The combination answers for the union of the two sets.
pub proof fn lemma_scan_step(
    ts1: Set<int>,
    ts2: Set<int>,
    tmin: int,
    tmax: int,
    o1: Option<int>,
    o2: Option<int>,
)
    requires
        answers(ts1, tmin, tmax, o1),
        answers(ts2, tmin, window_after(o1, tmax), o2),
    ensures
        answers(ts1.union(ts2), tmin, tmax, combined(o1, o2)),
{
    let u = ts1.union(ts2);
    let w = window_after(o1, tmax);
    match o1 {
        Some(t1) => {
            assert(t1 <= tmax);
            match o2 {
                Some(t2) => {
                    assert(t2 <= t1);
                    assert(u.contains(t2));
                    assert(qualifies(u, tmin, tmax, t2));
                    assert forall|t: int| #[trigger] qualifies(u, tmin, tmax, t) implies t2
                        <= t by {
                        if ts1.contains(t) {
                            assert(qualifies(ts1, tmin, tmax, t));
                        } else {
                            assert(ts2.contains(t));
                            if t <= t1 {
                                assert(qualifies(ts2, tmin, w, t));
                            }
                        }
                    }
                },
                None => {
                    assert(u.contains(t1));
                    assert(qualifies(u, tmin, tmax, t1));
                    assert forall|t: int| #[trigger] qualifies(u, tmin, tmax, t) implies t1
                        <= t by {
                        if ts1.contains(t) {
                            assert(qualifies(ts1, tmin, tmax, t));
                        } else {
                            assert(ts2.contains(t));
                            if t <= t1 {
                                assert(qualifies(ts2, tmin, w, t));
                            }
                        }
                    }
                },
            }
        },
        None => {
            match o2 {
                Some(t2) => {
                    assert(u.contains(t2));
                    assert(qualifies(u, tmin, tmax, t2));
                    assert forall|t: int| #[trigger] qualifies(u, tmin, tmax, t) implies t2
                        <= t by {
                        if ts1.contains(t) {
                            assert(qualifies(ts1, tmin, tmax, t));
                        } else {
                            assert(qualifies(ts2, tmin, w, t));
                        }
                    }
                },
                None => {
                    if has_hit(u, tmin, tmax) {
                        let t = choose|t: int| #[trigger] qualifies(u, tmin, tmax, t);
                        if ts1.contains(t) {
                            assert(qualifies(ts1, tmin, tmax, t));
                        } else {
                            assert(qualifies(ts2, tmin, w, t));
                        }
                    }
                },
            }
        },
    }
}

/// An answer for a set is an answer for any equal set.
pub proof fn lemma_answers_congruent(
    ts1: Set<int>,
    ts2: Set<int>,
    tmin: int,
    tmax: int,
    o: Option<int>,
)
    requires
        answers(ts1, tmin, tmax, o),
        ts1 =~= ts2,
    ensures
        answers(ts2, tmin, tmax, o),
{
    match o {
        Some(t) => {
            assert forall|t2: int| #[trigger] qualifies(ts2, tmin, tmax, t2) implies t <= t2 by {
                assert(qualifies(ts1, tmin, tmax, t2));
            }
        },
        None => {
            if has_hit(ts2, tmin, tmax) {
                let t = choose|t: int| #[trigger] qualifies(ts2, tmin, tmax, t);
                assert(qualifies(ts1, tmin, tmax, t));
            }
        },
    }
}

} // verus!
