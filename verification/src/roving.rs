//! Roving focus over a row of controls, some of them disabled: the first or
//! last enabled control, and the nearest enabled control forwards or
//! backwards with wrap-around.

use vstd::prelude::*;

verus! {

/// Index `distance` steps from `start` in a ring of `len` controls.
pub open spec fn ring_step(start: int, distance: int, len: int, forward: bool) -> int {
    if forward {
        (start + distance) % len
    } else {
        (start - distance) % len
    }
}

/// Steps from `start` to `target` around a ring of `len`; a full turn when
/// they are the same control.
pub open spec fn ring_distance(start: int, target: int, len: int, forward: bool) -> int {
    let d = if forward {
        (target - start) % len
    } else {
        (start - target) % len
    };
    if d == 0 {
        len
    } else {
        d
    }
}

pub open spec fn any_enabled(enabled: Seq<bool>) -> bool {
    exists|i: int| 0 <= i < enabled.len() && enabled[i]
}

/// `target` is the first enabled control reached from `start` (excluded)
/// stepping in one direction with wrap-around.
pub open spec fn nearest_enabled(enabled: Seq<bool>, start: int, forward: bool, target: int) -> bool {
    &&& 0 <= target < enabled.len()
    &&& enabled[target]
    &&& forall|d: int|
        1 <= d < ring_distance(start, target, enabled.len() as int, forward) ==> !#[trigger] enabled[ring_step(
            start,
            d,
            enabled.len() as int,
            forward,
        )]
}

/// `target` is the first enabled control.
pub open spec fn first_enabled_at(enabled: Seq<bool>, target: int) -> bool {
    &&& 0 <= target < enabled.len()
    &&& enabled[target]
    &&& forall|i: int| 0 <= i < target ==> !#[trigger] enabled[i]
}

/// `target` is the last enabled control.
pub open spec fn last_enabled_at(enabled: Seq<bool>, target: int) -> bool {
    &&& 0 <= target < enabled.len()
    &&& enabled[target]
    &&& forall|i: int| target < i < enabled.len() ==> !#[trigger] enabled[i]
}

/// The first enabled control, if any.
pub fn first_enabled(enabled: &[bool]) -> (r: Option<usize>)
    ensures
        r is None <==> !any_enabled(enabled@),
        r matches Some(t) ==> first_enabled_at(enabled@, t as int),
{
    let mut index: usize = 0;
    while index < enabled.len()
        invariant
            0 <= index <= enabled.len(),
            forall|i: int| 0 <= i < index ==> !#[trigger] enabled@[i],
        decreases enabled.len() - index,
    {
        if enabled[index] {
            return Some(index);
        }
        index = index + 1;
    }
    None
}

/// The last enabled control, if any.
pub fn last_enabled(enabled: &[bool]) -> (r: Option<usize>)
    ensures
        r is None <==> !any_enabled(enabled@),
        r matches Some(t) ==> last_enabled_at(enabled@, t as int),
{
    let mut index: usize = enabled.len();
    while index > 0
        invariant
            0 <= index <= enabled.len(),
            forall|i: int| index <= i < enabled.len() ==> !#[trigger] enabled@[i],
        decreases index,
    {
        if enabled[index - 1] {
            return Some(index - 1);
        }
        index = index - 1;
    }
    None
}

/// The nearest enabled control from `start` in one direction, wrapping
/// around; `start` itself when it is the only enabled control.
pub fn nearest(enabled: &[bool], start: usize, forward: bool) -> (r: Option<usize>)
    requires
        start < enabled.len(),
    ensures
        r is None <==> !any_enabled(enabled@),
        r matches Some(t) ==> nearest_enabled(enabled@, start as int, forward, t as int),
{
    let len = enabled.len();
    let mut distance: usize = 1;
    loop
        invariant
            len == enabled.len(),
            start < len,
            1 <= distance <= len,
            forall|d: int| 1 <= d < distance ==> !#[trigger] enabled@[ring_step(start as int, d, len as int, forward)],
        decreases len - distance,
    {
        let index = if forward {
            if distance < len - start {
                start + distance
            } else {
                distance - (len - start)
            }
        } else {
            if distance <= start {
                start - distance
            } else {
                len - (distance - start)
            }
        };
        proof {
            assert(index == ring_step(start as int, distance as int, len as int, forward)) by (nonlinear_arith)
                requires
                    1 <= distance <= len,
                    start < len,
                    forward ==> index == if distance < len - start {
                        start + distance
                    } else {
                        distance - (len - start)
                    },
                    !forward ==> index == if distance <= start {
                        start - distance
                    } else {
                        len - (distance - start)
                    },
            ;
        }
        if enabled[index] {
            proof {
                assert(ring_distance(start as int, index as int, len as int, forward) == distance) by (nonlinear_arith)
                    requires
                        1 <= distance <= len,
                        start < len,
                        index == ring_step(start as int, distance as int, len as int, forward),
                ;
            }
            return Some(index);
        }
        if distance == len {
            proof {
                assert forall|i: int| 0 <= i < len implies !enabled@[i] by {
                    let d = ring_distance(start as int, i, len as int, forward);
                    assert(1 <= d <= len && ring_step(start as int, d, len as int, forward) == i) by (nonlinear_arith)
                        requires
                            0 <= i < len,
                            start < len,
                            d == ring_distance(start as int, i, len as int, forward),
                    ;
                }
            }
            return None;
        }
        distance = distance + 1;
    }
}


/// Stepping the ring distance from `start` towards `target` reaches it, and
/// that distance is between 1 and a full turn.
pub proof fn lemma_ring_distance_reaches(start: int, target: int, len: int, forward: bool)
    requires
        0 <= start < len,
        0 <= target < len,
    ensures
        1 <= ring_distance(start, target, len, forward) <= len,
        ring_step(start, ring_distance(start, target, len, forward), len, forward) == target,
{
    let d = ring_distance(start, target, len, forward);
    if forward {
        assert(1 <= d <= len && (start + d) % len == target) by (nonlinear_arith)
            requires
                0 <= start < len,
                0 <= target < len,
                d == (if (target - start) % len == 0 {
                    len
                } else {
                    (target - start) % len
                }),
        ;
    } else {
        assert(1 <= d <= len && (start - d) % len == target) by (nonlinear_arith)
            requires
                0 <= start < len,
                0 <= target < len,
                d == (if (start - target) % len == 0 {
                    len
                } else {
                    (start - target) % len
                }),
        ;
    }
}

/// There is only one nearest enabled control in a direction.
pub proof fn lemma_nearest_unique(enabled: Seq<bool>, start: int, forward: bool, a: int, b: int)
    requires
        0 <= start < enabled.len(),
        nearest_enabled(enabled, start, forward, a),
        nearest_enabled(enabled, start, forward, b),
    ensures
        a == b,
{
    let len = enabled.len() as int;
    lemma_ring_distance_reaches(start, a, len, forward);
    lemma_ring_distance_reaches(start, b, len, forward);
    let da = ring_distance(start, a, len, forward);
    let db = ring_distance(start, b, len, forward);
    if da < db {
        assert(!enabled[ring_step(start, da, len, forward)]);
    } else if db < da {
        assert(!enabled[ring_step(start, db, len, forward)]);
    }
}

/// Stepping back to the nearest enabled control and then forward again
/// returns to an enabled starting control.
pub proof fn lemma_nearest_back_and_forth(enabled: Seq<bool>, start: int, target: int)
    requires
        0 <= start < enabled.len(),
        enabled[start],
        nearest_enabled(enabled, start, false, target),
    ensures
        nearest_enabled(enabled, target, true, start),
{
    let len = enabled.len() as int;
    let d = ring_distance(start, target, len, false);
    assert(ring_distance(target, start, len, true) == d);
    assert forall|k: int| 1 <= k < d implies !#[trigger] enabled[ring_step(target, k, len, true)] by {
        assert(ring_step(target, k, len, true) == ring_step(start, d - k, len, false)) by (nonlinear_arith)
            requires
                0 <= start < len,
                0 <= target < len,
                1 <= k < d,
                d == (if (start - target) % len == 0 {
                    len
                } else {
                    (start - target) % len
                }),
        ;
        assert(!enabled[ring_step(start, d - k, len, false)]);
    }
}

} // verus!
