//! The rectangle test.

use crate::types::{Limits, Par};
use vstd::prelude::*;

verus! {

/// `point` lies in the closed rectangle `limits`.
pub open spec fn point_in_limits(point: Par, limits: Limits) -> bool {
    &&& limits.p1_min <= point.0 <= limits.p1_max
    &&& limits.p2_min <= point.1 <= limits.p2_max
}

/// Whether `point` lies in the closed rectangle `limits`.
pub fn is_point_in_limits(point: Par, limits: &Limits) -> (inside: bool)
    ensures
        inside == point_in_limits(point, *limits),
{
    if point.0 < limits.p1_min || point.0 > limits.p1_max {
        false
    } else if point.1 < limits.p2_min || point.1 > limits.p2_max {
        false
    } else {
        true
    }
}

/// Whether every point of `points` lies in the closed rectangle `limits`.
pub fn are_points_in_limits(points: &Vec<Par>, limits: &Limits) -> (inside: bool)
    ensures
        inside == (forall|i: int|
            0 <= i < points@.len() ==> point_in_limits(#[trigger] points@[i], *limits)),
{
    let mut i: usize = 0;
    while i < points.len()
        invariant
            i <= points@.len(),
            forall|k: int| 0 <= k < i ==> point_in_limits(#[trigger] points@[k], *limits),
        decreases points@.len() - i,
    {
        if !is_point_in_limits(points[i], limits) {
            return false;
        }
        i += 1;
    }
    true
}

} // verus!
