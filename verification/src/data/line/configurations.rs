//! The recipe of a line search.

use crate::data::region::configurations::Delta;
use crate::types::{par_in_range, Limits, Par, UNIT_FACTOR};
use vstd::prelude::*;

verus! {

/// Recipe of a line search.
pub struct LineConfiguration {
    /// Name of the recipe.
    pub name: String,
    /// Search domain.
    pub limits: Limits,
    /// Seed points.
    pub origins: Vec<Par>,
    /// Number of rays of each fan.
    pub ray_count: usize,
    /// Termination tolerance.
    pub delta: Delta,
    /// Deflation of every accepted jump, in billionths, in `(0, 1]`.
    pub safeguard: u64,
    /// Number of points of the fine frequency scan.
    pub w_steps_linear: usize,
}

impl LineConfiguration {
    /// The domain is a rectangle, the tolerance is valid, the safeguard is a
    /// positive factor of at most one and the origins are in range.
    pub open spec fn wf(&self) -> bool {
        &&& self.limits.wf()
        &&& self.delta.wf()
        &&& 0 < self.safeguard <= UNIT_FACTOR
        &&& forall|i: int| 0 <= i < self.origins@.len() ==> par_in_range(#[trigger] self.origins@[i])
    }
}

} // verus!
