//! The recipe of a region search.

use crate::types::{par_in_range, Limits, Par, MAX_DISTANCE, UNIT_FACTOR};
use vstd::prelude::*;

verus! {

/// Termination tolerance: a distance, or a fraction of the search domain in billionths.
#[derive(Clone, Copy, Debug, PartialEq, Eq, Structural)]
pub enum Delta {
    Abs(u64),
    Rel(u64),
}

impl Delta {
    /// An absolute tolerance is within the distance range, a relative one at most one.
    pub open spec fn wf(&self) -> bool {
        match *self {
            Delta::Abs(abs) => abs <= MAX_DISTANCE,
            Delta::Rel(rel) => rel <= UNIT_FACTOR,
        }
    }
}

/// Recipe of a region search.
pub struct RegionConfiguration {
    /// Name of the recipe.
    pub name: String,
    /// Search domain.
    pub limits: Limits,
    /// Seed points.
    pub origins: Vec<Par>,
    /// Termination tolerance.
    pub delta: Delta,
    /// Deflation of every accepted radius, in billionths, in `(0, 1]`.
    pub safeguard: u64,
    /// Number of candidate points on the edge of each disk.
    pub spawn_count: usize,
    /// Whether disks are clipped to the search domain.
    pub enforce_limits: bool,
    /// Number of points of the fine frequency scan.
    pub lin_steps: usize,
    /// Depth at which the expansion stops, if any.
    pub max_iter: Option<u32>,
    /// Whether a point inside any disk is skipped, whatever the disk's depth.
    pub check_obsoletion: bool,
    /// Offset added to the winding number of every region.
    pub nu_modifier: i32,
}

impl RegionConfiguration {
    /// The domain is a rectangle, the tolerance is valid and the safeguard is a
    /// positive factor of at most one.
    pub open spec fn wf(&self) -> bool {
        &&& self.limits.wf()
        &&& self.delta.wf()
        &&& 0 < self.safeguard <= UNIT_FACTOR
        &&& forall|i: int| 0 <= i < self.origins@.len() ==> par_in_range(#[trigger] self.origins@[i])
    }
}

} // verus!
