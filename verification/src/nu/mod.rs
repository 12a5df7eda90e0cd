//! Winding number of the characteristic function along the contour.
//!
//! Angles are counted in billionths of a turn, so that a half turn and a full
//! turn are exact and the unwrapped sum is an integer.

use crate::types::{Limits, Par};
use crate::{Args, ConfigError};
use vstd::prelude::*;

verus! {

/// A full turn.
pub const TURN: i64 = 1_000_000_000;

/// A half turn.
pub const HALF_TURN: i64 = 500_000_000;

/// The contour: `steps` frequencies from `w_min` up to `w_max` on each
/// branch of the imaginary axis, closed by a half circle of `steps` points.
#[derive(Clone, Copy, Debug, PartialEq, Eq, Structural)]
pub struct ContourConfiguration {
    pub w_min: u64,
    pub w_max: u64,
    pub steps: usize,
}

impl ContourConfiguration {
    /// `0 < w_min < w_max` and at least three steps.
    pub open spec fn wf(&self) -> bool {
        0 < self.w_min < self.w_max && self.steps >= 3
    }

    /// Whether the contour is well formed.
    pub fn is_valid(&self) -> (valid: bool)
        ensures
            valid == self.wf(),
    {
        0 < self.w_min && self.w_min < self.w_max && self.steps >= 3
    }
}

/// The winding number found at one parameter point.
#[derive(Clone, Copy, Debug)]
pub struct NuPointResult {
    pub p: Par,
    pub nu: i32,
}

/// `angle` is a principal argument: in `(-HALF_TURN, HALF_TURN]`.
pub open spec fn is_principal(angle: i64) -> bool {
    -HALF_TURN < angle <= HALF_TURN
}

/// The change of argument that the step `diff` between two principal
/// arguments stands for: the step itself when it is shorter than a half turn,
/// else the step taken the other way round.
pub open spec fn unwrapped(diff: int) -> int {
    if diff > 0 {
        if diff < HALF_TURN {
            diff
        } else {
            -(TURN - diff)
        }
    } else {
        if -diff < HALF_TURN {
            diff
        } else {
            TURN + diff
        }
    }
}

/// Total unwrapped change of argument along `angles`.
pub open spec fn winding_integral(angles: Seq<i64>) -> int
    decreases angles.len(),
{
    if angles.len() <= 1 {
        0
    } else {
        winding_integral(angles.drop_last()) + unwrapped(
            angles[angles.len() - 1] - angles[angles.len() - 2],
        )
    }
}

/// `value / TURN`, rounded to the nearest integer, halves away from zero.
pub open spec fn rounded_turns(value: int) -> int {
    if value >= 0 {
        (value + HALF_TURN) / (TURN as int)
    } else {
        -((-value + HALF_TURN) / (TURN as int))
    }
}

/// `value`, held to the range of `i32`.
pub open spec fn clamped(value: int) -> int {
    if value > i32::MAX {
        i32::MAX as int
    } else if value < i32::MIN {
        i32::MIN as int
    } else {
        value
    }
}

/// Number of zeros that the contour encloses: the contour is run through
/// clockwise, so it is the rounded number of turns of the unwrapped change of
/// argument, with the opposite sign.
pub open spec fn winding_number(angles: Seq<i64>) -> int {
    clamped(rounded_turns(-winding_integral(angles)))
}

proof fn lemma_unwrapped_bound(diff: int)
    requires
        -TURN < diff < TURN,
    ensures
        -HALF_TURN <= unwrapped(diff) <= HALF_TURN,
{
}

/// Winding number from the arguments of the characteristic function at the
/// points of the contour, in the order of the contour.
pub fn calculate_nu_single(angles: &[i64]) -> (nu: i32)
    requires
        angles@.len() >= 1,
        forall|i: int| 0 <= i < angles@.len() ==> is_principal(#[trigger] angles@[i]),
    ensures
        nu == winding_number(angles@),
{
    let mut integral: i128 = 0;
    let mut i: usize = 0;
    assert(angles@.take(1).drop_last().len() == 0);

    while i < angles.len() - 1
        invariant
            i <= angles@.len() - 1,
            angles@.len() >= 1,
            forall|i: int| 0 <= i < angles@.len() ==> is_principal(#[trigger] angles@[i]),
            integral == winding_integral(angles@.take(i + 1)),
            -(i * HALF_TURN) <= integral <= i * HALF_TURN,
        decreases angles@.len() - i,
    {
        let diff: i64 = angles[i + 1] - angles[i];
        proof {
            let head = angles@.take(i + 2);
            assert(head.drop_last() == angles@.take(i + 1));
            assert(head[head.len() - 1] == angles@[i + 1]);
            assert(head[head.len() - 2] == angles@[i as int]);
            lemma_unwrapped_bound(diff as int);
        }
        if diff > 0 {
            if diff < HALF_TURN {
                integral = integral + diff as i128;
            } else {
                integral = integral - (TURN - diff) as i128;
            }
        } else {
            if -diff < HALF_TURN {
                integral = integral + diff as i128;
            } else {
                integral = integral + (TURN + diff) as i128;
            }
        }
        i += 1;
    }
    assert(angles@.take(i + 1) == angles@);

    let turned: i128 = -integral;
    let windings: i128 = if turned >= 0 {
        (turned + HALF_TURN as i128) / (TURN as i128)
    } else {
        -((-turned + HALF_TURN as i128) / (TURN as i128))
    };

    if windings > i32::MAX as i128 {
        i32::MAX
    } else if windings < i32::MIN as i128 {
        i32::MIN
    } else {
        windings as i32
    }
}

/// Recipe of a count of zeros over a grid of the domain: `grid_step` points
/// along each side.
pub struct NuConfiguration {
    pub name: String,
    pub limits: Limits,
    pub grid_step: usize,
    pub contour_conf: ContourConfiguration,
}

impl NuConfiguration {
    /// The domain is a rectangle and the contour is well formed.
    pub open spec fn wf(&self) -> bool {
        self.limits.wf() && self.contour_conf.wf()
    }

    /// Whether the recipe is well formed.
    pub fn is_valid(&self) -> (valid: bool)
        ensures
            valid == self.wf(),
    {
        self.limits.is_valid() && self.contour_conf.is_valid()
    }
}

/// Picks the system whose zeros are to be counted: the one that the
/// arguments name.
pub fn run(args: &Args) -> (r: Result<String, ConfigError>)
    ensures
        match args.system {
            Some(system) => r matches Ok(name) && name@ == system@,
            None => r == Err::<String, ConfigError>(ConfigError::MissingSystem),
        },
{
    match &args.system {
        Some(system) => Ok(system.clone()),
        None => Err(ConfigError::MissingSystem),
    }
}

} // verus!
