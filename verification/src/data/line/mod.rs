//! Certified rays from an origin.

pub mod configurations;

use crate::data::line::configurations::LineConfiguration;
use crate::data::region::configurations::Delta;
use crate::data::region::is_numerator_scan;
use crate::types::{
    are_directions_in_range, direction_in_range, get_point_on_ray, lemma_ray_stays_in_rectangle, lemma_scaled_shrinks,
    par_in_range, point_on_ray, scale, scaled, Direction, Limits, Par, System, MAX_DISTANCE,
    UNIT_FACTOR,
};
use crate::utils::geometry::{are_points_in_limits, is_point_in_limits, point_in_limits};
use crate::ConfigError;
use crate::utils::optimization::{
    find_minimum_fraction_slow, first_minimum_index, get_maximum_condition_from, is_coarse_scan,
    is_fine_scan, is_minimum, lemma_refused_at_min_step_gives_zero,
    lemma_search_outcome_transfers, linsearch_interval, probe, search_outcome, verdict_of,
    MinimizationProblemSlow,
};
use vstd::prelude::*;

verus! {

/// A ray from `origin` in the direction `angle`, certified up to `length`.
/// `segments` holds the distance reached after each jump, where it was asked for.
#[derive(Debug)]
pub struct Ray {
    pub origin: Par,
    pub angle: Direction,
    pub length: u64,
    pub segments: Option<Vec<u64>>,
}

/// The rays found from one origin, with the origin's winding number.
#[derive(Debug)]
pub struct RayFan {
    pub origin: Par,
    pub rays: Vec<Ray>,
    pub nu: i32,
}

/// Factor between the tolerance and the first step of a search along a ray.
pub const INITIAL_STEP_FACTOR: u64 = 1000;

/// Share of the distance to the domain's border that a ray may reach: 0.9999.
pub const BORDER_SAFEGUARD: u64 = 999_900_000;

/// First step of a search along a ray: a thousand tolerances, as far as the
/// range of distances goes.
pub open spec fn initial_step(delta: u64) -> u64 {
    if delta * INITIAL_STEP_FACTOR <= MAX_DISTANCE {
        (delta * INITIAL_STEP_FACTOR) as u64
    } else if delta <= MAX_DISTANCE {
        MAX_DISTANCE
    } else {
        delta
    }
}

fn get_initial_step(delta: u64) -> (step: u64)
    ensures
        step == initial_step(delta),
        step >= delta,
{
    if delta <= MAX_DISTANCE / INITIAL_STEP_FACTOR {
        delta * INITIAL_STEP_FACTOR
    } else if delta <= MAX_DISTANCE {
        MAX_DISTANCE
    } else {
        delta
    }
}

/// The system has the hook of the line search, every hook accepts every
/// argument and grids are never empty.
pub open spec fn line_hooks_ready<W, N, FN, LF, RP, RF, LG>(
    system: &System<FN, LF, RP, RF, LG>,
    lin_steps: usize,
) -> bool where
    FN: Fn(W, Par) -> N,
    LF: Fn(&N, W, Par, Direction, u64, u64) -> u64,
    LG: Fn(W, W, usize) -> Vec<W>,
 {
    &&& system.line_fraction is Some
    &&& forall|w: W, p: Par| call_requires(system.f_norm, (w, p))
    &&& forall|n: &N, w: W, p: Par, d: Direction, th_min: u64, th_max: u64|
        call_requires(system.line_fraction->0, (n, w, p, d, th_min, th_max))
    &&& forall|a: W, b: W| call_requires(system.linear_grid, (a, b, lin_steps))
    &&& forall|a: W, b: W, grid: Vec<W>|
        call_ensures(system.linear_grid, (a, b, lin_steps), grid) ==> grid@.len() > 0
}

/// `coarse` is the line ratio on the coarse grid for the jump from `th_min` to
/// `th_max`: each numerator sample divided by the bound at its frequency.
pub open spec fn is_line_coarse_scan<W, N, FN, LF, RP, RF, LG>(
    system: &System<FN, LF, RP, RF, LG>,
    log_space: Seq<W>,
    numerator: Seq<N>,
    origin: Par,
    direction: Direction,
    th_min: u64,
    th_max: u64,
    coarse: Seq<u64>,
) -> bool where LF: Fn(&N, W, Par, Direction, u64, u64) -> u64 {
    &&& coarse.len() == log_space.len()
    &&& numerator.len() == log_space.len()
    &&& forall|i: int|
        0 <= i < coarse.len() ==> call_ensures(
            system.line_fraction->0,
            (&numerator[i], log_space[i], origin, direction, th_min, th_max),
            #[trigger] coarse[i],
        )
}

/// `value` is the line ratio at the frequency `w` for the jump from `th_min`
/// to `th_max`: the modulus at `point` divided by the bound.
pub open spec fn is_line_fraction<W, N, FN, LF, RP, RF, LG>(
    system: &System<FN, LF, RP, RF, LG>,
    w: W,
    point: Par,
    origin: Par,
    direction: Direction,
    th_min: u64,
    th_max: u64,
    value: u64,
) -> bool where FN: Fn(W, Par) -> N, LF: Fn(&N, W, Par, Direction, u64, u64) -> u64 {
    exists|n: N|
        call_ensures(system.f_norm, (w, point), n) && #[trigger] call_ensures(
            system.line_fraction->0,
            (&n, w, origin, direction, th_min, th_max),
            value,
        )
}

/// `fine` is the line ratio on `grid` for the jump from `th_min` to `th_max`.
pub open spec fn is_line_fine_scan<W, N, FN, LF, RP, RF, LG>(
    system: &System<FN, LF, RP, RF, LG>,
    grid: Seq<W>,
    point: Par,
    origin: Par,
    direction: Direction,
    th_min: u64,
    th_max: u64,
    fine: Seq<u64>,
) -> bool where FN: Fn(W, Par) -> N, LF: Fn(&N, W, Par, Direction, u64, u64) -> u64 {
    &&& fine.len() == grid.len()
    &&& forall|j: int|
        0 <= j < fine.len() ==> is_line_fraction(
            system,
            grid[j],
            point,
            origin,
            direction,
            th_min,
            th_max,
            #[trigger] fine[j],
        )
}

/// `min` is a hybrid minimum of the line ratio for the jump of `delta_theta`
/// from the distance `theta0` along the ray.
pub open spec fn is_line_minimum<W, N, FN, LF, RP, RF, LG>(
    system: &System<FN, LF, RP, RF, LG>,
    lin_steps: usize,
    log_space: Seq<W>,
    origin: Par,
    direction: Direction,
    theta0: u64,
    delta_theta: u64,
    min: u64,
) -> bool where
    FN: Fn(W, Par) -> N,
    LF: Fn(&N, W, Par, Direction, u64, u64) -> u64,
    LG: Fn(W, W, usize) -> Vec<W>,
 {
    let point = point_on_ray(origin, direction, theta0);
    let point = (point.0 as i64, point.1 as i64);
    let th_max = (theta0 + delta_theta) as u64;
    exists|numerator: Seq<N>, coarse: Seq<u64>|
        {
            &&& is_numerator_scan(system, log_space, point, numerator)
            &&& #[trigger] is_line_coarse_scan(
                system,
                log_space,
                numerator,
                origin,
                direction,
                theta0,
                th_max,
                coarse,
            )
            &&& match linsearch_interval(first_minimum_index(coarse), log_space) {
                None => min == 0,
                Some(window) => exists|grid: Vec<W>, fine: Seq<u64>|
                    {
                        &&& call_ensures(system.linear_grid, (window.0, window.1, lin_steps), grid)
                        &&& #[trigger] is_line_fine_scan(
                            system,
                            grid@,
                            point,
                            origin,
                            direction,
                            theta0,
                            th_max,
                            fine,
                        )
                        &&& is_minimum(fine, min)
                    },
            }
        }
}

/// The answers that the jump test may give for a jump of `delta_theta` from
/// `theta0`: whether the jump is shorter than a hybrid minimum of the line ratio.
pub open spec fn line_verdict<W, N, FN, LF, RP, RF, LG>(
    system: &System<FN, LF, RP, RF, LG>,
    lin_steps: usize,
    log_space: Seq<W>,
    origin: Par,
    direction: Direction,
    theta0: u64,
) -> spec_fn(u64, bool) -> bool where
    FN: Fn(W, Par) -> N,
    LF: Fn(&N, W, Par, Direction, u64, u64) -> u64,
    LG: Fn(W, W, usize) -> Vec<W>,
 {
    |delta_theta: u64, valid: bool|
        exists|min: u64|
            #[trigger] is_line_minimum(
                system,
                lin_steps,
                log_space,
                origin,
                direction,
                theta0,
                delta_theta,
                min,
            ) && valid == (delta_theta < min)
}

/// Whether the jump of `delta_theta` from the distance `theta0` along the ray
/// is certified: the jump is shorter than the hybrid minimum of the line ratio.
pub fn check_jump_validity<W: Copy, N, FN, LF, RP, RF, LG>(
    system: &System<FN, LF, RP, RF, LG>,
    origin: Par,
    direction: Direction,
    theta0: u64,
    delta_theta: u64,
    w_steps_linear: usize,
    log_space: &[W],
) -> (jump_valid: bool) where
    FN: Fn(W, Par) -> N,
    LF: Fn(&N, W, Par, Direction, u64, u64) -> u64,
    LG: Fn(W, W, usize) -> Vec<W>,

    requires
        line_hooks_ready(system, w_steps_linear),
        log_space@.len() > 0,
        par_in_range(origin),
        direction_in_range(direction),
        theta0 <= MAX_DISTANCE,
        delta_theta <= MAX_DISTANCE,
    ensures
        line_verdict(system, w_steps_linear, log_space@, origin, direction, theta0)(
            delta_theta,
            jump_valid,
        ),
{
    let theta_min = theta0;
    let theta_max = theta0 + delta_theta;
    let point = get_point_on_ray(origin, direction, theta0);
    let min = match &system.line_fraction {
        Some(line_fraction) => {
            let mut precalculated_numerator: Vec<N> = Vec::new();
            let mut i: usize = 0;
            while i < log_space.len()
                invariant
                    i <= log_space@.len(),
                    precalculated_numerator@.len() == i,
                    forall|w: W, p: Par| call_requires(system.f_norm, (w, p)),
                    forall|j: int|
                        0 <= j < i ==> call_ensures(
                            system.f_norm,
                            (log_space@[j], point),
                            #[trigger] precalculated_numerator@[j],
                        ),
                decreases log_space@.len() - i,
            {
                let sample = (system.f_norm)(log_space[i], point);
                precalculated_numerator.push(sample);
                i += 1;
            }
            let fraction_of_numerator = |n: &N, w: W| -> (fraction: u64)
                ensures
                    call_ensures(
                        *line_fraction,
                        (n, w, origin, direction, theta_min, theta_max),
                        fraction,
                    ),
                { line_fraction(n, w, origin, direction, theta_min, theta_max) };
            let fraction = |w: W| -> (fraction: u64)
                ensures
                    is_line_fraction(
                        system,
                        w,
                        point,
                        origin,
                        direction,
                        theta_min,
                        theta_max,
                        fraction,
                    ),
                {
                    let n = (system.f_norm)(w, point);
                    line_fraction(&n, w, origin, direction, theta_min, theta_max)
                };
            let minimization_problem = MinimizationProblemSlow {
                log_space: log_space,
                lin_steps: w_steps_linear,
                precalculated_numerator: precalculated_numerator.as_slice(),
                linear_grid: &system.linear_grid,
                fraction_of_numerator: &fraction_of_numerator,
                fraction_function: &fraction,
            };
            let min = find_minimum_fraction_slow(&minimization_problem);
            proof {
                let coarse = choose|coarse: Seq<u64>|
                    {
                        &&& #[trigger] is_coarse_scan(
                            &fraction_of_numerator,
                            precalculated_numerator@,
                            log_space@,
                            coarse,
                        )
                        &&& match linsearch_interval(first_minimum_index(coarse), log_space@) {
                            None => min == 0,
                            Some(window) => exists|grid: Vec<W>, fine: Seq<u64>|
                                {
                                    &&& call_ensures(
                                        &system.linear_grid,
                                        (window.0, window.1, w_steps_linear),
                                        grid,
                                    )
                                    &&& #[trigger] is_fine_scan(&fraction, grid@, fine)
                                    &&& is_minimum(fine, min)
                                },
                        }
                    };
                assert(is_numerator_scan(system, log_space@, point, precalculated_numerator@));
                assert(is_line_coarse_scan(
                    system,
                    log_space@,
                    precalculated_numerator@,
                    origin,
                    direction,
                    theta_min,
                    theta_max,
                    coarse,
                ));
                match linsearch_interval(first_minimum_index(coarse), log_space@) {
                    None => {},
                    Some(window) => {
                        let (grid, fine) = choose|grid: Vec<W>, fine: Seq<u64>|
                            {
                                &&& call_ensures(
                                    &system.linear_grid,
                                    (window.0, window.1, w_steps_linear),
                                    grid,
                                )
                                &&& #[trigger] is_fine_scan(&fraction, grid@, fine)
                                &&& is_minimum(fine, min)
                            };
                        assert forall|j: int| 0 <= j < fine.len() implies is_line_fraction(
                            system,
                            grid@[j],
                            point,
                            origin,
                            direction,
                            theta_min,
                            theta_max,
                            #[trigger] fine[j],
                        ) by {
                            assert(call_ensures(&fraction, (grid@[j],), fine[j]));
                        }
                        assert(is_line_fine_scan(
                            system,
                            grid@,
                            point,
                            origin,
                            direction,
                            theta_min,
                            theta_max,
                            fine,
                        ));
                    },
                }
                assert(is_line_minimum(
                    system,
                    w_steps_linear,
                    log_space@,
                    origin,
                    direction,
                    theta0,
                    delta_theta,
                    min,
                ));
            }
            min
        },
        None => 0,
    };
    let jump_valid = delta_theta < min;
    jump_valid
}

/// Longest certified jump from the distance `theta0` along the ray, to within
/// `delta` and within `limit`.
pub fn find_max_delta_theta<W: Copy, N, FN, LF, RP, RF, LG>(
    system: &System<FN, LF, RP, RF, LG>,
    origin: Par,
    direction: Direction,
    theta0: u64,
    delta: u64,
    limit: u64,
    w_steps_linear: usize,
    log_space: &[W],
) -> (delta_theta: u64) where
    FN: Fn(W, Par) -> N,
    LF: Fn(&N, W, Par, Direction, u64, u64) -> u64,
    LG: Fn(W, W, usize) -> Vec<W>,

    requires
        line_hooks_ready(system, w_steps_linear),
        log_space@.len() > 0,
        par_in_range(origin),
        direction_in_range(direction),
        theta0 <= MAX_DISTANCE,
        limit <= MAX_DISTANCE,
        delta > 0,
    ensures
        search_outcome(
            line_verdict(system, w_steps_linear, log_space@, origin, direction, theta0),
            delta,
            initial_step(delta),
            limit,
            delta_theta,
        ),
{
    let min_step = delta;
    let condition = |delta_theta: u64| -> (valid: bool)
        requires
            delta_theta <= MAX_DISTANCE,
        ensures
            line_verdict(system, w_steps_linear, log_space@, origin, direction, theta0)(
                delta_theta,
                valid,
            ),
        {
            check_jump_validity(
                system,
                origin,
                direction,
                theta0,
                delta_theta,
                w_steps_linear,
                log_space,
            )
        };
    let delta_theta = get_maximum_condition_from(
        &condition,
        min_step,
        get_initial_step(delta),
        limit,
    );
    proof {
        lemma_search_outcome_transfers(
            verdict_of(&condition),
            line_verdict(system, w_steps_linear, log_space@, origin, direction, theta0),
            delta,
            initial_step(delta),
            limit,
            delta_theta,
        );
    }
    delta_theta
}

/// `to` is where a certified jump from `from` may lead: `from` plus the
/// safeguard's share of a jump that the search may return.
pub open spec fn is_jump<W, N, FN, LF, RP, RF, LG>(
    system: &System<FN, LF, RP, RF, LG>,
    lin_steps: usize,
    log_space: Seq<W>,
    origin: Par,
    direction: Direction,
    delta: u64,
    limit: u64,
    safeguard: u64,
    from: u64,
    to: u64,
) -> bool where
    FN: Fn(W, Par) -> N,
    LF: Fn(&N, W, Par, Direction, u64, u64) -> u64,
    LG: Fn(W, W, usize) -> Vec<W>,
 {
    exists|jump: u64|
        #[trigger] search_outcome(
            line_verdict(system, lin_steps, log_space, origin, direction, from),
            delta,
            initial_step(delta),
            limit,
            jump,
        ) && to == from + scaled(jump as int, safeguard as int)
}

/// Where the `k`-th jump of a trace starts.
pub open spec fn jump_start(theta0: u64, trace: Seq<u64>, k: int) -> u64 {
    if k == 0 {
        theta0
    } else {
        trace[k - 1]
    }
}

/// `trace` holds the distances reached by the successive jumps of a ray from
/// `theta0`: each jump is certified from where the one before ended, every
/// jump but the last is longer than `delta` and ends short of `limit`, and the
/// last one is no longer than `delta` or reaches `limit`.
pub open spec fn is_jump_trace<W, N, FN, LF, RP, RF, LG>(
    system: &System<FN, LF, RP, RF, LG>,
    lin_steps: usize,
    log_space: Seq<W>,
    origin: Par,
    direction: Direction,
    delta: u64,
    limit: u64,
    safeguard: u64,
    theta0: u64,
    trace: Seq<u64>,
) -> bool where
    FN: Fn(W, Par) -> N,
    LF: Fn(&N, W, Par, Direction, u64, u64) -> u64,
    LG: Fn(W, W, usize) -> Vec<W>,
 {
    &&& trace.len() >= 1
    &&& forall|k: int|
        0 <= k < trace.len() ==> is_jump(
            system,
            lin_steps,
            log_space,
            origin,
            direction,
            delta,
            limit,
            safeguard,
            jump_start(theta0, trace, k),
            #[trigger] trace[k],
        )
    &&& forall|k: int|
        0 <= k < trace.len() - 1 ==> (#[trigger] trace[k]) < limit && trace[k] - jump_start(
            theta0,
            trace,
            k,
        ) > delta
    &&& (trace.last() >= limit || trace.last() - jump_start(theta0, trace, trace.len() - 1)
        <= delta)
}

/// Where a ray with the jumps of `trace` ends: at the last distance reached,
/// and no further than `limit`.
pub open spec fn trace_end(trace: Seq<u64>, limit: u64) -> u64 {
    if trace.last() >= limit {
        limit
    } else {
        trace.last()
    }
}

/// Length of the ray from `origin`: certified jumps follow one another from
/// `theta0` until a jump is no longer than `delta` or the ray reaches `limit`.
/// With `verbose`, the distance reached after each jump is returned as well.
pub fn get_stability_segment_1_d<W: Copy, N, FN, LF, RP, RF, LG>(
    system: &System<FN, LF, RP, RF, LG>,
    origin: Par,
    direction: Direction,
    theta0: u64,
    delta: u64,
    limit: u64,
    conf: &LineConfiguration,
    log_space: &[W],
    verbose: bool,
) -> (segment: (u64, Option<Vec<u64>>)) where
    FN: Fn(W, Par) -> N,
    LF: Fn(&N, W, Par, Direction, u64, u64) -> u64,
    LG: Fn(W, W, usize) -> Vec<W>,

    requires
        line_hooks_ready(system, conf.w_steps_linear),
        log_space@.len() > 0,
        par_in_range(origin),
        direction_in_range(direction),
        theta0 <= MAX_DISTANCE,
        limit <= MAX_DISTANCE,
        delta > 0,
        0 < conf.safeguard <= UNIT_FACTOR,
    ensures
        exists|trace: Seq<u64>|
            {
                &&& #[trigger] is_jump_trace(
                    system,
                    conf.w_steps_linear,
                    log_space@,
                    origin,
                    direction,
                    delta,
                    limit,
                    conf.safeguard,
                    theta0,
                    trace,
                )
                &&& segment.0 == trace_end(trace, limit)
                &&& match segment.1 {
                    Some(segments) => verbose && segments@ == trace,
                    None => !verbose,
                }
            },
{
    let mut theta = theta0;
    let mut segments: Vec<u64> = Vec::new();
    let ghost mut trace: Seq<u64> = Seq::empty();

    loop
        invariant_except_break
            theta < limit || trace.len() == 0,
            theta == jump_start(theta0, trace, trace.len() as int),
            forall|k: int|
                0 <= k < trace.len() ==> (#[trigger] trace[k]) < limit && trace[k] - jump_start(
                    theta0,
                    trace,
                    k,
                ) > delta,
        invariant
            line_hooks_ready(system, conf.w_steps_linear),
            log_space@.len() > 0,
            par_in_range(origin),
            direction_in_range(direction),
            theta0 <= MAX_DISTANCE,
            limit <= MAX_DISTANCE,
            delta > 0,
            0 < conf.safeguard <= UNIT_FACTOR,
            theta <= MAX_DISTANCE,
            verbose ==> segments@ == trace,
            !verbose ==> segments@.len() == 0,
            forall|k: int|
                0 <= k < trace.len() ==> is_jump(
                    system,
                    conf.w_steps_linear,
                    log_space@,
                    origin,
                    direction,
                    delta,
                    limit,
                    conf.safeguard,
                    jump_start(theta0, trace, k),
                    #[trigger] trace[k],
                ),
        ensures
            is_jump_trace(
                system,
                conf.w_steps_linear,
                log_space@,
                origin,
                direction,
                delta,
                limit,
                conf.safeguard,
                theta0,
                trace,
            ),
            theta == trace_end(trace, limit),
        decreases limit - theta,
    {
        let ghost from = theta;
        let ghost before = trace;

        // the longest jump that is certified from here
        let jump = find_max_delta_theta(
            system,
            origin,
            direction,
            theta,
            delta,
            limit,
            conf.w_steps_linear,
            log_space,
        );

        // leave room for the error of the minimum scan
        let delta_theta = scale(jump, conf.safeguard);

        theta = theta + delta_theta;
        if verbose {
            segments.push(theta);
        }
        proof {
            trace = trace.push(theta);
            assert(is_jump(
                system,
                conf.w_steps_linear,
                log_space@,
                origin,
                direction,
                delta,
                limit,
                conf.safeguard,
                from,
                theta,
            ));
            assert forall|k: int| 0 <= k < trace.len() implies is_jump(
                system,
                conf.w_steps_linear,
                log_space@,
                origin,
                direction,
                delta,
                limit,
                conf.safeguard,
                jump_start(theta0, trace, k),
                #[trigger] trace[k],
            ) by {
                if k < before.len() {
                    assert(trace[k] == before[k]);
                    assert(jump_start(theta0, trace, k) == jump_start(theta0, before, k));
                }
            }
            assert forall|k: int| 0 <= k < trace.len() - 1 implies (#[trigger] trace[k]) < limit
                && trace[k] - jump_start(theta0, trace, k) > delta by {
                assert(trace[k] == before[k]);
                assert(jump_start(theta0, trace, k) == jump_start(theta0, before, k));
            }
        }

        if theta >= limit {
            theta = limit;
            break ;
        }
        if delta_theta <= delta {
            break ;
        }
    }

    let verbose_segments = if verbose {
        Some(segments)
    } else {
        None
    };
    (theta, verbose_segments)
}

/// A fraction of the domain as a distance along a ray: the fraction of each
/// side, divided by the absolute cosine of the ray's angle, and the lesser of
/// the two. With a cosine of zero there is no bound, which `MAX_DISTANCE`
/// stands for; no result exceeds it.
pub open spec fn relative_delta_along(limits: Limits, delta_rel: u64, direction: Direction) -> int {
    let cosine = if direction.0 >= 0 {
        direction.0 as int
    } else {
        -direction.0
    };
    if cosine == 0 {
        MAX_DISTANCE as int
    } else {
        let delta1 = (scaled(limits.p1_span(), delta_rel as int) * UNIT_FACTOR) / cosine;
        let delta2 = (scaled(limits.p2_span(), delta_rel as int) * UNIT_FACTOR) / cosine;
        let delta_abs = if delta1 <= delta2 {
            delta1
        } else {
            delta2
        };
        if delta_abs <= MAX_DISTANCE {
            delta_abs
        } else {
            MAX_DISTANCE as int
        }
    }
}

/// Turns a tolerance given as a fraction of the domain into a distance along
/// the ray of the given direction.
pub fn delta_rel2abs(limits: &Limits, delta_rel: u64, angle: Direction) -> (delta_abs: u64)
    requires
        limits.wf(),
        delta_rel <= UNIT_FACTOR,
    ensures
        delta_abs == relative_delta_along(*limits, delta_rel, angle),
        angle.0 == 0 ==> delta_abs == MAX_DISTANCE,
        delta_abs <= MAX_DISTANCE,
{
    let p1span: u64 = (limits.p1_max as i128 - limits.p1_min as i128) as u64;
    let p2span: u64 = (limits.p2_max as i128 - limits.p2_min as i128) as u64;
    let p1delta = scale(p1span, delta_rel);
    let p2delta = scale(p2span, delta_rel);
    if angle.0 == 0 {
        return MAX_DISTANCE;
    }
    let cosine: u128 = if angle.0 >= 0 {
        angle.0 as u128
    } else {
        (-(angle.0 as i128)) as u128
    };
    proof {
        assert(p1delta * UNIT_FACTOR <= 0xffff_ffff_ffff_ffff * UNIT_FACTOR) by (nonlinear_arith)
            requires
                0 <= p1delta <= 0xffff_ffff_ffff_ffff,
        ;
        assert(p2delta * UNIT_FACTOR <= 0xffff_ffff_ffff_ffff * UNIT_FACTOR) by (nonlinear_arith)
            requires
                0 <= p2delta <= 0xffff_ffff_ffff_ffff,
        ;
    }
    let delta1: u128 = (p1delta as u128 * UNIT_FACTOR as u128) / cosine;
    let delta2: u128 = (p2delta as u128 * UNIT_FACTOR as u128) / cosine;
    let delta_abs = if delta1 <= delta2 {
        delta1
    } else {
        delta2
    };

    if delta_abs <= MAX_DISTANCE as u128 {
        delta_abs as u64
    } else {
        MAX_DISTANCE
    }
}

/// The tolerance of a line search along the ray of the given direction.
pub open spec fn delta_along(conf: &LineConfiguration, direction: Direction) -> int {
    match conf.delta {
        Delta::Abs(abs) => abs as int,
        Delta::Rel(rel) => relative_delta_along(conf.limits, rel, direction),
    }
}

/// The answers of the border test: whether the point at the distance `theta`
/// along the ray lies in the domain.
pub open spec fn ray_in_limits(limits: Limits, origin: Par, direction: Direction) -> spec_fn(
    u64,
    bool,
) -> bool {
    |theta: u64, inside: bool|
        {
            let point = point_on_ray(origin, direction, theta);
            inside == point_in_limits((point.0 as i64, point.1 as i64), limits)
        }
}

/// `limit` is a distance that the ray may be given: 0.9999 of a distance that
/// the search for the border may return.
pub open spec fn is_max_theta(
    limits: Limits,
    origin: Par,
    direction: Direction,
    delta: u64,
    limit: u64,
) -> bool {
    exists|theta: u64|
        #[trigger] search_outcome(
            ray_in_limits(limits, origin, direction),
            delta,
            initial_step(delta),
            MAX_DISTANCE,
            theta,
        ) && limit == scaled(theta as int, BORDER_SAFEGUARD as int)
}

/// Largest distance along the ray that stays within the domain, to within
/// `delta`, shortened to 0.9999 of itself.
pub fn get_max_theta(limits: &Limits, origin: Par, angle: Direction, delta: u64) -> (limit: u64)
    requires
        par_in_range(origin),
        direction_in_range(angle),
        delta > 0,
    ensures
        is_max_theta(*limits, origin, angle, delta, limit),
        limit <= MAX_DISTANCE,
{
    let condition = |theta: u64| -> (inside: bool)
        requires
            theta <= MAX_DISTANCE,
        ensures
            ray_in_limits(*limits, origin, angle)(theta, inside),
        {
            let p = get_point_on_ray(origin, angle, theta);
            is_point_in_limits(p, limits)
        };
    let min_step = delta;
    let limit = MAX_DISTANCE;
    let theta = get_maximum_condition_from(&condition, min_step, get_initial_step(delta), limit);
    proof {
        lemma_search_outcome_transfers(
            verdict_of(&condition),
            ray_in_limits(*limits, origin, angle),
            delta,
            initial_step(delta),
            MAX_DISTANCE,
            theta,
        );
    }
    scale(theta, BORDER_SAFEGUARD)
}

/// `length` is a certified length of the ray from `origin`, and `segments`
/// its jumps where they were asked for: the jumps start at the origin, use
/// the tolerance along the ray and stay within a distance that the ray may
/// be given.
pub open spec fn is_stability_segment<W, N, FN, LF, RP, RF, LG>(
    system: &System<FN, LF, RP, RF, LG>,
    conf: &LineConfiguration,
    angle: Direction,
    origin: Par,
    log_space: Seq<W>,
    verbose: bool,
    length: u64,
    segments: Option<Vec<u64>>,
) -> bool where
    FN: Fn(W, Par) -> N,
    LF: Fn(&N, W, Par, Direction, u64, u64) -> u64,
    LG: Fn(W, W, usize) -> Vec<W>,
 {
    let delta = delta_along(conf, angle) as u64;
    exists|limit: u64, trace: Seq<u64>|
        {
            &&& is_max_theta(conf.limits, origin, angle, delta, limit)
            &&& #[trigger] is_jump_trace(
                system,
                conf.w_steps_linear,
                log_space,
                origin,
                angle,
                delta,
                limit,
                conf.safeguard,
                0,
                trace,
            )
            &&& length == trace_end(trace, limit)
            &&& match segments {
                Some(segments) => verbose && segments@ == trace,
                None => !verbose,
            }
        }
}

/// Certified length of the ray from `origin` in the direction `angle`.
pub fn get_stability_segment<W: Copy, N, FN, LF, RP, RF, LG>(
    system: &System<FN, LF, RP, RF, LG>,
    conf: &LineConfiguration,
    angle: Direction,
    origin: Par,
    log_space: &[W],
    verbose: bool,
) -> (segment: (u64, Option<Vec<u64>>)) where
    FN: Fn(W, Par) -> N,
    LF: Fn(&N, W, Par, Direction, u64, u64) -> u64,
    LG: Fn(W, W, usize) -> Vec<W>,

    requires
        line_hooks_ready(system, conf.w_steps_linear),
        log_space@.len() > 0,
        conf.wf(),
        point_in_limits(origin, conf.limits),
        direction_in_range(angle),
        delta_along(conf, angle) > 0,
    ensures
        is_stability_segment(
            system,
            conf,
            angle,
            origin,
            log_space@,
            verbose,
            segment.0,
            segment.1,
        ),
{
    let delta = match conf.delta {
        Delta::Abs(abs) => abs,
        Delta::Rel(rel) => delta_rel2abs(&conf.limits, rel, angle),
    };

    assert(delta == delta_along(conf, angle));

    let limit = get_max_theta(&conf.limits, origin, angle, delta);
    let theta0: u64 = 0;

    let segment = get_stability_segment_1_d(
        system,
        origin,
        angle,
        theta0,
        delta,
        limit,
        conf,
        log_space,
        verbose,
    );
    proof {
        lemma_stability_segment(
            system,
            conf,
            angle,
            origin,
            log_space@,
            verbose,
            delta,
            limit,
            segment.0,
            segment.1,
        );
    }
    segment
}

/// The fan of rays from `origin`, one ray for each direction, in the order of
/// the directions. `nu` is the winding number of `origin`.
pub fn get_rayfan<W: Copy, N, FN, LF, RP, RF, LG>(
    system: &System<FN, LF, RP, RF, LG>,
    conf: &LineConfiguration,
    origin: Par,
    nu: i32,
    angles: &[Direction],
    log_space: &[W],
    verbose: bool,
) -> (rayfan: RayFan) where
    FN: Fn(W, Par) -> N,
    LF: Fn(&N, W, Par, Direction, u64, u64) -> u64,
    LG: Fn(W, W, usize) -> Vec<W>,

    requires
        line_hooks_ready(system, conf.w_steps_linear),
        log_space@.len() > 0,
        conf.wf(),
        point_in_limits(origin, conf.limits),
        angles@.len() == conf.ray_count,
        forall|i: int|
            0 <= i < angles@.len() ==> direction_in_range(#[trigger] angles@[i]) && delta_along(
                conf,
                angles@[i],
            ) > 0,
    ensures
        rayfan.origin == origin,
        rayfan.nu == nu,
        rayfan.rays@.len() == angles@.len(),
        forall|i: int|
            0 <= i < angles@.len() ==> {
                let ray = #[trigger] rayfan.rays@[i];
                &&& ray.origin == origin
                &&& ray.angle == angles@[i]
                &&& is_stability_segment(
                    system,
                    conf,
                    angles@[i],
                    origin,
                    log_space@,
                    verbose,
                    ray.length,
                    ray.segments,
                )
            },
{
    let mut rays: Vec<Ray> = Vec::new();
    let mut i: usize = 0;
    while i < angles.len()
        invariant
            i <= angles@.len(),
            rays@.len() == i,
            line_hooks_ready(system, conf.w_steps_linear),
            log_space@.len() > 0,
            conf.wf(),
            point_in_limits(origin, conf.limits),
            forall|i: int|
                0 <= i < angles@.len() ==> direction_in_range(#[trigger] angles@[i])
                    && delta_along(conf, angles@[i]) > 0,
            forall|k: int|
                0 <= k < i ==> {
                    let ray = #[trigger] rays@[k];
                    &&& ray.origin == origin
                    &&& ray.angle == angles@[k]
                    &&& is_stability_segment(
                        system,
                        conf,
                        angles@[k],
                        origin,
                        log_space@,
                        verbose,
                        ray.length,
                        ray.segments,
                    )
                },
        decreases angles@.len() - i,
    {
        let angle = angles[i];
        let (stability_segment, verbose_segments) = get_stability_segment(
            system,
            conf,
            angle,
            origin,
            log_space,
            verbose,
        );
        rays.push(
            Ray {
                origin: origin,
                angle: angle,
                length: stability_segment,
                segments: verbose_segments,
            },
        );
        i += 1;
    }

    RayFan { nu, rays, origin }
}

proof fn lemma_stability_segment<W, N, FN, LF, RP, RF, LG>(
    system: &System<FN, LF, RP, RF, LG>,
    conf: &LineConfiguration,
    angle: Direction,
    origin: Par,
    log_space: Seq<W>,
    verbose: bool,
    delta: u64,
    limit: u64,
    length: u64,
    segments: Option<Vec<u64>>,
) where
    FN: Fn(W, Par) -> N,
    LF: Fn(&N, W, Par, Direction, u64, u64) -> u64,
    LG: Fn(W, W, usize) -> Vec<W>,

    requires
        delta == delta_along(conf, angle),
        is_max_theta(conf.limits, origin, angle, delta, limit),
        exists|trace: Seq<u64>|
            {
                &&& #[trigger] is_jump_trace(
                    system,
                    conf.w_steps_linear,
                    log_space,
                    origin,
                    angle,
                    delta,
                    limit,
                    conf.safeguard,
                    0,
                    trace,
                )
                &&& length == trace_end(trace, limit)
                &&& match segments {
                    Some(segments) => verbose && segments@ == trace,
                    None => !verbose,
                }
            },
    ensures
        is_stability_segment(system, conf, angle, origin, log_space, verbose, length, segments),
{
    let trace = choose|trace: Seq<u64>|
        {
            &&& #[trigger] is_jump_trace(
                system,
                conf.w_steps_linear,
                log_space,
                origin,
                angle,
                delta,
                limit,
                conf.safeguard,
                0,
                trace,
            )
            &&& length == trace_end(trace, limit)
            &&& match segments {
                Some(segments) => verbose && segments@ == trace,
                None => !verbose,
            }
        };
    assert(is_jump_trace(
        system,
        conf.w_steps_linear,
        log_space,
        origin,
        angle,
        delta_along(conf, angle) as u64,
        limit,
        conf.safeguard,
        0,
        trace,
    ));
}

/// Every certified ray from an origin in the domain ends in the domain.
pub proof fn lemma_ray_ends_in_limits<W, N, FN, LF, RP, RF, LG>(
    system: &System<FN, LF, RP, RF, LG>,
    conf: &LineConfiguration,
    angle: Direction,
    origin: Par,
    log_space: Seq<W>,
    verbose: bool,
    length: u64,
    segments: Option<Vec<u64>>,
) where
    FN: Fn(W, Par) -> N,
    LF: Fn(&N, W, Par, Direction, u64, u64) -> u64,
    LG: Fn(W, W, usize) -> Vec<W>,

    requires
        conf.limits.wf(),
        point_in_limits(origin, conf.limits),
        direction_in_range(angle),
        is_stability_segment(system, conf, angle, origin, log_space, verbose, length, segments),
    ensures
        conf.limits.p1_min <= point_on_ray(origin, angle, length).0 <= conf.limits.p1_max,
        conf.limits.p2_min <= point_on_ray(origin, angle, length).1 <= conf.limits.p2_max,
{
    let delta = delta_along(conf, angle) as u64;
    let (limit, trace) = choose|limit: u64, trace: Seq<u64>|
        {
            &&& is_max_theta(conf.limits, origin, angle, delta, limit)
            &&& #[trigger] is_jump_trace(
                system,
                conf.w_steps_linear,
                log_space,
                origin,
                angle,
                delta,
                limit,
                conf.safeguard,
                0,
                trace,
            )
            &&& length == trace_end(trace, limit)
        };
    lemma_within_max_theta_in_limits(conf.limits, origin, angle, delta, limit, length);
}

/// Within a distance that the ray may be given, the ray from an origin in the
/// domain stays in the domain.
pub proof fn lemma_within_max_theta_in_limits(
    limits: Limits,
    origin: Par,
    angle: Direction,
    delta: u64,
    limit: u64,
    length: u64,
)
    requires
        limits.wf(),
        point_in_limits(origin, limits),
        direction_in_range(angle),
        is_max_theta(limits, origin, angle, delta, limit),
        length <= limit,
    ensures
        limits.p1_min <= point_on_ray(origin, angle, length).0 <= limits.p1_max,
        limits.p2_min <= point_on_ray(origin, angle, length).1 <= limits.p2_max,
{
    let theta = choose|theta: u64|
        #[trigger] search_outcome(
            ray_in_limits(limits, origin, angle),
            delta,
            initial_step(delta),
            MAX_DISTANCE,
            theta,
        ) && limit == scaled(theta as int, BORDER_SAFEGUARD as int);
    lemma_scaled_shrinks(theta as int, BORDER_SAFEGUARD as int);
    if theta == 0 {
        lemma_scaled_shrinks(0, if angle.0 >= 0 { angle.0 as int } else { -angle.0 });
        lemma_scaled_shrinks(0, if angle.1 >= 0 { angle.1 as int } else { -angle.1 });
    } else {
        lemma_scaled_shrinks(theta as int, if angle.0 >= 0 { angle.0 as int } else { -angle.0 });
        lemma_scaled_shrinks(theta as int, if angle.1 >= 0 { angle.1 as int } else { -angle.1 });
        assert(ray_in_limits(limits, origin, angle)(theta, true));
        lemma_ray_stays_in_rectangle(limits, origin, angle, length, theta);
    }
}

/// Where the jump test from the origin is a monotone predicate that already
/// fails at one tolerance (or at the ray's limit, where that is nearer), the
/// ray has length zero.
pub proof fn lemma_refused_ray_has_zero_length<W, N, FN, LF, RP, RF, LG>(
    system: &System<FN, LF, RP, RF, LG>,
    lin_steps: usize,
    log_space: Seq<W>,
    origin: Par,
    direction: Direction,
    delta: u64,
    limit: u64,
    safeguard: u64,
    trace: Seq<u64>,
    p: spec_fn(int) -> bool,
) where
    FN: Fn(W, Par) -> N,
    LF: Fn(&N, W, Par, Direction, u64, u64) -> u64,
    LG: Fn(W, W, usize) -> Vec<W>,

    requires
        delta > 0,
        is_jump_trace(
            system,
            lin_steps,
            log_space,
            origin,
            direction,
            delta,
            limit,
            safeguard,
            0,
            trace,
        ),
        forall|v: u64, r: bool| #[trigger]
            line_verdict(system, lin_steps, log_space, origin, direction, 0)(v, r) ==> r == p(
                v as int,
            ),
        forall|a: int, b: int| 0 <= a <= b && #[trigger] p(b) ==> #[trigger] p(a),
        !p(probe(0, delta as int, limit) as int),
    ensures
        trace_end(trace, limit) == 0,
        trace.len() == 1,
{
    assert(is_jump(
        system,
        lin_steps,
        log_space,
        origin,
        direction,
        delta,
        limit,
        safeguard,
        jump_start(0, trace, 0),
        trace[0],
    ));
    let jump = choose|jump: u64|
        #[trigger] search_outcome(
            line_verdict(system, lin_steps, log_space, origin, direction, 0),
            delta,
            initial_step(delta),
            limit,
            jump,
        ) && trace[0] == 0 + scaled(jump as int, safeguard as int);
    lemma_refused_at_min_step_gives_zero(
        line_verdict(system, lin_steps, log_space, origin, direction, 0),
        p,
        delta,
        initial_step(delta),
        limit,
        jump,
    );
    assert(scaled(0, safeguard as int) == 0) by (nonlinear_arith);
    if trace.len() > 1 {
        assert(trace[0] - jump_start(0, trace, 0) > delta);
    }
}

/// Why a line search cannot start on this recipe, if anything: the first of
/// a missing hook, an invalid domain, an invalid tolerance, an invalid
/// safeguard, directions out of range or not as many as the recipe's ray
/// count, a tolerance of zero along one of the directions, an origin outside
/// the domain.
pub open spec fn line_configuration_error<FN, LF, RP, RF, LG>(
    system: &System<FN, LF, RP, RF, LG>,
    conf: &LineConfiguration,
    angles: Seq<Direction>,
) -> Option<ConfigError> {
    if system.line_fraction is None {
        Some(ConfigError::MissingHook)
    } else if !conf.limits.wf() {
        Some(ConfigError::InvalidLimits)
    } else if !conf.delta.wf() {
        Some(ConfigError::InvalidTolerance)
    } else if !(0 < conf.safeguard <= UNIT_FACTOR) {
        Some(ConfigError::InvalidSafeguard)
    } else if angles.len() != conf.ray_count || !(forall|i: int|
        0 <= i < angles.len() ==> direction_in_range(#[trigger] angles[i])) {
        Some(ConfigError::InvalidDirections)
    } else if !(forall|i: int| 0 <= i < angles.len() ==> delta_along(conf, #[trigger] angles[i]) > 0) {
        Some(ConfigError::InvalidTolerance)
    } else if !(forall|i: int|
        0 <= i < conf.origins@.len() ==> point_in_limits(
            #[trigger] conf.origins@[i],
            conf.limits,
        )) {
        Some(ConfigError::OriginOutsideLimits)
    } else {
        None
    }
}

/// Tells whether a line search can start on this recipe with these
/// directions, and why not.
pub fn check_line_configuration<FN, LF, RP, RF, LG>(
    system: &System<FN, LF, RP, RF, LG>,
    conf: &LineConfiguration,
    angles: &[Direction],
) -> (r: Result<(), ConfigError>)
    ensures
        r == match line_configuration_error(system, conf, angles@) {
            Some(error) => Err::<(), ConfigError>(error),
            None => Ok::<(), ConfigError>(()),
        },
        r is Ok ==> conf.wf(),
{
    if system.line_fraction.is_none() {
        return Err(ConfigError::MissingHook);
    }
    if !conf.limits.is_valid() {
        return Err(ConfigError::InvalidLimits);
    }
    let delta_valid = match conf.delta {
        Delta::Abs(abs) => abs <= MAX_DISTANCE,
        Delta::Rel(rel) => rel <= UNIT_FACTOR,
    };
    if !delta_valid {
        return Err(ConfigError::InvalidTolerance);
    }
    if conf.safeguard == 0 || conf.safeguard > UNIT_FACTOR {
        return Err(ConfigError::InvalidSafeguard);
    }
    if angles.len() != conf.ray_count || !are_directions_in_range(angles) {
        return Err(ConfigError::InvalidDirections);
    }
    let mut i: usize = 0;
    while i < angles.len()
        invariant
            i <= angles@.len(),
            system.line_fraction is Some,
            conf.limits.wf(),
            conf.delta.wf(),
            0 < conf.safeguard <= UNIT_FACTOR,
            angles@.len() == conf.ray_count,
            forall|k: int| 0 <= k < angles@.len() ==> direction_in_range(#[trigger] angles@[k]),
            forall|k: int| 0 <= k < i ==> delta_along(conf, #[trigger] angles@[k]) > 0,
        decreases angles@.len() - i,
    {
        let delta = match conf.delta {
            Delta::Abs(abs) => abs,
            Delta::Rel(rel) => delta_rel2abs(&conf.limits, rel, angles[i]),
        };
        if delta == 0 {
            assert(!(delta_along(conf, angles@[i as int]) > 0));
            return Err(ConfigError::InvalidTolerance);
        }
        i += 1;
    }
    if !are_points_in_limits(&conf.origins, &conf.limits) {
        return Err(ConfigError::OriginOutsideLimits);
    }
    assert forall|i: int| 0 <= i < conf.origins@.len() implies par_in_range(
        #[trigger] conf.origins@[i],
    ) by {
        assert(point_in_limits(conf.origins@[i], conf.limits));
    }
    Ok(())
}

} // verus!
