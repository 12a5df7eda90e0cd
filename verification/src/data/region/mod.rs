//! Breadth-first flood fill of the parameter plane by certified disks.

pub mod configurations;

use crate::data::region::configurations::{Delta, RegionConfiguration};
use crate::types::{
    are_directions_in_range, direction_in_range, get_point_on_ray, par_in_range, point_on_ray, scale, scaled, Direction,
    Limits, Par, System, MAX_DISTANCE, UNIT_FACTOR,
};
use crate::utils::optimization::{
    find_minimum_fraction_fast, first_minimum_index, get_maximum_condition, is_minimum,
    lemma_maximum_condition_unique, lemma_refused_at_min_step_gives_zero,
    lemma_search_outcome_transfers, linsearch_interval,
    probe, search_outcome, verdict_of, MinimizationProblemFast,
};
use crate::utils::geometry::{are_points_in_limits, is_point_in_limits, point_in_limits};
use crate::ConfigError;
use std::collections::VecDeque;
use vstd::prelude::*;

verus! {

/// A certified disk: every point nearer to `origin` than 0.99 of `radius`
/// has the winding number of the region's origin.
#[derive(Clone, Copy, Debug, PartialEq, Eq)]
pub struct PRegion {
    pub origin: Par,
    pub radius: u64,
    pub depth: u32,
}

/// The disks found from one origin, with the origin's winding number.
#[derive(Debug)]
pub struct Region {
    pub pregions: Vec<PRegion>,
    pub nu: i32,
    pub origin: Par,
}

/// Distance between two coordinates.
pub open spec fn distance_1_d(a: i64, b: i64) -> int {
    if a >= b {
        a - b
    } else {
        b - a
    }
}

/// Squared distance between two points.
pub open spec fn squared_distance(a: Par, b: Par) -> int {
    distance_1_d(a.0, b.0) * distance_1_d(a.0, b.0) + distance_1_d(a.1, b.1) * distance_1_d(
        a.1,
        b.1,
    )
}

fn abs_difference(a: i64, b: i64) -> (d: u64)
    ensures
        d == distance_1_d(a, b),
{
    if a >= b {
        (a as i128 - b as i128) as u64
    } else {
        (b as i128 - a as i128) as u64
    }
}

impl PRegion {
    /// The centre is within the coordinate range and the radius within the distance range.
    pub open spec fn wf(&self) -> bool {
        &&& par_in_range(self.origin)
        &&& self.radius <= MAX_DISTANCE
    }

    /// `p` is nearer to the centre than 0.99 of the radius:
    /// `|p - origin|^2 < (0.99 * radius)^2`, in ten-thousandths.
    pub open spec fn contains(&self, p: Par) -> bool {
        10000 * squared_distance(self.origin, p) < 9801 * (self.radius * self.radius)
    }

    /// Whether `p` lies strictly inside the disk shrunk to 0.99 of its radius.
    pub fn is_point_inside(&self, p: Par) -> (inside: bool)
        requires
            self.radius <= MAX_DISTANCE,
        ensures
            inside == self.contains(p),
    {
        let x = abs_difference(self.origin.0, p.0);
        let y = abs_difference(self.origin.1, p.1);
        if x >= self.radius || y >= self.radius {
            proof {
                let r = self.radius as int;
                let far = if x >= self.radius {
                    x as int
                } else {
                    y as int
                };
                assert(far * far >= r * r) by (nonlinear_arith)
                    requires
                        far >= r >= 0,
                ;
                assert(x * x >= 0 && y * y >= 0) by (nonlinear_arith);
                assert(r * r >= 0) by (nonlinear_arith);
            }
            return false;
        }
        let r: u128 = self.radius as u128;
        proof {
            assert(x * x <= 0x0100_0000_0000_0000 * 0x0100_0000_0000_0000) by (nonlinear_arith)
                requires
                    0 <= x <= 0x0100_0000_0000_0000,
            ;
            assert(y * y <= 0x0100_0000_0000_0000 * 0x0100_0000_0000_0000) by (nonlinear_arith)
                requires
                    0 <= y <= 0x0100_0000_0000_0000,
            ;
            assert(r * r <= 0x0100_0000_0000_0000 * 0x0100_0000_0000_0000) by (nonlinear_arith)
                requires
                    0 <= r <= 0x0100_0000_0000_0000,
            ;
        }
        let squared: u128 = (x as u128) * (x as u128) + (y as u128) * (y as u128);
        10000 * squared < 9801 * (r * r)
    }
}

/// Distance from `p` to the nearest side of the rectangle.
pub open spec fn limiting_eps(p: Par, limits: Limits) -> int {
    let p1 = if distance_1_d(p.0, limits.p1_min) <= distance_1_d(p.0, limits.p1_max) {
        distance_1_d(p.0, limits.p1_min)
    } else {
        distance_1_d(p.0, limits.p1_max)
    };
    let p2 = if distance_1_d(p.1, limits.p2_min) <= distance_1_d(p.1, limits.p2_max) {
        distance_1_d(p.1, limits.p2_min)
    } else {
        distance_1_d(p.1, limits.p2_max)
    };
    if p1 <= p2 {
        p1
    } else {
        p2
    }
}

/// Largest radius around `p` that stays within the rectangle's nearest side.
pub fn get_limiting_eps(p: Par, limits: &Limits) -> (eps: u64)
    ensures
        eps == limiting_eps(p, *limits),
{
    let p1min_distance = abs_difference(p.0, limits.p1_min);
    let p1max_distance = abs_difference(p.0, limits.p1_max);
    let p2min_distance = abs_difference(p.1, limits.p2_min);
    let p2max_distance = abs_difference(p.1, limits.p2_max);
    let p1_limiting_eps = if p1min_distance <= p1max_distance {
        p1min_distance
    } else {
        p1max_distance
    };
    let p2_limiting_eps = if p2min_distance <= p2max_distance {
        p2min_distance
    } else {
        p2max_distance
    };

    if p1_limiting_eps <= p2_limiting_eps {
        p1_limiting_eps
    } else {
        p2_limiting_eps
    }
}

/// A fraction of the domain as a distance: the fraction of the shorter side.
pub open spec fn relative_delta(delta: u64, limits: Limits) -> int {
    if scaled(limits.p1_span(), delta as int) <= scaled(limits.p2_span(), delta as int) {
        scaled(limits.p1_span(), delta as int)
    } else {
        scaled(limits.p2_span(), delta as int)
    }
}

fn delta_rel2abs(delta: u64, limits: &Limits) -> (abs: u64)
    requires
        limits.wf(),
        delta <= UNIT_FACTOR,
    ensures
        abs == relative_delta(delta, *limits),
{
    let p1span = abs_difference(limits.p1_max, limits.p1_min);
    let p2span = abs_difference(limits.p2_max, limits.p2_min);
    let p1delta = scale(p1span, delta);
    let p2delta = scale(p2span, delta);

    if p1delta <= p2delta {
        p1delta
    } else {
        p2delta
    }
}

/// The tolerance as a distance.
pub open spec fn absolute_delta(delta: Delta, limits: Limits) -> int {
    match delta {
        Delta::Abs(abs) => abs as int,
        Delta::Rel(rel) => relative_delta(rel, limits),
    }
}

/// Turns the tolerance into a distance.
pub fn absolutize_delta(delta: &Delta, limits: &Limits) -> (abs: u64)
    requires
        limits.wf(),
        delta.wf(),
    ensures
        abs == absolute_delta(*delta, *limits),
{
    match delta {
        Delta::Abs(abs) => *abs,
        Delta::Rel(rel) => delta_rel2abs(*rel, limits),
    }
}

/// The system has both hooks of the region search, every hook accepts every
/// argument, the coarse ratio has between one sample and as many as
/// `log_space`, and grids and fine ratios are never empty.
pub open spec fn region_hooks_ready<W, N, FN, LF, RP, RF, LG>(
    system: &System<FN, LF, RP, RF, LG>,
    log_space: Seq<W>,
) -> bool where
    FN: Fn(W, Par) -> N,
    RP: Fn(&Vec<N>, &[W], Par, u64) -> Vec<u64>,
    RF: Fn(&Vec<W>, Par, u64) -> Vec<u64>,
    LG: Fn(W, W, usize) -> Vec<W>,
 {
    &&& system.region_fraction_precalculated_numerator is Some
    &&& system.region_fraction is Some
    &&& forall|w: W, p: Par| call_requires(system.f_norm, (w, p))
    &&& forall|numerator: &Vec<N>, w_logspace: &[W], p: Par, eps: u64|
        call_requires(
            system.region_fraction_precalculated_numerator->0,
            (numerator, w_logspace, p, eps),
        )
    &&& forall|numerator: &Vec<N>, w_logspace: &[W], p: Par, eps: u64, coarse: Vec<u64>|
        w_logspace@ == log_space && #[trigger] call_ensures(
            system.region_fraction_precalculated_numerator->0,
            (numerator, w_logspace, p, eps),
            coarse,
        ) ==> 0 < coarse@.len() <= log_space.len()
    &&& forall|w_linspace: &Vec<W>, p: Par, eps: u64|
        call_requires(system.region_fraction->0, (w_linspace, p, eps))
    &&& forall|w_linspace: &Vec<W>, p: Par, eps: u64, fine: Vec<u64>|
        #[trigger] call_ensures(system.region_fraction->0, (w_linspace, p, eps), fine)
            ==> fine@.len() > 0
    &&& forall|a: W, b: W, n: usize| call_requires(system.linear_grid, (a, b, n))
}

/// `min` is a hybrid minimum of the region ratio around `origin` for the radius
/// `eps`: the coarse ratio comes from the numerator samples, its first minimum
/// fixes the window, and `min` is `0` without a window, else the least value
/// of the fine ratio on the grid across the window.
pub open spec fn is_region_minimum<W, N, FN, LF, RP, RF, LG>(
    system: &System<FN, LF, RP, RF, LG>,
    lin_steps: usize,
    log_space: &[W],
    numerator: &Vec<N>,
    origin: Par,
    eps: u64,
    min: u64,
) -> bool where
    RP: Fn(&Vec<N>, &[W], Par, u64) -> Vec<u64>,
    RF: Fn(&Vec<W>, Par, u64) -> Vec<u64>,
    LG: Fn(W, W, usize) -> Vec<W>,
 {
    exists|coarse: Vec<u64>|
        {
            &&& #[trigger] call_ensures(
                system.region_fraction_precalculated_numerator->0,
                (numerator, log_space, origin, eps),
                coarse,
            )
            &&& match linsearch_interval(first_minimum_index(coarse@), log_space@) {
                None => min == 0,
                Some(window) => exists|grid: Vec<W>, fine: Vec<u64>|
                    {
                        &&& call_ensures(system.linear_grid, (window.0, window.1, lin_steps), grid)
                        &&& #[trigger] call_ensures(
                            system.region_fraction->0,
                            (&grid, origin, eps),
                            fine,
                        )
                        &&& is_minimum(fine@, min)
                    },
            }
        }
}

/// The answers that the jump test may give for the radius `eps` around
/// `origin`: whether `eps` is below a hybrid minimum of the region ratio.
pub open spec fn jump_verdict<W, N, FN, LF, RP, RF, LG>(
    system: &System<FN, LF, RP, RF, LG>,
    lin_steps: usize,
    log_space: &[W],
    numerator: &Vec<N>,
    origin: Par,
) -> spec_fn(u64, bool) -> bool where
    RP: Fn(&Vec<N>, &[W], Par, u64) -> Vec<u64>,
    RF: Fn(&Vec<W>, Par, u64) -> Vec<u64>,
    LG: Fn(W, W, usize) -> Vec<W>,
 {
    |eps: u64, valid: bool|
        exists|min: u64|
            #[trigger] is_region_minimum(system, lin_steps, log_space, numerator, origin, eps, min)
                && valid == (eps < min)
}

/// Whether a disk of radius `eps` around `origin` is certified: `eps` is below
/// the hybrid minimum of the region ratio.
pub fn check_jump_validity<W: Copy, N, FN, LF, RP, RF, LG>(
    system: &System<FN, LF, RP, RF, LG>,
    lin_steps: usize,
    origin: Par,
    eps: u64,
    precalculated_numerator: &Vec<N>,
    log_space: &[W],
) -> (valid: bool) where
    FN: Fn(W, Par) -> N,
    RP: Fn(&Vec<N>, &[W], Par, u64) -> Vec<u64>,
    RF: Fn(&Vec<W>, Par, u64) -> Vec<u64>,
    LG: Fn(W, W, usize) -> Vec<W>,

    requires
        region_hooks_ready(system, log_space@),
    ensures
        jump_verdict(system, lin_steps, log_space, precalculated_numerator, origin)(eps, valid),
{
    let min = match (&system.region_fraction_precalculated_numerator, &system.region_fraction) {
        (Some(precalculated), Some(region_fraction)) => {
            let coarse = precalculated(precalculated_numerator, log_space, origin, eps);
            let generator = |w_linspace: &Vec<W>| -> (fine: Vec<u64>)
                ensures
                    call_ensures(*region_fraction, (w_linspace, origin, eps), fine),
                { region_fraction(w_linspace, origin, eps) };
            let minimization_problem = MinimizationProblemFast {
                log_space: log_space,
                lin_steps: lin_steps,
                logspace_fraction: coarse,
                linear_grid: &system.linear_grid,
                linspace_fraction_generator: generator,
            };
            let min = find_minimum_fraction_fast(minimization_problem);
            assert(is_region_minimum(
                system,
                lin_steps,
                log_space,
                precalculated_numerator,
                origin,
                eps,
                min,
            ));
            min
        },
        _ => 0,
    };

    eps < min
}

/// `numerator` holds the modulus of the characteristic function at `origin`
/// for each frequency of `log_space`, as `f_norm` gave it.
pub open spec fn is_numerator_scan<W, N, FN, LF, RP, RF, LG>(
    system: &System<FN, LF, RP, RF, LG>,
    log_space: Seq<W>,
    origin: Par,
    numerator: Seq<N>,
) -> bool where FN: Fn(W, Par) -> N {
    &&& numerator.len() == log_space.len()
    &&& forall|i: int|
        0 <= i < numerator.len() ==> call_ensures(
            system.f_norm,
            (log_space[i], origin),
            #[trigger] numerator[i],
        )
}

/// Largest radius that a disk around `origin` may be given: the distance to
/// the nearest side of the domain where the domain is enforced, and never more
/// than `MAX_DISTANCE`.
pub open spec fn pregion_limit(origin: Par, limits: Limits, enforce_limits: bool) -> int {
    if enforce_limits && limiting_eps(origin, limits) <= MAX_DISTANCE {
        limiting_eps(origin, limits)
    } else {
        MAX_DISTANCE as int
    }
}

/// `pregion` is a disk that the search may certify around `origin`: its radius
/// is the safeguard's share of a radius that the adaptive search, run with the
/// jump test on the numerator samples of `origin`, may return.
pub open spec fn is_certified_pregion<W, N, FN, LF, RP, RF, LG>(
    system: &System<FN, LF, RP, RF, LG>,
    conf: &RegionConfiguration,
    origin: Par,
    enforce_limits: bool,
    delta_abs: u64,
    log_space: &[W],
    depth: u32,
    pregion: PRegion,
) -> bool where
    FN: Fn(W, Par) -> N,
    RP: Fn(&Vec<N>, &[W], Par, u64) -> Vec<u64>,
    RF: Fn(&Vec<W>, Par, u64) -> Vec<u64>,
    LG: Fn(W, W, usize) -> Vec<W>,
 {
    &&& pregion.origin == origin
    &&& pregion.depth == depth
    &&& exists|numerator: Vec<N>, radius: u64|
        {
            &&& is_numerator_scan(system, log_space@, origin, numerator@)
            &&& #[trigger] search_outcome(
                jump_verdict(system, conf.lin_steps, log_space, &numerator, origin),
                delta_abs,
                delta_abs,
                pregion_limit(origin, conf.limits, enforce_limits) as u64,
                radius,
            )
            &&& pregion.radius == scaled(radius as int, conf.safeguard as int)
        }
}

/// Certifies a disk around `origin`: samples the numerator on the coarse grid,
/// searches the largest radius that passes the jump test, to within
/// `delta_abs` and within the limit, and deflates it by the safeguard.
pub fn get_pregion<W: Copy, N, FN, LF, RP, RF, LG>(
    system: &System<FN, LF, RP, RF, LG>,
    conf: &RegionConfiguration,
    origin: Par,
    enforce_limits: bool,
    delta_abs: u64,
    log_space: &[W],
    depth: u32,
) -> (pregion: PRegion) where
    FN: Fn(W, Par) -> N,
    RP: Fn(&Vec<N>, &[W], Par, u64) -> Vec<u64>,
    RF: Fn(&Vec<W>, Par, u64) -> Vec<u64>,
    LG: Fn(W, W, usize) -> Vec<W>,

    requires
        region_hooks_ready(system, log_space@),
        0 < conf.safeguard <= UNIT_FACTOR,
        delta_abs > 0,
    ensures
        is_certified_pregion(
            system,
            conf,
            origin,
            enforce_limits,
            delta_abs,
            log_space,
            depth,
            pregion,
        ),
        pregion.radius <= MAX_DISTANCE,
{
    let mut precalculated_numerator: Vec<N> = Vec::new();
    let mut i: usize = 0;
    while i < log_space.len()
        invariant
            i <= log_space@.len(),
            precalculated_numerator@.len() == i,
            forall|w: W, p: Par| call_requires(system.f_norm, (w, p)),
            forall|j: int|
                0 <= j < i ==> call_ensures(
                    system.f_norm,
                    (log_space@[j], origin),
                    #[trigger] precalculated_numerator@[j],
                ),
        decreases log_space@.len() - i,
    {
        let sample = (system.f_norm)(log_space[i], origin);
        precalculated_numerator.push(sample);
        i += 1;
    }

    let lin_steps = conf.lin_steps;
    let numerator = &precalculated_numerator;
    let condition = |eps: u64| -> (valid: bool)
        ensures
            jump_verdict(system, lin_steps, log_space, numerator, origin)(eps, valid),
        { check_jump_validity(system, lin_steps, origin, eps, numerator, log_space) };

    let limit = if enforce_limits {
        let eps = get_limiting_eps(origin, &conf.limits);
        if eps <= MAX_DISTANCE {
            eps
        } else {
            MAX_DISTANCE
        }
    } else {
        MAX_DISTANCE
    };
    let radius = get_maximum_condition(condition, delta_abs, limit);
    proof {
        lemma_search_outcome_transfers(
            verdict_of(&condition),
            jump_verdict(system, lin_steps, log_space, numerator, origin),
            delta_abs,
            delta_abs,
            limit,
            radius,
        );
        assert(is_numerator_scan(system, log_space@, origin, precalculated_numerator@));
        assert(limit == pregion_limit(origin, conf.limits, enforce_limits));
        assert(search_outcome(
            jump_verdict(system, conf.lin_steps, log_space, &precalculated_numerator, origin),
            delta_abs,
            delta_abs,
            pregion_limit(origin, conf.limits, enforce_limits) as u64,
            radius,
        ));
    }

    PRegion { origin, radius: scale(radius, conf.safeguard), depth }
}

/// Number of disks at which the expansion takes up no further point.
pub const THRESHOLD: usize = 9_999_999;

/// The point of the disk's edge in the direction `d`.
pub open spec fn edge_point(pregion: PRegion, d: Direction) -> Par {
    let p = point_on_ray(pregion.origin, d, pregion.radius);
    (p.0 as i64, p.1 as i64)
}

/// The points of the disk's edge in the given directions, in their order.
pub open spec fn edge_points(pregion: PRegion, directions: Seq<Direction>) -> Seq<Par> {
    Seq::new(directions.len(), |i: int| edge_point(pregion, directions[i]))
}

/// Some disk of `pregions` contains `p`.
pub open spec fn covered(pregions: Seq<PRegion>, p: Par) -> bool {
    exists|k: int| 0 <= k < pregions.len() && (#[trigger] pregions[k]).contains(p)
}

/// `p` may seed a new disk: no disk contains it and it lies in the domain.
pub open spec fn is_valid_seed(p: Par, existing: Seq<PRegion>, limits: Limits) -> bool {
    !covered(existing, p) && point_in_limits(p, limits)
}

/// The candidates that may seed a new disk, in their order.
pub open spec fn valid_seeds(candidates: Seq<Par>, existing: Seq<PRegion>, limits: Limits) -> Seq<
    Par,
>
    decreases candidates.len(),
{
    if candidates.len() == 0 {
        Seq::empty()
    } else {
        let rest = valid_seeds(candidates.drop_last(), existing, limits);
        if is_valid_seed(candidates.last(), existing, limits) {
            rest.push(candidates.last())
        } else {
            rest
        }
    }
}

/// Every seed is one of the candidates and is valid.
pub proof fn lemma_valid_seeds_are_valid(
    candidates: Seq<Par>,
    existing: Seq<PRegion>,
    limits: Limits,
)
    ensures
        forall|i: int|
            0 <= i < valid_seeds(candidates, existing, limits).len() ==> is_valid_seed(
                #[trigger] valid_seeds(candidates, existing, limits)[i],
                existing,
                limits,
            ),
        valid_seeds(candidates, existing, limits).len() <= candidates.len(),
    decreases candidates.len(),
{
    if candidates.len() > 0 {
        lemma_valid_seeds_are_valid(candidates.drop_last(), existing, limits);
    }
}

/// All disks have a radius within the distance range.
pub open spec fn radii_in_range(pregions: Seq<PRegion>) -> bool {
    forall|k: int| 0 <= k < pregions.len() ==> (#[trigger] pregions[k]).radius <= MAX_DISTANCE
}

fn is_covered(pregions: &Vec<PRegion>, p: Par) -> (inside: bool)
    requires
        radii_in_range(pregions@),
    ensures
        inside == covered(pregions@, p),
{
    let mut k: usize = 0;
    while k < pregions.len()
        invariant
            k <= pregions@.len(),
            radii_in_range(pregions@),
            forall|j: int| 0 <= j < k ==> !(#[trigger] pregions@[j]).contains(p),
        decreases pregions@.len() - k,
    {
        if pregions[k].is_point_inside(p) {
            return true;
        }
        k += 1;
    }
    false
}

impl PRegion {
    /// The points of the edge in the given directions.
    pub fn spawn_edge_points(&self, directions: &[Direction]) -> (points: Vec<Par>)
        requires
            self.wf(),
            forall|i: int| 0 <= i < directions@.len() ==> direction_in_range(#[trigger] directions@[i]),
        ensures
            points@ == edge_points(*self, directions@),
    {
        let mut points: Vec<Par> = Vec::new();
        let mut i: usize = 0;
        while i < directions.len()
            invariant
                i <= directions@.len(),
                self.wf(),
                forall|i: int|
                    0 <= i < directions@.len() ==> direction_in_range(#[trigger] directions@[i]),
                points@ == edge_points(*self, directions@.take(i as int)),
            decreases directions@.len() - i,
        {
            points.push(get_point_on_ray(self.origin, directions[i], self.radius));
            i += 1;
            assert(points@ == edge_points(*self, directions@.take(i as int)));
        }
        assert(directions@.take(i as int) == directions@);
        points
    }
}

/// The points on the edge of `pregion` that may seed a new disk: those that
/// no disk of `existing_pregs` contains and that lie in the domain.
pub fn spawn_valid_points(
    pregion: &PRegion,
    conf: &RegionConfiguration,
    existing_pregs: &Vec<PRegion>,
    directions: &[Direction],
) -> (valid_points: Vec<Par>)
    requires
        pregion.wf(),
        radii_in_range(existing_pregs@),
        forall|i: int| 0 <= i < directions@.len() ==> direction_in_range(#[trigger] directions@[i]),
    ensures
        valid_points@ == valid_seeds(
            edge_points(*pregion, directions@),
            existing_pregs@,
            conf.limits,
        ),
{
    let new_points = pregion.spawn_edge_points(directions);
    let mut valid_points: Vec<Par> = Vec::new();
    let mut i: usize = 0;
    while i < new_points.len()
        invariant
            i <= new_points@.len(),
            radii_in_range(existing_pregs@),
            valid_points@ == valid_seeds(new_points@.take(i as int), existing_pregs@, conf.limits),
        decreases new_points@.len() - i,
    {
        let p = new_points[i];
        proof {
            assert(new_points@.take(i + 1).drop_last() == new_points@.take(i as int));
            assert(new_points@.take(i + 1).last() == p);
        }
        if !is_covered(existing_pregs, p) && is_point_in_limits(p, &conf.limits) {
            valid_points.push(p);
        }
        i += 1;
    }
    assert(new_points@.take(i as int) == new_points@);
    valid_points
}

/// A disk of `pregions` already contains `origin`, and that disk is shallower
/// than `depth` or every containing disk counts.
pub open spec fn is_obsolete(
    pregions: Seq<PRegion>,
    origin: Par,
    depth: u32,
    check_obsoletion: bool,
) -> bool {
    exists|k: int|
        0 <= k < pregions.len() && (#[trigger] pregions[k]).contains(origin) && (pregions[k].depth
            < depth || check_obsoletion)
}

/// Whether the point `origin`, reached at `depth`, needs no disk of its own.
pub fn check_obsolete(
    pregions: &Vec<PRegion>,
    origin: Par,
    depth: u32,
    check_obsoletion: bool,
) -> (obsolete: bool)
    requires
        radii_in_range(pregions@),
    ensures
        obsolete == is_obsolete(pregions@, origin, depth, check_obsoletion),
{
    let mut k: usize = 0;
    while k < pregions.len()
        invariant
            k <= pregions@.len(),
            radii_in_range(pregions@),
            forall|j: int|
                0 <= j < k ==> !((#[trigger] pregions@[j]).contains(origin) && (pregions@[j].depth
                    < depth || check_obsoletion)),
        decreases pregions@.len() - k,
    {
        // where not every disk counts, only the shallower ones do
        if pregions[k].is_point_inside(origin) && (pregions[k].depth < depth || check_obsoletion) {
            return true;
        }
        k += 1;
    }
    false
}

/// The point `origin`, reached at `depth`, is passed over: the cap on the
/// number of disks is reached or the point is obsolete.
pub open spec fn is_skipped(
    pregions: Seq<PRegion>,
    origin: Par,
    depth: u32,
    check_obsoletion: bool,
) -> bool {
    pregions.len() >= THRESHOLD || is_obsolete(pregions, origin, depth, check_obsoletion)
}

/// The work items that a new disk hands on: its valid seeds, one level deeper,
/// unless the disk is no larger than the tolerance or the depth cap is reached.
pub open spec fn children_of(
    pregion: PRegion,
    delta: u64,
    max_depth: Option<u32>,
    existing: Seq<PRegion>,
    limits: Limits,
    directions: Seq<Direction>,
) -> Seq<(Par, u32)> {
    let depth_ok = match max_depth {
        Some(max_depth) => pregion.depth < max_depth,
        None => true,
    };
    if pregion.radius > delta && depth_ok {
        let seeds = valid_seeds(edge_points(pregion, directions), existing, limits);
        Seq::new(seeds.len(), |k: int| (seeds[k], (pregion.depth + 1) as u32))
    } else {
        Seq::empty()
    }
}

/// One work item of the expansion: the point `origin`, reached at `depth`.
///
/// A skipped point changes nothing. Any other point gets a certified disk,
/// which is appended to `pregions`, and the disk's children are appended to
/// the work queue `scope`; the children are filtered against the disks that
/// were there before this one.
pub fn get_region_parallel<W: Copy, N, FN, LF, RP, RF, LG>(
    scope: &mut VecDeque<(Par, u32)>,
    system: &System<FN, LF, RP, RF, LG>,
    conf: &RegionConfiguration,
    origin: Par,
    pregions: &mut Vec<PRegion>,
    delta: u64,
    log_space: &[W],
    directions: &[Direction],
    depth: u32,
    max_depth: Option<u32>,
) where
    FN: Fn(W, Par) -> N,
    RP: Fn(&Vec<N>, &[W], Par, u64) -> Vec<u64>,
    RF: Fn(&Vec<W>, Par, u64) -> Vec<u64>,
    LG: Fn(W, W, usize) -> Vec<W>,

    requires
        region_hooks_ready(system, log_space@),
        0 < conf.safeguard <= UNIT_FACTOR,
        delta > 0,
        par_in_range(origin),
        depth < u32::MAX,
        radii_in_range(old(pregions)@),
        forall|i: int| 0 <= i < directions@.len() ==> direction_in_range(#[trigger] directions@[i]),
    ensures
        radii_in_range(final(pregions)@),
        is_skipped(old(pregions)@, origin, depth, conf.check_obsoletion) ==> final(pregions)@
            == old(pregions)@ && final(scope)@ == old(scope)@,
        !is_skipped(old(pregions)@, origin, depth, conf.check_obsoletion) ==> exists|
            pregion: PRegion,
        |
            {
                &&& is_certified_pregion(
                    system,
                    conf,
                    origin,
                    conf.enforce_limits,
                    delta,
                    log_space,
                    depth,
                    pregion,
                )
                &&& final(pregions)@ == old(pregions)@.push(pregion)
                &&& final(scope)@ == old(scope)@ + #[trigger] children_of(
                    pregion,
                    delta,
                    max_depth,
                    old(pregions)@,
                    conf.limits,
                    directions@,
                )
            },
{
    // enough is enough
    if pregions.len() >= THRESHOLD {
        return ;
    }
    if check_obsolete(pregions, origin, depth, conf.check_obsoletion) {
        return ;
    }
    // the new disk around the point

    let pregion = get_pregion(system, conf, origin, conf.enforce_limits, delta, log_space, depth);

    // the points on its edge that go on
    let depth_ok = if let Some(max_depth) = max_depth {
        depth < max_depth
    } else {
        true
    };
    let new_points = if pregion.radius > delta && depth_ok {
        Some(spawn_valid_points(&pregion, conf, pregions, directions))
    } else {
        None
    };

    pregions.push(pregion);

    let ghost scope_before = scope@;
    let ghost children = children_of(
        pregion,
        delta,
        max_depth,
        old(pregions)@,
        conf.limits,
        directions@,
    );
    if let Some(new_points) = new_points {
        let mut i: usize = 0;
        while i < new_points.len()
            invariant
                i <= new_points@.len(),
                depth < u32::MAX,
                pregion.depth == depth,
                children.len() == new_points@.len(),
                forall|k: int|
                    0 <= k < children.len() ==> children[k] == (
                        new_points@[k],
                        (depth + 1) as u32,
                    ),
                scope@ == scope_before + children.take(i as int),
            decreases new_points@.len() - i,
        {
            scope.push_back((new_points[i], depth + 1));
            assert(children.take(i + 1) == children.take(i as int).push(children[i as int]));
            i += 1;
        }
        assert(children.take(i as int) == children);
    } else {
        assert(scope@ == scope_before + children);
    }
}

/// The disks published so far and the work that is left, first item first.
pub type ExpansionState = (Seq<PRegion>, Seq<(Par, u32)>);

/// `after` follows from `before` by handling the first work item: a skipped
/// point only leaves the queue, any other point adds a certified disk and
/// queues its children.
pub open spec fn is_expansion_step<W, N, FN, LF, RP, RF, LG>(
    system: &System<FN, LF, RP, RF, LG>,
    conf: &RegionConfiguration,
    delta: u64,
    log_space: &[W],
    directions: Seq<Direction>,
    before: ExpansionState,
    after: ExpansionState,
) -> bool where
    FN: Fn(W, Par) -> N,
    RP: Fn(&Vec<N>, &[W], Par, u64) -> Vec<u64>,
    RF: Fn(&Vec<W>, Par, u64) -> Vec<u64>,
    LG: Fn(W, W, usize) -> Vec<W>,
 {
    &&& before.1.len() > 0
    &&& {
        let (point, depth) = before.1[0];
        let rest = before.1.subrange(1, before.1.len() as int);
        if is_skipped(before.0, point, depth, conf.check_obsoletion) {
            after.0 == before.0 && after.1 == rest
        } else {
            exists|pregion: PRegion|
                {
                    &&& is_certified_pregion(
                        system,
                        conf,
                        point,
                        conf.enforce_limits,
                        delta,
                        log_space,
                        depth,
                        pregion,
                    )
                    &&& after.0 == before.0.push(pregion)
                    &&& after.1 == rest + #[trigger] children_of(
                        pregion,
                        delta,
                        conf.max_iter,
                        before.0,
                        conf.limits,
                        directions,
                    )
                }
        }
    }
}

/// `states` is a whole expansion from `origin`: it starts with no disk and
/// the origin at depth one as the only work, every state follows from the
/// one before by one step, and no work is left at the end.
pub open spec fn is_expansion<W, N, FN, LF, RP, RF, LG>(
    system: &System<FN, LF, RP, RF, LG>,
    conf: &RegionConfiguration,
    origin: Par,
    delta: u64,
    log_space: &[W],
    directions: Seq<Direction>,
    states: Seq<ExpansionState>,
) -> bool where
    FN: Fn(W, Par) -> N,
    RP: Fn(&Vec<N>, &[W], Par, u64) -> Vec<u64>,
    RF: Fn(&Vec<W>, Par, u64) -> Vec<u64>,
    LG: Fn(W, W, usize) -> Vec<W>,
 {
    &&& states.len() >= 1
    &&& states[0].0 == Seq::<PRegion>::empty()
    &&& states[0].1 == seq![(origin, 1u32)]
    &&& forall|k: int|
        0 <= k < states.len() - 1 ==> is_expansion_step(
            system,
            conf,
            delta,
            log_space,
            directions,
            #[trigger] states[k],
            states[k + 1],
        )
    &&& states.last().1.len() == 0
}

/// The disks that the expansion from `origin` has published so far and the
/// work that is left: every disk has a radius in range, and every point in
/// the queue is in range and at a depth that can still grow.
pub open spec fn expansion_invariant(pregions: Seq<PRegion>, scope: Seq<(Par, u32)>) -> bool {
    &&& radii_in_range(pregions)
    &&& forall|i: int|
        0 <= i < scope.len() ==> par_in_range((#[trigger] scope[i]).0) && scope[i].1
            <= pregions.len() + 1
}

/// Breadth-first certified expansion from `origin`.
///
/// The first work item is `origin` at depth `1`; each item is handled by
/// [`get_region_parallel`], first come, first served, until no work is left.
/// `nu` is the winding number of `origin`; the region carries it, offset by
/// the recipe's modifier.
pub fn get_region<W: Copy, N, FN, LF, RP, RF, LG>(
    system: &System<FN, LF, RP, RF, LG>,
    conf: &RegionConfiguration,
    origin: Par,
    nu: i32,
    log_space: &[W],
    directions: &[Direction],
) -> (region: Region) where
    FN: Fn(W, Par) -> N,
    RP: Fn(&Vec<N>, &[W], Par, u64) -> Vec<u64>,
    RF: Fn(&Vec<W>, Par, u64) -> Vec<u64>,
    LG: Fn(W, W, usize) -> Vec<W>,

    requires
        region_hooks_ready(system, log_space@),
        conf.wf(),
        absolute_delta(conf.delta, conf.limits) > 0,
        par_in_range(origin),
        i32::MIN <= nu + conf.nu_modifier <= i32::MAX,
        directions@.len() == conf.spawn_count,
        forall|i: int| 0 <= i < directions@.len() ==> direction_in_range(#[trigger] directions@[i]),
    ensures
        region.origin == origin,
        region.nu == nu + conf.nu_modifier,
        exists|states: Seq<ExpansionState>|
            #[trigger] is_expansion(
                system,
                conf,
                origin,
                absolute_delta(conf.delta, conf.limits) as u64,
                log_space,
                directions@,
                states,
            ) && states.last().0 == region.pregions@,
        radii_in_range(region.pregions@),
        region.pregions@.len() >= 1,
        is_certified_pregion(
            system,
            conf,
            origin,
            conf.enforce_limits,
            absolute_delta(conf.delta, conf.limits) as u64,
            log_space,
            1,
            region.pregions@[0],
        ),
        forall|k: int|
            0 <= k < region.pregions@.len() ==> is_certified_pregion(
                system,
                conf,
                (#[trigger] region.pregions@[k]).origin,
                conf.enforce_limits,
                absolute_delta(conf.delta, conf.limits) as u64,
                log_space,
                region.pregions@[k].depth,
                region.pregions@[k],
            ),
        forall|k: int|
            0 <= k < region.pregions@.len() ==> !is_obsolete(
                region.pregions@.take(k),
                (#[trigger] region.pregions@[k]).origin,
                region.pregions@[k].depth,
                conf.check_obsoletion,
            ),
{
    let delta = absolutize_delta(&conf.delta, &conf.limits);
    let nu = nu + conf.nu_modifier;
    let mut pregions: Vec<PRegion> = Vec::new();
    let mut scope: VecDeque<(Par, u32)> = VecDeque::new();
    let initial_depth: u32 = 1;
    scope.push_back((origin, initial_depth));
    let ghost mut states: Seq<ExpansionState> = seq![(pregions@, scope@)];
    assert(scope@ =~= seq![(origin, 1u32)]);

    loop
        invariant
            states.len() >= 1,
            states[0].0 == Seq::<PRegion>::empty(),
            states[0].1 == seq![(origin, 1u32)],
            forall|k: int|
                0 <= k < states.len() - 1 ==> is_expansion_step(
                    system,
                    conf,
                    delta,
                    log_space,
                    directions@,
                    #[trigger] states[k],
                    states[k + 1],
                ),
            states.last().0 == pregions@,
            states.last().1 == scope@,
            region_hooks_ready(system, log_space@),
            conf.wf(),
            delta == absolute_delta(conf.delta, conf.limits),
            delta > 0,
            forall|i: int|
                0 <= i < directions@.len() ==> direction_in_range(#[trigger] directions@[i]),
            expansion_invariant(pregions@, scope@),
            pregions@.len() <= THRESHOLD,
            pregions@.len() == 0 ==> scope@ == seq![(origin, 1u32)],
            pregions@.len() > 0 ==> is_certified_pregion(
                system,
                conf,
                origin,
                conf.enforce_limits,
                delta,
                log_space,
                1,
                pregions@[0],
            ),
            forall|k: int|
                0 <= k < pregions@.len() ==> is_certified_pregion(
                    system,
                    conf,
                    (#[trigger] pregions@[k]).origin,
                    conf.enforce_limits,
                    delta,
                    log_space,
                    pregions@[k].depth,
                    pregions@[k],
                ),
            forall|k: int|
                0 <= k < pregions@.len() ==> !is_obsolete(
                    pregions@.take(k),
                    (#[trigger] pregions@[k]).origin,
                    pregions@[k].depth,
                    conf.check_obsoletion,
                ),
        ensures
            pregions@.len() >= 1,
            is_expansion(system, conf, origin, delta, log_space, directions@, states),
            states.last().0 == pregions@,
        decreases THRESHOLD + 1 - pregions@.len(), scope@.len(),
    {
        let ghost before = pregions@;
        let ghost queue = scope@;
        let (point, depth) = match scope.pop_front() {
            Some(item) => item,
            None => {
                break ;
            },
        };
        assert(queue[0] == (point, depth));
        get_region_parallel(
            &mut scope,
            system,
            conf,
            point,
            &mut pregions,
            delta,
            log_space,
            directions,
            depth,
            conf.max_iter,
        );
        proof {
            let ghost previous = states;
            states = states.push((pregions@, scope@));
            assert(is_expansion_step(
                system,
                conf,
                delta,
                log_space,
                directions@,
                (before, queue),
                (pregions@, scope@),
            ));
            assert forall|k: int| 0 <= k < states.len() - 1 implies is_expansion_step(
                system,
                conf,
                delta,
                log_space,
                directions@,
                #[trigger] states[k],
                states[k + 1],
            ) by {
                if k < previous.len() - 1 {
                    assert(states[k] == previous[k]);
                    assert(states[k + 1] == previous[k + 1]);
                } else {
                    assert(states[k] == (before, queue));
                }
            }
            if !is_skipped(before, point, depth, conf.check_obsoletion) {
                let pregion = choose|pregion: PRegion|
                    {
                        &&& is_certified_pregion(
                            system,
                            conf,
                            point,
                            conf.enforce_limits,
                            delta,
                            log_space,
                            depth,
                            pregion,
                        )
                        &&& pregions@ == before.push(pregion)
                        &&& scope@ == queue.subrange(1, queue.len() as int) + #[trigger] children_of(
                            pregion,
                            delta,
                            conf.max_iter,
                            before,
                            conf.limits,
                            directions@,
                        )
                    };
                let children = children_of(
                    pregion,
                    delta,
                    conf.max_iter,
                    before,
                    conf.limits,
                    directions@,
                );
                lemma_valid_seeds_are_valid(
                    edge_points(pregion, directions@),
                    before,
                    conf.limits,
                );
                assert forall|i: int| 0 <= i < scope@.len() implies par_in_range(
                    (#[trigger] scope@[i]).0,
                ) && scope@[i].1 <= pregions@.len() + 1 by {
                    if i < queue.len() - 1 {
                        assert(scope@[i] == queue[i + 1]);
                    } else {
                        let k = i - (queue.len() - 1);
                        assert(scope@[i] == children[k]);
                    }
                }
                assert forall|k: int| 0 <= k < pregions@.len() implies !is_obsolete(
                    pregions@.take(k),
                    (#[trigger] pregions@[k]).origin,
                    pregions@[k].depth,
                    conf.check_obsoletion,
                ) by {
                    if k < before.len() {
                        assert(pregions@.take(k) == before.take(k));
                        assert(pregions@[k] == before[k]);
                    } else {
                        assert(pregions@.take(k) == before);
                    }
                }
            } else {
                assert forall|i: int| 0 <= i < scope@.len() implies par_in_range(
                    (#[trigger] scope@[i]).0,
                ) && scope@[i].1 <= pregions@.len() + 1 by {
                    assert(scope@[i] == queue[i + 1]);
                }
            }
        }
    }

    assert(is_expansion(
        system,
        conf,
        origin,
        absolute_delta(conf.delta, conf.limits) as u64,
        log_space,
        directions@,
        states,
    ));
    Region { pregions, nu, origin }
}

/// Where the jump test around `origin` is a monotone predicate that already
/// fails at one tolerance (or at the limit, where that is nearer), the
/// certified disk has radius zero.
pub proof fn lemma_refused_pregion_has_zero_radius<W, N, FN, LF, RP, RF, LG>(
    system: &System<FN, LF, RP, RF, LG>,
    conf: &RegionConfiguration,
    origin: Par,
    enforce_limits: bool,
    delta_abs: u64,
    log_space: &[W],
    depth: u32,
    pregion: PRegion,
    p: spec_fn(int) -> bool,
) where
    FN: Fn(W, Par) -> N,
    RP: Fn(&Vec<N>, &[W], Par, u64) -> Vec<u64>,
    RF: Fn(&Vec<W>, Par, u64) -> Vec<u64>,
    LG: Fn(W, W, usize) -> Vec<W>,

    requires
        delta_abs > 0,
        is_certified_pregion(
            system,
            conf,
            origin,
            enforce_limits,
            delta_abs,
            log_space,
            depth,
            pregion,
        ),
        forall|numerator: Vec<N>, v: u64, r: bool| #[trigger]
            jump_verdict(system, conf.lin_steps, log_space, &numerator, origin)(v, r) ==> r
                == p(v as int),
        forall|a: int, b: int| 0 <= a <= b && #[trigger] p(b) ==> #[trigger] p(a),
        !p(
            probe(
                0,
                delta_abs as int,
                pregion_limit(origin, conf.limits, enforce_limits) as u64,
            ) as int,
        ),
    ensures
        pregion.radius == 0,
        pregion.depth == depth,
{
    let (numerator, radius) = choose|numerator: Vec<N>, radius: u64|
        {
            &&& is_numerator_scan(system, log_space@, origin, numerator@)
            &&& #[trigger] search_outcome(
                jump_verdict(system, conf.lin_steps, log_space, &numerator, origin),
                delta_abs,
                delta_abs,
                pregion_limit(origin, conf.limits, enforce_limits) as u64,
                radius,
            )
            &&& pregion.radius == scaled(radius as int, conf.safeguard as int)
        };
    lemma_refused_at_min_step_gives_zero(
        jump_verdict(system, conf.lin_steps, log_space, &numerator, origin),
        p,
        delta_abs,
        delta_abs,
        pregion_limit(origin, conf.limits, enforce_limits) as u64,
        radius,
    );
    assert(scaled(0, conf.safeguard as int) == 0) by (nonlinear_arith);
}

/// Why a region search cannot start on this recipe, if anything: the first of
/// a missing hook, an invalid domain, an invalid or zero tolerance, an
/// invalid safeguard, directions out of range or not as many as the recipe's
/// spawn count, an origin outside the domain.
pub open spec fn region_configuration_error<FN, LF, RP, RF, LG>(
    system: &System<FN, LF, RP, RF, LG>,
    conf: &RegionConfiguration,
    directions: Seq<Direction>,
) -> Option<ConfigError> {
    if system.region_fraction_precalculated_numerator is None || system.region_fraction is None {
        Some(ConfigError::MissingHook)
    } else if !conf.limits.wf() {
        Some(ConfigError::InvalidLimits)
    } else if !conf.delta.wf() || absolute_delta(conf.delta, conf.limits) == 0 {
        Some(ConfigError::InvalidTolerance)
    } else if !(0 < conf.safeguard <= UNIT_FACTOR) {
        Some(ConfigError::InvalidSafeguard)
    } else if directions.len() != conf.spawn_count || !(forall|i: int|
        0 <= i < directions.len() ==> direction_in_range(#[trigger] directions[i])) {
        Some(ConfigError::InvalidDirections)
    } else if !(forall|i: int|
        0 <= i < conf.origins@.len() ==> point_in_limits(
            #[trigger] conf.origins@[i],
            conf.limits,
        )) {
        Some(ConfigError::OriginOutsideLimits)
    } else {
        None
    }
}

/// Tells whether a region search can start on this recipe with these
/// directions, and why not.
pub fn check_region_configuration<FN, LF, RP, RF, LG>(
    system: &System<FN, LF, RP, RF, LG>,
    conf: &RegionConfiguration,
    directions: &[Direction],
) -> (r: Result<(), ConfigError>)
    ensures
        r == match region_configuration_error(system, conf, directions@) {
            Some(error) => Err::<(), ConfigError>(error),
            None => Ok::<(), ConfigError>(()),
        },
        r is Ok ==> conf.wf() && absolute_delta(conf.delta, conf.limits) > 0,
{
    if system.region_fraction_precalculated_numerator.is_none()
        || system.region_fraction.is_none() {
        return Err(ConfigError::MissingHook);
    }
    if !conf.limits.is_valid() {
        return Err(ConfigError::InvalidLimits);
    }
    let delta_valid = match conf.delta {
        Delta::Abs(abs) => abs <= MAX_DISTANCE,
        Delta::Rel(rel) => rel <= UNIT_FACTOR,
    };
    if !delta_valid || absolutize_delta(&conf.delta, &conf.limits) == 0 {
        return Err(ConfigError::InvalidTolerance);
    }
    if conf.safeguard == 0 || conf.safeguard > UNIT_FACTOR {
        return Err(ConfigError::InvalidSafeguard);
    }
    if directions.len() != conf.spawn_count || !are_directions_in_range(directions) {
        return Err(ConfigError::InvalidDirections);
    }
    if !are_points_in_limits(&conf.origins, &conf.limits) {
        return Err(ConfigError::OriginOutsideLimits);
    }
    assert forall|i: int| 0 <= i < conf.origins@.len() implies par_in_range(
        #[trigger] conf.origins@[i],
    ) by {
        assert(point_in_limits(conf.origins@[i], conf.limits));
    }
    Ok(())
}

/// Where the jump test around `origin` is one monotone predicate that holds
/// at zero, whatever the numerator samples, two certified disks around
/// `origin` at the same depth are the same disk.
pub proof fn lemma_certified_pregion_unique<W, N, FN, LF, RP, RF, LG>(
    system: &System<FN, LF, RP, RF, LG>,
    conf: &RegionConfiguration,
    origin: Par,
    enforce_limits: bool,
    delta_abs: u64,
    log_space: &[W],
    depth: u32,
    first: PRegion,
    second: PRegion,
    p: spec_fn(int) -> bool,
) where
    FN: Fn(W, Par) -> N,
    RP: Fn(&Vec<N>, &[W], Par, u64) -> Vec<u64>,
    RF: Fn(&Vec<W>, Par, u64) -> Vec<u64>,
    LG: Fn(W, W, usize) -> Vec<W>,

    requires
        delta_abs > 0,
        is_certified_pregion(
            system,
            conf,
            origin,
            enforce_limits,
            delta_abs,
            log_space,
            depth,
            first,
        ),
        is_certified_pregion(
            system,
            conf,
            origin,
            enforce_limits,
            delta_abs,
            log_space,
            depth,
            second,
        ),
        forall|numerator: Vec<N>, v: u64, r: bool| #[trigger]
            jump_verdict(system, conf.lin_steps, log_space, &numerator, origin)(v, r) ==> r
                == p(v as int),
        forall|a: int, b: int| 0 <= a <= b && #[trigger] p(b) ==> #[trigger] p(a),
        p(0),
    ensures
        first == second,
{
    let limit = pregion_limit(origin, conf.limits, enforce_limits) as u64;
    let (numerator1, radius1) = choose|numerator: Vec<N>, radius: u64|
        {
            &&& is_numerator_scan(system, log_space@, origin, numerator@)
            &&& #[trigger] search_outcome(
                jump_verdict(system, conf.lin_steps, log_space, &numerator, origin),
                delta_abs,
                delta_abs,
                limit,
                radius,
            )
            &&& first.radius == scaled(radius as int, conf.safeguard as int)
        };
    let (numerator2, radius2) = choose|numerator: Vec<N>, radius: u64|
        {
            &&& is_numerator_scan(system, log_space@, origin, numerator@)
            &&& #[trigger] search_outcome(
                jump_verdict(system, conf.lin_steps, log_space, &numerator, origin),
                delta_abs,
                delta_abs,
                limit,
                radius,
            )
            &&& second.radius == scaled(radius as int, conf.safeguard as int)
        };
    let decided = |v: u64, r: bool| r == p(v as int);
    lemma_search_outcome_transfers(
        jump_verdict(system, conf.lin_steps, log_space, &numerator1, origin),
        decided,
        delta_abs,
        delta_abs,
        limit,
        radius1,
    );
    lemma_search_outcome_transfers(
        jump_verdict(system, conf.lin_steps, log_space, &numerator2, origin),
        decided,
        delta_abs,
        delta_abs,
        limit,
        radius2,
    );
    lemma_maximum_condition_unique(decided, p, delta_abs, limit, radius1, radius2);
}

/// Where the jump test around every point is one monotone predicate that
/// holds at zero, two expansions from the same origin agree state by state.
pub proof fn lemma_expansion_prefix_unique<W, N, FN, LF, RP, RF, LG>(
    system: &System<FN, LF, RP, RF, LG>,
    conf: &RegionConfiguration,
    origin: Par,
    delta: u64,
    log_space: &[W],
    directions: Seq<Direction>,
    first: Seq<ExpansionState>,
    second: Seq<ExpansionState>,
    p: spec_fn(Par, int) -> bool,
    k: int,
) where
    FN: Fn(W, Par) -> N,
    RP: Fn(&Vec<N>, &[W], Par, u64) -> Vec<u64>,
    RF: Fn(&Vec<W>, Par, u64) -> Vec<u64>,
    LG: Fn(W, W, usize) -> Vec<W>,

    requires
        delta > 0,
        is_expansion(system, conf, origin, delta, log_space, directions, first),
        is_expansion(system, conf, origin, delta, log_space, directions, second),
        forall|q: Par, numerator: Vec<N>, v: u64, r: bool| #[trigger]
            jump_verdict(system, conf.lin_steps, log_space, &numerator, q)(v, r) ==> r == p(
                q,
                v as int,
            ),
        forall|q: Par, a: int, b: int| 0 <= a <= b && #[trigger] p(q, b) ==> #[trigger] p(q, a),
        forall|q: Par| #[trigger] p(q, 0),
        0 <= k < first.len(),
        k < second.len(),
    ensures
        first[k] == second[k],
    decreases k,
{
    if k > 0 {
        lemma_expansion_prefix_unique(
            system,
            conf,
            origin,
            delta,
            log_space,
            directions,
            first,
            second,
            p,
            k - 1,
        );
        let before = first[k - 1];
        assert(is_expansion_step(
            system,
            conf,
            delta,
            log_space,
            directions,
            first[k - 1],
            first[k - 1 + 1],
        ));
        assert(is_expansion_step(
            system,
            conf,
            delta,
            log_space,
            directions,
            second[k - 1],
            second[k - 1 + 1],
        ));
        let (point, depth) = before.1[0];
        let rest = before.1.subrange(1, before.1.len() as int);
        if !is_skipped(before.0, point, depth, conf.check_obsoletion) {
            let one = choose|pregion: PRegion|
                {
                    &&& is_certified_pregion(
                        system,
                        conf,
                        point,
                        conf.enforce_limits,
                        delta,
                        log_space,
                        depth,
                        pregion,
                    )
                    &&& first[k].0 == before.0.push(pregion)
                    &&& first[k].1 == rest + #[trigger] children_of(
                        pregion,
                        delta,
                        conf.max_iter,
                        before.0,
                        conf.limits,
                        directions,
                    )
                };
            let other = choose|pregion: PRegion|
                {
                    &&& is_certified_pregion(
                        system,
                        conf,
                        point,
                        conf.enforce_limits,
                        delta,
                        log_space,
                        depth,
                        pregion,
                    )
                    &&& second[k].0 == before.0.push(pregion)
                    &&& second[k].1 == rest + #[trigger] children_of(
                        pregion,
                        delta,
                        conf.max_iter,
                        before.0,
                        conf.limits,
                        directions,
                    )
                };
            lemma_certified_pregion_unique(
                system,
                conf,
                point,
                conf.enforce_limits,
                delta,
                log_space,
                depth,
                one,
                other,
                |v: int| p(point, v),
            );
        }
    }
}

/// Where the jump test around every point is one monotone predicate that
/// holds at zero, two expansions from the same origin publish the same disks
/// in the same order.
pub proof fn lemma_expansion_unique<W, N, FN, LF, RP, RF, LG>(
    system: &System<FN, LF, RP, RF, LG>,
    conf: &RegionConfiguration,
    origin: Par,
    delta: u64,
    log_space: &[W],
    directions: Seq<Direction>,
    first: Seq<ExpansionState>,
    second: Seq<ExpansionState>,
    p: spec_fn(Par, int) -> bool,
) where
    FN: Fn(W, Par) -> N,
    RP: Fn(&Vec<N>, &[W], Par, u64) -> Vec<u64>,
    RF: Fn(&Vec<W>, Par, u64) -> Vec<u64>,
    LG: Fn(W, W, usize) -> Vec<W>,

    requires
        delta > 0,
        is_expansion(system, conf, origin, delta, log_space, directions, first),
        is_expansion(system, conf, origin, delta, log_space, directions, second),
        forall|q: Par, numerator: Vec<N>, v: u64, r: bool| #[trigger]
            jump_verdict(system, conf.lin_steps, log_space, &numerator, q)(v, r) ==> r == p(
                q,
                v as int,
            ),
        forall|q: Par, a: int, b: int| 0 <= a <= b && #[trigger] p(q, b) ==> #[trigger] p(q, a),
        forall|q: Par| #[trigger] p(q, 0),
    ensures
        first.len() == second.len(),
        first.last().0 == second.last().0,
{
    let shorter = if first.len() <= second.len() {
        first.len() as int
    } else {
        second.len() as int
    };
    lemma_expansion_prefix_unique(
        system,
        conf,
        origin,
        delta,
        log_space,
        directions,
        first,
        second,
        p,
        shorter - 1,
    );
    if first.len() < second.len() {
        assert(is_expansion_step(
            system,
            conf,
            delta,
            log_space,
            directions,
            second[shorter - 1],
            second[shorter - 1 + 1],
        ));
    } else if second.len() < first.len() {
        assert(is_expansion_step(
            system,
            conf,
            delta,
            log_space,
            directions,
            first[shorter - 1],
            first[shorter - 1 + 1],
        ));
    }
}

} // verus!
