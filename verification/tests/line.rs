use fsals::data::line::configurations::LineConfiguration;
use fsals::data::line::{
    check_line_configuration, delta_rel2abs, find_max_delta_theta, get_max_theta, get_rayfan,
    get_stability_segment, get_stability_segment_1_d,
};
use fsals::ConfigError;
use fsals::data::region::configurations::Delta;
use fsals::types::{get_point_on_ray, Direction, Limits, Par, System, MAX_DISTANCE};
use fsals::utils::geometry::is_point_in_limits;
use num::complex::Complex64;
use std::f64::consts::PI;

const UNITS: f64 = 1e9;

fn to_units(x: f64) -> u64 {
    (x * UNITS).floor() as u64
}

fn to_float(x: i64) -> f64 {
    x as f64 / UNITS
}

fn par(p1: f64, p2: f64) -> Par {
    ((p1 * UNITS).round() as i64, (p2 * UNITS).round() as i64)
}

fn f_norm(w: f64, p: Par) -> f64 {
    let a = to_float(p.0);
    let b = to_float(p.1);
    let s = Complex64::new(0.0, w);
    (s.powi(2) + a * s + (a.powi(2) + b - 1.0)).norm()
}

fn line_denominator(w: f64, p: Par, angle: Direction, th_min: u64, th_max: u64) -> f64 {
    let (c1, c2) = (to_float(angle.0), to_float(angle.1));
    let a0 = to_float(p.0);
    let a_max = f64::max(a0 + c1 * to_float(th_min as i64), a0 + c1 * to_float(th_max as i64));
    (w.powi(2) + 4.0 * a_max.powi(2)).sqrt() * c1.abs() + c2.abs()
}

fn line_fraction(n: &f64, w: f64, p: Par, angle: Direction, th_min: u64, th_max: u64) -> u64 {
    to_units(n / line_denominator(w, p, angle, th_min, th_max))
}

fn linear_grid(a: f64, b: f64, n: usize) -> Vec<f64> {
    iter_num_tools::lin_space(a..=b, n).collect()
}

type Hooks = System<
    fn(f64, Par) -> f64,
    fn(&f64, f64, Par, Direction, u64, u64) -> u64,
    fn(&Vec<f64>, &[f64], Par, u64) -> Vec<u64>,
    fn(&Vec<f64>, Par, u64) -> Vec<u64>,
    fn(f64, f64, usize) -> Vec<f64>,
>;

fn system() -> Hooks {
    System {
        name: String::from("test_system"),
        parameters: (String::from("a"), String::from("b")),
        f_norm,
        line_fraction: Some(line_fraction),
        region_fraction_precalculated_numerator: None,
        region_fraction: None,
        linear_grid,
    }
}

fn configuration() -> LineConfiguration {
    LineConfiguration {
        name: String::from("test_system"),
        limits: Limits { p1_min: 0, p1_max: 1_000_000_000, p2_min: 0, p2_max: 1_000_000_000 },
        origins: vec![par(0.1, 0.1), par(0.9, 0.9)],
        ray_count: 160,
        delta: Delta::Abs(to_units(1e-3)),
        safeguard: 900_000_000,
        w_steps_linear: 100,
    }
}

fn fan(count: usize) -> Vec<Direction> {
    iter_num_tools::lin_space(-PI..PI, count)
        .map(|angle: f64| {
            ((angle.cos() * UNITS).round() as i64, (angle.sin() * UNITS).round() as i64)
        })
        .collect()
}

#[test]
fn relative_tolerance_along_a_ray() {
    let limits = Limits { p1_min: 0, p1_max: 2_000, p2_min: 0, p2_max: 3_000 };
    // a hundredth of each side is 20 and 30; along the first axis the lesser counts
    assert_eq!(delta_rel2abs(&limits, 10_000_000, (1_000_000_000, 0)), 20);
    assert_eq!(delta_rel2abs(&limits, 10_000_000, (-1_000_000_000, 0)), 20);
    // with a cosine of one half the distance doubles
    assert_eq!(delta_rel2abs(&limits, 10_000_000, (500_000_000, 866_025_404)), 40);
    assert_eq!(delta_rel2abs(&limits, 10_000_000, (-500_000_000, -866_025_404)), 40);
}

#[test]
fn relative_tolerance_without_a_cosine_is_unbounded() {
    let limits = Limits { p1_min: 0, p1_max: 2_000, p2_min: 0, p2_max: 3_000 };
    assert_eq!(delta_rel2abs(&limits, 10_000_000, (0, 1_000_000_000)), MAX_DISTANCE);
    assert_eq!(delta_rel2abs(&limits, 10_000_000, (0, -1_000_000_000)), MAX_DISTANCE);
    // and the limit alone decides how far the ray goes
    let limits = Limits { p1_min: 0, p1_max: 1_000, p2_min: 0, p2_max: 1_000 };
    let limit = get_max_theta(&limits, (500, 500), (0, 1_000_000_000), MAX_DISTANCE);
    assert_eq!(limit, 0);
}

#[test]
fn relative_tolerance_never_exceeds_the_range() {
    let limits = Limits { p1_min: 0, p1_max: 1 << 61, p2_min: 0, p2_max: 1 << 61 };
    assert_eq!(delta_rel2abs(&limits, 1_000_000_000, (1, 0)), MAX_DISTANCE);
}

#[test]
fn max_theta_stops_short_of_the_border() {
    let limits = Limits { p1_min: 0, p1_max: 1_000_000, p2_min: 0, p2_max: 1_000_000 };
    // along the first axis from the centre the border is 500000 away
    assert_eq!(get_max_theta(&limits, (500_000, 500_000), (1_000_000_000, 0), 1), 499_950);
    assert_eq!(get_max_theta(&limits, (500_000, 500_000), (-1_000_000_000, 0), 1), 499_950);
    // from the border outwards nothing is left
    assert_eq!(get_max_theta(&limits, (1_000_000, 500_000), (1_000_000_000, 0), 1), 0);
    // a coarser tolerance stops within two tolerances of the border
    let limit = get_max_theta(&limits, (500_000, 500_000), (0, 1_000_000_000), 1_000);
    assert!(limit <= 499_950);
    assert!(limit >= 497_950);
}

#[test]
fn refused_at_once_gives_a_ray_of_length_zero() {
    let mut system = system();
    system.line_fraction = Some(|_n, _w, _p, _angle, _th_min, _th_max| 0);
    let conf = configuration();
    let log_space: Vec<f64> = iter_num_tools::log_space(1e-3..=1e4, 50).collect();
    let (length, segments) =
        get_stability_segment(&system, &conf, (1_000_000_000, 0), par(0.1, 0.1), &log_space, true);
    assert_eq!(length, 0);
    assert_eq!(segments, Some(vec![0]));
}

#[test]
fn always_certified_ray_reaches_the_limit() {
    let mut system = system();
    system.line_fraction = Some(|_n, _w, _p, _angle, _th_min, _th_max| u64::MAX);
    let conf = configuration();
    let log_space: Vec<f64> = iter_num_tools::log_space(1e-3..=1e4, 50).collect();
    let (length, segments) = get_stability_segment_1_d(
        &system,
        par(0.1, 0.1),
        (1_000_000_000, 0),
        0,
        1_000,
        700_000,
        &conf,
        &log_space,
        true,
    );
    assert_eq!(length, 700_000);
    // each jump covers nine tenths of the limit until the ray is cut at the limit
    assert_eq!(segments, Some(vec![630_000, 1_260_000]));
    let (length, segments) = get_stability_segment_1_d(
        &system,
        par(0.1, 0.1),
        (1_000_000_000, 0),
        0,
        1_000,
        700_000,
        &conf,
        &log_space,
        false,
    );
    assert_eq!(length, 700_000);
    assert_eq!(segments, None);
}

#[test]
fn rays_from_the_origin() {
    let system = system();
    let conf = configuration();
    let origin = par(0.1, 0.1);
    let log_space: Vec<f64> = iter_num_tools::log_space(1e-3..=1e4, 100).collect();
    let angles = fan(conf.ray_count);
    let rayfan = get_rayfan(&system, &conf, origin, 1, &angles, &log_space, false);

    assert_eq!(rayfan.origin, origin);
    assert_eq!(rayfan.nu, 1);
    assert_eq!(rayfan.rays.len(), 160);
    for (ray, angle) in rayfan.rays.iter().zip(angles.iter()) {
        assert_eq!(ray.origin, origin);
        assert_eq!(ray.angle, *angle);
        assert!(ray.length > 0);
        assert!(ray.segments.is_none());
        let end = get_point_on_ray(origin, ray.angle, ray.length);
        assert!(is_point_in_limits(end, &conf.limits));
        assert!(ray.length <= get_max_theta(&conf.limits, origin, ray.angle, to_units(1e-3)));
    }
}

#[test]
fn rays_are_the_same_on_every_run() {
    let system = system();
    let mut conf = configuration();
    conf.ray_count = 8;
    let log_space: Vec<f64> = iter_num_tools::log_space(1e-3..=1e4, 50).collect();
    let angles = fan(8);
    let first = get_rayfan(&system, &conf, par(0.9, 0.9), 0, &angles, &log_space, true);
    let second = get_rayfan(&system, &conf, par(0.9, 0.9), 0, &angles, &log_space, true);
    for (a, b) in first.rays.iter().zip(second.rays.iter()) {
        assert_eq!(a.length, b.length);
        assert_eq!(a.segments, b.segments);
        let segments = a.segments.as_ref().unwrap();
        assert!(!segments.is_empty());
        assert!(a.length <= *segments.last().unwrap());
    }
}

#[test]
fn longest_jump_from_the_origin() {
    let mut system = system();
    // the ratio is 700 whatever the jump: jumps below 700 are certified
    system.line_fraction = Some(|_n, _w, _p, _angle, _th_min, _th_max| 700);
    let log_space: Vec<f64> = iter_num_tools::log_space(1e-3..=1e4, 20).collect();
    let jump =
        find_max_delta_theta(&system, (0, 0), (1_000_000_000, 0), 0, 1, 10_000, 10, &log_space);
    // the search has seen 700 refused and stops within two tolerances of it
    assert_eq!(jump, 698);
    let jump =
        find_max_delta_theta(&system, (0, 0), (1_000_000_000, 0), 0, 1, 500, 10, &log_space);
    assert_eq!(jump, 500);
}

#[test]
fn line_recipe_is_checked() {
    let hooks = system();
    let conf = configuration();
    let angles = fan(160);
    assert_eq!(check_line_configuration(&hooks, &conf, &angles), Ok(()));

    let mut bare = system();
    bare.line_fraction = None;
    assert_eq!(check_line_configuration(&bare, &conf, &angles), Err(ConfigError::MissingHook));

    let mut wrong = configuration();
    wrong.limits.p2_max = -1;
    assert_eq!(check_line_configuration(&hooks, &wrong, &angles), Err(ConfigError::InvalidLimits));

    let mut wrong = configuration();
    wrong.delta = Delta::Rel(2_000_000_000);
    assert_eq!(
        check_line_configuration(&hooks, &wrong, &angles),
        Err(ConfigError::InvalidTolerance)
    );
    wrong.delta = Delta::Abs(0);
    assert_eq!(
        check_line_configuration(&hooks, &wrong, &angles),
        Err(ConfigError::InvalidTolerance)
    );
    // a fraction of the domain that is below the resolution along some ray
    wrong.delta = Delta::Rel(0);
    assert_eq!(
        check_line_configuration(&hooks, &wrong, &angles),
        Err(ConfigError::InvalidTolerance)
    );

    let mut wrong = configuration();
    wrong.safeguard = 0;
    assert_eq!(
        check_line_configuration(&hooks, &wrong, &angles),
        Err(ConfigError::InvalidSafeguard)
    );

    assert_eq!(
        check_line_configuration(&hooks, &conf, &fan(159)),
        Err(ConfigError::InvalidDirections)
    );

    let mut wrong = configuration();
    wrong.origins[1] = par(0.5, -0.1);
    assert_eq!(
        check_line_configuration(&hooks, &wrong, &angles),
        Err(ConfigError::OriginOutsideLimits)
    );
}
