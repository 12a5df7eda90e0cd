use fsals::data::region::configurations::{Delta, RegionConfiguration};
use fsals::data::region::{
    absolutize_delta, check_obsolete, check_region_configuration, get_limiting_eps, get_pregion,
    get_region, get_region_parallel, spawn_valid_points, PRegion,
};
use fsals::ConfigError;
use fsals::nu::{calculate_nu_single, HALF_TURN, TURN};
use fsals::types::{Direction, Limits, Par, System, MAX_DISTANCE};
use num::complex::Complex64;
use std::collections::VecDeque;
use std::f64::consts::PI;

const UNITS: f64 = 1e9;

type LineHook = fn(&f64, f64, Par, Direction, u64, u64) -> u64;

fn to_units(x: f64) -> u64 {
    (x * UNITS).floor() as u64
}

fn to_float(x: i64) -> f64 {
    x as f64 / UNITS
}

fn par(p1: f64, p2: f64) -> Par {
    ((p1 * UNITS).round() as i64, (p2 * UNITS).round() as i64)
}

fn f_complex(s: Complex64, p: Par) -> Complex64 {
    let a = to_float(p.0);
    let b = to_float(p.1);
    s.powi(2) + a * s + (a.powi(2) + b - 1.0)
}

fn f_norm(w: f64, p: Par) -> f64 {
    f_complex(Complex64::new(0.0, w), p).norm()
}

fn denominator(w: f64, origin: Par, eps: u64) -> f64 {
    let a_max = to_float(origin.0) + eps as f64 / UNITS;
    let derivative_a = (w.powi(2) + 4.0 * a_max.powi(2)).sqrt();
    (derivative_a.powi(2) + 1.0).sqrt()
}

fn precalculated(numerator: &Vec<f64>, w_logspace: &[f64], origin: Par, eps: u64) -> Vec<u64> {
    numerator
        .iter()
        .zip(w_logspace.iter())
        .map(|(num, w)| to_units(num / denominator(*w, origin, eps)))
        .collect()
}

fn region_fraction(w_linspace: &Vec<f64>, origin: Par, eps: u64) -> Vec<u64> {
    w_linspace.iter().map(|w| to_units(f_norm(*w, origin) / denominator(*w, origin, eps))).collect()
}

fn linear_grid(a: f64, b: f64, n: usize) -> Vec<f64> {
    iter_num_tools::lin_space(a..=b, n).collect()
}

type Hooks = System<
    fn(f64, Par) -> f64,
    LineHook,
    fn(&Vec<f64>, &[f64], Par, u64) -> Vec<u64>,
    fn(&Vec<f64>, Par, u64) -> Vec<u64>,
    fn(f64, f64, usize) -> Vec<f64>,
>;

fn system() -> Hooks {
    System {
        name: String::from("test_system"),
        parameters: (String::from("a"), String::from("b")),
        f_norm,
        line_fraction: None,
        region_fraction_precalculated_numerator: Some(precalculated),
        region_fraction: Some(region_fraction),
        linear_grid,
    }
}

fn configuration(max_iter: Option<u32>) -> RegionConfiguration {
    RegionConfiguration {
        name: String::from("test_system"),
        limits: Limits { p1_min: 0, p1_max: 1_000_000_000, p2_min: 0, p2_max: 1_000_000_000 },
        origins: vec![par(0.1, 0.1)],
        delta: Delta::Abs(to_units(1e-3)),
        safeguard: 980_000_000,
        spawn_count: 32,
        enforce_limits: true,
        lin_steps: 200,
        max_iter,
        check_obsoletion: true,
        nu_modifier: 0,
    }
}

fn directions(count: usize) -> Vec<Direction> {
    iter_num_tools::lin_space(0.0..2.0 * PI, count)
        .map(|angle: f64| {
            ((angle.cos() * UNITS).round() as i64, (angle.sin() * UNITS).round() as i64)
        })
        .collect()
}

fn nu_at(p: Par) -> i32 {
    let steps = 1000;
    let freq: Vec<f64> = iter_num_tools::log_space(1e-3..=1e3, steps).collect();
    let half: Vec<f64> = iter_num_tools::lin_space(-PI / 2.0..=PI / 2.0, steps).collect();
    let mut contour: Vec<Complex64> = Vec::new();
    for w in freq.iter() {
        contour.push(Complex64::new(1e-3, *w));
    }
    for theta in half.iter().rev() {
        contour.push(Complex64::from_polar(1e3, *theta));
    }
    for w in freq.iter().rev() {
        contour.push(Complex64::new(1e-3, -*w));
    }
    let angles: Vec<i64> = contour
        .into_iter()
        .map(|s| {
            let units = (f_complex(s, p).arg() / (2.0 * PI) * TURN as f64).round() as i64;
            if units <= -HALF_TURN || units > HALF_TURN {
                HALF_TURN
            } else {
                units
            }
        })
        .collect();
    calculate_nu_single(&angles)
}

#[test]
fn point_inside_a_disk_shrunk_by_one_percent() {
    let disk = PRegion { origin: (0, 0), radius: 1000, depth: 1 };
    assert!(disk.is_point_inside((0, 0)));
    assert!(disk.is_point_inside((989, 0)));
    // the distance must be strictly below 990
    assert!(!disk.is_point_inside((990, 0)));
    assert!(!disk.is_point_inside((0, -990)));
    assert!(disk.is_point_inside((700, 699)));
    assert!(!disk.is_point_inside((700, 701)));
    assert!(!disk.is_point_inside((1000, 1000)));
    assert!(!disk.is_point_inside((i64::MAX, i64::MIN)));
    let point = PRegion { origin: (5, 5), radius: 0, depth: 1 };
    assert!(!point.is_point_inside((5, 5)));
    let wide = PRegion { origin: (0, 0), radius: MAX_DISTANCE, depth: 1 };
    assert!(wide.is_point_inside((MAX_DISTANCE as i64 / 2, MAX_DISTANCE as i64 / 2)));
    assert!(!wide.is_point_inside((MAX_DISTANCE as i64, 0)));
}

#[test]
fn limiting_eps_is_the_distance_to_the_nearest_side() {
    let limits = Limits { p1_min: 0, p1_max: 100, p2_min: 0, p2_max: 50 };
    assert_eq!(get_limiting_eps((10, 20), &limits), 10);
    assert_eq!(get_limiting_eps((50, 45), &limits), 5);
    assert_eq!(get_limiting_eps((95, 25), &limits), 5);
    assert_eq!(get_limiting_eps((0, 25), &limits), 0);
    // outside the rectangle the distance to the nearest side still counts
    assert_eq!(get_limiting_eps((-7, 25), &limits), 7);
}

#[test]
fn tolerance_as_a_distance() {
    let limits = Limits { p1_min: 0, p1_max: 2_600, p2_min: 0, p2_max: 3_300 };
    assert_eq!(absolutize_delta(&Delta::Abs(17), &limits), 17);
    // a hundredth of the shorter side
    assert_eq!(absolutize_delta(&Delta::Rel(10_000_000), &limits), 26);
    assert_eq!(absolutize_delta(&Delta::Rel(0), &limits), 0);
}

#[test]
fn edge_points_follow_the_directions() {
    let disk = PRegion { origin: (1000, 2000), radius: 100, depth: 3 };
    let unit = 1_000_000_000;
    let points = disk.spawn_edge_points(&[(unit, 0), (0, unit), (-unit, 0), (0, -unit)]);
    assert_eq!(points, vec![(1100, 2000), (1000, 2100), (900, 2000), (1000, 1900)]);
    assert_eq!(disk.spawn_edge_points(&[]), Vec::<Par>::new());
}

#[test]
fn seeds_are_outside_every_disk_and_inside_the_domain() {
    let mut conf = configuration(None);
    conf.limits = Limits { p1_min: 0, p1_max: 1150, p2_min: 0, p2_max: 5000 };
    let disk = PRegion { origin: (1000, 2000), radius: 100, depth: 1 };
    let other = PRegion { origin: (1000, 2150), radius: 100, depth: 1 };
    let unit = 1_000_000_000;
    let all = [(unit, 0), (0, unit), (-unit, 0), (0, -unit)];
    // (1000, 2100) lies in the other disk
    assert_eq!(
        spawn_valid_points(&disk, &conf, &vec![other], &all),
        vec![(1100, 2000), (900, 2000), (1000, 1900)]
    );
    // the disk's own edge is not inside the disk
    assert_eq!(
        spawn_valid_points(&disk, &conf, &vec![disk], &all),
        vec![(1100, 2000), (1000, 2100), (900, 2000), (1000, 1900)]
    );
    // (1100, 2000) leaves a narrower domain
    conf.limits.p1_max = 1050;
    assert_eq!(
        spawn_valid_points(&disk, &conf, &vec![], &all),
        vec![(1000, 2100), (900, 2000), (1000, 1900)]
    );
}

#[test]
fn obsolete_points() {
    let disks = vec![PRegion { origin: (0, 0), radius: 1000, depth: 2 }];
    // inside a shallower disk
    assert!(check_obsolete(&disks, (10, 10), 3, false));
    // inside a disk of the same depth: only where every disk counts
    assert!(!check_obsolete(&disks, (10, 10), 2, false));
    assert!(check_obsolete(&disks, (10, 10), 2, true));
    // outside
    assert!(!check_obsolete(&disks, (2000, 0), 3, true));
    assert!(!check_obsolete(&vec![], (0, 0), 1, true));
}

#[test]
fn obsolete_point_gets_no_disk() {
    let system = system();
    let conf = configuration(None);
    let log_space: Vec<f64> = iter_num_tools::log_space(1e-3..=1e4, 200).collect();
    let larger = PRegion { origin: par(0.5, 0.5), radius: to_units(0.3), depth: 1 };
    let mut pregions = vec![larger];
    let mut scope: VecDeque<(Par, u32)> = VecDeque::new();
    get_region_parallel(
        &mut scope,
        &system,
        &conf,
        par(0.6, 0.6),
        &mut pregions,
        to_units(1e-3),
        &log_space,
        &directions(32),
        2,
        None,
    );
    assert_eq!(pregions, vec![larger]);
    assert!(scope.is_empty());
}

#[test]
fn refused_at_the_tolerance_gives_a_disk_of_radius_zero() {
    let mut system = system();
    // a ratio of zero everywhere: no radius is certified
    system.region_fraction_precalculated_numerator =
        Some(|numerator: &Vec<f64>, _w: &[f64], _p: Par, _eps: u64| vec![0; numerator.len()]);
    system.region_fraction = Some(|grid: &Vec<f64>, _p: Par, _eps: u64| vec![0; grid.len()]);
    let conf = configuration(None);
    let log_space: Vec<f64> = iter_num_tools::log_space(1e-3..=1e4, 50).collect();
    let disk = get_pregion(&system, &conf, par(0.1, 0.1), true, to_units(1e-3), &log_space, 1);
    assert_eq!(disk, PRegion { origin: par(0.1, 0.1), radius: 0, depth: 1 });

    let region = get_region(&system, &conf, par(0.1, 0.1), 1, &log_space, &directions(32));
    assert_eq!(region.pregions, vec![PRegion { origin: par(0.1, 0.1), radius: 0, depth: 1 }]);
}

#[test]
fn region_around_the_origin() {
    let system = system();
    let conf = configuration(Some(2));
    let origin = par(0.1, 0.1);
    let log_space: Vec<f64> = iter_num_tools::log_space(1e-3..=1e4, 200).collect();
    let nu = nu_at(origin);
    let region = get_region(&system, &conf, origin, nu, &log_space, &directions(conf.spawn_count));

    assert_eq!(region.origin, origin);
    assert_eq!(region.nu, nu);
    assert!(region.pregions.len() >= 1);
    assert_eq!(region.pregions[0].origin, origin);
    assert_eq!(region.pregions[0].depth, 1);
    assert!(region.pregions[0].radius > 0);
    assert!(region.pregions.iter().filter(|preg| preg.depth == 1).count() == 1);
    assert!(region.pregions.iter().any(|preg| preg.depth == 2));
    assert!(region.pregions.iter().all(|preg| preg.depth <= 2));
    for preg in region.pregions.iter() {
        assert_eq!(nu_at(preg.origin), region.nu);
        assert!(preg.radius <= get_limiting_eps(preg.origin, &conf.limits));
    }
    // no disk was started inside an earlier one
    for (k, preg) in region.pregions.iter().enumerate() {
        assert!(!check_obsolete(&region.pregions[..k].to_vec(), preg.origin, preg.depth, true));
    }
}

#[test]
fn region_is_the_same_on_every_run() {
    let system = system();
    let mut conf = configuration(Some(2));
    conf.spawn_count = 8;
    let origin = par(0.1, 0.1);
    let log_space: Vec<f64> = iter_num_tools::log_space(1e-3..=1e4, 100).collect();
    let directions = directions(conf.spawn_count);
    let first = get_region(&system, &conf, origin, 1, &log_space, &directions);
    let second = get_region(&system, &conf, origin, 1, &log_space, &directions);
    assert_eq!(first.pregions, second.pregions);
    assert_eq!(first.nu, second.nu);
}

#[test]
fn region_carries_the_modified_nu() {
    let system = system();
    let mut conf = configuration(Some(1));
    conf.nu_modifier = 3;
    conf.spawn_count = 4;
    let log_space: Vec<f64> = iter_num_tools::log_space(1e-3..=1e4, 50).collect();
    let region = get_region(&system, &conf, par(0.1, 0.1), 1, &log_space, &directions(4));
    assert_eq!(region.nu, 4);
    // at the depth cap the first disk spawns nothing
    assert_eq!(region.pregions.len(), 1);
}

#[test]
fn region_recipe_is_checked() {
    let hooks = system();
    let conf = configuration(None);
    let all = directions(32);
    assert_eq!(check_region_configuration(&hooks, &conf, &all), Ok(()));

    let mut bare = system();
    bare.region_fraction = None;
    assert_eq!(check_region_configuration(&bare, &conf, &all), Err(ConfigError::MissingHook));

    let mut wrong = configuration(None);
    wrong.limits.p1_min = wrong.limits.p1_max + 1;
    assert_eq!(check_region_configuration(&hooks, &wrong, &all), Err(ConfigError::InvalidLimits));

    let mut wrong = configuration(None);
    wrong.delta = Delta::Abs(0);
    assert_eq!(
        check_region_configuration(&hooks, &wrong, &all),
        Err(ConfigError::InvalidTolerance)
    );
    wrong.delta = Delta::Rel(1_000_000_001);
    assert_eq!(
        check_region_configuration(&hooks, &wrong, &all),
        Err(ConfigError::InvalidTolerance)
    );

    let mut wrong = configuration(None);
    wrong.safeguard = 0;
    assert_eq!(
        check_region_configuration(&hooks, &wrong, &all),
        Err(ConfigError::InvalidSafeguard)
    );
    wrong.safeguard = 1_000_000_001;
    assert_eq!(
        check_region_configuration(&hooks, &wrong, &all),
        Err(ConfigError::InvalidSafeguard)
    );

    assert_eq!(
        check_region_configuration(&hooks, &conf, &directions(31)),
        Err(ConfigError::InvalidDirections)
    );
    let mut long = directions(32);
    long[5] = (1_000_000_001, 0);
    assert_eq!(
        check_region_configuration(&hooks, &conf, &long),
        Err(ConfigError::InvalidDirections)
    );

    let mut wrong = configuration(None);
    wrong.origins.push(par(1.5, 0.5));
    assert_eq!(
        check_region_configuration(&hooks, &wrong, &all),
        Err(ConfigError::OriginOutsideLimits)
    );
}
