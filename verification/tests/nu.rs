use fsals::nu::{calculate_nu_single, ContourConfiguration, NuConfiguration, HALF_TURN, TURN};
use fsals::types::Limits;
use num::complex::Complex64;
use std::f64::consts::PI;

const SAFETY_OFFSET: f64 = 1e-3;

fn to_turn_units(angle: f64) -> i64 {
    let units = (angle / (2.0 * PI) * TURN as f64).round() as i64;
    if units <= -HALF_TURN {
        HALF_TURN
    } else if units > HALF_TURN {
        HALF_TURN
    } else {
        units
    }
}

fn bromwich_contour(w_min: f64, w_max: f64, steps: usize) -> Vec<Complex64> {
    let freq: Vec<f64> = iter_num_tools::log_space(w_min..=w_max, steps).collect();
    let angles: Vec<f64> = iter_num_tools::lin_space(-PI / 2.0..=PI / 2.0, steps).collect();
    let mut contour: Vec<Complex64> = Vec::new();
    for w in freq.iter() {
        contour.push(Complex64::new(SAFETY_OFFSET, *w));
    }
    for theta in angles.iter().rev() {
        contour.push(Complex64::from_polar(w_max, *theta));
    }
    for w in freq.iter().rev() {
        contour.push(Complex64::new(SAFETY_OFFSET, -*w));
    }
    contour
}

fn retarded(s: Complex64, p: (f64, f64)) -> Complex64 {
    s.powi(2) + 2.0 * s * (-s * p.0).exp() + (-s * p.1).exp()
}

fn nu_of(f: fn(Complex64, (f64, f64)) -> Complex64, p: (f64, f64)) -> i32 {
    let angles: Vec<i64> = bromwich_contour(1e-3, 1e5, 10_000)
        .into_iter()
        .map(|s| to_turn_units(f(s, p).arg()))
        .collect();
    calculate_nu_single(&angles)
}

#[test]
fn nu_of_a_stable_point_is_zero() {
    assert_eq!(nu_of(retarded, (0.01, 0.01)), 0);
}

#[test]
fn nu_of_an_unstable_point_is_positive() {
    let nu = nu_of(retarded, (1.75, 1.20));
    assert!(nu >= 1);
    assert_eq!(nu, 2);
}

#[test]
fn nu_is_the_same_on_every_run() {
    assert_eq!(nu_of(retarded, (1.75, 1.20)), nu_of(retarded, (1.75, 1.20)));
}

#[test]
fn nu_of_a_single_point_is_zero() {
    assert_eq!(calculate_nu_single(&[0]), 0);
    assert_eq!(calculate_nu_single(&[HALF_TURN]), 0);
}

#[test]
fn nu_counts_clockwise_turns() {
    // four quarter turns backwards: one full clockwise turn
    let quarter = TURN / 4;
    assert_eq!(calculate_nu_single(&[0, -quarter, HALF_TURN, quarter, 0]), 1);
    // and forwards: one turn the other way
    assert_eq!(calculate_nu_single(&[0, quarter, HALF_TURN, -quarter, 0]), -1);
    // two turns
    assert_eq!(
        calculate_nu_single(&[0, -quarter, HALF_TURN, quarter, 0, -quarter, HALF_TURN, quarter, 0]),
        2
    );
}

#[test]
fn nu_unwraps_each_step_by_its_length() {
    // a step shorter than a half turn counts as it is: 0.4 turns forwards, rounded to 0
    assert_eq!(calculate_nu_single(&[0, 400_000_000]), 0);
    // 0.6 turns of steps forwards round to one turn, counted backwards
    assert_eq!(calculate_nu_single(&[0, 300_000_000, -400_000_000]), -1);
    // a step of exactly a half turn forwards is taken the other way round
    assert_eq!(calculate_nu_single(&[0, HALF_TURN]), 1);
    // a step of exactly a half turn backwards is taken forwards
    assert_eq!(calculate_nu_single(&[HALF_TURN, 0]), -1);
    // a step of more than a half turn backwards is a short step forwards
    assert_eq!(calculate_nu_single(&[400_000_000, -400_000_000]), 0);
    // half a turn in two steps rounds away from zero
    assert_eq!(calculate_nu_single(&[0, -250_000_000, HALF_TURN]), 1);
    assert_eq!(calculate_nu_single(&[0, 250_000_000, HALF_TURN]), -1);
    // just under half a turn rounds to zero
    assert_eq!(calculate_nu_single(&[0, -250_000_000, -499_999_999]), 0);
}

#[test]
fn contour_validity() {
    assert!(ContourConfiguration { w_min: 1, w_max: 100, steps: 3 }.is_valid());
    assert!(!ContourConfiguration { w_min: 0, w_max: 100, steps: 3 }.is_valid());
    assert!(!ContourConfiguration { w_min: 100, w_max: 100, steps: 3 }.is_valid());
    assert!(!ContourConfiguration { w_min: 1, w_max: 100, steps: 2 }.is_valid());
}

#[test]
fn nu_recipe_validity() {
    let mut conf = NuConfiguration {
        name: String::from("retarded1"),
        limits: Limits { p1_min: 0, p1_max: 2_600, p2_min: 0, p2_max: 3_300 },
        grid_step: 40,
        contour_conf: ContourConfiguration { w_min: 1, w_max: 100_000, steps: 10_000 },
    };
    assert!(conf.is_valid());
    conf.contour_conf.steps = 1;
    assert!(!conf.is_valid());
    conf.contour_conf.steps = 3;
    conf.limits.p2_min = 3_301;
    assert!(!conf.is_valid());
}
