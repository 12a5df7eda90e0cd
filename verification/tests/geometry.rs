use fsals::types::{get_point_on_ray, scale, scale_signed, Limits, MAX_DISTANCE, UNIT_FACTOR};
use fsals::utils::geometry::is_point_in_limits;

#[test]
fn rectangle_is_closed() {
    let limits = Limits { p1_min: 0, p1_max: 10, p2_min: -5, p2_max: 5 };
    assert!(is_point_in_limits((0, -5), &limits));
    assert!(is_point_in_limits((10, 5), &limits));
    assert!(is_point_in_limits((3, 0), &limits));
    assert!(!is_point_in_limits((-1, 0), &limits));
    assert!(!is_point_in_limits((11, 0), &limits));
    assert!(!is_point_in_limits((3, -6), &limits));
    assert!(!is_point_in_limits((3, 6), &limits));
}

#[test]
fn scaling_rounds_down() {
    assert_eq!(scale(1000, 980_000_000), 980);
    assert_eq!(scale(1, 999_999_999), 0);
    assert_eq!(scale(7, UNIT_FACTOR), 7);
    assert_eq!(scale(u64::MAX, UNIT_FACTOR), u64::MAX);
    assert_eq!(scale(12345, 0), 0);
    assert_eq!(scale(10, 250_000_000), 2);
}

#[test]
fn signed_scaling_rounds_towards_zero() {
    assert_eq!(scale_signed(10, 250_000_000), 2);
    assert_eq!(scale_signed(10, -250_000_000), -2);
    assert_eq!(scale_signed(MAX_DISTANCE, -(UNIT_FACTOR as i64)), -(MAX_DISTANCE as i64));
}

#[test]
fn point_on_a_ray() {
    // 3-4-5 direction: cosine 0.6, sine 0.8
    assert_eq!(get_point_on_ray((100, 200), (600_000_000, 800_000_000), 50), (130, 240));
    assert_eq!(get_point_on_ray((100, 200), (-600_000_000, -800_000_000), 50), (70, 160));
    assert_eq!(get_point_on_ray((100, 200), (0, 1_000_000_000), 0), (100, 200));
}
