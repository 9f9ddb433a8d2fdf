use odometry::{Odometry, Pose, Velocity};

#[test]
fn straight_line_limit() {
    // zero rotation gives a pure translation of the full magnitude
    let forward = Velocity { v: 1_500_000, w: 0 }.to_odometry();
    assert_eq!(forward.s, 1_500_000);
    assert_eq!(forward.a, 0);
    assert_eq!(forward.pose, Pose { x: 1_500_000, y: 0, theta: 0 });

    let backward = Velocity { v: -2_750_000, w: 0 }.to_odometry();
    assert_eq!(backward.s, 2_750_000);
    assert_eq!(backward.a, 0);
    assert_eq!(backward.pose, Pose { x: -2_750_000, y: 0, theta: 0 });
}

#[test]
fn zero_velocity_is_identity_adjacent() {
    let rest = Velocity { v: 0, w: 0 }.to_odometry();
    assert_eq!(rest, Odometry::zero());

    let rest_scaled = Velocity { v: 5_000_000, w: 3_000_000 }.integrate_over(0);
    assert_eq!(rest_scaled, Odometry::zero());
}

#[test]
fn pure_rotation_stays_in_place() {
    let spin = Velocity { v: 0, w: 785_398 }.to_odometry();
    assert_eq!(spin.s, 0);
    assert_eq!(spin.a, 785_398);
    assert_eq!(spin.pose.x, 0);
    assert_eq!(spin.pose.y, 0);
    assert_eq!(spin.pose.theta, 785_398);
}

#[test]
fn quarter_circle_arc() {
    // quarter of a circle of radius 2 m: arc length pi m, rotation pi/2
    let vel = Velocity { v: 3_141_593, w: 1_570_796 };
    let inc = vel.to_odometry();
    assert_eq!(inc.s, 3_141_593);
    assert_eq!(inc.a, 1_570_796);
    assert_eq!(inc.pose.theta, 1_570_796);
    // the chord ends at (r sin t, r (1 - cos t)) = (2, 2) meters
    assert!((inc.pose.x - 2_000_000).abs() <= 4_000, "x: {}", inc.pose.x);
    assert!((inc.pose.y - 2_000_000).abs() <= 4_000, "y: {}", inc.pose.y);
}

#[test]
fn rotation_wraps_into_half_turn_interval() {
    // three quarter turns of rotation in one step wrap to minus a quarter
    let vel = Velocity { v: 1_000_000, w: 4_712_389 };
    let inc = vel.to_odometry();
    assert_eq!(inc.a, 4_712_389);
    assert_eq!(inc.pose.theta, 4_712_389 - 6_283_186);

    // a full turn of rotation leaves the heading unchanged
    let full = Velocity { v: 1_000_000, w: 6_283_186 }.to_odometry();
    assert_eq!(full.pose.theta, 0);
}

#[test]
fn scaling_paths_agree_when_exact() {
    // scale by one half, integrate over two seconds; against one second plain
    let vel = Velocity { v: 2_000_000, w: 1_000_000 };
    let k: i64 = 500_000;
    let t: i64 = 2_000_000;
    let scaled_first = vel.scale(k).integrate_over(t);
    let combined = vel.integrate_over(k * t / 1_000_000);
    assert_eq!(scaled_first, combined);
}

#[test]
fn scaling_paths_agree_within_tolerance_otherwise() {
    // inexact scalings may differ by truncation, but only on the micro scale
    let vel = Velocity { v: 3_333_333, w: 777_777 };
    let k: i64 = 333_333;
    let t: i64 = 1_500_000;
    let scaled_first = vel.scale(k).integrate_over(t);
    let combined = vel.integrate_over(k * t / 1_000_000);
    assert!((scaled_first.s - combined.s).abs() <= 3);
    assert!((scaled_first.a - combined.a).abs() <= 3);
    assert!((scaled_first.pose.x - combined.pose.x).abs() <= 6);
    assert!((scaled_first.pose.y - combined.pose.y).abs() <= 6);
    assert!((scaled_first.pose.theta - combined.pose.theta).abs() <= 3);
}

#[test]
fn scale_truncates_toward_zero() {
    let vel = Velocity { v: 999_999, w: -999_999 };
    let half = vel.scale(500_000);
    assert_eq!(half, Velocity { v: 499_999, w: -499_999 });
}
