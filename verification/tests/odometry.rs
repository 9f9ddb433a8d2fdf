use odometry::{Odometry, Pose, Velocity};

/// Mirrors the loose closeness check of the rendering test: any one of the
/// three pose fields close enough counts, in micro-units.
fn pose_equal(a: Pose, b: Pose, eps: i64) -> bool {
    (a.x - b.x).abs() <= eps || (a.y - b.y).abs() <= eps || (a.theta - b.theta).abs() <= eps
}

#[test]
fn odometry_test() {
    // the origin must render exactly as the canonical zero line
    let d = Odometry::zero();
    assert_eq!(
        d.render(),
        "Odometry: { s: 0.000, a: 0.0\u{00b0}, x: 0.000, y: 0.000, theta: 0.0\u{00b0} }"
    );

    // driving a full circle of radius 100 m in 10 steps returns to the start
    let radius: i64 = 100;
    let circumference: i64 = 2 * 3_141_593 * radius; // micrometers
    let step_num: i64 = 10;
    let delta_vel = Velocity { v: circumference / step_num, w: 2 * 3_141_593 / step_num };
    let dd = delta_vel.integrate_over(1_000_000); // one second per step

    let mut d = Odometry::zero();
    for _ in 0..10 {
        d.compose_assign(&dd);
    }
    assert!(
        pose_equal(d.pose, Odometry::zero().pose, 16),
        "{:?} != {:?}",
        d.pose,
        Odometry::zero().pose
    );
}

#[test]
fn closed_loop_arc_position() {
    // the same closed loop, with the drift of every field bounded
    let delta_vel = Velocity { v: 62_831_860, w: 628_319 };
    let dd = delta_vel.to_odometry();
    let mut d = Odometry::zero();
    for _ in 0..10 {
        d = d.compose(&dd);
    }
    assert_eq!(d.s, 628_318_600);
    assert_eq!(d.a, 6_283_190);
    // heading accumulation is exact up to whole turns: ten steps of 628319
    // microradians come to 4 more than one full turn
    assert_eq!(d.pose.theta, 4);
    assert!(d.pose.x.abs() <= 500_000, "x drift {}", d.pose.x);
    assert!(d.pose.y.abs() <= 500_000, "y drift {}", d.pose.y);
}

#[test]
fn monotonic_accumulators() {
    let increments = [
        Velocity { v: 1_000_000, w: 500_000 },
        Velocity { v: -2_000_000, w: -250_000 },
        Velocity { v: 3_000_000, w: 1_000_000 },
        Velocity { v: -500_000, w: -3_000_000 },
    ];
    let mut d = Odometry::zero();
    for vel in increments {
        let before_s = d.s;
        let before_a = d.a;
        d.compose_assign(&vel.to_odometry());
        assert!(d.s > before_s);
        assert!(d.a > before_a);
    }
    assert_eq!(d.s, 6_500_000);
    assert_eq!(d.a, 4_750_000);
}

#[test]
fn composition_associativity() {
    let a = Velocity { v: 1_500_000, w: 700_000 }.to_odometry();
    let b = Velocity { v: -800_000, w: -300_000 }.to_odometry();
    let c = Velocity { v: 2_200_000, w: 1_100_000 }.to_odometry();

    let left = a.compose(&b).compose(&c);
    let right = a.compose(&b.compose(&c));

    assert_eq!(left.s, right.s);
    assert_eq!(left.a, right.a);
    assert_eq!(left.pose.theta, right.pose.theta);
    assert!((left.pose.x - right.pose.x).abs() <= 5, "x: {} vs {}", left.pose.x, right.pose.x);
    assert!((left.pose.y - right.pose.y).abs() <= 5, "y: {} vs {}", left.pose.y, right.pose.y);
}

#[test]
fn composition_associativity_exact_from_aligned_start() {
    // while the running pose is still aligned with the origin frame, the
    // two groupings agree in every field, truncation included
    let a = Velocity { v: 4_000_000, w: 0 }.to_odometry();
    let b = Velocity { v: -800_000, w: -300_000 }.to_odometry();
    let c = Velocity { v: 2_200_000, w: 1_100_000 }.to_odometry();
    assert_eq!(a.compose(&b).compose(&c), a.compose(&b.compose(&c)));
}

#[test]
fn composition_non_commutativity() {
    let a = Velocity { v: 1_000_000, w: 200_000 }.to_odometry();
    let b = Velocity { v: 2_000_000, w: 900_000 }.to_odometry();
    let c = Velocity { v: 3_000_000, w: -400_000 }.to_odometry();

    let bc = a.compose(&b).compose(&c);
    let cb = a.compose(&c).compose(&b);

    // the odometers and the heading agree, the position does not
    assert_eq!(bc.s, cb.s);
    assert_eq!(bc.a, cb.a);
    assert_eq!(bc.pose.theta, cb.pose.theta);
    assert!(
        (bc.pose.x - cb.pose.x).abs() > 100 || (bc.pose.y - cb.pose.y).abs() > 100,
        "{:?} == {:?}",
        bc.pose,
        cb.pose
    );
}

#[test]
fn compose_matches_spec_shape() {
    // composing pure translations is coordinate addition
    let a = Odometry { s: 5_000, a: 0, pose: Pose { x: 5_000, y: 0, theta: 0 } };
    let b = Odometry { s: 7_000, a: 0, pose: Pose { x: 7_000, y: 0, theta: 0 } };
    let c = a.compose(&b);
    assert_eq!(c.s, 12_000);
    assert_eq!(c.a, 0);
    assert_eq!(c.pose, Pose { x: 12_000, y: 0, theta: 0 });

    // two half turns wrap back to a zero heading
    let half = Odometry { s: 0, a: 3_141_593, pose: Pose { x: 0, y: 0, theta: 3_141_593 } };
    let full = half.compose(&half);
    assert_eq!(full.pose.theta, 0);
    assert_eq!(full.a, 6_283_186);

    // a quarter turn carries the next translation onto the left axis
    let quarter = Odometry { s: 0, a: 1_570_796, pose: Pose { x: 0, y: 0, theta: 1_570_796 } };
    let ahead = Odometry { s: 1_000_000, a: 0, pose: Pose { x: 1_000_000, y: 0, theta: 0 } };
    let moved = quarter.compose(&ahead);
    assert!(moved.pose.x.abs() <= 5, "x: {}", moved.pose.x);
    assert!((moved.pose.y - 1_000_000).abs() <= 5, "y: {}", moved.pose.y);
}

#[test]
fn in_place_and_value_forms_agree() {
    let a = Velocity { v: 2_500_000, w: 600_000 }.to_odometry();
    let b = Velocity { v: -1_000_000, w: 250_000 }.to_odometry();
    let by_value = a.compose(&b);
    let mut in_place = a;
    in_place.compose_assign(&b);
    assert_eq!(by_value, in_place);
}
