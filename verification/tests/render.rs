use odometry::{Odometry, Pose};

#[test]
fn render_zero() {
    let text = Odometry::zero().render();
    assert_eq!(
        text,
        "Odometry: { s: 0.000, a: 0.0\u{00b0}, x: 0.000, y: 0.000, theta: 0.0\u{00b0} }"
    );
}

#[test]
fn render_mixed_values() {
    let d = Odometry {
        s: 1_234_567,                 // 1.234567 m
        a: 3_141_593,                 // pi, that is 180 degrees
        pose: Pose {
            x: 42_000_500,            // 42.0005 m
            y: -1_500,                // -0.0015 m
            theta: 3_141_593,         // half turn, the top of the wrap interval
        },
    };
    let text = d.render();
    assert_eq!(
        text,
        "Odometry: { s: 1.234, a: 180.0\u{00b0}, x: 42.000, y: -0.001, theta: 180.0\u{00b0} }"
    );
}

#[test]
fn render_truncates_toward_zero() {
    let d = Odometry {
        s: 999,                       // below one thousandth of a meter
        a: 0,
        pose: Pose { x: -999, y: 1_001, theta: 0 },
    };
    let text = d.render();
    assert_eq!(
        text,
        "Odometry: { s: 0.000, a: 0.0\u{00b0}, x: 0.000, y: 0.001, theta: 0.0\u{00b0} }"
    );
}

#[test]
fn render_negative_heading() {
    let d = Odometry {
        s: 0,
        a: 1_570_796,
        pose: Pose { x: 0, y: 0, theta: -1_570_796 },
    };
    let text = d.render();
    // a quarter turn in micro-units truncates just below ninety degrees
    assert_eq!(
        text,
        "Odometry: { s: 0.000, a: 89.9\u{00b0}, x: 0.000, y: 0.000, theta: -89.9\u{00b0} }"
    );
}
