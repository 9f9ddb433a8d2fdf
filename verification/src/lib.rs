//! Planar dead-reckoning core for wheeled robots, in fixed-point arithmetic.
//!
//! All quantities are held in micro-units: lengths in micrometers, angles in
//! microradians, durations and scale factors in millionths.  `Velocity` is an
//! instantaneous rigid-body velocity, `Odometry` an accumulated pose with
//! distance and rotation odometers, and the closed-form arc integration in
//! between turns one into the other.

use vstd::prelude::*;

pub mod math;
pub mod odometry;
pub mod predict;
pub mod text;

use vstd::math::abs;

use crate::math::{
    cos_s, lemma_tdiv_product_bound, lemma_trig_bounds, lemma_trig_small, lemma_wrap_small,
    mul_div, sin_cos, sin_s, tdiv, wrap, wrap_angle, SCALE,
};
pub use crate::odometry::{Odometry, Pose};
pub use crate::predict::{StatusPredictor, TrajectoryPredictor};

verus! {

/// Largest pre-scaled displacement (micrometers) or rotation (microradians)
/// that a single increment may carry into the arc integration.
pub const MAX_STEP: i64 = 4_000_000_000_000;

/// Largest product of a velocity component with a scale factor, chosen so
/// that the scaled component stays within `MAX_STEP`:
/// `MAX_PRODUCT == MAX_STEP * SCALE`.
pub const MAX_PRODUCT: i64 = 4_000_000_000_000_000_000;

/// A planar rigid-body velocity: the motion of the chassis rotation center
/// relative to the ground.
#[derive(Clone, Copy, Debug, PartialEq, Eq, Structural)]
pub struct Velocity {
    /// Linear speed of the rotation center, micrometers per second.
    pub v: i64,
    /// Angular speed of the rotation center, microradians per second.
    pub w: i64,
}

/// A drivetrain abstraction: anything that can turn its own state
/// representation into the common `Velocity` representation.
pub trait ChassisModel: Sized {
    /// The chassis-specific state or measurement representation.
    type State;

    /// The velocity a state stands for, as a mathematical value.
    spec fn velocity_of(&self, s: Self::State) -> Velocity;

    /// Estimate the rotation-center velocity implied by a state.
    fn volocity_from(&self, s: &Self::State) -> (vel: Velocity)
        ensures
            vel == self.velocity_of(*s),
            vel.bounded(),
    ;
}

impl Velocity {
    /// Both components stay small enough to be scaled by a duration of up to
    /// `SCALE` millionths without leaving `MAX_PRODUCT`.
    pub open spec fn bounded(self) -> bool {
        &&& -MAX_STEP <= self.v <= MAX_STEP
        &&& -MAX_STEP <= self.w <= MAX_STEP
    }

    /// The mathematical value of `scale`: both components multiplied by
    /// `k / SCALE`, truncated toward zero.
    pub open spec fn spec_scale(self, k: int) -> Velocity {
        Velocity { v: tdiv(self.v * k, SCALE as int) as i64, w: tdiv(self.w * k, SCALE as int) as i64 }
    }

    /// Scale both components by the factor `k` millionths, truncating toward
    /// zero; this turns "velocity" into "velocity sustained over a fraction
    /// `k / SCALE` of a second", and back.
    pub fn scale(&self, k: i64) -> (r: Velocity)
        requires
            -MAX_PRODUCT <= self.v * k <= MAX_PRODUCT,
            -MAX_PRODUCT <= self.w * k <= MAX_PRODUCT,
        ensures
            r == self.spec_scale(k as int),
            r.bounded(),
    {
        proof {
            lemma_tdiv_bound_by_product(self.v as int, k as int);
            lemma_tdiv_bound_by_product(self.w as int, k as int);
        }
        Velocity { v: crate::math::mul_div(self.v, k, SCALE), w: crate::math::mul_div(self.w, k, SCALE) }
    }
}

/// The increment produced by holding a pre-scaled velocity over one period:
/// the odometers take the unsigned magnitudes, and the pose is the closed-form
/// constant-curvature arc (or, for zero rotation, the straight-line limit).
pub open spec fn spec_to_odometry(vel: Velocity) -> Odometry {
    let s = vel.v as int;
    let theta = vel.w as int;
    Odometry {
        s: abs(s) as i64,
        a: abs(theta) as i64,
        pose: if theta == 0 {
            Pose { x: vel.v, y: 0, theta: 0 }
        } else {
            let tw = wrap(theta);
            Pose {
                x: tdiv(s * sin_s(tw), theta) as i64,
                y: tdiv(s * (SCALE - cos_s(tw)), theta) as i64,
                theta: tw as i64,
            }
        },
    }
}

impl Velocity {
    /// Integrate this velocity, already pre-scaled to one period, into the
    /// odometry increment it produces: `v` is the signed arc length and `w`
    /// the signed rotation of the period.  An arc of radius `v / w` is
    /// traversed; when `w` is zero the motion is the pure translation that
    /// is the arc's limit.
    pub fn to_odometry(&self) -> (r: Odometry)
        requires
            self.bounded(),
        ensures
            r == spec_to_odometry(*self),
            r.wf(),
            r.s as int == abs(self.v as int),
            r.a as int == abs(self.w as int),
            self.w == 0 ==> r.pose == (Pose { x: self.v, y: 0, theta: 0 }) && r.a == 0,
            -2 * abs(self.v as int) <= r.pose.x as int <= 2 * abs(self.v as int),
            -2 * abs(self.v as int) <= r.pose.y as int <= 2 * abs(self.v as int),
    {
        let s: i64 = self.v;
        let theta: i64 = self.w;
        let smag: i64 = if s < 0 {
            -s
        } else {
            s
        };
        if theta == 0 {
            Odometry { s: smag, a: 0, pose: Pose { x: s, y: 0, theta: 0 } }
        } else {
            let amag: i64 = if theta < 0 {
                -theta
            } else {
                theta
            };
            let tw: i64 = wrap_angle(theta);
            let (sv, cv): (i64, i64) = sin_cos(tw);
            proof {
                if -SCALE < theta < SCALE {
                    lemma_wrap_small(theta as int);
                    lemma_trig_small(abs(theta as int) as int);
                } else {
                    lemma_trig_bounds(tw as int);
                }
                lemma_tdiv_product_bound(s as int, sv as int, theta as int, 2);
                lemma_tdiv_product_bound(s as int, SCALE - cv, theta as int, 2);
            }
            let dx: i64 = mul_div(s, sv, theta);
            let dy: i64 = mul_div(s, SCALE - cv, theta);
            Odometry { s: smag, a: amag, pose: Pose { x: dx, y: dy, theta: tw } }
        }
    }

    /// Integrate this velocity held constant over a duration of `t`
    /// millionths of a second: scale, then integrate the scaled period.
    pub fn integrate_over(&self, t: i64) -> (r: Odometry)
        requires
            0 <= t,
            -MAX_PRODUCT <= self.v * t <= MAX_PRODUCT,
            -MAX_PRODUCT <= self.w * t <= MAX_PRODUCT,
        ensures
            r == spec_to_odometry(self.spec_scale(t as int)),
            r.wf(),
    {
        let scaled = self.scale(t);
        scaled.to_odometry()
    }
}

/// Scaling a velocity by `k` millionths and integrating it over `t`
/// millionths of a second reaches the same increment as integrating the
/// unscaled velocity over the combined duration `k * t / SCALE`, whenever
/// the scalings are exact, so that truncation loses nothing on either path.
pub proof fn lemma_scale_integrate_commute(vel: Velocity, k: int, t: int)
    requires
        0 <= k,
        0 <= t,
        (vel.v * k) % (SCALE as int) == 0,
        (vel.w * k) % (SCALE as int) == 0,
        (k * t) % (SCALE as int) == 0,
        -MAX_PRODUCT <= vel.v * k <= MAX_PRODUCT,
        -MAX_PRODUCT <= vel.w * k <= MAX_PRODUCT,
        -MAX_PRODUCT <= tdiv(vel.v * k, SCALE as int) * t <= MAX_PRODUCT,
        -MAX_PRODUCT <= tdiv(vel.w * k, SCALE as int) * t <= MAX_PRODUCT,
    ensures
        vel.spec_scale(k).spec_scale(t) == vel.spec_scale(tdiv(k * t, SCALE as int)),
        spec_to_odometry(vel.spec_scale(k).spec_scale(t)) == spec_to_odometry(
            vel.spec_scale(tdiv(k * t, SCALE as int)),
        ),
{
    let s = SCALE as int;
    lemma_scale_component_commute(vel.v as int, k, t);
    lemma_scale_component_commute(vel.w as int, k, t);
    assert(MAX_STEP * SCALE == MAX_PRODUCT);
    lemma_tdiv_bound_by_product(vel.v as int, k);
    lemma_tdiv_bound_by_product(vel.w as int, k);
    crate::math::lemma_tdiv_magnitude(tdiv(vel.v * k, s) * t, s, MAX_STEP as int);
    crate::math::lemma_tdiv_magnitude(tdiv(vel.w * k, s) * t, s, MAX_STEP as int);
}

/// One component of the scaling law: with exact scalings the two orders of
/// truncating division agree.
proof fn lemma_scale_component_commute(v: int, k: int, t: int)
    requires
        (v * k) % (SCALE as int) == 0,
        (k * t) % (SCALE as int) == 0,
    ensures
        tdiv(tdiv(v * k, SCALE as int) * t, SCALE as int) == tdiv(
            v * tdiv(k * t, SCALE as int),
            SCALE as int,
        ),
{
    let s = SCALE as int;
    let va = tdiv(v * k, s);
    let vb = tdiv(k * t, s);
    crate::math::lemma_tdiv_exact(v * k, s);
    crate::math::lemma_tdiv_exact(k * t, s);
    assert(va * t * s == v * vb * s) by (nonlinear_arith)
        requires
            va * s == v * k,
            vb * s == k * t,
    ;
    assert(va * t == v * vb) by (nonlinear_arith)
        requires
            va * t * s == v * vb * s,
            s == 1_000_000,
    ;
}

/// A component scaled down by `SCALE` keeps within `MAX_STEP` whenever the
/// raw product keeps within `MAX_PRODUCT`.
proof fn lemma_tdiv_bound_by_product(a: int, k: int)
    requires
        -MAX_PRODUCT <= a * k <= MAX_PRODUCT,
    ensures
        -MAX_STEP <= tdiv(a * k, SCALE as int) <= MAX_STEP,
{
    assert(MAX_STEP * SCALE == MAX_PRODUCT);
    crate::math::lemma_tdiv_magnitude(a * k, SCALE as int, MAX_STEP as int);
}

} // verus!
