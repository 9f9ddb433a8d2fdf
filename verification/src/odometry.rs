//! The accumulated pose estimate: an SE(2) transform together with total
//! distance and total rotation odometers, and the composition law that folds
//! one increment after another into a running total.

use vstd::prelude::*;
use vstd::arithmetic::div_mod::*;

use crate::math::{
    cos_s, lemma_tdiv_exact, lemma_tdiv_product_bound, lemma_trig_zero, mul_div, sin_cos, sin_s,
    tdiv, PI_MICRO, SCALE, TWO_PI_MICRO,
};

verus! {

/// Largest coordinate magnitude (micrometers) that the composition operator
/// accepts on either side; keeps every intermediate sum inside 64 bits.
pub const MAX_COORD: i64 = 3_000_000_000_000_000_000;

/// A planar rigid transform: a translation in micrometers and a heading in
/// microradians, kept wrapped into `(-PI_MICRO, PI_MICRO]`.
#[derive(Clone, Copy, Debug, PartialEq, Eq, Structural)]
pub struct Pose {
    /// Position along the origin frame's forward axis, micrometers.
    pub x: i64,
    /// Position along the origin frame's left axis, micrometers.
    pub y: i64,
    /// Heading relative to the origin frame, microradians, in `(-PI_MICRO, PI_MICRO]`.
    pub theta: i64,
}

impl Pose {
    /// The heading stays inside the wrap interval.
    pub open spec fn wf(self) -> bool {
        -PI_MICRO < self.theta <= PI_MICRO
    }

    /// The identity transform.
    pub open spec fn spec_identity() -> Pose {
        Pose { x: 0, y: 0, theta: 0 }
    }
}

/// An accumulated odometry estimate: total path length, total unsigned
/// rotation, and the current pose relative to the integration origin.
#[derive(Clone, Copy, Debug, PartialEq, Eq, Structural)]
pub struct Odometry {
    /// Total path length traveled, micrometers; never decreases.
    pub s: i64,
    /// Total unsigned rotation traveled, microradians; never decreases.
    pub a: i64,
    /// Current position and heading relative to the integration origin.
    pub pose: Pose,
}

/// The sum of two wrapped headings, brought back into `(-PI_MICRO, PI_MICRO]`
/// by at most one full-turn correction.
pub open spec fn norm_sum(a: int, b: int) -> int {
    if a + b > PI_MICRO {
        a + b - TWO_PI_MICRO
    } else if a + b <= -PI_MICRO {
        a + b + TWO_PI_MICRO
    } else {
        a + b
    }
}

/// The pose reached by starting at `p` and traveling the relative motion `q`:
/// `q`'s translation is rotated into `p`'s frame and the headings add.
pub open spec fn spec_compose_pose(p: Pose, q: Pose) -> Pose {
    let sv = sin_s(p.theta as int);
    let cv = cos_s(p.theta as int);
    let s = SCALE as int;
    Pose {
        x: (p.x + tdiv(q.x * cv, s) - tdiv(q.y * sv, s)) as i64,
        y: (p.y + tdiv(q.x * sv, s) + tdiv(q.y * cv, s)) as i64,
        theta: norm_sum(p.theta as int, q.theta as int) as i64,
    }
}

/// The odometry reached by starting at `a` and traveling the increment `b`:
/// the odometers add and the poses compose.
pub open spec fn spec_compose(a: Odometry, b: Odometry) -> Odometry {
    Odometry {
        s: (a.s + b.s) as i64,
        a: (a.a + b.a) as i64,
        pose: spec_compose_pose(a.pose, b.pose),
    }
}

/// The machine-size conditions under which composition cannot overflow.
pub open spec fn compose_fits(a: Odometry, b: Odometry) -> bool {
    &&& a.s + b.s <= 0x7fff_ffff_ffff_ffff
    &&& a.a + b.a <= 0x7fff_ffff_ffff_ffff
    &&& -MAX_COORD <= a.pose.x <= MAX_COORD
    &&& -MAX_COORD <= a.pose.y <= MAX_COORD
    &&& -MAX_COORD <= b.pose.x <= MAX_COORD
    &&& -MAX_COORD <= b.pose.y <= MAX_COORD
}

impl Odometry {
    /// Both odometers are non-negative and the pose is well formed.
    pub open spec fn wf(self) -> bool {
        &&& 0 <= self.s
        &&& 0 <= self.a
        &&& self.pose.wf()
    }

    /// The zero odometry as a mathematical value.
    pub open spec fn spec_zero() -> Odometry {
        Odometry { s: 0, a: 0, pose: Pose::spec_identity() }
    }

    /// The canonical start value: identity pose, nothing traveled yet.
    pub fn zero() -> (r: Odometry)
        ensures
            r == Odometry::spec_zero(),
            r.wf(),
    {
        Odometry { s: 0, a: 0, pose: Pose { x: 0, y: 0, theta: 0 } }
    }

    /// Compose with an increment: starting from `self`, travel the relative
    /// motion `rhs`.  The odometers add, never decreasing, and the poses
    /// compose by rigid-transform multiplication.
    pub fn compose(&self, rhs: &Odometry) -> (r: Odometry)
        requires
            self.wf(),
            rhs.wf(),
            compose_fits(*self, *rhs),
        ensures
            r == spec_compose(*self, *rhs),
            r.wf(),
            r.s == self.s + rhs.s,
            r.a == self.a + rhs.a,
            r.s >= self.s,
            r.a >= self.a,
            rhs.s > 0 ==> r.s > self.s,
            rhs.a > 0 ==> r.a > self.a,
    {
        let (sv, cv): (i64, i64) = sin_cos(self.pose.theta);
        proof {
            lemma_tdiv_product_bound(rhs.pose.x as int, cv as int, SCALE as int, 1);
            lemma_tdiv_product_bound(rhs.pose.y as int, sv as int, SCALE as int, 1);
            lemma_tdiv_product_bound(rhs.pose.x as int, sv as int, SCALE as int, 1);
            lemma_tdiv_product_bound(rhs.pose.y as int, cv as int, SCALE as int, 1);
        }
        let dx: i64 = mul_div(rhs.pose.x, cv, SCALE) - mul_div(rhs.pose.y, sv, SCALE);
        let dy: i64 = mul_div(rhs.pose.x, sv, SCALE) + mul_div(rhs.pose.y, cv, SCALE);
        let ts: i64 = self.pose.theta + rhs.pose.theta;
        let theta: i64 = if ts > PI_MICRO {
            ts - TWO_PI_MICRO
        } else if ts <= -PI_MICRO {
            ts + TWO_PI_MICRO
        } else {
            ts
        };
        Odometry {
            s: self.s + rhs.s,
            a: self.a + rhs.a,
            pose: Pose { x: self.pose.x + dx, y: self.pose.y + dy, theta },
        }
    }

    /// The in-place form of `compose`; observably the same operation.
    pub fn compose_assign(&mut self, rhs: &Odometry)
        requires
            old(self).wf(),
            rhs.wf(),
            compose_fits(*old(self), *rhs),
        ensures
            *final(self) == spec_compose(*old(self), *rhs),
            final(self).wf(),
            final(self).s >= old(self).s,
            final(self).a >= old(self).a,
    {
        let r = self.compose(rhs);
        *self = r;
    }
}

/// The running totals are odometers, not displacements: composing can only
/// grow them, and strictly so for an increment that actually moved.
pub proof fn lemma_compose_monotone(a: Odometry, b: Odometry)
    requires
        a.wf(),
        b.wf(),
        a.s + b.s <= 0x7fff_ffff_ffff_ffff,
        a.a + b.a <= 0x7fff_ffff_ffff_ffff,
    ensures
        spec_compose(a, b).s >= a.s,
        spec_compose(a, b).a >= a.a,
        b.s > 0 ==> spec_compose(a, b).s > a.s,
        b.a > 0 ==> spec_compose(a, b).a > a.a,
{
}

/// Composition is associative in both odometers and in the heading:
/// distances, rotations and angles reach the same totals in either grouping.
pub proof fn lemma_compose_associative_totals(a: Odometry, b: Odometry, c: Odometry)
    requires
        a.wf(),
        b.wf(),
        c.wf(),
        a.s + b.s + c.s <= 0x7fff_ffff_ffff_ffff,
        a.a + b.a + c.a <= 0x7fff_ffff_ffff_ffff,
    ensures
        spec_compose(spec_compose(a, b), c).s == spec_compose(a, spec_compose(b, c)).s,
        spec_compose(spec_compose(a, b), c).a == spec_compose(a, spec_compose(b, c)).a,
        spec_compose(spec_compose(a, b), c).pose.theta == spec_compose(
            a,
            spec_compose(b, c),
        ).pose.theta,
{
}

/// When the leading pose is still aligned with the origin frame (zero
/// heading), composition is fully associative: the two groupings agree in
/// every field, truncation included.  Pure translations are the special case
/// of this with every heading zero.
pub proof fn lemma_compose_associative_aligned(a: Odometry, b: Odometry, c: Odometry)
    requires
        a.wf(),
        b.wf(),
        c.wf(),
        a.pose.theta == 0,
        compose_fits(a, b),
        compose_fits(spec_compose(a, b), c),
        compose_fits(b, c),
        compose_fits(a, spec_compose(b, c)),
    ensures
        spec_compose(spec_compose(a, b), c) == spec_compose(a, spec_compose(b, c)),
{
    lemma_trig_zero();
    lemma_pose_shift_zero(a.pose, b.pose);
    lemma_pose_shift_zero(a.pose, spec_compose(b, c).pose);
    let ab = spec_compose(a, b).pose;
    assert(ab.theta == b.pose.theta);
    assert(ab.x == a.pose.x + b.pose.x && ab.y == a.pose.y + b.pose.y);
    let sv = sin_s(b.pose.theta as int);
    let cv = cos_s(b.pose.theta as int);
    crate::math::lemma_trig_bounds(b.pose.theta as int);
    lemma_tdiv_product_bound(c.pose.x as int, cv, SCALE as int, 1);
    lemma_tdiv_product_bound(c.pose.y as int, sv, SCALE as int, 1);
    lemma_tdiv_product_bound(c.pose.x as int, sv, SCALE as int, 1);
    lemma_tdiv_product_bound(c.pose.y as int, cv, SCALE as int, 1);
}

/// Composing at heading zero is coordinate addition; the second heading is
/// kept as it stands.
proof fn lemma_pose_shift_zero(p: Pose, q: Pose)
    requires
        p.theta == 0,
        -PI_MICRO < q.theta <= PI_MICRO,
        -MAX_COORD <= p.x <= MAX_COORD,
        -MAX_COORD <= p.y <= MAX_COORD,
        -MAX_COORD <= q.x <= MAX_COORD,
        -MAX_COORD <= q.y <= MAX_COORD,
    ensures
        spec_compose_pose(p, q) == (Pose {
            x: (p.x + q.x) as i64,
            y: (p.y + q.y) as i64,
            theta: q.theta,
        }),
{
    let s = SCALE as int;
    lemma_trig_zero();
    lemma_mod_multiples_basic(q.x as int, s);
    lemma_tdiv_exact(q.x * s, s);
    lemma_div_multiples_vanish(q.x as int, s);
    assert(q.x * s == s * (q.x as int)) by (nonlinear_arith);
    lemma_mod_multiples_basic(q.y as int, s);
    lemma_tdiv_exact(q.y * s, s);
    lemma_div_multiples_vanish(q.y as int, s);
    assert(q.y * s == s * (q.y as int)) by (nonlinear_arith);
    assert(q.x * 0 == 0 && q.y * 0 == 0) by (nonlinear_arith);
    lemma_div_of0(s);
    assert(tdiv(0, s) == 0);
}

/// The distance odometers of a sequence of increments, summed.
pub open spec fn total_s(incs: Seq<Odometry>) -> int
    decreases incs.len(),
{
    if incs.len() == 0 {
        0
    } else {
        incs[0].s + total_s(incs.drop_first())
    }
}

/// The rotation odometers of a sequence of increments, summed.
pub open spec fn total_a(incs: Seq<Odometry>) -> int
    decreases incs.len(),
{
    if incs.len() == 0 {
        0
    } else {
        incs[0].a + total_a(incs.drop_first())
    }
}

/// The running total after folding a whole sequence of increments, in order.
pub open spec fn fold_increments(start: Odometry, incs: Seq<Odometry>) -> Odometry
    decreases incs.len(),
{
    if incs.len() == 0 {
        start
    } else {
        fold_increments(spec_compose(start, incs[0]), incs.drop_first())
    }
}

/// The summed odometers of well-formed increments are non-negative.
proof fn lemma_totals_nonneg(incs: Seq<Odometry>)
    requires
        forall|i: int| 0 <= i < incs.len() ==> #[trigger] incs[i].wf(),
    ensures
        0 <= total_s(incs),
        0 <= total_a(incs),
    decreases incs.len(),
{
    if incs.len() > 0 {
        assert(incs[0].wf());
        assert(forall|i: int|
            0 <= i < incs.drop_first().len() ==> #[trigger] incs.drop_first()[i].wf());
        lemma_totals_nonneg(incs.drop_first());
    }
}

/// Over any sequence of increments the running odometers only ever grow:
/// the fold reaches exactly the start plus the summed increments, and any
/// increment with a nonzero odometer grows that total strictly.
pub proof fn lemma_fold_monotone(start: Odometry, incs: Seq<Odometry>)
    requires
        start.wf(),
        forall|i: int| 0 <= i < incs.len() ==> #[trigger] incs[i].wf(),
        start.s + total_s(incs) <= 0x7fff_ffff_ffff_ffff,
        start.a + total_a(incs) <= 0x7fff_ffff_ffff_ffff,
    ensures
        fold_increments(start, incs).s == start.s + total_s(incs),
        fold_increments(start, incs).a == start.a + total_a(incs),
        fold_increments(start, incs).s >= start.s,
        fold_increments(start, incs).a >= start.a,
        (exists|i: int| 0 <= i < incs.len() && incs[i].s > 0) ==> fold_increments(start, incs).s
            > start.s,
        (exists|i: int| 0 <= i < incs.len() && incs[i].a > 0) ==> fold_increments(start, incs).a
            > start.a,
    decreases incs.len(),
{
    lemma_totals_nonneg(incs);
    if incs.len() > 0 {
        assert(incs[0].wf());
        let rest = incs.drop_first();
        lemma_totals_nonneg(rest);
        let next = spec_compose(start, incs[0]);
        assert(forall|i: int| 0 <= i < rest.len() ==> #[trigger] rest[i].wf());
        assert(next.wf());
        lemma_fold_monotone(next, rest);
        assert forall|i: int| 0 <= i < incs.len() && incs[i].s > 0 implies fold_increments(
            start,
            incs,
        ).s > start.s by {
            if i > 0 {
                assert(rest[i - 1] == incs[i]);
            }
        }
        assert forall|i: int| 0 <= i < incs.len() && incs[i].a > 0 implies fold_increments(
            start,
            incs,
        ).a > start.a by {
            if i > 0 {
                assert(rest[i - 1] == incs[i]);
            }
        }
    }
}

/// The headings of a sequence of increments, summed without wrapping.
pub open spec fn total_theta(incs: Seq<Odometry>) -> int
    decreases incs.len(),
{
    if incs.len() == 0 {
        0
    } else {
        incs[0].pose.theta + total_theta(incs.drop_first())
    }
}

/// Heading accumulation is exact up to whole turns: folding any sequence of
/// increments leaves the running pose at the wrapped sum of all headings.
pub proof fn lemma_fold_heading(start: Odometry, incs: Seq<Odometry>)
    requires
        start.pose.wf(),
        forall|i: int| 0 <= i < incs.len() ==> (#[trigger] incs[i].pose).wf(),
    ensures
        fold_increments(start, incs).pose.theta as int == crate::math::wrap(
            start.pose.theta + total_theta(incs),
        ),
    decreases incs.len(),
{
    if incs.len() == 0 {
        crate::math::lemma_wrap_small(start.pose.theta as int);
    } else {
        assert(incs[0].pose.wf());
        let rest = incs.drop_first();
        let next = spec_compose(start, incs[0]);
        assert(forall|i: int| 0 <= i < rest.len() ==> (#[trigger] rest[i].pose).wf());
        assert(next.pose.wf());
        lemma_fold_heading(next, rest);
        let plain = start.pose.theta + incs[0].pose.theta + total_theta(rest);
        if start.pose.theta + incs[0].pose.theta > PI_MICRO {
            crate::math::lemma_wrap_full_turn(plain - TWO_PI_MICRO, 1);
        } else if start.pose.theta + incs[0].pose.theta <= -PI_MICRO {
            crate::math::lemma_wrap_full_turn(plain + TWO_PI_MICRO, -1);
        }
    }
}

/// The odometers and the heading do not care about the order of two
/// increments; only the position may.
pub proof fn lemma_compose_totals_commute(a: Odometry, b: Odometry)
    requires
        a.wf(),
        b.wf(),
        a.s + b.s <= 0x7fff_ffff_ffff_ffff,
        a.a + b.a <= 0x7fff_ffff_ffff_ffff,
    ensures
        spec_compose(a, b).s == spec_compose(b, a).s,
        spec_compose(a, b).a == spec_compose(b, a).a,
        spec_compose(a, b).pose.theta == spec_compose(b, a).pose.theta,
{
}

} // verus!
