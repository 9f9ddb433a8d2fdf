//! Trajectory prediction: a lazy sequence of odometry increments, one per
//! control period, driven by a chassis model and a source of future states.

use vstd::prelude::*;

use crate::math::SCALE;
use crate::odometry::Odometry;
use crate::{spec_to_odometry, ChassisModel, MAX_PRODUCT, MAX_STEP};

verus! {

/// A source of predicted chassis states: each call yields the next state of
/// the stream, or signals its end.  Cloning duplicates the stream without
/// cross-talk between the copies.
pub trait StatusPredictor: Sized + Clone {
    /// The chassis model whose states this predictor produces.
    type Model: ChassisModel;

    /// The states still to come, in order.
    spec fn future(&self) -> Seq<<Self::Model as ChassisModel>::State>;

    /// Produce the next predicted state, or `None` once the stream has ended.
    fn predict(&mut self) -> (r: Option<<Self::Model as ChassisModel>::State>)
        ensures
            old(self).future().len() == 0 ==> r is None && final(self).future() == old(self).future(),
            old(self).future().len() > 0 ==> r == Some(old(self).future()[0])
                && final(self).future() == old(self).future().drop_first(),
    ;
}

/// Turns a stream of predicted states into a stream of odometry increments:
/// each step pulls the next state, converts it to a velocity through the
/// chassis model, and integrates that velocity over the fixed control period.
pub struct TrajectoryPredictor<P: StatusPredictor> {
    /// Control period, millionths of a second.
    pub period: i64,
    /// The drivetrain model that interprets predicted states.
    pub model: P::Model,
    /// The source of future chassis states.
    pub predictor: P,
}

impl<P: StatusPredictor> TrajectoryPredictor<P> {
    /// The period stays within one second, so that every bounded velocity
    /// can be scaled by it.
    pub open spec fn wf(self) -> bool {
        0 <= self.period <= SCALE
    }

    /// The increment that one state yields under this predictor's model and
    /// period.
    pub open spec fn increment_of(
        self,
        st: <P::Model as ChassisModel>::State,
    ) -> Odometry {
        spec_to_odometry(self.model.velocity_of(st).spec_scale(self.period as int))
    }

    /// Predict the next control period's odometry increment, or `None` once
    /// the underlying state stream has ended.  Each increment is a function
    /// of the next state and the fixed period alone.
    pub fn next(&mut self) -> (r: Option<Odometry>)
        requires
            old(self).wf(),
        ensures
            final(self).wf(),
            final(self).period == old(self).period,
            final(self).model == old(self).model,
            old(self).predictor.future().len() == 0 ==> r is None
                && final(self).predictor.future() == old(self).predictor.future(),
            old(self).predictor.future().len() > 0
                ==> r == Some(old(self).increment_of(old(self).predictor.future()[0])),
            old(self).predictor.future().len() > 0
                ==> final(self).predictor.future() == old(self).predictor.future().drop_first(),
    {
        match self.predictor.predict() {
            None => None,
            Some(st) => {
                let vel = self.model.volocity_from(&st);
                proof {
                    assert(vel.v * self.period <= MAX_PRODUCT && -MAX_PRODUCT <= vel.v
                        * self.period) by (nonlinear_arith)
                        requires
                            -MAX_STEP <= vel.v <= MAX_STEP,
                            0 <= self.period <= SCALE,
                            MAX_STEP == 4_000_000_000_000i64,
                            SCALE == 1_000_000i64,
                            MAX_PRODUCT == 4_000_000_000_000_000_000i64,
                    ;
                    assert(vel.w * self.period <= MAX_PRODUCT && -MAX_PRODUCT <= vel.w
                        * self.period) by (nonlinear_arith)
                        requires
                            -MAX_STEP <= vel.w <= MAX_STEP,
                            0 <= self.period <= SCALE,
                            MAX_STEP == 4_000_000_000_000i64,
                            SCALE == 1_000_000i64,
                            MAX_PRODUCT == 4_000_000_000_000_000_000i64,
                    ;
                }
                Some(vel.integrate_over(self.period))
            },
        }
    }
}

} // verus!
