use odometry::{ChassisModel, Odometry, StatusPredictor, TrajectoryPredictor, Velocity};
use vstd::prelude::Seq;

/// A chassis whose state already is the common velocity representation,
/// in micro-units.
#[derive(Clone)]
struct DirectModel;

impl ChassisModel for DirectModel {
    type State = (i64, i64);

    // ghost member of the trait; never reached at run time
    fn velocity_of(&self, _s: (i64, i64)) -> Velocity {
        panic!()
    }

    fn volocity_from(&self, s: &(i64, i64)) -> Velocity {
        Velocity { v: s.0, w: s.1 }
    }
}

/// A finite, cloneable stream of predicted states.
#[derive(Clone)]
struct ListPredictor {
    states: Vec<(i64, i64)>,
    next: usize,
}

impl StatusPredictor for ListPredictor {
    type Model = DirectModel;

    // ghost member of the trait; never reached at run time
    fn future(&self) -> Seq<(i64, i64)> {
        panic!()
    }

    fn predict(&mut self) -> Option<(i64, i64)> {
        if self.next < self.states.len() {
            let s = self.states[self.next];
            self.next += 1;
            Some(s)
        } else {
            None
        }
    }
}

#[test]
fn trajectory_follows_states() {
    let states = vec![(1_000_000, 0), (2_000_000, 500_000), (0, -250_000)];
    let mut tp = TrajectoryPredictor {
        period: 1_000_000, // one second
        model: DirectModel,
        predictor: ListPredictor { states: states.clone(), next: 0 },
    };
    for (v, w) in states {
        let got = tp.next().expect("stream should still be live");
        let want = Velocity { v, w }.to_odometry();
        assert_eq!(got, want);
    }
    assert_eq!(tp.next(), None);
    assert_eq!(tp.next(), None);
}

#[test]
fn trajectory_scales_by_period() {
    let mut tp = TrajectoryPredictor {
        period: 500_000, // half a second
        model: DirectModel,
        predictor: ListPredictor { states: vec![(2_000_000, 1_000_000)], next: 0 },
    };
    let got = tp.next().expect("one state is pending");
    let want = Velocity { v: 1_000_000, w: 500_000 }.to_odometry();
    assert_eq!(got, want);
    assert_eq!(tp.next(), None);
}

#[test]
fn cloned_predictors_do_not_interfere() {
    let mut tp = TrajectoryPredictor {
        period: 1_000_000,
        model: DirectModel,
        predictor: ListPredictor { states: vec![(1_000_000, 0), (2_000_000, 0)], next: 0 },
    };
    let first = tp.next().expect("two states are pending");
    let mut copy = TrajectoryPredictor {
        period: tp.period,
        model: tp.model.clone(),
        predictor: tp.predictor.clone(),
    };
    let from_source = tp.next().expect("one state is pending");
    let from_copy = copy.next().expect("the copy starts where it was cloned");
    assert_eq!(from_source, from_copy);
    assert_ne!(first, from_source);
    assert_eq!(tp.next(), None);
    assert_eq!(copy.next(), None);
}

#[test]
fn zero_runs_the_accumulation() {
    // the canonical fold: start at zero and add every predicted increment
    let mut tp = TrajectoryPredictor {
        period: 1_000_000,
        model: DirectModel,
        predictor: ListPredictor {
            states: vec![(1_000_000, 0), (1_000_000, 0), (-500_000, 0)],
            next: 0,
        },
    };
    let mut total = Odometry::zero();
    while let Some(inc) = tp.next() {
        total.compose_assign(&inc);
    }
    assert_eq!(total.s, 2_500_000);
    assert_eq!(total.pose.x, 1_500_000);
}
