use odcore::estimate::Estimate;
use odcore::kalman::{FilterError, KF};
use odcore::matrix::Matrix;
use odcore::process::ODProcess;
use odcore::scripted::{ScriptedDevice, ScriptedPropagator};

fn mat(rows: Vec<Vec<i128>>) -> Matrix {
    Matrix::from_rows(rows).expect("rectangular, non-empty")
}

fn driver_with(
    dim: usize,
    kf: KF,
) -> ODProcess<ScriptedPropagator, ScriptedDevice, odcore::trigger::CkfTrigger> {
    let prop = ScriptedPropagator::new(dim, vec![], Matrix::zeros(dim, 1));
    ODProcess::default_ckf(prop, kf, vec![])
}

#[test]
fn smoothing_a_one_step_sequence_recovers_the_initial_state() {
    // With an invertible (unimodular) state
    // transition, smoothing the estimate of a single time update
    // reconstructs the initial state exactly.
    let x0 = mat(vec![vec![1], vec![2]]);
    let initial = Estimate {
        dt: 0,
        state: x0,
        covar: Matrix::identity(2),
        stm: Matrix::identity(2),
        predicted: false,
    };
    let mut kf = KF::initialize(initial, mat(vec![vec![1]]));
    kf.update_stm(mat(vec![vec![1, 1], vec![0, 1]]));
    let stepped = kf.time_update(10).expect("fresh STM");
    assert_eq!(stepped.state.get(0, 0), 3);
    assert_eq!(stepped.state.get(1, 0), 2);

    let mut od = driver_with(2, kf);
    // The history in chronological order: initial, then stepped.
    let initial_again = Estimate {
        dt: 0,
        state: mat(vec![vec![1], vec![2]]),
        covar: Matrix::identity(2),
        stm: Matrix::identity(2),
        predicted: false,
    };
    od.estimates.push(initial_again);
    od.estimates.push(stepped);

    assert!(od.smooth().is_none());
    assert_eq!(od.estimates.len(), 2);
    // The first estimate is untouched.
    assert_eq!(od.estimates[0].state.get(0, 0), 1);
    // The smoothed second estimate recovers the initial state and
    // covariance exactly.
    assert_eq!(od.estimates[1].state.get(0, 0), 1);
    assert_eq!(od.estimates[1].state.get(1, 0), 2);
    assert!(od.estimates[1].covar.mat_eq(&Matrix::identity(2)));
}

#[test]
fn smoothing_with_a_nilpotent_offset_stm_round_trips() {
    // A transition of the shape I + N with N nilpotent is unimodular, so
    // the round trip is exact whatever the step scale.
    let x0 = mat(vec![vec![7], vec![-3]]);
    let initial = Estimate {
        dt: 0,
        state: x0,
        covar: mat(vec![vec![4, 0], vec![0, 9]]),
        stm: Matrix::identity(2),
        predicted: false,
    };
    let mut kf = KF::initialize(initial, mat(vec![vec![1]]));
    kf.update_stm(mat(vec![vec![1, 5], vec![0, 1]]));
    let stepped = kf.time_update(10).expect("fresh STM");

    let mut od = driver_with(2, kf);
    let initial_again = Estimate {
        dt: 0,
        state: mat(vec![vec![7], vec![-3]]),
        covar: mat(vec![vec![4, 0], vec![0, 9]]),
        stm: Matrix::identity(2),
        predicted: false,
    };
    od.estimates.push(initial_again);
    od.estimates.push(stepped);
    assert!(od.smooth().is_none());
    assert_eq!(od.estimates[1].state.get(0, 0), 7);
    assert_eq!(od.estimates[1].state.get(1, 0), -3);
}

#[test]
fn smoothing_fails_on_a_singular_stm_and_keeps_the_history() {
    let initial = Estimate {
        dt: 0,
        state: mat(vec![vec![1]]),
        covar: mat(vec![vec![1]]),
        stm: Matrix::identity(1),
        predicted: false,
    };
    let kf = KF::initialize(initial, mat(vec![vec![1]]));
    let mut od = driver_with(1, kf);
    od.estimates.push(Estimate {
        dt: 0,
        state: mat(vec![vec![1]]),
        covar: mat(vec![vec![1]]),
        stm: Matrix::identity(1),
        predicted: false,
    });
    od.estimates.push(Estimate {
        dt: 5,
        state: mat(vec![vec![2]]),
        covar: mat(vec![vec![1]]),
        stm: mat(vec![vec![0]]),
        predicted: true,
    });
    let r = od.smooth();
    assert_eq!(r, Some(FilterError::StateTransitionMatrixSingular));
    // The history is untouched on failure.
    assert_eq!(od.estimates.len(), 2);
    assert_eq!(od.estimates[1].state.get(0, 0), 2);
}
