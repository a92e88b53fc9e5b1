use odcore::estimate::Estimate;
use odcore::kalman::{FilterError, KF};
use odcore::matrix::Matrix;

fn mat(rows: Vec<Vec<i128>>) -> Matrix {
    Matrix::from_rows(rows).expect("rectangular, non-empty")
}

fn initial(state: Vec<Vec<i128>>, covar: Vec<Vec<i128>>) -> Estimate {
    let n = covar.len();
    Estimate {
        dt: 0,
        state: mat(state),
        covar: mat(covar),
        stm: Matrix::identity(n),
        predicted: false,
    }
}

#[test]
fn initialize_starts_classical_with_clear_bits() {
    let est = initial(vec![vec![1]], vec![vec![2]]);
    let kf = KF::initialize(est, mat(vec![vec![1]]));
    assert!(!kf.ekf);
    assert!(!kf.stm_updated);
    assert!(!kf.h_tilde_updated);
    assert_eq!(kf.prev_estimate.state.get(0, 0), 1);
    assert_eq!(kf.prev_estimate.covar.get(0, 0), 2);
}

#[test]
fn time_update_requires_fresh_stm() {
    let est = initial(vec![vec![1]], vec![vec![2]]);
    let mut kf = KF::initialize(est, mat(vec![vec![1]]));
    let r = kf.time_update(7);
    assert_eq!(r.unwrap_err(), FilterError::StateTransitionMatrixNotUpdated);
}

#[test]
fn time_update_propagates_covariance_and_state() {
    // The new covariance is exactly phi * P * phi'.
    let est = initial(vec![vec![1], vec![2]], vec![vec![2, 1], vec![1, 3]]);
    let mut kf = KF::initialize(est, mat(vec![vec![1]]));
    kf.update_stm(mat(vec![vec![1, 1], vec![0, 1]]));
    let out = kf.time_update(42).expect("fresh STM");
    // The new estimate carries the update's epoch.
    assert_eq!(out.dt, 42);
    assert!(out.predicted);
    assert_eq!(out.covar.get(0, 0), 7);
    assert_eq!(out.covar.get(0, 1), 4);
    assert_eq!(out.covar.get(1, 0), 4);
    assert_eq!(out.covar.get(1, 1), 3);
    assert_eq!(out.state.get(0, 0), 3);
    assert_eq!(out.state.get(1, 0), 2);
    assert_eq!(kf.prev_estimate.dt, 42);
    assert!(!kf.stm_updated);
}

#[test]
fn second_time_update_without_resetting_stm_fails() {
    // Each update consumes the STM freshness bit.
    let est = initial(vec![vec![1]], vec![vec![2]]);
    let mut kf = KF::initialize(est, mat(vec![vec![1]]));
    kf.update_stm(mat(vec![vec![1]]));
    assert!(kf.time_update(1).is_ok());
    let r = kf.time_update(2);
    assert_eq!(r.unwrap_err(), FilterError::StateTransitionMatrixNotUpdated);
}

#[test]
fn time_update_in_extended_mode_zeroes_the_state() {
    let est = initial(vec![vec![9]], vec![vec![4]]);
    let mut kf = KF::initialize(est, mat(vec![vec![1]]));
    kf.set_extended(true);
    kf.update_stm(mat(vec![vec![3]]));
    let out = kf.time_update(1).expect("fresh STM");
    assert_eq!(out.state.get(0, 0), 0);
    assert_eq!(out.covar.get(0, 0), 36);
}

#[test]
fn measurement_update_classical_branch() {
    let est = initial(vec![vec![1]], vec![vec![2]]);
    let mut kf = KF::initialize(est, mat(vec![vec![-1]]));
    kf.update_stm(mat(vec![vec![1]]));
    kf.update_h_tilde(mat(vec![vec![1]]));
    let (out, res) = kf
        .measurement_update(11, mat(vec![vec![5]]), mat(vec![vec![1]]))
        .expect("S is a unit");
    // Gain K = P' H' S^-1 = 2; innovation y = 4.
    assert_eq!(out.dt, 11);
    assert!(!out.predicted);
    assert_eq!(out.state.get(0, 0), 7);
    // Joseph form: (1 - K)^2 * 2 + K * R * K = 2 - 4.
    assert_eq!(out.covar.get(0, 0), -2);
    assert_eq!(res.dt, 11);
    assert!(res.accepted);
    assert_eq!(res.prefit.get(0, 0), 4);
    assert_eq!(res.postfit.get(0, 0), -3);
    assert!(!kf.stm_updated);
    assert!(!kf.h_tilde_updated);
    assert_eq!(kf.prev_estimate.dt, 11);
}

#[test]
fn measurement_update_extended_branch() {
    // In extended mode the state is K * y alone.
    let est = initial(vec![vec![1]], vec![vec![2]]);
    let mut kf = KF::initialize(est, mat(vec![vec![-1]]));
    kf.set_extended(true);
    kf.update_stm(mat(vec![vec![1]]));
    kf.update_h_tilde(mat(vec![vec![1]]));
    let (out, res) = kf
        .measurement_update(3, mat(vec![vec![5]]), mat(vec![vec![1]]))
        .expect("S is a unit");
    assert_eq!(out.state.get(0, 0), 8);
    assert_eq!(res.postfit.get(0, 0), -4);
    assert_eq!(out.covar.get(0, 0), -2);
}

#[test]
fn measurement_update_covariance_stays_symmetric() {
    // The Joseph form keeps the covariance exactly symmetric.
    let est = initial(vec![vec![1], vec![2]], vec![vec![2, 1], vec![1, 3]]);
    let mut kf = KF::initialize(est, mat(vec![vec![1]]));
    kf.update_stm(mat(vec![vec![1, 1], vec![0, 1]]));
    kf.update_h_tilde(mat(vec![vec![1, 0]]));
    // S = H P' H' + R = 7 + r; pick r = -6 so S = 1.
    kf.measurement_noise = mat(vec![vec![-6]]);
    let (out, _res) = kf
        .measurement_update(1, mat(vec![vec![10]]), mat(vec![vec![4]]))
        .expect("S is a unit");
    assert_eq!(out.covar.get(0, 1), out.covar.get(1, 0));
}

#[test]
fn gain_singularity_is_reported_and_state_kept() {
    // A zero sensitivity and zero noise make S = 0, which has no inverse;
    // the filter state must be untouched.
    let est = initial(vec![vec![1]], vec![vec![1]]);
    let mut kf = KF::initialize(est, mat(vec![vec![0]]));
    kf.update_stm(mat(vec![vec![1]]));
    kf.update_h_tilde(mat(vec![vec![0]]));
    let r = kf.measurement_update(1, mat(vec![vec![1]]), mat(vec![vec![1]]));
    assert_eq!(r.unwrap_err(), FilterError::GainIsSingular);
    assert!(kf.stm_updated);
    assert!(kf.h_tilde_updated);
    assert_eq!(kf.prev_estimate.dt, 0);
    assert_eq!(kf.prev_estimate.covar.get(0, 0), 1);
}

#[test]
fn second_measurement_update_without_resetting_sensitivity_fails() {
    let est = initial(vec![vec![1]], vec![vec![2]]);
    let mut kf = KF::initialize(est, mat(vec![vec![-1]]));
    kf.update_stm(mat(vec![vec![1]]));
    kf.update_h_tilde(mat(vec![vec![1]]));
    assert!(kf.measurement_update(1, mat(vec![vec![5]]), mat(vec![vec![1]])).is_ok());
    // Re-set only the STM: the sensitivity bit is still consumed.
    kf.update_stm(mat(vec![vec![1]]));
    let r = kf.measurement_update(2, mat(vec![vec![5]]), mat(vec![vec![1]]));
    assert_eq!(r.unwrap_err(), FilterError::SensitivityNotUpdated);
}

#[test]
fn error_descriptions() {
    assert_eq!(
        FilterError::StateTransitionMatrixNotUpdated.describe(),
        "STM was not updated prior to time or measurement update"
    );
    assert_eq!(
        FilterError::SensitivityNotUpdated.describe(),
        "The measurement matrix H_tilde was not updated prior to measurement update"
    );
    assert_eq!(
        FilterError::GainIsSingular.describe(),
        "Gain could not be computed because H*P_bar*H + R is singular"
    );
}

#[test]
fn arithmetic_outside_machine_range_is_reported() {
    let est = initial(vec![vec![1]], vec![vec![i128::MAX]]);
    let mut kf = KF::initialize(est, mat(vec![vec![1]]));
    kf.update_stm(mat(vec![vec![2]]));
    let r = kf.time_update(1);
    assert_eq!(r.unwrap_err(), FilterError::ArithmeticRange);
    // The filter state is untouched, the freshness bit included.
    assert!(kf.stm_updated);
    assert_eq!(kf.prev_estimate.dt, 0);
}
