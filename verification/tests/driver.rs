use odcore::estimate::Estimate;
use odcore::kalman::{FilterError, KF};
use odcore::matrix::Matrix;
use odcore::process::{IterationConfig, Measurement, ODProcess};
use odcore::scripted::{ScriptedDevice, ScriptedPropagator, ScriptedSample};
use odcore::trigger::{CkfTrigger, EkfTrigger, NumMsrEkfTrigger};

fn mat(rows: Vec<Vec<i128>>) -> Matrix {
    Matrix::from_rows(rows).expect("rectangular, non-empty")
}

fn kf1(state: i128, covar: i128, noise: i128) -> KF {
    let initial = Estimate {
        dt: 0,
        state: mat(vec![vec![state]]),
        covar: mat(vec![vec![covar]]),
        stm: Matrix::identity(1),
        predicted: false,
    };
    KF::initialize(initial, mat(vec![vec![noise]]))
}

fn sample(dt: i64) -> ScriptedSample {
    ScriptedSample { dt, stm: Matrix::identity(1), est_state: Matrix::zeros(1, 1) }
}

fn zero_sensitivity_device(epochs: &[i64]) -> ScriptedDevice {
    let mut table: Vec<(i64, Measurement)> = vec![];
    for &e in epochs {
        table.push((
            e,
            Measurement {
                observation: mat(vec![vec![2]]),
                sensitivity: mat(vec![vec![0]]),
                visible: true,
            },
        ));
    }
    ScriptedDevice::new(1, 1, table)
}

#[test]
fn batch_run_switches_to_extended_mode_and_feeds_back() {
    // Once the trigger fires, the filter is in extended
    // mode for the rest of the run, and each update's deviation is folded
    // into the propagator's reference state.
    let prop = ScriptedPropagator::new(1, vec![sample(5), sample(6)], mat(vec![vec![10]]));
    let device = zero_sensitivity_device(&[5, 6]);
    let trigger = NumMsrEkfTrigger::init(1);
    let kf = kf1(3, 1, 1);
    let mut od = ODProcess::default_ekf(prop, kf, vec![device], trigger);
    let msrs = vec![(5i64, mat(vec![vec![1]])), (6i64, mat(vec![vec![1]]))];
    assert!(od.process_measurements(&msrs).is_none());
    assert!(od.kf.ekf);
    assert_eq!(od.estimates.len(), 2);
    assert_eq!(od.residuals.len(), 2);
    // First update (classical, zero sensitivity): state stays 3, fed back
    // into the reference after the switch: 10 + 3. The second update is in
    // extended mode with zero gain, so the deviation is zero.
    assert_eq!(od.prop.est_state.get(0, 0), 13);
    assert_eq!(od.estimates[1].state.get(0, 0), 0);
    assert!(!od.estimates[0].predicted);
    assert_eq!(od.estimates[0].dt, 5);
    assert_eq!(od.estimates[1].dt, 6);
}

#[test]
fn simultaneous_measurements_take_every_visible_station() {
    let prop = ScriptedPropagator::new(1, vec![sample(5)], Matrix::zeros(1, 1));
    let devices = vec![zero_sensitivity_device(&[5]), zero_sensitivity_device(&[5])];
    let kf = kf1(0, 1, 1);
    let mut od = ODProcess::ckf(prop, kf, devices, true, 8);
    let msrs = vec![(5i64, mat(vec![vec![1]]))];
    assert!(od.process_measurements(&msrs).is_none());
    assert_eq!(od.estimates.len(), 2);
    assert_eq!(od.residuals.len(), 2);
    assert_eq!(od.estimates[0].dt, 5);
    assert_eq!(od.estimates[1].dt, 5);
}

#[test]
fn first_visible_station_wins_without_simultaneous_measurements() {
    let prop = ScriptedPropagator::new(1, vec![sample(5)], Matrix::zeros(1, 1));
    let devices = vec![zero_sensitivity_device(&[5]), zero_sensitivity_device(&[5])];
    let kf = kf1(0, 1, 1);
    let mut od = ODProcess::ckf(prop, kf, devices, false, 8);
    let msrs = vec![(5i64, mat(vec![vec![1]]))];
    assert!(od.process_measurements(&msrs).is_none());
    assert_eq!(od.estimates.len(), 1);
    assert_eq!(od.residuals.len(), 1);
}

#[test]
fn streaming_interleaves_time_and_measurement_updates() {
    let prop = ScriptedPropagator::new(1, vec![], Matrix::zeros(1, 1));
    let device = zero_sensitivity_device(&[20]);
    let kf = kf1(0, 1, 1);
    let mut od = ODProcess::ckf(prop, kf, vec![device], false, 8);
    let states = vec![sample(10), sample(20), sample(30)];
    let msrs = vec![(20i64, mat(vec![vec![1]]))];
    assert!(od.process_measurements_covar(&states, &msrs).is_none());
    // A time update at 10, the measurement update at 20, the mapping
    // update at 20 once measurements ran out, and a time update at 30.
    assert_eq!(od.estimates.len(), 4);
    assert_eq!(od.residuals.len(), 1);
    assert!(od.estimates[0].predicted);
    assert_eq!(od.estimates[0].dt, 10);
    assert!(!od.estimates[1].predicted);
    assert_eq!(od.estimates[1].dt, 20);
    assert!(od.estimates[2].predicted);
    assert_eq!(od.estimates[2].dt, 20);
    assert!(od.estimates[3].predicted);
    assert_eq!(od.estimates[3].dt, 30);
}

#[test]
fn streaming_skips_a_measurement_the_stream_outran() {
    let prop = ScriptedPropagator::new(1, vec![], Matrix::zeros(1, 1));
    let device = zero_sensitivity_device(&[5]);
    let kf = kf1(0, 1, 1);
    let mut od = ODProcess::ckf(prop, kf, vec![device], false, 8);
    let states = vec![sample(10), sample(20)];
    let msrs = vec![(5i64, mat(vec![vec![1]]))];
    assert!(od.process_measurements_covar(&states, &msrs).is_none());
    // The measurement at 5 is skipped; only time updates remain.
    assert_eq!(od.estimates.len(), 2);
    assert_eq!(od.residuals.len(), 0);
    assert!(od.estimates[0].predicted);
    assert!(od.estimates[1].predicted);
}

#[test]
fn streaming_requires_at_least_one_measurement() {
    let prop = ScriptedPropagator::new(1, vec![], Matrix::zeros(1, 1));
    let device = zero_sensitivity_device(&[]);
    let kf = kf1(0, 1, 1);
    let mut od = ODProcess::ckf(prop, kf, vec![device], false, 8);
    let states = vec![sample(10)];
    let msrs: Vec<(i64, Matrix)> = vec![];
    let r = od.process_measurements_covar(&states, &msrs);
    assert_eq!(r, Some(FilterError::NoMeasurements));
    assert_eq!(od.estimates.len(), 0);
}

#[test]
fn map_covar_maps_the_covariance_without_measurements() {
    let prop = ScriptedPropagator::new(1, vec![], Matrix::zeros(1, 1));
    let kf = kf1(0, 1, 1);
    let mut od: ODProcess<ScriptedPropagator, ScriptedDevice, CkfTrigger> =
        ODProcess::ckf(prop, kf, vec![], false, 8);
    let doubling = ScriptedSample {
        dt: 10,
        stm: mat(vec![vec![2]]),
        est_state: Matrix::zeros(1, 1),
    };
    let doubling_again = ScriptedSample {
        dt: 20,
        stm: mat(vec![vec![2]]),
        est_state: Matrix::zeros(1, 1),
    };
    let states = vec![doubling, doubling_again];
    assert!(od.map_covar(&states, 20).is_none());
    assert_eq!(od.estimates.len(), 2);
    assert!(od.estimates[0].predicted);
    assert!(od.estimates[1].predicted);
    assert_eq!(od.estimates[0].covar.get(0, 0), 4);
    assert_eq!(od.estimates[1].covar.get(0, 0), 16);
}

#[test]
fn trigger_policies() {
    let est = Estimate {
        dt: 0,
        state: Matrix::zeros(1, 1),
        covar: Matrix::identity(1),
        stm: Matrix::identity(1),
        predicted: false,
    };
    let mut never = CkfTrigger {};
    assert!(!never.enable_ekf(&est));
    assert!(!never.enable_ekf(&est));
    let mut after_two = NumMsrEkfTrigger::init(2);
    assert!(!after_two.enable_ekf(&est));
    assert!(after_two.enable_ekf(&est));
    assert!(after_two.enable_ekf(&est));
}

#[test]
fn kernel_errors_surface_unchanged_from_the_driver() {
    // A unit sensitivity with zero noise gives an innovation covariance
    // with no exact inverse: the kernel's error halts the pass unchanged.
    let prop = ScriptedPropagator::new(1, vec![sample(5)], Matrix::zeros(1, 1));
    let mut table: Vec<(i64, Measurement)> = vec![];
    table.push((
        5,
        Measurement {
            observation: mat(vec![vec![2]]),
            sensitivity: mat(vec![vec![1]]),
            visible: true,
        },
    ));
    let device = ScriptedDevice::new(1, 1, table);
    let kf = kf1(0, 2, 0);
    let mut od = ODProcess::ckf(prop, kf, vec![device], false, 8);
    let msrs = vec![(5i64, mat(vec![vec![1]]))];
    let r = od.process_measurements(&msrs);
    assert_eq!(r, Some(FilterError::GainIsSingular));
    assert_eq!(od.estimates.len(), 0);
    assert_eq!(od.residuals.len(), 0);
}

#[test]
fn streaming_takes_simultaneous_measurements_at_one_epoch() {
    let prop = ScriptedPropagator::new(1, vec![], Matrix::zeros(1, 1));
    let devices = vec![zero_sensitivity_device(&[10]), zero_sensitivity_device(&[10])];
    let kf = kf1(0, 1, 1);
    let mut od = ODProcess::ckf(prop, kf, devices, true, 8);
    let states = vec![sample(10)];
    let msrs = vec![(10i64, mat(vec![vec![1]]))];
    assert!(od.process_measurements_covar(&states, &msrs).is_none());
    // Two measurement updates at the epoch, then the mapping time update
    // once the measurements ran out.
    assert_eq!(od.residuals.len(), 2);
    assert_eq!(od.estimates.len(), 3);
    assert!(!od.estimates[0].predicted);
    assert!(!od.estimates[1].predicted);
    assert!(od.estimates[2].predicted);
}

#[test]
fn iterate_converges_on_a_stable_initial_state() {
    let prop = ScriptedPropagator::new(1, vec![sample(5)], Matrix::zeros(1, 1));
    let device = zero_sensitivity_device(&[5]);
    let kf = kf1(3, 1, 1);
    let mut od = ODProcess::ckf(prop, kf, vec![device], false, 8);
    let msrs = vec![(5i64, mat(vec![vec![1]]))];
    let config = IterationConfig {
        absolute_tol: 10,
        relative_tol_num: 1,
        relative_tol_den: 10,
        max_iterations: 3,
    };
    // With zero sensitivity the pass reproduces the initial state, so the
    // very first convergence check passes and the history holds the
    // smoothed forward pass.
    assert!(od.iterate(&msrs, &config).is_none());
    assert_eq!(od.estimates.len(), 1);
    assert_eq!(od.residuals.len(), 1);
    assert_eq!(od.estimates[0].dt, 5);
    assert_eq!(od.estimates[0].state.get(0, 0), 3);
}

#[test]
fn iterate_with_a_zero_cap_does_nothing() {
    let prop = ScriptedPropagator::new(1, vec![sample(5)], Matrix::zeros(1, 1));
    let device = zero_sensitivity_device(&[5]);
    let kf = kf1(3, 1, 1);
    let mut od = ODProcess::ckf(prop, kf, vec![device], false, 8);
    let msrs = vec![(5i64, mat(vec![vec![1]]))];
    let config = IterationConfig {
        absolute_tol: 0,
        relative_tol_num: 0,
        relative_tol_den: 1,
        max_iterations: 0,
    };
    assert!(od.iterate(&msrs, &config).is_none());
    assert_eq!(od.estimates.len(), 0);
    assert_eq!(od.residuals.len(), 0);
}
