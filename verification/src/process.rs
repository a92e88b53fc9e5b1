//! The orbit-determination process driver.
//!
//! The driver owns the filter, the estimate and residual histories, the
//! measurement devices and the trigger policy. It synchronizes a propagator
//! with sparse measurement epochs, interleaves time updates and measurement
//! updates, drives the one-way transition from classical to extended mode,
//! feeds estimated deviations back into the propagator's reference
//! trajectory while in extended mode, and runs a backward smoother over the
//! stored estimates.

use crate::estimate::{est_equiv, Estimate, Residual};
use crate::kalman::{FilterError, KF};
use crate::matrix::{
    inverse_computable, is_mat, mat_identity, mat_mul, mat_transpose, mul_fits,
    spec_inverse_candidate, Matrix, SpecMat,
};
use crate::trigger::{CkfTrigger, EkfTrigger};
use vstd::prelude::*;

verus! {

/// A computed observation from a measurement device: the predicted
/// observation vector (`m` by 1), its sensitivity to the state (`m` by
/// `s`), and whether the spacecraft is visible from the device.
pub struct Measurement {
    /// Predicted observation.
    pub observation: Matrix,
    /// Sensitivity of the observation to the state.
    pub sensitivity: Matrix,
    /// Whether the spacecraft is visible.
    pub visible: bool,
}

/// The propagator collaborator: advances a reference trajectory, hands out
/// the state-transition matrix accumulated since the last retrieval, and
/// reads or writes the estimated state used for the extended-mode feedback.
/// Streamed reference samples are read through the `extract` methods.
pub trait Propagator {
    /// What a measurement model needs at an epoch.
    type MsrIn;

    /// A reference-state sample of the streamed trajectory.
    type StateType;

    /// State size of the propagated trajectory.
    spec fn sdim(&self) -> nat;

    /// The streamed sample carries well-formed matrices.
    spec fn st_wf(&self, st: &Self::StateType) -> bool;

    /// Epoch of a streamed sample, in the model.
    spec fn spec_sample_epoch(&self, st: &Self::StateType) -> i64;

    /// State-transition matrix of a streamed sample, in the model.
    spec fn spec_sample_stm(&self, st: &Self::StateType) -> SpecMat;

    /// Advances the internal time by `delta` nanoseconds.
    fn until_time_elapsed(&mut self, delta: i64)
        ensures
            final(self).sdim() == old(self).sdim(),
            forall|st: Self::StateType| #[trigger] final(self).st_wf(&st) <==> old(self).st_wf(
                &st,
            ),
            forall|st: Self::StateType| #[trigger] final(self).spec_sample_epoch(&st) == old(self).spec_sample_epoch(&st),
            forall|st: Self::StateType| #[trigger] final(self).spec_sample_stm(&st) == old(self).spec_sample_stm(&st),
    ;

    /// The state-transition matrix accumulated since the last retrieval;
    /// retrieving it resets the accumulation.
    fn stm(&mut self) -> (r: Matrix)
        ensures
            final(self).sdim() == old(self).sdim(),
            is_mat(r@, old(self).sdim(), old(self).sdim()),
            forall|st: Self::StateType| #[trigger] final(self).st_wf(&st) <==> old(self).st_wf(
                &st,
            ),
    ;

    /// Epoch (nanoseconds) and measurement input of the current state.
    fn to_measurement(&mut self) -> (r: (i64, Self::MsrIn))
        ensures
            final(self).sdim() == old(self).sdim(),
            forall|st: Self::StateType| #[trigger] final(self).st_wf(&st) <==> old(self).st_wf(
                &st,
            ),
    ;

    /// The estimated state of the reference trajectory (`s` by 1).
    fn estimated_state(&mut self) -> (r: Matrix)
        ensures
            final(self).sdim() == old(self).sdim(),
            is_mat(r@, old(self).sdim(), 1),
            forall|st: Self::StateType| #[trigger] final(self).st_wf(&st) <==> old(self).st_wf(
                &st,
            ),
    ;

    /// Writes the estimated state back into the reference trajectory.
    fn set_estimated_state(&mut self, state: Matrix)
        ensures
            final(self).sdim() == old(self).sdim(),
            forall|st: Self::StateType| #[trigger] final(self).st_wf(&st) <==> old(self).st_wf(
                &st,
            ),
            forall|st: Self::StateType| #[trigger] final(self).spec_sample_epoch(&st) == old(self).spec_sample_epoch(&st),
            forall|st: Self::StateType| #[trigger] final(self).spec_sample_stm(&st) == old(self).spec_sample_stm(&st),
    ;

    /// Restarts the reference trajectory for a new forward pass, seeded
    /// from the given estimated state.
    fn reseed(&mut self, est_state: Matrix)
        ensures
            final(self).sdim() == old(self).sdim(),
            forall|st: Self::StateType| #[trigger] final(self).st_wf(&st) <==> old(self).st_wf(
                &st,
            ),
            forall|st: Self::StateType| #[trigger] final(self).spec_sample_epoch(&st) == old(
                self,
            ).spec_sample_epoch(&st),
            forall|st: Self::StateType| #[trigger] final(self).spec_sample_stm(&st) == old(
                self,
            ).spec_sample_stm(&st),
    ;

    /// Epoch and measurement input of a streamed sample.
    fn to_measurement_state(&self, st: &Self::StateType) -> (r: (i64, Self::MsrIn))
        requires
            self.st_wf(st),
        ensures
            r.0 == self.spec_sample_epoch(st),
    ;

    /// The state-transition matrix of a streamed sample.
    fn extract_stm(&self, st: &Self::StateType) -> (r: Matrix)
        requires
            self.st_wf(st),
        ensures
            is_mat(r@, self.sdim(), self.sdim()),
            r@ == self.spec_sample_stm(st),
    ;

    /// The estimated state of a streamed sample (`s` by 1).
    fn extract_estimated_state(&self, st: &Self::StateType) -> (r: Matrix)
        requires
            self.st_wf(st),
        ensures
            is_mat(r@, self.sdim(), 1),
    ;
}

/// A measurement device: asked for a predicted measurement, it may report
/// the spacecraft not visible.
pub trait MeasurementDevice<MsrIn> {
    /// Measurement size of this device.
    spec fn msize(&self) -> nat;

    /// State size of this device's sensitivity.
    spec fn ssize(&self) -> nat;

    /// Computes the predicted measurement for the given input.
    fn measure(&self, input: &MsrIn) -> (r: Option<Measurement>)
        ensures
            r matches Some(m) ==> is_mat(m.observation@, self.msize(), 1) && is_mat(
                m.sensitivity@,
                self.msize(),
                self.ssize(),
            ),
    ;
}

/// Relation between an estimate and its smoothed counterpart: the state and
/// covariance are mapped through an exact inverse of the estimate's
/// state-transition matrix; epoch, matrix and flag are kept.
pub open spec fn smoothed_rel(orig: Estimate, sm: Estimate) -> bool {
    let n = orig.stm@.len();
    &&& (exists|inv: SpecMat|
        {
            &&& is_mat(inv, n, n)
            &&& #[trigger] mat_mul(orig.stm@, inv) == mat_identity(n)
            &&& mat_mul(inv, orig.stm@) == mat_identity(n)
            &&& sm.state@ == mat_mul(inv, orig.state@)
            &&& sm.covar@ == mat_mul(mat_mul(inv, orig.covar@), mat_transpose(inv))
        })
    &&& sm.dt == orig.dt
    &&& sm.stm@ == orig.stm@
    &&& sm.predicted == orig.predicted
}

/// The whole smoothing step on one estimate succeeds on this machine: its
/// state-transition matrix is exactly invertible and the mapped state and
/// covariance products stay in machine range, stated over the candidate
/// inverse the library computes.
pub open spec fn smooth_step_fits(est: Estimate) -> bool {
    let inv = spec_inverse_candidate(est.stm@);
    let t = mat_mul(inv, est.covar@);
    &&& inverse_computable(est.stm@)
    &&& mul_fits(inv, est.state@)
    &&& mul_fits(inv, est.covar@)
    &&& mul_fits(t, mat_transpose(inv))
}

/// How many estimates of the sequence are predicted (time-update) entries.
pub open spec fn count_predicted(s: Seq<Estimate>) -> nat
    decreases s.len(),
{
    if s.len() == 0 {
        0
    } else {
        count_predicted(s.drop_last()) + (if s.last().predicted {
            1nat
        } else {
            0nat
        })
    }
}

/// Appending one estimate raises the predicted count by its flag.
pub proof fn lemma_count_predicted_push(s: Seq<Estimate>, e: Estimate)
    ensures
        count_predicted(s.push(e)) == count_predicted(s) + (if e.predicted {
            1nat
        } else {
            0nat
        }),
{
    assert(s.push(e).drop_last() =~= s);
    assert(s.push(e).last() == e);
}

/// The covariance-mapping step at sample `k`: the appended estimate is the
/// time-update image of its predecessor under the sample's modeled
/// state-transition matrix, at the sample's modeled epoch.
pub open spec fn map_covar_step<P: Propagator, N: MeasurementDevice<P::MsrIn>, T: EkfTrigger>(
    pre: ODProcess<P, N, T>,
    samples: Seq<P::StateType>,
    estimates: Seq<Estimate>,
    k: int,
) -> bool {
    let old_len = pre.estimates@.len() as int;
    let est = estimates[old_len + k];
    let stm_k = pre.prop.spec_sample_stm(&samples[k]);
    let prev_covar = if k == 0 {
        pre.kf.prev_estimate.covar@
    } else {
        estimates[old_len + k - 1].covar@
    };
    let prev_state = if k == 0 {
        pre.kf.prev_estimate.state@
    } else {
        estimates[old_len + k - 1].state@
    };
    &&& est.predicted
    &&& est.dt == pre.prop.spec_sample_epoch(&samples[k])
    &&& est.stm@ == stm_k
    &&& est.covar@ == mat_mul(mat_mul(stm_k, prev_covar), mat_transpose(stm_k))
    &&& (pre.kf.ekf ==> est.state@ == crate::matrix::mat_zero(pre.kf.sdim(), 1))
    &&& (!pre.kf.ekf ==> est.state@ == mat_mul(stm_k, prev_state))
}

/// Convergence thresholds and the iteration cap of the outer iteration
/// loop, on the integer grid of the state representation.
pub struct IterationConfig {
    /// Largest allowed absolute change of an initial-state entry.
    pub absolute_tol: i128,
    /// Numerator of the relative threshold ratio.
    pub relative_tol_num: i128,
    /// Denominator of the relative threshold ratio (at least one).
    pub relative_tol_den: i128,
    /// Largest number of forward passes.
    pub max_iterations: usize,
}

/// The driver of an orbit-determination run.
pub struct ODProcess<P: Propagator, N: MeasurementDevice<P::MsrIn>, T: EkfTrigger> {
    /// Propagator used for the estimation.
    pub prop: P,
    /// The Kalman filter itself.
    pub kf: KF,
    /// The measurement devices used.
    pub devices: Vec<N>,
    /// Whether the devices can make simultaneous measurements.
    pub simultaneous_msr: bool,
    /// Estimates available after a pass, in epoch order.
    pub estimates: Vec<Estimate>,
    /// Residuals available after a pass, in epoch order.
    pub residuals: Vec<Residual>,
    /// The policy deciding the switch to extended mode.
    pub ekf_trigger: T,
}

impl<P: Propagator, N: MeasurementDevice<P::MsrIn>, T: EkfTrigger> ODProcess<P, N, T> {
    /// The filter, the propagator, every device and every stored estimate
    /// agree on the sizes.
    pub open spec fn wf(self) -> bool {
        &&& self.kf.wf()
        &&& self.prop.sdim() == self.kf.sdim()
        &&& forall|i: int|
            0 <= i < self.devices@.len() ==> (#[trigger] self.devices@[i]).msize()
                == self.kf.mdim() && self.devices@[i].ssize() == self.kf.sdim()
        &&& forall|k: int|
            0 <= k < self.estimates@.len() ==> (#[trigger] self.estimates@[k]).wf(self.kf.sdim())
    }

    /// A driver for a run that may switch to extended mode.
    pub fn ekf(
        prop: P,
        kf: KF,
        devices: Vec<N>,
        simultaneous_msr: bool,
        num_expected_msr: usize,
        trigger: T,
    ) -> (r: Self)
        requires
            kf.wf(),
            prop.sdim() == kf.sdim(),
            forall|i: int|
                0 <= i < devices@.len() ==> (#[trigger] devices@[i]).msize() == kf.mdim()
                    && devices@[i].ssize() == kf.sdim(),
        ensures
            r.wf(),
            r.prop == prop,
            r.kf == kf,
            r.devices == devices,
            r.ekf_trigger == trigger,
            r.simultaneous_msr == simultaneous_msr,
            r.estimates@.len() == 0,
            r.residuals@.len() == 0,
    {
        Self {
            prop,
            kf,
            devices,
            simultaneous_msr,
            estimates: Vec::with_capacity(num_expected_msr),
            residuals: Vec::with_capacity(num_expected_msr),
            ekf_trigger: trigger,
        }
    }

    /// A driver for a run that may switch to extended mode, with defaults:
    /// no simultaneous measurements.
    pub fn default_ekf(prop: P, kf: KF, devices: Vec<N>, trigger: T) -> (r: Self)
        requires
            kf.wf(),
            prop.sdim() == kf.sdim(),
            forall|i: int|
                0 <= i < devices@.len() ==> (#[trigger] devices@[i]).msize() == kf.mdim()
                    && devices@[i].ssize() == kf.sdim(),
        ensures
            r.wf(),
            r.prop == prop,
            r.kf == kf,
            r.devices == devices,
            r.ekf_trigger == trigger,
            !r.simultaneous_msr,
            r.estimates@.len() == 0,
            r.residuals@.len() == 0,
    {
        Self {
            prop,
            kf,
            devices,
            simultaneous_msr: false,
            estimates: Vec::with_capacity(10000),
            residuals: Vec::with_capacity(10000),
            ekf_trigger: trigger,
        }
    }

    /// Processes a batch of measurements without covariance mapping.
    ///
    /// For each measurement, the propagator is advanced to the measurement
    /// epoch, the accumulated state-transition matrix is injected into the
    /// filter, and each device is asked for a predicted measurement. The
    /// first visible device wins, unless simultaneous measurements are
    /// enabled, in which case every visible device is processed in list
    /// order. After each successful update the trigger may switch the
    /// filter to extended mode (one way), and in extended mode the
    /// estimated deviation is fed back into the propagator's reference.
    /// The filter's mode never leaves extended mode during the pass, and
    /// estimates and residuals are appended in step.
    #[verifier::loop_isolation(false)]
    pub fn process_measurements(&mut self, measurements: &Vec<(i64, Matrix)>) -> (r: Option<
        FilterError,
    >)
        requires
            old(self).wf(),
            forall|k: int|
                0 <= k < measurements@.len() ==> is_mat(
                    (#[trigger] measurements@[k]).1@,
                    old(self).kf.mdim(),
                    1,
                ),
            forall|k: int|
                0 <= k < measurements@.len() ==> -0x2000_0000_0000_0000 < (
                #[trigger] measurements@[k]).0 < 0x2000_0000_0000_0000,
            -0x2000_0000_0000_0000 < old(self).kf.prev_estimate.dt < 0x2000_0000_0000_0000,
        ensures
            final(self).wf(),
            final(self).kf.sdim() == old(self).kf.sdim(),
            final(self).kf.mdim() == old(self).kf.mdim(),
            old(self).kf.ekf ==> final(self).kf.ekf,
            final(self).estimates@.len() >= old(self).estimates@.len(),
            final(self).estimates@.subrange(0, old(self).estimates@.len() as int) == old(self).estimates@,
            final(self).residuals@.len() >= old(self).residuals@.len(),
            final(self).residuals@.subrange(0, old(self).residuals@.len() as int) == old(self).residuals@,
            forall|k: int|
                old(self).estimates@.len() <= k < final(self).estimates@.len() ==> !(
                #[trigger] final(self).estimates@[k]).predicted,
            final(self).estimates@.len() - old(self).estimates@.len() == final(self).residuals@.len() - old(self).residuals@.len(),
            measurements@.len() == 0 ==> r is None && *final(self) == *old(self),
            r is Some ==> r == Some(FilterError::GainIsSingular) || r == Some(
                FilterError::ArithmeticRange,
            ),
            (forall|t: T, e: Estimate| !(#[trigger] t.spec_fires(&e))) ==> final(self).kf.ekf
                == old(self).kf.ekf,
            forall|k: int|
                old(self).residuals@.len() <= k < final(self).residuals@.len() ==> (
                #[trigger] final(self).residuals@[k]).accepted,
    {
        let mut prev_dt = self.kf.prev_estimate.dt;
        let mut msr_cnt: usize = 0;
        while msr_cnt < measurements.len()
            invariant
                self.wf(),
                self.kf.sdim() == old(self).kf.sdim(),
                self.kf.mdim() == old(self).kf.mdim(),
                old(self).kf.ekf ==> self.kf.ekf,
                self.estimates@.len() >= old(self).estimates@.len(),
                self.estimates@.subrange(0, old(self).estimates@.len() as int) == old(self).estimates@,
                self.residuals@.len() >= old(self).residuals@.len(),
                self.residuals@.subrange(0, old(self).residuals@.len() as int) == old(self).residuals@,
                forall|k: int|
                    old(self).estimates@.len() <= k < self.estimates@.len() ==> !(
                    #[trigger] self.estimates@[k]).predicted,
                self.estimates@.len() - old(self).estimates@.len() == self.residuals@.len() - old(self).residuals@.len(),
                msr_cnt <= measurements@.len(),
                -0x2000_0000_0000_0000 < prev_dt < 0x2000_0000_0000_0000,
                measurements@.len() == 0 ==> *self == *old(self),
                (forall|t: T, e: Estimate| !(#[trigger] t.spec_fires(&e))) ==> self.kf.ekf == old(self).kf.ekf,
                forall|k: int|
                    old(self).residuals@.len() <= k < self.residuals@.len() ==> (
                    #[trigger] self.residuals@[k]).accepted,
            decreases measurements@.len() - msr_cnt,
        {
            let next_epoch = measurements[msr_cnt].0;
            let real_obs = measurements[msr_cnt].1.clone();
            let delta = next_epoch - prev_dt;
            prev_dt = next_epoch;
            self.prop.until_time_elapsed(delta);
            let stm = self.prop.stm();
            self.kf.update_stm(stm.clone());
            let (dt, meas_input) = self.prop.to_measurement();
            let mut d_idx: usize = 0;
            let mut stop = false;
            while d_idx < self.devices.len() && !stop
                invariant
                    self.wf(),
                    self.kf.sdim() == old(self).kf.sdim(),
                    self.kf.mdim() == old(self).kf.mdim(),
                    old(self).kf.ekf ==> self.kf.ekf,
                    self.estimates@.len() >= old(self).estimates@.len(),
                    self.estimates@.subrange(0, old(self).estimates@.len() as int) == old(self).estimates@,
                    self.residuals@.len() >= old(self).residuals@.len(),
                    self.residuals@.subrange(0, old(self).residuals@.len() as int) == old(self).residuals@,
                    forall|k: int|
                        old(self).estimates@.len() <= k < self.estimates@.len() ==> !(
                        #[trigger] self.estimates@[k]).predicted,
                    self.estimates@.len() - old(self).estimates@.len() == self.residuals@.len()
                        - old(self).residuals@.len(),
                    d_idx <= self.devices@.len(),
                    is_mat(real_obs@, self.kf.mdim(), 1),
                    is_mat(stm@, self.kf.sdim(), self.kf.sdim()),
                    (forall|t: T, e: Estimate| !(#[trigger] t.spec_fires(&e))) ==> self.kf.ekf
                        == old(self).kf.ekf,
                    forall|k: int|
                        old(self).residuals@.len() <= k < self.residuals@.len() ==> (
                        #[trigger] self.residuals@[k]).accepted,
                decreases self.devices@.len() - d_idx, (if stop { 0int } else { 1int }),
            {
                match self.devices[d_idx].measure(&meas_input) {
                    Some(computed_meas) => {
                        if computed_meas.visible {
                            // The freshness bits are consumed by each update:
                            // re-inject both before every measurement update.
                            self.kf.update_stm(stm.clone());
                            self.kf.update_h_tilde(computed_meas.sensitivity);
                            match self.kf.measurement_update(
                                dt,
                                real_obs.clone(),
                                computed_meas.observation,
                            ) {
                                Ok((est, res)) => {
                                    if !self.kf.is_extended() {
                                        let fire = self.ekf_trigger.enable_ekf(&est);
                                        if fire {
                                            self.kf.set_extended(true);
                                        }
                                    }
                                    if self.kf.is_extended() {
                                        let cur = self.prop.estimated_state();
                                        proof {
                                            crate::matrix::lemma_cols_of(
                                                cur@,
                                                self.kf.sdim(),
                                                1,
                                            );
                                        }
                                        match cur.checked_add(&est.state) {
                                            Some(nw) => {
                                                self.prop.set_estimated_state(nw);
                                            },
                                            None => {
                                                return Some(FilterError::ArithmeticRange);
                                            },
                                        }
                                    }
                                    self.estimates.push(est);
                                    self.residuals.push(res);
                                    proof {
                                        assert(self.estimates@.subrange(
                                            0,
                                            old(self).estimates@.len() as int,
                                        ) =~= old(self).estimates@);
                                        assert(self.residuals@.subrange(
                                            0,
                                            old(self).residuals@.len() as int,
                                        ) =~= old(self).residuals@);
                                    }
                                },
                                Err(e) => {
                                    return Some(e);
                                },
                            }
                            if !self.simultaneous_msr {
                                stop = true;
                            }
                        }
                    },
                    None => {},
                }
                d_idx = d_idx + 1;
            }
            msr_cnt = msr_cnt + 1;
        }
        None
    }

    /// Processes measurements against a drained stream of reference-state
    /// samples, with covariance mapping.
    ///
    /// The propagator is first advanced over the whole measurement span.
    /// Then, for each streamed sample: the sample's state-transition matrix
    /// is injected before every update; a measurement earlier than the
    /// sample epoch was missed by the stream and is skipped; a later one
    /// leaves a pure time update at this sample, unless a measurement
    /// update already happened here; a measurement at the sample epoch is
    /// processed as in the batch driver, and further measurements sharing
    /// that epoch follow. Once the measurements are exhausted, time updates
    /// alone map the covariance to the end of the span.
    #[verifier::loop_isolation(false)]
    #[verifier::rlimit(60)]
    pub fn process_measurements_covar(
        &mut self,
        prop_states: &Vec<P::StateType>,
        measurements: &Vec<(i64, Matrix)>,
    ) -> (r: Option<FilterError>)
        requires
            old(self).wf(),
            forall|k: int|
                0 <= k < prop_states@.len() ==> old(self).prop.st_wf(
                    &(#[trigger] prop_states@[k]),
                ),
            forall|k: int|
                0 <= k < measurements@.len() ==> is_mat(
                    (#[trigger] measurements@[k]).1@,
                    old(self).kf.mdim(),
                    1,
                ),
            forall|k: int|
                0 <= k < measurements@.len() ==> -0x2000_0000_0000_0000 < (
                #[trigger] measurements@[k]).0 < 0x2000_0000_0000_0000,
            -0x2000_0000_0000_0000 < old(self).kf.prev_estimate.dt < 0x2000_0000_0000_0000,
        ensures
            final(self).wf(),
            final(self).kf.sdim() == old(self).kf.sdim(),
            final(self).kf.mdim() == old(self).kf.mdim(),
            old(self).kf.ekf ==> final(self).kf.ekf,
            final(self).estimates@.len() >= old(self).estimates@.len(),
            final(self).estimates@.subrange(0, old(self).estimates@.len() as int) == old(self).estimates@,
            final(self).residuals@.len() >= old(self).residuals@.len(),
            final(self).residuals@.subrange(0, old(self).residuals@.len() as int) == old(self).residuals@,
            measurements@.len() == 0 <==> r == Some(FilterError::NoMeasurements),
            measurements@.len() == 0 ==> *final(self) == *old(self),
            measurements@.len() > 0 && prop_states@.len() == 0 ==> r is None && final(self).kf
                == old(self).kf && final(self).estimates == old(self).estimates && final(self).residuals == old(self).residuals,
            r is Some ==> r == Some(FilterError::NoMeasurements) || r == Some(
                FilterError::GainIsSingular,
            ) || r == Some(FilterError::ArithmeticRange),
            (forall|t: T, e: Estimate| !(#[trigger] t.spec_fires(&e))) ==> final(self).kf.ekf
                == old(self).kf.ekf,
            final(self).estimates@.len() - old(self).estimates@.len() >= final(self).residuals@.len() - old(self).residuals@.len(),
            final(self).estimates@.len() - old(self).estimates@.len() == count_predicted(
                final(self).estimates@.subrange(
                    old(self).estimates@.len() as int,
                    final(self).estimates@.len() as int,
                ),
            ) + final(self).residuals@.len() - old(self).residuals@.len(),
            forall|k: int|
                old(self).residuals@.len() <= k < final(self).residuals@.len() ==> (
                #[trigger] final(self).residuals@[k]).accepted,
    {
        if measurements.len() == 0 {
            return Some(FilterError::NoMeasurements);
        }
        let num_msrs = measurements.len();
        let last_epoch = measurements[num_msrs - 1].0;
        let prop_time = last_epoch - self.kf.prev_estimate.dt;
        self.prop.until_time_elapsed(prop_time);
        let mut msr_cnt: usize = 0;
        let mut st_idx: usize = 0;
        while st_idx < prop_states.len()
            invariant
                self.wf(),
                self.kf.sdim() == old(self).kf.sdim(),
                self.kf.mdim() == old(self).kf.mdim(),
                old(self).kf.ekf ==> self.kf.ekf,
                self.estimates@.len() >= old(self).estimates@.len(),
                self.estimates@.subrange(0, old(self).estimates@.len() as int) == old(self).estimates@,
                self.residuals@.len() >= old(self).residuals@.len(),
                self.residuals@.subrange(0, old(self).residuals@.len() as int) == old(self).residuals@,
                self.estimates@.len() - old(self).estimates@.len() >= self.residuals@.len() - old(self).residuals@.len(),
                self.estimates@.len() - old(self).estimates@.len() == count_predicted(
                    self.estimates@.subrange(
                        old(self).estimates@.len() as int,
                        self.estimates@.len() as int,
                    ),
                ) + self.residuals@.len() - old(self).residuals@.len(),
                forall|k: int|
                    0 <= k < prop_states@.len() ==> self.prop.st_wf(&(#[trigger] prop_states@[k])),
                st_idx <= prop_states@.len(),
                msr_cnt <= measurements@.len(),
                prop_states@.len() == 0 ==> self.kf == old(self).kf && self.estimates == old(self).estimates && self.residuals == old(self).residuals,
                (forall|t: T, e: Estimate| !(#[trigger] t.spec_fires(&e))) ==> self.kf.ekf == old(self).kf.ekf,
                forall|k: int|
                    old(self).residuals@.len() <= k < self.residuals@.len() ==> (
                    #[trigger] self.residuals@[k]).accepted,
            decreases prop_states@.len() - st_idx,
        {
            let (dt, meas_input) = self.prop.to_measurement_state(&prop_states[st_idx]);
            let mut did_update = false;
            let mut advance = false;
            while !advance
                invariant
                    self.wf(),
                    self.kf.sdim() == old(self).kf.sdim(),
                    self.kf.mdim() == old(self).kf.mdim(),
                    old(self).kf.ekf ==> self.kf.ekf,
                    self.estimates@.len() >= old(self).estimates@.len(),
                    self.estimates@.subrange(0, old(self).estimates@.len() as int) == old(self).estimates@,
                    self.residuals@.len() >= old(self).residuals@.len(),
                    self.residuals@.subrange(0, old(self).residuals@.len() as int) == old(self).residuals@,
                    self.estimates@.len() - old(self).estimates@.len() >= self.residuals@.len()
                        - old(self).residuals@.len(),
                    self.estimates@.len() - old(self).estimates@.len() == count_predicted(
                        self.estimates@.subrange(
                            old(self).estimates@.len() as int,
                            self.estimates@.len() as int,
                        ),
                    ) + self.residuals@.len() - old(self).residuals@.len(),
                    forall|k: int|
                        0 <= k < prop_states@.len() ==> self.prop.st_wf(
                            &(#[trigger] prop_states@[k]),
                        ),
                    st_idx < prop_states@.len(),
                    msr_cnt <= measurements@.len(),
                    (forall|t: T, e: Estimate| !(#[trigger] t.spec_fires(&e))) ==> self.kf.ekf
                        == old(self).kf.ekf,
                    forall|k: int|
                        old(self).residuals@.len() <= k < self.residuals@.len() ==> (
                        #[trigger] self.residuals@[k]).accepted,
                decreases measurements@.len() - msr_cnt + (if advance {
                    0int
                } else {
                    1int
                }),
            {
                let stm = self.prop.extract_stm(&prop_states[st_idx]);
                self.kf.update_stm(stm.clone());
                if msr_cnt < num_msrs {
                    let next_epoch = measurements[msr_cnt].0;
                    if next_epoch < dt {
                        // The stream outran this measurement: skip it.
                        msr_cnt = msr_cnt + 1;
                    } else if next_epoch > dt {
                        // No measurement at this sample: a pure time update,
                        // unless a measurement update already happened here.
                        if !did_update {
                            match self.kf.time_update(dt) {
                                Ok(est) => {
                                    if self.kf.is_extended() {
                                        let cur = self.prop.extract_estimated_state(
                                            &prop_states[st_idx],
                                        );
                                        proof {
                                            crate::matrix::lemma_cols_of(cur@, self.kf.sdim(), 1);
                                        }
                                        match cur.checked_add(&est.state) {
                                            Some(nw) => {
                                                self.prop.set_estimated_state(nw);
                                            },
                                            None => {
                                                return Some(FilterError::ArithmeticRange);
                                            },
                                        }
                                    }
                                    let ghost pre_hist = self.estimates@;
                                    self.estimates.push(est);
                                    proof {
                                        let ol = old(self).estimates@.len() as int;
                                        assert(self.estimates@.subrange(0, ol) =~= old(
                                            self,
                                        ).estimates@);
                                        assert(self.estimates@.subrange(
                                            ol,
                                            self.estimates@.len() as int,
                                        ) =~= pre_hist.subrange(ol, pre_hist.len() as int).push(
                                            est,
                                        ));
                                        lemma_count_predicted_push(
                                            pre_hist.subrange(ol, pre_hist.len() as int),
                                            est,
                                        );
                                    }
                                },
                                Err(e) => {
                                    return Some(e);
                                },
                            }
                        }
                        advance = true;
                    } else {
                        // The epochs match: take the measurement here.
                        let real_obs = measurements[msr_cnt].1.clone();
                        let mut d_idx: usize = 0;
                        let mut stop = false;
                        while d_idx < self.devices.len() && !stop
                            invariant
                                self.wf(),
                                self.kf.sdim() == old(self).kf.sdim(),
                                self.kf.mdim() == old(self).kf.mdim(),
                                old(self).kf.ekf ==> self.kf.ekf,
                                self.estimates@.len() >= old(self).estimates@.len(),
                                self.estimates@.subrange(0, old(self).estimates@.len() as int)
                                    == old(self).estimates@,
                                self.residuals@.len() >= old(self).residuals@.len(),
                                self.residuals@.subrange(0, old(self).residuals@.len() as int)
                                    == old(self).residuals@,
                                self.estimates@.len() - old(self).estimates@.len()
                                    >= self.residuals@.len() - old(self).residuals@.len(),
                                self.estimates@.len() - old(self).estimates@.len()
                                    == count_predicted(
                                    self.estimates@.subrange(
                                        old(self).estimates@.len() as int,
                                        self.estimates@.len() as int,
                                    ),
                                ) + self.residuals@.len() - old(self).residuals@.len(),
                                forall|k: int|
                                    0 <= k < prop_states@.len() ==> self.prop.st_wf(
                                        &(#[trigger] prop_states@[k]),
                                    ),
                                st_idx < prop_states@.len(),
                                d_idx <= self.devices@.len(),
                                is_mat(real_obs@, self.kf.mdim(), 1),
                                is_mat(stm@, self.kf.sdim(), self.kf.sdim()),
                                (forall|t: T, e: Estimate| !(#[trigger] t.spec_fires(&e)))
                                    ==> self.kf.ekf == old(self).kf.ekf,
                                forall|k: int|
                                    old(self).residuals@.len() <= k < self.residuals@.len() ==> (
                                    #[trigger] self.residuals@[k]).accepted,
                            decreases self.devices@.len() - d_idx, (if stop {
                                0int
                            } else {
                                1int
                            }),
                        {
                            match self.devices[d_idx].measure(&meas_input) {
                                Some(computed_meas) => {
                                    if computed_meas.visible {
                                        // Both freshness bits are consumed by
                                        // each update: re-inject them.
                                        self.kf.update_stm(stm.clone());
                                        self.kf.update_h_tilde(computed_meas.sensitivity);
                                        match self.kf.measurement_update(
                                            dt,
                                            real_obs.clone(),
                                            computed_meas.observation,
                                        ) {
                                            Ok((est, res)) => {
                                                if !self.kf.is_extended() {
                                                    let fire = self.ekf_trigger.enable_ekf(&est);
                                                    if fire {
                                                        self.kf.set_extended(true);
                                                    }
                                                }
                                                if self.kf.is_extended() {
                                                    let cur = self.prop.extract_estimated_state(
                                                        &prop_states[st_idx],
                                                    );
                                                    proof {
                                                        crate::matrix::lemma_cols_of(
                                                            cur@,
                                                            self.kf.sdim(),
                                                            1,
                                                        );
                                                    }
                                                    match cur.checked_add(&est.state) {
                                                        Some(nw) => {
                                                            self.prop.set_estimated_state(nw);
                                                        },
                                                        None => {
                                                            return Some(
                                                                FilterError::ArithmeticRange,
                                                            );
                                                        },
                                                    }
                                                }
                                                let ghost pre_hist = self.estimates@;
                                                self.estimates.push(est);
                                                self.residuals.push(res);
                                                proof {
                                                    let ol = old(self).estimates@.len() as int;
                                                    assert(self.estimates@.subrange(0, ol) =~= old(
                                                        self,
                                                    ).estimates@);
                                                    assert(self.residuals@.subrange(
                                                        0,
                                                        old(self).residuals@.len() as int,
                                                    ) =~= old(self).residuals@);
                                                    assert(self.estimates@.subrange(
                                                        ol,
                                                        self.estimates@.len() as int,
                                                    ) =~= pre_hist.subrange(
                                                        ol,
                                                        pre_hist.len() as int,
                                                    ).push(est));
                                                    lemma_count_predicted_push(
                                                        pre_hist.subrange(
                                                            ol,
                                                            pre_hist.len() as int,
                                                        ),
                                                        est,
                                                    );
                                                }
                                            },
                                            Err(e) => {
                                                return Some(e);
                                            },
                                        }
                                        if !self.simultaneous_msr {
                                            stop = true;
                                        }
                                    }
                                },
                                None => {},
                            }
                            d_idx = d_idx + 1;
                        }
                        msr_cnt = msr_cnt + 1;
                        did_update = true;
                    }
                } else {
                    // No measurements left: map the covariance onward.
                    match self.kf.time_update(dt) {
                        Ok(est) => {
                            if self.kf.is_extended() {
                                let cur = self.prop.extract_estimated_state(&prop_states[st_idx]);
                                proof {
                                    crate::matrix::lemma_cols_of(cur@, self.kf.sdim(), 1);
                                }
                                match cur.checked_add(&est.state) {
                                    Some(nw) => {
                                        self.prop.set_estimated_state(nw);
                                    },
                                    None => {
                                        return Some(FilterError::ArithmeticRange);
                                    },
                                }
                            }
                            let ghost pre_hist = self.estimates@;
                            self.estimates.push(est);
                            proof {
                                let ol = old(self).estimates@.len() as int;
                                assert(self.estimates@.subrange(0, ol) =~= old(self).estimates@);
                                assert(self.estimates@.subrange(
                                    ol,
                                    self.estimates@.len() as int,
                                ) =~= pre_hist.subrange(ol, pre_hist.len() as int).push(est));
                                lemma_count_predicted_push(
                                    pre_hist.subrange(ol, pre_hist.len() as int),
                                    est,
                                );
                            }
                        },
                        Err(e) => {
                            return Some(e);
                        },
                    }
                    advance = true;
                }
            }
            st_idx = st_idx + 1;
        }
        None
    }

    /// Maps the covariance to an end epoch without processing any
    /// measurements: a pure time update at each streamed reference sample.
    #[verifier::loop_isolation(false)]
    pub fn map_covar(&mut self, prop_states: &Vec<P::StateType>, end_epoch: i64) -> (r: Option<
        FilterError,
    >)
        requires
            old(self).wf(),
            forall|k: int|
                0 <= k < prop_states@.len() ==> old(self).prop.st_wf(
                    &(#[trigger] prop_states@[k]),
                ),
            -0x2000_0000_0000_0000 < end_epoch < 0x2000_0000_0000_0000,
            -0x2000_0000_0000_0000 < old(self).kf.prev_estimate.dt < 0x2000_0000_0000_0000,
        ensures
            final(self).wf(),
            final(self).kf.sdim() == old(self).kf.sdim(),
            final(self).kf.mdim() == old(self).kf.mdim(),
            old(self).kf.ekf ==> final(self).kf.ekf,
            final(self).estimates@.len() >= old(self).estimates@.len(),
            final(self).estimates@.subrange(0, old(self).estimates@.len() as int) == old(self).estimates@,
            final(self).residuals == old(self).residuals,
            forall|k: int|
                old(self).estimates@.len() <= k < final(self).estimates@.len() ==> (
                #[trigger] final(self).estimates@[k]).predicted,
            prop_states@.len() == 0 ==> r is None && final(self).kf == old(self).kf && final(self).estimates == old(self).estimates,
            r is Some ==> r == Some(FilterError::ArithmeticRange),
            final(self).kf.ekf == old(self).kf.ekf,
            r is None ==> final(self).estimates@.len() == old(self).estimates@.len()
                + prop_states@.len(),
            r is None ==> forall|k: int|
                0 <= k < prop_states@.len() ==> map_covar_step(
                    *old(self),
                    prop_states@,
                    final(self).estimates@,
                    k,
                ),
    {
        let ghost old_len = self.estimates@.len() as int;
        let prop_time = end_epoch - self.kf.prev_estimate.dt;
        self.prop.until_time_elapsed(prop_time);
        let mut st_idx: usize = 0;
        while st_idx < prop_states.len()
            invariant
                self.wf(),
                self.kf.sdim() == old(self).kf.sdim(),
                self.kf.mdim() == old(self).kf.mdim(),
                self.kf.ekf == old(self).kf.ekf,
                old_len == old(self).estimates@.len(),
                self.estimates@.len() == old_len + st_idx,
                self.estimates@.subrange(0, old(self).estimates@.len() as int) == old(self).estimates@,
                self.residuals == old(self).residuals,
                forall|k: int|
                    old(self).estimates@.len() <= k < self.estimates@.len() ==> (
                    #[trigger] self.estimates@[k]).predicted,
                forall|k: int|
                    0 <= k < prop_states@.len() ==> self.prop.st_wf(&(#[trigger] prop_states@[k])),
                forall|k: int|
                    0 <= k < prop_states@.len() ==> self.prop.spec_sample_stm(
                        &(#[trigger] prop_states@[k]),
                    ) == old(self).prop.spec_sample_stm(&prop_states@[k])
                        && self.prop.spec_sample_epoch(&prop_states@[k]) == old(self).prop.spec_sample_epoch(&prop_states@[k]),
                st_idx <= prop_states@.len(),
                forall|k: int|
                    0 <= k < st_idx ==> map_covar_step(
                        *old(self),
                        prop_states@,
                        self.estimates@,
                        k,
                    ),
                self.kf.prev_estimate.covar@ == (if st_idx == 0 {
                    old(self).kf.prev_estimate.covar@
                } else {
                    self.estimates@[old_len + st_idx - 1].covar@
                }),
                self.kf.prev_estimate.state@ == (if st_idx == 0 {
                    old(self).kf.prev_estimate.state@
                } else {
                    self.estimates@[old_len + st_idx - 1].state@
                }),
                prop_states@.len() == 0 ==> self.kf == old(self).kf && self.estimates == old(self).estimates,
            decreases prop_states@.len() - st_idx,
        {
            let (dt, _input) = self.prop.to_measurement_state(&prop_states[st_idx]);
            let stm = self.prop.extract_stm(&prop_states[st_idx]);
            self.kf.update_stm(stm);
            match self.kf.time_update(dt) {
                Ok(est) => {
                    if self.kf.is_extended() {
                        let cur = self.prop.extract_estimated_state(&prop_states[st_idx]);
                        proof {
                            crate::matrix::lemma_cols_of(cur@, self.kf.sdim(), 1);
                        }
                        match cur.checked_add(&est.state) {
                            Some(nw) => {
                                self.prop.set_estimated_state(nw);
                            },
                            None => {
                                return Some(FilterError::ArithmeticRange);
                            },
                        }
                    }
                    let ghost pre_seq = self.estimates@;
                    self.estimates.push(est);
                    proof {
                        assert(self.estimates@.subrange(0, old(self).estimates@.len() as int)
                            =~= old(self).estimates@);
                        assert(self.estimates@[old_len + st_idx as int] == est);
                        assert(map_covar_step(
                            *old(self),
                            prop_states@,
                            self.estimates@,
                            st_idx as int,
                        ));
                        assert forall|k: int| 0 <= k < st_idx implies map_covar_step(
                            *old(self),
                            prop_states@,
                            self.estimates@,
                            k,
                        ) by {
                            assert(map_covar_step(*old(self), prop_states@, pre_seq, k));
                            assert(self.estimates@[old_len + k] == pre_seq[old_len + k]);
                            if k > 0 {
                                assert(self.estimates@[old_len + k - 1] == pre_seq[old_len + k
                                    - 1]);
                            }
                        }
                    }
                },
                Err(e) => {
                    return Some(e);
                },
            }
            st_idx = st_idx + 1;
        }
        None
    }

    /// Whether the change from `prev` to `next` stays within the absolute
    /// or the relative tolerance, entry by entry; `None` when a comparison
    /// leaves machine range. A decision helper of the outer loop.
    #[verifier::loop_isolation(false)]
    fn within_tolerance(prev: &Matrix, next: &Matrix, config: &IterationConfig) -> (r: Option<
        bool,
    >)
        requires
            prev@.len() >= 1,
            is_mat(prev@, prev@.len(), 1),
            is_mat(next@, prev@.len(), 1),
    {
        let n = prev.nrows();
        let mut abs_ok = true;
        let mut rel_ok = true;
        let mut i: usize = 0;
        while i < n
            invariant
                i <= n,
            decreases n - i,
        {
            proof {
                assert(prev@[i as int].len() == 1);
                assert(next@[i as int].len() == 1);
            }
            let a = prev.get(i, 0);
            let b = next.get(i, 0);
            let diff = match b.checked_sub(a) {
                Some(d) => d,
                None => {
                    return None;
                },
            };
            let adiff = if diff < 0 {
                match (0i128).checked_sub(diff) {
                    Some(x) => x,
                    None => {
                        return None;
                    },
                }
            } else {
                diff
            };
            let amag = if a < 0 {
                match (0i128).checked_sub(a) {
                    Some(x) => x,
                    None => {
                        return None;
                    },
                }
            } else {
                a
            };
            if adiff > config.absolute_tol {
                abs_ok = false;
            }
            let lhs = match adiff.checked_mul(config.relative_tol_den) {
                Some(x) => x,
                None => {
                    return None;
                },
            };
            let rhs = match config.relative_tol_num.checked_mul(amag) {
                Some(x) => x,
                None => {
                    return None;
                },
            };
            if lhs > rhs {
                rel_ok = false;
            }
            i = i + 1;
        }
        Some(abs_ok || rel_ok)
    }

    /// The outer iteration loop: a forward pass over the measurements, a
    /// backward smoother pass, then a convergence check of the smoothed
    /// initial state against the previous pass's initial state. Until the
    /// change falls below the absolute or relative tolerance or the
    /// iteration cap is reached, the filter is reset to the smoothed
    /// initial estimate, the histories are cleared and the propagator is
    /// re-seeded for the next pass. On success the histories hold the
    /// smoothed results of the last pass.
    #[verifier::loop_isolation(false)]
    pub fn iterate(
        &mut self,
        measurements: &Vec<(i64, Matrix)>,
        config: &IterationConfig,
    ) -> (r: Option<FilterError>)
        requires
            old(self).wf(),
            forall|k: int|
                0 <= k < measurements@.len() ==> is_mat(
                    (#[trigger] measurements@[k]).1@,
                    old(self).kf.mdim(),
                    1,
                ),
            forall|k: int|
                0 <= k < measurements@.len() ==> -0x2000_0000_0000_0000 < (
                #[trigger] measurements@[k]).0 < 0x2000_0000_0000_0000,
        ensures
            final(self).wf(),
            final(self).kf.sdim() == old(self).kf.sdim(),
            final(self).kf.mdim() == old(self).kf.mdim(),
            old(self).kf.ekf ==> final(self).kf.ekf,
            config.max_iterations == 0 ==> r is None && *final(self) == *old(self),
            r is Some ==> r == Some(FilterError::GainIsSingular) || r == Some(
                FilterError::ArithmeticRange,
            ) || r == Some(FilterError::StateTransitionMatrixSingular),
    {
        let mut it: usize = 0;
        let mut prev_initial = self.kf.prev_estimate.state.clone();
        while it < config.max_iterations
            invariant
                self.wf(),
                self.kf.sdim() == old(self).kf.sdim(),
                self.kf.mdim() == old(self).kf.mdim(),
                old(self).kf.ekf ==> self.kf.ekf,
                it <= config.max_iterations,
                is_mat(prev_initial@, self.kf.sdim(), 1),
                it == 0 ==> *self == *old(self),
            decreases config.max_iterations - it,
        {
            if !(self.kf.prev_estimate.dt > -0x2000_0000_0000_0000 && self.kf.prev_estimate.dt
                < 0x2000_0000_0000_0000) {
                return Some(FilterError::ArithmeticRange);
            }
            match self.process_measurements(measurements) {
                Some(e) => {
                    return Some(e);
                },
                None => {},
            }
            match self.smooth() {
                Some(e) => {
                    return Some(e);
                },
                None => {},
            }
            if self.estimates.len() == 0 {
                // No device accepted anything: there is nothing to iterate
                // on, and the pass left a consistent (empty) history.
                return None;
            }
            let new_initial = self.estimates[0].state.clone();
            proof {
                assert(self.estimates@[0].wf(self.kf.sdim()));
            }
            let conv = match Self::within_tolerance(&prev_initial, &new_initial, config) {
                Some(b) => b,
                None => {
                    return Some(FilterError::ArithmeticRange);
                },
            };
            if conv {
                return None;
            }
            it = it + 1;
            if it < config.max_iterations {
                // Reset for the next pass: the smoothed initial estimate
                // becomes the filter's base, the histories are cleared and
                // the propagator is re-seeded.
                let seed = self.estimates[0].clone();
                self.kf.prev_estimate = seed;
                self.kf.stm_updated = false;
                self.kf.h_tilde_updated = false;
                self.estimates = Vec::new();
                self.residuals = Vec::new();
                let reference = self.kf.prev_estimate.state.clone();
                self.prop.reseed(reference);
                prev_initial = new_initial;
            }
        }
        None
    }

    /// Backward smoother: every estimate after the first is replaced by its
    /// image under the inverse of its state-transition matrix
    /// (`x_s = Φ⁻¹ x`, `P_s = Φ⁻¹ P Φ⁻ᵀ`), restoring chronological order.
    /// The history is replaced only when the whole pass succeeds.
    pub fn smooth(&mut self) -> (r: Option<FilterError>)
        requires
            old(self).wf(),
        ensures
            final(self).wf(),
            final(self).kf == old(self).kf,
            final(self).residuals == old(self).residuals,
            final(self).simultaneous_msr == old(self).simultaneous_msr,
            r is Some ==> *final(self) == *old(self) && (r == Some(
                FilterError::StateTransitionMatrixSingular,
            ) || r == Some(FilterError::ArithmeticRange)),
            (forall|k: int|
                1 <= k < old(self).estimates@.len() ==> smooth_step_fits(
                    #[trigger] old(self).estimates@[k],
                )) ==> r is None,
            r == Some(FilterError::StateTransitionMatrixSingular) ==> exists|k: int|
                1 <= k < old(self).estimates@.len() && !inverse_computable(
                    (#[trigger] old(self).estimates@[k]).stm@,
                ),
            (exists|k: int|
                1 <= k < old(self).estimates@.len() && !inverse_computable(
                    (#[trigger] old(self).estimates@[k]).stm@,
                ) && (forall|j: int| 1 <= j < k ==> smooth_step_fits(old(self).estimates@[j])))
                ==> r == Some(FilterError::StateTransitionMatrixSingular),
            r is None ==> {
                &&& final(self).estimates@.len() == old(self).estimates@.len()
                &&& (old(self).estimates@.len() > 0 ==> est_equiv(
                    final(self).estimates@[0],
                    old(self).estimates@[0],
                ))
                &&& forall|k: int|
                    1 <= k < old(self).estimates@.len() ==> smoothed_rel(
                        old(self).estimates@[k],
                        #[trigger] final(self).estimates@[k],
                    )
            },
    {
        let ghost s_dim = self.kf.sdim();
        let mut smoothed: Vec<Estimate> = Vec::with_capacity(self.estimates.len());
        let mut i: usize = 0;
        while i < self.estimates.len()
            invariant
                self.wf(),
                *self == *old(self),
                s_dim == self.kf.sdim(),
                i <= self.estimates@.len(),
                smoothed@.len() == i,
                forall|k: int| 0 <= k < i ==> (#[trigger] smoothed@[k]).wf(s_dim),
                i > 0 ==> est_equiv(smoothed@[0], self.estimates@[0]),
                forall|k: int|
                    1 <= k < i ==> smoothed_rel(self.estimates@[k], #[trigger] smoothed@[k]),
                forall|k: int| 1 <= k < i ==> smooth_step_fits(#[trigger] self.estimates@[k]),
            decreases self.estimates@.len() - i,
        {
            let est = &self.estimates[i];
            if i == 0 {
                smoothed.push(est.clone());
            } else {
                let inv = match est.stm.try_inverse() {
                    Some(m) => m,
                    None => {
                        proof {
                            assert(!smooth_step_fits(self.estimates@[i as int]));
                        }
                        return Some(FilterError::StateTransitionMatrixSingular);
                    },
                };
                proof {
                    crate::matrix::lemma_cols_of(inv@, s_dim, s_dim);
                    crate::matrix::lemma_cols_of(est.state@, s_dim, 1);
                    crate::matrix::lemma_cols_of(est.covar@, s_dim, s_dim);
                }
                let sm_state = match inv.checked_mul(&est.state) {
                    Some(m) => m,
                    None => {
                        proof {
                            self.lemma_no_singular_witness(i as int);
                        }
                        return Some(FilterError::ArithmeticRange);
                    },
                };
                let t = match inv.checked_mul(&est.covar) {
                    Some(m) => m,
                    None => {
                        proof {
                            self.lemma_no_singular_witness(i as int);
                        }
                        return Some(FilterError::ArithmeticRange);
                    },
                };
                let inv_t = inv.transpose();
                proof {
                    crate::matrix::lemma_transpose_shape(inv@);
                    crate::matrix::lemma_cols_of(t@, s_dim, s_dim);
                }
                let sm_covar = match t.checked_mul(&inv_t) {
                    Some(m) => m,
                    None => {
                        proof {
                            self.lemma_no_singular_witness(i as int);
                        }
                        return Some(FilterError::ArithmeticRange);
                    },
                };
                let sm = Estimate {
                    dt: est.dt,
                    state: sm_state,
                    covar: sm_covar,
                    stm: est.stm.clone(),
                    predicted: est.predicted,
                };
                proof {
                    assert(smoothed_rel(self.estimates@[i as int], sm));
                    assert(smooth_step_fits(self.estimates@[i as int]));
                }
                smoothed.push(sm);
            }
            i = i + 1;
        }
        proof {
            if exists|k: int|
                1 <= k < self.estimates@.len() && !inverse_computable(
                    (#[trigger] self.estimates@[k]).stm@,
                ) && (forall|j: int| 1 <= j < k ==> smooth_step_fits(self.estimates@[j])) {
                let k = choose|k: int|
                    1 <= k < self.estimates@.len() && !inverse_computable(
                        (#[trigger] self.estimates@[k]).stm@,
                    ) && (forall|j: int| 1 <= j < k ==> smooth_step_fits(self.estimates@[j]));
                assert(smooth_step_fits(self.estimates@[k]));
                assert(false);
            }
        }
        self.estimates = smoothed;
        None
    }

    /// At an index whose inversion succeeded but whose mapped products left
    /// machine range, no index qualifies as the first singular one: every
    /// earlier step fits, this one is invertible, and any later witness
    /// would need this step to fit.
    proof fn lemma_no_singular_witness(&self, i: int)
        requires
            1 <= i < self.estimates@.len(),
            inverse_computable(self.estimates@[i].stm@),
            !smooth_step_fits(self.estimates@[i]),
            forall|k: int| 1 <= k < i ==> smooth_step_fits(#[trigger] self.estimates@[k]),
        ensures
            !(exists|k: int|
                1 <= k < self.estimates@.len() && !inverse_computable(
                    (#[trigger] self.estimates@[k]).stm@,
                ) && (forall|j: int| 1 <= j < k ==> smooth_step_fits(self.estimates@[j]))),
    {
        if exists|k: int|
            1 <= k < self.estimates@.len() && !inverse_computable(
                (#[trigger] self.estimates@[k]).stm@,
            ) && (forall|j: int| 1 <= j < k ==> smooth_step_fits(self.estimates@[j])) {
            let k = choose|k: int|
                1 <= k < self.estimates@.len() && !inverse_computable(
                    (#[trigger] self.estimates@[k]).stm@,
                ) && (forall|j: int| 1 <= j < k ==> smooth_step_fits(self.estimates@[j]));
            if k < i {
                assert(smooth_step_fits(self.estimates@[k]));
            } else if k == i {
                assert(inverse_computable(self.estimates@[i].stm@));
            } else {
                assert(smooth_step_fits(self.estimates@[i]));
            }
            assert(false);
        }
    }
}

impl<P: Propagator, N: MeasurementDevice<P::MsrIn>> ODProcess<P, N, CkfTrigger> {
    /// A driver for a pure classical run: the trigger never fires.
    pub fn ckf(
        prop: P,
        kf: KF,
        devices: Vec<N>,
        simultaneous_msr: bool,
        num_expected_msr: usize,
    ) -> (r: Self)
        requires
            kf.wf(),
            prop.sdim() == kf.sdim(),
            forall|i: int|
                0 <= i < devices@.len() ==> (#[trigger] devices@[i]).msize() == kf.mdim()
                    && devices@[i].ssize() == kf.sdim(),
        ensures
            r.wf(),
            r.prop == prop,
            r.kf == kf,
            r.devices == devices,
            r.simultaneous_msr == simultaneous_msr,
            r.estimates@.len() == 0,
            r.residuals@.len() == 0,
    {
        Self {
            prop,
            kf,
            devices,
            simultaneous_msr,
            estimates: Vec::with_capacity(num_expected_msr),
            residuals: Vec::with_capacity(num_expected_msr),
            ekf_trigger: CkfTrigger {  },
        }
    }

    /// A driver for a pure classical run, with defaults: no simultaneous
    /// measurements.
    pub fn default_ckf(prop: P, kf: KF, devices: Vec<N>) -> (r: Self)
        requires
            kf.wf(),
            prop.sdim() == kf.sdim(),
            forall|i: int|
                0 <= i < devices@.len() ==> (#[trigger] devices@[i]).msize() == kf.mdim()
                    && devices@[i].ssize() == kf.sdim(),
        ensures
            r.wf(),
            r.prop == prop,
            r.kf == kf,
            r.devices == devices,
            !r.simultaneous_msr,
            r.estimates@.len() == 0,
            r.residuals@.len() == 0,
    {
        Self {
            prop,
            kf,
            devices,
            simultaneous_msr: false,
            estimates: Vec::with_capacity(10000),
            residuals: Vec::with_capacity(10000),
            ekf_trigger: CkfTrigger {  },
        }
    }
}

} // verus!
