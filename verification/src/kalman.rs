//! The filter kernel: a classical (CKF) and extended (EKF) Kalman filter.
//!
//! The kernel holds the running estimate and the measurement noise, takes a
//! fresh state-transition matrix and sensitivity matrix before each update,
//! and performs time updates and measurement updates. It is a pure function
//! of its inputs: on failure it returns a typed error and leaves its state
//! untouched.

use crate::estimate::{est_equiv, Estimate, Residual};
use crate::matrix::{
    add_fits, inverse_computable, is_mat, mat_add, mat_identity, mat_invertible, mat_mul, mat_sub,
    mat_transpose, mat_zero, mul_fits, spec_cols, spec_inverse_candidate, sub_fits, Matrix,
    SpecMat,
};
use vstd::prelude::*;

verus! {

/// The kinds of filter errors.
#[derive(Clone, Copy, Debug, PartialEq, Eq, Structural)]
pub enum FilterError {
    /// An update was requested without a fresh state-transition matrix.
    StateTransitionMatrixNotUpdated,
    /// A measurement update was requested without a fresh sensitivity matrix.
    SensitivityNotUpdated,
    /// The innovation covariance could not be inverted.
    GainIsSingular,
    /// The smoother met a state-transition matrix it could not invert.
    StateTransitionMatrixSingular,
    /// The streaming driver was invoked with an empty measurement batch.
    NoMeasurements,
    /// The exact arithmetic left the machine integer range. This comes from
    /// the machine representation alone, not from the filter equations.
    ArithmeticRange,
}

impl FilterError {
    /// A human-readable account of the error.
    pub fn describe(&self) -> (r: &'static str)
        ensures
            *self is StateTransitionMatrixNotUpdated ==> r@ =~= (
            "STM was not updated prior to time or measurement update")@,
            *self is SensitivityNotUpdated ==> r@ =~= (
            "The measurement matrix H_tilde was not updated prior to measurement update")@,
            *self is GainIsSingular ==> r@ =~= (
            "Gain could not be computed because H*P_bar*H + R is singular")@,
            *self is StateTransitionMatrixSingular ==> r@ =~= (
            "STM is singular, smoothing cannot proceed")@,
            *self is NoMeasurements ==> r@ =~= ("No measurements provided")@,
            *self is ArithmeticRange ==> r@ =~= (
            "Exact arithmetic left the machine integer range")@,
    {
        match *self {
            FilterError::StateTransitionMatrixNotUpdated => {
                "STM was not updated prior to time or measurement update"
            },
            FilterError::SensitivityNotUpdated => {
                "The measurement matrix H_tilde was not updated prior to measurement update"
            },
            FilterError::GainIsSingular => {
                "Gain could not be computed because H*P_bar*H + R is singular"
            },
            FilterError::StateTransitionMatrixSingular => {
                "STM is singular, smoothing cannot proceed"
            },
            FilterError::NoMeasurements => { "No measurements provided" },
            FilterError::ArithmeticRange => {
                "Exact arithmetic left the machine integer range"
            },
        }
    }
}

/// A Kalman filter, classical or extended.
pub struct KF {
    /// The previous estimate, the base of the next update.
    pub prev_estimate: Estimate,
    /// Measurement noise (`m` by `m`), usually written R.
    pub measurement_noise: Matrix,
    /// Whether the filter operates as an extended Kalman filter. One should
    /// switch to extended mode only once the estimate is good, after a few
    /// solid measurement updates in classical mode.
    pub ekf: bool,
    /// Sensitivity matrix (`m` by `s`) for the next measurement update.
    pub h_tilde: Matrix,
    /// State-transition matrix (`s` by `s`) for the next update.
    pub stm: Matrix,
    /// Whether a fresh state-transition matrix has been stored.
    pub stm_updated: bool,
    /// Whether a fresh sensitivity matrix has been stored.
    pub h_tilde_updated: bool,
}

impl KF {
    /// State size.
    pub open spec fn sdim(self) -> nat {
        self.prev_estimate.covar@.len()
    }

    /// Measurement size.
    pub open spec fn mdim(self) -> nat {
        self.measurement_noise@.len()
    }

    /// All shapes agree with the state and measurement sizes.
    pub open spec fn wf(self) -> bool {
        &&& self.sdim() >= 1
        &&& self.mdim() >= 1
        &&& self.prev_estimate.wf(self.sdim())
        &&& is_mat(self.measurement_noise@, self.mdim(), self.mdim())
        &&& is_mat(self.h_tilde@, self.mdim(), self.sdim())
        &&& is_mat(self.stm@, self.sdim(), self.sdim())
    }

    /// Covariance propagated by the stored state-transition matrix:
    /// `P⁻ = Φ P Φᵀ`.
    pub open spec fn spec_covar_bar(self) -> SpecMat {
        mat_mul(
            mat_mul(self.stm@, self.prev_estimate.covar@),
            mat_transpose(self.stm@),
        )
    }

    /// State propagated by the stored state-transition matrix (classical
    /// mode): `x⁻ = Φ x`.
    pub open spec fn spec_state_bar(self) -> SpecMat {
        mat_mul(self.stm@, self.prev_estimate.state@)
    }

    /// All machine-range conditions of a time update.
    pub open spec fn time_update_fits(self) -> bool {
        &&& mul_fits(self.stm@, self.prev_estimate.covar@)
        &&& mul_fits(
            mat_mul(self.stm@, self.prev_estimate.covar@),
            mat_transpose(self.stm@),
        )
        &&& (self.ekf || mul_fits(self.stm@, self.prev_estimate.state@))
    }

    /// Innovation covariance: `S = H P⁻ Hᵀ + R`.
    pub open spec fn spec_innov_covar(self) -> SpecMat {
        mat_add(
            mat_mul(
                mat_mul(self.h_tilde@, self.spec_covar_bar()),
                mat_transpose(self.h_tilde@),
            ),
            self.measurement_noise@,
        )
    }

    /// All machine-range conditions of the gain computation up to the
    /// inversion of the innovation covariance.
    pub open spec fn gain_fits(self) -> bool {
        &&& mul_fits(self.stm@, self.prev_estimate.covar@)
        &&& mul_fits(
            mat_mul(self.stm@, self.prev_estimate.covar@),
            mat_transpose(self.stm@),
        )
        &&& mul_fits(self.h_tilde@, self.spec_covar_bar())
        &&& mul_fits(
            mat_mul(self.h_tilde@, self.spec_covar_bar()),
            mat_transpose(self.h_tilde@),
        )
        &&& add_fits(
            mat_mul(
                mat_mul(self.h_tilde@, self.spec_covar_bar()),
                mat_transpose(self.h_tilde@),
            ),
            self.measurement_noise@,
        )
    }

    /// All machine-range conditions of the state, gain and covariance
    /// computation after the innovation covariance has been inverted,
    /// stated over the candidate inverse the library computes.
    pub open spec fn msr_update_fits(self, real_obs: SpecMat, computed_obs: SpecMat) -> bool {
        let s = self.sdim();
        let covar_bar = self.spec_covar_bar();
        let h_t = mat_transpose(self.h_tilde@);
        let sinv = spec_inverse_candidate(self.spec_innov_covar());
        let t3 = mat_mul(covar_bar, h_t);
        let gain = mat_mul(t3, sinv);
        let y = mat_sub(real_obs, computed_obs);
        let state_bar = self.spec_state_bar();
        let hx = mat_mul(self.h_tilde@, state_bar);
        let innovation = mat_sub(y, hx);
        let gi = mat_mul(gain, innovation);
        let state_hat = if self.ekf {
            mat_mul(gain, y)
        } else {
            mat_add(state_bar, gi)
        };
        let kh = mat_mul(gain, self.h_tilde@);
        let ikh = mat_sub(mat_identity(s), kh);
        let p1 = mat_mul(ikh, covar_bar);
        let p2 = mat_mul(p1, mat_transpose(ikh));
        let g_r = mat_mul(gain, self.measurement_noise@);
        let krk = mat_mul(g_r, mat_transpose(gain));
        &&& mul_fits(covar_bar, h_t)
        &&& mul_fits(t3, sinv)
        &&& sub_fits(real_obs, computed_obs)
        &&& (self.ekf ==> mul_fits(gain, y))
        &&& (self.ekf || {
            &&& mul_fits(self.stm@, self.prev_estimate.state@)
            &&& mul_fits(self.h_tilde@, state_bar)
            &&& sub_fits(y, hx)
            &&& mul_fits(gain, innovation)
            &&& add_fits(state_bar, gi)
        })
        &&& mul_fits(gain, self.h_tilde@)
        &&& sub_fits(mat_identity(s), kh)
        &&& mul_fits(ikh, covar_bar)
        &&& mul_fits(p1, mat_transpose(ikh))
        &&& mul_fits(gain, self.measurement_noise@)
        &&& mul_fits(g_r, mat_transpose(gain))
        &&& add_fits(p2, krk)
        &&& mul_fits(self.h_tilde@, state_hat)
        &&& sub_fits(y, mat_mul(self.h_tilde@, state_hat))
    }

    /// Initializes the filter with an initial estimate and measurement
    /// noise. The filter starts in classical mode with both freshness bits
    /// clear.
    pub fn initialize(initial_estimate: Estimate, measurement_noise: Matrix) -> (r: KF)
        requires
            initial_estimate.covar@.len() >= 1,
            initial_estimate.wf(initial_estimate.covar@.len()),
            measurement_noise@.len() >= 1,
            is_mat(measurement_noise@, measurement_noise@.len(), measurement_noise@.len()),
        ensures
            r.wf(),
            r.sdim() == initial_estimate.covar@.len(),
            r.mdim() == measurement_noise@.len(),
            r.prev_estimate == initial_estimate,
            r.measurement_noise == measurement_noise,
            !r.ekf,
            !r.stm_updated,
            !r.h_tilde_updated,
            r.stm@ == mat_identity(r.sdim()),
            r.h_tilde@ == mat_zero(r.mdim(), r.sdim()),
    {
        let s = initial_estimate.covar.nrows();
        let m = measurement_noise.nrows();
        KF {
            prev_estimate: initial_estimate,
            measurement_noise,
            ekf: false,
            h_tilde: Matrix::zeros(m, s),
            stm: Matrix::identity(s),
            stm_updated: false,
            h_tilde_updated: false,
        }
    }

    /// Stores a fresh state-transition matrix. This must be called between
    /// any two calls to `time_update` or `measurement_update`.
    pub fn update_stm(&mut self, new_stm: Matrix)
        requires
            old(self).wf(),
            is_mat(new_stm@, old(self).sdim(), old(self).sdim()),
        ensures
            final(self).wf(),
            final(self).sdim() == old(self).sdim(),
            final(self).mdim() == old(self).mdim(),
            final(self).stm@ == new_stm@,
            final(self).stm_updated,
            final(self).prev_estimate == old(self).prev_estimate,
            final(self).measurement_noise == old(self).measurement_noise,
            final(self).ekf == old(self).ekf,
            final(self).h_tilde == old(self).h_tilde,
            final(self).h_tilde_updated == old(self).h_tilde_updated,
    {
        self.stm = new_stm;
        self.stm_updated = true;
    }

    /// Stores a fresh sensitivity matrix. This must be called before each
    /// call to `measurement_update`.
    pub fn update_h_tilde(&mut self, h_tilde: Matrix)
        requires
            old(self).wf(),
            is_mat(h_tilde@, old(self).mdim(), old(self).sdim()),
        ensures
            final(self).wf(),
            final(self).sdim() == old(self).sdim(),
            final(self).mdim() == old(self).mdim(),
            final(self).h_tilde@ == h_tilde@,
            final(self).h_tilde_updated,
            final(self).prev_estimate == old(self).prev_estimate,
            final(self).measurement_noise == old(self).measurement_noise,
            final(self).ekf == old(self).ekf,
            final(self).stm == old(self).stm,
            final(self).stm_updated == old(self).stm_updated,
    {
        self.h_tilde = h_tilde;
        self.h_tilde_updated = true;
    }

    /// Switches between classical and extended mode.
    pub fn set_extended(&mut self, ekf: bool)
        ensures
            final(self).ekf == ekf,
            final(self).prev_estimate == old(self).prev_estimate,
            final(self).measurement_noise == old(self).measurement_noise,
            final(self).h_tilde == old(self).h_tilde,
            final(self).stm == old(self).stm,
            final(self).stm_updated == old(self).stm_updated,
            final(self).h_tilde_updated == old(self).h_tilde_updated,
            old(self).wf() ==> final(self).wf() && final(self).sdim() == old(self).sdim()
                && final(self).mdim() == old(self).mdim(),
    {
        self.ekf = ekf;
    }

    /// Whether the filter operates in extended mode.
    pub fn is_extended(&self) -> (r: bool)
        ensures
            r == self.ekf,
    {
        self.ekf
    }

    /// Time update: propagates the covariance with the stored
    /// state-transition matrix (`P⁻ = Φ P Φᵀ`), propagates the state
    /// (classical mode) or resets it to zero (extended mode), and marks the
    /// result predicted. Consumes the state-transition freshness bit.
    pub fn time_update(&mut self, dt: i64) -> (r: Result<Estimate, FilterError>)
        requires
            old(self).wf(),
        ensures
            final(self).wf(),
            final(self).sdim() == old(self).sdim(),
            final(self).mdim() == old(self).mdim(),
            final(self).ekf == old(self).ekf,
            !old(self).stm_updated <==> r == Err::<Estimate, FilterError>(
                FilterError::StateTransitionMatrixNotUpdated,
            ),
            r is Err ==> *final(self) == *old(self),
            r is Err ==> r == Err::<Estimate, FilterError>(
                FilterError::StateTransitionMatrixNotUpdated,
            ) || r == Err::<Estimate, FilterError>(FilterError::ArithmeticRange),
            old(self).stm_updated && !old(self).time_update_fits() ==> r == Err::<
                Estimate,
                FilterError,
            >(FilterError::ArithmeticRange),
            old(self).stm_updated && old(self).time_update_fits() ==> r is Ok,
            r matches Ok(est) ==> {
                &&& old(self).stm_updated
                &&& old(self).time_update_fits()
                &&& est.dt == dt
                &&& est.covar@ == old(self).spec_covar_bar()
                &&& est.state@ == (if old(self).ekf {
                    mat_zero(old(self).sdim(), 1)
                } else {
                    old(self).spec_state_bar()
                })
                &&& est.stm@ == old(self).stm@
                &&& est.predicted
                &&& est.wf(old(self).sdim())
                &&& est_equiv(final(self).prev_estimate, est)
                &&& !final(self).stm_updated
                &&& final(self).h_tilde_updated == old(self).h_tilde_updated
                &&& final(self).h_tilde@ == old(self).h_tilde@
                &&& final(self).stm@ == old(self).stm@
                &&& final(self).measurement_noise@ == old(self).measurement_noise@
            },
    {
        if !self.stm_updated {
            return Err(FilterError::StateTransitionMatrixNotUpdated);
        }
        let ghost s_dim = self.sdim();
        proof {
            assert(spec_cols(self.stm@) == s_dim);
            assert(spec_cols(self.prev_estimate.covar@) == s_dim);
            assert(spec_cols(self.prev_estimate.state@) == 1);
        }
        let stm_t = self.stm.transpose();
        proof {
            crate::matrix::lemma_transpose_shape(self.stm@);
        }
        let m1 = match self.stm.checked_mul(&self.prev_estimate.covar) {
            Some(m) => m,
            None => {
                return Err(FilterError::ArithmeticRange);
            },
        };
        let covar_bar = match m1.checked_mul(&stm_t) {
            Some(m) => m,
            None => {
                return Err(FilterError::ArithmeticRange);
            },
        };
        let s = self.prev_estimate.covar.nrows();
        let state_bar = if self.ekf {
            Matrix::zeros(s, 1)
        } else {
            match self.stm.checked_mul(&self.prev_estimate.state) {
                Some(m) => m,
                None => {
                    return Err(FilterError::ArithmeticRange);
                },
            }
        };
        let estimate = Estimate {
            dt,
            state: state_bar,
            covar: covar_bar,
            stm: self.stm.clone(),
            predicted: true,
        };
        self.stm_updated = false;
        self.prev_estimate = estimate.clone();
        Ok(estimate)
    }

    /// Measurement update: propagates the covariance, computes the Kalman
    /// gain `K = P⁻ Hᵀ S⁻¹`, applies the innovation to the state (classical
    /// or extended form), and updates the covariance in the Joseph form
    /// `P = (I − K H) P⁻ (I − K H)ᵀ + K R Kᵀ`, which keeps it symmetric.
    /// Consumes both freshness bits; fails without touching the state.
    pub fn measurement_update(
        &mut self,
        dt: i64,
        real_obs: Matrix,
        computed_obs: Matrix,
    ) -> (r: Result<(Estimate, Residual), FilterError>)
        requires
            old(self).wf(),
            is_mat(real_obs@, old(self).mdim(), 1),
            is_mat(computed_obs@, old(self).mdim(), 1),
        ensures
            final(self).wf(),
            final(self).sdim() == old(self).sdim(),
            final(self).mdim() == old(self).mdim(),
            final(self).ekf == old(self).ekf,
            r is Err ==> *final(self) == *old(self),
            r is Err ==> r == Err::<(Estimate, Residual), FilterError>(
                FilterError::StateTransitionMatrixNotUpdated,
            ) || r == Err::<(Estimate, Residual), FilterError>(FilterError::SensitivityNotUpdated)
                || r == Err::<(Estimate, Residual), FilterError>(FilterError::GainIsSingular) || r
                == Err::<(Estimate, Residual), FilterError>(FilterError::ArithmeticRange),
            !old(self).stm_updated <==> r == Err::<(Estimate, Residual), FilterError>(
                FilterError::StateTransitionMatrixNotUpdated,
            ),
            old(self).stm_updated && !old(self).h_tilde_updated <==> r == Err::<
                (Estimate, Residual),
                FilterError,
            >(FilterError::SensitivityNotUpdated),
            old(self).stm_updated && old(self).h_tilde_updated && !old(self).gain_fits() ==> r
                == Err::<(Estimate, Residual), FilterError>(FilterError::ArithmeticRange),
            old(self).stm_updated && old(self).h_tilde_updated && old(self).gain_fits()
                && !mat_invertible(old(self).spec_innov_covar()) ==> r == Err::<
                (Estimate, Residual),
                FilterError,
            >(FilterError::GainIsSingular),
            r == Err::<(Estimate, Residual), FilterError>(FilterError::GainIsSingular) ==> old(
                self,
            ).stm_updated && old(self).h_tilde_updated && old(self).gain_fits(),
            old(self).stm_updated && old(self).h_tilde_updated && old(self).gain_fits()
                && inverse_computable(old(self).spec_innov_covar()) && old(self).msr_update_fits(
                real_obs@,
                computed_obs@,
            ) ==> r is Ok,
            r matches Ok(p) ==> {
                &&& old(self).stm_updated
                &&& old(self).h_tilde_updated
                &&& old(self).gain_fits()
                &&& mat_invertible(old(self).spec_innov_covar())
                &&& msr_update_ok(
                    *old(self),
                    dt,
                    real_obs@,
                    computed_obs@,
                    p.0,
                    p.1,
                    spec_inverse_candidate(old(self).spec_innov_covar()),
                )
                &&& p.0.dt == dt
                &&& p.0.predicted == false
                &&& p.0.wf(old(self).sdim())
                &&& p.1.dt == dt
                &&& p.1.accepted
                &&& p.1.wf(old(self).mdim())
                &&& est_equiv(final(self).prev_estimate, p.0)
                &&& !final(self).stm_updated
                &&& !final(self).h_tilde_updated
                &&& final(self).stm@ == old(self).stm@
                &&& final(self).h_tilde@ == old(self).h_tilde@
                &&& final(self).measurement_noise@ == old(self).measurement_noise@
            },
    {
        if !self.stm_updated {
            return Err(FilterError::StateTransitionMatrixNotUpdated);
        }
        if !self.h_tilde_updated {
            return Err(FilterError::SensitivityNotUpdated);
        }
        let ghost s_dim = self.sdim();
        let ghost m_dim = self.mdim();
        proof {
            assert(spec_cols(self.stm@) == s_dim);
            assert(spec_cols(self.prev_estimate.covar@) == s_dim);
            assert(spec_cols(self.prev_estimate.state@) == 1);
            assert(spec_cols(self.h_tilde@) == s_dim);
            assert(spec_cols(self.measurement_noise@) == m_dim);
            assert(spec_cols(real_obs@) == 1);
            assert(spec_cols(computed_obs@) == 1);
        }
        let stm_t = self.stm.transpose();
        proof {
            crate::matrix::lemma_transpose_shape(self.stm@);
        }
        let m1 = match self.stm.checked_mul(&self.prev_estimate.covar) {
            Some(m) => m,
            None => {
                return Err(FilterError::ArithmeticRange);
            },
        };
        let covar_bar = match m1.checked_mul(&stm_t) {
            Some(m) => m,
            None => {
                return Err(FilterError::ArithmeticRange);
            },
        };
        proof {
            crate::matrix::lemma_cols_of(covar_bar@, s_dim, s_dim);
        }
        let h_t = self.h_tilde.transpose();
        proof {
            crate::matrix::lemma_transpose_shape(self.h_tilde@);
            crate::matrix::lemma_cols_of(h_t@, s_dim, m_dim);
        }
        let t1 = match self.h_tilde.checked_mul(&covar_bar) {
            Some(m) => m,
            None => {
                return Err(FilterError::ArithmeticRange);
            },
        };
        proof {
            crate::matrix::lemma_cols_of(t1@, m_dim, s_dim);
        }
        let t2 = match t1.checked_mul(&h_t) {
            Some(m) => m,
            None => {
                return Err(FilterError::ArithmeticRange);
            },
        };
        proof {
            crate::matrix::lemma_cols_of(t2@, m_dim, m_dim);
        }
        let s_mat = match t2.checked_add(&self.measurement_noise) {
            Some(m) => m,
            None => {
                return Err(FilterError::ArithmeticRange);
            },
        };
        proof {
            assert(s_mat@ == self.spec_innov_covar());
            crate::matrix::lemma_cols_of(s_mat@, m_dim, m_dim);
        }
        let sinv = match s_mat.try_inverse() {
            Some(m) => m,
            None => {
                return Err(FilterError::GainIsSingular);
            },
        };
        proof {
            crate::matrix::lemma_cols_of(sinv@, m_dim, m_dim);
        }
        let t3 = match covar_bar.checked_mul(&h_t) {
            Some(m) => m,
            None => {
                return Err(FilterError::ArithmeticRange);
            },
        };
        proof {
            crate::matrix::lemma_cols_of(t3@, s_dim, m_dim);
        }
        let gain = match t3.checked_mul(&sinv) {
            Some(m) => m,
            None => {
                return Err(FilterError::ArithmeticRange);
            },
        };
        proof {
            crate::matrix::lemma_cols_of(gain@, s_dim, m_dim);
        }
        let y = match real_obs.checked_sub(&computed_obs) {
            Some(m) => m,
            None => {
                return Err(FilterError::ArithmeticRange);
            },
        };
        proof {
            crate::matrix::lemma_cols_of(y@, m_dim, 1);
        }
        let state_hat = if self.ekf {
            match gain.checked_mul(&y) {
                Some(m) => m,
                None => {
                    return Err(FilterError::ArithmeticRange);
                },
            }
        } else {
            let state_bar = match self.stm.checked_mul(&self.prev_estimate.state) {
                Some(m) => m,
                None => {
                    return Err(FilterError::ArithmeticRange);
                },
            };
            proof {
                crate::matrix::lemma_cols_of(state_bar@, s_dim, 1);
            }
            let hx = match self.h_tilde.checked_mul(&state_bar) {
                Some(m) => m,
                None => {
                    return Err(FilterError::ArithmeticRange);
                },
            };
            let innovation = match y.checked_sub(&hx) {
                Some(m) => m,
                None => {
                    return Err(FilterError::ArithmeticRange);
                },
            };
            proof {
                crate::matrix::lemma_cols_of(innovation@, m_dim, 1);
            }
            let gi = match gain.checked_mul(&innovation) {
                Some(m) => m,
                None => {
                    return Err(FilterError::ArithmeticRange);
                },
            };
            match state_bar.checked_add(&gi) {
                Some(m) => m,
                None => {
                    return Err(FilterError::ArithmeticRange);
                },
            }
        };
        proof {
            crate::matrix::lemma_cols_of(state_hat@, s_dim, 1);
        }
        let kh = match gain.checked_mul(&self.h_tilde) {
            Some(m) => m,
            None => {
                return Err(FilterError::ArithmeticRange);
            },
        };
        let s = self.prev_estimate.covar.nrows();
        let id_s = Matrix::identity(s);
        proof {
            crate::matrix::lemma_cols_of(mat_identity(s_dim), s_dim, s_dim);
        }
        let ikh = match id_s.checked_sub(&kh) {
            Some(m) => m,
            None => {
                return Err(FilterError::ArithmeticRange);
            },
        };
        proof {
            crate::matrix::lemma_cols_of(ikh@, s_dim, s_dim);
        }
        let p1 = match ikh.checked_mul(&covar_bar) {
            Some(m) => m,
            None => {
                return Err(FilterError::ArithmeticRange);
            },
        };
        let ikh_t = ikh.transpose();
        proof {
            crate::matrix::lemma_transpose_shape(ikh@);
            crate::matrix::lemma_cols_of(p1@, s_dim, s_dim);
        }
        let p2 = match p1.checked_mul(&ikh_t) {
            Some(m) => m,
            None => {
                return Err(FilterError::ArithmeticRange);
            },
        };
        let g_r = match gain.checked_mul(&self.measurement_noise) {
            Some(m) => m,
            None => {
                return Err(FilterError::ArithmeticRange);
            },
        };
        let gain_t = gain.transpose();
        proof {
            crate::matrix::lemma_transpose_shape(gain@);
            crate::matrix::lemma_cols_of(g_r@, s_dim, m_dim);
        }
        let krk = match g_r.checked_mul(&gain_t) {
            Some(m) => m,
            None => {
                return Err(FilterError::ArithmeticRange);
            },
        };
        proof {
            crate::matrix::lemma_cols_of(p2@, s_dim, s_dim);
        }
        let covar = match p2.checked_add(&krk) {
            Some(m) => m,
            None => {
                return Err(FilterError::ArithmeticRange);
            },
        };
        let hs = match self.h_tilde.checked_mul(&state_hat) {
            Some(m) => m,
            None => {
                return Err(FilterError::ArithmeticRange);
            },
        };
        let postfit = match y.checked_sub(&hs) {
            Some(m) => m,
            None => {
                return Err(FilterError::ArithmeticRange);
            },
        };
        let estimate = Estimate {
            dt,
            state: state_hat,
            covar,
            stm: self.stm.clone(),
            predicted: false,
        };
        let residual = Residual { dt, prefit: y, postfit, accepted: true };
        self.stm_updated = false;
        self.h_tilde_updated = false;
        self.prev_estimate = estimate.clone();
        proof {
            assert(sinv@ == spec_inverse_candidate(old(self).spec_innov_covar()));
            assert(msr_update_ok(
                *old(self),
                dt,
                real_obs@,
                computed_obs@,
                estimate,
                residual,
                sinv@,
            ));
        }
        Ok((estimate, residual))
    }
}

/// Relation between the inputs and outputs of a successful measurement
/// update, with `sinv` the (unique) exact inverse of the innovation
/// covariance.
pub open spec fn msr_update_ok(
    pre: KF,
    dt: i64,
    real_obs: SpecMat,
    computed_obs: SpecMat,
    est: Estimate,
    res: Residual,
    sinv: SpecMat,
) -> bool {
    let s = pre.sdim();
    let m = pre.mdim();
    let covar_bar = pre.spec_covar_bar();
    let smat = pre.spec_innov_covar();
    let gain = mat_mul(mat_mul(covar_bar, mat_transpose(pre.h_tilde@)), sinv);
    let y = mat_sub(real_obs, computed_obs);
    let state_bar = pre.spec_state_bar();
    let innovation = mat_sub(y, mat_mul(pre.h_tilde@, state_bar));
    let state_hat = if pre.ekf {
        mat_mul(gain, y)
    } else {
        mat_add(state_bar, mat_mul(gain, innovation))
    };
    let ikh = mat_sub(mat_identity(s), mat_mul(gain, pre.h_tilde@));
    let covar = mat_add(
        mat_mul(mat_mul(ikh, covar_bar), mat_transpose(ikh)),
        mat_mul(mat_mul(gain, pre.measurement_noise@), mat_transpose(gain)),
    );
    &&& is_mat(sinv, m, m)
    &&& mat_mul(smat, sinv) == mat_identity(m)
    &&& mat_mul(sinv, smat) == mat_identity(m)
    &&& est.dt == dt
    &&& est.state@ == state_hat
    &&& est.covar@ == covar
    &&& est.stm@ == pre.stm@
    &&& est.predicted == false
    &&& res.dt == dt
    &&& res.prefit@ == y
    &&& res.postfit@ == mat_sub(y, mat_mul(pre.h_tilde@, state_hat))
    &&& res.accepted == true
}

} // verus!
