//! Filter estimates and observation residuals.

use crate::matrix::{is_mat, Matrix};
use vstd::prelude::*;

verus! {

/// A filter estimate at an epoch.
///
/// Epochs are time offsets in integer nanoseconds from a reference epoch.
/// The state is a column vector (`s` by 1); the covariance and the
/// state-transition matrix are `s` by `s`.
#[derive(Debug)]
pub struct Estimate {
    /// Epoch of this estimate, in nanoseconds.
    pub dt: i64,
    /// State: in classical mode a deviation from the reference trajectory;
    /// in extended mode it is reset to zero after each measurement update.
    pub state: Matrix,
    /// Covariance of the state.
    pub covar: Matrix,
    /// State-transition matrix from the previous estimate's epoch to this one.
    pub stm: Matrix,
    /// `true` when produced by a time update alone.
    pub predicted: bool,
}

impl Estimate {
    /// The shapes agree with state size `s`.
    pub open spec fn wf(self, s: nat) -> bool {
        &&& s >= 1
        &&& is_mat(self.state@, s, 1)
        &&& is_mat(self.covar@, s, s)
        &&& is_mat(self.stm@, s, s)
    }
}

/// Two estimates carry the same epoch, values and flag.
pub open spec fn est_equiv(a: Estimate, b: Estimate) -> bool {
    &&& a.dt == b.dt
    &&& a.state@ == b.state@
    &&& a.covar@ == b.covar@
    &&& a.stm@ == b.stm@
    &&& a.predicted == b.predicted
}

impl Clone for Estimate {
    fn clone(&self) -> (r: Self)
        ensures
            est_equiv(r, *self),
    {
        Estimate {
            dt: self.dt,
            state: self.state.clone(),
            covar: self.covar.clone(),
            stm: self.stm.clone(),
            predicted: self.predicted,
        }
    }
}

/// An observation residual: the difference between a real and a predicted
/// observation, before and after the state update.
#[derive(Debug)]
pub struct Residual {
    /// Epoch of the measurement, in nanoseconds.
    pub dt: i64,
    /// Innovation: real minus computed observation (`m` by 1).
    pub prefit: Matrix,
    /// Residual left after the state update (`m` by 1).
    pub postfit: Matrix,
    /// Whether the measurement was accepted by the filter.
    pub accepted: bool,
}

impl Residual {
    /// The shapes agree with measurement size `m`.
    pub open spec fn wf(self, m: nat) -> bool {
        &&& m >= 1
        &&& is_mat(self.prefit@, m, 1)
        &&& is_mat(self.postfit@, m, 1)
    }
}

/// Two residuals carry the same epoch, values and flag.
pub open spec fn res_equiv(a: Residual, b: Residual) -> bool {
    &&& a.dt == b.dt
    &&& a.prefit@ == b.prefit@
    &&& a.postfit@ == b.postfit@
    &&& a.accepted == b.accepted
}

impl Clone for Residual {
    fn clone(&self) -> (r: Self)
        ensures
            res_equiv(r, *self),
    {
        Residual {
            dt: self.dt,
            prefit: self.prefit.clone(),
            postfit: self.postfit.clone(),
            accepted: self.accepted,
        }
    }
}

} // verus!
