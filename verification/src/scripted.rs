//! Scripted collaborators: a propagator that replays a recorded reference
//! trajectory and a measurement device that reads observations off a
//! table. They serve runs whose dynamics were computed elsewhere and
//! recorded, and they give the driver concrete, verified collaborators.

use crate::matrix::{is_mat, Matrix};
use crate::process::{Measurement, MeasurementDevice, Propagator};
use vstd::prelude::*;

verus! {

/// One recorded reference-state sample: the epoch, the state-transition
/// matrix accumulated to it, and the estimated state at it.
pub struct ScriptedSample {
    /// Epoch of the sample, in nanoseconds.
    pub dt: i64,
    /// State-transition matrix accumulated to this sample (`s` by `s`).
    pub stm: Matrix,
    /// Estimated state at this sample (`s` by 1).
    pub est_state: Matrix,
}

/// A propagator that replays a recorded trajectory, one sample per
/// propagation request. Stored matrices of the wrong shape are replaced by
/// neutral values (the identity, the zero state) when they are served.
pub struct ScriptedPropagator {
    /// State size the trajectory was recorded with.
    pub dim: usize,
    /// The recorded samples, in epoch order.
    pub samples: Vec<ScriptedSample>,
    /// Number of samples consumed by the batch interface.
    pub cursor: usize,
    /// The estimated state, written back by the driver in extended mode.
    pub est_state: Matrix,
}

impl ScriptedPropagator {
    /// The state size served to the filter (at least one).
    pub open spec fn spec_dim(self) -> nat {
        if self.dim >= 1 {
            self.dim as nat
        } else {
            1
        }
    }

    /// A fresh scripted propagator at the start of its recording.
    pub fn new(dim: usize, samples: Vec<ScriptedSample>, est_state: Matrix) -> (r: Self)
        ensures
            r.dim == dim,
            r.samples == samples,
            r.cursor == 0,
            r.est_state == est_state,
    {
        Self { dim, samples, cursor: 0, est_state }
    }

    /// The effective state size.
    fn dim_eff(&self) -> (r: usize)
        ensures
            r == self.spec_dim(),
    {
        if self.dim >= 1 {
            self.dim
        } else {
            1
        }
    }

    /// A validated copy of a recorded square matrix, or the identity.
    fn checked_square(&self, m: &Matrix) -> (r: Matrix)
        ensures
            is_mat(r@, self.spec_dim(), self.spec_dim()),
    {
        let s = self.dim_eff();
        if m.nrows() == s && m.ncols() == s {
            let mut i: usize = 0;
            let mut ok = true;
            while i < s
                invariant
                    i <= s,
                    m@.len() == s,
                    ok ==> forall|a: int| 0 <= a < i ==> (#[trigger] m@[a]).len() == s,
                decreases s - i,
            {
                if m.row_len(i) != s {
                    ok = false;
                }
                i = i + 1;
            }
            if ok {
                m.clone()
            } else {
                Matrix::identity(s)
            }
        } else {
            Matrix::identity(s)
        }
    }

    /// A validated copy of a recorded state vector, or the zero state.
    fn checked_state(&self, m: &Matrix) -> (r: Matrix)
        ensures
            is_mat(r@, self.spec_dim(), 1),
    {
        let s = self.dim_eff();
        if m.nrows() == s {
            let mut i: usize = 0;
            let mut ok = true;
            while i < s
                invariant
                    i <= s,
                    m@.len() == s,
                    ok ==> forall|a: int| 0 <= a < i ==> (#[trigger] m@[a]).len() == 1,
                decreases s - i,
            {
                if m.row_len(i) != 1 {
                    ok = false;
                }
                i = i + 1;
            }
            if ok {
                m.clone()
            } else {
                Matrix::zeros(s, 1)
            }
        } else {
            Matrix::zeros(s, 1)
        }
    }
}

impl Propagator for ScriptedPropagator {
    type MsrIn = i64;

    type StateType = ScriptedSample;

    open spec fn sdim(&self) -> nat {
        self.spec_dim()
    }

    open spec fn st_wf(&self, st: &ScriptedSample) -> bool {
        &&& is_mat(st.stm@, self.spec_dim(), self.spec_dim())
        &&& is_mat(st.est_state@, self.spec_dim(), 1)
    }

    open spec fn spec_sample_epoch(&self, st: &ScriptedSample) -> i64 {
        st.dt
    }

    open spec fn spec_sample_stm(&self, st: &ScriptedSample) -> crate::matrix::SpecMat {
        st.stm@
    }

    fn until_time_elapsed(&mut self, delta: i64) {
        if self.cursor < self.samples.len() {
            self.cursor = self.cursor + 1;
        }
    }

    fn stm(&mut self) -> (r: Matrix) {
        if 1 <= self.cursor && self.cursor <= self.samples.len() {
            let idx = self.cursor - 1;
            let m = self.samples[idx].stm.clone();
            self.checked_square(&m)
        } else {
            Matrix::identity(self.dim_eff())
        }
    }

    fn to_measurement(&mut self) -> (r: (i64, i64)) {
        let dt = if 1 <= self.cursor && self.cursor <= self.samples.len() {
            self.samples[self.cursor - 1].dt
        } else {
            0
        };
        (dt, dt)
    }

    fn estimated_state(&mut self) -> (r: Matrix) {
        let m = self.est_state.clone();
        self.checked_state(&m)
    }

    fn set_estimated_state(&mut self, state: Matrix) {
        self.est_state = state;
    }

    fn reseed(&mut self, est_state: Matrix) {
        self.cursor = 0;
        self.est_state = est_state;
    }

    fn to_measurement_state(&self, st: &ScriptedSample) -> (r: (i64, i64)) {
        (st.dt, st.dt)
    }

    fn extract_stm(&self, st: &ScriptedSample) -> (r: Matrix) {
        st.stm.clone()
    }

    fn extract_estimated_state(&self, st: &ScriptedSample) -> (r: Matrix) {
        st.est_state.clone()
    }
}

/// A measurement device that reads its observations off a recorded table,
/// keyed by epoch. An entry of the wrong shape makes the spacecraft not
/// visible at that epoch.
pub struct ScriptedDevice {
    /// Measurement size the table was recorded with.
    pub msr_dim: usize,
    /// State size the table was recorded with.
    pub state_dim: usize,
    /// Recorded observations by epoch.
    pub table: Vec<(i64, Measurement)>,
}

impl ScriptedDevice {
    /// The effective measurement size (at least one).
    pub open spec fn spec_msize(self) -> nat {
        if self.msr_dim >= 1 {
            self.msr_dim as nat
        } else {
            1
        }
    }

    /// The effective state size (at least one).
    pub open spec fn spec_ssize(self) -> nat {
        if self.state_dim >= 1 {
            self.state_dim as nat
        } else {
            1
        }
    }

    /// A device over a recorded table.
    pub fn new(msr_dim: usize, state_dim: usize, table: Vec<(i64, Measurement)>) -> (r: Self)
        ensures
            r.msr_dim == msr_dim,
            r.state_dim == state_dim,
            r.table == table,
    {
        Self { msr_dim, state_dim, table }
    }
}

impl MeasurementDevice<i64> for ScriptedDevice {
    open spec fn msize(&self) -> nat {
        self.spec_msize()
    }

    open spec fn ssize(&self) -> nat {
        self.spec_ssize()
    }

    fn measure(&self, input: &i64) -> (r: Option<Measurement>) {
        let mut i: usize = 0;
        while i < self.table.len()
            invariant
                i <= self.table@.len(),
            decreases self.table@.len() - i,
        {
            if self.table[i].0 == *input {
                let obs = self.table[i].1.observation.clone();
                let sens = self.table[i].1.sensitivity.clone();
                let visible = self.table[i].1.visible;
                let m_eff = if self.msr_dim >= 1 {
                    self.msr_dim
                } else {
                    1
                };
                let s_eff = if self.state_dim >= 1 {
                    self.state_dim
                } else {
                    1
                };
                let obs_ok = obs.nrows() == m_eff && self.shape_ok(&obs, 1);
                let sens_ok = sens.nrows() == m_eff && self.shape_ok(&sens, s_eff);
                if obs_ok && sens_ok {
                    return Some(Measurement { observation: obs, sensitivity: sens, visible });
                } else {
                    return None;
                }
            }
            i = i + 1;
        }
        None
    }
}

impl ScriptedDevice {
    /// Every row of `m` has length `c`.
    fn shape_ok(&self, m: &Matrix, c: usize) -> (r: bool)
        ensures
            r ==> forall|a: int| 0 <= a < m@.len() ==> (#[trigger] m@[a]).len() == c,
    {
        let n = m.nrows();
        let mut i: usize = 0;
        let mut ok = true;
        while i < n
            invariant
                i <= n,
                n == m@.len(),
                ok ==> forall|a: int| 0 <= a < i ==> (#[trigger] m@[a]).len() == c,
            decreases n - i,
        {
            if m.row_len(i) != c {
                ok = false;
            }
            i = i + 1;
        }
        ok
    }
}

} // verus!
