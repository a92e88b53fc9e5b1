//! Policies deciding when the filter switches from classical to extended
//! mode. A policy is consulted with each fresh estimate after a measurement
//! update.

use crate::estimate::Estimate;
use vstd::prelude::*;

verus! {

/// Decides whether the filter should switch from a classical to an
/// extended Kalman filter, given the latest estimate. The two
/// specification functions model the policy: what one consultation does to
/// its state, and whether it commands the switch.
pub trait EkfTrigger: Sized {
    /// The policy's state after one consultation on `est`.
    spec fn spec_step(&self, est: &Estimate) -> Self;

    /// Whether the consultation on `est` commands the switch.
    spec fn spec_fires(&self, est: &Estimate) -> bool;

    /// Consulted after each measurement update; `true` commands the switch.
    fn enable_ekf(&mut self, est: &Estimate) -> (r: bool)
        ensures
            *final(self) == old(self).spec_step(est),
            r == old(self).spec_fires(est),
    ;
}

/// A trigger that never switches: the filter stays classical for the whole
/// run.
pub struct CkfTrigger;

impl EkfTrigger for CkfTrigger {
    open spec fn spec_step(&self, est: &Estimate) -> CkfTrigger {
        CkfTrigger {  }
    }

    open spec fn spec_fires(&self, est: &Estimate) -> bool {
        false
    }

    fn enable_ekf(&mut self, est: &Estimate) -> (r: bool)
        ensures
            !r,
    {
        false
    }
}

/// A trigger on the number of measurements processed.
pub struct NumMsrEkfTrigger {
    /// The filter switches once this many measurements have been processed.
    pub num_msrs: usize,
    /// Measurements counted so far (saturating at the machine limit).
    pub cur_msrs: usize,
}

impl NumMsrEkfTrigger {
    /// A trigger that fires once `num_msrs` measurements have been
    /// processed.
    pub fn init(num_msrs: usize) -> (r: Self)
        ensures
            r.num_msrs == num_msrs,
            r.cur_msrs == 0,
    {
        Self { num_msrs, cur_msrs: 0 }
    }
}

impl EkfTrigger for NumMsrEkfTrigger {
    open spec fn spec_step(&self, est: &Estimate) -> NumMsrEkfTrigger {
        NumMsrEkfTrigger {
            num_msrs: self.num_msrs,
            cur_msrs: if self.cur_msrs < usize::MAX {
                (self.cur_msrs + 1) as usize
            } else {
                self.cur_msrs
            },
        }
    }

    open spec fn spec_fires(&self, est: &Estimate) -> bool {
        self.spec_step(est).cur_msrs >= self.num_msrs
    }

    fn enable_ekf(&mut self, est: &Estimate) -> (r: bool)
        ensures
            final(self).num_msrs == old(self).num_msrs,
            final(self).cur_msrs == (if old(self).cur_msrs < usize::MAX {
                old(self).cur_msrs + 1
            } else {
                old(self).cur_msrs as int
            }),
            r <==> final(self).cur_msrs >= final(self).num_msrs,
    {
        if self.cur_msrs < usize::MAX {
            self.cur_msrs = self.cur_msrs + 1;
        }
        self.cur_msrs >= self.num_msrs
    }
}

} // verus!
