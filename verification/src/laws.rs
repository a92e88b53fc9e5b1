//! Laws of the filter, proved over the specification model that the
//! function contracts speak of.

use crate::estimate::Estimate;
use crate::kalman::{msr_update_ok, KF};
use crate::matrix::{
    is_mat, lemma_add_sym, lemma_cols_of, lemma_mul_assoc, lemma_mul_identity_left,
    lemma_mul_shape, lemma_sandwich_sym, lemma_transpose_shape, mat_add, mat_identity, mat_mul,
    mat_sub, mat_sym, mat_transpose, spec_cols, SpecMat,
};
use crate::process::smoothed_rel;
use vstd::prelude::*;

verus! {

/// A time update maps a symmetric covariance to a symmetric covariance:
/// `Φ P Φᵀ` is exactly symmetric whenever `P` is.
pub proof fn lemma_time_update_symmetric(kf: KF)
    requires
        kf.wf(),
        mat_sym(kf.prev_estimate.covar@),
    ensures
        mat_sym(kf.spec_covar_bar()),
{
    lemma_sandwich_sym(kf.stm@, kf.prev_estimate.covar@);
}

/// A measurement update in the Joseph form leaves the covariance exactly
/// symmetric whenever the previous covariance and the measurement noise
/// are symmetric: both `(I − K H) P⁻ (I − K H)ᵀ` and `K R Kᵀ` are
/// symmetric sandwiches, and their sum is symmetric.
pub proof fn lemma_measurement_covar_symmetric(
    pre: KF,
    dt: i64,
    zr: SpecMat,
    zc: SpecMat,
    est: Estimate,
    res: crate::estimate::Residual,
    sinv: SpecMat,
)
    requires
        pre.wf(),
        mat_sym(pre.prev_estimate.covar@),
        mat_sym(pre.measurement_noise@),
        msr_update_ok(pre, dt, zr, zc, est, res, sinv),
    ensures
        mat_sym(est.covar@),
{
    let s = pre.sdim();
    let m = pre.mdim();
    let phi = pre.stm@;
    let p = pre.prev_estimate.covar@;
    let h = pre.h_tilde@;
    let rmat = pre.measurement_noise@;
    let covar_bar = pre.spec_covar_bar();
    lemma_cols_of(p, s, s);
    lemma_cols_of(phi, s, s);
    lemma_cols_of(h, m, s);
    lemma_cols_of(rmat, m, m);
    lemma_cols_of(sinv, m, m);
    lemma_sandwich_sym(phi, p);
    let h_t = mat_transpose(h);
    lemma_transpose_shape(h);
    let t3 = mat_mul(covar_bar, h_t);
    lemma_mul_shape(covar_bar, h_t);
    lemma_cols_of(t3, s, m);
    let gain = mat_mul(t3, sinv);
    lemma_mul_shape(t3, sinv);
    lemma_cols_of(gain, s, m);
    let kh = mat_mul(gain, h);
    lemma_mul_shape(gain, h);
    lemma_cols_of(kh, s, s);
    let ikh = mat_sub(mat_identity(s), kh);
    assert(is_mat(ikh, s, s)) by {
        assert(forall|i: int| 0 <= i < s ==> (#[trigger] mat_identity(s)[i]).len() == s);
        assert(forall|i: int| 0 <= i < s ==> (#[trigger] ikh[i]).len() == s);
    }
    lemma_sandwich_sym(ikh, covar_bar);
    lemma_sandwich_sym(gain, rmat);
    let part1 = mat_mul(mat_mul(ikh, covar_bar), mat_transpose(ikh));
    let part2 = mat_mul(mat_mul(gain, rmat), mat_transpose(gain));
    lemma_add_sym(part1, part2);
    assert(est.covar@ == mat_add(part1, part2));
}

/// Applying the inverse of `Φ` to `Φ x₀` gives `x₀` back: the algebraic
/// heart of the smoother round trip.
pub proof fn lemma_inverse_recovers(phi: SpecMat, inv: SpecMat, x0: SpecMat)
    requires
        is_mat(phi, phi.len(), phi.len()),
        phi.len() >= 1,
        is_mat(inv, phi.len(), phi.len()),
        mat_mul(inv, phi) == mat_identity(phi.len()),
        is_mat(x0, phi.len(), 1),
    ensures
        mat_mul(inv, mat_mul(phi, x0)) == x0,
{
    lemma_cols_of(x0, phi.len(), 1);
    lemma_mul_assoc(inv, phi, x0);
    lemma_mul_identity_left(x0);
}

/// Round trip: smoothing an estimate that a classical time update produced
/// from the initial state through an invertible state-transition matrix
/// recovers the initial state exactly.
pub proof fn lemma_smoother_round_trip(pre: KF, est: Estimate, sm: Estimate)
    requires
        pre.wf(),
        !pre.ekf,
        est.state@ == pre.spec_state_bar(),
        est.stm@ == pre.stm@,
        smoothed_rel(est, sm),
    ensures
        sm.state@ == pre.prev_estimate.state@,
{
    let n = est.stm@.len();
    let inv = choose|inv: SpecMat|
        {
            &&& is_mat(inv, n, n)
            &&& #[trigger] mat_mul(est.stm@, inv) == mat_identity(n)
            &&& mat_mul(inv, est.stm@) == mat_identity(n)
            &&& sm.state@ == mat_mul(inv, est.state@)
            &&& sm.covar@ == mat_mul(mat_mul(inv, est.covar@), mat_transpose(inv))
        };
    lemma_inverse_recovers(pre.stm@, inv, pre.prev_estimate.state@);
}

/// The measurement update is deterministic: its contract names the inverse
/// of the innovation covariance only through an existential witness, but a
/// square matrix has at most one two-sided inverse, so any two outcomes the
/// contract admits for the same filter and observations agree on the state,
/// the covariance and the residual.
pub proof fn lemma_measurement_update_deterministic(
    pre: KF,
    dt: i64,
    zr: SpecMat,
    zc: SpecMat,
    est1: Estimate,
    res1: crate::estimate::Residual,
    sinv1: SpecMat,
    est2: Estimate,
    res2: crate::estimate::Residual,
    sinv2: SpecMat,
)
    requires
        pre.wf(),
        msr_update_ok(pre, dt, zr, zc, est1, res1, sinv1),
        msr_update_ok(pre, dt, zr, zc, est2, res2, sinv2),
    ensures
        sinv1 == sinv2,
        est1.state@ == est2.state@,
        est1.covar@ == est2.covar@,
        res1.prefit@ == res2.prefit@,
        res1.postfit@ == res2.postfit@,
{
    let s = pre.sdim();
    let m = pre.mdim();
    let smat = pre.spec_innov_covar();
    lemma_cols_of(pre.prev_estimate.covar@, s, s);
    lemma_cols_of(pre.stm@, s, s);
    lemma_cols_of(pre.h_tilde@, m, s);
    lemma_mul_shape(pre.stm@, pre.prev_estimate.covar@);
    lemma_transpose_shape(pre.stm@);
    lemma_mul_shape(
        mat_mul(pre.stm@, pre.prev_estimate.covar@),
        mat_transpose(pre.stm@),
    );
    let covar_bar = pre.spec_covar_bar();
    lemma_cols_of(covar_bar, s, s);
    lemma_mul_shape(pre.h_tilde@, covar_bar);
    lemma_transpose_shape(pre.h_tilde@);
    let hpb = mat_mul(pre.h_tilde@, covar_bar);
    lemma_cols_of(hpb, m, s);
    lemma_mul_shape(hpb, mat_transpose(pre.h_tilde@));
    let hpbh = mat_mul(hpb, mat_transpose(pre.h_tilde@));
    assert(is_mat(smat, m, m)) by {
        assert(forall|i: int| 0 <= i < m ==> (#[trigger] smat[i]).len() == spec_cols(hpbh));
        lemma_cols_of(hpbh, m, m);
    }
    crate::matrix::lemma_inverse_unique(smat, sinv1, sinv2);
}

/// Mode switch: in extended mode a successful measurement update computes
/// the state as `K y` alone; the classical branch `x⁻ + K (y − H x⁻)` is
/// never taken. With the drivers' guarantee that the mode never leaves
/// extended mode within a pass, a fired trigger rules the classical branch
/// out for the rest of the run.
pub proof fn lemma_ekf_branch(
    pre: KF,
    dt: i64,
    zr: SpecMat,
    zc: SpecMat,
    est: Estimate,
    res: crate::estimate::Residual,
    sinv: SpecMat,
)
    requires
        pre.ekf,
        msr_update_ok(pre, dt, zr, zc, est, res, sinv),
    ensures
        est.state@ == mat_mul(
            mat_mul(mat_mul(pre.spec_covar_bar(), mat_transpose(pre.h_tilde@)), sinv),
            mat_sub(zr, zc),
        ),
{
}

} // verus!
