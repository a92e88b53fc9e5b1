//! Dense matrices with exact integer entries.
//!
//! The executable representation stores `i128` entries; the specification
//! model is the unbounded mathematical matrix `Seq<Seq<int>>`, so every
//! operation is stated as an exact identity of integer linear algebra.
//! Arithmetic is checked: an operation whose result would leave the machine
//! range reports that instead of wrapping.

use vstd::prelude::*;

verus! {

/// Mathematical model of a dense matrix: a sequence of rows of integers.
pub type SpecMat = Seq<Seq<int>>;

/// Number of columns, read off the first row (zero for an empty matrix).
pub open spec fn spec_cols(m: SpecMat) -> nat {
    if m.len() == 0 { 0 } else { m[0].len() }
}

/// `m` is a well-formed `r` by `c` matrix: `r` rows, each of length `c`.
pub open spec fn is_mat(m: SpecMat, r: nat, c: nat) -> bool {
    m.len() == r && (forall|i: int| 0 <= i < r ==> (#[trigger] m[i]).len() == c)
}

/// Column `j` of `m`, as a sequence.
pub open spec fn col_seq(m: SpecMat, j: int) -> Seq<int> {
    Seq::new(m.len(), |k: int| m[k][j])
}

/// Sum of the first `k` products of corresponding entries of `a` and `b`.
pub open spec fn dot_prefix(a: Seq<int>, b: Seq<int>, k: int) -> int
    decreases k,
{
    if k <= 0 {
        0
    } else {
        dot_prefix(a, b, k - 1) + a[k - 1] * b[k - 1]
    }
}

/// Inner product of `a` and `b`; the length of `a` gives the summation range.
pub open spec fn dot(a: Seq<int>, b: Seq<int>) -> int {
    dot_prefix(a, b, a.len() as int)
}

/// Matrix product: entry `(i, j)` is the inner product of row `i` of `a`
/// with column `j` of `b`.
pub open spec fn mat_mul(a: SpecMat, b: SpecMat) -> SpecMat {
    Seq::new(a.len(), |i: int| Seq::new(spec_cols(b), |j: int| dot(a[i], col_seq(b, j))))
}

pub open spec fn mat_transpose(m: SpecMat) -> SpecMat {
    Seq::new(spec_cols(m), |i: int| Seq::new(m.len(), |j: int| m[j][i]))
}

pub open spec fn mat_add(a: SpecMat, b: SpecMat) -> SpecMat {
    Seq::new(a.len(), |i: int| Seq::new(a[i].len(), |j: int| a[i][j] + b[i][j]))
}

pub open spec fn mat_sub(a: SpecMat, b: SpecMat) -> SpecMat {
    Seq::new(a.len(), |i: int| Seq::new(a[i].len(), |j: int| a[i][j] - b[i][j]))
}

pub open spec fn mat_identity(n: nat) -> SpecMat {
    Seq::new(n, |i: int| Seq::new(n, |j: int| if i == j { 1int } else { 0int }))
}

pub open spec fn mat_zero(r: nat, c: nat) -> SpecMat {
    Seq::new(r, |i: int| Seq::new(c, |j: int| 0int))
}

/// `m` is square and equal to its transpose, entry by entry.
pub open spec fn mat_sym(m: SpecMat) -> bool {
    m.len() == spec_cols(m) && (forall|i: int, j: int|
        0 <= i < m.len() && 0 <= j < m.len() ==> #[trigger] m[i][j] == m[j][i])
}

pub open spec fn in_i128(x: int) -> bool {
    i128::MIN <= x <= i128::MAX
}

/// Every step of the running inner-product computation (each entry product
/// and each partial sum) stays in machine range.
pub open spec fn dot_fits(a: Seq<int>, b: Seq<int>) -> bool {
    (forall|k: int| 0 <= k < a.len() ==> in_i128(#[trigger] (a[k] * b[k])))
    && (forall|k: int| 0 <= k <= a.len() ==> in_i128(#[trigger] dot_prefix(a, b, k)))
}

/// The whole product `a * b` can be computed in machine arithmetic.
pub open spec fn mul_fits(a: SpecMat, b: SpecMat) -> bool {
    forall|i: int, j: int|
        0 <= i < a.len() && 0 <= j < spec_cols(b) ==> #[trigger] dot_fits(a[i], col_seq(b, j))
}

pub open spec fn add_fits(a: SpecMat, b: SpecMat) -> bool {
    forall|i: int, j: int|
        0 <= i < a.len() && 0 <= j < spec_cols(a) ==> in_i128(#[trigger] (a[i][j] + b[i][j]))
}

pub open spec fn sub_fits(a: SpecMat, b: SpecMat) -> bool {
    forall|i: int, j: int|
        0 <= i < a.len() && 0 <= j < spec_cols(a) ==> in_i128(#[trigger] (a[i][j] - b[i][j]))
}

/// `m` has an exact two-sided inverse of its own shape.
pub open spec fn mat_invertible(m: SpecMat) -> bool {
    exists|v: SpecMat|
        is_mat(v, m.len(), m.len()) && #[trigger] mat_mul(m, v) == mat_identity(m.len())
            && mat_mul(v, m) == mat_identity(m.len())
}

/// Copy of `m` without row `ri` and column `ci`, in the model.
pub open spec fn spec_minor(m: SpecMat, ri: int, ci: int) -> SpecMat {
    if m.len() == 0 {
        Seq::empty()
    } else {
        Seq::new(
            (m.len() - 1) as nat,
            |i: int|
                Seq::new(
                    (m.len() - 1) as nat,
                    |j: int| m[if i < ri { i } else { i + 1 }][if j < ci { j } else { j + 1 }],
                ),
        )
    }
}

/// The sign of the term at offset `k` of the cofactor expansion.
pub open spec fn alt_sign(k: int) -> int {
    if k % 2 == 0 {
        1int
    } else {
        -1int
    }
}

/// The first `k` terms of the cofactor expansion of the determinant along
/// the first row.
pub open spec fn det_prefix(m: SpecMat, k: int) -> int
    decreases m.len(), 0nat, k,
{
    if k <= 0 || m.len() == 0 {
        0
    } else {
        det_prefix(m, k - 1) + alt_sign(k - 1) * (m[0][k - 1] * spec_det(spec_minor(m, 0, k - 1)))
    }
}

/// Determinant by cofactor expansion along the first row.
pub open spec fn spec_det(m: SpecMat) -> int
    decreases m.len(), 1nat, 0int,
{
    if m.len() == 0 {
        1
    } else if m.len() == 1 {
        m[0][0]
    } else {
        det_prefix(m, m.len() as int)
    }
}

/// Every step of the determinant's cofactor expansion stays in machine
/// range, recursively through the minors.
pub open spec fn det_fits(m: SpecMat) -> bool
    decreases m.len(),
{
    m.len() <= 1 || {
        &&& (forall|j: int| 0 <= j < m.len() ==> det_fits(#[trigger] spec_minor(m, 0, j)))
        &&& (forall|j: int|
            0 <= j < m.len() ==> in_i128(#[trigger] (m[0][j] * spec_det(spec_minor(m, 0, j)))))
        &&& (forall|k: int| 0 <= k <= m.len() ==> in_i128(#[trigger] det_prefix(m, k)))
    }
}

/// The adjugate: entry `(i, j)` is the signed determinant of the `(j, i)`
/// minor; for a one-by-one matrix it is the one-by-one identity.
pub open spec fn spec_adjugate(m: SpecMat) -> SpecMat {
    if m.len() <= 1 {
        seq![seq![1int]]
    } else {
        Seq::new(
            m.len(),
            |i: int|
                Seq::new(
                    m.len(),
                    |j: int|
                        (if i % 2 == j % 2 {
                            1int
                        } else {
                            -1int
                        }) * spec_det(spec_minor(m, j, i)),
                ),
        )
    }
}

/// Every signed minor determinant of the adjugate stays in machine range.
pub open spec fn adjugate_fits(m: SpecMat) -> bool {
    m.len() <= 1 || (forall|i: int, j: int|
        0 <= i < m.len() && 0 <= j < m.len() ==> det_fits(#[trigger] spec_minor(m, j, i))
            && in_i128(
            (if i % 2 == j % 2 {
                1int
            } else {
                -1int
            }) * spec_det(spec_minor(m, j, i)),
        ))
}

/// Entrywise negation, in the model.
pub open spec fn mat_neg(m: SpecMat) -> SpecMat {
    Seq::new(m.len(), |i: int| Seq::new(m[i].len(), |j: int| -m[i][j]))
}

/// Every negated entry stays in machine range.
pub open spec fn neg_fits(m: SpecMat) -> bool {
    forall|i: int, j: int|
        0 <= i < m.len() && 0 <= j < spec_cols(m) ==> in_i128(-(#[trigger] m[i][j]))
}

/// The candidate inverse the library computes: the adjugate when the
/// determinant is one, its negation when the determinant is minus one.
pub open spec fn spec_inverse_candidate(m: SpecMat) -> SpecMat {
    if spec_det(m) == 1 {
        spec_adjugate(m)
    } else {
        mat_neg(spec_adjugate(m))
    }
}

/// The whole inversion pipeline succeeds on `m`: the determinant expansion
/// fits machine range and the determinant is a unit of the integers, the
/// signed adjugate fits, both validation products fit, and they equal the
/// identity. The two product conjuncts hold of every unit-determinant
/// matrix by the classical adjugate identity; the library checks them at
/// run time rather than assuming that identity.
pub open spec fn inverse_computable(m: SpecMat) -> bool {
    let cand = spec_inverse_candidate(m);
    &&& det_fits(m)
    &&& (spec_det(m) == 1 || spec_det(m) == -1)
    &&& adjugate_fits(m)
    &&& (spec_det(m) == -1 ==> neg_fits(spec_adjugate(m)))
    &&& is_mat(cand, m.len(), m.len())
    &&& mul_fits(m, cand)
    &&& mul_fits(cand, m)
    &&& mat_mul(m, cand) == mat_identity(m.len())
    &&& mat_mul(cand, m) == mat_identity(m.len())
}

/// A well-formed non-empty matrix has as many columns as each of its rows.
pub proof fn lemma_cols_of(m: SpecMat, r: nat, c: nat)
    requires
        is_mat(m, r, c),
        r >= 1,
    ensures
        spec_cols(m) == c,
{
    assert(m[0].len() == c);
}

/// Entrywise sum of two equally long sequences.
pub open spec fn seq_add(u: Seq<int>, v: Seq<int>) -> Seq<int> {
    Seq::new(u.len(), |i: int| u[i] + v[i])
}

/// A sequence scaled by a constant.
pub open spec fn seq_scale(c: int, u: Seq<int>) -> Seq<int> {
    Seq::new(u.len(), |i: int| c * u[i])
}

/// The sequence of inner products of the rows of `b` with `x`.
pub open spec fn row_dots(b: SpecMat, x: Seq<int>) -> Seq<int> {
    Seq::new(b.len(), |r: int| dot(b[r], x))
}

/// Column `c` holds the partial combination of the first `k` rows of `b`
/// weighted by `a`.
pub open spec fn combo_prefix(a: Seq<int>, b: SpecMat, k: int) -> Seq<int> {
    Seq::new(spec_cols(b), |c: int| dot_prefix(a, col_seq(b, c), k))
}

pub proof fn lemma_dot_prefix_comm(a: Seq<int>, b: Seq<int>, k: int)
    ensures
        dot_prefix(a, b, k) == dot_prefix(b, a, k),
    decreases k,
{
    if k > 0 {
        lemma_dot_prefix_comm(a, b, k - 1);
    }
}

/// The inner product does not depend on the order of its arguments.
pub proof fn lemma_dot_comm(a: Seq<int>, b: Seq<int>)
    requires
        a.len() == b.len(),
    ensures
        dot(a, b) == dot(b, a),
{
    lemma_dot_prefix_comm(a, b, a.len() as int);
}

pub proof fn lemma_dot_prefix_zero(z: Seq<int>, x: Seq<int>, k: int)
    requires
        forall|t: int| 0 <= t < k ==> z[t] == 0,
    ensures
        dot_prefix(z, x, k) == 0,
    decreases k,
{
    if k > 0 {
        lemma_dot_prefix_zero(z, x, k - 1);
    }
}

/// The inner product is additive in its first argument.
pub proof fn lemma_dot_prefix_add(u: Seq<int>, v: Seq<int>, x: Seq<int>, k: int)
    requires
        u.len() == v.len(),
        k <= u.len(),
    ensures
        dot_prefix(seq_add(u, v), x, k) == dot_prefix(u, x, k) + dot_prefix(v, x, k),
    decreases k,
{
    if k > 0 {
        lemma_dot_prefix_add(u, v, x, k - 1);
        assert((u[k - 1] + v[k - 1]) * x[k - 1] == u[k - 1] * x[k - 1] + v[k - 1] * x[k - 1])
            by (nonlinear_arith);
    }
}

/// The inner product is homogeneous in its first argument.
pub proof fn lemma_dot_prefix_scale(c: int, u: Seq<int>, x: Seq<int>, k: int)
    requires
        k <= u.len(),
    ensures
        dot_prefix(seq_scale(c, u), x, k) == c * dot_prefix(u, x, k),
    decreases k,
{
    if k > 0 {
        lemma_dot_prefix_scale(c, u, x, k - 1);
        assert((c * u[k - 1]) * x[k - 1] == c * (u[k - 1] * x[k - 1])) by (nonlinear_arith);
        assert(c * (dot_prefix(u, x, k - 1) + u[k - 1] * x[k - 1]) == c * dot_prefix(u, x, k - 1)
            + c * (u[k - 1] * x[k - 1])) by (nonlinear_arith);
    }
}

/// A unit sequence picks out one coordinate of `v`.
pub proof fn lemma_dot_prefix_unit(e: Seq<int>, v: Seq<int>, i: int, k: int)
    requires
        forall|t: int| 0 <= t < k ==> e[t] == (if t == i { 1int } else { 0int }),
    ensures
        dot_prefix(e, v, k) == (if 0 <= i < k { v[i] } else { 0 }),
    decreases k,
{
    if k > 0 {
        lemma_dot_prefix_unit(e, v, i, k - 1);
    }
}

/// Exchanging the order of summation: weighting the row inner products of
/// `b` by `a` equals the inner product of the `a`-combination of the rows
/// with `x`.
pub proof fn lemma_dot_exchange(a: Seq<int>, b: SpecMat, x: Seq<int>, k: int)
    requires
        is_mat(b, b.len(), spec_cols(b)),
        a.len() == b.len(),
        x.len() == spec_cols(b),
        0 <= k <= b.len(),
    ensures
        dot_prefix(a, row_dots(b, x), k) == dot(combo_prefix(a, b, k), x),
    decreases k,
{
    let cols = spec_cols(b);
    if k == 0 {
        lemma_dot_prefix_zero(combo_prefix(a, b, 0), x, cols as int);
    } else {
        lemma_dot_exchange(a, b, x, k - 1);
        let prev = combo_prefix(a, b, k - 1);
        let step = seq_scale(a[k - 1], b[k - 1]);
        assert(combo_prefix(a, b, k) =~= seq_add(prev, step)) by {
            assert forall|c: int| 0 <= c < cols implies combo_prefix(a, b, k)[c] == seq_add(
                prev,
                step,
            )[c] by {
                assert(col_seq(b, c)[k - 1] == b[k - 1][c]);
                assert(dot_prefix(a, col_seq(b, c), k) == dot_prefix(a, col_seq(b, c), k - 1)
                    + a[k - 1] * col_seq(b, c)[k - 1]);
            }
        }
        lemma_dot_prefix_add(prev, step, x, cols as int);
        lemma_dot_prefix_scale(a[k - 1], b[k - 1], x, cols as int);
        assert(dot(step, x) == a[k - 1] * dot(b[k - 1], x));
        assert(dot_prefix(a, row_dots(b, x), k) == dot_prefix(a, row_dots(b, x), k - 1) + a[k - 1]
            * row_dots(b, x)[k - 1]);
    }
}

/// Shape of a matrix product.
pub proof fn lemma_mul_shape(a: SpecMat, b: SpecMat)
    requires
        a.len() > 0,
        spec_cols(b) > 0,
    ensures
        is_mat(mat_mul(a, b), a.len(), spec_cols(b)),
        spec_cols(mat_mul(a, b)) == spec_cols(b),
        mat_mul(a, b).len() == a.len(),
{
    assert(forall|i: int|
        0 <= i < a.len() ==> (#[trigger] mat_mul(a, b)[i]).len() == spec_cols(b));
}

/// Shape of a transpose.
pub proof fn lemma_transpose_shape(m: SpecMat)
    requires
        is_mat(m, m.len(), spec_cols(m)),
        m.len() > 0,
        spec_cols(m) > 0,
    ensures
        is_mat(mat_transpose(m), spec_cols(m), m.len()),
        spec_cols(mat_transpose(m)) == m.len(),
        mat_transpose(m).len() == spec_cols(m),
{
    assert(forall|i: int|
        0 <= i < spec_cols(m) ==> (#[trigger] mat_transpose(m)[i]).len() == m.len());
}

/// Shape of an entrywise sum.
pub proof fn lemma_add_shape(a: SpecMat, b: SpecMat)
    requires
        is_mat(a, a.len(), spec_cols(a)),
        a.len() > 0,
    ensures
        is_mat(mat_add(a, b), a.len(), spec_cols(a)),
        spec_cols(mat_add(a, b)) == spec_cols(a),
        mat_add(a, b).len() == a.len(),
{
    assert(forall|i: int|
        0 <= i < a.len() ==> (#[trigger] mat_add(a, b)[i]).len() == spec_cols(a));
}

/// Matrix multiplication is associative.
pub proof fn lemma_mul_assoc(a: SpecMat, b: SpecMat, c: SpecMat)
    requires
        is_mat(a, a.len(), b.len()),
        is_mat(b, b.len(), c.len()),
        is_mat(c, c.len(), spec_cols(c)),
        a.len() > 0,
        b.len() > 0,
        c.len() > 0,
        spec_cols(c) > 0,
    ensures
        mat_mul(mat_mul(a, b), c) == mat_mul(a, mat_mul(b, c)),
{
    let p = a.len();
    let q = b.len();
    let r = c.len();
    let s = spec_cols(c);
    let ab = mat_mul(a, b);
    let bc = mat_mul(b, c);
    lemma_mul_shape(a, b);
    lemma_mul_shape(b, c);
    lemma_mul_shape(ab, c);
    lemma_mul_shape(a, bc);
    assert(mat_mul(ab, c) =~~= mat_mul(a, bc)) by {
        assert forall|i: int, j: int| 0 <= i < p && 0 <= j < s implies mat_mul(ab, c)[i][j]
            == mat_mul(a, bc)[i][j] by {
            let cj = col_seq(c, j);
            assert(col_seq(bc, j) =~= row_dots(b, cj)) by {
                assert forall|k: int| 0 <= k < q implies col_seq(bc, j)[k] == row_dots(b, cj)[k] by {
                    assert(bc[k][j] == dot(b[k], col_seq(c, j)));
                }
            }
            lemma_dot_exchange(a[i], b, cj, q as int);
            assert(combo_prefix(a[i], b, q as int) =~= ab[i]) by {
                assert forall|cc: int| 0 <= cc < r implies combo_prefix(a[i], b, q as int)[cc]
                    == ab[i][cc] by {
                    assert(ab[i][cc] == dot(a[i], col_seq(b, cc)));
                    assert(a[i].len() == q);
                }
            }
            assert(mat_mul(a, bc)[i][j] == dot(a[i], col_seq(bc, j)));
            assert(dot(a[i], row_dots(b, cj)) == dot_prefix(a[i], row_dots(b, cj), q as int));
            assert(mat_mul(ab, c)[i][j] == dot(ab[i], cj));
        }
    }
}

/// The transpose of a product is the reversed product of the transposes.
pub proof fn lemma_transpose_mul(a: SpecMat, b: SpecMat)
    requires
        is_mat(a, a.len(), b.len()),
        is_mat(b, b.len(), spec_cols(b)),
        a.len() > 0,
        b.len() > 0,
        spec_cols(b) > 0,
    ensures
        mat_transpose(mat_mul(a, b)) == mat_mul(mat_transpose(b), mat_transpose(a)),
{
    let p = a.len();
    let q = b.len();
    let s = spec_cols(b);
    lemma_mul_shape(a, b);
    lemma_transpose_shape(b);
    lemma_transpose_shape(a);
    lemma_mul_shape(mat_transpose(b), mat_transpose(a));
    assert(mat_transpose(mat_mul(a, b)) =~~= mat_mul(mat_transpose(b), mat_transpose(a))) by {
        assert forall|i: int, j: int| 0 <= i < s && 0 <= j < p implies mat_transpose(
            mat_mul(a, b),
        )[i][j] == mat_mul(mat_transpose(b), mat_transpose(a))[i][j] by {
            assert(mat_transpose(mat_mul(a, b))[i][j] == mat_mul(a, b)[j][i]);
            assert(mat_mul(a, b)[j][i] == dot(a[j], col_seq(b, i)));
            assert(mat_transpose(b)[i] =~= col_seq(b, i));
            assert(col_seq(mat_transpose(a), j) =~= a[j]) by {
                assert forall|k: int| 0 <= k < q implies col_seq(mat_transpose(a), j)[k]
                    == a[j][k] by {
                    assert(mat_transpose(a)[k][j] == a[j][k]);
                }
            }
            lemma_dot_comm(col_seq(b, i), a[j]);
            assert(mat_mul(mat_transpose(b), mat_transpose(a))[i][j] == dot(
                mat_transpose(b)[i],
                col_seq(mat_transpose(a), j),
            ));
        }
    }
}

/// Transposing twice gives the matrix back.
pub proof fn lemma_transpose_involution(a: SpecMat)
    requires
        is_mat(a, a.len(), spec_cols(a)),
        a.len() > 0,
        spec_cols(a) > 0,
    ensures
        mat_transpose(mat_transpose(a)) == a,
{
    lemma_transpose_shape(a);
    assert(mat_transpose(mat_transpose(a)) =~~= a);
}

/// A symmetric matrix equals its transpose.
pub proof fn lemma_sym_transpose(m: SpecMat)
    requires
        is_mat(m, m.len(), m.len()),
        mat_sym(m),
        m.len() > 0,
    ensures
        mat_transpose(m) == m,
{
    assert(mat_transpose(m) =~~= m);
}

/// The sum of two symmetric matrices is symmetric.
pub proof fn lemma_add_sym(a: SpecMat, b: SpecMat)
    requires
        is_mat(a, a.len(), a.len()),
        is_mat(b, a.len(), a.len()),
        mat_sym(a),
        mat_sym(b),
        a.len() > 0,
    ensures
        mat_sym(mat_add(a, b)),
{
    lemma_add_shape(a, b);
}

/// A sandwich product `a * m * a'` of a symmetric `m` is symmetric.
pub proof fn lemma_sandwich_sym(a: SpecMat, m: SpecMat)
    requires
        is_mat(a, a.len(), m.len()),
        is_mat(m, m.len(), m.len()),
        mat_sym(m),
        a.len() > 0,
        m.len() > 0,
    ensures
        mat_sym(mat_mul(mat_mul(a, m), mat_transpose(a))),
        is_mat(mat_mul(mat_mul(a, m), mat_transpose(a)), a.len(), a.len()),
{
    let p = a.len();
    let n = m.len();
    let am = mat_mul(a, m);
    let at = mat_transpose(a);
    let s = mat_mul(am, at);
    lemma_mul_shape(a, m);
    lemma_transpose_shape(a);
    lemma_mul_shape(am, at);
    lemma_transpose_mul(am, at);
    assert(mat_transpose(s) == mat_mul(mat_transpose(at), mat_transpose(am)));
    lemma_transpose_involution(a);
    lemma_transpose_mul(a, m);
    assert(mat_transpose(am) == mat_mul(mat_transpose(m), at));
    lemma_sym_transpose(m);
    assert(mat_transpose(s) == mat_mul(a, mat_mul(m, at)));
    lemma_mul_assoc(a, m, at);
    assert(mat_transpose(s) == s);
    assert forall|i: int, j: int| 0 <= i < p && 0 <= j < p implies #[trigger] s[i][j]
        == s[j][i] by {
        assert(mat_transpose(s)[i][j] == s[j][i]);
    }
}

/// Multiplying by the identity on the left changes nothing.
pub proof fn lemma_mul_identity_left(a: SpecMat)
    requires
        is_mat(a, a.len(), spec_cols(a)),
        a.len() > 0,
        spec_cols(a) > 0,
    ensures
        mat_mul(mat_identity(a.len()), a) == a,
{
    let n = a.len();
    let id = mat_identity(n);
    assert(mat_mul(id, a) =~~= a) by {
        assert forall|i: int, j: int| 0 <= i < n && 0 <= j < spec_cols(a) implies mat_mul(
            id,
            a,
        )[i][j] == a[i][j] by {
            assert(mat_mul(id, a)[i][j] == dot(id[i], col_seq(a, j)));
            assert(forall|t: int|
                0 <= t < n ==> id[i][t] == (if t == i { 1int } else { 0int }));
            lemma_dot_prefix_unit(id[i], col_seq(a, j), i, n as int);
            assert(col_seq(a, j)[i] == a[i][j]);
        }
    }
}

/// Multiplying by the identity on the right changes nothing.
pub proof fn lemma_mul_identity_right(a: SpecMat)
    requires
        is_mat(a, a.len(), spec_cols(a)),
        a.len() > 0,
        spec_cols(a) > 0,
    ensures
        mat_mul(a, mat_identity(spec_cols(a))) == a,
{
    let n = spec_cols(a);
    let id = mat_identity(n);
    assert(mat_mul(a, id) =~~= a) by {
        assert forall|i: int, j: int| 0 <= i < a.len() && 0 <= j < n implies mat_mul(
            a,
            id,
        )[i][j] == a[i][j] by {
            assert(mat_mul(a, id)[i][j] == dot(a[i], col_seq(id, j)));
            lemma_dot_comm(a[i], col_seq(id, j));
            assert(forall|t: int|
                0 <= t < n ==> col_seq(id, j)[t] == (if t == j { 1int } else { 0int }));
            lemma_dot_prefix_unit(col_seq(id, j), a[i], j, n as int);
        }
    }
}

/// A matrix has at most one two-sided inverse: a left inverse and a right
/// inverse of the same square matrix coincide.
pub proof fn lemma_inverse_unique(m: SpecMat, v1: SpecMat, v2: SpecMat)
    requires
        is_mat(m, m.len(), m.len()),
        m.len() >= 1,
        is_mat(v1, m.len(), m.len()),
        is_mat(v2, m.len(), m.len()),
        mat_mul(v1, m) == mat_identity(m.len()),
        mat_mul(m, v2) == mat_identity(m.len()),
    ensures
        v1 == v2,
{
    let n = m.len();
    lemma_cols_of(v1, n, n);
    lemma_cols_of(v2, n, n);
    lemma_cols_of(m, n, n);
    lemma_mul_identity_right(v1);
    assert(v1 == mat_mul(v1, mat_mul(m, v2)));
    lemma_mul_assoc(v1, m, v2);
    lemma_mul_identity_left(v2);
}

/// Dense matrix with exact `i128` entries.
#[derive(Debug)]
pub struct Matrix {
    data: Vec<Vec<i128>>,
}

impl View for Matrix {
    type V = SpecMat;

    closed spec fn view(&self) -> SpecMat {
        self.data@.map_values(|row: Vec<i128>| row@.map_values(|x: i128| x as int))
    }
}

proof fn lemma_view_shape(m: &Matrix)
    ensures
        m@.len() == m.data@.len(),
        forall|i: int| 0 <= i < m@.len() ==> (#[trigger] m@[i]).len() == m.data@[i]@.len(),
        forall|i: int, j: int|
            0 <= i < m@.len() && 0 <= j < m@[i].len()
                ==> #[trigger] m@[i][j] == m.data@[i]@[j] as int,
{
}

impl Clone for Matrix {
    #[verifier::loop_isolation(false)]
    fn clone(&self) -> (r: Self)
        ensures
            r@ == self@,
    {
        let mut data: Vec<Vec<i128>> = Vec::new();
        let mut i: usize = 0;
        while i < self.data.len()
            invariant
                i <= self.data.len(),
                data@.len() == i,
                forall|a: int| 0 <= a < i ==> #[trigger] data@[a]@ == self.data@[a]@,
            decreases self.data.len() - i,
        {
            let mut row: Vec<i128> = Vec::new();
            let mut j: usize = 0;
            while j < self.data[i].len()
                invariant
                    i < self.data.len(),
                    j <= self.data@[i as int]@.len(),
                    row@ == self.data@[i as int]@.subrange(0, j as int),
                decreases self.data[i as int].len() - j,
            {
                row.push(self.data[i][j]);
                proof {
                    assert(row@ =~= self.data@[i as int]@.subrange(0, j + 1));
                }
                j = j + 1;
            }
            proof {
                assert(row@ =~= self.data@[i as int]@);
            }
            data.push(row);
            i = i + 1;
        }
        let m = Matrix { data };
        proof {
            assert(m@ =~~= self@);
        }
        m
    }
}

impl Matrix {
    /// Number of rows.
    pub fn nrows(&self) -> (r: usize)
        ensures
            r == self@.len(),
    {
        self.data.len()
    }

    /// Number of columns (zero for an empty matrix).
    pub fn ncols(&self) -> (r: usize)
        ensures
            r == spec_cols(self@),
    {
        if self.data.len() == 0 {
            0
        } else {
            self.data[0].len()
        }
    }

    /// Length of row `i`.
    pub fn row_len(&self, i: usize) -> (r: usize)
        requires
            i < self@.len(),
        ensures
            r == self@[i as int].len(),
    {
        proof {
            lemma_view_shape(self);
        }
        self.data[i].len()
    }

    /// Entry at row `i`, column `j`.
    pub fn get(&self, i: usize, j: usize) -> (r: i128)
        requires
            i < self@.len(),
            j < self@[i as int].len(),
        ensures
            r as int == self@[i as int][j as int],
    {
        self.data[i][j]
    }

    /// Builds a matrix from rows; `None` exactly when the rows do not form
    /// a non-empty rectangle.
    #[verifier::loop_isolation(false)]
    pub fn from_rows(data: Vec<Vec<i128>>) -> (r: Option<Matrix>)
        ensures
            r is Some <==> data@.len() > 0 && data@[0]@.len() > 0 && (forall|i: int|
                0 <= i < data@.len() ==> (#[trigger] data@[i])@.len() == data@[0]@.len()),
            match r {
                Some(m) => {
                    &&& is_mat(m@, data@.len(), spec_cols(m@))
                    &&& m@.len() > 0
                    &&& spec_cols(m@) > 0
                    &&& forall|i: int, j: int|
                        0 <= i < m@.len() && 0 <= j < spec_cols(m@)
                            ==> #[trigger] m@[i][j] == data@[i]@[j] as int
                },
                None => true,
            },
    {
        if data.len() == 0 {
            return None;
        }
        let c = data[0].len();
        if c == 0 {
            return None;
        }
        let mut i: usize = 0;
        while i < data.len()
            invariant
                i <= data.len(),
                forall|a: int| 0 <= a < i ==> (#[trigger] data@[a])@.len() == c,
            decreases data.len() - i,
        {
            if data[i].len() != c {
                return None;
            }
            i = i + 1;
        }
        let m = Matrix { data };
        proof {
            assert(forall|a: int| 0 <= a < m@.len() ==> (#[trigger] m@[a]).len() == c);
        }
        Some(m)
    }

    /// The `n` by `n` identity.
    #[verifier::loop_isolation(false)]
    pub fn identity(n: usize) -> (r: Matrix)
        requires
            1 <= n,
        ensures
            r@ == mat_identity(n as nat),
    {
        let mut data: Vec<Vec<i128>> = Vec::new();
        let mut i: usize = 0;
        while i < n
            invariant
                i <= n,
                data@.len() == i,
                forall|a: int| 0 <= a < i ==> (#[trigger] data@[a])@.len() == n,
                forall|a: int, b: int|
                    0 <= a < i && 0 <= b < n
                        ==> #[trigger] data@[a]@[b] as int == (if a == b { 1int } else { 0int }),
            decreases n - i,
        {
            let mut row: Vec<i128> = Vec::new();
            let mut j: usize = 0;
            while j < n
                invariant
                    j <= n,
                    row@.len() == j,
                    forall|b: int|
                        0 <= b < j
                            ==> #[trigger] row@[b] as int == (if i == b { 1int } else { 0int }),
                decreases n - j,
            {
                if i == j {
                    row.push(1);
                } else {
                    row.push(0);
                }
                j = j + 1;
            }
            data.push(row);
            i = i + 1;
        }
        let m = Matrix { data };
        proof {
            assert(m@ =~~= mat_identity(n as nat));
        }
        m
    }

    /// The `r` by `c` zero matrix.
    #[verifier::loop_isolation(false)]
    pub fn zeros(r: usize, c: usize) -> (z: Matrix)
        requires
            1 <= r,
            1 <= c,
        ensures
            z@ == mat_zero(r as nat, c as nat),
    {
        let mut data: Vec<Vec<i128>> = Vec::new();
        let mut i: usize = 0;
        while i < r
            invariant
                i <= r,
                data@.len() == i,
                forall|a: int| 0 <= a < i ==> (#[trigger] data@[a])@.len() == c,
                forall|a: int, b: int|
                    0 <= a < i && 0 <= b < c ==> #[trigger] data@[a]@[b] as int == 0int,
            decreases r - i,
        {
            let mut row: Vec<i128> = Vec::new();
            let mut j: usize = 0;
            while j < c
                invariant
                    j <= c,
                    row@.len() == j,
                    forall|b: int| 0 <= b < j ==> #[trigger] row@[b] as int == 0int,
                decreases c - j,
            {
                row.push(0);
                j = j + 1;
            }
            data.push(row);
            i = i + 1;
        }
        let m = Matrix { data };
        proof {
            assert(m@ =~~= mat_zero(r as nat, c as nat));
        }
        m
    }

    /// Transpose.
    #[verifier::loop_isolation(false)]
    pub fn transpose(&self) -> (r: Matrix)
        requires
            is_mat(self@, self@.len(), spec_cols(self@)),
            self@.len() > 0,
            spec_cols(self@) > 0,
        ensures
            r@ == mat_transpose(self@),
    {
        proof {
            lemma_view_shape(self);
        }
        let n = self.data.len();
        let c = self.data[0].len();
        let mut data: Vec<Vec<i128>> = Vec::new();
        let mut i: usize = 0;
        while i < c
            invariant
                i <= c,
                data@.len() == i,
                forall|a: int| 0 <= a < i ==> (#[trigger] data@[a])@.len() == n,
                forall|a: int, b: int|
                    0 <= a < i && 0 <= b < n
                        ==> #[trigger] data@[a]@[b] as int == self@[b][a],
            decreases c - i,
        {
            let mut row: Vec<i128> = Vec::new();
            let mut j: usize = 0;
            while j < n
                invariant
                    i < c,
                    j <= n,
                    row@.len() == j,
                    forall|b: int| 0 <= b < j ==> #[trigger] row@[b] as int == self@[b][i as int],
                decreases n - j,
            {
                proof {
                    assert(self@[j as int].len() == spec_cols(self@));
                    assert(self.data@[j as int]@.len() == self@[j as int].len());
                }
                row.push(self.data[j][i]);
                j = j + 1;
            }
            data.push(row);
            i = i + 1;
        }
        let m = Matrix { data };
        proof {
            assert(m@ =~~= mat_transpose(self@));
        }
        m
    }

    /// Entrywise sum; `None` exactly when some entry of the sum leaves
    /// machine range.
    #[verifier::loop_isolation(false)]
    pub fn checked_add(&self, other: &Matrix) -> (r: Option<Matrix>)
        requires
            is_mat(self@, self@.len(), spec_cols(self@)),
            is_mat(other@, self@.len(), spec_cols(self@)),
            self@.len() > 0,
            spec_cols(self@) > 0,
        ensures
            r is Some <==> add_fits(self@, other@),
            r matches Some(m) ==> m@ == mat_add(self@, other@) && is_mat(
                m@,
                self@.len(),
                spec_cols(self@),
            ),
    {
        proof {
            lemma_view_shape(self);
            lemma_view_shape(other);
        }
        let n = self.data.len();
        let c = self.data[0].len();
        let mut data: Vec<Vec<i128>> = Vec::new();
        let mut i: usize = 0;
        while i < n
            invariant
                i <= n,
                data@.len() == i,
                forall|a: int| 0 <= a < i ==> (#[trigger] data@[a])@.len() == c,
                forall|a: int, b: int|
                    0 <= a < i && 0 <= b < c ==> #[trigger] data@[a]@[b] as int == self@[a][b]
                        + other@[a][b],
            decreases n - i,
        {
            let mut row: Vec<i128> = Vec::new();
            let mut j: usize = 0;
            while j < c
                invariant
                    i < n,
                    j <= c,
                    row@.len() == j,
                    forall|b: int|
                        0 <= b < j ==> #[trigger] row@[b] as int == self@[i as int][b]
                            + other@[i as int][b],
                decreases c - j,
            {
                proof {
                    assert(self.data@[i as int]@.len() == self@[i as int].len());
                    assert(other.data@[i as int]@.len() == other@[i as int].len());
                }
                match self.data[i][j].checked_add(other.data[i][j]) {
                    Some(v) => {
                        row.push(v);
                    },
                    None => {
                        proof {
                            assert(!in_i128(
                                self@[i as int][j as int] + other@[i as int][j as int],
                            ));
                        }
                        return None;
                    },
                }
                j = j + 1;
            }
            data.push(row);
            i = i + 1;
        }
        let m = Matrix { data };
        proof {
            lemma_view_shape(&m);
            assert(m@ =~~= mat_add(self@, other@));
            assert forall|a: int, b: int|
                0 <= a < self@.len() && 0 <= b < spec_cols(self@) implies in_i128(
                #[trigger] (self@[a][b] + other@[a][b]),
            ) by {
                assert(self@[a][b] + other@[a][b] == m.data@[a]@[b] as int);
            }
        }
        Some(m)
    }

    /// Entrywise difference; `None` exactly when some entry of the
    /// difference leaves machine range.
    #[verifier::loop_isolation(false)]
    pub fn checked_sub(&self, other: &Matrix) -> (r: Option<Matrix>)
        requires
            is_mat(self@, self@.len(), spec_cols(self@)),
            is_mat(other@, self@.len(), spec_cols(self@)),
            self@.len() > 0,
            spec_cols(self@) > 0,
        ensures
            r is Some <==> sub_fits(self@, other@),
            r matches Some(m) ==> m@ == mat_sub(self@, other@) && is_mat(
                m@,
                self@.len(),
                spec_cols(self@),
            ),
    {
        proof {
            lemma_view_shape(self);
            lemma_view_shape(other);
        }
        let n = self.data.len();
        let c = self.data[0].len();
        let mut data: Vec<Vec<i128>> = Vec::new();
        let mut i: usize = 0;
        while i < n
            invariant
                i <= n,
                data@.len() == i,
                forall|a: int| 0 <= a < i ==> (#[trigger] data@[a])@.len() == c,
                forall|a: int, b: int|
                    0 <= a < i && 0 <= b < c ==> #[trigger] data@[a]@[b] as int == self@[a][b]
                        - other@[a][b],
            decreases n - i,
        {
            let mut row: Vec<i128> = Vec::new();
            let mut j: usize = 0;
            while j < c
                invariant
                    i < n,
                    j <= c,
                    row@.len() == j,
                    forall|b: int|
                        0 <= b < j ==> #[trigger] row@[b] as int == self@[i as int][b]
                            - other@[i as int][b],
                decreases c - j,
            {
                proof {
                    assert(self.data@[i as int]@.len() == self@[i as int].len());
                    assert(other.data@[i as int]@.len() == other@[i as int].len());
                }
                match self.data[i][j].checked_sub(other.data[i][j]) {
                    Some(v) => {
                        row.push(v);
                    },
                    None => {
                        proof {
                            assert(!in_i128(
                                self@[i as int][j as int] - other@[i as int][j as int],
                            ));
                        }
                        return None;
                    },
                }
                j = j + 1;
            }
            data.push(row);
            i = i + 1;
        }
        let m = Matrix { data };
        proof {
            lemma_view_shape(&m);
            assert(m@ =~~= mat_sub(self@, other@));
            assert forall|a: int, b: int|
                0 <= a < self@.len() && 0 <= b < spec_cols(self@) implies in_i128(
                #[trigger] (self@[a][b] - other@[a][b]),
            ) by {
                assert(self@[a][b] - other@[a][b] == m.data@[a]@[b] as int);
            }
        }
        Some(m)
    }

    /// Matrix product; `None` exactly when some step of the running
    /// inner-product computation leaves machine range.
    #[verifier::loop_isolation(false)]
    pub fn checked_mul(&self, other: &Matrix) -> (r: Option<Matrix>)
        requires
            is_mat(self@, self@.len(), spec_cols(self@)),
            is_mat(other@, other@.len(), spec_cols(other@)),
            self@.len() > 0,
            spec_cols(self@) > 0,
            other@.len() == spec_cols(self@),
            spec_cols(other@) > 0,
        ensures
            r is Some <==> mul_fits(self@, other@),
            r matches Some(m) ==> m@ == mat_mul(self@, other@) && is_mat(
                m@,
                self@.len(),
                spec_cols(other@),
            ),
    {
        proof {
            lemma_view_shape(self);
            lemma_view_shape(other);
        }
        let n = self.data.len();
        let q = other.data.len();
        let c = other.data[0].len();
        let mut data: Vec<Vec<i128>> = Vec::new();
        let mut i: usize = 0;
        while i < n
            invariant
                i <= n,
                data@.len() == i,
                forall|a: int| 0 <= a < i ==> (#[trigger] data@[a])@.len() == c,
                forall|a: int, b: int|
                    0 <= a < i && 0 <= b < c ==> #[trigger] data@[a]@[b] as int == dot(
                        self@[a],
                        col_seq(other@, b),
                    ),
                forall|a: int, b: int|
                    0 <= a < i && 0 <= b < c ==> #[trigger] dot_fits(self@[a], col_seq(other@, b)),
            decreases n - i,
        {
            let mut row: Vec<i128> = Vec::new();
            let mut j: usize = 0;
            while j < c
                invariant
                    i < n,
                    j <= c,
                    row@.len() == j,
                    forall|b: int|
                        0 <= b < j ==> #[trigger] row@[b] as int == dot(
                            self@[i as int],
                            col_seq(other@, b),
                        ),
                    forall|b: int|
                        0 <= b < j ==> #[trigger] dot_fits(self@[i as int], col_seq(other@, b)),
                decreases c - j,
            {
                let ghost arow = self@[i as int];
                let ghost bcol = col_seq(other@, j as int);
                proof {
                    assert(arow.len() == q);
                    assert(bcol.len() == q);
                }
                let mut acc: i128 = 0;
                let mut k: usize = 0;
                while k < q
                    invariant
                        i < n,
                        j < c,
                        k <= q,
                        arow == self@[i as int],
                        bcol == col_seq(other@, j as int),
                        arow.len() == q,
                        bcol.len() == q,
                        acc as int == dot_prefix(arow, bcol, k as int),
                        forall|t: int| 0 <= t < k ==> in_i128(#[trigger] (arow[t] * bcol[t])),
                        forall|t: int| 0 <= t <= k ==> in_i128(#[trigger] dot_prefix(arow, bcol, t)),
                    decreases q - k,
                {
                    proof {
                        assert(self.data@[i as int]@.len() == self@[i as int].len());
                        assert(other.data@[k as int]@.len() == other@[k as int].len());
                        assert(bcol[k as int] == other@[k as int][j as int]);
                    }
                    let prod = match self.data[i][k].checked_mul(other.data[k][j]) {
                        Some(p) => p,
                        None => {
                            proof {
                                assert(!in_i128(arow[k as int] * bcol[k as int]));
                                assert(!dot_fits(arow, bcol));
                            }
                            return None;
                        },
                    };
                    let acc2 = match acc.checked_add(prod) {
                        Some(s) => s,
                        None => {
                            proof {
                                assert(dot_prefix(arow, bcol, k + 1) == dot_prefix(
                                    arow,
                                    bcol,
                                    k as int,
                                ) + arow[k as int] * bcol[k as int]);
                                assert(!in_i128(dot_prefix(arow, bcol, k + 1)));
                                assert(!dot_fits(arow, bcol));
                            }
                            return None;
                        },
                    };
                    proof {
                        assert(dot_prefix(arow, bcol, k + 1) == dot_prefix(arow, bcol, k as int)
                            + arow[k as int] * bcol[k as int]);
                    }
                    acc = acc2;
                    k = k + 1;
                }
                proof {
                    assert(acc as int == dot(arow, bcol));
                    assert(dot_fits(arow, bcol));
                }
                row.push(acc);
                j = j + 1;
            }
            data.push(row);
            i = i + 1;
        }
        let m = Matrix { data };
        proof {
            lemma_view_shape(&m);
            assert(m@ =~~= mat_mul(self@, other@));
        }
        Some(m)
    }

    /// Copy of `self` without row `ri` and column `ci`.
    #[verifier::loop_isolation(false)]
    fn minor(&self, ri: usize, ci: usize) -> (r: Matrix)
        requires
            is_mat(self@, self@.len(), self@.len()),
            self@.len() >= 2,
            ri < self@.len(),
            ci < self@.len(),
        ensures
            is_mat(r@, (self@.len() - 1) as nat, (self@.len() - 1) as nat),
            r@ == spec_minor(self@, ri as int, ci as int),
    {
        proof {
            lemma_view_shape(self);
        }
        let n = self.data.len();
        let mut data: Vec<Vec<i128>> = Vec::new();
        let mut i: usize = 0;
        while i < n
            invariant
                i <= n,
                data@.len() == (if i <= ri { i as int } else { i - 1 }),
                forall|a: int| 0 <= a < data@.len() ==> (#[trigger] data@[a])@.len() == n - 1,
                forall|a: int, b: int|
                    0 <= a < data@.len() && 0 <= b < n - 1
                        ==> #[trigger] data@[a]@[b] as int == self@[if a < ri {
                        a
                    } else {
                        a + 1
                    }][if b < ci {
                        b
                    } else {
                        b + 1
                    }],
            decreases n - i,
        {
            if i != ri {
                let mut row: Vec<i128> = Vec::new();
                let mut j: usize = 0;
                while j < n
                    invariant
                        i < n,
                        i != ri,
                        j <= n,
                        row@.len() == (if j <= ci { j as int } else { j - 1 }),
                        forall|b: int|
                            0 <= b < row@.len() ==> #[trigger] row@[b] as int == self@[i as int][
                                if b < ci {
                                    b
                                } else {
                                    b + 1
                                }
                            ],
                    decreases n - j,
                {
                    if j != ci {
                        proof {
                            assert(self.data@[i as int]@.len() == self@[i as int].len());
                        }
                        row.push(self.data[i][j]);
                    }
                    j = j + 1;
                }
                data.push(row);
            }
            i = i + 1;
        }
        let m = Matrix { data };
        proof {
            lemma_view_shape(&m);
            assert(m@ =~~= spec_minor(self@, ri as int, ci as int));
        }
        m
    }

    /// Determinant by cofactor expansion along the first row; `None`
    /// exactly when some step of the expansion leaves machine range.
    #[verifier::loop_isolation(false)]
    fn det(&self) -> (r: Option<i128>)
        requires
            is_mat(self@, self@.len(), self@.len()),
            self@.len() >= 1,
        ensures
            r is Some <==> det_fits(self@),
            r matches Some(d) ==> d as int == spec_det(self@),
        decreases self@.len(),
    {
        proof {
            lemma_view_shape(self);
        }
        let n = self.data.len();
        if n == 1 {
            proof {
                assert(self.data@[0]@.len() == self@[0].len());
            }
            return Some(self.data[0][0]);
        }
        let mut acc: i128 = 0;
        let mut j: usize = 0;
        while j < n
            invariant
                j <= n,
                acc as int == det_prefix(self@, j as int),
                forall|jj: int| 0 <= jj < j ==> det_fits(#[trigger] spec_minor(self@, 0, jj)),
                forall|jj: int|
                    0 <= jj < j ==> in_i128(
                        #[trigger] (self@[0][jj] * spec_det(spec_minor(self@, 0, jj))),
                    ),
                forall|k: int| 0 <= k <= j ==> in_i128(#[trigger] det_prefix(self@, k)),
            decreases n - j,
        {
            let sub = self.minor(0, j);
            let d = match sub.det() {
                Some(d) => d,
                None => {
                    proof {
                        assert(!det_fits(self@)) by {
                            if det_fits(self@) {
                                assert(det_fits(spec_minor(self@, 0, j as int)));
                            }
                        }
                    }
                    return None;
                },
            };
            proof {
                assert(self.data@[0]@.len() == self@[0].len());
            }
            let term = match self.data[0][j].checked_mul(d) {
                Some(t) => t,
                None => {
                    proof {
                        assert(!det_fits(self@)) by {
                            if det_fits(self@) {
                                assert(in_i128(
                                    self@[0][j as int] * spec_det(spec_minor(self@, 0, j as int)),
                                ));
                            }
                        }
                    }
                    return None;
                },
            };
            proof {
                assert(det_prefix(self@, j + 1) == det_prefix(self@, j as int) + alt_sign(j as int)
                    * (self@[0][j as int] * spec_det(spec_minor(self@, 0, j as int))));
            }
            let acc2 = if j % 2 == 0 {
                acc.checked_add(term)
            } else {
                acc.checked_sub(term)
            };
            acc = match acc2 {
                Some(a) => a,
                None => {
                    proof {
                        assert(!in_i128(det_prefix(self@, j + 1)));
                        assert(!det_fits(self@)) by {
                            if det_fits(self@) {
                                assert(in_i128(det_prefix(self@, j + 1)));
                            }
                        }
                    }
                    return None;
                },
            };
            j = j + 1;
        }
        proof {
            assert(det_fits(self@));
            assert(acc as int == spec_det(self@));
        }
        Some(acc)
    }

    /// Adjugate candidate: entry `(i, j)` is the signed determinant of the
    /// `(j, i)` minor. `None` exactly when some signed minor determinant
    /// leaves machine range.
    #[verifier::loop_isolation(false)]
    #[verifier::rlimit(60)]
    fn adjugate(&self) -> (r: Option<Matrix>)
        requires
            is_mat(self@, self@.len(), self@.len()),
            self@.len() >= 1,
        ensures
            r is Some <==> adjugate_fits(self@),
            r matches Some(m) ==> is_mat(m@, self@.len(), self@.len()) && m@ == spec_adjugate(
                self@,
            ),
    {
        let n = self.data.len();
        proof {
            lemma_view_shape(self);
        }
        if n == 1 {
            let mut row: Vec<i128> = Vec::new();
            row.push(1);
            let mut data: Vec<Vec<i128>> = Vec::new();
            data.push(row);
            let m = Matrix { data };
            proof {
                lemma_view_shape(&m);
                assert(is_mat(m@, 1, 1));
                assert(m@ =~~= spec_adjugate(self@));
            }
            return Some(m);
        }
        let mut data: Vec<Vec<i128>> = Vec::new();
        let mut i: usize = 0;
        while i < n
            invariant
                i <= n,
                n >= 2,
                n == self@.len(),
                data@.len() == i,
                forall|a: int| 0 <= a < i ==> (#[trigger] data@[a])@.len() == n,
                forall|a: int, b: int|
                    0 <= a < i && 0 <= b < n ==> #[trigger] data@[a]@[b] as int == (if a % 2 == b
                        % 2 {
                        1int
                    } else {
                        -1int
                    }) * spec_det(spec_minor(self@, b, a)),
                forall|a: int, b: int|
                    0 <= a < i && 0 <= b < n ==> det_fits(#[trigger] spec_minor(self@, b, a)),
            decreases n - i,
        {
            let mut row: Vec<i128> = Vec::new();
            let mut j: usize = 0;
            while j < n
                invariant
                    i < n,
                    n >= 2,
                    n == self@.len(),
                    j <= n,
                    row@.len() == j,
                    forall|b: int|
                        0 <= b < j ==> #[trigger] row@[b] as int == (if i as int % 2 == b % 2 {
                            1int
                        } else {
                            -1int
                        }) * spec_det(spec_minor(self@, b, i as int)),
                    forall|b: int|
                        0 <= b < j ==> det_fits(#[trigger] spec_minor(self@, b, i as int)),
                decreases n - j,
            {
                let sub = self.minor(j, i);
                let d = match sub.det() {
                    Some(d) => d,
                    None => {
                        proof {
                            assert(!adjugate_fits(self@)) by {
                                if adjugate_fits(self@) {
                                    assert(det_fits(spec_minor(self@, j as int, i as int)));
                                }
                            }
                        }
                        return None;
                    },
                };
                let v = if i % 2 == j % 2 {
                    d
                } else {
                    match (0i128).checked_sub(d) {
                        Some(x) => x,
                        None => {
                            proof {
                                assert(!adjugate_fits(self@)) by {
                                    if adjugate_fits(self@) {
                                        assert(in_i128(
                                            (if i as int % 2 == j as int % 2 {
                                                1int
                                            } else {
                                                -1int
                                            }) * spec_det(
                                                spec_minor(self@, j as int, i as int),
                                            ),
                                        ));
                                    }
                                }
                            }
                            return None;
                        },
                    }
                };
                proof {
                    let sd = spec_det(spec_minor(self@, j as int, i as int));
                    assert(sub@ == spec_minor(self@, j as int, i as int));
                    assert(d as int == sd);
                    assert((i % 2 == j % 2) == ((i as int) % 2 == (j as int) % 2));
                    if i % 2 == j % 2 {
                        assert(v as int == 1int * sd);
                    } else {
                        assert(v as int == 0 - d as int);
                        assert(v as int == (-1int) * sd);
                    }
                    assert(v as int == (if i as int % 2 == (j as int) % 2 {
                        1int
                    } else {
                        -1int
                    }) * sd);
                }
                row.push(v);
                j = j + 1;
            }
            data.push(row);
            i = i + 1;
        }
        let m = Matrix { data };
        proof {
            lemma_view_shape(&m);
            assert(m@ =~~= spec_adjugate(self@));
            assert forall|a: int, b: int| 0 <= a < n && 0 <= b < n implies in_i128(
                (if a % 2 == b % 2 {
                    1int
                } else {
                    -1int
                }) * spec_det(spec_minor(self@, b, a)),
            ) by {
                assert(m.data@[a]@[b] as int == (if a % 2 == b % 2 {
                    1int
                } else {
                    -1int
                }) * spec_det(spec_minor(self@, b, a)));
            }
            assert(adjugate_fits(self@));
        }
        Some(m)
    }

    /// Entrywise negation; `None` when an entry cannot be negated in range.
    #[verifier::loop_isolation(false)]
    fn negated(&self) -> (r: Option<Matrix>)
        requires
            is_mat(self@, self@.len(), spec_cols(self@)),
            self@.len() > 0,
            spec_cols(self@) > 0,
        ensures
            r is Some <==> neg_fits(self@),
            r matches Some(m) ==> is_mat(m@, self@.len(), spec_cols(self@)) && m@ == mat_neg(
                self@,
            ),
    {
        proof {
            lemma_view_shape(self);
        }
        let n = self.data.len();
        let c = self.data[0].len();
        let mut data: Vec<Vec<i128>> = Vec::new();
        let mut i: usize = 0;
        while i < n
            invariant
                i <= n,
                data@.len() == i,
                forall|a: int| 0 <= a < i ==> (#[trigger] data@[a])@.len() == c,
                forall|a: int, b: int|
                    0 <= a < i && 0 <= b < c ==> #[trigger] data@[a]@[b] as int == -self@[a][b],
            decreases n - i,
        {
            let mut row: Vec<i128> = Vec::new();
            let mut j: usize = 0;
            while j < c
                invariant
                    i < n,
                    j <= c,
                    row@.len() == j,
                    forall|b: int|
                        0 <= b < j ==> #[trigger] row@[b] as int == -self@[i as int][b],
                decreases c - j,
            {
                proof {
                    assert(self.data@[i as int]@.len() == self@[i as int].len());
                }
                match (0i128).checked_sub(self.data[i][j]) {
                    Some(v) => {
                        row.push(v);
                    },
                    None => {
                        proof {
                            assert(!in_i128(-self@[i as int][j as int]));
                        }
                        return None;
                    },
                }
                j = j + 1;
            }
            data.push(row);
            i = i + 1;
        }
        let m = Matrix { data };
        proof {
            lemma_view_shape(&m);
            assert(m@ =~~= mat_neg(self@));
            assert forall|a: int, b: int|
                0 <= a < self@.len() && 0 <= b < spec_cols(self@) implies in_i128(
                -(self@[a][b]),
            ) by {
                assert(m.data@[a]@[b] as int == -self@[a][b]);
            }
            assert(neg_fits(self@));
        }
        Some(m)
    }

    /// Exact inverse over the integers, validated after the fact: the result
    /// is `Some` only when both products of `self` with the candidate equal
    /// the identity, so the identity postconditions rest on that check
    /// alone. Success is owed exactly when the whole pipeline goes through:
    /// `Some` if and only if the inversion is computable on this machine.
    pub fn try_inverse(&self) -> (r: Option<Matrix>)
        requires
            is_mat(self@, self@.len(), self@.len()),
            self@.len() >= 1,
        ensures
            r matches Some(inv) ==> {
                &&& is_mat(inv@, self@.len(), self@.len())
                &&& mat_mul(self@, inv@) == mat_identity(self@.len())
                &&& mat_mul(inv@, self@) == mat_identity(self@.len())
                &&& inv@ == spec_inverse_candidate(self@)
            },
            r is Some ==> mat_invertible(self@),
            r is Some <==> inverse_computable(self@),
    {
        proof {
            assert(spec_cols(self@) == self@.len());
        }
        let n = self.data.len();
        let d = match self.det() {
            Some(d) => d,
            None => {
                return None;
            },
        };
        let cand = if d == 1 {
            match self.adjugate() {
                Some(a) => a,
                None => {
                    return None;
                },
            }
        } else if d == -1 {
            let a = match self.adjugate() {
                Some(a) => a,
                None => {
                    return None;
                },
            };
            proof {
                crate::matrix::lemma_cols_of(a@, self@.len(), self@.len());
            }
            match a.negated() {
                Some(x) => x,
                None => {
                    proof {
                        assert(!neg_fits(spec_adjugate(self@)));
                    }
                    return None;
                },
            }
        } else {
            return None;
        };
        proof {
            assert(cand@ == spec_inverse_candidate(self@));
            assert(spec_cols(cand@) == self@.len());
        }
        let left = match self.checked_mul(&cand) {
            Some(m) => m,
            None => {
                return None;
            },
        };
        let right = match cand.checked_mul(self) {
            Some(m) => m,
            None => {
                return None;
            },
        };
        let id = Matrix::identity(n);
        if left.mat_eq(&id) && right.mat_eq(&id) {
            proof {
                assert(inverse_computable(self@));
            }
            Some(cand)
        } else {
            None
        }
    }

    /// Exact equality of two matrices, shapes included.
    #[verifier::loop_isolation(false)]
    pub fn mat_eq(&self, other: &Matrix) -> (r: bool)
        ensures
            r <==> self@ == other@,
    {
        if self.data.len() != other.data.len() {
            proof {
                assert(self@.len() != other@.len());
            }
            return false;
        }
        let mut i: usize = 0;
        while i < self.data.len()
            invariant
                i <= self.data.len(),
                self@.len() == other@.len(),
                forall|a: int| 0 <= a < i ==> #[trigger] self@[a] == other@[a],
            decreases self.data.len() - i,
        {
            if self.data[i].len() != other.data[i].len() {
                proof {
                    assert(self@[i as int].len() != other@[i as int].len());
                }
                return false;
            }
            let mut j: usize = 0;
            while j < self.data[i].len()
                invariant
                    i < self.data.len(),
                    self@.len() == other@.len(),
                    j <= self@[i as int].len(),
                    self@[i as int].len() == other@[i as int].len(),
                    forall|b: int| 0 <= b < j ==> #[trigger] self@[i as int][b] == other@[i as int][b],
                decreases self.data[i as int].len() - j,
            {
                if self.data[i][j] != other.data[i][j] {
                    proof {
                        assert(self@[i as int][j as int] != other@[i as int][j as int]);
                    }
                    return false;
                }
                j = j + 1;
            }
            proof {
                assert(self@[i as int] =~= other@[i as int]);
            }
            i = i + 1;
        }
        proof {
            assert(self@ =~~= other@);
        }
        true
    }
}

} // verus!
