use odcore::matrix::Matrix;

fn mat(rows: Vec<Vec<i128>>) -> Matrix {
    Matrix::from_rows(rows).expect("rectangular, non-empty")
}

#[test]
fn product_of_two_by_two() {
    let a = mat(vec![vec![1, 2], vec![3, 4]]);
    let b = mat(vec![vec![5, 6], vec![7, 8]]);
    let c = a.checked_mul(&b).expect("fits");
    assert_eq!(c.get(0, 0), 19);
    assert_eq!(c.get(0, 1), 22);
    assert_eq!(c.get(1, 0), 43);
    assert_eq!(c.get(1, 1), 50);
}

#[test]
fn sum_and_difference() {
    let a = mat(vec![vec![1, -2], vec![3, 4]]);
    let b = mat(vec![vec![10, 20], vec![30, 40]]);
    let s = a.checked_add(&b).expect("fits");
    let d = b.checked_sub(&a).expect("fits");
    assert_eq!(s.get(0, 0), 11);
    assert_eq!(s.get(0, 1), 18);
    assert_eq!(d.get(1, 0), 27);
    assert_eq!(d.get(1, 1), 36);
}

#[test]
fn transpose_swaps_entries() {
    let a = mat(vec![vec![1, 2, 3], vec![4, 5, 6]]);
    let t = a.transpose();
    assert_eq!(t.nrows(), 3);
    assert_eq!(t.ncols(), 2);
    assert_eq!(t.get(0, 1), 4);
    assert_eq!(t.get(2, 0), 3);
}

#[test]
fn identity_and_zeros() {
    let id = Matrix::identity(3);
    assert_eq!(id.get(0, 0), 1);
    assert_eq!(id.get(0, 1), 0);
    assert_eq!(id.get(2, 2), 1);
    let z = Matrix::zeros(2, 4);
    assert_eq!(z.nrows(), 2);
    assert_eq!(z.ncols(), 4);
    assert_eq!(z.get(1, 3), 0);
}

#[test]
fn inverse_of_unimodular_matrix() {
    let a = mat(vec![vec![1, 1], vec![0, 1]]);
    let inv = a.try_inverse().expect("determinant is one");
    assert_eq!(inv.get(0, 0), 1);
    assert_eq!(inv.get(0, 1), -1);
    assert_eq!(inv.get(1, 0), 0);
    assert_eq!(inv.get(1, 1), 1);
    let prod = a.checked_mul(&inv).expect("fits");
    assert!(prod.mat_eq(&Matrix::identity(2)));
}

#[test]
fn inverse_of_singular_matrix_is_refused() {
    let a = mat(vec![vec![1, 2], vec![2, 4]]);
    assert!(a.try_inverse().is_none());
    let zero = Matrix::zeros(2, 2);
    assert!(zero.try_inverse().is_none());
}

#[test]
fn inverse_outside_the_integers_is_refused() {
    // Invertible over the rationals, but the determinant is not a unit of
    // the integers, so no exact integer inverse exists.
    let a = mat(vec![vec![2, 0], vec![0, 2]]);
    assert!(a.try_inverse().is_none());
}

#[test]
fn product_overflow_is_reported() {
    let a = mat(vec![vec![i128::MAX]]);
    let b = mat(vec![vec![2]]);
    assert!(a.checked_mul(&b).is_none());
    let c = mat(vec![vec![i128::MAX]]);
    assert!(a.checked_add(&c).is_none());
}

#[test]
fn ragged_or_empty_rows_are_refused() {
    assert!(Matrix::from_rows(vec![]).is_none());
    assert!(Matrix::from_rows(vec![vec![]]).is_none());
    assert!(Matrix::from_rows(vec![vec![1, 2], vec![3]]).is_none());
}

#[test]
fn equality_is_exact() {
    let a = mat(vec![vec![1, 2], vec![3, 4]]);
    let b = mat(vec![vec![1, 2], vec![3, 4]]);
    let c = mat(vec![vec![1, 2], vec![3, 5]]);
    assert!(a.mat_eq(&b));
    assert!(!a.mat_eq(&c));
    assert!(!a.mat_eq(&Matrix::identity(2)));
}
