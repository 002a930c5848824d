use conic_model::matrix::SparseBlockMatrix;
use conic_model::scalar::Scalar;

fn s(x: f64) -> Scalar {
    Scalar::from_bits(x.to_bits())
}

fn row(values: &[f64]) -> Vec<Scalar> {
    values.iter().map(|x| s(*x)).collect()
}

fn values(m: &SparseBlockMatrix) -> Vec<f64> {
    m.nzval.iter().map(|v| f64::from_bits(v.to_bits())).collect()
}

fn dense(m: &SparseBlockMatrix) -> Vec<Vec<f64>> {
    let mut out = vec![vec![0.0; m.columns]; m.rows];
    for j in 0..m.columns {
        for k in m.colptr[j]..m.colptr[j + 1] {
            out[m.rowval[k]][j] = f64::from_bits(m.nzval[k].to_bits());
        }
    }
    out
}

fn same(a: &SparseBlockMatrix, b: &SparseBlockMatrix) -> bool {
    a.rows == b.rows
        && a.columns == b.columns
        && a.colptr == b.colptr
        && a.rowval == b.rowval
        && a.nzval == b.nzval
}

#[test]
fn scalar_neg_flips_the_sign() {
    assert_eq!(f64::from_bits(s(1.5).neg().to_bits()), -1.5);
    assert_eq!(f64::from_bits(s(-2.0).neg().to_bits()), 2.0);
    assert_eq!(s(0.0).neg().to_bits(), (-0.0f64).to_bits());
    assert_eq!(s(3.25).neg().neg(), s(3.25));
}

#[test]
fn scalar_zero_of_either_sign_is_zero() {
    assert!(s(0.0).is_zero());
    assert!(s(-0.0).is_zero());
    assert!(!s(1.0e-300).is_zero());
    assert!(!s(f64::NAN).is_zero());
    assert_eq!(Scalar::zero().to_bits(), 0);
    assert_eq!(Scalar::from_bits(7).to_bits(), 7);
}

#[test]
fn zeros_stores_nothing() {
    let m = SparseBlockMatrix::zeros(3, 2);
    assert_eq!(m.rows, 3);
    assert_eq!(m.columns, 2);
    assert_eq!(m.colptr, vec![0, 0, 0]);
    assert!(m.rowval.is_empty());
    assert!(m.nzval.is_empty());
}

#[test]
fn zeros_of_empty_shape() {
    let m = SparseBlockMatrix::zeros(0, 0);
    assert_eq!(m.rows, 0);
    assert_eq!(m.columns, 0);
    assert_eq!(m.colptr, vec![0]);
}

#[test]
fn from_row_leaves_zeros_out() {
    let m = SparseBlockMatrix::from_row(&row(&[1.0, 0.0, -2.5, -0.0]));
    assert_eq!(m.rows, 1);
    assert_eq!(m.columns, 4);
    assert_eq!(m.colptr, vec![0, 1, 1, 2, 2]);
    assert_eq!(m.rowval, vec![0, 0]);
    assert_eq!(values(&m), vec![1.0, -2.5]);
}

#[test]
fn from_row_of_nothing() {
    let m = SparseBlockMatrix::from_row(&row(&[]));
    assert_eq!(m.rows, 1);
    assert_eq!(m.columns, 0);
    assert_eq!(m.colptr, vec![0]);
}

#[test]
fn horizontal_concat_places_right_after_left() {
    let left = SparseBlockMatrix::from_row(&row(&[1.0, 0.0]));
    let right = SparseBlockMatrix::from_row(&row(&[0.0, 2.0, 3.0]));
    let m = SparseBlockMatrix::horizontal_concat(&left, &right);
    assert_eq!(m.rows, 1);
    assert_eq!(m.columns, 5);
    assert_eq!(m.colptr, vec![0, 1, 1, 1, 2, 3]);
    assert_eq!(m.rowval, vec![0, 0, 0]);
    assert_eq!(values(&m), vec![1.0, 2.0, 3.0]);
    assert_eq!(dense(&m), vec![vec![1.0, 0.0, 0.0, 2.0, 3.0]]);
}

#[test]
fn vertical_concat_moves_bottom_rows_down() {
    let top = SparseBlockMatrix::from_row(&row(&[1.0, 0.0, 4.0]));
    let bottom = SparseBlockMatrix::from_row(&row(&[2.0, 3.0, 0.0]));
    let m = SparseBlockMatrix::vertical_concat(&top, &bottom);
    assert_eq!(m.rows, 2);
    assert_eq!(m.columns, 3);
    assert_eq!(m.colptr, vec![0, 2, 3, 4]);
    assert_eq!(m.rowval, vec![0, 1, 1, 0]);
    assert_eq!(values(&m), vec![1.0, 2.0, 3.0, 4.0]);
    let third = SparseBlockMatrix::from_row(&row(&[0.0, 5.0, 6.0]));
    let m3 = SparseBlockMatrix::vertical_concat(&m, &third);
    assert_eq!(
        dense(&m3),
        vec![vec![1.0, 0.0, 4.0], vec![2.0, 3.0, 0.0], vec![0.0, 5.0, 6.0]]
    );
    assert_eq!(m3.rowval, vec![0, 1, 1, 2, 0, 2]);
}

#[test]
fn negate_keeps_the_pattern() {
    let top = SparseBlockMatrix::from_row(&row(&[1.0, 0.0, -4.0]));
    let bottom = SparseBlockMatrix::from_row(&row(&[0.0, 3.0, 2.0]));
    let m = SparseBlockMatrix::vertical_concat(&top, &bottom);
    let n = m.negate();
    assert_eq!(n.rows, m.rows);
    assert_eq!(n.columns, m.columns);
    assert_eq!(n.colptr, m.colptr);
    assert_eq!(n.rowval, m.rowval);
    assert_eq!(values(&n), vec![-1.0, -3.0, 4.0, -2.0]);
    assert!(same(&n.negate(), &m));
}

#[test]
fn negate_of_zeros_is_zeros() {
    let z = SparseBlockMatrix::zeros(2, 3);
    assert!(same(&z.negate(), &z));
}

#[test]
fn empty_block_on_the_left_is_identity() {
    let top = SparseBlockMatrix::from_row(&row(&[1.0, 0.0, -4.0]));
    let bottom = SparseBlockMatrix::from_row(&row(&[0.0, 3.0, 2.0]));
    let m = SparseBlockMatrix::vertical_concat(&top, &bottom);
    let z = SparseBlockMatrix::zeros(2, 0);
    assert!(same(&SparseBlockMatrix::horizontal_concat(&z, &m), &m));
    assert!(same(&SparseBlockMatrix::horizontal_concat(&m, &z), &m));
}

#[test]
fn empty_block_on_top_is_identity() {
    let top = SparseBlockMatrix::from_row(&row(&[1.0, 0.0, -4.0]));
    let bottom = SparseBlockMatrix::from_row(&row(&[0.0, 3.0, 2.0]));
    let m = SparseBlockMatrix::vertical_concat(&top, &bottom);
    let z = SparseBlockMatrix::zeros(0, 3);
    assert!(same(&SparseBlockMatrix::vertical_concat(&z, &m), &m));
    assert!(same(&SparseBlockMatrix::vertical_concat(&m, &z), &m));
}

#[test]
fn duplicate_copies_every_array() {
    let top = SparseBlockMatrix::from_row(&row(&[1.0, 0.0, -4.0]));
    let bottom = SparseBlockMatrix::from_row(&row(&[0.0, 3.0, 2.0]));
    let m = SparseBlockMatrix::vertical_concat(&top, &bottom);
    assert!(same(&m.duplicate(), &m));
}

#[test]
fn concat_of_zero_blocks_adds_shapes() {
    let a = SparseBlockMatrix::zeros(2, 3);
    let b = SparseBlockMatrix::zeros(2, 4);
    let h = SparseBlockMatrix::horizontal_concat(&a, &b);
    assert_eq!((h.rows, h.columns), (2, 7));
    assert_eq!(h.colptr, vec![0; 8]);
    let c = SparseBlockMatrix::zeros(5, 3);
    let v = SparseBlockMatrix::vertical_concat(&a, &c);
    assert_eq!((v.rows, v.columns), (7, 3));
    assert_eq!(v.colptr, vec![0; 4]);
}

#[test]
fn grouping_of_three_blocks_does_not_matter() {
    let a = SparseBlockMatrix::from_row(&row(&[1.0, 0.0]));
    let b = SparseBlockMatrix::from_row(&row(&[0.0, 2.0]));
    let c = SparseBlockMatrix::from_row(&row(&[3.0, 4.0]));
    let left = SparseBlockMatrix::vertical_concat(&SparseBlockMatrix::vertical_concat(&a, &b), &c);
    let right = SparseBlockMatrix::vertical_concat(&a, &SparseBlockMatrix::vertical_concat(&b, &c));
    assert!(same(&left, &right));
    assert_eq!(dense(&left), vec![vec![1.0, 0.0], vec![0.0, 2.0], vec![3.0, 4.0]]);
    let left = SparseBlockMatrix::horizontal_concat(&SparseBlockMatrix::horizontal_concat(&a, &b), &c);
    let right = SparseBlockMatrix::horizontal_concat(&a, &SparseBlockMatrix::horizontal_concat(&b, &c));
    assert!(same(&left, &right));
    assert_eq!(dense(&left), vec![vec![1.0, 0.0, 0.0, 2.0, 3.0, 4.0]]);
}
