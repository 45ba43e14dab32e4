use neural::matrix::{Matrix, ShapeMismatch};

fn grid(rows: &[&[i64]]) -> Matrix<i64> {
    Matrix::from(rows.iter().map(|r| r.to_vec()).collect())
}

fn entries<T: Copy>(m: &Matrix<T>) -> Vec<Vec<T>> {
    (0..m.rows).map(|i| (0..m.cols).map(|j| m.get(i, j)).collect()).collect()
}

#[test]
fn zeros_fills_every_entry() {
    let m = Matrix::zeros(2, 3, 0.0f64);
    assert_eq!((m.rows, m.cols), (2, 3));
    assert_eq!(entries(&m), vec![vec![0.0; 3]; 2]);
}

#[test]
fn zeros_with_no_rows() {
    let m = Matrix::zeros(0, 4, 0i64);
    assert_eq!((m.rows, m.cols), (0, 4));
    assert!(m.data.is_empty());
}

#[test]
fn from_takes_shape_of_grid() {
    let m = grid(&[&[1, 2, 3], &[4, 5, 6]]);
    assert_eq!((m.rows, m.cols), (2, 3));
    assert_eq!(m.get(1, 2), 6);
}

#[test]
fn transpose_swaps_shape_and_entries() {
    let m = grid(&[&[1, 2, 3], &[4, 5, 6]]);
    let t = m.transpose();
    assert_eq!((t.rows, t.cols), (3, 2));
    assert_eq!(entries(&t), vec![vec![1, 4], vec![2, 5], vec![3, 6]]);
}

#[test]
fn transpose_twice_is_identity() {
    let m = grid(&[&[1, 2, 3], &[4, 5, 6]]);
    let u = m.transpose().transpose();
    assert_eq!((u.rows, u.cols), (2, 3));
    assert_eq!(entries(&u), entries(&m));
}

#[test]
fn map_identity_keeps_matrix() {
    let m = Matrix::from(vec![vec![1.5, -2.0], vec![0.25, 3.0]]);
    let r = m.map(|x| x);
    assert_eq!(entries(&r), entries(&m));
}

#[test]
fn map_applies_function() {
    let m = grid(&[&[1, 2], &[3, 4]]);
    let r = m.map(|x| x * 10 + 1);
    assert_eq!(entries(&r), vec![vec![11, 21], vec![31, 41]]);
}

#[test]
fn zip_with_sums_entries() {
    let a = Matrix::from(vec![vec![1.0, 2.0], vec![3.0, 4.0]]);
    let b = Matrix::from(vec![vec![0.5, -1.0], vec![10.0, 0.0]]);
    let r = a.zip_with(&b, |x, y| x + y).unwrap();
    assert_eq!((r.rows, r.cols), (2, 2));
    assert_eq!(entries(&r), vec![vec![1.5, 1.0], vec![13.0, 4.0]]);
}

#[test]
fn zip_with_subtracts_entries() {
    let a = grid(&[&[5, 7, 9]]);
    let b = grid(&[&[1, 2, 3]]);
    let r = a.zip_with(&b, |x, y| x - y).unwrap();
    assert_eq!(entries(&r), vec![vec![4, 5, 6]]);
}

#[test]
fn zip_with_multiplies_entries() {
    let a = grid(&[&[2], &[3]]);
    let b = grid(&[&[4], &[-5]]);
    let r = a.zip_with(&b, |x, y| x * y).unwrap();
    assert_eq!(entries(&r), vec![vec![8], vec![-15]]);
}

#[test]
fn zip_with_differing_shapes_fails() {
    let a = grid(&[&[1, 2], &[3, 4]]);
    let b = grid(&[&[1, 2, 3], &[4, 5, 6]]);
    let r = a.zip_with(&b, |x, y| x + y);
    assert_eq!(
        r.err(),
        Some(ShapeMismatch { left_rows: 2, left_cols: 2, right_rows: 2, right_cols: 3 })
    );
}

#[test]
fn multiply_sums_products() {
    let a = grid(&[&[1, 2, 3], &[4, 5, 6]]);
    let b = grid(&[&[7, 8], &[9, 10], &[11, 12]]);
    let r = a.multiply(&b, 0, |s, x, y| s + x * y).unwrap();
    assert_eq!((r.rows, r.cols), (2, 2));
    assert_eq!(entries(&r), vec![vec![58, 64], vec![139, 154]]);
}

#[test]
fn multiply_float_column() {
    let a = Matrix::from(vec![vec![0.5, -0.25]]);
    let b = Matrix::column(vec![2.0, 4.0]);
    let r = a.multiply(&b, 0.0, |s, x, y| s + x * y).unwrap();
    assert_eq!((r.rows, r.cols), (1, 1));
    assert_eq!(r.get(0, 0), 0.0);
}

#[test]
fn multiply_with_mismatched_inner_size_fails() {
    let a = grid(&[&[1, 2, 3]]);
    let b = grid(&[&[1, 2], &[3, 4]]);
    let r = a.multiply(&b, 0, |s, x, y| s + x * y);
    assert_eq!(
        r.err(),
        Some(ShapeMismatch { left_rows: 1, left_cols: 3, right_rows: 2, right_cols: 2 })
    );
}

#[test]
fn column_round_trip() {
    let c = Matrix::column(vec![3, 1, 4]);
    assert_eq!((c.rows, c.cols), (3, 1));
    assert_eq!(c.column_values(), vec![3, 1, 4]);
}
