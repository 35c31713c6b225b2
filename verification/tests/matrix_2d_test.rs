use rs_math::matrix_2d::Matrix2D;
use rs_math::matrix_2d::WORD_ONE;
use rs_math::matrix_2d::WORD_ZERO;

fn words(rows: &[&[f64]]) -> Vec<Vec<u64>> {
    rows.iter().map(|r| r.iter().map(|x| x.to_bits()).collect()).collect()
}

fn floats(m: &Matrix2D) -> Vec<Vec<f64>> {
    m.data.iter().map(|r| r.iter().map(|w| f64::from_bits(*w)).collect()).collect()
}

fn float_add() -> impl Fn(u64, u64) -> u64 {
    |a: u64, b: u64| (f64::from_bits(a) + f64::from_bits(b)).to_bits()
}

fn float_sub() -> impl Fn(u64, u64) -> u64 {
    |a: u64, b: u64| (f64::from_bits(a) - f64::from_bits(b)).to_bits()
}

fn float_dot() -> impl Fn(Vec<u64>, Vec<u64>) -> u64 {
    |x: Vec<u64>, y: Vec<u64>| {
        let mut sum = 0.0;
        for k in 0..x.len() {
            sum += f64::from_bits(x[k]) * f64::from_bits(y[k]);
        }
        sum.to_bits()
    }
}

#[test]
fn test_create_matrix() {
    let matrix_data = words(&[&[1.0, 2.0, 3.0], &[4.0, 5.0, 6.0]]);

    let matrix = Matrix2D::new(matrix_data.clone()).unwrap();

    assert_eq!(matrix.rows, 2);
    assert_eq!(matrix.cols, 3);

    assert_eq!(matrix.data, matrix_data);
}

#[test]
fn test_new_rejects_empty() {
    assert!(Matrix2D::new(Vec::new()).is_none());
}

#[test]
fn test_new_rejects_empty_row() {
    let data: Vec<Vec<u64>> = vec![Vec::new()];
    assert!(Matrix2D::new(data).is_none());
}

#[test]
fn test_new_rejects_ragged_rows() {
    let data = words(&[&[1.0, 2.0], &[3.0]]);
    assert!(Matrix2D::new(data).is_none());
    let data = words(&[&[1.0], &[2.0, 3.0], &[4.0]]);
    assert!(Matrix2D::new(data).is_none());
}

#[test]
fn test_new_accepts_any_rectangle() {
    for rows in 1..4usize {
        for cols in 1..4usize {
            let data = vec![vec![2.5f64.to_bits(); cols]; rows];
            let m = Matrix2D::new(data).unwrap();
            assert_eq!(m.rows, rows);
            assert_eq!(m.cols, cols);
        }
    }
}

#[test]
fn test_transpose_shape() {
    let m = Matrix2D::new(words(&[&[1.0, 2.0, 3.0], &[4.0, 5.0, 6.0]])).unwrap();
    let t = m.transpose();
    assert_eq!(t.rows, 3);
    assert_eq!(t.cols, 2);
    assert_eq!(floats(&t), vec![vec![1.0, 4.0], vec![2.0, 5.0], vec![3.0, 6.0]]);
}

#[test]
fn test_transpose_twice_is_identity() {
    let m = Matrix2D::new(words(&[&[1.5, -2.0, 3.25], &[0.0, 5.5, -6.75]])).unwrap();
    let back = m.transpose().transpose();
    assert_eq!(back.rows, m.rows);
    assert_eq!(back.cols, m.cols);
    assert_eq!(back.data, m.data);
}

#[test]
fn test_eye_and_zeros_words() {
    assert_eq!(f64::from_bits(WORD_ONE), 1.0);
    assert_eq!(f64::from_bits(WORD_ZERO), 0.0);
    let e = Matrix2D::eye(3);
    assert_eq!(
        floats(&e),
        vec![vec![1.0, 0.0, 0.0], vec![0.0, 1.0, 0.0], vec![0.0, 0.0, 1.0]]
    );
    let z = Matrix2D::zeros(2, 3);
    assert_eq!(floats(&z), vec![vec![0.0, 0.0, 0.0], vec![0.0, 0.0, 0.0]]);
}

#[test]
fn test_add_exact_values() {
    let a = Matrix2D::new(words(&[&[1.0, 2.0], &[3.0, 4.0]])).unwrap();
    let b = Matrix2D::new(words(&[&[5.0, 6.0], &[7.0, 8.0]])).unwrap();
    let sum = a.combine(&b, float_add()).unwrap();
    assert_eq!(floats(&sum), vec![vec![6.0, 8.0], vec![10.0, 12.0]]);
}

#[test]
fn test_subtract_exact_values() {
    let a = Matrix2D::new(words(&[&[5.0, 6.0], &[7.0, 8.0]])).unwrap();
    let b = Matrix2D::new(words(&[&[1.0, 2.0], &[3.0, 4.0]])).unwrap();
    let diff = a.combine(&b, float_sub()).unwrap();
    assert_eq!(floats(&diff), vec![vec![4.0, 4.0], vec![4.0, 4.0]]);
}

#[test]
fn test_add_mismatched_shapes_is_absent() {
    let a = Matrix2D::new(words(&[&[1.0, 2.0], &[3.0, 4.0]])).unwrap();
    let b = Matrix2D::new(words(&[&[1.0, 2.0, 3.0]])).unwrap();
    assert!(a.combine(&b, float_add()).is_none());
    assert!(a.combine(&b, float_sub()).is_none());
}

#[test]
fn test_multiply_exact_values() {
    let a = Matrix2D::new(words(&[&[1.0, 2.0], &[3.0, 4.0]])).unwrap();
    let b = Matrix2D::new(words(&[&[5.0, 6.0], &[7.0, 8.0]])).unwrap();
    let prod = a.multiply_with(&b, float_dot()).unwrap();
    assert_eq!(floats(&prod), vec![vec![19.0, 22.0], vec![43.0, 50.0]]);
}

#[test]
fn test_multiply_identity_keeps_matrix() {
    let a = Matrix2D::new(words(&[&[1.0, 2.0, 3.0], &[4.0, 5.0, 6.0]])).unwrap();
    let e = Matrix2D::eye(3);
    let prod = a.multiply_with(&e, float_dot()).unwrap();
    assert_eq!(floats(&prod), floats(&a));
}

#[test]
fn test_multiply_eye_by_eye_is_eye() {
    let e = Matrix2D::eye(3);
    let prod = e.multiply_with(&Matrix2D::eye(3), float_dot()).unwrap();
    assert_eq!(prod.data, Matrix2D::eye(3).data);
}

#[test]
fn test_multiply_inner_mismatch_is_absent() {
    let a = Matrix2D::new(words(&[&[1.0, 2.0], &[3.0, 4.0]])).unwrap();
    let b = Matrix2D::new(words(&[&[1.0, 2.0], &[3.0, 4.0], &[5.0, 6.0]])).unwrap();
    assert!(a.multiply_with(&b, float_dot()).is_none());
}

#[test]
fn test_map_entries_scales() {
    let a = Matrix2D::new(words(&[&[1.0, -2.0], &[3.5, 0.0]])).unwrap();
    let doubled = a.map_entries(|w: u64| (2.0 * f64::from_bits(w)).to_bits());
    assert_eq!(floats(&doubled), vec![vec![2.0, -4.0], vec![7.0, 0.0]]);
}

#[test]
fn test_minor_deletes_row_and_column() {
    let m = Matrix2D::new(words(&[
        &[1.0, 2.0, 3.0],
        &[4.0, 5.0, 6.0],
        &[7.0, 8.0, 9.0],
    ]))
    .unwrap();
    let sub = m.minor(0, 1);
    assert_eq!(sub.rows, 2);
    assert_eq!(sub.cols, 2);
    assert_eq!(floats(&sub), vec![vec![4.0, 6.0], vec![7.0, 9.0]]);
    let sub2 = m.minor(1, 2);
    assert_eq!(floats(&sub2), vec![vec![1.0, 2.0], vec![7.0, 8.0]]);
}

#[test]
fn test_swap_rows_in_place() {
    let mut m = Matrix2D::new(words(&[&[1.0, 2.0], &[3.0, 4.0], &[5.0, 6.0]])).unwrap();
    m.swap_rows(0, 2);
    assert_eq!(floats(&m), vec![vec![5.0, 6.0], vec![3.0, 4.0], vec![1.0, 2.0]]);
}

#[test]
fn test_row_column_diagonal_get_set() {
    let mut m = Matrix2D::new(words(&[&[1.0, 2.0, 3.0], &[4.0, 5.0, 6.0], &[7.0, 8.0, 9.0]]))
        .unwrap();
    let col: Vec<f64> = m.column(1).iter().map(|w| f64::from_bits(*w)).collect();
    assert_eq!(col, vec![2.0, 5.0, 8.0]);
    let row: Vec<f64> = m.row(2).iter().map(|w| f64::from_bits(*w)).collect();
    assert_eq!(row, vec![7.0, 8.0, 9.0]);
    let diag: Vec<f64> = m.diagonal().iter().map(|w| f64::from_bits(*w)).collect();
    assert_eq!(diag, vec![1.0, 5.0, 9.0]);
    assert_eq!(f64::from_bits(m.get(1, 2)), 6.0);
    m.set(1, 2, 42.0f64.to_bits());
    assert_eq!(f64::from_bits(m.get(1, 2)), 42.0);
}

#[test]
fn test_multiply_by_vector() {
    let a = Matrix2D::new(words(&[&[1.0, 2.0], &[3.0, 4.0]])).unwrap();
    let v: Vec<u64> = vec![5.0f64.to_bits(), 6.0f64.to_bits()];
    let prod = a.multiply_by_vector_with(&v, float_dot()).unwrap();
    assert_eq!(prod.rows, 2);
    assert_eq!(prod.cols, 1);
    assert_eq!(floats(&prod), vec![vec![17.0], vec![39.0]]);
}

#[test]
fn test_multiply_by_vector_length_mismatch_is_absent() {
    let a = Matrix2D::new(words(&[&[1.0, 2.0], &[3.0, 4.0]])).unwrap();
    let v: Vec<u64> = vec![5.0f64.to_bits()];
    assert!(a.multiply_by_vector_with(&v, float_dot()).is_none());
}

#[test]
fn test_pivot_index_picks_first_maximum() {
    let keys: Vec<u64> = vec![3, 9, 2, 9];
    assert_eq!(Matrix2D::pivot_index(&keys, 0), 1);
    assert_eq!(Matrix2D::pivot_index(&keys, 2), 3);
    assert_eq!(Matrix2D::pivot_index(&keys, 3), 3);
}

#[test]
fn test_argsort_orders_keys() {
    // Bit patterns of non-negative doubles order like the doubles.
    let v: Vec<u64> = vec![3.0f64.to_bits(), 1.0f64.to_bits(), 2.0f64.to_bits()];
    let idx = Matrix2D::argsort(&v);
    assert_eq!(idx, vec![1, 2, 0]);
}

#[test]
fn test_argsort_is_sorted_permutation() {
    let v: Vec<u64> = vec![9, 4, 7, 4, 1, 7];
    let idx = Matrix2D::argsort(&v);
    assert_eq!(idx.len(), v.len());
    let mut seen = vec![false; v.len()];
    for &k in &idx {
        assert!(k < v.len());
        assert!(!seen[k]);
        seen[k] = true;
    }
    for w in idx.windows(2) {
        assert!(v[w[0]] <= v[w[1]]);
    }
}

#[test]
fn test_argsort_equal_keys_keep_order() {
    let v: Vec<u64> = vec![2, 1, 2];
    let idx = Matrix2D::argsort(&v);
    assert_eq!(idx, vec![1, 0, 2]);
}

#[test]
fn test_argsort_empty() {
    let v: Vec<u64> = Vec::new();
    let idx = Matrix2D::argsort(&v);
    assert!(idx.is_empty());
}

#[test]
fn test_order_key_matches_double_order() {
    let values: Vec<f64> = vec![-3.5, -0.0, 0.0, 1.0e-300, 2.5, 1.0e300];
    for a in &values {
        for b in &values {
            let ka = Matrix2D::order_key(a.to_bits());
            let kb = Matrix2D::order_key(b.to_bits());
            if a < b {
                assert!(ka < kb, "{a} < {b} but keys disagree");
            }
            if a == b && a.to_bits() == b.to_bits() {
                assert_eq!(ka, kb);
            }
        }
    }
}

#[test]
fn test_argsort_on_signed_doubles() {
    let v: Vec<u64> = vec![2.5f64, -3.5, 0.0, -0.5]
        .into_iter()
        .map(|x| Matrix2D::order_key(x.to_bits()))
        .collect();
    let idx = Matrix2D::argsort(&v);
    assert_eq!(idx, vec![1, 3, 2, 0]);
}

#[test]
fn test_extremal_index_picks_first_minimum() {
    let keys: Vec<u64> = vec![5, 2, 8, 2];
    assert_eq!(Matrix2D::extremal_index(&keys), 1);
    let keys: Vec<u64> = vec![7];
    assert_eq!(Matrix2D::extremal_index(&keys), 0);
}

#[test]
fn test_word_is_zero_matches_both_zero_encodings() {
    assert!(Matrix2D::word_is_zero(0.0f64.to_bits()));
    assert!(Matrix2D::word_is_zero((-0.0f64).to_bits()));
    assert!(!Matrix2D::word_is_zero(1.0f64.to_bits()));
    assert!(!Matrix2D::word_is_zero(f64::MIN_POSITIVE.to_bits()));
    assert!(!Matrix2D::word_is_zero(f64::NAN.to_bits()));
}
