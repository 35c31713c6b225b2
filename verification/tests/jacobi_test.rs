use rs_math::jacobi::EigenState;
use rs_math::jacobi::eigen_progress;
use rs_math::jacobi::rotation_matrix;
use rs_math::jacobi::sweep_pairs;
use rs_math::matrix_2d::Matrix2D;

#[test]
fn test_eigen_progress_converges_on_zero_sum() {
    assert_eq!(eigen_progress(true, 0, 100), EigenState::Converged);
    assert_eq!(eigen_progress(true, 100, 100), EigenState::Converged);
}

#[test]
fn test_eigen_progress_stops_on_budget() {
    assert_eq!(eigen_progress(false, 100, 100), EigenState::MaxIterationsReached);
    assert_eq!(eigen_progress(false, 150, 100), EigenState::MaxIterationsReached);
}

#[test]
fn test_eigen_progress_keeps_iterating() {
    assert_eq!(eigen_progress(false, 0, 100), EigenState::Iterating);
    assert_eq!(eigen_progress(false, 99, 100), EigenState::Iterating);
}

#[test]
fn test_sweep_pairs_row_major() {
    assert_eq!(sweep_pairs(1), Vec::<(usize, usize)>::new());
    assert_eq!(sweep_pairs(2), vec![(0, 1)]);
    assert_eq!(sweep_pairs(3), vec![(0, 1), (0, 2), (1, 2)]);
    assert_eq!(
        sweep_pairs(4),
        vec![(0, 1), (0, 2), (0, 3), (1, 2), (1, 3), (2, 3)]
    );
}

#[test]
fn test_rotation_matrix_layout() {
    let c = 0.8f64.to_bits();
    let s = 0.6f64.to_bits();
    let ns = (-0.6f64).to_bits();
    let b = rotation_matrix(4, 1, 3, c, s, ns);
    assert_eq!(b.rows, 4);
    assert_eq!(b.cols, 4);
    for i in 0..4 {
        for j in 0..4 {
            let got = f64::from_bits(b.get(i, j));
            let expected = if (i, j) == (1, 1) || (i, j) == (3, 3) {
                0.8
            } else if (i, j) == (1, 3) {
                0.6
            } else if (i, j) == (3, 1) {
                -0.6
            } else if i == j {
                1.0
            } else {
                0.0
            };
            assert_eq!(got, expected);
        }
    }
}

// A symmetric matrix that is already diagonal has zero off-diagonal
// mass: the very first convergence check converges, the eigenvalues
// are the diagonal in diagonal order, and the accumulated eigenvector
// matrix is still the identity.
#[test]
fn test_diagonal_matrix_converges_first_sweep() {
    let data: Vec<Vec<u64>> = vec![
        vec![2.0f64.to_bits(), 0.0f64.to_bits()],
        vec![0.0f64.to_bits(), 3.0f64.to_bits()],
    ];
    let a = Matrix2D::new(data).unwrap();
    let v = Matrix2D::eye(2);

    let mut sm = 0.0f64;
    for (p, q) in sweep_pairs(2) {
        sm += f64::from_bits(a.get(p, q)).abs();
    }
    let state = eigen_progress(sm == 0.0, 0, 100);
    assert_eq!(state, EigenState::Converged);

    let eigenvalues: Vec<f64> = a.diagonal().iter().map(|w| f64::from_bits(*w)).collect();
    assert_eq!(eigenvalues, vec![2.0, 3.0]);
    assert_eq!(v.data, Matrix2D::eye(2).data);
}
