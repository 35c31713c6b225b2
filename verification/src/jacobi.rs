//! Control skeleton of the Jacobi rotation eigen solver.
//!
//! The solver sweeps the strictly-upper off-diagonal entries of a
//! symmetric matrix, annihilating one entry per plane rotation, until
//! the off-diagonal mass is exactly zero or a fixed sweep budget is
//! exhausted.  The numeric work is the caller's; this module pins down
//! the decisions: which state the iteration is in, which pairs a sweep
//! visits and in which order, and the exact layout of a plane-rotation
//! matrix.

use crate::matrix_2d::Matrix2D;
use crate::matrix_2d::WORD_ONE;
use crate::matrix_2d::WORD_ZERO;
use vstd::prelude::*;

verus! {

/// Where the iteration stands after a convergence check.
#[derive(PartialEq, Eq, Structural, Clone, Copy, Debug)]
pub enum EigenState {
    /// Off-diagonal mass remains and the sweep budget is not spent.
    Iterating,
    /// The strictly-upper off-diagonal entries sum to exactly zero.
    Converged,
    /// The sweep budget is spent without the sum reaching zero.
    MaxIterationsReached,
}

/// The convergence decision taken at the top of every sweep: a zero
/// off-diagonal sum converges, an exhausted budget stops, anything
/// else keeps iterating.
pub fn eigen_progress(off_diagonal_zero: bool, sweeps_done: usize, max_sweeps: usize) -> (s:
    EigenState)
    ensures
        off_diagonal_zero ==> s == EigenState::Converged,
        !off_diagonal_zero && sweeps_done >= max_sweeps ==> s == EigenState::MaxIterationsReached,
        !off_diagonal_zero && sweeps_done < max_sweeps ==> s == EigenState::Iterating,
{
    if off_diagonal_zero {
        EigenState::Converged
    } else if sweeps_done >= max_sweeps {
        EigenState::MaxIterationsReached
    } else {
        EigenState::Iterating
    }
}

/// Pair `x` is visited strictly before pair `y` in a sweep.
pub open spec fn pair_lex_lt(x: (usize, usize), y: (usize, usize)) -> bool {
    x.0 < y.0 || (x.0 == y.0 && x.1 < y.1)
}

/// The pairs `(p, q)` with `p < q < n` that one sweep visits, in
/// row-major order: exactly every strictly-upper position, each once.
pub fn sweep_pairs(n: usize) -> (pairs: Vec<(usize, usize)>)
    requires
        n >= 1,
    ensures
        forall|k: int|
            0 <= k < pairs@.len() ==> (#[trigger] pairs@[k]).0 < pairs@[k].1 && pairs@[k].1 < n,
        forall|a: int, b: int|
            0 <= a < b < pairs@.len() ==> pair_lex_lt(#[trigger] pairs@[a], #[trigger] pairs@[b]),
        forall|p: usize, q: usize| p < q && q < n ==> pairs@.contains((p, q)),
{
    let mut pairs: Vec<(usize, usize)> = Vec::new();
    let mut p: usize = 0;
    while p < n - 1
        invariant
            n >= 1,
            0 <= p <= n,
            forall|k: int|
                0 <= k < pairs@.len() ==> (#[trigger] pairs@[k]).0 < pairs@[k].1
                    && pairs@[k].1 < n,
            forall|a: int, b: int|
                0 <= a < b < pairs@.len() ==> pair_lex_lt(
                    #[trigger] pairs@[a],
                    #[trigger] pairs@[b],
                ),
            forall|k: int| 0 <= k < pairs@.len() ==> (#[trigger] pairs@[k]).0 < p,
            forall|x: usize, y: usize|
                x < y && y < n && x < p ==> pairs@.contains((x, y)),
        decreases n - p,
    {
        let mut q: usize = p + 1;
        while q < n
            invariant
                n >= 1,
                p + 1 <= q <= n,
                p < n,
                forall|k: int|
                    0 <= k < pairs@.len() ==> (#[trigger] pairs@[k]).0 < pairs@[k].1
                        && pairs@[k].1 < n,
                forall|a: int, b: int|
                    0 <= a < b < pairs@.len() ==> pair_lex_lt(
                        #[trigger] pairs@[a],
                        #[trigger] pairs@[b],
                    ),
                forall|k: int|
                    0 <= k < pairs@.len() ==> pair_lex_lt(#[trigger] pairs@[k], (p, q)),
                forall|x: usize, y: usize|
                    x < y && y < n && x < p ==> pairs@.contains((x, y)),
                forall|y: usize| p < y && y < q ==> pairs@.contains((p, y)),
            decreases n - q,
        {
            let ghost old_pairs = pairs@;
            pairs.push((p, q));
            proof {
                assert forall|x: usize, y: usize| x < y && y < n && x < p implies pairs@.contains(
                    (x, y),
                ) by {
                    assert(old_pairs.contains((x, y)));
                    let w = choose|w: int| 0 <= w < old_pairs.len() && old_pairs[w] == (x, y);
                    assert(pairs@[w] == (x, y));
                }
                assert forall|y: usize| p < y && y < q + 1 implies pairs@.contains(
                    (p, y),
                ) by {
                    if y < q {
                        assert(old_pairs.contains((p, y)));
                        let w = choose|w: int|
                            0 <= w < old_pairs.len() && old_pairs[w] == (p, y);
                        assert(pairs@[w] == (p, y));
                    } else {
                        assert(pairs@[pairs@.len() - 1] == (p, q));
                    }
                }
            }
            q += 1;
        }
        p += 1;
    }
    pairs
}

/// The plane-rotation matrix for the pair `(p, q)`: the identity
/// pattern with the caller's cosine word on the two diagonal positions
/// `p` and `q`, the sine word at `(p, q)`, and the negated sine word at
/// `(q, p)`.
pub fn rotation_matrix(n: usize, p: usize, q: usize, cos_w: u64, sin_w: u64, neg_sin_w: u64) -> (b:
    Matrix2D)
    requires
        p < q,
        q < n,
    ensures
        b.wf(),
        b.rows == n,
        b.cols == n,
        b@[p as int][p as int] == cos_w,
        b@[q as int][q as int] == cos_w,
        b@[p as int][q as int] == sin_w,
        b@[q as int][p as int] == neg_sin_w,
        forall|i: int|
            0 <= i < n && i != p && i != q ==> #[trigger] b@[i][i] == WORD_ONE,
        forall|i: int, j: int|
            0 <= i < n && 0 <= j < n && i != j && !(i == p && j == q) && !(i == q && j == p)
                ==> #[trigger] b@[i][j] == WORD_ZERO,
{
    let mut b = Matrix2D::eye(n);
    b.set(p, p, cos_w);
    b.set(q, q, cos_w);
    b.set(p, q, sin_w);
    b.set(q, p, neg_sin_w);
    b
}

} // verus!
