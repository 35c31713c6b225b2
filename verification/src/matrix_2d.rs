//! The dense matrix store.
//!
//! A `Matrix2D` owns a rectangular array of 64-bit entry words together
//! with its row and column counts.  The shape invariant — at least one
//! row, at least one column, every row of exactly `cols` entries — is
//! established at construction and preserved by every operation.
//!
//! Entry words are opaque here: a caller that works with `f64` data
//! stores each value's bit pattern and interprets results the same way.
//! `WORD_ZERO` and `WORD_ONE` are the binary64 encodings of zero and
//! one, so `zeros` and `eye` line up with that interpretation.

use vstd::prelude::*;

verus! {

/// The 64-bit word that encodes the scalar zero in the binary64 format.
pub const WORD_ZERO: u64 = 0;

/// The 64-bit word that encodes the scalar one in the binary64 format.
pub const WORD_ONE: u64 = 0x3FF0_0000_0000_0000;

/// The other zero of the binary64 format: the negatively signed zero.
pub const WORD_NEG_ZERO: u64 = 0x8000_0000_0000_0000;

/// A dense matrix of `rows x cols` entry words.
pub struct Matrix2D {
    /// Number of rows; at least one.
    pub rows: usize,
    /// Number of columns; at least one.
    pub cols: usize,
    /// The entries, one inner vector per row.
    pub data: Vec<Vec<u64>>,
}

/// The mathematical contents of a sequence of row vectors.
pub open spec fn rows_view(d: Seq<Vec<u64>>) -> Seq<Seq<u64>> {
    Seq::new(d.len(), |i: int| d[i]@)
}

/// `rows_view` keeps the number of rows.
pub broadcast proof fn lemma_rows_view_len(d: Seq<Vec<u64>>)
    ensures
        #[trigger] rows_view(d).len() == d.len(),
{
}

/// Each row of `rows_view` is the view of the matching row vector.
pub broadcast proof fn lemma_rows_view_index(d: Seq<Vec<u64>>, i: int)
    ensures
        0 <= i < d.len() ==> #[trigger] rows_view(d)[i] == d[i]@,
{
}

impl View for Matrix2D {
    type V = Seq<Seq<u64>>;

    open spec fn view(&self) -> Seq<Seq<u64>> {
        rows_view(self.data@)
    }
}

/// A sequence of rows is rectangular: at least one row, at least one
/// column, and every row of the same length as the first.
pub open spec fn rectangular(d: Seq<Seq<u64>>) -> bool {
    &&& d.len() >= 1
    &&& d[0].len() >= 1
    &&& forall|i: int| 0 <= i < d.len() ==> (#[trigger] d[i]).len() == d[0].len()
}

/// The rows of `d` with row `i` and column `j` deleted.
pub open spec fn minor_view(d: Seq<Seq<u64>>, i: int, j: int) -> Seq<Seq<u64>> {
    Seq::new(
        (d.len() - 1) as nat,
        |a: int|
            Seq::new(
                (d[0].len() - 1) as nat,
                |b: int|
                    d[if a < i {
                        a
                    } else {
                        a + 1
                    }][if b < j {
                        b
                    } else {
                        b + 1
                    }],
            ),
    )
}

/// `w` is a possible cofactor-expansion determinant of `d` under the
/// caller's fold step: a single entry is its own determinant, and
/// anything larger folds `step` along the first row, handing it the
/// accumulator so far, the row entry, the recursively expanded minor
/// determinant, and whether the column's sign is positive.
pub open spec fn det_rel<F: Fn(u64, u64, u64, bool) -> u64>(
    d: Seq<Seq<u64>>,
    zero: u64,
    step: F,
    w: u64,
) -> bool
    decreases d.len(), 1int, 0int,
{
    if d.len() <= 0 {
        false
    } else if d.len() == 1 {
        w == d[0][0]
    } else {
        det_fold_rel(d, zero, step, d[0].len() as int, w)
    }
}

/// `w` is a possible accumulator after folding `step` over the first
/// `col` columns of the first row of `d`, starting from `zero`.
pub open spec fn det_fold_rel<F: Fn(u64, u64, u64, bool) -> u64>(
    d: Seq<Seq<u64>>,
    zero: u64,
    step: F,
    col: int,
    w: u64,
) -> bool
    decreases d.len(), 0int, col,
{
    if col <= 0 {
        w == zero
    } else if d.len() <= 1 {
        false
    } else {
        exists|prev: u64, sub: u64, g: bool|
            #![trigger call_ensures(step, (prev, d[0][col - 1], sub, g), w)]
            det_fold_rel(d, zero, step, col - 1, prev) && det_rel(
                minor_view(d, 0, col - 1),
                zero,
                step,
                sub,
            ) && g == ((col - 1) % 2 == 0) && call_ensures(
                step,
                (prev, d[0][col - 1], sub, g),
                w,
            )
    }
}

/// One fold step: extending a possible accumulator for the first
/// `col - 1` columns by the step result for column `col - 1` gives a
/// possible accumulator for the first `col` columns.
pub proof fn lemma_det_fold_step<F: Fn(u64, u64, u64, bool) -> u64>(
    d: Seq<Seq<u64>>,
    zero: u64,
    step: F,
    col: int,
    prev: u64,
    sub: u64,
    w: u64,
)
    requires
        col >= 1,
        d.len() >= 2,
        det_fold_rel(d, zero, step, col - 1, prev),
        det_rel(minor_view(d, 0, col - 1), zero, step, sub),
        call_ensures(step, (prev, d[0][col - 1], sub, (col - 1) % 2 == 0), w),
    ensures
        det_fold_rel(d, zero, step, col, w),
{
}

impl Matrix2D {
    /// The shape invariant: the counts match the data and are positive.
    pub open spec fn wf(&self) -> bool {
        &&& self.rows >= 1
        &&& self.cols >= 1
        &&& self@.len() == self.rows
        &&& forall|i: int| 0 <= i < self.rows ==> (#[trigger] self@[i]).len() == self.cols
    }

    /// Builds a matrix from row data.  Construction is refused — no
    /// matrix value exists — exactly when the data is empty, its first
    /// row is empty, or some row differs in length from the first.
    pub fn new(data: Vec<Vec<u64>>) -> (r: Option<Matrix2D>)
        ensures
            r is Some <==> (data@.len() >= 1 && data@[0]@.len() >= 1 && forall|i: int|
                0 <= i < data@.len() ==> (#[trigger] data@[i])@.len() == data@[0]@.len()),
            r is Some <==> rectangular(rows_view(data@)),
            r is Some ==> {
                let m = r.unwrap();
                &&& m.wf()
                &&& m.rows == data@.len()
                &&& m.cols == data@[0]@.len()
                &&& m@ == rows_view(data@)
            },
    {
        broadcast use lemma_rows_view_len, lemma_rows_view_index;

        let rows = data.len();
        if rows == 0 {
            return None;
        }
        let cols = data[0].len();
        if cols == 0 {
            return None;
        }
        let mut i: usize = 1;
        while i < rows
            invariant
                1 <= i <= rows,
                rows == data@.len(),
                cols == data@[0]@.len(),
                forall|k: int| 0 <= k < i ==> (#[trigger] data@[k])@.len() == cols,
            decreases rows - i,
        {
            if data[i].len() != cols {
                proof {
                    broadcast use lemma_rows_view_len, lemma_rows_view_index;

                    assert(rows_view(data@)[i as int].len() != rows_view(data@)[0].len());
                }
                return None;
            }
            i += 1;
        }
        Some(Matrix2D { rows, cols, data })
    }

    /// The all-zero matrix of the given shape.
    pub fn zeros(rows: usize, cols: usize) -> (r: Matrix2D)
        requires
            rows >= 1,
            cols >= 1,
        ensures
            r.wf(),
            r.rows == rows,
            r.cols == cols,
            forall|i: int, j: int|
                0 <= i < rows && 0 <= j < cols ==> r@[i][j] == WORD_ZERO,
    {
        broadcast use lemma_rows_view_len, lemma_rows_view_index;

        let mut data: Vec<Vec<u64>> = Vec::new();
        let mut i: usize = 0;
        while i < rows
            invariant
                0 <= i <= rows,
                data@.len() == i,
                forall|k: int| 0 <= k < i ==> (#[trigger] data@[k])@.len() == cols,
                forall|k: int, j: int|
                    0 <= k < i && 0 <= j < cols ==> data@[k]@[j] == WORD_ZERO,
            decreases rows - i,
        {
            let mut row: Vec<u64> = Vec::new();
            let mut j: usize = 0;
            while j < cols
                invariant
                    0 <= j <= cols,
                    row@.len() == j,
                    forall|t: int| 0 <= t < j ==> row@[t] == WORD_ZERO,
                decreases cols - j,
            {
                row.push(WORD_ZERO);
                j += 1;
            }
            data.push(row);
            i += 1;
        }
        Matrix2D { rows, cols, data }
    }

    /// The identity pattern: `WORD_ONE` on the diagonal, `WORD_ZERO`
    /// elsewhere.
    pub fn eye(size: usize) -> (r: Matrix2D)
        requires
            size >= 1,
        ensures
            r.wf(),
            r.rows == size,
            r.cols == size,
            forall|i: int, j: int|
                0 <= i < size && 0 <= j < size ==> r@[i][j] == (if i == j {
                    WORD_ONE
                } else {
                    WORD_ZERO
                }),
    {
        let mut result = Matrix2D::zeros(size, size);
        let mut i: usize = 0;
        while i < size
            invariant
                0 <= i <= size,
                result.wf(),
                result.rows == size,
                result.cols == size,
                forall|k: int, j: int|
                    0 <= k < size && 0 <= j < size && k != j
                        ==> #[trigger] result@[k][j] == WORD_ZERO,
                forall|k: int| 0 <= k < i ==> #[trigger] result@[k][k] == WORD_ONE,
                forall|k: int| i <= k < size ==> #[trigger] result@[k][k] == WORD_ZERO,
            decreases size - i,
        {
            result.set(i, i, WORD_ONE);
            i += 1;
        }
        result
    }

    /// Reads the entry at row `i`, column `j`.
    pub fn get(&self, i: usize, j: usize) -> (w: u64)
        requires
            self.wf(),
            i < self.rows,
            j < self.cols,
        ensures
            w == self@[i as int][j as int],
    {
        broadcast use lemma_rows_view_len, lemma_rows_view_index;

        proof {
            assert(self@[i as int] == self.data@[i as int]@);
        }
        self.data[i][j]
    }

    /// Writes the entry at row `i`, column `j` in place.
    pub fn set(&mut self, i: usize, j: usize, w: u64)
        requires
            old(self).wf(),
            i < old(self).rows,
            j < old(self).cols,
        ensures
            final(self).wf(),
            final(self).rows == old(self).rows,
            final(self).cols == old(self).cols,
            final(self)@ == old(self)@.update(
                i as int,
                old(self)@[i as int].update(j as int, w),
            ),
    {
        broadcast use lemma_rows_view_len, lemma_rows_view_index;

        proof {
            assert(self@[i as int] == self.data@[i as int]@);
        }
        self.data[i][j] = w;
        proof {
            assert(self@ =~~= old(self)@.update(
                i as int,
                old(self)@[i as int].update(j as int, w),
            ));
        }
    }

    /// Copies row `i` out as a vector.
    pub fn row(&self, i: usize) -> (r: Vec<u64>)
        requires
            self.wf(),
            i < self.rows,
        ensures
            r@ == self@[i as int],
    {
        let mut r: Vec<u64> = Vec::new();
        let mut t: usize = 0;
        while t < self.cols
            invariant
                self.wf(),
                i < self.rows,
                0 <= t <= self.cols,
                r@.len() == t,
                forall|k: int| 0 <= k < t ==> r@[k] == self@[i as int][k],
            decreases self.cols - t,
        {
            let w = self.get(i, t);
            r.push(w);
            t += 1;
        }
        proof {
            assert(r@ =~= self@[i as int]);
        }
        r
    }

    /// The contents of column `j`, top to bottom.
    pub open spec fn col_seq(&self, j: int) -> Seq<u64> {
        Seq::new(self.rows as nat, |i: int| self@[i][j])
    }

    /// Copies column `j` out as a vector.
    pub fn column(&self, col_index: usize) -> (r: Vec<u64>)
        requires
            self.wf(),
            col_index < self.cols,
        ensures
            r@ == self.col_seq(col_index as int),
            r@.len() == self.rows,
            forall|i: int| 0 <= i < self.rows ==> r@[i] == self@[i][col_index as int],
    {
        let mut r: Vec<u64> = Vec::new();
        let mut i: usize = 0;
        while i < self.rows
            invariant
                self.wf(),
                col_index < self.cols,
                0 <= i <= self.rows,
                r@.len() == i,
                forall|k: int| 0 <= k < i ==> r@[k] == self@[k][col_index as int],
            decreases self.rows - i,
        {
            let w = self.get(i, col_index);
            r.push(w);
            i += 1;
        }
        proof {
            assert(r@ =~= self.col_seq(col_index as int));
        }
        r
    }

    /// Copies the main diagonal out as a vector.
    pub fn diagonal(&self) -> (d: Vec<u64>)
        requires
            self.wf(),
            self.rows == self.cols,
        ensures
            d@.len() == self.rows,
            forall|i: int| 0 <= i < self.rows ==> d@[i] == self@[i][i],
    {
        let mut d: Vec<u64> = Vec::new();
        let mut i: usize = 0;
        while i < self.rows
            invariant
                self.wf(),
                self.rows == self.cols,
                0 <= i <= self.rows,
                d@.len() == i,
                forall|k: int| 0 <= k < i ==> d@[k] == self@[k][k],
            decreases self.rows - i,
        {
            let w = self.get(i, i);
            d.push(w);
            i += 1;
        }
        d
    }

    /// `t` holds exactly the entries of `a` with row and column indices
    /// exchanged.
    pub open spec fn is_transpose_of(t: Matrix2D, a: Matrix2D) -> bool {
        &&& t.wf()
        &&& t.rows == a.cols
        &&& t.cols == a.rows
        &&& forall|i: int, j: int|
            0 <= i < t.rows && 0 <= j < t.cols ==> t@[i][j] == a@[j][i]
    }

    /// The transpose: entry `(i, j)` of the result is entry `(j, i)` of
    /// `self`.  Always succeeds.
    pub fn transpose(&self) -> (r: Matrix2D)
        requires
            self.wf(),
        ensures
            Matrix2D::is_transpose_of(r, *self),
            r.rows == self.cols,
            r.cols == self.rows,
    {
        broadcast use lemma_rows_view_len, lemma_rows_view_index;

        let mut data: Vec<Vec<u64>> = Vec::new();
        let mut j: usize = 0;
        while j < self.cols
            invariant
                self.wf(),
                0 <= j <= self.cols,
                data@.len() == j,
                forall|k: int| 0 <= k < j ==> (#[trigger] data@[k])@.len() == self.rows,
                forall|k: int, t: int|
                    0 <= k < j && 0 <= t < self.rows ==> data@[k]@[t] == self@[t][k],
            decreases self.cols - j,
        {
            let row = self.column(j);
            data.push(row);
            j += 1;
        }
        Matrix2D { rows: self.cols, cols: self.rows, data }
    }

    /// Transposing twice gives back the original contents: for any
    /// well-formed `a`, if `t` is the transpose of `a` and `u` is the
    /// transpose of `t`, then `u` has the shape and entries of `a`.
    pub proof fn lemma_transpose_involution(a: Matrix2D, t: Matrix2D, u: Matrix2D)
        requires
            a.wf(),
            Matrix2D::is_transpose_of(t, a),
            Matrix2D::is_transpose_of(u, t),
        ensures
            u.rows == a.rows,
            u.cols == a.cols,
            u@ == a@,
    {
        assert forall|i: int| 0 <= i < a.rows implies u@[i] == a@[i] by {
            assert forall|j: int| 0 <= j < a.cols implies u@[i][j] == a@[i][j] by {
                assert(u@[i][j] == t@[j][i]);
                assert(t@[j][i] == a@[i][j]);
            }
            assert(u@[i] =~= a@[i]);
        }
        assert(u@ =~= a@);
    }

    /// The minor array: `self` with row `i` and column `j` deleted.
    pub fn minor(&self, i: usize, j: usize) -> (r: Matrix2D)
        requires
            self.wf(),
            self.rows >= 2,
            self.cols >= 2,
            i < self.rows,
            j < self.cols,
        ensures
            r.wf(),
            r.rows == self.rows - 1,
            r.cols == self.cols - 1,
            forall|a: int, b: int|
                0 <= a < r.rows && 0 <= b < r.cols ==> r@[a][b] == self@[
                    if a < i { a } else { a + 1 }
                ][
                    if b < j { b } else { b + 1 }
                ],
    {
        broadcast use lemma_rows_view_len, lemma_rows_view_index;

        let mut data: Vec<Vec<u64>> = Vec::new();
        let mut a: usize = 0;
        while a < self.rows - 1
            invariant
                self.wf(),
                self.rows >= 2,
                self.cols >= 2,
                i < self.rows,
                j < self.cols,
                0 <= a <= self.rows - 1,
                data@.len() == a,
                forall|k: int| 0 <= k < a ==> (#[trigger] data@[k])@.len() == self.cols - 1,
                forall|k: int, b: int|
                    0 <= k < a && 0 <= b < self.cols - 1 ==> data@[k]@[b] == self@[
                        if k < i { k } else { k + 1 }
                    ][
                        if b < j { b } else { b + 1 }
                    ],
            decreases self.rows - 1 - a,
        {
            let src_row: usize = if a < i { a } else { a + 1 };
            let mut row: Vec<u64> = Vec::new();
            let mut b: usize = 0;
            while b < self.cols - 1
                invariant
                    self.wf(),
                    self.cols >= 2,
                    j < self.cols,
                    src_row < self.rows,
                    0 <= b <= self.cols - 1,
                    row@.len() == b,
                    forall|t: int|
                        0 <= t < b ==> row@[t] == self@[src_row as int][
                            if t < j { t } else { t + 1 }
                        ],
                decreases self.cols - 1 - b,
            {
                let src_col: usize = if b < j { b } else { b + 1 };
                let w = self.get(src_row, src_col);
                row.push(w);
                b += 1;
            }
            data.push(row);
            a += 1;
        }
        Matrix2D { rows: self.rows - 1, cols: self.cols - 1, data }
    }

    /// Combines two matrices entry by entry with the supplied scalar
    /// operation.  The shapes must agree exactly; on any mismatch the
    /// result is absent and no partial result is produced.
    pub fn combine<F: Fn(u64, u64) -> u64>(&self, other: &Matrix2D, op: F) -> (r: Option<
        Matrix2D,
    >)
        requires
            self.wf(),
            other.wf(),
            forall|a: u64, b: u64| #[trigger] call_requires(op, (a, b)),
        ensures
            r is Some <==> (self.rows == other.rows && self.cols == other.cols),
            r is Some ==> {
                let m = r.unwrap();
                &&& m.wf()
                &&& m.rows == self.rows
                &&& m.cols == self.cols
                &&& forall|i: int, j: int|
                    0 <= i < m.rows && 0 <= j < m.cols ==> call_ensures(
                        op,
                        (self@[i][j], other@[i][j]),
                        #[trigger] m@[i][j],
                    )
            },
    {
        broadcast use lemma_rows_view_len, lemma_rows_view_index;

        if self.rows != other.rows || self.cols != other.cols {
            return None;
        }
        let mut data: Vec<Vec<u64>> = Vec::new();
        let mut i: usize = 0;
        while i < self.rows
            invariant
                self.wf(),
                other.wf(),
                other.rows == self.rows,
                other.cols == self.cols,
                forall|a: u64, b: u64| #[trigger] call_requires(op, (a, b)),
                0 <= i <= self.rows,
                data@.len() == i,
                forall|k: int| 0 <= k < i ==> (#[trigger] data@[k])@.len() == self.cols,
                forall|k: int, t: int|
                    0 <= k < i && 0 <= t < self.cols ==> call_ensures(
                        op,
                        (self@[k][t], other@[k][t]),
                        #[trigger] data@[k]@[t],
                    ),
            decreases self.rows - i,
        {
            let mut row: Vec<u64> = Vec::new();
            let mut t: usize = 0;
            while t < self.cols
                invariant
                    self.wf(),
                    other.wf(),
                    other.rows == self.rows,
                    other.cols == self.cols,
                    forall|a: u64, b: u64| #[trigger] call_requires(op, (a, b)),
                    i < self.rows,
                    0 <= t <= self.cols,
                    row@.len() == t,
                    forall|k: int|
                        0 <= k < t ==> call_ensures(
                            op,
                            (self@[i as int][k], other@[i as int][k]),
                            #[trigger] row@[k],
                        ),
                decreases self.cols - t,
            {
                let a = self.get(i, t);
                let b = other.get(i, t);
                let w = op(a, b);
                row.push(w);
                t += 1;
            }
            data.push(row);
            i += 1;
        }
        Some(Matrix2D { rows: self.rows, cols: self.cols, data })
    }

    /// Rebuilds the matrix entry by entry with the supplied scalar
    /// operation; the shape is kept.
    pub fn map_entries<F: Fn(u64) -> u64>(&self, op: F) -> (r: Matrix2D)
        requires
            self.wf(),
            forall|a: u64| #[trigger] call_requires(op, (a,)),
        ensures
            r.wf(),
            r.rows == self.rows,
            r.cols == self.cols,
            forall|i: int, j: int|
                0 <= i < r.rows && 0 <= j < r.cols ==> call_ensures(
                    op,
                    (self@[i][j],),
                    #[trigger] r@[i][j],
                ),
    {
        broadcast use lemma_rows_view_len, lemma_rows_view_index;

        let mut data: Vec<Vec<u64>> = Vec::new();
        let mut i: usize = 0;
        while i < self.rows
            invariant
                self.wf(),
                forall|a: u64| #[trigger] call_requires(op, (a,)),
                0 <= i <= self.rows,
                data@.len() == i,
                forall|k: int| 0 <= k < i ==> (#[trigger] data@[k])@.len() == self.cols,
                forall|k: int, t: int|
                    0 <= k < i && 0 <= t < self.cols ==> call_ensures(
                        op,
                        (self@[k][t],),
                        #[trigger] data@[k]@[t],
                    ),
            decreases self.rows - i,
        {
            let mut row: Vec<u64> = Vec::new();
            let mut t: usize = 0;
            while t < self.cols
                invariant
                    self.wf(),
                    forall|a: u64| #[trigger] call_requires(op, (a,)),
                    i < self.rows,
                    0 <= t <= self.cols,
                    row@.len() == t,
                    forall|k: int|
                        0 <= k < t ==> call_ensures(
                            op,
                            (self@[i as int][k],),
                            #[trigger] row@[k],
                        ),
                decreases self.cols - t,
            {
                let a = self.get(i, t);
                let w = op(a);
                row.push(w);
                t += 1;
            }
            data.push(row);
            i += 1;
        }
        Matrix2D { rows: self.rows, cols: self.cols, data }
    }

    /// Entry `(i, j)` of a product is a possible result of the supplied
    /// dot product applied to row `i` of `a` and column `j` of `b`.
    pub open spec fn dot_entry<F: Fn(Vec<u64>, Vec<u64>) -> u64>(
        a: Matrix2D,
        b: Matrix2D,
        dot: F,
        i: int,
        j: int,
        w: u64,
    ) -> bool {
        exists|x: Vec<u64>, y: Vec<u64>|
            x@ == a@[i] && y@ == b.col_seq(j) && #[trigger] call_ensures(dot, (x, y), w)
    }

    /// The matrix product, with the scalar dot product supplied by the
    /// caller: entry `(i, j)` of the result comes from `dot` applied to
    /// row `i` of `self` and column `j` of `other`.  The result is
    /// absent exactly when the inner dimensions disagree.
    pub fn multiply_with<F: Fn(Vec<u64>, Vec<u64>) -> u64>(&self, other: &Matrix2D, dot: F) -> (r:
        Option<Matrix2D>)
        requires
            self.wf(),
            other.wf(),
            forall|x: Vec<u64>, y: Vec<u64>| #[trigger] call_requires(dot, (x, y)),
        ensures
            r is Some <==> self.cols == other.rows,
            r is Some ==> {
                let m = r.unwrap();
                &&& m.wf()
                &&& m.rows == self.rows
                &&& m.cols == other.cols
                &&& forall|i: int, j: int|
                    0 <= i < m.rows && 0 <= j < m.cols ==> Matrix2D::dot_entry(
                        *self,
                        *other,
                        dot,
                        i,
                        j,
                        #[trigger] m@[i][j],
                    )
            },
    {
        broadcast use lemma_rows_view_len, lemma_rows_view_index;

        if self.cols != other.rows {
            return None;
        }
        let mut data: Vec<Vec<u64>> = Vec::new();
        let mut i: usize = 0;
        while i < self.rows
            invariant
                self.wf(),
                other.wf(),
                self.cols == other.rows,
                forall|x: Vec<u64>, y: Vec<u64>| #[trigger] call_requires(dot, (x, y)),
                0 <= i <= self.rows,
                data@.len() == i,
                forall|k: int| 0 <= k < i ==> (#[trigger] data@[k])@.len() == other.cols,
                forall|k: int, t: int|
                    0 <= k < i && 0 <= t < other.cols ==> Matrix2D::dot_entry(
                        *self,
                        *other,
                        dot,
                        k,
                        t,
                        #[trigger] data@[k]@[t],
                    ),
            decreases self.rows - i,
        {
            let mut row: Vec<u64> = Vec::new();
            let mut j: usize = 0;
            while j < other.cols
                invariant
                    self.wf(),
                    other.wf(),
                    self.cols == other.rows,
                    forall|x: Vec<u64>, y: Vec<u64>| #[trigger] call_requires(dot, (x, y)),
                    i < self.rows,
                    0 <= j <= other.cols,
                    row@.len() == j,
                    forall|t: int|
                        0 <= t < j ==> Matrix2D::dot_entry(
                            *self,
                            *other,
                            dot,
                            i as int,
                            t,
                            #[trigger] row@[t],
                        ),
                decreases other.cols - j,
            {
                let x = self.row(i);
                let y = other.column(j);
                let ghost gx = x;
                let ghost gy = y;
                let w = dot(x, y);
                proof {
                    assert(call_ensures(dot, (gx, gy), w));
                    assert(Matrix2D::dot_entry(*self, *other, dot, i as int, j as int, w));
                }
                row.push(w);
                j += 1;
            }
            data.push(row);
            i += 1;
        }
        Some(Matrix2D { rows: self.rows, cols: other.cols, data })
    }

    /// Entry `i` of a matrix-vector product is a possible result of
    /// the supplied dot product applied to row `i` of `a` and the
    /// vector `v`.
    pub open spec fn vec_dot_entry<F: Fn(Vec<u64>, Vec<u64>) -> u64>(
        a: Matrix2D,
        v: Seq<u64>,
        dot: F,
        i: int,
        w: u64,
    ) -> bool {
        exists|x: Vec<u64>, y: Vec<u64>|
            x@ == a@[i] && y@ == v && #[trigger] call_ensures(dot, (x, y), w)
    }

    /// The matrix-vector product, with the scalar dot product supplied
    /// by the caller: a `rows x 1` result whose entry `i` comes from
    /// `dot` applied to row `i` of `self` and the vector.  The result
    /// is absent exactly when the vector length differs from `cols`.
    pub fn multiply_by_vector_with<F: Fn(Vec<u64>, Vec<u64>) -> u64>(
        &self,
        vector: &Vec<u64>,
        dot: F,
    ) -> (r: Option<Matrix2D>)
        requires
            self.wf(),
            forall|x: Vec<u64>, y: Vec<u64>| #[trigger] call_requires(dot, (x, y)),
        ensures
            r is Some <==> vector@.len() == self.cols,
            r is Some ==> {
                let m = r.unwrap();
                &&& m.wf()
                &&& m.rows == self.rows
                &&& m.cols == 1
                &&& forall|i: int|
                    0 <= i < m.rows ==> Matrix2D::vec_dot_entry(
                        *self,
                        vector@,
                        dot,
                        i,
                        #[trigger] m@[i][0],
                    )
            },
    {
        broadcast use lemma_rows_view_len, lemma_rows_view_index;

        if vector.len() != self.cols {
            return None;
        }
        let mut data: Vec<Vec<u64>> = Vec::new();
        let mut i: usize = 0;
        while i < self.rows
            invariant
                self.wf(),
                vector@.len() == self.cols,
                forall|x: Vec<u64>, y: Vec<u64>| #[trigger] call_requires(dot, (x, y)),
                0 <= i <= self.rows,
                data@.len() == i,
                forall|k: int| 0 <= k < i ==> (#[trigger] data@[k])@.len() == 1,
                forall|k: int|
                    0 <= k < i ==> Matrix2D::vec_dot_entry(
                        *self,
                        vector@,
                        dot,
                        k,
                        #[trigger] data@[k]@[0],
                    ),
            decreases self.rows - i,
        {
            let x = self.row(i);
            let mut y: Vec<u64> = Vec::new();
            let mut t: usize = 0;
            while t < vector.len()
                invariant
                    0 <= t <= vector@.len(),
                    y@.len() == t,
                    forall|k: int| 0 <= k < t ==> y@[k] == vector@[k],
                decreases vector@.len() - t,
            {
                let w = vector[t];
                y.push(w);
                t += 1;
            }
            proof {
                assert(y@ =~= vector@);
            }
            let ghost gx = x;
            let ghost gy = y;
            let w = dot(x, y);
            proof {
                assert(call_ensures(dot, (gx, gy), w));
                assert(Matrix2D::vec_dot_entry(*self, vector@, dot, i as int, w));
            }
            let mut entry: Vec<u64> = Vec::new();
            entry.push(w);
            data.push(entry);
            i += 1;
        }
        Some(Matrix2D { rows: self.rows, cols: 1, data })
    }

    /// The determinant by cofactor expansion along the first row, with
    /// the scalar fold step supplied by the caller; the minors come
    /// from the verified `minor`.  The result is absent exactly when
    /// the matrix is not square.
    pub fn determinant_with<F: Copy + Fn(u64, u64, u64, bool) -> u64>(
        &self,
        zero: u64,
        step: F,
    ) -> (r: Option<u64>)
        requires
            self.wf(),
            forall|p: u64, e: u64, s: u64, g: bool| #[trigger] call_requires(step, (p, e, s, g)),
        ensures
            r is Some <==> self.rows == self.cols,
            r is Some ==> det_rel(self@, zero, step, r.unwrap()),
            r is Some && self.rows == 1 ==> r.unwrap() == self@[0][0],
        decreases self.rows,
    {
        if self.rows != self.cols {
            return None;
        }
        if self.rows == 1 {
            let w = self.get(0, 0);
            return Some(w);
        }
        let mut acc = zero;
        let mut col: usize = 0;
        while col < self.cols
            invariant
                self.wf(),
                self.rows == self.cols,
                self.rows >= 2,
                forall|p: u64, e: u64, s: u64, g: bool|
                    #[trigger] call_requires(step, (p, e, s, g)),
                0 <= col <= self.cols,
                det_fold_rel(self@, zero, step, col as int, acc),
            decreases self.cols - col,
        {
            let sub = self.minor(0, col);
            let sub_det = sub.determinant_with(zero, step).unwrap();
            proof {
                assert(sub@ =~~= minor_view(self@, 0, col as int));
            }
            let entry = self.get(0, col);
            let plus = col % 2 == 0;
            let ghost prev = acc;
            acc = step(acc, entry, sub_det, plus);
            proof {
                lemma_det_fold_step(self@, zero, step, col as int + 1, prev, sub_det, acc);
            }
            col += 1;
        }
        Some(acc)
    }

    /// Entry `(i, j)` of an inverse: the caller's scale operation
    /// applied to the determinant word and the adjugate entry at
    /// `(i, j)`, which is the caller's cofactor value for `(j, i)`.
    pub open spec fn inverse_entry_ok<C: Fn(usize, usize) -> u64, S: Fn(u64, u64) -> u64>(
        cof: C,
        scale: S,
        det_w: u64,
        i: int,
        j: int,
        w: u64,
    ) -> bool {
        exists|c: u64|
            #[trigger] call_ensures(cof, (j as usize, i as usize), c) && call_ensures(
                scale,
                (det_w, c),
                w,
            )
    }

    /// The inverse by adjugate and scale, with the scalar work
    /// supplied by the caller: the determinant is folded with `step`,
    /// a matrix whose determinant word encodes zero is rejected as
    /// singular, and otherwise every entry `(i, j)` of the result is
    /// `scale` applied to the determinant word and the cofactor value
    /// for `(j, i)`.  A result is absent only for a non-square matrix
    /// or a zero determinant word.
    pub fn inverse_with<
        F: Copy + Fn(u64, u64, u64, bool) -> u64,
        C: Fn(usize, usize) -> u64,
        S: Copy + Fn(u64, u64) -> u64,
    >(&self, zero: u64, step: F, cof: C, scale: S) -> (r: Option<Matrix2D>)
        requires
            self.wf(),
            forall|p: u64, e: u64, s: u64, g: bool| #[trigger] call_requires(step, (p, e, s, g)),
            forall|a: usize, b: usize| #[trigger] call_requires(cof, (a, b)),
            forall|a: u64, b: u64| #[trigger] call_requires(scale, (a, b)),
        ensures
            self.rows != self.cols ==> r is None,
            r is None ==> self.rows != self.cols || exists|d: u64|
                #[trigger] det_rel(self@, zero, step, d) && Matrix2D::is_zero_word(d),
            r is Some ==> {
                let m = r.unwrap();
                &&& self.rows == self.cols
                &&& m.wf()
                &&& m.rows == self.rows
                &&& m.cols == self.cols
                &&& exists|d: u64|
                    #[trigger] det_rel(self@, zero, step, d) && !Matrix2D::is_zero_word(d)
                        && forall|i: int, j: int|
                        0 <= i < m.rows && 0 <= j < m.cols ==> #[trigger] Matrix2D::inverse_entry_ok(
                            cof,
                            scale,
                            d,
                            i,
                            j,
                            m@[i][j],
                        )
            },
    {
        if self.rows != self.cols {
            return None;
        }
        let det_w = self.determinant_with(zero, step).unwrap();
        if Matrix2D::word_is_zero(det_w) {
            return None;
        }
        let adj = Matrix2D::adjugate_with(self.rows, cof);
        let sc = |w: u64| -> (out: u64)
            requires
                call_requires(scale, (det_w, w)),
            ensures
                call_ensures(scale, (det_w, w), out),
            { scale(det_w, w) };
        let m = adj.map_entries(sc);
        proof {
            assert forall|i: int, j: int| 0 <= i < m.rows && 0 <= j < m.cols implies #[trigger] Matrix2D::inverse_entry_ok(
                cof,
                scale,
                det_w,
                i,
                j,
                m@[i][j],
            ) by {
                assert(call_ensures(cof, (j as usize, i as usize), adj@[i][j]));
                assert(call_ensures(sc, (adj@[i][j],), m@[i][j]));
                assert(call_ensures(scale, (det_w, adj@[i][j]), m@[i][j]));
            }
        }
        Some(m)
    }

    /// Whether `w` is one of the two words that encode the zero value.
    pub open spec fn is_zero_word(w: u64) -> bool {
        w == WORD_ZERO || w == WORD_NEG_ZERO
    }

    /// The equality-with-zero test at the word level: both zero
    /// encodings pass, nothing else does.
    pub fn word_is_zero(w: u64) -> (b: bool)
        ensures
            b == Matrix2D::is_zero_word(w),
    {
        w == WORD_ZERO || w == WORD_NEG_ZERO
    }

    /// Builds the classical adjugate layout from the caller's cofactor
    /// operation: the value for position `(i, j)` lands at `(j, i)`,
    /// the transpose placement of the cofactor matrix.
    pub fn adjugate_with<F: Fn(usize, usize) -> u64>(n: usize, cof: F) -> (r: Matrix2D)
        requires
            n >= 1,
            forall|a: usize, b: usize| a < n && b < n ==> #[trigger] call_requires(cof, (a, b)),
        ensures
            r.wf(),
            r.rows == n,
            r.cols == n,
            forall|i: int, j: int|
                0 <= i < n && 0 <= j < n ==> call_ensures(
                    cof,
                    (i as usize, j as usize),
                    #[trigger] r@[j][i],
                ),
    {
        broadcast use lemma_rows_view_len, lemma_rows_view_index;

        let mut data: Vec<Vec<u64>> = Vec::new();
        let mut x: usize = 0;
        while x < n
            invariant
                n >= 1,
                forall|a: usize, b: usize|
                    a < n && b < n ==> #[trigger] call_requires(cof, (a, b)),
                0 <= x <= n,
                data@.len() == x,
                forall|k: int| 0 <= k < x ==> (#[trigger] data@[k])@.len() == n,
                forall|k: int, t: int|
                    0 <= k < x && 0 <= t < n ==> call_ensures(
                        cof,
                        (t as usize, k as usize),
                        #[trigger] data@[k]@[t],
                    ),
            decreases n - x,
        {
            let mut row: Vec<u64> = Vec::new();
            let mut y: usize = 0;
            while y < n
                invariant
                    n >= 1,
                    forall|a: usize, b: usize|
                        a < n && b < n ==> #[trigger] call_requires(cof, (a, b)),
                    x < n,
                    0 <= y <= n,
                    row@.len() == y,
                    forall|t: int|
                        0 <= t < y ==> call_ensures(
                            cof,
                            (t as usize, x),
                            #[trigger] row@[t],
                        ),
                decreases n - y,
            {
                let w = cof(y, x);
                row.push(w);
                y += 1;
            }
            data.push(row);
            x += 1;
        }
        Matrix2D { rows: n, cols: n, data }
    }

    /// The refinement pick after an eigendecomposition: the position
    /// of the first minimal key — the front of the ascending index
    /// order that `argsort` produces.
    pub fn extremal_index(keys: &Vec<u64>) -> (r: usize)
        requires
            keys@.len() >= 1,
        ensures
            r < keys@.len(),
            forall|k: int| 0 <= k < keys@.len() ==> keys@[r as int] <= keys@[k],
            forall|k: int| 0 <= k < r ==> keys@[r as int] < keys@[k],
    {
        let n = keys.len();
        let mut r: usize = 0;
        let mut t: usize = 1;
        while t < n
            invariant
                n == keys@.len(),
                0 <= r < t <= n,
                forall|k: int| 0 <= k < t ==> keys@[r as int] <= keys@[k],
                forall|k: int| 0 <= k < r ==> keys@[r as int] < keys@[k],
            decreases n - t,
        {
            if keys[t] < keys[r] {
                r = t;
            }
            t += 1;
        }
        r
    }

    /// The pivot choice of an elimination step: the position of the
    /// first maximal key at or after `start`.
    pub fn pivot_index(keys: &Vec<u64>, start: usize) -> (r: usize)
        requires
            start < keys@.len(),
        ensures
            start <= r < keys@.len(),
            forall|k: int| start <= k < keys@.len() ==> keys@[k] <= keys@[r as int],
            forall|k: int| start <= k < r ==> keys@[k] < keys@[r as int],
    {
        let n = keys.len();
        let mut r: usize = start;
        let mut t: usize = start + 1;
        while t < n
            invariant
                n == keys@.len(),
                start <= r < t <= n,
                forall|k: int| start <= k < t ==> keys@[k] <= keys@[r as int],
                forall|k: int| start <= k < r ==> keys@[k] < keys@[r as int],
            decreases n - t,
        {
            if keys[t] > keys[r] {
                r = t;
            }
            t += 1;
        }
        r
    }

    /// The sign-magnitude order on 64-bit words: the order that the
    /// encoded doubles carry, read off their encodings.  A word with
    /// the sign bit set encodes a negative value and comes first;
    /// within one sign, larger magnitude means later for positives and
    /// earlier for negatives.
    pub open spec fn encoded_le(a: u64, b: u64) -> bool {
        if (a >> 63) != (b >> 63) {
            a >> 63 == 1
        } else if a >> 63 == 0 {
            a <= b
        } else {
            b <= a
        }
    }

    /// The key that turns the sign-magnitude order into the plain
    /// unsigned order: negative encodings are complemented, the rest
    /// get the sign bit set.
    pub open spec fn order_key_of(w: u64) -> u64 {
        if w >> 63 == 1 {
            !w
        } else {
            w | 0x8000_0000_0000_0000
        }
    }

    /// Computes `order_key_of`: comparing two keys with `<=` compares
    /// the encoded values in sign-magnitude order.
    pub fn order_key(w: u64) -> (r: u64)
        ensures
            r == Matrix2D::order_key_of(w),
    {
        if w >> 63 == 1 {
            !w
        } else {
            w | 0x8000_0000_0000_0000
        }
    }

    /// The order key is an order embedding: two words compare in
    /// sign-magnitude order exactly as their keys compare as plain
    /// unsigned integers.
    pub proof fn lemma_order_key_monotone(a: u64, b: u64)
        ensures
            Matrix2D::encoded_le(a, b) <==> Matrix2D::order_key_of(a)
                <= Matrix2D::order_key_of(b),
    {
        assert((if (a >> 63) != (b >> 63) {
            a >> 63 == 1
        } else if a >> 63 == 0 {
            a <= b
        } else {
            b <= a
        }) <==> (if a >> 63 == 1 {
            !a
        } else {
            a | 0x8000_0000_0000_0000
        }) <= (if b >> 63 == 1 {
            !b
        } else {
            b | 0x8000_0000_0000_0000
        })) by (bit_vector);
    }

    /// Sorting indices by key, ties broken by the index itself: index
    /// `x` comes strictly before index `y`.
    pub open spec fn idx_lex_lt(keys: Seq<u64>, x: usize, y: usize) -> bool {
        keys[x as int] < keys[y as int] || (keys[x as int] == keys[y as int] && x < y)
    }

    /// `p` lists each index below `n` exactly once.
    pub open spec fn is_index_permutation(p: Seq<usize>, n: nat) -> bool {
        &&& p.len() == n
        &&& forall|k: int| 0 <= k < p.len() ==> (#[trigger] p[k]) < n
        &&& forall|a: int, b: int| 0 <= a < b < p.len() ==> p[a] != p[b]
    }

    /// `p` lists indices in ascending key order, with equal keys in
    /// ascending index order.
    pub open spec fn keys_sorted_at(keys: Seq<u64>, p: Seq<usize>) -> bool {
        forall|a: int, b: int|
            0 <= a < b < p.len() ==> Matrix2D::idx_lex_lt(keys, #[trigger] p[a], #[trigger] p[b])
    }

    /// Returns the permutation of `0..vector.len()` that reads the keys
    /// in ascending order; equal keys keep their original order.
    pub fn argsort(vector: &Vec<u64>) -> (idx: Vec<usize>)
        ensures
            Matrix2D::is_index_permutation(idx@, vector@.len()),
            Matrix2D::keys_sorted_at(vector@, idx@),
    {
        let n = vector.len();
        let mut idx: Vec<usize> = Vec::new();
        let mut i: usize = 0;
        while i < n
            invariant
                0 <= i <= n,
                idx@.len() == i,
                forall|k: int| 0 <= k < i ==> (#[trigger] idx@[k]) == k,
            decreases n - i,
        {
            idx.push(i);
            i += 1;
        }
        let mut s: usize = 0;
        while s < n
            invariant
                n == vector@.len(),
                0 <= s <= n,
                Matrix2D::is_index_permutation(idx@, n as nat),
                forall|a: int, b: int|
                    0 <= a < b < s ==> Matrix2D::idx_lex_lt(
                        vector@,
                        #[trigger] idx@[a],
                        #[trigger] idx@[b],
                    ),
                forall|a: int, b: int|
                    0 <= a < s && s <= b < n ==> Matrix2D::idx_lex_lt(
                        vector@,
                        #[trigger] idx@[a],
                        #[trigger] idx@[b],
                    ),
            decreases n - s,
        {
            let mut m: usize = s;
            let mut t: usize = s + 1;
            while t < n
                invariant
                    n == vector@.len(),
                    Matrix2D::is_index_permutation(idx@, n as nat),
                    s <= m < t <= n,
                    forall|k: int|
                        s <= k < t && k != m ==> Matrix2D::idx_lex_lt(
                            vector@,
                            idx@[m as int],
                            #[trigger] idx@[k],
                        ),
                decreases n - t,
            {
                let it = idx[t];
                let im = idx[m];
                if vector[it] < vector[im] || (vector[it] == vector[im] && it < im) {
                    m = t;
                }
                t += 1;
            }
            let vs = idx[s];
            let vm = idx[m];
            idx[s] = vm;
            idx[m] = vs;
            s += 1;
        }
        idx
    }

    /// Exchanges rows `i` and `j` in place.  The mutating form is a
    /// deliberate design choice: a swap that returned a fresh copy
    /// would be easy to drop unused at a call site, silently turning
    /// elimination pivoting into a no-op, so the exchange acts on
    /// `self` directly and the contract says so.
    pub fn swap_rows(&mut self, i: usize, j: usize)
        requires
            old(self).wf(),
            i < old(self).rows,
            j < old(self).rows,
        ensures
            final(self).wf(),
            final(self).rows == old(self).rows,
            final(self).cols == old(self).cols,
            final(self)@ == old(self)@.update(i as int, old(self)@[j as int]).update(
                j as int,
                old(self)@[i as int],
            ),
    {
        broadcast use lemma_rows_view_len, lemma_rows_view_index;

        let row_i = self.row(i);
        let row_j = self.row(j);
        self.data[i] = row_j;
        self.data[j] = row_i;
        proof {
            assert(self@ =~~= old(self)@.update(i as int, old(self)@[j as int]).update(
                j as int,
                old(self)@[i as int],
            ));
        }
    }
}

} // verus!
