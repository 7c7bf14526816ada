//! A dense, non-sparse, non-symmetric matrix stored in row-major order.

use vstd::prelude::*;

use crate::array::add_in_range;
use crate::array::seq_add;
use crate::array::seq_sub;
use crate::array::sub_in_range;
use crate::common::MatError;

verus! {

/// Regular non-sparse, non-symmetric matrix. The elements live in one
/// contiguous buffer, flattened row by row: the element at logical coordinate
/// `(i, j)` sits at offset `i * num_cols + j`.
#[derive(Debug, Clone)]
pub struct Matrix {
    my_dat: Vec<i64>,
    num_rows: usize,
    num_cols: usize,
}

impl View for Matrix {
    type V = Seq<i64>;

    closed spec fn view(&self) -> Seq<i64> {
        self.my_dat@
    }
}

/// A non-empty, rectangular vector of rows: at least one row, at least one
/// column, and all rows of the same length.
pub open spec fn rect_nonempty(contents: Seq<Vec<i64>>) -> bool {
    &&& contents.len() > 0
    &&& contents[0]@.len() > 0
    &&& forall|r: int| 0 <= r < contents.len() ==> #[trigger] contents[r]@.len()
        == contents[0]@.len()
}

/// The row-major offset of `(i, j)` lies inside a `rows x cols` buffer.
pub proof fn lemma_rm_offset_bounds(i: int, j: int, rows: int, cols: int)
    by (nonlinear_arith)
    requires
        0 <= i < rows,
        0 <= j < cols,
    ensures
        0 <= i * cols + j < rows * cols,
{
}

/// Distinct coordinates have distinct row-major offsets.
pub proof fn lemma_rm_offset_injective(i1: int, j1: int, i2: int, j2: int, cols: int)
    by (nonlinear_arith)
    requires
        0 <= j1 < cols,
        0 <= j2 < cols,
        0 <= i1,
        0 <= i2,
        i1 != i2 || j1 != j2,
    ensures
        i1 * cols + j1 != i2 * cols + j2,
{
}

/// Every offset inside a `rows x cols` buffer is the row-major offset of
/// some coordinate, searching from row `i` on.
proof fn lemma_rm_offset_surj_from(i: int, t: int, rows: int, cols: int)
    requires
        0 <= i < rows,
        0 < cols,
        i * cols <= t < rows * cols,
    ensures
        exists|a: int, b: int| #![trigger a * cols + b] 0 <= a < rows && 0 <= b < cols && t == a
            * cols + b,
    decreases rows - i,
{
    assert((i + 1) * cols == i * cols + cols) by (nonlinear_arith);
    if t < (i + 1) * cols {
        let b = t - i * cols;
        assert(0 <= i < rows && 0 <= b < cols && t == i * cols + b);
    } else {
        if i + 1 == rows {
            assert(false);
        }
        lemma_rm_offset_surj_from(i + 1, t, rows, cols);
    }
}

/// Every offset inside a `rows x cols` buffer is the row-major offset of
/// exactly one coordinate.
pub proof fn lemma_rm_offset_surjective(t: int, rows: int, cols: int)
    requires
        0 < rows,
        0 < cols,
        0 <= t < rows * cols,
    ensures
        exists|a: int, b: int| #![trigger a * cols + b] 0 <= a < rows && 0 <= b < cols && t == a
            * cols + b,
{
    assert(0 * cols == 0) by (nonlinear_arith);
    lemma_rm_offset_surj_from(0, t, rows, cols);
}

impl Matrix {
    /// The number of rows.
    pub closed spec fn rows(&self) -> int {
        self.num_rows as int
    }

    /// The number of columns.
    pub closed spec fn cols(&self) -> int {
        self.num_cols as int
    }

    /// The layout invariant: both dimensions are positive and the flat buffer
    /// holds exactly `rows * cols` elements.
    pub open spec fn wf(&self) -> bool {
        &&& self@.len() == self.rows() * self.cols()
        &&& self.rows() > 0
        &&& self.cols() > 0
    }

    /// The element at logical coordinate `(i, j)`.
    pub open spec fn at(&self, i: int, j: int) -> i64
        recommends
            0 <= i < self.rows(),
            0 <= j < self.cols(),
    {
        self@[i * self.cols() + j]
    }

    /// Both dimensions agree with those of `other`.
    pub open spec fn same_dims(&self, other: &Matrix) -> bool {
        self.rows() == other.rows() && self.cols() == other.cols()
    }

    /// Builds a matrix directly from a flat row-major buffer whose length is
    /// known to match the dimensions.
    pub(crate) fn from_raw(dat: Vec<i64>, num_rows: usize, num_cols: usize) -> (r: Matrix)
        requires
            dat@.len() == num_rows as int * num_cols as int,
            num_rows > 0,
            num_cols > 0,
        ensures
            r.wf(),
            r@ == dat@,
            r.rows() == num_rows,
            r.cols() == num_cols,
    {
        Matrix { my_dat: dat, num_rows, num_cols }
    }

    /// The length of the flat backing buffer, which bounds `rows * cols` by
    /// what a `usize` can hold.
    pub(crate) fn data_len(&self) -> (r: usize)
        ensures
            r == self@.len(),
    {
        self.my_dat.len()
    }

    /// Reads the element at `(i, j)` without a bounds test; callers must have
    /// established the bounds.
    pub(crate) fn at_unchecked(&self, i: usize, j: usize) -> (r: i64)
        requires
            self.wf(),
            i < self.rows(),
            j < self.cols(),
        ensures
            r == self.at(i as int, j as int),
    {
        // Binding the buffer length tells the verifier that `rows * cols`,
        // and so the offset below, fits in a `usize`.
        let _n = self.my_dat.len();
        proof {
            lemma_rm_offset_bounds(i as int, j as int, self.rows(), self.cols());
        }
        self.my_dat[i * self.num_cols + j]
    }

    /// Initialization method to create a matrix from a vector of row vectors.
    /// Faults unless the input has at least one row, at least one column, and
    /// rows of consistent length.
    pub fn new(contents: Vec<Vec<i64>>) -> (r: Result<Matrix, MatError>)
        ensures
            !rect_nonempty(contents@) ==> r == Err::<Matrix, MatError>(MatError::DimensionInvalid),
            rect_nonempty(contents@) ==> (r matches Ok(m) && m.wf() && m.rows() == contents@.len()
                && m.cols() == contents@[0]@.len() && forall|i: int, j: int|
                0 <= i < contents@.len() && 0 <= j < contents@[0]@.len() ==> m.at(i, j)
                    == contents@[i]@[j]),
    {
        let num_rows = contents.len();
        if num_rows == 0 {
            return Err(MatError::DimensionInvalid);
        }
        let num_cols = contents[0].len();
        if num_cols == 0 {
            return Err(MatError::DimensionInvalid);
        }
        let mut r: usize = 0;
        while r < num_rows
            invariant
                r <= num_rows,
                num_rows == contents@.len(),
                num_cols == contents@[0]@.len(),
                forall|a: int| 0 <= a < r ==> #[trigger] contents@[a]@.len() == num_cols,
            decreases num_rows - r,
        {
            if contents[r].len() != num_cols {
                return Err(MatError::DimensionInvalid);
            }
            r = r + 1;
        }
        let mut flat: Vec<i64> = Vec::new();
        let mut i: usize = 0;
        while i < num_rows
            invariant
                i <= num_rows,
                num_rows == contents@.len(),
                num_cols == contents@[0]@.len(),
                num_cols > 0,
                forall|a: int| 0 <= a < num_rows ==> #[trigger] contents@[a]@.len() == num_cols,
                flat@.len() == i * num_cols,
                forall|a: int, b: int|
                    0 <= a < i && 0 <= b < num_cols ==> #[trigger] flat@[a * num_cols + b]
                        == contents@[a]@[b],
            decreases num_rows - i,
        {
            let mut j: usize = 0;
            while j < num_cols
                invariant
                    j <= num_cols,
                    i < num_rows,
                    num_rows == contents@.len(),
                    num_cols == contents@[0]@.len(),
                    forall|a: int| 0 <= a < num_rows ==> #[trigger] contents@[a]@.len() == num_cols,
                    flat@.len() == i * num_cols + j,
                    forall|a: int, b: int|
                        0 <= a < i && 0 <= b < num_cols ==> #[trigger] flat@[a * num_cols + b]
                            == contents@[a]@[b],
                    forall|b: int| 0 <= b < j ==> #[trigger] flat@[i * num_cols + b]
                        == contents@[i as int]@[b],
                decreases num_cols - j,
            {
                proof {
                    lemma_rm_offset_bounds(i as int, j as int, i as int + 1, num_cols as int);
                    assert forall|a: int, b: int| 0 <= a < i && 0 <= b < num_cols implies #[trigger] (
                    a * num_cols + b) < i * num_cols + j by {
                        lemma_rm_offset_bounds(a, b, i as int, num_cols as int);
                    }
                }
                flat.push(contents[i][j]);
                j = j + 1;
            }
            proof {
                assert((i + 1) * num_cols == i * num_cols + num_cols) by (nonlinear_arith);
                assert forall|a: int, b: int| 0 <= a < i + 1 && 0 <= b < num_cols implies #[trigger] flat@[a
                    * num_cols + b] == contents@[a]@[b] by {
                    if a < i {
                        lemma_rm_offset_bounds(a, b, i as int, num_cols as int);
                    }
                }
            }
            i = i + 1;
        }
        Ok(Matrix { my_dat: flat, num_rows, num_cols })
    }

    /// Creates a new matrix filled with a given value, with given dimensions.
    /// Faults when either dimension is zero.
    pub fn new_filled(value: i64, num_rows: usize, num_cols: usize) -> (r: Result<
        Matrix,
        MatError,
    >)
        requires
            num_rows * num_cols <= usize::MAX,
        ensures
            num_rows == 0 || num_cols == 0 ==> r == Err::<Matrix, MatError>(
                MatError::DimensionInvalid,
            ),
            num_rows > 0 && num_cols > 0 ==> (r matches Ok(m) && m.wf() && m.rows() == num_rows
                && m.cols() == num_cols && forall|i: int, j: int|
                0 <= i < num_rows && 0 <= j < num_cols ==> m.at(i, j) == value),
    {
        if num_rows == 0 || num_cols == 0 {
            return Err(MatError::DimensionInvalid);
        }
        let n = num_rows * num_cols;
        let mut flat: Vec<i64> = Vec::new();
        let mut k: usize = 0;
        while k < n
            invariant
                k <= n,
                flat@.len() == k,
                forall|t: int| 0 <= t < k ==> flat@[t] == value,
            decreases n - k,
        {
            flat.push(value);
            k = k + 1;
        }
        let m = Matrix { my_dat: flat, num_rows, num_cols };
        proof {
            assert forall|i: int, j: int| 0 <= i < num_rows && 0 <= j < num_cols implies m.at(i, j)
                == value by {
                lemma_rm_offset_bounds(i, j, num_rows as int, num_cols as int);
            }
        }
        Ok(m)
    }

    /// Creates a new matrix from a flat row-major vector with the given
    /// dimensions. Faults when either dimension is zero or when the vector's
    /// length is not exactly `num_rows * num_cols`.
    pub fn new_from_vec(contents: Vec<i64>, num_rows: usize, num_cols: usize) -> (r: Result<
        Matrix,
        MatError,
    >)
        ensures
            num_rows == 0 || num_cols == 0 || contents@.len() != num_rows as int
                * num_cols as int ==> r == Err::<Matrix, MatError>(MatError::DimensionInvalid),
            num_rows > 0 && num_cols > 0 && contents@.len() == num_rows as int
                * num_cols as int ==> (r matches Ok(m) && m.wf() && m.rows() == num_rows && m.cols()
                == num_cols && m@ == contents@),
    {
        if num_rows == 0 || num_cols == 0 {
            return Err(MatError::DimensionInvalid);
        }
        let clen = contents.len();
        let expected = match num_rows.checked_mul(num_cols) {
            Some(p) => p,
            None => {
                proof {
                    assert(contents@.len() <= usize::MAX < num_rows as int * num_cols as int);
                }
                return Err(MatError::DimensionInvalid);
            },
        };
        if clen != expected {
            return Err(MatError::DimensionInvalid);
        }
        Ok(Matrix { my_dat: contents, num_rows, num_cols })
    }

    /// Returns true if-and-only-if the matrix is square.
    pub fn is_square(&self) -> (r: bool)
        ensures
            r == (self.rows() == self.cols()),
    {
        self.num_rows == self.num_cols
    }

    /// Gets the value at the matrix's index coordinates; an index at or
    /// beyond either dimension faults.
    pub fn get(&self, i: usize, j: usize) -> (r: Result<i64, MatError>)
        requires
            self.wf(),
        ensures
            i < self.rows() && j < self.cols() ==> r == Ok::<i64, MatError>(
                self.at(i as int, j as int),
            ),
            i >= self.rows() || j >= self.cols() ==> r == Err::<i64, MatError>(
                MatError::IndexOutOfBounds,
            ),
    {
        if i >= self.num_rows || j >= self.num_cols {
            return Err(MatError::IndexOutOfBounds);
        }
        Ok(self.at_unchecked(i, j))
    }

    /// Sets the value at the matrix's index coordinates; an index at or
    /// beyond either dimension faults and leaves the matrix unchanged.
    pub fn set(&mut self, i: usize, j: usize, val: i64) -> (r: Result<(), MatError>)
        requires
            old(self).wf(),
        ensures
            final(self).wf(),
            final(self).rows() == old(self).rows(),
            final(self).cols() == old(self).cols(),
            i < old(self).rows() && j < old(self).cols() ==> r == Ok::<(), MatError>(()) && final(
                self)@ == old(self)@.update(i as int * old(self).cols() + j, val) && final(self).at(
                i as int,
                j as int,
            ) == val && forall|a: int, b: int|
                0 <= a < old(self).rows() && 0 <= b < old(self).cols() && (a != i || b != j)
                    ==> final(self).at(a, b) == old(self).at(a, b),
            i >= old(self).rows() || j >= old(self).cols() ==> r == Err::<(), MatError>(
                MatError::IndexOutOfBounds,
            ) && *final(self) == *old(self),
    {
        if i >= self.num_rows || j >= self.num_cols {
            return Err(MatError::IndexOutOfBounds);
        }
        // Binding the buffer length tells the verifier that `rows * cols`,
        // and so the offset below, fits in a `usize`.
        let _n = self.my_dat.len();
        proof {
            lemma_rm_offset_bounds(i as int, j as int, self.rows(), self.cols());
        }
        self.my_dat[i * self.num_cols + j] = val;
        proof {
            assert forall|a: int, b: int|
                0 <= a < self.rows() && 0 <= b < self.cols() && (a != i || b != j) implies self.at(
                a,
                b,
            ) == old(self).at(a, b) by {
                lemma_rm_offset_bounds(a, b, self.rows(), self.cols());
                lemma_rm_offset_injective(a, b, i as int, j as int, self.cols());
            }
        }
        Ok(())
    }

    /// Gets the dimensions of the matrix as a two-tuple `(num_rows,
    /// num_cols)`.
    pub fn get_dims(&self) -> (r: (usize, usize))
        ensures
            r.0 == self.rows(),
            r.1 == self.cols(),
    {
        (self.num_rows, self.num_cols)
    }

    /// Transposes a matrix by 'rotating' it by its diagonal; handles
    /// non-square matrices by swapping the dimensions.
    pub fn transpose(&self) -> (r: Matrix)
        requires
            self.wf(),
        ensures
            r.wf(),
            transpose_of(&r, self),
    {
        let new_rows = self.num_cols;
        let new_cols = self.num_rows;
        let mut flat: Vec<i64> = Vec::new();
        let mut i: usize = 0;
        while i < new_rows
            invariant
                i <= new_rows,
                self.wf(),
                new_rows == self.cols(),
                new_cols == self.rows(),
                flat@.len() == i * new_cols,
                forall|a: int, b: int|
                    0 <= a < i && 0 <= b < new_cols ==> #[trigger] flat@[a * new_cols + b]
                        == self.at(b, a),
            decreases new_rows - i,
        {
            let mut j: usize = 0;
            while j < new_cols
                invariant
                    j <= new_cols,
                    i < new_rows,
                    self.wf(),
                    new_rows == self.cols(),
                    new_cols == self.rows(),
                    flat@.len() == i * new_cols + j,
                    forall|a: int, b: int|
                        0 <= a < i && 0 <= b < new_cols ==> #[trigger] flat@[a * new_cols + b]
                            == self.at(b, a),
                    forall|b: int| 0 <= b < j ==> #[trigger] flat@[i * new_cols + b] == self.at(
                        b,
                        i as int,
                    ),
                decreases new_cols - j,
            {
                proof {
                    lemma_rm_offset_bounds(i as int, j as int, i as int + 1, new_cols as int);
                    assert forall|a: int, b: int| 0 <= a < i && 0 <= b < new_cols implies #[trigger] (
                    a * new_cols + b) < i * new_cols + j by {
                        lemma_rm_offset_bounds(a, b, i as int, new_cols as int);
                    }
                }
                flat.push(self.at_unchecked(j, i));
                j = j + 1;
            }
            proof {
                assert((i + 1) * new_cols == i * new_cols + new_cols) by (nonlinear_arith);
            }
            i = i + 1;
        }
        Matrix::from_raw(flat, new_rows, new_cols)
    }

    /// Overwrites every entry strictly above the main diagonal with the given
    /// "zero" value; faults on a non-square matrix.
    pub fn zero_trigonal_upper(&mut self, zero_val: i64) -> (r: Result<(), MatError>)
        requires
            old(self).wf(),
        ensures
            old(self).rows() != old(self).cols() ==> r == Err::<(), MatError>(MatError::NotSquare)
                && *final(self) == *old(self),
            old(self).rows() == old(self).cols() ==> r == Ok::<(), MatError>(()) && final(self).wf() && final(self).rows() == old(self).rows() && final(self).cols() == old(self).cols() && forall|a: int, b: int|
                0 <= a < old(self).rows() && 0 <= b < old(self).cols() ==> final(self).at(a, b) == (
                if a < b {
                    zero_val
                } else {
                    old(self).at(a, b)
                }),
    {
        if self.num_rows != self.num_cols {
            return Err(MatError::NotSquare);
        }
        let n = self.num_rows;
        let mut i: usize = 0;
        while i < n
            invariant
                i <= n,
                self.wf(),
                n == self.rows(),
                n == self.cols(),
                forall|a: int, b: int|
                    0 <= a < n && 0 <= b < n ==> #[trigger] self.at(a, b) == (if a < b && a < i {
                        zero_val
                    } else {
                        old(self).at(a, b)
                    }),
            decreases n - i,
        {
            let mut j: usize = i + 1;
            while j < n
                invariant
                    i < j <= n || (i + 1 == j && j == n) || (i + 1 > n && j == i + 1),
                    i < n,
                    self.wf(),
                    n == self.rows(),
                    n == self.cols(),
                    forall|a: int, b: int|
                        0 <= a < n && 0 <= b < n ==> #[trigger] self.at(a, b) == (if a < b && (a < i
                            || (a == i && b < j)) {
                            zero_val
                        } else {
                            old(self).at(a, b)
                        }),
                decreases n - j,
            {
                let _ = self.set(i, j, zero_val);
                j = j + 1;
            }
            i = i + 1;
        }
        Ok(())
    }

    /// Overwrites every entry strictly below the main diagonal with the given
    /// "zero" value; faults on a non-square matrix. Entries above the
    /// diagonal and on the diagonal are unchanged.
    pub fn zero_trigonal_lower(&mut self, zero_val: i64) -> (r: Result<(), MatError>)
        requires
            old(self).wf(),
        ensures
            old(self).rows() != old(self).cols() ==> r == Err::<(), MatError>(MatError::NotSquare)
                && *final(self) == *old(self),
            old(self).rows() == old(self).cols() ==> r == Ok::<(), MatError>(()) && final(self).wf() && final(self).rows() == old(self).rows() && final(self).cols() == old(self).cols() && forall|a: int, b: int|
                0 <= a < old(self).rows() && 0 <= b < old(self).cols() ==> final(self).at(a, b) == (
                if a > b {
                    zero_val
                } else {
                    old(self).at(a, b)
                }),
    {
        if self.num_rows != self.num_cols {
            return Err(MatError::NotSquare);
        }
        let n = self.num_rows;
        let mut i: usize = 0;
        while i < n
            invariant
                i <= n,
                self.wf(),
                n == self.rows(),
                n == self.cols(),
                forall|a: int, b: int|
                    0 <= a < n && 0 <= b < n ==> #[trigger] self.at(a, b) == (if a > b && a < i {
                        zero_val
                    } else {
                        old(self).at(a, b)
                    }),
            decreases n - i,
        {
            let mut j: usize = 0;
            while j < i
                invariant
                    j <= i,
                    i < n,
                    self.wf(),
                    n == self.rows(),
                    n == self.cols(),
                    forall|a: int, b: int|
                        0 <= a < n && 0 <= b < n ==> #[trigger] self.at(a, b) == (if a > b && (a < i
                            || (a == i && b < j)) {
                            zero_val
                        } else {
                            old(self).at(a, b)
                        }),
                decreases i - j,
            {
                let _ = self.set(i, j, zero_val);
                j = j + 1;
            }
            i = i + 1;
        }
        Ok(())
    }

    /// Element-wise addition; faults when the dimensions differ.
    pub fn add(self, other: Matrix) -> (r: Result<Matrix, MatError>)
        requires
            self.wf(),
            other.wf(),
            self.same_dims(&other) ==> add_in_range(self@, other@),
        ensures
            !self.same_dims(&other) ==> r == Err::<Matrix, MatError>(MatError::ShapeMismatch),
            self.same_dims(&other) ==> (r matches Ok(c) && c.wf() && c.rows() == self.rows()
                && c.cols() == self.cols() && c@ =~= seq_add(self@, other@) && forall|i: int, j: int|
                0 <= i < self.rows() && 0 <= j < self.cols() ==> c.at(i, j) == (self.at(i, j)
                    + other.at(i, j)) as i64),
    {
        if self.num_rows != other.num_rows || self.num_cols != other.num_cols {
            return Err(MatError::ShapeMismatch);
        }
        let n = self.my_dat.len();
        let mut v: Vec<i64> = Vec::new();
        let mut k: usize = 0;
        while k < n
            invariant
                k <= n,
                n == self@.len(),
                n == other@.len(),
                add_in_range(self@, other@),
                v@.len() == k,
                forall|t: int| 0 <= t < k ==> v@[t] == seq_add(self@, other@)[t],
            decreases n - k,
        {
            v.push(self.my_dat[k] + other.my_dat[k]);
            k = k + 1;
        }
        let c = Matrix { my_dat: v, num_rows: self.num_rows, num_cols: self.num_cols };
        proof {
            assert forall|i: int, j: int|
                0 <= i < self.rows() && 0 <= j < self.cols() implies c.at(i, j) == (self.at(i, j)
                + other.at(i, j)) as i64 by {
                lemma_rm_offset_bounds(i, j, self.rows(), self.cols());
            }
        }
        Ok(c)
    }

    /// Element-wise subtraction; faults when the dimensions differ.
    pub fn sub(self, other: Matrix) -> (r: Result<Matrix, MatError>)
        requires
            self.wf(),
            other.wf(),
            self.same_dims(&other) ==> sub_in_range(self@, other@),
        ensures
            !self.same_dims(&other) ==> r == Err::<Matrix, MatError>(MatError::ShapeMismatch),
            self.same_dims(&other) ==> (r matches Ok(c) && c.wf() && c.rows() == self.rows()
                && c.cols() == self.cols() && c@ =~= seq_sub(self@, other@) && forall|i: int, j: int|
                0 <= i < self.rows() && 0 <= j < self.cols() ==> c.at(i, j) == (self.at(i, j)
                    - other.at(i, j)) as i64),
    {
        if self.num_rows != other.num_rows || self.num_cols != other.num_cols {
            return Err(MatError::ShapeMismatch);
        }
        let n = self.my_dat.len();
        let mut v: Vec<i64> = Vec::new();
        let mut k: usize = 0;
        while k < n
            invariant
                k <= n,
                n == self@.len(),
                n == other@.len(),
                sub_in_range(self@, other@),
                v@.len() == k,
                forall|t: int| 0 <= t < k ==> v@[t] == seq_sub(self@, other@)[t],
            decreases n - k,
        {
            v.push(self.my_dat[k] - other.my_dat[k]);
            k = k + 1;
        }
        let c = Matrix { my_dat: v, num_rows: self.num_rows, num_cols: self.num_cols };
        proof {
            assert forall|i: int, j: int|
                0 <= i < self.rows() && 0 <= j < self.cols() implies c.at(i, j) == (self.at(i, j)
                - other.at(i, j)) as i64 by {
                lemma_rm_offset_bounds(i, j, self.rows(), self.cols());
            }
        }
        Ok(c)
    }

    /// Shape-checked equality. Faults when the dimensions differ, so the
    /// comparison is partial: callers must pre-validate shape.
    pub fn eq(&self, other: &Matrix) -> (r: Result<bool, MatError>)
        requires
            self.wf(),
            other.wf(),
        ensures
            !self.same_dims(other) ==> r == Err::<bool, MatError>(MatError::ShapeMismatch),
            self.same_dims(other) ==> (r matches Ok(b) && (b <==> self@ =~= other@) && (b
                <==> forall|i: int, j: int|
                0 <= i < self.rows() && 0 <= j < self.cols() ==> self.at(i, j) == other.at(i, j))),
    {
        if self.num_rows != other.num_rows || self.num_cols != other.num_cols {
            return Err(MatError::ShapeMismatch);
        }
        let n = self.my_dat.len();
        let mut k: usize = 0;
        while k < n
            invariant
                k <= n,
                n == self@.len(),
                n == other@.len(),
                self.wf(),
                other.wf(),
                self.same_dims(other),
                forall|t: int| 0 <= t < k ==> self@[t] == other@[t],
            decreases n - k,
        {
            if self.my_dat[k] != other.my_dat[k] {
                proof {
                    lemma_rm_offset_surjective(k as int, self.rows(), self.cols());
                    let (a, b) = choose|a: int, b: int|
                        #![trigger a * self.cols() + b]
                        0 <= a < self.rows() && 0 <= b < self.cols() && k as int == a * self.cols()
                            + b;
                    assert(self.at(a, b) != other.at(a, b));
                }
                return Ok(false);
            }
            k = k + 1;
        }
        proof {
            assert forall|i: int, j: int|
                0 <= i < self.rows() && 0 <= j < self.cols() implies self.at(i, j) == other.at(
                i,
                j,
            ) by {
                lemma_rm_offset_bounds(i, j, self.rows(), self.cols());
            }
        }
        Ok(true)
    }
}

/// The sum of the first `k` terms of the product entry at `(i, j)`:
/// `a[(i, 0)] * b[(0, j)] + ... + a[(i, k-1)] * b[(k-1, j)]`, as a
/// mathematical integer.
pub open spec fn mm_entry_prefix(a: &Matrix, b: &Matrix, i: int, j: int, k: int) -> int
    decreases k,
{
    if k <= 0 {
        0
    } else {
        mm_entry_prefix(a, b, i, j, k - 1) + a.at(i, k - 1) * b.at(k - 1, j)
    }
}

/// The entry at `(i, j)` of the matrix product `a * b`:
/// `sum over k of a[(i, k)] * b[(k, j)]`, as a mathematical integer.
pub open spec fn mm_entry(a: &Matrix, b: &Matrix, i: int, j: int) -> int {
    mm_entry_prefix(a, b, i, j, a.cols())
}

/// Every term and every left-to-right partial sum of every entry of the
/// product `a * b` fits in an `i64`.
pub open spec fn mm_in_range(a: &Matrix, b: &Matrix) -> bool {
    &&& forall|i: int, j: int, k: int|
        #![trigger a.at(i, k), b.at(k, j)]
        0 <= i < a.rows() && 0 <= j < b.cols() && 0 <= k < a.cols() ==> i64::MIN <= a.at(i, k)
            * b.at(k, j) <= i64::MAX
    &&& forall|i: int, j: int, k: int|
        0 <= i < a.rows() && 0 <= j < b.cols() && 1 <= k <= a.cols() ==> i64::MIN
            <= #[trigger] mm_entry_prefix(a, b, i, j, k) <= i64::MAX
}

impl Matrix {
    /// Generic matrix product by triple-nested accumulation:
    /// `result[(i, j)] = sum over k of self[(i, k)] * other[(k, j)]`.
    /// Faults when the inner dimensions differ. The contraction axis is never
    /// empty: a matrix with a zero dimension cannot be constructed.
    pub fn mul(self, other: Matrix) -> (r: Result<Matrix, MatError>)
        requires
            self.wf(),
            other.wf(),
            self.cols() == other.rows() ==> mm_in_range(&self, &other),
        ensures
            self.cols() != other.rows() ==> r == Err::<Matrix, MatError>(MatError::ShapeMismatch),
            self.cols() == other.rows() ==> (r matches Ok(c) && c.wf() && c.rows() == self.rows()
                && c.cols() == other.cols() && forall|i: int, j: int|
                0 <= i < self.rows() && 0 <= j < other.cols() ==> c.at(i, j) == mm_entry(
                    &self,
                    &other,
                    i,
                    j,
                )),
    {
        if self.num_cols != other.num_rows {
            return Err(MatError::ShapeMismatch);
        }
        let n = self.num_rows;
        let m = self.num_cols;
        let p = other.num_cols;
        let mut flat: Vec<i64> = Vec::new();
        let mut i: usize = 0;
        while i < n
            invariant
                i <= n,
                self.wf(),
                other.wf(),
                self.cols() == other.rows(),
                mm_in_range(&self, &other),
                n == self.rows(),
                m == self.cols(),
                p == other.cols(),
                flat@.len() == i * p,
                forall|a: int, b: int|
                    0 <= a < i && 0 <= b < p ==> #[trigger] flat@[a * p + b] == mm_entry(
                        &self,
                        &other,
                        a,
                        b,
                    ),
            decreases n - i,
        {
            let mut j: usize = 0;
            while j < p
                invariant
                    j <= p,
                    i < n,
                    self.wf(),
                    other.wf(),
                    self.cols() == other.rows(),
                    mm_in_range(&self, &other),
                    n == self.rows(),
                    m == self.cols(),
                    p == other.cols(),
                    flat@.len() == i * p + j,
                    forall|a: int, b: int|
                        0 <= a < i && 0 <= b < p ==> #[trigger] flat@[a * p + b] == mm_entry(
                            &self,
                            &other,
                            a,
                            b,
                        ),
                    forall|b: int| 0 <= b < j ==> #[trigger] flat@[i * p + b] == mm_entry(
                        &self,
                        &other,
                        i as int,
                        b,
                    ),
                decreases p - j,
            {
                proof {
                    reveal_with_fuel(mm_entry_prefix, 2);
                    assert(mm_entry_prefix(&self, &other, i as int, j as int, 1) == self.at(
                        i as int,
                        0,
                    ) * other.at(0, j as int));
                }
                let mut acc: i64 = self.at_unchecked(i, 0) * other.at_unchecked(0, j);
                let mut k: usize = 1;
                while k < m
                    invariant
                        1 <= k <= m,
                        i < n,
                        j < p,
                        self.wf(),
                        other.wf(),
                        self.cols() == other.rows(),
                        mm_in_range(&self, &other),
                        n == self.rows(),
                        m == self.cols(),
                        p == other.cols(),
                        acc == mm_entry_prefix(&self, &other, i as int, j as int, k as int),
                    decreases m - k,
                {
                    proof {
                        assert(mm_entry_prefix(&self, &other, i as int, j as int, k + 1)
                            == mm_entry_prefix(&self, &other, i as int, j as int, k as int)
                            + self.at(i as int, k as int) * other.at(k as int, j as int));
                    }
                    acc = acc + self.at_unchecked(i, k) * other.at_unchecked(k, j);
                    k = k + 1;
                }
                proof {
                    lemma_rm_offset_bounds(i as int, j as int, i as int + 1, p as int);
                    assert forall|a: int, b: int| 0 <= a < i && 0 <= b < p implies #[trigger] (a * p
                        + b) < i * p + j by {
                        lemma_rm_offset_bounds(a, b, i as int, p as int);
                    }
                }
                flat.push(acc);
                j = j + 1;
            }
            proof {
                assert((i + 1) * p == i * p + p) by (nonlinear_arith);
            }
            i = i + 1;
        }
        let c = Matrix::from_raw(flat, n, p);
        Ok(c)
    }
}

/// `t` is the transpose of `m`: the dimensions are swapped and the element at
/// `(j, i)` of `t` is the element at `(i, j)` of `m`.
pub open spec fn transpose_of(t: &Matrix, m: &Matrix) -> bool {
    &&& t.rows() == m.cols()
    &&& t.cols() == m.rows()
    &&& forall|i: int, j: int|
        0 <= i < m.rows() && 0 <= j < m.cols() ==> #[trigger] t.at(j, i) == m.at(i, j)
}

/// For all matrices, transposing twice restores the original: a matrix `c`
/// obtained by transposing a transpose `b` of `a` has identical dimensions
/// and element values as `a`.
pub proof fn lemma_transpose_involution(a: &Matrix, b: &Matrix, c: &Matrix)
    requires
        a.wf(),
        transpose_of(b, a),
        transpose_of(c, b),
    ensures
        c.rows() == a.rows(),
        c.cols() == a.cols(),
        forall|i: int, j: int|
            0 <= i < a.rows() && 0 <= j < a.cols() ==> #[trigger] c.at(i, j) == a.at(i, j),
{
    assert forall|i: int, j: int|
        0 <= i < a.rows() && 0 <= j < a.cols() implies #[trigger] c.at(i, j) == a.at(i, j) by {
        assert(c.at(i, j) == b.at(j, i));
        assert(b.at(j, i) == a.at(i, j));
    }
}

} // verus!
