//! A non-sparse symmetric matrix in compact storage: one buffer for the
//! diagonal and one for the strictly-upper-triangular entries, so each
//! off-diagonal pair is stored exactly once and the matrix is symmetric by
//! construction.

use vstd::prelude::*;

use crate::common::MatError;
use crate::matrix::lemma_rm_offset_bounds;
use crate::matrix::Matrix;

verus! {

/// The `k`-th triangular number `1 + 2 + ... + k` (0 for `k <= 0`). An
/// `n x n` symmetric matrix stores `tri(n - 1)` strictly-upper entries.
pub open spec fn tri(k: int) -> int
    decreases k,
{
    if k <= 0 {
        0
    } else {
        tri(k - 1) + k
    }
}

/// The closed form of the triangular numbers: `2 * tri(k) == k * (k + 1)`.
pub proof fn lemma_tri_doubled(k: int)
    ensures
        tri(k) >= 0,
        k >= 0 ==> 2 * tri(k) == k * (k + 1),
    decreases k,
{
    if k > 0 {
        lemma_tri_doubled(k - 1);
        assert(2 * tri(k - 1) == (k - 1) * k) by (nonlinear_arith)
            requires
                2 * tri(k - 1) == (k - 1) * ((k - 1) + 1),
        ;
        assert(tri(k) == tri(k - 1) + k);
        assert(2 * tri(k) == (k - 1) * k + 2 * k);
        assert((k - 1) * k + 2 * k == k * (k + 1)) by (nonlinear_arith);
    } else {
        assert(k <= 0 ==> k * (k + 1) >= 0 && (k == 0 ==> k * (k + 1) == 0)) by (nonlinear_arith);
    }
}

/// How many compact entries precede row `i`: rows `0 .. i-1` of an `n x n`
/// matrix hold `n-1, n-2, ..., n-i` strictly-upper entries, which sums to
/// `i*n - i*(i-1)/2 - i`, here written `i*(n-1) - tri(i-1)`.
pub open spec fn row_base(i: int, n: int) -> int {
    i * (n - 1) - tri(i - 1)
}

/// The compact offset of the strictly-upper entry `(i, j)` with `i < j`:
/// entries are ordered first by row, and within a row by increasing column.
pub open spec fn sym_offset(i: int, j: int, n: int) -> int {
    row_base(i, n) + (j - i - 1)
}

/// The compact offset of the off-diagonal entry `(i, j)`, either order of
/// the coordinates giving the same slot.
pub open spec fn sym_index(i: int, j: int, n: int) -> int {
    if i <= j {
        sym_offset(i, j, n)
    } else {
        sym_offset(j, i, n)
    }
}

/// Stepping to the next row adds that row's entry count: `row_base(i+1, n)
/// == row_base(i, n) + (n - 1 - i)`.
pub proof fn lemma_row_base_next(i: int, n: int)
    requires
        0 <= i,
    ensures
        row_base(i + 1, n) == row_base(i, n) + (n - 1 - i),
{
    assert((i + 1) * (n - 1) == i * (n - 1) + (n - 1)) by (nonlinear_arith);
}

/// `row_base` grows with the row index, as long as the rows exist.
pub proof fn lemma_row_base_mono(i1: int, i2: int, n: int)
    requires
        0 <= i1 <= i2 <= n,
    ensures
        row_base(i1, n) <= row_base(i2, n),
    decreases i2 - i1,
{
    if i1 < i2 {
        lemma_row_base_mono(i1, i2 - 1, n);
        lemma_row_base_next(i2 - 1, n);
    }
}

/// All `n` rows together hold all `tri(n - 1)` compact entries.
pub proof fn lemma_row_base_total(n: int)
    requires
        n >= 1,
    ensures
        row_base(n, n) == tri(n - 1),
{
    lemma_tri_doubled(n - 1);
    assert(n * (n - 1) - tri(n - 1) == tri(n - 1)) by {
        assert(2 * tri(n - 1) == (n - 1) * n);
        assert(n * (n - 1) == (n - 1) * n) by (nonlinear_arith);
    }
}

/// The compact offset of every strictly-upper entry lies inside the compact
/// buffer.
pub proof fn lemma_sym_offset_bounds(i: int, j: int, n: int)
    requires
        0 <= i < j < n,
    ensures
        0 <= sym_offset(i, j, n) < tri(n - 1),
{
    lemma_row_base_mono(0, i, n);
    lemma_row_base_next(i, n);
    lemma_row_base_mono(i + 1, n, n);
    lemma_row_base_total(n);
}

/// Distinct strictly-upper coordinates have distinct compact offsets.
pub proof fn lemma_sym_offset_injective(i1: int, j1: int, i2: int, j2: int, n: int)
    requires
        0 <= i1 < j1 < n,
        0 <= i2 < j2 < n,
        i1 != i2 || j1 != j2,
    ensures
        sym_offset(i1, j1, n) != sym_offset(i2, j2, n),
{
    if i1 == i2 {
    } else if i1 < i2 {
        lemma_row_base_next(i1, n);
        lemma_row_base_mono(i1 + 1, i2, n);
    } else {
        lemma_row_base_next(i2, n);
        lemma_row_base_mono(i2 + 1, i1, n);
    }
}

/// Every slot of the compact buffer is the offset of some strictly-upper
/// coordinate, searching from row `i` on.
proof fn lemma_sym_offset_surj_from(i: int, t: int, n: int)
    requires
        0 <= i < n - 1,
        row_base(i, n) <= t < tri(n - 1),
    ensures
        exists|a: int, b: int|
            #![trigger sym_offset(a, b, n)]
            0 <= a < b < n && sym_offset(a, b, n) == t,
    decreases n - i,
{
    lemma_row_base_next(i, n);
    if t < row_base(i + 1, n) {
        let b = t - row_base(i, n) + i + 1;
        assert(0 <= i < b < n && sym_offset(i, b, n) == t);
    } else {
        if i + 1 == n - 1 {
            lemma_row_base_next(n - 1, n);
            lemma_row_base_total(n);
            assert(false);
        }
        lemma_sym_offset_surj_from(i + 1, t, n);
    }
}

/// Every slot of the compact buffer is the offset of exactly one
/// strictly-upper coordinate: the inverse of the index mapping exists.
pub proof fn lemma_sym_offset_surjective(t: int, n: int)
    requires
        n >= 2,
        0 <= t < tri(n - 1),
    ensures
        exists|a: int, b: int|
            #![trigger sym_offset(a, b, n)]
            0 <= a < b < n && sym_offset(a, b, n) == t,
{
    assert(row_base(0, n) == 0) by {
        assert(0 * (n - 1) == 0) by (nonlinear_arith);
    }
    lemma_sym_offset_surj_from(0, t, n);
}

/// Non-sparse symmetric matrix in compact storage. Always square.
#[derive(Debug, Clone)]
pub struct SymMat {
    diag: Vec<i64>,
    my_dat: Vec<i64>,
    dims: usize,
}

/// Every diagonal entry of `s` is `d` and every off-diagonal entry is `f`.
pub open spec fn is_diag_fill(s: &SymMat, d: i64, f: i64) -> bool {
    &&& forall|i: int| 0 <= i < s.dims() ==> #[trigger] s.sym_at(i, i) == d
    &&& forall|i: int, j: int|
        0 <= i < s.dims() && 0 <= j < s.dims() && i != j ==> #[trigger] s.sym_at(i, j) == f
}

impl SymMat {
    /// The dimension of the (square) matrix.
    pub closed spec fn dims(&self) -> int {
        self.dims as int
    }

    /// The diagonal entries, in order.
    pub closed spec fn diag_seq(&self) -> Seq<i64> {
        self.diag@
    }

    /// The strictly-upper-triangular entries, ordered first by row and
    /// within a row by increasing column.
    pub closed spec fn compact(&self) -> Seq<i64> {
        self.my_dat@
    }

    /// The layout invariant: the matrix has at least one row, the diagonal
    /// buffer holds one entry per row, the compact buffer holds exactly one
    /// entry per strictly-upper coordinate, and the compact offsets can be
    /// computed in a `usize`.
    pub open spec fn wf(&self) -> bool {
        &&& self.dims() >= 1
        &&& self.diag_seq().len() == self.dims()
        &&& self.compact().len() == tri(self.dims() - 1)
        &&& self.dims() * (self.dims() - 1) <= usize::MAX
    }

    /// The element at coordinate `(i, j)`: a diagonal slot when `i == j`,
    /// otherwise the single stored copy of the `{i, j}` pair.
    pub open spec fn sym_at(&self, i: int, j: int) -> i64
        recommends
            0 <= i < self.dims(),
            0 <= j < self.dims(),
    {
        if i == j {
            self.diag_seq()[i]
        } else {
            self.compact()[sym_index(i, j, self.dims())]
        }
    }

    /// Creates a symmetric matrix with `diag` on the diagonal and `fill`
    /// everywhere else; faults when `dims` is zero.
    pub fn new_diag_with_fill(diag: i64, fill: i64, dims: usize) -> (r: Result<SymMat, MatError>)
        requires
            dims as int * (dims as int - 1) <= usize::MAX,
        ensures
            dims == 0 ==> r == Err::<SymMat, MatError>(MatError::DimensionInvalid),
            dims > 0 ==> (r matches Ok(s) && s.wf() && s.dims() == dims && is_diag_fill(
                &s,
                diag,
                fill,
            )),
    {
        if dims == 0 {
            return Err(MatError::DimensionInvalid);
        }
        let mut dv: Vec<i64> = Vec::new();
        let mut i: usize = 0;
        while i < dims
            invariant
                i <= dims,
                dv@.len() == i,
                forall|k: int| 0 <= k < i ==> dv@[k] == diag,
            decreases dims - i,
        {
            dv.push(diag);
            i = i + 1;
        }
        let mut count: usize = 0;
        proof {
            lemma_tri_doubled(dims as int - 1);
        }
        let mut z: usize = 1;
        while z < dims
            invariant
                1 <= z <= dims,
                dims as int * (dims as int - 1) <= usize::MAX,
                count == tri(z - 1),
                count <= tri(dims as int - 1),
            decreases dims - z,
        {
            proof {
                lemma_tri_mono(z as int, dims as int - 1);
                lemma_tri_doubled(dims as int - 1);
                assert((dims as int - 1) * (dims as int) == dims as int * (dims as int - 1))
                    by (nonlinear_arith);
                assert(tri(z as int) == count + z);
            }
            count = count + z;
            z = z + 1;
        }
        let mut cv: Vec<i64> = Vec::new();
        let mut k: usize = 0;
        while k < count
            invariant
                k <= count,
                cv@.len() == k,
                forall|t: int| 0 <= t < k ==> cv@[t] == fill,
            decreases count - k,
        {
            cv.push(fill);
            k = k + 1;
        }
        let s = SymMat { diag: dv, my_dat: cv, dims };
        proof {
            assert forall|i2: int, j2: int|
                0 <= i2 < s.dims() && 0 <= j2 < s.dims() && i2 != j2 implies #[trigger] s.sym_at(
                i2,
                j2,
            ) == fill by {
                if i2 < j2 {
                    lemma_sym_offset_bounds(i2, j2, s.dims());
                } else {
                    lemma_sym_offset_bounds(j2, i2, s.dims());
                }
            }
        }
        Ok(s)
    }

    /// Creates a new symmetric matrix filled with a given value everywhere;
    /// just the special case of `new_diag_with_fill` where the diagonal and
    /// the fill agree. Faults when `dims` is zero.
    pub fn new_filled(value: i64, dims: usize) -> (r: Result<SymMat, MatError>)
        requires
            dims as int * (dims as int - 1) <= usize::MAX,
        ensures
            dims == 0 ==> r == Err::<SymMat, MatError>(MatError::DimensionInvalid),
            dims > 0 ==> (r matches Ok(s) && s.wf() && s.dims() == dims && is_diag_fill(
                &s,
                value,
                value,
            )),
    {
        SymMat::new_diag_with_fill(value, value, dims)
    }
}

/// Copies the elements of a vector into a fresh one.
fn copy_vec(v: &Vec<i64>) -> (r: Vec<i64>)
    ensures
        r@ =~= v@,
{
    let n = v.len();
    let mut r: Vec<i64> = Vec::new();
    let mut i: usize = 0;
    while i < n
        invariant
            i <= n,
            n == v@.len(),
            r@.len() == i,
            forall|k: int| 0 <= k < i ==> r@[k] == v@[k],
        decreases n - i,
    {
        r.push(v[i]);
        i = i + 1;
    }
    r
}

/// Get the index of an off-diagonal element in the compact buffer of a
/// symmetric matrix, from its coordinates and the matrix's dimension. The
/// coordinates are symmetrized first, so callers may pass either order.
fn get_symmat_index(i: usize, j: usize, n: usize) -> (r: usize)
    requires
        i < n,
        j < n,
        i != j,
        n as int * (n as int - 1) <= usize::MAX,
    ensures
        r == sym_index(i as int, j as int, n as int),
        r < tri(n as int - 1),
{
    let (lo, hi) = if j < i {
        (j, i)
    } else {
        (i, j)
    };
    proof {
        let l = lo as int;
        let m = n as int;
        lemma_sym_offset_bounds(l, hi as int, m);
        assert(row_base(0, m) == 0) by {
            assert(0 * (m - 1) == 0) by (nonlinear_arith);
        }
        lemma_row_base_mono(0, l, m);
        lemma_tri_doubled(l - 1);
        lemma_tri_doubled(m - 1);
        assert(l * l - l == (l - 1) * ((l - 1) + 1)) by (nonlinear_arith);
        if l == 0 {
            assert(tri(l - 1) == 0);
            assert(l * l == 0 && l * (m - 1) == 0) by (nonlinear_arith)
                requires
                    l == 0,
            ;
        }
        assert(2 * tri(l - 1) == l * l - l);
        assert((l * l - l) / 2 == tri(l - 1));
        assert(l * (m - 1) >= tri(l - 1));
        assert(l * l <= m * (m - 1)) by (nonlinear_arith)
            requires
                0 <= l,
                l + 2 <= m,
        ;
        assert(l * (m - 1) <= m * (m - 1)) by (nonlinear_arith)
            requires
                0 <= l <= m,
                m >= 1,
        ;
        assert((m - 1) * m == m * (m - 1)) by (nonlinear_arith);
    }
    let t = (lo * lo - lo) / 2;
    let base = lo * (n - 1) - t;
    base + (hi - lo - 1)
}

impl SymMat {
    /// Gets the value at the matrix's index coordinates; an index at or
    /// beyond the dimension faults.
    pub fn get(&self, i: usize, j: usize) -> (r: Result<i64, MatError>)
        requires
            self.wf(),
        ensures
            i < self.dims() && j < self.dims() ==> r == Ok::<i64, MatError>(
                self.sym_at(i as int, j as int),
            ),
            i >= self.dims() || j >= self.dims() ==> r == Err::<i64, MatError>(
                MatError::IndexOutOfBounds,
            ),
    {
        if i >= self.dims || j >= self.dims {
            return Err(MatError::IndexOutOfBounds);
        }
        if i == j {
            Ok(self.diag[i])
        } else {
            let k = get_symmat_index(i, j, self.dims);
            Ok(self.my_dat[k])
        }
    }

    /// Sets the value at the matrix's index coordinates; because only one
    /// copy of each off-diagonal pair is stored, this updates `(i, j)` and
    /// `(j, i)` at once. An index at or beyond the dimension faults and
    /// leaves the matrix unchanged.
    pub fn set(&mut self, i: usize, j: usize, val: i64) -> (r: Result<(), MatError>)
        requires
            old(self).wf(),
        ensures
            final(self).wf(),
            final(self).dims() == old(self).dims(),
            i < old(self).dims() && j < old(self).dims() ==> r == Ok::<(), MatError>(()) && final(
                self).sym_at(i as int, j as int) == val && final(self).sym_at(j as int, i as int)
                == val && forall|a: int, b: int|
                0 <= a < old(self).dims() && 0 <= b < old(self).dims() && !((a == i && b == j) || (
                a == j && b == i)) ==> final(self).sym_at(a, b) == old(self).sym_at(a, b),
            i >= old(self).dims() || j >= old(self).dims() ==> r == Err::<(), MatError>(
                MatError::IndexOutOfBounds,
            ) && *final(self) == *old(self),
    {
        if i >= self.dims || j >= self.dims {
            return Err(MatError::IndexOutOfBounds);
        }
        if i == j {
            self.diag[i] = val;
            Ok(())
        } else {
            let k = get_symmat_index(i, j, self.dims);
            self.my_dat[k] = val;
            proof {
                let n = self.dims();
                assert forall|a: int, b: int|
                    0 <= a < n && 0 <= b < n && !((a == i && b == j) || (a == j && b == i)) implies
                    #[trigger] self.sym_at(a, b) == old(self).sym_at(a, b) by {
                    if a != b {
                    let lo1 = if a <= b {
                        a
                    } else {
                        b
                    };
                    let hi1 = if a <= b {
                        b
                    } else {
                        a
                    };
                    let lo2 = if i <= j {
                        i as int
                    } else {
                        j as int
                    };
                    let hi2 = if i <= j {
                        j as int
                    } else {
                        i as int
                    };
                        lemma_sym_offset_bounds(lo1, hi1, n);
                        lemma_sym_offset_bounds(lo2, hi2, n);
                        lemma_sym_offset_injective(lo1, hi1, lo2, hi2, n);
                        assert(sym_index(a, b, n) != sym_index(i as int, j as int, n));
                    }
                }
            }
            Ok(())
        }
    }

    /// Gets the dimensions of the matrix as a two-tuple `(num_rows,
    /// num_cols)`; both are the same, the matrix being square.
    pub fn get_dims(&self) -> (r: (usize, usize))
        ensures
            r.0 == self.dims(),
            r.1 == self.dims(),
    {
        (self.dims, self.dims)
    }

    /// The transpose of a symmetric matrix is itself: returns a copy.
    pub fn transpose(&self) -> (r: SymMat)
        requires
            self.wf(),
        ensures
            r.wf(),
            r.dims() == self.dims(),
            r.diag_seq() == self.diag_seq(),
            r.compact() == self.compact(),
            forall|i: int, j: int|
                0 <= i < self.dims() && 0 <= j < self.dims() ==> #[trigger] r.sym_at(i, j)
                    == self.sym_at(i, j),
    {
        SymMat { diag: copy_vec(&self.diag), my_dat: copy_vec(&self.my_dat), dims: self.dims }
    }

    /// Shape-checked equality: the diagonal buffers and the compact buffers
    /// agree element-wise. Faults when the dimensions differ, so the
    /// comparison is partial: callers must pre-validate shape.
    pub fn eq(&self, other: &SymMat) -> (r: Result<bool, MatError>)
        requires
            self.wf(),
            other.wf(),
        ensures
            self.dims() != other.dims() ==> r == Err::<bool, MatError>(MatError::ShapeMismatch),
            self.dims() == other.dims() ==> (r matches Ok(b) && (b <==> (self.diag_seq()
                =~= other.diag_seq() && self.compact() =~= other.compact())) && (b <==> forall|
                i: int,
                j: int,
            |
                0 <= i < self.dims() && 0 <= j < self.dims() ==> self.sym_at(i, j) == other.sym_at(
                    i,
                    j,
                ))),
    {
        if self.dims != other.dims {
            return Err(MatError::ShapeMismatch);
        }
        let n = self.diag.len();
        let mut k: usize = 0;
        while k < n
            invariant
                k <= n,
                n == self.diag_seq().len(),
                self.wf(),
                other.wf(),
                self.dims() == other.dims(),
                forall|t: int| 0 <= t < k ==> self.diag_seq()[t] == other.diag_seq()[t],
            decreases n - k,
        {
            if self.diag[k] != other.diag[k] {
                proof {
                    assert(self.sym_at(k as int, k as int) != other.sym_at(k as int, k as int));
                }
                return Ok(false);
            }
            k = k + 1;
        }
        let m = self.my_dat.len();
        let mut t: usize = 0;
        while t < m
            invariant
                t <= m,
                m == self.compact().len(),
                self.wf(),
                other.wf(),
                self.dims() == other.dims(),
                self.diag_seq() =~= other.diag_seq(),
                forall|u: int| 0 <= u < t ==> self.compact()[u] == other.compact()[u],
            decreases m - t,
        {
            if self.my_dat[t] != other.my_dat[t] {
                proof {
                    let d = self.dims();
                    assert(tri(0) == 0);
                    lemma_tri_mono(0, d - 1);
                    assert(d >= 2);
                    lemma_sym_offset_surjective(t as int, d);
                    let (a, b) = choose|a: int, b: int|
                        #![trigger sym_offset(a, b, d)]
                        0 <= a < b < d && sym_offset(a, b, d) == t as int;
                    assert(self.sym_at(a, b) != other.sym_at(a, b));
                }
                return Ok(false);
            }
            t = t + 1;
        }
        proof {
            assert forall|i: int, j: int|
                0 <= i < self.dims() && 0 <= j < self.dims() implies self.sym_at(i, j)
                == other.sym_at(i, j) by {
                if i < j {
                    lemma_sym_offset_bounds(i, j, self.dims());
                } else if j < i {
                    lemma_sym_offset_bounds(j, i, self.dims());
                }
            }
        }
        Ok(true)
    }
}

/// `m` is the dense materialization of `s`: a square matrix of the same
/// dimension whose every entry `(i, j)` is `s`'s entry `(i, j)`.
pub open spec fn dense_of(s: &SymMat, m: &Matrix) -> bool {
    &&& m.rows() == s.dims()
    &&& m.cols() == s.dims()
    &&& forall|i: int, j: int|
        0 <= i < s.dims() && 0 <= j < s.dims() ==> #[trigger] m.at(i, j) == s.sym_at(i, j)
}

impl SymMat {
    /// Reconstructs a full dense matrix, writing every cell directly from
    /// the diagonal or the single stored copy of its off-diagonal pair, so
    /// no placeholder value can survive into the result.
    pub fn to_mat(&self) -> (m: Matrix)
        requires
            self.wf(),
        ensures
            m.wf(),
            dense_of(self, &m),
    {
        let n = self.dims;
        let mut flat: Vec<i64> = Vec::new();
        let mut i: usize = 0;
        while i < n
            invariant
                i <= n,
                self.wf(),
                n == self.dims(),
                flat@.len() == i * n,
                forall|a: int, b: int|
                    0 <= a < i && 0 <= b < n ==> #[trigger] flat@[a * n + b] == self.sym_at(a, b),
            decreases n - i,
        {
            let mut j: usize = 0;
            while j < n
                invariant
                    j <= n,
                    i < n,
                    self.wf(),
                    n == self.dims(),
                    flat@.len() == i * n + j,
                    forall|a: int, b: int|
                        0 <= a < i && 0 <= b < n ==> #[trigger] flat@[a * n + b] == self.sym_at(
                            a,
                            b,
                        ),
                    forall|b: int| 0 <= b < j ==> #[trigger] flat@[i * n + b] == self.sym_at(
                        i as int,
                        b,
                    ),
                decreases n - j,
            {
                proof {
                    lemma_rm_offset_bounds(i as int, j as int, i as int + 1, n as int);
                    assert forall|a: int, b: int| 0 <= a < i && 0 <= b < n implies #[trigger] (a * n
                        + b) < i * n + j by {
                        lemma_rm_offset_bounds(a, b, i as int, n as int);
                    }
                }
                let v = if i == j {
                    self.diag[i]
                } else {
                    self.my_dat[get_symmat_index(i, j, n)]
                };
                flat.push(v);
                j = j + 1;
            }
            proof {
                assert((i + 1) * n == i * n + n) by (nonlinear_arith);
            }
            i = i + 1;
        }
        Matrix::from_raw(flat, n, n)
    }

    /// Builds a symmetric matrix from the upper triangle of a dense square
    /// matrix: only the entries `(i, j)` with `i <= j` are read, the lower
    /// triangle is ignored entirely and symmetry is assumed. Faults on a
    /// non-square input.
    pub fn new_from_upper_trig(dense: &Matrix) -> (r: Result<SymMat, MatError>)
        requires
            dense.wf(),
        ensures
            dense.rows() != dense.cols() ==> r == Err::<SymMat, MatError>(MatError::NotSquare),
            dense.rows() == dense.cols() ==> (r matches Ok(s) && s.wf() && s.dims() == dense.rows()
                && forall|i: int, j: int|
                0 <= i <= j < dense.rows() ==> #[trigger] s.sym_at(i, j) == dense.at(i, j)),
    {
        if !dense.is_square() {
            return Err(MatError::NotSquare);
        }
        let (n, _cols) = dense.get_dims();
        // Binding the buffer length tells the verifier that `n * n`, and so
        // every compact offset computed below, fits in a `usize`.
        let _total = dense.data_len();
        proof {
            assert(n as int * (n as int - 1) <= n as int * n as int) by (nonlinear_arith)
                requires
                    n as int >= 1,
            ;
        }
        let mut dv: Vec<i64> = Vec::new();
        let mut i: usize = 0;
        while i < n
            invariant
                i <= n,
                dense.wf(),
                n == dense.rows(),
                n == dense.cols(),
                dv@.len() == i,
                forall|k: int| 0 <= k < i ==> dv@[k] == dense.at(k, k),
            decreases n - i,
        {
            dv.push(dense.at_unchecked(i, i));
            i = i + 1;
        }
        let mut cv: Vec<i64> = Vec::new();
        proof {
            assert(row_base(0, n as int) == 0) by {
                assert(0 * (n as int - 1) == 0) by (nonlinear_arith);
            }
        }
        let mut i: usize = 0;
        while i < n
            invariant
                i <= n,
                dense.wf(),
                n == dense.rows(),
                n == dense.cols(),
                n as int * (n as int - 1) <= usize::MAX,
                cv@.len() == row_base(i as int, n as int),
                forall|a: int, b: int|
                    0 <= a < b < n && a < i ==> #[trigger] cv@[sym_offset(a, b, n as int)]
                        == dense.at(a, b),
            decreases n - i,
        {
            let mut j: usize = i + 1;
            while j < n
                invariant
                    i < n,
                    i + 1 <= j <= n,
                    dense.wf(),
                    n == dense.rows(),
                    n == dense.cols(),
                    n as int * (n as int - 1) <= usize::MAX,
                    cv@.len() == row_base(i as int, n as int) + (j - i - 1),
                    forall|a: int, b: int|
                        0 <= a < b < n && a < i ==> #[trigger] cv@[sym_offset(a, b, n as int)]
                            == dense.at(a, b),
                    forall|b: int| i < b < j ==> #[trigger] cv@[sym_offset(i as int, b, n as int)]
                        == dense.at(i as int, b),
                decreases n - j,
            {
                proof {
                    lemma_row_base_mono(0, i as int, n as int);
                    assert(row_base(0, n as int) == 0) by {
                        assert(0 * (n as int - 1) == 0) by (nonlinear_arith);
                    }
                    assert forall|a: int, b: int| 0 <= a < b < n && a < i implies 0
                        <= #[trigger] sym_offset(a, b, n as int) < cv@.len() by {
                        lemma_sym_offset_bounds(a, b, n as int);
                        lemma_row_base_next(a, n as int);
                        lemma_row_base_mono(a + 1, i as int, n as int);
                    }
                }
                cv.push(dense.at_unchecked(i, j));
                j = j + 1;
            }
            proof {
                lemma_row_base_next(i as int, n as int);
            }
            i = i + 1;
        }
        proof {
            lemma_row_base_total(n as int);
        }
        let s = SymMat { diag: dv, my_dat: cv, dims: n };
        proof {
            assert forall|i2: int, j2: int| 0 <= i2 <= j2 < dense.rows() implies #[trigger] s.sym_at(
                i2,
                j2,
            ) == dense.at(i2, j2) by {
                if i2 < j2 {
                    lemma_sym_offset_bounds(i2, j2, n as int);
                }
            }
        }
        Ok(s)
    }
}

/// For every symmetric matrix built with `d` on the diagonal and `f`
/// elsewhere, the dense materialization holds `d` at every `(i, i)` and `f`
/// at every `(i, j)` with `i != j`.
pub proof fn lemma_diag_fill_to_mat(s: &SymMat, m: &Matrix, d: i64, f: i64)
    requires
        s.wf(),
        is_diag_fill(s, d, f),
        dense_of(s, m),
    ensures
        forall|i: int| 0 <= i < s.dims() ==> #[trigger] m.at(i, i) == d,
        forall|i: int, j: int|
            0 <= i < s.dims() && 0 <= j < s.dims() && i != j ==> #[trigger] m.at(i, j) == f,
{
    assert forall|i: int| 0 <= i < s.dims() implies #[trigger] m.at(i, i) == d by {
        assert(m.at(i, i) == s.sym_at(i, i));
    }
    assert forall|i: int, j: int|
        0 <= i < s.dims() && 0 <= j < s.dims() && i != j implies #[trigger] m.at(i, j) == f by {
        assert(m.at(i, j) == s.sym_at(i, j));
    }
}

/// Larger index, at least as large a triangular number.
pub proof fn lemma_tri_mono(k1: int, k2: int)
    requires
        k1 <= k2,
    ensures
        tri(k1) <= tri(k2),
    decreases k2 - k1,
{
    if k1 < k2 {
        lemma_tri_mono(k1, k2 - 1);
        lemma_tri_doubled(k2);
    }
}

} // verus!
