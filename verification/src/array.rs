//! A size-static one-dimensional container with an orientation tag and
//! element-wise arithmetic.

use vstd::prelude::*;

use crate::common::MatError;
use crate::common::Transposable;

verus! {

/// Whether an array is laid out as a row or as a column vector.
#[derive(Debug, PartialEq, Eq, Structural, Copy, Clone)]
pub enum Order {
    Column,
    Row,
}

/// The opposite orientation.
pub open spec fn flip_order(o: Order) -> Order {
    if o == Order::Column {
        Order::Row
    } else {
        Order::Column
    }
}

/// An array is a size-static vector: its length is fixed at construction and
/// no resizing operation exists.
#[derive(Debug, Clone)]
pub struct Array {
    /// Internal vector used for backing store.
    my_vec: Vec<i64>,
    /// Orientation of the array.
    order: Order,
}

impl View for Array {
    type V = Seq<i64>;

    closed spec fn view(&self) -> Seq<i64> {
        self.my_vec@
    }
}

/// The element-wise sum of two equally long sequences.
pub open spec fn seq_add(a: Seq<i64>, b: Seq<i64>) -> Seq<i64> {
    Seq::new(a.len(), |k: int| (a[k] + b[k]) as i64)
}

/// The element-wise difference of two equally long sequences.
pub open spec fn seq_sub(a: Seq<i64>, b: Seq<i64>) -> Seq<i64> {
    Seq::new(a.len(), |k: int| (a[k] - b[k]) as i64)
}

/// Every element-wise sum of `a` and `b` fits in an `i64`.
pub open spec fn add_in_range(a: Seq<i64>, b: Seq<i64>) -> bool {
    forall|k: int| #![trigger a[k]] 0 <= k < a.len() ==> i64::MIN <= a[k] + b[k] <= i64::MAX
}

/// Every element-wise difference of `a` and `b` fits in an `i64`.
pub open spec fn sub_in_range(a: Seq<i64>, b: Seq<i64>) -> bool {
    forall|k: int| #![trigger a[k]] 0 <= k < a.len() ==> i64::MIN <= a[k] - b[k] <= i64::MAX
}

/// The dot product of the first `k` positions of `a` and `b`, as a
/// mathematical integer.
pub open spec fn dot_prefix(a: Seq<i64>, b: Seq<i64>, k: int) -> int
    decreases k,
{
    if k <= 0 {
        0
    } else {
        dot_prefix(a, b, k - 1) + a[k - 1] * b[k - 1]
    }
}

/// The dot product of two equally long sequences, as a mathematical integer.
pub open spec fn dot(a: Seq<i64>, b: Seq<i64>) -> int {
    dot_prefix(a, b, a.len() as int)
}

/// Every element-wise product and every left-to-right partial sum of the dot
/// product of `a` and `b` fits in an `i64`.
pub open spec fn dot_in_range(a: Seq<i64>, b: Seq<i64>) -> bool {
    &&& forall|k: int| #![trigger a[k]] 0 <= k < a.len() ==> i64::MIN <= a[k] * b[k] <= i64::MAX
    &&& forall|k: int| 1 <= k <= a.len() ==> i64::MIN <= #[trigger] dot_prefix(a, b, k) <= i64::MAX
}

impl Array {
    /// The orientation tag of this array.
    pub closed spec fn order(&self) -> Order {
        self.order
    }

    /// Default public constructor; takes ownership of the contents.
    pub fn new(contents: Vec<i64>, order: Order) -> (r: Array)
        ensures
            r@ == contents@,
            r.order() == order,
    {
        Array { my_vec: contents, order }
    }

    /// Constructs an array with a given value, length, and orientation.
    pub fn new_filled(val: i64, len: usize, order: Order) -> (r: Array)
        ensures
            r@.len() == len,
            forall|k: int| 0 <= k < len ==> r@[k] == val,
            r.order() == order,
    {
        let mut v: Vec<i64> = Vec::new();
        let mut i: usize = 0;
        while i < len
            invariant
                i <= len,
                v@.len() == i,
                forall|k: int| 0 <= k < i ==> v@[k] == val,
            decreases len - i,
        {
            v.push(val);
            i = i + 1;
        }
        Array { my_vec: v, order }
    }

    /// Transposes an array by flipping its orientation; the elements are kept
    /// as they are.
    pub fn transpose(self) -> (r: Array)
        ensures
            transposed_of(&r, &self),
    {
        let order = if self.order == Order::Column {
            Order::Row
        } else {
            Order::Column
        };
        Array { my_vec: self.my_vec, order }
    }

    /// Length of the underlying vector.
    pub fn len(&self) -> (r: usize)
        ensures
            r == self@.len(),
    {
        self.my_vec.len()
    }

    /// Element-wise addition. Faults when the orientations or the lengths
    /// differ; two empty operands give an empty array of the same orientation.
    pub fn add(self, other: Array) -> (r: Result<Array, MatError>)
        requires
            self.order() == other.order() && self@.len() == other@.len() ==> add_in_range(
                self@,
                other@,
            ),
        ensures
            self.order() != other.order() || self@.len() != other@.len() ==> r == Err::<
                Array,
                MatError,
            >(MatError::ShapeMismatch),
            self.order() == other.order() && self@.len() == other@.len() ==> (r matches Ok(c)
                && c@ =~= seq_add(self@, other@) && c.order() == self.order()),
    {
        if self.order != other.order {
            return Err(MatError::ShapeMismatch);
        }
        if self.my_vec.len() != other.my_vec.len() {
            return Err(MatError::ShapeMismatch);
        }
        let n = self.my_vec.len();
        let mut v: Vec<i64> = Vec::new();
        let mut i: usize = 0;
        while i < n
            invariant
                i <= n,
                n == self@.len(),
                n == other@.len(),
                add_in_range(self@, other@),
                v@.len() == i,
                forall|k: int| 0 <= k < i ==> v@[k] == seq_add(self@, other@)[k],
            decreases n - i,
        {
            v.push(self.my_vec[i] + other.my_vec[i]);
            i = i + 1;
        }
        Ok(Array { my_vec: v, order: self.order })
    }

    /// Element-wise subtraction. Faults when the orientations or the lengths
    /// differ; two empty operands give an empty array of the same orientation.
    pub fn sub(self, other: Array) -> (r: Result<Array, MatError>)
        requires
            self.order() == other.order() && self@.len() == other@.len() ==> sub_in_range(
                self@,
                other@,
            ),
        ensures
            self.order() != other.order() || self@.len() != other@.len() ==> r == Err::<
                Array,
                MatError,
            >(MatError::ShapeMismatch),
            self.order() == other.order() && self@.len() == other@.len() ==> (r matches Ok(c)
                && c@ =~= seq_sub(self@, other@) && c.order() == self.order()),
    {
        if self.order != other.order {
            return Err(MatError::ShapeMismatch);
        }
        if self.my_vec.len() != other.my_vec.len() {
            return Err(MatError::ShapeMismatch);
        }
        let n = self.my_vec.len();
        let mut v: Vec<i64> = Vec::new();
        let mut i: usize = 0;
        while i < n
            invariant
                i <= n,
                n == self@.len(),
                n == other@.len(),
                sub_in_range(self@, other@),
                v@.len() == i,
                forall|k: int| 0 <= k < i ==> v@[k] == seq_sub(self@, other@)[k],
            decreases n - i,
        {
            v.push(self.my_vec[i] - other.my_vec[i]);
            i = i + 1;
        }
        Ok(Array { my_vec: v, order: self.order })
    }

    /// Shape-checked equality. Faults when the orientations or the lengths
    /// differ, so the comparison is partial: callers must pre-validate shape.
    pub fn eq(&self, other: &Array) -> (r: Result<bool, MatError>)
        ensures
            self.order() != other.order() || self@.len() != other@.len() ==> r == Err::<
                bool,
                MatError,
            >(MatError::ShapeMismatch),
            self.order() == other.order() && self@.len() == other@.len() ==> (r matches Ok(b)
                && (b <==> self@ =~= other@)),
    {
        if self.order != other.order {
            return Err(MatError::ShapeMismatch);
        }
        if self.my_vec.len() != other.my_vec.len() {
            return Err(MatError::ShapeMismatch);
        }
        let n = self.my_vec.len();
        let mut i: usize = 0;
        while i < n
            invariant
                i <= n,
                n == self@.len(),
                n == other@.len(),
                self.order() == other.order(),
                forall|k: int| 0 <= k < i ==> self@[k] == other@[k],
            decreases n - i,
        {
            if self.my_vec[i] != other.my_vec[i] {
                return Ok(false);
            }
            i = i + 1;
        }
        Ok(true)
    }

    /// Bounds-checked read of the element at `i`; an index at or beyond the
    /// length faults.
    pub fn index(&self, i: usize) -> (r: Result<i64, MatError>)
        ensures
            i < self@.len() ==> r == Ok::<i64, MatError>(self@[i as int]),
            i >= self@.len() ==> r == Err::<i64, MatError>(MatError::IndexOutOfBounds),
    {
        if i >= self.my_vec.len() {
            return Err(MatError::IndexOutOfBounds);
        }
        Ok(self.my_vec[i])
    }

    /// Bounds-checked write of the element at `i`; an index at or beyond the
    /// length faults and leaves the array unchanged.
    pub fn set(&mut self, i: usize, val: i64) -> (r: Result<(), MatError>)
        ensures
            i < old(self)@.len() ==> r == Ok::<(), MatError>(()) && final(self)@ == old(
                self)@.update(i as int, val) && final(self).order() == old(self).order(),
            i >= old(self)@.len() ==> r == Err::<(), MatError>(MatError::IndexOutOfBounds)
                && *final(self) == *old(self),
    {
        if i >= self.my_vec.len() {
            return Err(MatError::IndexOutOfBounds);
        }
        self.my_vec[i] = val;
        Ok(())
    }

    /// Dot product. Faults when the lengths differ, and on empty operands:
    /// the dot product of empty arrays is undefined, not zero.
    pub fn mul(self, other: Array) -> (r: Result<i64, MatError>)
        requires
            self@.len() == other@.len() ==> dot_in_range(self@, other@),
        ensures
            self@.len() != other@.len() ==> r == Err::<i64, MatError>(MatError::ShapeMismatch),
            self@.len() == other@.len() && self@.len() == 0 ==> r == Err::<i64, MatError>(
                MatError::UndefinedReduction,
            ),
            self@.len() == other@.len() && self@.len() > 0 ==> (r matches Ok(v) && v == dot(
                self@,
                other@,
            )),
    {
        if self.my_vec.len() != other.my_vec.len() {
            return Err(MatError::ShapeMismatch);
        }
        let n = self.my_vec.len();
        if n == 0 {
            return Err(MatError::UndefinedReduction);
        }
        proof {
            reveal_with_fuel(dot_prefix, 2);
            assert(dot_prefix(self@, other@, 1) == self@[0] * other@[0]);
        }
        let mut sum: i64 = self.my_vec[0] * other.my_vec[0];
        let mut i: usize = 1;
        while i < n
            invariant
                1 <= i <= n,
                n == self@.len(),
                n == other@.len(),
                dot_in_range(self@, other@),
                sum == dot_prefix(self@, other@, i as int),
            decreases n - i,
        {
            proof {
                assert(dot_prefix(self@, other@, i + 1) == dot_prefix(self@, other@, i as int)
                    + self@[i as int] * other@[i as int]);
            }
            sum = sum + self.my_vec[i] * other.my_vec[i];
            i = i + 1;
        }
        Ok(sum)
    }
}

impl Transposable for Array {
    fn transpose(self) -> Self {
        Array::transpose(self)
    }
}

/// For all compatible-shape arrays `a` and `b`, subtraction is the inverse of
/// addition and addition is commutative: the elements of `(a + b) - b` are
/// exactly those of `a`, and `a + b` has the elements of `b + a`. Together
/// with the contracts of `add` and `sub` (which also keep the orientation)
/// this gives `(a + b) - b == a` and `a + b == b + a`.
pub proof fn lemma_add_sub_inverse(a: Array, b: Array)
    requires
        a.order() == b.order(),
        a@.len() == b@.len(),
        add_in_range(a@, b@),
    ensures
        sub_in_range(seq_add(a@, b@), b@),
        seq_sub(seq_add(a@, b@), b@) =~= a@,
        seq_add(a@, b@) =~= seq_add(b@, a@),
{
    assert forall|k: int| 0 <= k < seq_add(a@, b@).len() implies i64::MIN <= #[trigger] seq_add(
        a@,
        b@,
    )[k] - b@[k] <= i64::MAX by {
        assert(seq_add(a@, b@)[k] == a@[k] + b@[k]);
    }
}

/// `t` is the transpose of `a`: the orientation is flipped and the elements
/// are kept as they are.
pub open spec fn transposed_of(t: &Array, a: &Array) -> bool {
    t@ == a@ && t.order() == flip_order(a.order())
}

/// For all arrays, transposing twice restores the original: an array `c`
/// obtained by transposing a transpose `b` of `a` has the same orientation
/// and elements as `a`.
pub proof fn lemma_transpose_involution(a: &Array, b: &Array, c: &Array)
    requires
        transposed_of(b, a),
        transposed_of(c, b),
    ensures
        c@ == a@,
        c.order() == a.order(),
{
}

} // verus!
