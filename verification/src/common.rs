//! Items shared by every container type: the fault taxonomy and the
//! `Transposable` trait.

use vstd::prelude::*;

verus! {

/// Faults a container operation can report.
///
/// Every precondition violation surfaces as one of these values; no operation
/// ever returns a partially computed or truncated result.
#[derive(Clone, Copy, Debug, PartialEq, Eq, Structural)]
pub enum MatError {
    /// Operand dimensions or orientations disagree for add/sub/eq/mul.
    ShapeMismatch,
    /// Zero or inconsistent dimension at construction.
    DimensionInvalid,
    /// Index at or beyond a length or dimension.
    IndexOutOfBounds,
    /// Dot product or matrix product over a zero-length contraction axis.
    UndefinedReduction,
    /// Triangular zeroing requested on a non-square matrix.
    NotSquare,
}

/// Containers that can be transposed while consuming the receiver.
pub trait Transposable {
    /// Transposes a matrix or array.
    fn transpose(self) -> Self;
}

} // verus!
