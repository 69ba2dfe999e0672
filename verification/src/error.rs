//! The closed set of errors the tensor operations can report, with the
//! structured fields each one carries, and the spec predicates that pin
//! exactly which error a given invalid input produces.

use vstd::prelude::*;

verus! {

/// Why a tensor operation was rejected. Every fallible operation validates
/// its inputs before touching any state and reports exactly one of these.
#[derive(Debug, Clone, PartialEq, Eq)]
pub enum TensorError {
    /// Construction was handed a buffer whose length is not the element count
    /// of the requested shape. `expected` is that element count, clamped to
    /// `usize::MAX` when the true product of the shape exceeds it.
    ShapeMismatch { shape: Vec<usize>, expected: usize, actual: usize },
    /// An access supplied a number of indices different from the rank.
    RankMismatch { given: usize, expected: usize },
    /// An index entry is at or above the size of its dimension. `dim` is the
    /// first offending dimension, `index` the entry supplied for it, and
    /// `bound` that dimension's size.
    IndexOutOfBounds { dim: usize, index: usize, bound: usize },
    /// A reshape target's element count differs from the current one.
    /// `new_count` is the target's element count, clamped like `expected`
    /// above; `current` is the element count of the tensor being reshaped.
    ElementCountMismatch { new_shape: Vec<usize>, new_count: usize, current: usize },
}

/// The error owed when `idx` has the wrong number of entries for `shape`.
pub open spec fn is_rank_error(idx: Seq<usize>, shape: Seq<usize>, e: TensorError) -> bool {
    &&& idx.len() != shape.len()
    &&& e matches TensorError::RankMismatch { given, expected }
    &&& given == idx.len()
    &&& expected == shape.len()
}

/// The error owed when `idx` has the right length but some entry is out of
/// bounds: it reports the first offending dimension, with its entry and size.
pub open spec fn is_bounds_error(idx: Seq<usize>, shape: Seq<usize>, e: TensorError) -> bool {
    &&& idx.len() == shape.len()
    &&& e matches TensorError::IndexOutOfBounds { dim, index, bound }
    &&& 0 <= (dim as int) < idx.len()
    &&& idx[dim as int] >= shape[dim as int]
    &&& index == idx[dim as int]
    &&& bound == shape[dim as int]
    &&& forall|k: int| 0 <= k < dim ==> idx[k] < shape[k]
}

/// The error owed when a buffer of length `actual` is paired with `shape`:
/// it carries the offending shape, its (clamped) element count, and `actual`.
pub open spec fn is_shape_mismatch(actual: int, shape: Seq<usize>, e: TensorError) -> bool {
    &&& e matches TensorError::ShapeMismatch { shape: s, expected, actual: a }
    &&& s@ == shape
    &&& expected == crate::shape::clamped_product(shape)
    &&& a == actual
}

/// The error owed when a reshape target `new_shape` does not preserve the
/// element count `current`: it carries the target, its (clamped) element
/// count, and `current`.
pub open spec fn is_count_mismatch(current: int, new_shape: Seq<usize>, e: TensorError) -> bool {
    &&& e matches TensorError::ElementCountMismatch { new_shape: s, new_count, current: c }
    &&& s@ == new_shape
    &&& new_count == crate::shape::clamped_product(new_shape)
    &&& c == current
}

} // verus!
