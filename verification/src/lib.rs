//! Dense, row-major N-dimensional arrays with shape-checked construction,
//! multi-index element access, and element-count-preserving reshape.
//!
//! The heart of the library is the stride-based addressing scheme: a
//! multi-index is mapped to a flat buffer offset by a dot product with the
//! row-major strides derived from the shape. The `shape` module states that
//! scheme mathematically and proves its key facts (offsets stay in bounds,
//! distinct indices reach distinct offsets); the `tensor` module builds the
//! `Tensor` type on top of it.

pub mod error;
pub mod shape;
pub mod tensor;
