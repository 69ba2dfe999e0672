//! The `Tensor` type: a flat row-major buffer of elements, the shape that
//! interprets it, and the stride table derived from the shape. Every
//! operation funnels through the stride-based offset computation stated and
//! proved in the `shape` module.

use vstd::prelude::*;

use crate::error::TensorError;
use crate::error::{is_bounds_error, is_count_mismatch, is_rank_error, is_shape_mismatch};
use crate::shape::{
    calculate_strides, checked_product, flat_index, flat_index_from, product, row_major_strides,
    stride_of, valid_index,
};
use crate::shape::{lemma_flat_index_in_range, lemma_flat_index_injective, lemma_suffix_product_monotone};
use vstd::slice::slice_to_vec;

verus! {

/// A dense N-dimensional array: a flat contiguous buffer in row-major order
/// (the last dimension varies fastest), one size per dimension, and one
/// stride per dimension derived from the shape. An empty shape denotes a
/// rank-0 scalar holding exactly one element.
#[derive(Debug, Clone, PartialEq)]
pub struct Tensor<T> {
    data: Vec<T>,
    shape: Vec<usize>,
    strides: Vec<usize>,
}

impl<T> Tensor<T> {
    /// The elements, in flat row-major order.
    pub closed spec fn elems(&self) -> Seq<T> {
        self.data@
    }

    /// The shape: one size per dimension.
    pub closed spec fn dims(&self) -> Seq<usize> {
        self.shape@
    }

    /// Well-formedness: the buffer length equals the element count of the
    /// shape, and the stride table is exactly the row-major derivation of
    /// the shape. Every constructor establishes this and every operation
    /// preserves it; the strides are never independently mutated.
    pub closed spec fn wf(&self) -> bool {
        &&& self.data@.len() == product(self.shape@)
        &&& self.strides@ == row_major_strides(self.shape@)
    }
}

impl<T: Copy> Tensor<T> {
    /// Builds a tensor from a flat row-major buffer and a shape. Succeeds
    /// exactly when the buffer length equals the element count of the shape;
    /// otherwise reports `ShapeMismatch`.
    pub fn new(data: Vec<T>, shape: Vec<usize>) -> (r: Result<Tensor<T>, TensorError>)
        ensures
            (match r {
                Ok(t) => {
                    &&& data@.len() == product(shape@)
                    &&& t.wf()
                    &&& t.elems() == data@
                    &&& t.dims() == shape@
                },
                Err(e) => {
                    &&& data@.len() != product(shape@)
                    &&& is_shape_mismatch(data@.len() as int, shape@, e)
                },
            }),
    {
        let total = checked_product(shape.as_slice());
        let len = data.len();
        let ok = match total {
            Some(p) => p == len,
            None => false,
        };
        if !ok {
            let expected = match total {
                Some(p) => p,
                None => usize::MAX,
            };
            return Err(TensorError::ShapeMismatch { shape, expected, actual: len });
        }
        let strides = calculate_strides(shape.as_slice());
        Ok(Tensor { data, shape, strides })
    }

    /// Builds a tensor of the given shape with every element equal to
    /// `value`. The shape's element count must fit in a `usize` (no larger
    /// buffer can exist on the machine); construction then always succeeds.
    pub fn full(shape: Vec<usize>, value: T) -> (r: Result<Tensor<T>, TensorError>)
        requires
            product(shape@) <= usize::MAX,
        ensures
            (match r {
                Ok(t) => {
                    &&& t.wf()
                    &&& t.dims() == shape@
                    &&& t.elems() == Seq::new(product(shape@), |i: int| value)
                },
                Err(e) => false,
            }),
    {
        let total = match checked_product(shape.as_slice()) {
            Some(p) => p,
            None => vstd::pervasive::unreached(),
        };
        let mut data: Vec<T> = Vec::new();
        let mut i: usize = 0;
        while i < total
            invariant
                0 <= i <= total,
                total == product(shape@),
                data@.len() == i,
                forall|k: int| 0 <= k < i ==> data@[k] == value,
            decreases total - i,
        {
            data.push(value);
            i = i + 1;
        }
        let strides = calculate_strides(shape.as_slice());
        proof {
            assert(data@ =~= Seq::new(product(shape@), |i: int| value));
        }
        Ok(Tensor { data, shape, strides })
    }

    /// Number of dimensions.
    pub fn rank(&self) -> (r: usize)
        ensures
            r == self.dims().len(),
    {
        self.shape.len()
    }

    /// Total number of elements: the flat buffer length, which for a
    /// well-formed tensor is the product of the dimension sizes.
    pub fn numel(&self) -> (r: usize)
        ensures
            r == self.elems().len(),
            self.wf() ==> r == product(self.dims()),
    {
        self.data.len()
    }

    /// Read-only view of the shape.
    pub fn shape(&self) -> (r: &[usize])
        ensures
            r@ == self.dims(),
    {
        self.shape.as_slice()
    }

    /// Read-only view of the flat row-major buffer.
    pub fn data(&self) -> (r: &[T])
        ensures
            r@ == self.elems(),
    {
        self.data.as_slice()
    }

    /// Mutable view of the flat row-major buffer. A slice cannot change
    /// length, so writing through it replaces elements only: the shape, the
    /// strides, and well-formedness are untouched.
    pub fn data_mut(&mut self) -> (r: &mut [T])
        ensures
            r@ == old(self).elems(),
            final(self).elems() == final(r)@,
            final(self).dims() == old(self).dims(),
            old(self).wf() && final(r)@.len() == old(self).elems().len() ==> final(self).wf(),
    {
        self.data.as_mut_slice()
    }

    /// Flat offset of a validated multi-index: the dot product of the index
    /// entries with the derived strides.
    fn calculate_index(&self, indices: &[usize]) -> (r: usize)
        requires
            self.wf(),
            valid_index(indices@, self.dims()),
        ensures
            r == flat_index(indices@, self.dims()),
    {
        proof {
            lemma_flat_index_in_range(indices@, self.dims());
        }
        let ghost dims = self.shape@;
        let data_len = self.data.len();
        let n = indices.len();
        let mut off: usize = 0;
        let mut d: usize = 0;
        while d < n
            invariant
                0 <= d <= n,
                self.wf(),
                valid_index(indices@, dims),
                dims == self.shape@,
                n == indices@.len(),
                data_len == self.elems().len(),
                flat_index(indices@, dims) < data_len,
                (off as nat) + flat_index_from(indices@, dims, d as int) == flat_index(
                    indices@,
                    dims,
                ),
            decreases n - d,
        {
            proof {
                // every dimension has a valid entry below it, so every
                // dimension is positive and no stride is clamped
                assert(forall|k: int| 0 <= k < dims.len() ==> dims[k] >= 1);
                lemma_suffix_product_monotone(dims, 0, d + 1);
                assert(self.strides@[d as int] == stride_of(dims, d as int));
            }
            let term = indices[d] * self.strides[d];
            off = off + term;
            d = d + 1;
        }
        off
    }

    /// Reference to the element at a multi-index. Fails with `RankMismatch`
    /// when the number of indices differs from the rank, and with
    /// `IndexOutOfBounds` naming the first offending dimension when an entry
    /// is at or above its dimension's size.
    pub fn get(&self, indices: &[usize]) -> (r: Result<&T, TensorError>)
        requires
            self.wf(),
        ensures
            (match r {
                Ok(v) => {
                    &&& valid_index(indices@, self.dims())
                    &&& *v == self.elems()[flat_index(indices@, self.dims()) as int]
                },
                Err(e) => {
                    &&& !valid_index(indices@, self.dims())
                    &&& (is_rank_error(indices@, self.dims(), e) || is_bounds_error(
                        indices@,
                        self.dims(),
                        e,
                    ))
                },
            }),
    {
        let n = indices.len();
        if n != self.shape.len() {
            return Err(TensorError::RankMismatch { given: n, expected: self.shape.len() });
        }
        let mut d: usize = 0;
        while d < n
            invariant
                0 <= d <= n,
                n == indices@.len(),
                n == self.dims().len(),
                forall|k: int| 0 <= k < d ==> indices@[k] < self.dims()[k],
            decreases n - d,
        {
            if indices[d] >= self.shape[d] {
                return Err(
                    TensorError::IndexOutOfBounds {
                        dim: d,
                        index: indices[d],
                        bound: self.shape[d],
                    },
                );
            }
            d = d + 1;
        }
        let off = self.calculate_index(indices);
        proof {
            lemma_flat_index_in_range(indices@, self.dims());
        }
        Ok(&self.data[off])
    }

    /// Mutable reference to the element at a multi-index, with exactly the
    /// validation and errors of `get`. Writing through the reference replaces
    /// that element and nothing else; a failure leaves the tensor untouched.
    pub fn get_mut(&mut self, indices: &[usize]) -> (r: Result<&mut T, TensorError>)
        requires
            old(self).wf(),
        ensures
            final(self).wf(),
            final(self).dims() == old(self).dims(),
            r is Ok <==> valid_index(indices@, old(self).dims()),
            r is Ok ==> *r.unwrap() == old(self).elems()[flat_index(
                indices@,
                old(self).dims(),
            ) as int] && final(self).elems() == old(self).elems().update(
                flat_index(indices@, old(self).dims()) as int,
                *final(r.unwrap()),
            ),
            (r matches Err(e) ==> *final(self) == *old(self) && (is_rank_error(
                indices@,
                old(self).dims(),
                e,
            ) || is_bounds_error(indices@, old(self).dims(), e))),
    {
        let n = indices.len();
        if n != self.shape.len() {
            return Err(TensorError::RankMismatch { given: n, expected: self.shape.len() });
        }
        let mut d: usize = 0;
        while d < n
            invariant
                0 <= d <= n,
                n == indices@.len(),
                n == self.dims().len(),
                self.wf(),
                *self == *old(self),
                forall|k: int| 0 <= k < d ==> indices@[k] < self.dims()[k],
            decreases n - d,
        {
            if indices[d] >= self.shape[d] {
                return Err(
                    TensorError::IndexOutOfBounds {
                        dim: d,
                        index: indices[d],
                        bound: self.shape[d],
                    },
                );
            }
            d = d + 1;
        }
        let off = self.calculate_index(indices);
        proof {
            lemma_flat_index_in_range(indices@, self.dims());
        }
        Ok(&mut self.data[off])
    }

    /// Writes `value` at a multi-index, with exactly the validation and
    /// errors of `get`. On any failure the tensor is left exactly as it was:
    /// validation precedes every write.
    pub fn set(&mut self, indices: &[usize], value: T) -> (r: Result<(), TensorError>)
        requires
            old(self).wf(),
        ensures
            final(self).wf(),
            final(self).dims() == old(self).dims(),
            (match r {
                Ok(()) => {
                    &&& valid_index(indices@, old(self).dims())
                    &&& final(self).elems() == old(self).elems().update(
                        flat_index(indices@, old(self).dims()) as int,
                        value,
                    )
                },
                Err(e) => {
                    &&& !valid_index(indices@, old(self).dims())
                    &&& (is_rank_error(indices@, old(self).dims(), e) || is_bounds_error(
                        indices@,
                        old(self).dims(),
                        e,
                    ))
                    &&& *final(self) == *old(self)
                },
            }),
    {
        let n = indices.len();
        if n != self.shape.len() {
            return Err(TensorError::RankMismatch { given: n, expected: self.shape.len() });
        }
        let mut d: usize = 0;
        while d < n
            invariant
                0 <= d <= n,
                n == indices@.len(),
                n == self.dims().len(),
                self.wf(),
                *self == *old(self),
                forall|k: int| 0 <= k < d ==> indices@[k] < self.dims()[k],
            decreases n - d,
        {
            if indices[d] >= self.shape[d] {
                return Err(
                    TensorError::IndexOutOfBounds {
                        dim: d,
                        index: indices[d],
                        bound: self.shape[d],
                    },
                );
            }
            d = d + 1;
        }
        let off = self.calculate_index(indices);
        proof {
            lemma_flat_index_in_range(indices@, self.dims());
        }
        self.data[off] = value;
        Ok(())
    }

    /// Reinterprets the buffer under a new shape with the same element
    /// count, in place: the shape is replaced and the strides re-derived,
    /// while the buffer is untouched — reshape never reorders elements.
    /// Fails with `ElementCountMismatch` when the new shape's element count
    /// differs from the current one, leaving the tensor exactly as it was.
    pub fn reshape(&mut self, new_shape: Vec<usize>) -> (r: Result<(), TensorError>)
        requires
            old(self).wf(),
        ensures
            final(self).wf(),
            final(self).elems() == old(self).elems(),
            (match r {
                Ok(()) => {
                    &&& product(new_shape@) == old(self).elems().len()
                    &&& final(self).dims() == new_shape@
                },
                Err(e) => {
                    &&& product(new_shape@) != old(self).elems().len()
                    &&& is_count_mismatch(old(self).elems().len() as int, new_shape@, e)
                    &&& *final(self) == *old(self)
                },
            }),
    {
        let total = checked_product(new_shape.as_slice());
        let len = self.data.len();
        let ok = match total {
            Some(p) => p == len,
            None => false,
        };
        if !ok {
            let new_count = match total {
                Some(p) => p,
                None => usize::MAX,
            };
            return Err(TensorError::ElementCountMismatch { new_shape, new_count, current: len });
        }
        let strides = calculate_strides(new_shape.as_slice());
        self.shape = new_shape;
        self.strides = strides;
        Ok(())
    }

    /// Like `reshape`, but leaves the receiver untouched and returns a new
    /// tensor holding its own copy of the buffer under the new shape. The
    /// two tensors share no storage: mutating one never affects the other.
    pub fn reshaped(&self, new_shape: Vec<usize>) -> (r: Result<Tensor<T>, TensorError>)
        requires
            self.wf(),
        ensures
            (match r {
                Ok(t) => {
                    &&& product(new_shape@) == self.elems().len()
                    &&& t.wf()
                    &&& t.elems() == self.elems()
                    &&& t.dims() == new_shape@
                },
                Err(e) => {
                    &&& product(new_shape@) != self.elems().len()
                    &&& is_count_mismatch(self.elems().len() as int, new_shape@, e)
                },
            }),
    {
        let total = checked_product(new_shape.as_slice());
        let len = self.data.len();
        let ok = match total {
            Some(p) => p == len,
            None => false,
        };
        if !ok {
            let new_count = match total {
                Some(p) => p,
                None => usize::MAX,
            };
            return Err(TensorError::ElementCountMismatch { new_shape, new_count, current: len });
        }
        let new_data = slice_to_vec(self.data.as_slice());
        let strides = calculate_strides(new_shape.as_slice());
        Ok(Tensor { data: new_data, shape: new_shape, strides })
    }
}

/// Round trip of indexed writes: writing `value` at a valid multi-index (as
/// `set` does to the buffer of a well-formed tensor) and reading the same
/// index back (as `get` does) yields `value`, while reading any other valid
/// multi-index yields the element it held before the write. The second half
/// holds because row-major addressing is injective: distinct valid indices
/// never share a flat offset.
pub proof fn lemma_set_get_round_trip<T>(
    elems: Seq<T>,
    shape: Seq<usize>,
    target: Seq<usize>,
    other: Seq<usize>,
    value: T,
)
    requires
        elems.len() == product(shape),
        valid_index(target, shape),
        valid_index(other, shape),
    ensures
        elems.update(flat_index(target, shape) as int, value)[flat_index(
            target,
            shape,
        ) as int] == value,
        target != other ==> elems.update(flat_index(target, shape) as int, value)[flat_index(
            other,
            shape,
        ) as int] == elems[flat_index(other, shape) as int],
{
    lemma_flat_index_in_range(target, shape);
    lemma_flat_index_in_range(other, shape);
    if target != other {
        lemma_flat_index_injective(target, other, shape);
    }
}

} // verus!
