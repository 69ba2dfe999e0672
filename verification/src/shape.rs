//! The row-major addressing scheme: element counts, strides, and flat offsets
//! of multi-indices, together with the lemmas the `Tensor` operations rest on.

use vstd::prelude::*;

verus! {

/// Product of the dimension sizes of `shape` from position `d` to the end.
/// An empty suffix has product 1, so `suffix_product(shape, 0)` of an empty
/// shape is 1: a rank-0 tensor holds exactly one element.
pub open spec fn suffix_product(shape: Seq<usize>, d: int) -> nat
    decreases shape.len() - d,
{
    if 0 <= d < shape.len() {
        (shape[d] as nat) * suffix_product(shape, d + 1)
    } else {
        1
    }
}

/// Total element count of a shape: the product of all its dimension sizes.
pub open spec fn product(shape: Seq<usize>) -> nat {
    suffix_product(shape, 0)
}

/// `product(shape)` clamped to what a `usize` can hold. The clamp can only
/// bite when the true product exceeds `usize::MAX`, in which case no buffer
/// of that length exists anyway.
pub open spec fn clamped_product(shape: Seq<usize>) -> usize {
    if product(shape) <= usize::MAX {
        product(shape) as usize
    } else {
        usize::MAX
    }
}

/// Row-major stride of dimension `d`: the product of all later dimensions,
/// clamped to `usize::MAX`. The clamp matters only for shapes that contain a
/// zero: their buffers are empty and no multi-index is valid, yet the true
/// suffix product past the zero may exceed what a `usize` can hold.
pub open spec fn stride_of(shape: Seq<usize>, d: int) -> usize {
    if suffix_product(shape, d + 1) <= usize::MAX {
        suffix_product(shape, d + 1) as usize
    } else {
        usize::MAX
    }
}

/// The full row-major stride table of a shape: the last dimension has stride
/// 1, and each earlier dimension's stride is the product of all later sizes.
pub open spec fn row_major_strides(shape: Seq<usize>) -> Seq<usize> {
    Seq::new(shape.len(), |d: int| stride_of(shape, d))
}

/// A multi-index is valid for a shape when it has one entry per dimension and
/// each entry is below that dimension's size.
pub open spec fn valid_index(idx: Seq<usize>, shape: Seq<usize>) -> bool {
    &&& idx.len() == shape.len()
    &&& forall|d: int| 0 <= d < idx.len() ==> idx[d] < shape[d]
}

/// Flat offset contributed by the index entries from position `d` on: the
/// dot product of `idx[d..]` with the strides of `shape[d..]`.
pub open spec fn flat_index_from(idx: Seq<usize>, shape: Seq<usize>, d: int) -> nat
    decreases idx.len() - d,
{
    if 0 <= d < idx.len() {
        (idx[d] as nat) * suffix_product(shape, d + 1) + flat_index_from(idx, shape, d + 1)
    } else {
        0
    }
}

/// Row-major flat offset of a multi-index: the dot product of the index with
/// the row-major strides of the shape.
pub open spec fn flat_index(idx: Seq<usize>, shape: Seq<usize>) -> nat {
    flat_index_from(idx, shape, 0)
}

/// If every dimension from `d` on is at least 1, so is the suffix product.
pub proof fn lemma_suffix_product_pos(shape: Seq<usize>, d: int)
    requires
        forall|k: int| d <= k < shape.len() ==> shape[k] >= 1,
    ensures
        suffix_product(shape, d) >= 1,
    decreases shape.len() - d,
{
    if 0 <= d < shape.len() {
        lemma_suffix_product_pos(shape, d + 1);
        assert((shape[d] as nat) * suffix_product(shape, d + 1) >= 1) by (nonlinear_arith)
            requires
                shape[d] >= 1,
                suffix_product(shape, d + 1) >= 1,
        ;
    }
}

/// A zero dimension at or after `d` makes the suffix product from `d` zero.
pub proof fn lemma_suffix_product_zero(shape: Seq<usize>, d: int, z: int)
    requires
        0 <= d <= z < shape.len(),
        shape[z] == 0,
    ensures
        suffix_product(shape, d) == 0,
    decreases z - d,
{
    if d < z {
        lemma_suffix_product_zero(shape, d + 1, z);
        assert((shape[d] as nat) * suffix_product(shape, d + 1) == 0) by (nonlinear_arith)
            requires
                suffix_product(shape, d + 1) == 0,
        ;
    } else {
        assert((shape[z] as nat) * suffix_product(shape, z + 1) == 0) by (nonlinear_arith)
            requires
                shape[z] == 0,
        ;
    }
}

/// With all dimensions from `d1` on at least 1, a later suffix product never
/// exceeds an earlier one: dropping a leading factor cannot grow a product.
pub proof fn lemma_suffix_product_monotone(shape: Seq<usize>, d1: int, d2: int)
    requires
        0 <= d1 <= d2,
        forall|k: int| d1 <= k < shape.len() ==> shape[k] >= 1,
    ensures
        suffix_product(shape, d2) <= suffix_product(shape, d1),
    decreases d2 - d1,
{
    if d1 < d2 {
        lemma_suffix_product_monotone(shape, d1 + 1, d2);
        if d1 < shape.len() {
            lemma_suffix_product_pos(shape, d1 + 1);
            assert(suffix_product(shape, d1 + 1) <= (shape[d1] as nat) * suffix_product(
                shape,
                d1 + 1,
            )) by (nonlinear_arith)
                requires
                    shape[d1] >= 1,
                    suffix_product(shape, d1 + 1) >= 0,
            ;
        }
    }
}

/// For a valid index, the flat offset contributed from `d` on is strictly
/// below the suffix product from `d`: row-major offsets stay in bounds.
pub proof fn lemma_flat_index_bound(idx: Seq<usize>, shape: Seq<usize>, d: int)
    requires
        valid_index(idx, shape),
        0 <= d <= idx.len(),
    ensures
        flat_index_from(idx, shape, d) < suffix_product(shape, d),
    decreases idx.len() - d,
{
    if d < idx.len() {
        lemma_flat_index_bound(idx, shape, d + 1);
        assert((idx[d] as nat) * suffix_product(shape, d + 1) + flat_index_from(idx, shape, d + 1)
            < (shape[d] as nat) * suffix_product(shape, d + 1)) by (nonlinear_arith)
            requires
                idx[d] < shape[d],
                flat_index_from(idx, shape, d + 1) < suffix_product(shape, d + 1),
        ;
    }
}

/// The flat offset of a valid index is strictly below the element count.
pub proof fn lemma_flat_index_in_range(idx: Seq<usize>, shape: Seq<usize>)
    requires
        valid_index(idx, shape),
    ensures
        flat_index(idx, shape) < product(shape),
{
    lemma_flat_index_bound(idx, shape, 0);
}

/// Two valid indices that differ somewhere at or after position `d` reach
/// different flat offsets from `d` on.
proof fn lemma_flat_index_injective_from(
    a: Seq<usize>,
    b: Seq<usize>,
    shape: Seq<usize>,
    d: int,
)
    requires
        valid_index(a, shape),
        valid_index(b, shape),
        0 <= d < shape.len(),
        exists|k: int| d <= k < shape.len() && a[k] != b[k],
    ensures
        flat_index_from(a, shape, d) != flat_index_from(b, shape, d),
    decreases shape.len() - d,
{
    let k0 = choose|k: int| d <= k < shape.len() && a[k] != b[k];
    let s = suffix_product(shape, d + 1);
    if a[d] == b[d] {
        assert(d + 1 <= k0 < shape.len() && a[k0] != b[k0]);
        lemma_flat_index_injective_from(a, b, shape, d + 1);
    } else {
        lemma_flat_index_bound(a, shape, d + 1);
        lemma_flat_index_bound(b, shape, d + 1);
        if a[d] > b[d] {
            assert((a[d] as nat) * s + flat_index_from(a, shape, d + 1) > (b[d] as nat) * s
                + flat_index_from(b, shape, d + 1)) by (nonlinear_arith)
                requires
                    a[d] > b[d],
                    flat_index_from(b, shape, d + 1) < s,
            ;
        } else {
            assert((b[d] as nat) * s + flat_index_from(b, shape, d + 1) > (a[d] as nat) * s
                + flat_index_from(a, shape, d + 1)) by (nonlinear_arith)
                requires
                    b[d] > a[d],
                    flat_index_from(a, shape, d + 1) < s,
            ;
        }
    }
}

/// Row-major addressing is injective: two distinct valid indices of the same
/// shape always reach distinct flat offsets.
pub proof fn lemma_flat_index_injective(a: Seq<usize>, b: Seq<usize>, shape: Seq<usize>)
    requires
        valid_index(a, shape),
        valid_index(b, shape),
        a != b,
    ensures
        flat_index(a, shape) != flat_index(b, shape),
{
    if forall|k: int| 0 <= k < shape.len() ==> a[k] == b[k] {
        assert(a =~= b);
    }
    assert(exists|k: int| 0 <= k < shape.len() && a[k] != b[k]);
    lemma_flat_index_injective_from(a, b, shape, 0);
}

/// One step of the clamped stride recurrence: the stride of dimension `d - 1`
/// is the stride of dimension `d` times the size of dimension `d`, clamped to
/// `usize::MAX`.
pub proof fn lemma_stride_step(shape: Seq<usize>, d: int)
    requires
        1 <= d < shape.len(),
    ensures
        ({
            let step = (stride_of(shape, d) as nat) * (shape[d] as nat);
            stride_of(shape, d - 1) == if step <= usize::MAX {
                step as usize
            } else {
                usize::MAX
            }
        }),
{
    let s2 = suffix_product(shape, d + 1);
    assert(suffix_product(shape, d) == (shape[d] as nat) * s2);
    if s2 <= usize::MAX {
        assert((s2 as nat) * (shape[d] as nat) == (shape[d] as nat) * s2) by (nonlinear_arith);
    } else {
        if shape[d] == 0 {
            assert((shape[d] as nat) * s2 == 0) by (nonlinear_arith)
                requires
                    shape[d] == 0,
            ;
        } else {
            assert((shape[d] as nat) * s2 >= s2) by (nonlinear_arith)
                requires
                    shape[d] >= 1,
                    s2 >= 0,
            ;
            assert((usize::MAX as nat) * (shape[d] as nat) >= usize::MAX) by (nonlinear_arith)
                requires
                    shape[d] >= 1,
            ;
        }
    }
}

/// Element count of a shape, as a `usize`: `Some` exactly when the product of
/// the dimension sizes fits in a `usize`.
pub fn checked_product(shape: &[usize]) -> (r: Option<usize>)
    ensures
        (match r {
            Some(p) => p == product(shape@),
            None => product(shape@) > usize::MAX,
        }),
{
    let n = shape.len();
    let mut i: usize = 0;
    while i < n
        invariant
            0 <= i <= n,
            n == shape@.len(),
            forall|k: int| 0 <= k < i ==> shape@[k] >= 1,
        decreases n - i,
    {
        if shape[i] == 0 {
            proof {
                lemma_suffix_product_zero(shape@, 0, i as int);
            }
            return Some(0);
        }
        i = i + 1;
    }
    let mut acc: usize = 1;
    let mut j: usize = 0;
    while j < n
        invariant
            0 <= j <= n,
            n == shape@.len(),
            forall|k: int| 0 <= k < n ==> shape@[k] >= 1,
            (acc as nat) * suffix_product(shape@, j as int) == product(shape@),
        decreases n - j,
    {
        let size = shape[j];
        match acc.checked_mul(size) {
            Some(v) => {
                proof {
                    assert((v as nat) * suffix_product(shape@, j + 1) == product(shape@))
                        by (nonlinear_arith)
                        requires
                            v == (acc as nat) * (size as nat),
                            (acc as nat) * suffix_product(shape@, j as int) == product(shape@),
                            suffix_product(shape@, j as int) == (size as nat) * suffix_product(
                                shape@,
                                j + 1,
                            ),
                    ;
                }
                acc = v;
            },
            None => {
                proof {
                    lemma_suffix_product_pos(shape@, j + 1);
                    assert(product(shape@) > usize::MAX) by (nonlinear_arith)
                        requires
                            (acc as nat) * (size as nat) > usize::MAX,
                            suffix_product(shape@, j + 1) >= 1,
                            (acc as nat) * suffix_product(shape@, j as int) == product(shape@),
                            suffix_product(shape@, j as int) == (size as nat) * suffix_product(
                                shape@,
                                j + 1,
                            ),
                    ;
                }
                return None;
            },
        }
        j = j + 1;
    }
    proof {
        assert(suffix_product(shape@, n as int) == 1);
        assert((acc as nat) * 1 == acc as nat) by (nonlinear_arith);
    }
    Some(acc)
}

/// Row-major stride table of a shape, each entry clamped to `usize::MAX`:
/// the executable counterpart of `row_major_strides`. The last dimension gets
/// stride 1; each earlier dimension's stride is the next dimension's stride
/// times the next dimension's size.
pub fn calculate_strides(shape: &[usize]) -> (r: Vec<usize>)
    ensures
        r@ == row_major_strides(shape@),
{
    let n = shape.len();
    let mut strides: Vec<usize> = Vec::new();
    let mut i: usize = 0;
    while i < n
        invariant
            0 <= i <= n,
            strides@.len() == i,
            forall|k: int| 0 <= k < i ==> strides@[k] == 1usize,
        decreases n - i,
    {
        strides.push(1);
        i = i + 1;
    }
    if n == 0 {
        proof {
            assert(strides@ =~= row_major_strides(shape@));
        }
        return strides;
    }
    let mut d: usize = n - 1;
    while d > 0
        invariant
            0 <= d <= n - 1,
            n == shape@.len(),
            strides@.len() == n,
            forall|k: int| d <= k < n ==> strides@[k] == stride_of(shape@, k),
        decreases d,
    {
        let next = match strides[d].checked_mul(shape[d]) {
            Some(v) => v,
            None => usize::MAX,
        };
        proof {
            lemma_stride_step(shape@, d as int);
        }
        strides[d - 1] = next;
        d = d - 1;
    }
    proof {
        assert(strides@ =~= row_major_strides(shape@));
    }
    strides
}

} // verus!

