use tensor::error::TensorError;
use tensor::shape::calculate_strides;
use tensor::shape::checked_product;
use tensor::tensor::Tensor;

#[test]
fn stride_table_is_row_major() {
    assert_eq!(calculate_strides(&[2, 3, 4]), vec![12, 4, 1]);
    assert_eq!(calculate_strides(&[6]), vec![1]);
    assert_eq!(calculate_strides(&[]), Vec::<usize>::new());
    assert_eq!(calculate_strides(&[4, 1, 5]), vec![5, 5, 1]);
}

#[test]
fn construction_succeeds_when_lengths_agree() {
    let t = Tensor::new(vec![1.0f32, 2.0, 3.0, 4.0, 5.0, 6.0], vec![2, 3]).unwrap();
    assert_eq!(t.numel(), 6);
    assert_eq!(t.rank(), 2);
    assert_eq!(t.shape(), &[2, 3]);
    assert_eq!(t.data(), &[1.0, 2.0, 3.0, 4.0, 5.0, 6.0]);
}

#[test]
fn construction_of_scalar_tensor() {
    let t = Tensor::new(vec![5.0f32], vec![]).unwrap();
    assert_eq!(t.rank(), 0);
    assert_eq!(t.numel(), 1);
    assert_eq!(*t.get(&[]).unwrap(), 5.0);
}

#[test]
fn construction_with_zero_dimension() {
    let t = Tensor::<f32>::new(vec![], vec![0, 5]).unwrap();
    assert_eq!(t.numel(), 0);
    assert_eq!(t.rank(), 2);
    assert_eq!(
        t.get(&[0, 0]),
        Err(TensorError::IndexOutOfBounds { dim: 0, index: 0, bound: 0 })
    );
}

#[test]
fn construction_fails_on_length_mismatch() {
    let r = Tensor::new(vec![1.0f32, 2.0, 3.0, 4.0, 5.0], vec![2, 3]);
    assert_eq!(
        r,
        Err(TensorError::ShapeMismatch { shape: vec![2, 3], expected: 6, actual: 5 })
    );
}

#[test]
fn construction_fails_on_extra_data_for_empty_shape() {
    let r = Tensor::new(vec![1.0f32, 2.0], vec![]);
    assert_eq!(
        r,
        Err(TensorError::ShapeMismatch { shape: vec![], expected: 1, actual: 2 })
    );
}

#[test]
fn set_then_get_returns_written_value() {
    let mut t = Tensor::new(vec![1.0f32, 2.0, 3.0, 4.0, 5.0, 6.0], vec![2, 3]).unwrap();
    t.set(&[1, 2], 9.5).unwrap();
    assert_eq!(*t.get(&[1, 2]).unwrap(), 9.5);
    // every other element is unchanged
    assert_eq!(t.data(), &[1.0, 2.0, 3.0, 4.0, 5.0, 9.5]);
    assert_eq!(*t.get(&[0, 0]).unwrap(), 1.0);
    assert_eq!(*t.get(&[1, 1]).unwrap(), 5.0);
}

#[test]
fn failed_set_changes_nothing() {
    let mut t = Tensor::new(vec![1.0f32, 2.0, 3.0, 4.0], vec![2, 2]).unwrap();
    assert!(t.set(&[2, 0], 9.0).is_err());
    assert!(t.set(&[0], 9.0).is_err());
    assert_eq!(t.data(), &[1.0, 2.0, 3.0, 4.0]);
    assert_eq!(t.shape(), &[2, 2]);
}

#[test]
fn reshaped_preserves_flat_order() {
    let t = Tensor::new(vec![1.0f32, 2.0, 3.0, 4.0, 5.0, 6.0], vec![2, 3]).unwrap();
    let r = t.reshaped(vec![3, 2]).unwrap();
    assert_eq!(r.data(), &[1.0, 2.0, 3.0, 4.0, 5.0, 6.0]);
    assert_eq!(r.shape(), &[3, 2]);
    // both indices resolve to flat offset 2
    assert_eq!(r.get(&[1, 0]), t.get(&[0, 2]));
    assert_eq!(*r.get(&[1, 0]).unwrap(), 3.0);
}

#[test]
fn reshape_in_place_keeps_buffer() {
    let mut t = Tensor::new(vec![1.0f32, 2.0, 3.0, 4.0, 5.0, 6.0], vec![2, 3]).unwrap();
    t.reshape(vec![6]).unwrap();
    assert_eq!(t.shape(), &[6]);
    assert_eq!(t.data(), &[1.0, 2.0, 3.0, 4.0, 5.0, 6.0]);
    assert_eq!(*t.get(&[4]).unwrap(), 5.0);
}

#[test]
fn reshape_rejects_mismatched_element_count() {
    let mut t = Tensor::new(vec![1.0f32, 2.0, 3.0, 4.0, 5.0, 6.0], vec![2, 3]).unwrap();
    let r = t.reshape(vec![4, 2]);
    assert_eq!(
        r,
        Err(TensorError::ElementCountMismatch {
            new_shape: vec![4, 2],
            new_count: 8,
            current: 6
        })
    );
    // the tensor is exactly as it was
    assert_eq!(t.shape(), &[2, 3]);
    assert_eq!(t.data(), &[1.0, 2.0, 3.0, 4.0, 5.0, 6.0]);

    let r2 = t.reshaped(vec![4, 2]);
    assert_eq!(
        r2,
        Err(TensorError::ElementCountMismatch {
            new_shape: vec![4, 2],
            new_count: 8,
            current: 6
        })
    );
}

#[test]
fn get_rejects_out_of_bounds_index() {
    let t = Tensor::new(vec![0.0f32; 6], vec![2, 3]).unwrap();
    assert_eq!(
        t.get(&[2, 0]),
        Err(TensorError::IndexOutOfBounds { dim: 0, index: 2, bound: 2 })
    );
    assert_eq!(
        t.get(&[1, 3]),
        Err(TensorError::IndexOutOfBounds { dim: 1, index: 3, bound: 3 })
    );
    // the first offending dimension is the one reported
    assert_eq!(
        t.get(&[5, 7]),
        Err(TensorError::IndexOutOfBounds { dim: 0, index: 5, bound: 2 })
    );
}

#[test]
fn get_rejects_wrong_rank() {
    let t = Tensor::new(vec![0.0f32; 6], vec![2, 3]).unwrap();
    assert_eq!(
        t.get(&[0]),
        Err(TensorError::RankMismatch { given: 1, expected: 2 })
    );
    assert_eq!(
        t.get(&[0, 0, 0]),
        Err(TensorError::RankMismatch { given: 3, expected: 2 })
    );
}

#[test]
fn strides_follow_row_major_derivation() {
    // shape [2, 3, 4] has strides [12, 4, 1]: each index entry advances the
    // flat offset by the product of all later dimension sizes
    let data: Vec<f32> = (0..24).map(|i| i as f32).collect();
    let t = Tensor::new(data, vec![2, 3, 4]).unwrap();
    assert_eq!(*t.get(&[0, 0, 1]).unwrap(), 1.0);
    assert_eq!(*t.get(&[0, 1, 0]).unwrap(), 4.0);
    assert_eq!(*t.get(&[1, 0, 0]).unwrap(), 12.0);
    assert_eq!(*t.get(&[1, 2, 3]).unwrap(), 23.0);
}

#[test]
fn full_fills_every_element() {
    let t = Tensor::full(vec![2, 2], 7.0f32).unwrap();
    assert_eq!(t.numel(), 4);
    assert_eq!(t.data(), &[7.0, 7.0, 7.0, 7.0]);

    let z = Tensor::full(vec![3, 3], 0.0f32).unwrap();
    assert_eq!(z.numel(), 9);
    assert!(z.data().iter().all(|&v| v == 0.0));
}

#[test]
fn repeated_reads_are_identical() {
    let t = Tensor::new(vec![1.0f32, 2.0, 3.0, 4.0], vec![2, 2]).unwrap();
    assert_eq!(t.shape(), t.shape());
    assert_eq!(t.data(), t.data());
    assert_eq!(t.numel(), t.numel());
    assert_eq!(t.rank(), t.rank());
}

#[test]
fn reshaped_buffers_are_independent() {
    let t = Tensor::new(vec![1.0f32, 2.0, 3.0, 4.0, 5.0, 6.0], vec![2, 3]).unwrap();
    let mut r = t.reshaped(vec![3, 2]).unwrap();
    r.set(&[0, 0], 99.0).unwrap();
    assert_eq!(t.data(), &[1.0, 2.0, 3.0, 4.0, 5.0, 6.0]);

    let mut t2 = Tensor::new(vec![1.0f32, 2.0], vec![2]).unwrap();
    let r2 = t2.reshaped(vec![1, 2]).unwrap();
    t2.set(&[0], 42.0).unwrap();
    assert_eq!(r2.data(), &[1.0, 2.0]);
}

#[test]
fn get_mut_writes_through() {
    let mut t = Tensor::new(vec![1.0f32, 2.0, 3.0, 4.0, 5.0, 6.0], vec![2, 3]).unwrap();
    *t.get_mut(&[0, 2]).unwrap() = 8.25;
    assert_eq!(t.data(), &[1.0, 2.0, 8.25, 4.0, 5.0, 6.0]);
    assert_eq!(
        t.get_mut(&[0, 3]).unwrap_err(),
        TensorError::IndexOutOfBounds { dim: 1, index: 3, bound: 3 }
    );
    assert_eq!(
        t.get_mut(&[0]).unwrap_err(),
        TensorError::RankMismatch { given: 1, expected: 2 }
    );
}

#[test]
fn data_mut_writes_into_flat_buffer() {
    let mut t = Tensor::new(vec![1.0f32, 2.0, 3.0, 4.0], vec![2, 2]).unwrap();
    t.data_mut()[3] = 11.0;
    assert_eq!(*t.get(&[1, 1]).unwrap(), 11.0);
    assert_eq!(t.data(), &[1.0, 2.0, 3.0, 11.0]);
}

#[test]
fn generic_over_integer_elements() {
    let mut t = Tensor::new(vec![1u32, 2, 3, 4, 5, 6], vec![3, 2]).unwrap();
    assert_eq!(*t.get(&[2, 1]).unwrap(), 6);
    t.set(&[0, 1], 20).unwrap();
    assert_eq!(t.data(), &[1, 20, 3, 4, 5, 6]);
}

#[test]
fn element_counts_with_and_without_overflow() {
    assert_eq!(checked_product(&[2, 3, 4]), Some(24));
    assert_eq!(checked_product(&[]), Some(1));
    assert_eq!(checked_product(&[7, 0, 9]), Some(0));
    assert_eq!(checked_product(&[usize::MAX, 2]), None);
    // a zero dimension wins over any overflow in the other dimensions
    assert_eq!(checked_product(&[0, usize::MAX, usize::MAX]), Some(0));
}

#[test]
fn oversized_shape_is_rejected_at_construction() {
    let r = Tensor::new(vec![0.0f32; 2], vec![usize::MAX, 2]);
    assert_eq!(
        r,
        Err(TensorError::ShapeMismatch {
            shape: vec![usize::MAX, 2],
            expected: usize::MAX,
            actual: 2
        })
    );
}
