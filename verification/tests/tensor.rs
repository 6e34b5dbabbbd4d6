use gguf::{GgmlType, GgufError, TensorInfo};

#[test]
fn test_num_elements() {
    let t = TensorInfo {
        name: "t".into(),
        shape: vec![128, 4096],
        dtype: GgmlType::F32,
        offset: 0,
    };
    assert_eq!(t.num_elements(), 128 * 4096);
}

#[test]
fn test_num_elements_empty_shape() {
    let t = TensorInfo {
        name: "t".into(),
        shape: vec![],
        dtype: GgmlType::F32,
        offset: 0,
    };
    assert_eq!(t.num_elements(), 1);
}

#[test]
fn test_num_elements_single() {
    let t = TensorInfo {
        name: "t".into(),
        shape: vec![4096],
        dtype: GgmlType::F32,
        offset: 0,
    };
    assert_eq!(t.num_elements(), 4096);
}

#[test]
fn test_est_data_size_f32() {
    let t = TensorInfo {
        name: "t".into(),
        shape: vec![4096],
        dtype: GgmlType::F32,
        offset: 0,
    };
    assert_eq!(t.est_data_size(), Some(4096 * 4));
}

#[test]
fn test_est_data_size_bf16() {
    let t = TensorInfo {
        name: "embd".into(),
        shape: vec![128256, 4096],
        dtype: GgmlType::BF16,
        offset: 0,
    };
    assert_eq!(t.est_data_size(), Some(128256 * 4096 * 2));
}

#[test]
fn test_est_data_size_quantized_none() {
    let t = TensorInfo {
        name: "t".into(),
        shape: vec![4096, 4096],
        dtype: GgmlType::Q4_K,
        offset: 0,
    };
    assert_eq!(t.est_data_size(), None);
}

#[test]
fn test_est_element_size() {
    let t = TensorInfo {
        name: "t".into(),
        shape: vec![10],
        dtype: GgmlType::F16,
        offset: 0,
    };
    assert_eq!(t.est_element_size(), Some(2));
}

#[test]
fn test_num_elements_3d() {
    let t = TensorInfo {
        name: "t".into(),
        shape: vec![2, 3, 4],
        dtype: GgmlType::F32,
        offset: 0,
    };
    assert_eq!(t.num_elements(), 24);
}

#[test]
fn test_num_elements_with_zero_dim() {
    let t = TensorInfo {
        name: "t".into(),
        shape: vec![0, 5],
        dtype: GgmlType::F32,
        offset: 0,
    };
    assert_eq!(t.num_elements(), 0);
    assert_eq!(t.est_data_size(), Some(0));
}

#[test]
fn test_num_elements_overflow_saturates() {
    let t = TensorInfo {
        name: "huge".into(),
        shape: vec![u64::MAX, 2],
        dtype: GgmlType::F32,
        offset: 0,
    };
    assert_eq!(t.num_elements(), u64::MAX);
    assert_eq!(t.est_data_size(), Some(u64::MAX));
}

#[test]
fn test_num_elements_multi_huge() {
    let t = TensorInfo {
        name: "h".into(),
        shape: vec![u64::MAX / 2, u64::MAX / 2],
        dtype: GgmlType::F32,
        offset: 0,
    };
    assert_eq!(t.num_elements(), u64::MAX);
}

#[test]
fn test_est_data_size_f16_multidim() {
    let t = TensorInfo {
        name: "t".into(),
        shape: vec![10, 20, 30],
        dtype: GgmlType::F16,
        offset: 0,
    };
    assert_eq!(t.est_data_size(), Some(10 * 20 * 30 * 2));
}

#[test]
fn test_q4_0_not_floating_point() {
    let t = TensorInfo {
        name: "t".into(),
        shape: vec![100],
        dtype: GgmlType::Q4_0,
        offset: 0,
    };
    assert_eq!(t.est_element_size(), Some(0));
    assert_eq!(t.est_data_size(), None);
}

#[test]
fn test_data_size_f32() {
    let t = TensorInfo {
        name: "t".into(),
        shape: vec![4096],
        dtype: GgmlType::F32,
        offset: 0,
    };
    assert_eq!(t.data_size().unwrap(), 4096 * 4);
}

#[test]
fn test_data_size_f16() {
    let t = TensorInfo {
        name: "t".into(),
        shape: vec![128256, 4096],
        dtype: GgmlType::F16,
        offset: 0,
    };
    assert_eq!(t.data_size().unwrap(), 128256 * 4096 * 2);
}

#[test]
fn test_data_size_bf16() {
    let t = TensorInfo {
        name: "t".into(),
        shape: vec![100, 200],
        dtype: GgmlType::BF16,
        offset: 0,
    };
    assert_eq!(t.data_size().unwrap(), 100 * 200 * 2);
}

#[test]
fn test_data_size_q4_0() {
    let t = TensorInfo {
        name: "t".into(),
        shape: vec![4096],
        dtype: GgmlType::Q4_0,
        offset: 0,
    };
    assert_eq!(t.data_size().unwrap(), 128 * 18);
}

#[test]
fn test_data_size_q8_0() {
    let t = TensorInfo {
        name: "t".into(),
        shape: vec![1024],
        dtype: GgmlType::Q8_0,
        offset: 0,
    };
    assert_eq!(t.data_size().unwrap(), 32 * 34);
}

#[test]
fn test_data_size_q4_k() {
    let t = TensorInfo {
        name: "t".into(),
        shape: vec![4096, 4096],
        dtype: GgmlType::Q4_K,
        offset: 0,
    };
    assert_eq!(t.data_size().unwrap(), 65536 * 144);
}

#[test]
fn test_data_size_q8_k() {
    let t = TensorInfo {
        name: "t".into(),
        shape: vec![256],
        dtype: GgmlType::Q8_K,
        offset: 0,
    };
    assert_eq!(t.data_size().unwrap(), 292);
}

#[test]
fn test_data_size_non_block_multiple_err() {
    let t = TensorInfo {
        name: "bad".into(),
        shape: vec![33],
        dtype: GgmlType::Q4_0,
        offset: 0,
    };
    assert!(matches!(
        t.data_size(),
        Err(GgufError::InvalidTensorShape { .. })
    ));
}

#[test]
fn test_data_size_unknown_dtype_err() {
    let t = TensorInfo {
        name: "t".into(),
        shape: vec![100],
        dtype: GgmlType::Q4_2,
        offset: 0,
    };
    assert!(matches!(t.data_size(), Err(GgufError::InferenceError(_))));
}

#[test]
fn test_data_size_q2_k() {
    let t = TensorInfo {
        name: "t".into(),
        shape: vec![512],
        dtype: GgmlType::Q2_K,
        offset: 0,
    };
    assert_eq!(t.data_size().unwrap(), 2 * 84);
}

#[test]
fn test_data_size_q6_k() {
    let t = TensorInfo {
        name: "t".into(),
        shape: vec![256],
        dtype: GgmlType::Q6_K,
        offset: 0,
    };
    assert_eq!(t.data_size().unwrap(), 210);
}


#[test]
fn size_that_does_not_fit_is_refused() {
    for shape in [vec![u64::MAX, 2], vec![1 << 62, 1], vec![1 << 63]] {
        let t = TensorInfo {
            name: "huge".into(),
            shape,
            dtype: GgmlType::F32,
            offset: 0,
        };
        assert!(matches!(t.data_size(), Err(GgufError::InvalidTensorShape { .. })));
    }
    let t = TensorInfo {
        name: "large".into(),
        shape: vec![(1 << 62) - 1],
        dtype: GgmlType::F32,
        offset: 0,
    };
    assert_eq!(t.data_size().unwrap(), u64::MAX - 3);
}
