use gguf::infer::ops::check_matvec;

#[test]
fn test_matvec_dim_mismatch() {
    let a = vec![1.0; 4];
    let x = vec![1.0; 3];
    let y = vec![0.0; 2];
    assert!(check_matvec(a.len() as u64, 3, 2, x.len() as u64, y.len() as u64).is_err());
}
