use gguf::infer::cache::{Cache, KvCache};

#[test]
fn test_append_and_get() {
    let mut c = KvCache::new(2, 4);
    assert_eq!(c.seq_len(), 0);
    assert_eq!(c.get_k().len(), 0);

    let k0 = vec![0.1f32; 8];
    let v0 = vec![0.2f32; 8];
    c.append(&k0, &v0);
    assert_eq!(c.seq_len(), 1);
    assert_eq!(c.get_k().len(), 8);

    let k1 = vec![0.3f32; 8];
    let v1 = vec![0.4f32; 8];
    c.append(&k1, &v1);
    assert_eq!(c.seq_len(), 2);
    assert_eq!(c.get_v().len(), 16);
}

#[test]
fn test_k_at_v_at() {
    let mut c = KvCache::new(2, 2);
    c.append(&[1.0f32, 2.0, 3.0, 4.0], &[10.0f32, 20.0, 30.0, 40.0]);
    let k0 = c.k_at(0, 0).unwrap();
    assert_eq!(k0, &[1.0f32, 2.0]);
    let k1 = c.k_at(0, 1).unwrap();
    assert_eq!(k1, &[3.0f32, 4.0]);
    let v0 = c.v_at(0, 0).unwrap();
    assert_eq!(v0, &[10.0f32, 20.0]);
    assert!(c.k_at(1, 0).is_none());
}

#[test]
fn test_truncate() {
    let mut c = KvCache::new(2, 2);
    for i in 0..4u32 {
        let k: Vec<f32> = vec![i as f32; 4];
        let v: Vec<f32> = vec![(i + 100) as f32; 4];
        c.append(&k, &v);
    }
    assert_eq!(c.seq_len(), 4);
    c.truncate(2);
    assert_eq!(c.seq_len(), 2);
    assert_eq!(c.get_k().len(), 8);
    assert_eq!(c.k_at(0, 0).unwrap(), &[0.0f32, 0.0]);
    assert_eq!(c.k_at(1, 0).unwrap(), &[1.0f32, 1.0]);
    assert!(c.k_at(2, 0).is_none());
}

#[test]
fn test_clear() {
    let mut c = KvCache::new(2, 4);
    c.append(&[0.0f32; 8], &[0.0f32; 8]);
    assert_eq!(c.seq_len(), 1);
    c.clear();
    assert_eq!(c.seq_len(), 0);
    assert_eq!(c.get_k().len(), 0);
    assert_eq!(c.get_v().len(), 0);
}

#[test]
fn test_append_short_ignored() {
    let mut c = KvCache::new(2, 4);
    c.append(&[0.0f32; 3], &[0.0f32; 3]);
    assert_eq!(c.seq_len(), 0);
}

#[test]
fn test_cache_layers() {
    let mut cache = Cache::new(3, 2, 4);
    assert_eq!(cache.n_layers(), 3);
    assert!(cache.layer(0).is_some());
    assert!(cache.layer(3).is_none());
    if let Some(l) = cache.layer_mut(1) {
        l.append(&[0.5f32; 8], &[0.6f32; 8]);
    }
    assert_eq!(cache.layer(0).unwrap().seq_len(), 0);
    assert_eq!(cache.layer(1).unwrap().seq_len(), 1);
    assert_eq!(cache.layer(2).unwrap().seq_len(), 0);
    cache.truncate_all(0);
    assert_eq!(cache.layer(1).unwrap().seq_len(), 0);
}

