use gguf::{GgmlType, GgufError, GgufFile, GgufValue, GGUF_MAGIC, GGUF_VERSION};

fn build_test_gguf(
    kvs: &[(Vec<u8>, Vec<u8>)],
    tensors: &[(Vec<u8>, Vec<i64>, i32, u64)],
) -> Vec<u8> {
    let mut buf = Vec::new();
    buf.extend_from_slice(&GGUF_MAGIC.to_le_bytes());
    buf.extend_from_slice(&GGUF_VERSION.to_le_bytes());
    buf.extend_from_slice(&(tensors.len() as i64).to_le_bytes());
    buf.extend_from_slice(&(kvs.len() as i64).to_le_bytes());
    for (k, v) in kvs {
        write_str(&mut buf, k);
        buf.extend_from_slice(v);
    }
    for (name, ne, dtype, offset) in tensors {
        write_str(&mut buf, name);
        buf.extend_from_slice(&(ne.len() as u32).to_le_bytes());
        for d in ne {
            buf.extend_from_slice(&d.to_le_bytes());
        }
        buf.extend_from_slice(&dtype.to_le_bytes());
        buf.extend_from_slice(&offset.to_le_bytes());
    }
    buf
}

fn write_str(buf: &mut Vec<u8>, s: &[u8]) {
    buf.extend_from_slice(&(s.len() as u64).to_le_bytes());
    buf.extend_from_slice(s);
}

fn kv_u32(key: &str, val: u32) -> (Vec<u8>, Vec<u8>) {
    let mut v = Vec::new();
    v.extend_from_slice(&4i32.to_le_bytes());
    v.extend_from_slice(&val.to_le_bytes());
    (key.as_bytes().to_vec(), v)
}

fn kv_str(key: &str, val: &str) -> (Vec<u8>, Vec<u8>) {
    let mut v = Vec::new();
    v.extend_from_slice(&8i32.to_le_bytes());
    v.extend_from_slice(&(val.len() as u64).to_le_bytes());
    v.extend_from_slice(val.as_bytes());
    (key.as_bytes().to_vec(), v)
}


#[test]
fn test_parse_minimal() {
    let kvs = vec![
        kv_str("general.architecture", "llama"),
        kv_u32("llama.block_count", 32),
    ];
    let tensors = vec![
        ("tok".as_bytes().to_vec(), vec![128, 4096], 30, 0),
        ("out".as_bytes().to_vec(), vec![4096], 0, 1024),
    ];
    let buf = build_test_gguf(&kvs, &tensors);
    let f = GgufFile::from_buffer(&buf).unwrap();
    assert_eq!(f.header.version, 3);
    assert_eq!(f.header.n_kv, 2);
    assert_eq!(f.header.n_tensors, 2);
    assert_eq!(f.architecture(), Some("llama"));
    assert_eq!(f.get("llama.block_count").unwrap(), &GgufValue::U32(32));
    assert_eq!(f.tensors[0].name, "tok");
    assert_eq!(f.tensors[0].shape, vec![128, 4096]);
    assert_eq!(f.tensors[0].dtype, GgmlType::BF16);
    assert_eq!(f.tensors[0].offset, 0);
    assert_eq!(f.tensors[1].name, "out");
    assert_eq!(f.tensors[1].shape, vec![4096]);
    assert_eq!(f.tensors[1].dtype, GgmlType::F32);
    assert_eq!(f.alignment, 32);
    assert!(f.data_offset >= buf.len() as u64);
    assert_eq!(f.file_size, buf.len() as u64);
}

#[test]
fn test_alignment_from_kv() {
    let kvs = vec![kv_u32("general.alignment", 16)];
    let tensors: Vec<_> = vec![];
    let buf = build_test_gguf(&kvs, &tensors);
    let f = GgufFile::from_buffer(&buf).unwrap();
    assert_eq!(f.alignment, 16);
}

#[test]
fn file_test_invalid_magic() {
    let mut buf = Vec::new();
    buf.extend_from_slice(b"XXXX");
    buf.extend_from_slice(&3u32.to_le_bytes());
    buf.extend_from_slice(&0i64.to_le_bytes());
    buf.extend_from_slice(&0i64.to_le_bytes());
    assert!(matches!(
        GgufFile::from_buffer(&buf),
        Err(GgufError::InvalidMagic(_))
    ));
}

#[test]
fn file_test_invalid_version() {
    let mut buf = Vec::new();
    buf.extend_from_slice(&GGUF_MAGIC.to_le_bytes());
    buf.extend_from_slice(&99u32.to_le_bytes());
    buf.extend_from_slice(&0i64.to_le_bytes());
    buf.extend_from_slice(&0i64.to_le_bytes());
    assert!(matches!(
        GgufFile::from_buffer(&buf),
        Err(GgufError::UnsupportedVersion(99))
    ));
}

#[test]
fn test_empty_buffer() {
    assert!(matches!(
        GgufFile::from_buffer(&[]),
        Err(GgufError::OutOfBounds { .. })
    ));
}

#[test]
fn test_truncated_header() {
    let buf = [0x47, 0x47];
    assert!(GgufFile::from_buffer(&buf).is_err());
}

#[test]
fn test_negative_n_kv() {
    let mut buf = Vec::new();
    buf.extend_from_slice(&GGUF_MAGIC.to_le_bytes());
    buf.extend_from_slice(&GGUF_VERSION.to_le_bytes());
    buf.extend_from_slice(&0i64.to_le_bytes());
    buf.extend_from_slice(&(-1i64).to_le_bytes());
    assert!(matches!(
        GgufFile::from_buffer(&buf),
        Err(GgufError::InvalidCount { .. })
    ));
}

