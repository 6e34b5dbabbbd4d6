use gguf::{GgufFile, GgufResult};
use std::io::{Cursor as IoCursor, Read};

fn write_str(buf: &mut Vec<u8>, s: &str) {
    let b = s.as_bytes();
    buf.extend_from_slice(&(b.len() as u64).to_le_bytes());
    buf.extend_from_slice(b);
}

fn write_scalar_kv(buf: &mut Vec<u8>, key: &str, type_tag: i32, value_bytes: &[u8]) {
    write_str(buf, key);
    buf.extend_from_slice(&type_tag.to_le_bytes());
    buf.extend_from_slice(value_bytes);
}

fn write_tensor(buf: &mut Vec<u8>, name: &str, ne_logical: &[i64], dtype: i32, offset: u64) {
    write_str(buf, name);
    let n_dims = ne_logical.len() as u32;
    buf.extend_from_slice(&n_dims.to_le_bytes());
    for d in ne_logical {
        buf.extend_from_slice(&d.to_le_bytes());
    }
    buf.extend_from_slice(&dtype.to_le_bytes());
    buf.extend_from_slice(&offset.to_le_bytes());
}

fn build_gguf_buffer(
    kv_bytes: &[u8],
    kvs_count: u64,
    tensors: &[(&str, &[i64], i32, u64)],
    data_size: u64,
) -> Vec<u8> {
    let mut buf = Vec::new();
    buf.extend_from_slice(&0x46554747u32.to_le_bytes());
    buf.extend_from_slice(&3u32.to_le_bytes());
    buf.extend_from_slice(&(tensors.len() as i64).to_le_bytes());
    buf.extend_from_slice(&(kvs_count as i64).to_le_bytes());
    buf.extend_from_slice(kv_bytes);
    for (name, ne, dtype, offset) in tensors {
        write_tensor(&mut buf, name, ne, *dtype, *offset);
    }
    let meta_end = buf.len() as u64;
    let align = 32u64;
    let data_start = meta_end.div_ceil(align) * align;
    let total = data_start + data_size;
    buf.resize(total as usize, 0u8);
    buf
}

fn sample_buffer() -> Vec<u8> {
    let mut kv = Vec::new();
    write_scalar_kv(&mut kv, "general.architecture", 8, &str_bytes("llama"));
    write_scalar_kv(&mut kv, "general.name", 8, &str_bytes("ReaderModel"));
    write_scalar_kv(&mut kv, "llama.block_count", 4, &16u32.to_le_bytes());
    let tensors: Vec<(&str, &[i64], i32, u64)> =
        vec![("tok", &[128, 512], 30, 0), ("out", &[512], 0, 262144)];
    build_gguf_buffer(&kv, 3, &tensors, 0)
}

fn str_bytes(s: &str) -> Vec<u8> {
    let b = s.as_bytes();
    let mut v = (b.len() as u64).to_le_bytes().to_vec();
    v.extend_from_slice(b);
    v
}


/// Reads everything, then the metadata in it.
fn from_reader<R: Read>(mut reader: R) -> GgufResult<GgufFile> {
    let mut buf = Vec::new();
    reader.read_to_end(&mut buf).unwrap();
    GgufFile::from_buffer(&buf)
}

#[test]
fn test_from_reader_success() {
    let buf = sample_buffer();
    let via_reader = from_reader(IoCursor::new(buf.clone())).unwrap();
    let via_buffer = GgufFile::from_buffer(&buf).unwrap();

    assert_eq!(via_reader.architecture(), Some("llama"));
    assert_eq!(via_reader.model_name(), Some("ReaderModel"));
    assert_eq!(via_reader.header.n_kv, 3);
    assert_eq!(via_reader.header.n_tensors, 2);
    assert_eq!(via_reader.file_size, via_buffer.file_size);
    assert_eq!(via_reader.data_offset, via_buffer.data_offset);
    assert_eq!(via_reader.tensors.len(), 2);
    assert_eq!(via_reader.tensors[0].shape, vec![128, 512]);
}

#[test]
fn test_from_reader_empty() {
    let res = from_reader(IoCursor::new(Vec::<u8>::new()));
    assert!(res.is_err());
}

#[test]
fn test_from_reader_bad_magic() {
    let mut buf = Vec::new();
    buf.extend_from_slice(b"NOPE");
    buf.extend_from_slice(&3u32.to_le_bytes());
    buf.extend_from_slice(&0i64.to_le_bytes());
    buf.extend_from_slice(&0i64.to_le_bytes());
    let res = from_reader(IoCursor::new(buf));
    assert!(res.is_err());
}

