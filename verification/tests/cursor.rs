use gguf::cursor::Cursor;
use gguf::GgufError;

#[test]
fn test_read_scalars() {
    let mut buf = Vec::new();
    buf.extend_from_slice(&42u8.to_le_bytes());
    buf.extend_from_slice(&(-7i8).to_le_bytes());
    buf.extend_from_slice(&0x1234u16.to_le_bytes());
    buf.extend_from_slice(&(-5678i16).to_le_bytes());
    buf.extend_from_slice(&0xdeadbeef_u32.to_le_bytes());
    buf.extend_from_slice(&(-123456i32).to_le_bytes());
    buf.extend_from_slice(&1.5f32.to_le_bytes());
    buf.extend_from_slice(&0x0102030405060708_u64.to_le_bytes());
    buf.extend_from_slice(&(-9876543210123i64).to_le_bytes());
    buf.extend_from_slice(&2.5f64.to_le_bytes());
    buf.extend_from_slice(&1i8.to_le_bytes());

    let mut c = Cursor::new(&buf);
    assert_eq!(c.u8().unwrap(), 42);
    assert_eq!(c.i8().unwrap(), -7);
    assert_eq!(c.u16().unwrap(), 0x1234);
    assert_eq!(c.i16().unwrap(), -5678);
    assert_eq!(c.u32().unwrap(), 0xdeadbeef);
    assert_eq!(c.i32().unwrap(), -123456);
    assert_eq!(f32::from_bits(c.f32_bits().unwrap()), 1.5f32);
    assert_eq!(c.u64().unwrap(), 0x0102030405060708);
    assert_eq!(c.i64().unwrap(), -9876543210123);
    assert_eq!(f64::from_bits(c.f64_bits().unwrap()), 2.5f64);
    assert!(c.bool().unwrap());
    assert_eq!(c.remaining(), 0);
}

#[test]
fn test_read_string() {
    let mut buf = Vec::new();
    let s = "hello";
    buf.extend_from_slice(&(s.len() as u64).to_le_bytes());
    buf.extend_from_slice(s.as_bytes());

    let mut c = Cursor::new(&buf);
    assert_eq!(c.string().unwrap(), "hello");
}

#[test]
fn test_empty_string() {
    let mut buf = Vec::new();
    buf.extend_from_slice(&0u64.to_le_bytes());
    let mut c = Cursor::new(&buf);
    assert_eq!(c.string().unwrap(), "");
}

#[test]
fn test_out_of_bounds() {
    let buf = [1u8, 2, 3];
    let mut c = Cursor::new(&buf);
    assert!(matches!(c.u64(), Err(GgufError::OutOfBounds { .. })));
}

#[test]
fn test_string_oob() {
    let mut buf = Vec::new();
    buf.extend_from_slice(&100u64.to_le_bytes());
    buf.extend_from_slice(&[1, 2, 3]);
    let mut c = Cursor::new(&buf);
    assert!(matches!(c.string(), Err(GgufError::OutOfBounds { .. })));
}

#[test]
fn test_invalid_utf8() {
    let mut buf = Vec::new();
    buf.extend_from_slice(&3u64.to_le_bytes());
    buf.extend_from_slice(&[0xff, 0xfe, 0xfd]);
    let mut c = Cursor::new(&buf);
    assert!(matches!(c.string(), Err(GgufError::InvalidStringLength(_))));
}

