use gguf::types::{format_finite, Piece};
use gguf::{value_to_json, GgmlType, GgufArray, GgufError, GgufType, GgufValue, Json};
use serde_json::Value;

/// A text in pieces, put together.
fn joined(pieces: Vec<Piece>) -> String {
    let mut s = String::new();
    for p in pieces {
        match p {
            Piece::Text(t) => s.push_str(&t),
            Piece::Number(b) => s.push_str(&format!("{}", f64::from_bits(b))),
        }
    }
    s
}

fn show(v: &GgufValue) -> String {
    joined(v.display())
}

fn finite(v: f64) -> String {
    joined(vec![format_finite(v.to_bits())])
}

fn single(v: f32) -> GgufValue {
    GgufValue::F32(v.to_bits())
}

fn double(v: f64) -> GgufValue {
    GgufValue::F64(v.to_bits())
}

/// A document as the JSON crate has it.
fn value(j: &Json) -> Value {
    match j {
        Json::Null => Value::Null,
        Json::Bool(b) => Value::from(*b),
        Json::U64(n) => Value::from(*n),
        Json::I64(n) => Value::from(*n),
        Json::Float(b) => Value::from(f64::from_bits(*b)),
        Json::String(s) => Value::from(s.clone()),
        Json::Array(v) => Value::Array(v.iter().map(value).collect()),
        Json::Object(m) => {
            let mut map = serde_json::Map::new();
            for (k, v) in m {
                map.insert(k.clone(), value(v));
            }
            Value::Object(map)
        }
    }
}

fn json(v: &GgufValue, limit: Option<usize>) -> Value {
    value(&value_to_json(v, limit))
}

#[test]
fn test_gguf_type_from_i32() {
    for i in 0..=12 {
        assert!(GgufType::from_i32(i).is_ok());
    }
    assert_eq!(GgufType::from_i32(0).unwrap(), GgufType::Uint8);
    assert_eq!(GgufType::from_i32(9).unwrap(), GgufType::Array);
    assert_eq!(GgufType::from_i32(12).unwrap(), GgufType::F64);
    assert!(matches!(
        GgufType::from_i32(13),
        Err(GgufError::InvalidGgufType(13))
    ));
    assert!(matches!(
        GgufType::from_i32(-1),
        Err(GgufError::InvalidGgufType(-1))
    ));
}

#[test]
fn test_gguf_type_min_size() {
    assert_eq!(GgufType::Uint8.min_element_size(), 1);
    assert_eq!(GgufType::Uint32.min_element_size(), 4);
    assert_eq!(GgufType::Uint64.min_element_size(), 8);
    assert_eq!(GgufType::String.min_element_size(), 8);
}

#[test]
fn test_ggml_type_from_i32() {
    assert_eq!(GgmlType::from_i32(0), GgmlType::F32);
    assert_eq!(GgmlType::from_i32(30), GgmlType::BF16);
    assert_eq!(GgmlType::from_i32(99), GgmlType::Unknown(99));
    assert_eq!(GgmlType::Unknown(99).to_string(), "UnknownType(99)");
}

#[test]
fn test_ggml_type_element_size() {
    assert_eq!(GgmlType::F32.element_size(), Some(4));
    assert_eq!(GgmlType::F16.element_size(), Some(2));
    assert_eq!(GgmlType::BF16.element_size(), Some(2));
    assert_eq!(GgmlType::Q4_0.element_size(), Some(0));
    assert_eq!(GgmlType::Q4_K.element_size(), None);
}

#[test]
fn test_value_type() {
    assert_eq!(GgufValue::U8(1).value_type(), GgufType::Uint8);
    assert_eq!(GgufValue::String("a".into()).value_type(), GgufType::String);
    assert_eq!(
        GgufValue::Array(GgufArray {
            elem_type: GgufType::F32,
            data: vec![]
        })
        .value_type(),
        GgufType::Array
    );
}

#[test]
fn test_as_i64_as_f64() {
    assert_eq!(GgufValue::I32(-5).as_i64(), Some(-5));
    assert_eq!(GgufValue::U32(100).as_i64(), Some(100));
    assert_eq!(GgufValue::I64(-999).as_i64(), Some(-999));
    assert!(GgufValue::U64(u64::MAX).as_i64().is_none());
    assert!(GgufValue::String("x".into()).as_i64().is_none());
    assert_eq!(single(1.5).as_f64().map(f64::from_bits), Some(1.5));
    assert_eq!(GgufValue::I32(42).as_f64().map(f64::from_bits), Some(42.0));
    assert_eq!(GgufValue::Bool(true).as_f64().map(f64::from_bits), Some(1.0));
}

#[test]
fn test_display() {
    assert_eq!(show(&GgufValue::U32(32)), "U32(32)");
    assert_eq!(show(&GgufValue::String("hi".into())), "\"hi\"");
    assert_eq!(show(&GgufValue::Bool(true)), "true");
    let arr = GgufValue::Array(GgufArray {
        elem_type: GgufType::String,
        data: vec![
            GgufValue::String("<s>".into()),
            GgufValue::String("</s>".into()),
        ],
    });
    assert_eq!(show(&arr), r#"["<s>", "</s>"]"#);
    let big = GgufValue::Array(GgufArray {
        elem_type: GgufType::F32,
        data: (0..10).map(|i| single(i as f32)).collect(),
    });
    assert!(show(&big).contains("10 elements"));
}

#[test]
fn test_format_finite() {
    assert_eq!(finite(f64::NAN), "NaN");
    assert_eq!(finite(f64::INFINITY), "+Inf");
    assert_eq!(finite(3.0), "3.0");
    assert_eq!(finite(3.5), "3.5");
}

#[test]
fn test_value_type_all_variants() {
    assert_eq!(GgufValue::U8(0).value_type(), GgufType::Uint8);
    assert_eq!(GgufValue::I8(0).value_type(), GgufType::Int8);
    assert_eq!(GgufValue::U16(0).value_type(), GgufType::Uint16);
    assert_eq!(GgufValue::I16(0).value_type(), GgufType::Int16);
    assert_eq!(GgufValue::U32(0).value_type(), GgufType::Uint32);
    assert_eq!(GgufValue::I32(0).value_type(), GgufType::Int32);
    assert_eq!(single(0.0).value_type(), GgufType::F32);
    assert_eq!(GgufValue::Bool(true).value_type(), GgufType::Bool);
    assert_eq!(GgufValue::String("".into()).value_type(), GgufType::String);
    assert_eq!(GgufValue::U64(0).value_type(), GgufType::Uint64);
    assert_eq!(GgufValue::I64(0).value_type(), GgufType::Int64);
    assert_eq!(double(0.0).value_type(), GgufType::F64);
}

#[test]
fn test_as_str_as_bool_negative() {
    assert!(GgufValue::U32(1).as_str().is_none());
    assert!(GgufValue::Bool(true).as_str().is_none());
    assert!(GgufValue::U32(1).as_bool().is_none());
    assert!(GgufValue::String("x".into()).as_bool().is_none());
    assert_eq!(GgufValue::Bool(false).as_bool(), Some(false));
    assert_eq!(GgufValue::String("ok".into()).as_str(), Some("ok"));
}

#[test]
fn test_display_f32_f64_special() {
    assert_eq!(show(&single(f32::NAN)), "NaN");
    assert_eq!(show(&single(f32::INFINITY)), "+Inf");
    assert_eq!(show(&single(f32::NEG_INFINITY)), "-Inf");
    assert_eq!(show(&double(f64::NAN)), "NaN");
    assert_eq!(show(&double(1.25)), "1.25");
    assert_eq!(show(&double(2.0)), "2.0");
}

#[test]
fn test_gguf_type_display() {
    assert_eq!(GgufType::Uint8.to_string(), "uint8");
    assert_eq!(GgufType::Int64.to_string(), "int64");
    assert_eq!(GgufType::F32.to_string(), "float32");
    assert_eq!(GgufType::F64.to_string(), "float64");
    assert_eq!(GgufType::Bool.to_string(), "bool");
    assert_eq!(GgufType::String.to_string(), "string");
    assert_eq!(GgufType::Array.to_string(), "array");
}

#[test]
fn test_ggml_type_display_unknown() {
    assert_eq!(GgmlType::F32.to_string(), "F32");
    assert_eq!(GgmlType::Q4_K.to_string(), "Q4_K");
    assert_eq!(GgmlType::BF16.to_string(), "BF16");
    assert_eq!(GgmlType::Unknown(-3).to_string(), "UnknownType(-3)");
}

#[test]
fn test_is_floating_point() {
    assert!(GgmlType::F32.is_floating_point());
    assert!(GgmlType::F16.is_floating_point());
    assert!(GgmlType::BF16.is_floating_point());
    assert!(!GgmlType::Q4_0.is_floating_point());
    assert!(!GgmlType::Q8_K.is_floating_point());
    assert!(!GgmlType::Unknown(99).is_floating_point());
}

#[test]
fn test_ggml_type_block_size_bytes() {
    assert_eq!(GgmlType::F32.block_size(), Some(1));
    assert_eq!(GgmlType::F32.block_bytes(), Some(4));
    assert_eq!(GgmlType::F16.block_size(), Some(1));
    assert_eq!(GgmlType::F16.block_bytes(), Some(2));
    assert_eq!(GgmlType::BF16.block_size(), Some(1));
    assert_eq!(GgmlType::BF16.block_bytes(), Some(2));
    assert_eq!(GgmlType::Q4_0.block_size(), Some(32));
    assert_eq!(GgmlType::Q4_0.block_bytes(), Some(18));
    assert_eq!(GgmlType::Q4_1.block_size(), Some(32));
    assert_eq!(GgmlType::Q4_1.block_bytes(), Some(20));
    assert_eq!(GgmlType::Q5_0.block_size(), Some(32));
    assert_eq!(GgmlType::Q5_0.block_bytes(), Some(22));
    assert_eq!(GgmlType::Q5_1.block_size(), Some(32));
    assert_eq!(GgmlType::Q5_1.block_bytes(), Some(24));
    assert_eq!(GgmlType::Q8_0.block_size(), Some(32));
    assert_eq!(GgmlType::Q8_0.block_bytes(), Some(34));
    assert_eq!(GgmlType::Q2_K.block_size(), Some(256));
    assert_eq!(GgmlType::Q2_K.block_bytes(), Some(84));
    assert_eq!(GgmlType::Q3_K_S.block_size(), Some(256));
    assert_eq!(GgmlType::Q3_K_S.block_bytes(), Some(110));
    assert_eq!(GgmlType::Q3_K_M.block_size(), Some(256));
    assert_eq!(GgmlType::Q3_K_M.block_bytes(), Some(114));
    assert_eq!(GgmlType::Q3_K_L.block_size(), Some(256));
    assert_eq!(GgmlType::Q3_K_L.block_bytes(), Some(110));
    assert_eq!(GgmlType::Q4_K.block_size(), Some(256));
    assert_eq!(GgmlType::Q4_K.block_bytes(), Some(144));
    assert_eq!(GgmlType::Q5_K.block_size(), Some(256));
    assert_eq!(GgmlType::Q5_K.block_bytes(), Some(176));
    assert_eq!(GgmlType::Q6_K.block_size(), Some(256));
    assert_eq!(GgmlType::Q6_K.block_bytes(), Some(210));
    assert_eq!(GgmlType::Q8_K.block_size(), Some(256));
    assert_eq!(GgmlType::Q8_K.block_bytes(), Some(292));
    assert_eq!(GgmlType::Q4_2.block_size(), None);
    assert_eq!(GgmlType::Q4_2.block_bytes(), None);
    assert_eq!(GgmlType::Unknown(99).block_size(), None);
    assert_eq!(GgmlType::Unknown(99).block_bytes(), None);
}

#[test]
fn test_as_i64_all_int_variants() {
    assert_eq!(GgufValue::U8(u8::MAX).as_i64(), Some(255));
    assert_eq!(GgufValue::I8(i8::MIN).as_i64(), Some(-128));
    assert_eq!(GgufValue::U16(u16::MAX).as_i64(), Some(65535));
    assert_eq!(GgufValue::I16(i16::MIN).as_i64(), Some(-32768));
    assert_eq!(GgufValue::U32(u32::MAX).as_i64(), Some(4294967295));
    assert_eq!(GgufValue::I32(i32::MIN).as_i64(), Some(-2147483648));
    assert_eq!(GgufValue::U64(0).as_i64(), Some(0));
    assert_eq!(GgufValue::U64(u64::MAX).as_i64(), None);
    assert_eq!(GgufValue::I64(i64::MAX).as_i64(), Some(i64::MAX));
}

#[test]
fn test_value_to_json_scalars() {
        assert_eq!(json(&GgufValue::U8(7), None), Value::from(7));
    assert_eq!(json(&GgufValue::I8(-5), None), Value::from(-5));
    assert_eq!(json(&GgufValue::U16(65535), None), Value::from(65535));
    assert_eq!(json(&GgufValue::I16(-1234), None), Value::from(-1234));
    assert_eq!(
        json(&GgufValue::U32(0xDEADBEEF), None),
        Value::from(0xDEADBEEFu32)
    );
    assert_eq!(json(&GgufValue::I32(-99999), None), Value::from(-99999));
    assert_eq!(json(&GgufValue::U64(1), None), Value::from(1));
    assert_eq!(
        json(&GgufValue::I64(-12345678901234), None),
        Value::from(-12345678901234i64)
    );
    assert_eq!(json(&GgufValue::Bool(true), None), Value::from(true));
    assert_eq!(json(&GgufValue::Bool(false), None), Value::from(false));
    assert_eq!(
        json(&GgufValue::String("hi".into()), None),
        Value::from("hi")
    );
    let a = json(&single(1.5), None);
    assert_eq!(a.as_f64(), Some(1.5));
    let b = json(&double(2.25), None);
    assert_eq!(b.as_f64(), Some(2.25));
}

#[test]
fn test_value_to_json_small_array() {
        let arr = GgufValue::Array(GgufArray {
        elem_type: GgufType::Uint32,
        data: vec![GgufValue::U32(1), GgufValue::U32(2), GgufValue::U32(3)],
    });
    let v = json(&arr, Some(1000));
    assert_eq!(v["element_type"], "uint32");
    assert_eq!(v["count"], 3);
    assert_eq!(v["value"], Value::from(vec![1, 2, 3]));
    assert!(v.get("truncated").is_none());
}

#[test]
fn test_value_to_json_truncated_array() {
    let data: Vec<GgufValue> = (0..1500).map(|i| GgufValue::U32(i as u32)).collect();
    let arr = GgufValue::Array(GgufArray {
        elem_type: GgufType::Uint32,
        data,
    });
    let v = json(&arr, Some(1000));
    assert_eq!(v["count"], 1500);
    assert_eq!(v["truncated"], true);
    assert_eq!(v["total"], 1500);
    let shown = v["value"].as_array().unwrap();
    assert_eq!(shown.len(), 1000);
    assert_eq!(shown[0], Value::from(0));
    assert_eq!(shown[999], Value::from(999));
}

#[test]
fn test_value_to_json_no_limit() {
    let data: Vec<GgufValue> = (0..50).map(|i| GgufValue::U8(i as u8)).collect();
    let arr = GgufValue::Array(GgufArray {
        elem_type: GgufType::Uint8,
        data,
    });
    let v = json(&arr, None);
    assert_eq!(v["count"], 50);
    assert_eq!(v["value"].as_array().unwrap().len(), 50);
    assert!(v.get("truncated").is_none());
}


#[test]
fn every_integer_has_a_nearest_number() {
    for v in [0u64, 1, (1 << 53) + 1, (1 << 53) + 3, 1 << 63, u64::MAX, u64::MAX - 1024, u64::MAX - 1025] {
        assert_eq!(GgufValue::U64(v).as_f64().map(f64::from_bits), Some(v as f64), "{v}");
    }
    assert_eq!(
        GgufValue::U64(u64::MAX).as_f64().map(f64::from_bits),
        Some(18446744073709551616.0)
    );
    assert_eq!(GgufValue::U64(u64::MAX).as_i64(), None);
    for v in [i64::MIN, -1, i64::MAX, -(1 << 53) - 1] {
        assert_eq!(GgufValue::I64(v).as_f64().map(f64::from_bits), Some(v as f64), "{v}");
    }
}
