use gguf::{value_to_json, GgufArray, GgufFile, GgufType, GgufValue, Json};
use serde_json::Value;

/// A document as the JSON crate has it.
fn value(j: &Json) -> Value {
    match j {
        Json::Null => Value::Null,
        Json::Bool(b) => Value::from(*b),
        Json::U64(n) => Value::from(*n),
        Json::I64(n) => Value::from(*n),
        Json::Float(b) => Value::from(f64::from_bits(*b)),
        Json::String(s) => Value::from(s.clone()),
        Json::Array(v) => Value::Array(v.iter().map(value).collect()),
        Json::Object(m) => {
            let mut map = serde_json::Map::new();
            for (k, v) in m {
                map.insert(k.clone(), value(v));
            }
            Value::Object(map)
        }
    }
}

fn json(v: &GgufValue, limit: Option<usize>) -> Value {
    value(&value_to_json(v, limit))
}

fn write_str(buf: &mut Vec<u8>, s: &str) {
    let b = s.as_bytes();
    buf.extend_from_slice(&(b.len() as u64).to_le_bytes());
    buf.extend_from_slice(b);
}

fn write_scalar_kv(buf: &mut Vec<u8>, key: &str, type_tag: i32, value_bytes: &[u8]) {
    write_str(buf, key);
    buf.extend_from_slice(&type_tag.to_le_bytes());
    buf.extend_from_slice(value_bytes);
}

fn write_array_kv(buf: &mut Vec<u8>, key: &str, elem_type: i32, elements: &[Vec<u8>]) {
    write_str(buf, key);
    buf.extend_from_slice(&9i32.to_le_bytes());
    buf.extend_from_slice(&elem_type.to_le_bytes());
    buf.extend_from_slice(&(elements.len() as u64).to_le_bytes());
    for e in elements {
        buf.extend_from_slice(e);
    }
}

fn write_tensor(buf: &mut Vec<u8>, name: &str, ne_logical: &[i64], dtype: i32, offset: u64) {
    write_str(buf, name);
    let n_dims = ne_logical.len() as u32;
    buf.extend_from_slice(&n_dims.to_le_bytes());
    for d in ne_logical {
        buf.extend_from_slice(&d.to_le_bytes());
    }
    buf.extend_from_slice(&dtype.to_le_bytes());
    buf.extend_from_slice(&offset.to_le_bytes());
}

fn build_gguf_buffer(
    kv_bytes: &[u8],
    kvs_count: u64,
    tensors: &[(&str, &[i64], i32, u64)],
    data_size: u64,
) -> Vec<u8> {
    let mut buf = Vec::new();
    buf.extend_from_slice(&0x46554747u32.to_le_bytes());
    buf.extend_from_slice(&3u32.to_le_bytes());
    buf.extend_from_slice(&(tensors.len() as i64).to_le_bytes());
    buf.extend_from_slice(&(kvs_count as i64).to_le_bytes());
    buf.extend_from_slice(kv_bytes);
    for (name, ne, dtype, offset) in tensors {
        write_tensor(&mut buf, name, ne, *dtype, *offset);
    }
    let meta_end = buf.len() as u64;
    let align = 32u64;
    let data_start = meta_end.div_ceil(align) * align;
    let total = data_start + data_size;
    buf.resize(total as usize, 0u8);
    buf
}

fn string_value_bytes(s: &str) -> Vec<u8> {
    let b = s.as_bytes();
    let mut v = (b.len() as u64).to_le_bytes().to_vec();
    v.extend_from_slice(b);
    v
}

fn chunks(bytes: &[u8], chunk: usize) -> Vec<Vec<u8>> {
    bytes.chunks(chunk).map(|c| c.to_vec()).collect()
}

#[test]
fn test_json_scalars_direct() {
    assert_eq!(json(&GgufValue::U8(200), None), Value::from(200));
    assert_eq!(json(&GgufValue::I8(-100), None), Value::from(-100));
    assert_eq!(json(&GgufValue::U16(60000), None), Value::from(60000));
    assert_eq!(json(&GgufValue::I16(-30000), None), Value::from(-30000));
    assert_eq!(
        json(&GgufValue::U32(4_000_000_000u32), None),
        Value::from(4_000_000_000u32)
    );
    assert_eq!(
        json(&GgufValue::I32(-2_000_000_000i32), None),
        Value::from(-2_000_000_000i32)
    );
    assert_eq!(
        json(&GgufValue::U64(18_446_744_073_709_551_615u64), None),
        Value::from(18_446_744_073_709_551_615u64)
    );
    assert_eq!(
        json(&GgufValue::I64(-9_007_199_254_740_993i64), None),
        Value::from(-9_007_199_254_740_993i64)
    );
    assert_eq!(json(&GgufValue::Bool(true), None), Value::from(true));
    assert_eq!(
        json(&GgufValue::String("中文测试".to_string()), None),
        Value::from("中文测试")
    );
    let a = json(&GgufValue::F32((-1.25f32).to_bits()), None);
    assert_eq!(a.as_f64(), Some(-1.25));
    let b = json(&GgufValue::F64((0.1f64).to_bits()), None);
    assert!((b.as_f64().unwrap() - 0.1).abs() < 1e-15);
}

#[test]
fn test_json_array_structure() {
    let arr = GgufValue::Array(GgufArray {
        elem_type: GgufType::String,
        data: vec![
            GgufValue::String("<s>".into()),
            GgufValue::String("hi".into()),
            GgufValue::String("</s>".into()),
        ],
    });
    let v = json(&arr, None);
    assert_eq!(v["element_type"], "string");
    assert_eq!(v["count"], 3);
    assert_eq!(v["value"], Value::from(vec!["<s>", "hi", "</s>"]));
    assert!(v.get("truncated").is_none());
    assert!(v.get("total").is_none());
}

#[test]
fn test_json_array_truncation_fields() {
    let data: Vec<GgufValue> = (0..2000).map(|i| GgufValue::I64(i as i64)).collect();
    let arr = GgufValue::Array(GgufArray {
        elem_type: GgufType::Int64,
        data,
    });
    let v = json(&arr, Some(500));
    assert_eq!(v["count"], 2000);
    assert_eq!(v["truncated"], true);
    assert_eq!(v["total"], 2000);
    let shown = v["value"].as_array().unwrap();
    assert_eq!(shown.len(), 500);
    assert_eq!(shown[0], Value::from(0));
    assert_eq!(shown[499], Value::from(499));
}

#[test]
fn test_roundtrip_parse_then_json() {
    let mut kv = Vec::new();
    write_scalar_kv(&mut kv, "k.u32", 4, &7u32.to_le_bytes());
    write_scalar_kv(&mut kv, "k.str", 8, &string_value_bytes("hello"));
    write_scalar_kv(&mut kv, "k.bool", 7, &1i8.to_le_bytes());
    write_scalar_kv(&mut kv, "k.f32", 6, &3.5f32.to_le_bytes());
    let mut arr_bytes = Vec::new();
    for i in 0..4 {
        arr_bytes.extend_from_slice(&((i as f32) * 0.5).to_le_bytes());
    }
    write_array_kv(&mut kv, "k.f32arr", 6, &chunks(&arr_bytes, 4));
    let tensors: Vec<(&str, &[i64], i32, u64)> = vec![("t", &[4, 4], 0, 0)];
    let buf = build_gguf_buffer(&kv, 5, &tensors, 0);
    let f = GgufFile::from_buffer(&buf).unwrap();
    for (key, val) in &f.kv {
        let j = json(val, Some(1000));
        match key.as_str() {
            "k.u32" => assert_eq!(j, Value::from(7)),
            "k.str" => assert_eq!(j, Value::from("hello")),
            "k.bool" => assert_eq!(j, Value::from(true)),
            "k.f32" => assert_eq!(j.as_f64(), Some(3.5)),
            "k.f32arr" => {
                assert_eq!(j["element_type"], "float32");
                assert_eq!(j["count"], 4);
                let shown = j["value"].as_array().unwrap();
                assert_eq!(shown.len(), 4);
                assert_eq!(shown[2], Value::from(1.0));
            }
            _ => panic!("unexpected key {key}"),
        }
    }
}

