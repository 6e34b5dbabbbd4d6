use gguf::infer::tokenizer::Tokenizer;
use gguf::{GgufFile, GgufValue};

fn build_tokenizer_gguf() -> Vec<u8> {
    let mut buf = Vec::new();
    buf.extend_from_slice(&0x46554747u32.to_le_bytes());
    buf.extend_from_slice(&3u32.to_le_bytes());
    buf.extend_from_slice(&0i64.to_le_bytes());
    buf.extend_from_slice(&8i64.to_le_bytes());

    let write_kv = |buf: &mut Vec<u8>, key: &str, ty: i32, payload: &[u8]| {
        buf.extend_from_slice(&(key.len() as u64).to_le_bytes());
        buf.extend_from_slice(key.as_bytes());
        buf.extend_from_slice(&ty.to_le_bytes());
        if ty == 8 {
            buf.extend_from_slice(&(payload.len() as u64).to_le_bytes());
        }
        buf.extend_from_slice(payload);
    };
    let write_array = |buf: &mut Vec<u8>, key: &str, elem_type: i32, items: &[GgufValue]| {
        buf.extend_from_slice(&(key.len() as u64).to_le_bytes());
        buf.extend_from_slice(key.as_bytes());
        buf.extend_from_slice(&9i32.to_le_bytes());
        buf.extend_from_slice(&elem_type.to_le_bytes());
        buf.extend_from_slice(&(items.len() as i64).to_le_bytes());
        for item in items {
            match item {
                GgufValue::String(s) => {
                    buf.extend_from_slice(&(s.len() as u64).to_le_bytes());
                    buf.extend_from_slice(s.as_bytes());
                }
                GgufValue::U32(v) => {
                    buf.extend_from_slice(&v.to_le_bytes());
                }
                _ => unreachable!(),
            }
        }
    };

    write_kv(&mut buf, "general.architecture", 8, b"llama");
    write_kv(&mut buf, "general.alignment", 4, &32u32.to_le_bytes());
    write_kv(&mut buf, "llama.tokenizer.n_vocab", 4, &3u32.to_le_bytes());
    write_array(
        &mut buf,
        "llama.tokenizer.tokens",
        8,
        &[
            GgufValue::String("hello".into()),
            GgufValue::String("world".into()),
            GgufValue::String("hello world".into()),
        ],
    );
    write_kv(&mut buf, "llama.tokenizer.n_merge", 4, &1u32.to_le_bytes());
    write_array(
        &mut buf,
        "llama.tokenizer.merges",
        8,
        &[GgufValue::String("hello world".into())],
    );
    write_kv(
        &mut buf,
        "llama.tokenizer.bos_token_id",
        4,
        &0u32.to_le_bytes(),
    );
    write_kv(
        &mut buf,
        "llama.tokenizer.add_bos",
        7,
        &[1u8],
    );

    buf
}


#[test]
fn test_from_gguf_basic() {
    let buf = build_tokenizer_gguf();
    let f = GgufFile::from_buffer(&buf).unwrap();
    let tok = Tokenizer::from_gguf(&f).unwrap();
    assert_eq!(tok.vocab_size(), 3);
    assert_eq!(tok.decode_token(0), Some("hello"));
    assert_eq!(tok.decode_token(1), Some("world"));
    assert_eq!(tok.decode_token(2), Some("hello world"));
    assert_eq!(tok.tokenize("hello"), Some(0));
    assert_eq!(tok.bos_id, Some(0));
    assert!(tok.add_bos);
}

#[test]
fn test_encode_bpe() {
    let buf = build_tokenizer_gguf();
    let f = GgufFile::from_buffer(&buf).unwrap();
    let tok = Tokenizer::from_gguf(&f).unwrap();
    let ids = tok.encode("hello world");
    assert_eq!(ids, vec![0u32, 0, 1]);

    let ids = tok.encode("hello");
    assert_eq!(ids, vec![0u32, 0]);
}

#[test]
fn test_decode() {
    let buf = build_tokenizer_gguf();
    let f = GgufFile::from_buffer(&buf).unwrap();
    let tok = Tokenizer::from_gguf(&f).unwrap();
    assert_eq!(tok.decode(&[0, 1]), "helloworld");
    assert_eq!(tok.decode(&[2]), "hello world");
}

#[test]
fn test_encode_greedy_longest_match() {
    let mut buf = Vec::new();
    buf.extend_from_slice(&0x46554747u32.to_le_bytes());
    buf.extend_from_slice(&3u32.to_le_bytes());
    buf.extend_from_slice(&0i64.to_le_bytes());
    buf.extend_from_slice(&4i64.to_le_bytes());

    let write_kv = |buf: &mut Vec<u8>, key: &str, ty: i32, payload: &[u8]| {
        buf.extend_from_slice(&(key.len() as u64).to_le_bytes());
        buf.extend_from_slice(key.as_bytes());
        buf.extend_from_slice(&ty.to_le_bytes());
        if ty == 8 {
            buf.extend_from_slice(&(payload.len() as u64).to_le_bytes());
        }
        buf.extend_from_slice(payload);
    };
    let write_array = |buf: &mut Vec<u8>, key: &str, elem_type: i32, items: &[GgufValue]| {
        buf.extend_from_slice(&(key.len() as u64).to_le_bytes());
        buf.extend_from_slice(key.as_bytes());
        buf.extend_from_slice(&9i32.to_le_bytes());
        buf.extend_from_slice(&elem_type.to_le_bytes());
        buf.extend_from_slice(&(items.len() as i64).to_le_bytes());
        for item in items {
            if let GgufValue::String(s) = item {
                buf.extend_from_slice(&(s.len() as u64).to_le_bytes());
                buf.extend_from_slice(s.as_bytes());
            }
        }
    };

    write_kv(&mut buf, "general.architecture", 8, b"llama");
    write_kv(&mut buf, "llama.tokenizer.n_vocab", 4, &4u32.to_le_bytes());
    write_array(
        &mut buf,
        "llama.tokenizer.tokens",
        8,
        &[
            GgufValue::String("<s>".into()),
            GgufValue::String("hello".into()),
            GgufValue::String("world".into()),
            GgufValue::String("hello world".into()),
        ],
    );
    write_kv(&mut buf, "llama.tokenizer.bos_token_id", 4, &0u32.to_le_bytes());
    write_kv(&mut buf, "llama.tokenizer.add_bos", 7, &[1u8]);

    let f = GgufFile::from_buffer(&buf).unwrap();
    let tok = Tokenizer::from_gguf(&f).unwrap();

    let ids = tok.encode("hello world");
    assert_eq!(ids, vec![0u32, 1, 2]);

    let ids = tok.encode("hello");
    assert_eq!(ids, vec![0u32, 1u32]);
}

#[test]
fn test_encode_chinese() {
    let mut buf = Vec::new();
    buf.extend_from_slice(&0x46554747u32.to_le_bytes());
    buf.extend_from_slice(&3u32.to_le_bytes());
    buf.extend_from_slice(&0i64.to_le_bytes());
    buf.extend_from_slice(&3i64.to_le_bytes());

    let write_kv = |buf: &mut Vec<u8>, key: &str, ty: i32, payload: &[u8]| {
        buf.extend_from_slice(&(key.len() as u64).to_le_bytes());
        buf.extend_from_slice(key.as_bytes());
        buf.extend_from_slice(&ty.to_le_bytes());
        if ty == 8 {
            buf.extend_from_slice(&(payload.len() as u64).to_le_bytes());
        }
        buf.extend_from_slice(payload);
    };
    let write_array = |buf: &mut Vec<u8>, key: &str, elem_type: i32, items: &[GgufValue]| {
        buf.extend_from_slice(&(key.len() as u64).to_le_bytes());
        buf.extend_from_slice(key.as_bytes());
        buf.extend_from_slice(&9i32.to_le_bytes());
        buf.extend_from_slice(&elem_type.to_le_bytes());
        buf.extend_from_slice(&(items.len() as i64).to_le_bytes());
        for item in items {
            if let GgufValue::String(s) = item {
                buf.extend_from_slice(&(s.len() as u64).to_le_bytes());
                buf.extend_from_slice(s.as_bytes());
            }
        }
    };

    write_kv(&mut buf, "general.architecture", 8, b"llama");
    write_kv(&mut buf, "llama.tokenizer.n_vocab", 4, &3u32.to_le_bytes());
    write_array(
        &mut buf,
        "llama.tokenizer.tokens",
        8,
        &[
            GgufValue::String("你".into()),
            GgufValue::String("好".into()),
            GgufValue::String("你好".into()),
        ],
    );
    write_kv(&mut buf, "llama.tokenizer.add_bos", 7, &[0u8]);

    let f = GgufFile::from_buffer(&buf).unwrap();
    let tok = Tokenizer::from_gguf(&f).unwrap();
    let ids = tok.encode("你好");
    assert_eq!(ids, vec![2u32]);
}

