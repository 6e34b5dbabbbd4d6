use gguf::infer::model::hparams::parse;
use gguf::infer::model::llama::Prefix;
use gguf::{GgufError, GgufFile};

enum Kv {
    I8(i8),
    I16(i16),
    U32(u32),
    F32(f32),
    Str(&'static str),
    Bool(bool),
}

fn build_buf(kvs: &[(&str, Kv)]) -> Vec<u8> {
    let mut buf = Vec::new();
    buf.extend_from_slice(&0x46554747u32.to_le_bytes());
    buf.extend_from_slice(&3u32.to_le_bytes());
    buf.extend_from_slice(&0i64.to_le_bytes());
    buf.extend_from_slice(&(kvs.len() as i64).to_le_bytes());
    for (key, val) in kvs {
        buf.extend_from_slice(&(key.len() as u64).to_le_bytes());
        buf.extend_from_slice(key.as_bytes());
        match val {
            Kv::I8(v) => {
                buf.extend_from_slice(&1i32.to_le_bytes());
                buf.extend_from_slice(&v.to_le_bytes());
            }
            Kv::I16(v) => {
                buf.extend_from_slice(&3i32.to_le_bytes());
                buf.extend_from_slice(&v.to_le_bytes());
            }
            Kv::U32(v) => {
                buf.extend_from_slice(&4i32.to_le_bytes());
                buf.extend_from_slice(&v.to_le_bytes());
            }
            Kv::F32(v) => {
                buf.extend_from_slice(&6i32.to_le_bytes());
                buf.extend_from_slice(&v.to_le_bytes());
            }
            Kv::Str(s) => {
                buf.extend_from_slice(&8i32.to_le_bytes());
                buf.extend_from_slice(&(s.len() as u64).to_le_bytes());
                buf.extend_from_slice(s.as_bytes());
            }
            Kv::Bool(b) => {
                buf.extend_from_slice(&7i32.to_le_bytes());
                buf.push(if *b { 1 } else { 0 });
            }
        }
    }
    buf
}

fn load(kvs: &[(&str, Kv)]) -> GgufFile {
    let buf = build_buf(kvs);
    GgufFile::from_buffer(&buf).unwrap()
}


#[test]
fn test_parse_llama() {
    let kvs: &[(&str, Kv)] = &[
        ("general.architecture", Kv::Str("llama")),
        ("llama.vocab_size", Kv::U32(32000)),
        ("llama.embedding_length", Kv::U32(4096)),
        ("llama.attention.head_count", Kv::U32(32)),
        ("llama.attention.head_count_kv", Kv::U32(8)),
        ("llama.ffn_length", Kv::U32(14336)),
        ("llama.block_count", Kv::U32(32)),
        ("llama.attention.rope_freq_base", Kv::F32(10000.0)),
        ("llama.context_length", Kv::F32(4096.0)),
        ("llama.pre_norm", Kv::Bool(true)),
    ];
    let f = load(kvs);
    let hp = parse(&f).unwrap();
    assert_eq!(hp.arch, "llama");
    assert_eq!(hp.vocab_size, 32000);
    assert_eq!(hp.embed_dim, 4096);
    assert_eq!(hp.n_heads, 32);
    assert_eq!(hp.n_kv_heads, 8);
    assert_eq!(hp.ffn_dim, 14336);
    assert_eq!(hp.n_layers, 32);
    assert!((f64::from_bits(hp.rope_freq_base) - 10000.0).abs() < 1e-6);
    assert_eq!(hp.context_length, 4096);
    assert!(hp.pre_norm);
    assert_eq!(hp.head_dim(), 4096 / 32);
}

#[test]
fn test_missing_kv_errors() {
    let kvs: &[(&str, Kv)] = &[("general.architecture", Kv::Str("llama"))];
    let f = load(kvs);
    assert!(parse(&f).is_err());
}

#[test]
fn test_unsupported_arch() {
    let kvs: &[(&str, Kv)] = &[("general.architecture", Kv::Str("bert"))];
    let f = load(kvs);
    assert!(matches!(
        parse(&f),
        Err(GgufError::UnsupportedArchitecture(_))
    ));
}

#[test]
fn test_n_kv_heads_fallback() {
    let kvs: &[(&str, Kv)] = &[
        ("general.architecture", Kv::Str("mistral")),
        ("mistral.vocab_size", Kv::U32(32000)),
        ("mistral.embedding_length", Kv::U32(2560)),
        ("mistral.attention.head_count", Kv::U32(20)),
        ("mistral.ffn_length", Kv::U32(6912)),
        ("mistral.block_count", Kv::U32(32)),
    ];
    let f = load(kvs);
    let hp = parse(&f).unwrap();
    assert_eq!(hp.n_kv_heads, hp.n_heads);
    assert_eq!(f64::from_bits(hp.rope_freq_base), 10000.0);
    assert_eq!(hp.context_length, 0);
}

#[test]
fn test_prefix() {
    assert_eq!(Prefix::from_arch("llama").unwrap().as_str(), "llama");
    assert_eq!(Prefix::from_arch("qwen2").unwrap().as_str(), "qwen2");
    assert!(Prefix::from_arch("bert").is_err());
}

#[test]
fn every_integer_type_is_a_size() {
    let sizes = |heads: Kv| {
        load(&[
            ("general.architecture", Kv::Str("llama")),
            ("llama.vocab_size", Kv::I16(300)),
            ("llama.embedding_length", Kv::U32(64)),
            ("llama.attention.head_count", heads),
            ("llama.ffn_length", Kv::U32(128)),
            ("llama.block_count", Kv::I8(2)),
        ])
    };
    let h = parse(&sizes(Kv::I8(8))).unwrap();
    assert_eq!((h.vocab_size, h.n_heads, h.n_layers), (300, 8, 2));
    assert!(matches!(parse(&sizes(Kv::I8(-8))), Err(GgufError::InferenceError(_))));
    assert!(matches!(parse(&sizes(Kv::I16(-1))), Err(GgufError::InferenceError(_))));
}
