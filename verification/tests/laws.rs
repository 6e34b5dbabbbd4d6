use gguf::infer::bytes_to_unicode::{gpt2_byte_to_char, gpt2_token_to_byte};
use gguf::infer::cache::KvCache;
use gguf::infer::model::weights::{embed_row, infer_k_quant_dtype, materialize};
use gguf::infer::ops::{check_finite, check_matmul, check_matvec, kv_head, sees};
use gguf::infer::quant::{dequantize_block, f16_to_f32, f32_to_f16};
use gguf::infer::sampler::{Ask, Sampler, SamplerConfig};
use gguf::infer::tokenizer::Tokenizer;
use gguf::{GgmlType, GgufError, GgufFile, GgufType};
use rand::Rng;

fn put_str(buf: &mut Vec<u8>, s: &str) {
    buf.extend_from_slice(&(s.len() as u64).to_le_bytes());
    buf.extend_from_slice(s.as_bytes());
}

fn text(key: &str, s: &str) -> Vec<u8> {
    let mut b = Vec::new();
    put_str(&mut b, key);
    b.extend_from_slice(&8i32.to_le_bytes());
    put_str(&mut b, s);
    b
}

fn strings(key: &str, items: &[String]) -> Vec<u8> {
    let mut b = Vec::new();
    put_str(&mut b, key);
    b.extend_from_slice(&9i32.to_le_bytes());
    b.extend_from_slice(&8i32.to_le_bytes());
    b.extend_from_slice(&(items.len() as i64).to_le_bytes());
    for s in items {
        put_str(&mut b, s);
    }
    b
}

/// A file with its data section, which starts at a multiple of 32.
fn file(kvs: &[Vec<u8>], tensors: &[(&str, i64, i32, u64)], data: &[u8]) -> Vec<u8> {
    let mut buf = Vec::new();
    buf.extend_from_slice(&0x46554747u32.to_le_bytes());
    buf.extend_from_slice(&3u32.to_le_bytes());
    buf.extend_from_slice(&(tensors.len() as i64).to_le_bytes());
    buf.extend_from_slice(&(kvs.len() as i64).to_le_bytes());
    for kv in kvs {
        buf.extend_from_slice(kv);
    }
    for (name, n, dtype, offset) in tensors {
        put_str(&mut buf, name);
        buf.extend_from_slice(&1u32.to_le_bytes());
        buf.extend_from_slice(&n.to_le_bytes());
        buf.extend_from_slice(&dtype.to_le_bytes());
        buf.extend_from_slice(&offset.to_le_bytes());
    }
    while buf.len() % 32 != 0 {
        buf.push(0);
    }
    buf.extend_from_slice(data);
    buf
}

fn bits(v: &[f32]) -> Vec<u32> {
    v.iter().map(|x| x.to_bits()).collect()
}

fn sampler(top_k: usize, top_p: f32, min_p: f32) -> Sampler {
    Sampler::new(SamplerConfig {
        temperature: 1.0f32.to_bits(),
        top_k,
        top_p: top_p.to_bits(),
        min_p: min_p.to_bits(),
        repeat_penalty: 2.0f32.to_bits(),
        seed: 42,
    })
}

fn drawn(ask: Ask) -> Vec<usize> {
    match ask {
        Ask::Draw(c) => c,
        other => panic!("{other:?}"),
    }
}

#[test]
fn bytes_and_characters_are_inverse() {
    let mut seen = Vec::new();
    for b in 0..=255u8 {
        let c = gpt2_byte_to_char(b);
        assert_eq!(gpt2_token_to_byte(c), Some(b));
        assert!(!seen.contains(&c));
        seen.push(c);
    }
    assert_eq!(gpt2_byte_to_char(b' '), 'Ġ');
    assert_eq!(gpt2_byte_to_char(b'\n'), 'Ċ');
    assert_eq!(gpt2_byte_to_char(b'a'), 'a');
    assert_eq!(gpt2_token_to_byte('中'), None);
}

#[test]
fn half_precision_survives() {
    for h in (0..=0xffffu16).step_by(7) {
        let exponent = (h >> 10) & 0x1f;
        if exponent == 0x1f {
            continue;
        }
        let wide = f16_to_f32(&h.to_le_bytes());
        let back = u16::from_le_bytes(f32_to_f16(wide));
        if exponent != 0 || h & 0x3ff == 0 {
            assert_eq!(back, h);
        }
    }
}

#[test]
fn tags_are_read_back() {
    let mut seen = Vec::new();
    for tag in 0..13 {
        let ty = GgufType::from_i32(tag).unwrap();
        assert!(!seen.contains(&ty));
        seen.push(ty);
    }
    assert_eq!(seen[9], GgufType::Array);
    assert!(GgufType::from_i32(13).is_err());
    assert!(GgufType::from_i32(-1).is_err());
}

#[test]
fn data_section_is_left_alone() {
    let kvs = [text("general.architecture", "llama")];
    let tensors = [("a", 4, 0, 0), ("b", 4, 0, 32)];
    let one = file(&kvs, &tensors, &[1; 64]);
    let two = file(&kvs, &tensors, &[2; 64]);
    let f = GgufFile::from_buffer(&one).unwrap();
    let g = GgufFile::from_buffer(&two).unwrap();
    assert_eq!(f.tensors, g.tensors);
    assert_eq!(f.data_offset, g.data_offset);
    assert_eq!(GgufFile::from_mapped(&one).unwrap().tensors, f.tensors);
    assert_eq!(f.data_offset % 32, 0);
    assert!(f.data_offset <= one.len() as u64);
}

#[test]
fn cut_metadata_is_refused() {
    let whole = file(&[text("general.architecture", "llama")], &[("a", 4, 0, 0)], &[0; 16]);
    let f = GgufFile::from_buffer(&whole).unwrap();
    let end = f.data_offset as usize - 31;
    for cut in 0..end {
        match GgufFile::from_buffer(&whole[..cut]) {
            Err(GgufError::OutOfBounds { file_size, .. }) => assert_eq!(file_size, cut as u64),
            other => panic!("{cut}: {other:?}"),
        }
    }
}

#[test]
fn counts_above_the_size_are_refused() {
    let kvs: Vec<Vec<u8>> = (0..30).map(|i| text(&format!("k{i}"), "")).collect();
    let whole = file(&kvs, &[], &[]);
    match GgufFile::from_buffer(&whole[..25]) {
        Err(GgufError::InvalidCount { field, value }) => assert_eq!((field, value), ("n_kv", 30)),
        other => panic!("{other:?}"),
    }
}

#[test]
fn spans_end_at_the_next_tensor() {
    let tensors = [("a", 4, 0, 0), ("c", 4, 0, 48), ("b", 4, 0, 16)];
    let buf = file(&[], &tensors, &[0; 64]);
    let f = GgufFile::from_buffer(&buf).unwrap();
    let spans: Vec<u64> =
        f.tensors.iter().map(|t| f.tensor_physical_span(t).unwrap()).collect();
    assert_eq!(spans, vec![16, 16, 32]);
    let short = file(&[], &[("a", 4, 0, 65)], &[0; 64]);
    let f = GgufFile::from_buffer(&short).unwrap();
    assert!(f.tensor_physical_span(&f.tensors[0]).is_err());
}

#[test]
fn stored_types_are_recognised() {
    let n = 1024;
    assert_eq!(infer_k_quant_dtype(176 * 4, n, GgmlType::Q4_K), Some(GgmlType::Q5_K));
    assert_eq!(infer_k_quant_dtype(144 * 4, n, GgmlType::Q3_K_M), Some(GgmlType::Q4_K));
    assert_eq!(infer_k_quant_dtype(210 * 4, n, GgmlType::Q5_1), Some(GgmlType::Q6_K));
    assert_eq!(infer_k_quant_dtype(210 * 4 + 3, n, GgmlType::Q5_1), Some(GgmlType::Q6_K));
    assert_eq!(infer_k_quant_dtype(144 * 4, n, GgmlType::F32), None);
    assert_eq!(infer_k_quant_dtype(100 * 4, n, GgmlType::Q4_K), None);
    assert_eq!(infer_k_quant_dtype(144, 0, GgmlType::Q4_K), None);
}

#[test]
fn weights_come_from_their_bytes() {
    let mut data = Vec::new();
    for v in [1.5f32, -2.0, 0.25, 8.0] {
        data.extend_from_slice(&v.to_le_bytes());
    }
    let buf = file(&[], &[("w", 4, 0, 0)], &data);
    let f = GgufFile::from_buffer(&buf).unwrap();
    let w = materialize(&f, &buf, "w").unwrap();
    assert_eq!(w.dtype, GgmlType::F32);
    assert_eq!(w.bytes, data);
    assert_eq!(w.elements, 4);
    let block = dequantize_block(&w.bytes[4..8], w.dtype).unwrap();
    assert_eq!(f32::from_bits(block.factor), -2.0);
    assert_eq!(block.codes.len(), 1);
    assert!(matches!(
        materialize(&f, &buf, "none"),
        Err(GgufError::MissingTensor { .. })
    ));
    assert!(materialize(&f, &buf[..buf.len() - 1], "w").is_err());
}

#[test]
fn rows_of_the_embedding() {
    assert_eq!(embed_row(3, 4, 16).unwrap(), 12);
    match embed_row(4, 4, 16) {
        Err(GgufError::InferenceError(m)) => {
            assert_eq!(m, "embed out of bounds: tok=4, base=16, d=4, w.len()=16");
        }
        other => panic!("{other:?}"),
    }
}

#[test]
fn products_are_measured() {
    assert!(check_matvec(6, 3, 2, 3, 2).is_ok());
    match check_matvec(5, 3, 2, 3, 2) {
        Err(GgufError::DequantError { dtype, expected, actual }) => {
            assert_eq!((dtype.as_str(), expected, actual), ("F32", 6, 5));
        }
        other => panic!("{other:?}"),
    }
    assert!(check_matvec(6, 3, 2, 3, 1).is_err());
    assert!(check_matmul(4, 4, 4, 2, 2, 2).is_ok());
    assert!(check_matmul(4, 3, 4, 2, 2, 2).is_err());
    assert!(check_matmul(4, 4, 3, 2, 2, 2).is_err());
}

#[test]
fn heads_share_keys() {
    let shared: Vec<usize> = (0..8).map(|h| kv_head(h, 8, 2)).collect();
    assert_eq!(shared, vec![0, 0, 0, 0, 1, 1, 1, 1]);
    assert!(sees(3, 3) && sees(0, 3));
    assert!(!sees(4, 3) && !sees(0, -1));
}

#[test]
fn nan_is_refused() {
    assert!(check_finite(&bits(&[0.0, f32::INFINITY]), 1, "ffn").is_ok());
    match check_finite(&bits(&[0.0, f32::NAN]), 1, "ffn") {
        Err(GgufError::InferenceError(m)) => assert_eq!(m, "NaN after layer 1 ffn"),
        other => panic!("{other:?}"),
    }
}

#[test]
fn cut_cache_is_the_cache_before() {
    let mut c: KvCache<u8> = KvCache::new(2, 2);
    c.append(&[1, 2, 3, 4], &[5, 6, 7, 8]);
    c.append(&[9, 9, 9, 9], &[9, 9, 9, 9]);
    assert_eq!(c.k_at(1, 1), Some(&[9u8, 9][..]));
    assert_eq!(c.k_at(2, 0), None);
    c.truncate(1);
    assert_eq!(c.seq_len(), 1);
    assert_eq!(c.get_k(), &[1, 2, 3, 4]);
    assert_eq!(c.v_at(0, 1), Some(&[7u8, 8][..]));
    c.append(&[1], &[1]);
    assert_eq!(c.seq_len(), 1);
    c.clear();
    assert_eq!(c.seq_len(), 0);
}

#[test]
fn candidates_are_cut_to_a_share() {
    let s = sampler(0, 0.7, 0.0);
    let probs = bits(&[0.125, 0.5, 0.125, 0.25]);
    let (mut c, ask) = s.weigh(probs.clone(), probs);
    match ask {
        Ask::Sums(order) => assert_eq!(order, vec![1, 3, 0, 2]),
        other => panic!("{other:?}"),
    }
    let ask = c.with_sums(&bits(&[0.5, 0.75, 0.875, 1.0]), 0.7f32.to_bits());
    assert_eq!(drawn(ask), vec![1, 3]);
    assert_eq!(c.with_rests(&bits(&[0.25, -0.25])), 3);
    assert_eq!(c.with_rests(&bits(&[0.0, -0.25])), 1);
    assert_eq!(c.with_rests(&bits(&[0.5, 0.25])), 3);
}

#[test]
fn candidates_are_cut_to_a_count() {
    let s = sampler(2, 1.0, 0.0);
    let probs = bits(&[0.25, 0.25, 0.5]);
    assert!(s.config().puts_in_order(3) && !s.config().puts_in_order(2));
    assert!(s.config().leaves_to_chance());
    let (c, ask) = s.weigh(probs.clone(), probs);
    assert_eq!(drawn(ask), vec![2, 0]);
    assert_eq!(c.candidates(), &[2, 0]);
    let s = sampler(3, 1.0, 0.0);
    let probs = bits(&[0.25, 0.25, 0.5]);
    let (_, ask) = s.weigh(probs.clone(), probs);
    assert_eq!(drawn(ask), vec![0, 1, 2]);
}

#[test]
fn unlikely_candidates_are_left_out() {
    let s = sampler(0, 1.0, 0.5);
    let probs = bits(&[0.125, 0.5, 0.375]);
    let (mut c, ask) = s.weigh(bits(&[1.0, 3.0, 2.0]), probs.clone());
    match ask {
        Ask::Bound(b) => assert_eq!(f32::from_bits(b), 0.5),
        other => panic!("{other:?}"),
    }
    assert_eq!(drawn(c.with_bound(0.25f32.to_bits())), vec![1, 2]);
    let (mut c, _) = s.weigh(bits(&[1.0, 3.0, 2.0]), probs);
    match c.with_bound(0.75f32.to_bits()) {
        Ask::Token(id) => assert_eq!(id, 1),
        other => panic!("{other:?}"),
    }
}

#[test]
fn largest_logit_is_the_last_of_equals() {
    assert_eq!(Sampler::greedy(&bits(&[5.0, 5.0, 1.0])), 1);
    assert_eq!(Sampler::greedy(&bits(&[-0.0, 0.0, -1.0])), 1);
    assert_eq!(Sampler::greedy(&[]), 0);
    assert!(Sampler::divides(1.0f32.to_bits()));
    assert!(!Sampler::divides((-1.0f32).to_bits()) && !Sampler::divides(0));
}

#[test]
fn chance_alone_picks_a_token() {
    assert_eq!(Sampler::random(0.0f32.to_bits(), &[]), 0);
    assert_eq!(Sampler::random(1.0f32.to_bits(), &bits(&[0.5, -0.1, -0.5])), 1);
    assert_eq!(Sampler::random(1.0f32.to_bits(), &bits(&[0.5, 0.1])), 1);
}

#[test]
fn seed_fixes_the_draws() {
    let mut a = sampler(0, 1.0, 0.0);
    let first: Vec<u32> = (0..8).map(|_| a.rng_mut().gen()).collect();
    let mut b = sampler(0, 1.0, 0.0);
    let second: Vec<u32> = (0..8).map(|_| b.rng_mut().gen()).collect();
    assert_eq!(first, second);
    a.record(3);
    a.reset();
    assert!(a.penalized(10).is_empty());
    let third: Vec<u32> = (0..8).map(|_| a.rng_mut().gen()).collect();
    assert_eq!(first, third);
    let mut other = *a.config();
    other.seed = 43;
    a.set_config(other);
    let fourth: Vec<u32> = (0..8).map(|_| a.rng_mut().gen()).collect();
    assert_ne!(first, fourth);
}

#[test]
fn seen_tokens_are_penalised() {
    let mut s = sampler(0, 1.0, 0.0);
    s.record(5);
    s.record(2);
    s.record(5);
    assert_eq!(s.penalized(10), vec![2, 5]);
    assert_eq!(s.penalized(5), vec![2]);
    let mut config = *s.config();
    config.repeat_penalty = 1.0f32.to_bits();
    s.set_config(config);
    assert!(s.penalized(10).is_empty());
}

fn byte_vocabulary(extra: &[&str], merges: &[&str]) -> Tokenizer {
    let mut vocab: Vec<String> = (0..=255u8).map(|b| gpt2_byte_to_char(b).to_string()).collect();
    vocab.extend(extra.iter().map(|s| s.to_string()));
    let merges: Vec<String> = merges.iter().map(|s| s.to_string()).collect();
    let buf = file(
        &[
            text("general.architecture", "qwen2"),
            strings("tokenizer.ggml.tokens", &vocab),
            strings("tokenizer.ggml.merges", &merges),
        ],
        &[],
        &[],
    );
    Tokenizer::from_gguf(&GgufFile::from_buffer(&buf).unwrap()).unwrap()
}

#[test]
fn merges_are_done_in_their_order() {
    let t = byte_vocabulary(&["ab", "bc", "abc"], &["b c", "a b", "a bc"]);
    assert_eq!(t.encode("abc"), vec![258]);
    assert_eq!(t.encode("ab"), vec![256]);
    assert_eq!(t.encode("abcab"), vec![258, 256]);
    assert_eq!(t.decode(&[258, 256]), "abcab");
}

#[test]
fn words_are_matched_greedily() {
    let vocab: Vec<String> = ["a", "ab", "b", "中"].iter().map(|s| s.to_string()).collect();
    let buf = file(
        &[text("general.architecture", "llama"), strings("tokenizer.ggml.tokens", &vocab)],
        &[],
        &[],
    );
    let t = Tokenizer::from_gguf(&GgufFile::from_buffer(&buf).unwrap()).unwrap();
    assert_eq!(t.encode("abab中a"), vec![1, 1, 3, 0]);
    assert_eq!(t.decode(&t.encode("abab中a")), "abab中a");
    assert_eq!(t.decode(&[0, 99, 3]), "a中");
    assert!(t.encode("").is_empty());
}
