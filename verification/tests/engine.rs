use gguf::infer::bytes_to_unicode::gpt2_byte_to_char;
use gguf::infer::engine::{Action, Generation, ASSISTANT, IM_END, IM_START, SYSTEM, USER};
use gguf::infer::sampler::SamplerConfig;
use gguf::infer::Engine;
use gguf::{GgufError, GgufFile};
use rand::Rng;

const EOS: u32 = 256;

fn put_str(buf: &mut Vec<u8>, s: &str) {
    buf.extend_from_slice(&(s.len() as u64).to_le_bytes());
    buf.extend_from_slice(s.as_bytes());
}

fn kv_str(key: &str, s: &str) -> Vec<u8> {
    let mut b = Vec::new();
    put_str(&mut b, key);
    b.extend_from_slice(&8i32.to_le_bytes());
    put_str(&mut b, s);
    b
}

fn kv_u32(key: &str, v: u32) -> Vec<u8> {
    let mut b = Vec::new();
    put_str(&mut b, key);
    b.extend_from_slice(&4i32.to_le_bytes());
    b.extend_from_slice(&v.to_le_bytes());
    b
}

fn kv_bool(key: &str, v: bool) -> Vec<u8> {
    let mut b = Vec::new();
    put_str(&mut b, key);
    b.extend_from_slice(&7i32.to_le_bytes());
    b.push(v as u8);
    b
}

fn kv_strings(key: &str, items: &[String]) -> Vec<u8> {
    let mut b = Vec::new();
    put_str(&mut b, key);
    b.extend_from_slice(&9i32.to_le_bytes());
    b.extend_from_slice(&8i32.to_le_bytes());
    b.extend_from_slice(&(items.len() as i64).to_le_bytes());
    for s in items {
        put_str(&mut b, s);
    }
    b
}

/// A model of one layer whose vocabulary is the 256 bytes and an end; token `i` is byte `i`.
fn model(context: u32, add_bos: bool) -> GgufFile {
    let mut vocab: Vec<String> = (0..=255u8).map(|b| gpt2_byte_to_char(b).to_string()).collect();
    vocab.push("<end>".to_string());
    vocab.push("Ġ中".to_string());
    let kvs = vec![
        kv_str("general.architecture", "qwen2"),
        kv_u32("qwen2.vocab_size", 257),
        kv_u32("qwen2.embedding_length", 4),
        kv_u32("qwen2.attention.head_count", 2),
        kv_u32("qwen2.attention.head_count_kv", 1),
        kv_u32("qwen2.feed_forward_length", 6),
        kv_u32("qwen2.block_count", 1),
        kv_u32("qwen2.context_length", context),
        kv_strings("tokenizer.ggml.tokens", &vocab),
        kv_u32("tokenizer.ggml.bos_token_id", EOS),
        kv_u32("tokenizer.ggml.eos_token_id", EOS),
        kv_bool("tokenizer.ggml.add_bos_token", add_bos),
    ];
    let tensors = [
        "token_embd.weight",
        "output.weight",
        "output_norm.weight",
        "blk.0.attn_q.weight",
        "blk.0.attn_k.weight",
        "blk.0.attn_v.weight",
        "blk.0.attn_output.weight",
        "blk.0.ffn_up.weight",
        "blk.0.ffn_gate.weight",
        "blk.0.ffn_down.weight",
        "blk.0.attn_norm.weight",
        "blk.0.ffn_norm.weight",
    ];
    let mut buf = Vec::new();
    buf.extend_from_slice(&0x46554747u32.to_le_bytes());
    buf.extend_from_slice(&3u32.to_le_bytes());
    buf.extend_from_slice(&(tensors.len() as i64).to_le_bytes());
    buf.extend_from_slice(&(kvs.len() as i64).to_le_bytes());
    for kv in kvs {
        buf.extend_from_slice(&kv);
    }
    for t in tensors {
        put_str(&mut buf, t);
        buf.extend_from_slice(&1u32.to_le_bytes());
        buf.extend_from_slice(&4i64.to_le_bytes());
        buf.extend_from_slice(&0i32.to_le_bytes());
        buf.extend_from_slice(&0u64.to_le_bytes());
    }
    GgufFile::from_buffer(&buf).unwrap()
}

fn engine(context: u32, add_bos: bool) -> Engine {
    let config = SamplerConfig { seed: 7, ..SamplerConfig::default() };
    Engine::new(&model(context, add_bos), config).unwrap()
}

/// Runs with tokens that are given, until none is left; what was told, and what was done last.
fn play(e: &mut Engine, run: &mut Generation, ids: &[u32], stop_at: &str) -> (String, Vec<u32>, Action) {
    let mut told = String::new();
    let mut fed = Vec::new();
    let mut next = ids.iter();
    let mut action = run.begin();
    loop {
        action = match action {
            Action::Feed { ids, .. } => {
                fed.extend(ids);
                e.fed(run, 257).unwrap()
            }
            Action::Choose => match next.next() {
                Some(&id) => e.chosen(run, id).unwrap(),
                None => return (told, fed, Action::Choose),
            },
            Action::Say { text, .. } => {
                told.push_str(&text);
                e.said(run, !text.contains(stop_at))
            }
            done => return (told, fed, done),
        };
    }
}

fn ids_of(text: &str) -> Vec<u32> {
    text.bytes().map(u32::from).collect()
}

fn message(role: u32, text: &str) -> Vec<u32> {
    let mut v = vec![IM_START, role, 10];
    v.extend(ids_of(text));
    v.extend([IM_END, 10]);
    v
}

fn expect_done(action: Action) -> (String, Option<u32>) {
    match action {
        Action::Done { text, closing } => (text, closing),
        other => panic!("{other:?}"),
    }
}

#[test]
fn first_turn_has_the_system_message() {
    let mut e = engine(4096, false);
    let run = e.start_turn("hi", 4, 0, false).unwrap();
    let mut want = message(SYSTEM, "You are a helpful assistant.");
    want.extend(message(USER, "hi"));
    want.extend([IM_START, ASSISTANT, 10]);
    match run.begin() {
        Action::Feed { ids, fresh } => {
            assert_eq!(ids, want);
            assert!(!fresh);
        }
        other => panic!("{other:?}"),
    }
    let run = e.start_turn("more", 4, want.len(), false).unwrap();
    let mut want = message(USER, "more");
    want.extend([IM_START, ASSISTANT, 10]);
    match run.begin() {
        Action::Feed { ids, .. } => assert_eq!(ids, want),
        other => panic!("{other:?}"),
    }
}

#[test]
fn new_dialogue_starts_with_the_system_message() {
    let mut e = engine(4096, false);
    e.start_turn("hi", 4, 0, false).unwrap();
    e.reset();
    let run = e.start_turn("hi", 4, 0, false).unwrap();
    match run.begin() {
        Action::Feed { ids, .. } => assert_eq!(ids[..2], [IM_START, SYSTEM]),
        other => panic!("{other:?}"),
    }
}

#[test]
fn long_dialogue_is_refused() {
    let mut e = engine(50, false);
    match e.start_turn("hi", 4, 8, false) {
        Err(GgufError::InferenceError(m)) => {
            assert_eq!(m, "上下文超出: 已有 8 tokens + 新增 43 > 上限 50");
        }
        other => panic!("{other:?}"),
    }
    // The system's message is not said again.
    assert!(e.start_turn("hi", 4, 40, false).is_ok());
}

#[test]
fn reply_is_told_in_whole_characters() {
    let mut e = engine(4096, false);
    let mut run = e.start_turn("?", 16, 0, false).unwrap();
    let mut ids = ids_of("中a文");
    ids.push(EOS);
    let (told, fed, last) = play(&mut e, &mut run, &ids, "never");
    assert_eq!(told, "中a文");
    assert_eq!(fed[fed.len() - 7..], ids[..7]);
    assert_eq!(run.output(), &ids[..7]);
    assert_eq!(expect_done(last), ("中a文".to_string(), Some(IM_END)));
}

#[test]
fn run_ends_with_its_tokens() {
    let mut e = engine(4096, false);
    let mut run = e.start_prompt("x", 3, false).unwrap();
    let (told, fed, last) = play(&mut e, &mut run, &ids_of("abcdef"), "never");
    assert_eq!(told, "abc");
    assert_eq!(fed, ids_of("xabc"));
    assert_eq!(expect_done(last), ("xabc".to_string(), None));
    let mut run = e.start_prompt("x", 0, false).unwrap();
    let (told, _, last) = play(&mut e, &mut run, &ids_of("abc"), "never");
    assert_eq!(told, "");
    assert_eq!(expect_done(last).0, "x");
}

#[test]
fn prompt_starts_afresh() {
    let e = engine(4096, true);
    let run = e.start_prompt("x", 3, false).unwrap();
    match run.begin() {
        Action::Feed { ids, fresh } => {
            assert_eq!(ids, vec![EOS, 120]);
            assert!(fresh);
        }
        other => panic!("{other:?}"),
    }
}

#[test]
fn empty_prompt_is_refused() {
    let e = engine(4096, false);
    match e.start_prompt("", 3, false) {
        Err(GgufError::InferenceError(m)) => assert_eq!(m, "prompt tokenize 为空"),
        other => panic!("{other:?}"),
    }
}

#[test]
fn silent_model_is_refused() {
    let mut e = engine(4096, false);
    let mut run = e.start_prompt("x", 3, false).unwrap();
    match e.fed(&mut run, 0) {
        Err(GgufError::InferenceError(m)) => assert_eq!(m, "logits 为空"),
        other => panic!("{other:?}"),
    }
}

#[test]
fn runs_are_broken_off() {
    let mut e = engine(4096, false);
    let mut run = e.start_turn("?", 16, 0, true).unwrap();
    let (told, fed, last) = play(&mut e, &mut run, &ids_of("abc"), "b");
    assert_eq!(told, "ab");
    assert_eq!(fed.last(), Some(&97));
    assert!(run.is_cancelled());
    assert_eq!(expect_done(last), ("ab".to_string(), None));

    let mut run = e.start_prompt("x", 16, true).unwrap();
    let (told, _, last) = play(&mut e, &mut run, &ids_of("abc"), "b");
    assert_eq!(told, "ab");
    assert_eq!(expect_done(last), ("xab".to_string(), None));

    let mut run = e.start_turn("?", 2, 0, false).unwrap();
    let (told, _, last) = play(&mut e, &mut run, &ids_of("abc"), "b");
    assert_eq!(told, "ab");
    assert!(!run.is_cancelled());
    assert_eq!(expect_done(last).1, Some(IM_END));
}

#[test]
fn dialogue_is_remembered_as_seen() {
    let config = SamplerConfig { repeat_penalty: 2.0f32.to_bits(), ..SamplerConfig::default() };
    let mut e = Engine::new(&model(4096, false), config).unwrap();
    let mut run = e.start_turn("q", 2, 0, false).unwrap();
    play(&mut e, &mut run, &ids_of("ab"), "never");
    assert_eq!(e.sampler_mut().penalized(257), ids_of("ab"));
    let mut run = e.start_turn("r", 2, 0, false).unwrap();
    play(&mut e, &mut run, &[], "never");
    assert_eq!(e.sampler_mut().penalized(257), ids_of("abq"));
    e.reset();
    assert!(e.sampler_mut().penalized(257).is_empty());
}

#[test]
fn invalid_bytes_are_dropped_from_the_stream() {
    let mut e = engine(4096, false);
    let mut run = e.start_prompt("x", 16, false).unwrap();
    let (told, _, last) = play(&mut e, &mut run, &[0x80, 97, 0xe4, EOS], "never");
    assert_eq!(told, "a");
    assert_eq!(expect_done(last).0, "x\u{fffd}a\u{fffd}");
}

#[test]
fn texts_survive_encoding() {
    let e = engine(4096, false);
    for text in ["", "hello", "中文 text\n", "\u{1f600}"] {
        assert_eq!(e.tokenize(text), ids_of(text));
        assert_eq!(e.detokenize(&e.tokenize(text)), text);
    }
}

#[test]
fn turn_keeps_to_the_context() {
    // The first turn has 43 tokens.
    let too_long = |r: Result<Action, GgufError>, have: usize, limit: u32| match r {
        Err(GgufError::InferenceError(m)) => {
            assert_eq!(m, format!("上下文超出: 已有 {have} tokens + 新增 1 > 上限 {limit}"));
        }
        other => panic!("{other:?}"),
    };
    // No room for a token, nor for the one that closes the turn.
    let mut e = engine(43, false);
    let mut run = e.start_turn("hi", 4, 0, false).unwrap();
    assert!(matches!(e.fed(&mut run, 257), Ok(Action::Choose)));
    too_long(e.chosen(&mut run, 97), 43, 43);
    too_long(e.chosen(&mut run, EOS), 43, 43);
    assert!(run.output().is_empty());
    let mut run = e.start_turn("hi", 0, 33, false).unwrap();
    too_long(e.fed(&mut run, 257), 43, 43);
    // Room for one token and the one that closes the turn.
    let mut e = engine(45, false);
    let mut run = e.start_turn("hi", 1, 0, false).unwrap();
    let (told, _, last) = play(&mut e, &mut run, &ids_of("ab"), "never");
    assert_eq!(told, "a");
    assert_eq!(expect_done(last), ("a".to_string(), Some(IM_END)));
    // Two tokens leave none for the one that closes the turn.
    let mut e = engine(45, false);
    let mut run = e.start_turn("hi", 2, 0, false).unwrap();
    assert!(matches!(e.fed(&mut run, 257), Ok(Action::Choose)));
    for id in [97, 98] {
        assert!(matches!(e.chosen(&mut run, id), Ok(Action::Say { .. })));
        assert!(matches!(e.said(&mut run, true), Action::Feed { .. }));
        if id == 97 {
            assert!(matches!(e.fed(&mut run, 257), Ok(Action::Choose)));
        }
    }
    too_long(e.fed(&mut run, 257), 45, 45);
    // A prompt of its own does not keep to it.
    let mut run = e.start_prompt("x", 60, false).unwrap();
    let (told, _, _) = play(&mut e, &mut run, &[97; 60], "never");
    assert_eq!(told.len(), 60);
}

#[test]
fn chats_agree() {
    let ids = [257, 97, 0xe4, 0xb8, 0xad, EOS];
    let mut results = Vec::new();
    for cancellable in [false, true] {
        let mut e = engine(4096, false);
        let mut run = e.start_turn("?", 16, 0, cancellable).unwrap();
        let (told, fed, last) = play(&mut e, &mut run, &ids, "never");
        results.push((told, fed, expect_done(last)));
    }
    assert_eq!(results[0], results[1]);
    assert_eq!(results[0].0, " 中a中");
}

#[test]
fn nothing_is_told_after_a_stop() {
    let mut e = engine(4096, false);
    let mut run = e.start_prompt("x", 16, true).unwrap();
    assert!(matches!(e.fed(&mut run, 257), Ok(Action::Choose)));
    assert!(matches!(e.chosen(&mut run, 97), Ok(Action::Say { .. })));
    assert_eq!(expect_done(e.said(&mut run, false)), ("xa".to_string(), None));
    assert!(run.is_cancelled());
}

#[test]
fn turns_go_on_with_the_generator() {
    let mut e = engine(4096, false);
    let mut other = engine(4096, false);
    let first: u32 = e.sampler_mut().rng_mut().gen();
    assert_eq!(first, other.sampler_mut().rng_mut().gen::<u32>());
    let mut run = e.start_turn("?", 1, 0, false).unwrap();
    play(&mut e, &mut run, &ids_of("a"), "never");
    let mut run = e.start_turn("?", 1, 0, false).unwrap();
    play(&mut e, &mut run, &ids_of("a"), "never");
    let second: u32 = e.sampler_mut().rng_mut().gen();
    assert_eq!(second, other.sampler_mut().rng_mut().gen::<u32>());
    e.reset();
    assert_eq!(first, e.sampler_mut().rng_mut().gen::<u32>());
}
