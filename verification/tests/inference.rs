use std::collections::HashMap;

use gguf::infer::cache::Cache;
use gguf::infer::engine::Action;
use gguf::infer::model::llama::LlamaModel;
use gguf::infer::model::plan::{Slot, Step};
use gguf::infer::model::weights::{embed_row, materialize};
use gguf::infer::ops::{check_finite, check_matvec, kv_head, sees};
use gguf::infer::quant;
use gguf::infer::sampler::{Ask, SamplerConfig};
use gguf::infer::Engine;
use gguf::{GgufFile, GgufResult};

fn w_str(buf: &mut Vec<u8>, s: &str) {
    let b = s.as_bytes();
    buf.extend_from_slice(&(b.len() as u64).to_le_bytes());
    buf.extend_from_slice(b);
}

fn w_kv_scalar(buf: &mut Vec<u8>, key: &str, ty: i32, payload: &[u8]) {
    w_str(buf, key);
    buf.extend_from_slice(&ty.to_le_bytes());
    buf.extend_from_slice(payload);
}

fn w_kv_str(buf: &mut Vec<u8>, key: &str, s: &str) {
    w_str(buf, key);
    buf.extend_from_slice(&8i32.to_le_bytes());
    let b = s.as_bytes();
    buf.extend_from_slice(&(b.len() as u64).to_le_bytes());
    buf.extend_from_slice(b);
}

fn w_kv_u32(buf: &mut Vec<u8>, key: &str, v: u32) {
    w_kv_scalar(buf, key, 4, &v.to_le_bytes());
}

fn w_kv_bool(buf: &mut Vec<u8>, key: &str, v: bool) {
    w_kv_scalar(buf, key, 7, &[if v { 1 } else { 0 }]);
}

fn w_array_str(buf: &mut Vec<u8>, key: &str, items: &[&str]) {
    w_str(buf, key);
    buf.extend_from_slice(&9i32.to_le_bytes());
    buf.extend_from_slice(&8i32.to_le_bytes());
    buf.extend_from_slice(&(items.len() as i64).to_le_bytes());
    for s in items {
        w_str(buf, s);
    }
}

fn w_tensor(buf: &mut Vec<u8>, name: &str, ne0: i64, ne1: i64, dtype: i32, offset: u64) {
    w_str(buf, name);
    buf.extend_from_slice(&2u32.to_le_bytes());
    buf.extend_from_slice(&ne0.to_le_bytes());
    buf.extend_from_slice(&ne1.to_le_bytes());
    buf.extend_from_slice(&dtype.to_le_bytes());
    buf.extend_from_slice(&offset.to_le_bytes());
}

struct TensorSpec {
    name: String,
    rows: i64,
    cols: i64,
}

fn build_min_llama(eos: u32) -> Vec<u8> {
    const P: &str = "llama";
    const N_LAYERS: usize = 2;
    const D: usize = 4;
    const Q: usize = 2;
    const KV: usize = 1;
    const F: usize = 6;
    const VOCAB: usize = 8;
    const HD: usize = D / Q;

    let mut specs: Vec<TensorSpec> = Vec::new();
    specs.push(TensorSpec {
        name: format!("{P}.token_embd"),
        rows: VOCAB as i64,
        cols: D as i64,
    });
    for l in 0..N_LAYERS {
        specs.push(TensorSpec {
            name: format!("{P}.{l}.attn.wq"),
            rows: (Q * HD) as i64,
            cols: D as i64,
        });
        specs.push(TensorSpec {
            name: format!("{P}.{l}.attn.wk"),
            rows: (KV * HD) as i64,
            cols: D as i64,
        });
        specs.push(TensorSpec {
            name: format!("{P}.{l}.attn.wv"),
            rows: (KV * HD) as i64,
            cols: D as i64,
        });
        specs.push(TensorSpec {
            name: format!("{P}.{l}.attn.wo"),
            rows: D as i64,
            cols: (Q * HD) as i64,
        });
        specs.push(TensorSpec {
            name: format!("{P}.{l}.ffn.w1"),
            rows: F as i64,
            cols: D as i64,
        });
        specs.push(TensorSpec {
            name: format!("{P}.{l}.ffn.w2"),
            rows: F as i64,
            cols: D as i64,
        });
        specs.push(TensorSpec {
            name: format!("{P}.{l}.ffn.w3"),
            rows: D as i64,
            cols: F as i64,
        });
        specs.push(TensorSpec {
            name: format!("{P}.{l}.attn_norm"),
            rows: D as i64,
            cols: 1,
        });
        specs.push(TensorSpec {
            name: format!("{P}.{l}.ffn_norm"),
            rows: D as i64,
            cols: 1,
        });
    }
    specs.push(TensorSpec {
        name: format!("{P}.output_norm"),
        rows: D as i64,
        cols: 1,
    });
    specs.push(TensorSpec {
        name: format!("{P}.output"),
        rows: VOCAB as i64,
        cols: D as i64,
    });

    let n_kv: i64 = 14;
    let mut buf = Vec::new();
    buf.extend_from_slice(&0x46554747u32.to_le_bytes());
    buf.extend_from_slice(&3u32.to_le_bytes());
    buf.extend_from_slice(&(specs.len() as i64).to_le_bytes());
    buf.extend_from_slice(&n_kv.to_le_bytes());

    w_kv_str(&mut buf, "general.architecture", P);
    w_kv_u32(&mut buf, "general.alignment", 32);
    w_kv_u32(&mut buf, &format!("{P}.vocab_size"), VOCAB as u32);
    w_kv_u32(&mut buf, &format!("{P}.embedding_length"), D as u32);
    w_kv_u32(&mut buf, &format!("{P}.attention.head_count"), Q as u32);
    w_kv_u32(&mut buf, &format!("{P}.attention.head_count_kv"), KV as u32);
    w_kv_u32(&mut buf, &format!("{P}.ffn_length"), F as u32);
    w_kv_u32(&mut buf, &format!("{P}.block_count"), N_LAYERS as u32);
    w_kv_u32(&mut buf, &format!("{P}.tokenizer.n_vocab"), VOCAB as u32);
    w_array_str(
        &mut buf,
        &format!("{P}.tokenizer.tokens"),
        &["a", "b", "c", "d", "e", "f", "g", "h"],
    );
    w_kv_u32(&mut buf, &format!("{P}.tokenizer.n_merge"), 0);
    w_kv_u32(&mut buf, &format!("{P}.tokenizer.bos_token_id"), 0);
    w_kv_u32(&mut buf, &format!("{P}.tokenizer.eos_token_id"), eos);
    w_kv_bool(&mut buf, &format!("{P}.tokenizer.add_bos"), true);

    let mut data: Vec<u8> = Vec::new();
    for spec in &specs {
        let bytes = (spec.rows * spec.cols * 4) as usize;
        let offset = data.len() as u64;
        w_tensor(&mut buf, &spec.name, spec.rows, spec.cols, 0, offset);
        data.extend(vec![0u8; bytes]);
        if spec.name.contains("norm") {
            let one = 1.0f32.to_le_bytes();
            for (i, b) in data[offset as usize..].iter_mut().enumerate() {
                *b = one[i % 4];
            }
        } else if spec.name.ends_with(".ffn.w1")
            || spec.name.ends_with(".ffn.w3")
            || spec.name == format!("{P}.output")
        {
            for i in (0..bytes).step_by(16) {
                data[i..i + 4].copy_from_slice(&0.5f32.to_le_bytes());
            }
        }
    }

    let pad = (32 - (buf.len() as u64 % 32)) % 32;
    buf.extend(vec![0u8; pad as usize]);
    buf.append(&mut data);

    buf
}


fn greedy_cfg() -> SamplerConfig {
    SamplerConfig {
        temperature: 0.0f32.to_bits(),
        top_k: 40,
        top_p: 0.95f32.to_bits(),
        min_p: 0.0f32.to_bits(),
        repeat_penalty: 1.0f32.to_bits(),
        seed: 0,
    }
}

fn bits(v: &[f32]) -> Vec<u32> {
    v.iter().map(|x| x.to_bits()).collect()
}

/// The arithmetic of a model whose weights are single precision numbers.
struct Runner<'a> {
    file: &'a GgufFile,
    data: &'a [u8],
    cache: Cache<f32>,
    weights: HashMap<String, Vec<f32>>,
}

impl<'a> Runner<'a> {
    fn new(file: &'a GgufFile, data: &'a [u8], model: &LlamaModel) -> Runner<'a> {
        let hp = model.hparams();
        Runner {
            file,
            data,
            cache: Cache::new(
                hp.n_layers as usize,
                hp.n_kv_heads as usize,
                hp.head_dim() as usize,
            ),
            weights: HashMap::new(),
        }
    }

    fn weights(&mut self, name: &str) -> GgufResult<Vec<f32>> {
        if let Some(w) = self.weights.get(name) {
            return Ok(w.clone());
        }
        let s = materialize(self.file, self.data, name)?;
        let mut w = Vec::new();
        for b in quant::dequantize(&s.bytes, s.dtype, s.elements)? {
            let d = f32::from_bits(b.factor);
            w.extend(b.codes.iter().map(|c| d * c.q as f32));
        }
        self.weights.insert(name.to_string(), w.clone());
        Ok(w)
    }

    fn product(&mut self, name: &str, x: &[f32], out: usize) -> GgufResult<Vec<f32>> {
        let w = self.weights(name)?;
        check_matvec(w.len() as u64, x.len() as u64, out as u64, x.len() as u64, out as u64)?;
        Ok((0..out)
            .map(|i| (0..x.len()).map(|j| w[i * x.len() + j] * x[j]).sum())
            .collect())
    }

    fn norm(&mut self, name: &str, x: &[f32]) -> GgufResult<Vec<f32>> {
        let w = self.weights(name)?;
        let ss: f64 = x.iter().map(|v| f64::from(*v) * f64::from(*v)).sum();
        let scale = (ss / x.len() as f64 + f64::from(1e-6f32)).recip().sqrt() as f32;
        Ok(x.iter().zip(&w).map(|(v, w)| v * scale * w).collect())
    }

    fn rope(&self, x: &mut [f32], pos: usize, head: usize, base: f64) {
        let half = head / 2;
        for h in x.chunks_mut(head) {
            for i in 0..half {
                let f = base.powf(-2.0 * i as f64 / head as f64) as f32;
                let (sin, cos) = (pos as f32 * f).sin_cos();
                let (a, b) = (h[i], h[i + half]);
                h[i] = a * cos - b * sin;
                h[i + half] = b * cos + a * sin;
            }
        }
    }

    fn attend(&self, q: &[f32], l: usize, n: usize, kv: usize, pos: usize) -> Vec<f32> {
        let cache = self.cache.layer(l).unwrap();
        let hd = cache.head_dim();
        let mut o = vec![0f32; n * hd];
        for h in 0..n {
            let head = kv_head(h, n, kv);
            let mut e: Vec<f32> = (0..cache.seq_len())
                .map(|s| {
                    let k = cache.k_at(s, head).unwrap();
                    let dot: f32 = (0..hd).map(|i| q[h * hd + i] * k[i]).sum();
                    if sees(s, pos as i64) {
                        dot / (hd as f32).sqrt()
                    } else {
                        f32::NEG_INFINITY
                    }
                })
                .collect();
            let max = e.iter().cloned().fold(f32::NEG_INFINITY, f32::max);
            let sum: f32 = e.iter().map(|v| (v - max).exp()).sum();
            for v in e.iter_mut() {
                *v = (*v - max).exp() / sum;
            }
            for (s, w) in e.iter().enumerate() {
                let v = cache.v_at(s, head).unwrap();
                for i in 0..hd {
                    o[h * hd + i] += w * v[i];
                }
            }
        }
        o
    }

    fn forward(&mut self, model: &LlamaModel, tokens: &[u32]) -> GgufResult<Vec<f32>> {
        let mut logits = Vec::new();
        for &t in tokens {
            logits = self.forward_one(model, t)?;
        }
        Ok(logits)
    }

    fn forward_one(&mut self, model: &LlamaModel, token: u32) -> GgufResult<Vec<f32>> {
        let hp = model.hparams();
        let hd = hp.head_dim() as usize;
        let base = f64::from_bits(hp.rope_freq_base);
        let pos = self.cache.layer(0).map_or(0, |l| l.seq_len());
        let mut state: Vec<Vec<f32>> = vec![Vec::new(); 9];
        for step in model.forward_plan() {
            match step {
                Step::Embed { weight } => {
                    let w = self.weights(&weight)?;
                    let row = embed_row(token, hp.embed_dim, w.len() as u64)? as usize;
                    state[Slot::Hidden as usize] = w[row..row + hp.embed_dim as usize].to_vec();
                }
                Step::Norm { weight } => {
                    state[Slot::Normed as usize] =
                        self.norm(&weight, &state[Slot::Hidden as usize])?;
                }
                Step::Project { weight, bias, from, to, in_dim, out_dim } => {
                    assert_eq!(bias, None);
                    assert_eq!(state[from as usize].len() as u64, in_dim);
                    state[to as usize] =
                        self.product(&weight, &state[from as usize], out_dim as usize)?;
                }
                Step::Rotate { slot, heads } => {
                    assert_eq!(state[slot as usize].len(), heads as usize * hd);
                    self.rope(&mut state[slot as usize], pos, hd, base);
                }
                Step::Remember { layer } => {
                    let c = self.cache.layer_mut(layer).unwrap();
                    c.append(&state[Slot::Key as usize], &state[Slot::Value as usize]);
                }
                Step::Attend { layer, heads, kv_heads } => {
                    let q = &state[Slot::Query as usize];
                    state[Slot::Heads as usize] =
                        self.attend(q, layer, heads as usize, kv_heads as usize, pos);
                }
                Step::Combine => {
                    for i in 0..state[Slot::Gate as usize].len() {
                        let g = state[Slot::Gate as usize][i];
                        state[Slot::Gate as usize][i] =
                            g / (1.0 + (-g).exp()) * state[Slot::Up as usize][i];
                    }
                }
                Step::RequireNumbers { layer, stage } => {
                    check_finite(&bits(&state[Slot::Delta as usize]), layer, stage)?;
                }
                Step::Accumulate => {
                    for i in 0..state[Slot::Hidden as usize].len() {
                        state[Slot::Hidden as usize][i] += state[Slot::Delta as usize][i];
                    }
                }
                Step::Logits { weight, vocab } => {
                    return self.product(&weight, &state[Slot::Normed as usize], vocab as usize);
                }
            }
        }
        panic!("no logits");
    }
}

/// Continues a prompt with a sampler that takes the likeliest token.
fn generate<F: FnMut(u32, &str)>(
    engine: &mut Engine,
    file: &GgufFile,
    data: &[u8],
    prompt: &str,
    max_tokens: usize,
    mut on_token: F,
) -> GgufResult<String> {
    let mut runner = Runner::new(file, data, engine.model());
    let mut run = engine.start_prompt(prompt, max_tokens, false)?;
    let mut logits = Vec::new();
    let mut action = run.begin();
    loop {
        action = match action {
            Action::Feed { ids, fresh } => {
                if fresh {
                    runner.cache.clear_all();
                }
                logits = runner.forward(engine.model(), &ids)?;
                engine.fed(&mut run, logits.len())?
            }
            Action::Choose => match engine.sampler_mut().sample(&bits(&logits)) {
                Ask::Token(id) => engine.chosen(&mut run, id)?,
                other => panic!("not greedy: {other:?}"),
            },
            Action::Say { id, text } => {
                on_token(id, &text);
                engine.said(&mut run, true)
            }
            Action::Done { text, closing } => {
                assert_eq!(closing, None);
                return Ok(text);
            }
        };
    }
}

#[test]
fn end_to_end_generate() {
    let buf = build_min_llama(7);
    let file = GgufFile::from_buffer(&buf).unwrap();
    assert_eq!(file.architecture().unwrap(), "llama");

    let mut engine = Engine::new(&file, greedy_cfg()).unwrap();

    let hp = engine.hparams();
    assert_eq!(hp.n_layers, 2);
    assert_eq!(hp.vocab_size, 8);
    assert_eq!(hp.embed_dim, 4);

    assert_eq!(engine.tokenize("ab"), vec![0u32, 0, 1]);
    assert_eq!(engine.detokenize(&[0, 0, 1]), "aab");

    let mut got: Vec<(u32, String)> = Vec::new();
    let text = generate(&mut engine, &file, &buf, "ab", 4, |id, t| got.push((id, t.to_string())))
        .unwrap();

    assert!(got.len() <= 4, "{got:?}");
    for &(id, _) in &got {
        assert!(id < 8, "{id}");
    }
    assert_eq!(text.len(), 3 + got.len(), "{text:?}");
    assert!(text.starts_with("aab"), "{text:?}");

    let file2 = GgufFile::from_buffer(&buf).unwrap();
    let mut engine2 = Engine::new(&file2, greedy_cfg()).unwrap();
    let text2 = generate(&mut engine2, &file2, &buf, "ab", 4, |_, _| {}).unwrap();
    assert_eq!(text, text2);
}

#[test]
fn generates_max_tokens() {
    let buf = build_min_llama(255);
    let file = GgufFile::from_buffer(&buf).unwrap();
    let mut engine = Engine::new(&file, greedy_cfg()).unwrap();

    let mut got = Vec::new();
    let text = generate(&mut engine, &file, &buf, "ab", 5, |id, t| got.push((id, t.to_string())))
        .unwrap();

    assert_eq!(got.len(), 5, "{got:?}");
    for &(id, _) in &got {
        assert!(id < 8, "{id}");
    }
    assert_eq!(text.len(), 8, "{text:?}");
    assert!(text.starts_with("aab"), "{text:?}");
}

#[test]
fn greedy_reproducible() {
    let buf = build_min_llama(255);
    let file = GgufFile::from_buffer(&buf).unwrap();
    let mut e1 = Engine::new(&file, greedy_cfg()).unwrap();
    let mut e2 = Engine::new(&file, greedy_cfg()).unwrap();
    let t1 = generate(&mut e1, &file, &buf, "a", 8, |_, _| {}).unwrap();
    let t2 = generate(&mut e2, &file, &buf, "a", 8, |_, _| {}).unwrap();
    assert_eq!(t1, t2);
}

#[test]
fn missing_kv_errors() {
    const P: &str = "llama";
    let mut buf = Vec::new();
    buf.extend_from_slice(&0x46554747u32.to_le_bytes());
    buf.extend_from_slice(&3u32.to_le_bytes());
    buf.extend_from_slice(&0i64.to_le_bytes());
    buf.extend_from_slice(&6i64.to_le_bytes());
    w_kv_str(&mut buf, "general.architecture", P);
    w_kv_u32(&mut buf, "general.alignment", 32);
    w_kv_u32(&mut buf, &format!("{P}.vocab_size"), 8);
    w_kv_u32(&mut buf, &format!("{P}.embedding_length"), 4);
    w_kv_u32(&mut buf, &format!("{P}.attention.head_count"), 2);
    w_kv_u32(&mut buf, &format!("{P}.block_count"), 1);

    let file = GgufFile::from_buffer(&buf).unwrap();
    let r = Engine::new(&file, greedy_cfg());
    assert!(r.is_err());
}

#[test]
fn test_forward_runs() {
    let p = "llama";
    let (n_layers, d, q, kv, f) = (1usize, 4usize, 2usize, 1usize, 6usize);
    let hd = d / q;
    let vocab = 8u32;

    let mut buf = Vec::new();
    buf.extend_from_slice(&0x46554747u32.to_le_bytes());
    buf.extend_from_slice(&3u32.to_le_bytes());
    let tensor_names: Vec<String> = vec![
        format!("{p}.token_embd"),
        format!("{p}.0.attn.wq"),
        format!("{p}.0.attn.wk"),
        format!("{p}.0.attn.wv"),
        format!("{p}.0.attn.wo"),
        format!("{p}.0.ffn.w1"),
        format!("{p}.0.ffn.w2"),
        format!("{p}.0.ffn.w3"),
        format!("{p}.0.attn_norm"),
        format!("{p}.0.ffn_norm"),
        format!("{p}.output_norm"),
        format!("{p}.output"),
    ];
    let n_tensors = tensor_names.len() as i64;
    let n_kv: i64 = 8;
    buf.extend_from_slice(&n_tensors.to_le_bytes());
    buf.extend_from_slice(&n_kv.to_le_bytes());

    let kvs: &[(&str, i32, &[u8])] = &[
        ("general.architecture", 8, p.as_bytes()),
        ("general.alignment", 4, &32u32.to_le_bytes()),
        ("llama.vocab_size", 4, &vocab.to_le_bytes()),
        ("llama.embedding_length", 4, &(d as u32).to_le_bytes()),
        ("llama.attention.head_count", 4, &(q as u32).to_le_bytes()),
        (
            "llama.attention.head_count_kv",
            4,
            &(kv as u32).to_le_bytes(),
        ),
        ("llama.ffn_length", 4, &(f as u32).to_le_bytes()),
        ("llama.block_count", 4, &(n_layers as u32).to_le_bytes()),
    ];
    for (key, ty, payload) in kvs {
        if *ty == 8 {
            buf.extend_from_slice(&(key.len() as u64).to_le_bytes());
            buf.extend_from_slice(key.as_bytes());
            buf.extend_from_slice(&ty.to_le_bytes());
            buf.extend_from_slice(&(payload.len() as u64).to_le_bytes());
            buf.extend_from_slice(payload);
        } else {
            buf.extend_from_slice(&(key.len() as u64).to_le_bytes());
            buf.extend_from_slice(key.as_bytes());
            buf.extend_from_slice(&ty.to_le_bytes());
            buf.extend_from_slice(payload);
        }
    }

    let shapes: Vec<(usize, usize)> = vec![
        (d, vocab as usize),
        (q * hd, d),
        (kv * hd, d),
        (kv * hd, d),
        (d, q * hd),
        (d, f),
        (d, f),
        (f, d),
        (d, 1),
        (d, 1),
        (d, 1),
        (d, vocab as usize),
    ];
    let mut offset = 0u64;
    for (name, shape) in tensor_names.iter().zip(shapes.iter()) {
        buf.extend_from_slice(&(name.len() as u64).to_le_bytes());
        buf.extend_from_slice(name.as_bytes());
        buf.extend_from_slice(&2u32.to_le_bytes());
        buf.extend_from_slice(&(shape.0 as i64).to_le_bytes());
        buf.extend_from_slice(&(shape.1 as i64).to_le_bytes());
        buf.extend_from_slice(&0i32.to_le_bytes());
        buf.extend_from_slice(&offset.to_le_bytes());
        offset += (shape.0 * shape.1 * 4) as u64;
    }

    let pad = (32 - (buf.len() as u64 % 32)) % 32;
    buf.extend(vec![0u8; pad as usize]);

    let total_data = offset;
    let mut data = vec![0u8; total_data as usize];
    let embd_row1 = d;
    for i in 0..d {
        data[embd_row1 * 4 + i * 4..embd_row1 * 4 + i * 4 + 4]
            .copy_from_slice(&1.0f32.to_le_bytes());
    }
    buf.append(&mut data);

    let f = GgufFile::from_buffer(&buf).unwrap();
    let model = LlamaModel::new(&f).unwrap();
    let mut runner = Runner::new(&f, &buf, &model);
    let logits = runner.forward(&model, &[1u32, 0]).unwrap();
    assert_eq!(logits.len(), vocab as usize);
    assert!(logits.iter().all(|v| v.is_finite()));
}

#[test]
fn plan_has_its_steps() {
    let buf = build_min_llama(7);
    let file = GgufFile::from_buffer(&buf).unwrap();
    let plan = LlamaModel::new(&file).unwrap().forward_plan();
    assert_eq!(plan.len(), 1 + 2 * 18 + 2);
    match &plan[2] {
        Step::Project { weight, bias, from, to, in_dim, out_dim } => {
            assert_eq!(weight, "llama.0.attn.wq");
            assert_eq!(bias, &None);
            assert_eq!((*from, *to), (Slot::Normed, Slot::Query));
            assert_eq!((*in_dim, *out_dim), (4, 4));
        }
        other => panic!("{other:?}"),
    }
    match &plan[3] {
        Step::Project { weight, in_dim, out_dim, .. } => {
            assert_eq!(weight, "llama.0.attn.wk");
            assert_eq!((*in_dim, *out_dim), (4, 2));
        }
        other => panic!("{other:?}"),
    }
    match &plan[38] {
        Step::Logits { weight, vocab } => {
            assert_eq!(weight, "llama.output");
            assert_eq!(*vocab, 8);
        }
        other => panic!("{other:?}"),
    }
}
