use gguf::infer::sampler::{Ask, Sampler, SamplerConfig};
use rand::Rng;

fn bits(v: &[f32]) -> Vec<u32> {
    v.iter().map(|x| x.to_bits()).collect()
}

fn greedy(v: &[f32]) -> u32 {
    Sampler::greedy(&bits(v))
}

/// Chooses a token: the arithmetic round the sampler's decisions.
fn sample(s: &mut Sampler, logits: &[f32]) -> u32 {
    let cfg = *s.config();
    let penalty = f32::from_bits(cfg.repeat_penalty);
    let mut v = logits.to_vec();
    for id in s.penalized(v.len()) {
        let x = &mut v[id as usize];
        if Sampler::divides(x.to_bits()) {
            *x /= penalty;
        } else {
            *x *= penalty;
        }
    }
    if let Ask::Token(id) = s.sample(&bits(&v)) {
        return id;
    }
    let temp = f32::from_bits(cfg.temperature);
    let scaled: Vec<f32> = v.iter().map(|x| x / temp).collect();
    let max = scaled.iter().cloned().fold(f32::MIN, f32::max);
    let exps: Vec<f32> = scaled.iter().map(|x| (x - max).exp()).collect();
    let sum: f32 = exps.iter().sum();
    let probs: Vec<f32> = exps.iter().map(|e| e / sum).collect();
    let (mut choice, mut ask) = s.weigh(bits(&scaled), bits(&probs));
    loop {
        ask = match ask {
            Ask::Probabilities => panic!("the probabilities are known"),
            Ask::Token(id) => return id,
            Ask::Sums(c) => {
                let total: f32 = c.iter().map(|&i| probs[i]).sum();
                let mut cum = 0.0f32;
                let sums: Vec<u32> = c
                    .iter()
                    .map(|&i| {
                        cum += probs[i];
                        cum.to_bits()
                    })
                    .collect();
                choice.with_sums(&sums, (total * f32::from_bits(cfg.top_p)).to_bits())
            }
            Ask::Bound(best) => {
                choice.with_bound((f32::from_bits(best) * f32::from_bits(cfg.min_p)).to_bits())
            }
            Ask::Draw(c) => {
                let total: f32 = c.iter().map(|&i| probs[i]).sum();
                let mut r = s.rng_mut().gen_range(0.0f32..1.0) * total;
                let rests: Vec<u32> = c
                    .iter()
                    .map(|&i| {
                        r -= probs[i];
                        r.to_bits()
                    })
                    .collect();
                return choice.with_rests(&rests);
            }
        };
    }
}

fn settings(temp: f32, top_k: usize, top_p: f32, min_p: f32, repeat_penalty: f32) -> SamplerConfig {
    SamplerConfig {
        temperature: temp.to_bits(),
        top_k,
        top_p: top_p.to_bits(),
        min_p: min_p.to_bits(),
        repeat_penalty: repeat_penalty.to_bits(),
        seed: 42,
    }
}

fn config(temp: f32, top_k: usize, top_p: f32) -> SamplerConfig {
    settings(temp, top_k, top_p, 0.0, 1.0)
}

#[test]
fn test_greedy() {
    let logits = vec![1.0f32, 5.0, 3.0, 2.0];
    assert_eq!(greedy(&logits), 1);
}

#[test]
fn test_temperature_zero_greedy() {
    let cfg = config(0.0, 40, 0.95);
    let mut s = Sampler::new(cfg);
    let logits = vec![1.0f32, 5.0, 3.0, 2.0];
    assert_eq!(sample(&mut s, &logits), 1);
}

#[test]
fn test_top_k() {
    let cfg = config(1.0, 2, 1.0);
    let mut s = Sampler::new(cfg);
    let logits = vec![9.0f32, 10.0, -100.0, -100.0];
    let id = sample(&mut s, &logits);
    assert!(id == 0 || id == 1);
}

#[test]
fn test_top_p() {
    let cfg = config(1.0, 100, 0.5);
    let mut s = Sampler::new(cfg);
    let logits = vec![10.0f32, 9.0, -100.0, -100.0];
    let id = sample(&mut s, &logits);
    assert!(id == 0 || id == 1);
}

#[test]
fn test_repeat_penalty() {
    let cfg = settings(0.0, 40, 1.0, 0.0, 10.0);
    let mut s = Sampler::new(cfg);
    let logits = vec![5.0f32, 5.0];
    s.record(0);
    let id = sample(&mut s, &logits);
    assert_eq!(id, 1);
}

#[test]
fn test_min_p() {
    let cfg = settings(1.0, 100, 1.0, 0.5, 1.0);
    let mut s = Sampler::new(cfg);
    let logits = vec![10.0f32, 0.0, -100.0];
    let id = sample(&mut s, &logits);
    assert_eq!(id, 0);
}

#[test]
fn test_deterministic_with_seed() {
    let cfg = config(1.0, 40, 0.95);
    let logits: Vec<f32> = (0..100).map(|i| (i as f32) * 0.1).collect();

    let mut s1 = Sampler::new(cfg);
    let mut s2 = Sampler::new(cfg);
    let a = sample(&mut s1, &logits);
    let b = sample(&mut s2, &logits);
    assert_eq!(a, b);
}

#[test]
fn test_sample_valid_range() {
    let cfg = config(0.8, 20, 0.9);
    let mut s = Sampler::new(cfg);
    let logits: Vec<f32> = (0..50).map(|i| (i as f32) * 0.5 - 12.0).collect();
    for _ in 0..20 {
        let id = sample(&mut s, &logits);
        assert!(id < 50);
        s.record(id);
    }
}

