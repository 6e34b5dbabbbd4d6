use gguf::infer::quant::{
    self, bf16_to_f32, dequantize_block, f16_to_f32, formula, k_scale_min_6bit,
    quant_matvec_layout, Block, Formula,
};
use gguf::{GgmlType, GgufError, GgufResult};

fn f16b(v: f32) -> [u8; 2] {
    let bits = v.to_bits();
    let sign = ((bits & 0x8000_0000) >> 16) as u16;
    let exp = (bits >> 23) & 0xFF;
    let mant = bits & 0x7FFFFF;
    let out: u16 = if exp == 0xFF {
        if mant != 0 {
            sign | 0x7E00
        } else {
            sign | 0x7C00
        }
    } else if exp > 0x8E {
        sign | 0x7C00
    } else if exp > 0x70 {
        let e = (exp - 0x70) as u16;
        let m10 = (mant >> 13) as u16;
        sign | (e << 10) | m10
    } else if exp == 0 {
        sign
    } else {
        let raw = mant | 0x800000u32;
        let shift = (126 - exp) as usize;
        let val = raw >> shift;
        let rounding_bit = (raw >> (shift - 1)) & 1;
        let m16 = (val + rounding_bit) as u16;
        if m16 == 0 {
            sign
        } else {
            m16 | sign
        }
    };
    out.to_le_bytes()
}


fn half(b: &[u8; 2]) -> f32 {
    f32::from_bits(f16_to_f32(b))
}

fn f16_at_test(v: f32) -> f32 {
    half(&f16b(v))
}

/// The numbers that a block stands for.
fn values(dtype: GgmlType, block: &Block) -> Vec<f32> {
    let d = f32::from_bits(block.factor);
    let m = f32::from_bits(block.offset);
    block
        .codes
        .iter()
        .filter_map(|c| {
            let (s, o, q) = (c.scale as f32, c.min as f32, c.q as f32);
            formula(dtype, c.scale).map(|f| match f {
                Formula::Stored => d,
                Formula::Scaled => d * q,
                Formula::ScaledAndShifted => d * q + m,
                Formula::Grouped => d * s * q,
                Formula::GroupedAndShifted => (s * d) * q - o * m,
                Formula::LowGroup => (s * d) * q,
                Formula::HighGroup => {
                    let t = (s - 8.0) * m;
                    (s * m + t) * q + t
                }
            })
        })
        .collect()
}

fn block_values(data: &[u8], dtype: GgmlType, out: &mut [f32]) -> GgufResult<()> {
    let v = values(dtype, &dequantize_block(data, dtype)?);
    out[..v.len()].copy_from_slice(&v);
    Ok(())
}

fn dequantize(data: &[u8], dtype: GgmlType, n: u64) -> GgufResult<Vec<f32>> {
    let mut out = Vec::new();
    for b in quant::dequantize(data, dtype, n)? {
        out.extend(values(dtype, &b));
    }
    Ok(out)
}

fn quant_matvec(
    w: &[u8],
    dtype: GgmlType,
    rows: u64,
    cols: u64,
    x: &[f32],
    y: &mut [f32],
) -> GgufResult<()> {
    let row = quant_matvec_layout(w, dtype, rows, cols, x.len() as u64, y.len() as u64)? as usize;
    for (r, yi) in y.iter_mut().enumerate() {
        let v = dequantize(&w[r * row..(r + 1) * row], dtype, cols)?;
        *yi = v.iter().zip(x).map(|(a, b)| a * b).sum();
    }
    Ok(())
}

#[test]
fn test_f16_roundtrip() {
    for v in [0.0f32, 1.0, -1.0, 0.5, 3.25, -100.0, 65504.0, 6.1035156e-5] {
        let dec = half(&f16b(v));
        assert!((dec - v).abs() < 1e-5 * v.abs().max(1.0), "v={v} dec={dec}");
    }
}

#[test]
fn test_f16_boundaries() {
    assert_eq!(half(&f16b(f32::INFINITY)), f32::INFINITY);
    assert!(half(&f16b(f32::NAN)).is_nan());
    assert_eq!(half(&f16b(-0.0)).to_bits(), (-0.0f32).to_bits());
    assert_eq!(half(&f16b(1e30)), f32::INFINITY);
}

#[test]
fn test_bf16_roundtrip() {
    for v in [0.0f32, 1.0, -2.5, 123.0, -0.25, 1.5e5] {
        let bits = v.to_bits() & 0xFFFF0000;
        let enc: [u8; 2] = ((bits >> 16) as u16).to_le_bytes();
        assert_eq!(f32::from_bits(bf16_to_f32(&enc)), f32::from_bits(bits));
    }
}

#[test]
fn test_q4_0() {
    let mut block = [0u8; 18];
    block[0..2].copy_from_slice(&f16b(0.25));
    for (i, b) in block[2..].iter_mut().enumerate() {
        let v = i as u8;
        *b = v | (v << 4);
    }
    let mut out = [0f32; 32];
    block_values(&block, GgmlType::Q4_0, &mut out).unwrap();
    for i in 0..16 {
        let q = i as i8;
        assert!((out[2 * i] - 0.25 * (q - 8) as f32).abs() < 1e-6);
        assert!((out[2 * i + 1] - 0.25 * (q - 8) as f32).abs() < 1e-6);
    }
}

#[test]
fn test_q4_1() {
    let mut block = [0u8; 20];
    block[0..2].copy_from_slice(&f16b(0.5));
    block[2..4].copy_from_slice(&f16b(0.0));
    for (i, b) in block[4..].iter_mut().enumerate() {
        let lo = i as u8;
        let hi = (i as u8).wrapping_add(1) & 0xF;
        *b = lo | (hi << 4);
    }
    let mut out = [0f32; 32];
    block_values(&block, GgmlType::Q4_1, &mut out).unwrap();
    for i in 0..16 {
        let lo = i as u32;
        let hi = (i + 1) & 0xF;
        assert!(
            (out[2 * i] - 0.5 * lo as f32).abs() < 1e-6,
            "i={i} lo={lo} out={}",
            out[2 * i]
        );
        assert!(
            (out[2 * i + 1] - 0.5 * hi as f32).abs() < 1e-6,
            "i={i} hi={hi} out={}",
            out[2 * i + 1]
        );
    }
}

#[test]
fn test_q5_0() {
    let mut block = [0u8; 22];
    block[0..2].copy_from_slice(&f16b(0.25));
    block[2] = 0x11;
    block[3] = 0x22;
    block[4] = 0;
    block[5] = 0;
    for (i, b) in block[6..].iter_mut().enumerate() {
        let lo = i as u8;
        let hi = (i as u8).wrapping_add(1) & 0xF;
        *b = lo | (hi << 4);
    }
    let mut out = [0f32; 32];
    block_values(&block, GgmlType::Q5_0, &mut out).unwrap();
    let qh = u32::from_le_bytes([0x11, 0x22, 0, 0]);
    for i in 0usize..16 {
        let lo4 = i as u32;
        let hi4 = (i + 1) as u32 & 0xF;
        let xh_0 = ((qh >> i) << 4) & 0x10;
        let xh_1 = (qh >> (i + 12)) & 0x10;
        let lo = lo4 | xh_0;
        let hi = hi4 | xh_1;
        assert!(
            (out[i] - 0.25 * (lo as i32 - 16) as f32).abs() < 1e-6,
            "i={i} lo={lo} out={}",
            out[i]
        );
        assert!(
            (out[16 + i] - 0.25 * (hi as i32 - 16) as f32).abs() < 1e-6,
            "i={i} hi={hi} out={}",
            out[16 + i]
        );
    }
}

#[test]
fn test_q5_1() {
    let mut block = [0u8; 24];
    block[0..2].copy_from_slice(&f16b(0.25));
    block[2..4].copy_from_slice(&f16b(0.0));
    block[4] = 0x0F;
    block[5] = 0x00;
    block[6] = 0;
    block[7] = 0;
    for i in 0..16 {
        let lo = i as u8;
        let hi = (i as u8).wrapping_add(1) & 0xF;
        block[8 + i] = lo | (hi << 4);
    }
    let mut out = [0f32; 32];
    block_values(&block, GgmlType::Q5_1, &mut out).unwrap();
    let qh = u32::from_le_bytes([0x0F, 0x00, 0, 0]);
    for i in 0usize..16 {
        let lo4 = i as u32;
        let hi4 = (i + 1) as u32 & 0xF;
        let xh_0 = ((qh >> i) << 4) & 0x10;
        let xh_1 = (qh >> (i + 12)) & 0x10;
        let lo = lo4 | xh_0;
        let hi = hi4 | xh_1;
        assert!(
            (out[i] - 0.25 * lo as f32).abs() < 1e-6,
            "i={i} lo={lo} out={}",
            out[i]
        );
        assert!(
            (out[16 + i] - 0.25 * hi as f32).abs() < 1e-6,
            "i={i} hi={hi} out={}",
            out[16 + i]
        );
    }
}

#[test]
fn test_q8_0() {
    let mut block = [0u8; 34];
    block[0..2].copy_from_slice(&f16b(0.125));
    for (i, b) in block[2..].iter_mut().enumerate() {
        *b = (i % 5) as u8;
    }
    let mut out = [0f32; 32];
    block_values(&block, GgmlType::Q8_0, &mut out).unwrap();
    for i in 0..32 {
        let q = block[2 + i] as i8;
        assert!(
            (out[i] - 0.125 * q as f32).abs() < 1e-6,
            "i={i} q={q} out={}",
            out[i]
        );
    }
}

#[test]
fn test_kquant_finite_smoke() {
    let dtypes = [
        GgmlType::Q2_K,
        GgmlType::Q3_K_S,
        GgmlType::Q3_K_M,
        GgmlType::Q3_K_L,
        GgmlType::Q4_K,
        GgmlType::Q5_K,
        GgmlType::Q6_K,
        GgmlType::Q8_K,
    ];
    for dt in dtypes {
        let bb = dt.block_bytes().unwrap() as usize;
        let mut block = vec![0u8; bb];
        match dt {
            GgmlType::Q2_K => {
                block[80..82].copy_from_slice(&f16b(0.5));
                block[82..84].copy_from_slice(&f16b(0.1));
            }
            GgmlType::Q3_K_S | GgmlType::Q3_K_L => {
                block[108..110].copy_from_slice(&f16b(0.5));
            }
            GgmlType::Q3_K_M => {
                block[112..114].copy_from_slice(&f16b(0.5));
            }
            GgmlType::Q4_K | GgmlType::Q5_K => {
                block[0..2].copy_from_slice(&f16b(0.5));
                block[2..4].copy_from_slice(&f16b(0.1));
            }
            GgmlType::Q6_K => {
                block[208..210].copy_from_slice(&f16b(0.5));
            }
            GgmlType::Q8_K => {
                block[0..4].copy_from_slice(&0.5f32.to_le_bytes());
            }
            _ => unreachable!(),
        }
        for (i, b) in block.iter_mut().enumerate() {
            if *b == 0 {
                *b = (i as u8) & 0x0F;
            }
        }
        let mut out = vec![0f32; 256];
        block_values(&block, dt, &mut out).unwrap();
        for v in &out {
            assert!(v.is_finite(), "{dt:?} produced non-finite");
        }
    }
}

#[test]
fn test_q4_k() {
    let mut block = [0u8; 144];
    block[0..2].copy_from_slice(&f16b(0.5));
    block[2..4].copy_from_slice(&f16b(0.1));
    block[4] = 0x02;
    block[8] = 0x03;
    for i in 0..128 {
        block[16 + i] = 0x5A;
    }
    let mut out = vec![0f32; 256];
    block_values(&block, GgmlType::Q4_K, &mut out).unwrap();
    for i in 0..16 {
        assert!(
            (out[i] - 9.7).abs() < 1e-4,
            "j=0 k={i} out={}（block 全 0x5A 低 nibble=10，e=0..31 都应 9.7）",
            out[i]
        );
    }
    let scales = &block[4..16];
    let d = f16_at_test(0.5);
    let dmin = f16_at_test(0.1);
    for j in 1..8 {
        let (sc, mn) = k_scale_min_6bit(scales, j);
        let s1 = sc as f32 * d;
        let s2 = mn as f32 * dmin;
        let base = 32 * j;
        for i in 0..32 {
            let q = if i % 2 == 0 { 0xA } else { 0x5 };
            let expect = s1 * q as f32 - s2;
            assert!(
                (out[base + i] - expect).abs() < 1e-5,
                "j={j} k={} out={} expected={expect} (sc={sc} mn={mn})",
                i, out[base + i]
            );
        }
    }
}

#[test]
fn test_dequantize_whole() {
    let mut block = [0u8; 18];
    block[0..2].copy_from_slice(&f16b(1.0));
    let mut data = Vec::new();
    data.extend_from_slice(&block);
    data.extend_from_slice(&block);
    let out = dequantize(&data, GgmlType::Q4_0, 64).unwrap();
    assert_eq!(out.len(), 64);
    assert!(out.iter().all(|v| v.is_finite()));
}

#[test]
fn test_dequantize_insufficient_bytes() {
    let data = [0u8; 8];
    assert!(matches!(
        dequantize(&data, GgmlType::Q4_0, 32),
        Err(GgufError::DequantError { .. })
    ));
}

#[test]
fn test_dequantize_unsupported() {
    assert!(matches!(
        block_values(&[0u8; 8], GgmlType::Q4_2, &mut [0f32; 32]),
        Err(GgufError::DequantError { .. })
    ));
}

#[test]
fn test_quant_matvec_matches_dequant() {
    let rows: u64 = 8;
    let cols: u64 = 512;
    let bb = GgmlType::Q4_K.block_bytes().unwrap() as usize;
    let bs = GgmlType::Q4_K.block_size().unwrap() as usize;
    let nblocks = (cols / bs as u64) as usize;
    let mut w = Vec::with_capacity((rows as usize) * nblocks * bb);
    for r in 0..rows as usize {
        for _b in 0..nblocks {
            let mut block = vec![0u8; bb];
            block[0..2].copy_from_slice(&f16b(0.5));
            block[4] = ((r % 5) + 1) as u8;
            for i in 0..128 {
                block[16 + i] = 0x5A;
            }
            w.extend_from_slice(&block);
        }
    }
    let x: Vec<f32> = (0..cols as usize).map(|i| (i % 3) as f32).collect();
    let wd = dequantize(&w, GgmlType::Q4_K, rows * cols).unwrap();
    let mut y_ref = vec![0f32; rows as usize];
    for r in 0..rows as usize {
        let mut acc = 0f32;
        for c in 0..cols as usize {
            acc += wd[r * cols as usize + c] * x[c];
        }
        y_ref[r] = acc;
    }
    let mut y = vec![0f32; rows as usize];
    quant_matvec(&w, GgmlType::Q4_K, rows, cols, &x, &mut y).unwrap();
    for r in 0..rows as usize {
        let diff = (y[r] - y_ref[r]).abs();
        assert!(
            diff < 1e-3 * y_ref[r].abs().max(1.0),
            "row {r}: {} vs {}",
            y[r],
            y_ref[r]
        );
    }
}

#[test]
fn test_quant_matvec_f32() {
    let rows: u64 = 4;
    let cols: u64 = 8;
    let w: Vec<u8> = (0..rows * cols)
        .flat_map(|i| (i as f32).to_le_bytes())
        .collect();
    let x = vec![1.0f32; cols as usize];
    let mut y = vec![0f32; rows as usize];
    quant_matvec(&w, GgmlType::F32, rows, cols, &x, &mut y).unwrap();
    for (r, yv) in y.iter().enumerate() {
        let expect: f32 = (0..cols as usize)
            .map(|c| (r * cols as usize + c) as f32)
            .sum();
        assert!((yv - expect).abs() < 1e-4);
    }
}

#[test]
fn test_quant_matvec_f16() {
    let rows: u64 = 2;
    let cols: u64 = 4;
    let w: Vec<u8> = (0..rows * cols)
        .flat_map(|i| {
            let b = f16b(i as f32);
            [b[0], b[1]]
        })
        .collect();
    let x = vec![2.0f32; cols as usize];
    let mut y = vec![0f32; rows as usize];
    quant_matvec(&w, GgmlType::F16, rows, cols, &x, &mut y).unwrap();
    for (r, yv) in y.iter().enumerate() {
        let expect: f32 = (0..cols as usize)
            .map(|c| (r * cols as usize + c) as f32 * 2.0)
            .sum();
        assert!((yv - expect).abs() < 1e-4);
    }
}

#[test]
fn test_quant_matvec_dim_mismatch() {
    let w = [0u8; 16];
    let x = vec![1.0f32; 16];
    let mut y = vec![0f32; 1];
    assert!(matches!(
        quant_matvec(&w, GgmlType::Q4_0, 1, 32, &x, &mut y),
        Err(GgufError::DequantError { .. })
    ));
}

#[test]
fn q4_0_roundtrip() {
    let d: f32 = 0.5;
    let d_bytes = quant::f32_to_f16(d.to_bits());

    let mut block1 = [0u8; 18];
    block1[0..2].copy_from_slice(&d_bytes);
    for b in block1[2..].iter_mut() {
        *b = 0x88;
    }
    let out1 = dequantize(&block1, GgmlType::Q4_0, 32).expect("dequantize");
    assert_eq!(out1.len(), 32);
    assert!(out1.iter().all(|&v| v.is_finite() && v == 0.0f32));

    let mut block2 = [0u8; 18];
    block2[0..2].copy_from_slice(&d_bytes);
    for i in 0..16 {
        block2[2 + i] = if i % 2 == 0 { 0x00 } else { 0xFF };
    }
    let out2 = dequantize(&block2, GgmlType::Q4_0, 32).expect("dequantize");
    for (i, v) in out2.iter().enumerate() {
        let q = if i / 2 % 2 == 0 { -8.0f32 } else { 7.0f32 };
        let expected = d * q;
        assert!(
            (v - expected).abs() < 1e-5,
            "i={i}: got {} expected {}",
            v,
            expected
        );
    }

    let mut multi = [0u8; 36];
    multi[0..18].copy_from_slice(&block1);
    multi[18..36].copy_from_slice(&block2);
    let out3 = dequantize(&multi, GgmlType::Q4_0, 64).expect("dequantize");
    assert_eq!(out3.len(), 64);
    assert!(out3[..32].iter().all(|&v| v == 0.0f32));

    assert!(out3.iter().all(|&v| v.is_finite()));
}

#[test]
fn formulas_go_by_type_and_scale() {
    assert_eq!(formula(GgmlType::F16, 1), Some(Formula::Stored));
    assert_eq!(formula(GgmlType::Q8_K, 1), Some(Formula::Scaled));
    assert_eq!(formula(GgmlType::Q5_1, 1), Some(Formula::ScaledAndShifted));
    assert_eq!(formula(GgmlType::Q6_K, -3), Some(Formula::Grouped));
    assert_eq!(formula(GgmlType::Q4_K, 9), Some(Formula::GroupedAndShifted));
    assert_eq!(formula(GgmlType::Q2_K, 7), Some(Formula::LowGroup));
    assert_eq!(formula(GgmlType::Q2_K, 8), Some(Formula::HighGroup));
    assert_eq!(formula(GgmlType::Unknown(99), 1), None);
}
