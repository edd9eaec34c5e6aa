//! Ternary matrices and products with them.

use pg_infer::compute::bitlinear::{BitLinearWeight, ComputeError};
use pg_infer::ternary::{decode_ternary, encode_ternary};

fn bits(data: &[f32]) -> Vec<u32> {
    data.iter().map(|x| x.to_bits()).collect()
}

fn weight(rows: usize, cols: usize, bytes: Vec<u8>, scales: &[f32]) -> Result<BitLinearWeight, ComputeError> {
    BitLinearWeight::new(rows, cols, bytes, bits(scales))
}

/// Product of a matrix with a vector, from the trits of its rows.
fn matvec_into(w: &BitLinearWeight, x: &[f32], y: &mut [f32]) -> Result<(), ComputeError> {
    w.check_matvec(x.len(), y.len())?;
    for r in 0..w.rows {
        let trits = w.row_trits(r);
        let mut acc = 0.0f32;
        for (t, v) in trits.iter().zip(x.iter()) {
            acc += *t as f32 * v;
        }
        y[r] = acc * f32::from_bits(w.channel_scales[r]);
    }
    Ok(())
}

fn matvec(w: &BitLinearWeight, x: &[f32]) -> Result<Vec<f32>, ComputeError> {
    let mut y = vec![0.0f32; w.rows];
    matvec_into(w, x, &mut y)?;
    Ok(y)
}

/// Scores of packed rows, from their trits.
fn dispatch(packed: &[u8], x: &[f32], num_rows: usize, hidden: usize) -> Vec<f32> {
    let trits = decode_ternary(packed, num_rows * hidden);
    (0..num_rows)
        .map(|r| {
            (0..hidden)
                .map(|c| trits[r * hidden + c] as f32 * x[c])
                .sum()
        })
        .collect()
}

fn encode_row(row: &[f32], d: f32) -> Vec<u8> {
    let inv = if d > 0.0 { 1.0 / d } else { 0.0 };
    let trits: Vec<i8> = row
        .iter()
        .map(|v| (v * inv).round().clamp(-1.0, 1.0) as i8)
        .collect();
    encode_ternary(&trits)
}

fn naive_dequant_matvec(w: &BitLinearWeight, x: &[f32]) -> Vec<f32> {
    let row_bytes = w.row_bytes();
    let mut y = vec![0.0f32; w.rows];
    for (r, y_r) in y.iter_mut().enumerate() {
        let scale = f32::from_bits(w.channel_scales[r]);
        let mut acc = 0.0f32;
        for (c, &x_c) in x.iter().enumerate().take(w.cols) {
            let byte = w.i2s_bytes[r * row_bytes + c / 4];
            let code = (byte >> (2 * (c % 4))) & 0b11;
            let trit = match code {
                0b01 => 1.0_f32,
                0b10 => -1.0_f32,
                _ => 0.0_f32,
            };
            acc += trit * scale * x_c;
        }
        *y_r = acc;
    }
    y
}

fn synth(n: usize, seed: u64) -> Vec<f32> {
    let mut s = seed;
    (0..n)
        .map(|_| {
            s = s.wrapping_mul(6364136223846793005).wrapping_add(1);
            ((s >> 33) as f32) / (u32::MAX as f32) * 2.0 - 1.0
        })
        .collect()
}

fn synth_ternary(n: usize, seed: u64) -> Vec<f32> {
    let mut s = seed;
    (0..n)
        .map(|_| {
            s = s.wrapping_mul(6364136223846793005).wrapping_add(1);
            let bucket = ((s >> 33) % 3) as i32;
            match bucket {
                0 => 0.0,
                1 => 1.0,
                _ => -1.0,
            }
        })
        .collect()
}

#[test]
fn shape_mismatch_rejects_bad_inputs() {
    assert!(weight(1, 5, vec![0; 2], &[1.0]).is_err(), "cols=5 should reject");
    assert!(
        weight(2, 8, vec![0; 3], &[1.0, 1.0]).is_err(),
        "expected 4 bytes (2*8/4), got 3"
    );
    assert!(weight(2, 8, vec![0; 4], &[1.0]).is_err(), "expected 2 scales");
}

#[test]
fn matvec_x_dim_mismatch_errors() {
    let w = weight(1, 8, vec![0; 2], &[1.0]).unwrap();
    let x = vec![0.0f32; 7];
    assert!(matvec(&w, &x).is_err());
}

#[test]
fn matvec_y_too_small_errors() {
    let w = weight(2, 4, vec![0; 2], &[1.0, 1.0]).unwrap();
    let x = vec![0.0f32; 4];
    let mut y = vec![0.0f32; 1];
    assert!(matvec_into(&w, &x, &mut y).is_err());
}

#[test]
fn matvec_zero_weight_returns_zero() {
    let w = weight(3, 16, vec![0u8; 12], &[1.5, -2.0, 7.0]).unwrap();
    let x = synth(16, 42);
    let y = matvec(&w, &x).unwrap();
    assert_eq!(y, vec![0.0, 0.0, 0.0]);
}

#[test]
fn matvec_identity_row_recovers_activation() {
    let mut row = vec![0.0f32; 16];
    row[5] = 1.0;
    let bytes = encode_row(&row, 1.0);
    let w = weight(1, 16, bytes, &[1.0]).unwrap();
    let x = synth(16, 11);
    let y = matvec(&w, &x).unwrap();
    assert!((y[0] - x[5]).abs() < 1e-6, "got {} expected {}", y[0], x[5]);
}

#[test]
fn matvec_negative_trit_subtracts() {
    let mut row = vec![0.0f32; 16];
    row[3] = -1.0;
    row[11] = 1.0;
    let bytes = encode_row(&row, 1.0);
    let w = weight(1, 16, bytes, &[0.5]).unwrap();
    let x: Vec<f32> = (0..16).map(|i| i as f32).collect();
    let y = matvec(&w, &x).unwrap();
    let expected = (x[11] - x[3]) * 0.5;
    assert!((y[0] - expected).abs() < 1e-6, "got {} expected {}", y[0], expected);
}

#[test]
fn matvec_matches_naive_reference_random_ternary() {
    let rows = 32;
    let cols = 256;
    let mut bytes = Vec::with_capacity(rows * cols / 4);
    for r in 0..rows {
        let row_trits = synth_ternary(cols, 42 + r as u64);
        bytes.extend(encode_row(&row_trits, 1.0));
    }
    let scales: Vec<f32> = (0..rows).map(|i| 0.1 + (i as f32) * 0.01).collect();
    let w = weight(rows, cols, bytes, &scales).unwrap();

    let x = synth(cols, 9999);
    let kernel = matvec(&w, &x).unwrap();
    let reference = naive_dequant_matvec(&w, &x);

    for (i, (k, r)) in kernel.iter().zip(reference.iter()).enumerate() {
        assert!(
            (k - r).abs() < 1e-4,
            "row {i}: kernel={k} reference={r} delta={}",
            k - r
        );
    }
}

#[test]
fn matvec_reserved_bit_pattern_decodes_as_zero() {
    let w = weight(1, 4, vec![0xFFu8], &[3.0]).unwrap();
    let x = vec![1.0, 1.0, 1.0, 1.0];
    let y = matvec(&w, &x).unwrap();
    assert_eq!(y, vec![0.0]);
}

#[test]
fn known_output_single_row() {
    let weights: Vec<i8> = vec![1, -1, 1, 0];
    let packed = encode_ternary(&weights);
    let x = vec![1.0f32, 2.0, 3.0, 4.0];
    let scores = dispatch(&packed, &x, 1, 4);
    assert_eq!(scores.len(), 1);
    assert!((scores[0] - 2.0).abs() < 1e-6);
}

#[test]
fn known_output_multi_row() {
    let weights: Vec<i8> = vec![1, 1, 1, 1, -1, -1, -1, -1, -1, -1, -1, -1, 1, 1, 1, 1];
    let packed = encode_ternary(&weights);
    let x: Vec<f32> = (1..=8).map(|i| i as f32).collect();
    let scores = dispatch(&packed, &x, 2, 8);
    assert_eq!(scores.len(), 2);
    assert!((scores[0] - (-16.0)).abs() < 1e-6);
    assert!((scores[1] - 16.0).abs() < 1e-6);
}

#[test]
fn zero_weights_give_zero_scores() {
    let packed = vec![0u8; 4]; // 16 zeros
    let x = vec![99.0f32; 16];
    let scores = dispatch(&packed, &x, 1, 16);
    assert!((scores[0]).abs() < 1e-6);
}

#[test]
fn all_positive_ones() {
    let hidden = 16;
    let packed = vec![0x55u8; hidden / 4]; // 0b01_01_01_01
    let x: Vec<f32> = (1..=hidden).map(|i| i as f32).collect();
    let expected: f32 = x.iter().sum();
    let scores = dispatch(&packed, &x, 1, hidden);
    assert!((scores[0] - expected).abs() < 1e-6);
}

#[test]
fn all_negative_ones() {
    let hidden = 16;
    let packed = vec![0xAAu8; hidden / 4]; // 0b10_10_10_10
    let x: Vec<f32> = (1..=hidden).map(|i| i as f32).collect();
    let expected: f32 = -x.iter().sum::<f32>();
    let scores = dispatch(&packed, &x, 1, hidden);
    assert!((scores[0] - expected).abs() < 1e-6);
}

#[test]
fn zero_input_gives_zero_scores() {
    let weights: Vec<i8> = vec![1, -1, 1, -1, 0, 1, -1, 0];
    let packed = encode_ternary(&weights);
    let x = vec![0.0f32; 8];
    let scores = dispatch(&packed, &x, 1, 8);
    assert!((scores[0]).abs() < 1e-6);
}

#[test]
fn many_rows() {
    let hidden = 4;
    let num_rows = 4;
    let packed = vec![0x55u8; num_rows]; // each byte = 4x +1
    let x = vec![1.0f32; hidden];
    let scores = dispatch(&packed, &x, num_rows, hidden);
    assert_eq!(scores.len(), num_rows);
    for &s in &scores {
        assert!((s - 4.0).abs() < 1e-6);
    }
}

#[test]
fn sparse_weights() {
    let weights: Vec<i8> = vec![0, 0, 1, 0, 0, -1, 0, 0];
    let packed = encode_ternary(&weights);
    let x = vec![1.0, 2.0, 3.0, 4.0, 5.0, 6.0, 7.0, 8.0];
    let scores = dispatch(&packed, &x, 1, 8);
    assert!((scores[0] - (-3.0)).abs() < 1e-6);
}

#[test]
fn weight_errors_say_what_is_wrong() {
    assert_eq!(
        weight(1, 5, vec![0; 2], &[1.0]).unwrap_err().message(),
        "shape mismatch: BitLinearWeight: cols (5) must be a multiple of 4 for I2_S packing"
    );
    assert_eq!(
        weight(2, 8, vec![0; 3], &[1.0, 1.0]).unwrap_err().message(),
        "shape mismatch: BitLinearWeight: expected 4 I2_S bytes (2x8/4), got 3 bytes"
    );
    assert_eq!(
        weight(2, 8, vec![0; 4], &[1.0]).unwrap_err().message(),
        "shape mismatch: BitLinearWeight: expected 2 channel scales, got 1"
    );
    let w = weight(2, 4, vec![0; 2], &[1.0, 1.0]).unwrap();
    assert_eq!(
        w.check_matvec(3, 2).unwrap_err().message(),
        "shape mismatch: matvec_i2s_f32: x.len() = 3, expected w.cols = 4"
    );
    assert_eq!(
        w.check_matvec(4, 1).unwrap_err().message(),
        "shape mismatch: matvec_i2s_f32: y.len() = 1 < w.rows = 2"
    );
    assert!(w.check_matvec(4, 2).is_ok());
}

#[test]
fn rows_hold_their_trits() {
    let w = weight(2, 4, encode_ternary(&[1, -1, 0, 1, 0, 0, -1, -1]), &[1.0, 2.0]).unwrap();
    assert_eq!(w.row_bytes(), 1);
    assert_eq!(w.row_trits(0), vec![1, -1, 0, 1]);
    assert_eq!(w.row_trits(1), vec![0, 0, -1, -1]);
}
