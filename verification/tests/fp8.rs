//! Eight-bit floats.

use pg_infer::models::fp8::{
    decode_e4m3, decode_f8_e4m3, decode_i8, e4m3_to_f32, encode_e4m3, f32_to_e4m3,
};

fn to_f32(byte: u8) -> f32 {
    f32::from_bits(e4m3_to_f32(byte))
}

fn from_f32(x: f32) -> u8 {
    f32_to_e4m3(x.to_bits())
}

#[test]
fn e4m3_canonical_values() {
    assert_eq!(to_f32(0x00), 0.0);
    assert_eq!(to_f32(0x80).to_bits(), (-0.0f32).to_bits());
    // Smallest positive subnormal: 2^-9
    assert!((to_f32(0x01) - 1.0 / 512.0).abs() < 1e-7);
    // Smallest positive normal: 2^-6
    assert!((to_f32(0x08) - 1.0 / 64.0).abs() < 1e-7);
    // Max normal: 448
    assert_eq!(to_f32(0x7E), 448.0);
    assert_eq!(to_f32(0xFE), -448.0);
    // NaN
    assert!(to_f32(0x7F).is_nan());
    assert!(to_f32(0xFF).is_nan());
}

#[test]
fn e4m3_round_trip_representable() {
    for byte in 0..=255u8 {
        let f = to_f32(byte);
        if f.is_nan() {
            continue;
        }
        let back = from_f32(f);
        if f == 0.0 {
            assert!(back == 0x00 || back == 0x80);
            continue;
        }
        assert_eq!(back, byte, "roundtrip {byte:#x} -> {f} -> {back:#x}");
    }
}

#[test]
fn e4m3_saturation() {
    assert_eq!(from_f32(1000.0), 0x7E);
    assert_eq!(from_f32(-1000.0), 0xFE);
    assert_eq!(from_f32(448.0), 0x7E);
    assert_eq!(from_f32(-448.0), 0xFE);
}

#[test]
fn e4m3_tiny_flush_to_zero() {
    assert_eq!(from_f32(1e-10), 0x00);
    assert_eq!(from_f32(-1e-10), 0x80);
}

#[test]
fn e4m3_subnormal_sweep() {
    for m in 1..=7u8 {
        let expected = (m as f32 / 8.0) * (2.0_f32).powi(-6);
        let decoded = to_f32(m);
        assert!(
            (decoded - expected).abs() < 1e-12,
            "m={m}: expected {expected}, got {decoded}"
        );
    }
    for m in 1..=7u8 {
        let expected = -(m as f32 / 8.0) * (2.0_f32).powi(-6);
        let decoded = to_f32(0x80 | m);
        assert!((decoded - expected).abs() < 1e-12);
    }
}

#[test]
fn e4m3_infinity_saturates() {
    assert_eq!(from_f32(f32::INFINITY), 0x7E);
    assert_eq!(from_f32(f32::NEG_INFINITY), 0xFE);
}

#[test]
fn decode_i8_basic() {
    let data: Vec<u8> = vec![0, 1, 127, 128, 255];
    let result: Vec<f32> = decode_i8(&data).into_iter().map(f32::from_bits).collect();
    assert_eq!(result, vec![0.0, 1.0, 127.0, -128.0, -1.0]);
}

#[test]
fn decode_f8_e4m3_batch() {
    let data = vec![0x38, 0x00, 0x7E]; // 1.0, 0.0, 448.0
    let result: Vec<f32> = decode_f8_e4m3(&data).into_iter().map(f32::from_bits).collect();
    assert_eq!(result[0], 1.0);
    assert_eq!(result[1], 0.0);
    assert_eq!(result[2], 448.0);
}

#[test]
fn e4m3_rounds_to_the_nearest_even() {
    // Between 1.0 (0x38) and 1.125 (0x39).
    assert_eq!(from_f32(1.05), 0x38);
    assert_eq!(from_f32(1.1), 0x39);
    assert_eq!(from_f32(1.0625), 0x38);
    assert_eq!(from_f32(1.1875), 0x3A);
    // Halfway below the smallest number: to the even zero.
    assert_eq!(from_f32(1.0 / 1024.0), 0x00);
    assert_eq!(from_f32(1.5 / 1024.0), 0x01);
    assert!(to_f32(from_f32(f32::NAN)).is_nan());
}

#[test]
fn e4m3_slices_convert_number_by_number() {
    let data: Vec<u32> = [1.0f32, -448.0, 0.0].iter().map(|x| x.to_bits()).collect();
    let bytes = encode_e4m3(&data);
    assert_eq!(bytes, vec![0x38, 0xFE, 0x00]);
    assert_eq!(decode_e4m3(&bytes), data);
    assert_eq!(decode_f8_e4m3(&bytes), data);
    assert!(decode_e4m3(&[]).is_empty());
}

#[test]
fn e4m3_codes_increase() {
    for byte in 0..0x7Eu8 {
        assert!(to_f32(byte) < to_f32(byte + 1));
    }
}
