//! Storage precisions and ternary packing.

use pg_infer::ternary::{
    bits_to_ternary, decode_ternary, encode_ternary, ternary_bytes_per_row, ternary_to_bits,
};
use pg_infer::vindex::dtype::{bytes_per_float, decode_floats, encode_floats, StorageDtype};

/// Halves of numbers that need no rounding.
fn to_half(bits: u32) -> u16 {
    let sign = (bits >> 16) & 0x8000;
    let exp = ((bits >> 23) & 0xFF) as i32 - 127;
    if bits & 0x7FFF_FFFF == 0 {
        return sign as u16;
    }
    let mant = (bits >> 13) & 0x3FF;
    (sign | (((exp + 15) as u32) << 10) | mant) as u16
}

fn from_half(h: u16) -> u32 {
    let sign = ((h & 0x8000) as u32) << 16;
    let exp = ((h >> 10) & 0x1F) as u32;
    let mant = (h & 0x3FF) as u32;
    if exp == 0 && mant == 0 {
        return sign;
    }
    sign | ((exp + 127 - 15) << 23) | (mant << 13)
}

fn bits(data: &[f32]) -> Vec<u32> {
    data.iter().map(|x| x.to_bits()).collect()
}

fn floats(data: &[u32]) -> Vec<f32> {
    data.iter().map(|x| f32::from_bits(*x)).collect()
}

#[test]
fn encode_decode_f32() {
    let data = vec![1.0f32, 2.0, 3.0];
    let encoded = encode_floats(&bits(&data), StorageDtype::F32, to_half);
    assert_eq!(encoded.len(), 12);
    let decoded = floats(&decode_floats(&encoded, StorageDtype::F32, from_half));
    assert_eq!(decoded, data);
}

#[test]
fn encode_decode_f16() {
    let data = vec![1.0f32, 2.0, 3.0];
    let encoded = encode_floats(&bits(&data), StorageDtype::F16, to_half);
    assert_eq!(encoded.len(), 6);
    let decoded = floats(&decode_floats(&encoded, StorageDtype::F16, from_half));
    for (orig, dec) in data.iter().zip(decoded.iter()) {
        assert!((orig - dec).abs() < 0.01);
    }
    assert_eq!(decoded.len(), 3);
    assert_eq!(encoded, vec![0x00, 0x3C, 0x00, 0x40, 0x00, 0x42]);
}

#[test]
fn encode_decode_ternary_basic() {
    // 8 values = 2 bytes
    let data: Vec<i8> = vec![1, -1, 0, 1, -1, -1, 1, 0];
    let packed = encode_ternary(&data);
    assert_eq!(packed.len(), 2);
    let decoded = decode_ternary(&packed, 8);
    assert_eq!(decoded, data);
}

#[test]
fn encode_decode_ternary_all_zeros() {
    let data: Vec<i8> = vec![0; 16];
    let packed = encode_ternary(&data);
    assert_eq!(packed.len(), 4);
    assert!(packed.iter().all(|&b| b == 0));
    let decoded = decode_ternary(&packed, 16);
    assert_eq!(decoded, data);
}

#[test]
fn encode_decode_ternary_all_positive() {
    let data: Vec<i8> = vec![1; 8];
    let packed = encode_ternary(&data);
    // Each byte: 01 | 01<<2 | 01<<4 | 01<<6 = 0b01_01_01_01 = 0x55
    assert!(packed.iter().all(|&b| b == 0x55));
    let decoded = decode_ternary(&packed, 8);
    assert_eq!(decoded, data);
}

#[test]
fn encode_decode_ternary_all_negative() {
    let data: Vec<i8> = vec![-1; 8];
    let packed = encode_ternary(&data);
    // Each byte: 10 | 10<<2 | 10<<4 | 10<<6 = 0b10_10_10_10 = 0xAA
    assert!(packed.iter().all(|&b| b == 0xAA));
    let decoded = decode_ternary(&packed, 8);
    assert_eq!(decoded, data);
}

#[test]
fn ternary_bytes_per_row_basic() {
    assert_eq!(ternary_bytes_per_row(16), 4);
    assert_eq!(ternary_bytes_per_row(2560), 640);
    assert_eq!(ternary_bytes_per_row(4096), 1024);
}

#[test]
fn decode_floats_ternary() {
    let data: Vec<i8> = vec![1, -1, 0, 1];
    let packed = encode_ternary(&data);
    let decoded = floats(&decode_floats(&packed, StorageDtype::Ternary, from_half));
    assert_eq!(decoded, vec![1.0, -1.0, 0.0, 1.0]);
}

#[test]
fn reserved_code_is_zero() {
    assert_eq!(decode_ternary(&[0xFF], 4), vec![0, 0, 0, 0]);
    assert_eq!(bits_to_ternary(3), 0);
    assert_eq!(ternary_to_bits(-1), 2);
}

#[test]
fn incomplete_words_are_left_out() {
    let decoded = decode_floats(&vec![0, 0, 128, 63, 7], StorageDtype::F32, from_half);
    assert_eq!(floats(&decoded), vec![1.0]);
    assert!(decode_floats(&vec![1], StorageDtype::F16, from_half).is_empty());
}

#[test]
fn precisions_have_names_and_sizes() {
    assert_eq!(StorageDtype::default(), StorageDtype::F32);
    assert_eq!(StorageDtype::F32.name(), "f32");
    assert_eq!(StorageDtype::F16.name(), "f16");
    assert_eq!(StorageDtype::Ternary.name(), "ternary");
    assert_eq!(bytes_per_float(StorageDtype::F32), 4);
    assert_eq!(bytes_per_float(StorageDtype::F16), 2);
    assert_eq!(bytes_per_float(StorageDtype::Ternary), 0);
}
