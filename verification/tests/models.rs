//! Model files and architectures.

use pg_infer::models::architectures::{
    Activation, BitNetArch, CohereArch, ModelConfig, NormType, PhiArch,
};
use pg_infer::models::error::ModelError;
use pg_infer::models::gguf_quantized::{
    load_gguf_quantized, GgufQuantFormat, QuantizedModelWeights, TensorInfo, TensorRequest,
    TYPE_BF16, TYPE_F16, TYPE_F32, TYPE_Q4_0, TYPE_Q4_K, TYPE_Q6_K, TYPE_Q8_0,
};

/// A matrix of four rows in Q4_0 and a vector of sixteen numbers.
fn test_file() -> (Vec<TensorRequest>, Vec<u8>) {
    let mut data = Vec::new();
    for row in 0..4u8 {
        data.extend_from_slice(&[0x00, 0x3C]);
        data.extend_from_slice(&[row | (row << 4); 16]);
    }
    for i in 0..16u32 {
        let val = (i as f32) * 0.1;
        data.extend_from_slice(&val.to_le_bytes());
    }
    let requests = vec![
        TensorRequest {
            info: TensorInfo {
                name: "blk.0.ffn_gate.weight".to_string(),
                n_dims: 2,
                dims: vec![32, 4],
                tensor_type: TYPE_Q4_0,
                offset: 0,
            },
            key: "layers.0.mlp.gate_proj.weight".to_string(),
            data_size: Ok(72),
        },
        TensorRequest {
            info: TensorInfo {
                name: "blk.0.attn_norm.weight".to_string(),
                n_dims: 1,
                dims: vec![16],
                tensor_type: TYPE_F32,
                offset: 72,
            },
            key: "layers.0.input_layernorm.weight".to_string(),
            data_size: Ok(64),
        },
    ];
    (requests, data)
}

fn load(requests: &Vec<TensorRequest>, data_offset: u64, len: usize) -> Result<QuantizedModelWeights, ModelError> {
    load_gguf_quantized(requests, data_offset, len, 2, 16)
}

#[test]
fn test_quantized_tensor_references_mmap_data() {
    let (requests, file) = test_file();
    let weights = match load(&requests, 0, file.len()) {
        Ok(w) => w,
        Err(e) => panic!("{e:?}"),
    };
    let gate = weights.get_tensor("layers.0.mlp.gate_proj.weight").expect("gate_proj tensor missing");

    assert_eq!(gate.rows, 4);
    assert_eq!(gate.cols, 32);
    assert_eq!(gate.format, GgufQuantFormat::Q4_0);
    assert_eq!(gate.length, 72);

    let data = gate.data(&file);
    assert_eq!(data.len(), 72);
    assert_eq!(data[0], 0x00);
    assert_eq!(data[1], 0x3C);

    let row0 = gate.row_data(&file, 0, Some(18)).expect("row 0");
    assert_eq!(row0.len(), 18);
    assert_eq!(row0[0], 0x00);
    assert_eq!(row0[1], 0x3C);
    assert_eq!(row0[2], 0x00);

    let row3 = gate.row_data(&file, 3, Some(18)).expect("row 3");
    assert_eq!(row3.len(), 18);
    assert_eq!(row3[2], 0x33);

    assert!(gate.row_data(&file, 4, Some(18)).is_none());
    assert!(gate.row_data(&file, 0, None).is_none());
    assert_eq!(gate.n_elements(), 128);
}

#[test]
fn test_1d_tensors_dequantized_to_f32() {
    let (requests, file) = test_file();
    let weights = match load(&requests, 0, file.len()) {
        Ok(w) => w,
        Err(e) => panic!("{e:?}"),
    };
    let (from, to) = weights.get_vector("layers.0.input_layernorm.weight").expect("norm vector missing");
    let norm: Vec<f32> = file[from..to]
        .chunks_exact(4)
        .map(|c| f32::from_le_bytes([c[0], c[1], c[2], c[3]]))
        .collect();
    assert_eq!(norm.len(), 16);
    for (i, &val) in norm.iter().enumerate() {
        let expected = i as f32 * 0.1;
        assert!((val - expected).abs() < 1e-6, "norm[{i}] = {val}, expected {expected}");
    }
    assert!(weights.get_vector("layers.0.mlp.gate_proj.weight").is_none());
    assert!(weights.get_tensor("layers.0.input_layernorm.weight").is_none());
    assert_eq!(weights.num_layers(), 2);
    assert_eq!(weights.hidden_size(), 16);
}

#[test]
fn test_has_compute_kernel() {
    // Formats with compute kernels
    assert!(GgufQuantFormat::Q4_0.has_compute_kernel());
    assert!(GgufQuantFormat::Q4_K.has_compute_kernel());
    assert!(GgufQuantFormat::Q6_K.has_compute_kernel());
    assert!(GgufQuantFormat::Q8_0.has_compute_kernel());

    // Formats without compute kernels
    assert!(!GgufQuantFormat::F16.has_compute_kernel());
    assert!(!GgufQuantFormat::BF16.has_compute_kernel());
    assert!(!GgufQuantFormat::F32.has_compute_kernel());
    assert!(!GgufQuantFormat::Q5_0.has_compute_kernel());
    assert!(!GgufQuantFormat::Q2_K.has_compute_kernel());
}

#[test]
fn test_ggml_type_roundtrip() {
    let formats = [
        (GgufQuantFormat::F32, TYPE_F32),
        (GgufQuantFormat::F16, TYPE_F16),
        (GgufQuantFormat::BF16, TYPE_BF16),
        (GgufQuantFormat::Q4_0, TYPE_Q4_0),
        (GgufQuantFormat::Q4_K, TYPE_Q4_K),
        (GgufQuantFormat::Q6_K, TYPE_Q6_K),
        (GgufQuantFormat::Q8_0, TYPE_Q8_0),
    ];
    for (fmt, expected_type) in formats {
        assert_eq!(fmt.as_ggml_type(), expected_type);
        assert_eq!(GgufQuantFormat::from_ggml_type(expected_type), Some(fmt));
    }
    assert_eq!(GgufQuantFormat::from_ggml_type(99), None);
}

#[test]
fn test_rejects_truncated_file() {
    let (requests, _) = test_file();
    match load(&requests, 64, 74) {
        Err(ModelError::Parse(msg)) => {
            assert!(msg.contains("out of bounds"), "expected 'out of bounds' error, got: {msg}");
            assert_eq!(
                msg,
                "tensor blk.0.ffn_gate.weight data out of bounds (offset 64 + size 72 > file 74)"
            );
        }
        Err(other) => panic!("expected Parse error, got {other:?}"),
        Ok(_) => panic!("expected error, got Ok"),
    }
}

#[test]
fn tensors_that_cannot_be_placed_are_reported() {
    let (mut requests, file) = test_file();
    requests[0].info.tensor_type = 99;
    match load(&requests, 0, file.len()) {
        Err(ModelError::UnsupportedDtype(m)) => {
            assert_eq!(m, "GGML type 99 for tensor blk.0.ffn_gate.weight")
        }
        _ => panic!("expected an unsupported type"),
    }
    let (mut requests, file) = test_file();
    requests[1].data_size = Err(ModelError::Parse("no size".to_string()));
    match load(&requests, 0, file.len()) {
        Err(ModelError::Parse(m)) => assert_eq!(m, "no size"),
        _ => panic!("expected the size's own error"),
    }
    let (mut requests, file) = test_file();
    requests[0].info.offset = u64::MAX;
    match load(&requests, 1, file.len()) {
        Err(ModelError::Parse(m)) => assert!(m.ends_with("overflows u64"), "{m}"),
        _ => panic!("expected an overflow"),
    }
}

fn config(rotary: Option<u64>) -> ModelConfig {
    ModelConfig { num_layers: 2, hidden_size: 16, partial_rotary_factor: rotary }
}

#[test]
fn architectures_say_what_they_are() {
    let b = BitNetArch::from_config(config(None));
    assert_eq!(b.family(), "bitnet");
    assert_eq!(b.activation(), Activation::SquaredRelu);
    assert!(b.has_ffn_sub_norm());
    assert_eq!(b.ffn_sub_norm_key("layers.3."), Some("layers.3.mlp.ffn_norm.weight".to_string()));
    assert_eq!(b.preferred_gate_dtype(), "ternary");
    let c = CohereArch::from_config(config(None));
    assert_eq!(c.family(), "cohere");
    assert_eq!(c.norm_type(), NormType::LayerNorm);
    let p = PhiArch::from_config(config(None));
    assert_eq!(p.family(), "phi");
    assert_eq!(f64::from_bits(p.rotary_fraction()), 0.5);
    let p = PhiArch::from_config(config(Some(0.4f64.to_bits())));
    assert_eq!(f64::from_bits(p.rotary_fraction()), 0.4);
    assert_eq!(p.attn_q_bias_key("layers.0."), Some("layers.0.self_attn.q_proj.bias".to_string()));
    assert_eq!(p.attn_k_bias_key("layers.0."), Some("layers.0.self_attn.k_proj.bias".to_string()));
    assert_eq!(p.attn_v_bias_key("layers.0."), Some("layers.0.self_attn.v_proj.bias".to_string()));
    assert_eq!(p.ffn_up_bias_key("layers.0."), Some("layers.0.mlp.up_proj.bias".to_string()));
    assert_eq!(p.ffn_down_bias_key("layers.0."), Some("layers.0.mlp.down_proj.bias".to_string()));
}
