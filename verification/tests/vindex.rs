//! Files of an index.

use pg_infer::vindex::bitnet::{
    is_bitlinear_key, parse_layer_index, pick_scale_key_for, write_bitnet_artifacts,
    BitnetArchMeta, BitnetLayout, BitnetSource, BitnetTensorEntry, TensorSource, VectorSource,
    TYPE_I2_S,
};
use pg_infer::vindex::bitnet_loader::{load_from_layout, BitnetWeights};
use pg_infer::vindex::error::VindexError;
use pg_infer::vindex::filenames::{bitnet_tensor_filename, BITNET_SCALES_BIN};
use pg_infer::vindex::residual_cache::{
    extract_residual_cache, ResidualCache, ResidualCacheBuilder,
};

fn bits(data: &[f32]) -> Vec<u32> {
    data.iter().map(|x| x.to_bits()).collect()
}

fn scale_file(scales: &[f32]) -> Vec<u8> {
    scales.iter().flat_map(|s| s.to_le_bytes()).collect()
}

fn layout(rows: usize, cols: usize) -> BitnetLayout {
    BitnetLayout {
        tensors: vec![BitnetTensorEntry {
            name: "blk.0.attn_q.weight".to_string(),
            rows,
            cols,
            scale_offset: 0,
        }],
        total_scale_count: 1,
        rms_eps: 1e-5f32.to_bits(),
        head_dim: 0,
        n_q_heads: 0,
        n_kv_heads: 0,
        rope_base: 10000.0f64.to_bits(),
    }
}

fn load(scales: &[u8], file: &[u8], layout: &BitnetLayout) -> Result<BitnetWeights, VindexError> {
    load_from_layout(BITNET_SCALES_BIN, &scales.to_vec(), &vec![file.to_vec()], layout)
}

#[test]
fn load_from_layout_round_trip_one_tensor() {
    // 1 row, 8 cols -> 2 bytes of I2_S.
    let bytes = vec![0b01_10_00_01u8, 0b01_10_00_01];
    let weights = match load(&scale_file(&[0.5]), &bytes, &layout(1, 8)) {
        Ok(w) => w,
        Err(e) => panic!("{e:?}"),
    };
    let w = weights.get_layer(0, "attn_q").expect("layer 0 attn_q present");
    assert_eq!(w.rows, 1);
    assert_eq!(w.cols, 8);
    assert_eq!(w.i2s_bytes.len(), 2);
    assert_eq!(w.channel_scales, bits(&[0.5]));
    assert!((f32::from_bits(weights.rms_eps) - 1e-5).abs() < 1e-9);
    assert!(weights.get("blk.0.attn_q.weight").is_some());
    assert!(weights.get_layer(1, "attn_q").is_none());
}

#[test]
fn load_rejects_truncated_scales_file() {
    let r = load(&[], &[0u8; 2], &layout(1, 8));
    match r {
        Err(VindexError::Parse(m)) => assert_eq!(
            m,
            "BitNet scales file bitnet/scales.f32 is 0 bytes; layout claims 1 f32 entries (4 bytes)"
        ),
        _ => panic!("expected a parse error"),
    }
}

#[test]
fn load_rejects_byte_count_mismatch() {
    let r = load(&scale_file(&[1.0]), &[0u8; 1], &layout(1, 8));
    match r {
        Err(VindexError::Parse(m)) => assert_eq!(
            m,
            "BitNet tensor blk.0.attn_q.weight bytes len 1 != rows*cols/4 = 2"
        ),
        _ => panic!("expected a parse error"),
    }
}

#[test]
fn load_rejects_scale_slice_out_of_bounds() {
    let r = load(&scale_file(&[1.0]), &[0u8; 2], &layout(2, 4));
    match r {
        Err(VindexError::Parse(m)) => assert_eq!(
            m,
            "BitNet tensor blk.0.attn_q.weight: scale slice [0, 2) out of bounds (have 1 entries)"
        ),
        _ => panic!("expected a parse error"),
    }
}

#[test]
fn parses_layer_index_from_key() {
    assert_eq!(parse_layer_index("blk.0.attn_q.weight"), Some(0));
    assert_eq!(parse_layer_index("blk.29.ffn_down.weight"), Some(29));
    assert_eq!(parse_layer_index("token_embd.weight"), None);
    assert_eq!(parse_layer_index("blk.bad.attn_q.weight"), None);
}

#[test]
fn recognises_bitlinear_keys() {
    assert!(is_bitlinear_key("blk.0.attn_q.weight"));
    assert!(is_bitlinear_key("blk.29.ffn_down.weight"));
    assert!(is_bitlinear_key("blk.0.attn_output.weight"));
    assert!(!is_bitlinear_key("blk.0.attn_norm.weight"));
    assert!(!is_bitlinear_key("blk.0.ffn_sub_norm.weight"));
    assert!(!is_bitlinear_key("token_embd.weight"));
}

#[test]
fn type_constant_matches_models() {
    assert_eq!(TYPE_I2_S, 36);
}

#[test]
fn bitnet_tensor_filename_is_under_bitnet_dir() {
    assert_eq!(
        bitnet_tensor_filename("blk.0.attn_q.weight"),
        "bitnet/blk.0.attn_q.weight.i2s"
    );
    assert_eq!(
        bitnet_tensor_filename("blk.29.ffn_down.weight"),
        "bitnet/blk.29.ffn_down.weight.i2s"
    );
}

fn tensor(name: &str, shape: Vec<usize>, raw: Option<Vec<u8>>) -> TensorSource {
    TensorSource { name: name.to_string(), shape, raw_bytes: raw }
}

fn vector(name: &str, values: &[f32]) -> VectorSource {
    VectorSource { name: name.to_string(), values: bits(values) }
}

fn sample_source() -> BitnetSource {
    BitnetSource {
        tensors: vec![
            tensor("blk.0.ffn_up.weight", vec![1, 4], Some(vec![0x55])),
            tensor("token_embd.weight", vec![1, 4], None),
            tensor("blk.0.attn_q.weight", vec![2, 4], Some(vec![0x01, 0x02])),
        ],
        vectors: vec![
            vector("blk.0.attn_norm.weight", &[0.5, 2.0]),
            vector("blk.0.ffn_norm.weight", &[4.0]),
        ],
    }
}

#[test]
fn written_artifacts_load_again() {
    let artifacts = match write_bitnet_artifacts(&sample_source(), BitnetArchMeta::default()) {
        Ok(a) => a,
        Err(e) => panic!("{e:?}"),
    };
    assert_eq!(artifacts.files.len(), 2);
    assert_eq!(artifacts.files[0].path, "bitnet/blk.0.attn_q.weight.i2s");
    assert_eq!(artifacts.files[1].path, "bitnet/blk.0.ffn_up.weight.i2s");
    assert_eq!(artifacts.layout.total_scale_count, 3);
    assert_eq!(artifacts.layout.tensors[1].scale_offset, 2);
    assert_eq!(artifacts.scales, scale_file(&[0.5, 2.0, 4.0]));
    let files: Vec<Vec<u8>> = artifacts.files.iter().map(|f| f.bytes.clone()).collect();
    let weights = match load_from_layout("scales", &artifacts.scales, &files, &artifacts.layout) {
        Ok(w) => w,
        Err(e) => panic!("{e:?}"),
    };
    let q = weights.get("blk.0.attn_q.weight").expect("attn_q");
    assert_eq!(q.row_trits(0), vec![1, 0, 0, 0]);
    assert_eq!(q.row_trits(1), vec![-1, 0, 0, 0]);
    assert_eq!(q.channel_scales, bits(&[0.5, 2.0]));
    let up = weights.get_layer(0, "ffn_up").expect("ffn_up");
    assert_eq!(up.row_trits(0), vec![1, 1, 1, 1]);
    assert_eq!(up.channel_scales, bits(&[4.0]));
}

fn refusal(source: &BitnetSource) -> String {
    match write_bitnet_artifacts(source, BitnetArchMeta::default()) {
        Err(VindexError::Parse(m)) => m,
        _ => panic!("expected a parse error"),
    }
}

#[test]
fn sources_that_cannot_be_kept_are_reported() {
    let mut s = sample_source();
    s.tensors[2].raw_bytes = None;
    assert_eq!(
        refusal(&s),
        "BitNet --keep-quant: tensor blk.0.attn_q.weight has no raw I2_S bytes; loader must populate raw_bytes for type 36 tensors"
    );
    let mut s = sample_source();
    s.tensors[2].shape = vec![2, 4, 1];
    assert_eq!(
        refusal(&s),
        "BitLinear tensor blk.0.attn_q.weight has shape [2, 4, 1]; expected 2D"
    );
    let mut s = sample_source();
    s.tensors[2].shape = vec![2, 3];
    assert_eq!(
        refusal(&s),
        "BitLinear tensor blk.0.attn_q.weight: cols (3) must be multiple of 4 for I2_S"
    );
    let mut s = sample_source();
    s.tensors[2].raw_bytes = Some(vec![0]);
    assert_eq!(
        refusal(&s),
        "BitLinear tensor blk.0.attn_q.weight: bytes len 1 != rows*cols/4 = 2"
    );
    let mut s = sample_source();
    s.vectors.clear();
    assert_eq!(
        refusal(&s),
        "BitNet --keep-quant: missing scale tensor blk.0.attn_q.weight for blk.0.attn_q.weight"
    );
    let mut s = sample_source();
    s.vectors[0].values.pop();
    assert_eq!(
        refusal(&s),
        "BitNet --keep-quant: scale tensor blk.0.attn_norm.weight has len 1, expected 2"
    );
    let s = BitnetSource { tensors: Vec::new(), vectors: Vec::new() };
    assert_eq!(
        refusal(&s),
        "BitNet --keep-quant: no I2_S BitLinear tensors found in weights"
    );
}

#[test]
fn scales_are_found_by_the_projection() {
    let vectors = vec![
        vector("blk.7.attn_norm.weight", &[]),
        vector("blk.7.attn_sub_norm.weight", &[]),
        vector("blk.7.ffn_norm.weight", &[]),
        vector("blk.7.ffn_sub_norm.weight", &[]),
    ];
    assert_eq!(pick_scale_key_for("blk.7.attn_k.weight", &vectors), "blk.7.attn_norm.weight");
    assert_eq!(
        pick_scale_key_for("blk.7.attn_output.weight", &vectors),
        "blk.7.attn_sub_norm.weight"
    );
    assert_eq!(pick_scale_key_for("blk.7.ffn_gate.weight", &vectors), "blk.7.ffn_norm.weight");
    assert_eq!(pick_scale_key_for("blk.7.ffn_down.weight", &vectors), "blk.7.ffn_sub_norm.weight");
    assert_eq!(pick_scale_key_for("blk.8.attn_k.weight", &vectors), "blk.8.attn_k.weight");
    assert_eq!(pick_scale_key_for("other", &vectors), "other");
}

#[test]
fn test_round_trip() {
    let hidden = 64;
    let num_layers = 4;
    let seq_len = 3;

    // Build
    let mut builder = ResidualCacheBuilder::new(hidden, num_layers);
    let data1: Vec<f32> = (0..seq_len * hidden).map(|i| i as f32 * 0.1).collect();
    let data2: Vec<f32> = (0..seq_len * hidden).map(|i| i as f32 * 0.2).collect();
    builder.add(0xDEAD, 0, bits(&data1));
    builder.add(0xDEAD, 1, bits(&data2));
    builder.add(0xBEEF, 0, bits(&data1));
    let image = builder.write();

    // Read
    let cache = ResidualCache::open(image).unwrap();
    assert_eq!(cache.len(), 3);
    assert!(!cache.is_empty());
    assert_eq!(cache.hidden_size, hidden);

    // Lookup
    let got = cache.get(0xDEAD, 0).unwrap();
    assert_eq!(got.len(), seq_len * hidden);
    assert!((f32::from_bits(got[0]) - 0.0).abs() < 1e-6);
    assert!((f32::from_bits(got[1]) - 0.1).abs() < 1e-6);

    let got2 = cache.get(0xDEAD, 1).unwrap();
    assert!((f32::from_bits(got2[1]) - 0.2).abs() < 1e-6);

    // Missing
    assert!(cache.get(0xDEAD, 5).is_none());
    assert!(cache.get(0xCAFE, 0).is_none());
}

fn open_error(data: Vec<u8>) -> String {
    match ResidualCache::open(data) {
        Err(VindexError::Parse(m)) => m,
        _ => panic!("expected a parse error"),
    }
}

#[test]
fn broken_caches_are_refused() {
    assert_eq!(open_error(vec![0; 19]), "residual cache too small");
    let mut image = ResidualCacheBuilder::new(4, 1).write();
    assert!(ResidualCache::open(image.clone()).unwrap().is_empty());
    image[4] = 9;
    assert_eq!(open_error(image.clone()), "unsupported residual cache version 9");
    image[4] = 1;
    image[8] = 1;
    assert_eq!(open_error(image.clone()), "residual cache truncated");
    image[0] ^= 0xFF;
    assert_eq!(open_error(image), "bad residual cache magic");
}

#[test]
fn residuals_are_extracted_for_every_template_and_layer() {
    let templates = vec![(7u64, vec![1u32, 2]), (8, vec![3])];
    let b = extract_residual_cache(1, &templates, 2, |tokens: &Vec<u32>, layer: usize| {
        vec![tokens[0] * 10 + layer as u32]
    });
    let cache = ResidualCache::open(b.write()).unwrap();
    assert_eq!(cache.len(), 4);
    assert_eq!(cache.get(7, 0), Some(vec![10]));
    assert_eq!(cache.get(7, 1), Some(vec![11]));
    assert_eq!(cache.get(8, 1), Some(vec![31]));
}

#[test]
fn index_errors_have_texts() {
    let cases = vec![
        (VindexError::NotADirectory("p".into()), "not a directory: p"),
        (VindexError::NoSafetensors("p".into()), "no safetensors files in p"),
        (VindexError::MissingTensor("t".into()), "missing tensor: t"),
        (VindexError::Parse("m".into()), "parse error: m"),
        (VindexError::UnsupportedDtype("d".into()), "unsupported dtype: d"),
        (VindexError::Io("e".into()), "IO error: e"),
        (VindexError::Model("e".into()), "model error: e"),
        (
            VindexError::InsufficientExtractLevel { needed: "all".into(), have: "browse".into() },
            "requires extract level 'all' but vindex was built at 'browse'",
        ),
    ];
    for (e, text) in cases {
        assert_eq!(e.message(), text);
    }
    let e = VindexError::UnsupportedFormatVersion { found: 3, min: 1, max: 2 };
    assert!(e.message().starts_with("vindex format version 3 is not supported (this build reads 1..=2)."));
    let e = VindexError::UnsupportedQuantLayout { field: "q".into() };
    assert!(e.message().starts_with("vindex declares `q`, whose weight layout"));
}

#[test]
fn artifacts_do_not_depend_on_reading_order() {
    let mut turned = sample_source();
    turned.tensors.reverse();
    turned.vectors.reverse();
    let first = write_bitnet_artifacts(&sample_source(), BitnetArchMeta::default());
    let second = write_bitnet_artifacts(&turned, BitnetArchMeta::default());
    match (first, second) {
        (Ok(a), Ok(b)) => {
            assert_eq!(a.scales, b.scales);
            assert_eq!(a.layout.total_scale_count, b.layout.total_scale_count);
            assert_eq!(a.files.len(), b.files.len());
            for (x, y) in a.files.iter().zip(b.files.iter()) {
                assert_eq!((&x.path, &x.bytes), (&y.path, &y.bytes));
            }
            for (x, y) in a.layout.tensors.iter().zip(b.layout.tensors.iter()) {
                assert_eq!((&x.name, x.scale_offset), (&y.name, y.scale_offset));
            }
        }
        _ => panic!("expected artifacts"),
    }
}
