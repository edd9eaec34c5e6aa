//! Decoding.

use pg_infer::compute::backend::BackendKind;
use pg_infer::inference::engine::{kv_memory_bytes_for_seq, MarkovResidualEngine};
use pg_infer::inference::error::InferenceError;
use pg_infer::inference::greedy::{argmax, embed_row, top_k, GreedyAction, GreedyDecoder};
use pg_infer::inference::kv_cache::BitnetKvCache;
use pg_infer::inference::layer_graph::{
    build_adaptive_graph, plan_build, pre_ffn_norm_key, CachedLayerGraph,
};
use pg_infer::inference::matrix::Matrix;
use pg_infer::inference::plan::{
    plan_kv, qk_norm_offset, BackendFfn, DenseStep, KvStep, KvWeights,
};
use pg_infer::inference::residual_store::{ColdKv, KvPlan, RsStore};
use pg_infer::inference::target_delta::{check_install_layer, check_model, TargetDeltaOpts};
use pg_infer::inference::weights::{DenseWeights, ModelWeightsVariant, NamedVector, VectorSource};
use pg_infer::models::error::ModelError;
use pg_infer::models::gguf_quantized::QuantizedModelWeights;
use pg_infer::vindex::residual_cache::{ResidualCache, ResidualCacheBuilder};

fn bits(data: &[f32]) -> Vec<u32> {
    data.iter().map(|x| x.to_bits()).collect()
}

#[test]
fn engine_name() {
    assert_eq!(MarkovResidualEngine::new(None).name(), "markov-rs");
}

#[test]
fn engine_memory_zero_before_prefill() {
    let eng = MarkovResidualEngine::new(None);
    assert_eq!(eng.memory_bytes(), 0);
    assert_eq!(eng.window_tokens(), 0);
    assert_eq!(eng.cold_bytes(), 0);
}

#[test]
fn engine_config_full_window() {
    let eng = MarkovResidualEngine::new(None);
    assert!(eng.config_string().contains("full"));
    assert_eq!(eng.config_string(), "window=full");
}

#[test]
fn engine_config_fixed_window() {
    let eng = MarkovResidualEngine::new(Some(16));
    assert!(eng.config_string().contains("16"));
    assert_eq!(eng.config_string(), "window=16");
}

#[test]
fn argmax_picks_max() {
    assert_eq!(argmax(&bits(&[1.0, 3.0, 2.0])), 1);
    assert_eq!(argmax(&bits(&[5.0, 0.0, -1.0])), 0);
    assert_eq!(argmax(&bits(&[2.0, 2.0, 2.0])), 0);
}

#[test]
fn argmax_skips_what_is_no_number() {
    assert_eq!(argmax(&bits(&[f32::NAN, -3.0, -1.0])), 2);
    assert_eq!(argmax(&bits(&[f32::NEG_INFINITY, f32::NAN])), 0);
    assert_eq!(argmax(&Vec::new()), 0);
    assert_eq!(argmax(&bits(&[-0.0, 0.0])), 0);
}

/// Runs a generation whose logits favour `last token + 1`.
fn generate(prompt: &[u32], max: usize, stop: Option<u32>) -> Vec<u32> {
    let mut decoder = GreedyDecoder::new(max, stop);
    if !decoder.begins(prompt.len()) {
        return Vec::new();
    }
    let logits = |last: u32| {
        let mut l = vec![0.0f32; 8];
        l[((last + 1) % 8) as usize] = 1.0;
        bits(&l)
    };
    let mut action = decoder.on_logits(&logits(prompt[prompt.len() - 1]));
    loop {
        match action {
            GreedyAction::Decode(token) => action = decoder.on_logits(&logits(token)),
            GreedyAction::Finish => break,
        }
    }
    decoder.generated
}

#[test]
fn generate_greedy_produces_max_new_tokens() {
    let out = generate(&[0, 1], 4, None);
    assert_eq!(out.len(), 4);
    for &id in &out {
        assert!(id < 8, "vocab=8");
    }
    assert_eq!(out, vec![2, 3, 4, 5]);
}

#[test]
fn generate_greedy_empty_prompt_returns_empty() {
    let out = generate(&[], 5, None);
    assert!(out.is_empty());
    assert!(generate(&[1], 0, None).is_empty());
}

#[test]
fn generate_greedy_stops_on_stop_token() {
    let first_pred = 2;
    let out = generate(&[0, 1], 10, Some(first_pred));
    assert!(!out.contains(&first_pred), "stop_token leaked into output: {out:?}");
    assert_eq!(generate(&[0, 1], 10, Some(5)), vec![2, 3, 4]);
}

#[test]
fn the_likeliest_come_first() {
    let probs: Vec<u64> = [0.1f64, 0.4, 0.1, 0.4].iter().map(|p| p.to_bits()).collect();
    assert_eq!(top_k(&probs, 3), vec![1, 3, 0]);
    assert_eq!(top_k(&probs, 9), vec![1, 3, 0, 2]);
    assert!(top_k(&probs, 0).is_empty());
    assert_eq!(embed_row(10, 8), 2);
}

/// A layer's rows, each holding its position.
fn rows(cols: usize, from: u32, n: u32) -> Matrix {
    let mut m = Matrix::empty(cols);
    for i in 0..n {
        m.push_row(vec![from + i; cols]);
    }
    m
}

fn prefilled(layers: usize, seq_len: u32, window: Option<usize>) -> RsStore {
    let stored = (0..layers).map(|_| rows(2, 0, seq_len)).collect();
    RsStore::prefilled(stored, seq_len as usize, window)
}

fn step(s: RsStore) -> RsStore {
    let at = s.next_position as u32;
    let n = s.stored.len();
    s.append((0..n).map(|_| vec![at; 2]).collect())
}

#[test]
fn rs_prefill_stores_all_layers() {
    let s = prefilled(2, 1, None);
    assert_eq!(s.stored.len(), 2);
    assert_eq!(s.next_position, 1);
}

#[test]
fn rs_prefill_with_window_clips_hot_store() {
    let s = prefilled(2, 5, Some(2));
    assert!(s.window_tokens() <= 2, "window_tokens={} > 2", s.window_tokens());
    let cold = s.cold_residuals.expect("cold rows");
    assert_eq!(cold[1].rows, vec![vec![0, 0], vec![1, 1], vec![2, 2]]);
    assert_eq!(s.stored[1].rows, vec![vec![3, 3], vec![4, 4]]);
}

#[test]
fn rs_decode_step_advances_position() {
    let s = prefilled(2, 2, None);
    assert_eq!(s.next_position, 2);
    let s = step(s);
    assert_eq!(s.next_position, 3);
    let s = step(s);
    assert_eq!(s.next_position, 4);
    assert_eq!(s.window_tokens(), 4);
}

#[test]
fn window_clipping_limits_hot_store() {
    let mut engine = MarkovResidualEngine::new(Some(2));
    engine.put_store(prefilled(2, 5, engine.window_size));
    assert!(engine.window_tokens() <= 2);
    assert!(engine.cold_bytes() > 0);
    // Two layers of three cold rows and two hot ones, two numbers each.
    assert_eq!(engine.cold_bytes(), 48);
    assert_eq!(engine.memory_bytes(), 80);
}

#[test]
fn memory_grows_with_decode_steps() {
    let mut engine = MarkovResidualEngine::with_backend(None, BackendKind::Cuda);
    engine.put_store(prefilled(2, 1, None));
    let mem0 = engine.memory_bytes();
    let store = engine.take_store().expect("store");
    assert!(engine.take_store().is_none());
    engine.put_store(step(store));
    let mem1 = engine.memory_bytes();
    let store = engine.take_store().expect("store");
    engine.put_store(step(store));
    let mem2 = engine.memory_bytes();
    assert!(mem1 > mem0, "memory should grow");
    assert!(mem2 > mem1, "memory should grow");
}

#[test]
fn every_row_is_kept_in_order() {
    let mut s = prefilled(1, 3, Some(2));
    for _ in 0..4 {
        s = step(s);
    }
    let mut all = s.cold_residuals.as_ref().expect("cold rows")[0].rows.clone();
    all.extend(s.stored[0].rows.clone());
    let positions: Vec<u32> = all.iter().map(|r| r[0]).collect();
    assert_eq!(positions, vec![0, 1, 2, 3, 4, 5, 6]);
    assert_eq!(s.window_tokens(), 2);
}

#[test]
fn keys_and_values_are_planned() {
    let s = prefilled(1, 2, None);
    assert_eq!(s.kv_plan(0), KvPlan::HotOnly { hot_start: 0 });
    let mut s = prefilled(1, 5, Some(2));
    assert_eq!(s.kv_plan(0), KvPlan::ColdAndHot { start: 0 });
    s.set_cold_kv(vec![ColdKv { k: rows(2, 0, 3), v: rows(2, 0, 3) }]);
    assert_eq!(s.kv_plan(0), KvPlan::AfterReady { hot_start: 3 });
    let before = s.cold_bytes();
    let s = step(s);
    assert!(s.cold_kv.is_none());
    assert_eq!(s.kv_plan(0), KvPlan::ColdAndHot { start: 0 });
    assert!(s.cold_bytes() < before);
    // A window that still has room keeps what is ready.
    let mut s = prefilled(1, 1, Some(5));
    s.set_cold_kv(vec![ColdKv { k: Matrix::empty(2), v: Matrix::empty(2) }]);
    assert!(step(s).cold_kv.is_some());
}

#[test]
fn full_caches_are_measured() {
    assert_eq!(kv_memory_bytes_for_seq(&vec![(1, 8), (2, 8)], 10), 10 * 8 * 4 + 10 * 16 * 4);
    assert_eq!(kv_memory_bytes_for_seq(&vec![], 10), 0);
}

#[test]
fn kv_caches_grow_by_a_row_per_layer() {
    let mut c = BitnetKvCache::new(2, 1, 4);
    assert_eq!((c.seq_len, c.k.len(), c.k[0].cols), (0, 2, 4));
    for l in 0..2 {
        c.push_layer(l, vec![1; 4], vec![2; 4]);
    }
    c.advance();
    assert_eq!(c.seq_len, 1);
    assert_eq!(c.k[1].rows, vec![vec![1; 4]]);
    assert_eq!(c.v[0].rows, vec![vec![2; 4]]);
    let c = BitnetKvCache::prefilled(vec![rows(4, 0, 3)], vec![rows(4, 0, 3)], 3);
    assert_eq!(c.seq_len, 3);
    assert_eq!(c.k[0].num_rows(), 3);
}

#[test]
fn known_residuals_are_found_by_layer() {
    let g = CachedLayerGraph::from_residuals(vec![
        (0, rows(2, 0, 1)),
        (3, rows(2, 5, 1)),
        (0, rows(2, 9, 1)),
    ]);
    assert_eq!(g.num_cached(), 2);
    assert!(g.has_layer(0));
    assert!(!g.has_layer(1));
    assert!(g.has_layer(3));
    assert_eq!(g.get(0).expect("layer 0").rows, vec![vec![9, 9]]);
    assert!(g.get(7).is_none());
    assert_eq!(g.name(), "cached");
    assert_eq!(build_adaptive_graph(&g, 5, 1, 3), vec![false, false, false, true, false]);
}

#[test]
fn known_residuals_come_from_a_file() {
    let mut b = ResidualCacheBuilder::new(2, 3);
    b.add(7, 0, vec![1, 2, 3, 4]);
    b.add(7, 1, vec![1, 2, 3]);
    let file = ResidualCache::open(b.write()).unwrap();
    let g = CachedLayerGraph::from_vindex_cache(&file, 7, &vec![0, 1, 2]);
    assert_eq!(g.num_cached(), 1);
    assert_eq!(g.get(0).expect("layer 0").rows, vec![vec![1, 2], vec![3, 4]]);
    assert_eq!(CachedLayerGraph::from_vindex_cache(&file, 8, &vec![0]).num_cached(), 0);
}

#[test]
fn layers_are_run_up_to_the_highest() {
    assert_eq!(plan_build(&vec![2, 0], 8), vec![true, false, true]);
    assert_eq!(plan_build(&vec![], 8), vec![false]);
    assert_eq!(plan_build(&vec![9, 1], 3), vec![false, true, false]);
    assert_eq!(
        pre_ffn_norm_key(true, None, "post".to_string()),
        None
    );
    assert_eq!(
        pre_ffn_norm_key(false, None, "post".to_string()),
        Some("post".to_string())
    );
}

#[test]
fn steps_depend_on_the_weights() {
    let mut w = KvWeights {
        has_k: true,
        has_v: false,
        v_shares_k: true,
        has_k_bias: true,
        has_v_bias: false,
        has_v_norm: true,
        has_k_norm: true,
    };
    assert_eq!(
        plan_kv(w),
        Some(vec![
            KvStep::InputNorm,
            KvStep::ProjectK,
            KvStep::ProjectVWithK,
            KvStep::AddKBias,
            KvStep::NormV,
            KvStep::NormK,
            KvStep::RopeK,
        ])
    );
    w.v_shares_k = false;
    assert_eq!(plan_kv(w), None);
    w.has_k = false;
    w.v_shares_k = true;
    assert_eq!(plan_kv(w), None);
    let one = 1.0f32.to_bits();
    assert_eq!(qk_norm_offset(one, 0), one);
    assert_eq!(qk_norm_offset((-0.0f32).to_bits(), one), one);
    let f = BackendFfn { backend: BackendKind::Cpu };
    assert_eq!(f.name(), "weights+backend");
    assert_eq!(
        f.plan(true, true),
        vec![
            DenseStep::ProjectGate,
            DenseStep::ProjectUp,
            DenseStep::GateWithSilu,
            DenseStep::ProjectDown,
            DenseStep::AddDownBias,
        ]
    );
    assert_eq!(
        f.plan(false, false),
        vec![DenseStep::ProjectUp, DenseStep::Silu, DenseStep::ProjectDown]
    );
}

#[test]
fn deltas_go_to_the_last_layer() {
    assert_eq!(check_install_layer(3, 4), Ok(()));
    assert_eq!(
        check_install_layer(4, 4),
        Err("install_layer 4 \u{2265} n_layers 4".to_string())
    );
    assert!(check_install_layer(1, 4)
        .unwrap_err()
        .starts_with("optimise_target_delta: only install_layer = n_layers-1 = 3 is supported in this build (got 1)."));
    assert_eq!(check_model(true, "norm", false), Ok(()));
    assert_eq!(
        check_model(false, "norm", true),
        Err("missing final norm weight key: norm".to_string())
    );
    assert!(check_model(true, "norm", true).is_err());
    let o = TargetDeltaOpts::default();
    assert_eq!((o.steps, o.normalise), (60, false));
    assert_eq!(f32::from_bits(o.lr), 0.5);
    assert_eq!(f32::from_bits(o.kl_weight), 0.0625);
}

#[test]
fn weights_come_in_two_forms() {
    let dense = ModelWeightsVariant::F32(DenseWeights {
        num_layers: 3,
        hidden_size: 5,
        vectors: vec![
            NamedVector { key: "a".to_string(), data: vec![1] },
            NamedVector { key: "a".to_string(), data: vec![2] },
        ],
    });
    assert_eq!((dense.num_layers(), dense.hidden_size()), (3, 5));
    assert!(!dense.is_quantized());
    assert!(dense.as_f32().is_some());
    assert!(dense.as_quantized().is_none());
    match dense.get_vector("a") {
        Some(VectorSource::Numbers(v)) => assert_eq!(*v, vec![2]),
        _ => panic!("expected numbers"),
    }
    assert!(dense.get_vector("b").is_none());
    let quantized = ModelWeightsVariant::Quantized(QuantizedModelWeights {
        tensors: Vec::new(),
        vectors: Vec::new(),
        num_layers: 7,
        hidden_size: 9,
    });
    assert_eq!((quantized.num_layers(), quantized.hidden_size()), (7, 9));
    assert!(quantized.is_quantized());
    assert!(quantized.as_f32().is_none());
    assert!(quantized.get_vector("a").is_none());
}

#[test]
fn matrices_take_whole_rows() {
    assert!(Matrix::from_numbers(&vec![1, 2, 3], 2).is_none());
    let m = Matrix::from_numbers(&vec![1, 2, 3, 4], 2).expect("two rows");
    assert_eq!(m.rows, vec![vec![1, 2], vec![3, 4]]);
}

#[test]
fn inference_errors_have_texts() {
    let err = InferenceError::MissingTensor("lm_head.weight".to_string());
    assert!(err.message().contains("lm_head.weight"));
    let err = InferenceError::Parse("unexpected EOF".to_string());
    assert!(err.message().contains("parse error"));
    let err = InferenceError::Model(ModelError::Parse("x".to_string()));
    assert_eq!(err.message(), "model error: parse error: x");
}

#[test]
fn keys_and_values_are_worked_out_from_their_rows() {
    let mut s = prefilled(1, 5, Some(2));
    let (m, start) = s.kv_input(0);
    assert_eq!((m.rows.len(), start), (5, 0));
    assert_eq!(m.rows[3], vec![3, 3]);
    s.set_cold_kv(vec![ColdKv { k: rows(2, 10, 3), v: rows(2, 20, 3) }]);
    let (m, start) = s.kv_input(0);
    assert_eq!((m.rows, start), (vec![vec![3, 3], vec![4, 4]], 3));
    let (k, v) = s.full_kv(0, rows(2, 13, 2), rows(2, 23, 2));
    let firsts = |m: &Matrix| m.rows.iter().map(|r| r[0]).collect::<Vec<u32>>();
    assert_eq!(firsts(&k), vec![10, 11, 12, 13, 14]);
    assert_eq!(firsts(&v), vec![20, 21, 22, 23, 24]);
    let s = prefilled(1, 2, None);
    assert_eq!(s.kv_input(0).1, 0);
    let (k, _) = s.full_kv(0, rows(2, 0, 2), rows(2, 0, 2));
    assert_eq!(firsts(&k), vec![0, 1]);
}

#[test]
fn nothing_follows_the_stop_token() {
    let mut decoder = GreedyDecoder::new(5, Some(0));
    assert_eq!(decoder.on_logits(&bits(&[0.0, 1.0])), GreedyAction::Decode(1));
    assert_eq!(decoder.on_logits(&bits(&[1.0, 0.0])), GreedyAction::Finish);
    assert!(decoder.stopped);
    assert_eq!(decoder.on_logits(&bits(&[0.0, 1.0])), GreedyAction::Finish);
    assert_eq!(decoder.generated, vec![1]);
}

#[test]
fn a_larger_limit_only_extends() {
    for n in 0..6 {
        let short = generate(&[0, 1], n, Some(6));
        let long = generate(&[0, 1], n + 1, Some(6));
        assert!(long.starts_with(&short));
        if short.len() < n {
            assert_eq!(short, long);
        }
    }
    assert_eq!(generate(&[0, 1], 9, Some(6)), vec![2, 3, 4, 5]);
}

#[test]
fn without_a_window_every_row_stays_hot() {
    let mut s = prefilled(2, 3, None);
    for n in 4..7 {
        s = step(s);
        assert_eq!(s.window_tokens(), n);
        assert!(s.cold_residuals.is_none());
    }
    let mut s = prefilled(2, 1, Some(2));
    let hot: Vec<usize> = (0..3)
        .map(|_| {
            s = step(std::mem::replace(&mut s, prefilled(2, 1, Some(2))));
            s.window_tokens()
        })
        .collect();
    assert_eq!(hot, vec![2, 2, 2]);
}

#[test]
fn matrices_without_rows_keep_their_columns() {
    let mut s = prefilled(1, 0, Some(2));
    let (k, v) = s.full_kv(0, Matrix::empty(3), Matrix::empty(5));
    assert_eq!((k.cols, v.cols), (3, 5));
    s.set_cold_kv(vec![ColdKv { k: Matrix::empty(3), v: Matrix::empty(5) }]);
    let (k, v) = s.full_kv(0, Matrix::empty(3), Matrix::empty(5));
    assert_eq!((k.cols, v.cols), (3, 5));
}

#[test]
fn known_residuals_without_rows_keep_their_columns() {
    let mut b = ResidualCacheBuilder::new(2, 1);
    b.add(7, 0, Vec::new());
    let file = ResidualCache::open(b.write()).unwrap();
    let g = CachedLayerGraph::from_vindex_cache(&file, 7, &vec![0]);
    let m = g.get(0).expect("layer 0");
    assert_eq!((m.rows.len(), m.cols), (0, 2));
}

#[test]
fn a_decode_step_adds_one_row_to_every_layer() {
    let mut c = BitnetKvCache::prefilled(
        vec![rows(2, 0, 2), rows(2, 5, 2)],
        vec![rows(2, 10, 2), rows(2, 15, 2)],
        2,
    );
    for l in 0..2 {
        c.push_layer(l, vec![7 + l as u32; 2], vec![17 + l as u32; 2]);
    }
    c.advance();
    assert_eq!(c.seq_len, 3);
    assert_eq!(c.k[0].rows, vec![vec![0; 2], vec![1; 2], vec![7; 2]]);
    assert_eq!(c.k[1].rows, vec![vec![5; 2], vec![6; 2], vec![8; 2]]);
    assert_eq!(c.v[0].rows, vec![vec![10; 2], vec![11; 2], vec![17; 2]]);
    assert_eq!(c.v[1].rows, vec![vec![15; 2], vec![16; 2], vec![18; 2]]);
}
