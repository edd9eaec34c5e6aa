//! Index pages and SQL functions.

use pg_infer::order::stable_order;
use pg_infer::pg::describe::{
    any_target, collect_edges, describe_edges, highest_score, implies_object, is_content_token,
    name_hits, resolve_threshold, Hit, NamedHit, ThresholdSource,
};
use pg_infer::pg::error::PgInferError;
use pg_infer::pg::index_build::{build_index, read_model_name, IndexSource, LayerInfo};
use pg_infer::pg::model_mgmt::{
    admit_path, classify_source, create_index_sql, double, drop_index_sql, dropped_message,
    is_under, join_path, merge_models, registered_message, resolve_data_directory, ModelRow, SourceKind,
};
use pg_infer::pg::options::{check_options, get_model_option, get_source_option};
use pg_infer::pg::pages::{
    blob_pages_needed, down_meta_pages_needed, embed_pages_needed, embeds_per_page,
    gate_pages_needed, vectors_per_gate_page, BlobPageHeader, GatePageHeader, InferPageOpaque,
    LayerDirEntry, PageType, INDEX_KIND_COLUMN, INDEX_KIND_MODEL, INFER_MAGIC,
    INFER_OPAQUE_SIZE,
    INVALID_BLOCK_NUMBER,
};
use pg_infer::pg::registry::{
    backend_row, choose_backend, plan_load, resolve_model_name, BackendChoice, LoadSettings,
    LoadStep,
};
use pg_infer::pg::scan::{tid_number, tid_parts, InferScanState, ScanRow, ScanStep};
use pg_infer::pg::similar::{
    combine, compute_layer_similarity, layers_to_query, similar_to_precomputed, FeatureScore,
    SimilarityScore,
};
use pg_infer::pg::tokens;
use pg_infer::pg::walk::{query_token, walk_rows, walk_top, FeatureHit};
use pg_infer::models::error::ModelError;
use pg_infer::vindex::error::VindexError;

#[test]
fn page_kinds_have_numbers() {
    for n in 1..=6u8 {
        let t = PageType::try_from(n).expect("a kind");
        assert_eq!(t.code(), n);
    }
    assert_eq!(PageType::try_from(0), Err(0));
    assert_eq!(PageType::try_from(7), Err(7));
    let o = InferPageOpaque::new(PageType::Gate);
    assert_eq!((o.page_type, o.flags, o.layer_id), (3, 0, 0xFFFF));
    assert_eq!(o.next_blkno, INVALID_BLOCK_NUMBER);
    assert_eq!(o.reserved, [0; 8]);
}

#[test]
fn pages_are_counted() {
    assert_eq!(vectors_per_gate_page(0), 0);
    assert_eq!(vectors_per_gate_page(1024), 3);
    assert_eq!(vectors_per_gate_page(4072), 1);
    assert_eq!(vectors_per_gate_page(4073), 0);
    assert_eq!(embeds_per_page(1024), 3);
    assert_eq!(gate_pages_needed(10, 1024), 4);
    assert_eq!(gate_pages_needed(9, 1024), 3);
    assert_eq!(gate_pages_needed(0, 1024), 0);
    assert_eq!(gate_pages_needed(9, 5000), 0);
    assert_eq!(embed_pages_needed(10, 1024), 4);
    assert_eq!(down_meta_pages_needed(92), 1);
    assert_eq!(down_meta_pages_needed(93), 2);
    assert_eq!(blob_pages_needed(0), 0);
    assert_eq!(blob_pages_needed(8144), 1);
    assert_eq!(blob_pages_needed(8145), 2);
}

fn sample_index() -> IndexSource {
    IndexSource {
        num_layers: 2,
        hidden_size: 2036,
        vocab_size: 3,
        embed_scale: 1.0f32.to_bits(),
        down_top_k: 10,
        model: "tiny".to_string(),
        layers: vec![
            LayerInfo { layer: 0, num_features: 3, offset: 0 },
            LayerInfo { layer: 1, num_features: 1, offset: 3 * 4072 },
        ],
        gate_data: (0..4 * 4072u32).map(|i| (i / 4072) as u8).collect(),
        embed_data: vec![9; 3 * 4072],
        down_data: Vec::new(),
        tok_data: (0..9000u32).map(|i| (i % 251) as u8).collect(),
        source_path: "/data/tiny.vindex".to_string(),
    }
}

#[test]
fn an_index_is_built_block_by_block() {
    let source = sample_index();
    assert!(source.can_build());
    let plan = source.plan_blocks();
    assert_eq!((plan.gate_start_blk, plan.gate_end_blk), (2, 5));
    assert_eq!((plan.embed_start_blk, plan.embed_end_blk), (5, 7));
    assert_eq!((plan.down_start_blk, plan.down_end_blk), (7, 7));
    assert_eq!((plan.tok_start_blk, plan.tok_end_blk, plan.total_pages), (7, 9, 9));
    let pages = build_index(&source);
    assert_eq!(pages.len(), 9);
    let kinds: Vec<u8> = pages.iter().map(|p| p.opaque.page_type).collect();
    assert_eq!(kinds, vec![1, 2, 3, 3, 3, 4, 4, 6, 6]);
    let meta = &pages[0].data;
    assert_eq!(meta.len(), 468);
    assert_eq!(meta[0..4], INFER_MAGIC.to_le_bytes());
    assert_eq!(read_model_name(meta), "tiny");
    assert_eq!(meta[136..140], 2u32.to_le_bytes());
    assert_eq!(meta[144..148], 3u32.to_le_bytes());
    assert_eq!(meta[156..160], [1, 1, 10, 0]);
    assert_eq!(meta[208..212], 9u32.to_le_bytes());
    assert_eq!(&meta[212..229], b"/data/tiny.vindex");
    let second = LayerDirEntry::read(&pages[1].data, 20);
    assert_eq!((second.layer_id, second.num_features), (1, 1));
    assert_eq!((second.gate_start_blk, second.gate_page_count), (4, 1));
    assert_eq!((second.down_start_blk, second.down_page_count), (7, 0));
    // The third vector of the first layer is alone on its second page.
    let h = GatePageHeader::read(&pages[3].data);
    assert_eq!((h.layer_id, h.num_vectors, h.first_feature_idx), (0, 1, 2));
    assert_eq!(pages[3].data.len(), 8 + 4072);
    assert!(pages[3].data[8..].iter().all(|b| *b == 2));
    assert_eq!(pages[4].opaque.layer_id, 1);
    let mut blob = Vec::new();
    for p in &pages[7..9] {
        let h = BlobPageHeader::read(&p.data);
        assert_eq!(h.total_size, 9000);
        blob.extend_from_slice(&p.data[8..8 + h.page_bytes as usize]);
    }
    assert_eq!(blob, source.tok_data);
    assert!(pages.iter().all(|p| p.data.len() <= 8152));
}

#[test]
fn missing_vectors_leave_a_header() {
    let mut source = sample_index();
    source.gate_data.truncate(3 * 4072);
    let pages = build_index(&source);
    assert_eq!(pages[4].data.len(), 8);
    assert_eq!(pages[3].data.len(), 8 + 4072);
}

#[test]
fn indexes_that_do_not_fit_are_refused() {
    let mut source = sample_index();
    source.hidden_size = 5000;
    assert!(!source.can_build());
    source.vocab_size = 0;
    assert!(!source.can_build());
    source.layers.clear();
    assert!(source.can_build());
    for _ in 0..408 {
        source.layers.push(LayerInfo { layer: 0, num_features: 0, offset: 0 });
    }
    assert!(!source.can_build());
}

#[test]
fn long_names_are_cut() {
    let mut source = sample_index();
    source.model = "x".repeat(200);
    let pages = build_index(&source);
    assert_eq!(read_model_name(&pages[0].data), "x".repeat(127));
}

#[test]
fn readable_tokens() {
    assert!(tokens::is_readable_token(" Paris "));
    assert!(tokens::is_readable_token("it's"));
    assert!(!tokens::is_readable_token("   "));
    assert!(!tokens::is_readable_token(&"a".repeat(31)));
    assert!(tokens::is_readable_token(&"a".repeat(30)));
    assert!(!tokens::is_readable_token("a\u{4E2D}\u{4E2D}"));
    assert!(tokens::is_readable_token("a\u{4E2D}"));
}

#[test]
fn content_tokens() {
    assert!(tokens::is_content_token(" Paris\u{A0}"));
    assert!(!tokens::is_content_token("The"));
    assert!(!tokens::is_content_token("che"));
    assert!(!tokens::is_content_token("ab"));
    assert!(!tokens::is_content_token("camelCase"));
    assert!(!tokens::is_content_token("a123"));
    assert!(!tokens::is_content_token(&"a".repeat(26)));
    assert!(tokens::is_stop_word("because"));
    assert!(!tokens::is_stop_word("The"));
    assert_eq!(tokens::trim("\u{3000}x y\n"), "x y");
}

#[test]
fn tokens_that_name_something() {
    assert!(is_content_token(" \u{4E2D} "));
    assert!(is_content_token("a1"));
    assert!(!is_content_token(" a "));
    assert!(!is_content_token("12"));
}

fn hit(layer: usize, score: f32, token: Option<&str>) -> Hit {
    Hit { layer, score: score.to_bits(), token: token.map(|t| t.to_string()) }
}

#[test]
fn thresholds_have_a_source() {
    let scores: Vec<u32> = [1.0f32, 5.0, f32::NAN, 2.0].iter().map(|x| x.to_bits()).collect();
    let z = 0.0f64.to_bits();
    let half = 0.5f64.to_bits();
    assert_eq!(highest_score(&scores), 5.0f32.to_bits());
    assert_eq!(resolve_threshold(Some(half), half, &scores), ThresholdSource::Explicit(half));
    assert_eq!(resolve_threshold(Some(z), half, &scores), ThresholdSource::Setting(half));
    assert_eq!(
        resolve_threshold(None, z, &scores),
        ThresholdSource::Adaptive(5.0f32.to_bits())
    );
    assert_eq!(
        resolve_threshold(None, (-1.0f64).to_bits(), &vec![(-3.0f32).to_bits()]),
        ThresholdSource::Zero
    );
}

#[test]
fn edges_are_collected_and_ranked() {
    let hits = vec![
        hit(0, 3.0, Some("Paris")),
        hit(1, 9.0, Some("Seine")),
        hit(2, 7.0, Some("PARIS")),
        hit(2, 0.5, Some("weak")),
        hit(3, 9.5, Some("france")),
        hit(3, 9.0, None),
        hit(4, 8.0, Some("!")),
        hit(5, 1.0, Some("Loire")),
    ];
    let edges = describe_edges(&hits, "France", 1.0f32.to_bits());
    let got: Vec<(&str, f32, usize)> = edges
        .iter()
        .map(|e| (e.target.as_str(), f32::from_bits(e.score), e.layer))
        .collect();
    assert_eq!(got, vec![("Seine", 9.0, 1), ("Paris", 7.0, 2), ("Loire", 1.0, 5)]);
    assert!(implies_object(&edges, "paris"));
    assert!(implies_object(&edges, "SEINE"));
    assert!(!implies_object(&edges, "banana"));
    assert!(!implies_object(&edges, "france"));
}

#[test]
fn hits_are_named_and_counted() {
    let hits = vec![hit(0, -2.0, Some("\u{C9}t\u{E9}")), hit(1, f32::NAN, Some("Nile"))];
    let named = name_hits(&hits, (-3.0f32).to_bits());
    assert_eq!(named.len(), 2);
    assert_eq!(named[0].key, "\u{E9}t\u{E9}");
    let edges = collect_edges(&named, "nile");
    assert_eq!(edges.len(), 1);
    assert_eq!(edges[0].score, 0);
    let more = vec![NamedHit { layer: 4, score: 0, token: "b".to_string(), key: "b".to_string() }];
    assert_eq!(collect_edges(&more, "a")[0].layer, 4);
    assert!(any_target(&vec!["x".to_string()], "x"));
    assert!(!any_target(&vec![], "x"));
}

fn scores(list: &[(usize, f32)]) -> Vec<FeatureScore> {
    list.iter()
        .map(|(f, s)| FeatureScore { feature: *f, score: s.to_bits() })
        .collect()
}

#[test]
fn shared_features_make_texts_similar() {
    let a = scores(&[(1, 5.0), (2, 9.0), (3, 4.0)]);
    let b = scores(&[(2, 3.0), (3, 8.0), (2, 20.0)]);
    assert_eq!(f32::from_bits(compute_layer_similarity(&a, &b)), 4.0);
    assert_eq!(compute_layer_similarity(&a, &scores(&[(7, 1.0)])), 0);
    assert_eq!(compute_layer_similarity(&a, &scores(&[(1, -1.0)])), 0);
    let four = 4.0f32.to_bits();
    assert_eq!(combine(&vec![0, four]), SimilarityScore::Gate(four));
    assert_eq!(combine(&vec![0]), SimilarityScore::Cosine);
    // The later of two scores of the query counts.
    assert_eq!(
        similar_to_precomputed(&vec![a], &vec![b]),
        SimilarityScore::Gate(9.0f32.to_bits())
    );
    assert_eq!(similar_to_precomputed(&vec![], &vec![]), SimilarityScore::Cosine);
}

#[test]
fn layers_are_sampled_evenly() {
    assert_eq!(layers_to_query(4, 0), vec![0, 1, 2, 3]);
    assert_eq!(layers_to_query(3, 5), vec![0, 1, 2]);
    assert_eq!(layers_to_query(10, 4), vec![0, 2, 4, 6]);
    assert_eq!(layers_to_query(12, 3), vec![0, 4, 8]);
}

#[test]
fn walks_list_features_layer_by_layer() {
    assert_eq!(walk_top(None), 20);
    assert_eq!(walk_top(Some(5)), 5);
    assert_eq!(query_token(&vec![4, 5]).unwrap(), 5);
    assert!(matches!(query_token(&vec![]), Err(PgInferError::EmptyPrompt)));
    let hits = vec![
        vec![FeatureHit { feature: 3, score: 7, concept: Some("x".to_string()) }],
        vec![],
        vec![FeatureHit { feature: 9, score: 8, concept: None }],
    ];
    let rows: Vec<(i32, i32, u32, String)> = walk_rows(&hits)
        .into_iter()
        .map(|r| (r.layer, r.feature, r.activation, r.concept))
        .collect();
    assert_eq!(rows, vec![(0, 3, 7, "x".to_string()), (2, 9, 8, String::new())]);
}

fn row(distance: f64, tid: u64) -> ScanRow {
    ScanRow { distance: distance.to_bits(), tid }
}

#[test]
fn scans_give_the_nearest_first() {
    let mut s = InferScanState::begin(INDEX_KIND_COLUMN, "m".to_string());
    assert!(matches!(s.next_step(true), ScanStep::Done));
    s.rescan(Some("query".to_string()));
    assert!(matches!(s.next_step(false), ScanStep::Done));
    assert!(matches!(s.next_step(true), ScanStep::ComputeDistances));
    s.supply(&vec![row(0.5, 1), row(f64::MAX, 2), row(0.1, 3), row(0.5, 4)]);
    let mut tids = Vec::new();
    while let ScanStep::Row(r) = s.next_step(true) {
        tids.push(r.tid);
    }
    assert_eq!(tids, vec![3, 1, 4, 2]);
    assert!(matches!(s.next_step(true), ScanStep::Done));
    s.rescan(None);
    assert!(s.results.is_empty());
    let mut s = InferScanState::begin(INDEX_KIND_MODEL, "m".to_string());
    s.rescan(Some("query".to_string()));
    assert!(matches!(s.next_step(true), ScanStep::Done));
}

fn options(list: &[&str]) -> Vec<Option<String>> {
    list.iter().map(|o| Some(o.to_string())).collect()
}

#[test]
fn options_are_checked_and_read() {
    assert_eq!(check_options(&options(&["source=/a", "model=b"])), Ok(()));
    assert_eq!(check_options(&vec![None]), Ok(()));
    assert_eq!(
        check_options(&options(&["model=b", "fill=1", "x"])),
        Err("unrecognized parameter \"fill\" for infer index".to_string())
    );
    assert_eq!(
        check_options(&options(&[""])),
        Err("unrecognized parameter \"\" for infer index".to_string())
    );
    let o = options(&["source=/a", "model=b", "source=/c=d"]);
    assert_eq!(get_source_option(&o), Some("/c=d".to_string()));
    assert_eq!(get_model_option(&o), Some("b".to_string()));
    assert_eq!(get_model_option(&options(&["source=/a"])), None);
}

#[test]
fn statements_quote_their_names() {
    assert_eq!(drop_index_sql("a\"b"), "DROP INDEX IF EXISTS infer.\"a\"\"b\"");
    assert_eq!(
        create_index_sql("m", "/d/it's"),
        "CREATE INDEX \"m\" ON infer._models USING infer (name) WITH (source = '/d/it''s')"
    );
    assert_eq!(
        registered_message("m", 24, -1, "browse"),
        "model 'm' registered (24 layers, hidden=-1, level=browse)"
    );
    assert_eq!(dropped_message("m"), "model 'm' dropped");
}

fn model_row(name: &str) -> ModelRow {
    ModelRow {
        model_name: name.to_string(),
        vindex_path: "/p".to_string(),
        source: "/s".to_string(),
        extract_level: "all".to_string(),
        num_layers: Some(1),
        hidden_size: Some(2),
        vocab_size: Some(3),
        registered_at: 4,
    }
}

#[test]
fn models_are_listed_once() {
    let all = merge_models(
        vec![model_row("a"), model_row("b")],
        &vec!["b".to_string(), "c".to_string()],
    );
    assert_eq!(all.len(), 3);
    assert_eq!(all[1].registered_at, 4);
    assert_eq!(all[2].model_name, "c");
    assert_eq!(all[2].vindex_path, "(stored in PG pages)");
    assert_eq!(all[2].extract_level, "browse");
    assert_eq!(all[2].source, "");
    assert_eq!(all[2].num_layers, None);
    assert_eq!(all[2].registered_at, 0);
}

#[test]
fn paths_are_joined_and_compared() {
    assert_eq!(join_path("/a", "b"), "/a/b");
    assert_eq!(join_path("/a/", "b"), "/a/b");
    assert_eq!(join_path("/a", "/b"), "/b");
    assert_eq!(join_path("", "b"), "b");
    assert_eq!(
        resolve_data_directory("infer", None),
        "/var/lib/postgresql/data/infer"
    );
    assert_eq!(resolve_data_directory("infer", Some("/pg".to_string())), "/pg/infer");
    assert_eq!(resolve_data_directory("/infer", Some("/pg".to_string())), "/infer");
    assert!(is_under("/data/infer/m", "/data/infer"));
    assert!(is_under("/data/infer", "/data/infer/"));
    assert!(is_under("/data//./infer/m", "/data/infer"));
    assert!(!is_under("/data/infer2", "/data/infer"));
    assert!(!is_under("data/infer/m", "/data/infer"));
    assert!(!is_under("/data", "/data/infer"));
    assert!(!is_under("/data", "."));
    assert!(!is_under("data", "/"));
    // As `Path::starts_with` has it.
    for path in ["", "a", "/a", "./a", "/a/b", "/", "a/../b"] {
        for dir in ["", "a", "/a", ".", "/", "./a/", "/a//b"] {
            let expected = std::path::Path::new(path).starts_with(dir);
            assert_eq!(is_under(path, dir), expected, "{path:?} under {dir:?}");
        }
    }
    assert_eq!(admit_path("/a".to_string(), "").unwrap(), "/a");
    assert_eq!(admit_path("/d/x".to_string(), "/d").unwrap(), "/d/x");
    assert_eq!(
        admit_path("/e".to_string(), "/d").unwrap_err().message(),
        "path not permitted: /e is not under allowed directory /d"
    );
}

fn refused(k: SourceKind) -> String {
    match k {
        SourceKind::Refused(e) => e.message(),
        SourceKind::Local => panic!("expected a refusal"),
    }
}

#[test]
fn sources_are_local_or_refused() {
    assert!(matches!(classify_source("/d/m", true, true), SourceKind::Local));
    assert!(matches!(classify_source("m", false, true), SourceKind::Local));
    assert_eq!(
        refused(classify_source("hf://u/m", true, false)),
        "infer.auto_download is off \u{2014} cannot fetch from HuggingFace"
    );
    assert_eq!(
        refused(classify_source("hf://u/m", true, true)),
        "HuggingFace vindex download not yet implemented"
    );
    assert_eq!(
        refused(classify_source("google/gemma", false, true)),
        "HuggingFace model download + extraction not yet implemented"
    );
}

#[test]
fn models_run_where_they_are_registered() {
    assert_eq!(resolve_model_name(Some("a"), Some("b".to_string())).unwrap(), "a");
    assert_eq!(resolve_model_name(None, Some("b".to_string())).unwrap(), "b");
    assert!(matches!(resolve_model_name(None, None), Err(PgInferError::NoDefaultModel)));
    let local = backend_row(Some("/p".to_string()), None, None);
    assert!(matches!(
        choose_backend("m", Some(local), None),
        Ok(BackendChoice::Local(p)) if p == "/p"
    ));
    let empty = backend_row(None, Some(String::new()), None);
    assert!(matches!(
        choose_backend("m", Some(empty), None),
        Ok(BackendChoice::Local(p)) if p.is_empty()
    ));
    let remote = || backend_row(None, Some("remote".to_string()), None);
    assert!(matches!(
        choose_backend("m", Some(remote()), Some("u".to_string())),
        Ok(BackendChoice::Remote(u)) if u == "u"
    ));
    assert_eq!(
        choose_backend("m", Some(remote()), None).unwrap_err().message(),
        "model 'm' uses backend='remote' but no server_url is set (neither on the row nor in infer.default_server_url)"
    );
    let odd = backend_row(None, Some("odd".to_string()), None);
    assert_eq!(
        choose_backend("m", Some(odd), None).unwrap_err().message(),
        "unknown backend 'odd' for model 'm' (expected 'local' or 'remote')"
    );
    assert_eq!(
        choose_backend("m", None, None).unwrap_err().message(),
        "model not found: m"
    );
}

#[test]
fn loading_has_its_steps() {
    let s = LoadSettings {
        gate_cache_max_layers: 4,
        warmup_on_load: true,
        use_hnsw: true,
        hnsw_ef_search: 50,
        build_hnsw_on_load: true,
    };
    assert_eq!(
        plan_load(s),
        vec![
            LoadStep::LimitCache(4),
            LoadStep::Warmup,
            LoadStep::EnableHnsw(50),
            LoadStep::BuildHnsw,
        ]
    );
    let s = LoadSettings { gate_cache_max_layers: 0, warmup_on_load: false, use_hnsw: false, ..s };
    assert!(plan_load(s).is_empty());
}

#[test]
fn sql_errors_have_texts() {
    let e = PgInferError::ModelNotFound { name: "m".to_string() };
    assert_eq!(e.report(), "INFER: model 'm' not found \u{2014} register it with infer_create_model()");
    assert_eq!(PgInferError::EmptyPrompt.message(), "empty prompt");
    assert_eq!(PgInferError::EmptyPrompt.report(), "INFER: prompt is empty after tokenization");
    assert_eq!(
        PgInferError::NoDefaultModel.message(),
        "no default model configured \u{2014} SET infer.default_model first"
    );
    assert_eq!(
        PgInferError::NoDefaultModel.report(),
        "INFER: no default model configured. Use SET infer.default_model = 'name'; or pass model => 'name'"
    );
    let e = PgInferError::InsufficientExtractLevel { needed: "all".into(), have: "browse".into() };
    assert_eq!(e.message(), "model requires extract level 'all' but was built at 'browse'");
    assert_eq!(
        e.report(),
        "INFER: operation requires extract level 'all' but model was built at 'browse'"
    );
    assert_eq!(PgInferError::Tokenize("x".into()).report(), "INFER: tokenization failed: x");
    assert_eq!(PgInferError::Spi("x".into()).message(), "SPI error: x");
    assert_eq!(PgInferError::Internal("x".into()).message(), "x");
    assert_eq!(
        PgInferError::Vindex(VindexError::Parse("x".into())).message(),
        "INFER vindex error: parse error: x"
    );
    assert_eq!(
        PgInferError::Model(ModelError::UnsupportedDtype("x".into())).message(),
        "INFER model error: unsupported dtype: x"
    );
    let e = PgInferError::PathNotPermitted { path: "/e".into(), allowed: "/d".into() };
    assert_eq!(e.report(), "INFER: path '/e' is not under allowed directory '/d'");
}

#[test]
fn similarity_goes_both_ways() {
    let a = scores(&[(1, 5.0), (2, 9.0), (3, 4.0), (4, -1.0)]);
    let b = scores(&[(3, 8.0), (2, 6.5), (4, 2.0)]);
    assert_eq!(compute_layer_similarity(&a, &b), 6.5f32.to_bits());
    assert_eq!(compute_layer_similarity(&b, &a), 6.5f32.to_bits());
    // A feature that is listed twice can tell the two ways apart.
    let once = scores(&[(1, 5.0)]);
    let twice = scores(&[(1, 3.0), (1, 9.0)]);
    assert_eq!(compute_layer_similarity(&once, &twice), 3.0f32.to_bits());
    assert_eq!(compute_layer_similarity(&twice, &once), 5.0f32.to_bits());
}

#[test]
fn precomputed_queries_score_like_pairs() {
    let hits = vec![scores(&[(1, 5.0), (2, 9.0)]), scores(&[(7, 2.0)]), scores(&[])];
    let query = vec![scores(&[(2, 3.0)]), scores(&[(7, 4.0), (8, 9.0)]), scores(&[(1, 1.0)])];
    let layers: Vec<u32> = hits
        .iter()
        .zip(query.iter())
        .map(|(h, q)| compute_layer_similarity(h, q))
        .collect();
    assert_eq!(combine(&layers), SimilarityScore::Gate(3.0f32.to_bits()));
    assert_eq!(similar_to_precomputed(&hits, &query), combine(&layers));
}

#[test]
fn quoted_characters_are_doubled() {
    assert_eq!(double("a'b''c", '\''), "a''b''''c");
    assert_eq!(double("plain", '"'), "plain");
}

#[test]
fn orders_are_stable() {
    assert_eq!(stable_order(&vec![3, 1, 2, 1]), vec![1, 3, 2, 0]);
    assert!(stable_order(&vec![]).is_empty());
}

#[test]
fn special_areas_are_stored() {
    let mut o = InferPageOpaque::new(PageType::Gate);
    o.layer_id = 0x0102;
    o.next_blkno = 0x0304_0506;
    o.flags = 2;
    o.reserved = [9; 8];
    let bytes = o.to_bytes();
    assert_eq!(bytes, vec![3, 2, 2, 1, 6, 5, 4, 3, 9, 9, 9, 9, 9, 9, 9, 9]);
    assert_eq!(bytes.len(), INFER_OPAQUE_SIZE);
}

#[test]
fn places_of_rows_are_numbers() {
    assert_eq!(tid_number(1, 2, 3), 0x1_0002_0003);
    assert_eq!(tid_parts(0x1_0002_0003), (1, 2, 3));
    assert_eq!(tid_parts(tid_number(u16::MAX, 0, u16::MAX)), (u16::MAX, 0, u16::MAX));
}

#[test]
fn pages_have_no_flags_and_no_next_block() {
    for page in build_index(&sample_index()) {
        assert_eq!((page.opaque.flags, page.opaque.next_blkno), (0, INVALID_BLOCK_NUMBER));
        assert_eq!(page.opaque.reserved, [0; 8]);
    }
}

#[test]
fn every_scanned_row_comes_once() {
    let mut s = InferScanState::begin(INDEX_KIND_COLUMN, "m".to_string());
    s.rescan(Some("q".to_string()));
    assert!(matches!(s.next_step(true), ScanStep::ComputeDistances));
    let row = |d: f64, tid: u64| ScanRow { distance: d.to_bits(), tid };
    s.supply(&vec![row(0.5, 1), row(0.25, 2), row(0.5, 3), row(0.0, 4)]);
    let mut tids = Vec::new();
    while let ScanStep::Row(r) = s.next_step(true) {
        tids.push(r.tid);
    }
    assert_eq!(tids, vec![4, 2, 1, 3]);
}
