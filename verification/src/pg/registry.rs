//! Which model a query uses and where it runs.

use vstd::prelude::*;
use vstd::string::*;

use crate::pg::error::PgInferError;
use crate::text::same_text;

verus! {

/// The name of the model that a query uses: the one that is named, else the
/// session's default.
pub fn resolve_model_name(explicit: Option<&str>, default_model: Option<String>) -> (r: Result<
    String,
    PgInferError,
>)
    ensures
        match r {
            Ok(name) => match explicit {
                Some(e) => name@ == e@,
                None => default_model is Some && name@ == default_model->0@,
            },
            Err(e) => explicit is None && default_model is None && e is NoDefaultModel,
        },
{
    if let Some(name) = explicit {
        return Ok(String::from_str(name));
    }
    match default_model {
        Some(name) => Ok(name),
        None => Err(PgInferError::NoDefaultModel),
    }
}

/// How a model is registered.
pub struct BackendRow {
    pub vindex_path: String,
    pub backend: String,
    pub server_url: Option<String>,
}

/// A row as it is stored; what is missing has a default.
pub fn backend_row(
    vindex_path: Option<String>,
    backend: Option<String>,
    server_url: Option<String>,
) -> (row: BackendRow)
    ensures
        row.vindex_path@ == (match vindex_path {
            Some(p) => p@,
            None => Seq::<char>::empty(),
        }),
        row.backend@ == (match backend {
            Some(b) => b@,
            None => "local"@,
        }),
        row.server_url == server_url,
{
    BackendRow {
        vindex_path: match vindex_path {
            Some(p) => p,
            None => String::new(),
        },
        backend: match backend {
            Some(b) => b,
            None => String::from_str("local"),
        },
        server_url,
    }
}

/// Where a model runs.
#[derive(Debug)]
pub enum BackendChoice {
    /// On the server at this URL.
    Remote(String),
    /// Here, from the directory at this path.
    Local(String),
}

/// What is said of a remote model without a server.
pub open spec fn no_server_text(model_name: Seq<char>) -> Seq<char> {
    "model '"@ + model_name
        + "' uses backend='remote' but no server_url is set (neither on the row nor in infer.default_server_url)"@
}

/// What is said of a backend that is not known.
pub open spec fn unknown_backend_text(backend: Seq<char>, model_name: Seq<char>) -> Seq<char> {
    "unknown backend '"@ + backend + "' for model '"@ + model_name
        + "' (expected 'local' or 'remote')"@
}

/// Where a registered model runs: on a server, with its URL, or here, with its
/// path; `None` where it cannot run.
pub open spec fn place_of(row: Option<BackendRow>, default_server_url: Option<String>) -> Option<
    (bool, Seq<char>),
> {
    match row {
        None => None,
        Some(row) => if row.backend@ == "remote"@ {
            match (row.server_url, default_server_url) {
                (Some(url), _) => Some((true, url@)),
                (None, Some(url)) => Some((true, url@)),
                (None, None) => None,
            }
        } else if row.backend@ == "local"@ || row.backend@.len() == 0 {
            Some((false, row.vindex_path@))
        } else {
            None
        },
    }
}

/// Chooses where a registered model runs.
pub fn choose_backend(
    model_name: &str,
    row: Option<BackendRow>,
    default_server_url: Option<String>,
) -> (r: Result<BackendChoice, PgInferError>)
    ensures
        match row {
            None => r matches Err(PgInferError::ModelNotFound { name }) && name@ == model_name@,
            Some(row) => if row.backend@ == "remote"@ {
                match (row.server_url, default_server_url) {
                    (Some(url), _) => r matches Ok(BackendChoice::Remote(u)) && u@ == url@,
                    (None, Some(url)) => r matches Ok(BackendChoice::Remote(u)) && u@ == url@,
                    (None, None) => r matches Err(PgInferError::Internal(m)) && m@
                        == no_server_text(model_name@),
                }
            } else if row.backend@ == "local"@ || row.backend@.len() == 0 {
                r matches Ok(BackendChoice::Local(p)) && p@ == row.vindex_path@
            } else {
                r matches Err(PgInferError::Internal(m)) && m@ == unknown_backend_text(
                    row.backend@,
                    model_name@,
                )
            },
        },
        match r {
            Ok(BackendChoice::Remote(url)) => place_of(row, default_server_url) == Some(
                (true, url@),
            ),
            Ok(BackendChoice::Local(path)) => place_of(row, default_server_url) == Some(
                (false, path@),
            ),
            Err(_) => place_of(row, default_server_url) is None,
        },
{
    match row {
        None => Err(PgInferError::ModelNotFound { name: String::from_str(model_name) }),
        Some(row) => {
            if same_text(row.backend.as_str(), "remote") {
                if let Some(url) = row.server_url {
                    return Ok(BackendChoice::Remote(url));
                }
                if let Some(url) = default_server_url {
                    return Ok(BackendChoice::Remote(url));
                }
                let mut m: String = String::from_str("model '");
                m.append(model_name);
                m.append(
                    "' uses backend='remote' but no server_url is set (neither on the row nor in infer.default_server_url)",
                );
                return Err(PgInferError::Internal(m));
            }
            if same_text(row.backend.as_str(), "local") || row.backend.as_str().is_empty() {
                return Ok(BackendChoice::Local(row.vindex_path));
            }
            let mut m: String = String::from_str("unknown backend '");
            m.append(row.backend.as_str());
            m.append("' for model '");
            m.append(model_name);
            m.append("' (expected 'local' or 'remote')");
            Err(PgInferError::Internal(m))
        },
    }
}

/// Settings that matter when an index is opened.
#[derive(Debug, Clone, Copy)]
pub struct LoadSettings {
    /// Decoded layers that are kept; 0 for all.
    pub gate_cache_max_layers: usize,
    pub warmup_on_load: bool,
    pub use_hnsw: bool,
    pub hnsw_ef_search: usize,
    pub build_hnsw_on_load: bool,
}

/// One step of preparing an index that was opened.
#[derive(Debug, Clone, Copy, PartialEq, Eq, Structural)]
pub enum LoadStep {
    /// Keep at most so many decoded layers.
    LimitCache(usize),
    /// Decode every layer.
    Warmup,
    /// Search approximately, with this effort.
    EnableHnsw(usize),
    /// Build the search graph of every layer.
    BuildHnsw,
}

/// The steps of preparing an index, in order.
pub open spec fn load_steps(s: LoadSettings) -> Seq<LoadStep> {
    (if s.gate_cache_max_layers > 0 {
        seq![LoadStep::LimitCache(s.gate_cache_max_layers)]
    } else {
        seq![]
    }) + (if s.warmup_on_load {
        seq![LoadStep::Warmup]
    } else {
        seq![]
    }) + (if s.use_hnsw {
        seq![LoadStep::EnableHnsw(s.hnsw_ef_search)]
    } else {
        seq![]
    }) + (if s.use_hnsw && s.build_hnsw_on_load {
        seq![LoadStep::BuildHnsw]
    } else {
        seq![]
    })
}

/// The steps of preparing an index, in order.
pub fn plan_load(s: LoadSettings) -> (steps: Vec<LoadStep>)
    ensures
        steps@ == load_steps(s),
{
    let mut steps: Vec<LoadStep> = Vec::new();
    if s.gate_cache_max_layers > 0 {
        steps.push(LoadStep::LimitCache(s.gate_cache_max_layers));
    }
    if s.warmup_on_load {
        steps.push(LoadStep::Warmup);
    }
    if s.use_hnsw {
        steps.push(LoadStep::EnableHnsw(s.hnsw_ef_search));
        if s.build_hnsw_on_load {
            steps.push(LoadStep::BuildHnsw);
        }
    }
    assert(steps@ =~= load_steps(s));
    steps
}

/// What is done to an index that was opened follows from the settings: the
/// cache is limited exactly where a limit is set, and to it; layers are decoded
/// exactly where that is asked for; search is approximate exactly where that
/// is asked for, with the effort that is set; and graphs are built exactly
/// where both are.
pub proof fn load_follows_settings(s: LoadSettings, n: usize)
    ensures
        load_steps(s).contains(LoadStep::LimitCache(n)) <==> n == s.gate_cache_max_layers && n != 0,
        load_steps(s).contains(LoadStep::Warmup) <==> s.warmup_on_load,
        load_steps(s).contains(LoadStep::EnableHnsw(n)) <==> s.use_hnsw && n == s.hnsw_ef_search,
        load_steps(s).contains(LoadStep::BuildHnsw) <==> s.use_hnsw && s.build_hnsw_on_load,
        load_steps(s).len() <= 4,
        forall|i: int, j: int|
            0 <= i < j < load_steps(s).len() ==> load_phase(#[trigger] load_steps(s)[i])
                < load_phase(#[trigger] load_steps(s)[j]),
{
    let steps = load_steps(s);
    let a: int = if s.gate_cache_max_layers > 0 {
        1
    } else {
        0
    };
    let b: int = if s.warmup_on_load {
        a + 1
    } else {
        a
    };
    if s.gate_cache_max_layers > 0 {
        assert(steps[0] == LoadStep::LimitCache(s.gate_cache_max_layers));
    }
    if s.warmup_on_load {
        assert(steps[a] == LoadStep::Warmup);
    }
    if s.use_hnsw {
        assert(steps[b] == LoadStep::EnableHnsw(s.hnsw_ef_search));
        if s.build_hnsw_on_load {
            assert(steps[b + 1] == LoadStep::BuildHnsw);
        }
    }
}

/// When a step of preparing an index is done: the limit before layers are
/// decoded, and approximate search before its graphs are built.
pub open spec fn load_phase(s: LoadStep) -> int {
    match s {
        LoadStep::LimitCache(_) => 0,
        LoadStep::Warmup => 1,
        LoadStep::EnableHnsw(_) => 2,
        LoadStep::BuildHnsw => 3,
    }
}

/// What is said of a model that cannot run names the model, and the backend
/// where that is not known.
pub proof fn refusals_name_the_model(backend: Seq<char>, model_name: Seq<char>)
    ensures
        no_server_text(model_name).subrange(7, 7 + model_name.len() as int) == model_name,
        unknown_backend_text(backend, model_name).subrange(17, 17 + backend.len() as int)
            == backend,
        unknown_backend_text(backend, model_name).subrange(
            17 + backend.len() as int + 13,
            17 + backend.len() as int + 13 + model_name.len(),
        ) == model_name,
{
    reveal_strlit("model '");
    reveal_strlit("unknown backend '");
    reveal_strlit("' for model '");
    assert(no_server_text(model_name).subrange(7, 7 + model_name.len() as int) =~= model_name);
    let t = unknown_backend_text(backend, model_name);
    assert(t.subrange(17, 17 + backend.len() as int) =~= backend);
    assert(t.subrange(
        17 + backend.len() as int + 13,
        17 + backend.len() as int + 13 + model_name.len(),
    ) =~= model_name);
}

/// A local model, or one of which nothing is said, runs here from its own path,
/// whatever servers there are. A remote one runs on its own server, where it
/// has one, else on the default one, and nowhere without either. A model that
/// is not registered, or of which something else is said, runs nowhere.
pub proof fn models_run_where_they_are_registered(row: BackendRow, default_server_url: Option<String>)
    ensures
        place_of(None, default_server_url) is None,
        row.backend@ == seq!['l', 'o', 'c', 'a', 'l'] || row.backend@ == Seq::<char>::empty()
            ==> place_of(Some(row), default_server_url) == Some((false, row.vindex_path@)),
        row.backend@ == seq!['r', 'e', 'm', 'o', 't', 'e'] ==> {
            &&& row.server_url matches Some(url) ==> place_of(Some(row), default_server_url)
                == Some((true, url@))
            &&& row.server_url is None && default_server_url is Some ==> place_of(
                Some(row),
                default_server_url,
            ) == Some((true, default_server_url->0@))
            &&& row.server_url is None && default_server_url is None ==> place_of(
                Some(row),
                default_server_url,
            ) is None
        },
        row.backend@ != seq!['l', 'o', 'c', 'a', 'l'] && row.backend@ != seq![
            'r',
            'e',
            'm',
            'o',
            't',
            'e',
        ] && row.backend@.len() > 0 ==> place_of(Some(row), default_server_url) is None,
{
    reveal_strlit("local");
    reveal_strlit("remote");
    assert("local"@ =~= seq!['l', 'o', 'c', 'a', 'l']);
    assert("remote"@ =~= seq!['r', 'e', 'm', 'o', 't', 'e']);
    assert(Seq::<char>::empty().len() == 0);
}

} // verus!
