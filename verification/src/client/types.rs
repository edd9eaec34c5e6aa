//! Data of the server's responses.

use vstd::prelude::*;
use vstd::string::*;

use crate::client::join::reversed;
use crate::text::same_text;

verus! {

/// What a server says of its model.
#[derive(Debug, Clone)]
pub struct StatsResponse {
    pub model: String,
    pub family: String,
    pub layers: usize,
    pub hidden_size: usize,
    pub vocab_size: usize,
    pub extract_level: String,
    pub layer_bands: Option<LayerBands>,
    /// Counters of the server; older servers send none.
    pub server: Option<ServerStats>,
}

/// First and last layer of each band.
#[derive(Debug, Clone, Copy)]
pub struct LayerBands {
    pub syntax: [usize; 2],
    pub knowledge: [usize; 2],
    pub output: [usize; 2],
}

/// A relation that the model knows. `max_score` is a binary32 pattern.
#[derive(Debug, Clone)]
pub struct RelationSummary {
    pub token: String,
    pub count: usize,
    pub max_score: u32,
    /// Layers that the relation appears on.
    pub layers: Vec<usize>,
    pub examples: Vec<String>,
    /// First layer, as the server sends it.
    pub min_layer: usize,
    /// Last layer, as the server sends it.
    pub max_layer: usize,
}

/// The layers from `min` to `max`, both of them among these; none where they
/// are the wrong way round.
pub open spec fn layer_span(min: usize, max: usize) -> Seq<usize> {
    if max >= min {
        Seq::new((max - min + 1) as nat, |i: int| (min + i) as usize)
    } else {
        seq![]
    }
}

impl RelationSummary {
    /// Fills in the layers from the first and the last one, where the server
    /// sent no list.
    pub fn normalize(&mut self)
        ensures
            is_normalized(*final(self), *old(self)),
    {
        if self.layers.len() > 0 {
            return;
        }
        if self.max_layer >= self.min_layer {
            let n: usize = self.max_layer - self.min_layer;
            let mut layers: Vec<usize> = Vec::new();
            let ghost want = layer_span(self.min_layer, self.max_layer);
            let mut i: usize = 0;
            while i < n
                invariant
                    i <= n,
                    n == self.max_layer - self.min_layer,
                    want == layer_span(self.min_layer, self.max_layer),
                    want.len() == n + 1,
                    layers@ == want.take(i as int),
                decreases n - i,
            {
                layers.push(self.min_layer + i);
                i = i + 1;
                assert(layers@ =~= want.take(i as int));
            }
            layers.push(self.max_layer);
            assert(layers@ =~= want);
            self.layers = layers;
        } else {
            assert(self.layers@ =~= layer_span(self.min_layer, self.max_layer));
        }
    }
}

/// The relations that the model knows, each with its layers filled in.
#[derive(Debug, Clone)]
pub struct RelationsResponse {
    pub relations: Vec<RelationSummary>,
}

/// `r` with its layers filled in.
pub open spec fn is_normalized(r: RelationSummary, from: RelationSummary) -> bool {
    &&& r.layers@ == (if from.layers@.len() > 0 {
        from.layers@
    } else {
        layer_span(from.min_layer, from.max_layer)
    })
    &&& r.token == from.token
    &&& r.count == from.count
    &&& r.max_score == from.max_score
    &&& r.examples == from.examples
    &&& r.min_layer == from.min_layer
    &&& r.max_layer == from.max_layer
}

/// Fills in the layers of every relation that the server sent.
pub fn normalized_relations(relations: Vec<RelationSummary>) -> (r: RelationsResponse)
    ensures
        r.relations@.len() == relations@.len(),
        forall|i: int|
            0 <= i < r.relations@.len() ==> is_normalized(
                #[trigger] r.relations@[i],
                relations@[i],
            ),
{
    let ghost all = relations@;
    let mut rest: Vec<RelationSummary> = relations;
    let mut back: Vec<RelationSummary> = Vec::new();
    while rest.len() > 0
        invariant
            rest@.len() <= all.len(),
            rest@ == all.take(rest@.len() as int),
            back@.len() == all.len() - rest@.len(),
            forall|k: int|
                0 <= k < back@.len() ==> is_normalized(
                    #[trigger] back@[k],
                    all[all.len() - 1 - k],
                ),
        decreases rest@.len(),
    {
        let ghost n = rest@.len() as int;
        if let Some(mut x) = rest.pop() {
            assert(x == all[n - 1]);
            x.normalize();
            back.push(x);
            assert(rest@ =~= all.take(n - 1));
        }
    }
    let out: Vec<RelationSummary> = reversed(back);
    assert forall|i: int| 0 <= i < out@.len() implies is_normalized(
        #[trigger] out@[i],
        all[i],
    ) by {
        assert(out@[i] == back@[back@.len() - 1 - i]);
    }
    RelationsResponse { relations: out }
}

/// What a warmup did.
#[derive(Debug, Clone)]
pub struct WarmupResponse {
    pub model: String,
    /// Whether weights were loaded.
    pub weights_loaded: bool,
    pub weights_load_ms: u64,
    pub layers_prefetched: usize,
    pub prefetch_ms: u64,
    /// Pairs of layer and expert; 0 for models without experts.
    pub experts_prefetched: usize,
    pub expert_prefetch_ms: u64,
    pub hnsw_built: bool,
    pub hnsw_warmup_ms: u64,
    pub total_ms: u64,
}

/// Counters of a cache.
#[derive(Debug, Clone, Copy)]
pub struct CacheStatsResponse {
    pub entries: usize,
    pub hit_count: u64,
    pub miss_count: u64,
    pub eviction_count: u64,
    pub memory_bytes: usize,
}

/// Counters of a server.
#[derive(Debug, Clone, Copy, Default)]
pub struct ServerStats {
    pub uptime_secs: u64,
    pub requests_served: u64,
    /// Absent where the server has no such cache.
    pub v3_kv: Option<V3KvStats>,
}

/// Counters of the continuation cache. `hits` counts states that were found,
/// `resumptions` those of them that could be continued.
#[derive(Debug, Clone, Copy, Default)]
pub struct V3KvStats {
    pub enabled: bool,
    pub entries: usize,
    pub capacity: usize,
    pub hits: u64,
    pub misses: u64,
    pub resumptions: u64,
    pub reused_tokens_total: u64,
}

/// What a server can do.
#[derive(Debug, Clone)]
pub struct CapabilitiesResponse {
    /// Version of the report.
    pub schema: u32,
    pub profile: String,
    /// Every path that the server answers.
    pub routes: Vec<String>,
}

/// The version of the report that can be read.
pub const CAPABILITIES_SCHEMA: u32 = 1;

impl CapabilitiesResponse {
    /// Whether the report can be read.
    pub fn is_schema_understood(&self) -> (r: bool)
        ensures
            r == (self.schema == CAPABILITIES_SCHEMA),
    {
        self.schema == CAPABILITIES_SCHEMA
    }

    /// Whether the server answers `path`.
    pub fn serves(&self, path: &str) -> (r: bool)
        ensures
            r == exists|i: int|
                0 <= i < self.routes@.len() && (#[trigger] self.routes@[i])@ == path@,
    {
        let mut i: usize = 0;
        while i < self.routes.len()
            invariant
                i <= self.routes@.len(),
                forall|k: int| 0 <= k < i ==> (#[trigger] self.routes@[k])@ != path@,
            decreases self.routes@.len() - i,
        {
            if same_text(self.routes[i].as_str(), path) {
                assert(self.routes@[i as int]@ == path@);
                return true;
            }
            i = i + 1;
        }
        false
    }
}

/// The tokens of a text.
#[derive(Debug, Clone)]
pub struct TokenEncodeResponse {
    pub token_ids: Vec<u32>,
}

/// A span holds every layer from the first to the last, each once and in
/// order, and no other.
pub proof fn span_holds_its_layers(min: usize, max: usize)
    ensures
        forall|l: usize| #[trigger] layer_span(min, max).contains(l) <==> min <= l <= max,
        forall|i: int, j: int|
            0 <= i < j < layer_span(min, max).len() ==> #[trigger] layer_span(min, max)[i]
                < #[trigger] layer_span(min, max)[j],
{
    assert forall|l: usize| #[trigger] layer_span(min, max).contains(l) <==> min <= l <= max by {
        if min <= l <= max {
            assert(layer_span(min, max)[l - min] == l);
        }
    }
}

/// What the server sent is kept: its own list of layers where it sent one,
/// and all else in any case. Where it sent none the list is that of all layers
/// between the first and the last, and filling it in again changes nothing.
pub proof fn normalizing_keeps_what_was_sent(
    r: RelationSummary,
    from: RelationSummary,
    again: RelationSummary,
)
    requires
        is_normalized(r, from),
        is_normalized(again, r),
    ensures
        from.layers@.len() > 0 ==> r.layers@ == from.layers@,
        from.layers@.len() == 0 ==> forall|l: usize| #[trigger]
            r.layers@.contains(l) <==> from.min_layer <= l <= from.max_layer,
        r.token == from.token && r.count == from.count && r.max_score == from.max_score,
        r.examples == from.examples && r.min_layer == from.min_layer && r.max_layer
            == from.max_layer,
        again.layers@ == r.layers@,
{
    span_holds_its_layers(from.min_layer, from.max_layer);
}

} // verus!
