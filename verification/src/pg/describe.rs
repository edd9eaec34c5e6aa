//! The relationships that a model knows of an entity.

use vstd::prelude::*;
use vstd::string::*;
use vstd::utf8::encode_utf8;

use crate::float_bits::{less32, less64, lt32, lt64, nan32, rank32, SIGN32};
use crate::order::{comes_first, every_position_occurs, is_stable_order, ordered_items_stay, stable_order};
use crate::pg::tokens::{
    lowercase, space, to_lowercase, trim, trimmed, trimmed_is_the_middle, trimmed_of_space,
};
use crate::text::{chars_of, same_text};

verus! {

/// Features asked for per layer.
pub const TOP_K_PER_LAYER: usize = 20;

/// What decides which hits are strong enough.
#[derive(Debug, Clone, Copy, PartialEq, Eq, Structural)]
pub enum ThresholdSource {
    /// The caller's threshold, a binary64 pattern.
    Explicit(u64),
    /// The session's threshold, a binary64 pattern.
    Setting(u64),
    /// A tenth of the highest score, given as a binary32 pattern.
    Adaptive(u32),
    /// Every hit.
    Zero,
}

/// The highest of `scores` and zero; patterns that are no numbers do not
/// count.
pub open spec fn highest(scores: Seq<u32>) -> u32
    decreases scores.len(),
{
    if scores.len() == 0 {
        0
    } else if lt32(highest(scores.drop_last()), scores.last()) {
        scores.last()
    } else {
        highest(scores.drop_last())
    }
}

/// The highest score is zero or one of the scores, and none is above it.
pub proof fn highest_is_highest(scores: Seq<u32>)
    ensures
        !nan32(highest(scores)),
        rank32(highest(scores)) >= 0,
        highest(scores) == 0 || scores.contains(highest(scores)),
        forall|i: int| 0 <= i < scores.len() ==> !lt32(highest(scores), #[trigger] scores[i]),
    decreases scores.len(),
{
    if scores.len() > 0 {
        let init = scores.drop_last();
        highest_is_highest(init);
        if highest(init) != 0 && init.contains(highest(init)) {
            let i = choose|i: int| 0 <= i < init.len() && init[i] == highest(init);
            assert(scores[i] == highest(init));
        }
        assert(scores[scores.len() - 1] == scores.last());
        assert forall|i: int| 0 <= i < scores.len() implies !lt32(
            highest(scores),
            #[trigger] scores[i],
        ) by {
            if i < init.len() {
                assert(scores[i] == init[i]);
            }
        }
    }
}

/// The highest of `scores` and zero.
pub fn highest_score(scores: &Vec<u32>) -> (h: u32)
    ensures
        h == highest(scores@),
{
    let mut h: u32 = 0;
    let mut i: usize = 0;
    while i < scores.len()
        invariant
            i <= scores@.len(),
            h == highest(scores@.take(i as int)),
        decreases scores@.len() - i,
    {
        if less32(h, scores[i]) {
            h = scores[i];
        }
        i = i + 1;
        proof {
            let t = scores@.take(i as int);
            assert(t.drop_last() =~= scores@.take(i - 1));
            assert(t.last() == scores@[i - 1]);
        }
    }
    assert(scores@.take(i as int) =~= scores@);
    h
}

/// What decides which hits are strong enough.
pub open spec fn threshold_of(explicit: Option<u64>, setting: u64, scores: Seq<u32>) -> ThresholdSource {
    match explicit {
        Some(t) if lt64(0, t) => ThresholdSource::Explicit(t),
        _ => if lt64(0, setting) {
            ThresholdSource::Setting(setting)
        } else if lt32(0, highest(scores)) {
            ThresholdSource::Adaptive(highest(scores))
        } else {
            ThresholdSource::Zero
        },
    }
}

/// Where the threshold comes from: the caller's, where it is above zero, else
/// the session's, where that is, else a tenth of the highest score.
pub fn resolve_threshold(explicit: Option<u64>, setting: u64, scores: &Vec<u32>) -> (t:
    ThresholdSource)
    ensures
        t == (if explicit is Some && lt64(0, explicit->0) {
            ThresholdSource::Explicit(explicit->0)
        } else if lt64(0, setting) {
            ThresholdSource::Setting(setting)
        } else if lt32(0, highest(scores@)) {
            ThresholdSource::Adaptive(highest(scores@))
        } else {
            ThresholdSource::Zero
        }),
        t == threshold_of(explicit, setting, scores@),
{
    if let Some(t) = explicit {
        if less64(0, t) {
            return ThresholdSource::Explicit(t);
        }
    }
    if less64(0, setting) {
        return ThresholdSource::Setting(setting);
    }
    let h: u32 = highest_score(scores);
    if less32(0, h) {
        ThresholdSource::Adaptive(h)
    } else {
        ThresholdSource::Zero
    }
}

/// What `char::is_alphabetic` says of a character.
pub uninterp spec fn alphabetic(c: char) -> bool;

/// Calls `char::is_alphabetic`. The result depends on the character alone;
/// among the ASCII characters exactly the letters are alphabetic.
#[verifier::external_body]
fn is_alphabetic(c: char) -> (r: bool)
    ensures
        r == alphabetic(c),
        c <= '\u{7F}' ==> r == ('a' <= c <= 'z' || 'A' <= c <= 'Z'),
{
    c.is_alphabetic()
}

/// Whether a token names something: without the white space around it it has
/// more than one byte and an alphabetic character.
pub open spec fn naming(tok: Seq<char>) -> bool {
    let t = trimmed(tok);
    encode_utf8(t).len() > 1 && exists|i: int| 0 <= i < t.len() && alphabetic(#[trigger] t[i])
}

/// Whether a token names something.
pub fn is_content_token(tok: &str) -> (r: bool)
    ensures
        r == naming(tok@),
{
    let t: String = trim(tok);
    if t.as_str().as_bytes().len() <= 1 {
        return false;
    }
    let v: Vec<char> = chars_of(t.as_str());
    let mut i: usize = 0;
    while i < v.len()
        invariant
            i <= v@.len(),
            v@ == trimmed(tok@),
            encode_utf8(trimmed(tok@)).len() > 1,
            forall|k: int| 0 <= k < i ==> !alphabetic(#[trigger] v@[k]),
        decreases v@.len() - i,
    {
        if is_alphabetic(v[i]) {
            assert(alphabetic(v@[i as int]));
            return true;
        }
        i = i + 1;
    }
    false
}

/// A feature that fired: its layer, its score (a binary32 pattern), and its
/// strongest output token, where the feature is known.
pub struct Hit {
    pub layer: usize,
    pub score: u32,
    pub token: Option<String>,
}

/// A hit that counts: a token and the token in lower case, by which tokens
/// are taken together.
pub struct NamedHit {
    pub layer: usize,
    pub score: u32,
    pub token: String,
    pub key: String,
}

/// What a [`NamedHit`] holds.
pub struct NamedHitView {
    pub layer: usize,
    pub score: u32,
    pub token: Seq<char>,
    pub key: Seq<char>,
}

impl View for NamedHit {
    type V = NamedHitView;

    open spec fn view(&self) -> NamedHitView {
        NamedHitView {
            layer: self.layer,
            score: self.score,
            token: self.token@,
            key: self.key@,
        }
    }
}

/// What the hits of a list hold.
pub open spec fn hit_views(hits: Seq<NamedHit>) -> Seq<NamedHitView> {
    Seq::new(hits.len(), |i: int| hits[i]@)
}

/// The hits that count: of known features, not below the threshold, with a
/// token that names something.
pub open spec fn named_hits(hits: Seq<Hit>, threshold: u32) -> Seq<NamedHitView>
    decreases hits.len(),
{
    if hits.len() == 0 {
        seq![]
    } else {
        let before = named_hits(hits.drop_last(), threshold);
        let h = hits.last();
        match h.token {
            Some(tok) => if !lt32(h.score, threshold) && naming(tok@) {
                before.push(
                    NamedHitView {
                        layer: h.layer,
                        score: h.score,
                        token: tok@,
                        key: lowercase(tok@),
                    },
                )
            } else {
                before
            },
            None => before,
        }
    }
}

/// The hits that count, in their order.
pub fn name_hits(hits: &Vec<Hit>, threshold: u32) -> (named: Vec<NamedHit>)
    ensures
        hit_views(named@) == named_hits(hits@, threshold),
{
    let mut named: Vec<NamedHit> = Vec::new();
    assert(hit_views(named@) =~= named_hits(hits@.take(0), threshold));
    let mut i: usize = 0;
    while i < hits.len()
        invariant
            i <= hits@.len(),
            hit_views(named@) == named_hits(hits@.take(i as int), threshold),
        decreases hits@.len() - i,
    {
        let ghost old_named = named@;
        proof {
            let t = hits@.take(i + 1);
            assert(t.drop_last() =~= hits@.take(i as int));
            assert(t.last() == hits@[i as int]);
        }
        let h: &Hit = &hits[i];
        if !less32(h.score, threshold) {
            if let Some(tok) = &h.token {
                if is_content_token(tok.as_str()) {
                    named.push(
                        NamedHit {
                            layer: h.layer,
                            score: h.score,
                            token: tok.clone(),
                            key: to_lowercase(tok.as_str()),
                        },
                    );
                    assert(hit_views(named@) =~= hit_views(old_named).push(named@.last()@));
                }
            }
        }
        i = i + 1;
    }
    assert(hits@.take(i as int) =~= hits@);
    named
}

/// A relationship: the target token, the best score of its hits and the layer
/// of that hit.
pub struct Edge {
    pub key: String,
    pub target: String,
    pub score: u32,
    pub layer: usize,
}

/// What an [`Edge`] holds.
pub struct EdgeView {
    pub key: Seq<char>,
    pub target: Seq<char>,
    pub score: u32,
    pub layer: usize,
}

impl View for Edge {
    type V = EdgeView;

    open spec fn view(&self) -> EdgeView {
        EdgeView { key: self.key@, target: self.target@, score: self.score, layer: self.layer }
    }
}

/// What the edges of a list hold.
pub open spec fn edge_views(edges: Seq<Edge>) -> Seq<EdgeView> {
    Seq::new(edges.len(), |i: int| edges[i]@)
}

/// The place of the first edge with this key, or the number of edges.
pub open spec fn edge_place(edges: Seq<EdgeView>, key: Seq<char>) -> int
    decreases edges.len(),
{
    if edges.len() == 0 {
        0
    } else if edge_place(edges.drop_last(), key) < edges.len() - 1 {
        edge_place(edges.drop_last(), key)
    } else if edges.last().key == key {
        edges.len() - 1
    } else {
        edges.len() as int
    }
}

/// What `edge_place` is, without recursion.
proof fn edge_place_is(edges: Seq<EdgeView>, key: Seq<char>)
    ensures
        0 <= edge_place(edges, key) <= edges.len(),
        edge_place(edges, key) < edges.len() ==> edges[edge_place(edges, key)].key == key,
        forall|j: int| 0 <= j < edge_place(edges, key) ==> (#[trigger] edges[j]).key != key,
    decreases edges.len(),
{
    if edges.len() > 0 {
        let init = edges.drop_last();
        edge_place_is(init, key);
        assert forall|j: int| 0 <= j < edge_place(edges, key) implies (#[trigger] edges[j]).key
            != key by {
            if j < init.len() {
                assert(edges[j] == init[j]);
            }
        }
    }
}

/// The place of the first edge with this key is what it is.
proof fn edge_place_unique(edges: Seq<EdgeView>, key: Seq<char>, i: int)
    requires
        0 <= i <= edges.len(),
        i < edges.len() ==> edges[i].key == key,
        forall|j: int| 0 <= j < i ==> (#[trigger] edges[j]).key != key,
    ensures
        edge_place(edges, key) == i,
{
    edge_place_is(edges, key);
    let p = edge_place(edges, key);
    if p < i {
        assert(edges[p].key != key);
    } else if i < p {
        assert(edges[i].key != key);
    }
}

/// An edge after one more hit: a higher score takes its place.
pub open spec fn raised(e: EdgeView, h: NamedHitView) -> EdgeView {
    if lt32(e.score, h.score) {
        EdgeView { score: h.score, layer: h.layer, ..e }
    } else {
        e
    }
}

/// The edges after one more hit: a new edge begins with the score zero.
pub open spec fn with_hit(edges: Seq<EdgeView>, h: NamedHitView) -> Seq<EdgeView> {
    let i = edge_place(edges, h.key);
    if i < edges.len() {
        edges.update(i, raised(edges[i], h))
    } else {
        edges.push(
            raised(EdgeView { key: h.key, target: h.token, score: 0, layer: h.layer }, h),
        )
    }
}

/// The edges that hits make: one per key but that of the entity itself, in
/// the order in which the keys came up.
pub open spec fn edges_of(hits: Seq<NamedHitView>, entity_lower: Seq<char>) -> Seq<EdgeView>
    decreases hits.len(),
{
    if hits.len() == 0 {
        seq![]
    } else if hits.last().key == entity_lower {
        edges_of(hits.drop_last(), entity_lower)
    } else {
        with_hit(edges_of(hits.drop_last(), entity_lower), hits.last())
    }
}

/// Takes hits together by their keys.
pub fn collect_edges(hits: &Vec<NamedHit>, entity_lower: &str) -> (edges: Vec<Edge>)
    ensures
        edge_views(edges@) == edges_of(hit_views(hits@), entity_lower@),
{
    let mut edges: Vec<Edge> = Vec::new();
    let ghost views = hit_views(hits@);
    assert(edge_views(edges@) =~= edges_of(views.take(0), entity_lower@));
    let mut i: usize = 0;
    while i < hits.len()
        invariant
            i <= hits@.len(),
            views == hit_views(hits@),
            edge_views(edges@) == edges_of(views.take(i as int), entity_lower@),
        decreases hits@.len() - i,
    {
        let h: &NamedHit = &hits[i];
        proof {
            let t = views.take(i + 1);
            assert(t.drop_last() =~= views.take(i as int));
            assert(t.last() == h@);
        }
        if !same_text(h.key.as_str(), entity_lower) {
            let ghost old_views = edge_views(edges@);
            let mut p: usize = 0;
            while p < edges.len() && !same_text(edges[p].key.as_str(), h.key.as_str())
                invariant
                    p <= edges@.len(),
                    forall|j: int| 0 <= j < p ==> (#[trigger] edge_views(edges@)[j]).key != h.key@,
                decreases edges@.len() - p,
            {
                p = p + 1;
            }
            proof {
                edge_place_unique(old_views, h.key@, p as int);
            }
            if p < edges.len() {
                let e: &Edge = &edges[p];
                if less32(e.score, h.score) {
                    let risen: Edge = Edge {
                        key: e.key.clone(),
                        target: e.target.clone(),
                        score: h.score,
                        layer: h.layer,
                    };
                    edges.set(p, risen);
                }
                assert(edge_views(edges@) =~= with_hit(old_views, h@));
            } else {
                let score: u32 = if less32(0, h.score) {
                    h.score
                } else {
                    0
                };
                edges.push(
                    Edge { key: h.key.clone(), target: h.token.clone(), score, layer: h.layer },
                );
                assert(edge_views(edges@) =~= with_hit(old_views, h@));
            }
        }
        i = i + 1;
    }
    assert(views.take(i as int) =~= views);
    edges
}

/// Every edge has its own key, which is not that of the entity, and a score
/// that is a number and not below zero.
pub proof fn edges_are_distinct(hits: Seq<NamedHitView>, entity_lower: Seq<char>)
    ensures
        forall|i: int, j: int|
            0 <= i < j < edges_of(hits, entity_lower).len() ==> (#[trigger] edges_of(
                hits,
                entity_lower,
            )[i]).key != (#[trigger] edges_of(hits, entity_lower)[j]).key,
        forall|i: int|
            0 <= i < edges_of(hits, entity_lower).len() ==> (#[trigger] edges_of(
                hits,
                entity_lower,
            )[i]).key != entity_lower && !nan32(edges_of(hits, entity_lower)[i].score) && 0
                <= rank32(edges_of(hits, entity_lower)[i].score),
    decreases hits.len(),
{
    if hits.len() > 0 {
        edges_are_distinct(hits.drop_last(), entity_lower);
        let before = edges_of(hits.drop_last(), entity_lower);
        edge_place_is(before, hits.last().key);
    }
}

/// Every hit is accounted for: its key has an edge, unless it is that of the
/// entity, and the edge's score is not below that of the hit.
pub proof fn every_hit_counts(hits: Seq<NamedHitView>, entity_lower: Seq<char>, k: int)
    requires
        0 <= k < hits.len(),
        hits[k].key != entity_lower,
    ensures
        exists|i: int|
            0 <= i < edges_of(hits, entity_lower).len() && (#[trigger] edges_of(
                hits,
                entity_lower,
            )[i]).key == hits[k].key && !lt32(edges_of(hits, entity_lower)[i].score, hits[k].score),
    decreases hits.len(),
{
    let init = hits.drop_last();
    let before = edges_of(init, entity_lower);
    let after = edges_of(hits, entity_lower);
    let h = hits.last();
    edge_place_is(before, h.key);
    let p = edge_place(before, h.key);
    if k == hits.len() - 1 {
        assert(after[p].key == h.key);
    } else {
        assert(init[k] == hits[k]);
        every_hit_counts(init, entity_lower, k);
        let i = choose|i: int|
            0 <= i < before.len() && (#[trigger] before[i]).key == hits[k].key && !lt32(
                before[i].score,
                hits[k].score,
            );
        edges_are_distinct(init, entity_lower);
        assert(after[i].key == hits[k].key);
    }
}

/// The place of a score when scores are ordered from the highest down.
pub open spec fn falling(score: u32) -> int {
    -rank32(score)
}

/// The keys by which edges are ranked.
pub open spec fn falling_keys(edges: Seq<EdgeView>) -> Seq<i64> {
    Seq::new(edges.len(), |i: int| falling(edges[i].score) as i64)
}

/// Whether `ranked` holds the edges from the highest score down.
pub open spec fn is_ranking(ranked: Seq<EdgeView>, edges: Seq<EdgeView>) -> bool {
    exists|perm: Seq<usize>| #[trigger]
        is_stable_order(perm, falling_keys(edges)) && ranked == Seq::new(
            edges.len(),
            |i: int| edges[perm[i] as int],
        )
}

/// Ranks edges by their scores, the highest first, equal ones as they came.
pub fn rank_edges(edges: &Vec<Edge>) -> (ranked: Vec<Edge>)
    requires
        forall|i: int| 0 <= i < edges@.len() ==> !nan32((#[trigger] edges@[i]).score),
    ensures
        is_ranking(edge_views(ranked@), edge_views(edges@)),
{
    let ghost views = edge_views(edges@);
    let mut keys: Vec<i64> = Vec::new();
    let mut i: usize = 0;
    while i < edges.len()
        invariant
            i <= edges@.len(),
            views == edge_views(edges@),
            keys@ == falling_keys(views).take(i as int),
        decreases edges@.len() - i,
    {
        let s: u32 = edges[i].score;
        let key: i64 = if s >= SIGN32 {
            (s % SIGN32) as i64
        } else {
            -(s as i64)
        };
        keys.push(key);
        i = i + 1;
        assert(keys@ =~= falling_keys(views).take(i as int));
    }
    assert(falling_keys(views).take(i as int) =~= falling_keys(views));
    let perm: Vec<usize> = stable_order(&keys);
    let mut ranked: Vec<Edge> = Vec::new();
    let mut k: usize = 0;
    while k < perm.len()
        invariant
            k <= perm@.len(),
            perm@.len() == edges@.len(),
            views == edge_views(edges@),
            is_stable_order(perm@, falling_keys(views)),
            edge_views(ranked@) == Seq::new(
                edges@.len(),
                |j: int| views[perm@[j] as int],
            ).take(k as int),
        decreases perm@.len() - k,
    {
        let ghost old_views = edge_views(ranked@);
        assert(perm@[k as int] < edges@.len());
        let e: &Edge = &edges[perm[k]];
        ranked.push(
            Edge { key: e.key.clone(), target: e.target.clone(), score: e.score, layer: e.layer },
        );
        assert(edge_views(ranked@) =~= old_views.push(e@));
        k = k + 1;
        assert(edge_views(ranked@) =~= Seq::new(
            edges@.len(),
            |j: int| views[perm@[j] as int],
        ).take(k as int));
    }
    assert(edge_views(ranked@) =~= Seq::new(edges@.len(), |j: int| views[perm@[j] as int]));
    ranked
}

/// In a ranking no score is above one before it.
pub proof fn ranking_falls(ranked: Seq<EdgeView>, edges: Seq<EdgeView>, i: int, j: int)
    requires
        is_ranking(ranked, edges),
        0 <= i < j < ranked.len(),
    ensures
        rank32(ranked[j].score) <= rank32(ranked[i].score),
{
    let perm = choose|perm: Seq<usize>| #[trigger]
        is_stable_order(perm, falling_keys(edges)) && ranked == Seq::new(
            edges.len(),
            |i: int| edges[perm[i] as int],
        );
    assert(crate::order::comes_first(falling_keys(edges), perm[i] as int, perm[j] as int));
}

/// The relationships of an entity: the hits that count, taken together by
/// their tokens in lower case and ranked.
pub fn describe_edges(hits: &Vec<Hit>, entity: &str, threshold: u32) -> (ranked: Vec<Edge>)
    ensures
        is_ranking(
            edge_views(ranked@),
            edges_of(named_hits(hits@, threshold), lowercase(entity@)),
        ),
{
    let entity_lower: String = to_lowercase(entity);
    let named: Vec<NamedHit> = name_hits(hits, threshold);
    let edges: Vec<Edge> = collect_edges(&named, entity_lower.as_str());
    proof {
        edges_are_distinct(hit_views(named@), entity_lower@);
        let views = edge_views(edges@);
        assert forall|i: int| 0 <= i < edges@.len() implies !nan32(
            (#[trigger] edges@[i]).score,
        ) by {
            assert(views[i] == edges@[i]@);
        }
    }
    rank_edges(&edges)
}

/// Whether one of `targets` is `object`, both in lower case.
pub fn any_target(targets_lower: &Vec<String>, object_lower: &str) -> (r: bool)
    ensures
        r == exists|i: int|
            0 <= i < targets_lower@.len() && (#[trigger] targets_lower@[i])@ == object_lower@,
{
    let mut i: usize = 0;
    while i < targets_lower.len()
        invariant
            i <= targets_lower@.len(),
            forall|k: int| 0 <= k < i ==> (#[trigger] targets_lower@[k])@ != object_lower@,
        decreases targets_lower@.len() - i,
    {
        if same_text(targets_lower[i].as_str(), object_lower) {
            assert(targets_lower@[i as int]@ == object_lower@);
            return true;
        }
        i = i + 1;
    }
    false
}

/// Whether the edges of a subject reach `object`, whatever the case of its
/// letters.
pub fn implies_object(edges: &Vec<Edge>, object: &str) -> (r: bool)
    ensures
        r == exists|i: int|
            0 <= i < edges@.len() && lowercase((#[trigger] edges@[i]).target@) == lowercase(
                object@,
            ),
{
    let object_lower: String = to_lowercase(object);
    let mut targets: Vec<String> = Vec::new();
    let mut i: usize = 0;
    while i < edges.len()
        invariant
            i <= edges@.len(),
            targets@.len() == i,
            forall|k: int|
                0 <= k < i ==> (#[trigger] targets@[k])@ == lowercase(edges@[k].target@),
        decreases edges@.len() - i,
    {
        targets.push(to_lowercase(edges[i].target.as_str()));
        i = i + 1;
    }
    let r: bool = any_target(&targets, object_lower.as_str());
    proof {
        if r {
            let k = choose|k: int| 0 <= k < targets@.len() && (#[trigger] targets@[k])@
                == object_lower@;
            assert(lowercase(edges@[k].target@) == lowercase(object@));
        } else {
            assert forall|k: int| 0 <= k < edges@.len() implies lowercase(
                (#[trigger] edges@[k]).target@,
            ) != lowercase(object@) by {
                assert(targets@[k]@ != object_lower@);
            }
        }
    }
    r
}

/// Whether a hit counts: its feature is known, its score is not below the
/// threshold, and its token names something.
pub open spec fn hit_counts(h: Hit, threshold: u32) -> bool {
    h.token is Some && !lt32(h.score, threshold) && naming(h.token->0@)
}

/// No hit is lost, none is made up and none is moved: the hits that count are
/// those at `places`, one after the other, each with its layer, score and
/// token, and with its token in lower case as its key.
pub proof fn no_hit_is_lost(hits: Seq<Hit>, threshold: u32) -> (places: Seq<int>)
    ensures
        places.len() == named_hits(hits, threshold).len(),
        forall|i: int, j: int| 0 <= i < j < places.len() ==> #[trigger] places[i] < #[trigger] places[j],
        forall|i: int|
            0 <= i < places.len() ==> 0 <= #[trigger] places[i] < hits.len() && hit_counts(
                hits[places[i]],
                threshold,
            ),
        forall|k: int|
            0 <= k < hits.len() && hit_counts(#[trigger] hits[k], threshold) ==> places.contains(k),
        forall|i: int|
            0 <= i < places.len() ==> {
                let n = #[trigger] named_hits(hits, threshold)[i];
                let h = hits[places[i]];
                n.layer == h.layer && n.score == h.score && n.token == h.token->0@ && n.key
                    == lowercase(h.token->0@)
            },
    decreases hits.len(),
{
    if hits.len() == 0 {
        Seq::empty()
    } else {
        let init = hits.drop_last();
        let before = no_hit_is_lost(init, threshold);
        let last = hits.len() - 1;
        let old_named = named_hits(init, threshold);
        let places = if hit_counts(hits.last(), threshold) {
            before.push(last as int)
        } else {
            before
        };
        assert forall|i: int| 0 <= i < places.len() implies {
            let n = #[trigger] named_hits(hits, threshold)[i];
            let h = hits[places[i]];
            n.layer == h.layer && n.score == h.score && n.token == h.token->0@ && n.key == lowercase(
                h.token->0@,
            )
        } by {
            if i < before.len() {
                assert(places[i] == before[i]);
                assert(named_hits(hits, threshold)[i] == old_named[i]);
                assert(hits[places[i]] == init[before[i]]);
            }
        }
        assert forall|k: int| 0 <= k < hits.len() && hit_counts(#[trigger] hits[k], threshold) implies
            places.contains(k) by {
            if k < last {
                assert(init[k] == hits[k]);
                assert(before.contains(k));
                let i = choose|i: int| 0 <= i < before.len() && before[i] == k;
                assert(places[i] == k);
            } else {
                assert(places[before.len() as int] == k);
            }
        }
        assert forall|i: int| 0 <= i < places.len() implies 0 <= #[trigger] places[i] < hits.len()
            && hit_counts(hits[places[i]], threshold) by {
            if i < before.len() {
                assert(places[i] == before[i]);
                assert(hits[places[i]] == init[before[i]]);
            }
        }
        places
    }
}

/// White space around a token does not decide whether it names something;
/// what stands between has to be two bytes or more and to hold an alphabetic
/// character. White space alone names nothing.
pub proof fn naming_between_space(front: Seq<char>, middle: Seq<char>, back: Seq<char>)
    requires
        forall|i: int| 0 <= i < front.len() ==> space(#[trigger] front[i]),
        forall|i: int| 0 <= i < back.len() ==> space(#[trigger] back[i]),
        middle.len() > 0 ==> !space(middle[0]) && !space(middle.last()),
    ensures
        naming(front + middle + back) <==> encode_utf8(middle).len() >= 2 && exists|i: int|
            0 <= i < middle.len() && alphabetic(#[trigger] middle[i]),
{
    let s = front + middle + back;
    if middle.len() > 0 {
        trimmed_is_the_middle(front, middle, back);
    } else {
        assert forall|i: int| 0 <= i < s.len() implies space(#[trigger] s[i]) by {
            if i < front.len() {
                assert(s[i] == front[i]);
            } else {
                assert(s[i] == back[i - front.len()]);
            }
        }
        trimmed_of_space(s);
        assert(middle =~= Seq::<char>::empty());
    }
}

/// Whether an edge is what the hits with its key say: `first` is the first of
/// them and gives the target, `best` is the first of those with the highest
/// score above zero, and gives score and layer; where no score is above zero
/// the score is zero and the layer that of the first.
pub open spec fn edge_tells_hits(
    e: EdgeView,
    hits: Seq<NamedHitView>,
    first: int,
    best: int,
) -> bool {
    &&& 0 <= first <= best < hits.len()
    &&& hits[first].key == e.key && hits[first].token == e.target
    &&& forall|m: int| 0 <= m < first ==> (#[trigger] hits[m]).key != e.key
    &&& hits[best].key == e.key && hits[best].layer == e.layer
    &&& lt32(0, hits[best].score) ==> e.score == hits[best].score
    &&& !lt32(0, hits[best].score) ==> e.score == 0 && best == first
    &&& forall|m: int|
        0 <= m < hits.len() && (#[trigger] hits[m]).key == e.key ==> !lt32(e.score, hits[m].score)
    &&& forall|m: int|
        0 <= m < best && (#[trigger] hits[m]).key == e.key && lt32(0, hits[best].score) ==> nan32(
            hits[m].score,
        ) || rank32(hits[m].score) < rank32(e.score)
}

/// Edges are made of hits and of nothing else, in the order in which their
/// keys come up: `places` holds the first and the best hit of each.
pub proof fn edges_come_from_hits(hits: Seq<NamedHitView>, entity_lower: Seq<char>) -> (places: Seq<
    (int, int),
>)
    ensures
        places.len() == edges_of(hits, entity_lower).len(),
        forall|i: int, j: int|
            0 <= i < j < places.len() ==> (#[trigger] places[i]).0 < (#[trigger] places[j]).0,
        forall|i: int|
            0 <= i < places.len() ==> edge_tells_hits(
                #[trigger] edges_of(hits, entity_lower)[i],
                hits,
                places[i].0,
                places[i].1,
            ),
    decreases hits.len(),
{
    if hits.len() == 0 {
        Seq::empty()
    } else {
        let init = hits.drop_last();
        let h = hits.last();
        let last = hits.len() - 1;
        let before = edges_of(init, entity_lower);
        let after = edges_of(hits, entity_lower);
        let old_places = edges_come_from_hits(init, entity_lower);
        edges_are_distinct(init, entity_lower);
        edge_place_is(before, h.key);
        let p = edge_place(before, h.key);
        let places = if h.key == entity_lower {
            old_places
        } else if p < before.len() {
            if lt32(before[p].score, h.score) {
                old_places.update(p, (old_places[p].0, last as int))
            } else {
                old_places
            }
        } else {
            old_places.push((last as int, last as int))
        };
        assert forall|i: int| 0 <= i < places.len() implies edge_tells_hits(
            #[trigger] after[i],
            hits,
            places[i].0,
            places[i].1,
        ) by {
            if i < before.len() {
                let e = before[i];
                assert(edge_tells_hits(e, init, old_places[i].0, old_places[i].1));
                assert(after[i].key == e.key && after[i].target == e.target);
                assert(h.key == e.key ==> i == p);
                let first = places[i].0;
                let best = places[i].1;
                assert(hits[first] == init[first]);
                assert forall|m: int| 0 <= m < first implies (#[trigger] hits[m]).key
                    != after[i].key by {
                    assert(hits[m] == init[m]);
                }
                let old_best = old_places[i].1;
                assert(hits[old_best] == init[old_best]);
                assert forall|m: int|
                    0 <= m < hits.len() && (#[trigger] hits[m]).key == after[i].key implies !lt32(
                    after[i].score,
                    hits[m].score,
                ) by {
                    if m < last {
                        assert(hits[m] == init[m]);
                        assert(!lt32(e.score, init[m].score));
                    }
                }
                assert forall|m: int|
                    0 <= m < best && (#[trigger] hits[m]).key == after[i].key && lt32(
                        0,
                        hits[best].score,
                    ) implies nan32(hits[m].score) || rank32(hits[m].score) < rank32(
                    after[i].score,
                ) by {
                    assert(hits[m] == init[m]);
                    assert(!lt32(e.score, init[m].score));
                }
            } else {
                assert forall|m: int| 0 <= m < last implies (#[trigger] hits[m]).key != h.key by {
                    assert(hits[m] == init[m]);
                    if init[m].key == h.key {
                        every_hit_counts(init, entity_lower, m);
                    }
                }
            }
        }
        places
    }
}

/// Ranking neither loses an edge nor makes one up, and edges with equal scores
/// stay as they stood.
pub proof fn ranking_keeps_edges(ranked: Seq<EdgeView>, edges: Seq<EdgeView>)
    requires
        is_ranking(ranked, edges),
        edges.len() <= usize::MAX,
    ensures
        ranked.len() == edges.len(),
        ranked.to_multiset() == edges.to_multiset(),
        forall|i: int, j: int|
            0 <= i < j < ranked.len() && rank32((#[trigger] ranked[i]).score) == rank32(
                (#[trigger] ranked[j]).score,
            ) ==> exists|a: int, b: int|
                0 <= a < b < edges.len() && #[trigger] edges[a] == ranked[i] && #[trigger] edges[b]
                    == ranked[j],
{
    let perm = choose|perm: Seq<usize>| #[trigger]
        is_stable_order(perm, falling_keys(edges)) && ranked == Seq::new(
            edges.len(),
            |i: int| edges[perm[i] as int],
        );
    ordered_items_stay(perm, falling_keys(edges), edges);
    assert forall|i: int, j: int|
        0 <= i < j < ranked.len() && rank32((#[trigger] ranked[i]).score) == rank32(
            (#[trigger] ranked[j]).score,
        ) implies exists|a: int, b: int|
        0 <= a < b < edges.len() && #[trigger] edges[a] == ranked[i] && #[trigger] edges[b]
            == ranked[j] by {
        assert(comes_first(falling_keys(edges), perm[i] as int, perm[j] as int));
        let a = perm[i] as int;
        let b = perm[j] as int;
        assert(edges[a] == ranked[i] && edges[b] == ranked[j]);
    }
}

/// A hit that counts, and does not name the entity itself, is among the
/// relationships, whatever the case of its letters, and with a score that is
/// not below its own.
pub proof fn describe_tells_every_hit(
    ranked: Seq<EdgeView>,
    hits: Seq<Hit>,
    entity: Seq<char>,
    threshold: u32,
    k: int,
)
    requires
        is_ranking(ranked, edges_of(named_hits(hits, threshold), lowercase(entity))),
        ranked.len() <= usize::MAX,
        0 <= k < hits.len(),
        hit_counts(hits[k], threshold),
        lowercase(hits[k].token->0@) != lowercase(entity),
    ensures
        exists|i: int|
            0 <= i < ranked.len() && (#[trigger] ranked[i]).key == lowercase(hits[k].token->0@)
                && !lt32(ranked[i].score, hits[k].score),
{
    let named = named_hits(hits, threshold);
    let edges = edges_of(named, lowercase(entity));
    let places = no_hit_is_lost(hits, threshold);
    assert(places.contains(k));
    let n = choose|n: int| 0 <= n < places.len() && places[n] == k;
    assert(named[n].key == lowercase(hits[k].token->0@));
    every_hit_counts(named, lowercase(entity), n);
    let e = choose|e: int|
        0 <= e < edges.len() && (#[trigger] edges[e]).key == named[n].key && !lt32(
            edges[e].score,
            named[n].score,
        );
    let perm = choose|perm: Seq<usize>| #[trigger]
        is_stable_order(perm, falling_keys(edges)) && ranked == Seq::new(
            edges.len(),
            |i: int| edges[perm[i] as int],
        );
    every_position_occurs(perm, falling_keys(edges), e as usize);
    let i = choose|i: int| 0 <= i < perm.len() && perm[i] == e as usize;
    assert(ranked[i] == edges[e]);
}

/// Every relationship has a hit that counts behind it, with the token that is
/// shown, and one that gave score and layer, or only zeros.
pub proof fn describe_tells_only_hits(
    ranked: Seq<EdgeView>,
    hits: Seq<Hit>,
    entity: Seq<char>,
    threshold: u32,
    i: int,
)
    requires
        is_ranking(ranked, edges_of(named_hits(hits, threshold), lowercase(entity))),
        0 <= i < ranked.len(),
    ensures
        ranked[i].key != lowercase(entity),
        exists|k: int|
            0 <= k < hits.len() && hit_counts(#[trigger] hits[k], threshold) && hits[k].token->0@
                == ranked[i].target && lowercase(ranked[i].target) == ranked[i].key,
        exists|k: int|
            0 <= k < hits.len() && hit_counts(#[trigger] hits[k], threshold) && lowercase(
                hits[k].token->0@,
            ) == ranked[i].key && hits[k].layer == ranked[i].layer && (ranked[i].score
                == hits[k].score || ranked[i].score == 0 && !lt32(0, hits[k].score)),
{
    let named = named_hits(hits, threshold);
    let edges = edges_of(named, lowercase(entity));
    let perm = choose|perm: Seq<usize>| #[trigger]
        is_stable_order(perm, falling_keys(edges)) && ranked == Seq::new(
            edges.len(),
            |i: int| edges[perm[i] as int],
        );
    let e = perm[i] as int;
    assert(ranked[i] == edges[e]);
    edges_are_distinct(named, lowercase(entity));
    let places = edges_come_from_hits(named, lowercase(entity));
    assert(edge_tells_hits(edges[e], named, places[e].0, places[e].1));
    let at = no_hit_is_lost(hits, threshold);
    let f = places[e].0;
    let b = places[e].1;
    assert(named[f].token == hits[at[f]].token->0@);
    assert(named[b].score == hits[at[b]].score);
    assert(hit_counts(hits[at[f]], threshold));
    assert(hit_counts(hits[at[b]], threshold));
}

/// What is said of the contents of hits and edges is what these hold.
pub proof fn hit_and_edge_contents(hits: Seq<NamedHit>, edges: Seq<Edge>, i: int)
    ensures
        hit_views(hits).len() == hits.len(),
        edge_views(edges).len() == edges.len(),
        0 <= i < hits.len() ==> {
            let v = hit_views(hits)[i];
            v.layer == hits[i].layer && v.score == hits[i].score && v.token == hits[i].token@
                && v.key == hits[i].key@
        },
        0 <= i < edges.len() ==> {
            let v = edge_views(edges)[i];
            v.key == edges[i].key@ && v.target == edges[i].target@ && v.score == edges[i].score
                && v.layer == edges[i].layer
        },
{
}

/// Who decides which hits are strong enough: a caller whose threshold is above
/// zero, whatever the session and the scores say; without one a session whose
/// threshold is; without that the highest score, where one is above zero; and
/// else nothing is left out.
pub proof fn threshold_comes_from(explicit: Option<u64>, setting: u64, scores: Seq<u32>)
    ensures
        explicit is Some && lt64(0, explicit->0) ==> threshold_of(explicit, setting, scores)
            == ThresholdSource::Explicit(explicit->0),
        !(explicit is Some && lt64(0, explicit->0)) ==> threshold_of(explicit, setting, scores)
            == threshold_of(None, setting, scores),
        lt64(0, setting) ==> threshold_of(None, setting, scores) == ThresholdSource::Setting(
            setting,
        ),
        !lt64(0, setting) ==> match threshold_of(None, setting, scores) {
            ThresholdSource::Adaptive(h) => scores.contains(h) && lt32(0, h) && forall|i: int|
                0 <= i < scores.len() ==> !lt32(h, #[trigger] scores[i]),
            ThresholdSource::Zero => forall|i: int|
                0 <= i < scores.len() ==> !lt32(0, #[trigger] scores[i]),
            _ => false,
        },
{
    highest_is_highest(scores);
    if !lt32(0, highest(scores)) {
        assert forall|i: int| 0 <= i < scores.len() implies !lt32(0, #[trigger] scores[i]) by {
            assert(!lt32(highest(scores), scores[i]));
        }
    }
}

} // verus!
