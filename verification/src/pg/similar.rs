//! Similarity of two texts by the features that both activate.

use vstd::prelude::*;

use crate::float_bits::{less32, lt32, min32, nan32, rank32, INFINITY32, SIGN32};
use crate::pg::describe::{highest, highest_is_highest, highest_score};

verus! {

/// Features asked for per layer.
pub const SIMILAR_TOP_K: usize = 50;

/// A feature and its score, a binary32 pattern.
#[derive(Debug, Clone, Copy)]
pub struct FeatureScore {
    pub feature: usize,
    pub score: u32,
}

/// The layers that are asked: all of them, or `max_layers` of them spread
/// evenly from the first on.
pub open spec fn sampled_layers(num_layers: usize, max_layers: usize) -> Seq<usize> {
    if max_layers > 0 && num_layers > max_layers {
        Seq::new(max_layers as nat, |i: int| (i * (num_layers / max_layers)) as usize)
    } else {
        Seq::new(num_layers as nat, |i: int| i as usize)
    }
}

/// Sampled layers are layers.
proof fn sampled_in_range(num_layers: usize, max_layers: usize, i: int)
    requires
        max_layers > 0,
        num_layers > max_layers,
        0 <= i < max_layers,
    ensures
        0 <= i * (num_layers / max_layers) < num_layers,
        num_layers / max_layers >= 1,
{
    let n = num_layers as int;
    let m = max_layers as int;
    let step = n / m;
    vstd::arithmetic::div_mod::lemma_fundamental_div_mod(n, m);
    assert(0 <= i * step < n && step >= 1) by (nonlinear_arith)
        requires
            n == m * step + n % m,
            0 <= n % m < m,
            0 <= i < m,
            n > m,
            m > 0,
    ;
}

/// The layers that are asked are in range and rise strictly.
pub proof fn sampled_layers_rise(num_layers: usize, max_layers: usize)
    ensures
        forall|i: int|
            0 <= i < sampled_layers(num_layers, max_layers).len() ==> #[trigger] sampled_layers(
                num_layers,
                max_layers,
            )[i] < num_layers,
        forall|i: int, j: int|
            0 <= i < j < sampled_layers(num_layers, max_layers).len() ==> #[trigger] sampled_layers(
                num_layers,
                max_layers,
            )[i] < #[trigger] sampled_layers(num_layers, max_layers)[j],
{
    let s = sampled_layers(num_layers, max_layers);
    assert forall|i: int| 0 <= i < s.len() implies #[trigger] s[i] < num_layers by {
        if max_layers > 0 && num_layers > max_layers {
            sampled_in_range(num_layers, max_layers, i);
        }
    }
    assert forall|i: int, j: int| 0 <= i < j < s.len() implies #[trigger] s[i]
        < #[trigger] s[j] by {
        if max_layers > 0 && num_layers > max_layers {
            sampled_in_range(num_layers, max_layers, i);
            sampled_in_range(num_layers, max_layers, j);
            let step = (num_layers / max_layers) as int;
            assert(i * step < j * step) by (nonlinear_arith)
                requires
                    i < j,
                    step >= 1,
            ;
        }
    }
}

/// The layers that are asked.
pub fn layers_to_query(num_layers: usize, max_layers: usize) -> (layers: Vec<usize>)
    ensures
        layers@ == sampled_layers(num_layers, max_layers),
{
    let mut layers: Vec<usize> = Vec::new();
    let sampled: bool = max_layers > 0 && num_layers > max_layers;
    let count: usize = if sampled {
        max_layers
    } else {
        num_layers
    };
    let step: usize = if sampled {
        num_layers / max_layers
    } else {
        1
    };
    let ghost want = sampled_layers(num_layers, max_layers);
    let mut i: usize = 0;
    while i < count
        invariant
            i <= count,
            sampled == (max_layers > 0 && num_layers > max_layers),
            count == (if sampled {
                max_layers
            } else {
                num_layers
            }),
            step == (if sampled {
                (num_layers / max_layers) as usize
            } else {
                1
            }),
            want == sampled_layers(num_layers, max_layers),
            layers@ == want.take(i as int),
        decreases count - i,
    {
        proof {
            if sampled {
                sampled_in_range(num_layers, max_layers, i as int);
            } else {
                assert(i * step == i) by (nonlinear_arith)
                    requires
                        step == 1,
                ;
            }
        }
        layers.push(i * step);
        i = i + 1;
        assert(layers@ =~= want.take(i as int));
    }
    assert(want.take(i as int) =~= want);
    layers
}

/// The score of the first entry of `feature`.
pub open spec fn first_score(hits: Seq<FeatureScore>, feature: usize) -> Option<u32>
    decreases hits.len(),
{
    if hits.len() == 0 {
        None
    } else if hits[0].feature == feature {
        Some(hits[0].score)
    } else {
        first_score(hits.drop_first(), feature)
    }
}

/// The score of the last entry of `feature`.
pub open spec fn last_score(hits: Seq<FeatureScore>, feature: usize) -> Option<u32>
    decreases hits.len(),
{
    if hits.len() == 0 {
        None
    } else if hits.last().feature == feature {
        Some(hits.last().score)
    } else {
        last_score(hits.drop_last(), feature)
    }
}

/// The smaller of two scores.
fn smaller(a: u32, b: u32) -> (r: u32)
    ensures
        r == min32(a, b),
{
    if a % SIGN32 > INFINITY32 {
        b
    } else if less32(b, a) {
        b
    } else {
        a
    }
}

/// The highest of `start` and what the features of `hits` share with `other`,
/// where they share something: the smaller of the two scores.
pub open spec fn shared_max(
    hits: Seq<FeatureScore>,
    start: u32,
    other: spec_fn(usize) -> Option<u32>,
) -> u32
    decreases hits.len(),
{
    if hits.len() == 0 {
        start
    } else {
        let m = shared_max(hits.drop_last(), start, other);
        match other(hits.last().feature) {
            Some(b) => if lt32(m, min32(hits.last().score, b)) {
                min32(hits.last().score, b)
            } else {
                m
            },
            None => m,
        }
    }
}

/// No shared score is above the highest, which is not below where it began.
pub proof fn shared_max_is_max(
    hits: Seq<FeatureScore>,
    start: u32,
    other: spec_fn(usize) -> Option<u32>,
)
    requires
        !nan32(start),
    ensures
        !nan32(shared_max(hits, start, other)),
        rank32(start) <= rank32(shared_max(hits, start, other)),
        forall|i: int|
            0 <= i < hits.len() && other((#[trigger] hits[i]).feature) is Some ==> !lt32(
                shared_max(hits, start, other),
                min32(hits[i].score, other(hits[i].feature)->0),
            ),
        shared_max(hits, start, other) == start || lt32(start, shared_max(hits, start, other)),
        shared_max(hits, start, other) == start || exists|i: int|
            0 <= i < hits.len() && other((#[trigger] hits[i]).feature) is Some && shared_max(
                hits,
                start,
                other,
            ) == min32(hits[i].score, other(hits[i].feature)->0),
    decreases hits.len(),
{
    if hits.len() > 0 {
        let init = hits.drop_last();
        shared_max_is_max(init, start, other);
        let m = shared_max(init, start, other);
        let r = shared_max(hits, start, other);
        assert(hits[hits.len() - 1] == hits.last());
        assert forall|i: int|
            0 <= i < hits.len() && other((#[trigger] hits[i]).feature) is Some implies !lt32(
            r,
            min32(hits[i].score, other(hits[i].feature)->0),
        ) by {
            if i < init.len() {
                assert(hits[i] == init[i]);
            }
        }
        if r == m && m != start {
            let i = choose|i: int|
                0 <= i < init.len() && other((#[trigger] init[i]).feature) is Some && m == min32(
                    init[i].score,
                    other(init[i].feature)->0,
                );
            assert(hits[i] == init[i]);
        }
    }
}

/// What the features that two texts activate in a layer share: the highest of
/// zero and, over the features of both, the smaller score.
pub open spec fn layer_similarity(a: Seq<FeatureScore>, b: Seq<FeatureScore>) -> u32 {
    shared_max(a, 0, |f: usize| first_score(b, f))
}

/// Each feature is listed once.
pub open spec fn distinct_features(hits: Seq<FeatureScore>) -> bool {
    forall|i: int, j: int|
        0 <= i < j < hits.len() ==> (#[trigger] hits[i]).feature != (#[trigger] hits[j]).feature
}

/// A first score is that of an entry, and it is missing where there is none.
proof fn first_score_is_listed(hits: Seq<FeatureScore>, feature: usize)
    ensures
        first_score(hits, feature) is Some ==> exists|i: int|
            0 <= i < hits.len() && (#[trigger] hits[i]).feature == feature && first_score(
                hits,
                feature,
            ) == Some(hits[i].score),
        first_score(hits, feature) is None ==> forall|i: int|
            0 <= i < hits.len() ==> (#[trigger] hits[i]).feature != feature,
    decreases hits.len(),
{
    if hits.len() > 0 && hits[0].feature != feature {
        let rest = hits.drop_first();
        first_score_is_listed(rest, feature);
        if first_score(rest, feature) is Some {
            let i = choose|i: int|
                0 <= i < rest.len() && (#[trigger] rest[i]).feature == feature && first_score(
                    rest,
                    feature,
                ) == Some(rest[i].score);
            assert(hits[i + 1] == rest[i]);
        } else {
            assert forall|i: int| 0 <= i < hits.len() implies (#[trigger] hits[i]).feature
                != feature by {
                if i > 0 {
                    assert(hits[i] == rest[i - 1]);
                }
            }
        }
    }
}

/// A last score is that of an entry, and it is missing where there is none.
proof fn last_score_is_listed(hits: Seq<FeatureScore>, feature: usize)
    ensures
        last_score(hits, feature) is Some ==> exists|i: int|
            0 <= i < hits.len() && (#[trigger] hits[i]).feature == feature && last_score(
                hits,
                feature,
            ) == Some(hits[i].score),
        last_score(hits, feature) is None ==> forall|i: int|
            0 <= i < hits.len() ==> (#[trigger] hits[i]).feature != feature,
    decreases hits.len(),
{
    if hits.len() > 0 {
        let init = hits.drop_last();
        assert(hits[hits.len() - 1] == hits.last());
        last_score_is_listed(init, feature);
        if hits.last().feature != feature {
            if last_score(init, feature) is Some {
                let i = choose|i: int|
                    0 <= i < init.len() && (#[trigger] init[i]).feature == feature && last_score(
                        init,
                        feature,
                    ) == Some(init[i].score);
                assert(hits[i] == init[i]);
            } else {
                assert forall|i: int| 0 <= i < hits.len() implies (#[trigger] hits[i]).feature
                    != feature by {
                    if i < init.len() {
                        assert(hits[i] == init[i]);
                    }
                }
            }
        }
    }
}

/// What `a` shares with `b` is not above what `b` shares with `a`.
proof fn similarity_is_not_above(a: Seq<FeatureScore>, b: Seq<FeatureScore>)
    requires
        distinct_features(a),
    ensures
        rank32(layer_similarity(a, b)) <= rank32(layer_similarity(b, a)),
{
    let in_b = |f: usize| first_score(b, f);
    let in_a = |f: usize| first_score(a, f);
    shared_max_is_max(a, 0, in_b);
    shared_max_is_max(b, 0, in_a);
    let m = shared_max(a, 0, in_b);
    if m != 0 {
        let i = choose|i: int|
            0 <= i < a.len() && in_b((#[trigger] a[i]).feature) is Some && m == min32(
                a[i].score,
                in_b(a[i].feature)->0,
            );
        let f = a[i].feature;
        first_score_is_listed(b, f);
        let j = choose|j: int|
            0 <= j < b.len() && (#[trigger] b[j]).feature == f && first_score(b, f) == Some(
                b[j].score,
            );
        first_score_is_listed(a, f);
        assert(in_a(b[j].feature) == Some(a[i].score));
        assert(min32(b[j].score, a[i].score) == m);
    }
}

/// Two texts share as much as the other way round, where no feature of either
/// is listed twice.
pub proof fn similarity_is_symmetric(a: Seq<FeatureScore>, b: Seq<FeatureScore>)
    requires
        distinct_features(a),
        distinct_features(b),
    ensures
        layer_similarity(a, b) == layer_similarity(b, a),
{
    similarity_is_not_above(a, b);
    similarity_is_not_above(b, a);
    shared_max_is_max(a, 0, |f: usize| first_score(b, f));
    shared_max_is_max(b, 0, |f: usize| first_score(a, f));
}

/// Finds the first entry of a feature.
fn find_first(hits: &Vec<FeatureScore>, feature: usize) -> (r: Option<u32>)
    ensures
        r == first_score(hits@, feature),
{
    let mut i: usize = 0;
    assert(hits@.skip(0) =~= hits@);
    while i < hits.len()
        invariant
            i <= hits@.len(),
            first_score(hits@, feature) == first_score(hits@.skip(i as int), feature),
        decreases hits@.len() - i,
    {
        assert(hits@.skip(i as int)[0] == hits@[i as int]);
        assert(hits@.skip(i as int).drop_first() =~= hits@.skip(i + 1));
        if hits[i].feature == feature {
            return Some(hits[i].score);
        }
        i = i + 1;
    }
    None
}

/// Finds the last entry of a feature.
fn find_last(hits: &Vec<FeatureScore>, feature: usize) -> (r: Option<u32>)
    ensures
        r == last_score(hits@, feature),
{
    let mut i: usize = hits.len();
    assert(hits@.take(i as int) =~= hits@);
    while i > 0
        invariant
            i <= hits@.len(),
            last_score(hits@, feature) == last_score(hits@.take(i as int), feature),
        decreases i,
    {
        assert(hits@.take(i as int).last() == hits@[i - 1]);
        assert(hits@.take(i as int).drop_last() =~= hits@.take(i - 1));
        i = i - 1;
        if hits[i].feature == feature {
            return Some(hits[i].score);
        }
    }
    None
}

/// What the features that two texts activate in a layer share.
pub fn compute_layer_similarity(a: &Vec<FeatureScore>, b: &Vec<FeatureScore>) -> (score: u32)
    ensures
        score == layer_similarity(a@, b@),
{
    let ghost other = |f: usize| first_score(b@, f);
    let mut max: u32 = 0;
    let mut i: usize = 0;
    while i < a.len()
        invariant
            i <= a@.len(),
            other == (|f: usize| first_score(b@, f)),
            max == shared_max(a@.take(i as int), 0, other),
        decreases a@.len() - i,
    {
        let h: FeatureScore = a[i];
        proof {
            let t = a@.take(i + 1);
            assert(t.drop_last() =~= a@.take(i as int));
            assert(t.last() == h);
        }
        if let Some(score_b) = find_first(b, h.feature) {
            let shared: u32 = smaller(h.score, score_b);
            if less32(max, shared) {
                max = shared;
            }
        }
        i = i + 1;
    }
    assert(a@.take(i as int) =~= a@);
    max
}

/// Which score two texts get.
#[derive(Debug, Clone, Copy, PartialEq, Eq, Structural)]
pub enum SimilarityScore {
    /// The shared score, a binary32 pattern.
    Gate(u32),
    /// Ten times the cosine of the embeddings.
    Cosine,
}

/// The score of two texts from what they share in each layer.
pub open spec fn combined(layer_scores: Seq<u32>) -> SimilarityScore {
    let h = highest(layer_scores);
    if lt32(0, h) {
        SimilarityScore::Gate(h)
    } else {
        SimilarityScore::Cosine
    }
}

/// The score of two texts from what they share in each layer.
pub fn combine(layer_scores: &Vec<u32>) -> (s: SimilarityScore)
    ensures
        s == (if lt32(0, highest(layer_scores@)) {
            SimilarityScore::Gate(highest(layer_scores@))
        } else {
            SimilarityScore::Cosine
        }),
        s == combined(layer_scores@),
{
    let max: u32 = highest_score(layer_scores);
    if less32(0, max) {
        SimilarityScore::Gate(max)
    } else {
        SimilarityScore::Cosine
    }
}

/// What a text shares with a query whose features are known in advance, over
/// the first `n` layers. Where a feature of the query is listed twice, the
/// later score counts.
pub open spec fn precomputed_max(
    hits: Seq<Vec<FeatureScore>>,
    query: Seq<Vec<FeatureScore>>,
    n: int,
) -> u32
    decreases n,
{
    if n <= 0 {
        0
    } else {
        shared_max(
            hits[n - 1]@,
            precomputed_max(hits, query, n - 1),
            |f: usize| last_score(query[n - 1]@, f),
        )
    }
}

/// Starting higher changes the highest shared score only where it is below
/// the start.
proof fn shared_max_from(
    hits: Seq<FeatureScore>,
    start: u32,
    other: spec_fn(usize) -> Option<u32>,
)
    requires
        !nan32(start),
        rank32(start) >= 0,
    ensures
        shared_max(hits, start, other) == (if lt32(start, shared_max(hits, 0, other)) {
            shared_max(hits, 0, other)
        } else {
            start
        }),
    decreases hits.len(),
{
    if hits.len() > 0 {
        shared_max_from(hits.drop_last(), start, other);
        shared_max_is_max(hits.drop_last(), 0, other);
        shared_max_is_max(hits, 0, other);
    }
}

/// What the texts share in each of the first `n` layers.
pub open spec fn layer_similarities(
    hits: Seq<Vec<FeatureScore>>,
    query: Seq<Vec<FeatureScore>>,
    n: int,
) -> Seq<u32> {
    Seq::new(n as nat, |i: int| layer_similarity(hits[i]@, query[i]@))
}

/// Knowing the query's features in advance gives the score of asking for both
/// texts layer by layer, where no feature of the query is listed twice in a
/// layer.
pub proof fn precomputed_agrees(
    hits: Seq<Vec<FeatureScore>>,
    query: Seq<Vec<FeatureScore>>,
    n: int,
)
    requires
        0 <= n <= query.len(),
        hits.len() == query.len(),
        forall|i: int| 0 <= i < n ==> distinct_features((#[trigger] query[i])@),
    ensures
        precomputed_max(hits, query, n) == highest(layer_similarities(hits, query, n)),
    decreases n,
{
    if n > 0 {
        precomputed_agrees(hits, query, n - 1);
        let all = layer_similarities(hits, query, n);
        let init = layer_similarities(hits, query, n - 1);
        assert(all.drop_last() =~= init);
        assert(all.last() == layer_similarity(hits[n - 1]@, query[n - 1]@));
        highest_is_highest(init);
        let q = query[n - 1]@;
        assert(distinct_features(q));
        let last = |f: usize| last_score(q, f);
        let first = |f: usize| first_score(q, f);
        assert forall|f: usize| #[trigger] last(f) == first(f) by {
            first_score_is_listed(q, f);
            last_score_is_listed(q, f);
        }
        assert(last =~= first);
        shared_max_from(hits[n - 1]@, highest(init), first);
    }
}

/// The score of a text against a query whose features are known in advance,
/// layer by layer.
pub fn similar_to_precomputed(
    hits: &Vec<Vec<FeatureScore>>,
    query: &Vec<Vec<FeatureScore>>,
) -> (s: SimilarityScore)
    requires
        hits@.len() == query@.len(),
    ensures
        ({
            let max = precomputed_max(hits@, query@, query@.len() as int);
            s == (if lt32(0, max) {
                SimilarityScore::Gate(max)
            } else {
                SimilarityScore::Cosine
            })
        }),
{
    let mut max: u32 = 0;
    let mut layer: usize = 0;
    while layer < query.len()
        invariant
            hits@.len() == query@.len(),
            layer <= query@.len(),
            max == precomputed_max(hits@, query@, layer as int),
        decreases query@.len() - layer,
    {
        let col: &Vec<FeatureScore> = &hits[layer];
        let gates: &Vec<FeatureScore> = &query[layer];
        let ghost start = max;
        let ghost other = |f: usize| last_score(query@[layer as int]@, f);
        let mut i: usize = 0;
        while i < col.len()
            invariant
                i <= col@.len(),
                layer < query@.len(),
                gates@ == query@[layer as int]@,
                other == (|f: usize| last_score(query@[layer as int]@, f)),
                max == shared_max(col@.take(i as int), start, other),
            decreases col@.len() - i,
        {
            let h: FeatureScore = col[i];
            proof {
                let t = col@.take(i + 1);
                assert(t.drop_last() =~= col@.take(i as int));
                assert(t.last() == h);
            }
            if let Some(score_q) = find_last(gates, h.feature) {
                let shared: u32 = smaller(h.score, score_q);
                if less32(max, shared) {
                    max = shared;
                }
            }
            i = i + 1;
        }
        assert(col@.take(i as int) =~= col@);
        layer = layer + 1;
    }
    if less32(0, max) {
        SimilarityScore::Gate(max)
    } else {
        SimilarityScore::Cosine
    }
}

/// Which layers are asked: all of them where there is no limit or they are
/// within it, else as many as the limit says, from the first on and equally far
/// apart, and so far that not another one more apart would fit.
pub proof fn sampled_layers_are_even(num_layers: usize, max_layers: usize, i: int)
    requires
        0 <= i < sampled_layers(num_layers, max_layers).len(),
    ensures
        max_layers == 0 || num_layers <= max_layers ==> sampled_layers(num_layers, max_layers).len()
            == num_layers && sampled_layers(num_layers, max_layers)[i] == i,
        0 < max_layers < num_layers ==> {
            let s = sampled_layers(num_layers, max_layers);
            &&& s.len() == max_layers
            &&& s[0] == 0
            &&& max_layers > 1 ==> s[i] == i * s[1]
            &&& max_layers > 1 ==> max_layers * s[1] <= num_layers < max_layers * (s[1] + 1)
        },
{
    if 0 < max_layers < num_layers {
        sampled_in_range(num_layers, max_layers, i);
        sampled_in_range(num_layers, max_layers, 0);
        let n = num_layers as int;
        let m = max_layers as int;
        let step = n / m;
        vstd::arithmetic::div_mod::lemma_fundamental_div_mod(n, m);
        assert(m * step <= n < m * (step + 1)) by (nonlinear_arith)
            requires
                n == m * step + n % m,
                0 <= n % m < m,
        ;
        assert(0 * step == 0 && 1 * step == step) by (nonlinear_arith);
        if m > 1 {
            sampled_in_range(num_layers, max_layers, 1);
            assert(sampled_layers(num_layers, max_layers)[1] == step);
        }
    }
}

/// What two texts share: no feature of both has both scores above it, and it
/// is zero or the smaller score of a feature of both.
pub proof fn similarity_is_the_highest_shared(a: Seq<FeatureScore>, b: Seq<FeatureScore>)
    requires
        distinct_features(b),
    ensures
        forall|i: int, j: int|
            0 <= i < a.len() && 0 <= j < b.len() && (#[trigger] a[i]).feature == (
            #[trigger] b[j]).feature ==> !(lt32(layer_similarity(a, b), a[i].score) && lt32(
                layer_similarity(a, b),
                b[j].score,
            )),
        layer_similarity(a, b) == 0 || exists|i: int, j: int|
            0 <= i < a.len() && 0 <= j < b.len() && (#[trigger] a[i]).feature == (
            #[trigger] b[j]).feature && layer_similarity(a, b) == min32(a[i].score, b[j].score),
        !nan32(layer_similarity(a, b)),
        !lt32(layer_similarity(a, b), 0),
{
    let in_b = |f: usize| first_score(b, f);
    shared_max_is_max(a, 0, in_b);
    let m = layer_similarity(a, b);
    assert forall|i: int, j: int|
        0 <= i < a.len() && 0 <= j < b.len() && (#[trigger] a[i]).feature == (
        #[trigger] b[j]).feature implies !(lt32(m, a[i].score) && lt32(m, b[j].score)) by {
        let f = a[i].feature;
        first_score_is_listed(b, f);
        assert(in_b(f) is Some);
        let k = choose|k: int|
            0 <= k < b.len() && (#[trigger] b[k]).feature == f && first_score(b, f) == Some(
                b[k].score,
            );
        assert(k == j);
        assert(!lt32(m, min32(a[i].score, in_b(a[i].feature)->0)));
    }
    if m != 0 {
        let i = choose|i: int|
            0 <= i < a.len() && in_b((#[trigger] a[i]).feature) is Some && m == min32(
                a[i].score,
                in_b(a[i].feature)->0,
            );
        first_score_is_listed(b, a[i].feature);
        let j = choose|j: int|
            0 <= j < b.len() && (#[trigger] b[j]).feature == a[i].feature && first_score(
                b,
                a[i].feature,
            ) == Some(b[j].score);
        assert(m == min32(a[i].score, b[j].score));
    }
}

/// Two texts that share something in a layer get the highest of what they
/// share; only where they share nothing in any layer do their embeddings
/// decide.
pub proof fn shared_features_decide(layer_scores: Seq<u32>)
    ensures
        match combined(layer_scores) {
            SimilarityScore::Gate(h) => lt32(0, h) && layer_scores.contains(h) && forall|i: int|
                0 <= i < layer_scores.len() ==> !lt32(h, #[trigger] layer_scores[i]),
            SimilarityScore::Cosine => forall|i: int|
                0 <= i < layer_scores.len() ==> !lt32(0, #[trigger] layer_scores[i]),
        },
{
    highest_is_highest(layer_scores);
    if !lt32(0, highest(layer_scores)) {
        assert forall|i: int| 0 <= i < layer_scores.len() implies !lt32(
            0,
            #[trigger] layer_scores[i],
        ) by {
            assert(!lt32(highest(layer_scores), layer_scores[i]));
        }
    }
}

/// Where a feature is listed more than once, the first score is the first of
/// its scores and the last score the last.
pub proof fn first_and_last_scores(hits: Seq<FeatureScore>, feature: usize, i: int)
    requires
        0 <= i < hits.len(),
        hits[i].feature == feature,
    ensures
        (forall|j: int| 0 <= j < i ==> (#[trigger] hits[j]).feature != feature) ==> first_score(
            hits,
            feature,
        ) == Some(hits[i].score),
        (forall|j: int| i < j < hits.len() ==> (#[trigger] hits[j]).feature != feature)
            ==> last_score(hits, feature) == Some(hits[i].score),
{
    if forall|j: int| 0 <= j < i ==> (#[trigger] hits[j]).feature != feature {
        first_score_is(hits, feature, i);
    }
    if forall|j: int| i < j < hits.len() ==> (#[trigger] hits[j]).feature != feature {
        last_score_is(hits, feature, i);
    }
}

/// The first score of a feature.
proof fn first_score_is(hits: Seq<FeatureScore>, feature: usize, i: int)
    requires
        0 <= i < hits.len(),
        hits[i].feature == feature,
        forall|j: int| 0 <= j < i ==> (#[trigger] hits[j]).feature != feature,
    ensures
        first_score(hits, feature) == Some(hits[i].score),
    decreases i,
{
    if i > 0 {
        let rest = hits.drop_first();
        assert(hits[0].feature != feature);
        assert forall|j: int| 0 <= j < i - 1 implies (#[trigger] rest[j]).feature != feature by {
            assert(rest[j] == hits[j + 1]);
        }
        first_score_is(rest, feature, i - 1);
    }
}

/// The last score of a feature.
proof fn last_score_is(hits: Seq<FeatureScore>, feature: usize, i: int)
    requires
        0 <= i < hits.len(),
        hits[i].feature == feature,
        forall|j: int| i < j < hits.len() ==> (#[trigger] hits[j]).feature != feature,
    ensures
        last_score(hits, feature) == Some(hits[i].score),
    decreases hits.len(),
{
    if i < hits.len() - 1 {
        let init = hits.drop_last();
        assert(hits[hits.len() - 1].feature != feature);
        assert forall|j: int| i < j < init.len() implies (#[trigger] init[j]).feature
            != feature by {
            assert(init[j] == hits[j]);
        }
        last_score_is(init, feature, i);
    }
}

/// What a text shares with a query over more layers is what it shares over
/// fewer, or more: a layer never takes anything away, and one in which nothing
/// higher is shared adds nothing.
pub proof fn more_layers_share_no_less(
    hits: Seq<Vec<FeatureScore>>,
    query: Seq<Vec<FeatureScore>>,
    n: int,
)
    requires
        0 < n <= query.len(),
        hits.len() == query.len(),
    ensures
        !nan32(precomputed_max(hits, query, n)),
        rank32(precomputed_max(hits, query, n)) >= rank32(precomputed_max(hits, query, n - 1)) >= 0,
        hits[n - 1]@.len() == 0 ==> precomputed_max(hits, query, n) == precomputed_max(
            hits,
            query,
            n - 1,
        ),
        query[n - 1]@.len() == 0 ==> precomputed_max(hits, query, n) == precomputed_max(
            hits,
            query,
            n - 1,
        ),
    decreases n,
{
    if n > 1 {
        more_layers_share_no_less(hits, query, n - 1);
    }
    let start = precomputed_max(hits, query, n - 1);
    let other = |f: usize| last_score(query[n - 1]@, f);
    shared_max_is_max(hits[n - 1]@, start, other);
    if query[n - 1]@.len() == 0 {
        nothing_is_shared(hits[n - 1]@, start, other);
    }
}

/// Where the other text has no feature, nothing is shared.
proof fn nothing_is_shared(
    hits: Seq<FeatureScore>,
    start: u32,
    other: spec_fn(usize) -> Option<u32>,
)
    requires
        forall|f: usize| #[trigger] other(f) is None,
    ensures
        shared_max(hits, start, other) == start,
    decreases hits.len(),
{
    if hits.len() > 0 {
        nothing_is_shared(hits.drop_last(), start, other);
        assert(other(hits.last().feature) is None);
    }
}

} // verus!
