//! The features that a prompt activates.

use vstd::prelude::*;

use crate::pg::error::PgInferError;

verus! {

/// Features per layer where the caller does not say.
pub const DEFAULT_TOP: i32 = 20;

/// Features per layer.
pub fn walk_top(top: Option<i32>) -> (n: usize)
    ensures
        n == (match top {
            Some(t) => t as usize,
            None => 20,
        }),
{
    match top {
        Some(t) => t as usize,
        None => 20,
    }
}

/// The token whose embedding is the query: the last one of the prompt.
pub fn query_token(token_ids: &Vec<u32>) -> (r: Result<u32, PgInferError>)
    ensures
        match r {
            Ok(t) => token_ids@.len() > 0 && t == token_ids@.last(),
            Err(e) => token_ids@.len() == 0 && e is EmptyPrompt,
        },
{
    if token_ids.len() == 0 {
        return Err(PgInferError::EmptyPrompt);
    }
    Ok(token_ids[token_ids.len() - 1])
}

/// A feature that fired: its score (a binary32 pattern) and its strongest
/// output token, where the feature is known.
pub struct FeatureHit {
    pub feature: usize,
    pub score: u32,
    pub concept: Option<String>,
}

/// A row of the result.
pub struct WalkRow {
    pub layer: i32,
    pub feature: i32,
    pub activation: u32,
    pub concept: String,
}

/// What a [`WalkRow`] holds.
pub struct WalkRowView {
    pub layer: i32,
    pub feature: i32,
    pub activation: u32,
    pub concept: Seq<char>,
}

impl View for WalkRow {
    type V = WalkRowView;

    open spec fn view(&self) -> WalkRowView {
        WalkRowView {
            layer: self.layer,
            feature: self.feature,
            activation: self.activation,
            concept: self.concept@,
        }
    }
}

/// What the rows of a list hold.
pub open spec fn row_views(rows: Seq<WalkRow>) -> Seq<WalkRowView> {
    Seq::new(rows.len(), |i: int| rows[i]@)
}

/// The row of a feature; one that is not known has an empty concept.
pub open spec fn row_of(layer: int, h: FeatureHit) -> WalkRowView {
    WalkRowView {
        layer: layer as i32,
        feature: h.feature as i32,
        activation: h.score,
        concept: match h.concept {
            Some(c) => c@,
            None => seq![],
        },
    }
}

/// The rows of the first `n` layers, one after the other.
pub open spec fn rows_of(hits: Seq<Vec<FeatureHit>>, n: int) -> Seq<WalkRowView>
    decreases n,
{
    if n <= 0 {
        seq![]
    } else {
        rows_of(hits, n - 1) + Seq::new(
            hits[n - 1]@.len(),
            |i: int| row_of(n - 1, hits[n - 1]@[i]),
        )
    }
}

/// The rows of all layers, one after the other.
pub fn walk_rows(hits: &Vec<Vec<FeatureHit>>) -> (rows: Vec<WalkRow>)
    ensures
        row_views(rows@) == rows_of(hits@, hits@.len() as int),
{
    let mut rows: Vec<WalkRow> = Vec::new();
    assert(row_views(rows@) =~= rows_of(hits@, 0));
    let mut layer: usize = 0;
    while layer < hits.len()
        invariant
            layer <= hits@.len(),
            row_views(rows@) == rows_of(hits@, layer as int),
        decreases hits@.len() - layer,
    {
        let ghost before = row_views(rows@);
        let own: &Vec<FeatureHit> = &hits[layer];
        let ghost want = Seq::new(own@.len(), |i: int| row_of(layer as int, own@[i]));
        let mut i: usize = 0;
        assert(before =~= before + want.take(0));
        while i < own.len()
            invariant
                i <= own@.len(),
                want == Seq::new(own@.len(), |i: int| row_of(layer as int, own@[i])),
                row_views(rows@) == before + want.take(i as int),
            decreases own@.len() - i,
        {
            let h: &FeatureHit = &own[i];
            let concept: String = match &h.concept {
                Some(c) => c.clone(),
                None => String::new(),
            };
            let ghost old_views = row_views(rows@);
            rows.push(
                WalkRow {
                    layer: layer as i32,
                    feature: h.feature as i32,
                    activation: h.score,
                    concept,
                },
            );
            assert(rows@.last()@.concept =~= want[i as int].concept);
            assert(row_views(rows@) =~= old_views.push(want[i as int]));
            i = i + 1;
            assert(row_views(rows@) =~= before + want.take(i as int));
        }
        assert(want.take(i as int) =~= want);
        layer = layer + 1;
        assert(row_views(rows@) =~= rows_of(hits@, layer as int));
    }
    rows
}

/// Every feature that fired has its own row: that of feature `i` of layer `l`
/// stands behind all rows of earlier layers and behind `i` of its own, with
/// the layer's number, the feature's number, score and concept; and there are
/// no more rows than features.
pub proof fn every_feature_has_its_row(hits: Seq<Vec<FeatureHit>>, n: int, l: int, i: int)
    requires
        0 <= l < n <= hits.len(),
        0 <= i < hits[l]@.len(),
    ensures
        rows_of(hits, n).len() == rows_of(hits, n - 1).len() + hits[n - 1]@.len(),
        rows_of(hits, 0).len() == 0,
        rows_of(hits, l).len() + i < rows_of(hits, n).len(),
        ({
            let row = rows_of(hits, n)[rows_of(hits, l).len() + i];
            let h = hits[l]@[i];
            &&& l <= i32::MAX ==> row.layer == l
            &&& h.feature <= i32::MAX ==> row.feature == h.feature
            &&& row.activation == h.score
            &&& h.concept matches Some(c) ==> row.concept == c@
            &&& h.concept is None ==> row.concept.len() == 0
        }),
    decreases n,
{
    if l < n - 1 {
        every_feature_has_its_row(hits, n - 1, l, i);
    }
}

/// What is said of the contents of rows is what these hold.
pub proof fn row_contents(rows: Seq<WalkRow>, i: int)
    ensures
        row_views(rows).len() == rows.len(),
        0 <= i < rows.len() ==> {
            let v = row_views(rows)[i];
            v.layer == rows[i].layer && v.feature == rows[i].feature && v.activation
                == rows[i].activation && v.concept == rows[i].concept@
        },
{
}

} // verus!
