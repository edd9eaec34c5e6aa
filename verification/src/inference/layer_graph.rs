//! Layers whose output is known in advance.

use std::collections::HashMap;

use vstd::prelude::*;

use crate::inference::matrix::{chunk, Matrix};
use crate::vindex::residual_cache::{lookup, ResidualCache};

verus! {

broadcast use vstd::std_specs::hash::group_hash_axioms;

/// Residuals that are known in advance, by layer.
pub struct CachedLayerGraph {
    pub cache: HashMap<usize, Matrix>,
}

/// The residuals of a list, by layer; of two for one layer the later counts.
pub open spec fn by_layer(residuals: Seq<(usize, Matrix)>) -> Map<usize, Matrix>
    decreases residuals.len(),
{
    if residuals.len() == 0 {
        Map::empty()
    } else {
        by_layer(residuals.drop_last()).insert(residuals.last().0, residuals.last().1)
    }
}

/// The rows that a cache file holds for a template and a layer, where they
/// are whole rows.
pub open spec fn cached_rows(cache: ResidualCache, template_hash: u64, layer: usize) -> Option<
    Seq<Seq<u32>>,
> {
    match lookup(cache.data@, cache.entries@, template_hash, layer) {
        Some(words) => if words.len() % cache.hidden_size as nat == 0 {
            Some(
                Seq::new(
                    words.len() / cache.hidden_size as nat,
                    |i: int| chunk(words, cache.hidden_size, i),
                ),
            )
        } else {
            None
        },
        None => None,
    }
}

impl CachedLayerGraph {
    /// Takes residuals, by layer; of two for one layer the later counts.
    pub fn from_residuals(residuals: Vec<(usize, Matrix)>) -> (g: Self)
        ensures
            g.cache@ == by_layer(residuals@),
    {
        let ghost all = residuals@;
        let mut back: Vec<(usize, Matrix)> = crate::client::join::reversed(residuals);
        let mut cache: HashMap<usize, Matrix> = HashMap::new();
        let ghost mut done: int = 0;
        assert(cache@ =~= by_layer(all.take(0)));
        while back.len() > 0
            invariant
                0 <= done <= all.len(),
                back@.len() == all.len() - done,
                back@ == all.skip(done).reverse(),
                cache@ == by_layer(all.take(done)),
            decreases back@.len(),
        {
            if let Some(item) = back.pop() {
                proof {
                    assert(item == all[done]);
                    let t = all.take(done + 1);
                    assert(t.drop_last() =~= all.take(done));
                    assert(t.last() == item);
                    assert(back@ =~= all.skip(done + 1).reverse());
                }
                cache.insert(item.0, item.1);
                proof {
                    done = done + 1;
                    assert(cache@ =~= by_layer(all.take(done)));
                }
            }
        }
        assert(all.take(done) =~= all);
        CachedLayerGraph { cache }
    }

    /// Takes the residuals of a template from a cache file, for those of
    /// `layers` that have one.
    pub fn from_vindex_cache(
        file: &ResidualCache,
        template_hash: u64,
        layers: &Vec<usize>,
    ) -> (g: Self)
        requires
            file.hidden_size > 0 || forall|i: int|
                0 <= i < layers@.len() ==> lookup(
                    file.data@,
                    file.entries@,
                    template_hash,
                    #[trigger] layers@[i],
                ) is None,
        ensures
            forall|l: usize| #[trigger]
                g.cache@.contains_key(l) <==> layers@.contains(l) && cached_rows(
                    *file,
                    template_hash,
                    l,
                ) is Some,
            forall|l: usize| #[trigger]
                g.cache@.contains_key(l) ==> g.cache@[l].well_formed() && g.cache@[l].cols
                    == file.hidden_size && Some(g.cache@[l]@) == cached_rows(
                    *file,
                    template_hash,
                    l,
                ),
    {
        let mut cache: HashMap<usize, Matrix> = HashMap::new();
        let mut i: usize = 0;
        while i < layers.len()
            invariant
                file.hidden_size > 0 || forall|i: int|
                    0 <= i < layers@.len() ==> lookup(
                        file.data@,
                        file.entries@,
                        template_hash,
                        #[trigger] layers@[i],
                    ) is None,
                i <= layers@.len(),
                forall|l: usize| #[trigger]
                    cache@.contains_key(l) <==> layers@.take(i as int).contains(l) && cached_rows(
                        *file,
                        template_hash,
                        l,
                    ) is Some,
                forall|l: usize| #[trigger]
                    cache@.contains_key(l) ==> cache@[l].well_formed() && cache@[l].cols
                        == file.hidden_size && Some(cache@[l]@) == cached_rows(
                        *file,
                        template_hash,
                        l,
                    ),
            decreases layers@.len() - i,
        {
            let layer: usize = layers[i];
            let ghost before = cache@;
            let ghost head = layers@.take(i as int);
            let ghost next = layers@.take(i + 1);
            proof {
                assert(next =~= head.push(layer));
                assert forall|l: usize| next.contains(l) <==> head.contains(l) || l == layer by {
                    if head.contains(l) {
                        let k = choose|k: int| 0 <= k < head.len() && head[k] == l;
                        assert(next[k] == l);
                    }
                    if next.contains(l) && l != layer {
                        let k = choose|k: int| 0 <= k < next.len() && next[k] == l;
                        assert(head[k] == l);
                    }
                    assert(next[i as int] == layer);
                }
            }
            if let Some(words) = file.get(template_hash, layer) {
                if let Some(m) = Matrix::from_numbers(&words, file.hidden_size) {
                    assert(cached_rows(*file, template_hash, layer) == Some(m@));
                    cache.insert(layer, m);
                }
            }
            i = i + 1;
        }
        assert(layers@.take(i as int) =~= layers@);
        CachedLayerGraph { cache }
    }

    /// Whether a layer's residual is known.
    pub fn has_layer(&self, layer: usize) -> (r: bool)
        ensures
            r == self.cache@.contains_key(layer),
    {
        self.cache.contains_key(&layer)
    }

    /// Number of layers whose residual is known.
    pub fn num_cached(&self) -> (n: usize)
        ensures
            n == self.cache@.dom().len(),
    {
        self.cache.len()
    }

    /// The residual of a layer.
    pub fn get(&self, layer: usize) -> (r: Option<&Matrix>)
        ensures
            match r {
                Some(m) => self.cache@.contains_key(layer) && *m == self.cache@[layer],
                None => !self.cache@.contains_key(layer),
            },
    {
        self.cache.get(&layer)
    }

    /// The name of this way to run a layer.
    pub fn name(&self) -> (s: &'static str)
        ensures
            s@ == "cached"@,
    {
        "cached"
    }
}

/// The highest of `layers`, 0 where there is none.
pub open spec fn highest_layer(layers: Seq<usize>) -> usize
    decreases layers.len(),
{
    if layers.len() == 0 {
        0
    } else if layers.last() > highest_layer(layers.drop_last()) {
        layers.last()
    } else {
        highest_layer(layers.drop_last())
    }
}

/// Which layers are run, and of which the residual is kept.
pub open spec fn kept_layers(layers: Seq<usize>, num_layers: usize) -> Seq<bool> {
    Seq::new(
        if highest_layer(layers) < num_layers {
            (highest_layer(layers) + 1) as nat
        } else {
            num_layers as nat
        },
        |l: int| layers.contains(l as usize),
    )
}

/// Which layers take their known residual, where those of `known` are known.
pub open spec fn adaptive_layers(
    known: Set<usize>,
    num_layers: usize,
    first: usize,
    last: usize,
) -> Seq<bool> {
    Seq::new(num_layers as nat, |l: int| first <= l <= last && known.contains(l as usize))
}

/// Which layers are run to learn the residuals of `layers`, and of which the
/// residual is kept: from the first on, up to the highest of them that the
/// model has.
pub fn plan_build(layers: &Vec<usize>, num_layers: usize) -> (keep: Vec<bool>)
    requires
        num_layers > 0,
    ensures
        keep@.len() == (if highest_layer(layers@) < num_layers {
            highest_layer(layers@) + 1
        } else {
            num_layers as int
        }),
        forall|l: int|
            0 <= l < keep@.len() ==> #[trigger] keep@[l] == layers@.contains(l as usize),
        keep@ == kept_layers(layers@, num_layers),
{
    let mut high: usize = 0;
    let mut i: usize = 0;
    while i < layers.len()
        invariant
            i <= layers@.len(),
            high == highest_layer(layers@.take(i as int)),
        decreases layers@.len() - i,
    {
        proof {
            let t = layers@.take(i + 1);
            assert(t.drop_last() =~= layers@.take(i as int));
            assert(t.last() == layers@[i as int]);
        }
        if layers[i] > high {
            high = layers[i];
        }
        i = i + 1;
    }
    assert(layers@.take(i as int) =~= layers@);
    let last: usize = if high < num_layers {
        high
    } else {
        num_layers - 1
    };
    let mut keep: Vec<bool> = Vec::new();
    let mut l: usize = 0;
    let mut more: bool = true;
    while more
        invariant
            more ==> l <= last,
            !more ==> l == last,
            keep@.len() == (if more {
                l as int
            } else {
                last + 1
            }),
            forall|j: int| 0 <= j < keep@.len() ==> #[trigger] keep@[j] == layers@.contains(j as usize),
        decreases (if more {
            last - l + 1
        } else {
            0
        }),
    {
        let mut found: bool = false;
        let mut k: usize = 0;
        while k < layers.len()
            invariant
                k <= layers@.len(),
                found == exists|j: int| 0 <= j < k && #[trigger] layers@[j] == l,
            decreases layers@.len() - k,
        {
            if layers[k] == l {
                assert(layers@[k as int] == l);
                found = true;
            }
            k = k + 1;
        }
        assert(found == layers@.contains(l));
        keep.push(found);
        if l == last {
            more = false;
        } else {
            l = l + 1;
        }
    }
    assert(keep@ =~= kept_layers(layers@, num_layers));
    keep
}

/// Which layers take their known residual and which are run: those from
/// `first` to `last` whose residual is known take it.
pub fn build_adaptive_graph(
    cache: &CachedLayerGraph,
    num_layers: usize,
    first: usize,
    last: usize,
) -> (cached: Vec<bool>)
    ensures
        cached@ == Seq::new(
            num_layers as nat,
            |l: int| first <= l <= last && cache.cache@.contains_key(l as usize),
        ),
        cached@ == adaptive_layers(cache.cache@.dom(), num_layers, first, last),
{
    let ghost want = Seq::new(
        num_layers as nat,
        |l: int| first <= l <= last && cache.cache@.contains_key(l as usize),
    );
    let mut cached: Vec<bool> = Vec::new();
    let mut l: usize = 0;
    while l < num_layers
        invariant
            l <= num_layers,
            want == Seq::new(
                num_layers as nat,
                |l: int| first <= l <= last && cache.cache@.contains_key(l as usize),
            ),
            cached@ == want.take(l as int),
        decreases num_layers - l,
    {
        cached.push(first <= l && l <= last && cache.has_layer(l));
        l = l + 1;
        assert(cached@ =~= want.take(l as int));
    }
    assert(want.take(l as int) =~= want);
    assert(cached@ =~= adaptive_layers(cache.cache@.dom(), num_layers, first, last));
    cached
}

/// The weights of the norm before the feed-forward block: those meant for it
/// where the model has norms after its blocks, else those of the norm after
/// attention.
pub fn pre_ffn_norm_key(
    has_post_norms: bool,
    pre_feedforward: Option<String>,
    post_attention: String,
) -> (key: Option<String>)
    ensures
        key == (if has_post_norms {
            pre_feedforward
        } else {
            Some(post_attention)
        }),
{
    if has_post_norms {
        pre_feedforward
    } else {
        Some(post_attention)
    }
}

/// What is known of a layer is what was given for it last.
pub proof fn later_residual_counts(residuals: Seq<(usize, Matrix)>, i: int)
    requires
        0 <= i < residuals.len(),
        forall|j: int| i < j < residuals.len() ==> (#[trigger] residuals[j]).0 != residuals[i].0,
    ensures
        by_layer(residuals).contains_key(residuals[i].0),
        by_layer(residuals)[residuals[i].0] == residuals[i].1,
    decreases residuals.len(),
{
    let init = residuals.drop_last();
    let last = residuals.len() - 1;
    if i < last {
        assert(residuals[last].0 != residuals[i].0);
        assert(init[i] == residuals[i]);
        assert forall|j: int| i < j < init.len() implies (#[trigger] init[j]).0 != init[i].0 by {
            assert(residuals[j].0 != residuals[i].0);
        }
        later_residual_counts(init, i);
    }
}

/// Nothing is known of a layer for which nothing was given.
pub proof fn other_layers_are_not_known(residuals: Seq<(usize, Matrix)>, layer: usize)
    requires
        forall|j: int| 0 <= j < residuals.len() ==> (#[trigger] residuals[j]).0 != layer,
    ensures
        !by_layer(residuals).contains_key(layer),
    decreases residuals.len(),
{
    if residuals.len() > 0 {
        let init = residuals.drop_last();
        assert(residuals[residuals.len() - 1].0 != layer);
        assert forall|j: int| 0 <= j < init.len() implies (#[trigger] init[j]).0 != layer by {
            assert(residuals[j].0 != layer);
        }
        other_layers_are_not_known(init, layer);
    }
}

/// The highest layer is one of the list and none is higher; it is zero where
/// the list is empty.
pub proof fn highest_layer_is_highest(layers: Seq<usize>)
    ensures
        forall|i: int| 0 <= i < layers.len() ==> #[trigger] layers[i] <= highest_layer(layers),
        layers.len() > 0 ==> layers.contains(highest_layer(layers)),
        layers.len() == 0 ==> highest_layer(layers) == 0,
    decreases layers.len(),
{
    if layers.len() > 0 {
        let init = layers.drop_last();
        highest_layer_is_highest(init);
        assert forall|i: int| 0 <= i < layers.len() implies #[trigger] layers[i] <= highest_layer(
            layers,
        ) by {
            if i < init.len() {
                assert(init[i] == layers[i]);
            }
        }
        if init.len() > 0 && init.contains(highest_layer(init)) {
            let i = choose|i: int| 0 <= i < init.len() && init[i] == highest_layer(init);
            assert(layers[i] == highest_layer(init));
        }
        assert(layers[layers.len() - 1] == layers.last());
    }
}

/// The rows of a residual hold its numbers, row after row: number `j` of row
/// `i` is number `i * hidden_size + j` of the file's, and none is left over.
pub proof fn cached_rows_hold_the_residual(
    cache: ResidualCache,
    template_hash: u64,
    layer: usize,
    i: int,
    j: int,
)
    requires
        cache.hidden_size > 0,
        cached_rows(cache, template_hash, layer) is Some,
        0 <= i < cached_rows(cache, template_hash, layer)->0.len(),
        0 <= j < cache.hidden_size,
    ensures
        ({
            let rows = cached_rows(cache, template_hash, layer)->0;
            let words = lookup(cache.data@, cache.entries@, template_hash, layer);
            &&& words is Some
            &&& rows.len() * cache.hidden_size == words->0.len()
            &&& rows[i].len() == cache.hidden_size
            &&& rows[i][j] == words->0[i * cache.hidden_size + j]
        }),
{
    let rows = cached_rows(cache, template_hash, layer)->0;
    let words = lookup(cache.data@, cache.entries@, template_hash, layer)->0;
    let h = cache.hidden_size as int;
    vstd::arithmetic::div_mod::lemma_fundamental_div_mod(words.len() as int, h);
    assert(rows.len() * h == h * rows.len()) by (nonlinear_arith);
    assert(i * h + h <= rows.len() * h) by (nonlinear_arith)
        requires
            i + 1 <= rows.len(),
            h > 0,
    ;
    assert(0 <= i * h) by (nonlinear_arith)
        requires
            0 <= i,
            0 <= h,
    ;
    assert((i + 1) * h == i * h + h) by (nonlinear_arith);
}

/// Every layer of the list that the model has is run and kept, no other one is
/// kept, and no layer is run behind the last one of the list.
pub proof fn listed_layers_are_kept(layers: Seq<usize>, num_layers: usize, l: usize)
    requires
        num_layers > 0,
        layers.len() > 0,
    ensures
        kept_layers(layers, num_layers).len() <= num_layers,
        l < num_layers && layers.contains(l) ==> l < kept_layers(layers, num_layers).len()
            && kept_layers(layers, num_layers)[l as int],
        l < kept_layers(layers, num_layers).len() && kept_layers(layers, num_layers)[l as int]
            ==> layers.contains(l),
        exists|i: int|
            0 <= i < layers.len() && kept_layers(layers, num_layers).len() <= #[trigger] layers[i]
                + 1,
{
    highest_layer_is_highest(layers);
    if layers.contains(l) {
        let i = choose|i: int| 0 <= i < layers.len() && layers[i] == l;
        assert(layers[i] <= highest_layer(layers));
    }
    let i = choose|i: int| 0 <= i < layers.len() && layers[i] == highest_layer(layers);
    assert(kept_layers(layers, num_layers).len() <= layers[i] + 1);
}

/// A layer takes its known residual exactly where it has one and lies between
/// the first and the last, both of them among these; all others are run.
pub proof fn known_layers_take_their_residual(
    known: Set<usize>,
    num_layers: usize,
    first: usize,
    last: usize,
    l: usize,
)
    requires
        l < num_layers,
    ensures
        adaptive_layers(known, num_layers, first, last).len() == num_layers,
        adaptive_layers(known, num_layers, first, last)[l as int] <==> known.contains(l)
            && !(l < first) && !(last < l),
{
}

/// A stored residual is taken exactly where there is one and it fills whole
/// rows.
pub proof fn which_residuals_are_taken(cache: ResidualCache, template_hash: u64, layer: usize)
    requires
        cache.hidden_size > 0,
    ensures
        cached_rows(cache, template_hash, layer) is Some <==> {
            let words = lookup(cache.data@, cache.entries@, template_hash, layer);
            words is Some && words->0.len() % cache.hidden_size as nat == 0
        },
{
}

} // verus!
