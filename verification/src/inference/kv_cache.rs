//! Keys and values of the positions seen so far.

use vstd::prelude::*;

use crate::inference::matrix::Matrix;

verus! {

/// Keys and values, per layer, one row per position.
pub struct BitnetKvCache {
    pub k: Vec<Matrix>,
    pub v: Vec<Matrix>,
    /// Positions so far.
    pub seq_len: usize,
}

impl BitnetKvCache {
    /// Whether layer `l` holds every position, and the next one too where it
    /// stands before `done`.
    pub open spec fn layer_holds(&self, l: int, done: int) -> bool {
        let n = if l < done {
            self.seq_len + 1
        } else {
            self.seq_len as int
        };
        &&& self.k@[l].well_formed()
        &&& self.v@[l].well_formed()
        &&& self.k@[l]@.len() == n
        &&& self.v@[l]@.len() == n
    }

    /// Whether the layers before `done` hold the next position too, and all
    /// others those before it.
    pub open spec fn in_step(&self, done: int) -> bool {
        &&& self.k@.len() == self.v@.len()
        &&& forall|l: int|
            0 <= l < self.k@.len() ==> #[trigger] self.layer_holds(l, done)
    }

    /// Every layer holds every position.
    pub open spec fn well_formed(&self) -> bool {
        self.in_step(0)
    }

    /// A cache without positions.
    pub fn new(n_layers: usize, n_kv_heads: usize, head_dim: usize) -> (c: Self)
        requires
            n_kv_heads * head_dim <= usize::MAX,
        ensures
            c.well_formed(),
            c.seq_len == 0,
            c.k@.len() == n_layers,
            forall|l: int|
                0 <= l < n_layers ==> (#[trigger] c.k@[l]).cols == n_kv_heads * head_dim
                    && c.v@[l].cols == n_kv_heads * head_dim,
    {
        let width: usize = n_kv_heads * head_dim;
        let mut k: Vec<Matrix> = Vec::new();
        let mut v: Vec<Matrix> = Vec::new();
        let mut l: usize = 0;
        while l < n_layers
            invariant
                l <= n_layers,
                width == n_kv_heads * head_dim,
                k@.len() == l,
                v@.len() == l,
                forall|j: int|
                    0 <= j < l ==> (#[trigger] k@[j]).well_formed() && k@[j]@.len() == 0
                        && k@[j].cols == width && v@[j].well_formed() && v@[j]@.len() == 0
                        && v@[j].cols == width,
            decreases n_layers - l,
        {
            k.push(Matrix::empty(width));
            v.push(Matrix::empty(width));
            l = l + 1;
        }
        let c: BitnetKvCache = BitnetKvCache { k, v, seq_len: 0 };
        assert forall|l: int| 0 <= l < c.k@.len() implies #[trigger] c.layer_holds(l, 0) by {
            assert(c.k@[l].well_formed());
        }
        c
    }

    /// The rows of the new position in layer `layer`, after the layers before
    /// it.
    pub fn push_layer(&mut self, layer: usize, k_row: Vec<u32>, v_row: Vec<u32>)
        requires
            old(self).in_step(layer as int),
            layer < old(self).k@.len(),
            k_row@.len() == old(self).k@[layer as int].cols,
            v_row@.len() == old(self).v@[layer as int].cols,
        ensures
            final(self).in_step(layer + 1),
            pushed(*old(self), *final(self), layer as int, k_row@, v_row@),
    {
        let ghost before = *self;
        assert(before.layer_holds(layer as int, layer as int));
        self.k[layer].push_row(k_row);
        self.v[layer].push_row(v_row);
        assert forall|l: int| 0 <= l < self.k@.len() implies #[trigger] self.layer_holds(
            l,
            layer + 1,
        ) by {
            assert(before.layer_holds(l, layer as int));
        }
    }

    /// Ends a step after its last layer: there is one more position.
    pub fn advance(&mut self)
        requires
            old(self).in_step(old(self).k@.len() as int),
            old(self).seq_len < usize::MAX,
        ensures
            final(self).well_formed(),
            advanced(*old(self), *final(self)),
    {
        let ghost before = *self;
        self.seq_len = self.seq_len + 1;
        assert forall|l: int| 0 <= l < self.k@.len() implies #[trigger] self.layer_holds(l, 0) by {
            assert(before.layer_holds(l, before.k@.len() as int));
        }
    }

    /// A cache that holds the positions of a prompt.
    pub fn prefilled(k: Vec<Matrix>, v: Vec<Matrix>, seq_len: usize) -> (c: Self)
        requires
            k@.len() == v@.len(),
            forall|l: int|
                0 <= l < k@.len() ==> (#[trigger] k@[l]).well_formed() && k@[l]@.len() == seq_len
                    && v@[l].well_formed() && v@[l]@.len() == seq_len,
        ensures
            c.well_formed(),
            c.k == k,
            c.v == v,
            c.seq_len == seq_len,
    {
        let c: BitnetKvCache = BitnetKvCache { k, v, seq_len };
        assert forall|l: int| 0 <= l < c.k@.len() implies #[trigger] c.layer_holds(l, 0) by {
            assert(c.k@[l].well_formed());
        }
        c
    }
}

/// Whether `after` is `before` with one more row of keys and one of values in
/// layer `layer`, and nothing else changed.
pub open spec fn pushed(
    before: BitnetKvCache,
    after: BitnetKvCache,
    layer: int,
    k_row: Seq<u32>,
    v_row: Seq<u32>,
) -> bool {
    &&& after.seq_len == before.seq_len
    &&& after.k@.len() == before.k@.len()
    &&& after.v@.len() == before.v@.len()
    &&& after.k@[layer]@ == before.k@[layer]@.push(k_row)
    &&& after.v@[layer]@ == before.v@[layer]@.push(v_row)
    &&& after.k@[layer].cols == before.k@[layer].cols
    &&& after.v@[layer].cols == before.v@[layer].cols
    &&& after.k@[layer].well_formed()
    &&& after.v@[layer].well_formed()
    &&& forall|l: int|
        0 <= l < before.k@.len() && l != layer ==> #[trigger] after.k@[l] == before.k@[l]
            && after.v@[l] == before.v@[l]
}

/// Whether `after` is `before` with one more position counted.
pub open spec fn advanced(before: BitnetKvCache, after: BitnetKvCache) -> bool {
    after.seq_len == before.seq_len + 1 && after.k == before.k && after.v == before.v
}

/// Whether layer `l` of `after` holds the rows of `before` and then one more
/// of keys and one of values.
pub open spec fn one_row_more(
    before: BitnetKvCache,
    after: BitnetKvCache,
    l: int,
    k_row: Seq<u32>,
    v_row: Seq<u32>,
) -> bool {
    &&& after.k@[l]@ == before.k@[l]@.push(k_row)
    &&& after.v@[l]@ == before.v@[l]@.push(v_row)
    &&& after.k@[l].cols == before.k@[l].cols
    &&& after.v@[l].cols == before.v@[l].cols
    &&& after.k@[l].well_formed()
    &&& after.v@[l].well_formed()
}

/// After the first `done` layers of a step, these have one row more, and the
/// others are as they were.
proof fn step_so_far(
    states: Seq<BitnetKvCache>,
    k_rows: Seq<Seq<u32>>,
    v_rows: Seq<Seq<u32>>,
    done: int,
)
    requires
        0 <= done < states.len(),
        states[0].well_formed(),
        states.len() == states[0].k@.len() + 1,
        forall|l: int|
            0 <= l < states[0].k@.len() ==> pushed(
                #[trigger] states[l],
                states[l + 1],
                l,
                k_rows[l],
                v_rows[l],
            ),
    ensures
        states[done].seq_len == states[0].seq_len,
        states[done].k@.len() == states[0].k@.len(),
        states[done].v@.len() == states[0].k@.len(),
        forall|l: int|
            0 <= l < done ==> #[trigger] one_row_more(
                states[0],
                states[done],
                l,
                k_rows[l],
                v_rows[l],
            ),
        forall|l: int|
            done <= l < states[0].k@.len() ==> #[trigger] states[done].k@[l] == states[0].k@[l]
                && states[done].v@[l] == states[0].v@[l],
    decreases done,
{
    if done > 0 {
        step_so_far(states, k_rows, v_rows, done - 1);
        let before = states[done - 1];
        let after = states[done];
        assert(pushed(before, after, done - 1, k_rows[done - 1], v_rows[done - 1]));
        assert forall|l: int| 0 <= l < done implies #[trigger] one_row_more(
            states[0],
            after,
            l,
            k_rows[l],
            v_rows[l],
        ) by {
            if l < done - 1 {
                assert(one_row_more(states[0], before, l, k_rows[l], v_rows[l]));
                assert(after.k@[l] == before.k@[l]);
            } else {
                assert(before.k@[l] == states[0].k@[l]);
            }
        }
        assert forall|l: int| done <= l < states[0].k@.len() implies #[trigger] after.k@[l]
            == states[0].k@[l] && after.v@[l] == states[0].v@[l] by {
            assert(before.k@[l] == states[0].k@[l]);
        }
    }
}

/// A decode step adds one position and exactly one row of keys and one of
/// values to every layer, behind the rows that were there: `states` are the
/// cache before the step and after each layer's rows, and `after` is the cache
/// when the step has ended.
pub proof fn step_adds_one_position(
    states: Seq<BitnetKvCache>,
    after: BitnetKvCache,
    k_rows: Seq<Seq<u32>>,
    v_rows: Seq<Seq<u32>>,
)
    requires
        states.len() > 0,
        states[0].well_formed(),
        states.len() == states[0].k@.len() + 1,
        forall|l: int|
            0 <= l < states[0].k@.len() ==> pushed(
                #[trigger] states[l],
                states[l + 1],
                l,
                k_rows[l],
                v_rows[l],
            ),
        advanced(states.last(), after),
    ensures
        after.well_formed(),
        after.seq_len == states[0].seq_len + 1,
        after.k@.len() == states[0].k@.len(),
        after.v@.len() == states[0].v@.len(),
        forall|l: int|
            0 <= l < after.k@.len() ==> #[trigger] one_row_more(
                states[0],
                after,
                l,
                k_rows[l],
                v_rows[l],
            ),
{
    let n = states[0].k@.len() as int;
    step_so_far(states, k_rows, v_rows, n);
    assert forall|l: int| 0 <= l < n implies #[trigger] one_row_more(
        states[0],
        after,
        l,
        k_rows[l],
        v_rows[l],
    ) by {
        assert(one_row_more(states[0], states[n], l, k_rows[l], v_rows[l]));
    }
    assert forall|l: int| 0 <= l < n implies #[trigger] after.layer_holds(l, 0) by {
        assert(one_row_more(states[0], after, l, k_rows[l], v_rows[l]));
        assert(states[0].layer_holds(l, 0));
    }
}

/// Keys go to the keys of their layer and values to its values, each behind
/// those of earlier positions, and counting a position changes neither.
pub proof fn rows_go_to_their_layer(
    before: BitnetKvCache,
    between: BitnetKvCache,
    after: BitnetKvCache,
    layer: int,
    k_row: Seq<u32>,
    v_row: Seq<u32>,
    other: int,
)
    requires
        pushed(before, between, layer, k_row, v_row),
        advanced(between, after),
        0 <= layer < before.k@.len(),
        0 <= other < before.k@.len(),
        other != layer,
    ensures
        after.seq_len == before.seq_len + 1,
        after.k@[layer]@.len() == before.k@[layer]@.len() + 1,
        after.k@[layer]@.drop_last() == before.k@[layer]@,
        after.k@[layer]@.last() == k_row,
        after.v@[layer]@.len() == before.v@[layer]@.len() + 1,
        after.v@[layer]@.drop_last() == before.v@[layer]@,
        after.v@[layer]@.last() == v_row,
        after.k@[other] == before.k@[other],
        after.v@[other] == before.v@[other],
{
    assert(between.k@[other] == before.k@[other]);
    assert(before.k@[layer]@.push(k_row).drop_last() =~= before.k@[layer]@);
    assert(before.v@[layer]@.push(v_row).drop_last() =~= before.v@[layer]@);
}

/// After a step the last row of keys of a layer is the one that came for it,
/// and so is that of values; the rows before are those of earlier positions.
pub proof fn step_rows_are_found(
    before: BitnetKvCache,
    after: BitnetKvCache,
    l: int,
    k_row: Seq<u32>,
    v_row: Seq<u32>,
)
    requires
        one_row_more(before, after, l, k_row, v_row),
    ensures
        after.k@[l]@.last() == k_row && after.k@[l]@.drop_last() == before.k@[l]@,
        after.v@[l]@.last() == v_row && after.v@[l]@.drop_last() == before.v@[l]@,
{
    assert(before.k@[l]@.push(k_row).drop_last() =~= before.k@[l]@);
    assert(before.v@[l]@.push(v_row).drop_last() =~= before.v@[l]@);
}

} // verus!
