//! Residuals instead of keys and values.
//!
//! For every layer the rows that went into it are kept, one per position; keys
//! and values are worked out from them again. The newest rows are hot; those
//! that a window has no room for are cold, and the keys and values of cold
//! rows may be kept ready.

use vstd::prelude::*;

use crate::client::join::reversed;
use crate::inference::matrix::Matrix;

verus! {

/// Keys and values of the cold rows of a layer.
pub struct ColdKv {
    pub k: Matrix,
    pub v: Matrix,
}

/// The residuals of a sequence.
pub struct RsStore {
    /// Hot rows, per layer.
    pub stored: Vec<Matrix>,
    /// Cold rows, per layer.
    pub cold_residuals: Option<Vec<Matrix>>,
    /// Keys and values of the cold rows, per layer, where they are ready.
    pub cold_kv: Option<Vec<ColdKv>>,
    /// Position of the first cold row.
    pub cold_abs_start: usize,
    /// Position of the next token.
    pub next_position: usize,
    /// Hot rows that are kept; `None` for all.
    pub max_window: Option<usize>,
}

/// How many of `rows` rows a window has no room for.
pub open spec fn overflow(rows: nat, max_window: Option<usize>) -> nat {
    match max_window {
        Some(w) => if rows > w {
            (rows - w) as nat
        } else {
            0
        },
        None => 0,
    }
}

impl RsStore {
    /// The cold rows of a layer.
    pub open spec fn cold(&self, layer: int) -> Seq<Seq<u32>> {
        match self.cold_residuals {
            Some(c) => c@[layer]@,
            None => seq![],
        }
    }

    /// The hot rows of a layer.
    pub open spec fn hot(&self, layer: int) -> Seq<Seq<u32>> {
        self.stored@[layer]@
    }

    /// Every row that ever went into a layer.
    pub open spec fn history(&self, layer: int) -> Seq<Seq<u32>> {
        self.cold(layer) + self.hot(layer)
    }

    /// Every layer has one row per position, as many of them cold as the
    /// window has no room for, so that without a window all are hot; cold rows
    /// begin at position 0; and where keys and values are ready, they are so
    /// for every cold row of every layer.
    pub open spec fn well_formed(&self) -> bool {
        &&& self.cold_abs_start == 0
        &&& forall|l: int|
            0 <= l < self.stored@.len() ==> (#[trigger] self.stored@[l]).well_formed()
        &&& self.cold_residuals matches Some(c) ==> c@.len() == self.stored@.len() && forall|l: int|
            0 <= l < c@.len() ==> (#[trigger] c@[l]).well_formed() && c@[l].cols
                == self.stored@[l].cols
        &&& forall|l: int|
            0 <= l < self.stored@.len() ==> #[trigger] self.history(l).len() == self.next_position
        &&& forall|l: int|
            0 <= l < self.stored@.len() ==> #[trigger] self.cold(l).len() == self.cold(0).len()
        &&& forall|l: int|
            0 <= l < self.stored@.len() ==> #[trigger] self.hot(l).len() + overflow(
                self.next_position as nat,
                self.max_window,
            ) == self.next_position
        &&& self.cold_kv matches Some(kv) ==> kv@.len() == self.stored@.len() && forall|l: int|
            0 <= l < kv@.len() ==> #[trigger] self.is_ready(l, kv@[l])
    }

    /// Whether these are keys and values of all cold rows of a layer.
    pub open spec fn is_ready(&self, layer: int, kv: ColdKv) -> bool {
        &&& kv.k.well_formed()
        &&& kv.v.well_formed()
        &&& kv.k@.len() == self.cold(layer).len()
        &&& kv.v@.len() == self.cold(layer).len()
    }

    /// Moves the rows of a layer that the window has no room for to the end
    /// of `moved`.
    pub fn clip_layer(&mut self, layer: usize, moved: &mut Vec<Matrix>)
        requires
            layer < old(self).stored@.len(),
            old(self).stored@[layer as int].well_formed(),
        ensures
            final(moved)@.len() == old(moved)@.len() + 1,
            final(moved)@.take(old(moved)@.len() as int) == old(moved)@,
            ({
                let n = overflow(old(self).hot(layer as int).len(), old(self).max_window) as int;
                let rows = old(self).hot(layer as int);
                &&& final(moved)@.last()@ == rows.take(n)
                &&& final(moved)@.last().well_formed()
                &&& final(moved)@.last().cols == old(self).stored@[layer as int].cols
                &&& final(self).stored@[layer as int]@ == rows.skip(n)
                &&& final(self).stored@[layer as int].well_formed()
                &&& final(self).stored@[layer as int].cols == old(self).stored@[layer as int].cols
            }),
            final(self).stored@ == old(self).stored@.update(
                layer as int,
                final(self).stored@[layer as int],
            ),
            final(self).cold_residuals == old(self).cold_residuals,
            final(self).cold_kv == old(self).cold_kv,
            final(self).cold_abs_start == old(self).cold_abs_start,
            final(self).next_position == old(self).next_position,
            final(self).max_window == old(self).max_window,
    {
        let rows: usize = self.stored[layer].num_rows();
        let n: usize = match self.max_window {
            Some(w) => if rows > w {
                rows - w
            } else {
                0
            },
            None => 0,
        };
        let ghost before = self.stored@;
        let ghost moved_before = moved@;
        let mut m: Matrix = Matrix::empty(self.stored[layer].cols);
        std::mem::swap(&mut m, &mut self.stored[layer]);
        let front: Matrix = m.split_front(n);
        self.stored.set(layer, m);
        moved.push(front);
        assert(moved@.take(moved_before.len() as int) =~= moved_before);
        assert(self.stored@ =~= before.update(layer as int, self.stored@[layer as int]));
    }

    /// Moves the rows that the window has no room for out of every layer.
    fn clip(&mut self) -> (moved: Vec<Matrix>)
        requires
            forall|l: int|
                0 <= l < old(self).stored@.len() ==> (
                #[trigger] old(self).stored@[l]).well_formed(),
        ensures
            moved@.len() == old(self).stored@.len(),
            final(self).stored@.len() == old(self).stored@.len(),
            forall|l: int|
                0 <= l < old(self).stored@.len() ==> clipped(
                    old(self).stored@[l],
                    #[trigger] final(self).stored@[l],
                    #[trigger] moved@[l],
                    old(self).max_window,
                ),
            final(self).cold_residuals == old(self).cold_residuals,
            final(self).cold_kv == old(self).cold_kv,
            final(self).cold_abs_start == old(self).cold_abs_start,
            final(self).next_position == old(self).next_position,
            final(self).max_window == old(self).max_window,
    {
        let mut moved: Vec<Matrix> = Vec::new();
        let ghost before = self.stored@;
        let mut layer: usize = 0;
        while layer < self.stored.len()
            invariant
                layer <= self.stored@.len(),
                self.stored@.len() == before.len(),
                before == old(self).stored@,
                moved@.len() == layer,
                forall|l: int| 0 <= l < before.len() ==> (#[trigger] before[l]).well_formed(),
                forall|l: int|
                    0 <= l < layer ==> clipped(
                        before[l],
                        #[trigger] self.stored@[l],
                        #[trigger] moved@[l],
                        self.max_window,
                    ),
                forall|l: int| layer <= l < before.len() ==> #[trigger] self.stored@[l] == before[l],
                self.cold_residuals == old(self).cold_residuals,
                self.cold_kv == old(self).cold_kv,
                self.cold_abs_start == old(self).cold_abs_start,
                self.next_position == old(self).next_position,
                self.max_window == old(self).max_window,
            decreases before.len() - layer,
        {
            let ghost now = self.stored@;
            let ghost moved_before = moved@;
            assert(self.stored@[layer as int] == before[layer as int]);
            self.clip_layer(layer, &mut moved);
            proof {
                assert forall|l: int| 0 <= l < layer + 1 implies clipped(
                    before[l],
                    #[trigger] self.stored@[l],
                    #[trigger] moved@[l],
                    self.max_window,
                ) by {
                    if l < layer {
                        assert(self.stored@[l] == now[l]);
                        assert(moved@.take(moved_before.len() as int)[l] == moved_before[l]);
                        assert(moved@[l] == moved_before[l]);
                    }
                }
            }
            layer = layer + 1;
        }
        moved
    }

    /// The store of a sequence whose rows, per layer, were just worked out.
    pub fn prefilled(stored: Vec<Matrix>, seq_len: usize, max_window: Option<usize>) -> (s: Self)
        requires
            forall|l: int|
                0 <= l < stored@.len() ==> (#[trigger] stored@[l]).well_formed()
                    && stored@[l]@.len() == seq_len,
        ensures
            s.well_formed(),
            s.stored@.len() == stored@.len(),
            s.next_position == seq_len,
            s.max_window == max_window,
            s.cold_kv is None,
            s.cold_residuals is Some <==> stored@.len() > 0 && overflow(
                seq_len as nat,
                max_window,
            ) > 0,
            forall|l: int|
                0 <= l < stored@.len() ==> #[trigger] s.history(l) == stored@[l]@ && s.cold(
                    l,
                ).len() == overflow(seq_len as nat, max_window) && s.stored@[l].cols
                    == stored@[l].cols,
    {
        let ghost all = stored@;
        let mut s: RsStore = RsStore {
            stored,
            cold_residuals: None,
            cold_kv: None,
            cold_abs_start: 0,
            next_position: seq_len,
            max_window,
        };
        let cold: Vec<Matrix> = s.clip();
        let ghost n = overflow(seq_len as nat, max_window) as int;
        proof {
            assert forall|l: int| 0 <= l < all.len() implies (#[trigger] s.stored@[l])@ == all[l]@.skip(
                n,
            ) && s.stored@[l].well_formed() && s.stored@[l].cols == all[l].cols && cold@[l]@
                == all[l]@.take(n) && cold@[l].well_formed() && cold@[l].cols == all[l].cols by {
                assert(clipped(all[l], s.stored@[l], cold@[l], max_window));
            }
            assert forall|l: int| 0 <= l < all.len() implies (#[trigger] cold@[l]).well_formed()
                && cold@[l].cols == s.stored@[l].cols && cold@[l]@ == all[l]@.take(n) by {
                assert(s.stored@[l]@ == all[l]@.skip(n));
            }
        }
        let ghost left = cold@;
        if cold.len() > 0 && cold[0].num_rows() > 0 {
            s.cold_residuals = Some(cold);
        }
        proof {
            assert forall|l: int| 0 <= l < all.len() implies #[trigger] s.history(l) == all[l]@
                && s.cold(l).len() == n by {
                assert(s.stored@[l]@ == all[l]@.skip(n));
                assert(left[0]@ == all[0]@.take(n));
                assert(left[l]@ == all[l]@.take(n));
                assert(all[l]@.take(n) + all[l]@.skip(n) =~= all[l]@);
                if n == 0 {
                    assert(all[l]@.skip(0) =~= all[l]@);
                    assert(s.history(l) =~= all[l]@);
                }
            }
            assert forall|l: int| 0 <= l < all.len() implies #[trigger] s.cold(l).len() == s.cold(
                0,
            ).len() by {
                assert(s.history(l) == all[l]@);
                assert(s.history(0) == all[0]@);
            }
            assert forall|l: int| 0 <= l < all.len() implies #[trigger] s.history(l).len()
                == s.next_position by {
                assert(all[l]@.len() == seq_len);
            }
            assert forall|l: int| 0 <= l < all.len() implies #[trigger] s.hot(l).len() + n
                == s.next_position by {
                assert(s.stored@[l]@ == all[l]@.skip(n));
                assert(all[l]@.len() == seq_len);
            }
        }
        s
    }

    /// Keeps the keys and values of the cold rows ready.
    pub fn set_cold_kv(&mut self, kv: Vec<ColdKv>)
        requires
            old(self).well_formed(),
            kv@.len() == old(self).stored@.len(),
            forall|l: int| 0 <= l < kv@.len() ==> #[trigger] old(self).is_ready(l, kv@[l]),
        ensures
            final(self).well_formed(),
            final(self).cold_kv == Some(kv),
            final(self).stored == old(self).stored,
            final(self).cold_residuals == old(self).cold_residuals,
            final(self).next_position == old(self).next_position,
            final(self).max_window == old(self).max_window,
    {
        let ghost before = *self;
        self.cold_kv = Some(kv);
        proof {
            assert forall|l: int| 0 <= l < self.stored@.len() implies #[trigger] self.history(
                l,
            ).len() == self.next_position by {
                assert(self.history(l) == before.history(l));
            }
            assert forall|l: int| 0 <= l < self.stored@.len() implies #[trigger] self.cold(l).len()
                == self.cold(0).len() by {
                assert(self.cold(l) == before.cold(l) && self.cold(0) == before.cold(0));
            }
            assert forall|l: int| 0 <= l < self.stored@.len() implies #[trigger] self.hot(l).len()
                + overflow(self.next_position as nat, self.max_window) == self.next_position by {
                assert(self.hot(l) == before.hot(l));
            }
            assert forall|l: int| 0 <= l < kv@.len() implies #[trigger] self.is_ready(
                l,
                kv@[l],
            ) by {
                assert(before.is_ready(l, kv@[l]));
                assert(self.cold(l) == before.cold(l));
            }
        }
    }

    /// Adds the rows of a new position, one per layer. Rows that the window
    /// has no room for any more become cold, and the keys and values that
    /// were ready are then no longer.
    pub fn append(self, new_rows: Vec<Vec<u32>>) -> (s: Self)
        requires
            self.well_formed(),
            self.next_position < usize::MAX,
            new_rows@.len() == self.stored@.len(),
            forall|l: int|
                0 <= l < new_rows@.len() ==> (#[trigger] new_rows@[l])@.len()
                    == self.stored@[l].cols,
        ensures
            s.well_formed(),
            appended(self, s, new_rows@),
            s.cold_kv == (if self.stored@.len() > 0 && overflow(
                self.hot(0).len() + 1,
                self.max_window,
            ) > 0 {
                None
            } else {
                self.cold_kv
            }),
    {
        let ghost before = self;
        let ghost rows = new_rows@;
        let n_layers: usize = self.stored.len();
        let mut s: RsStore = RsStore {
            stored: grown(self.stored, new_rows),
            cold_residuals: None,
            cold_kv: self.cold_kv,
            cold_abs_start: self.cold_abs_start,
            next_position: self.next_position + 1,
            max_window: self.max_window,
        };
        let ghost full = s.stored@;
        let mut moved: Vec<Matrix> = s.clip();
        proof {
            assert forall|l: int| 0 <= l < full.len() implies #[trigger] full[l]@.len()
                == before.hot(0).len() + 1 by {
                same_hot_rows(before, l);
            }
            assert forall|l: int| 0 <= l < full.len() implies clipped(
                full[l],
                #[trigger] s.stored@[l],
                #[trigger] moved@[l],
                before.max_window,
            ) by {}
        }
        let ghost left = moved@;
        let ghost n = overflow(before.hot(0).len() + 1, before.max_window) as int;
        let some_move: bool = moved.len() > 0 && moved[0].num_rows() > 0;
        proof {
            assert forall|l: int| 0 <= l < left.len() implies (#[trigger] left[l]).well_formed()
                && left[l].cols == before.stored@[l].cols && s.stored@[l].cols
                == before.stored@[l].cols && s.stored@[l].well_formed() by {
                assert(clipped(full[l], s.stored@[l], left[l], before.max_window));
            }
            assert forall|l: int| 0 <= l < full.len() implies (
            #[trigger] s.stored@[l]).well_formed() && s.stored@[l].cols
                == before.stored@[l].cols by {
                assert(left[l].cols == before.stored@[l].cols);
            }
            if full.len() > 0 {
                assert(clipped(full[0], s.stored@[0], left[0], before.max_window));
                assert(some_move == (n > 0));
            }
        }
        match self.cold_residuals {
            Some(cold) => {
                if some_move {
                    assert forall|l: int| 0 <= l < cold@.len() implies (
                    #[trigger] cold@[l]).well_formed() && moved@[l].well_formed()
                        && moved@[l].cols == cold@[l].cols by {
                        assert(left[l].cols == before.stored@[l].cols);
                    }
                    s.cold_residuals = Some(joined(cold, moved));
                } else {
                    s.cold_residuals = Some(cold);
                }
            },
            None => {
                if some_move {
                    s.cold_residuals = Some(moved);
                }
            },
        }
        if some_move {
            s.cold_kv = None;
        }
        proof {
            assert forall|l: int| 0 <= l < full.len() implies #[trigger] s.history(l)
                == before.history(l).push(rows[l]@) && s.stored@[l].cols == before.stored@[l].cols
                && s.cold(l).len() == before.cold(l).len() + n && s.hot(l).len() == before.hot(
                l,
            ).len() + 1 - n by {
                assert(clipped(full[l], s.stored@[l], left[l], before.max_window));
                assert(clipped(full[0], s.stored@[0], left[0], before.max_window));
                same_hot_rows(before, l);
                assert(full[l]@ == before.hot(l).push(rows[l]@));
                let f = full[l]@;
                assert(f.take(n) + f.skip(n) =~= f);
                if n == 0 {
                    assert(f.skip(0) =~= f);
                }
                assert(s.history(l) =~= before.history(l).push(rows[l]@));
            }
            assert forall|l: int| 0 <= l < s.stored@.len() implies #[trigger] s.history(l).len()
                == s.next_position by {
                assert(before.history(l).len() == before.next_position);
            }
            assert forall|l: int| 0 <= l < s.stored@.len() implies #[trigger] s.cold(l).len()
                == s.cold(0).len() by {
                assert(s.history(l) == before.history(l).push(rows[l]@));
                assert(s.history(0) == before.history(0).push(rows[0]@));
                assert(before.cold(l).len() == before.cold(0).len());
            }
            assert forall|l: int| 0 <= l < s.stored@.len() implies #[trigger] s.cold(l).len()
                == before.cold(l).len() + overflow(before.hot(l).len() + 1, before.max_window) by {
                assert(s.history(l) == before.history(l).push(rows[l]@));
                same_hot_rows(before, l);
            }
            assert forall|l: int| 0 <= l < s.stored@.len() implies #[trigger] s.hot(l).len()
                + overflow(s.next_position as nat, s.max_window) == s.next_position by {
                assert(s.history(l) == before.history(l).push(rows[l]@));
                assert(before.hot(l).len() + overflow(
                    before.next_position as nat,
                    before.max_window,
                ) == before.next_position);
                same_hot_rows(before, l);
            }
            if s.cold_kv is Some {
                let kv = s.cold_kv->0;
                assert forall|l: int| 0 <= l < kv@.len() implies #[trigger] s.is_ready(
                    l,
                    kv@[l],
                ) by {
                    assert(before.is_ready(l, kv@[l]));
                    assert(s.history(l) == before.history(l).push(rows[l]@));
                }
            }
        }
        s
    }
}

/// Whether `after` is `before` with the rows of one more position, one per
/// layer, of which those that the window has no room for are cold.
pub open spec fn appended(before: RsStore, after: RsStore, rows: Seq<Vec<u32>>) -> bool {
    &&& after.stored@.len() == before.stored@.len()
    &&& after.next_position == before.next_position + 1
    &&& after.max_window == before.max_window
    &&& forall|l: int|
        0 <= l < after.stored@.len() ==> #[trigger] after.history(l) == before.history(l).push(
            rows[l]@,
        ) && after.stored@[l].cols == before.stored@[l].cols
    &&& forall|l: int|
        0 <= l < after.stored@.len() ==> #[trigger] after.cold(l).len() == before.cold(l).len()
            + overflow(before.hot(l).len() + 1, before.max_window)
}

/// However many steps are decoded, no row is lost or repeated: each layer
/// holds the rows that it began with and then one per step, in order, hot and
/// cold rows together are one per position, and no more are hot than the
/// window has room for. `states` are the store before the first step and after
/// each, and `rows` what each step added.
pub proof fn decoding_keeps_every_row(
    states: Seq<RsStore>,
    rows: Seq<Seq<Vec<u32>>>,
    layer: int,
)
    requires
        states.len() == rows.len() + 1,
        forall|t: int| 0 <= t < states.len() ==> (#[trigger] states[t]).well_formed(),
        forall|t: int|
            0 <= t < rows.len() ==> appended(states[t], states[t + 1], #[trigger] rows[t]),
        0 <= layer < states[0].stored@.len(),
    ensures
        states.last().stored@.len() == states[0].stored@.len(),
        states.last().next_position == states[0].next_position + rows.len(),
        states.last().max_window == states[0].max_window,
        states.last().history(layer) == states[0].history(layer) + Seq::new(
            rows.len(),
            |t: int| rows[t][layer]@,
        ),
        states.last().hot(layer).len() + states.last().cold(layer).len()
            == states.last().next_position,
        states[0].max_window matches Some(w) ==> states.last().hot(layer).len() <= w,
        states[0].max_window is None ==> states.last().cold(layer).len() == 0,
    decreases rows.len(),
{
    let last = states.last();
    let added = Seq::new(rows.len(), |t: int| rows[t][layer]@);
    assert(last.well_formed());
    if rows.len() == 0 {
        assert(states[0].history(layer) + added =~= states[0].history(layer));
    } else {
        let n = rows.len() - 1;
        let init = states.drop_last();
        let init_rows = rows.drop_last();
        assert forall|t: int| 0 <= t < init.len() implies (#[trigger] init[t]).well_formed() by {
            assert(states[t].well_formed());
        }
        assert forall|t: int| 0 <= t < init_rows.len() implies appended(
            init[t],
            init[t + 1],
            #[trigger] init_rows[t],
        ) by {
            assert(appended(states[t], states[t + 1], rows[t]));
        }
        decoding_keeps_every_row(init, init_rows, layer);
        assert(appended(states[n], states[n + 1], rows[n]));
        assert(last.history(layer) == states[n].history(layer).push(rows[n][layer]@));
        assert(last.history(layer) =~= states[0].history(layer) + added);
    }
    assert(last.history(layer).len() == last.next_position);
    assert(last.hot(layer).len() + overflow(last.next_position as nat, last.max_window)
        == last.next_position);
}

/// Whether clipping `before` to a window leaves `kept` and moves `moved` out.
pub open spec fn clipped(
    before: Matrix,
    kept: Matrix,
    moved: Matrix,
    max_window: Option<usize>,
) -> bool {
    let n = overflow(before@.len(), max_window) as int;
    &&& kept@ == before@.skip(n)
    &&& moved@ == before@.take(n)
    &&& kept.well_formed()
    &&& moved.well_formed()
    &&& kept.cols == before.cols
    &&& moved.cols == before.cols
}

/// Every layer has as many hot rows as the first.
proof fn same_hot_rows(s: RsStore, l: int)
    requires
        s.well_formed(),
        0 <= l < s.stored@.len(),
    ensures
        s.hot(l).len() == s.hot(0).len(),
        s.hot(l).len() + s.cold(l).len() == s.next_position,
{
    assert(s.history(l).len() == s.next_position);
    assert(s.history(0).len() == s.next_position);
    assert(s.cold(l).len() == s.cold(0).len());
}

/// Appends one row to each matrix.
fn grown(stored: Vec<Matrix>, new_rows: Vec<Vec<u32>>) -> (out: Vec<Matrix>)
    requires
        new_rows@.len() == stored@.len(),
        forall|l: int|
            0 <= l < stored@.len() ==> (#[trigger] stored@[l]).well_formed() && new_rows@[l]@.len()
                == stored@[l].cols,
    ensures
        out@.len() == stored@.len(),
        forall|l: int|
            0 <= l < out@.len() ==> (#[trigger] out@[l]).well_formed() && out@[l].cols
                == stored@[l].cols && out@[l]@ == stored@[l]@.push(new_rows@[l]@),
{
    let ghost all = stored@;
    let ghost rows = new_rows@;
    let mut rest: Vec<Matrix> = stored;
    let mut rest_rows: Vec<Vec<u32>> = new_rows;
    let mut back: Vec<Matrix> = Vec::new();
    while rest.len() > 0
        invariant
            rest@.len() <= all.len(),
            rows.len() == all.len(),
            rest@ == all.take(rest@.len() as int),
            rest_rows@ == rows.take(rest@.len() as int),
            forall|l: int|
                0 <= l < all.len() ==> (#[trigger] all[l]).well_formed() && rows[l]@.len()
                    == all[l].cols,
            back@.len() == all.len() - rest@.len(),
            forall|k: int|
                0 <= k < back@.len() ==> (#[trigger] back@[k]).well_formed() && back@[k].cols
                    == all[all.len() - 1 - k].cols && back@[k]@ == all[all.len() - 1 - k]@.push(
                    rows[all.len() - 1 - k]@,
                ),
        decreases rest@.len(),
    {
        let ghost n = rest@.len() as int;
        if let (Some(mut m), Some(row)) = (rest.pop(), rest_rows.pop()) {
            assert(m == all[n - 1]);
            assert(row == rows[n - 1]);
            m.push_row(row);
            back.push(m);
            assert(rest@ =~= all.take(n - 1));
            assert(rest_rows@ =~= rows.take(n - 1));
        }
    }
    let out: Vec<Matrix> = reversed(back);
    assert forall|l: int| 0 <= l < out@.len() implies (#[trigger] out@[l]).well_formed()
        && out@[l].cols == all[l].cols && out@[l]@ == all[l]@.push(rows[l]@) by {
        assert(out@[l] == back@[back@.len() - 1 - l]);
    }
    out
}

/// Appends the rows of each matrix of `more` to that of `cold`.
fn joined(cold: Vec<Matrix>, more: Vec<Matrix>) -> (out: Vec<Matrix>)
    requires
        cold@.len() == more@.len(),
        forall|l: int|
            0 <= l < cold@.len() ==> (#[trigger] cold@[l]).well_formed() && more@[l].well_formed()
                && more@[l].cols == cold@[l].cols,
    ensures
        out@.len() == cold@.len(),
        forall|l: int|
            0 <= l < out@.len() ==> (#[trigger] out@[l]).well_formed() && out@[l].cols
                == cold@[l].cols && out@[l]@ == cold@[l]@ + more@[l]@,
{
    let ghost all = cold@;
    let ghost extra = more@;
    assert forall|l: int| 0 <= l < all.len() implies (#[trigger] all[l]).well_formed()
        && extra[l].well_formed() && extra[l].cols == all[l].cols by {
        assert(cold@[l] == all[l] && more@[l] == extra[l]);
    }
    let mut rest: Vec<Matrix> = cold;
    let mut rest_more: Vec<Matrix> = more;
    let mut back: Vec<Matrix> = Vec::new();
    while rest.len() > 0
        invariant
            rest@.len() <= all.len(),
            extra.len() == all.len(),
            rest@ == all.take(rest@.len() as int),
            rest_more@ == extra.take(rest@.len() as int),
            forall|l: int|
                0 <= l < all.len() ==> (#[trigger] all[l]).well_formed() && extra[l].well_formed()
                    && extra[l].cols == all[l].cols,
            back@.len() == all.len() - rest@.len(),
            forall|k: int|
                0 <= k < back@.len() ==> (#[trigger] back@[k]).well_formed() && back@[k].cols
                    == all[all.len() - 1 - k].cols && back@[k]@ == all[all.len() - 1 - k]@
                    + extra[all.len() - 1 - k]@,
        decreases rest@.len(),
    {
        let ghost n = rest@.len() as int;
        if let (Some(mut m), Some(e)) = (rest.pop(), rest_more.pop()) {
            assert(m == all[n - 1]);
            assert(e == extra[n - 1]);
            m.append(e);
            back.push(m);
            assert(rest@ =~= all.take(n - 1));
            assert(rest_more@ =~= extra.take(n - 1));
        }
    }
    let out: Vec<Matrix> = reversed(back);
    assert forall|l: int| 0 <= l < out@.len() implies (#[trigger] out@[l]).well_formed()
        && out@[l].cols == all[l].cols && out@[l]@ == all[l]@ + extra[l]@ by {
        assert(out@[l] == back@[back@.len() - 1 - l]);
    }
    out
}

/// From which rows the keys and values of a layer are worked out.
#[derive(Debug, Clone, Copy, PartialEq, Eq, Structural)]
pub enum KvPlan {
    /// From the hot rows, which begin at this position; those of the cold
    /// rows are ready and come before them.
    AfterReady { hot_start: usize },
    /// From the cold rows and then the hot ones; the first cold row is at
    /// this position.
    ColdAndHot { start: usize },
    /// From the hot rows, which begin at this position.
    HotOnly { hot_start: usize },
}

impl RsStore {
    /// From which rows the keys and values of a layer are worked out.
    pub fn kv_plan(&self, layer: usize) -> (p: KvPlan)
        requires
            self.well_formed(),
            layer < self.stored@.len(),
        ensures
            p == (if self.cold_kv is Some {
                KvPlan::AfterReady { hot_start: self.cold(layer as int).len() as usize }
            } else if self.cold(layer as int).len() > 0 {
                KvPlan::ColdAndHot { start: 0 }
            } else {
                KvPlan::HotOnly { hot_start: 0 }
            }),
            self.cold(layer as int).len() <= usize::MAX,
    {
        proof {
            same_hot_rows(*self, layer as int);
        }
        let hot: usize = self.stored[layer].num_rows();
        let hot_start: usize = self.next_position - hot;
        if self.cold_kv.is_some() {
            return KvPlan::AfterReady { hot_start };
        }
        match &self.cold_residuals {
            Some(cold) => if cold[layer].num_rows() > 0 {
                KvPlan::ColdAndHot { start: self.cold_abs_start }
            } else {
                KvPlan::HotOnly { hot_start }
            },
            None => KvPlan::HotOnly { hot_start },
        }
    }

    /// The rows that the keys and values of a layer are worked out from, and
    /// the position of the first of them.
    pub open spec fn rows_to_use(&self, layer: int) -> (Seq<Seq<u32>>, int) {
        if self.cold_kv is Some {
            (self.hot(layer), self.cold(layer).len() as int)
        } else {
            (self.history(layer), 0)
        }
    }

    /// Keys of every position of a layer, from those of the rows that were
    /// used.
    pub open spec fn all_keys(&self, layer: int, k: Seq<Seq<u32>>) -> Seq<Seq<u32>> {
        match self.cold_kv {
            Some(kv) => kv@[layer].k@ + k,
            None => k,
        }
    }

    /// Values of every position of a layer, from those of the rows that were
    /// used.
    pub open spec fn all_values(&self, layer: int, v: Seq<Seq<u32>>) -> Seq<Seq<u32>> {
        match self.cold_kv {
            Some(kv) => kv@[layer].v@ + v,
            None => v,
        }
    }

    /// The rows that the keys and values of a layer are worked out from, and
    /// the position of the first of them.
    pub fn kv_input(&self, layer: usize) -> (r: (Matrix, usize))
        requires
            self.well_formed(),
            layer < self.stored@.len(),
        ensures
            r.0.well_formed(),
            r.0.cols == self.stored@[layer as int].cols,
            self.cold_kv is Some ==> r.0@ == self.hot(layer as int) && r.1 == self.cold(
                layer as int,
            ).len(),
            self.cold_kv is None ==> r.0@ == self.history(layer as int) && r.1 == 0,
            (r.0@, r.1 as int) == self.rows_to_use(layer as int),
    {
        match self.kv_plan(layer) {
            KvPlan::AfterReady { hot_start } => (self.stored[layer].copied(), hot_start),
            KvPlan::HotOnly { hot_start } => {
                assert(self.history(layer as int) =~= self.hot(layer as int));
                (self.stored[layer].copied(), hot_start)
            },
            KvPlan::ColdAndHot { start } => match &self.cold_residuals {
                Some(cold) => {
                    let mut all: Matrix = cold[layer].copied();
                    all.append(self.stored[layer].copied());
                    (all, start)
                },
                None => (self.stored[layer].copied(), start),
            },
        }
    }

    /// The keys and values of every position of a layer, from those that were
    /// worked out: where those of the cold rows are ready, they come first.
    pub fn full_kv(&self, layer: usize, k: Matrix, v: Matrix) -> (r: (Matrix, Matrix))
        requires
            self.well_formed(),
            layer < self.stored@.len(),
            k.well_formed(),
            v.well_formed(),
            self.cold_kv matches Some(kv) ==> kv@[layer as int].k.cols == k.cols
                && kv@[layer as int].v.cols == v.cols,
        ensures
            r.0.well_formed(),
            r.1.well_formed(),
            r.0.cols == k.cols,
            r.1.cols == v.cols,
            r.0@ == (match self.cold_kv {
                Some(kv) => kv@[layer as int].k@ + k@,
                None => k@,
            }),
            r.1@ == (match self.cold_kv {
                Some(kv) => kv@[layer as int].v@ + v@,
                None => v@,
            }),
            r.0@ == self.all_keys(layer as int, k@),
            r.1@ == self.all_values(layer as int, v@),
    {
        match &self.cold_kv {
            Some(kv) => {
                assert(self.is_ready(layer as int, kv@[layer as int]));
                let mut all_k: Matrix = kv[layer].k.copied();
                let mut all_v: Matrix = kv[layer].v.copied();
                all_k.append(k);
                all_v.append(v);
                (all_k, all_v)
            },
            None => (k, v),
        }
    }

    /// Hot rows per layer.
    pub fn window_tokens(&self) -> (n: usize)
        ensures
            n == (if self.stored@.len() == 0 {
                0
            } else {
                self.hot(0).len()
            }),
    {
        if self.stored.len() == 0 {
            0
        } else {
            self.stored[0].num_rows()
        }
    }
}

/// Every row that is used stands for its own position: row `i` of what a plan
/// names is the row of position `start + i`, and with the rows whose keys and
/// values are ready none is left out.
pub proof fn rows_at_their_positions(s: RsStore, layer: int)
    requires
        s.well_formed(),
        0 <= layer < s.stored@.len(),
    ensures
        s.cold_kv matches Some(kv) ==> kv@[layer].k@.len() + s.hot(layer).len()
            == s.next_position && kv@[layer].v@.len() + s.hot(layer).len() == s.next_position,
        s.cold_kv is None ==> s.history(layer).len() == s.next_position,
        forall|i: int|
            0 <= i < s.hot(layer).len() ==> #[trigger] s.hot(layer)[i] == s.history(
                layer,
            )[s.cold(layer).len() + i],
        forall|i: int|
            0 <= i < s.cold(layer).len() ==> #[trigger] s.cold(layer)[i] == s.history(layer)[i],
        s.cold(layer).len() + s.hot(layer).len() == s.next_position,
{
    same_hot_rows(s, layer);
    if let Some(kv) = s.cold_kv {
        assert(s.is_ready(layer, kv@[layer]));
    }
}

/// Bytes of the numbers of a matrix.
pub open spec fn matrix_bytes(m: Matrix) -> nat {
    m.rows@.len() * m.cols as nat * 4
}

/// Bytes of the numbers of matrices.
pub open spec fn matrices_bytes(ms: Seq<Matrix>) -> nat
    decreases ms.len(),
{
    if ms.len() == 0 {
        0
    } else {
        matrices_bytes(ms.drop_last()) + matrix_bytes(ms.last())
    }
}

/// Bytes of keys and values.
pub open spec fn kv_bytes(kv: Seq<ColdKv>) -> nat
    decreases kv.len(),
{
    if kv.len() == 0 {
        0
    } else {
        kv_bytes(kv.drop_last()) + matrix_bytes(kv.last().k) + matrix_bytes(kv.last().v)
    }
}

/// Some of the matrices have no more bytes than all of them.
proof fn matrices_bytes_grow(ms: Seq<Matrix>, n: int)
    requires
        0 <= n <= ms.len(),
    ensures
        matrices_bytes(ms.take(n)) <= matrices_bytes(ms),
    decreases ms.len() - n,
{
    if n == ms.len() {
        assert(ms.take(n) =~= ms);
    } else {
        assert(ms.take(n + 1).drop_last() =~= ms.take(n));
        matrices_bytes_grow(ms, n + 1);
    }
}

/// Some of the keys and values have no more bytes than all of them.
proof fn kv_bytes_grow(kv: Seq<ColdKv>, n: int)
    requires
        0 <= n <= kv.len(),
    ensures
        kv_bytes(kv.take(n)) <= kv_bytes(kv),
    decreases kv.len() - n,
{
    if n == kv.len() {
        assert(kv.take(n) =~= kv);
    } else {
        assert(kv.take(n + 1).drop_last() =~= kv.take(n));
        kv_bytes_grow(kv, n + 1);
    }
}

/// Bytes of the numbers of a matrix.
fn count_matrix(m: &Matrix) -> (n: usize)
    requires
        matrix_bytes(*m) <= usize::MAX,
    ensures
        n == matrix_bytes(*m),
{
    let r: usize = m.rows.len();
    assert(r * m.cols <= r * m.cols * 4) by (nonlinear_arith)
        requires
            r >= 0,
            m.cols >= 0,
    ;
    r * m.cols * 4
}

/// Bytes of the numbers of matrices.
fn count_matrices(ms: &Vec<Matrix>) -> (n: usize)
    requires
        matrices_bytes(ms@) <= usize::MAX,
    ensures
        n == matrices_bytes(ms@),
{
    let mut n: usize = 0;
    let mut i: usize = 0;
    while i < ms.len()
        invariant
            i <= ms@.len(),
            matrices_bytes(ms@) <= usize::MAX,
            n == matrices_bytes(ms@.take(i as int)),
        decreases ms@.len() - i,
    {
        proof {
            let t = ms@.take(i + 1);
            assert(t.drop_last() =~= ms@.take(i as int));
            assert(t.last() == ms@[i as int]);
            matrices_bytes_grow(ms@, i + 1);
        }
        n = n + count_matrix(&ms[i]);
        i = i + 1;
    }
    assert(ms@.take(i as int) =~= ms@);
    n
}

/// Bytes of keys and values.
fn count_kv(kv: &Vec<ColdKv>) -> (n: usize)
    requires
        kv_bytes(kv@) <= usize::MAX,
    ensures
        n == kv_bytes(kv@),
{
    let mut n: usize = 0;
    let mut i: usize = 0;
    while i < kv.len()
        invariant
            i <= kv@.len(),
            kv_bytes(kv@) <= usize::MAX,
            n == kv_bytes(kv@.take(i as int)),
        decreases kv@.len() - i,
    {
        proof {
            let t = kv@.take(i + 1);
            assert(t.drop_last() =~= kv@.take(i as int));
            assert(t.last() == kv@[i as int]);
            kv_bytes_grow(kv@, i + 1);
        }
        n = n + count_matrix(&kv[i].k) + count_matrix(&kv[i].v);
        i = i + 1;
    }
    assert(kv@.take(i as int) =~= kv@);
    n
}

impl RsStore {
    /// Bytes of the cold rows and of the keys and values that are ready.
    pub open spec fn cold_size(&self) -> nat {
        (match self.cold_residuals {
            Some(c) => matrices_bytes(c@),
            None => 0,
        }) + (match self.cold_kv {
            Some(kv) => kv_bytes(kv@),
            None => 0,
        })
    }

    /// Bytes of everything that is kept.
    pub open spec fn size(&self) -> nat {
        matrices_bytes(self.stored@) + self.cold_size()
    }

    /// Bytes of the cold rows and of the keys and values that are ready.
    pub fn cold_bytes(&self) -> (n: usize)
        requires
            self.cold_size() <= usize::MAX,
        ensures
            n == self.cold_size(),
    {
        let rows: usize = match &self.cold_residuals {
            Some(c) => count_matrices(c),
            None => 0,
        };
        let kv: usize = match &self.cold_kv {
            Some(kv) => count_kv(kv),
            None => 0,
        };
        rows + kv
    }

    /// Bytes of everything that is kept.
    pub fn memory_bytes(&self) -> (n: usize)
        requires
            self.size() <= usize::MAX,
        ensures
            n == self.size(),
    {
        count_matrices(&self.stored) + self.cold_bytes()
    }
}

/// The window is as full as it can be: it holds all rows, or as many as it has
/// room for, and those are the newest.
pub proof fn window_holds_the_newest(s: RsStore, layer: int)
    requires
        s.well_formed(),
        0 <= layer < s.stored@.len(),
    ensures
        s.max_window is None ==> s.hot(layer).len() == s.next_position,
        s.max_window matches Some(w) ==> s.hot(layer).len() == (if s.next_position <= w {
            s.next_position as nat
        } else {
            w as nat
        }),
        s.hot(layer) == s.history(layer).skip(s.next_position - s.hot(layer).len()),
{
    same_hot_rows(s, layer);
    assert(s.hot(layer).len() + overflow(s.next_position as nat, s.max_window) == s.next_position);
    assert(s.history(layer).skip(s.cold(layer).len() as int) =~= s.hot(layer));
}

/// Matrices are counted one by one, four bytes a number.
pub proof fn matrices_bytes_of_both(a: Seq<Matrix>, b: Seq<Matrix>, m: Matrix)
    ensures
        matrices_bytes(a + b) == matrices_bytes(a) + matrices_bytes(b),
        matrices_bytes(seq![m]) == 4 * (m.cols * m.rows@.len()),
    decreases b.len(),
{
    assert(seq![m].drop_last() =~= Seq::<Matrix>::empty());
    assert(matrices_bytes(seq![m].drop_last()) == 0);
    assert(m.rows@.len() * m.cols as nat * 4 == 4 * (m.cols * m.rows@.len())) by (nonlinear_arith);
    if b.len() == 0 {
        assert(a + b =~= a);
    } else {
        matrices_bytes_of_both(a, b.drop_last(), m);
        assert((a + b).drop_last() =~= a + b.drop_last());
        assert((a + b).last() == b.last());
    }
}

/// Keys and values are counted one by one, each matrix for itself.
pub proof fn kv_bytes_of_both(a: Seq<ColdKv>, b: Seq<ColdKv>, kv: ColdKv)
    ensures
        kv_bytes(a + b) == kv_bytes(a) + kv_bytes(b),
        kv_bytes(seq![kv]) == 4 * (kv.k.cols * kv.k.rows@.len() + kv.v.cols * kv.v.rows@.len()),
    decreases b.len(),
{
    assert(seq![kv].drop_last() =~= Seq::<ColdKv>::empty());
    assert(kv_bytes(seq![kv].drop_last()) == 0);
    assert(kv.k.rows@.len() * kv.k.cols as nat * 4 == 4 * (kv.k.cols * kv.k.rows@.len()))
        by (nonlinear_arith);
    assert(kv.v.rows@.len() * kv.v.cols as nat * 4 == 4 * (kv.v.cols * kv.v.rows@.len()))
        by (nonlinear_arith);
    if b.len() == 0 {
        assert(a + b =~= a);
    } else {
        kv_bytes_of_both(a, b.drop_last(), kv);
        assert((a + b).drop_last() =~= a + b.drop_last());
        assert((a + b).last() == b.last());
    }
}

/// What is kept is the hot rows, the cold ones and the keys and values that
/// are ready; moving rows from hot to cold changes the size of neither both
/// together nor of what is not moved.
pub proof fn size_is_that_of_all(s: RsStore, hot: Seq<Matrix>, cold: Vec<Matrix>)
    requires
        s.stored@ == hot,
        s.cold_residuals == Some(cold),
    ensures
        s.cold_kv is None ==> s.size() == matrices_bytes(hot + cold@),
        s.cold_kv is None ==> s.cold_size() == matrices_bytes(cold@),
        s.cold_kv matches Some(kv) ==> s.size() == matrices_bytes(hot + cold@) + kv_bytes(kv@),
        s.cold_kv matches Some(kv) ==> s.cold_size() == matrices_bytes(cold@) + kv_bytes(kv@),
{
    matrices_bytes_of_both(hot, cold@, s.stored@[0]);
}

/// The rows that are used are those of all positions from the first of them
/// on, each the row of its own position; and with one row of keys and one of
/// values for each of them there is one of each for every position: those that
/// were ready first, then the others, in order.
pub proof fn keys_and_values_of_every_position(
    s: RsStore,
    layer: int,
    k: Seq<Seq<u32>>,
    v: Seq<Seq<u32>>,
)
    requires
        s.well_formed(),
        0 <= layer < s.stored@.len(),
        k.len() == s.rows_to_use(layer).0.len(),
        v.len() == s.rows_to_use(layer).0.len(),
    ensures
        ({
            let rows = s.rows_to_use(layer).0;
            let start = s.rows_to_use(layer).1;
            &&& start + rows.len() == s.next_position
            &&& forall|i: int|
                0 <= i < rows.len() ==> #[trigger] rows[i] == s.history(layer)[start + i]
            &&& s.all_keys(layer, k).len() == s.next_position
            &&& s.all_values(layer, v).len() == s.next_position
            &&& s.all_keys(layer, k).skip(start) == k
            &&& s.all_values(layer, v).skip(start) == v
            &&& s.cold_kv matches Some(kv) ==> s.all_keys(layer, k).take(start) == kv@[layer].k@
                && s.all_values(layer, v).take(start) == kv@[layer].v@
        }),
{
    rows_at_their_positions(s, layer);
    let start = s.rows_to_use(layer).1;
    assert(s.all_keys(layer, k).skip(start) =~= k);
    assert(s.all_values(layer, v).skip(start) =~= v);
    if let Some(kv) = s.cold_kv {
        assert(s.is_ready(layer, kv@[layer]));
        assert(s.all_keys(layer, k).take(start) =~= kv@[layer].k@);
        assert(s.all_values(layer, v).take(start) =~= kv@[layer].v@);
    }
}

/// What is not there takes no room.
pub proof fn nothing_takes_no_room(s: RsStore)
    ensures
        s.cold_residuals is None && s.cold_kv is None ==> s.cold_size() == 0 && s.size()
            == matrices_bytes(s.stored@),
        s.cold_residuals is None && s.cold_kv is Some ==> s.cold_size() == kv_bytes(
            s.cold_kv->0@,
        ),
        matrices_bytes(Seq::<Matrix>::empty()) == 0,
        kv_bytes(Seq::<ColdKv>::empty()) == 0,
{
}

/// Clipping cuts the rows of a layer in two: what is moved and what is kept
/// together are what was there, in order, and as many are kept as the window
/// has room for, or all.
pub proof fn clipping_cuts_in_two(
    before: Matrix,
    kept: Matrix,
    moved: Matrix,
    max_window: Option<usize>,
)
    requires
        clipped(before, kept, moved, max_window),
    ensures
        moved@ + kept@ == before@,
        max_window is None ==> kept@ == before@,
        max_window matches Some(w) ==> kept@.len() == (if before@.len() <= w {
            before@.len()
        } else {
            w as nat
        }),
        kept.cols == before.cols && moved.cols == before.cols,
{
    assert(moved@ + kept@ =~= before@);
    if max_window is None {
        assert(before@.skip(0) =~= before@);
    }
}

} // verus!
