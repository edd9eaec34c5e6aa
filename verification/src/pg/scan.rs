//! Scans of a column index.
//!
//! A scan answers `ORDER BY column <~> 'query'`: on the first request for a
//! row the distance of every row to the query is worked out, and rows are then
//! handed out from the nearest on. An index over a model gives no rows.

use vstd::prelude::*;

use crate::float_bits::{nan64, rank64, SIGN64};
use crate::order::{is_stable_order, stable_order};
use crate::pg::pages::INDEX_KIND_MODEL;

verus! {

/// A row: its distance (a binary64 pattern) and where it stands.
#[derive(Debug, Clone, Copy)]
pub struct ScanRow {
    pub distance: u64,
    pub tid: u64,
}

/// The place of a row as one number, from the halves of its block number and
/// its position in the block.
pub open spec fn place_number(block_hi: u16, block_lo: u16, position: u16) -> nat {
    (block_hi * 0x1_0000_0000 + block_lo * 0x1_0000 + position) as nat
}

/// The place of a row as one number.
pub fn tid_number(block_hi: u16, block_lo: u16, position: u16) -> (n: u64)
    ensures
        n == place_number(block_hi, block_lo, position),
{
    block_hi as u64 * 0x1_0000_0000 + block_lo as u64 * 0x1_0000 + position as u64
}

/// The halves of the block number and the position that a number stands for.
pub fn tid_parts(n: u64) -> (r: (u16, u16, u16))
    requires
        n < 0x1_0000_0000_0000,
    ensures
        n == place_number(r.0, r.1, r.2),
{
    ((n / 0x1_0000_0000) as u16, (n / 0x1_0000 % 0x1_0000) as u16, (n % 0x1_0000) as u16)
}

/// Numbers of places tell the places apart.
pub proof fn places_are_told_apart(a: (u16, u16, u16), b: (u16, u16, u16))
    ensures
        place_number(a.0, a.1, a.2) == place_number(b.0, b.1, b.2) ==> a == b,
        place_number(a.0, a.1, a.2) < 0x1_0000_0000_0000,
{
}

/// The state of a scan.
pub struct InferScanState {
    pub index_kind: u8,
    pub model_name: String,
    pub query_text: Option<String>,
    pub results: Vec<ScanRow>,
    pub cursor: usize,
    pub initialized: bool,
}

/// What a request for a row asks for or gets.
#[derive(Debug, Clone, Copy)]
pub enum ScanStep {
    /// No row.
    Done,
    /// The distances are needed first.
    ComputeDistances,
    /// The next row.
    Row(ScanRow),
}

/// The keys by which rows are ordered.
pub open spec fn distance_keys(rows: Seq<ScanRow>) -> Seq<i64> {
    Seq::new(rows.len(), |i: int| rank64(rows[i].distance) as i64)
}

/// Whether `sorted` holds the rows from the nearest on, those at the same
/// distance as they came.
pub open spec fn is_by_distance(sorted: Seq<ScanRow>, rows: Seq<ScanRow>) -> bool {
    exists|perm: Seq<usize>| #[trigger]
        is_stable_order(perm, distance_keys(rows)) && sorted == Seq::new(
            rows.len(),
            |i: int| rows[perm[i] as int],
        )
}

/// Orders rows from the nearest on.
pub fn sort_by_distance(rows: &Vec<ScanRow>) -> (sorted: Vec<ScanRow>)
    requires
        forall|i: int| 0 <= i < rows@.len() ==> !nan64((#[trigger] rows@[i]).distance),
    ensures
        is_by_distance(sorted@, rows@),
{
    let mut keys: Vec<i64> = Vec::new();
    let mut i: usize = 0;
    while i < rows.len()
        invariant
            i <= rows@.len(),
            keys@ == distance_keys(rows@).take(i as int),
        decreases rows@.len() - i,
    {
        let d: u64 = rows[i].distance;
        let key: i64 = if d >= SIGN64 {
            -((d % SIGN64) as i64)
        } else {
            d as i64
        };
        keys.push(key);
        i = i + 1;
        assert(keys@ =~= distance_keys(rows@).take(i as int));
    }
    assert(distance_keys(rows@).take(i as int) =~= distance_keys(rows@));
    let perm: Vec<usize> = stable_order(&keys);
    let mut sorted: Vec<ScanRow> = Vec::new();
    let mut k: usize = 0;
    while k < perm.len()
        invariant
            k <= perm@.len(),
            perm@.len() == rows@.len(),
            is_stable_order(perm@, distance_keys(rows@)),
            sorted@ == Seq::new(rows@.len(), |j: int| rows@[perm@[j] as int]).take(k as int),
        decreases perm@.len() - k,
    {
        assert(perm@[k as int] < rows@.len());
        sorted.push(rows[perm[k]]);
        k = k + 1;
        assert(sorted@ =~= Seq::new(rows@.len(), |j: int| rows@[perm@[j] as int]).take(k as int));
    }
    assert(sorted@ =~= Seq::new(rows@.len(), |j: int| rows@[perm@[j] as int]));
    sorted
}

/// In order of distance no row is nearer than one before it.
pub proof fn distances_rise(sorted: Seq<ScanRow>, rows: Seq<ScanRow>, i: int, j: int)
    requires
        is_by_distance(sorted, rows),
        0 <= i < j < sorted.len(),
    ensures
        rank64(sorted[i].distance) <= rank64(sorted[j].distance),
{
    let perm = choose|perm: Seq<usize>| #[trigger]
        is_stable_order(perm, distance_keys(rows)) && sorted == Seq::new(
            rows.len(),
            |i: int| rows[perm[i] as int],
        );
    assert(crate::order::comes_first(distance_keys(rows), perm[i] as int, perm[j] as int));
}

/// In order of distance every row occurs once, and no other.
pub proof fn every_row_once(sorted: Seq<ScanRow>, rows: Seq<ScanRow>)
    requires
        is_by_distance(sorted, rows),
        rows.len() <= usize::MAX,
    ensures
        sorted.to_multiset() == rows.to_multiset(),
{
    let perm = choose|perm: Seq<usize>| #[trigger]
        is_stable_order(perm, distance_keys(rows)) && sorted == Seq::new(
            rows.len(),
            |i: int| rows[perm[i] as int],
        );
    crate::order::ordered_items_stay(perm, distance_keys(rows), rows);
}

impl InferScanState {
    /// The position in the results is one of them or their end.
    pub open spec fn well_formed(&self) -> bool {
        self.cursor <= self.results@.len()
    }

    /// A scan that has no query yet.
    pub fn begin(index_kind: u8, model_name: String) -> (s: Self)
        ensures
            s.well_formed(),
            s.index_kind == index_kind,
            s.model_name == model_name,
            s.query_text is None,
            s.results@.len() == 0,
            s.cursor == 0,
            !s.initialized,
    {
        InferScanState {
            index_kind,
            model_name,
            query_text: None,
            results: Vec::new(),
            cursor: 0,
            initialized: false,
        }
    }

    /// Begins again, with the query of the order-by key where there is one.
    pub fn rescan(&mut self, query: Option<String>)
        ensures
            final(self).well_formed(),
            final(self).index_kind == old(self).index_kind,
            final(self).model_name == old(self).model_name,
            final(self).query_text == query,
            final(self).results@.len() == 0,
            final(self).cursor == 0,
            !final(self).initialized,
    {
        self.results = Vec::new();
        self.cursor = 0;
        self.initialized = false;
        self.query_text = query;
    }

    /// Whether the scan can give rows at all.
    pub open spec fn gives_rows(&self, forward: bool) -> bool {
        self.index_kind != INDEX_KIND_MODEL && forward && self.query_text is Some
    }

    /// Asks for the next row. Only a forward scan of a column index with a
    /// query gets one.
    pub fn next_step(&mut self, forward: bool) -> (step: ScanStep)
        requires
            old(self).well_formed(),
        ensures
            final(self).well_formed(),
            final(self).index_kind == old(self).index_kind,
            final(self).model_name == old(self).model_name,
            final(self).query_text == old(self).query_text,
            final(self).results == old(self).results,
            match step {
                ScanStep::Done => {
                    &&& final(self).cursor == old(self).cursor
                    &&& final(self).initialized == old(self).initialized
                    &&& !old(self).gives_rows(forward) || (old(self).initialized && old(self).cursor
                        == old(self).results@.len())
                },
                ScanStep::ComputeDistances => {
                    &&& old(self).gives_rows(forward)
                    &&& !old(self).initialized
                    &&& final(self).initialized
                    &&& final(self).cursor == old(self).cursor
                },
                ScanStep::Row(r) => {
                    &&& old(self).gives_rows(forward)
                    &&& old(self).initialized
                    &&& final(self).initialized
                    &&& old(self).cursor < old(self).results@.len()
                    &&& r == old(self).results@[old(self).cursor as int]
                    &&& final(self).cursor == old(self).cursor + 1
                },
            },
            stepped(*old(self), forward, step, *final(self)),
    {
        if self.index_kind == INDEX_KIND_MODEL || !forward || self.query_text.is_none() {
            return ScanStep::Done;
        }
        if !self.initialized {
            self.initialized = true;
            return ScanStep::ComputeDistances;
        }
        if self.cursor < self.results.len() {
            let row: ScanRow = self.results[self.cursor];
            self.cursor = self.cursor + 1;
            ScanStep::Row(row)
        } else {
            ScanStep::Done
        }
    }

    /// Takes the distances that were worked out; rows are then handed out
    /// from the nearest on.
    pub fn supply(&mut self, rows: &Vec<ScanRow>)
        requires
            old(self).cursor == 0,
            forall|i: int| 0 <= i < rows@.len() ==> !nan64((#[trigger] rows@[i]).distance),
        ensures
            final(self).well_formed(),
            final(self).index_kind == old(self).index_kind,
            final(self).model_name == old(self).model_name,
            final(self).query_text == old(self).query_text,
            final(self).initialized == old(self).initialized,
            final(self).cursor == 0,
            is_by_distance(final(self).results@, rows@),
    {
        self.results = sort_by_distance(rows);
    }
}

/// Places are numbered as they stand: by block, and within a block by
/// position.
pub proof fn places_are_in_order(a: (u16, u16, u16), b: (u16, u16, u16))
    ensures
        place_number(a.0, a.1, a.2) < place_number(b.0, b.1, b.2) <==> (0x1_0000 * a.0 + a.1
            < 0x1_0000 * b.0 + b.1) || (0x1_0000 * a.0 + a.1 == 0x1_0000 * b.0 + b.1 && a.2 < b.2),
        place_number(0, 0, a.2) == a.2,
{
}

/// Only a forward scan of a column index that has a query gives rows; one of a
/// model's index never does.
pub proof fn which_scans_give_rows(s: InferScanState)
    ensures
        !s.gives_rows(false),
        s.query_text is None ==> !s.gives_rows(true),
        s.index_kind == INDEX_KIND_MODEL ==> !s.gives_rows(true),
        s.index_kind != INDEX_KIND_MODEL && s.query_text is Some ==> s.gives_rows(true),
{
}

/// Rows at the same distance stay as they came.
pub proof fn equal_distances_stay(sorted: Seq<ScanRow>, rows: Seq<ScanRow>, i: int, j: int)
    requires
        is_by_distance(sorted, rows),
        0 <= i < j < sorted.len(),
        rank64(sorted[i].distance) == rank64(sorted[j].distance),
    ensures
        exists|a: int, b: int|
            0 <= a < b < rows.len() && #[trigger] rows[a] == sorted[i] && #[trigger] rows[b]
                == sorted[j],
{
    let perm = choose|perm: Seq<usize>| #[trigger]
        is_stable_order(perm, distance_keys(rows)) && sorted == Seq::new(
            rows.len(),
            |i: int| rows[perm[i] as int],
        );
    assert(crate::order::comes_first(distance_keys(rows), perm[i] as int, perm[j] as int));
    let a = perm[i] as int;
    let b = perm[j] as int;
    assert(rows[a] == sorted[i] && rows[b] == sorted[j]);
}

/// Whether a request for a row leads from one state to another and gets
/// `step`.
pub open spec fn stepped(
    before: InferScanState,
    forward: bool,
    step: ScanStep,
    after: InferScanState,
) -> bool {
    &&& after.results == before.results && after.query_text == before.query_text
    &&& after.index_kind == before.index_kind
    &&& if !before.gives_rows(forward) {
        step is Done && after.cursor == before.cursor && after.initialized == before.initialized
    } else if !before.initialized {
        step is ComputeDistances && after.cursor == before.cursor && after.initialized
    } else if before.cursor < before.results@.len() {
        step == ScanStep::Row(before.results@[before.cursor as int]) && after.cursor
            == before.cursor + 1 && after.initialized
    } else {
        step is Done && after.cursor == before.cursor && after.initialized
    }
}

/// A scan that has its distances hands out all rows, from the first on, each
/// once, and nothing behind the last: request `t` gets row `t`, and the request
/// behind the last row gets none.
pub proof fn rows_are_handed_out_in_order(
    states: Seq<InferScanState>,
    steps: Seq<ScanStep>,
    t: int,
)
    requires
        states.len() == steps.len() + 1,
        states[0].gives_rows(true),
        states[0].initialized,
        states[0].cursor == 0,
        forall|u: int|
            0 <= u < steps.len() ==> stepped(
                states[u],
                true,
                #[trigger] steps[u],
                states[u + 1],
            ),
        0 <= t < steps.len(),
    ensures
        t < states[0].results@.len() ==> steps[t] == ScanStep::Row(states[0].results@[t]),
        t >= states[0].results@.len() ==> steps[t] is Done,
{
    cursor_after(states, steps, t);
    assert(stepped(states[t], true, steps[t], states[t + 1]));
}

/// Where a scan stands after `t` requests.
proof fn cursor_after(states: Seq<InferScanState>, steps: Seq<ScanStep>, t: int)
    requires
        states.len() == steps.len() + 1,
        states[0].gives_rows(true),
        states[0].initialized,
        states[0].cursor == 0,
        forall|u: int|
            0 <= u < steps.len() ==> stepped(
                states[u],
                true,
                #[trigger] steps[u],
                states[u + 1],
            ),
        0 <= t <= steps.len(),
    ensures
        states[t].results == states[0].results,
        states[t].gives_rows(true),
        states[t].initialized,
        states[t].cursor == (if t <= states[0].results@.len() {
            t
        } else {
            states[0].results@.len() as int
        }),
    decreases t,
{
    if t > 0 {
        cursor_after(states, steps, t - 1);
        assert(stepped(states[t - 1], true, steps[t - 1], states[t]));
    }
}

} // verus!
