//! Stored residuals of template-fixed layers.
//!
//! The image is a header, a table of entries and the residuals, all
//! little-endian.
//!
//! Header (20 bytes): the magic `RCCH`, then version, number of entries,
//! hidden size and number of layers, four bytes each.
//!
//! Entry (24 bytes): template hash (8), layer (4), offset of the data in the
//! image (8), length of the data in bytes (4).
//!
//! Data: the residuals as binary32 numbers, in the order of the entries.

use vstd::prelude::*;
use vstd::string::*;

use crate::le::{
    append_u32, append_u64, append_words, read_u32, read_u64, read_words, u32_le,
    u32_le_round_trip, u32_of_le, u64_le, u64_le_round_trip, u64_of_le, words_le, words_of_le,
    words_round_trip,
};
use crate::text::{append_decimal, decimal};
use crate::vindex::error::VindexError;

verus! {

/// Version of the image.
pub const VERSION: u32 = 1;

/// Bytes of the header.
pub const HEADER_SIZE: usize = 20;

/// Bytes of one entry of the table.
pub const ENTRY_SIZE: usize = 24;

/// The magic `RCCH`.
pub open spec fn magic() -> Seq<u8> {
    seq![0x52u8, 0x43, 0x43, 0x48]
}

/// Place of one residual in the image.
#[derive(Debug, Clone, Copy)]
pub struct ResidualEntry {
    pub template_hash: u64,
    pub layer: usize,
    pub offset: usize,
    pub length: usize,
}

/// An image that was opened.
pub struct ResidualCache {
    pub data: Vec<u8>,
    pub entries: Vec<ResidualEntry>,
    pub hidden_size: usize,
}

/// Number of entries that the header claims.
pub open spec fn claimed_entries(data: Seq<u8>) -> u32 {
    u32_of_le(data.subrange(8, 12))
}

/// Why an image cannot be opened; `None` where it can.
pub open spec fn open_fault(data: Seq<u8>) -> Option<Seq<char>> {
    if data.len() < HEADER_SIZE {
        Some("residual cache too small"@)
    } else if data.subrange(0, 4) != magic() {
        Some("bad residual cache magic"@)
    } else if u32_of_le(data.subrange(4, 8)) != VERSION {
        Some(
            "unsupported residual cache version "@ + decimal(
                u32_of_le(data.subrange(4, 8)) as nat,
            ),
        )
    } else if data.len() < HEADER_SIZE + claimed_entries(data) * ENTRY_SIZE {
        Some("residual cache truncated"@)
    } else {
        None
    }
}

/// The entry whose 24 bytes begin at `base`.
pub open spec fn entry_at(data: Seq<u8>, base: int) -> ResidualEntry {
    ResidualEntry {
        template_hash: u64_of_le(data.subrange(base, base + 8)),
        layer: u32_of_le(data.subrange(base + 8, base + 12)) as usize,
        offset: u64_of_le(data.subrange(base + 12, base + 20)) as usize,
        length: u32_of_le(data.subrange(base + 20, base + 24)) as usize,
    }
}

/// The entries of an image.
pub open spec fn table_of(data: Seq<u8>) -> Seq<ResidualEntry> {
    Seq::new(
        claimed_entries(data) as nat,
        |i: int| entry_at(data, HEADER_SIZE + i * ENTRY_SIZE),
    )
}

/// The first entry of that template and layer.
pub open spec fn first_entry(
    entries: Seq<ResidualEntry>,
    template_hash: u64,
    layer: usize,
) -> Option<ResidualEntry>
    decreases entries.len(),
{
    if entries.len() == 0 {
        None
    } else if entries[0].template_hash == template_hash && entries[0].layer == layer {
        Some(entries[0])
    } else {
        first_entry(entries.drop_first(), template_hash, layer)
    }
}

/// The residual that an image holds for a template and a layer.
pub open spec fn lookup(
    data: Seq<u8>,
    entries: Seq<ResidualEntry>,
    template_hash: u64,
    layer: usize,
) -> Option<Seq<u32>> {
    match first_entry(entries, template_hash, layer) {
        None => None,
        Some(e) => if e.offset + e.length > data.len() {
            None
        } else {
            Some(words_of_le(data.subrange(e.offset as int, e.offset + e.length)))
        },
    }
}

impl ResidualCache {
    /// Opens an image.
    pub fn open(data: Vec<u8>) -> (r: Result<Self, VindexError>)
        ensures
            match r {
                Ok(c) => open_fault(data@) is None && c.data@ == data@ && c.entries@ == table_of(
                    data@,
                ) && c.hidden_size == u32_of_le(data@.subrange(12, 16)),
                Err(VindexError::Parse(m)) => open_fault(data@) == Some(m@),
                Err(_) => false,
            },
    {
        if data.len() < HEADER_SIZE {
            return Err(VindexError::Parse(String::from_str("residual cache too small")));
        }
        let bytes: &[u8] = data.as_slice();
        assert(data@.subrange(0, 4) =~= seq![data@[0], data@[1], data@[2], data@[3]]);
        if bytes[0] != 0x52 || bytes[1] != 0x43 || bytes[2] != 0x43 || bytes[3] != 0x48 {
            assert(data@.subrange(0, 4)[0] != magic()[0] || data@.subrange(0, 4)[1] != magic()[1]
                || data@.subrange(0, 4)[2] != magic()[2] || data@.subrange(0, 4)[3] != magic()[3]);
            return Err(VindexError::Parse(String::from_str("bad residual cache magic")));
        }
        let version: u32 = read_u32(bytes, 4);
        if version != VERSION {
            let mut m: String = String::from_str("unsupported residual cache version ");
            append_decimal(&mut m, version as u128);
            return Err(VindexError::Parse(m));
        }
        let count: u32 = read_u32(bytes, 8);
        let hidden_size: usize = read_u32(bytes, 12) as usize;
        let table_end: u64 = 20 + (count as u64) * 24;
        if (bytes.len() as u64) < table_end {
            return Err(VindexError::Parse(String::from_str("residual cache truncated")));
        }
        let n: usize = count as usize;
        let mut entries: Vec<ResidualEntry> = Vec::new();
        let mut i: usize = 0;
        while i < n
            invariant
                i <= n,
                n == claimed_entries(data@),
                bytes@ == data@,
                HEADER_SIZE + n * ENTRY_SIZE <= bytes.len(),
                entries@ == table_of(data@).take(i as int),
            decreases n - i,
        {
            assert(20 + i * 24 + 24 <= 20 + n * 24);
            let base: usize = HEADER_SIZE + i * ENTRY_SIZE;
            let template_hash: u64 = read_u64(bytes, base);
            let layer: usize = read_u32(bytes, base + 8) as usize;
            let offset: usize = read_u64(bytes, base + 12) as usize;
            let length: usize = read_u32(bytes, base + 20) as usize;
            entries.push(ResidualEntry { template_hash, layer, offset, length });
            i = i + 1;
            assert(entries@ =~= table_of(data@).take(i as int));
        }
        assert(table_of(data@).take(i as int) =~= table_of(data@));
        Ok(ResidualCache { data, entries, hidden_size })
    }

    /// The residual of a template and a layer, as binary32 patterns.
    pub fn get(&self, template_hash: u64, layer: usize) -> (r: Option<Vec<u32>>)
        ensures
            match r {
                Some(words) => lookup(self.data@, self.entries@, template_hash, layer) == Some(
                    words@,
                ),
                None => lookup(self.data@, self.entries@, template_hash, layer) is None,
            },
    {
        let ghost all = self.entries@;
        let mut i: usize = 0;
        assert(all.skip(0) =~= all);
        while i < self.entries.len()
            invariant
                i <= self.entries@.len(),
                all == self.entries@,
                first_entry(all, template_hash, layer) == first_entry(
                    all.skip(i as int),
                    template_hash,
                    layer,
                ),
            decreases self.entries@.len() - i,
        {
            let e: ResidualEntry = self.entries[i];
            assert(all.skip(i as int)[0] == e);
            if e.template_hash == template_hash && e.layer == layer {
                let size: usize = self.data.len();
                let end: Option<usize> = e.offset.checked_add(e.length);
                if end.is_none() || end.unwrap() > size {
                    return None;
                }
                let words: Vec<u32> = read_words(self.data.as_slice(), e.offset, end.unwrap());
                return Some(words);
            }
            assert(all.skip(i as int).drop_first() =~= all.skip(i + 1));
            i = i + 1;
        }
        None
    }

    /// Number of entries.
    pub fn len(&self) -> (n: usize)
        ensures
            n == self.entries@.len(),
    {
        self.entries.len()
    }

    /// Whether there is no entry.
    pub fn is_empty(&self) -> (r: bool)
        ensures
            r == (self.entries@.len() == 0),
    {
        self.entries.len() == 0
    }
}

/// A residual to be written, as binary32 patterns.
pub struct ResidualSource {
    pub template_hash: u64,
    pub layer: usize,
    pub residual: Vec<u32>,
}

/// The contents of a [`ResidualSource`].
pub struct SourceView {
    pub template_hash: u64,
    pub layer: usize,
    pub residual: Seq<u32>,
}

impl View for ResidualSource {
    type V = SourceView;

    open spec fn view(&self) -> SourceView {
        SourceView {
            template_hash: self.template_hash,
            layer: self.layer,
            residual: self.residual@,
        }
    }
}

/// The contents of a list of residuals.
pub open spec fn source_views(v: Seq<ResidualSource>) -> Seq<SourceView> {
    Seq::new(v.len(), |i: int| v[i]@)
}

/// Collects residuals and makes an image of them.
pub struct ResidualCacheBuilder {
    pub hidden_size: usize,
    pub num_layers: usize,
    pub entries: Vec<ResidualSource>,
}

/// Number of words in all residuals.
pub open spec fn total_words(entries: Seq<SourceView>) -> int
    decreases entries.len(),
{
    if entries.len() == 0 {
        0
    } else {
        total_words(entries.drop_last()) + entries.last().residual.len()
    }
}

/// Where the residual of entry `i` begins.
pub open spec fn data_offset(entries: Seq<SourceView>, i: int) -> int {
    HEADER_SIZE + entries.len() * ENTRY_SIZE + 4 * total_words(entries.take(i))
}

/// Length of the image.
pub open spec fn image_len(entries: Seq<SourceView>) -> int {
    HEADER_SIZE + entries.len() * ENTRY_SIZE + 4 * total_words(entries)
}

/// The 24 bytes of one entry.
pub open spec fn entry_image(e: SourceView, offset: int) -> Seq<u8> {
    u64_le(e.template_hash) + u32_le(e.layer as u32) + u64_le(offset as u64) + u32_le(
        (4 * e.residual.len()) as u32,
    )
}

/// The bytes of the first `k` entries.
pub open spec fn table_image(entries: Seq<SourceView>, k: int) -> Seq<u8>
    decreases k,
{
    if k <= 0 {
        seq![]
    } else {
        table_image(entries, k - 1) + entry_image(entries[k - 1], data_offset(entries, k - 1))
    }
}

/// The bytes of all residuals.
pub open spec fn data_image(entries: Seq<SourceView>) -> Seq<u8>
    decreases entries.len(),
{
    if entries.len() == 0 {
        seq![]
    } else {
        data_image(entries.drop_last()) + words_le(entries.last().residual)
    }
}

/// The bytes of the header.
pub open spec fn header_image(count: nat, hidden_size: usize, num_layers: usize) -> Seq<u8> {
    magic() + u32_le(VERSION) + u32_le(count as u32) + u32_le(hidden_size as u32) + u32_le(
        num_layers as u32,
    )
}

/// The image of residuals.
pub open spec fn image(hidden_size: usize, num_layers: usize, entries: Seq<SourceView>) -> Seq<u8> {
    header_image(entries.len(), hidden_size, num_layers) + table_image(
        entries,
        entries.len() as int,
    ) + data_image(entries)
}

impl ResidualCacheBuilder {
    /// A builder without residuals.
    pub fn new(hidden_size: usize, num_layers: usize) -> (b: Self)
        ensures
            b.hidden_size == hidden_size,
            b.num_layers == num_layers,
            b.entries@ == Seq::<ResidualSource>::empty(),
    {
        ResidualCacheBuilder { hidden_size, num_layers, entries: Vec::new() }
    }

    /// Adds the residual of a template and a layer.
    pub fn add(&mut self, template_hash: u64, layer: usize, residual: Vec<u32>)
        ensures
            final(self).hidden_size == old(self).hidden_size,
            final(self).num_layers == old(self).num_layers,
            final(self).entries@ == old(self).entries@.push(
                (ResidualSource { template_hash, layer, residual }),
            ),
    {
        self.entries.push(ResidualSource { template_hash, layer, residual });
    }

    /// The image of all residuals, in the order in which they were added.
    pub fn write(&self) -> (out: Vec<u8>)
        requires
            image_len(source_views(self.entries@)) <= usize::MAX,
        ensures
            out@ == image(self.hidden_size, self.num_layers, source_views(self.entries@)),
    {
        let ghost es = source_views(self.entries@);
        let n: usize = self.entries.len();
        let mut out: Vec<u8> = Vec::new();
        out.push(0x52);
        out.push(0x43);
        out.push(0x43);
        out.push(0x48);
        assert(out@ =~= magic());
        append_u32(&mut out, VERSION);
        append_u32(&mut out, n as u32);
        append_u32(&mut out, self.hidden_size as u32);
        append_u32(&mut out, self.num_layers as u32);
        let ghost head = header_image(es.len(), self.hidden_size, self.num_layers);
        assert(out@ =~= head);
        proof {
            total_words_grows(es, 0);
        }
        let mut offset: usize = HEADER_SIZE + n * ENTRY_SIZE;
        let mut i: usize = 0;
        assert(es.take(0) =~= seq![]);
        while i < n
            invariant
                i <= n,
                n == self.entries@.len(),
                es == source_views(self.entries@),
                image_len(es) <= usize::MAX,
                offset == data_offset(es, i as int),
                out@ == head + table_image(es, i as int),
            decreases n - i,
        {
            proof {
                total_words_grows(es, i + 1);
                assert(es.take(i + 1).drop_last() =~= es.take(i as int));
                assert(es.take(i + 1).last() == self.entries@[i as int]@);
            }
            let e: &ResidualSource = &self.entries[i];
            let length: usize = e.residual.len() * 4;
            append_u64(&mut out, e.template_hash);
            append_u32(&mut out, e.layer as u32);
            append_u64(&mut out, offset as u64);
            append_u32(&mut out, length as u32);
            offset = offset + length;
            i = i + 1;
            assert(out@ =~= head + table_image(es, i as int));
        }
        let ghost table = table_image(es, n as int);
        let mut k: usize = 0;
        assert(out@ =~= head + table + data_image(es.take(0)));
        while k < n
            invariant
                k <= n,
                n == self.entries@.len(),
                es == source_views(self.entries@),
                out@ == head + table + data_image(es.take(k as int)),
            decreases n - k,
        {
            append_words(&mut out, &self.entries[k].residual);
            k = k + 1;
            proof {
                let t = es.take(k as int);
                assert(t.drop_last() =~= es.take(k - 1));
                assert(t.last() == self.entries@[k - 1]@);
                assert(out@ =~= head + table + data_image(t));
            }
        }
        assert(es.take(k as int) =~= es);
        out
    }
}

/// More entries hold no fewer words.
proof fn total_words_grows(entries: Seq<SourceView>, k: int)
    requires
        0 <= k <= entries.len(),
    ensures
        0 <= total_words(entries.take(k)) <= total_words(entries),
    decreases entries.len(),
{
    if k == entries.len() {
        assert(entries.take(k) =~= entries);
        if k > 0 {
            total_words_grows(entries.drop_last(), 0);
            assert(entries.drop_last().take(0) =~= seq![]);
        }
    } else {
        total_words_grows(entries.drop_last(), k);
        assert(entries.drop_last().take(k) =~= entries.take(k));
    }
}

/// Runs `forward` once for each template and each of the first
/// `num_cached_layers` layers, and collects what it gives.
pub fn extract_residual_cache<F: Fn(&Vec<u32>, usize) -> Vec<u32>>(
    hidden_size: usize,
    templates: &Vec<(u64, Vec<u32>)>,
    num_cached_layers: usize,
    forward: F,
) -> (b: ResidualCacheBuilder)
    requires
        forall|t: int, layer: usize|
            0 <= t < templates@.len() && layer < num_cached_layers ==> #[trigger] call_requires(
                forward,
                (&templates@[t].1, layer),
            ),
    ensures
        b.hidden_size == hidden_size,
        b.num_layers == num_cached_layers,
        b.entries@.len() == templates@.len() * num_cached_layers,
        forall|t: int, layer: int|
            0 <= t < templates@.len() && 0 <= layer < num_cached_layers ==> {
                let e = #[trigger] b.entries@[t * num_cached_layers + layer];
                e.template_hash == templates@[t].0 && e.layer == layer && call_ensures(
                    forward,
                    (&templates@[t].1, layer as usize),
                    e.residual,
                )
            },
{
    let mut b: ResidualCacheBuilder = ResidualCacheBuilder::new(hidden_size, num_cached_layers);
    let ghost m = num_cached_layers as int;
    let mut t: usize = 0;
    while t < templates.len()
        invariant
            t <= templates@.len(),
            m == num_cached_layers,
            b.hidden_size == hidden_size,
            b.num_layers == num_cached_layers,
            b.entries@.len() == t * m,
            forall|t: int, layer: usize|
                0 <= t < templates@.len() && layer < num_cached_layers ==> #[trigger] call_requires(
                    forward,
                    (&templates@[t].1, layer),
                ),
            forall|u: int, layer: int|
                0 <= u < t && 0 <= layer < m ==> {
                    let e = #[trigger] b.entries@[u * m + layer];
                    e.template_hash == templates@[u].0 && e.layer == layer && call_ensures(
                        forward,
                        (&templates@[u].1, layer as usize),
                        e.residual,
                    )
                },
        decreases templates@.len() - t,
    {
        let ghost done = b.entries@;
        let mut layer: usize = 0;
        while layer < num_cached_layers
            invariant
                t < templates@.len(),
                layer <= num_cached_layers,
                m == num_cached_layers,
                b.hidden_size == hidden_size,
                b.num_layers == num_cached_layers,
                done.len() == t * m,
                b.entries@.len() == t * m + layer,
                forall|i: int| 0 <= i < done.len() ==> b.entries@[i] == #[trigger] done[i],
                forall|t: int, layer: usize|
                    0 <= t < templates@.len() && layer < num_cached_layers
                        ==> #[trigger] call_requires(forward, (&templates@[t].1, layer)),
                forall|l: int|
                    0 <= l < layer ==> {
                        let e = #[trigger] b.entries@[t * m + l];
                        e.template_hash == templates@[t as int].0 && e.layer == l && call_ensures(
                            forward,
                            (&templates@[t as int].1, l as usize),
                            e.residual,
                        )
                    },
            decreases num_cached_layers - layer,
        {
            assert(call_requires(forward, (&templates@[t as int].1, layer)));
            let residual: Vec<u32> = forward(&templates[t].1, layer);
            b.add(templates[t].0, layer, residual);
            layer = layer + 1;
        }
        proof {
            assert((t + 1) * m == t * m + m) by (nonlinear_arith);
            assert forall|u: int, l: int| 0 <= u < t + 1 && 0 <= l < m implies {
                let e = #[trigger] b.entries@[u * m + l];
                e.template_hash == templates@[u].0 && e.layer == l && call_ensures(
                    forward,
                    (&templates@[u].1, l as usize),
                    e.residual,
                )
            } by {
                if u < t {
                    assert(u * m + l < t * m) by (nonlinear_arith)
                        requires
                            u + 1 <= t,
                            0 <= l < m,
                    ;
                    assert(0 <= u * m) by (nonlinear_arith)
                        requires
                            0 <= u,
                            0 <= m,
                    ;
                    assert(done[u * m + l] == b.entries@[u * m + l]);
                }
            }
        }
        t = t + 1;
    }
    b
}

/// Whether residuals fit the widths of the image's fields.
pub open spec fn fits(hidden_size: usize, entries: Seq<SourceView>) -> bool {
    &&& entries.len() <= u32::MAX
    &&& hidden_size <= u32::MAX
    &&& image_len(entries) <= usize::MAX
    &&& forall|i: int|
        0 <= i < entries.len() ==> (#[trigger] entries[i]).layer <= u32::MAX && 4
            * entries[i].residual.len() <= u32::MAX
}

/// The entry that the table holds for residual `i`.
pub open spec fn written_entry(entries: Seq<SourceView>, i: int) -> ResidualEntry {
    ResidualEntry {
        template_hash: entries[i].template_hash,
        layer: entries[i].layer,
        offset: data_offset(entries, i) as usize,
        length: (4 * entries[i].residual.len()) as usize,
    }
}

/// Entry `i` stands at byte `24 * i` of the table.
proof fn table_image_at(entries: Seq<SourceView>, k: int)
    requires
        0 <= k,
    ensures
        table_image(entries, k).len() == 24 * k,
        forall|i: int|
            0 <= i < k ==> #[trigger] table_image(entries, k).subrange(24 * i, 24 * i + 24)
                == entry_image(entries[i], data_offset(entries, i)),
    decreases k,
{
    if k > 0 {
        table_image_at(entries, k - 1);
        let init = table_image(entries, k - 1);
        let last = entry_image(entries[k - 1], data_offset(entries, k - 1));
        assert(last.len() == 24);
        assert forall|i: int| 0 <= i < k implies #[trigger] table_image(entries, k).subrange(
            24 * i,
            24 * i + 24,
        ) == entry_image(entries[i], data_offset(entries, i)) by {
            if i < k - 1 {
                assert(table_image(entries, k).subrange(24 * i, 24 * i + 24) =~= init.subrange(
                    24 * i,
                    24 * i + 24,
                ));
            } else {
                assert(table_image(entries, k).subrange(24 * i, 24 * i + 24) =~= last);
            }
        }
    }
}

/// Residual `i` stands behind the words of the ones before it.
proof fn data_image_at(entries: Seq<SourceView>, i: int)
    requires
        0 <= i < entries.len(),
    ensures
        0 <= total_words(entries.take(i)),
        total_words(entries.take(i)) + entries[i].residual.len() <= total_words(entries),
        data_image(entries).len() == 4 * total_words(entries),
        data_image(entries).subrange(
            4 * total_words(entries.take(i)),
            4 * total_words(entries.take(i)) + 4 * entries[i].residual.len(),
        ) == words_le(entries[i].residual),
    decreases entries.len(),
{
    let init = entries.drop_last();
    words_round_trip(entries.last().residual);
    data_image_len(init);
    total_words_grows(entries, i);
    let a = 4 * total_words(entries.take(i));
    let b = a + 4 * entries[i].residual.len();
    if i == entries.len() - 1 {
        assert(entries.take(i) =~= init);
        assert(data_image(entries).subrange(a, b) =~= words_le(entries[i].residual));
    } else {
        data_image_at(init, i);
        assert(init.take(i) =~= entries.take(i));
        assert(init[i] == entries[i]);
        assert(data_image(entries).subrange(a, b) =~= data_image(init).subrange(a, b));
    }
}

/// The data has four bytes per word.
proof fn data_image_len(entries: Seq<SourceView>)
    ensures
        data_image(entries).len() == 4 * total_words(entries),
    decreases entries.len(),
{
    if entries.len() > 0 {
        data_image_len(entries.drop_last());
        words_round_trip(entries.last().residual);
    }
}

/// The fields of an entry's bytes.
proof fn entry_image_fields(e: SourceView, offset: int)
    ensures
        entry_image(e, offset).len() == 24,
        u64_of_le(entry_image(e, offset).subrange(0, 8)) == e.template_hash,
        u32_of_le(entry_image(e, offset).subrange(8, 12)) == e.layer as u32,
        u64_of_le(entry_image(e, offset).subrange(12, 20)) == offset as u64,
        u32_of_le(entry_image(e, offset).subrange(20, 24)) == (4 * e.residual.len()) as u32,
{
    u64_le_round_trip(e.template_hash);
    u32_le_round_trip(e.layer as u32);
    u64_le_round_trip(offset as u64);
    u32_le_round_trip((4 * e.residual.len()) as u32);
    let s = entry_image(e, offset);
    assert(s.subrange(0, 8) =~= u64_le(e.template_hash));
    assert(s.subrange(8, 12) =~= u32_le(e.layer as u32));
    assert(s.subrange(12, 20) =~= u64_le(offset as u64));
    assert(s.subrange(20, 24) =~= u32_le((4 * e.residual.len()) as u32));
}

/// Opening a written image succeeds and finds the hidden size and an entry
/// for every residual, in the order in which they were added.
#[verifier::spinoff_prover]
#[verifier::rlimit(60)]
pub proof fn open_of_write(hidden_size: usize, num_layers: usize, entries: Seq<SourceView>)
    requires
        fits(hidden_size, entries),
    ensures
        ({
            let data = image(hidden_size, num_layers, entries);
            &&& data.len() == image_len(entries)
            &&& open_fault(data) is None
            &&& u32_of_le(data.subrange(12, 16)) == hidden_size
            &&& table_of(data) == Seq::new(entries.len(), |i: int| written_entry(entries, i))
        }),
{
    let data = image(hidden_size, num_layers, entries);
    let n = entries.len() as int;
    let head = header_image(entries.len(), hidden_size, num_layers);
    let table = table_image(entries, n);
    table_image_at(entries, n);
    data_image_len(entries);
    u32_le_round_trip(VERSION);
    u32_le_round_trip(n as u32);
    u32_le_round_trip(hidden_size as u32);
    assert(head.len() == 20);
    assert(data.subrange(0, 4) =~= magic());
    assert(data.subrange(4, 8) =~= u32_le(VERSION));
    assert(data.subrange(8, 12) =~= u32_le(n as u32));
    assert(data.subrange(12, 16) =~= u32_le(hidden_size as u32));
    total_words_grows(entries, 0);
    assert(entries.take(0) =~= seq![]);
    let want = Seq::new(entries.len(), |i: int| written_entry(entries, i));
    assert forall|i: int| 0 <= i < n implies table_of(data)[i] == want[i] by {
        let base = 20 + 24 * i;
        let e = entry_image(entries[i], data_offset(entries, i));
        assert(table.subrange(24 * i, 24 * i + 24) == e);
        entry_image_fields(entries[i], data_offset(entries, i));
        assert(data.subrange(base, base + 24) =~= table.subrange(24 * i, 24 * i + 24));
        assert(data.subrange(base, base + 8) =~= e.subrange(0, 8)) by {
            assert(data.subrange(base, base + 24).subrange(0, 8) =~= data.subrange(base, base + 8));
        }
        assert(data.subrange(base + 8, base + 12) =~= e.subrange(8, 12)) by {
            assert(data.subrange(base, base + 24).subrange(8, 12) =~= data.subrange(
                base + 8,
                base + 12,
            ));
        }
        assert(data.subrange(base + 12, base + 20) =~= e.subrange(12, 20)) by {
            assert(data.subrange(base, base + 24).subrange(12, 20) =~= data.subrange(
                base + 12,
                base + 20,
            ));
        }
        assert(data.subrange(base + 20, base + 24) =~= e.subrange(20, 24)) by {
            assert(data.subrange(base, base + 24).subrange(20, 24) =~= data.subrange(
                base + 20,
                base + 24,
            ));
        }
        total_words_grows(entries, i);
        assert(entries[i].layer <= u32::MAX);
    }
    assert(table_of(data) =~= want);
}

/// The first residual that was added for a template and a layer.
pub open spec fn first_added(
    entries: Seq<SourceView>,
    template_hash: u64,
    layer: usize,
) -> Option<Seq<u32>>
    decreases entries.len(),
{
    if entries.len() == 0 {
        None
    } else if entries[0].template_hash == template_hash && entries[0].layer == layer {
        Some(entries[0].residual)
    } else {
        first_added(entries.drop_first(), template_hash, layer)
    }
}

/// The first matching entry of a written table belongs to the first matching
/// residual.
proof fn first_of_both(entries: Seq<SourceView>, k: int, template_hash: u64, layer: usize)
    requires
        0 <= k <= entries.len(),
    ensures
        ({
            let table = Seq::new(entries.len(), |i: int| written_entry(entries, i));
            let e = first_entry(table.skip(k), template_hash, layer);
            let r = first_added(entries.skip(k), template_hash, layer);
            (e is None && r is None) || exists|i: int|
                k <= i < entries.len() && e == Some(#[trigger] written_entry(entries, i)) && r
                    == Some(entries[i].residual)
        }),
    decreases entries.len() - k,
{
    let table = Seq::new(entries.len(), |i: int| written_entry(entries, i));
    if k < entries.len() {
        first_of_both(entries, k + 1, template_hash, layer);
        assert(table.skip(k).drop_first() =~= table.skip(k + 1));
        assert(entries.skip(k).drop_first() =~= entries.skip(k + 1));
        assert(table.skip(k)[0] == written_entry(entries, k));
        assert(entries.skip(k)[0] == entries[k]);
    }
}

/// Residual `i` stands in a written image where its entry says.
#[verifier::spinoff_prover]
proof fn residual_in_image(
    hidden_size: usize,
    num_layers: usize,
    entries: Seq<SourceView>,
    i: int,
)
    requires
        0 <= i < entries.len(),
    ensures
        ({
            let data = image(hidden_size, num_layers, entries);
            let a = data_offset(entries, i);
            let b = a + 4 * entries[i].residual.len();
            &&& 0 <= a <= b <= data.len()
            &&& data.len() == image_len(entries)
            &&& data.subrange(a, b) == words_le(entries[i].residual)
        }),
{
    let data = image(hidden_size, num_layers, entries);
    let head = header_image(entries.len(), hidden_size, num_layers);
    let start = 4 * total_words(entries.take(i));
    let len = 4 * entries[i].residual.len();
    let a = data_offset(entries, i);
    data_image_at(entries, i);
    table_image_at(entries, entries.len() as int);
    assert(head.len() == 20);
    assert(data.subrange(a, a + len) =~= data_image(entries).subrange(start, start + len));
}

/// Looking a template and a layer up in a written image gives the first
/// residual that was added for them, and nothing where none was.
#[verifier::spinoff_prover]
#[verifier::rlimit(30)]
pub proof fn get_of_write(
    hidden_size: usize,
    num_layers: usize,
    entries: Seq<SourceView>,
    template_hash: u64,
    layer: usize,
)
    requires
        fits(hidden_size, entries),
    ensures
        ({
            let data = image(hidden_size, num_layers, entries);
            lookup(data, table_of(data), template_hash, layer) == first_added(
                entries,
                template_hash,
                layer,
            )
        }),
{
    let data = image(hidden_size, num_layers, entries);
    let table = Seq::new(entries.len(), |i: int| written_entry(entries, i));
    open_of_write(hidden_size, num_layers, entries);
    first_of_both(entries, 0, template_hash, layer);
    assert(table.skip(0) =~= table);
    assert(entries.skip(0) =~= entries);
    if first_added(entries, template_hash, layer) is Some {
        let i = choose|i: int|
            0 <= i < entries.len() && first_entry(table, template_hash, layer) == Some(
                #[trigger] written_entry(entries, i),
            ) && first_added(entries, template_hash, layer) == Some(entries[i].residual);
        residual_in_image(hidden_size, num_layers, entries, i);
        words_round_trip(entries[i].residual);
        assert(entries[i].layer <= u32::MAX);
    }
}

/// An image can be opened exactly where it begins with the letters `RCCH` and
/// the version one, and has room for the entries that it claims.
pub proof fn which_images_open(data: Seq<u8>)
    ensures
        open_fault(data) is None <==> {
            &&& data.len() >= 20
            &&& data[0] == 0x52 && data[1] == 0x43 && data[2] == 0x43 && data[3] == 0x48
            &&& u32_of_le(data.subrange(4, 8)) == 1
            &&& 20 + 24 * u32_of_le(data.subrange(8, 12)) <= data.len()
        },
{
    if data.len() >= 20 {
        let head = data.subrange(0, 4);
        assert(head[0] == data[0] && head[1] == data[1] && head[2] == data[2] && head[3]
            == data[3]);
        if data[0] == 0x52 && data[1] == 0x43 && data[2] == 0x43 && data[3] == 0x48 {
            assert(head =~= magic());
        }
    }
}

/// A written image begins with the letters `RCCH`, the version, the number of
/// residuals, the hidden size and the number of layers.
#[verifier::spinoff_prover]
pub proof fn image_tells_its_model(hidden_size: usize, num_layers: usize, entries: Seq<SourceView>)
    requires
        fits(hidden_size, entries),
        num_layers <= u32::MAX,
    ensures
        ({
            let data = image(hidden_size, num_layers, entries);
            &&& data.subrange(0, 4) == seq![0x52u8, 0x43, 0x43, 0x48]
            &&& u32_of_le(data.subrange(4, 8)) == 1
            &&& u32_of_le(data.subrange(8, 12)) == entries.len()
            &&& u32_of_le(data.subrange(12, 16)) == hidden_size
            &&& u32_of_le(data.subrange(16, 20)) == num_layers
        }),
{
    let data = image(hidden_size, num_layers, entries);
    u32_le_round_trip(1);
    u32_le_round_trip(entries.len() as u32);
    u32_le_round_trip(hidden_size as u32);
    u32_le_round_trip(num_layers as u32);
    assert(header_image(entries.len(), hidden_size, num_layers).len() == 20);
    assert(data.subrange(0, 4) =~= seq![0x52u8, 0x43, 0x43, 0x48]);
    assert(data.subrange(4, 8) =~= u32_le(1));
    assert(data.subrange(8, 12) =~= u32_le(entries.len() as u32));
    assert(data.subrange(12, 16) =~= u32_le(hidden_size as u32));
    assert(data.subrange(16, 20) =~= u32_le(num_layers as u32));
}

/// The table's row of a residual stands in a written image.
#[verifier::spinoff_prover]
proof fn row_in_image(hidden_size: usize, num_layers: usize, entries: Seq<SourceView>, i: int)
    requires
        0 <= i < entries.len(),
    ensures
        image(hidden_size, num_layers, entries).subrange(20 + 24 * i, 44 + 24 * i) == entry_image(
            entries[i],
            data_offset(entries, i),
        ),
{
    let data = image(hidden_size, num_layers, entries);
    let n = entries.len() as int;
    let table = table_image(entries, n);
    table_image_at(entries, n);
    assert(table.subrange(24 * i, 24 * i + 24) == entry_image(entries[i], data_offset(entries, i)));
    assert(header_image(entries.len(), hidden_size, num_layers).len() == 20);
    assert(data.subrange(20 + 24 * i, 44 + 24 * i) =~= table.subrange(24 * i, 24 * i + 24));
}

/// Each residual has twenty-four bytes of a table behind the header: eight for
/// its template, four for its layer, eight for where it begins and four for its
/// length in bytes; and there it stands.
#[verifier::spinoff_prover]
pub proof fn image_tells_its_residuals(
    hidden_size: usize,
    num_layers: usize,
    entries: Seq<SourceView>,
    i: int,
)
    requires
        fits(hidden_size, entries),
        0 <= i < entries.len(),
    ensures
        ({
            let data = image(hidden_size, num_layers, entries);
            let row = data.subrange(20 + 24 * i, 44 + 24 * i);
            let start = u64_of_le(row.subrange(12, 20)) as int;
            &&& u64_of_le(row.subrange(0, 8)) == entries[i].template_hash
            &&& u32_of_le(row.subrange(8, 12)) == entries[i].layer
            &&& start == data_offset(entries, i)
            &&& u32_of_le(row.subrange(20, 24)) == 4 * entries[i].residual.len()
            &&& data.subrange(start, start + 4 * entries[i].residual.len()) == words_le(
                entries[i].residual,
            )
        }),
{
    row_in_image(hidden_size, num_layers, entries, i);
    residual_in_image(hidden_size, num_layers, entries, i);
    entry_image_fields(entries[i], data_offset(entries, i));
    assert(entries[i].layer <= u32::MAX);
}

/// The first residual begins behind the table, each further one right behind
/// the one before it, and the last one ends the image.
pub proof fn residuals_follow_one_another(entries: Seq<SourceView>, i: int)
    requires
        0 <= i < entries.len(),
    ensures
        data_offset(entries, 0) == 20 + 24 * entries.len(),
        i + 1 < entries.len() ==> data_offset(entries, i + 1) == data_offset(entries, i) + 4
            * entries[i].residual.len(),
        i + 1 == entries.len() ==> image_len(entries) == data_offset(entries, i) + 4
            * entries[i].residual.len(),
{
    assert(entries.take(0) =~= Seq::<SourceView>::empty());
    assert(entries.take(i + 1).drop_last() =~= entries.take(i));
    assert(entries.take(i + 1).last() == entries[i]);
    if i + 1 == entries.len() {
        assert(entries.take(i + 1) =~= entries);
    }
}

/// Looking something up reads the first entry of that template and layer: the
/// numbers that stand at its place, four bytes each, where the image reaches
/// so far.
pub proof fn lookup_reads_the_first(
    data: Seq<u8>,
    entries: Seq<ResidualEntry>,
    template_hash: u64,
    layer: usize,
    i: int,
)
    requires
        0 <= i < entries.len(),
        entries[i].template_hash == template_hash,
        entries[i].layer == layer,
        forall|j: int|
            0 <= j < i ==> (#[trigger] entries[j]).template_hash != template_hash
                || entries[j].layer != layer,
    ensures
        ({
            let e = entries[i];
            let r = lookup(data, entries, template_hash, layer);
            &&& r is Some <==> e.offset + e.length <= data.len()
            &&& r matches Some(words) ==> words.len() == e.length / 4 && forall|k: int|
                0 <= k < words.len() ==> #[trigger] words[k] == u32_of_le(
                    data.subrange(e.offset + 4 * k, e.offset + 4 * k + 4),
                )
        }),
    decreases i,
{
    let e = entries[i];
    first_entry_is(entries, template_hash, layer, i);
    if e.offset + e.length <= data.len() {
        let own = data.subrange(e.offset as int, e.offset + e.length);
        let words = words_of_le(own);
        assert forall|k: int| 0 <= k < words.len() implies #[trigger] words[k] == u32_of_le(
            data.subrange(e.offset + 4 * k, e.offset + 4 * k + 4),
        ) by {
            assert(own.subrange(4 * k, 4 * k + 4) =~= data.subrange(
                e.offset + 4 * k,
                e.offset + 4 * k + 4,
            ));
        }
    }
}

/// The first entry of a template and a layer.
proof fn first_entry_is(entries: Seq<ResidualEntry>, template_hash: u64, layer: usize, i: int)
    requires
        0 <= i < entries.len(),
        entries[i].template_hash == template_hash,
        entries[i].layer == layer,
        forall|j: int|
            0 <= j < i ==> (#[trigger] entries[j]).template_hash != template_hash
                || entries[j].layer != layer,
    ensures
        first_entry(entries, template_hash, layer) == Some(entries[i]),
    decreases i,
{
    if i > 0 {
        let rest = entries.drop_first();
        assert(entries[0].template_hash != template_hash || entries[0].layer != layer);
        assert forall|j: int| 0 <= j < i - 1 implies (#[trigger] rest[j]).template_hash
            != template_hash || rest[j].layer != layer by {
            assert(rest[j] == entries[j + 1]);
        }
        first_entry_is(rest, template_hash, layer, i - 1);
    }
}

/// Nothing is found where no entry is of that template and layer.
pub proof fn lookup_makes_nothing_up(
    data: Seq<u8>,
    entries: Seq<ResidualEntry>,
    template_hash: u64,
    layer: usize,
)
    requires
        forall|j: int|
            0 <= j < entries.len() ==> (#[trigger] entries[j]).template_hash != template_hash
                || entries[j].layer != layer,
    ensures
        lookup(data, entries, template_hash, layer) is None,
    decreases entries.len(),
{
    if entries.len() > 0 {
        let rest = entries.drop_first();
        assert(entries[0].template_hash != template_hash || entries[0].layer != layer);
        assert forall|j: int| 0 <= j < rest.len() implies (#[trigger] rest[j]).template_hash
            != template_hash || rest[j].layer != layer by {
            assert(rest[j] == entries[j + 1]);
        }
        lookup_makes_nothing_up(data, rest, template_hash, layer);
    }
}

/// Of residuals that were added for one template and layer the first one
/// counts.
pub proof fn first_added_is_first(
    entries: Seq<SourceView>,
    template_hash: u64,
    layer: usize,
    i: int,
)
    requires
        0 <= i < entries.len(),
        entries[i].template_hash == template_hash,
        entries[i].layer == layer,
        forall|j: int|
            0 <= j < i ==> (#[trigger] entries[j]).template_hash != template_hash
                || entries[j].layer != layer,
    ensures
        first_added(entries, template_hash, layer) == Some(entries[i].residual),
    decreases i,
{
    if i > 0 {
        let rest = entries.drop_first();
        assert(entries[0].template_hash != template_hash || entries[0].layer != layer);
        assert forall|j: int| 0 <= j < i - 1 implies (#[trigger] rest[j]).template_hash
            != template_hash || rest[j].layer != layer by {
            assert(rest[j] == entries[j + 1]);
        }
        first_added_is_first(rest, template_hash, layer, i - 1);
    }
}

/// What is said of the contents of residuals is what these hold.
pub proof fn source_contents(v: Seq<ResidualSource>, i: int)
    ensures
        source_views(v).len() == v.len(),
        0 <= i < v.len() ==> source_views(v)[i].template_hash == v[i].template_hash && source_views(
            v,
        )[i].layer == v[i].layer && source_views(v)[i].residual == v[i].residual@,
{
}

/// An entry of twenty-four bytes: the template in the first eight, the layer in
/// the next four, the place in the next eight and the length in the last four.
pub proof fn entry_is_read(data: Seq<u8>, i: int)
    requires
        0 <= i < u32_of_le(data.subrange(8, 12)),
    ensures
        table_of(data).len() == u32_of_le(data.subrange(8, 12)),
        ({
            let e = table_of(data)[i];
            let at = 20 + 24 * i;
            &&& e.template_hash == u64_of_le(data.subrange(at, at + 8))
            &&& e.layer == u32_of_le(data.subrange(at + 8, at + 12)) as usize
            &&& e.offset == u64_of_le(data.subrange(at + 12, at + 20)) as usize
            &&& e.length == u32_of_le(data.subrange(at + 20, at + 24)) as usize
        }),
{
}

} // verus!
