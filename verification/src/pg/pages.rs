//! Page format of the index.
//!
//! An index is made of pages of 8192 bytes. A page has a header of 24 bytes,
//! a data area, and a special area of 16 bytes at its end that says what kind
//! of page it is. Numbers are stored least significant byte first.

use vstd::prelude::*;

use crate::le::{
    append_u16, append_u32, read_u16, read_u32, u16_le, u16_le_round_trip, u16_of_le, u32_le,
    u32_le_round_trip, u32_of_le,
};

verus! {

/// Magic number of the metapage: "INFR" in ASCII.
pub const INFER_MAGIC: u32 = 0x494E_4652;

/// Format version.
pub const INFER_FORMAT_VERSION: u32 = 1;

/// Bytes of a page.
pub const BLOCK_SIZE: usize = 8192;

/// Bytes of the header of a page.
pub const PAGE_HEADER_SIZE: usize = 24;

/// Bytes of the special area.
pub const INFER_OPAQUE_SIZE: usize = 16;

/// Bytes of the data area.
pub const INFER_USABLE_PER_PAGE: usize = 8152;

/// Block number that stands for no block.
pub const INVALID_BLOCK_NUMBER: u32 = 0xFFFF_FFFF;

/// Layer number of a page that belongs to no layer.
pub const NO_LAYER: u16 = 0xFFFF;

/// Kind of an index over a model.
pub const INDEX_KIND_MODEL: u8 = 0;

/// Kind of an index over a text column.
pub const INDEX_KIND_COLUMN: u8 = 1;

/// Bytes of a layer directory entry.
pub const LAYER_DIR_ENTRY_SIZE: usize = 20;

/// Layers that fit in one directory page.
pub const MAX_LAYERS_PER_DIR_PAGE: usize = 407;

/// Bytes of the header of a gate, embedding, down-meta or blob page.
pub const SECTION_HEADER_SIZE: usize = 8;

/// Bytes for vectors on a gate page.
pub const GATE_DATA_BYTES: usize = 8144;

/// Bytes for vectors on an embedding page.
pub const EMBED_DATA_BYTES: usize = 8144;

/// Bytes for records on a down-meta page.
pub const DOWN_META_DATA_BYTES: usize = 8144;

/// Bytes of a down-meta record.
pub const DOWN_META_RECORD_SIZE: usize = 88;

/// Records on a down-meta page.
pub const DOWN_META_RECORDS_PER_PAGE: usize = 92;

/// Bytes for data on a blob page.
pub const BLOB_DATA_BYTES: usize = 8144;

/// Bytes of the metapage's record.
pub const META_SIZE: usize = 468;

/// Bytes for the model's name, with the zero byte that ends it.
pub const MODEL_NAME_BYTES: usize = 128;

/// Bytes for the source, with the zero byte that ends it.
pub const SOURCE_URI_BYTES: usize = 256;

/// The sizes fit together: what is left of a page, and how many records fill
/// it.
pub proof fn sizes_fit()
    ensures
        PAGE_HEADER_SIZE + INFER_USABLE_PER_PAGE + INFER_OPAQUE_SIZE == BLOCK_SIZE,
        SECTION_HEADER_SIZE + GATE_DATA_BYTES == INFER_USABLE_PER_PAGE,
        SECTION_HEADER_SIZE + BLOB_DATA_BYTES == INFER_USABLE_PER_PAGE,
        SECTION_HEADER_SIZE + DOWN_META_DATA_BYTES == INFER_USABLE_PER_PAGE,
        EMBED_DATA_BYTES == GATE_DATA_BYTES,
        DOWN_META_RECORDS_PER_PAGE == DOWN_META_DATA_BYTES / DOWN_META_RECORD_SIZE,
        MAX_LAYERS_PER_DIR_PAGE == INFER_USABLE_PER_PAGE / LAYER_DIR_ENTRY_SIZE,
        META_SIZE <= INFER_USABLE_PER_PAGE,
{
}

/// Kinds of pages.
#[derive(Debug, Clone, Copy, PartialEq, Eq, Structural)]
pub enum PageType {
    Meta,
    LayerDir,
    Gate,
    Embed,
    DownMeta,
    Blob,
}

impl PageType {
    /// The number that stands for the kind.
    pub open spec fn number(self) -> u8 {
        match self {
            PageType::Meta => 1,
            PageType::LayerDir => 2,
            PageType::Gate => 3,
            PageType::Embed => 4,
            PageType::DownMeta => 5,
            PageType::Blob => 6,
        }
    }

    /// The number that stands for the kind.
    pub fn code(self) -> (n: u8)
        ensures
            n == self.number(),
    {
        match self {
            PageType::Meta => 1,
            PageType::LayerDir => 2,
            PageType::Gate => 3,
            PageType::Embed => 4,
            PageType::DownMeta => 5,
            PageType::Blob => 6,
        }
    }
}

/// The kind that a number stands for, or the number itself.
pub open spec fn page_type_of(v: u8) -> Result<PageType, u8> {
    match v {
        1 => Ok(PageType::Meta),
        2 => Ok(PageType::LayerDir),
        3 => Ok(PageType::Gate),
        4 => Ok(PageType::Embed),
        5 => Ok(PageType::DownMeta),
        6 => Ok(PageType::Blob),
        _ => Err(v),
    }
}

impl TryFrom<u8> for PageType {
    type Error = u8;

    fn try_from(v: u8) -> (r: Result<Self, u8>) {
        match v {
            1 => Ok(PageType::Meta),
            2 => Ok(PageType::LayerDir),
            3 => Ok(PageType::Gate),
            4 => Ok(PageType::Embed),
            5 => Ok(PageType::DownMeta),
            6 => Ok(PageType::Blob),
            _ => Err(v),
        }
    }
}

impl vstd::std_specs::convert::TryFromSpecImpl<u8> for PageType {
    open spec fn obeys_try_from_spec() -> bool {
        true
    }

    open spec fn try_from_spec(v: u8) -> Result<Self, u8> {
        page_type_of(v)
    }
}

/// A kind is found again by its number, and every other number is refused.
pub proof fn page_type_round_trip(t: PageType, v: u8)
    ensures
        page_type_of(t.number()) == Ok::<PageType, u8>(t),
        match page_type_of(v) {
            Ok(u) => u.number() == v,
            Err(w) => w == v && forall|u: PageType| #[trigger] u.number() != v,
        },
{
}

/// The special area of a page.
#[derive(Debug, Clone, Copy)]
pub struct InferPageOpaque {
    /// Kind of the page.
    pub page_type: u8,
    /// Bit 0: compressed; bit 1: quantized.
    pub flags: u8,
    /// Layer that the page belongs to.
    pub layer_id: u16,
    /// Next block of a chain.
    pub next_blkno: u32,
    pub reserved: [u8; 8],
}

impl InferPageOpaque {
    /// The special area of a new page: no flags, no layer, no next block.
    pub fn new(page_type: PageType) -> (o: Self)
        ensures
            o.page_type == page_type.number(),
            o.flags == 0,
            o.layer_id == NO_LAYER,
            o.next_blkno == INVALID_BLOCK_NUMBER,
            o.reserved@ == Seq::new(8, |i: int| 0u8),
    {
        let reserved: [u8; 8] = [0, 0, 0, 0, 0, 0, 0, 0];
        assert(reserved@ =~= Seq::new(8, |i: int| 0u8));
        InferPageOpaque {
            page_type: page_type.code(),
            flags: 0,
            layer_id: NO_LAYER,
            next_blkno: INVALID_BLOCK_NUMBER,
            reserved,
        }
    }

    /// The stored form of the special area.
    pub open spec fn image(self) -> Seq<u8> {
        seq![self.page_type, self.flags] + u16_le(self.layer_id) + u32_le(self.next_blkno)
            + self.reserved@
    }

    /// The stored form of the special area.
    pub fn to_bytes(&self) -> (out: Vec<u8>)
        ensures
            out@ == self.image(),
            out@.len() == INFER_OPAQUE_SIZE,
    {
        let mut out: Vec<u8> = Vec::new();
        out.push(self.page_type);
        out.push(self.flags);
        append_u16(&mut out, self.layer_id);
        append_u32(&mut out, self.next_blkno);
        let ghost head = out@;
        let mut i: usize = 0;
        while i < 8
            invariant
                i <= 8,
                self.reserved@.len() == 8,
                out@ == head + self.reserved@.take(i as int),
            decreases 8 - i,
        {
            out.push(self.reserved[i]);
            i = i + 1;
            assert(out@ =~= head + self.reserved@.take(i as int));
        }
        assert(self.reserved@.take(8) =~= self.reserved@);
        assert(out@ =~= self.image());
        out
    }
}

/// The special area tells the kind, the flags, the layer and the next block
/// of its page.
pub proof fn opaque_round_trip(o: InferPageOpaque)
    ensures
        o.image().len() == INFER_OPAQUE_SIZE,
        o.image()[0] == o.page_type,
        o.image()[1] == o.flags,
        u16_of_le(o.image().subrange(2, 4)) == o.layer_id,
        u32_of_le(o.image().subrange(4, 8)) == o.next_blkno,
        o.image().subrange(8, 16) == o.reserved@,
{
    u16_le_round_trip(o.layer_id);
    u32_le_round_trip(o.next_blkno);
    assert(o.reserved@.len() == 8);
    assert(o.image().subrange(2, 4) =~= u16_le(o.layer_id));
    assert(o.image().subrange(4, 8) =~= u32_le(o.next_blkno));
    assert(o.image().subrange(8, 16) =~= o.reserved@);
}

/// One entry of the layer directory.
#[derive(Debug, Clone, Copy)]
pub struct LayerDirEntry {
    pub layer_id: u16,
    pub num_features: u16,
    /// First block of the layer's gate pages.
    pub gate_start_blk: u32,
    pub gate_page_count: u16,
    /// First block of the layer's down-meta pages.
    pub down_start_blk: u32,
    pub down_page_count: u16,
}

impl LayerDirEntry {
    /// The stored form of the entry.
    pub open spec fn image(self) -> Seq<u8> {
        u16_le(self.layer_id) + u16_le(self.num_features) + u32_le(self.gate_start_blk) + u16_le(
            self.gate_page_count,
        ) + u32_le(self.down_start_blk) + u16_le(self.down_page_count) + seq![0u8, 0u8, 0u8, 0u8]
    }

    /// Appends the stored form of the entry.
    pub fn append_to(&self, out: &mut Vec<u8>)
        ensures
            final(out)@ == old(out)@ + self.image(),
    {
        append_u16(out, self.layer_id);
        append_u16(out, self.num_features);
        append_u32(out, self.gate_start_blk);
        append_u16(out, self.gate_page_count);
        append_u32(out, self.down_start_blk);
        append_u16(out, self.down_page_count);
        append_u32(out, 0);
        assert(u32_le(0) =~= seq![0u8, 0u8, 0u8, 0u8]);
        assert(out@ =~= old(out)@ + self.image());
    }

    /// The entry stored at `at`.
    pub open spec fn stored_at(data: Seq<u8>, at: int) -> LayerDirEntry {
        LayerDirEntry {
            layer_id: u16_of_le(data.subrange(at, at + 2)),
            num_features: u16_of_le(data.subrange(at + 2, at + 4)),
            gate_start_blk: u32_of_le(data.subrange(at + 4, at + 8)),
            gate_page_count: u16_of_le(data.subrange(at + 8, at + 10)),
            down_start_blk: u32_of_le(data.subrange(at + 10, at + 14)),
            down_page_count: u16_of_le(data.subrange(at + 14, at + 16)),
        }
    }

    /// Reads the entry stored at `at`.
    pub fn read(data: &[u8], at: usize) -> (e: LayerDirEntry)
        requires
            at + LAYER_DIR_ENTRY_SIZE <= data@.len(),
        ensures
            e == LayerDirEntry::stored_at(data@, at as int),
    {
        assert(data.len() <= usize::MAX);
        LayerDirEntry {
            layer_id: read_u16(data, at),
            num_features: read_u16(data, at + 2),
            gate_start_blk: read_u32(data, at + 4),
            gate_page_count: read_u16(data, at + 8),
            down_start_blk: read_u32(data, at + 10),
            down_page_count: read_u16(data, at + 14),
        }
    }
}

/// An entry is read back as it was stored, wherever it stands.
pub proof fn layer_dir_entry_round_trip(e: LayerDirEntry, data: Seq<u8>, at: int)
    requires
        0 <= at,
        at + LAYER_DIR_ENTRY_SIZE <= data.len(),
        data.subrange(at, at + 20) == e.image(),
    ensures
        e.image().len() == LAYER_DIR_ENTRY_SIZE,
        LayerDirEntry::stored_at(data, at) == e,
{
    let s = data.subrange(at, at + 20);
    u16_le_round_trip(e.layer_id);
    u16_le_round_trip(e.num_features);
    u32_le_round_trip(e.gate_start_blk);
    u16_le_round_trip(e.gate_page_count);
    u32_le_round_trip(e.down_start_blk);
    u16_le_round_trip(e.down_page_count);
    assert(data.subrange(at, at + 2) =~= s.subrange(0, 2));
    assert(data.subrange(at + 2, at + 4) =~= s.subrange(2, 4));
    assert(data.subrange(at + 4, at + 8) =~= s.subrange(4, 8));
    assert(data.subrange(at + 8, at + 10) =~= s.subrange(8, 10));
    assert(data.subrange(at + 10, at + 14) =~= s.subrange(10, 14));
    assert(data.subrange(at + 14, at + 16) =~= s.subrange(14, 16));
    assert(e.image().subrange(0, 2) =~= u16_le(e.layer_id));
    assert(e.image().subrange(2, 4) =~= u16_le(e.num_features));
    assert(e.image().subrange(4, 8) =~= u32_le(e.gate_start_blk));
    assert(e.image().subrange(8, 10) =~= u16_le(e.gate_page_count));
    assert(e.image().subrange(10, 14) =~= u32_le(e.down_start_blk));
    assert(e.image().subrange(14, 16) =~= u16_le(e.down_page_count));
}

/// Header of a gate page.
#[derive(Debug, Clone, Copy)]
pub struct GatePageHeader {
    pub layer_id: u16,
    /// Vectors on this page.
    pub num_vectors: u16,
    /// First feature on this page, within the layer.
    pub first_feature_idx: u32,
}

/// Embedding pages have the header of gate pages.
pub type EmbedPageHeader = GatePageHeader;

impl GatePageHeader {
    /// The stored form of the header.
    pub open spec fn image(self) -> Seq<u8> {
        u16_le(self.layer_id) + u16_le(self.num_vectors) + u32_le(self.first_feature_idx)
    }

    /// Appends the stored form of the header.
    pub fn append_to(&self, out: &mut Vec<u8>)
        ensures
            final(out)@ == old(out)@ + self.image(),
    {
        append_u16(out, self.layer_id);
        append_u16(out, self.num_vectors);
        append_u32(out, self.first_feature_idx);
        assert(out@ =~= old(out)@ + self.image());
    }

    /// The header at the start of a page.
    pub open spec fn stored(data: Seq<u8>) -> GatePageHeader {
        GatePageHeader {
            layer_id: u16_of_le(data.subrange(0, 2)),
            num_vectors: u16_of_le(data.subrange(2, 4)),
            first_feature_idx: u32_of_le(data.subrange(4, 8)),
        }
    }

    /// Reads the header at the start of a page.
    pub fn read(data: &[u8]) -> (h: GatePageHeader)
        requires
            SECTION_HEADER_SIZE <= data@.len(),
        ensures
            h == GatePageHeader::stored(data@),
    {
        GatePageHeader {
            layer_id: read_u16(data, 0),
            num_vectors: read_u16(data, 2),
            first_feature_idx: read_u32(data, 4),
        }
    }
}

/// A gate page's header is read back as it was stored.
pub proof fn gate_header_round_trip(h: GatePageHeader, rest: Seq<u8>)
    ensures
        h.image().len() == SECTION_HEADER_SIZE,
        GatePageHeader::stored(h.image() + rest) == h,
{
    let data = h.image() + rest;
    u16_le_round_trip(h.layer_id);
    u16_le_round_trip(h.num_vectors);
    u32_le_round_trip(h.first_feature_idx);
    assert(data.subrange(0, 2) =~= u16_le(h.layer_id));
    assert(data.subrange(2, 4) =~= u16_le(h.num_vectors));
    assert(data.subrange(4, 8) =~= u32_le(h.first_feature_idx));
}

/// Header of a down-meta page.
#[derive(Debug, Clone, Copy)]
pub struct DownMetaPageHeader {
    pub layer_id: u16,
    /// Records on this page.
    pub num_records: u16,
    /// First feature on this page.
    pub first_feature_idx: u32,
}

/// What is kept of a feature: its strongest output token and the ten
/// strongest. Scores are binary32 patterns.
#[derive(Debug, Clone, Copy)]
pub struct DownMetaRecord {
    pub top_token_id: u32,
    pub c_score: u32,
    pub top_k: [(u32, u32); 10],
}

/// Header of a blob page.
#[derive(Debug, Clone, Copy)]
pub struct BlobPageHeader {
    /// Bytes of the whole blob.
    pub total_size: u32,
    /// Bytes on this page.
    pub page_bytes: u32,
}

impl BlobPageHeader {
    /// The stored form of the header.
    pub open spec fn image(self) -> Seq<u8> {
        u32_le(self.total_size) + u32_le(self.page_bytes)
    }

    /// Appends the stored form of the header.
    pub fn append_to(&self, out: &mut Vec<u8>)
        ensures
            final(out)@ == old(out)@ + self.image(),
    {
        append_u32(out, self.total_size);
        append_u32(out, self.page_bytes);
        assert(out@ =~= old(out)@ + self.image());
    }

    /// The header at the start of a page.
    pub open spec fn stored(data: Seq<u8>) -> BlobPageHeader {
        BlobPageHeader {
            total_size: u32_of_le(data.subrange(0, 4)),
            page_bytes: u32_of_le(data.subrange(4, 8)),
        }
    }

    /// Reads the header at the start of a page.
    pub fn read(data: &[u8]) -> (h: BlobPageHeader)
        requires
            SECTION_HEADER_SIZE <= data@.len(),
        ensures
            h == BlobPageHeader::stored(data@),
    {
        BlobPageHeader { total_size: read_u32(data, 0), page_bytes: read_u32(data, 4) }
    }
}

/// A blob page's header is read back as it was stored.
pub proof fn blob_header_round_trip(h: BlobPageHeader, rest: Seq<u8>)
    ensures
        h.image().len() == SECTION_HEADER_SIZE,
        BlobPageHeader::stored(h.image() + rest) == h,
{
    let data = h.image() + rest;
    u32_le_round_trip(h.total_size);
    u32_le_round_trip(h.page_bytes);
    assert(data.subrange(0, 4) =~= u32_le(h.total_size));
    assert(data.subrange(4, 8) =~= u32_le(h.page_bytes));
}

/// The smallest number of groups of `per_group` that hold `n` items; 0 where
/// a group holds nothing.
pub open spec fn groups(n: nat, per_group: nat) -> nat {
    if per_group == 0 {
        0
    } else {
        (n + per_group - 1) as nat / per_group
    }
}

/// That many groups are enough, and one fewer is not.
pub proof fn groups_are_enough(n: nat, per_group: nat)
    requires
        per_group > 0,
    ensures
        groups(n, per_group) * per_group >= n,
        n > 0 ==> groups(n, per_group) > 0 && (groups(n, per_group) - 1) * per_group < n,
        n == 0 ==> groups(n, per_group) == 0,
        groups(n, per_group) <= n,
{
    let g = groups(n, per_group);
    let m: int = n + per_group - 1;
    let p: int = per_group as int;
    vstd::arithmetic::div_mod::lemma_fundamental_div_mod(m, p);
    let q: int = m / p;
    assert(q * p <= m < q * p + p) by (nonlinear_arith)
        requires
            m == p * q + m % p,
            0 <= m % p < p,
    ;
    assert((q - 1) * p == q * p - p) by (nonlinear_arith);
    if n > 0 {
        assert(q > 0) by (nonlinear_arith)
            requires
                m < q * p + p,
                m >= p,
                p > 0,
        ;
        assert(q <= n) by (nonlinear_arith)
            requires
                q * p - p < n,
                p > 0,
                q > 0,
                n > 0,
        ;
    } else {
        assert(q == 0) by (nonlinear_arith)
            requires
                q * p <= m,
                m < q * p + p,
                m == p - 1,
                p > 0,
        ;
    }
}

/// The smallest number of groups that hold `n` items.
fn count_groups(n: usize, per_group: usize) -> (g: usize)
    requires
        per_group > 0,
    ensures
        g == groups(n as nat, per_group as nat),
{
    let q: usize = n / per_group;
    let r: usize = n % per_group;
    let ghost p = per_group as int;
    proof {
        vstd::arithmetic::div_mod::lemma_fundamental_div_mod(n as int, p);
        groups_are_enough(n as nat, per_group as nat);
        let g = groups(n as nat, per_group as nat) as int;
        assert(n == q * p + r) by (nonlinear_arith)
            requires
                n == p * q + r,
        ;
        if r == 0 {
            assert(g == q) by (nonlinear_arith)
                requires
                    n == q * p,
                    g * p >= n,
                    n > 0 ==> (g - 1) * p < n,
                    n == 0 ==> g == 0,
                    p > 0,
                    n >= 0,
                    q >= 0,
                    g >= 0,
            ;
        } else {
            assert(g == q + 1) by (nonlinear_arith)
                requires
                    n == q * p + r,
                    0 < r < p,
                    g * p >= n,
                    (g - 1) * p < n,
                    p > 0,
                    q >= 0,
            ;
        }
    }
    if r == 0 {
        q
    } else {
        q + 1
    }
}

/// Half-precision vectors of `hidden_size` numbers on a gate page.
pub open spec fn page_vectors(hidden_size: nat) -> nat {
    if hidden_size == 0 {
        0
    } else {
        GATE_DATA_BYTES as nat / (hidden_size * 2)
    }
}

/// Half-precision vectors of `hidden_size` numbers on a gate page.
pub fn vectors_per_gate_page(hidden_size: usize) -> (n: usize)
    ensures
        n == page_vectors(hidden_size as nat),
{
    if hidden_size == 0 {
        return 0;
    }
    let bytes_per_vec: u128 = hidden_size as u128 * 2;
    let n: u128 = GATE_DATA_BYTES as u128 / bytes_per_vec;
    assert(n <= GATE_DATA_BYTES) by (nonlinear_arith)
        requires
            n == GATE_DATA_BYTES as u128 / bytes_per_vec,
            bytes_per_vec >= 1,
    ;
    n as usize
}

/// The vectors of a page fit on it.
pub proof fn page_vectors_fit(hidden_size: nat)
    ensures
        page_vectors(hidden_size) * (hidden_size * 2) <= GATE_DATA_BYTES,
        page_vectors(hidden_size) <= GATE_DATA_BYTES,
{
    if hidden_size > 0 {
        let b: int = hidden_size as int * 2;
        vstd::arithmetic::div_mod::lemma_fundamental_div_mod(GATE_DATA_BYTES as int, b);
        let q = page_vectors(hidden_size) as int;
        assert(q * b <= GATE_DATA_BYTES && q <= GATE_DATA_BYTES) by (nonlinear_arith)
            requires
                GATE_DATA_BYTES == b * q + GATE_DATA_BYTES as int % b,
                0 <= GATE_DATA_BYTES as int % b,
                b >= 1,
                q >= 0,
        ;
    }
}

/// Gate pages for `num_features` vectors.
pub fn gate_pages_needed(num_features: usize, hidden_size: usize) -> (n: usize)
    ensures
        n == groups(num_features as nat, page_vectors(hidden_size as nat)),
{
    let per_page: usize = vectors_per_gate_page(hidden_size);
    if per_page == 0 {
        return 0;
    }
    count_groups(num_features, per_page)
}

/// Half-precision embeddings of `hidden_size` numbers on a page.
pub fn embeds_per_page(hidden_size: usize) -> (n: usize)
    ensures
        n == page_vectors(hidden_size as nat),
{
    vectors_per_gate_page(hidden_size)
}

/// Embedding pages for `vocab_size` tokens.
pub fn embed_pages_needed(vocab_size: usize, hidden_size: usize) -> (n: usize)
    ensures
        n == groups(vocab_size as nat, page_vectors(hidden_size as nat)),
{
    let per_page: usize = embeds_per_page(hidden_size);
    if per_page == 0 {
        return 0;
    }
    count_groups(vocab_size, per_page)
}

/// Down-meta pages for `num_features` records.
pub fn down_meta_pages_needed(num_features: usize) -> (n: usize)
    ensures
        n == groups(num_features as nat, DOWN_META_RECORDS_PER_PAGE as nat),
{
    count_groups(num_features, DOWN_META_RECORDS_PER_PAGE)
}

/// Blob pages for `total_bytes` bytes.
pub fn blob_pages_needed(total_bytes: usize) -> (n: usize)
    ensures
        n == groups(total_bytes as nat, BLOB_DATA_BYTES as nat),
{
    count_groups(total_bytes, BLOB_DATA_BYTES)
}

/// Where the fields of an entry stand, byte by byte.
pub proof fn layer_dir_entry_bytes(e: LayerDirEntry)
    ensures
        e.image().len() == 20,
        e.image().subrange(0, 2) == u16_le(e.layer_id),
        e.image().subrange(2, 4) == u16_le(e.num_features),
        e.image().subrange(4, 8) == u32_le(e.gate_start_blk),
        e.image().subrange(8, 10) == u16_le(e.gate_page_count),
        e.image().subrange(10, 14) == u32_le(e.down_start_blk),
        e.image().subrange(14, 16) == u16_le(e.down_page_count),
        e.image().subrange(16, 20) == seq![0u8, 0u8, 0u8, 0u8],
{
    let s = e.image();
    assert(s.subrange(0, 2) =~= u16_le(e.layer_id));
    assert(s.subrange(2, 4) =~= u16_le(e.num_features));
    assert(s.subrange(4, 8) =~= u32_le(e.gate_start_blk));
    assert(s.subrange(8, 10) =~= u16_le(e.gate_page_count));
    assert(s.subrange(10, 14) =~= u32_le(e.down_start_blk));
    assert(s.subrange(14, 16) =~= u16_le(e.down_page_count));
    assert(s.subrange(16, 20) =~= seq![0u8, 0u8, 0u8, 0u8]);
}

/// Where the fields of the headers of gate and blob pages stand, byte by byte.
pub proof fn page_header_bytes(g: GatePageHeader, b: BlobPageHeader)
    ensures
        g.image().len() == 8,
        g.image().subrange(0, 2) == u16_le(g.layer_id),
        g.image().subrange(2, 4) == u16_le(g.num_vectors),
        g.image().subrange(4, 8) == u32_le(g.first_feature_idx),
        b.image().len() == 8,
        b.image().subrange(0, 4) == u32_le(b.total_size),
        b.image().subrange(4, 8) == u32_le(b.page_bytes),
{
    assert(g.image().subrange(0, 2) =~= u16_le(g.layer_id));
    assert(g.image().subrange(2, 4) =~= u16_le(g.num_vectors));
    assert(g.image().subrange(4, 8) =~= u32_le(g.first_feature_idx));
    assert(b.image().subrange(0, 4) =~= u32_le(b.total_size));
    assert(b.image().subrange(4, 8) =~= u32_le(b.page_bytes));
}

/// What is read at a place is what the bytes there say, in the order in which
/// the fields are stored.
pub proof fn layer_dir_entry_is_read(data: Seq<u8>, at: int)
    requires
        0 <= at,
        at + 20 <= data.len(),
        data.subrange(at + 16, at + 20) == seq![0u8, 0u8, 0u8, 0u8],
    ensures
        LayerDirEntry::stored_at(data, at).image() == data.subrange(at, at + 20),
{
    let s = data.subrange(at, at + 20);
    let e = LayerDirEntry::stored_at(data, at);
    two_bytes(data.subrange(at, at + 2));
    two_bytes(data.subrange(at + 2, at + 4));
    four_bytes(data.subrange(at + 4, at + 8));
    two_bytes(data.subrange(at + 8, at + 10));
    four_bytes(data.subrange(at + 10, at + 14));
    two_bytes(data.subrange(at + 14, at + 16));
    assert(s =~= data.subrange(at, at + 2) + data.subrange(at + 2, at + 4) + data.subrange(
        at + 4,
        at + 8,
    ) + data.subrange(at + 8, at + 10) + data.subrange(at + 10, at + 14) + data.subrange(
        at + 14,
        at + 16,
    ) + data.subrange(at + 16, at + 20));
}

/// Two bytes are those of the number that they stand for.
proof fn two_bytes(s: Seq<u8>)
    requires
        s.len() == 2,
    ensures
        u16_le(u16_of_le(s)) == s,
{
    let x: u16 = u16_of_le(s);
    assert(x == s[0] + 256 * s[1]);
    assert(u16_le(x) =~= s);
}

/// Four bytes are those of the number that they stand for.
#[verifier::spinoff_prover]
proof fn four_bytes(s: Seq<u8>)
    requires
        s.len() == 4,
    ensures
        u32_le(u32_of_le(s)) == s,
{
    let x: u32 = u32_of_le(s);
    let a = s[0] as int;
    let b = s[1] as int;
    let c = s[2] as int;
    let d = s[3] as int;
    assert(x == a + 256 * (b + 256 * (c + 256 * d)));
    let y = b + 256 * (c + 256 * d);
    let z = c + 256 * d;
    assert(x as int % 256 == a && x as int / 256 == y);
    assert(y % 256 == b && y / 256 == z);
    assert(z % 256 == c && z / 256 == d);
    assert(x as int / 65536 == z) by {
        assert(x == (a + 256 * b) + 65536 * z);
    }
    assert(x as int / 16777216 == d) by {
        assert(x == (a + 256 * b + 65536 * c) + 16777216 * d);
    }
    assert(u32_le(x) =~= s);
}

/// The numbers on file of the kinds of pages count them, from one on, in the
/// order in which their first pages stand in an index.
pub proof fn page_kinds_are_numbered()
    ensures
        PageType::Meta.number() == 1,
        PageType::LayerDir.number() == PageType::Meta.number() + 1,
        PageType::Gate.number() == PageType::LayerDir.number() + 1,
        PageType::Embed.number() == PageType::Gate.number() + 1,
        PageType::DownMeta.number() == PageType::Embed.number() + 1,
        PageType::Blob.number() == PageType::DownMeta.number() + 1,
{
}

} // verus!
