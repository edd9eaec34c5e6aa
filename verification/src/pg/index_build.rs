//! Building the pages of a model index.
//!
//! Block 0 is the metapage and block 1 the layer directory. After them come
//! all gate vectors, layer by layer, the embeddings, the feature metadata and
//! the tokenizer, the last two as plain bytes.

use vstd::prelude::*;
use vstd::string::*;
use vstd::utf8::{decode_utf8, encode_utf8};

use crate::le::{
    append_u16, append_u32, u16_le, u16_le_round_trip, u16_of_le, u32_le, u32_le_round_trip,
    u32_of_le, words_le, words_le_at,
};
use crate::pg::pages::{
    blob_header_round_trip, blob_pages_needed, embed_pages_needed, embeds_per_page,
    gate_header_round_trip, gate_pages_needed, groups, groups_are_enough,
    layer_dir_entry_round_trip, page_vectors, page_vectors_fit, vectors_per_gate_page,
    BlobPageHeader, GatePageHeader, InferPageOpaque, LayerDirEntry, PageType,
    BLOB_DATA_BYTES, INFER_FORMAT_VERSION, INFER_MAGIC, INFER_USABLE_PER_PAGE, INVALID_BLOCK_NUMBER,
    LAYER_DIR_ENTRY_SIZE, MAX_LAYERS_PER_DIR_PAGE, META_SIZE, MODEL_NAME_BYTES, NO_LAYER,
    SECTION_HEADER_SIZE, SOURCE_URI_BYTES,
};
use crate::text::{decode_lossy, lossy_utf8};

verus! {

/// One layer of the model.
#[derive(Debug, Clone, Copy)]
pub struct LayerInfo {
    /// Number of the layer.
    pub layer: usize,
    pub num_features: usize,
    /// Where the layer's vectors begin in `gate_data`, in bytes.
    pub offset: u64,
}

/// What an index is built from: the configuration of a model and the contents
/// of its files. `embed_scale` is a binary32 pattern.
pub struct IndexSource {
    pub num_layers: usize,
    pub hidden_size: usize,
    pub vocab_size: usize,
    pub embed_scale: u32,
    pub down_top_k: usize,
    pub model: String,
    pub layers: Vec<LayerInfo>,
    pub gate_data: Vec<u8>,
    pub embed_data: Vec<u8>,
    pub down_data: Vec<u8>,
    pub tok_data: Vec<u8>,
    pub source_path: String,
}

/// A page: its kind, the layer that it belongs to, and what stands at the
/// start of its data area. The rest of the data area is zero.
pub struct Page {
    pub opaque: InferPageOpaque,
    pub data: Vec<u8>,
}

/// What a page holds.
#[verifier::ext_equal]
pub struct PageView {
    pub page_type: u8,
    pub flags: u8,
    pub layer_id: u16,
    pub next_blkno: u32,
    pub reserved: Seq<u8>,
    pub data: Seq<u8>,
}

impl View for Page {
    type V = PageView;

    open spec fn view(&self) -> PageView {
        PageView {
            page_type: self.opaque.page_type,
            flags: self.opaque.flags,
            layer_id: self.opaque.layer_id,
            next_blkno: self.opaque.next_blkno,
            reserved: self.opaque.reserved@,
            data: self.data@,
        }
    }
}

/// A page without flags and without a next block.
pub open spec fn plain_page(kind: PageType, layer: u16, data: Seq<u8>) -> PageView {
    PageView {
        page_type: kind.number(),
        flags: 0,
        layer_id: layer,
        next_blkno: INVALID_BLOCK_NUMBER,
        reserved: Seq::new(8, |j: int| 0u8),
        data,
    }
}

/// What the pages of a list hold.
pub open spec fn page_views(pages: Seq<Page>) -> Seq<PageView> {
    Seq::new(pages.len(), |i: int| pages[i]@)
}

/// Where the sections of an index stand: each begins at its start and ends
/// before its end.
#[derive(Debug, Clone, Copy)]
pub struct BlockPlan {
    pub layer_dir_blk: u32,
    pub gate_start_blk: u32,
    pub gate_end_blk: u32,
    pub embed_start_blk: u32,
    pub embed_end_blk: u32,
    pub down_start_blk: u32,
    pub down_end_blk: u32,
    pub tok_start_blk: u32,
    pub tok_end_blk: u32,
    pub total_pages: u32,
}

/// Gate pages of all layers together.
pub open spec fn gate_page_sum(layers: Seq<LayerInfo>, hidden_size: usize) -> nat
    decreases layers.len(),
{
    if layers.len() == 0 {
        0
    } else {
        gate_page_sum(layers.drop_last(), hidden_size) + groups(
            layers.last().num_features as nat,
            page_vectors(hidden_size as nat),
        )
    }
}

impl IndexSource {
    /// First block after all gate pages.
    pub open spec fn gate_end(&self) -> nat {
        2 + gate_page_sum(self.layers@, self.hidden_size)
    }

    /// First block after the embeddings.
    pub open spec fn embed_end(&self) -> nat {
        self.gate_end() + groups(self.vocab_size as nat, page_vectors(self.hidden_size as nat))
    }

    /// First block after the feature metadata.
    pub open spec fn down_end(&self) -> nat {
        self.embed_end() + groups(self.down_data@.len(), BLOB_DATA_BYTES as nat)
    }

    /// First block after the tokenizer, which is the number of pages.
    pub open spec fn tok_end(&self) -> nat {
        self.down_end() + groups(self.tok_data@.len(), BLOB_DATA_BYTES as nat)
    }

    /// Whether the source makes an index: blocks can be numbered, the
    /// directory has room for every layer, and a vector fits on a page where
    /// there are vectors.
    pub open spec fn fits(&self) -> bool {
        &&& self.tok_end() <= u32::MAX
        &&& self.layers@.len() <= MAX_LAYERS_PER_DIR_PAGE
        &&& page_vectors(self.hidden_size as nat) == 0 ==> self.vocab_size == 0 && forall|i: int|
            0 <= i < self.layers@.len() ==> (#[trigger] self.layers@[i]).num_features == 0
    }

    /// Where the sections stand.
    pub open spec fn plan(&self) -> BlockPlan {
        BlockPlan {
            layer_dir_blk: 1,
            gate_start_blk: 2,
            gate_end_blk: self.gate_end() as u32,
            embed_start_blk: self.gate_end() as u32,
            embed_end_blk: self.embed_end() as u32,
            down_start_blk: self.embed_end() as u32,
            down_end_blk: self.down_end() as u32,
            tok_start_blk: self.down_end() as u32,
            tok_end_blk: self.tok_end() as u32,
            total_pages: self.tok_end() as u32,
        }
    }

    /// Number of pages of the index.
    fn count_pages(&self) -> (ends: (u128, u128, u128, u128))
        requires
            self.layers@.len() <= MAX_LAYERS_PER_DIR_PAGE,
        ensures
            ends.0 == self.gate_end(),
            ends.1 == self.embed_end(),
            ends.2 == self.down_end(),
            ends.3 == self.tok_end(),
    {
        let mut gate_end: u128 = 2;
        let mut i: usize = 0;
        while i < self.layers.len()
            invariant
                i <= self.layers@.len() <= MAX_LAYERS_PER_DIR_PAGE,
                gate_end == 2 + gate_page_sum(self.layers@.take(i as int), self.hidden_size),
                gate_end <= 2 + i * 0x1_0000_0000_0000_0000,
            decreases self.layers@.len() - i,
        {
            let n: usize = gate_pages_needed(self.layers[i].num_features, self.hidden_size);
            gate_end = gate_end + n as u128;
            i = i + 1;
            proof {
                let t = self.layers@.take(i as int);
                assert(t.drop_last() =~= self.layers@.take(i - 1));
                assert(t.last() == self.layers@[i - 1]);
            }
        }
        assert(self.layers@.take(i as int) =~= self.layers@);
        let embed_end: u128 = gate_end + embed_pages_needed(
            self.vocab_size,
            self.hidden_size,
        ) as u128;
        let down_end: u128 = embed_end + blob_pages_needed(self.down_data.len()) as u128;
        let tok_end: u128 = down_end + blob_pages_needed(self.tok_data.len()) as u128;
        (gate_end, embed_end, down_end, tok_end)
    }

    /// Whether an index can be built.
    pub fn can_build(&self) -> (r: bool)
        ensures
            r == self.fits(),
    {
        if self.layers.len() > MAX_LAYERS_PER_DIR_PAGE {
            return false;
        }
        let ends: (u128, u128, u128, u128) = self.count_pages();
        if ends.3 > u32::MAX as u128 {
            return false;
        }
        if vectors_per_gate_page(self.hidden_size) > 0 {
            return true;
        }
        if self.vocab_size != 0 {
            return false;
        }
        let mut i: usize = 0;
        while i < self.layers.len()
            invariant
                i <= self.layers@.len(),
                page_vectors(self.hidden_size as nat) == 0,
                forall|k: int|
                    0 <= k < i ==> (#[trigger] self.layers@[k]).num_features == 0,
            decreases self.layers@.len() - i,
        {
            if self.layers[i].num_features != 0 {
                assert(self.layers@[i as int].num_features != 0);
                return false;
            }
            i = i + 1;
        }
        true
    }

    /// Lays the sections out.
    pub fn plan_blocks(&self) -> (p: BlockPlan)
        requires
            self.fits(),
        ensures
            p == self.plan(),
            p.total_pages == self.tok_end(),
    {
        let ends: (u128, u128, u128, u128) = self.count_pages();
        BlockPlan {
            layer_dir_blk: 1,
            gate_start_blk: 2,
            gate_end_blk: ends.0 as u32,
            embed_start_blk: ends.0 as u32,
            embed_end_blk: ends.1 as u32,
            down_start_blk: ends.1 as u32,
            down_end_blk: ends.2 as u32,
            tok_start_blk: ends.2 as u32,
            tok_end_blk: ends.3 as u32,
            total_pages: ends.3 as u32,
        }
    }
}

/// The metapage. Scores and the scale are binary32 patterns.
pub struct InferMetaPage {
    pub magic: u32,
    pub format_version: u32,
    pub model_name: String,
    pub num_layers: u32,
    pub hidden_size: u32,
    pub features_per_layer: u32,
    pub vocab_size: u32,
    pub embed_scale: u32,
    /// 0: single precision, 1: half precision, 2: Q4_K.
    pub gate_dtype: u8,
    /// 0: single precision, 1: half precision.
    pub embed_dtype: u8,
    pub down_top_k: u16,
    /// 0: browse, 1: inference, 2: all.
    pub extract_level: u8,
    pub blocks: BlockPlan,
    pub max_gate_score: u32,
    pub mean_gate_score: u32,
    pub source_uri: String,
}

/// As many bytes of `bytes` as leave room for a zero byte in a field of
/// `size` bytes, and zeros after them.
pub open spec fn zero_ended(bytes: Seq<u8>, size: nat) -> Seq<u8> {
    let n = if bytes.len() < size {
        bytes.len() as int
    } else {
        size - 1
    };
    bytes.take(n) + Seq::new((size - n) as nat, |i: int| 0u8)
}

/// The bytes of `field` before its first zero byte.
pub open spec fn until_zero(field: Seq<u8>) -> Seq<u8>
    decreases field.len(),
{
    if field.len() == 0 || field[0] == 0 {
        seq![]
    } else {
        seq![field[0]] + until_zero(field.drop_first())
    }
}

/// A text without zero bytes that leaves room for one is found again.
proof fn until_zero_of_zero_ended(bytes: Seq<u8>, zeros: nat)
    requires
        zeros > 0,
        forall|i: int| 0 <= i < bytes.len() ==> #[trigger] bytes[i] != 0,
    ensures
        until_zero(bytes + Seq::new(zeros, |i: int| 0u8)) == bytes,
    decreases bytes.len(),
{
    let field = bytes + Seq::new(zeros, |i: int| 0u8);
    if bytes.len() == 0 {
        assert(field[0] == 0u8);
        assert(until_zero(field) =~= bytes);
    } else {
        let rest = bytes.drop_first();
        assert(field[0] == bytes[0] && bytes[0] != 0);
        assert forall|i: int| 0 <= i < rest.len() implies #[trigger] rest[i] != 0 by {
            assert(rest[i] == bytes[i + 1]);
        }
        until_zero_of_zero_ended(rest, zeros);
        assert(field.drop_first() =~= rest + Seq::new(zeros, |i: int| 0u8));
        assert(seq![bytes[0]] + rest =~= bytes);
    }
}

/// Appends a text field.
fn append_zero_ended(out: &mut Vec<u8>, text: &str, size: usize)
    requires
        size > 0,
    ensures
        final(out)@ == old(out)@ + zero_ended(encode_utf8(text@), size as nat),
{
    let bytes: &[u8] = text.as_bytes();
    let ghost all = encode_utf8(text@);
    let n: usize = if bytes.len() < size {
        bytes.len()
    } else {
        size - 1
    };
    let mut i: usize = 0;
    while i < n
        invariant
            i <= n <= bytes@.len(),
            bytes@ == all,
            out@ == old(out)@ + all.take(i as int),
        decreases n - i,
    {
        out.push(bytes[i]);
        i = i + 1;
        assert(out@ =~= old(out)@ + all.take(i as int));
    }
    let mut k: usize = n;
    while k < size
        invariant
            n <= k <= size,
            out@ == old(out)@ + all.take(n as int) + Seq::new((k - n) as nat, |j: int| 0u8),
        decreases size - k,
    {
        out.push(0);
        k = k + 1;
        assert(out@ =~= old(out)@ + all.take(n as int) + Seq::new((k - n) as nat, |j: int| 0u8));
    }
    assert(out@ =~= old(out)@ + zero_ended(all, size as nat));
}

impl InferMetaPage {
    /// The magic number, the version and the model's name.
    #[verifier::opaque]
    pub open spec fn image_head(&self) -> Seq<u8> {
        u32_le(self.magic) + u32_le(self.format_version) + zero_ended(
            encode_utf8(self.model_name@),
            MODEL_NAME_BYTES as nat,
        )
    }

    /// The dimensions of the model.
    #[verifier::opaque]
    pub open spec fn image_shape(&self) -> Seq<u8> {
        u32_le(self.num_layers) + u32_le(self.hidden_size) + u32_le(self.features_per_layer)
            + u32_le(self.vocab_size) + u32_le(self.embed_scale) + seq![
            self.gate_dtype,
            self.embed_dtype,
        ] + u16_le(self.down_top_k) + seq![self.extract_level, 0u8, 0u8, 0u8]
    }

    /// The section table and what follows it.
    #[verifier::opaque]
    pub open spec fn image_tail(&self) -> Seq<u8> {
        u32_le(self.blocks.layer_dir_blk) + u32_le(self.blocks.gate_start_blk) + u32_le(
            self.blocks.gate_end_blk,
        ) + u32_le(self.blocks.embed_start_blk) + u32_le(self.blocks.embed_end_blk) + u32_le(
            self.blocks.down_start_blk,
        ) + u32_le(self.blocks.down_end_blk) + u32_le(self.blocks.tok_start_blk) + u32_le(
            self.blocks.tok_end_blk,
        ) + u32_le(self.max_gate_score) + u32_le(self.mean_gate_score) + u32_le(
            self.blocks.total_pages,
        ) + zero_ended(encode_utf8(self.source_uri@), SOURCE_URI_BYTES as nat)
    }

    /// The stored form of the metapage.
    pub open spec fn image(&self) -> Seq<u8> {
        self.image_head() + (self.image_shape() + self.image_tail())
    }

    /// Appends the magic number, the version and the model's name.
    fn append_head(&self, out: &mut Vec<u8>)
        ensures
            final(out)@ == old(out)@ + self.image_head(),
    {
        append_u32(out, self.magic);
        append_u32(out, self.format_version);
        append_zero_ended(out, self.model_name.as_str(), MODEL_NAME_BYTES);
        reveal(InferMetaPage::image_head);
        assert(out@ =~= old(out)@ + self.image_head());
    }

    /// Appends the dimensions of the model.
    fn append_shape(&self, out: &mut Vec<u8>)
        ensures
            final(out)@ == old(out)@ + self.image_shape(),
    {
        append_u32(out, self.num_layers);
        append_u32(out, self.hidden_size);
        append_u32(out, self.features_per_layer);
        append_u32(out, self.vocab_size);
        append_u32(out, self.embed_scale);
        out.push(self.gate_dtype);
        out.push(self.embed_dtype);
        append_u16(out, self.down_top_k);
        out.push(self.extract_level);
        out.push(0);
        out.push(0);
        out.push(0);
        reveal(InferMetaPage::image_shape);
        assert(out@ =~= old(out)@ + self.image_shape());
    }

    /// Appends the section table and what follows it.
    #[verifier::spinoff_prover]
    #[verifier::rlimit(40)]
    fn append_tail(&self, out: &mut Vec<u8>)
        ensures
            final(out)@ == old(out)@ + self.image_tail(),
    {
        append_u32(out, self.blocks.layer_dir_blk);
        append_u32(out, self.blocks.gate_start_blk);
        append_u32(out, self.blocks.gate_end_blk);
        append_u32(out, self.blocks.embed_start_blk);
        append_u32(out, self.blocks.embed_end_blk);
        append_u32(out, self.blocks.down_start_blk);
        append_u32(out, self.blocks.down_end_blk);
        append_u32(out, self.blocks.tok_start_blk);
        append_u32(out, self.blocks.tok_end_blk);
        append_u32(out, self.max_gate_score);
        append_u32(out, self.mean_gate_score);
        append_u32(out, self.blocks.total_pages);
        append_zero_ended(out, self.source_uri.as_str(), SOURCE_URI_BYTES);
        reveal(InferMetaPage::image_tail);
        assert(out@ =~= old(out)@ + self.image_tail());
    }

    /// The stored form of the metapage.
    pub fn to_bytes(&self) -> (out: Vec<u8>)
        ensures
            out@ == self.image(),
            out@.len() == META_SIZE,
    {
        let mut out: Vec<u8> = Vec::new();
        self.append_head(&mut out);
        self.append_shape(&mut out);
        self.append_tail(&mut out);
        assert(out@ =~= self.image());
        proof {
            meta_image_len(*self);
        }
        out
    }
}

/// The bytes of the model's name on a stored metapage.
pub open spec fn stored_model_name(data: Seq<u8>) -> Seq<u8> {
    until_zero(data.subrange(8, 8 + MODEL_NAME_BYTES))
}

/// The bytes before the first zero byte.
proof fn until_zero_is(field: Seq<u8>, n: int)
    requires
        0 <= n <= field.len(),
        forall|i: int| 0 <= i < n ==> #[trigger] field[i] != 0,
        n < field.len() ==> field[n] == 0,
    ensures
        until_zero(field) == field.take(n),
    decreases n,
{
    if n == 0 {
        assert(until_zero(field) =~= field.take(n));
    } else {
        let rest = field.drop_first();
        assert(field[0] != 0);
        assert forall|i: int| 0 <= i < n - 1 implies #[trigger] rest[i] != 0 by {
            assert(rest[i] == field[i + 1]);
        }
        until_zero_is(rest, n - 1);
        assert(seq![field[0]] + rest.take(n - 1) =~= field.take(n));
    }
}

/// Reads the model's name from a stored metapage.
pub fn read_model_name(data: &[u8]) -> (name: String)
    requires
        8 + MODEL_NAME_BYTES <= data@.len(),
    ensures
        name@ == lossy_utf8(stored_model_name(data@)),
        vstd::utf8::valid_utf8(stored_model_name(data@)) ==> name@ == decode_utf8(
            stored_model_name(data@),
        ),
{
    let ghost field = data@.subrange(8, 8 + MODEL_NAME_BYTES);
    let mut n: usize = 0;
    while n < MODEL_NAME_BYTES && data[8 + n] != 0
        invariant
            n <= MODEL_NAME_BYTES,
            8 + MODEL_NAME_BYTES <= data@.len(),
            field == data@.subrange(8, 8 + MODEL_NAME_BYTES),
            forall|i: int| 0 <= i < n ==> #[trigger] field[i] != 0,
        decreases MODEL_NAME_BYTES - n,
    {
        n = n + 1;
    }
    proof {
        until_zero_is(field, n as int);
        assert(field.take(n as int) =~= data@.subrange(8, 8 + n));
    }
    decode_lossy(vstd::slice::slice_subrange(data, 8, 8 + n))
}

/// The middle of three parts.
proof fn middle_of(a: Seq<u8>, b: Seq<u8>, c: Seq<u8>)
    ensures
        (a + b + c).subrange(a.len() as int, a.len() as int + b.len() as int) == b,
{
    assert((a + b + c).subrange(a.len() as int, a.len() as int + b.len() as int) =~= b);
}

/// A model's name of at most 127 bytes without a zero byte is read back from
/// the metapage as it was written.
pub proof fn model_name_round_trip(meta: InferMetaPage)
    requires
        encode_utf8(meta.model_name@).len() < MODEL_NAME_BYTES,
        forall|i: int|
            0 <= i < encode_utf8(meta.model_name@).len() ==> #[trigger] encode_utf8(
                meta.model_name@,
            )[i] != 0,
    ensures
        stored_model_name(meta.image()) == encode_utf8(meta.model_name@),
        decode_utf8(stored_model_name(meta.image())) == meta.model_name@,
{
    let bytes = encode_utf8(meta.model_name@);
    let field = zero_ended(bytes, MODEL_NAME_BYTES as nat);
    let front = u32_le(meta.magic) + u32_le(meta.format_version);
    let rest = meta.image_shape() + meta.image_tail();
    reveal(InferMetaPage::image_head);
    assert(field.len() == MODEL_NAME_BYTES);
    middle_of(front, field, rest);
    assert(bytes.take(bytes.len() as int) =~= bytes);
    until_zero_of_zero_ended(bytes, (MODEL_NAME_BYTES - bytes.len()) as nat);
    vstd::utf8::encode_utf8_decode_utf8(meta.model_name@);
}

/// A page of vectors: page `k` of those that hold `count` vectors of
/// `vec_bytes` bytes, `per_page` on each but the last. Vector `i` stands at
/// `base + i * vec_bytes` of `data`; where the vectors of a page are not all
/// there, the page has a header alone.
pub open spec fn vector_page(
    kind: PageType,
    layer: u16,
    data: Seq<u8>,
    base: nat,
    count: nat,
    per_page: nat,
    vec_bytes: nat,
    k: int,
) -> PageView {
    let first = k * per_page;
    let n = if count - first < per_page {
        count - first
    } else {
        per_page as int
    };
    let start = base + first * vec_bytes;
    let end = start + n * vec_bytes;
    let header = GatePageHeader {
        layer_id: layer,
        num_vectors: n as u16,
        first_feature_idx: first as u32,
    };
    plain_page(
        kind,
        layer,
        header.image() + (if end <= data.len() {
            data.subrange(start, end)
        } else {
            seq![]
        }),
    )
}

/// The pages that hold `count` vectors.
pub open spec fn vector_pages(
    kind: PageType,
    layer: u16,
    data: Seq<u8>,
    base: nat,
    count: nat,
    per_page: nat,
    vec_bytes: nat,
) -> Seq<PageView> {
    Seq::new(
        groups(count, per_page),
        |k: int| vector_page(kind, layer, data, base, count, per_page, vec_bytes, k),
    )
}

/// All layers' gate pages.
pub open spec fn gate_pages(layers: Seq<LayerInfo>, data: Seq<u8>, hidden_size: usize) -> Seq<
    PageView,
>
    decreases layers.len(),
{
    if layers.len() == 0 {
        seq![]
    } else {
        gate_pages(layers.drop_last(), data, hidden_size) + vector_pages(
            PageType::Gate,
            layers.last().layer as u16,
            data,
            layers.last().offset as nat,
            layers.last().num_features as nat,
            page_vectors(hidden_size as nat),
            hidden_size as nat * 2,
        )
    }
}

/// Page `k` of a blob.
pub open spec fn blob_page(data: Seq<u8>, k: int) -> PageView {
    let first = k * BLOB_DATA_BYTES;
    let n = if data.len() - first < BLOB_DATA_BYTES {
        data.len() - first
    } else {
        BLOB_DATA_BYTES as int
    };
    let header = BlobPageHeader { total_size: data.len() as u32, page_bytes: n as u32 };
    plain_page(PageType::Blob, NO_LAYER, header.image() + data.subrange(first, first + n))
}

/// The pages of a blob.
pub open spec fn blob_pages(data: Seq<u8>) -> Seq<PageView> {
    Seq::new(groups(data.len(), BLOB_DATA_BYTES as nat), |k: int| blob_page(data, k))
}

/// The directory entry of layer `layers.len()`, which comes after `layers`.
pub open spec fn dir_entry(
    layers: Seq<LayerInfo>,
    layer: LayerInfo,
    hidden_size: usize,
    down_start: u32,
) -> LayerDirEntry {
    LayerDirEntry {
        layer_id: layers.len() as u16,
        num_features: layer.num_features as u16,
        gate_start_blk: (2 + gate_page_sum(layers, hidden_size)) as u32,
        gate_page_count: groups(
            layer.num_features as nat,
            page_vectors(hidden_size as nat),
        ) as u16,
        down_start_blk: down_start,
        down_page_count: 0,
    }
}

/// The layer directory.
pub open spec fn directory(layers: Seq<LayerInfo>, hidden_size: usize, down_start: u32) -> Seq<u8>
    decreases layers.len(),
{
    if layers.len() == 0 {
        seq![]
    } else {
        directory(layers.drop_last(), hidden_size, down_start) + dir_entry(
            layers.drop_last(),
            layers.last(),
            hidden_size,
            down_start,
        ).image()
    }
}

impl IndexSource {
    /// Whether `meta` is the metapage of the index.
    pub open spec fn described_by(&self, meta: InferMetaPage) -> bool {
        &&& meta.magic == INFER_MAGIC
        &&& meta.format_version == INFER_FORMAT_VERSION
        &&& meta.model_name@ == self.model@
        &&& meta.num_layers == self.num_layers as u32
        &&& meta.hidden_size == self.hidden_size as u32
        &&& meta.features_per_layer == (if self.layers@.len() == 0 {
            0
        } else {
            self.layers@[0].num_features as u32
        })
        &&& meta.vocab_size == self.vocab_size as u32
        &&& meta.embed_scale == self.embed_scale
        &&& meta.gate_dtype == 1
        &&& meta.embed_dtype == 1
        &&& meta.down_top_k == self.down_top_k as u16
        &&& meta.extract_level == 0
        &&& meta.blocks == self.plan()
        &&& meta.max_gate_score == 0
        &&& meta.mean_gate_score == 0
        &&& meta.source_uri@ == self.source_path@
    }

    /// The metapage of the index.
    pub fn meta(&self) -> (meta: InferMetaPage)
        requires
            self.fits(),
        ensures
            self.described_by(meta),
    {
        InferMetaPage {
            magic: INFER_MAGIC,
            format_version: INFER_FORMAT_VERSION,
            model_name: self.model.clone(),
            num_layers: self.num_layers as u32,
            hidden_size: self.hidden_size as u32,
            features_per_layer: if self.layers.len() == 0 {
                0
            } else {
                self.layers[0].num_features as u32
            },
            vocab_size: self.vocab_size as u32,
            embed_scale: self.embed_scale,
            gate_dtype: 1,
            embed_dtype: 1,
            down_top_k: self.down_top_k as u16,
            extract_level: 0,
            blocks: self.plan_blocks(),
            max_gate_score: 0,
            mean_gate_score: 0,
            source_uri: self.source_path.clone(),
        }
    }

    /// The directory page.
    pub open spec fn directory_page(&self) -> PageView {
        plain_page(
            PageType::LayerDir,
            NO_LAYER,
            directory(self.layers@, self.hidden_size, self.embed_end() as u32),
        )
    }

    /// The embedding pages.
    pub open spec fn embedding_pages(&self) -> Seq<PageView> {
        vector_pages(
            PageType::Embed,
            NO_LAYER,
            self.embed_data@,
            0,
            self.vocab_size as nat,
            page_vectors(self.hidden_size as nat),
            self.hidden_size as nat * 2,
        )
    }

    /// The pages after the metapage.
    pub open spec fn body_pages(&self) -> Seq<PageView> {
        seq![self.directory_page()] + gate_pages(self.layers@, self.gate_data@, self.hidden_size)
            + self.embedding_pages() + blob_pages(self.down_data@) + blob_pages(self.tok_data@)
    }
}

/// Appends a page.
fn append_page(pages: &mut Vec<Page>, kind: PageType, layer: u16, data: Vec<u8>)
    ensures
        page_views(final(pages)@) == page_views(old(pages)@).push(
            plain_page(kind, layer, data@),
        ),
{
    let mut opaque: InferPageOpaque = InferPageOpaque::new(kind);
    opaque.layer_id = layer;
    pages.push(Page { opaque, data });
    assert(page_views(pages@) =~= page_views(old(pages)@).push(
        plain_page(kind, layer, data@),
    ));
}

/// Appends the bytes `from..to` of `data`.
fn append_range(out: &mut Vec<u8>, data: &Vec<u8>, from: usize, to: usize)
    requires
        from <= to <= data@.len(),
    ensures
        final(out)@ == old(out)@ + data@.subrange(from as int, to as int),
{
    let mut i: usize = from;
    while i < to
        invariant
            from <= i <= to <= data@.len(),
            out@ == old(out)@ + data@.subrange(from as int, i as int),
        decreases to - i,
    {
        out.push(data[i]);
        i = i + 1;
        assert(out@ =~= old(out)@ + data@.subrange(from as int, i as int));
    }
}

/// Appends the pages that hold `count` vectors.
fn append_vector_pages(
    pages: &mut Vec<Page>,
    kind: PageType,
    layer: u16,
    data: &Vec<u8>,
    base: u64,
    count: usize,
    per_page: usize,
    hidden_size: usize,
)
    requires
        per_page == page_vectors(hidden_size as nat),
        count > 0 ==> per_page > 0,
    ensures
        page_views(final(pages)@) == page_views(old(pages)@) + vector_pages(
            kind,
            layer,
            data@,
            base as nat,
            count as nat,
            per_page as nat,
            hidden_size as nat * 2,
        ),
{
    let ghost want = vector_pages(
        kind,
        layer,
        data@,
        base as nat,
        count as nat,
        per_page as nat,
        hidden_size as nat * 2,
    );
    let ghost start_views = page_views(pages@);
    let ghost mut k: int = 0;
    let mut first: usize = 0;
    proof {
        if count > 0 {
            groups_are_enough(count as nat, per_page as nat);
        } else if per_page > 0 {
            groups_are_enough(0, per_page as nat);
        }
        page_vectors_fit(hidden_size as nat);
        assert(0 == 0 * per_page) by (nonlinear_arith);
        assert(start_views =~= start_views + want.take(0));
        assert(count > 0 ==> want.len() > 0);
    }
    while first < count
        invariant
            count > 0 ==> per_page > 0,
            per_page == page_vectors(hidden_size as nat),
            per_page * (hidden_size * 2) <= 8144,
            per_page <= 8144,
            0 <= k <= want.len(),
            first <= count,
            first < count ==> first == k * per_page,
            first == count ==> k == want.len(),
            first < count ==> k < want.len(),
            want == vector_pages(
                kind,
                layer,
                data@,
                base as nat,
                count as nat,
                per_page as nat,
                hidden_size as nat * 2,
            ),
            page_views(pages@) == start_views + want.take(k),
        decreases count - first,
    {
        let n: usize = if count - first < per_page {
            count - first
        } else {
            per_page
        };
        let header: GatePageHeader = GatePageHeader {
            layer_id: layer,
            num_vectors: n as u16,
            first_feature_idx: first as u32,
        };
        let mut bytes: Vec<u8> = Vec::new();
        header.append_to(&mut bytes);
        let vec_bytes: u128 = hidden_size as u128 * 2;
        proof {
            assert(first * vec_bytes <= 0x1_0000_0000_0000_0000 * 0x2_0000_0000_0000_0000)
                by (nonlinear_arith)
                requires
                    first <= 0x1_0000_0000_0000_0000,
                    vec_bytes <= 0x2_0000_0000_0000_0000,
            ;
            assert(vec_bytes <= 8144) by (nonlinear_arith)
                requires
                    per_page * vec_bytes <= 8144,
                    per_page >= 1,
                    vec_bytes >= 0,
            ;
            assert(first * vec_bytes <= 0x1_0000_0000_0000_0000 * 8144) by (nonlinear_arith)
                requires
                    first <= 0x1_0000_0000_0000_0000,
                    0 <= vec_bytes <= 8144,
            ;
            assert(n * vec_bytes <= per_page * vec_bytes) by (nonlinear_arith)
                requires
                    n <= per_page,
                    vec_bytes >= 0,
            ;
        }
        let start: u128 = base as u128 + first as u128 * vec_bytes;
        let end: u128 = start + n as u128 * vec_bytes;
        if end <= data.len() as u128 {
            append_range(&mut bytes, data, start as usize, end as usize);
        }
        assert(header.image() + Seq::<u8>::empty() =~= header.image());
        assert(bytes@ =~= vector_page(
            kind,
            layer,
            data@,
            base as nat,
            count as nat,
            per_page as nat,
            hidden_size as nat * 2,
            k,
        ).data);
        append_page(pages, kind, layer, bytes);
        proof {
            assert(page_views(pages@) =~= start_views + want.take(k + 1));
            groups_are_enough(count as nat, per_page as nat);
            let g = want.len() as int;
            assert((k + 1) * per_page == k * per_page + per_page) by (nonlinear_arith);
            if first + n == count {
                assert(k + 1 == g) by (nonlinear_arith)
                    requires
                        (g - 1) * per_page < count,
                        count <= k * per_page + per_page,
                        k * per_page < count,
                        g * per_page >= count,
                        per_page > 0,
                ;
            } else {
                assert(k + 1 < g) by (nonlinear_arith)
                    requires
                        k * per_page + per_page < count,
                        g * per_page >= count,
                        per_page > 0,
                ;
            }
            k = k + 1;
        }
        first = first + n;
    }
    assert(want.take(k) =~= want);
}

/// Appends the pages of a blob.
fn append_blob_pages(pages: &mut Vec<Page>, data: &Vec<u8>)
    ensures
        page_views(final(pages)@) == page_views(old(pages)@) + blob_pages(data@),
{
    let ghost want = blob_pages(data@);
    let ghost start_views = page_views(pages@);
    let total: usize = data.len();
    let ghost mut k: int = 0;
    let mut first: usize = 0;
    proof {
        groups_are_enough(data@.len(), BLOB_DATA_BYTES as nat);
        assert(start_views =~= start_views + want.take(0));
    }
    while first < total
        invariant
            total == data@.len(),
            first <= total,
            0 <= k <= want.len(),
            first < total ==> first == k * BLOB_DATA_BYTES,
            first == total ==> k == want.len(),
            first < total ==> k < want.len(),
            want == blob_pages(data@),
            page_views(pages@) == start_views + want.take(k),
        decreases total - first,
    {
        let n: usize = if total - first < BLOB_DATA_BYTES {
            total - first
        } else {
            BLOB_DATA_BYTES
        };
        let header: BlobPageHeader = BlobPageHeader {
            total_size: total as u32,
            page_bytes: n as u32,
        };
        let mut bytes: Vec<u8> = Vec::new();
        header.append_to(&mut bytes);
        append_range(&mut bytes, data, first, first + n);
        assert(bytes@ =~= blob_page(data@, k).data);
        append_page(pages, PageType::Blob, NO_LAYER, bytes);
        proof {
            assert(page_views(pages@) =~= start_views + want.take(k + 1));
            groups_are_enough(data@.len(), BLOB_DATA_BYTES as nat);
            k = k + 1;
        }
        first = first + n;
    }
    assert(want.take(k) =~= want);
}

/// Builds the layer directory.
fn build_directory(source: &IndexSource, down_start: u32) -> (dir: Vec<u8>)
    requires
        source.fits(),
    ensures
        dir@ == directory(source.layers@, source.hidden_size, down_start),
{
    let mut dir: Vec<u8> = Vec::new();
    let mut cursor: u32 = 2;
    let mut i: usize = 0;
    while i < source.layers.len()
        invariant
            source.fits(),
            i <= source.layers@.len(),
            cursor == 2 + gate_page_sum(source.layers@.take(i as int), source.hidden_size),
            dir@ == directory(source.layers@.take(i as int), source.hidden_size, down_start),
        decreases source.layers@.len() - i,
    {
        let layer: LayerInfo = source.layers[i];
        let count: usize = gate_pages_needed(layer.num_features, source.hidden_size);
        let entry: LayerDirEntry = LayerDirEntry {
            layer_id: i as u16,
            num_features: layer.num_features as u16,
            gate_start_blk: cursor,
            gate_page_count: count as u16,
            down_start_blk: down_start,
            down_page_count: 0,
        };
        entry.append_to(&mut dir);
        proof {
            let t = source.layers@.take(i + 1);
            assert(t.drop_last() =~= source.layers@.take(i as int));
            assert(t.last() == layer);
            gate_page_sum_grows(source.layers@, i + 1, source.hidden_size);
        }
        cursor = cursor + count as u32;
        i = i + 1;
    }
    assert(source.layers@.take(i as int) =~= source.layers@);
    dir
}

/// Appends all layers' gate pages.
fn append_gate_pages(pages: &mut Vec<Page>, source: &IndexSource)
    requires
        source.fits(),
    ensures
        page_views(final(pages)@) == page_views(old(pages)@) + gate_pages(
            source.layers@,
            source.gate_data@,
            source.hidden_size,
        ),
{
    let ghost done = page_views(pages@);
    let per_page: usize = vectors_per_gate_page(source.hidden_size);
    let mut i: usize = 0;
    assert(done =~= done + gate_pages(
        source.layers@.take(0),
        source.gate_data@,
        source.hidden_size,
    ));
    while i < source.layers.len()
        invariant
            source.fits(),
            i <= source.layers@.len(),
            per_page == page_vectors(source.hidden_size as nat),
            page_views(pages@) == done + gate_pages(
                source.layers@.take(i as int),
                source.gate_data@,
                source.hidden_size,
            ),
        decreases source.layers@.len() - i,
    {
        let layer: LayerInfo = source.layers[i];
        assert(source.layers@[i as int] == layer);
        append_vector_pages(
            pages,
            PageType::Gate,
            layer.layer as u16,
            &source.gate_data,
            layer.offset,
            layer.num_features,
            per_page,
            source.hidden_size,
        );
        i = i + 1;
        proof {
            let t = source.layers@.take(i as int);
            assert(t.drop_last() =~= source.layers@.take(i - 1));
            assert(t.last() == layer);
            assert(page_views(pages@) =~= done + gate_pages(
                t,
                source.gate_data@,
                source.hidden_size,
            ));
        }
    }
    assert(source.layers@.take(i as int) =~= source.layers@);
}

/// Builds the pages of an index, block by block.
pub fn build_index(source: &IndexSource) -> (pages: Vec<Page>)
    requires
        source.fits(),
    ensures
        exists|meta: InferMetaPage| #[trigger]
            source.described_by(meta) && page_views(pages@) == seq![
                plain_page(PageType::Meta, NO_LAYER, meta.image()),
            ] + source.body_pages(),
        forall|i: int|
            0 <= i < pages@.len() ==> (#[trigger] pages@[i]).opaque.flags == 0
                && pages@[i].opaque.next_blkno == INVALID_BLOCK_NUMBER
                && pages@[i].opaque.reserved@ == Seq::new(8, |j: int| 0u8),
{
    let mut pages: Vec<Page> = Vec::new();
    let meta: InferMetaPage = source.meta();
    let ghost meta_page = plain_page(PageType::Meta, NO_LAYER, meta.image());
    append_page(&mut pages, PageType::Meta, NO_LAYER, meta.to_bytes());
    let dir: Vec<u8> = build_directory(source, meta.blocks.down_start_blk);
    append_page(&mut pages, PageType::LayerDir, NO_LAYER, dir);
    append_gate_pages(&mut pages, source);
    append_vector_pages(
        &mut pages,
        PageType::Embed,
        NO_LAYER,
        &source.embed_data,
        0,
        source.vocab_size,
        embeds_per_page(source.hidden_size),
        source.hidden_size,
    );
    append_blob_pages(&mut pages, &source.down_data);
    append_blob_pages(&mut pages, &source.tok_data);
    assert(page_views(pages@) =~= seq![meta_page] + source.body_pages());
    proof {
        assert forall|i: int| 0 <= i < pages@.len() implies (#[trigger] pages@[i]).opaque.flags == 0
            && pages@[i].opaque.next_blkno == INVALID_BLOCK_NUMBER
            && pages@[i].opaque.reserved@ == Seq::new(8, |j: int| 0u8) by {
            assert(page_views(pages@)[i] == pages@[i]@);
            if i > 0 {
                every_page_is_plain(*source, i - 1);
            }
        }
    }
    pages
}

/// Whether a page has no flags and no next block.
pub open spec fn is_plain(page: PageView) -> bool {
    &&& page.flags == 0
    &&& page.next_blkno == INVALID_BLOCK_NUMBER
    &&& page.reserved == Seq::new(8, |j: int| 0u8)
}

/// Every gate page is plain.
proof fn gate_pages_are_plain(layers: Seq<LayerInfo>, data: Seq<u8>, hidden_size: usize)
    ensures
        forall|k: int|
            0 <= k < gate_pages(layers, data, hidden_size).len() ==> is_plain(
                #[trigger] gate_pages(layers, data, hidden_size)[k],
            ),
    decreases layers.len(),
{
    if layers.len() > 0 {
        gate_pages_are_plain(layers.drop_last(), data, hidden_size);
        let init = gate_pages(layers.drop_last(), data, hidden_size);
        let all = gate_pages(layers, data, hidden_size);
        assert forall|k: int| 0 <= k < all.len() implies is_plain(#[trigger] all[k]) by {
            if k < init.len() {
                assert(all[k] == init[k]);
            }
        }
    }
}

/// No page has flags or a next block, whatever page it is.
pub proof fn every_page_is_plain(source: IndexSource, k: int)
    requires
        0 <= k < source.body_pages().len(),
    ensures
        is_plain(source.body_pages()[k]),
{
    let gates = gate_pages(source.layers@, source.gate_data@, source.hidden_size);
    gate_pages_are_plain(source.layers@, source.gate_data@, source.hidden_size);
    if 1 <= k < 1 + gates.len() {
        assert(source.body_pages()[k] == gates[k - 1]);
    }
}

/// The layers at the beginning have no more gate pages than all of them.
proof fn gate_page_sum_grows(layers: Seq<LayerInfo>, n: int, hidden_size: usize)
    requires
        0 <= n <= layers.len(),
    ensures
        gate_page_sum(layers.take(n), hidden_size) <= gate_page_sum(layers, hidden_size),
    decreases layers.len() - n,
{
    if n == layers.len() {
        assert(layers.take(n) =~= layers);
    } else {
        let t = layers.take(n + 1);
        assert(t.drop_last() =~= layers.take(n));
        gate_page_sum_grows(layers, n + 1, hidden_size);
    }
}

/// There are as many gate pages as the plan counts, and all of them are gate
/// pages.
proof fn gate_pages_count(layers: Seq<LayerInfo>, data: Seq<u8>, hidden_size: usize)
    ensures
        gate_pages(layers, data, hidden_size).len() == gate_page_sum(layers, hidden_size),
        forall|k: int|
            0 <= k < gate_page_sum(layers, hidden_size) ==> (#[trigger] gate_pages(
                layers,
                data,
                hidden_size,
            )[k]).page_type == PageType::Gate.number(),
    decreases layers.len(),
{
    if layers.len() > 0 {
        gate_pages_count(layers.drop_last(), data, hidden_size);
    }
}

/// The sections stand where the plan says: the pages after the metapage, with
/// block `b` at position `b - 1`, are one directory page, then gate,
/// embedding and blob pages, each kind in its range of blocks, and the last
/// range ends with the last page.
pub proof fn sections_match_plan(source: IndexSource)
    requires
        source.fits(),
    ensures
        source.body_pages().len() + 1 == source.tok_end(),
        source.body_pages()[0].page_type == PageType::LayerDir.number(),
        forall|b: int|
            2 <= b < source.tok_end() ==> (#[trigger] source.body_pages()[b - 1]).page_type == (
            if b < source.gate_end() {
                PageType::Gate.number()
            } else if b < source.embed_end() {
                PageType::Embed.number()
            } else {
                PageType::Blob.number()
            }),
{
    gate_pages_count(source.layers@, source.gate_data@, source.hidden_size);
    let gates = gate_pages(source.layers@, source.gate_data@, source.hidden_size);
    let g = gates.len() as int;
    assert forall|b: int| 2 <= b < source.tok_end() implies (
    #[trigger] source.body_pages()[b - 1]).page_type == (if b < source.gate_end() {
        PageType::Gate.number()
    } else if b < source.embed_end() {
        PageType::Embed.number()
    } else {
        PageType::Blob.number()
    }) by {
        if b < source.gate_end() {
            assert(source.body_pages()[b - 1] == gates[b - 2]);
        }
    }
}

/// A vector page fits in the data area.
proof fn vector_page_fits(
    kind: PageType,
    layer: u16,
    data: Seq<u8>,
    base: nat,
    count: nat,
    hidden_size: nat,
    k: int,
)
    requires
        0 <= k < groups(count, page_vectors(hidden_size)),
    ensures
        vector_page(
            kind,
            layer,
            data,
            base,
            count,
            page_vectors(hidden_size),
            hidden_size * 2,
            k,
        ).data.len() <= INFER_USABLE_PER_PAGE,
{
    let p = page_vectors(hidden_size) as int;
    let v = hidden_size as int * 2;
    page_vectors_fit(hidden_size);
    groups_are_enough(count, p as nat);
    let first = k * p;
    let g = groups(count, p as nat) as int;
    assert(first < count) by (nonlinear_arith)
        requires
            first == k * p,
            k <= g - 1,
            (g - 1) * p < count,
            p > 0,
    ;
    assert(first >= 0) by (nonlinear_arith)
        requires
            first == k * p,
            k >= 0,
            p > 0,
    ;
    let n = if count - first < p {
        count - first
    } else {
        p
    };
    assert(0 <= n * v <= p * v) by (nonlinear_arith)
        requires
            0 <= n <= p,
            v >= 0,
    ;
    assert(first * v >= 0) by (nonlinear_arith)
        requires
            first >= 0,
            v >= 0,
    ;
    let h = GatePageHeader { layer_id: layer, num_vectors: n as u16, first_feature_idx: first as u32 };
    gate_header_round_trip(h, seq![]);
}

/// Every gate page fits in the data area.
proof fn gate_pages_fit(layers: Seq<LayerInfo>, data: Seq<u8>, hidden_size: usize)
    ensures
        forall|k: int|
            0 <= k < gate_pages(layers, data, hidden_size).len() ==> (#[trigger] gate_pages(
                layers,
                data,
                hidden_size,
            )[k]).data.len() <= INFER_USABLE_PER_PAGE,
    decreases layers.len(),
{
    if layers.len() > 0 {
        let init = gate_pages(layers.drop_last(), data, hidden_size);
        gate_pages_fit(layers.drop_last(), data, hidden_size);
        let l = layers.last();
        let own = vector_pages(
            PageType::Gate,
            l.layer as u16,
            data,
            l.offset as nat,
            l.num_features as nat,
            page_vectors(hidden_size as nat),
            hidden_size as nat * 2,
        );
        assert forall|k: int| 0 <= k < gate_pages(layers, data, hidden_size).len() implies (
        #[trigger] gate_pages(layers, data, hidden_size)[k]).data.len()
            <= INFER_USABLE_PER_PAGE by {
            if k < init.len() {
                assert(gate_pages(layers, data, hidden_size)[k] == init[k]);
            } else {
                assert(gate_pages(layers, data, hidden_size)[k] == own[k - init.len()]);
                vector_page_fits(
                    PageType::Gate,
                    l.layer as u16,
                    data,
                    l.offset as nat,
                    l.num_features as nat,
                    hidden_size as nat,
                    k - init.len(),
                );
            }
        }
    }
}

/// The directory takes 20 bytes per layer.
proof fn directory_len(layers: Seq<LayerInfo>, hidden_size: usize, down_start: u32)
    ensures
        directory(layers, hidden_size, down_start).len() == LAYER_DIR_ENTRY_SIZE * layers.len(),
    decreases layers.len(),
{
    if layers.len() > 0 {
        directory_len(layers.drop_last(), hidden_size, down_start);
        let e = dir_entry(layers.drop_last(), layers.last(), hidden_size, down_start);
        assert(e.image().subrange(0, 20) =~= e.image());
        layer_dir_entry_round_trip(e, e.image(), 0);
    }
}

/// The metapage takes 468 bytes.
proof fn meta_image_len(meta: InferMetaPage)
    ensures
        meta.image().len() == META_SIZE,
{
    meta_part_lens(meta);
}

/// The lengths of the metapage's parts.
proof fn meta_part_lens(meta: InferMetaPage)
    ensures
        meta.image_head().len() == 136,
        meta.image_shape().len() == 28,
        meta.image_tail().len() == 304,
{
    reveal(InferMetaPage::image_head);
    reveal(InferMetaPage::image_shape);
    reveal(InferMetaPage::image_tail);
}

/// What is written on a page fits in its data area, whatever page it is.
pub proof fn every_page_fits(source: IndexSource, meta: InferMetaPage, k: int)
    requires
        source.fits(),
        0 <= k < source.body_pages().len(),
    ensures
        meta.image().len() <= INFER_USABLE_PER_PAGE,
        source.body_pages()[k].data.len() <= INFER_USABLE_PER_PAGE,
{
    meta_image_len(meta);
    let page = source.body_pages()[k];
    let gates = gate_pages(source.layers@, source.gate_data@, source.hidden_size);
    let embeds = source.embedding_pages();
    let down = blob_pages(source.down_data@);
    let tok = blob_pages(source.tok_data@);
    let e0 = 1 + gates.len() as int;
    let d0 = e0 + embeds.len();
    let t0 = d0 + down.len();
    if k == 0 {
        directory_len(source.layers@, source.hidden_size, source.embed_end() as u32);
    } else if k < e0 {
        gate_pages_fit(source.layers@, source.gate_data@, source.hidden_size);
        assert(page == gates[k - 1]);
    } else if k < d0 {
        assert(page == embeds[k - e0]);
        vector_page_fits(
            PageType::Embed,
            NO_LAYER,
            source.embed_data@,
            0,
            source.vocab_size as nat,
            source.hidden_size as nat,
            k - e0,
        );
    } else if k < t0 {
        assert(page == down[k - d0]);
        blob_page_is(source.down_data@, k - d0);
    } else {
        assert(page == tok[k - t0]);
        blob_page_is(source.tok_data@, k - t0);
    }
}

/// What page `k` of a blob holds, and what its header says.
proof fn blob_page_is(data: Seq<u8>, k: int)
    requires
        0 <= k < groups(data.len(), BLOB_DATA_BYTES as nat),
    ensures
        ({
            let first = k * BLOB_DATA_BYTES;
            let n = if data.len() - first < BLOB_DATA_BYTES {
                data.len() - first
            } else {
                BLOB_DATA_BYTES as int
            };
            &&& 0 <= first < data.len()
            &&& blob_page(data, k).data.len() == SECTION_HEADER_SIZE + n
            &&& BlobPageHeader::stored(blob_page(data, k).data).page_bytes == n
            &&& blob_page(data, k).data.subrange(8, 8 + n) == data.subrange(first, first + n)
        }),
{
    groups_are_enough(data.len(), BLOB_DATA_BYTES as nat);
    let first = k * BLOB_DATA_BYTES;
    let n = if data.len() - first < BLOB_DATA_BYTES {
        data.len() - first
    } else {
        BLOB_DATA_BYTES as int
    };
    let h = BlobPageHeader { total_size: data.len() as u32, page_bytes: n as u32 };
    blob_header_round_trip(h, data.subrange(first, first + n));
    assert(blob_page(data, k).data.subrange(8, 8 + n) =~= data.subrange(first, first + n));
}

/// The bytes of the blob that `pages` hold: of each page what its header
/// counts.
pub open spec fn blob_contents(pages: Seq<PageView>) -> Seq<u8>
    decreases pages.len(),
{
    if pages.len() == 0 {
        seq![]
    } else {
        blob_contents(pages.drop_last()) + pages.last().data.subrange(
            SECTION_HEADER_SIZE as int,
            SECTION_HEADER_SIZE + BlobPageHeader::stored(pages.last().data).page_bytes,
        )
    }
}

/// The first `k` pages of a blob hold its beginning.
proof fn blob_beginning(data: Seq<u8>, k: int)
    requires
        0 <= k <= groups(data.len(), BLOB_DATA_BYTES as nat),
    ensures
        blob_contents(blob_pages(data).take(k)) == data.take(
            if k * BLOB_DATA_BYTES < data.len() {
                k * BLOB_DATA_BYTES
            } else {
                data.len() as int
            },
        ),
    decreases k,
{
    let pages = blob_pages(data).take(k);
    if k == 0 {
        assert(blob_contents(pages) =~= data.take(0));
    } else {
        blob_beginning(data, k - 1);
        blob_page_is(data, k - 1);
        assert(pages.drop_last() =~= blob_pages(data).take(k - 1));
        assert(pages.last() == blob_page(data, k - 1));
        assert(blob_contents(pages) =~= data.take(
            if k * BLOB_DATA_BYTES < data.len() {
                k * BLOB_DATA_BYTES
            } else {
                data.len() as int
            },
        ));
    }
}

/// Reading the pages of a blob in order gives the blob back.
pub proof fn blob_round_trip(data: Seq<u8>)
    ensures
        blob_contents(blob_pages(data)) == data,
{
    let g = groups(data.len(), BLOB_DATA_BYTES as nat) as int;
    groups_are_enough(data.len(), BLOB_DATA_BYTES as nat);
    blob_beginning(data, g);
    assert(blob_pages(data).take(g) =~= blob_pages(data));
    assert(data.take(data.len() as int) =~= data);
}

/// Every vector stands where it is looked for: vector `j` is on page
/// `j / per_page` of its section, after the header and the vectors before it
/// on that page, and is the one at `base + j * vec_bytes` of the data.
pub proof fn vector_found(
    kind: PageType,
    layer: u16,
    data: Seq<u8>,
    base: nat,
    count: nat,
    hidden_size: nat,
    j: nat,
)
    requires
        page_vectors(hidden_size) > 0,
        j < count,
        base + count * (hidden_size * 2) <= data.len(),
    ensures
        ({
            let per_page = page_vectors(hidden_size);
            let vec_bytes = hidden_size * 2;
            let pages = vector_pages(kind, layer, data, base, count, per_page, vec_bytes);
            let at = SECTION_HEADER_SIZE + (j % per_page) * vec_bytes;
            &&& j / per_page < pages.len()
            &&& at + vec_bytes <= pages[(j / per_page) as int].data.len()
            &&& pages[(j / per_page) as int].data.subrange(at, at + vec_bytes) == data.subrange(
                (base + j * vec_bytes) as int,
                (base + j * vec_bytes + vec_bytes) as int,
            )
        }),
{
    let p = page_vectors(hidden_size) as int;
    let v = hidden_size as int * 2;
    let c = count as int;
    let ji = j as int;
    let k = ji / p;
    let r = ji % p;
    let g = groups(count, p as nat) as int;
    page_vectors_fit(hidden_size);
    groups_are_enough(count, p as nat);
    vstd::arithmetic::div_mod::lemma_fundamental_div_mod(ji, p);
    let first = k * p;
    assert(first + r == ji && 0 <= r < p && k >= 0 && first >= 0) by (nonlinear_arith)
        requires
            ji == p * k + r,
            r == ji % p,
            first == k * p,
            k == ji / p,
            p > 0,
            ji >= 0,
    ;
    assert(k < g) by (nonlinear_arith)
        requires
            k * p <= ji,
            ji < c,
            g * p >= c,
            p > 0,
    ;
    let n = if c - first < p {
        c - first
    } else {
        p
    };
    let start = base as int + first * v;
    assert(r * v + v <= n * v && r * v >= 0) by (nonlinear_arith)
        requires
            0 <= r,
            r + 1 <= n,
            v >= 0,
    ;
    assert(first * v + n * v <= c * v) by (nonlinear_arith)
        requires
            first + n <= c,
            v >= 0,
    ;
    assert(first * v >= 0) by (nonlinear_arith)
        requires
            first >= 0,
            v >= 0,
    ;
    assert(ji * v == first * v + r * v) by (nonlinear_arith)
        requires
            first + r == ji,
    ;
    let h = GatePageHeader { layer_id: layer, num_vectors: n as u16, first_feature_idx: first as u32 };
    gate_header_round_trip(h, seq![]);
    let page = vector_page(kind, layer, data, base, count, p as nat, v as nat, k);
    assert(page.data == h.image() + data.subrange(start, start + n * v));
    assert(page.data.subrange(8 + r * v, 8 + r * v + v) =~= data.subrange(
        base + ji * v,
        base + ji * v + v,
    ));
}

/// Gate pages of layer `i` begin where its directory entry says.
pub proof fn layer_found(source: IndexSource, i: int)
    requires
        source.fits(),
        0 <= i < source.layers@.len(),
    ensures
        ({
            let entry = LayerDirEntry::stored_at(
                source.directory_page().data,
                LAYER_DIR_ENTRY_SIZE * i,
            );
            let l = source.layers@[i];
            let own = vector_pages(
                PageType::Gate,
                l.layer as u16,
                source.gate_data@,
                l.offset as nat,
                l.num_features as nat,
                page_vectors(source.hidden_size as nat),
                source.hidden_size as nat * 2,
            );
            let at = entry.gate_start_blk - 1;
            &&& entry.layer_id == i
            &&& entry.num_features == l.num_features as u16
            &&& entry.gate_page_count == own.len() as u16
            &&& at + own.len() <= source.body_pages().len()
            &&& source.body_pages().subrange(at, at + own.len()) == own
        }),
{
    let h = source.hidden_size;
    let layers = source.layers@;
    let down = source.embed_end() as u32;
    let before = layers.take(i);
    let l = layers[i];
    let e = dir_entry(before, l, h, down);
    directory_entry_at(layers, h, down, i);
    directory_len(layers, h, down);
    layer_dir_entry_round_trip(e, source.directory_page().data, LAYER_DIR_ENTRY_SIZE * i);
    gate_page_sum_grows(layers, i, h);
    gate_page_sum_grows(layers, i + 1, h);
    assert(layers.take(i + 1).drop_last() =~= before);
    gate_pages_of_layer(layers, source.gate_data@, h, i);
    gate_pages_count(layers, source.gate_data@, h);
    let gates = gate_pages(layers, source.gate_data@, h);
    let own = vector_pages(
        PageType::Gate,
        l.layer as u16,
        source.gate_data@,
        l.offset as nat,
        l.num_features as nat,
        page_vectors(h as nat),
        h as nat * 2,
    );
    let s = gate_page_sum(before, h) as int;
    assert(source.body_pages().subrange(1 + s, 1 + s + own.len()) =~= gates.subrange(
        s,
        s + own.len(),
    ));
}

/// Entry `i` of the directory.
proof fn directory_entry_at(layers: Seq<LayerInfo>, hidden_size: usize, down_start: u32, i: int)
    requires
        0 <= i < layers.len(),
    ensures
        LAYER_DIR_ENTRY_SIZE * i + LAYER_DIR_ENTRY_SIZE <= directory(
            layers,
            hidden_size,
            down_start,
        ).len(),
        directory(layers, hidden_size, down_start).subrange(20 * i, 20 * i + 20) == dir_entry(
            layers.take(i),
            layers[i],
            hidden_size,
            down_start,
        ).image(),
    decreases layers.len(),
{
    let init = layers.drop_last();
    let all = directory(layers, hidden_size, down_start);
    let head = directory(init, hidden_size, down_start);
    directory_len(layers, hidden_size, down_start);
    directory_len(init, hidden_size, down_start);
    if i == layers.len() - 1 {
        assert(layers.take(i) =~= init);
        let e = dir_entry(init, layers.last(), hidden_size, down_start);
        assert(all.subrange(20 * i, 20 * i + 20) =~= e.image());
    } else {
        directory_entry_at(init, hidden_size, down_start, i);
        assert(init.take(i) =~= layers.take(i));
        assert(all.subrange(20 * i, 20 * i + 20) =~= head.subrange(20 * i, 20 * i + 20));
    }
}

/// Gate pages of layer `i` follow those of the layers before it.
proof fn gate_pages_of_layer(layers: Seq<LayerInfo>, data: Seq<u8>, hidden_size: usize, i: int)
    requires
        0 <= i < layers.len(),
    ensures
        ({
            let l = layers[i];
            let own = vector_pages(
                PageType::Gate,
                l.layer as u16,
                data,
                l.offset as nat,
                l.num_features as nat,
                page_vectors(hidden_size as nat),
                hidden_size as nat * 2,
            );
            let s = gate_page_sum(layers.take(i), hidden_size) as int;
            &&& s + own.len() <= gate_pages(layers, data, hidden_size).len()
            &&& gate_pages(layers, data, hidden_size).subrange(s, s + own.len()) == own
        }),
    decreases layers.len(),
{
    let init = layers.drop_last();
    let l = layers[i];
    let own = vector_pages(
        PageType::Gate,
        l.layer as u16,
        data,
        l.offset as nat,
        l.num_features as nat,
        page_vectors(hidden_size as nat),
        hidden_size as nat * 2,
    );
    let s = gate_page_sum(layers.take(i), hidden_size) as int;
    let all = gate_pages(layers, data, hidden_size);
    gate_pages_count(init, data, hidden_size);
    if i == layers.len() - 1 {
        assert(layers.take(i) =~= init);
        assert(all.subrange(s, s + own.len()) =~= own);
    } else {
        gate_pages_of_layer(init, data, hidden_size, i);
        assert(init.take(i) =~= layers.take(i));
        assert(all.subrange(s, s + own.len()) =~= gate_pages(init, data, hidden_size).subrange(
            s,
            s + own.len(),
        ));
    }
}

/// The number that a stored metapage holds at byte `at`.
pub open spec fn meta_word(image: Seq<u8>, at: int) -> u32 {
    u32_of_le(image.subrange(at, at + 4))
}

/// The section table and the scores of the metapage, as they are stored.
pub open spec fn meta_table(meta: InferMetaPage) -> Seq<u32> {
    seq![
        meta.blocks.layer_dir_blk,
        meta.blocks.gate_start_blk,
        meta.blocks.gate_end_blk,
        meta.blocks.embed_start_blk,
        meta.blocks.embed_end_blk,
        meta.blocks.down_start_blk,
        meta.blocks.down_end_blk,
        meta.blocks.tok_start_blk,
        meta.blocks.tok_end_blk,
        meta.max_gate_score,
        meta.mean_gate_score,
        meta.blocks.total_pages,
    ]
}

/// One more word at the end.
proof fn words_pushed(words: Seq<u32>, w: u32)
    ensures
        words_le(words.push(w)) == words_le(words) + u32_le(w),
{
    assert(words.push(w).drop_last() =~= words);
}

/// The tail of the metapage is its table and the source.
#[verifier::spinoff_prover]
proof fn tail_is_table(meta: InferMetaPage)
    ensures
        meta.image_tail() == words_le(meta_table(meta)) + zero_ended(
            encode_utf8(meta.source_uri@),
            SOURCE_URI_BYTES as nat,
        ),
{
    reveal(InferMetaPage::image_tail);
    let b = meta.blocks;
    let s0 = Seq::<u32>::empty();
    let s1 = s0.push(b.layer_dir_blk);
    let s2 = s1.push(b.gate_start_blk);
    let s3 = s2.push(b.gate_end_blk);
    let s4 = s3.push(b.embed_start_blk);
    let s5 = s4.push(b.embed_end_blk);
    let s6 = s5.push(b.down_start_blk);
    let s7 = s6.push(b.down_end_blk);
    let s8 = s7.push(b.tok_start_blk);
    let s9 = s8.push(b.tok_end_blk);
    let s10 = s9.push(meta.max_gate_score);
    let s11 = s10.push(meta.mean_gate_score);
    let s12 = s11.push(b.total_pages);
    words_pushed(s0, b.layer_dir_blk);
    words_pushed(s1, b.gate_start_blk);
    words_pushed(s2, b.gate_end_blk);
    words_pushed(s3, b.embed_start_blk);
    words_pushed(s4, b.embed_end_blk);
    words_pushed(s5, b.down_start_blk);
    words_pushed(s6, b.down_end_blk);
    words_pushed(s7, b.tok_start_blk);
    words_pushed(s8, b.tok_end_blk);
    words_pushed(s9, meta.max_gate_score);
    words_pushed(s10, meta.mean_gate_score);
    words_pushed(s11, b.total_pages);
    assert(words_le(s1) =~= u32_le(b.layer_dir_blk));
    assert(s12 =~= meta_table(meta));
}

/// The words of the stored table.
proof fn table_words(meta: InferMetaPage)
    ensures
        forall|i: int|
            0 <= i < 12 ==> meta_word(meta.image(), 164 + 4 * i) == #[trigger] meta_table(meta)[i],
        meta.image().subrange(212, 468) == zero_ended(encode_utf8(meta.source_uri@), 256),
{
    let m = meta.image();
    let tail = meta.image_tail();
    let t = meta_table(meta);
    let words = words_le(t);
    meta_part_lens(meta);
    tail_is_table(meta);
    words_le_at(t);
    assert forall|i: int| 0 <= i < 12 implies meta_word(m, 164 + 4 * i) == #[trigger] t[i] by {
        u32_le_round_trip(t[i]);
        assert(words.subrange(4 * i, 4 * i + 4) == u32_le(t[i]));
        assert(m.subrange(164 + 4 * i, 164 + 4 * i + 4) =~= words.subrange(4 * i, 4 * i + 4));
    }
    let field = zero_ended(encode_utf8(meta.source_uri@), 256);
    assert(m.subrange(212, 468) =~= field);
}

/// The words of the stored dimensions.
proof fn shape_words(meta: InferMetaPage)
    ensures
        ({
            let m = meta.image();
            &&& meta_word(m, 136) == meta.num_layers
            &&& meta_word(m, 140) == meta.hidden_size
            &&& meta_word(m, 144) == meta.features_per_layer
            &&& meta_word(m, 148) == meta.vocab_size
            &&& meta_word(m, 152) == meta.embed_scale
            &&& m[156] == meta.gate_dtype
            &&& m[157] == meta.embed_dtype
            &&& u16_of_le(m.subrange(158, 160)) == meta.down_top_k
            &&& m[160] == meta.extract_level
        }),
{
    let m = meta.image();
    let shape = meta.image_shape();
    meta_part_lens(meta);
    shape_parts(meta);
    assert(m.subrange(136, 140) =~= shape.subrange(0, 4));
    assert(m.subrange(140, 144) =~= shape.subrange(4, 8));
    assert(m.subrange(144, 148) =~= shape.subrange(8, 12));
    assert(m.subrange(148, 152) =~= shape.subrange(12, 16));
    assert(m.subrange(152, 156) =~= shape.subrange(16, 20));
    assert(m.subrange(158, 160) =~= shape.subrange(22, 24));
    u32_le_round_trip(meta.num_layers);
    u32_le_round_trip(meta.hidden_size);
    u32_le_round_trip(meta.features_per_layer);
    u32_le_round_trip(meta.vocab_size);
    u32_le_round_trip(meta.embed_scale);
    u16_le_round_trip(meta.down_top_k);
    assert(m[156] == shape[20] && m[157] == shape[21] && m[160] == shape[24]);
}

/// The parts of the stored dimensions.
#[verifier::spinoff_prover]
#[verifier::rlimit(40)]
proof fn shape_parts(meta: InferMetaPage)
    ensures
        ({
            let shape = meta.image_shape();
            &&& shape.subrange(0, 4) == u32_le(meta.num_layers)
            &&& shape.subrange(4, 8) == u32_le(meta.hidden_size)
            &&& shape.subrange(8, 12) == u32_le(meta.features_per_layer)
            &&& shape.subrange(12, 16) == u32_le(meta.vocab_size)
            &&& shape.subrange(16, 20) == u32_le(meta.embed_scale)
            &&& shape[20] == meta.gate_dtype
            &&& shape[21] == meta.embed_dtype
            &&& shape.subrange(22, 24) == u16_le(meta.down_top_k)
            &&& shape[24] == meta.extract_level
        }),
{
    reveal(InferMetaPage::image_shape);
    let shape = meta.image_shape();
    assert(shape.subrange(0, 4) =~= u32_le(meta.num_layers));
    assert(shape.subrange(4, 8) =~= u32_le(meta.hidden_size));
    assert(shape.subrange(8, 12) =~= u32_le(meta.features_per_layer));
    assert(shape.subrange(12, 16) =~= u32_le(meta.vocab_size));
    assert(shape.subrange(16, 20) =~= u32_le(meta.embed_scale));
    assert(shape.subrange(22, 24) =~= u16_le(meta.down_top_k));
}

/// The beginning of the stored metapage.
proof fn head_words(meta: InferMetaPage)
    ensures
        meta.image().subrange(0, 4) == u32_le(meta.magic),
        meta_word(meta.image(), 4) == meta.format_version,
        meta.image().subrange(8, 136) == zero_ended(encode_utf8(meta.model_name@), 128),
{
    reveal(InferMetaPage::image_head);
    let m = meta.image();
    meta_part_lens(meta);
    assert(m.subrange(0, 4) =~= u32_le(meta.magic));
    assert(m.subrange(4, 8) =~= u32_le(meta.format_version));
    assert(m.subrange(8, 136) =~= zero_ended(encode_utf8(meta.model_name@), 128));
    u32_le_round_trip(meta.format_version);
}

/// The stored metapage tells which model the index is of: the magic number and
/// the version, the name and the source, the model's dimensions and its scale,
/// and half precision for gates and embeddings.
#[verifier::spinoff_prover]
pub proof fn metapage_tells_model(source: IndexSource, meta: InferMetaPage)
    requires
        source.described_by(meta),
        source.num_layers <= u32::MAX,
        source.hidden_size <= u32::MAX,
        source.vocab_size <= u32::MAX,
        source.down_top_k <= u16::MAX,
    ensures
        ({
            let m = meta.image();
            &&& m.len() == 468
            &&& m.subrange(0, 4) == seq![0x52u8, 0x46u8, 0x4Eu8, 0x49u8]
            &&& meta_word(m, 4) == 1
            &&& m.subrange(8, 136) == zero_ended(encode_utf8(source.model@), 128)
            &&& meta_word(m, 136) == source.num_layers
            &&& meta_word(m, 140) == source.hidden_size
            &&& source.layers@.len() > 0 && source.layers@[0].num_features <= u32::MAX
                ==> meta_word(m, 144) == source.layers@[0].num_features
            &&& source.layers@.len() == 0 ==> meta_word(m, 144) == 0
            &&& meta_word(m, 148) == source.vocab_size
            &&& meta_word(m, 152) == source.embed_scale
            &&& m[156] == 1 && m[157] == 1 && m[160] == 0
            &&& u16_of_le(m.subrange(158, 160)) == source.down_top_k
            &&& m.subrange(212, 468) == zero_ended(encode_utf8(source.source_path@), 256)
        }),
{
    head_words(meta);
    shape_words(meta);
    table_words(meta);
    meta_image_len(meta);
    assert(u32_le(INFER_MAGIC) =~= seq![0x52u8, 0x46u8, 0x4Eu8, 0x49u8]);
}

/// The stored metapage tells where each section begins and ends: the
/// directory in block 1, then gates, embeddings, feature metadata and
/// tokenizer, one behind the other up to the last page.
#[verifier::spinoff_prover]
pub proof fn metapage_tells_sections(source: IndexSource, meta: InferMetaPage)
    requires
        source.fits(),
        source.described_by(meta),
    ensures
        ({
            let m = meta.image();
            &&& meta_word(m, 164) == 1
            &&& meta_word(m, 168) == 2
            &&& 2 <= meta_word(m, 172) == meta_word(m, 176) <= meta_word(m, 180)
            &&& meta_word(m, 180) == meta_word(m, 184) <= meta_word(m, 188)
            &&& meta_word(m, 188) == meta_word(m, 192) <= meta_word(m, 196)
            &&& meta_word(m, 196) == meta_word(m, 208) == source.body_pages().len() + 1
            &&& meta_word(m, 200) == 0 && meta_word(m, 204) == 0
        }),
{
    let t = meta_table(meta);
    table_words(meta);
    blob_pages_at(source);
    assert(t[0] == 1 && t[1] == 2);
    assert(t[2] == source.gate_end() && t[3] == source.gate_end());
    assert(t[4] == source.embed_end() && t[5] == source.embed_end());
    assert(t[6] == source.down_end() && t[7] == source.down_end());
    assert(t[8] == source.tok_end() && t[11] == source.tok_end());
    assert(t[9] == 0 && t[10] == 0);
}

/// A text field holds the text's bytes, as many as leave room for a zero, and
/// zeros behind them.
pub proof fn text_field_holds(bytes: Seq<u8>, size: nat, i: int)
    requires
        0 <= i < size,
    ensures
        zero_ended(bytes, size).len() == size,
        zero_ended(bytes, size)[i] == (if i < bytes.len() && i < size - 1 {
            bytes[i]
        } else {
            0u8
        }),
{
}

/// As many vectors stand on a page as have room behind its header.
pub proof fn page_is_full_of_vectors(hidden_size: nat)
    requires
        hidden_size > 0,
    ensures
        8 + page_vectors(hidden_size) * (hidden_size * 2) <= 8152,
        8152 < 8 + (page_vectors(hidden_size) + 1) * (hidden_size * 2),
{
    let b: int = hidden_size as int * 2;
    let q = page_vectors(hidden_size) as int;
    vstd::arithmetic::div_mod::lemma_fundamental_div_mod(8144, b);
    assert(q * b <= 8144 && 8144 < (q + 1) * b) by (nonlinear_arith)
        requires
            8144 == b * q + 8144int % b,
            0 <= 8144int % b < b,
    ;
}

/// Every token's embedding is found: where the source has the embeddings of
/// all tokens, that of token `t` stands on the page that comes
/// `t / per_page` blocks behind the first embedding block of the metapage,
/// behind the header and the embeddings before it on that page.
pub proof fn embedding_found(source: IndexSource, meta: InferMetaPage, t: nat)
    requires
        source.fits(),
        source.described_by(meta),
        t < source.vocab_size,
        source.vocab_size * (source.hidden_size * 2) <= source.embed_data@.len(),
    ensures
        ({
            let per_page = page_vectors(source.hidden_size as nat);
            let size = source.hidden_size * 2;
            let block = meta_word(meta.image(), 176) + t / per_page;
            let at = 8 + (t % per_page) * size;
            let pages = source.body_pages();
            &&& per_page > 0
            &&& 2 <= block < meta_word(meta.image(), 180)
            &&& block - 1 < pages.len()
            &&& pages[block - 1].page_type == 4
            &&& pages[block - 1].layer_id == 0xFFFF
            &&& at + size <= pages[block - 1].data.len()
            &&& pages[block - 1].data.subrange(at, at + size) == source.embed_data@.subrange(
                t * size,
                t * size + size,
            )
            &&& u16_of_le(pages[block - 1].data.subrange(0, 2)) == 0xFFFF
            &&& u16_of_le(pages[block - 1].data.subrange(2, 4)) == (if source.vocab_size - (t - t
                % per_page) < per_page {
                source.vocab_size - (t - t % per_page)
            } else {
                per_page as int
            })
            &&& pages[block - 1].data.len() == 8 + u16_of_le(pages[block - 1].data.subrange(2, 4))
                * size
            &&& source.vocab_size <= u32::MAX ==> u32_of_le(pages[block - 1].data.subrange(4, 8))
                == t - t % per_page
        }),
{
    let h = source.hidden_size as nat;
    let p = page_vectors(h);
    let k = (t / p) as int;
    table_words(meta);
    assert(meta_table(meta)[3] == source.gate_end() && meta_table(meta)[4] == source.embed_end());
    vector_found(PageType::Embed, NO_LAYER, source.embed_data@, 0, source.vocab_size as nat, h, t);
    vector_page_header(
        PageType::Embed,
        NO_LAYER,
        source.embed_data@,
        0,
        source.vocab_size as nat,
        h,
        t,
    );
    embedding_page_at(source, k);
}

/// Embedding page `k` stands `k` blocks behind the last page of gates.
proof fn embedding_page_at(source: IndexSource, k: int)
    requires
        0 <= k < source.embedding_pages().len(),
    ensures
        source.gate_end() + k < source.embed_end(),
        source.gate_end() - 1 + k < source.body_pages().len(),
        source.body_pages()[source.gate_end() - 1 + k] == source.embedding_pages()[k],
{
    gate_pages_count(source.layers@, source.gate_data@, source.hidden_size);
}

/// What the header of the page of vector `j` says: the layer, how many
/// vectors are there, and which is the first.
proof fn vector_page_header(
    kind: PageType,
    layer: u16,
    data: Seq<u8>,
    base: nat,
    count: nat,
    hidden_size: nat,
    j: nat,
)
    requires
        page_vectors(hidden_size) > 0,
        j < count,
    ensures
        ({
            let p = page_vectors(hidden_size);
            let page = vector_page(kind, layer, data, base, count, p, hidden_size * 2, (j / p) as int);
            &&& u16_of_le(page.data.subrange(0, 2)) == layer
            &&& j % p < u16_of_le(page.data.subrange(2, 4)) <= p
            &&& u16_of_le(page.data.subrange(2, 4)) == (if count - (j - j % p) < p {
                count - (j - j % p)
            } else {
                p as int
            })
            &&& base + count * (hidden_size * 2) <= data.len() ==> page.data.len() == 8 + u16_of_le(
                page.data.subrange(2, 4),
            ) * (hidden_size * 2)
            &&& count <= u32::MAX ==> u32_of_le(page.data.subrange(4, 8)) == j - j % p
            &&& page.page_type == kind.number()
            &&& page.layer_id == layer
        }),
{
    let p = page_vectors(hidden_size) as int;
    let ji = j as int;
    let c = count as int;
    let k = ji / p;
    let r = ji % p;
    let first = k * p;
    page_vectors_fit(hidden_size);
    vstd::arithmetic::div_mod::lemma_fundamental_div_mod(ji, p);
    assert(first + r == ji && 0 <= r < p && first >= 0) by (nonlinear_arith)
        requires
            ji == p * k + r,
            r == ji % p,
            first == k * p,
            k == ji / p,
            p > 0,
            ji >= 0,
    ;
    let n = if c - first < p {
        c - first
    } else {
        p
    };
    let head = GatePageHeader {
        layer_id: layer,
        num_vectors: n as u16,
        first_feature_idx: first as u32,
    };
    let page = vector_page(kind, layer, data, base, count, p as nat, hidden_size * 2, k);
    gate_header_round_trip(head, page.data.skip(8));
    assert(page.data =~= head.image() + page.data.skip(8));
    let v = hidden_size as int * 2;
    assert(first * v + n * v <= c * v && n * v >= 0 && first * v >= 0) by (nonlinear_arith)
        requires
            first + n <= c,
            n >= 0,
            first >= 0,
            v >= 0,
    ;
}

/// Every gate vector is found: where the source has all vectors of layer `i`,
/// its vector `j` stands on the page that comes `j / per_page` blocks behind
/// the first block of the layer's directory entry, behind the header and the
/// vectors before it on that page.
pub proof fn gate_vector_found(source: IndexSource, i: int, j: nat)
    requires
        source.fits(),
        0 <= i < source.layers@.len(),
        j < source.layers@[i].num_features,
        source.layers@[i].offset + source.layers@[i].num_features * (source.hidden_size * 2)
            <= source.gate_data@.len(),
    ensures
        ({
            let l = source.layers@[i];
            let per_page = page_vectors(source.hidden_size as nat);
            let size = source.hidden_size * 2;
            let pages = source.body_pages();
            let dir = pages[0].data;
            let block = u32_of_le(dir.subrange(20 * i + 4, 20 * i + 8)) + j / per_page;
            let at = 8 + (j % per_page) * size;
            &&& per_page > 0
            &&& pages[0].page_type == 2
            &&& 20 * i + 20 <= dir.len()
            &&& u16_of_le(dir.subrange(20 * i, 20 * i + 2)) == i
            &&& l.num_features <= u16::MAX ==> u16_of_le(dir.subrange(20 * i + 2, 20 * i + 4))
                == l.num_features
            &&& 2 <= block < source.gate_end()
            &&& block - 1 < pages.len()
            &&& pages[block - 1].page_type == 3
            &&& at + size <= pages[block - 1].data.len()
            &&& pages[block - 1].data.subrange(at, at + size) == source.gate_data@.subrange(
                l.offset + j * size,
                l.offset + j * size + size,
            )
            &&& l.layer <= u16::MAX ==> pages[block - 1].layer_id == l.layer && u16_of_le(
                pages[block - 1].data.subrange(0, 2),
            ) == l.layer
            &&& u16_of_le(pages[block - 1].data.subrange(2, 4)) == (if l.num_features - (j - j
                % per_page) < per_page {
                l.num_features - (j - j % per_page)
            } else {
                per_page as int
            })
            &&& pages[block - 1].data.len() == 8 + u16_of_le(pages[block - 1].data.subrange(2, 4))
                * size
            &&& l.num_features <= u32::MAX ==> u32_of_le(pages[block - 1].data.subrange(4, 8)) == j
                - j % per_page
        }),
{
    let l = source.layers@[i];
    let h = source.hidden_size as nat;
    let p = page_vectors(h);
    assert(source.layers@[i].num_features != 0);
    assert(p > 0);
    let k = (j / p) as int;
    vector_found(
        PageType::Gate,
        l.layer as u16,
        source.gate_data@,
        l.offset as nat,
        l.num_features as nat,
        h,
        j,
    );
    vector_page_header(
        PageType::Gate,
        l.layer as u16,
        source.gate_data@,
        l.offset as nat,
        l.num_features as nat,
        h,
        j,
    );
    gate_page_at(source, i, k);
}

/// Gate page `k` of layer `i` stands `k` blocks behind the first block of the
/// layer's directory entry.
#[verifier::spinoff_prover]
#[verifier::rlimit(40)]
proof fn gate_page_at(source: IndexSource, i: int, k: int)
    requires
        source.fits(),
        0 <= i < source.layers@.len(),
        0 <= k < groups(
            source.layers@[i].num_features as nat,
            page_vectors(source.hidden_size as nat),
        ),
    ensures
        ({
            let l = source.layers@[i];
            let p = page_vectors(source.hidden_size as nat);
            let pages = source.body_pages();
            let dir = pages[0].data;
            let block = u32_of_le(dir.subrange(20 * i + 4, 20 * i + 8)) + k;
            &&& pages[0].page_type == 2
            &&& 20 * i + 20 <= dir.len()
            &&& u16_of_le(dir.subrange(20 * i, 20 * i + 2)) == i
            &&& u16_of_le(dir.subrange(20 * i + 2, 20 * i + 4)) == l.num_features as u16
            &&& 2 <= block < source.gate_end()
            &&& block - 1 < pages.len()
            &&& pages[block - 1] == vector_page(
                PageType::Gate,
                l.layer as u16,
                source.gate_data@,
                l.offset as nat,
                l.num_features as nat,
                p,
                source.hidden_size as nat * 2,
                k,
            )
        }),
{
    let l = source.layers@[i];
    let pages = source.body_pages();
    layer_found(source, i);
    let entry = LayerDirEntry::stored_at(source.directory_page().data, LAYER_DIR_ENTRY_SIZE * i);
    directory_len(source.layers@, source.hidden_size, source.embed_end() as u32);
    let own = vector_pages(
        PageType::Gate,
        l.layer as u16,
        source.gate_data@,
        l.offset as nat,
        l.num_features as nat,
        page_vectors(source.hidden_size as nat),
        source.hidden_size as nat * 2,
    );
    gate_pages_of_layer_end(source, i);
    part_at(pages, own, entry.gate_start_blk - 1, k);
    assert(pages[0] == source.directory_page());
}

/// Item `k` of a part is item `at + k` of the whole.
proof fn part_at(whole: Seq<PageView>, part: Seq<PageView>, at: int, k: int)
    requires
        0 <= at,
        at + part.len() <= whole.len(),
        whole.subrange(at, at + part.len()) == part,
        0 <= k < part.len(),
    ensures
        whole[at + k] == part[k],
{
}

/// Gate pages of a layer begin behind the directory and end before the
/// embeddings.
proof fn gate_pages_of_layer_end(source: IndexSource, i: int)
    requires
        source.fits(),
        0 <= i < source.layers@.len(),
    ensures
        ({
            let l = source.layers@[i];
            let entry = LayerDirEntry::stored_at(
                source.directory_page().data,
                LAYER_DIR_ENTRY_SIZE * i,
            );
            let n = groups(l.num_features as nat, page_vectors(source.hidden_size as nat));
            2 <= entry.gate_start_blk && entry.gate_start_blk + n <= source.gate_end()
        }),
{
    let h = source.hidden_size;
    let layers = source.layers@;
    let down = source.embed_end() as u32;
    let e = dir_entry(layers.take(i), layers[i], h, down);
    directory_entry_at(layers, h, down, i);
    directory_len(layers, h, down);
    layer_dir_entry_round_trip(e, source.directory_page().data, LAYER_DIR_ENTRY_SIZE * i);
    gate_page_sum_grows(layers, i, h);
    gate_page_sum_grows(layers, i + 1, h);
    assert(layers.take(i + 1).drop_last() =~= layers.take(i));
}

/// Every byte of a blob is found on its page, and the page's header says how
/// long the blob is and how much of it is there.
proof fn blob_byte_found(data: Seq<u8>, i: int)
    requires
        0 <= i < data.len(),
    ensures
        i / 8144 < blob_pages(data).len(),
        ({
            let page = blob_pages(data)[i / 8144].data;
            &&& 8 + i % 8144 < page.len()
            &&& page[8 + i % 8144] == data[i]
            &&& data.len() <= u32::MAX ==> u32_of_le(page.subrange(0, 4)) == data.len()
            &&& i % 8144 < u32_of_le(page.subrange(4, 8)) == page.len() - 8
        }),
{
    let k = i / 8144;
    groups_are_enough(data.len(), BLOB_DATA_BYTES as nat);
    let g = groups(data.len(), BLOB_DATA_BYTES as nat) as int;
    assert(k < g);
    blob_page_is(data, k);
    let page = blob_page(data, k).data;
    let first = k * BLOB_DATA_BYTES;
    let n = if data.len() - first < BLOB_DATA_BYTES {
        data.len() - first
    } else {
        BLOB_DATA_BYTES as int
    };
    assert(page.subrange(8, 8 + n)[i - first] == data.subrange(first, first + n)[i - first]);
    let head = BlobPageHeader { total_size: data.len() as u32, page_bytes: n as u32 };
    blob_header_round_trip(head, data.subrange(first, first + n));
}

/// Every byte of the tokenizer is found, from the first tokenizer block of
/// the metapage on.
pub proof fn tokenizer_found(source: IndexSource, meta: InferMetaPage, i: int)
    requires
        source.fits(),
        source.described_by(meta),
        0 <= i < source.tok_data@.len(),
    ensures
        ({
            let block = meta_word(meta.image(), 192) + i / 8144;
            let pages = source.body_pages();
            &&& 2 <= block < meta_word(meta.image(), 196)
            &&& block - 1 < pages.len()
            &&& pages[block - 1].page_type == 6
            &&& 8 + i % 8144 < pages[block - 1].data.len()
            &&& pages[block - 1].data[8 + i % 8144] == source.tok_data@[i]
            &&& source.tok_data@.len() <= u32::MAX ==> u32_of_le(
                pages[block - 1].data.subrange(0, 4),
            ) == source.tok_data@.len()
            &&& u32_of_le(pages[block - 1].data.subrange(4, 8)) == pages[block - 1].data.len() - 8
        }),
{
    table_words(meta);
    assert(meta_table(meta)[7] == source.down_end() && meta_table(meta)[8] == source.tok_end());
    blob_byte_found(source.tok_data@, i);
    blob_pages_at(source);
}

/// The feature metadata stands behind the embeddings, and the tokenizer behind
/// it.
proof fn blob_pages_at(source: IndexSource)
    ensures
        source.body_pages().len() + 1 == source.tok_end(),
        forall|k: int|
            0 <= k < source.down_end() - source.embed_end() ==> source.body_pages()[source.embed_end()
                - 1 + k] == #[trigger] blob_pages(source.down_data@)[k],
        forall|k: int|
            0 <= k < source.tok_end() - source.down_end() ==> source.body_pages()[source.down_end()
                - 1 + k] == #[trigger] blob_pages(source.tok_data@)[k],
{
    gate_pages_count(source.layers@, source.gate_data@, source.hidden_size);
}

/// Every byte of the feature metadata is found, from the first metadata block
/// of the metapage on.
pub proof fn feature_metadata_found(source: IndexSource, meta: InferMetaPage, i: int)
    requires
        source.fits(),
        source.described_by(meta),
        0 <= i < source.down_data@.len(),
    ensures
        ({
            let block = meta_word(meta.image(), 184) + i / 8144;
            let pages = source.body_pages();
            &&& 2 <= block < meta_word(meta.image(), 188)
            &&& block - 1 < pages.len()
            &&& pages[block - 1].page_type == 6
            &&& 8 + i % 8144 < pages[block - 1].data.len()
            &&& pages[block - 1].data[8 + i % 8144] == source.down_data@[i]
            &&& source.down_data@.len() <= u32::MAX ==> u32_of_le(
                pages[block - 1].data.subrange(0, 4),
            ) == source.down_data@.len()
            &&& u32_of_le(pages[block - 1].data.subrange(4, 8)) == pages[block - 1].data.len() - 8
        }),
{
    table_words(meta);
    assert(meta_table(meta)[5] == source.embed_end() && meta_table(meta)[6] == source.down_end());
    blob_byte_found(source.down_data@, i);
    blob_pages_at(source);
}

/// An index has no page more than its sections need: no gate, embedding or
/// blob page could be left out.
pub proof fn no_page_too_many(source: IndexSource)
    requires
        source.fits(),
    ensures
        ({
            let p = page_vectors(source.hidden_size as nat);
            let e = source.embed_end() - source.gate_end();
            let d = source.down_end() - source.embed_end();
            let t = source.tok_end() - source.down_end();
            &&& source.vocab_size > 0 ==> e > 0 && (e - 1) * p < source.vocab_size <= e * p
            &&& source.vocab_size == 0 ==> e == 0
            &&& source.down_data@.len() > 0 ==> (d - 1) * 8144 < source.down_data@.len() <= d * 8144
            &&& source.down_data@.len() == 0 ==> d == 0
            &&& source.tok_data@.len() > 0 ==> (t - 1) * 8144 < source.tok_data@.len() <= t * 8144
            &&& source.tok_data@.len() == 0 ==> t == 0
        }),
{
    let p = page_vectors(source.hidden_size as nat);
    if p > 0 {
        groups_are_enough(source.vocab_size as nat, p);
    }
    groups_are_enough(source.down_data@.len(), BLOB_DATA_BYTES as nat);
    groups_are_enough(source.tok_data@.len(), BLOB_DATA_BYTES as nat);
}

/// The directory has an entry of twenty bytes for each layer, in their order:
/// the layer's number in the list, how many features it has, its first gate
/// block, which follows the last one of the layer before it, as many gate
/// pages as its features need and no more, the first block of the feature
/// metadata, and zeros.
pub proof fn directory_tells_layers(source: IndexSource, meta: InferMetaPage, i: int)
    requires
        source.fits(),
        source.described_by(meta),
        0 <= i < source.layers@.len(),
    ensures
        ({
            let dir = source.body_pages()[0].data;
            let n = source.layers@[i].num_features;
            let p = page_vectors(source.hidden_size as nat);
            let start = u32_of_le(dir.subrange(20 * i + 4, 20 * i + 8));
            let pages = groups(n as nat, p);
            &&& dir.len() == 20 * source.layers@.len()
            &&& u16_of_le(dir.subrange(20 * i, 20 * i + 2)) == i
            &&& n <= u16::MAX ==> u16_of_le(dir.subrange(20 * i + 2, 20 * i + 4)) == n
            &&& i == 0 ==> start == 2
            &&& i + 1 < source.layers@.len() ==> u32_of_le(
                dir.subrange(20 * i + 24, 20 * i + 28),
            ) == start + pages
            &&& i + 1 == source.layers@.len() ==> meta_word(meta.image(), 172) == start + pages
            &&& pages <= u16::MAX ==> u16_of_le(dir.subrange(20 * i + 8, 20 * i + 10)) == pages
            &&& u32_of_le(dir.subrange(20 * i + 10, 20 * i + 14)) == meta_word(meta.image(), 184)
            &&& dir.subrange(20 * i + 14, 20 * i + 20) == Seq::new(6, |k: int| 0u8)
        }),
{
    let h = source.hidden_size;
    let layers = source.layers@;
    let down = source.embed_end() as u32;
    let dir = source.directory_page().data;
    table_words(meta);
    assert(meta_table(meta)[2] == source.gate_end() && meta_table(meta)[5] == source.embed_end());
    assert(source.body_pages()[0] == source.directory_page());
    directory_len(layers, h, down);
    directory_entry_at(layers, h, down, i);
    let e = dir_entry(layers.take(i), layers[i], h, down);
    layer_dir_entry_round_trip(e, dir, 20 * i);
    assert(e.image().subrange(14, 20) =~= Seq::new(6, |k: int| 0u8));
    assert(dir.subrange(20 * i + 14, 20 * i + 20) =~= dir.subrange(20 * i, 20 * i + 20).subrange(
        14,
        20,
    ));
    gate_page_sum_grows(layers, i, h);
    gate_page_sum_grows(layers, i + 1, h);
    assert(layers.take(0) =~= Seq::<LayerInfo>::empty());
    assert(layers.take(i + 1).drop_last() =~= layers.take(i));
    assert(layers.take(i + 1).last() == layers[i]);
    if i + 1 < layers.len() {
        directory_entry_at(layers, h, down, i + 1);
        let next = dir_entry(layers.take(i + 1), layers[i + 1], h, down);
        layer_dir_entry_round_trip(next, dir, 20 * (i + 1));
    } else {
        assert(layers.take(i + 1) =~= layers);
    }
}

/// What is said of the contents of pages is what these hold.
pub proof fn page_contents(pages: Seq<Page>, i: int)
    ensures
        page_views(pages).len() == pages.len(),
        0 <= i < pages.len() ==> {
            let v = page_views(pages)[i];
            &&& v.page_type == pages[i].opaque.page_type
            &&& v.flags == pages[i].opaque.flags
            &&& v.layer_id == pages[i].opaque.layer_id
            &&& v.next_blkno == pages[i].opaque.next_blkno
            &&& v.reserved == pages[i].opaque.reserved@
            &&& v.data == pages[i].data@
        },
{
}

/// Which sources make an index: those whose pages can all be numbered, with at
/// most as many layers as a page of twenty-byte entries holds, and with vectors
/// that a page has room for, or none.
pub proof fn which_sources_fit(source: IndexSource)
    ensures
        source.fits() <==> {
            &&& source.body_pages().len() + 1 <= u32::MAX
            &&& 20 * source.layers@.len() <= 8152
            &&& 0 < source.hidden_size && 8 + 2 * source.hidden_size <= 8152 || (source.vocab_size
                == 0 && forall|i: int|
                0 <= i < source.layers@.len() ==> (#[trigger] source.layers@[i]).num_features == 0)
        },
{
    gate_pages_count(source.layers@, source.gate_data@, source.hidden_size);
    let h = source.hidden_size as nat;
    if h > 0 {
        page_is_full_of_vectors(h);
        let q = page_vectors(h) as int;
        let b = h as int * 2;
        assert(q > 0 <==> b <= 8144) by (nonlinear_arith)
            requires
                8 + q * b <= 8152,
                8152 < 8 + (q + 1) * b,
                b > 0,
                q >= 0,
        ;
    }
}

/// A page whose embeddings are not all there has a header and no embedding.
pub proof fn page_without_embeddings(source: IndexSource, k: int)
    requires
        source.fits(),
        0 <= k < source.embed_end() - source.gate_end(),
        ({
            let p = page_vectors(source.hidden_size as nat);
            let n = if source.vocab_size < (k + 1) * p {
                source.vocab_size as int
            } else {
                (k + 1) * p
            };
            n * (source.hidden_size * 2) > source.embed_data@.len()
        }),
    ensures
        source.body_pages()[source.gate_end() - 1 + k].data.len() == 8,
        source.body_pages()[source.gate_end() - 1 + k].page_type == 4,
{
    let p = page_vectors(source.hidden_size as nat) as int;
    let v = source.hidden_size as int * 2;
    embedding_page_at(source, k);
    let first = k * p;
    let c = source.vocab_size as int;
    let n = if c - first < p {
        c - first
    } else {
        p
    };
    assert((k + 1) * p == first + p) by (nonlinear_arith)
        requires
            first == k * p,
    ;
    assert(first * v + n * v == (first + n) * v) by (nonlinear_arith);
    let head = GatePageHeader {
        layer_id: NO_LAYER,
        num_vectors: n as u16,
        first_feature_idx: first as u32,
    };
    gate_header_round_trip(head, seq![]);
}

} // verus!
