//! Keeping ternary weights in their packed form.
//!
//! The packed bytes of each ternary matrix go to a file of their own; the
//! scales of all of them go to one file, in the order of the matrices, and
//! the layout says where each matrix's scales begin.

use vstd::prelude::*;
use vstd::string::*;

use crate::compute::bitlinear::size_product_fits;
use crate::le::{append_words, words_le, words_le_at};
use crate::text::{
    append_decimal, append_size, append_size_list, before, before_total, before_transitive, chars_of, decimal,
    decimal_says_the_number, ends_with, find, first_pos, first_pos_is, parse_size, precedes, same_text, size_is_read_back,
    size_list, size_text, starts_with, string_of,
};
use crate::vindex::error::VindexError;
use crate::vindex::filenames::{bitnet_tensor_filename, tensor_path};

verus! {

/// GGML type number of packed ternary tensors.
pub const TYPE_I2_S: u32 = 36;

/// A tensor of a model: its shape, and its packed bytes where they were kept.
pub struct TensorSource {
    pub name: String,
    pub shape: Vec<usize>,
    pub raw_bytes: Option<Vec<u8>>,
}

/// A vector of a model, as binary32 patterns.
pub struct VectorSource {
    pub name: String,
    pub values: Vec<u32>,
}

/// The tensors and vectors of a model.
pub struct BitnetSource {
    pub tensors: Vec<TensorSource>,
    pub vectors: Vec<VectorSource>,
}

/// What a forward pass needs to know of the model besides its weights.
/// `rms_eps` is a binary32 pattern, `rope_base` a binary64 pattern.
#[derive(Debug, Clone, Copy)]
pub struct BitnetArchMeta {
    pub rms_eps: u32,
    pub head_dim: usize,
    pub n_q_heads: usize,
    pub n_kv_heads: usize,
    pub rope_base: u64,
}

impl Default for BitnetArchMeta {
    /// The 2B 4T model: 1e-5, 128, 20, 5 and 10000.0.
    fn default() -> (m: Self)
        ensures
            m == (BitnetArchMeta {
                rms_eps: 0x3727_C5AC,
                head_dim: 128,
                n_q_heads: 20,
                n_kv_heads: 5,
                rope_base: 0x40C3_8800_0000_0000,
            }),
    {
        BitnetArchMeta {
            rms_eps: 0x3727_C5AC,
            head_dim: 128,
            n_q_heads: 20,
            n_kv_heads: 5,
            rope_base: 0x40C3_8800_0000_0000,
        }
    }
}

/// Place of one ternary matrix in the index.
pub struct BitnetTensorEntry {
    pub name: String,
    pub rows: usize,
    pub cols: usize,
    pub scale_offset: usize,
}

/// Places of all ternary matrices, and the model's constants.
pub struct BitnetLayout {
    pub tensors: Vec<BitnetTensorEntry>,
    pub total_scale_count: usize,
    pub rms_eps: u32,
    pub head_dim: usize,
    pub n_q_heads: usize,
    pub n_kv_heads: usize,
    pub rope_base: u64,
}

/// One file of packed bytes.
pub struct TensorFile {
    pub path: String,
    pub bytes: Vec<u8>,
}

/// Everything that is written for the ternary weights of a model.
pub struct BitnetArtifacts {
    pub files: Vec<TensorFile>,
    pub scales: Vec<u8>,
    pub layout: BitnetLayout,
}

/// The contents of a [`TensorSource`].
pub struct TensorView {
    pub name: Seq<char>,
    pub shape: Seq<usize>,
    pub raw_bytes: Option<Seq<u8>>,
}

/// The contents of a [`VectorSource`].
pub struct VectorView {
    pub name: Seq<char>,
    pub values: Seq<u32>,
}

/// The contents of a [`BitnetTensorEntry`].
pub struct EntryView {
    pub name: Seq<char>,
    pub rows: usize,
    pub cols: usize,
    pub scale_offset: int,
}

/// The contents of a [`TensorFile`].
pub struct FileView {
    pub path: Seq<char>,
    pub bytes: Seq<u8>,
}

/// The contents of a [`BitnetArtifacts`] but for the model's constants.
#[verifier::ext_equal]
pub struct ArtifactsView {
    pub files: Seq<FileView>,
    pub scales: Seq<u8>,
    pub entries: Seq<EntryView>,
    pub total_scale_count: int,
}

impl View for TensorSource {
    type V = TensorView;

    open spec fn view(&self) -> TensorView {
        TensorView {
            name: self.name@,
            shape: self.shape@,
            raw_bytes: match self.raw_bytes {
                Some(b) => Some(b@),
                None => None,
            },
        }
    }
}

impl View for VectorSource {
    type V = VectorView;

    open spec fn view(&self) -> VectorView {
        VectorView { name: self.name@, values: self.values@ }
    }
}

impl View for BitnetTensorEntry {
    type V = EntryView;

    open spec fn view(&self) -> EntryView {
        EntryView {
            name: self.name@,
            rows: self.rows,
            cols: self.cols,
            scale_offset: self.scale_offset as int,
        }
    }
}

impl View for TensorFile {
    type V = FileView;

    open spec fn view(&self) -> FileView {
        FileView { path: self.path@, bytes: self.bytes@ }
    }
}

/// The contents of a list of tensors.
pub open spec fn tensor_views(v: Seq<TensorSource>) -> Seq<TensorView> {
    Seq::new(v.len(), |i: int| v[i]@)
}

/// The contents of a list of vectors.
pub open spec fn vector_views(v: Seq<VectorSource>) -> Seq<VectorView> {
    Seq::new(v.len(), |i: int| v[i]@)
}

/// The contents of a list of entries.
pub open spec fn entry_views(v: Seq<BitnetTensorEntry>) -> Seq<EntryView> {
    Seq::new(v.len(), |i: int| v[i]@)
}

/// The contents of a list of files.
pub open spec fn file_views(v: Seq<TensorFile>) -> Seq<FileView> {
    Seq::new(v.len(), |i: int| v[i]@)
}

impl View for BitnetArtifacts {
    type V = ArtifactsView;

    open spec fn view(&self) -> ArtifactsView {
        ArtifactsView {
            files: file_views(self.files@),
            scales: self.scales@,
            entries: entry_views(self.layout.tensors@),
            total_scale_count: self.layout.total_scale_count as int,
        }
    }
}

/// Whether the name is that of a ternary projection.
pub open spec fn bitlinear_name(key: Seq<char>) -> bool {
    ||| ".attn_q.weight"@.is_suffix_of(key)
    ||| ".attn_k.weight"@.is_suffix_of(key)
    ||| ".attn_v.weight"@.is_suffix_of(key)
    ||| ".attn_output.weight"@.is_suffix_of(key)
    ||| ".ffn_gate.weight"@.is_suffix_of(key)
    ||| ".ffn_up.weight"@.is_suffix_of(key)
    ||| ".ffn_down.weight"@.is_suffix_of(key)
}

/// The layer number in a name `blk.<layer>.<rest>`.
pub open spec fn layer_index(key: Seq<char>) -> Option<nat> {
    if "blk."@.is_prefix_of(key) {
        let rest = key.skip(4);
        if first_pos(rest, '.') < rest.len() {
            size_text(rest.take(first_pos(rest, '.')))
        } else {
            None
        }
    } else {
        None
    }
}

/// The name of the vector that holds the scales of the projection `key` of
/// layer `layer`.
pub open spec fn scale_name(key: Seq<char>, layer: nat) -> Seq<char> {
    let prefix = "blk."@ + decimal(layer);
    if ".attn_output.weight"@.is_suffix_of(key) {
        prefix + ".attn_sub_norm.weight"@
    } else if ".ffn_down.weight"@.is_suffix_of(key) {
        prefix + ".ffn_sub_norm.weight"@
    } else if ".ffn_gate.weight"@.is_suffix_of(key) || ".ffn_up.weight"@.is_suffix_of(key) {
        prefix + ".ffn_norm.weight"@
    } else {
        prefix + ".attn_norm.weight"@
    }
}

/// The values of the first vector of that name.
pub open spec fn vector_named(vectors: Seq<VectorView>, name: Seq<char>) -> Option<Seq<u32>>
    decreases vectors.len(),
{
    if vectors.len() == 0 {
        None
    } else if vectors[0].name == name {
        Some(vectors[0].values)
    } else {
        vector_named(vectors.drop_first(), name)
    }
}

/// The name of the vector that holds the scales of `key`: that of its layer
/// where the model has it, else `key` itself.
pub open spec fn scale_key(key: Seq<char>, vectors: Seq<VectorView>) -> Seq<char> {
    match layer_index(key) {
        Some(layer) => if vector_named(vectors, scale_name(key, layer)) is Some {
            scale_name(key, layer)
        } else {
            key
        },
        None => key,
    }
}

/// Why a ternary projection cannot be kept; `None` where it can.
pub open spec fn tensor_fault(t: TensorView, vectors: Seq<VectorView>) -> Option<Seq<char>> {
    match t.raw_bytes {
        None => Some(
            "BitNet --keep-quant: tensor "@ + t.name
                + " has no raw I2_S bytes; loader must populate raw_bytes for type 36 tensors"@,
        ),
        Some(bytes) => if t.shape.len() != 2 {
            Some(
                "BitLinear tensor "@ + t.name + " has shape "@ + size_list(t.shape)
                    + "; expected 2D"@,
            )
        } else if t.shape[1] % 4 != 0 {
            Some(
                "BitLinear tensor "@ + t.name + ": cols ("@ + decimal(t.shape[1] as nat)
                    + ") must be multiple of 4 for I2_S"@,
            )
        } else if bytes.len() != (t.shape[0] * t.shape[1]) as nat / 4 {
            Some(
                "BitLinear tensor "@ + t.name + ": bytes len "@ + decimal(bytes.len())
                    + " != rows*cols/4 = "@ + decimal((t.shape[0] * t.shape[1]) as nat / 4),
            )
        } else {
            match vector_named(vectors, scale_key(t.name, vectors)) {
                None => Some(
                    "BitNet --keep-quant: missing scale tensor "@ + scale_key(t.name, vectors)
                        + " for "@ + t.name,
                ),
                Some(scales) => if scales.len() != t.shape[0] {
                    Some(
                        "BitNet --keep-quant: scale tensor "@ + scale_key(t.name, vectors)
                            + " has len "@ + decimal(scales.len()) + ", expected "@ + decimal(
                            t.shape[0] as nat,
                        ),
                    )
                } else {
                    None
                },
            }
        },
    }
}

/// The ternary projections among `ts`, in the same order.
pub open spec fn projections(ts: Seq<TensorView>) -> Seq<TensorView>
    decreases ts.len(),
{
    if ts.len() == 0 {
        seq![]
    } else if bitlinear_name(ts.last().name) {
        projections(ts.drop_last()).push(ts.last())
    } else {
        projections(ts.drop_last())
    }
}

/// What is wrong with the first projection that cannot be kept.
pub open spec fn first_fault(ts: Seq<TensorView>, vectors: Seq<VectorView>) -> Option<Seq<char>>
    decreases ts.len(),
{
    if ts.len() == 0 {
        None
    } else if first_fault(ts.drop_last(), vectors) is Some {
        first_fault(ts.drop_last(), vectors)
    } else {
        tensor_fault(ts.last(), vectors)
    }
}

/// The scales of a projection.
pub open spec fn scales_of(t: TensorView, vectors: Seq<VectorView>) -> Seq<u32> {
    vector_named(vectors, scale_key(t.name, vectors)).unwrap()
}

/// The scales of all projections, one after the other.
pub open spec fn all_scales(ts: Seq<TensorView>, vectors: Seq<VectorView>) -> Seq<u32>
    decreases ts.len(),
{
    if ts.len() == 0 {
        seq![]
    } else {
        all_scales(ts.drop_last(), vectors) + scales_of(ts.last(), vectors)
    }
}

/// The layout entry of each projection.
pub open spec fn entries_of(ts: Seq<TensorView>, vectors: Seq<VectorView>) -> Seq<EntryView> {
    Seq::new(
        ts.len(),
        |i: int|
            EntryView {
                name: ts[i].name,
                rows: ts[i].shape[0],
                cols: ts[i].shape[1],
                scale_offset: all_scales(ts.take(i), vectors).len() as int,
            },
    )
}

/// The file of each projection.
pub open spec fn files_of(ts: Seq<TensorView>) -> Seq<FileView> {
    Seq::new(
        ts.len(),
        |i: int| FileView { path: tensor_path(ts[i].name), bytes: ts[i].raw_bytes.unwrap() },
    )
}

/// `t` put into `s` behind every tensor whose name does not come after its
/// own.
pub open spec fn inserted(s: Seq<TensorView>, t: TensorView) -> Seq<TensorView>
    decreases s.len(),
{
    if s.len() > 0 && before(t.name, s.last().name) {
        inserted(s.drop_last(), t).push(s.last())
    } else {
        s.push(t)
    }
}

/// The tensors in the order of their names.
pub open spec fn in_name_order(ts: Seq<TensorView>) -> Seq<TensorView>
    decreases ts.len(),
{
    if ts.len() == 0 {
        seq![]
    } else {
        inserted(in_name_order(ts.drop_last()), ts.last())
    }
}

/// What is written for the projections `ts`, which can all be kept.
pub open spec fn artifacts_of(ts: Seq<TensorView>, vectors: Seq<VectorView>) -> ArtifactsView {
    ArtifactsView {
        files: files_of(ts),
        scales: words_le(all_scales(ts, vectors)),
        entries: entries_of(ts, vectors),
        total_scale_count: all_scales(ts, vectors).len() as int,
    }
}

/// What is written for a model, or why nothing is.
pub open spec fn artifacts(tensors: Seq<TensorView>, vectors: Seq<VectorView>) -> Result<
    ArtifactsView,
    Seq<char>,
> {
    let ts = projections(in_name_order(tensors));
    match first_fault(ts, vectors) {
        Some(fault) => Err(fault),
        None => if ts.len() == 0 {
            Err("BitNet --keep-quant: no I2_S BitLinear tensors found in weights"@)
        } else {
            Ok(artifacts_of(ts, vectors))
        },
    }
}

/// Whether the name is that of a ternary projection.
pub fn is_bitlinear_key(key: &str) -> (r: bool)
    ensures
        r == bitlinear_name(key@),
{
    ends_with(key, ".attn_q.weight") || ends_with(key, ".attn_k.weight") || ends_with(
        key,
        ".attn_v.weight",
    ) || ends_with(key, ".attn_output.weight") || ends_with(key, ".ffn_gate.weight") || ends_with(
        key,
        ".ffn_up.weight",
    ) || ends_with(key, ".ffn_down.weight")
}

/// The layer number in a name `blk.<layer>.<rest>`.
pub fn parse_layer_index(key: &str) -> (r: Option<usize>)
    ensures
        match r {
            Some(n) => layer_index(key@) == Some(n as nat),
            None => layer_index(key@) is None,
        },
{
    if !starts_with(key, "blk.") {
        return None;
    }
    proof {
        reveal_strlit("blk.");
    }
    let all: Vec<char> = chars_of(key);
    let rest_text: String = string_of(&all, 4, all.len());
    let rest: Vec<char> = chars_of(rest_text.as_str());
    assert(rest@ =~= key@.skip(4));
    let dot: usize = find(&rest, '.');
    if dot == rest.len() {
        return None;
    }
    let number_text: String = string_of(&rest, 0, dot);
    let number: Vec<char> = chars_of(number_text.as_str());
    assert(number@ =~= key@.skip(4).take(dot as int));
    parse_size(&number)
}

/// The first vector of that name.
fn find_vector(vectors: &Vec<VectorSource>, name: &str) -> (r: Option<usize>)
    ensures
        match r {
            Some(i) => i < vectors@.len() && vector_named(vector_views(vectors@), name@) == Some(
                vectors@[i as int].values@,
            ),
            None => vector_named(vector_views(vectors@), name@) is None,
        },
{
    let ghost all = vector_views(vectors@);
    let mut i: usize = 0;
    assert(all.skip(0) =~= all);
    while i < vectors.len()
        invariant
            i <= vectors@.len(),
            all == vector_views(vectors@),
            vector_named(all, name@) == vector_named(all.skip(i as int), name@),
        decreases vectors@.len() - i,
    {
        assert(all.skip(i as int)[0] == vectors@[i as int]@);
        if same_text(vectors[i].name.as_str(), name) {
            return Some(i);
        }
        assert(all.skip(i as int).drop_first() =~= all.skip(i + 1));
        i = i + 1;
    }
    None
}

/// The name of the vector that holds the scales of `weight_key`.
pub fn pick_scale_key_for(weight_key: &str, vectors: &Vec<VectorSource>) -> (key: String)
    ensures
        key@ == scale_key(weight_key@, vector_views(vectors@)),
{
    if let Some(layer) = parse_layer_index(weight_key) {
        let mut candidate: String = String::from_str("blk.");
        append_size(&mut candidate, layer);
        if ends_with(weight_key, ".attn_output.weight") {
            candidate.append(".attn_sub_norm.weight");
        } else if ends_with(weight_key, ".ffn_down.weight") {
            candidate.append(".ffn_sub_norm.weight");
        } else if ends_with(weight_key, ".ffn_gate.weight") || ends_with(
            weight_key,
            ".ffn_up.weight",
        ) {
            candidate.append(".ffn_norm.weight");
        } else {
            candidate.append(".attn_norm.weight");
        }
        assert(candidate@ == scale_name(weight_key@, layer as nat));
        if find_vector(vectors, candidate.as_str()).is_some() {
            return candidate;
        }
    }
    String::from_str(weight_key)
}

/// Inserting at the place that the order asks for.
proof fn inserted_at(s: Seq<TensorView>, t: TensorView, j: int)
    requires
        0 <= j <= s.len(),
        forall|k: int| j <= k < s.len() ==> before(t.name, #[trigger] s[k].name),
        j > 0 ==> !before(t.name, s[j - 1].name),
    ensures
        inserted(s, t) == s.insert(j, t),
    decreases s.len(),
{
    if j == s.len() {
        assert(s.insert(j, t) =~= s.push(t));
    } else {
        let init = s.drop_last();
        assert(before(t.name, s[s.len() - 1].name));
        inserted_at(init, t, j);
        assert(s.insert(j, t) =~= init.insert(j, t).push(s.last()));
    }
}

/// The tensors at the given places.
spec fn at_places(ts: Seq<TensorView>, places: Seq<usize>) -> Seq<TensorView> {
    Seq::new(places.len(), |i: int| ts[places[i] as int])
}

/// The places of the tensors in the order of their names.
fn name_order(tensors: &Vec<TensorSource>) -> (order: Vec<usize>)
    ensures
        forall|i: int| 0 <= i < order@.len() ==> #[trigger] order@[i] < tensors@.len(),
        at_places(tensor_views(tensors@), order@) == in_name_order(tensor_views(tensors@)),
{
    let ghost ts = tensor_views(tensors@);
    let mut order: Vec<usize> = Vec::new();
    let mut i: usize = 0;
    assert(at_places(ts, order@) =~= in_name_order(ts.take(0)));
    while i < tensors.len()
        invariant
            i <= tensors@.len(),
            ts == tensor_views(tensors@),
            forall|k: int| 0 <= k < order@.len() ==> #[trigger] order@[k] < tensors@.len(),
            at_places(ts, order@) == in_name_order(ts.take(i as int)),
        decreases tensors@.len() - i,
    {
        let ghost s = at_places(ts, order@);
        let mut j: usize = order.len();
        while j > 0 && precedes(tensors[i].name.as_str(), tensors[order[j - 1]].name.as_str())
            invariant
                i < tensors@.len(),
                j <= order@.len(),
                ts == tensor_views(tensors@),
                s == at_places(ts, order@),
                forall|k: int| 0 <= k < order@.len() ==> #[trigger] order@[k] < tensors@.len(),
                forall|k: int| j <= k < s.len() ==> before(ts[i as int].name, #[trigger] s[k].name),
            ensures
                j > 0 ==> !before(ts[i as int].name, s[j - 1].name),
            decreases j,
        {
            assert(s[j - 1] == ts[order@[j - 1] as int]);
            j = j - 1;
        }
        proof {
            inserted_at(s, ts[i as int], j as int);
            let t = ts.take(i + 1);
            assert(t.drop_last() =~= ts.take(i as int));
            assert(t.last() == ts[i as int]);
        }
        let ghost old_order = order@;
        order.insert(j, i);
        assert(at_places(ts, order@) =~= s.insert(j as int, ts[i as int]));
        i = i + 1;
    }
    assert(ts.take(i as int) =~= ts);
    order
}

/// A fault stays the first one when more projections follow.
proof fn first_fault_stays(ts: Seq<TensorView>, vectors: Seq<VectorView>, k: int)
    requires
        0 <= k <= ts.len(),
        first_fault(ts.take(k), vectors) is Some,
    ensures
        first_fault(ts, vectors) == first_fault(ts.take(k), vectors),
    decreases ts.len() - k,
{
    if k == ts.len() {
        assert(ts.take(k) =~= ts);
    } else {
        assert(ts.take(k + 1).drop_last() =~= ts.take(k));
        first_fault_stays(ts, vectors, k + 1);
    }
}

/// The projections of a beginning are a beginning of the projections.
proof fn projections_prefix(ts: Seq<TensorView>, k: int)
    requires
        0 <= k <= ts.len(),
    ensures
        projections(ts.take(k)).len() <= projections(ts).len(),
        projections(ts.take(k)) == projections(ts).take(projections(ts.take(k)).len() as int),
    decreases ts.len() - k,
{
    if k == ts.len() {
        assert(ts.take(k) =~= ts);
        assert(projections(ts).take(projections(ts).len() as int) =~= projections(ts));
    } else {
        let a = projections(ts.take(k));
        let b = projections(ts.take(k + 1));
        assert(ts.take(k + 1).drop_last() =~= ts.take(k));
        projections_prefix(ts, k + 1);
        assert(a =~= b.take(a.len() as int));
        assert(b.take(a.len() as int) =~= projections(ts).take(a.len() as int));
    }
}

/// Why one projection cannot be kept; `None` where it can.
fn check_tensor(t: &TensorSource, vectors: &Vec<VectorSource>) -> (fault: Option<String>)
    ensures
        match fault {
            Some(m) => tensor_fault(t@, vector_views(vectors@)) == Some(m@),
            None => tensor_fault(t@, vector_views(vectors@)) is None,
        },
{
    match &t.raw_bytes {
        None => {
            let mut m: String = String::from_str("BitNet --keep-quant: tensor ");
            m.append(t.name.as_str());
            m.append(
                " has no raw I2_S bytes; loader must populate raw_bytes for type 36 tensors",
            );
            Some(m)
        },
        Some(bytes) => {
            if t.shape.len() != 2 {
                let mut m: String = String::from_str("BitLinear tensor ");
                m.append(t.name.as_str());
                m.append(" has shape ");
                append_size_list(&mut m, &t.shape);
                m.append("; expected 2D");
                return Some(m);
            }
            let rows: usize = t.shape[0];
            let cols: usize = t.shape[1];
            if cols % 4 != 0 {
                let mut m: String = String::from_str("BitLinear tensor ");
                m.append(t.name.as_str());
                m.append(": cols (");
                append_size(&mut m, cols);
                m.append(") must be multiple of 4 for I2_S");
                return Some(m);
            }
            proof {
                size_product_fits(rows, cols);
            }
            let expected: u128 = (rows as u128) * (cols as u128) / 4;
            if bytes.len() as u128 != expected {
                let mut m: String = String::from_str("BitLinear tensor ");
                m.append(t.name.as_str());
                m.append(": bytes len ");
                append_size(&mut m, bytes.len());
                m.append(" != rows*cols/4 = ");
                append_decimal(&mut m, expected);
                return Some(m);
            }
            let key: String = pick_scale_key_for(t.name.as_str(), vectors);
            match find_vector(vectors, key.as_str()) {
                None => {
                    let mut m: String = String::from_str(
                        "BitNet --keep-quant: missing scale tensor ",
                    );
                    m.append(key.as_str());
                    m.append(" for ");
                    m.append(t.name.as_str());
                    Some(m)
                },
                Some(at) => {
                    let n: usize = vectors[at].values.len();
                    if n != rows {
                        let mut m: String = String::from_str("BitNet --keep-quant: scale tensor ");
                        m.append(key.as_str());
                        m.append(" has len ");
                        append_size(&mut m, n);
                        m.append(", expected ");
                        append_size(&mut m, rows);
                        Some(m)
                    } else {
                        None
                    }
                },
            }
        },
    }
}

/// Appends `more` to `all`.
fn extend_scales(all: &mut Vec<u32>, more: &Vec<u32>)
    ensures
        final(all)@ == old(all)@ + more@,
{
    let mut i: usize = 0;
    while i < more.len()
        invariant
            i <= more@.len(),
            all@ == old(all)@ + more@.take(i as int),
        decreases more@.len() - i,
    {
        all.push(more[i]);
        i = i + 1;
        assert(all@ =~= old(all)@ + more@.take(i as int));
    }
    assert(more@.take(i as int) =~= more@);
}

/// Lays out the ternary weights of a model.
///
/// The projections are taken in the order of their names, so that the places
/// of the scales do not depend on how the model was read. The first one that
/// cannot be kept is reported.
pub fn write_bitnet_artifacts(source: &BitnetSource, arch: BitnetArchMeta) -> (r: Result<
    BitnetArtifacts,
    VindexError,
>)
    ensures
        match r {
            Ok(a) => artifacts(tensor_views(source.tensors@), vector_views(source.vectors@)) == Ok::<
                ArtifactsView,
                Seq<char>,
            >(a@) && a.layout.rms_eps == arch.rms_eps && a.layout.head_dim == arch.head_dim
                && a.layout.n_q_heads == arch.n_q_heads && a.layout.n_kv_heads == arch.n_kv_heads
                && a.layout.rope_base == arch.rope_base,
            Err(VindexError::Parse(m)) => artifacts(
                tensor_views(source.tensors@),
                vector_views(source.vectors@),
            ) == Err::<ArtifactsView, Seq<char>>(m@),
            Err(_) => false,
        },
{
    let ghost vectors = vector_views(source.vectors@);
    let ghost all = in_name_order(tensor_views(source.tensors@));
    let ghost ts = projections(all);
    let order: Vec<usize> = name_order(&source.tensors);
    let mut files: Vec<TensorFile> = Vec::new();
    let mut entries: Vec<BitnetTensorEntry> = Vec::new();
    let mut scales: Vec<u32> = Vec::new();
    let mut i: usize = 0;
    assert(file_views(files@) =~= files_of(projections(all.take(0))));
    assert(entry_views(entries@) =~= entries_of(projections(all.take(0)), vectors));
    assert(scales@ =~= all_scales(projections(all.take(0)), vectors));
    while i < order.len()
        invariant
            i <= order@.len(),
            vectors == vector_views(source.vectors@),
            all == in_name_order(tensor_views(source.tensors@)),
            all == at_places(tensor_views(source.tensors@), order@),
            ts == projections(all),
            forall|k: int| 0 <= k < order@.len() ==> #[trigger] order@[k] < source.tensors@.len(),
            first_fault(projections(all.take(i as int)), vectors) is None,
            file_views(files@) == files_of(projections(all.take(i as int))),
            entry_views(entries@) == entries_of(projections(all.take(i as int)), vectors),
            scales@ == all_scales(projections(all.take(i as int)), vectors),
        decreases order@.len() - i,
    {
        let t: &TensorSource = &source.tensors[order[i]];
        let ghost done = projections(all.take(i as int));
        proof {
            assert(all.take(i + 1).drop_last() =~= all.take(i as int));
            assert(all.take(i + 1).last() == t@);
        }
        if is_bitlinear_key(t.name.as_str()) {
            let ghost next = done.push(t@);
            assert(next.drop_last() =~= done);
            assert(projections(all.take(i + 1)) == next);
            if let Some(m) = check_tensor(t, &source.vectors) {
                proof {
                    projections_prefix(all, i + 1);
                    assert(next == ts.take(next.len() as int));
                    first_fault_stays(ts, vectors, next.len() as int);
                }
                return Err(VindexError::Parse(m));
            }
            let key: String = pick_scale_key_for(t.name.as_str(), &source.vectors);
            let found: Option<usize> = find_vector(&source.vectors, key.as_str());
            if let (Some(at), Some(bytes)) = (found, &t.raw_bytes) {
                let copy: Vec<u8> = bytes.clone();
                assert(copy@ =~= bytes@);
                let path: String = bitnet_tensor_filename(t.name.as_str());
                let ghost old_files = files@;
                let ghost old_entries = entries@;
                files.push(TensorFile { path, bytes: copy });
                let scale_offset: usize = scales.len();
                extend_scales(&mut scales, &source.vectors[at].values);
                entries.push(
                    BitnetTensorEntry {
                        name: t.name.clone(),
                        rows: t.shape[0],
                        cols: t.shape[1],
                        scale_offset,
                    },
                );
                proof {
                    assert(file_views(old_files).len() == files_of(done).len());
                    assert(entry_views(old_entries).len() == entries_of(done, vectors).len());
                    assert(file_views(files@) =~= files_of(next)) by {
                        assert forall|k: int| 0 <= k < next.len() implies file_views(files@)[k]
                            == files_of(next)[k] by {
                            if k < done.len() {
                                assert(file_views(old_files)[k] == files_of(done)[k]);
                            }
                        }
                    }
                    assert(entry_views(entries@) =~= entries_of(next, vectors)) by {
                        assert forall|k: int| 0 <= k < next.len() implies entry_views(entries@)[k]
                            == entries_of(next, vectors)[k] by {
                            if k < done.len() {
                                assert(entry_views(old_entries)[k] == entries_of(done, vectors)[k]);
                                assert(next.take(k) =~= done.take(k));
                            } else {
                                assert(next.take(k) =~= done);
                            }
                        }
                    }
                }
            }
        }
        i = i + 1;
    }
    assert(all.take(i as int) =~= all);
    if entries.len() == 0 {
        assert(entry_views(entries@).len() == 0);
        return Err(
            VindexError::Parse(
                String::from_str(
                    "BitNet --keep-quant: no I2_S BitLinear tensors found in weights",
                ),
            ),
        );
    }
    assert(entry_views(entries@).len() == ts.len());
    let mut bytes: Vec<u8> = Vec::new();
    append_words(&mut bytes, &scales);
    assert(bytes@ =~= words_le(scales@));
    let layout = BitnetLayout {
        tensors: entries,
        total_scale_count: scales.len(),
        rms_eps: arch.rms_eps,
        head_dim: arch.head_dim,
        n_q_heads: arch.n_q_heads,
        n_kv_heads: arch.n_kv_heads,
        rope_base: arch.rope_base,
    };
    let a = BitnetArtifacts { files, scales: bytes, layout };
    assert(a@ =~= artifacts_of(ts, vectors));
    Ok(a)
}

/// Whether no tensor's name comes after that of a later one.
pub open spec fn name_sorted(s: Seq<TensorView>) -> bool {
    forall|i: int, j: int|
        0 <= i < j < s.len() ==> !before((#[trigger] s[j]).name, (#[trigger] s[i]).name)
}

/// Inserting keeps the order and adds exactly the one tensor.
proof fn inserted_keeps_order(s: Seq<TensorView>, t: TensorView)
    requires
        name_sorted(s),
    ensures
        name_sorted(inserted(s, t)),
        inserted(s, t).to_multiset() == s.to_multiset().insert(t),
        forall|i: int|
            0 <= i < inserted(s, t).len() ==> (#[trigger] inserted(s, t)[i]) == t || exists|k: int|
                0 <= k < s.len() && s[k] == inserted(s, t)[i],
    decreases s.len(),
{
    broadcast use vstd::seq_lib::group_to_multiset_ensures;

    if s.len() > 0 && before(t.name, s.last().name) {
        let init = s.drop_last();
        inserted_keeps_order(init, t);
        let r = inserted(init, t);
        let out = r.push(s.last());
        assert forall|i: int| 0 <= i < out.len() implies (#[trigger] out[i]) == t || exists|k: int|
            0 <= k < s.len() && s[k] == out[i] by {
            if i < r.len() {
                if r[i] != t {
                    let k = choose|k: int| 0 <= k < init.len() && init[k] == r[i];
                    assert(s[k] == out[i]);
                }
            } else {
                assert(s[s.len() - 1] == out[i]);
            }
        }
        assert forall|i: int, j: int| 0 <= i < j < out.len() implies !before(
            (#[trigger] out[j]).name,
            (#[trigger] out[i]).name,
        ) by {
            if j < r.len() {
                assert(!before(r[j].name, r[i].name));
            } else if r[i] == t {
                before_total(t.name, s.last().name);
            } else {
                let k = choose|k: int| 0 <= k < init.len() && init[k] == r[i];
                assert(!before(s[s.len() - 1].name, s[k].name));
            }
        }
        assert(s =~= init.push(s.last()));
        assert(out.to_multiset() =~= s.to_multiset().insert(t));
    } else {
        let out = s.push(t);
        assert forall|i: int, j: int| 0 <= i < j < out.len() implies !before(
            (#[trigger] out[j]).name,
            (#[trigger] out[i]).name,
        ) by {
            if j < s.len() {
                assert(!before(s[j].name, s[i].name));
            } else if before(t.name, s[i].name) {
                if i < s.len() - 1 {
                    assert(!before(s[s.len() - 1].name, s[i].name));
                    before_total(s[i].name, s.last().name);
                    if s[i].name != s.last().name {
                        before_transitive(t.name, s[i].name, s.last().name);
                    }
                }
            }
        }
        assert forall|i: int| 0 <= i < out.len() implies (#[trigger] out[i]) == t || exists|k: int|
            0 <= k < s.len() && s[k] == out[i] by {
            if i < s.len() {
                assert(s[i] == out[i]);
            }
        }
    }
}

/// Taking tensors in the order of their names neither loses nor repeats one,
/// and no name comes after that of a later tensor.
pub proof fn name_order_is_a_sorting(ts: Seq<TensorView>)
    ensures
        name_sorted(in_name_order(ts)),
        in_name_order(ts).to_multiset() == ts.to_multiset(),
    decreases ts.len(),
{
    broadcast use vstd::seq_lib::group_to_multiset_ensures;

    if ts.len() == 0 {
        assert(in_name_order(ts) =~= ts);
    } else {
        name_order_is_a_sorting(ts.drop_last());
        inserted_keeps_order(in_name_order(ts.drop_last()), ts.last());
        assert(ts =~= ts.drop_last().push(ts.last()));
    }
}

/// Whether tensors of one name are the same tensor.
pub open spec fn names_tell_tensors(ts: Seq<TensorView>) -> bool {
    forall|i: int, j: int|
        0 <= i < ts.len() && 0 <= j < ts.len() && (#[trigger] ts[i]).name == (
        #[trigger] ts[j]).name ==> ts[i] == ts[j]
}

/// Whether vectors of one name are the same vector.
pub open spec fn names_tell_vectors(vs: Seq<VectorView>) -> bool {
    forall|i: int, j: int|
        0 <= i < vs.len() && 0 <= j < vs.len() && (#[trigger] vs[i]).name == (
        #[trigger] vs[j]).name ==> vs[i] == vs[j]
}

/// What one list holds, another with the same contents holds too.
proof fn same_contents<T>(a: Seq<T>, b: Seq<T>, i: int) -> (j: int)
    requires
        a.to_multiset() == b.to_multiset(),
        0 <= i < a.len(),
    ensures
        0 <= j < b.len(),
        b[j] == a[i],
{
    broadcast use vstd::seq_lib::group_to_multiset_ensures;

    assert(a.contains(a[i]));
    assert(b.to_multiset().count(a[i]) > 0);
    assert(b.contains(a[i]));
    choose|j: int| 0 <= j < b.len() && b[j] == a[i]
}

/// There is one way to put tensors in the order of their names.
proof fn sorting_is_unique(a: Seq<TensorView>, b: Seq<TensorView>)
    requires
        name_sorted(a),
        name_sorted(b),
        names_tell_tensors(a),
        a.to_multiset() == b.to_multiset(),
    ensures
        a == b,
    decreases a.len(),
{
    broadcast use vstd::seq_lib::group_to_multiset_ensures;

    assert(a.len() == a.to_multiset().len() && b.len() == b.to_multiset().len());
    if a.len() == 0 {
        assert(a =~= b);
    } else {
        let n = a.len() - 1;
        let j = same_contents(a, b, n);
        let k = same_contents(b, a, n);
        before_total(a[n].name, b[n].name);
        if j < n {
            assert(!before(b[n].name, b[j].name));
        }
        if k < n {
            assert(!before(a[n].name, a[k].name));
        }
        assert(a[n].name == a[k].name);
        assert(a.last() == b.last());
        let x = a.drop_last();
        let y = b.drop_last();
        assert(a =~= x.push(a.last()));
        assert(b =~= y.push(b.last()));
        assert(x.to_multiset() =~= a.to_multiset().remove(a.last()));
        assert(y.to_multiset() =~= b.to_multiset().remove(b.last()));
        assert(names_tell_tensors(x)) by {
            assert forall|i: int, j: int|
                0 <= i < x.len() && 0 <= j < x.len() && (#[trigger] x[i]).name == (
                #[trigger] x[j]).name implies x[i] == x[j] by {
                assert(a[i] == x[i] && a[j] == x[j]);
            }
        }
        assert(name_sorted(x)) by {
            assert forall|i: int, j: int| 0 <= i < j < x.len() implies !before(
                (#[trigger] x[j]).name,
                (#[trigger] x[i]).name,
            ) by {
                assert(a[i] == x[i] && a[j] == x[j]);
            }
        }
        assert(name_sorted(y)) by {
            assert forall|i: int, j: int| 0 <= i < j < y.len() implies !before(
                (#[trigger] y[j]).name,
                (#[trigger] y[i]).name,
            ) by {
                assert(b[i] == y[i] && b[j] == y[j]);
            }
        }
        sorting_is_unique(x, y);
    }
}

/// A vector that is found is one of the list, and one of the list is found.
proof fn vector_named_is_listed(vs: Seq<VectorView>, name: Seq<char>)
    ensures
        vector_named(vs, name) is Some ==> exists|i: int|
            0 <= i < vs.len() && (#[trigger] vs[i]).name == name && vector_named(vs, name) == Some(
                vs[i].values,
            ),
        vector_named(vs, name) is None ==> forall|i: int|
            0 <= i < vs.len() ==> (#[trigger] vs[i]).name != name,
    decreases vs.len(),
{
    if vs.len() > 0 && vs[0].name != name {
        let rest = vs.drop_first();
        vector_named_is_listed(rest, name);
        if vector_named(rest, name) is Some {
            let i = choose|i: int|
                0 <= i < rest.len() && (#[trigger] rest[i]).name == name && vector_named(rest, name)
                    == Some(rest[i].values);
            assert(vs[i + 1] == rest[i]);
        } else {
            assert forall|i: int| 0 <= i < vs.len() implies (#[trigger] vs[i]).name != name by {
                if i > 0 {
                    assert(vs[i] == rest[i - 1]);
                }
            }
        }
    }
}

/// Where names tell vectors apart, the order of the list does not matter to
/// what is found.
proof fn lookup_ignores_order(a: Seq<VectorView>, b: Seq<VectorView>, name: Seq<char>)
    requires
        names_tell_vectors(a),
        a.to_multiset() == b.to_multiset(),
    ensures
        vector_named(a, name) == vector_named(b, name),
{
    vector_named_is_listed(a, name);
    vector_named_is_listed(b, name);
    if vector_named(a, name) is Some {
        let i = choose|i: int|
            0 <= i < a.len() && (#[trigger] a[i]).name == name && vector_named(a, name) == Some(
                a[i].values,
            );
        let j = same_contents(a, b, i);
        assert(b[j].name == name);
        let m = choose|m: int|
            0 <= m < b.len() && (#[trigger] b[m]).name == name && vector_named(b, name) == Some(
                b[m].values,
            );
        let k = same_contents(b, a, m);
        assert(a[k].name == a[i].name);
    } else if vector_named(b, name) is Some {
        let m = choose|m: int|
            0 <= m < b.len() && (#[trigger] b[m]).name == name && vector_named(b, name) == Some(
                b[m].values,
            );
        let k = same_contents(b, a, m);
        assert(a[k].name == name);
    }
}

/// The vectors matter only by what is found in them.
proof fn lookups_decide(ts: Seq<TensorView>, a: Seq<VectorView>, b: Seq<VectorView>)
    requires
        forall|name: Seq<char>| #[trigger] vector_named(a, name) == vector_named(b, name),
    ensures
        first_fault(ts, a) == first_fault(ts, b),
        all_scales(ts, a) == all_scales(ts, b),
    decreases ts.len(),
{
    if ts.len() > 0 {
        lookups_decide(ts.drop_last(), a, b);
        assert(scale_key(ts.last().name, a) == scale_key(ts.last().name, b));
    }
}

/// What is written does not depend on the order in which a model's tensors
/// and vectors were read, where each name stands for one of them.
pub proof fn reading_order_does_not_matter(
    tensors: Seq<TensorView>,
    vectors: Seq<VectorView>,
    other_tensors: Seq<TensorView>,
    other_vectors: Seq<VectorView>,
)
    requires
        names_tell_tensors(tensors),
        names_tell_vectors(vectors),
        tensors.to_multiset() == other_tensors.to_multiset(),
        vectors.to_multiset() == other_vectors.to_multiset(),
    ensures
        artifacts(tensors, vectors) == artifacts(other_tensors, other_vectors),
{
    let x = in_name_order(tensors);
    let y = in_name_order(other_tensors);
    name_order_is_a_sorting(tensors);
    name_order_is_a_sorting(other_tensors);
    assert(names_tell_tensors(x)) by {
        assert forall|i: int, j: int|
            0 <= i < x.len() && 0 <= j < x.len() && (#[trigger] x[i]).name == (
            #[trigger] x[j]).name implies x[i] == x[j] by {
            let p = same_contents(x, tensors, i);
            let q = same_contents(x, tensors, j);
            assert(tensors[p].name == tensors[q].name);
        }
    }
    sorting_is_unique(x, y);
    assert forall|name: Seq<char>| #[trigger] vector_named(vectors, name) == vector_named(
        other_vectors,
        name,
    ) by {
        lookup_ignores_order(vectors, other_vectors, name);
    }
    let ts = projections(x);
    lookups_decide(ts, vectors, other_vectors);
    assert forall|i: int| 0 <= i < ts.len() implies #[trigger] all_scales(ts.take(i), vectors)
        == all_scales(ts.take(i), other_vectors) by {
        lookups_decide(ts.take(i), vectors, other_vectors);
    }
    assert(entries_of(ts, vectors) =~= entries_of(ts, other_vectors));
}

/// The projections are those tensors whose name is that of one.
pub proof fn projections_are_named_so(ts: Seq<TensorView>)
    ensures
        forall|i: int|
            0 <= i < projections(ts).len() ==> bitlinear_name((#[trigger] projections(ts)[i]).name),
        forall|i: int|
            0 <= i < ts.len() && bitlinear_name((#[trigger] ts[i]).name) ==> projections(ts).contains(
                ts[i],
            ),
    decreases ts.len(),
{
    if ts.len() > 0 {
        let init = ts.drop_last();
        projections_are_named_so(init);
        assert forall|i: int|
            0 <= i < ts.len() && bitlinear_name((#[trigger] ts[i]).name) implies projections(
            ts,
        ).contains(ts[i]) by {
            if i < init.len() {
                assert(projections(init).contains(init[i]));
                let k = choose|k: int|
                    0 <= k < projections(init).len() && projections(init)[k] == init[i];
                assert(projections(ts)[k] == ts[i]);
            } else {
                assert(projections(ts)[projections(ts).len() - 1] == ts[i]);
            }
        }
    }
}

/// The letter before `.weight` tells the projections apart.
proof fn letter_before_weight(key: Seq<char>)
    ensures
        ".attn_q.weight"@.is_suffix_of(key) ==> key.len() > 8 && key[key.len() - 8] == 'q',
        ".attn_k.weight"@.is_suffix_of(key) ==> key.len() > 8 && key[key.len() - 8] == 'k',
        ".attn_v.weight"@.is_suffix_of(key) ==> key.len() > 8 && key[key.len() - 8] == 'v',
        ".attn_output.weight"@.is_suffix_of(key) ==> key.len() > 8 && key[key.len() - 8] == 't',
        ".ffn_gate.weight"@.is_suffix_of(key) ==> key.len() > 8 && key[key.len() - 8] == 'e',
        ".ffn_up.weight"@.is_suffix_of(key) ==> key.len() > 8 && key[key.len() - 8] == 'p',
        ".ffn_down.weight"@.is_suffix_of(key) ==> key.len() > 8 && key[key.len() - 8] == 'n',
{
    reveal_strlit(".attn_q.weight");
    reveal_strlit(".attn_k.weight");
    reveal_strlit(".attn_v.weight");
    reveal_strlit(".attn_output.weight");
    reveal_strlit(".ffn_gate.weight");
    reveal_strlit(".ffn_up.weight");
    reveal_strlit(".ffn_down.weight");
    if ".attn_q.weight"@.is_suffix_of(key) {
        let s = ".attn_q.weight"@;
        assert(s[s.len() - 8] == 'q');
        assert(key.subrange(key.len() - s.len(), key.len() as int)[s.len() - 8] == key[key.len()
            - 8]);
    }
    if ".attn_k.weight"@.is_suffix_of(key) {
        let s = ".attn_k.weight"@;
        assert(s[s.len() - 8] == 'k');
        assert(key.subrange(key.len() - s.len(), key.len() as int)[s.len() - 8] == key[key.len()
            - 8]);
    }
    if ".attn_v.weight"@.is_suffix_of(key) {
        let s = ".attn_v.weight"@;
        assert(s[s.len() - 8] == 'v');
        assert(key.subrange(key.len() - s.len(), key.len() as int)[s.len() - 8] == key[key.len()
            - 8]);
    }
    if ".attn_output.weight"@.is_suffix_of(key) {
        let s = ".attn_output.weight"@;
        assert(s[s.len() - 8] == 't');
        assert(key.subrange(key.len() - s.len(), key.len() as int)[s.len() - 8] == key[key.len()
            - 8]);
    }
    if ".ffn_gate.weight"@.is_suffix_of(key) {
        let s = ".ffn_gate.weight"@;
        assert(s[s.len() - 8] == 'e');
        assert(key.subrange(key.len() - s.len(), key.len() as int)[s.len() - 8] == key[key.len()
            - 8]);
    }
    if ".ffn_up.weight"@.is_suffix_of(key) {
        let s = ".ffn_up.weight"@;
        assert(s[s.len() - 8] == 'p');
        assert(key.subrange(key.len() - s.len(), key.len() as int)[s.len() - 8] == key[key.len()
            - 8]);
    }
    if ".ffn_down.weight"@.is_suffix_of(key) {
        let s = ".ffn_down.weight"@;
        assert(s[s.len() - 8] == 'n');
        assert(key.subrange(key.len() - s.len(), key.len() as int)[s.len() - 8] == key[key.len()
            - 8]);
    }
}

/// Which vector holds the scales of which projection: queries, keys and values
/// take those of the norm before attention, the output those of the norm
/// within attention, gate and way up those of the norm before the
/// feed-forward block, and the way down those of the norm within it; each of
/// its own layer.
pub proof fn scales_belong_to_projections(p: Seq<char>, layer: nat)
    ensures
        scale_name(p + ".attn_q.weight"@, layer) == "blk."@ + decimal(layer) + ".attn_norm.weight"@,
        scale_name(p + ".attn_k.weight"@, layer) == "blk."@ + decimal(layer) + ".attn_norm.weight"@,
        scale_name(p + ".attn_v.weight"@, layer) == "blk."@ + decimal(layer) + ".attn_norm.weight"@,
        scale_name(p + ".attn_output.weight"@, layer) == "blk."@ + decimal(layer) + ".attn_sub_norm.weight"@,
        scale_name(p + ".ffn_gate.weight"@, layer) == "blk."@ + decimal(layer) + ".ffn_norm.weight"@,
        scale_name(p + ".ffn_up.weight"@, layer) == "blk."@ + decimal(layer) + ".ffn_norm.weight"@,
        scale_name(p + ".ffn_down.weight"@, layer) == "blk."@ + decimal(layer) + ".ffn_sub_norm.weight"@,
        bitlinear_name(p + ".attn_q.weight"@),
        bitlinear_name(p + ".attn_k.weight"@),
        bitlinear_name(p + ".attn_v.weight"@),
        bitlinear_name(p + ".attn_output.weight"@),
        bitlinear_name(p + ".ffn_gate.weight"@),
        bitlinear_name(p + ".ffn_up.weight"@),
        bitlinear_name(p + ".ffn_down.weight"@),
{
    let k0 = p + ".attn_q.weight"@;
    assert(".attn_q.weight"@.is_suffix_of(k0)) by {
        assert(k0.subrange(k0.len() - ".attn_q.weight"@.len(), k0.len() as int) =~= ".attn_q.weight"@);
    }
    letter_before_weight(k0);
    let k1 = p + ".attn_k.weight"@;
    assert(".attn_k.weight"@.is_suffix_of(k1)) by {
        assert(k1.subrange(k1.len() - ".attn_k.weight"@.len(), k1.len() as int) =~= ".attn_k.weight"@);
    }
    letter_before_weight(k1);
    let k2 = p + ".attn_v.weight"@;
    assert(".attn_v.weight"@.is_suffix_of(k2)) by {
        assert(k2.subrange(k2.len() - ".attn_v.weight"@.len(), k2.len() as int) =~= ".attn_v.weight"@);
    }
    letter_before_weight(k2);
    let k3 = p + ".attn_output.weight"@;
    assert(".attn_output.weight"@.is_suffix_of(k3)) by {
        assert(k3.subrange(k3.len() - ".attn_output.weight"@.len(), k3.len() as int) =~= ".attn_output.weight"@);
    }
    letter_before_weight(k3);
    let k4 = p + ".ffn_gate.weight"@;
    assert(".ffn_gate.weight"@.is_suffix_of(k4)) by {
        assert(k4.subrange(k4.len() - ".ffn_gate.weight"@.len(), k4.len() as int) =~= ".ffn_gate.weight"@);
    }
    letter_before_weight(k4);
    let k5 = p + ".ffn_up.weight"@;
    assert(".ffn_up.weight"@.is_suffix_of(k5)) by {
        assert(k5.subrange(k5.len() - ".ffn_up.weight"@.len(), k5.len() as int) =~= ".ffn_up.weight"@);
    }
    letter_before_weight(k5);
    let k6 = p + ".ffn_down.weight"@;
    assert(".ffn_down.weight"@.is_suffix_of(k6)) by {
        assert(k6.subrange(k6.len() - ".ffn_down.weight"@.len(), k6.len() as int) =~= ".ffn_down.weight"@);
    }
    letter_before_weight(k6);
}

/// The layer of a tensor is the number behind `blk.`; a name that begins
/// otherwise has none.
pub proof fn layer_is_in_the_name(n: usize, rest: Seq<char>, other: Seq<char>)
    requires
        !"blk."@.is_prefix_of(other),
    ensures
        layer_index("blk."@ + decimal(n as nat) + "."@ + rest) == Some(n as nat),
        layer_index(other) is None,
{
    reveal_strlit("blk.");
    reveal_strlit(".");
    let d = decimal(n as nat);
    let key = "blk."@ + d + "."@ + rest;
    assert(key.subrange(0, 4) =~= "blk."@);
    let tail = key.skip(4);
    assert(tail =~= d + "."@ + rest);
    decimal_says_the_number(n as nat);
    first_pos_is(tail, '.');
    assert(tail[d.len() as int] == '.');
    let at = first_pos(tail, '.');
    if at < d.len() {
        assert(tail[at] == d[at]);
        assert('0' <= d[at] <= '9');
    }
    if at > d.len() {
        assert(tail[d.len() as int] != '.');
    }
    assert(tail.take(at) =~= d);
    size_is_read_back(n);
}

/// The scales of a tensor are those that its layer has for it, where the model
/// has them; they are never looked for under another layer's name.
pub proof fn scales_are_of_the_layer(key: Seq<char>, vectors: Seq<VectorView>)
    ensures
        scale_key(key, vectors) == key || layer_index(key) is Some && scale_key(key, vectors)
            == scale_name(key, layer_index(key)->0),
        layer_index(key) matches Some(layer) ==> {
            vector_named(vectors, scale_name(key, layer)) is Some ==> vector_named(
                vectors,
                scale_key(key, vectors),
            ) == vector_named(vectors, scale_name(key, layer))
        },
        layer_index(key) is None ==> scale_key(key, vectors) == key,
{
}

/// The vector that is found is the first one of that name; none is found
/// exactly where there is none.
pub proof fn first_vector_of_the_name(vectors: Seq<VectorView>, name: Seq<char>, i: int)
    requires
        0 <= i <= vectors.len(),
        forall|j: int| 0 <= j < i ==> (#[trigger] vectors[j]).name != name,
        i < vectors.len() ==> vectors[i].name == name,
    ensures
        i < vectors.len() ==> vector_named(vectors, name) == Some(vectors[i].values),
        i == vectors.len() ==> vector_named(vectors, name) is None,
    decreases i,
{
    if i > 0 {
        let rest = vectors.drop_first();
        assert(vectors[0].name != name);
        assert forall|j: int| 0 <= j < i - 1 implies (#[trigger] rest[j]).name != name by {
            assert(rest[j] == vectors[j + 1]);
        }
        first_vector_of_the_name(rest, name, i - 1);
    }
}

/// A projection can be kept exactly where its packed bytes are there, it has
/// two dimensions, the second a multiple of four, four weights per byte and
/// one scale per row.
pub proof fn kept_where_it_fits(t: TensorView, vectors: Seq<VectorView>)
    ensures
        tensor_fault(t, vectors) is None <==> {
            &&& t.raw_bytes is Some
            &&& t.shape.len() == 2
            &&& t.shape[1] % 4 == 0
            &&& 4 * t.raw_bytes->0.len() == t.shape[0] * t.shape[1]
            &&& vector_named(vectors, scale_key(t.name, vectors)) is Some
            &&& vector_named(vectors, scale_key(t.name, vectors))->0.len() == t.shape[0]
        },
{
    if t.shape.len() == 2 && t.shape[1] % 4 == 0 {
        crate::compute::bitlinear::product_of_fours(t.shape[0] as int, t.shape[1] as int);
        assert(t.shape[0] * t.shape[1] >= 0) by (nonlinear_arith);
    }
}

/// Projections are found one by one, in order: those of two lists together are
/// those of each.
pub proof fn projections_of_both(a: Seq<TensorView>, b: Seq<TensorView>)
    ensures
        projections(a + b) == projections(a) + projections(b),
    decreases b.len(),
{
    if b.len() == 0 {
        assert(a + b =~= a);
        assert(projections(a) + projections(b) =~= projections(a));
    } else {
        projections_of_both(a, b.drop_last());
        assert((a + b).drop_last() =~= a + b.drop_last());
        assert((a + b).last() == b.last());
        assert(projections(a + b) =~= projections(a) + projections(b));
    }
}

/// A single tensor is a projection where its name says so.
pub proof fn projections_of_one(t: TensorView)
    ensures
        bitlinear_name(t.name) ==> projections(seq![t]) == seq![t],
        !bitlinear_name(t.name) ==> projections(seq![t]) == Seq::<TensorView>::empty(),
{
    assert(seq![t].drop_last() =~= Seq::<TensorView>::empty());
    assert(projections(seq![t].drop_last()) =~= Seq::<TensorView>::empty());
    if bitlinear_name(t.name) {
        assert(projections(seq![t]) =~= seq![t]);
    } else {
        assert(projections(seq![t]) =~= Seq::<TensorView>::empty());
    }
}

/// A model is refused for its first projection that cannot be kept, and only
/// where there is one.
pub proof fn first_fault_is_first(ts: Seq<TensorView>, vectors: Seq<VectorView>, i: int)
    requires
        0 <= i <= ts.len(),
        forall|j: int| 0 <= j < i ==> tensor_fault(#[trigger] ts[j], vectors) is None,
        i < ts.len() ==> tensor_fault(ts[i], vectors) is Some,
    ensures
        i < ts.len() ==> first_fault(ts, vectors) == tensor_fault(ts[i], vectors),
        i == ts.len() ==> first_fault(ts, vectors) is None,
    decreases ts.len(),
{
    if ts.len() > 0 {
        let init = ts.drop_last();
        assert(ts[ts.len() - 1] == ts.last());
        assert forall|j: int| 0 <= j < i && j < init.len() implies tensor_fault(
            #[trigger] init[j],
            vectors,
        ) is None by {
            assert(init[j] == ts[j]);
        }
        if i < ts.len() - 1 {
            assert(init[i] == ts[i]);
            first_fault_is_first(init, vectors, i);
        } else {
            first_fault_is_first(init, vectors, init.len() as int);
        }
    }
}

/// What is written of a model that can be kept: for each projection, in the
/// order of their names, a file named after it with its packed bytes and an
/// entry with its name and shape; and the scales of each, found at the place
/// that its entry names, right behind those of the one before it.
pub proof fn artifacts_tell_the_model(tensors: Seq<TensorView>, vectors: Seq<VectorView>, i: int)
    requires
        artifacts(tensors, vectors) is Ok,
        0 <= i < projections(in_name_order(tensors)).len(),
    ensures
        ({
            let a = artifacts(tensors, vectors)->Ok_0;
            let t = projections(in_name_order(tensors))[i];
            let e = a.entries[i];
            &&& a.files.len() == projections(in_name_order(tensors)).len()
            &&& a.entries.len() == a.files.len()
            &&& a.files[i].path == "bitnet/"@ + t.name + ".i2s"@
            &&& Some(a.files[i].bytes) == t.raw_bytes
            &&& e.name == t.name && e.rows == t.shape[0] && e.cols == t.shape[1]
            &&& i == 0 ==> e.scale_offset == 0
            &&& i > 0 ==> e.scale_offset == a.entries[i - 1].scale_offset + a.entries[i - 1].rows
            &&& i == a.entries.len() - 1 ==> a.total_scale_count == e.scale_offset + e.rows
            &&& a.scales.len() == 4 * a.total_scale_count
        }),
{
    let ts = projections(in_name_order(tensors));
    words_le_at(all_scales(ts, vectors));
    one_more_scales(ts, vectors, i);
    each_is_kept(ts, vectors, i);
    assert(ts.take(0) =~= Seq::<TensorView>::empty());
    if i > 0 {
        one_more_scales(ts, vectors, i - 1);
        each_is_kept(ts, vectors, i - 1);
    }
    if i == ts.len() - 1 {
        assert(ts.take(i + 1) =~= ts);
    }
}

/// The scales of one projection more.
proof fn one_more_scales(ts: Seq<TensorView>, vectors: Seq<VectorView>, i: int)
    requires
        0 <= i < ts.len(),
    ensures
        all_scales(ts.take(i + 1), vectors) == all_scales(ts.take(i), vectors) + scales_of(
            ts[i],
            vectors,
        ),
{
    assert(ts.take(i + 1).drop_last() =~= ts.take(i));
    assert(ts.take(i + 1).last() == ts[i]);
}

/// Where no projection is at fault, each of them can be kept.
proof fn each_is_kept(ts: Seq<TensorView>, vectors: Seq<VectorView>, i: int)
    requires
        first_fault(ts, vectors) is None,
        0 <= i < ts.len(),
    ensures
        tensor_fault(ts[i], vectors) is None,
    decreases ts.len(),
{
    if i < ts.len() - 1 {
        each_is_kept(ts.drop_last(), vectors, i);
        assert(ts.drop_last()[i] == ts[i]);
    }
}

/// What is said of the contents of tensors, vectors, entries, files and
/// artifacts is what these hold.
pub proof fn bitnet_contents(
    tensors: Seq<TensorSource>,
    vectors: Seq<VectorSource>,
    entries: Seq<BitnetTensorEntry>,
    files: Seq<TensorFile>,
    a: BitnetArtifacts,
    i: int,
)
    ensures
        tensor_views(tensors).len() == tensors.len(),
        0 <= i < tensors.len() ==> {
            let v = tensor_views(tensors)[i];
            &&& v.name == tensors[i].name@
            &&& v.shape == tensors[i].shape@
            &&& tensors[i].raw_bytes matches Some(b) ==> v.raw_bytes == Some(b@)
            &&& tensors[i].raw_bytes is None ==> v.raw_bytes is None
        },
        vector_views(vectors).len() == vectors.len(),
        0 <= i < vectors.len() ==> vector_views(vectors)[i].name == vectors[i].name@
            && vector_views(vectors)[i].values == vectors[i].values@,
        entry_views(entries).len() == entries.len(),
        0 <= i < entries.len() ==> {
            let v = entry_views(entries)[i];
            &&& v.name == entries[i].name@
            &&& v.rows == entries[i].rows
            &&& v.cols == entries[i].cols
            &&& v.scale_offset == entries[i].scale_offset
        },
        file_views(files).len() == files.len(),
        0 <= i < files.len() ==> file_views(files)[i].path == files[i].path@ && file_views(
            files,
        )[i].bytes == files[i].bytes@,
        a@.files == file_views(a.files@),
        a@.scales == a.scales@,
        a@.entries == entry_views(a.layout.tensors@),
        a@.total_scale_count == a.layout.total_scale_count,
{
}

/// Something is written of a model exactly where it has a projection and each
/// one that it has can be kept.
pub proof fn which_models_are_kept(tensors: Seq<TensorView>, vectors: Seq<VectorView>)
    ensures
        artifacts(tensors, vectors) is Ok <==> {
            let ts = projections(in_name_order(tensors));
            ts.len() > 0 && forall|i: int|
                0 <= i < ts.len() ==> tensor_fault(#[trigger] ts[i], vectors) is None
        },
{
    let ts = projections(in_name_order(tensors));
    if first_fault(ts, vectors) is None {
        assert forall|i: int| 0 <= i < ts.len() implies tensor_fault(
            #[trigger] ts[i],
            vectors,
        ) is None by {
            each_is_kept(ts, vectors, i);
        }
    } else if forall|i: int|
        0 <= i < ts.len() ==> tensor_fault(#[trigger] ts[i], vectors) is None {
        first_fault_is_first(ts, vectors, ts.len() as int);
    }
}

} // verus!
