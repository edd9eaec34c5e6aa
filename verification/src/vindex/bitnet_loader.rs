//! Reading ternary weights back from their packed form.

use vstd::prelude::*;
use vstd::string::*;

use crate::compute::bitlinear::{
    product_of_fours, size_product_fits, weight_fault, BitLinearWeight,
};
use crate::le::{read_words, u32_of_le, words_of_le, words_round_trip};
use crate::text::{append_decimal, append_size, decimal, same_text};
use crate::vindex::bitnet::{
    all_scales, artifacts, artifacts_of, entry_views, first_fault, in_name_order,
    projections, scales_of, tensor_fault, BitnetLayout, BitnetTensorEntry,
    EntryView, FileView, TensorView, VectorView,
};
use crate::vindex::error::VindexError;

verus! {

/// A ternary matrix with its name.
pub struct NamedWeight {
    pub name: String,
    pub weight: BitLinearWeight,
}

/// The ternary weights of one index; `rms_eps` is a binary32 pattern.
pub struct BitnetWeights {
    pub tensors: Vec<NamedWeight>,
    pub rms_eps: u32,
}

/// The contents of a [`BitLinearWeight`].
pub struct WeightView {
    pub rows: usize,
    pub cols: usize,
    pub bytes: Seq<u8>,
    pub scales: Seq<u32>,
}

/// The contents of a [`NamedWeight`].
pub struct NamedView {
    pub name: Seq<char>,
    pub weight: WeightView,
}

/// The contents of a matrix.
pub open spec fn weight_view(w: BitLinearWeight) -> WeightView {
    WeightView { rows: w.rows, cols: w.cols, bytes: w.i2s_bytes@, scales: w.channel_scales@ }
}

/// The contents of a list of named matrices.
pub open spec fn named_views(v: Seq<NamedWeight>) -> Seq<NamedView> {
    Seq::new(v.len(), |i: int| NamedView { name: v[i].name@, weight: weight_view(v[i].weight) })
}

/// The contents of a list of files.
pub open spec fn contents(v: Seq<Vec<u8>>) -> Seq<Seq<u8>> {
    Seq::new(v.len(), |i: int| v[i]@)
}

/// The bytes of a list of files.
pub open spec fn bytes_of(v: Seq<FileView>) -> Seq<Seq<u8>> {
    Seq::new(v.len(), |i: int| v[i].bytes)
}

/// Why the file of scales does not fit a layout of `total` scales.
pub open spec fn scales_fault(path: Seq<char>, n_bytes: nat, total: int) -> Option<Seq<char>> {
    if n_bytes != 4 * total {
        Some(
            "BitNet scales file "@ + path + " is "@ + decimal(n_bytes) + " bytes; layout claims "@
                + decimal(total as nat) + " f32 entries ("@ + decimal((4 * total) as nat)
                + " bytes)"@,
        )
    } else {
        None
    }
}

/// Why a matrix cannot be made from its file and the scales.
pub open spec fn load_fault(e: EntryView, n_bytes: nat, n_scales: nat) -> Option<Seq<char>> {
    if n_bytes != (e.rows * e.cols) as nat / 4 {
        Some(
            "BitNet tensor "@ + e.name + " bytes len "@ + decimal(n_bytes) + " != rows*cols/4 = "@
                + decimal((e.rows * e.cols) as nat / 4),
        )
    } else if e.scale_offset + e.rows > n_scales {
        Some(
            "BitNet tensor "@ + e.name + ": scale slice ["@ + decimal(e.scale_offset as nat)
                + ", "@ + decimal((e.scale_offset + e.rows) as nat) + ") out of bounds (have "@
                + decimal(n_scales) + " entries)"@,
        )
    } else {
        match weight_fault(e.rows, e.cols, n_bytes, e.rows as nat) {
            Some(m) => Some("BitLinearWeight "@ + e.name + ": "@ + ("shape mismatch: "@ + m)),
            None => None,
        }
    }
}

/// What is wrong with the first matrix that cannot be made.
pub open spec fn first_load_fault(
    entries: Seq<EntryView>,
    files: Seq<Seq<u8>>,
    n_scales: nat,
) -> Option<Seq<char>>
    decreases entries.len(),
{
    if entries.len() == 0 {
        None
    } else if first_load_fault(entries.drop_last(), files, n_scales) is Some {
        first_load_fault(entries.drop_last(), files, n_scales)
    } else {
        load_fault(entries.last(), files[entries.len() - 1].len(), n_scales)
    }
}

/// The matrix of one entry.
pub open spec fn loaded_weight(e: EntryView, bytes: Seq<u8>, scales: Seq<u32>) -> NamedView {
    NamedView {
        name: e.name,
        weight: WeightView {
            rows: e.rows,
            cols: e.cols,
            bytes,
            scales: scales.subrange(e.scale_offset, e.scale_offset + e.rows),
        },
    }
}

/// The matrices of all entries.
pub open spec fn loaded_weights(
    entries: Seq<EntryView>,
    files: Seq<Seq<u8>>,
    scales: Seq<u32>,
) -> Seq<NamedView> {
    Seq::new(entries.len(), |i: int| loaded_weight(entries[i], files[i], scales))
}

/// What the files of an index hold, or why they cannot be read.
pub open spec fn loaded(
    scales_path: Seq<char>,
    scale_bytes: Seq<u8>,
    files: Seq<Seq<u8>>,
    entries: Seq<EntryView>,
    total: int,
) -> Result<Seq<NamedView>, Seq<char>> {
    match scales_fault(scales_path, scale_bytes.len(), total) {
        Some(fault) => Err(fault),
        None => {
            let scales = words_of_le(scale_bytes);
            match first_load_fault(entries, files, scales.len()) {
                Some(fault) => Err(fault),
                None => Ok(loaded_weights(entries, files, scales)),
            }
        },
    }
}

/// The last matrix of that name.
pub open spec fn weight_named(ws: Seq<NamedView>, key: Seq<char>) -> Option<WeightView>
    decreases ws.len(),
{
    if ws.len() == 0 {
        None
    } else if ws.last().name == key {
        Some(ws.last().weight)
    } else {
        weight_named(ws.drop_last(), key)
    }
}

impl BitnetWeights {
    /// The matrix of that name; of two, the one that was read last.
    pub fn get(&self, key: &str) -> (r: Option<&BitLinearWeight>)
        ensures
            match r {
                Some(w) => weight_named(named_views(self.tensors@), key@) == Some(weight_view(*w)),
                None => weight_named(named_views(self.tensors@), key@) is None,
            },
    {
        let ghost all = named_views(self.tensors@);
        let mut i: usize = self.tensors.len();
        assert(all.take(i as int) =~= all);
        while i > 0
            invariant
                i <= self.tensors@.len(),
                all == named_views(self.tensors@),
                weight_named(all, key@) == weight_named(all.take(i as int), key@),
            decreases i,
        {
            assert(all.take(i as int).drop_last() =~= all.take(i - 1));
            assert(all.take(i as int).last() == all[i - 1]);
            if same_text(self.tensors[i - 1].name.as_str(), key) {
                return Some(&self.tensors[i - 1].weight);
            }
            i = i - 1;
        }
        None
    }

    /// The matrix of one projection of one layer.
    pub fn get_layer(&self, layer: usize, family: &str) -> (r: Option<&BitLinearWeight>)
        ensures
            ({
                let key = "blk."@ + decimal(layer as nat) + "."@ + family@ + ".weight"@;
                match r {
                    Some(w) => weight_named(named_views(self.tensors@), key) == Some(
                        weight_view(*w),
                    ),
                    None => weight_named(named_views(self.tensors@), key) is None,
                }
            }),
    {
        let mut key: String = String::from_str("blk.");
        append_size(&mut key, layer);
        key.append(".");
        key.append(family);
        key.append(".weight");
        self.get(key.as_str())
    }
}

/// Reads the scales of all matrices.
pub fn load_scales(scales_path: &str, scale_bytes: &Vec<u8>, total: usize) -> (r: Result<
    Vec<u32>,
    VindexError,
>)
    ensures
        match r {
            Ok(scales) => scales_fault(scales_path@, scale_bytes@.len(), total as int) is None
                && scales@ == words_of_le(scale_bytes@),
            Err(VindexError::Parse(m)) => scales_fault(
                scales_path@,
                scale_bytes@.len(),
                total as int,
            ) == Some(m@),
            Err(_) => false,
        },
{
    let want: u128 = 4 * (total as u128);
    if scale_bytes.len() as u128 != want {
        let mut m: String = String::from_str("BitNet scales file ");
        m.append(scales_path);
        m.append(" is ");
        append_size(&mut m, scale_bytes.len());
        m.append(" bytes; layout claims ");
        append_size(&mut m, total);
        m.append(" f32 entries (");
        append_decimal(&mut m, want);
        m.append(" bytes)");
        return Err(VindexError::Parse(m));
    }
    let scales: Vec<u32> = read_words(scale_bytes.as_slice(), 0, scale_bytes.len());
    assert(scale_bytes@.subrange(0, scale_bytes@.len() as int) =~= scale_bytes@);
    Ok(scales)
}

/// Makes the matrix of one entry from the bytes of its file.
pub fn load_tensor(entry: &BitnetTensorEntry, i2s_bytes: Vec<u8>, scales: &Vec<u32>) -> (r: Result<
    BitLinearWeight,
    VindexError,
>)
    ensures
        match r {
            Ok(w) => load_fault(entry@, i2s_bytes@.len(), scales@.len()) is None
                && loaded_weight(entry@, i2s_bytes@, scales@).weight == weight_view(w)
                && w.well_formed(),
            Err(VindexError::Parse(m)) => load_fault(entry@, i2s_bytes@.len(), scales@.len())
                == Some(m@),
            Err(_) => false,
        },
{
    let rows: usize = entry.rows;
    let cols: usize = entry.cols;
    proof {
        size_product_fits(rows, cols);
    }
    let expected: u128 = (rows as u128) * (cols as u128) / 4;
    if i2s_bytes.len() as u128 != expected {
        let mut m: String = String::from_str("BitNet tensor ");
        m.append(entry.name.as_str());
        m.append(" bytes len ");
        append_size(&mut m, i2s_bytes.len());
        m.append(" != rows*cols/4 = ");
        append_decimal(&mut m, expected);
        return Err(VindexError::Parse(m));
    }
    let scale_end: u128 = (entry.scale_offset as u128) + (rows as u128);
    if scale_end > scales.len() as u128 {
        let mut m: String = String::from_str("BitNet tensor ");
        m.append(entry.name.as_str());
        m.append(": scale slice [");
        append_size(&mut m, entry.scale_offset);
        m.append(", ");
        append_decimal(&mut m, scale_end);
        m.append(") out of bounds (have ");
        append_size(&mut m, scales.len());
        m.append(" entries)");
        return Err(VindexError::Parse(m));
    }
    let mut channel_scales: Vec<u32> = Vec::new();
    let ghost want = scales@.subrange(
        entry.scale_offset as int,
        entry.scale_offset + rows,
    );
    let mut i: usize = 0;
    while i < rows
        invariant
            i <= rows,
            entry.scale_offset + rows <= scales.len(),
            want == scales@.subrange(entry.scale_offset as int, entry.scale_offset + rows),
            channel_scales@ == want.take(i as int),
        decreases rows - i,
    {
        channel_scales.push(scales[entry.scale_offset + i]);
        i = i + 1;
        assert(channel_scales@ =~= want.take(i as int));
    }
    assert(want.take(i as int) =~= want);
    match BitLinearWeight::new(rows, cols, i2s_bytes, channel_scales) {
        Ok(w) => Ok(w),
        Err(e) => {
            let mut m: String = String::from_str("BitLinearWeight ");
            m.append(entry.name.as_str());
            m.append(": ");
            let inner: String = e.message();
            m.append(inner.as_str());
            Err(VindexError::Parse(m))
        },
    }
}

/// A fault stays the first one when more entries follow.
proof fn first_load_fault_stays(
    entries: Seq<EntryView>,
    files: Seq<Seq<u8>>,
    n_scales: nat,
    k: int,
)
    requires
        0 <= k <= entries.len(),
        first_load_fault(entries.take(k), files, n_scales) is Some,
    ensures
        first_load_fault(entries, files, n_scales) == first_load_fault(
            entries.take(k),
            files,
            n_scales,
        ),
    decreases entries.len() - k,
{
    if k == entries.len() {
        assert(entries.take(k) =~= entries);
    } else {
        assert(entries.take(k + 1).drop_last() =~= entries.take(k));
        first_load_fault_stays(entries, files, n_scales, k + 1);
    }
}

/// Reads the ternary weights of an index: `scale_bytes` is the file of
/// scales, `files[i]` the file of the layout's matrix `i`.
pub fn load_from_layout(
    scales_path: &str,
    scale_bytes: &Vec<u8>,
    files: &Vec<Vec<u8>>,
    layout: &BitnetLayout,
) -> (r: Result<BitnetWeights, VindexError>)
    requires
        files@.len() == layout.tensors@.len(),
    ensures
        ({
            let want = loaded(
                scales_path@,
                scale_bytes@,
                contents(files@),
                entry_views(layout.tensors@),
                layout.total_scale_count as int,
            );
            match r {
                Ok(w) => want == Ok::<Seq<NamedView>, Seq<char>>(named_views(w.tensors@))
                    && w.rms_eps == layout.rms_eps && forall|i: int|
                    0 <= i < w.tensors@.len() ==> (#[trigger] w.tensors@[i]).weight.well_formed(),
                Err(VindexError::Parse(m)) => want == Err::<Seq<NamedView>, Seq<char>>(m@),
                Err(_) => false,
            }
        }),
{
    let scales: Vec<u32> = match load_scales(scales_path, scale_bytes, layout.total_scale_count) {
        Ok(s) => s,
        Err(e) => {
            return Err(e);
        },
    };
    let ghost entries = entry_views(layout.tensors@);
    let ghost bytes = contents(files@);
    let ghost want = loaded_weights(entries, bytes, scales@);
    let mut tensors: Vec<NamedWeight> = Vec::new();
    let mut i: usize = 0;
    assert(named_views(tensors@) =~= want.take(0));
    while i < files.len()
        invariant
            i <= files@.len(),
            files@.len() == layout.tensors@.len(),
            entries == entry_views(layout.tensors@),
            bytes == contents(files@),
            want == loaded_weights(entries, bytes, scales@),
            scales_fault(
                scales_path@,
                scale_bytes@.len(),
                layout.total_scale_count as int,
            ) is None,
            scales@ == words_of_le(scale_bytes@),
            first_load_fault(entries.take(i as int), bytes, scales@.len()) is None,
            named_views(tensors@) == want.take(i as int),
            forall|k: int|
                0 <= k < tensors@.len() ==> (#[trigger] tensors@[k]).weight.well_formed(),
        decreases files@.len() - i,
    {
        let copy: Vec<u8> = files[i].clone();
        assert(copy@ =~= files@[i as int]@);
        let entry: &BitnetTensorEntry = &layout.tensors[i];
        proof {
            let t = entries.take(i + 1);
            assert(t.drop_last() =~= entries.take(i as int));
            assert(t.last() == entry@);
        }
        match load_tensor(entry, copy, &scales) {
            Ok(weight) => {
                let ghost old_tensors = tensors@;
                tensors.push(NamedWeight { name: entry.name.clone(), weight });
                proof {
                    assert(named_views(old_tensors).len() == i);
                    assert forall|k: int| 0 <= k < i + 1 implies named_views(tensors@)[k]
                        == want[k] by {
                        if k < i {
                            assert(named_views(old_tensors)[k] == want.take(i as int)[k]);
                        }
                    }
                    assert(named_views(tensors@) =~= want.take(i + 1));
                }
            },
            Err(e) => {
                proof {
                    first_load_fault_stays(entries, bytes, scales@.len(), i + 1);
                }
                return Err(e);
            },
        }
        i = i + 1;
    }
    assert(entries.take(i as int) =~= entries);
    assert(want.take(i as int) =~= want);
    Ok(BitnetWeights { tensors, rms_eps: layout.rms_eps })
}

/// Where no projection is at fault, each of them can be kept.
proof fn no_fault_at_all(ts: Seq<TensorView>, vectors: Seq<VectorView>, i: int)
    requires
        first_fault(ts, vectors) is None,
        0 <= i < ts.len(),
    ensures
        tensor_fault(ts[i], vectors) is None,
    decreases ts.len(),
{
    if i < ts.len() - 1 {
        no_fault_at_all(ts.drop_last(), vectors, i);
        assert(ts.drop_last()[i] == ts[i]);
    }
}

/// The scales of projection `i` stand behind those of the ones before it.
proof fn scales_in_place(ts: Seq<TensorView>, vectors: Seq<VectorView>, i: int)
    requires
        0 <= i < ts.len(),
    ensures
        all_scales(ts.take(i), vectors).len() + scales_of(ts[i], vectors).len() <= all_scales(
            ts,
            vectors,
        ).len(),
        all_scales(ts, vectors).subrange(
            all_scales(ts.take(i), vectors).len() as int,
            all_scales(ts.take(i), vectors).len() as int + scales_of(ts[i], vectors).len(),
        ) == scales_of(ts[i], vectors),
    decreases ts.len(),
{
    let init = ts.drop_last();
    let whole = all_scales(ts, vectors);
    if i == ts.len() - 1 {
        assert(ts.take(i) =~= init);
        assert(whole.subrange(
            all_scales(init, vectors).len() as int,
            whole.len() as int,
        ) =~= scales_of(ts[i], vectors));
    } else {
        scales_in_place(init, vectors, i);
        assert(init.take(i) =~= ts.take(i));
        assert(init[i] == ts[i]);
        let a = all_scales(ts.take(i), vectors).len() as int;
        let b = a + scales_of(ts[i], vectors).len();
        assert(whole.subrange(a, b) =~= all_scales(init, vectors).subrange(a, b));
    }
}

/// No entry is at fault if each of them is not.
proof fn no_load_fault(entries: Seq<EntryView>, files: Seq<Seq<u8>>, n_scales: nat)
    requires
        forall|i: int|
            0 <= i < entries.len() ==> load_fault(
                #[trigger] entries[i],
                files[i].len(),
                n_scales,
            ) is None,
    ensures
        first_load_fault(entries, files, n_scales) is None,
    decreases entries.len(),
{
    if entries.len() > 0 {
        let init = entries.drop_last();
        assert forall|i: int| 0 <= i < init.len() implies load_fault(
            #[trigger] init[i],
            files[i].len(),
            n_scales,
        ) is None by {
            assert(init[i] == entries[i]);
        }
        no_load_fault(init, files, n_scales);
        assert(entries[entries.len() - 1] == entries.last());
    }
}

/// What a model's projection comes back as.
pub open spec fn kept_weight(t: TensorView, vectors: Seq<VectorView>) -> NamedView {
    NamedView {
        name: t.name,
        weight: WeightView {
            rows: t.shape[0],
            cols: t.shape[1],
            bytes: t.raw_bytes.unwrap(),
            scales: scales_of(t, vectors),
        },
    }
}

/// Reading what was written for a model gives back every projection: its
/// shape, its packed bytes and its scales.
pub proof fn bitnet_round_trip(
    tensors: Seq<TensorView>,
    vectors: Seq<VectorView>,
    scales_path: Seq<char>,
)
    requires
        artifacts(tensors, vectors) is Ok,
    ensures
        ({
            let a = artifacts(tensors, vectors)->Ok_0;
            let ts = projections(in_name_order(tensors));
            loaded(scales_path, a.scales, bytes_of(a.files), a.entries, a.total_scale_count) == Ok::<
                Seq<NamedView>,
                Seq<char>,
            >(Seq::new(ts.len(), |i: int| kept_weight(ts[i], vectors)))
        }),
{
    let ts = projections(in_name_order(tensors));
    let a = artifacts_of(ts, vectors);
    let scales = all_scales(ts, vectors);
    let files = bytes_of(a.files);
    words_round_trip(scales);
    assert forall|i: int| 0 <= i < a.entries.len() implies load_fault(
        #[trigger] a.entries[i],
        files[i].len(),
        scales.len(),
    ) is None by {
        no_fault_at_all(ts, vectors, i);
        scales_in_place(ts, vectors, i);
        product_of_fours(ts[i].shape[0] as int, ts[i].shape[1] as int);
    }
    no_load_fault(a.entries, files, scales.len());
    let got = loaded_weights(a.entries, files, scales);
    let want = Seq::new(ts.len(), |i: int| kept_weight(ts[i], vectors));
    assert forall|i: int| 0 <= i < ts.len() implies got[i] == want[i] by {
        no_fault_at_all(ts, vectors, i);
        scales_in_place(ts, vectors, i);
    }
    assert(got =~= want);
}

/// With distinct names, each matrix is found under its own.
pub proof fn weight_found_by_name(ws: Seq<NamedView>, i: int)
    requires
        0 <= i < ws.len(),
        forall|j: int| 0 <= j < ws.len() && j != i ==> (#[trigger] ws[j]).name != ws[i].name,
    ensures
        weight_named(ws, ws[i].name) == Some(ws[i].weight),
    decreases ws.len(),
{
    if i < ws.len() - 1 {
        assert(ws[ws.len() - 1].name != ws[i].name);
        let init = ws.drop_last();
        assert(init[i] == ws[i]);
        assert forall|j: int| 0 <= j < init.len() && j != i implies (#[trigger] init[j]).name
            != init[i].name by {
            assert(init[j] == ws[j]);
        }
        weight_found_by_name(init, i);
    }
}

/// A file of scales fits exactly where it has four bytes for each.
pub proof fn scales_have_to_fit(path: Seq<char>, n_bytes: nat, total: int)
    ensures
        scales_fault(path, n_bytes, total) is None <==> n_bytes == 4 * total,
{
}

/// A matrix can be made exactly where its file has a byte for each four of its
/// weights, its rows are whole bytes, and there is a scale for each row at the
/// place that its entry names.
pub proof fn entry_has_to_fit(e: EntryView, n_bytes: nat, n_scales: nat)
    ensures
        load_fault(e, n_bytes, n_scales) is None <==> e.cols % 4 == 0 && 4 * n_bytes == e.rows
            * e.cols && e.scale_offset + e.rows <= n_scales,
{
    if e.cols % 4 == 0 {
        product_of_fours(e.rows as int, e.cols as int);
        assert(e.rows * e.cols >= 0) by (nonlinear_arith);
    }
}

/// Every matrix that is read has the name and the shape of its entry, the
/// bytes of its file, and for row `j` the scale at the place of its entry plus
/// `j`.
pub proof fn loaded_weights_tell_files(
    scales_path: Seq<char>,
    scale_bytes: Seq<u8>,
    files: Seq<Seq<u8>>,
    entries: Seq<EntryView>,
    total: int,
    i: int,
    j: int,
)
    requires
        loaded(scales_path, scale_bytes, files, entries, total) is Ok,
        0 <= i < entries.len(),
        0 <= j < entries[i].rows,
        entries[i].scale_offset >= 0,
    ensures
        ({
            let ws = loaded(scales_path, scale_bytes, files, entries, total)->Ok_0;
            let w = ws[i];
            let at = 4 * (entries[i].scale_offset + j);
            &&& ws.len() == entries.len()
            &&& w.name == entries[i].name
            &&& w.weight.rows == entries[i].rows && w.weight.cols == entries[i].cols
            &&& w.weight.bytes == files[i]
            &&& w.weight.scales.len() == entries[i].rows
            &&& at + 4 <= scale_bytes.len()
            &&& w.weight.scales[j] == u32_of_le(scale_bytes.subrange(at, at + 4))
        }),
{
    no_fault_of_entry(entries, files, words_of_le(scale_bytes).len(), i);
}

/// Where no entry is at fault, each of them can be read.
proof fn no_fault_of_entry(entries: Seq<EntryView>, files: Seq<Seq<u8>>, n_scales: nat, i: int)
    requires
        first_load_fault(entries, files, n_scales) is None,
        0 <= i < entries.len(),
    ensures
        load_fault(entries[i], files[i].len(), n_scales) is None,
    decreases entries.len(),
{
    if i < entries.len() - 1 {
        no_fault_of_entry(entries.drop_last(), files, n_scales, i);
        assert(entries.drop_last()[i] == entries[i]);
    }
}

/// Reading is refused for the first entry that does not fit, and only where
/// there is one.
pub proof fn first_load_fault_is_first(
    entries: Seq<EntryView>,
    files: Seq<Seq<u8>>,
    n_scales: nat,
    i: int,
)
    requires
        0 <= i < entries.len(),
        forall|j: int|
            0 <= j < i ==> load_fault(#[trigger] entries[j], files[j].len(), n_scales) is None,
        load_fault(entries[i], files[i].len(), n_scales) is Some,
    ensures
        first_load_fault(entries, files, n_scales) == load_fault(
            entries[i],
            files[i].len(),
            n_scales,
        ),
{
    let head = entries.take(i);
    assert forall|j: int| 0 <= j < head.len() implies load_fault(
        #[trigger] head[j],
        files[j].len(),
        n_scales,
    ) is None by {
        assert(head[j] == entries[j]);
    }
    no_load_fault(head, files, n_scales);
    assert(entries.take(i + 1).drop_last() =~= head);
    assert(entries.take(i + 1).last() == entries[i]);
    first_load_fault_stays(entries, files, n_scales, i + 1);
}

/// Of matrices of one name the last one is found, and none is where there is
/// none of that name.
pub proof fn last_weight_of_the_name(ws: Seq<NamedView>, key: Seq<char>, i: int)
    requires
        -1 <= i < ws.len(),
        i >= 0 ==> ws[i].name == key,
        forall|j: int| i < j < ws.len() ==> (#[trigger] ws[j]).name != key,
    ensures
        i >= 0 ==> weight_named(ws, key) == Some(ws[i].weight),
        i < 0 ==> weight_named(ws, key) is None,
    decreases ws.len(),
{
    if ws.len() > 0 && i < ws.len() - 1 {
        let init = ws.drop_last();
        assert(ws[ws.len() - 1].name != key);
        assert forall|j: int| i < j < init.len() implies (#[trigger] init[j]).name != key by {
            assert(init[j] == ws[j]);
        }
        last_weight_of_the_name(init, key, i);
    }
}

/// What is said of the contents of matrices and files is what these hold.
pub proof fn weight_contents(ws: Seq<NamedWeight>, files: Seq<Vec<u8>>, i: int)
    ensures
        named_views(ws).len() == ws.len(),
        0 <= i < ws.len() ==> {
            let v = named_views(ws)[i];
            &&& v.name == ws[i].name@
            &&& v.weight.rows == ws[i].weight.rows
            &&& v.weight.cols == ws[i].weight.cols
            &&& v.weight.bytes == ws[i].weight.i2s_bytes@
            &&& v.weight.scales == ws[i].weight.channel_scales@
        },
        contents(files).len() == files.len(),
        0 <= i < files.len() ==> contents(files)[i] == files[i]@,
{
}

/// The weights of an index are read exactly where its scales fit and each of
/// its entries does.
pub proof fn which_weights_are_read(
    scales_path: Seq<char>,
    scale_bytes: Seq<u8>,
    files: Seq<Seq<u8>>,
    entries: Seq<EntryView>,
    total: int,
)
    ensures
        loaded(scales_path, scale_bytes, files, entries, total) is Ok <==> scale_bytes.len() == 4
            * total && forall|i: int|
            0 <= i < entries.len() ==> load_fault(
                #[trigger] entries[i],
                files[i].len(),
                total as nat,
            ) is None,
{
    if scale_bytes.len() == 4 * total {
        assert(words_of_le(scale_bytes).len() == total);
        if first_load_fault(entries, files, total as nat) is None {
            assert forall|i: int| 0 <= i < entries.len() implies load_fault(
                #[trigger] entries[i],
                files[i].len(),
                total as nat,
            ) is None by {
                no_fault_of_entry(entries, files, total as nat, i);
            }
        } else if forall|i: int|
            0 <= i < entries.len() ==> load_fault(
                #[trigger] entries[i],
                files[i].len(),
                total as nat,
            ) is None {
            no_load_fault(entries, files, total as nat);
        }
    }
}

} // verus!
