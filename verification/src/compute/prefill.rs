//! What a prefill does, layer by layer.
//!
//! The arithmetic runs on the device; which steps a layer takes, which norm
//! weights it uses and which kernel multiplies its matrices is decided here.

use vstd::prelude::*;

use crate::float_bits::SIGN32;

verus! {

/// How a weight matrix is quantized.
#[allow(non_camel_case_types)]
#[derive(Debug, Clone, Copy, PartialEq, Eq, Structural)]
pub enum QuantFormat {
    Q4_0,
    Q4_K,
    Q4_KF,
    Q6_K,
    Q8_0,
}

/// What multiplies a matrix.
#[derive(Debug, Clone, Copy, PartialEq, Eq, Structural)]
pub enum MatvecRoute {
    Q4kKernel,
    Q6kKernel,
    CpuFallback,
}

/// Bytes of one row of `hidden` values.
pub open spec fn row_bytes(format: QuantFormat, hidden: usize) -> nat {
    match format {
        QuantFormat::Q4_K | QuantFormat::Q4_KF => (hidden as nat / 256) * 144,
        QuantFormat::Q6_K => (hidden as nat / 256) * 210,
        QuantFormat::Q4_0 => hidden as nat * 9 / 16,
        QuantFormat::Q8_0 => hidden as nat,
    }
}

/// Number of rows of `hidden` values in `data_len` bytes.
pub open spec fn rows_in(data_len: usize, format: QuantFormat, hidden: usize) -> nat {
    if row_bytes(format, hidden) == 0 {
        0
    } else {
        data_len as nat / row_bytes(format, hidden)
    }
}

/// What multiplies a matrix of this format.
pub open spec fn route_of(format: QuantFormat) -> MatvecRoute {
    match format {
        QuantFormat::Q4_K | QuantFormat::Q4_KF => MatvecRoute::Q4kKernel,
        QuantFormat::Q6_K => MatvecRoute::Q6kKernel,
        QuantFormat::Q4_0 | QuantFormat::Q8_0 => MatvecRoute::CpuFallback,
    }
}

/// Number of rows of `hidden` values in `data_len` bytes; 0 where a row has
/// no bytes.
pub fn infer_rows(data_len: usize, format: QuantFormat, hidden: usize) -> (rows: usize)
    ensures
        rows == (if row_bytes(format, hidden) == 0 {
            0
        } else {
            data_len as nat / row_bytes(format, hidden)
        }),
        rows == rows_in(data_len, format, hidden),
{
    let bytes_per_row: u128 = match format {
        QuantFormat::Q4_K | QuantFormat::Q4_KF => (hidden as u128 / 256) * 144,
        QuantFormat::Q6_K => (hidden as u128 / 256) * 210,
        QuantFormat::Q4_0 => hidden as u128 * 9 / 16,
        QuantFormat::Q8_0 => hidden as u128,
    };
    if bytes_per_row == 0 {
        return 0;
    }
    let rows: u128 = data_len as u128 / bytes_per_row;
    assert(rows <= data_len) by (nonlinear_arith)
        requires
            rows == data_len as u128 / bytes_per_row,
            bytes_per_row >= 1,
    ;
    rows as usize
}

/// What multiplies a matrix of this format.
pub fn matvec_route(format: QuantFormat) -> (r: MatvecRoute)
    ensures
        r == (match format {
            QuantFormat::Q4_K | QuantFormat::Q4_KF => MatvecRoute::Q4kKernel,
            QuantFormat::Q6_K => MatvecRoute::Q6kKernel,
            QuantFormat::Q4_0 | QuantFormat::Q8_0 => MatvecRoute::CpuFallback,
        }),
        r == route_of(format),
{
    match format {
        QuantFormat::Q4_K | QuantFormat::Q4_KF => MatvecRoute::Q4kKernel,
        QuantFormat::Q6_K => MatvecRoute::Q6kKernel,
        QuantFormat::Q4_0 | QuantFormat::Q8_0 => MatvecRoute::CpuFallback,
    }
}

/// What is known of a layer before it runs. `layer_scalar` is a binary32
/// pattern.
#[derive(Debug, Clone, Copy)]
pub struct PrefillLayer {
    pub cached: bool,
    pub has_post_norms: bool,
    pub has_q_norm: bool,
    pub has_k_norm: bool,
    pub has_v_norm: bool,
    pub layer_scalar: u32,
    pub has_pre_ffn_norm: bool,
    pub has_post_ffn_norm: bool,
}

/// One step of a layer.
#[derive(Debug, Clone, Copy, PartialEq, Eq, Structural)]
pub enum PrefillStep {
    /// Take the stored residual and be done.
    UseCached,
    /// Norm of the hidden state.
    InputNorm,
    /// Query, key and value projections.
    ProjectQkv,
    QueryNorm,
    KeyNorm,
    ValueNorm,
    /// Rotary embedding of queries and keys.
    Rope,
    Attention,
    ProjectOutput,
    /// Multiply the attention output by the layer's scalar.
    ScaleOutput,
    /// Norm of the attention output, then residual.
    AddNormedAttention,
    /// Residual.
    AddAttention,
    /// Norm of the FFN input with the weights meant for it.
    FfnNormOwn,
    /// Norm of the FFN input with the weights of the norm after attention.
    FfnNormShared,
    Ffn,
    /// Norm of the FFN output, then residual.
    AddNormedFfn,
    /// Residual.
    AddFfn,
}

/// Whether multiplying by the binary32 number `bits` can change anything: it
/// is neither zero nor one.
pub open spec fn is_scaling(bits: u32) -> bool {
    bits % SIGN32 != 0 && bits != 0x3F80_0000
}

/// `step`, or nothing.
pub open spec fn when(condition: bool, step: PrefillStep) -> Seq<PrefillStep> {
    if condition {
        seq![step]
    } else {
        seq![]
    }
}

/// The steps of a layer, in order.
pub open spec fn layer_steps(l: PrefillLayer) -> Seq<PrefillStep> {
    if l.cached {
        seq![PrefillStep::UseCached]
    } else {
        seq![PrefillStep::InputNorm, PrefillStep::ProjectQkv] + when(
            l.has_q_norm,
            PrefillStep::QueryNorm,
        ) + when(l.has_k_norm, PrefillStep::KeyNorm) + when(l.has_v_norm, PrefillStep::ValueNorm)
            + seq![PrefillStep::Rope, PrefillStep::Attention, PrefillStep::ProjectOutput] + when(
            is_scaling(l.layer_scalar),
            PrefillStep::ScaleOutput,
        ) + seq![
            if l.has_post_norms {
                PrefillStep::AddNormedAttention
            } else {
                PrefillStep::AddAttention
            },
            if l.has_post_norms && l.has_pre_ffn_norm {
                PrefillStep::FfnNormOwn
            } else {
                PrefillStep::FfnNormShared
            },
            PrefillStep::Ffn,
            if l.has_post_norms && l.has_post_ffn_norm {
                PrefillStep::AddNormedFfn
            } else {
                PrefillStep::AddFfn
            },
        ]
    }
}

/// The steps of a layer, in order.
pub fn plan_layer(l: PrefillLayer) -> (steps: Vec<PrefillStep>)
    ensures
        steps@ == layer_steps(l),
{
    let mut steps: Vec<PrefillStep> = Vec::new();
    if l.cached {
        steps.push(PrefillStep::UseCached);
        assert(steps@ =~= layer_steps(l));
        return steps;
    }
    steps.push(PrefillStep::InputNorm);
    steps.push(PrefillStep::ProjectQkv);
    if l.has_q_norm {
        steps.push(PrefillStep::QueryNorm);
    }
    if l.has_k_norm {
        steps.push(PrefillStep::KeyNorm);
    }
    if l.has_v_norm {
        steps.push(PrefillStep::ValueNorm);
    }
    steps.push(PrefillStep::Rope);
    steps.push(PrefillStep::Attention);
    steps.push(PrefillStep::ProjectOutput);
    if l.layer_scalar % SIGN32 != 0 && l.layer_scalar != 0x3F80_0000 {
        steps.push(PrefillStep::ScaleOutput);
    }
    steps.push(
        if l.has_post_norms {
            PrefillStep::AddNormedAttention
        } else {
            PrefillStep::AddAttention
        },
    );
    steps.push(
        if l.has_post_norms && l.has_pre_ffn_norm {
            PrefillStep::FfnNormOwn
        } else {
            PrefillStep::FfnNormShared
        },
    );
    steps.push(PrefillStep::Ffn);
    steps.push(
        if l.has_post_norms && l.has_post_ffn_norm {
            PrefillStep::AddNormedFfn
        } else {
            PrefillStep::AddFfn
        },
    );
    assert(steps@ =~= layer_steps(l));
    steps
}

/// Topology of a feed-forward block.
#[derive(Debug, Clone, Copy, PartialEq, Eq, Structural)]
pub enum FfnType {
    Gated,
    Standard,
}

/// One step of a feed-forward block.
#[derive(Debug, Clone, Copy, PartialEq, Eq, Structural)]
pub enum FfnStep {
    ProjectGate,
    ProjectUp,
    AddUpBias,
    /// Activated gate projection times the up projection.
    ActivateGate,
    /// Activation of the up projection.
    ActivateUp,
    ProjectDown,
    AddDownBias,
}

/// The steps of a feed-forward block, in order; biases belong to the standard
/// one only.
pub open spec fn ffn_steps(ty: FfnType, has_up_bias: bool, has_down_bias: bool) -> Seq<FfnStep> {
    match ty {
        FfnType::Gated => seq![
            FfnStep::ProjectGate,
            FfnStep::ProjectUp,
            FfnStep::ActivateGate,
            FfnStep::ProjectDown,
        ],
        FfnType::Standard => seq![FfnStep::ProjectUp] + (if has_up_bias {
            seq![FfnStep::AddUpBias]
        } else {
            seq![]
        }) + seq![FfnStep::ActivateUp, FfnStep::ProjectDown] + (if has_down_bias {
            seq![FfnStep::AddDownBias]
        } else {
            seq![]
        }),
    }
}

/// The steps of a feed-forward block, in order.
pub fn plan_ffn(ty: FfnType, has_up_bias: bool, has_down_bias: bool) -> (steps: Vec<FfnStep>)
    ensures
        steps@ == ffn_steps(ty, has_up_bias, has_down_bias),
{
    let mut steps: Vec<FfnStep> = Vec::new();
    match ty {
        FfnType::Gated => {
            steps.push(FfnStep::ProjectGate);
            steps.push(FfnStep::ProjectUp);
            steps.push(FfnStep::ActivateGate);
            steps.push(FfnStep::ProjectDown);
        },
        FfnType::Standard => {
            steps.push(FfnStep::ProjectUp);
            if has_up_bias {
                steps.push(FfnStep::AddUpBias);
            }
            steps.push(FfnStep::ActivateUp);
            steps.push(FfnStep::ProjectDown);
            if has_down_bias {
                steps.push(FfnStep::AddDownBias);
            }
        },
    }
    assert(steps@ =~= ffn_steps(ty, has_up_bias, has_down_bias));
    steps
}

/// Hidden size of a batch of `seq_len` positions in `x_len` numbers; `None`
/// where there is nothing to run and the input is the result.
pub fn prefill_hidden(num_layers: usize, seq_len: usize, x_len: usize) -> (r: Option<usize>)
    ensures
        match r {
            Some(h) => num_layers > 0 && seq_len > 0 && h == x_len / seq_len,
            None => num_layers == 0 || seq_len == 0,
        },
{
    if num_layers == 0 || seq_len == 0 {
        None
    } else {
        Some(x_len / seq_len)
    }
}

/// A row is as long as its blocks: 144 bytes for 256 values, 210 bytes for
/// 256 values, 9 bytes for 16 values (the rest left out), or a byte for each.
pub proof fn row_bytes_per_value(hidden: usize)
    ensures
        hidden % 256 == 0 ==> 256 * row_bytes(QuantFormat::Q4_K, hidden) == 144 * hidden,
        hidden % 256 == 0 ==> 256 * row_bytes(QuantFormat::Q6_K, hidden) == 210 * hidden,
        row_bytes(QuantFormat::Q4_KF, hidden) == row_bytes(QuantFormat::Q4_K, hidden),
        row_bytes(QuantFormat::Q4_K, hidden) == row_bytes(
            QuantFormat::Q4_K,
            (hidden - hidden % 256) as usize,
        ),
        row_bytes(QuantFormat::Q6_K, hidden) == row_bytes(
            QuantFormat::Q6_K,
            (hidden - hidden % 256) as usize,
        ),
        16 * row_bytes(QuantFormat::Q4_0, hidden) <= 9 * hidden < 16 * row_bytes(
            QuantFormat::Q4_0,
            hidden,
        ) + 16,
        row_bytes(QuantFormat::Q8_0, hidden) == hidden,
{
}

/// Multiplying by a number changes nothing where it is zero, of either sign
/// (no scalar was given), or one.
pub proof fn scaling_numbers(bits: u32)
    ensures
        is_scaling(bits) <==> bits != 0 && bits != 0x8000_0000 && bits != 0x3F80_0000,
{
}

/// What stands in one of two parts stands in both together.
proof fn in_both(a: Seq<PrefillStep>, b: Seq<PrefillStep>, x: PrefillStep)
    ensures
        (a + b).contains(x) <==> a.contains(x) || b.contains(x),
{
    if a.contains(x) {
        let i = choose|i: int| 0 <= i < a.len() && a[i] == x;
        assert((a + b)[i] == x);
    }
    if b.contains(x) {
        let i = choose|i: int| 0 <= i < b.len() && b[i] == x;
        assert((a + b)[a.len() + i] == x);
    }
}

/// A step that may be left out.
proof fn when_holds(condition: bool, step: PrefillStep)
    ensures
        forall|x: PrefillStep| #[trigger] when(condition, step).contains(x) <==> condition && x
            == step,
{
    if condition {
        assert(when(condition, step)[0] == step);
    }
}

/// The steps of a layer that is run, in their parts.
proof fn layer_parts(l: PrefillLayer) -> (t: Seq<PrefillStep>)
    requires
        !l.cached,
    ensures
        layer_steps(l) == seq![PrefillStep::InputNorm, PrefillStep::ProjectQkv] + when(
            l.has_q_norm,
            PrefillStep::QueryNorm,
        ) + when(l.has_k_norm, PrefillStep::KeyNorm) + when(l.has_v_norm, PrefillStep::ValueNorm)
            + seq![PrefillStep::Rope, PrefillStep::Attention, PrefillStep::ProjectOutput] + when(
            is_scaling(l.layer_scalar),
            PrefillStep::ScaleOutput,
        ) + t,
        t.len() == 4,
        t == layer_steps(l).skip(layer_steps(l).len() - 4),
{
    let t = layer_steps(l).skip(layer_steps(l).len() - 4);
    t
}

/// Whether a layer has to take a step: a layer whose residual is stored takes
/// that and is done; any other one takes every norm exactly where it has
/// weights for it, is scaled exactly where its scalar is neither zero nor one,
/// and adds both of its blocks, behind a norm exactly where it has one there.
pub open spec fn is_due(l: PrefillLayer, step: PrefillStep) -> bool {
    match step {
        PrefillStep::UseCached => l.cached,
        PrefillStep::InputNorm
        | PrefillStep::ProjectQkv
        | PrefillStep::Rope
        | PrefillStep::Attention
        | PrefillStep::ProjectOutput
        | PrefillStep::Ffn => !l.cached,
        PrefillStep::QueryNorm => !l.cached && l.has_q_norm,
        PrefillStep::KeyNorm => !l.cached && l.has_k_norm,
        PrefillStep::ValueNorm => !l.cached && l.has_v_norm,
        PrefillStep::ScaleOutput => !l.cached && l.layer_scalar != 0 && l.layer_scalar
            != 0x8000_0000 && l.layer_scalar != 0x3F80_0000,
        PrefillStep::AddNormedAttention => !l.cached && l.has_post_norms,
        PrefillStep::AddAttention => !l.cached && !l.has_post_norms,
        PrefillStep::FfnNormOwn => !l.cached && l.has_post_norms && l.has_pre_ffn_norm,
        PrefillStep::FfnNormShared => !l.cached && !(l.has_post_norms && l.has_pre_ffn_norm),
        PrefillStep::AddNormedFfn => !l.cached && l.has_post_norms && l.has_post_ffn_norm,
        PrefillStep::AddFfn => !l.cached && !(l.has_post_norms && l.has_post_ffn_norm),
    }
}

/// A layer takes exactly the steps that are due.
#[verifier::spinoff_prover]
pub proof fn layer_takes_what_is_due(l: PrefillLayer, x: PrefillStep)
    ensures
        layer_steps(l).contains(x) <==> is_due(l, x),
{
    let s = layer_steps(l);
    if l.cached {
        assert(s[0] == PrefillStep::UseCached);
    } else {
        let a = seq![PrefillStep::InputNorm, PrefillStep::ProjectQkv];
        let b = when(l.has_q_norm, PrefillStep::QueryNorm);
        let c = when(l.has_k_norm, PrefillStep::KeyNorm);
        let d = when(l.has_v_norm, PrefillStep::ValueNorm);
        let e = seq![PrefillStep::Rope, PrefillStep::Attention, PrefillStep::ProjectOutput];
        let f = when(is_scaling(l.layer_scalar), PrefillStep::ScaleOutput);
        let t = layer_parts(l);
        in_both(a, b, x);
        in_both(a + b, c, x);
        in_both(a + b + c, d, x);
        in_both(a + b + c + d, e, x);
        in_both(a + b + c + d + e, f, x);
        in_both(a + b + c + d + e + f, t, x);
        when_holds(l.has_q_norm, PrefillStep::QueryNorm);
        when_holds(l.has_k_norm, PrefillStep::KeyNorm);
        when_holds(l.has_v_norm, PrefillStep::ValueNorm);
        when_holds(is_scaling(l.layer_scalar), PrefillStep::ScaleOutput);
        pair_holds(PrefillStep::InputNorm, PrefillStep::ProjectQkv, x);
        triple_holds(PrefillStep::Rope, PrefillStep::Attention, PrefillStep::ProjectOutput, x);
        assert(t =~= seq![t[0], t[1], t[2]] + seq![t[3]]);
        in_both(seq![t[0], t[1], t[2]], seq![t[3]], x);
        triple_holds(t[0], t[1], t[2], x);
        assert(seq![t[3]].contains(x) <==> x == t[3]) by {
            assert(seq![t[3]][0] == t[3]);
        }
    }
}

/// What two steps hold.
proof fn pair_holds(a: PrefillStep, b: PrefillStep, x: PrefillStep)
    ensures
        seq![a, b].contains(x) <==> x == a || x == b,
{
    assert(seq![a, b][0] == a && seq![a, b][1] == b);
}

/// What three steps hold.
proof fn triple_holds(a: PrefillStep, b: PrefillStep, c: PrefillStep, x: PrefillStep)
    ensures
        seq![a, b, c].contains(x) <==> x == a || x == b || x == c,
{
    assert(seq![a, b, c][0] == a && seq![a, b, c][1] == b && seq![a, b, c][2] == c);
}

/// When a step of a layer is done.
pub open spec fn prefill_phase(s: PrefillStep) -> int {
    match s {
        PrefillStep::UseCached | PrefillStep::InputNorm => 0,
        PrefillStep::ProjectQkv => 1,
        PrefillStep::QueryNorm | PrefillStep::KeyNorm | PrefillStep::ValueNorm => 2,
        PrefillStep::Rope => 3,
        PrefillStep::Attention => 4,
        PrefillStep::ProjectOutput => 5,
        PrefillStep::ScaleOutput => 6,
        PrefillStep::AddNormedAttention | PrefillStep::AddAttention => 7,
        PrefillStep::FfnNormOwn | PrefillStep::FfnNormShared => 8,
        PrefillStep::Ffn => 9,
        PrefillStep::AddNormedFfn | PrefillStep::AddFfn => 10,
    }
}

/// Whether the steps are of the phases `from` to `to`, earlier ones first.
pub open spec fn in_phases(steps: Seq<PrefillStep>, from: int, to: int) -> bool {
    &&& forall|i: int| 0 <= i < steps.len() ==> from <= prefill_phase(#[trigger] steps[i]) <= to
    &&& forall|i: int, j: int|
        0 <= i < j < steps.len() ==> prefill_phase(#[trigger] steps[i]) <= prefill_phase(
            #[trigger] steps[j],
        )
}

/// Steps of later phases may follow.
proof fn phases_follow(a: Seq<PrefillStep>, b: Seq<PrefillStep>, from: int, mid: int, to: int)
    requires
        in_phases(a, from, mid),
        in_phases(b, mid, to),
        from <= mid <= to,
    ensures
        in_phases(a + b, from, to),
{
    let s = a + b;
    assert forall|i: int| 0 <= i < s.len() implies from <= prefill_phase(#[trigger] s[i])
        <= to by {
        if i < a.len() {
            assert(s[i] == a[i]);
        } else {
            assert(s[i] == b[i - a.len()]);
        }
    }
    assert forall|i: int, j: int| 0 <= i < j < s.len() implies prefill_phase(#[trigger] s[i])
        <= prefill_phase(#[trigger] s[j]) by {
        if j < a.len() {
            assert(s[i] == a[i] && s[j] == a[j]);
        } else if i < a.len() {
            assert(s[i] == a[i] && s[j] == b[j - a.len()]);
        } else {
            assert(s[i] == b[i - a.len()] && s[j] == b[j - a.len()]);
        }
    }
}

/// Every step of a layer follows those whose results it takes: projections
/// behind the norm of the input, attention behind rotation, rotation behind
/// the norms of queries and keys, the feed-forward block behind attention.
pub proof fn prefill_is_in_order(l: PrefillLayer)
    ensures
        in_phases(layer_steps(l), 0, 10),
{
    if !l.cached {
        let a = seq![PrefillStep::InputNorm, PrefillStep::ProjectQkv];
        let b = when(l.has_q_norm, PrefillStep::QueryNorm);
        let c = when(l.has_k_norm, PrefillStep::KeyNorm);
        let d = when(l.has_v_norm, PrefillStep::ValueNorm);
        let e = seq![PrefillStep::Rope, PrefillStep::Attention, PrefillStep::ProjectOutput];
        let f = when(is_scaling(l.layer_scalar), PrefillStep::ScaleOutput);
        let t = layer_parts(l);
        assert(in_phases(t, 7, 10));
        phases_follow(a, b, 0, 2, 2);
        phases_follow(a + b, c, 0, 2, 2);
        phases_follow(a + b + c, d, 0, 2, 3);
        phases_follow(a + b + c + d, e, 0, 3, 6);
        phases_follow(a + b + c + d + e, f, 0, 6, 7);
        phases_follow(a + b + c + d + e + f, t, 0, 7, 10);
    }
}

/// A feed-forward block projects up and down once each. One with a gate has
/// its projection and its activation, and no bias; one without has the plain
/// activation, and each bias exactly where there is one, right behind its
/// projection.
pub proof fn ffn_follows_type(ty: FfnType, has_up_bias: bool, has_down_bias: bool)
    ensures
        ({
            let s = ffn_steps(ty, has_up_bias, has_down_bias);
            &&& s.contains(FfnStep::ProjectUp)
            &&& s.contains(FfnStep::ProjectDown)
            &&& s.contains(FfnStep::ProjectGate) <==> ty is Gated
            &&& s.contains(FfnStep::ActivateGate) <==> ty is Gated
            &&& s.contains(FfnStep::ActivateUp) <==> ty is Standard
            &&& s.contains(FfnStep::AddUpBias) <==> ty is Standard && has_up_bias
            &&& s.contains(FfnStep::AddDownBias) <==> ty is Standard && has_down_bias
            &&& forall|i: int, j: int|
                0 <= i < j < s.len() ==> ffn_phase(#[trigger] s[i]) < ffn_phase(#[trigger] s[j])
        }),
{
    let s = ffn_steps(ty, has_up_bias, has_down_bias);
    if ty is Gated {
        assert(s[0] == FfnStep::ProjectGate && s[1] == FfnStep::ProjectUp && s[2]
            == FfnStep::ActivateGate && s[3] == FfnStep::ProjectDown);
    } else {
        assert(s[0] == FfnStep::ProjectUp);
        let k: int = if has_up_bias {
            2
        } else {
            1
        };
        if has_up_bias {
            assert(s[1] == FfnStep::AddUpBias);
        }
        assert(s[k] == FfnStep::ActivateUp && s[k + 1] == FfnStep::ProjectDown);
        if has_down_bias {
            assert(s[k + 2] == FfnStep::AddDownBias);
        }
    }
}

/// When a step of a feed-forward block is done.
pub open spec fn ffn_phase(s: FfnStep) -> int {
    match s {
        FfnStep::ProjectGate => 0,
        FfnStep::ProjectUp => 1,
        FfnStep::AddUpBias => 2,
        FfnStep::ActivateGate | FfnStep::ActivateUp => 3,
        FfnStep::ProjectDown => 4,
        FfnStep::AddDownBias => 5,
    }
}

/// As many rows are taken as are there whole: one more would need more bytes
/// than there are.
pub proof fn rows_are_whole(data_len: usize, format: QuantFormat, hidden: usize)
    ensures
        row_bytes(format, hidden) > 0 ==> rows_in(data_len, format, hidden) * row_bytes(
            format,
            hidden,
        ) <= data_len < (rows_in(data_len, format, hidden) + 1) * row_bytes(format, hidden),
        row_bytes(format, hidden) == 0 ==> rows_in(data_len, format, hidden) == 0,
{
    let b = row_bytes(format, hidden) as int;
    if b > 0 {
        let n = data_len as int;
        let q = rows_in(data_len, format, hidden) as int;
        vstd::arithmetic::div_mod::lemma_fundamental_div_mod(n, b);
        assert(q * b <= n < (q + 1) * b) by (nonlinear_arith)
            requires
                n == b * q + n % b,
                0 <= n % b < b,
        ;
    }
}

/// The device has a kernel for blocks of 144 bytes and one for blocks of 210;
/// what is not made of such blocks is multiplied on the CPU.
pub proof fn kernels_fit_blocks(format: QuantFormat, hidden: usize)
    requires
        hidden == 256,
    ensures
        route_of(format) == MatvecRoute::Q6kKernel <==> row_bytes(format, hidden) == 210,
        route_of(format) == MatvecRoute::Q4kKernel <==> format == QuantFormat::Q4_K || format
            == QuantFormat::Q4_KF,
        route_of(format) == MatvecRoute::Q4kKernel ==> row_bytes(format, hidden) == 144,
        route_of(format) == MatvecRoute::CpuFallback <==> format == QuantFormat::Q4_0 || format
            == QuantFormat::Q8_0,
{
}

} // verus!
