//! What is worked out, and in what order, from the weights that are there.

use vstd::prelude::*;

use crate::compute::backend::BackendKind;
use crate::float_bits::SIGN32;

verus! {

/// Which weights a layer has for its keys and values.
#[derive(Debug, Clone, Copy)]
pub struct KvWeights {
    pub has_k: bool,
    pub has_v: bool,
    /// Whether values are made with the weights of the keys.
    pub v_shares_k: bool,
    pub has_k_bias: bool,
    pub has_v_bias: bool,
    pub has_v_norm: bool,
    pub has_k_norm: bool,
}

/// One step of working out keys and values.
#[derive(Debug, Clone, Copy, PartialEq, Eq, Structural)]
pub enum KvStep {
    /// Norm of the residuals.
    InputNorm,
    ProjectK,
    /// Values with their own weights.
    ProjectV,
    /// Values with the weights of the keys.
    ProjectVWithK,
    AddKBias,
    AddVBias,
    NormV,
    NormK,
    /// Rotary embedding of the keys.
    RopeK,
}

/// The steps of working out keys and values, in order; `None` where weights
/// are missing.
pub open spec fn kv_steps(w: KvWeights) -> Option<Seq<KvStep>> {
    if !w.has_k || (!w.v_shares_k && !w.has_v) {
        None
    } else {
        Some(
            seq![
                KvStep::InputNorm,
                KvStep::ProjectK,
                if w.v_shares_k {
                    KvStep::ProjectVWithK
                } else {
                    KvStep::ProjectV
                },
            ] + (if w.has_k_bias {
                seq![KvStep::AddKBias]
            } else {
                seq![]
            }) + (if w.has_v_bias {
                seq![KvStep::AddVBias]
            } else {
                seq![]
            }) + (if w.has_v_norm {
                seq![KvStep::NormV]
            } else {
                seq![]
            }) + (if w.has_k_norm {
                seq![KvStep::NormK]
            } else {
                seq![]
            }) + seq![KvStep::RopeK],
        )
    }
}

/// The steps of working out keys and values, in order.
pub fn plan_kv(w: KvWeights) -> (r: Option<Vec<KvStep>>)
    ensures
        match r {
            Some(steps) => kv_steps(w) == Some(steps@),
            None => kv_steps(w) is None,
        },
{
    if !w.has_k || (!w.v_shares_k && !w.has_v) {
        return None;
    }
    let mut steps: Vec<KvStep> = Vec::new();
    steps.push(KvStep::InputNorm);
    steps.push(KvStep::ProjectK);
    steps.push(
        if w.v_shares_k {
            KvStep::ProjectVWithK
        } else {
            KvStep::ProjectV
        },
    );
    if w.has_k_bias {
        steps.push(KvStep::AddKBias);
    }
    if w.has_v_bias {
        steps.push(KvStep::AddVBias);
    }
    if w.has_v_norm {
        steps.push(KvStep::NormV);
    }
    if w.has_k_norm {
        steps.push(KvStep::NormK);
    }
    steps.push(KvStep::RopeK);
    assert(steps@ =~= kv_steps(w)->0);
    Some(steps)
}

/// The offset that is added to the weights of the key norm.
pub open spec fn norm_offset_of(qk_offset: u32, norm_offset: u32) -> u32 {
    if qk_offset % SIGN32 == 0 {
        norm_offset
    } else {
        qk_offset
    }
}

/// The offset that is added to the weights of the key norm: its own, where it
/// is not zero, else that of the other norms. Both are binary32 patterns.
pub fn qk_norm_offset(qk_offset: u32, norm_offset: u32) -> (offset: u32)
    ensures
        offset == (if qk_offset % SIGN32 != 0 {
            qk_offset
        } else {
            norm_offset
        }),
        offset == norm_offset_of(qk_offset, norm_offset),
{
    if qk_offset % SIGN32 != 0 {
        qk_offset
    } else {
        norm_offset
    }
}

/// One step of a dense feed-forward block.
#[derive(Debug, Clone, Copy, PartialEq, Eq, Structural)]
pub enum DenseStep {
    ProjectGate,
    ProjectUp,
    /// SiLU of a gate projection, times the up projection.
    GateWithSilu,
    /// SiLU of the up projection.
    Silu,
    ProjectDown,
    AddDownBias,
}

/// A dense feed-forward block whose products run on a backend.
pub struct BackendFfn {
    pub backend: BackendKind,
}

impl BackendFfn {
    /// The name of this way to run a block.
    pub fn name(&self) -> (s: &'static str)
        ensures
            s@ == "weights+backend"@,
    {
        "weights+backend"
    }

    /// The steps of the block, in order.
    pub open spec fn steps(has_gate: bool, has_down_bias: bool) -> Seq<DenseStep> {
        (if has_gate {
            seq![DenseStep::ProjectGate, DenseStep::ProjectUp, DenseStep::GateWithSilu]
        } else {
            seq![DenseStep::ProjectUp, DenseStep::Silu]
        }) + seq![DenseStep::ProjectDown] + (if has_down_bias {
            seq![DenseStep::AddDownBias]
        } else {
            seq![]
        })
    }

    /// The steps of the block, in order.
    pub fn plan(&self, has_gate: bool, has_down_bias: bool) -> (steps: Vec<DenseStep>)
        ensures
            steps@ == BackendFfn::steps(has_gate, has_down_bias),
    {
        let mut steps: Vec<DenseStep> = Vec::new();
        if has_gate {
            steps.push(DenseStep::ProjectGate);
            steps.push(DenseStep::ProjectUp);
            steps.push(DenseStep::GateWithSilu);
        } else {
            steps.push(DenseStep::ProjectUp);
            steps.push(DenseStep::Silu);
        }
        steps.push(DenseStep::ProjectDown);
        if has_down_bias {
            steps.push(DenseStep::AddDownBias);
        }
        assert(steps@ =~= BackendFfn::steps(has_gate, has_down_bias));
        steps
    }
}

/// The steps of a plan follow from the weights: there is a plan exactly where
/// keys have weights and values have some too, their own or shared; values are
/// made with their own weights exactly where they are not shared; each bias
/// and each norm is there exactly where its weight is; and nothing else is.
pub proof fn kv_plan_follows_weights(w: KvWeights)
    ensures
        kv_steps(w) is Some <==> w.has_k && (w.v_shares_k || w.has_v),
        kv_steps(w) matches Some(steps) ==> {
            &&& steps.contains(KvStep::InputNorm)
            &&& steps.contains(KvStep::ProjectK)
            &&& steps.contains(KvStep::ProjectV) <==> !w.v_shares_k
            &&& steps.contains(KvStep::ProjectVWithK) <==> w.v_shares_k
            &&& steps.contains(KvStep::AddKBias) <==> w.has_k_bias
            &&& steps.contains(KvStep::AddVBias) <==> w.has_v_bias
            &&& steps.contains(KvStep::NormV) <==> w.has_v_norm
            &&& steps.contains(KvStep::NormK) <==> w.has_k_norm
            &&& steps.contains(KvStep::RopeK)
            &&& steps.len() == 4 + counted(w.has_k_bias) + counted(w.has_v_bias) + counted(
                w.has_v_norm,
            ) + counted(w.has_k_norm)
        },
{
    if kv_steps(w) is Some {
        let steps = kv_steps(w)->0;
        let a = seq![
            KvStep::InputNorm,
            KvStep::ProjectK,
            if w.v_shares_k {
                KvStep::ProjectVWithK
            } else {
                KvStep::ProjectV
            },
        ];
        let b = optional(w.has_k_bias, KvStep::AddKBias);
        let c = optional(w.has_v_bias, KvStep::AddVBias);
        let d = optional(w.has_v_norm, KvStep::NormV);
        let e = optional(w.has_k_norm, KvStep::NormK);
        let f = seq![KvStep::RopeK];
        assert(steps =~= a + b + c + d + e + f);
        assert forall|x: KvStep| steps.contains(x) <==> (a.contains(x) || b.contains(x)
            || c.contains(x) || d.contains(x) || e.contains(x) || f.contains(x)) by {
            in_both(a, b, x);
            in_both(a + b, c, x);
            in_both(a + b + c, d, x);
            in_both(a + b + c + d, e, x);
            in_both(a + b + c + d + e, f, x);
        }
        assert(a[0] == KvStep::InputNorm && a[1] == KvStep::ProjectK);
        assert(a.contains(a[0]) && a.contains(a[1]) && a.contains(a[2]));
        assert(f[0] == KvStep::RopeK && f.contains(f[0]));
        optional_holds(w.has_k_bias, KvStep::AddKBias);
        optional_holds(w.has_v_bias, KvStep::AddVBias);
        optional_holds(w.has_v_norm, KvStep::NormV);
        optional_holds(w.has_k_norm, KvStep::NormK);
    }
}

/// A step that is there or not.
pub open spec fn optional(there: bool, s: KvStep) -> Seq<KvStep> {
    if there {
        seq![s]
    } else {
        seq![]
    }
}

/// What such a step holds.
proof fn optional_holds(there: bool, s: KvStep)
    ensures
        forall|x: KvStep| #[trigger] optional(there, s).contains(x) <==> there && x == s,
{
    if there {
        assert(optional(there, s)[0] == s);
    }
}

/// What stands in one of two parts stands in both together.
proof fn in_both(a: Seq<KvStep>, b: Seq<KvStep>, x: KvStep)
    ensures
        (a + b).contains(x) <==> a.contains(x) || b.contains(x),
{
    if a.contains(x) {
        let i = choose|i: int| 0 <= i < a.len() && a[i] == x;
        assert((a + b)[i] == x);
    }
    if b.contains(x) {
        let i = choose|i: int| 0 <= i < b.len() && b[i] == x;
        assert((a + b)[a.len() + i] == x);
    }
}

/// When a step of a plan is done: the residuals are normed first, then keys
/// and values are made, then biases are added, then norms are taken, and the
/// keys are rotated last.
pub open spec fn kv_phase(s: KvStep) -> int {
    match s {
        KvStep::InputNorm => 0,
        KvStep::ProjectK | KvStep::ProjectV | KvStep::ProjectVWithK => 1,
        KvStep::AddKBias | KvStep::AddVBias => 2,
        KvStep::NormV | KvStep::NormK => 3,
        KvStep::RopeK => 4,
    }
}

/// Whether no step comes before one of an earlier phase, and all are of the
/// phases `from` to `to`.
pub open spec fn in_phases(steps: Seq<KvStep>, from: int, to: int) -> bool {
    &&& forall|i: int| 0 <= i < steps.len() ==> from <= kv_phase(#[trigger] steps[i]) <= to
    &&& forall|i: int, j: int|
        0 <= i < j < steps.len() ==> kv_phase(#[trigger] steps[i]) <= kv_phase(#[trigger] steps[j])
}

/// Steps of later phases may follow.
proof fn phases_follow(a: Seq<KvStep>, b: Seq<KvStep>, from: int, mid: int, to: int)
    requires
        in_phases(a, from, mid),
        in_phases(b, mid, to),
        from <= mid <= to,
    ensures
        in_phases(a + b, from, to),
{
    let s = a + b;
    assert forall|i: int| 0 <= i < s.len() implies from <= kv_phase(#[trigger] s[i]) <= to by {
        if i < a.len() {
            assert(s[i] == a[i]);
        } else {
            assert(s[i] == b[i - a.len()]);
        }
    }
    assert forall|i: int, j: int| 0 <= i < j < s.len() implies kv_phase(#[trigger] s[i])
        <= kv_phase(#[trigger] s[j]) by {
        if j < a.len() {
            assert(s[i] == a[i] && s[j] == a[j]);
        } else if i < a.len() {
            assert(s[i] == a[i] && s[j] == b[j - a.len()]);
        } else {
            assert(s[i] == b[i - a.len()] && s[j] == b[j - a.len()]);
        }
    }
}

/// No step of a plan comes before one of an earlier phase: the norm of the
/// residuals, the projections, the biases, the norms, the rotation.
pub proof fn kv_plan_is_in_order(w: KvWeights)
    requires
        kv_steps(w) is Some,
    ensures
        in_phases(kv_steps(w)->0, 0, 4),
{
    let steps = kv_steps(w)->0;
    let a = steps.take(3);
    let b = optional(w.has_k_bias, KvStep::AddKBias);
    let c = optional(w.has_v_bias, KvStep::AddVBias);
    let d = optional(w.has_v_norm, KvStep::NormV);
    let e = optional(w.has_k_norm, KvStep::NormK);
    let f = seq![KvStep::RopeK];
    assert(steps =~= a + b + c + d + e + f);
    assert(in_phases(a, 0, 2));
    phases_follow(a, b, 0, 2, 2);
    phases_follow(a + b, c, 0, 2, 3);
    phases_follow(a + b + c, d, 0, 3, 3);
    phases_follow(a + b + c + d, e, 0, 3, 4);
    phases_follow(a + b + c + d + e, f, 0, 4, 4);
}

/// One where something is there, else zero.
pub open spec fn counted(there: bool) -> int {
    if there {
        1
    } else {
        0
    }
}

/// When a step of a feed-forward block is done: first the projections in,
/// then the activation, then the projection out, then its bias.
pub open spec fn dense_phase(s: DenseStep) -> int {
    match s {
        DenseStep::ProjectGate | DenseStep::ProjectUp => 0,
        DenseStep::GateWithSilu | DenseStep::Silu => 1,
        DenseStep::ProjectDown => 2,
        DenseStep::AddDownBias => 3,
    }
}

/// A feed-forward block projects up and down once each; it has a projection
/// and an activation with a gate exactly where there is one, the plain
/// activation exactly where there is none, and a bias exactly where there is
/// one; and every step follows those whose results it takes.
pub proof fn dense_plan_follows_weights(has_gate: bool, has_down_bias: bool)
    ensures
        ({
            let steps = BackendFfn::steps(has_gate, has_down_bias);
            &&& steps.contains(DenseStep::ProjectUp)
            &&& steps.contains(DenseStep::ProjectDown)
            &&& steps.contains(DenseStep::ProjectGate) <==> has_gate
            &&& steps.contains(DenseStep::GateWithSilu) <==> has_gate
            &&& steps.contains(DenseStep::Silu) <==> !has_gate
            &&& steps.contains(DenseStep::AddDownBias) <==> has_down_bias
            &&& steps.len() == 3 + counted(has_gate) + counted(has_down_bias)
            &&& forall|i: int, j: int|
                0 <= i < j < steps.len() ==> dense_phase(#[trigger] steps[i]) <= dense_phase(
                    #[trigger] steps[j],
                )
        }),
{
    let steps = BackendFfn::steps(has_gate, has_down_bias);
    if has_gate {
        assert(steps[0] == DenseStep::ProjectGate && steps[1] == DenseStep::ProjectUp && steps[2]
            == DenseStep::GateWithSilu && steps[3] == DenseStep::ProjectDown);
    } else {
        assert(steps[0] == DenseStep::ProjectUp && steps[1] == DenseStep::Silu && steps[2]
            == DenseStep::ProjectDown);
    }
    if has_down_bias {
        assert(steps[steps.len() - 1] == DenseStep::AddDownBias);
    }
}

/// A key norm without an offset of its own, which is zero of either sign, takes
/// that of the other norms; any other offset is its own.
pub proof fn own_offset_counts(qk_offset: u32, norm_offset: u32)
    ensures
        qk_offset == 0 || qk_offset == 0x8000_0000 ==> norm_offset_of(qk_offset, norm_offset)
            == norm_offset,
        qk_offset != 0 && qk_offset != 0x8000_0000 ==> norm_offset_of(qk_offset, norm_offset)
            == qk_offset,
{
}

} // verus!
