//! Conditions under which a residual delta can be optimised.

use vstd::prelude::*;
use vstd::string::*;

use crate::text::{append_size, decimal};

verus! {

/// Settings of an optimisation. `lr` and `kl_weight` are binary32 patterns.
#[derive(Debug, Clone, Copy)]
pub struct TargetDeltaOpts {
    pub steps: usize,
    pub lr: u32,
    pub kl_weight: u32,
    /// Whether the delta is scaled to length one at the end.
    pub normalise: bool,
}

impl Default for TargetDeltaOpts {
    /// 60 steps, a rate of one half, a weight of one sixteenth.
    fn default() -> (o: Self)
        ensures
            o == (TargetDeltaOpts {
                steps: 60,
                lr: 0x3F00_0000,
                kl_weight: 0x3D80_0000,
                normalise: false,
            }),
    {
        TargetDeltaOpts { steps: 60, lr: 0x3F00_0000, kl_weight: 0x3D80_0000, normalise: false }
    }
}

/// What is wrong with the layer that a delta is meant for, where something
/// is: it has to be the last layer.
pub open spec fn layer_fault(install_layer: usize, n_layers: usize) -> Option<Seq<char>> {
    if install_layer >= n_layers {
        Some(
            "install_layer "@ + decimal(install_layer as nat) + " ≥ n_layers "@ + decimal(
                n_layers as nat,
            ),
        )
    } else if install_layer != n_layers - 1 {
        Some(
            "optimise_target_delta: only install_layer = n_layers-1 = "@ + decimal(
                (n_layers - 1) as nat,
            ) + " is supported in this build (got "@ + decimal(install_layer as nat)
                + "). Mid-layer backward through attention+FFN is pending (target_delta.rs stubs)."@,
        )
    } else {
        None
    }
}

/// Checks the layer that a delta is meant for.
pub fn check_install_layer(install_layer: usize, n_layers: usize) -> (r: Result<(), String>)
    ensures
        match r {
            Ok(_) => layer_fault(install_layer, n_layers) is None,
            Err(m) => layer_fault(install_layer, n_layers) == Some(m@),
        },
{
    if install_layer >= n_layers {
        let mut m: String = String::from_str("install_layer ");
        append_size(&mut m, install_layer);
        m.append(" ≥ n_layers ");
        append_size(&mut m, n_layers);
        return Err(m);
    }
    if install_layer != n_layers - 1 {
        let mut m: String = String::from_str(
            "optimise_target_delta: only install_layer = n_layers-1 = ",
        );
        append_size(&mut m, n_layers - 1);
        m.append(" is supported in this build (got ");
        append_size(&mut m, install_layer);
        m.append("). Mid-layer backward through attention+FFN is pending (target_delta.rs stubs).");
        return Err(m);
    }
    Ok(())
}

/// What is said of a model without the weights of its last norm.
pub open spec fn missing_norm_text(key: Seq<char>) -> Seq<char> {
    "missing final norm weight key: "@ + key
}

/// What is said of a model that caps its logits.
pub open spec fn softcap_text() -> Seq<char> {
    "target-delta opt doesn't yet handle logit softcap — port required"@
}

/// Checks a model: it has the weights of its last norm and does not cap its
/// logits.
pub fn check_model(has_final_norm: bool, final_norm_key: &str, has_softcap: bool) -> (r: Result<
    (),
    String,
>)
    ensures
        match r {
            Ok(_) => has_final_norm && !has_softcap,
            Err(m) => if !has_final_norm {
                m@ == missing_norm_text(final_norm_key@)
            } else {
                has_softcap && m@ == softcap_text()
            },
        },
{
    if !has_final_norm {
        let mut m: String = String::from_str("missing final norm weight key: ");
        m.append(final_norm_key);
        return Err(m);
    }
    if has_softcap {
        return Err(
            String::from_str("target-delta opt doesn't yet handle logit softcap — port required"),
        );
    }
    Ok(())
}

/// A delta can be meant for the last layer and for no other.
pub proof fn only_the_last_layer(install_layer: usize, n_layers: usize)
    ensures
        layer_fault(install_layer, n_layers) is None <==> install_layer + 1 == n_layers,
{
}

} // verus!
