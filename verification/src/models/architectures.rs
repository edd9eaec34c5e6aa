//! Model families: what they are called and where their tensors are kept.
//!
//! The keys are given behind the prefix of a layer's tensors, such as
//! `layers.3.`.

use vstd::prelude::*;
use vstd::string::*;

verus! {

/// What the families need to know of a model. `partial_rotary_factor` is a
/// binary64 pattern.
#[derive(Debug, Clone, Copy)]
pub struct ModelConfig {
    pub num_layers: usize,
    pub hidden_size: usize,
    pub partial_rotary_factor: Option<u64>,
}

/// How an activation is computed.
#[derive(Debug, Clone, Copy, PartialEq, Eq, Structural)]
pub enum Activation {
    Silu,
    SquaredRelu,
}

/// How a layer is normalised.
#[derive(Debug, Clone, Copy, PartialEq, Eq, Structural)]
pub enum NormType {
    RmsNorm,
    LayerNorm,
}

/// The binary64 pattern of 0.5.
pub const HALF: u64 = 0x3FE0_0000_0000_0000;

/// `prefix` with `rest` behind it.
fn joined(prefix: &str, rest: &str) -> (key: String)
    ensures
        key@ == prefix@ + rest@,
{
    let mut key: String = String::from_str(prefix);
    key.append(rest);
    key
}

/// BitNet b1.58: ternary weights, squared ReLU, a norm before the down
/// projection.
pub struct BitNetArch {
    pub config: ModelConfig,
}

impl BitNetArch {
    pub fn from_config(config: ModelConfig) -> (a: Self)
        ensures
            a.config == config,
    {
        BitNetArch { config }
    }

    pub fn family(&self) -> (name: &'static str)
        ensures
            name@ == "bitnet"@,
    {
        "bitnet"
    }

    pub fn activation(&self) -> (a: Activation)
        ensures
            a == Activation::SquaredRelu,
    {
        Activation::SquaredRelu
    }

    pub fn has_ffn_sub_norm(&self) -> (r: bool)
        ensures
            r,
    {
        true
    }

    pub fn ffn_sub_norm_key(&self, layer_prefix: &str) -> (key: Option<String>)
        ensures
            key matches Some(k) && k@ == layer_prefix@ + "mlp.ffn_norm.weight"@,
    {
        Some(joined(layer_prefix, "mlp.ffn_norm.weight"))
    }

    pub fn preferred_gate_dtype(&self) -> (name: &'static str)
        ensures
            name@ == "ternary"@,
    {
        "ternary"
    }
}

/// Cohere / Command R: layer norm in place of RMS norm.
pub struct CohereArch {
    pub config: ModelConfig,
}

impl CohereArch {
    pub fn from_config(config: ModelConfig) -> (a: Self)
        ensures
            a.config == config,
    {
        CohereArch { config }
    }

    pub fn family(&self) -> (name: &'static str)
        ensures
            name@ == "cohere"@,
    {
        "cohere"
    }

    pub fn norm_type(&self) -> (n: NormType)
        ensures
            n == NormType::LayerNorm,
    {
        NormType::LayerNorm
    }
}

/// Phi-3/4: partial rotary embeddings, biases on attention and FFN.
pub struct PhiArch {
    pub config: ModelConfig,
}

impl PhiArch {
    pub fn from_config(config: ModelConfig) -> (a: Self)
        ensures
            a.config == config,
    {
        PhiArch { config }
    }

    pub fn family(&self) -> (name: &'static str)
        ensures
            name@ == "phi"@,
    {
        "phi"
    }

    /// The share of each head that is rotated, as a binary64 pattern: a half
    /// where the model does not say.
    pub fn rotary_fraction(&self) -> (f: u64)
        ensures
            f == (match self.config.partial_rotary_factor {
                Some(p) => p,
                None => HALF,
            }),
    {
        match self.config.partial_rotary_factor {
            Some(p) => p,
            None => HALF,
        }
    }

    pub fn attn_q_bias_key(&self, layer_prefix: &str) -> (key: Option<String>)
        ensures
            key matches Some(k) && k@ == layer_prefix@ + "self_attn.q_proj.bias"@,
    {
        Some(joined(layer_prefix, "self_attn.q_proj.bias"))
    }

    pub fn attn_k_bias_key(&self, layer_prefix: &str) -> (key: Option<String>)
        ensures
            key matches Some(k) && k@ == layer_prefix@ + "self_attn.k_proj.bias"@,
    {
        Some(joined(layer_prefix, "self_attn.k_proj.bias"))
    }

    pub fn attn_v_bias_key(&self, layer_prefix: &str) -> (key: Option<String>)
        ensures
            key matches Some(k) && k@ == layer_prefix@ + "self_attn.v_proj.bias"@,
    {
        Some(joined(layer_prefix, "self_attn.v_proj.bias"))
    }

    pub fn ffn_up_bias_key(&self, layer_prefix: &str) -> (key: Option<String>)
        ensures
            key matches Some(k) && k@ == layer_prefix@ + "mlp.up_proj.bias"@,
    {
        Some(joined(layer_prefix, "mlp.up_proj.bias"))
    }

    pub fn ffn_down_bias_key(&self, layer_prefix: &str) -> (key: Option<String>)
        ensures
            key matches Some(k) && k@ == layer_prefix@ + "mlp.down_proj.bias"@,
    {
        Some(joined(layer_prefix, "mlp.down_proj.bias"))
    }
}

} // verus!
