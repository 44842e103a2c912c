//! Weights of the parts of a model.

use vstd::prelude::*;
use crate::kernel::Activation;
use crate::tensor::Tensor;

verus! {

/// A matrix stored as packed integers with one scale and one bias per group.
pub struct AffineMatrix<C> {
    pub rows: usize,
    pub cols: usize,
    pub bits: usize,
    pub group_size: usize,
    pub packed: Vec<u32>,
    pub scales: Vec<C>,
    pub biases: Vec<C>,
}

/// The weight of a linear map, or an embedding table.
pub enum LinearWeight<C> {
    Dense(Tensor<C>),
    AffineQuantized(AffineMatrix<C>),
}

/// A linear map with an optional bias.
pub struct Linear<C> {
    pub weight: LinearWeight<C>,
    pub bias: Option<Tensor<C>>,
    pub in_dim: usize,
    pub out_dim: usize,
}

/// A gated feed-forward block.
pub struct GatedMlp<C> {
    pub gate_proj: Linear<C>,
    pub up_proj: Linear<C>,
    pub down_proj: Linear<C>,
    pub activation: Activation,
}

/// The norm that a router applies to its input.
pub struct RouterNorm<C> {
    pub weight: Tensor<C>,
    pub eps: C,
}

/// A mixture-of-experts block.
pub struct MoeMlp<C> {
    pub router: Linear<C>,
    pub experts: Vec<GatedMlp<C>>,
    pub shared_expert: Option<GatedMlp<C>>,
    pub shared_expert_gate: Option<Linear<C>>,
    pub router_norm: Option<RouterNorm<C>>,
    pub per_expert_scale: Option<Tensor<C>>,
    pub top_k: usize,
}

/// Sizes of the linear attention blocks.
#[derive(Clone, Copy, PartialEq, Eq, Structural, Debug)]
pub struct LinearAttentionConfig {
    pub num_key_heads: usize,
    pub num_value_heads: usize,
    pub key_head_dim: usize,
    pub value_head_dim: usize,
    pub conv_kernel_dim: usize,
}

/// Weights of one linear attention block.
pub struct LinearAttentionWeights<C> {
    pub in_proj_qkv: Linear<C>,
    pub in_proj_z: Linear<C>,
    pub in_proj_b: Linear<C>,
    pub in_proj_a: Linear<C>,
    pub out_proj: Linear<C>,
    pub conv1d_weight: Tensor<C>,
    pub a_log: Tensor<C>,
    pub dt_bias: Tensor<C>,
    pub norm_weight: Tensor<C>,
}

/// A block draft model: its shape, and its weights by name.
pub struct DraftModel<C> {
    pub block_size: usize,
    pub mask_token_id: usize,
    pub target_layer_ids: Vec<usize>,
    pub hidden_size: usize,
    pub tensors: Vec<Tensor<C>>,
}

} // verus!
