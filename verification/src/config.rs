//! Shape of the model, layer by layer.

use vstd::prelude::*;
use crate::error::InferError;
use crate::kernel::Activation;
use crate::weights::LinearAttentionConfig;

verus! {

/// How the coordinates of a head are paired for a rotation.
#[derive(Clone, Copy, PartialEq, Eq, Structural, Debug)]
pub enum RopeStyle {
    /// Neighbours: `(0, 1)`, `(2, 3)`, ...
    Interleaved,
    /// One from each half: `(0, n)`, `(1, n + 1)`, ...
    Halves,
}

/// What one layer has different from the others.
#[derive(Clone, Copy, PartialEq, Eq, Structural, Debug)]
pub struct LayerShape {
    pub head_dim: Option<usize>,
    pub num_key_value_heads: Option<usize>,
    pub rope_dims: Option<usize>,
    pub rope_frequency_dim: Option<usize>,
    /// The keys serve as values too, so that there is no value projection.
    pub keys_as_values: bool,
}

/// Shape of a causal decoder.
pub struct CausalDecoderConfig<C> {
    pub num_hidden_layers: usize,
    pub num_attention_heads: usize,
    pub num_key_value_heads: usize,
    pub head_dim: Option<usize>,
    pub rope_dims: Option<usize>,
    pub rope_theta: Option<C>,
    pub rope_style: RopeStyle,
    pub rope_local_base_freq: Option<C>,
    pub rope_position_scale: Option<C>,
    pub sliding_window: Option<usize>,
    pub sliding_window_pattern: Option<usize>,
    pub query_pre_attn_scalar: Option<C>,
    pub rms_eps: C,
    pub attn_output_gate: bool,
    pub attention_value_norm: bool,
    pub full_attention_interval: Option<usize>,
    pub linear_num_key_heads: Option<usize>,
    pub linear_num_value_heads: Option<usize>,
    pub linear_key_head_dim: Option<usize>,
    pub linear_value_head_dim: Option<usize>,
    pub linear_conv_kernel_dim: Option<usize>,
    pub num_experts: Option<usize>,
    pub num_experts_per_tok: usize,
    pub parallel_moe: bool,
    pub activation: Activation,
    pub embed_scale: Option<C>,
    pub final_logit_softcapping: Option<C>,
    pub layer_shapes: Vec<LayerShape>,
}

/// The layer closes a group of `period` layers; without a period every layer does.
pub open spec fn closes_group(layer: int, period: Option<usize>) -> bool {
    match period {
        Some(period) => period == 0 || (layer + 1) % (period as int) == 0,
        None => true,
    }
}

fn layer_closes_group(layer: usize, period: Option<usize>) -> (closes: bool)
    ensures
        closes == closes_group(layer as int, period),
{
    match period {
        Some(period) => {
            if period == 0 {
                true
            } else {
                let closes: bool = layer % period == period - 1;
                proof {
                    lemma_last_of_group(layer as int, period as int);
                }
                closes
            }
        },
        None => true,
    }
}

proof fn lemma_last_of_group(layer: int, period: int)
    requires
        0 <= layer,
        0 < period,
    ensures
        (layer + 1) % period == 0 <==> layer % period == period - 1,
{
    let q = layer / period;
    let r = layer % period;
    vstd::arithmetic::div_mod::lemma_fundamental_div_mod(layer, period);
    assert(0 <= r < period);
    if r == period - 1 {
        assert((layer + 1) == period * (q + 1)) by (nonlinear_arith)
            requires
                layer == period * q + r,
                r == period - 1,
        ;
        vstd::arithmetic::div_mod::lemma_fundamental_div_mod_converse(layer + 1, period, q + 1, 0);
    } else {
        assert(layer + 1 == period * q + (r + 1));
        vstd::arithmetic::div_mod::lemma_fundamental_div_mod_converse(layer + 1, period, q, r + 1);
    }
}

impl<C: Copy> CausalDecoderConfig<C> {
    /// The layer has full attention; the others have linear attention.
    pub open spec fn full_attention_at(&self, layer: int) -> bool {
        closes_group(layer, self.full_attention_interval)
    }

    pub fn is_full_attention_layer(&self, layer: usize) -> (full: bool)
        ensures
            full == self.full_attention_at(layer as int),
    {
        layer_closes_group(layer, self.full_attention_interval)
    }

    /// The layer attends to a window only, and turns by the local base.
    pub open spec fn local_at(&self, layer: int) -> bool {
        !closes_group(layer, self.sliding_window_pattern)
    }

    /// The rotation base of a local layer, where it has its own.
    pub fn layer_rope_theta_override(&self, layer: usize) -> (theta: Option<C>)
        ensures
            theta == if self.local_at(layer as int) {
                self.rope_local_base_freq
            } else {
                None
            },
    {
        if layer_closes_group(layer, self.sliding_window_pattern) {
            None
        } else {
            self.rope_local_base_freq
        }
    }

    /// The window of a local layer.
    pub fn layer_sliding_window(&self, layer: usize) -> (window: Option<usize>)
        ensures
            window == if self.local_at(layer as int) {
                self.sliding_window
            } else {
                None
            },
    {
        if layer_closes_group(layer, self.sliding_window_pattern) {
            None
        } else {
            self.sliding_window
        }
    }

    /// The position scale of a global layer; without a pattern every layer is global.
    pub fn layer_rope_position_scale(&self, layer: usize) -> (scale: Option<C>)
        ensures
            scale == if self.local_at(layer as int) {
                None
            } else {
                self.rope_position_scale
            },
    {
        if layer_closes_group(layer, self.sliding_window_pattern) {
            self.rope_position_scale
        } else {
            None
        }
    }

    /// The shape of a layer that has one of its own.
    pub open spec fn shape_at(&self, layer: int) -> Option<LayerShape> {
        if 0 <= layer < self.layer_shapes@.len() {
            Some(self.layer_shapes@[layer])
        } else {
            None
        }
    }

    fn layer_shape(&self, layer: usize) -> (shape: Option<LayerShape>)
        ensures
            shape == self.shape_at(layer as int),
    {
        if layer < self.layer_shapes.len() {
            Some(self.layer_shapes[layer])
        } else {
            None
        }
    }

    /// Size of a head in a layer, where the model fixes it.
    pub open spec fn head_dim_at(&self, layer: int) -> Option<usize> {
        match self.shape_at(layer) {
            Some(shape) => if shape.head_dim is Some {
                shape.head_dim
            } else {
                self.head_dim
            },
            None => self.head_dim,
        }
    }

    pub fn layer_head_dim(&self, layer: usize) -> (head_dim: Option<usize>)
        ensures
            head_dim == self.head_dim_at(layer as int),
    {
        match self.layer_shape(layer) {
            Some(shape) => match shape.head_dim {
                Some(dim) => Some(dim),
                None => self.head_dim,
            },
            None => self.head_dim,
        }
    }

    pub open spec fn kv_heads_at(&self, layer: int) -> usize {
        match self.shape_at(layer) {
            Some(shape) => match shape.num_key_value_heads {
                Some(heads) => heads,
                None => self.num_key_value_heads,
            },
            None => self.num_key_value_heads,
        }
    }

    pub fn layer_num_key_value_heads(&self, layer: usize) -> (heads: usize)
        ensures
            heads == self.kv_heads_at(layer as int),
    {
        match self.layer_shape(layer) {
            Some(shape) => match shape.num_key_value_heads {
                Some(heads) => heads,
                None => self.num_key_value_heads,
            },
            None => self.num_key_value_heads,
        }
    }

    pub open spec fn rope_dims_at(&self, layer: int, head_dim: usize) -> usize {
        let general = match self.rope_dims {
            Some(dims) => dims,
            None => head_dim,
        };
        match self.shape_at(layer) {
            Some(shape) => match shape.rope_dims {
                Some(dims) => dims,
                None => general,
            },
            None => general,
        }
    }

    pub fn layer_rope_dims(&self, layer: usize, head_dim: usize) -> (dims: usize)
        ensures
            dims == self.rope_dims_at(layer as int, head_dim),
    {
        let general: usize = match self.rope_dims {
            Some(dims) => dims,
            None => head_dim,
        };
        match self.layer_shape(layer) {
            Some(shape) => match shape.rope_dims {
                Some(dims) => dims,
                None => general,
            },
            None => general,
        }
    }

    pub open spec fn rope_frequency_dim_at(&self, layer: int, head_dim: usize) -> usize {
        match self.shape_at(layer) {
            Some(shape) => match shape.rope_frequency_dim {
                Some(dim) => dim,
                None => self.rope_dims_at(layer, head_dim),
            },
            None => self.rope_dims_at(layer, head_dim),
        }
    }

    pub fn layer_rope_frequency_dim(&self, layer: usize, head_dim: usize) -> (dim: usize)
        ensures
            dim == self.rope_frequency_dim_at(layer as int, head_dim),
    {
        match self.layer_shape(layer) {
            Some(shape) => match shape.rope_frequency_dim {
                Some(dim) => dim,
                None => self.layer_rope_dims(layer, head_dim),
            },
            None => self.layer_rope_dims(layer, head_dim),
        }
    }

    pub open spec fn keys_as_values_at(&self, layer: int) -> bool {
        match self.shape_at(layer) {
            Some(shape) => shape.keys_as_values,
            None => false,
        }
    }

    pub fn layer_keys_as_values(&self, layer: usize) -> (shared: bool)
        ensures
            shared == self.keys_as_values_at(layer as int),
    {
        match self.layer_shape(layer) {
            Some(shape) => shape.keys_as_values,
            None => false,
        }
    }

    /// Sizes of the linear attention blocks, where all are given.
    pub open spec fn linear_sizes(&self) -> Option<LinearAttentionConfig> {
        match (
            self.linear_num_key_heads,
            self.linear_num_value_heads,
            self.linear_key_head_dim,
            self.linear_value_head_dim,
            self.linear_conv_kernel_dim,
        ) {
            (
                Some(num_key_heads),
                Some(num_value_heads),
                Some(key_head_dim),
                Some(value_head_dim),
                Some(conv_kernel_dim),
            ) => Some(
                LinearAttentionConfig {
                    num_key_heads,
                    num_value_heads,
                    key_head_dim,
                    value_head_dim,
                    conv_kernel_dim,
                },
            ),
            _ => None,
        }
    }

    pub fn linear_attention_config(&self) -> (config: Result<LinearAttentionConfig, InferError>)
        ensures
            config is Ok <==> self.linear_sizes() is Some,
            config matches Ok(config) ==> self.linear_sizes() == Some(config),
            config matches Err(error) ==> error is Config,
    {
        match (
            self.linear_num_key_heads,
            self.linear_num_value_heads,
            self.linear_key_head_dim,
            self.linear_value_head_dim,
            self.linear_conv_kernel_dim,
        ) {
            (
                Some(num_key_heads),
                Some(num_value_heads),
                Some(key_head_dim),
                Some(value_head_dim),
                Some(conv_kernel_dim),
            ) => Ok(
                LinearAttentionConfig {
                    num_key_heads,
                    num_value_heads,
                    key_head_dim,
                    value_head_dim,
                    conv_kernel_dim,
                },
            ),
            _ => Err(InferError::Config("sizes of the linear attention are incomplete")),
        }
    }
}

} // verus!
