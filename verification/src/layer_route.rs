//! Layers of which a device does a part at one call, with the host behind it.

use vstd::prelude::*;
use crate::attention::{or_else, FullAttention};
use crate::config::{CausalDecoderConfig, RopeStyle};
use crate::error::{Fault, InferError};
use crate::kernel::{functional, Kernel};
use crate::kv::{LayerKvCache, LayerView};
use crate::layer::{forward_prefill, layer_rows, AttentionBlock, DecoderLayer};
use crate::linear::FeedForward;
use crate::resident::{routes_only, shares_expert};
use crate::tensor::Tensor;
use crate::weights::MoeMlp;

verus! {

/// The experts that a device takes at one call.
#[derive(Clone, Copy, PartialEq, Eq, Structural, Debug)]
pub enum TailRoute {
    /// Routed experts only.
    Routed,
    /// Routed experts and one that every token passes.
    Shared,
}

/// The sizes and numbers of a call that takes a batch of positions through a whole layer.
pub struct PrefillCall<C> {
    pub route: TailRoute,
    pub seq: usize,
    pub hidden_dim: usize,
    pub q_heads: usize,
    pub kv_heads: usize,
    pub head_dim: usize,
    pub rope_dims: usize,
    pub rope_theta: C,
    pub eps: C,
}

/// What a device answers to a [`PrefillCall`]: the output of the layer, and the keys and
/// values of the positions.
pub struct PrefillAnswer<C> {
    pub output: Tensor<C>,
    pub key: Tensor<C>,
    pub value: Tensor<C>,
}

/// How a device takes experts, where it can.
pub open spec fn moe_route<C>(moe: MoeMlp<C>) -> Option<TailRoute> {
    if routes_only(moe) {
        Some(TailRoute::Routed)
    } else if shares_expert(moe) {
        Some(TailRoute::Shared)
    } else {
        None
    }
}

/// How a device takes the experts behind the attention of a layer, where it has them and the
/// norm before them.
pub open spec fn experts_route<C>(layer: DecoderLayer<C>) -> Option<TailRoute> {
    match (layer.post_attention_norm, layer.mlp) {
        (Some(_), Some(FeedForward::Moe(moe))) => moe_route(moe),
        _ => None,
    }
}

fn route_of_experts<C>(layer: &DecoderLayer<C>) -> (route: Option<TailRoute>)
    ensures
        route == experts_route(*layer),
{
    match (&layer.post_attention_norm, &layer.mlp) {
        (Some(_), Some(FeedForward::Moe(moe))) => {
            if moe.shared_expert.is_none() && moe.shared_expert_gate.is_none() {
                Some(TailRoute::Routed)
            } else if moe.shared_expert.is_some() && moe.shared_expert_gate.is_some() {
                Some(TailRoute::Shared)
            } else {
                None
            }
        },
        _ => None,
    }
}

/// How the part of a layer behind the context of one position goes to a device, where it
/// does: there is a device, the attention is full, and the device takes the experts.
pub fn tail_route<C>(layer: &DecoderLayer<C>, device: bool) -> (route: Option<TailRoute>)
    ensures
        route == if device && layer.attention is Full {
            experts_route(*layer)
        } else {
            None
        },
{
    match &layer.attention {
        AttentionBlock::Full(_) => if device {
            route_of_experts(layer)
        } else {
            None
        },
        AttentionBlock::Linear(_) => None,
    }
}

/// The base of a rotation that a device can do: of halves, by the positions themselves, and
/// without a window.
pub open spec fn plain_theta<C>(config: CausalDecoderConfig<C>, attention: FullAttention<C>) -> Option<C> {
    if attention.sliding_window is None && attention.rope_position_scale is None && config.rope_style is Halves {
        or_else(attention.rope_theta, config.rope_theta)
    } else {
        None
    }
}

fn base_of_rotation<C: Copy>(config: &CausalDecoderConfig<C>, attention: &FullAttention<C>) -> (theta: Option<C>)
    ensures
        theta == plain_theta(*config, *attention),
{
    let halves: bool = match config.rope_style {
        RopeStyle::Halves => true,
        RopeStyle::Interleaved => false,
    };
    if attention.sliding_window.is_none() && attention.rope_position_scale.is_none() && halves {
        match attention.rope_theta {
            Some(theta) => Some(theta),
            None => config.rope_theta,
        }
    } else {
        None
    }
}

/// How a device takes a batch of positions through a layer with full attention, where it
/// does: the batch starts at the first position, queries and keys have norms, the rotation
/// is plain, and the experts are routed ones without a gate on the attention or shared ones
/// with a gate.
pub open spec fn full_route<C: Copy>(config: CausalDecoderConfig<C>, layer: DecoderLayer<C>, attention: FullAttention<C>, offset: int, device: bool) -> Option<TailRoute> {
    if device && offset == 0 && attention.q_norm is Some && attention.k_norm is Some && plain_theta(config, attention) is Some {
        match experts_route(layer) {
            Some(TailRoute::Routed) => if config.attn_output_gate {
                None
            } else {
                Some(TailRoute::Routed)
            },
            Some(TailRoute::Shared) => if config.attn_output_gate && attention.v_proj is Some {
                Some(TailRoute::Shared)
            } else {
                None
            },
            None => None,
        }
    } else {
        None
    }
}

/// The call that takes a batch of positions through a layer on a device, where the batch goes
/// there; refused where the configuration fixes no head size, or where the values have no
/// projection of their own.
pub open spec fn prefill_plan<C: Copy>(config: CausalDecoderConfig<C>, layer: DecoderLayer<C>, rows: usize, cols: usize, offset: int, device: bool) -> Result<
    Option<PrefillCall<C>>,
    Fault,
> {
    match layer.attention {
        AttentionBlock::Full(attention) => match full_route(config, layer, attention, offset, device) {
            Some(route) => match (config.head_dim, attention.v_proj) {
                (None, _) => Err(Fault::Dimension),
                (Some(_), None) => Err(Fault::Config),
                (Some(head_dim), Some(_)) => Ok(
                    Some(
                        PrefillCall {
                            route,
                            seq: rows,
                            hidden_dim: cols,
                            q_heads: config.num_attention_heads,
                            kv_heads: config.num_key_value_heads,
                            head_dim,
                            rope_dims: match config.rope_dims {
                                Some(dims) => dims,
                                None => head_dim,
                            },
                            rope_theta: plain_theta(config, attention)->0,
                            eps: config.rms_eps,
                        },
                    ),
                ),
            },
            None => Ok(None),
        },
        AttentionBlock::Linear(_) => Ok(None),
    }
}

/// The call that takes a batch of positions through a layer on a device, where the batch goes
/// there. Refused where the configuration fixes no head size, or where the values have no
/// projection of their own.
pub fn prefill_route<C: Copy>(config: &CausalDecoderConfig<C>, layer: &DecoderLayer<C>, x: &Tensor<C>, offset: usize, device: bool) -> (out: Result<
    Option<PrefillCall<C>>,
    InferError,
>)
    requires
        x.is_matrix(),
    ensures
        match out {
            Ok(call) => prefill_plan(*config, *layer, x.shape@[0], x.shape@[1], offset as int, device) == Result::<Option<PrefillCall<C>>, Fault>::Ok(
                call,
            ),
            Err(error) => prefill_plan(*config, *layer, x.shape@[0], x.shape@[1], offset as int, device) == Result::<
                Option<PrefillCall<C>>,
                Fault,
            >::Err(error.fault()),
        },
{
    let attention: &FullAttention<C> = match &layer.attention {
        AttentionBlock::Full(attention) => attention,
        AttentionBlock::Linear(_) => {
            return Ok(None);
        },
    };
    if !device || offset != 0 || attention.q_norm.is_none() || attention.k_norm.is_none() {
        return Ok(None);
    }
    let rope_theta: C = match base_of_rotation(config, attention) {
        Some(theta) => theta,
        None => {
            return Ok(None);
        },
    };
    let route: TailRoute = match route_of_experts(layer) {
        Some(route) => route,
        None => {
            return Ok(None);
        },
    };
    match route {
        TailRoute::Routed => if config.attn_output_gate {
            return Ok(None);
        },
        TailRoute::Shared => if !config.attn_output_gate || attention.v_proj.is_none() {
            return Ok(None);
        },
    }
    let head_dim: usize = match config.head_dim {
        Some(head_dim) => head_dim,
        None => {
            return Err(InferError::Dimension("head size missing"));
        },
    };
    if attention.v_proj.is_none() {
        return Err(InferError::Config("values without a projection of their own"));
    }
    Ok(
        Some(
            PrefillCall {
                route,
                seq: x.shape[0],
                hidden_dim: x.shape[1],
                q_heads: config.num_attention_heads,
                kv_heads: config.num_key_value_heads,
                head_dim,
                rope_dims: match config.rope_dims {
                    Some(dims) => dims,
                    None => head_dim,
                },
                rope_theta,
                eps: config.rms_eps,
            },
        ),
    )
}

/// The keys and values of an answer are as many rows of the call's length, and a cache takes
/// rows of it.
pub open spec fn takes<C: Copy>(view: LayerView<C>, call: PrefillCall<C>, key: Tensor<C>, value: Tensor<C>) -> bool {
    let dim = call.kv_heads * call.head_dim;
    &&& dim <= usize::MAX
    &&& key.shape@[0] > 0
    &&& key.shape@[0] == value.shape@[0]
    &&& key.cols() == dim
    &&& value.cols() == dim
    &&& view.accepts(dim)
}

/// A batch of whole rows leaves a cache of whole rows.
proof fn lemma_rows_appended<C>(view: LayerView<C>, key: Seq<C>, value: Seq<C>, rows: int, dim: usize)
    requires
        view.wf(),
        view.accepts(dim as int),
        0 <= rows,
        key.len() == rows * dim,
        value.len() == rows * dim,
    ensures
        view.append(key, value, dim).wf(),
{
    let after = view.append(key, value, dim);
    if dim > 0 {
        let before = view.count();
        crate::warmth::lemma_count_nonneg(view);
        assert(view.keys.len() == before * dim) by {
            assert(0 * dim == 0);
        }
        assert(before * dim + rows * dim == (before + rows) * dim) by (nonlinear_arith);
        crate::kv::lemma_count(after, before + rows, dim);
    } else {
        assert(rows * 0 == 0) by (nonlinear_arith);
        assert(view.count() * 0 == 0) by (nonlinear_arith);
    }
}

/// Takes the answer to a call that took a batch of positions through a layer: its keys and
/// values stand in the cache behind it, and its output is the layer's. Where the device did
/// not answer, the host takes the batch through the layer.
pub fn settle_prefill<K: Kernel>(
    k: &K,
    config: &CausalDecoderConfig<K::Cell>,
    layer: &DecoderLayer<K::Cell>,
    x: &Tensor<K::Cell>,
    cache: &mut LayerKvCache<K::Cell>,
    offset: usize,
    call: &PrefillCall<K::Cell>,
    answer: Option<PrefillAnswer<K::Cell>>,
) -> (out: Result<Tensor<K::Cell>, InferError>)
    requires
        layer.wf(),
        x.is_matrix(),
        x.shape@[0] > 0 || layer.attention is Full,
        old(cache)@.wf(),
        answer matches Some(made) ==> made.key.is_matrix() && made.value.is_matrix(),
    ensures
        final(cache)@.wf(),
        answer matches Some(made) ==> match out {
            Ok(out) => {
                &&& takes(old(cache)@, *call, made.key, made.value)
                &&& out == made.output
                &&& final(cache)@ == old(cache)@.append(made.key.data@, made.value.data@, (call.kv_heads * call.head_dim) as usize)
            },
            Err(error) => {
                &&& !takes(old(cache)@, *call, made.key, made.value)
                &&& error is Dimension
                &&& final(cache)@ == old(cache)@
            },
        },
        answer is None ==> (out matches Err(error) ==> error.is_misfit(layer.complete(*config))),
        answer is None ==> (out matches Ok(out) ==> out.is_matrix() && out.cols() == x.cols() && out.shape@[0] == x.shape@[0]),
        answer is None && x.shape@[0] == 0 ==> (out matches Err(error) && error is Dimension) && final(cache)@ == old(cache)@,
        answer is None && x.shape@[0] > 0 && functional(*k) ==> match out {
            Ok(out) => layer_rows(*k, *config, *layer, old(cache)@, x.rows(), offset as int) == Some((final(cache)@, out.rows())),
            Err(_) => layer_rows(*k, *config, *layer, old(cache)@, x.rows(), offset as int) is None,
        },
{
    match answer {
        Some(made) => {
            let dim: usize = match call.kv_heads.checked_mul(call.head_dim) {
                Some(dim) => dim,
                None => {
                    return Err(InferError::Dimension("rows leave the machine's range"));
                },
            };
            cache.append_batch(&made.key, &made.value, dim)?;
            proof {
                lemma_rows_appended(old(cache)@, made.key.data@, made.value.data@, made.key.shape@[0] as int, dim);
            }
            Ok(made.output)
        },
        None => forward_prefill(k, config, layer, x, cache, offset),
    }
}

} // verus!
