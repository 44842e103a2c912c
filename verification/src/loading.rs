//! A model put together from weights by name.

use vstd::prelude::*;
use crate::attention::FullAttention;
use crate::config::CausalDecoderConfig;
use crate::decoder::CausalDecoder;
use crate::error::{Fault, InferError};
use crate::flags::DecoderFlags;
use crate::kernel::{binary, binary_of, constant, constant_of, count, count_of, functional, unary, unary_of, Activation, Binary, Constant, Kernel, Unary};
use crate::layer::{AttentionBlock, DecoderLayer};
use crate::linear::FeedForward;
use crate::model::DecoderModel;
use crate::names::joined;
use crate::prefix_cache::EntryView;
use crate::rows::{scale_row, scaled_row};
use crate::store::{fetch_dense, fetch_experts, fetch_linear, fetch_optional, fetch_weight, linear_from, linear_weight_shape, take_dense, take_embedding_weight, take_expert_linear_weights, take_optional_dense, took, weight_dims, weight_view_of, weight_views, DecoderTensor, Taken, TensorStore, WeightView};
use crate::tensor::Tensor;
use crate::weights::{GatedMlp, Linear, LinearAttentionWeights, LinearWeight, MoeMlp, RouterNorm};

verus! {

/// The decimal digits of a number.
pub open spec fn digits_of(n: nat) -> Seq<char>
    decreases n,
{
    if n < 10 {
        seq![digit_char(n)]
    } else {
        digits_of(n / 10).push(digit_char(n % 10))
    }
}

pub open spec fn digit_char(d: nat) -> char {
    (48 + d) as char
}

/// A number in decimal digits.
pub fn decimal(n: usize) -> (text: String)
    ensures
        text@ == digits_of(n as nat),
    decreases n,
{
    let last: &'static str = digit(n % 10);
    if n < 10 {
        String::from_str(last)
    } else {
        let head: String = decimal(n / 10);
        let text: String = joined(head.as_str(), last);
        assert(text@ =~= digits_of(n as nat));
        text
    }
}

fn digit(d: usize) -> (text: &'static str)
    requires
        d < 10,
    ensures
        text@ == seq![digit_char(d as nat)],
{
    proof {
        reveal_strlit("0");
        reveal_strlit("1");
        reveal_strlit("2");
        reveal_strlit("3");
        reveal_strlit("4");
        reveal_strlit("5");
        reveal_strlit("6");
        reveal_strlit("7");
        reveal_strlit("8");
        reveal_strlit("9");
    }
    let text: &'static str = match d {
        0 => "0",
        1 => "1",
        2 => "2",
        3 => "3",
        4 => "4",
        5 => "5",
        6 => "6",
        7 => "7",
        8 => "8",
        _ => "9",
    };
    assert(text@ =~= seq![digit_char(d as nat)]);
    text
}

/// Some of the weights of a gated block stand under a prefix.
pub open spec fn any_gated<C>(store: Map<Seq<char>, DecoderTensor<C>>, prefix: Seq<char>) -> bool {
    ||| store.contains_key(prefix + ".gate_proj.weight"@)
    ||| store.contains_key(prefix + ".up_proj.weight"@)
    ||| store.contains_key(prefix + ".down_proj.weight"@)
}

fn has_gated<C>(tensors: &TensorStore<C>, prefix: &String) -> (yes: bool)
    requires
        tensors.wf(),
    ensures
        yes == any_gated(tensors@, prefix@),
{
    tensors.contains(&joined(prefix.as_str(), ".gate_proj.weight")) || tensors.contains(&joined(prefix.as_str(), ".up_proj.weight"))
        || tensors.contains(&joined(prefix.as_str(), ".down_proj.weight"))
}

/// A gated block under a prefix, and the other weights.
pub open spec fn fetch_gated<C>(store: Map<Seq<char>, DecoderTensor<C>>, prefix: Seq<char>, activation: Activation) -> Taken<C, GatedMlp<C>> {
    match fetch_linear(store, prefix + ".gate_proj"@) {
        Ok((store, gate_proj)) => match fetch_linear(store, prefix + ".up_proj"@) {
            Ok((store, up_proj)) => match fetch_linear(store, prefix + ".down_proj"@) {
                Ok((store, down_proj)) => Ok((store, GatedMlp { gate_proj, up_proj, down_proj, activation })),
                Err(fault) => Err(fault),
            },
            Err(fault) => Err(fault),
        },
        Err(fault) => Err(fault),
    }
}

fn gated_from<C: Copy>(tensors: &mut TensorStore<C>, prefix: &String, activation: Activation) -> (out: Result<GatedMlp<C>, InferError>)
    requires
        old(tensors).wf(),
    ensures
        final(tensors).wf(),
        out matches Ok(mlp) ==> mlp.wf(),
        took(out, final(tensors)@, fetch_gated(old(tensors)@, prefix@, activation)),
{
    let gate_proj: Linear<C> = linear_from(tensors, &joined(prefix.as_str(), ".gate_proj"))?;
    let up_proj: Linear<C> = linear_from(tensors, &joined(prefix.as_str(), ".up_proj"))?;
    let down_proj: Linear<C> = linear_from(tensors, &joined(prefix.as_str(), ".down_proj"))?;
    Ok(GatedMlp { gate_proj, up_proj, down_proj, activation })
}

/// A linear map by its numbers.
pub struct LinearView<C> {
    pub weight: WeightView<C>,
    pub bias: Option<Seq<C>>,
    pub in_dim: usize,
    pub out_dim: usize,
}

pub open spec fn linear_view<C>(linear: Linear<C>) -> LinearView<C> {
    LinearView {
        weight: weight_view_of(linear.weight),
        bias: match linear.bias {
            Some(bias) => Some(bias.data@),
            None => None,
        },
        in_dim: linear.in_dim,
        out_dim: linear.out_dim,
    }
}

/// An expert by its numbers.
pub struct ExpertView<C> {
    pub gate: LinearView<C>,
    pub up: LinearView<C>,
    pub down: LinearView<C>,
    pub activation: Activation,
}

pub open spec fn expert_view<C>(mlp: GatedMlp<C>) -> ExpertView<C> {
    ExpertView {
        gate: linear_view(mlp.gate_proj),
        up: linear_view(mlp.up_proj),
        down: linear_view(mlp.down_proj),
        activation: mlp.activation,
    }
}

pub open spec fn expert_views<C>(experts: Seq<GatedMlp<C>>) -> Seq<ExpertView<C>> {
    Seq::new(experts.len(), |i: int| expert_view(experts[i]))
}

/// Rows and columns of a weight.
pub open spec fn view_dims<C>(weight: WeightView<C>) -> Option<(usize, usize)> {
    match weight {
        WeightView::Dense(shape, _) => if shape.len() == 2 {
            Some((shape[0], shape[1]))
        } else {
            None
        },
        WeightView::AffineQuantized(matrix) => Some((matrix.rows, matrix.cols)),
    }
}

/// Three weights make an expert: gate and up have one shape, and down takes their rows.
pub open spec fn fits_expert<C>(gate: WeightView<C>, up: WeightView<C>, down: WeightView<C>) -> bool {
    &&& view_dims(gate) is Some
    &&& view_dims(up) == view_dims(gate)
    &&& view_dims(down) is Some
    &&& (view_dims(down)->0).1 == (view_dims(gate)->0).0
}

pub open spec fn unbiased<C>(weight: WeightView<C>) -> LinearView<C> {
    LinearView { weight, bias: None, in_dim: (view_dims(weight)->0).1, out_dim: (view_dims(weight)->0).0 }
}

/// Experts from their weights, kind by kind.
pub open spec fn experts_of<C>(
    gates: Seq<WeightView<C>>,
    ups: Seq<WeightView<C>>,
    downs: Seq<WeightView<C>>,
    expert_count: usize,
    activation: Activation,
) -> Result<Seq<ExpertView<C>>, Fault> {
    if gates.len() == expert_count && ups.len() == expert_count && downs.len() == expert_count && forall|i: int|
        0 <= i < expert_count ==> fits_expert(#[trigger] gates[i], ups[i], downs[i]) {
        Ok(
            Seq::new(
                expert_count as nat,
                |i: int| ExpertView { gate: unbiased(gates[i]), up: unbiased(ups[i]), down: unbiased(downs[i]), activation },
            ),
        )
    } else {
        Err(Fault::Dimension)
    }
}

fn make_expert<C: Copy>(gate: LinearWeight<C>, up: LinearWeight<C>, down: LinearWeight<C>, activation: Activation) -> (out: Result<
    GatedMlp<C>,
    InferError,
>)
    ensures
        out is Ok <==> fits_expert(weight_view_of(gate), weight_view_of(up), weight_view_of(down)),
        out matches Ok(mlp) ==> mlp.wf() && expert_view(mlp) == (ExpertView {
            gate: unbiased(weight_view_of(gate)),
            up: unbiased(weight_view_of(up)),
            down: unbiased(weight_view_of(down)),
            activation,
        }),
        out matches Err(error) ==> error is Dimension,
{
    let (gate_rows, gate_cols) = linear_weight_shape(&gate)?;
    let (up_rows, up_cols) = linear_weight_shape(&up)?;
    let (_, down_cols) = linear_weight_shape(&down)?;
    if gate_rows != up_rows || gate_cols != up_cols || down_cols != gate_rows {
        return Err(InferError::Dimension("weights of an expert do not fit"));
    }
    let gate_proj: Linear<C> = Linear::from_weight(gate, None)?;
    let up_proj: Linear<C> = Linear::from_weight(up, None)?;
    let down_proj: Linear<C> = Linear::from_weight(down, None)?;
    Ok(GatedMlp { gate_proj, up_proj, down_proj, activation })
}

/// Experts from their weights, kind by kind. Refused where the numbers of weights differ
/// from the number of experts, or where the weights of an expert do not fit.
pub fn split_experts_with_activation<C: Copy>(
    gate_weights: Vec<LinearWeight<C>>,
    up_weights: Vec<LinearWeight<C>>,
    down_weights: Vec<LinearWeight<C>>,
    expert_count: usize,
    activation: Activation,
) -> (out: Result<Vec<GatedMlp<C>>, InferError>)
    ensures
        ({
            let owed = experts_of(weight_views(gate_weights@), weight_views(up_weights@), weight_views(down_weights@), expert_count, activation);
            match out {
                Ok(experts) => owed == Result::<Seq<ExpertView<C>>, Fault>::Ok(expert_views(experts@)),
                Err(error) => owed == Result::<Seq<ExpertView<C>>, Fault>::Err(error.fault()),
            }
        }),
{
    if gate_weights.len() != expert_count || up_weights.len() != expert_count || down_weights.len() != expert_count {
        return Err(InferError::Dimension("another number of experts"));
    }
    let ghost gates = weight_views(gate_weights@);
    let ghost ups = weight_views(up_weights@);
    let ghost downs = weight_views(down_weights@);
    let mut gate_left: Vec<LinearWeight<C>> = gate_weights;
    let mut up_left: Vec<LinearWeight<C>> = up_weights;
    let mut down_left: Vec<LinearWeight<C>> = down_weights;
    let mut experts: Vec<GatedMlp<C>> = Vec::new();
    let mut i: usize = 0;
    while i < expert_count
        invariant
            i <= expert_count,
            gates.len() == expert_count,
            ups.len() == expert_count,
            downs.len() == expert_count,
            gate_left@.len() == expert_count - i,
            up_left@.len() == expert_count - i,
            down_left@.len() == expert_count - i,
            forall|j: int| 0 <= j < gate_left@.len() ==> weight_view_of(#[trigger] gate_left@[j]) == gates[i + j],
            forall|j: int| 0 <= j < up_left@.len() ==> weight_view_of(#[trigger] up_left@[j]) == ups[i + j],
            forall|j: int| 0 <= j < down_left@.len() ==> weight_view_of(#[trigger] down_left@[j]) == downs[i + j],
            experts@.len() == i,
            forall|j: int| 0 <= j < i ==> fits_expert(#[trigger] gates[j], ups[j], downs[j]),
            forall|j: int|
                0 <= j < i ==> expert_view(#[trigger] experts@[j]) == (ExpertView {
                    gate: unbiased(gates[j]),
                    up: unbiased(ups[j]),
                    down: unbiased(downs[j]),
                    activation,
                }),
            gates == weight_views(gate_weights@),
            ups == weight_views(up_weights@),
            downs == weight_views(down_weights@),
        decreases expert_count - i,
    {
        let gate: LinearWeight<C> = gate_left.remove(0);
        let up: LinearWeight<C> = up_left.remove(0);
        let down: LinearWeight<C> = down_left.remove(0);
        assert(weight_view_of(gate) == gates[i as int]);
        assert(weight_view_of(up) == ups[i as int]);
        assert(weight_view_of(down) == downs[i as int]);
        let expert: GatedMlp<C> = make_expert(gate, up, down, activation)?;
        experts.push(expert);
        i = i + 1;
    }
    assert(expert_views(experts@) =~= Seq::new(
        expert_count as nat,
        |i: int| ExpertView { gate: unbiased(gates[i]), up: unbiased(ups[i]), down: unbiased(downs[i]), activation },
    ));
    Ok(experts)
}

/// Experts with the usual gate function, from their weights, kind by kind.
pub fn split_experts<C: Copy>(
    gate_weights: Vec<LinearWeight<C>>,
    up_weights: Vec<LinearWeight<C>>,
    down_weights: Vec<LinearWeight<C>>,
    expert_count: usize,
) -> (out: Result<Vec<GatedMlp<C>>, InferError>)
    ensures
        ({
            let owed = experts_of(
                weight_views(gate_weights@),
                weight_views(up_weights@),
                weight_views(down_weights@),
                expert_count,
                Activation::Silu,
            );
            match out {
                Ok(experts) => owed == Result::<Seq<ExpertView<C>>, Fault>::Ok(expert_views(experts@)),
                Err(error) => owed == Result::<Seq<ExpertView<C>>, Fault>::Err(error.fault()),
            }
        }),
{
    split_experts_with_activation(gate_weights, up_weights, down_weights, expert_count, Activation::Silu)
}

/// Experts whose weights stand under a prefix, and the other weights.
pub open spec fn fetch_expert_blocks<C>(store: Map<Seq<char>, DecoderTensor<C>>, prefix: Seq<char>, expert_count: usize, activation: Activation) -> Taken<C, Seq<ExpertView<C>>> {
    match fetch_experts(store, prefix + ".gate_proj.weight"@, expert_count) {
        Ok((store, gates)) => match fetch_experts(store, prefix + ".up_proj.weight"@, expert_count) {
            Ok((store, ups)) => match fetch_experts(store, prefix + ".down_proj.weight"@, expert_count) {
                Ok((store, downs)) => match experts_of(gates, ups, downs, expert_count, activation) {
                    Ok(experts) => Ok((store, experts)),
                    Err(fault) => Err(fault),
                },
                Err(fault) => Err(fault),
            },
            Err(fault) => Err(fault),
        },
        Err(fault) => Err(fault),
    }
}

fn expert_blocks_from<C: Copy>(tensors: &mut TensorStore<C>, prefix: &String, expert_count: usize, activation: Activation) -> (out: Result<
    Vec<GatedMlp<C>>,
    InferError,
>)
    requires
        old(tensors).wf(),
    ensures
        final(tensors).wf(),
        match out {
            Ok(experts) => fetch_expert_blocks(old(tensors)@, prefix@, expert_count, activation) == Taken::<C, Seq<ExpertView<C>>>::Ok(
                (final(tensors)@, expert_views(experts@)),
            ),
            Err(error) => fetch_expert_blocks(old(tensors)@, prefix@, expert_count, activation) == Taken::<C, Seq<ExpertView<C>>>::Err(
                error.fault(),
            ),
        },
{
    let gates: Vec<LinearWeight<C>> = take_expert_linear_weights(tensors, &joined(prefix.as_str(), ".gate_proj.weight"), expert_count)?;
    let ups: Vec<LinearWeight<C>> = take_expert_linear_weights(tensors, &joined(prefix.as_str(), ".up_proj.weight"), expert_count)?;
    let downs: Vec<LinearWeight<C>> = take_expert_linear_weights(tensors, &joined(prefix.as_str(), ".down_proj.weight"), expert_count)?;
    split_experts_with_activation(gates, ups, downs, expert_count, activation)
}

/// A mixture-of-experts block by its numbers.
pub struct MoeView<C> {
    pub router: Linear<C>,
    pub experts: Seq<ExpertView<C>>,
    pub shared_expert: Option<GatedMlp<C>>,
    pub shared_expert_gate: Option<Linear<C>>,
    pub router_norm: Option<(Seq<C>, C)>,
    pub per_expert_scale: Option<Tensor<C>>,
    pub top_k: usize,
}

/// A feed-forward block by its numbers.
pub enum FeedView<C> {
    Dense(GatedMlp<C>),
    Moe(MoeView<C>),
}

pub open spec fn feed_view<C>(block: FeedForward<C>) -> FeedView<C> {
    match block {
        FeedForward::Dense(mlp) => FeedView::Dense(mlp),
        FeedForward::Moe(moe) => FeedView::Moe(
            MoeView {
                router: moe.router,
                experts: expert_views(moe.experts@),
                shared_expert: moe.shared_expert,
                shared_expert_gate: moe.shared_expert_gate,
                router_norm: match moe.router_norm {
                    Some(norm) => Some((norm.weight.data@, norm.eps)),
                    None => None,
                },
                per_expert_scale: moe.per_expert_scale,
                top_k: moe.top_k,
            },
        ),
    }
}

pub open spec fn optional_feed_view<C>(block: Option<FeedForward<C>>) -> Option<FeedView<C>> {
    match block {
        Some(block) => Some(feed_view(block)),
        None => None,
    }
}

/// The expert that every token passes, with its gate, where its weights are there.
pub open spec fn fetch_shared<C>(store: Map<Seq<char>, DecoderTensor<C>>, prefix: Seq<char>) -> Taken<C, Option<(GatedMlp<C>, Linear<C>)>> {
    if any_gated(store, prefix) {
        match fetch_gated(store, prefix, Activation::Silu) {
            Ok((store, mlp)) => match fetch_linear(store, prefix + "_gate"@) {
                Ok((store, gate)) => Ok((store, Some((mlp, gate)))),
                Err(fault) => Err(fault),
            },
            Err(fault) => Err(fault),
        }
    } else {
        Ok((store, None))
    }
}

fn optional_shared_expert<C: Copy>(tensors: &mut TensorStore<C>, prefix: &String) -> (out: Result<Option<(GatedMlp<C>, Linear<C>)>, InferError>)
    requires
        old(tensors).wf(),
    ensures
        final(tensors).wf(),
        took(out, final(tensors)@, fetch_shared(old(tensors)@, prefix@)),
{
    if !has_gated(tensors, prefix) {
        return Ok(None);
    }
    let mlp: GatedMlp<C> = gated_from(tensors, prefix, Activation::Silu)?;
    let gate: Linear<C> = linear_from(tensors, &joined(prefix.as_str(), "_gate"))?;
    Ok(Some((mlp, gate)))
}

/// A block of routed experts in a layer, where some of its weights are there.
pub open spec fn fetch_moe<C>(config: CausalDecoderConfig<C>, store: Map<Seq<char>, DecoderTensor<C>>, prefix: Seq<char>) -> Taken<C, (Option<Tensor<C>>, Option<FeedView<C>>)> {
    if !store.contains_key(prefix + ".mlp.gate.weight"@) && !any_gated(store, prefix + ".mlp.switch_mlp"@) {
        Ok((store, (None, None)))
    } else if config.num_experts is None {
        Err(Fault::Config)
    } else {
        match fetch_dense(store, prefix + ".post_attention_layernorm.weight"@) {
            Ok((store, norm)) => match fetch_linear(store, prefix + ".mlp.gate"@) {
                Ok((store, router)) => match fetch_expert_blocks(store, prefix + ".mlp.switch_mlp"@, config.num_experts->0, Activation::Silu) {
                    Ok((store, experts)) => match fetch_shared(store, prefix + ".mlp.shared_expert"@) {
                        Ok((store, shared)) => Ok((
                    store,
                    (
                        Some(norm),
                        Some(FeedView::Moe(MoeView {
                            router,
                            experts,
                            shared_expert: match shared {
                                Some((mlp, _)) => Some(mlp),
                                None => None,
                            },
                            shared_expert_gate: match shared {
                                Some((_, gate)) => Some(gate),
                                None => None,
                            },
                            router_norm: None,
                            per_expert_scale: None,
                            top_k: config.num_experts_per_tok,
                        })),
                    ),
                )),
                        Err(fault) => Err(fault),
                    },
                    Err(fault) => Err(fault),
                },
                Err(fault) => Err(fault),
            },
            Err(fault) => Err(fault),
        }
    }
}

/// Takes a block of routed experts, with the norm before it, where some of its weights
/// are there.
pub fn optional_moe_from<C: Copy>(config: &CausalDecoderConfig<C>, tensors: &mut TensorStore<C>, layer_prefix: &String) -> (out: Result<
    (Option<Tensor<C>>, Option<FeedForward<C>>),
    InferError,
>)
    requires
        old(tensors).wf(),
    ensures
        final(tensors).wf(),
        out matches Ok((_, Some(block))) ==> block.wf(),
        match out {
            Ok((norm, block)) => fetch_moe(*config, old(tensors)@, layer_prefix@) == Taken::<C, (Option<Tensor<C>>, Option<FeedView<C>>)>::Ok(
                (final(tensors)@, (norm, optional_feed_view(block))),
            ),
            Err(error) => fetch_moe(*config, old(tensors)@, layer_prefix@) == Taken::<C, (Option<Tensor<C>>, Option<FeedView<C>>)>::Err(
                error.fault(),
            ),
        },
{
    let switch: String = joined(layer_prefix.as_str(), ".mlp.switch_mlp");
    if !tensors.contains(&joined(layer_prefix.as_str(), ".mlp.gate.weight")) && !has_gated(tensors, &switch) {
        return Ok((None, None));
    }
    let expert_count: usize = match config.num_experts {
        Some(expert_count) => expert_count,
        None => {
            return Err(InferError::Config("weights of experts without their number"));
        },
    };
    let norm: Tensor<C> = take_dense(tensors, &joined(layer_prefix.as_str(), ".post_attention_layernorm.weight"))?;
    let router: Linear<C> = linear_from(tensors, &joined(layer_prefix.as_str(), ".mlp.gate"))?;
    let experts: Vec<GatedMlp<C>> = expert_blocks_from(tensors, &switch, expert_count, Activation::Silu)?;
    let shared: Option<(GatedMlp<C>, Linear<C>)> = optional_shared_expert(tensors, &joined(layer_prefix.as_str(), ".mlp.shared_expert"))?;
    let (shared_expert, shared_expert_gate) = match shared {
        Some((mlp, gate)) => (Some(mlp), Some(gate)),
        None => (None, None),
    };
    let moe: MoeMlp<C> = MoeMlp {
        router,
        experts,
        shared_expert,
        shared_expert_gate,
        router_norm: None,
        per_expert_scale: None,
        top_k: config.num_experts_per_tok,
    };
    Ok((Some(norm), Some(FeedForward::Moe(moe))))
}

/// The feed-forward block of a layer, with the norm before it.
pub open spec fn fetch_feed<C>(config: CausalDecoderConfig<C>, store: Map<Seq<char>, DecoderTensor<C>>, prefix: Seq<char>) -> Taken<C, (Option<Tensor<C>>, Option<FeedView<C>>)> {
    if any_gated(store, prefix + ".mlp"@) {
        match fetch_dense(store, prefix + ".post_attention_layernorm.weight"@) {
            Ok((store, norm)) => match fetch_gated(store, prefix + ".mlp"@, config.activation) {
                Ok((store, mlp)) => Ok((store, (Some(norm), Some(FeedView::Dense(mlp))))),
                Err(fault) => Err(fault),
            },
            Err(fault) => Err(fault),
        }
    } else {
        fetch_moe(config, store, prefix)
    }
}

/// Takes the feed-forward block of a layer, with the norm before it: a gated block where
/// some of its weights are there, else routed experts, else none.
pub fn optional_mlp_from<C: Copy>(config: &CausalDecoderConfig<C>, tensors: &mut TensorStore<C>, layer_prefix: &String) -> (out: Result<
    (Option<Tensor<C>>, Option<FeedForward<C>>),
    InferError,
>)
    requires
        old(tensors).wf(),
    ensures
        final(tensors).wf(),
        out matches Ok((_, Some(block))) ==> block.wf(),
        match out {
            Ok((norm, block)) => fetch_feed(*config, old(tensors)@, layer_prefix@) == Taken::<C, (Option<Tensor<C>>, Option<FeedView<C>>)>::Ok(
                (final(tensors)@, (norm, optional_feed_view(block))),
            ),
            Err(error) => fetch_feed(*config, old(tensors)@, layer_prefix@) == Taken::<C, (Option<Tensor<C>>, Option<FeedView<C>>)>::Err(
                error.fault(),
            ),
        },
{
    let prefix: String = joined(layer_prefix.as_str(), ".mlp");
    if !has_gated(tensors, &prefix) {
        return optional_moe_from(config, tensors, layer_prefix);
    }
    let norm: Tensor<C> = take_dense(tensors, &joined(layer_prefix.as_str(), ".post_attention_layernorm.weight"))?;
    let mlp: GatedMlp<C> = gated_from(tensors, &prefix, config.activation)?;
    Ok((Some(norm), Some(FeedForward::Dense(mlp))))
}

/// One over the root of the length of a row, as a power.
pub open spec fn root_scale<K: Kernel>(k: K, len: usize) -> K::Cell {
    binary_of(k, Binary::Pow, count_of(k, len), unary_of(k, Unary::Negate, constant_of(k, Constant::Half)))
}

/// The block of experts beside the feed-forward block of a layer, where some of its
/// weights are there.
pub open spec fn fetch_parallel<K: Kernel>(k: K, config: CausalDecoderConfig<K::Cell>, store: Map<Seq<char>, DecoderTensor<K::Cell>>, prefix: Seq<char>) -> Taken<K::Cell, Option<FeedView<K::Cell>>> {
    if !store.contains_key(prefix + ".router.proj.weight"@) && !any_gated(store, prefix + ".experts.switch_glu"@) {
        Ok((store, None))
    } else if config.num_experts is None {
        Err(Fault::Config)
    } else {
        match fetch_linear(store, prefix + ".router.proj"@) {
            Ok((store, router)) => match fetch_expert_blocks(store, prefix + ".experts.switch_glu"@, config.num_experts->0, config.activation) {
                Ok((store, experts)) => match fetch_dense(store, prefix + ".router.scale"@) {
                    Ok((store, scale)) => match fetch_dense(store, prefix + ".router.per_expert_scale"@) {
                        Ok((store, per_expert_scale)) => Ok((
                    store,
                    Some(FeedView::Moe(MoeView {
                        router,
                        experts,
                        shared_expert: None,
                        shared_expert_gate: None,
                        router_norm: Some((scaled_row(k, scale.data@, root_scale(k, scale.data@.len() as usize)), config.rms_eps)),
                        per_expert_scale: Some(per_expert_scale),
                        top_k: config.num_experts_per_tok,
                    })),
                )),
                        Err(fault) => Err(fault),
                    },
                    Err(fault) => Err(fault),
                },
                Err(fault) => Err(fault),
            },
            Err(fault) => Err(fault),
        }
    }
}

/// Takes the block of experts beside the feed-forward block of a layer, where some of
/// its weights are there. The scale of the router is divided by the root of its length.
pub fn optional_gemma4_parallel_moe_from<K: Kernel>(k: &K, config: &CausalDecoderConfig<K::Cell>, tensors: &mut TensorStore<K::Cell>, layer_prefix: &String) -> (out: Result<
    Option<FeedForward<K::Cell>>,
    InferError,
>)
    requires
        old(tensors).wf(),
    ensures
        final(tensors).wf(),
        out matches Ok(Some(block)) ==> block.wf(),
        functional(*k) ==> match out {
            Ok(block) => fetch_parallel(*k, *config, old(tensors)@, layer_prefix@) == Taken::<K::Cell, Option<FeedView<K::Cell>>>::Ok(
                (final(tensors)@, optional_feed_view(block)),
            ),
            Err(error) => fetch_parallel(*k, *config, old(tensors)@, layer_prefix@) == Taken::<K::Cell, Option<FeedView<K::Cell>>>::Err(
                error.fault(),
            ),
        },
{
    let switch: String = joined(layer_prefix.as_str(), ".experts.switch_glu");
    if !tensors.contains(&joined(layer_prefix.as_str(), ".router.proj.weight")) && !has_gated(tensors, &switch) {
        return Ok(None);
    }
    let expert_count: usize = match config.num_experts {
        Some(expert_count) => expert_count,
        None => {
            return Err(InferError::Config("weights of experts without their number"));
        },
    };
    let router: Linear<K::Cell> = linear_from(tensors, &joined(layer_prefix.as_str(), ".router.proj"))?;
    let experts: Vec<GatedMlp<K::Cell>> = expert_blocks_from(tensors, &switch, expert_count, config.activation)?;
    let scale: Tensor<K::Cell> = take_dense(tensors, &joined(layer_prefix.as_str(), ".router.scale"))?;
    let len: usize = scale.data.len();
    let half: K::Cell = constant(k, Constant::Half);
    let power: K::Cell = unary(k, Unary::Negate, half);
    let base: K::Cell = count(k, len);
    let by: K::Cell = binary(k, Binary::Pow, base, power);
    let data: Vec<K::Cell> = scale_row(k, &scale.data, by);
    let weight: Tensor<K::Cell> = Tensor { shape: scale.shape, data };
    let per_expert_scale: Tensor<K::Cell> = take_dense(tensors, &joined(layer_prefix.as_str(), ".router.per_expert_scale"))?;
    let moe: MoeMlp<K::Cell> = MoeMlp {
        router,
        experts,
        shared_expert: None,
        shared_expert_gate: None,
        router_norm: Some(RouterNorm { weight, eps: config.rms_eps }),
        per_expert_scale: Some(per_expert_scale),
        top_k: config.num_experts_per_tok,
    };
    Ok(Some(FeedForward::Moe(moe)))
}

/// Size of a query head by the rows of the query map; a gated layer has two rows for
/// each number.
pub open spec fn inferred_head_dim<C>(config: CausalDecoderConfig<C>, q_proj: Linear<C>) -> Option<usize> {
    let rows_per_number: int = if config.attn_output_gate {
        2
    } else {
        1
    };
    let divisor = config.num_attention_heads * rows_per_number;
    match weight_dims(q_proj.weight) {
        Some((rows, _)) => if config.num_attention_heads > 0 && rows as int % divisor == 0 {
            Some((rows as int / divisor) as usize)
        } else {
            None
        },
        None => None,
    }
}

/// Size of a query head by the rows of the query map. Refused where they are not a
/// multiple of the heads.
pub fn infer_attention_head_dim<C: Copy>(config: &CausalDecoderConfig<C>, q_proj: &Linear<C>) -> (out: Result<usize, InferError>)
    ensures
        match out {
            Ok(head_dim) => inferred_head_dim(*config, *q_proj) == Some(head_dim),
            Err(error) => inferred_head_dim(*config, *q_proj) is None && error is Dimension,
        },
{
    if config.num_attention_heads == 0 {
        return Err(InferError::Dimension("no heads to infer their size from"));
    }
    let (rows, _) = linear_weight_shape(&q_proj.weight)?;
    let rows_per_number: u128 = if config.attn_output_gate {
        2
    } else {
        1
    };
    let heads: u128 = config.num_attention_heads as u128;
    let divisor: u128 = heads * rows_per_number;
    let rows: u128 = rows as u128;
    if rows % divisor != 0 {
        return Err(InferError::Dimension("rows of the query map are no multiple of the heads"));
    }
    let head_dim: u128 = rows / divisor;
    assert(head_dim <= rows) by (nonlinear_arith)
        requires
            divisor >= 1,
            head_dim == rows / divisor,
    ;
    Ok(head_dim as usize)
}

/// Softmax attention of a layer, and the other weights.
pub open spec fn fetch_full<C: Copy>(config: CausalDecoderConfig<C>, store: Map<Seq<char>, DecoderTensor<C>>, prefix: Seq<char>, layer: int) -> Taken<C, FullAttention<C>> {
    match fetch_linear(store, prefix + ".self_attn.q_proj"@) {
        Ok((store, q_proj)) => match fetch_linear(store, prefix + ".self_attn.k_proj"@) {
            Ok((store, k_proj)) => match fetch_values(config, store, prefix, layer) {
                Ok((store, v_proj)) => match fetch_linear(store, prefix + ".self_attn.o_proj"@) {
                    Ok((store, o_proj)) => match fetch_optional(store, prefix + ".self_attn.q_norm.weight"@) {
                        Ok((store, q_norm)) => match fetch_optional(store, prefix + ".self_attn.k_norm.weight"@) {
                            Ok((store, k_norm)) => if q_norm is Some != k_norm is Some {
                            Err(Fault::Config)
                        } else if inferred_head_dim(config, q_proj) is None {
                            Err(Fault::Dimension)
                        } else {
                            let head_dim = match config.head_dim_at(layer) {
                                Some(head_dim) => head_dim,
                                None => inferred_head_dim(config, q_proj)->0,
                            };
                            Ok((
                                store,
                                FullAttention {
                                    q_proj,
                                    k_proj,
                                    v_proj,
                                    o_proj,
                                    q_norm,
                                    k_norm,
                                    num_key_value_heads: Some(config.kv_heads_at(layer)),
                                    head_dim: Some(head_dim),
                                    rope_dims: Some(config.rope_dims_at(layer, head_dim)),
                                    rope_frequency_dim: Some(config.rope_frequency_dim_at(layer, head_dim)),
                                    value_norm: config.attention_value_norm,
                                    rope_theta: None,
                                    rope_position_scale: None,
                                    sliding_window: None,
                                },
                            ))
                        },
                            Err(fault) => Err(fault),
                        },
                        Err(fault) => Err(fault),
                    },
                    Err(fault) => Err(fault),
                },
                Err(fault) => Err(fault),
            },
            Err(fault) => Err(fault),
        },
        Err(fault) => Err(fault),
    }
}

/// The value map of a layer, where the keys do not serve as values.
pub open spec fn fetch_values<C: Copy>(config: CausalDecoderConfig<C>, store: Map<Seq<char>, DecoderTensor<C>>, prefix: Seq<char>, layer: int) -> Taken<C, Option<Linear<C>>> {
    if config.keys_as_values_at(layer) {
        Ok((store, None))
    } else {
        match fetch_linear(store, prefix + ".self_attn.v_proj"@) {
            Ok((store, linear)) => Ok((store, Some(linear))),
            Err(fault) => Err(fault),
        }
    }
}

/// Takes the softmax attention of a layer.
pub fn full_attention_from_tensors<C: Copy>(config: &CausalDecoderConfig<C>, tensors: &mut TensorStore<C>, prefix: &String, layer_index: usize) -> (out: Result<
    FullAttention<C>,
    InferError,
>)
    requires
        old(tensors).wf(),
    ensures
        final(tensors).wf(),
        out matches Ok(attention) ==> attention.wf(),
        took(out, final(tensors)@, fetch_full(*config, old(tensors)@, prefix@, layer_index as int)),
{
    let q_proj: Linear<C> = linear_from(tensors, &joined(prefix.as_str(), ".self_attn.q_proj"))?;
    let k_proj: Linear<C> = linear_from(tensors, &joined(prefix.as_str(), ".self_attn.k_proj"))?;
    let v_proj: Option<Linear<C>> = if config.layer_keys_as_values(layer_index) {
        None
    } else {
        Some(linear_from(tensors, &joined(prefix.as_str(), ".self_attn.v_proj"))?)
    };
    let o_proj: Linear<C> = linear_from(tensors, &joined(prefix.as_str(), ".self_attn.o_proj"))?;
    let q_norm: Option<Tensor<C>> = take_optional_dense(tensors, &joined(prefix.as_str(), ".self_attn.q_norm.weight"))?;
    let k_norm: Option<Tensor<C>> = take_optional_dense(tensors, &joined(prefix.as_str(), ".self_attn.k_norm.weight"))?;
    if q_norm.is_some() != k_norm.is_some() {
        return Err(InferError::Config("one of the query and key norms without the other"));
    }
    let inferred: usize = infer_attention_head_dim(config, &q_proj)?;
    let head_dim: usize = match config.layer_head_dim(layer_index) {
        Some(head_dim) => head_dim,
        None => inferred,
    };
    let num_key_value_heads: Option<usize> = Some(config.layer_num_key_value_heads(layer_index));
    let rope_dims: Option<usize> = Some(config.layer_rope_dims(layer_index, head_dim));
    let rope_frequency_dim: Option<usize> = Some(config.layer_rope_frequency_dim(layer_index, head_dim));
    Ok(
        FullAttention {
            q_proj,
            k_proj,
            v_proj,
            o_proj,
            q_norm,
            k_norm,
            num_key_value_heads,
            head_dim: Some(head_dim),
            rope_dims,
            rope_frequency_dim,
            value_norm: config.attention_value_norm,
            rope_theta: None,
            rope_position_scale: None,
            sliding_window: None,
        },
    )
}

/// Linear attention of a layer, and the other weights; `prefix` is that of the block.
pub open spec fn fetch_recurrent<C>(store: Map<Seq<char>, DecoderTensor<C>>, prefix: Seq<char>) -> Taken<C, LinearAttentionWeights<C>> {
    match fetch_linear(store, prefix + ".in_proj_qkv"@) {
        Ok((store, in_proj_qkv)) => match fetch_linear(store, prefix + ".in_proj_z"@) {
            Ok((store, in_proj_z)) => match fetch_linear(store, prefix + ".in_proj_b"@) {
                Ok((store, in_proj_b)) => match fetch_linear(store, prefix + ".in_proj_a"@) {
                    Ok((store, in_proj_a)) => match fetch_linear(store, prefix + ".out_proj"@) {
                        Ok((store, out_proj)) => match fetch_dense(store, prefix + ".conv1d.weight"@) {
                            Ok((store, conv1d_weight)) => match fetch_dense(store, prefix + ".A_log"@) {
                                Ok((store, a_log)) => match fetch_dense(store, prefix + ".dt_bias"@) {
                                    Ok((store, dt_bias)) => match fetch_dense(store, prefix + ".norm.weight"@) {
                                        Ok((store, norm_weight)) => Ok(
                                        (
                                            store,
                                            LinearAttentionWeights {
                                                in_proj_qkv,
                                                in_proj_z,
                                                in_proj_b,
                                                in_proj_a,
                                                out_proj,
                                                conv1d_weight,
                                                a_log,
                                                dt_bias,
                                                norm_weight,
                                            },
                                        ),
                                    ),
                                        Err(fault) => Err(fault),
                                    },
                                    Err(fault) => Err(fault),
                                },
                                Err(fault) => Err(fault),
                            },
                            Err(fault) => Err(fault),
                        },
                        Err(fault) => Err(fault),
                    },
                    Err(fault) => Err(fault),
                },
                Err(fault) => Err(fault),
            },
            Err(fault) => Err(fault),
        },
        Err(fault) => Err(fault),
    }
}

/// Takes the linear attention of a layer.
pub fn linear_attention_from_tensors<C: Copy>(tensors: &mut TensorStore<C>, prefix: &String) -> (out: Result<LinearAttentionWeights<C>, InferError>)
    requires
        old(tensors).wf(),
    ensures
        final(tensors).wf(),
        took(out, final(tensors)@, fetch_recurrent(old(tensors)@, prefix@ + ".linear_attn"@)),
{
    let prefix: String = joined(prefix.as_str(), ".linear_attn");
    let in_proj_qkv: Linear<C> = linear_from(tensors, &joined(prefix.as_str(), ".in_proj_qkv"))?;
    let in_proj_z: Linear<C> = linear_from(tensors, &joined(prefix.as_str(), ".in_proj_z"))?;
    let in_proj_b: Linear<C> = linear_from(tensors, &joined(prefix.as_str(), ".in_proj_b"))?;
    let in_proj_a: Linear<C> = linear_from(tensors, &joined(prefix.as_str(), ".in_proj_a"))?;
    let out_proj: Linear<C> = linear_from(tensors, &joined(prefix.as_str(), ".out_proj"))?;
    let conv1d_weight: Tensor<C> = take_dense(tensors, &joined(prefix.as_str(), ".conv1d.weight"))?;
    let a_log: Tensor<C> = take_dense(tensors, &joined(prefix.as_str(), ".A_log"))?;
    let dt_bias: Tensor<C> = take_dense(tensors, &joined(prefix.as_str(), ".dt_bias"))?;
    let norm_weight: Tensor<C> = take_dense(tensors, &joined(prefix.as_str(), ".norm.weight"))?;
    Ok(LinearAttentionWeights { in_proj_qkv, in_proj_z, in_proj_b, in_proj_a, out_proj, conv1d_weight, a_log, dt_bias, norm_weight })
}

/// The attention of a layer, and the other weights.
pub open spec fn fetch_attention<C: Copy>(config: CausalDecoderConfig<C>, store: Map<Seq<char>, DecoderTensor<C>>, prefix: Seq<char>, layer: int) -> Taken<C, AttentionBlock<C>> {
    if config.full_attention_at(layer) {
        match fetch_full(config, store, prefix, layer) {
            Ok((store, full)) => Ok(
                (
                    store,
                    AttentionBlock::Full(
                        FullAttention {
                            rope_theta: if config.local_at(layer) {
                                config.rope_local_base_freq
                            } else {
                                None
                            },
                            rope_position_scale: if config.local_at(layer) {
                                None
                            } else {
                                config.rope_position_scale
                            },
                            sliding_window: if config.local_at(layer) {
                                config.sliding_window
                            } else {
                                None
                            },
                            ..full
                        },
                    ),
                ),
            ),
            Err(fault) => Err(fault),
        }
    } else {
        match fetch_recurrent(store, prefix + ".linear_attn"@) {
            Ok((store, weights)) => Ok((store, AttentionBlock::Linear(weights))),
            Err(fault) => Err(fault),
        }
    }
}

fn attention_from_tensors<C: Copy>(config: &CausalDecoderConfig<C>, tensors: &mut TensorStore<C>, prefix: &String, layer_index: usize) -> (out: Result<
    AttentionBlock<C>,
    InferError,
>)
    requires
        old(tensors).wf(),
    ensures
        final(tensors).wf(),
        out matches Ok(AttentionBlock::Full(attention)) ==> attention.wf(),
        took(out, final(tensors)@, fetch_attention(*config, old(tensors)@, prefix@, layer_index as int)),
{
    if config.is_full_attention_layer(layer_index) {
        let mut full: FullAttention<C> = full_attention_from_tensors(config, tensors, prefix, layer_index)?;
        full.rope_theta = config.layer_rope_theta_override(layer_index);
        full.rope_position_scale = config.layer_rope_position_scale(layer_index);
        full.sliding_window = config.layer_sliding_window(layer_index);
        Ok(AttentionBlock::Full(full))
    } else {
        Ok(AttentionBlock::Linear(linear_attention_from_tensors(tensors, prefix)?))
    }
}

/// A layer by its numbers.
pub struct LayerParts<C> {
    pub input_norm: Tensor<C>,
    pub attention: AttentionBlock<C>,
    pub post_attention_norm: Option<Tensor<C>>,
    pub mlp: Option<FeedView<C>>,
    pub parallel_moe: Option<FeedView<C>>,
    pub norms: NormParts<C>,
}

/// The norms round the feed-forward block of a layer, and the scale of its output.
pub struct NormParts<C> {
    pub before: Option<Tensor<C>>,
    pub after: Option<Tensor<C>>,
    pub before_2: Option<Tensor<C>>,
    pub after_1: Option<Tensor<C>>,
    pub after_2: Option<Tensor<C>>,
    pub scalar: Option<Tensor<C>>,
}

pub open spec fn parts_of<C>(layer: DecoderLayer<C>) -> LayerParts<C> {
    LayerParts {
        input_norm: layer.input_norm,
        attention: layer.attention,
        post_attention_norm: layer.post_attention_norm,
        mlp: optional_feed_view(layer.mlp),
        parallel_moe: optional_feed_view(layer.parallel_moe),
        norms: NormParts {
            before: layer.pre_feedforward_norm,
            after: layer.post_feedforward_norm,
            before_2: layer.pre_feedforward_norm_2,
            after_1: layer.post_feedforward_norm_1,
            after_2: layer.post_feedforward_norm_2,
            scalar: layer.layer_scalar,
        },
    }
}

pub open spec fn fetch_norms<C>(store: Map<Seq<char>, DecoderTensor<C>>, prefix: Seq<char>) -> Taken<C, NormParts<C>> {
    match fetch_optional(store, prefix + ".pre_feedforward_layernorm.weight"@) {
        Ok((store, before)) => match fetch_optional(store, prefix + ".post_feedforward_layernorm.weight"@) {
            Ok((store, after)) => match fetch_optional(store, prefix + ".pre_feedforward_layernorm_2.weight"@) {
                Ok((store, before_2)) => match fetch_optional(store, prefix + ".post_feedforward_layernorm_1.weight"@) {
                    Ok((store, after_1)) => match fetch_optional(store, prefix + ".post_feedforward_layernorm_2.weight"@) {
                        Ok((store, after_2)) => match fetch_optional(store, prefix + ".layer_scalar"@) {
                            Ok((store, scalar)) => Ok((store, NormParts { before, after, before_2, after_1, after_2, scalar })),
                            Err(fault) => Err(fault),
                        },
                        Err(fault) => Err(fault),
                    },
                    Err(fault) => Err(fault),
                },
                Err(fault) => Err(fault),
            },
            Err(fault) => Err(fault),
        },
        Err(fault) => Err(fault),
    }
}

fn norms_from<C: Copy>(tensors: &mut TensorStore<C>, prefix: &String) -> (out: Result<NormParts<C>, InferError>)
    requires
        old(tensors).wf(),
    ensures
        final(tensors).wf(),
        took(out, final(tensors)@, fetch_norms(old(tensors)@, prefix@)),
{
    let before: Option<Tensor<C>> = take_optional_dense(tensors, &joined(prefix.as_str(), ".pre_feedforward_layernorm.weight"))?;
    let after: Option<Tensor<C>> = take_optional_dense(tensors, &joined(prefix.as_str(), ".post_feedforward_layernorm.weight"))?;
    let before_2: Option<Tensor<C>> = take_optional_dense(tensors, &joined(prefix.as_str(), ".pre_feedforward_layernorm_2.weight"))?;
    let after_1: Option<Tensor<C>> = take_optional_dense(tensors, &joined(prefix.as_str(), ".post_feedforward_layernorm_1.weight"))?;
    let after_2: Option<Tensor<C>> = take_optional_dense(tensors, &joined(prefix.as_str(), ".post_feedforward_layernorm_2.weight"))?;
    let scalar: Option<Tensor<C>> = take_optional_dense(tensors, &joined(prefix.as_str(), ".layer_scalar"))?;
    Ok(NormParts { before, after, before_2, after_1, after_2, scalar })
}

/// The block of experts beside the feed-forward block, where the model has such blocks.
pub open spec fn fetch_beside<K: Kernel>(k: K, config: CausalDecoderConfig<K::Cell>, store: Map<Seq<char>, DecoderTensor<K::Cell>>, prefix: Seq<char>) -> Taken<K::Cell, Option<FeedView<K::Cell>>> {
    if config.parallel_moe {
        fetch_parallel(k, config, store, prefix)
    } else {
        Ok((store, None))
    }
}

/// A layer, and the other weights.
pub open spec fn fetch_layer<K: Kernel>(k: K, config: CausalDecoderConfig<K::Cell>, store: Map<Seq<char>, DecoderTensor<K::Cell>>, layer: int) -> Taken<K::Cell, LayerParts<K::Cell>> {
    let prefix = "layers."@ + digits_of(layer as nat);
    match fetch_dense(store, prefix + ".input_layernorm.weight"@) {
        Ok((store, input_norm)) => match fetch_attention(config, store, prefix, layer) {
            Ok((store, attention)) => match fetch_feed(config, store, prefix) {
                Ok((store, feed)) => match fetch_beside(k, config, store, prefix) {
                    Ok((store, parallel_moe)) => match fetch_norms(store, prefix) {
                        Ok((store, norms)) => Ok((store, LayerParts { input_norm, attention, post_attention_norm: feed.0, mlp: feed.1, parallel_moe, norms })),
                        Err(fault) => Err(fault),
                    },
                    Err(fault) => Err(fault),
                },
                Err(fault) => Err(fault),
            },
            Err(fault) => Err(fault),
        },
        Err(fault) => Err(fault),
    }
}

impl<C: Copy> DecoderLayer<C> {
    /// Takes a layer.
    pub fn from_tensors<K: Kernel<Cell = C>>(k: &K, tensors: &mut TensorStore<C>, layer_index: usize, config: &CausalDecoderConfig<C>) -> (out: Result<
        DecoderLayer<C>,
        InferError,
    >)
        requires
            old(tensors).wf(),
        ensures
            final(tensors).wf(),
            out matches Ok(layer) ==> layer.wf(),
            functional(*k) ==> match out {
                Ok(layer) => fetch_layer(*k, *config, old(tensors)@, layer_index as int) == Taken::<C, LayerParts<C>>::Ok(
                    (final(tensors)@, parts_of(layer)),
                ),
                Err(error) => fetch_layer(*k, *config, old(tensors)@, layer_index as int) == Taken::<C, LayerParts<C>>::Err(error.fault()),
            },
    {
        let number: String = decimal(layer_index);
        let prefix: String = joined("layers.", number.as_str());
        let input_norm: Tensor<C> = take_dense(tensors, &joined(prefix.as_str(), ".input_layernorm.weight"))?;
        let attention: AttentionBlock<C> = attention_from_tensors(config, tensors, &prefix, layer_index)?;
        let (post_attention_norm, mlp) = optional_mlp_from(config, tensors, &prefix)?;
        let parallel_moe: Option<FeedForward<C>> = if config.parallel_moe {
            optional_gemma4_parallel_moe_from(k, config, tensors, &prefix)?
        } else {
            None
        };
        let norms: NormParts<C> = norms_from(tensors, &prefix)?;
        Ok(
            DecoderLayer {
                input_norm,
                attention,
                post_attention_norm,
                mlp,
                parallel_moe,
                pre_feedforward_norm: norms.before,
                post_feedforward_norm: norms.after,
                pre_feedforward_norm_2: norms.before_2,
                post_feedforward_norm_1: norms.after_1,
                post_feedforward_norm_2: norms.after_2,
                layer_scalar: norms.scalar,
            },
        )
    }
}

/// The first layers, and the other weights.
pub open spec fn fetch_layers<K: Kernel>(k: K, config: CausalDecoderConfig<K::Cell>, store: Map<Seq<char>, DecoderTensor<K::Cell>>, count: nat) -> Taken<K::Cell, Seq<LayerParts<K::Cell>>>
    decreases count,
{
    if count == 0 {
        Ok((store, Seq::empty()))
    } else {
        match fetch_layers(k, config, store, (count - 1) as nat) {
            Ok((store, layers)) => match fetch_layer(k, config, store, count - 1) {
                Ok((store, layer)) => Ok((store, layers.push(layer))),
                Err(fault) => Err(fault),
            },
            Err(fault) => Err(fault),
        }
    }
}

/// A layer that is refused refuses the model.
proof fn lemma_layers_refused<K: Kernel>(k: K, config: CausalDecoderConfig<K::Cell>, store: Map<Seq<char>, DecoderTensor<K::Cell>>, fewer: nat, more: nat)
    requires
        fewer <= more,
        fetch_layers(k, config, store, fewer) is Err,
    ensures
        fetch_layers(k, config, store, more) == fetch_layers(k, config, store, fewer),
    decreases more,
{
    if fewer < more {
        lemma_layers_refused(k, config, store, fewer, (more - 1) as nat);
    }
}

pub open spec fn all_parts<C>(layers: Seq<DecoderLayer<C>>) -> Seq<LayerParts<C>> {
    Seq::new(layers.len(), |i: int| parts_of(layers[i]))
}

fn layers_from<K: Kernel>(k: &K, tensors: &mut TensorStore<K::Cell>, config: &CausalDecoderConfig<K::Cell>) -> (out: Result<
    Vec<DecoderLayer<K::Cell>>,
    InferError,
>)
    requires
        old(tensors).wf(),
    ensures
        final(tensors).wf(),
        out matches Ok(layers) ==> layers@.len() == config.num_hidden_layers && forall|i: int|
            0 <= i < layers@.len() ==> (#[trigger] layers@[i]).wf(),
        functional(*k) ==> match out {
            Ok(layers) => fetch_layers(*k, *config, old(tensors)@, config.num_hidden_layers as nat) == Taken::<K::Cell, Seq<LayerParts<K::Cell>>>::Ok(
                (final(tensors)@, all_parts(layers@)),
            ),
            Err(error) => fetch_layers(*k, *config, old(tensors)@, config.num_hidden_layers as nat) == Taken::<
                K::Cell,
                Seq<LayerParts<K::Cell>>,
            >::Err(error.fault()),
        },
{
    let ghost start = tensors@;
    let mut layers: Vec<DecoderLayer<K::Cell>> = Vec::new();
    let mut i: usize = 0;
    assert(all_parts(layers@) =~= Seq::empty());
    while i < config.num_hidden_layers
        invariant
            i <= config.num_hidden_layers,
            tensors.wf(),
            layers@.len() == i,
            start == old(tensors)@,
            forall|j: int| 0 <= j < layers@.len() ==> (#[trigger] layers@[j]).wf(),
            functional(*k) ==> fetch_layers(*k, *config, start, i as nat) == Taken::<K::Cell, Seq<LayerParts<K::Cell>>>::Ok(
                (tensors@, all_parts(layers@)),
            ),
        decreases config.num_hidden_layers - i,
    {
        match DecoderLayer::from_tensors(k, tensors, i, config) {
            Ok(layer) => {
                let ghost before = layers@;
                layers.push(layer);
                assert(all_parts(layers@) =~= all_parts(before).push(parts_of(layer)));
            },
            Err(error) => {
                proof {
                    if functional(*k) {
                        assert(fetch_layers(*k, *config, start, (i + 1) as nat) is Err);
                        lemma_layers_refused(*k, *config, start, (i + 1) as nat, config.num_hidden_layers as nat);
                    }
                }
                return Err(error);
            },
        }
        i = i + 1;
    }
    Ok(layers)
}

/// A model by its numbers, without a draft head.
pub struct ModelParts<C> {
    pub embed_tokens: LinearWeight<C>,
    pub layers: Seq<LayerParts<C>>,
    pub final_norm: Tensor<C>,
    pub lm_head: Linear<C>,
}

/// A model under its names, and the weights that it does not use.
pub open spec fn fetch_model<K: Kernel>(k: K, config: CausalDecoderConfig<K::Cell>, store: Map<Seq<char>, DecoderTensor<K::Cell>>) -> Taken<K::Cell, ModelParts<K::Cell>> {
    match fetch_weight(store, "embed_tokens.weight"@) {
        Ok((store, embed_tokens)) => match fetch_layers(k, config, store, config.num_hidden_layers as nat) {
            Ok((store, layers)) => match fetch_dense(store, "norm.weight"@) {
                Ok((store, final_norm)) => match fetch_linear(store, "lm_head"@) {
                    Ok((store, lm_head)) => Ok((store, ModelParts { embed_tokens, layers, final_norm, lm_head })),
                    Err(fault) => Err(fault),
                },
                Err(fault) => Err(fault),
            },
            Err(fault) => Err(fault),
        },
        Err(fault) => Err(fault),
    }
}

impl<K: Kernel> DecoderModel<K> {
    /// A model from weights by name, without a draft head.
    pub fn from_tensors(kernel: K, tensors: TensorStore<K::Cell>, config: CausalDecoderConfig<K::Cell>, flags: DecoderFlags) -> (out: Result<
        DecoderModel<K>,
        InferError,
    >)
        requires
            tensors.wf(),
        ensures
            out matches Ok(model) ==> model.wf() && model.kernel == kernel && model.config == config && model.flags == flags && model.mtp is None
                && model.mtp_draft_lm_head is None && model.layers@.len() == config.num_hidden_layers,
            functional(kernel) ==> match out {
                Ok(model) => fetch_model(kernel, config, tensors@) matches Ok((_, parts)) && parts == (ModelParts {
                    embed_tokens: model.embed_tokens,
                    layers: all_parts(model.layers@),
                    final_norm: model.final_norm,
                    lm_head: model.lm_head,
                }),
                Err(error) => fetch_model(kernel, config, tensors@) == Taken::<K::Cell, ModelParts<K::Cell>>::Err(error.fault()),
            },
    {
        let mut tensors: TensorStore<K::Cell> = tensors;
        let embed_tokens: LinearWeight<K::Cell> = take_embedding_weight(&mut tensors, &String::from_str("embed_tokens.weight"))?;
        let layers: Vec<DecoderLayer<K::Cell>> = layers_from(&kernel, &mut tensors, &config)?;
        let final_norm: Tensor<K::Cell> = take_dense(&mut tensors, &String::from_str("norm.weight"))?;
        let lm_head: Linear<K::Cell> = linear_from(&mut tensors, &String::from_str("lm_head"))?;
        Ok(DecoderModel { kernel, config, embed_tokens, layers, final_norm, lm_head, mtp: None, mtp_draft_lm_head: None, flags })
    }
}

impl<K: Kernel> CausalDecoder<K> {
    /// A decoder from weights by name, without a draft head and with no prompts kept.
    pub fn from_tensors(kernel: K, tensors: TensorStore<K::Cell>, config: CausalDecoderConfig<K::Cell>, flags: DecoderFlags) -> (out: Result<
        CausalDecoder<K>,
        InferError,
    >)
        requires
            tensors.wf(),
        ensures
            out matches Ok(decoder) ==> decoder.wf() && decoder.prefix_cache@ == Seq::<EntryView<K::Cell>>::empty() && decoder.model.kernel == kernel
                && decoder.model.config == config && decoder.model.flags == flags && decoder.model.mtp is None
                && decoder.model.mtp_draft_lm_head is None && decoder.model.layers@.len() == config.num_hidden_layers,
            functional(kernel) ==> match out {
                Ok(decoder) => fetch_model(kernel, config, tensors@) matches Ok((_, parts)) && parts == (ModelParts {
                    embed_tokens: decoder.model.embed_tokens,
                    layers: all_parts(decoder.model.layers@),
                    final_norm: decoder.model.final_norm,
                    lm_head: decoder.model.lm_head,
                }),
                Err(error) => fetch_model(kernel, config, tensors@) == Taken::<K::Cell, ModelParts<K::Cell>>::Err(error.fault()),
            },
    {
        let model: DecoderModel<K> = DecoderModel::from_tensors(kernel, tensors, config, flags)?;
        Ok(CausalDecoder::new(model))
    }
}

} // verus!
