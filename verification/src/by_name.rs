//! Which stored tensor becomes which part of a model.

use vstd::prelude::*;
use vstd::string::*;
use crate::attention::FullAttention;
use crate::config::CausalDecoderConfig;
use crate::kernel::{Activation, Kernel};
use crate::layer::{AttentionBlock, DecoderLayer};
use crate::linear::FeedForward;
use crate::loading::{
    all_parts, any_gated, digit_char, digits_of, expert_view, feed_view, fetch_attention, fetch_beside, fetch_expert_blocks, fetch_feed, fetch_full, fetch_gated, fetch_layer, fetch_layers,
    fetch_model, fetch_moe, fetch_norms, fetch_parallel, fetch_recurrent, fetch_shared, fetch_values, linear_view, optional_feed_view, parts_of, ExpertView, FeedView, ModelParts,
    MoeView, NormParts,
};
use crate::store::{expert_weights, fetch_dense, fetch_experts, fetch_linear, fetch_optional, fetch_weight, DecoderTensor, WeightView};
use crate::tensor::Tensor;
use crate::weights::{GatedMlp, Linear, LinearAttentionWeights, LinearWeight, MoeMlp};

verus! {

/// Weights by name.
pub type Store<C> = Map<Seq<char>, DecoderTensor<C>>;

/// What is left holds what it held before.
pub open spec fn left_of<C>(store: Store<C>, rest: Store<C>) -> bool {
    forall|name: Seq<char>| #[trigger] rest.contains_key(name) ==> store.contains_key(name) && rest[name] == store[name]
}

/// The dense tensor that stands under a name.
pub open spec fn tensor_at<C>(store: Store<C>, name: Seq<char>, tensor: Tensor<C>) -> bool {
    store.contains_key(name) && store[name] == DecoderTensor::Dense(tensor)
}

/// A tensor that may be there is the one under a name, where there is one.
pub open spec fn tensor_if_any<C>(store: Store<C>, name: Seq<char>, tensor: Option<Tensor<C>>) -> bool {
    tensor matches Some(tensor) ==> tensor_at(store, name, tensor)
}

/// A weight is what stands under a name, dense or packed.
pub open spec fn weight_at<C>(store: Store<C>, name: Seq<char>, weight: LinearWeight<C>) -> bool {
    store.contains_key(name) && (store[name] == DecoderTensor::LinearWeight(weight) || exists|tensor: Tensor<C>| #[trigger]
        tensor_at(store, name, tensor) && weight == LinearWeight::Dense(tensor))
}

/// A linear map has the weight and the bias under two names.
pub open spec fn linear_at<C>(store: Store<C>, weight: Seq<char>, bias: Seq<char>, linear: Linear<C>) -> bool {
    weight_at(store, weight, linear.weight) && tensor_if_any(store, bias, linear.bias)
}

proof fn lemma_weight_up<C>(store: Store<C>, rest: Store<C>, name: Seq<char>, weight: LinearWeight<C>)
    requires
        left_of(store, rest),
        weight_at(rest, name, weight),
    ensures
        weight_at(store, name, weight),
{
    if rest[name] != DecoderTensor::LinearWeight(weight) {
        let tensor = choose|tensor: Tensor<C>| #[trigger] tensor_at(rest, name, tensor) && weight == LinearWeight::Dense(tensor);
        assert(tensor_at(store, name, tensor));
    }
}

proof fn lemma_linear_up<C>(store: Store<C>, rest: Store<C>, weight: Seq<char>, bias: Seq<char>, linear: Linear<C>)
    requires
        left_of(store, rest),
        linear_at(rest, weight, bias, linear),
    ensures
        linear_at(store, weight, bias, linear),
{
    lemma_weight_up(store, rest, weight, linear.weight);
}

/// A linear map under a prefix takes its weight and its bias from the names behind it, and
/// has as many columns and rows as its weight; without a bias there it has none.
pub proof fn law_linear_by_name<C>(store: Store<C>, prefix: Seq<char>)
    ensures
        fetch_linear(store, prefix) matches Ok((rest, linear)) ==> {
            &&& left_of(store, rest)
            &&& linear_at(store, prefix + ".weight"@, prefix + ".bias"@, linear)
            &&& store.contains_key(prefix + ".bias"@) ==> linear.bias is Some
            &&& linear.weight matches LinearWeight::Dense(tensor) ==> tensor.shape@ == seq![linear.out_dim, linear.in_dim]
            &&& linear.weight matches LinearWeight::AffineQuantized(matrix) ==> matrix.rows == linear.out_dim && matrix.cols == linear.in_dim
        },
{
    if fetch_linear(store, prefix) is Ok {
        let (rest, linear) = fetch_linear(store, prefix)->Ok_0;
        let name = prefix + ".weight"@;
        let (less, weight) = fetch_weight(store, name)->Ok_0;
        reveal_strlit(".weight");
        reveal_strlit(".bias");
        assert(name != prefix + ".bias"@) by {
            assert(name[prefix.len() as int + 1] == 'w');
            assert((prefix + ".bias"@)[prefix.len() as int + 1] == 'b');
        }
        assert(weight_at(store, name, weight)) by {
            match store[name] {
                DecoderTensor::Dense(tensor) => {
                    assert(tensor_at(store, name, tensor));
                },
                _ => {},
            }
        }
        if linear.weight is Dense {
            assert(linear.weight->Dense_0.shape@ =~= seq![linear.out_dim, linear.in_dim]);
        }
    }
}

/// The parts of a gated block stand under their own names.
pub open spec fn gated_at<C>(store: Store<C>, prefix: Seq<char>, mlp: GatedMlp<C>) -> bool {
    &&& linear_at(store, prefix + ".gate_proj.weight"@, prefix + ".gate_proj.bias"@, mlp.gate_proj)
    &&& linear_at(store, prefix + ".up_proj.weight"@, prefix + ".up_proj.bias"@, mlp.up_proj)
    &&& linear_at(store, prefix + ".down_proj.weight"@, prefix + ".down_proj.bias"@, mlp.down_proj)
}

/// One name behind another.
proof fn lemma_behind(prefix: Seq<char>, part: &str, tail: &str, whole: &str)
    requires
        part@ + tail@ == whole@,
    ensures
        (prefix + part@) + tail@ == prefix + whole@,
{
    assert((prefix + part@) + tail@ =~= prefix + (part@ + tail@));
}

/// A linear map under a part of a prefix.
proof fn lemma_part<C>(store: Store<C>, prefix: Seq<char>, part: &str, weight: &str, bias: &str)
    requires
        part@ + ".weight"@ == weight@,
        part@ + ".bias"@ == bias@,
    ensures
        fetch_linear(store, prefix + part@) matches Ok((rest, linear)) ==> left_of(store, rest) && linear_at(
            store,
            prefix + weight@,
            prefix + bias@,
            linear,
        ),
{
    law_linear_by_name(store, prefix + part@);
    lemma_behind(prefix, part, ".weight", weight);
    lemma_behind(prefix, part, ".bias", bias);
}

proof fn lemma_gated_names()
    ensures
        ".gate_proj"@ + ".weight"@ == ".gate_proj.weight"@,
        ".gate_proj"@ + ".bias"@ == ".gate_proj.bias"@,
        ".up_proj"@ + ".weight"@ == ".up_proj.weight"@,
        ".up_proj"@ + ".bias"@ == ".up_proj.bias"@,
        ".down_proj"@ + ".weight"@ == ".down_proj.weight"@,
        ".down_proj"@ + ".bias"@ == ".down_proj.bias"@,
{
    reveal_strlit(".weight");
    reveal_strlit(".bias");
    reveal_strlit(".gate_proj");
    reveal_strlit(".up_proj");
    reveal_strlit(".down_proj");
    reveal_strlit(".gate_proj.weight");
    reveal_strlit(".gate_proj.bias");
    reveal_strlit(".up_proj.weight");
    reveal_strlit(".up_proj.bias");
    reveal_strlit(".down_proj.weight");
    reveal_strlit(".down_proj.bias");
    assert(".gate_proj"@ + ".weight"@ =~= ".gate_proj.weight"@);
    assert(".gate_proj"@ + ".bias"@ =~= ".gate_proj.bias"@);
    assert(".up_proj"@ + ".weight"@ =~= ".up_proj.weight"@);
    assert(".up_proj"@ + ".bias"@ =~= ".up_proj.bias"@);
    assert(".down_proj"@ + ".weight"@ =~= ".down_proj.weight"@);
    assert(".down_proj"@ + ".bias"@ =~= ".down_proj.bias"@);
}

/// A gated block takes each of its maps from the name of that map.
pub proof fn law_gated_by_name<C>(store: Store<C>, prefix: Seq<char>, activation: Activation)
    ensures
        fetch_gated(store, prefix, activation) matches Ok((rest, mlp)) ==> left_of(store, rest) && gated_at(store, prefix, mlp) && mlp.activation
            == activation,
{
    lemma_gated_names();
    lemma_part(store, prefix, ".gate_proj", ".gate_proj.weight", ".gate_proj.bias");
    if fetch_linear(store, prefix + ".gate_proj"@) is Ok {
        let one = (fetch_linear(store, prefix + ".gate_proj"@)->Ok_0).0;
        lemma_part(one, prefix, ".up_proj", ".up_proj.weight", ".up_proj.bias");
        if fetch_linear(one, prefix + ".up_proj"@) is Ok {
            let (two, up) = fetch_linear(one, prefix + ".up_proj"@)->Ok_0;
            lemma_linear_up(store, one, prefix + ".up_proj.weight"@, prefix + ".up_proj.bias"@, up);
            lemma_part(two, prefix, ".down_proj", ".down_proj.weight", ".down_proj.bias");
            if fetch_linear(two, prefix + ".down_proj"@) is Ok {
                let down = (fetch_linear(two, prefix + ".down_proj"@)->Ok_0).1;
                assert(left_of(store, two));
                lemma_linear_up(store, two, prefix + ".down_proj.weight"@, prefix + ".down_proj.bias"@, down);
            }
        }
    }
}

proof fn lemma_attention_names()
    ensures
        ".self_attn.q_proj"@ + ".weight"@ == ".self_attn.q_proj.weight"@,
        ".self_attn.q_proj"@ + ".bias"@ == ".self_attn.q_proj.bias"@,
        ".self_attn.k_proj"@ + ".weight"@ == ".self_attn.k_proj.weight"@,
        ".self_attn.k_proj"@ + ".bias"@ == ".self_attn.k_proj.bias"@,
        ".self_attn.v_proj"@ + ".weight"@ == ".self_attn.v_proj.weight"@,
        ".self_attn.v_proj"@ + ".bias"@ == ".self_attn.v_proj.bias"@,
        ".self_attn.o_proj"@ + ".weight"@ == ".self_attn.o_proj.weight"@,
        ".self_attn.o_proj"@ + ".bias"@ == ".self_attn.o_proj.bias"@,
{
    reveal_strlit(".self_attn.q_proj");
    reveal_strlit(".weight");
    reveal_strlit(".self_attn.q_proj.weight");
    reveal_strlit(".bias");
    reveal_strlit(".self_attn.q_proj.bias");
    reveal_strlit(".self_attn.k_proj");
    reveal_strlit(".self_attn.k_proj.weight");
    reveal_strlit(".self_attn.k_proj.bias");
    reveal_strlit(".self_attn.v_proj");
    reveal_strlit(".self_attn.v_proj.weight");
    reveal_strlit(".self_attn.v_proj.bias");
    reveal_strlit(".self_attn.o_proj");
    reveal_strlit(".self_attn.o_proj.weight");
    reveal_strlit(".self_attn.o_proj.bias");
    assert(".self_attn.q_proj"@ + ".weight"@ =~= ".self_attn.q_proj.weight"@);
    assert(".self_attn.q_proj"@ + ".bias"@ =~= ".self_attn.q_proj.bias"@);
    assert(".self_attn.k_proj"@ + ".weight"@ =~= ".self_attn.k_proj.weight"@);
    assert(".self_attn.k_proj"@ + ".bias"@ =~= ".self_attn.k_proj.bias"@);
    assert(".self_attn.v_proj"@ + ".weight"@ =~= ".self_attn.v_proj.weight"@);
    assert(".self_attn.v_proj"@ + ".bias"@ =~= ".self_attn.v_proj.bias"@);
    assert(".self_attn.o_proj"@ + ".weight"@ =~= ".self_attn.o_proj.weight"@);
    assert(".self_attn.o_proj"@ + ".bias"@ =~= ".self_attn.o_proj.bias"@);
}

proof fn lemma_recurrent_names()
    ensures
        ".in_proj_qkv"@ + ".weight"@ == ".in_proj_qkv.weight"@,
        ".in_proj_qkv"@ + ".bias"@ == ".in_proj_qkv.bias"@,
        ".in_proj_z"@ + ".weight"@ == ".in_proj_z.weight"@,
        ".in_proj_z"@ + ".bias"@ == ".in_proj_z.bias"@,
        ".in_proj_b"@ + ".weight"@ == ".in_proj_b.weight"@,
        ".in_proj_b"@ + ".bias"@ == ".in_proj_b.bias"@,
        ".in_proj_a"@ + ".weight"@ == ".in_proj_a.weight"@,
        ".in_proj_a"@ + ".bias"@ == ".in_proj_a.bias"@,
        ".out_proj"@ + ".weight"@ == ".out_proj.weight"@,
        ".out_proj"@ + ".bias"@ == ".out_proj.bias"@,
{
    reveal_strlit(".in_proj_qkv");
    reveal_strlit(".weight");
    reveal_strlit(".in_proj_qkv.weight");
    reveal_strlit(".bias");
    reveal_strlit(".in_proj_qkv.bias");
    reveal_strlit(".in_proj_z");
    reveal_strlit(".in_proj_z.weight");
    reveal_strlit(".in_proj_z.bias");
    reveal_strlit(".in_proj_b");
    reveal_strlit(".in_proj_b.weight");
    reveal_strlit(".in_proj_b.bias");
    reveal_strlit(".in_proj_a");
    reveal_strlit(".in_proj_a.weight");
    reveal_strlit(".in_proj_a.bias");
    reveal_strlit(".out_proj");
    reveal_strlit(".out_proj.weight");
    reveal_strlit(".out_proj.bias");
    assert(".in_proj_qkv"@ + ".weight"@ =~= ".in_proj_qkv.weight"@);
    assert(".in_proj_qkv"@ + ".bias"@ =~= ".in_proj_qkv.bias"@);
    assert(".in_proj_z"@ + ".weight"@ =~= ".in_proj_z.weight"@);
    assert(".in_proj_z"@ + ".bias"@ =~= ".in_proj_z.bias"@);
    assert(".in_proj_b"@ + ".weight"@ =~= ".in_proj_b.weight"@);
    assert(".in_proj_b"@ + ".bias"@ =~= ".in_proj_b.bias"@);
    assert(".in_proj_a"@ + ".weight"@ =~= ".in_proj_a.weight"@);
    assert(".in_proj_a"@ + ".bias"@ =~= ".in_proj_a.bias"@);
    assert(".out_proj"@ + ".weight"@ =~= ".out_proj.weight"@);
    assert(".out_proj"@ + ".bias"@ =~= ".out_proj.bias"@);
}

/// The parts of softmax attention stand under their own names.
pub open spec fn full_at<C>(store: Store<C>, prefix: Seq<char>, attention: FullAttention<C>) -> bool {
    &&& linear_at(store, prefix + ".self_attn.q_proj.weight"@, prefix + ".self_attn.q_proj.bias"@, attention.q_proj)
    &&& linear_at(store, prefix + ".self_attn.k_proj.weight"@, prefix + ".self_attn.k_proj.bias"@, attention.k_proj)
    &&& attention.v_proj matches Some(v_proj) ==> linear_at(store, prefix + ".self_attn.v_proj.weight"@, prefix + ".self_attn.v_proj.bias"@, v_proj)
    &&& linear_at(store, prefix + ".self_attn.o_proj.weight"@, prefix + ".self_attn.o_proj.bias"@, attention.o_proj)
    &&& tensor_if_any(store, prefix + ".self_attn.q_norm.weight"@, attention.q_norm)
    &&& tensor_if_any(store, prefix + ".self_attn.k_norm.weight"@, attention.k_norm)
}

/// Softmax attention takes each of its parts from the name of that part; it has its own
/// values unless the layer's shape says that the keys serve as values.
pub proof fn law_full_attention_by_name<C: Copy>(config: CausalDecoderConfig<C>, store: Store<C>, prefix: Seq<char>, layer: int)
    ensures
        fetch_full(config, store, prefix, layer) matches Ok((rest, attention)) ==> {
            &&& left_of(store, rest)
            &&& full_at(store, prefix, attention)
            &&& attention.v_proj is None <==> 0 <= layer < config.layer_shapes@.len() && config.layer_shapes@[layer].keys_as_values
        },
{
    lemma_attention_names();
    if fetch_full(config, store, prefix, layer) is Ok {
        let q = fetch_linear(store, prefix + ".self_attn.q_proj"@)->Ok_0;
        lemma_part(store, prefix, ".self_attn.q_proj", ".self_attn.q_proj.weight", ".self_attn.q_proj.bias");
        let k = fetch_linear(q.0, prefix + ".self_attn.k_proj"@)->Ok_0;
        lemma_part(q.0, prefix, ".self_attn.k_proj", ".self_attn.k_proj.weight", ".self_attn.k_proj.bias");
        lemma_linear_up(store, q.0, prefix + ".self_attn.k_proj.weight"@, prefix + ".self_attn.k_proj.bias"@, k.1);
        let v = fetch_values(config, k.0, prefix, layer)->Ok_0;
        lemma_part(k.0, prefix, ".self_attn.v_proj", ".self_attn.v_proj.weight", ".self_attn.v_proj.bias");
        if v.1 is Some {
            lemma_linear_up(store, k.0, prefix + ".self_attn.v_proj.weight"@, prefix + ".self_attn.v_proj.bias"@, v.1->0);
        }
        let o = fetch_linear(v.0, prefix + ".self_attn.o_proj"@)->Ok_0;
        lemma_part(v.0, prefix, ".self_attn.o_proj", ".self_attn.o_proj.weight", ".self_attn.o_proj.bias");
        assert(left_of(store, v.0));
        lemma_linear_up(store, v.0, prefix + ".self_attn.o_proj.weight"@, prefix + ".self_attn.o_proj.bias"@, o.1);
        let qn = fetch_optional(o.0, prefix + ".self_attn.q_norm.weight"@)->Ok_0;
        let kn = fetch_optional(qn.0, prefix + ".self_attn.k_norm.weight"@)->Ok_0;
        assert(left_of(store, o.0));
        assert(left_of(store, qn.0));
    }
}

/// The parts of linear attention stand under their own names.
pub open spec fn recurrent_at<C>(store: Store<C>, prefix: Seq<char>, weights: LinearAttentionWeights<C>) -> bool {
    &&& linear_at(store, prefix + ".in_proj_qkv.weight"@, prefix + ".in_proj_qkv.bias"@, weights.in_proj_qkv)
    &&& linear_at(store, prefix + ".in_proj_z.weight"@, prefix + ".in_proj_z.bias"@, weights.in_proj_z)
    &&& linear_at(store, prefix + ".in_proj_b.weight"@, prefix + ".in_proj_b.bias"@, weights.in_proj_b)
    &&& linear_at(store, prefix + ".in_proj_a.weight"@, prefix + ".in_proj_a.bias"@, weights.in_proj_a)
    &&& linear_at(store, prefix + ".out_proj.weight"@, prefix + ".out_proj.bias"@, weights.out_proj)
    &&& tensor_at(store, prefix + ".conv1d.weight"@, weights.conv1d_weight)
    &&& tensor_at(store, prefix + ".A_log"@, weights.a_log)
    &&& tensor_at(store, prefix + ".dt_bias"@, weights.dt_bias)
    &&& tensor_at(store, prefix + ".norm.weight"@, weights.norm_weight)
}

/// Linear attention takes each of its parts from the name of that part.
#[verifier::spinoff_prover]
pub proof fn law_recurrent_by_name<C>(store: Store<C>, prefix: Seq<char>)
    ensures
        fetch_recurrent(store, prefix) matches Ok((rest, weights)) ==> left_of(store, rest) && recurrent_at(store, prefix, weights),
{
    lemma_recurrent_names();
    if fetch_recurrent(store, prefix) is Ok {
        let a = fetch_linear(store, prefix + ".in_proj_qkv"@)->Ok_0;
        lemma_part(store, prefix, ".in_proj_qkv", ".in_proj_qkv.weight", ".in_proj_qkv.bias");
        let b = fetch_linear(a.0, prefix + ".in_proj_z"@)->Ok_0;
        lemma_part(a.0, prefix, ".in_proj_z", ".in_proj_z.weight", ".in_proj_z.bias");
        lemma_linear_up(store, a.0, prefix + ".in_proj_z.weight"@, prefix + ".in_proj_z.bias"@, b.1);
        let c = fetch_linear(b.0, prefix + ".in_proj_b"@)->Ok_0;
        lemma_part(b.0, prefix, ".in_proj_b", ".in_proj_b.weight", ".in_proj_b.bias");
        assert(left_of(store, b.0));
        lemma_linear_up(store, b.0, prefix + ".in_proj_b.weight"@, prefix + ".in_proj_b.bias"@, c.1);
        let d = fetch_linear(c.0, prefix + ".in_proj_a"@)->Ok_0;
        lemma_part(c.0, prefix, ".in_proj_a", ".in_proj_a.weight", ".in_proj_a.bias");
        assert(left_of(store, c.0));
        lemma_linear_up(store, c.0, prefix + ".in_proj_a.weight"@, prefix + ".in_proj_a.bias"@, d.1);
        let e = fetch_linear(d.0, prefix + ".out_proj"@)->Ok_0;
        lemma_part(d.0, prefix, ".out_proj", ".out_proj.weight", ".out_proj.bias");
        assert(left_of(store, d.0));
        lemma_linear_up(store, d.0, prefix + ".out_proj.weight"@, prefix + ".out_proj.bias"@, e.1);
        assert(left_of(store, e.0));
        let f = fetch_dense(e.0, prefix + ".conv1d.weight"@)->Ok_0;
        assert(left_of(store, f.0));
        let g = fetch_dense(f.0, prefix + ".A_log"@)->Ok_0;
        assert(left_of(store, g.0));
        let h = fetch_dense(g.0, prefix + ".dt_bias"@)->Ok_0;
        assert(left_of(store, h.0));
    }
}

/// The settings of a layer in which some layers see a window: the local layers turn by the
/// local base and see the window, the others turn by scaled positions.
pub proof fn law_attention_settings<C: Copy>(config: CausalDecoderConfig<C>, store: Store<C>, prefix: Seq<char>, layer: int)
    requires
        0 <= layer,
    ensures
        fetch_attention(config, store, prefix, layer) matches Ok((rest, AttentionBlock::Full(attention))) ==> {
            let local = config.sliding_window_pattern matches Some(period) && period > 0 && (layer + 1) % (period as int) != 0;
            &&& full_at(store, prefix, attention)
            &&& left_of(store, rest)
            &&& local ==> attention.rope_theta == config.rope_local_base_freq && attention.sliding_window == config.sliding_window
                && attention.rope_position_scale is None
            &&& !local ==> attention.rope_theta is None && attention.sliding_window is None && attention.rope_position_scale
                == config.rope_position_scale
            &&& attention.value_norm == config.attention_value_norm
        },
        fetch_attention(config, store, prefix, layer) matches Ok((rest, AttentionBlock::Linear(weights))) ==> left_of(store, rest) && recurrent_at(
            store,
            prefix + ".linear_attn"@,
            weights,
        ),
        fetch_attention(config, store, prefix, layer) matches Ok((_, attention)) ==> (attention is Linear <==> (
        config.full_attention_interval matches Some(period) && period > 0 && (layer + 1) % (period as int) != 0)),
{
    law_full_attention_by_name(config, store, prefix, layer);
    law_recurrent_by_name(store, prefix + ".linear_attn"@);
}

proof fn lemma_feed_names()
    ensures
        ".mlp.gate"@ + ".weight"@ == ".mlp.gate.weight"@,
        ".mlp.gate"@ + ".bias"@ == ".mlp.gate.bias"@,
        ".router.proj"@ + ".weight"@ == ".router.proj.weight"@,
        ".router.proj"@ + ".bias"@ == ".router.proj.bias"@,
        "_gate"@ + ".weight"@ == "_gate.weight"@,
        "_gate"@ + ".bias"@ == "_gate.bias"@,
        "lm_head"@ + ".weight"@ == "lm_head.weight"@,
        "lm_head"@ + ".bias"@ == "lm_head.bias"@,
{
    reveal_strlit(".mlp.gate");
    reveal_strlit(".weight");
    reveal_strlit(".mlp.gate.weight");
    reveal_strlit(".bias");
    reveal_strlit(".mlp.gate.bias");
    reveal_strlit(".router.proj");
    reveal_strlit(".router.proj.weight");
    reveal_strlit(".router.proj.bias");
    reveal_strlit("_gate");
    reveal_strlit("_gate.weight");
    reveal_strlit("_gate.bias");
    reveal_strlit("lm_head");
    reveal_strlit("lm_head.weight");
    reveal_strlit("lm_head.bias");
    assert(".mlp.gate"@ + ".weight"@ =~= ".mlp.gate.weight"@);
    assert(".mlp.gate"@ + ".bias"@ =~= ".mlp.gate.bias"@);
    assert(".router.proj"@ + ".weight"@ =~= ".router.proj.weight"@);
    assert(".router.proj"@ + ".bias"@ =~= ".router.proj.bias"@);
    assert("_gate"@ + ".weight"@ =~= "_gate.weight"@);
    assert("_gate"@ + ".bias"@ =~= "_gate.bias"@);
    assert("lm_head"@ + ".weight"@ =~= "lm_head.weight"@);
    assert("lm_head"@ + ".bias"@ =~= "lm_head.bias"@);
}

/// The norms round the feed-forward block of a layer, and the scale of its output, stand
/// under their own names.
pub open spec fn norms_at<C>(store: Store<C>, prefix: Seq<char>, norms: NormParts<C>) -> bool {
    &&& tensor_if_any(store, prefix + ".pre_feedforward_layernorm.weight"@, norms.before)
    &&& tensor_if_any(store, prefix + ".post_feedforward_layernorm.weight"@, norms.after)
    &&& tensor_if_any(store, prefix + ".pre_feedforward_layernorm_2.weight"@, norms.before_2)
    &&& tensor_if_any(store, prefix + ".post_feedforward_layernorm_1.weight"@, norms.after_1)
    &&& tensor_if_any(store, prefix + ".post_feedforward_layernorm_2.weight"@, norms.after_2)
    &&& tensor_if_any(store, prefix + ".layer_scalar"@, norms.scalar)
}

proof fn lemma_norms<C>(store: Store<C>, prefix: Seq<char>)
    ensures
        fetch_norms(store, prefix) matches Ok((rest, norms)) ==> left_of(store, rest) && norms_at(store, prefix, norms),
{
    if fetch_norms(store, prefix) is Ok {
        let a = fetch_optional(store, prefix + ".pre_feedforward_layernorm.weight"@)->Ok_0;
        assert(left_of(store, a.0));
        let b = fetch_optional(a.0, prefix + ".post_feedforward_layernorm.weight"@)->Ok_0;
        assert(left_of(store, b.0));
        let c = fetch_optional(b.0, prefix + ".pre_feedforward_layernorm_2.weight"@)->Ok_0;
        assert(left_of(store, c.0));
        let d = fetch_optional(c.0, prefix + ".post_feedforward_layernorm_1.weight"@)->Ok_0;
        assert(left_of(store, d.0));
        let e = fetch_optional(d.0, prefix + ".post_feedforward_layernorm_2.weight"@)->Ok_0;
        assert(left_of(store, e.0));
    }
}

/// The experts that stand under three names: each of the stacks gives the maps of its name.
pub open spec fn experts_at<C>(store: Store<C>, prefix: Seq<char>, count: usize, activation: Activation, experts: Seq<ExpertView<C>>) -> bool {
    let gates = expert_weights(store[prefix + ".gate_proj.weight"@], count);
    let ups = expert_weights(store[prefix + ".up_proj.weight"@], count);
    let downs = expert_weights(store[prefix + ".down_proj.weight"@], count);
    &&& store.contains_key(prefix + ".gate_proj.weight"@) && gates is Ok
    &&& store.contains_key(prefix + ".up_proj.weight"@) && ups is Ok
    &&& store.contains_key(prefix + ".down_proj.weight"@) && downs is Ok
    &&& experts.len() == count
    &&& forall|i: int|
        0 <= i < count ==> (#[trigger] experts[i]).gate.weight == gates->Ok_0[i] && experts[i].up.weight == ups->Ok_0[i] && experts[i].down.weight
            == downs->Ok_0[i] && experts[i].activation == activation
}

proof fn lemma_experts<C>(store: Store<C>, prefix: Seq<char>, count: usize, activation: Activation)
    ensures
        fetch_expert_blocks(store, prefix, count, activation) matches Ok((rest, experts)) ==> left_of(store, rest) && experts_at(
            store,
            prefix,
            count,
            activation,
            experts,
        ),
{
    if fetch_expert_blocks(store, prefix, count, activation) is Ok {
        let a = fetch_experts(store, prefix + ".gate_proj.weight"@, count)->Ok_0;
        assert(left_of(store, a.0));
        let b = fetch_experts(a.0, prefix + ".up_proj.weight"@, count)->Ok_0;
        assert(left_of(store, b.0));
        assert(store[prefix + ".up_proj.weight"@] == a.0[prefix + ".up_proj.weight"@]);
        let c = fetch_experts(b.0, prefix + ".down_proj.weight"@, count)->Ok_0;
        assert(store[prefix + ".down_proj.weight"@] == b.0[prefix + ".down_proj.weight"@]);
    }
}

/// A stack of matrices falls into the experts' matrices one behind the other.
pub proof fn law_stack_of_experts<C>(tensor: Tensor<C>, count: usize, i: int)
    requires
        0 <= i < count,
    ensures
        expert_weights(DecoderTensor::Dense(tensor), count) matches Ok(weights) ==> {
            &&& tensor.shape@.len() == 3 && tensor.shape@[0] == count
            &&& weights.len() == count
            &&& weights[i] matches WeightView::Dense(shape, data) && shape == tensor.shape@.skip(1) && data.len() == tensor.shape@[1] * tensor.shape@[2]
                && forall|c: int| 0 <= c < data.len() ==> #[trigger] data[c] == tensor.data@[i * data.len() + c]
        },
{
    if expert_weights(DecoderTensor::Dense(tensor), count) is Ok {
        let (rows, cols) = (tensor.shape@[1] as int, tensor.shape@[2] as int);
        assert(tensor.shape@.skip(1) =~= seq![tensor.shape@[1], tensor.shape@[2]]);
        assert(0 <= rows * cols) by (nonlinear_arith)
            requires
                0 <= rows,
                0 <= cols,
        ;
        let size = rows * cols;
        assert(i * size + size <= count * size && 0 <= i * size) by (nonlinear_arith)
            requires
                0 <= i < count,
                0 <= size,
        ;
    }
}

/// A block of routed experts takes its router, its experts, the expert that every token
/// passes and that expert's gate from their own names.
pub open spec fn moe_at<C>(store: Store<C>, prefix: Seq<char>, count: usize, moe: MoeView<C>) -> bool {
    &&& linear_at(store, prefix + ".mlp.gate.weight"@, prefix + ".mlp.gate.bias"@, moe.router)
    &&& experts_at(store, prefix + ".mlp.switch_mlp"@, count, Activation::Silu, moe.experts)
    &&& moe.shared_expert matches Some(shared) ==> gated_at(store, prefix + ".mlp.shared_expert"@, shared) && shared.activation == Activation::Silu
    &&& moe.shared_expert_gate matches Some(gate) ==> linear_at(
        store,
        (prefix + ".mlp.shared_expert"@) + "_gate.weight"@,
        (prefix + ".mlp.shared_expert"@) + "_gate.bias"@,
        gate,
    )
    &&& moe.shared_expert is Some == moe.shared_expert_gate is Some
}

proof fn lemma_gated_up<C>(store: Store<C>, rest: Store<C>, prefix: Seq<char>, mlp: GatedMlp<C>)
    requires
        left_of(store, rest),
        gated_at(rest, prefix, mlp),
    ensures
        gated_at(store, prefix, mlp),
{
    lemma_linear_up(store, rest, prefix + ".gate_proj.weight"@, prefix + ".gate_proj.bias"@, mlp.gate_proj);
    lemma_linear_up(store, rest, prefix + ".up_proj.weight"@, prefix + ".up_proj.bias"@, mlp.up_proj);
    lemma_linear_up(store, rest, prefix + ".down_proj.weight"@, prefix + ".down_proj.bias"@, mlp.down_proj);
}

proof fn lemma_shared<C>(store: Store<C>, prefix: Seq<char>)
    ensures
        fetch_shared(store, prefix) matches Ok((rest, shared)) ==> {
            &&& left_of(store, rest)
            &&& shared matches Some((mlp, gate)) ==> gated_at(store, prefix, mlp) && mlp.activation == Activation::Silu && linear_at(store, prefix + "_gate.weight"@, prefix + "_gate.bias"@, gate)
        },
{
    lemma_feed_names();
    law_gated_by_name(store, prefix, Activation::Silu);
    if fetch_shared(store, prefix) is Ok && any_gated(store, prefix) {
        let a = fetch_gated(store, prefix, Activation::Silu)->Ok_0;
        let b = fetch_linear(a.0, prefix + "_gate"@)->Ok_0;
        lemma_part(a.0, prefix, "_gate", "_gate.weight", "_gate.bias");
        lemma_linear_up(store, a.0, prefix + "_gate.weight"@, prefix + "_gate.bias"@, b.1);
    }
}

proof fn lemma_experts_up<C>(store: Store<C>, rest: Store<C>, prefix: Seq<char>, count: usize, activation: Activation, experts: Seq<ExpertView<C>>)
    requires
        left_of(store, rest),
        experts_at(rest, prefix, count, activation, experts),
    ensures
        experts_at(store, prefix, count, activation, experts),
{
}

/// The feed-forward block of a layer and the norm before it stand under their own names.
pub open spec fn feed_at<C>(config: CausalDecoderConfig<C>, store: Store<C>, prefix: Seq<char>, norm: Option<Tensor<C>>, feed: Option<FeedView<C>>) -> bool {
    &&& tensor_if_any(store, prefix + ".post_attention_layernorm.weight"@, norm)
    &&& norm is Some == feed is Some
    &&& feed matches Some(FeedView::Dense(mlp)) ==> gated_at(store, prefix + ".mlp"@, mlp) && mlp.activation == config.activation
    &&& feed matches Some(FeedView::Moe(moe)) ==> config.num_experts is Some && moe_at(store, prefix, config.num_experts->0, moe) && moe.top_k
        == config.num_experts_per_tok
}

#[verifier::spinoff_prover]
proof fn lemma_moe<C>(config: CausalDecoderConfig<C>, store: Store<C>, prefix: Seq<char>)
    ensures
        fetch_moe(config, store, prefix) matches Ok((rest, feed)) ==> left_of(store, rest) && feed_at(config, store, prefix, feed.0, feed.1),
{
    lemma_feed_names();
    if fetch_moe(config, store, prefix) is Ok && (fetch_moe(config, store, prefix)->Ok_0).1.1 is Some {
        let count = config.num_experts->0;
        let shared = prefix + ".mlp.shared_expert"@;
        let a = fetch_dense(store, prefix + ".post_attention_layernorm.weight"@)->Ok_0;
        assert(left_of(store, a.0));
        let b = fetch_linear(a.0, prefix + ".mlp.gate"@)->Ok_0;
        lemma_part(a.0, prefix, ".mlp.gate", ".mlp.gate.weight", ".mlp.gate.bias");
        lemma_linear_up(store, a.0, prefix + ".mlp.gate.weight"@, prefix + ".mlp.gate.bias"@, b.1);
        assert(left_of(store, b.0));
        let c = fetch_expert_blocks(b.0, prefix + ".mlp.switch_mlp"@, count, Activation::Silu)->Ok_0;
        lemma_experts(b.0, prefix + ".mlp.switch_mlp"@, count, Activation::Silu);
        lemma_experts_up(store, b.0, prefix + ".mlp.switch_mlp"@, count, Activation::Silu, c.1);
        assert(left_of(store, c.0));
        let d = fetch_shared(c.0, shared)->Ok_0;
        lemma_shared(c.0, shared);
        if d.1 is Some {
            let (mlp, gate) = d.1->0;
            lemma_gated_up(store, c.0, shared, mlp);
            lemma_linear_up(store, c.0, shared + "_gate.weight"@, shared + "_gate.bias"@, gate);
        }
        assert(left_of(store, d.0));
    }
}

/// A feed-forward block takes each of its parts, and the norm before it, from the name of
/// that part.
pub proof fn law_feed_by_name<C>(config: CausalDecoderConfig<C>, store: Store<C>, prefix: Seq<char>)
    ensures
        fetch_feed(config, store, prefix) matches Ok((rest, feed)) ==> left_of(store, rest) && feed_at(config, store, prefix, feed.0, feed.1),
{
    lemma_moe(config, store, prefix);
    if fetch_feed(config, store, prefix) is Ok && any_gated(store, prefix + ".mlp"@) {
        let a = fetch_dense(store, prefix + ".post_attention_layernorm.weight"@)->Ok_0;
        assert(left_of(store, a.0));
        law_gated_by_name(a.0, prefix + ".mlp"@, config.activation);
        let b = fetch_gated(a.0, prefix + ".mlp"@, config.activation)->Ok_0;
        lemma_gated_up(store, a.0, prefix + ".mlp"@, b.1);
    }
}

/// The block of experts beside the feed-forward block takes its parts from their own names,
/// and its router's norm from the router's scale.
pub open spec fn beside_at<C>(config: CausalDecoderConfig<C>, store: Store<C>, prefix: Seq<char>, feed: Option<FeedView<C>>) -> bool {
    feed matches Some(block) ==> {
        &&& config.parallel_moe
        &&& config.num_experts is Some
        &&& block matches FeedView::Moe(moe)
        &&& linear_at(store, prefix + ".router.proj.weight"@, prefix + ".router.proj.bias"@, moe.router)
        &&& experts_at(store, prefix + ".experts.switch_glu"@, config.num_experts->0, config.activation, moe.experts)
        &&& moe.per_expert_scale is Some && tensor_if_any(store, prefix + ".router.per_expert_scale"@, moe.per_expert_scale)
        &&& store.contains_key(prefix + ".router.scale"@) && moe.router_norm is Some
        &&& moe.shared_expert is None && moe.shared_expert_gate is None
        &&& moe.top_k == config.num_experts_per_tok
    }
}

#[verifier::spinoff_prover]
proof fn lemma_beside<K: Kernel>(k: K, config: CausalDecoderConfig<K::Cell>, store: Store<K::Cell>, prefix: Seq<char>)
    ensures
        fetch_beside(k, config, store, prefix) matches Ok((rest, feed)) ==> left_of(store, rest) && beside_at(config, store, prefix, feed),
{
    lemma_feed_names();
    if fetch_beside(k, config, store, prefix) is Ok && (fetch_beside(k, config, store, prefix)->Ok_0).1 is Some {
        let count = config.num_experts->0;
        assert(fetch_parallel(k, config, store, prefix) is Ok);
        let a = fetch_linear(store, prefix + ".router.proj"@)->Ok_0;
        lemma_part(store, prefix, ".router.proj", ".router.proj.weight", ".router.proj.bias");
        let b = fetch_expert_blocks(a.0, prefix + ".experts.switch_glu"@, count, config.activation)->Ok_0;
        lemma_experts(a.0, prefix + ".experts.switch_glu"@, count, config.activation);
        lemma_experts_up(store, a.0, prefix + ".experts.switch_glu"@, count, config.activation, b.1);
        assert(left_of(store, b.0));
        let c = fetch_dense(b.0, prefix + ".router.scale"@)->Ok_0;
        assert(left_of(store, c.0));
        let d = fetch_dense(c.0, prefix + ".router.per_expert_scale"@)->Ok_0;
        assert(left_of(store, d.0));
    }
}

/// Every part of a layer stands under its own name behind the layer's number.
pub open spec fn layer_at<C: Copy>(config: CausalDecoderConfig<C>, store: Store<C>, number: nat, layer: DecoderLayer<C>) -> bool {
    let prefix = "layers."@ + digits_of(number);
    &&& tensor_at(store, prefix + ".input_layernorm.weight"@, layer.input_norm)
    &&& layer.attention matches AttentionBlock::Full(attention) ==> full_at(store, prefix, attention)
    &&& layer.attention matches AttentionBlock::Linear(weights) ==> recurrent_at(store, prefix + ".linear_attn"@, weights)
    &&& feed_at(config, store, prefix, layer.post_attention_norm, optional_feed_view(layer.mlp))
    &&& beside_at(config, store, prefix, optional_feed_view(layer.parallel_moe))
    &&& tensor_if_any(store, prefix + ".pre_feedforward_layernorm.weight"@, layer.pre_feedforward_norm)
    &&& tensor_if_any(store, prefix + ".post_feedforward_layernorm.weight"@, layer.post_feedforward_norm)
    &&& tensor_if_any(store, prefix + ".pre_feedforward_layernorm_2.weight"@, layer.pre_feedforward_norm_2)
    &&& tensor_if_any(store, prefix + ".post_feedforward_layernorm_1.weight"@, layer.post_feedforward_norm_1)
    &&& tensor_if_any(store, prefix + ".post_feedforward_layernorm_2.weight"@, layer.post_feedforward_norm_2)
    &&& tensor_if_any(store, prefix + ".layer_scalar"@, layer.layer_scalar)
}

proof fn lemma_feed_up<C>(config: CausalDecoderConfig<C>, store: Store<C>, rest: Store<C>, prefix: Seq<char>, norm: Option<Tensor<C>>, feed: Option<FeedView<C>>)
    requires
        left_of(store, rest),
        feed_at(config, rest, prefix, norm, feed),
    ensures
        feed_at(config, store, prefix, norm, feed),
{
    match feed {
        Some(FeedView::Dense(mlp)) => lemma_gated_up(store, rest, prefix + ".mlp"@, mlp),
        Some(FeedView::Moe(moe)) => {
            let shared = prefix + ".mlp.shared_expert"@;
            lemma_linear_up(store, rest, prefix + ".mlp.gate.weight"@, prefix + ".mlp.gate.bias"@, moe.router);
            lemma_experts_up(store, rest, prefix + ".mlp.switch_mlp"@, config.num_experts->0, Activation::Silu, moe.experts);
            if moe.shared_expert is Some {
                lemma_gated_up(store, rest, shared, moe.shared_expert->0);
                lemma_linear_up(store, rest, shared + "_gate.weight"@, shared + "_gate.bias"@, moe.shared_expert_gate->0);
            }
        },
        None => {},
    }
}

proof fn lemma_attention_up<C>(store: Store<C>, rest: Store<C>, prefix: Seq<char>, attention: AttentionBlock<C>)
    requires
        left_of(store, rest),
        attention matches AttentionBlock::Full(attention) ==> full_at(rest, prefix, attention),
        attention matches AttentionBlock::Linear(weights) ==> recurrent_at(rest, prefix + ".linear_attn"@, weights),
    ensures
        attention matches AttentionBlock::Full(attention) ==> full_at(store, prefix, attention),
        attention matches AttentionBlock::Linear(weights) ==> recurrent_at(store, prefix + ".linear_attn"@, weights),
{
    match attention {
        AttentionBlock::Full(attention) => {
            lemma_linear_up(store, rest, prefix + ".self_attn.q_proj.weight"@, prefix + ".self_attn.q_proj.bias"@, attention.q_proj);
            lemma_linear_up(store, rest, prefix + ".self_attn.k_proj.weight"@, prefix + ".self_attn.k_proj.bias"@, attention.k_proj);
            if attention.v_proj is Some {
                lemma_linear_up(store, rest, prefix + ".self_attn.v_proj.weight"@, prefix + ".self_attn.v_proj.bias"@, attention.v_proj->0);
            }
            lemma_linear_up(store, rest, prefix + ".self_attn.o_proj.weight"@, prefix + ".self_attn.o_proj.bias"@, attention.o_proj);
        },
        AttentionBlock::Linear(weights) => {
            let block = prefix + ".linear_attn"@;
            lemma_linear_up(store, rest, block + ".in_proj_qkv.weight"@, block + ".in_proj_qkv.bias"@, weights.in_proj_qkv);
            lemma_linear_up(store, rest, block + ".in_proj_z.weight"@, block + ".in_proj_z.bias"@, weights.in_proj_z);
            lemma_linear_up(store, rest, block + ".in_proj_b.weight"@, block + ".in_proj_b.bias"@, weights.in_proj_b);
            lemma_linear_up(store, rest, block + ".in_proj_a.weight"@, block + ".in_proj_a.bias"@, weights.in_proj_a);
            lemma_linear_up(store, rest, block + ".out_proj.weight"@, block + ".out_proj.bias"@, weights.out_proj);
        },
    }
}

proof fn lemma_beside_up<C>(config: CausalDecoderConfig<C>, store: Store<C>, rest: Store<C>, prefix: Seq<char>, feed: Option<FeedView<C>>)
    requires
        left_of(store, rest),
        beside_at(config, rest, prefix, feed),
    ensures
        beside_at(config, store, prefix, feed),
{
    match feed {
        Some(FeedView::Moe(moe)) => {
            lemma_linear_up(store, rest, prefix + ".router.proj.weight"@, prefix + ".router.proj.bias"@, moe.router);
            lemma_experts_up(store, rest, prefix + ".experts.switch_glu"@, config.num_experts->0, config.activation, moe.experts);
        },
        _ => {},
    }
}

/// A layer takes each of its parts from the name of that part behind the layer's number.
#[verifier::spinoff_prover]
pub proof fn law_layer_by_name<K: Kernel>(k: K, config: CausalDecoderConfig<K::Cell>, store: Store<K::Cell>, number: nat, layer: DecoderLayer<K::Cell>)
    ensures
        fetch_layer(k, config, store, number as int) matches Ok((rest, parts)) ==> left_of(store, rest) && (parts == parts_of(layer) ==> layer_at(
            config,
            store,
            number,
            layer,
        )),
{
    let prefix = "layers."@ + digits_of(number);
    if fetch_layer(k, config, store, number as int) is Ok {
        let a = fetch_dense(store, prefix + ".input_layernorm.weight"@)->Ok_0;
        assert(left_of(store, a.0));
        let b = fetch_attention(config, a.0, prefix, number as int)->Ok_0;
        law_attention_settings(config, a.0, prefix, number as int);
        lemma_attention_up(store, a.0, prefix, b.1);
        assert(left_of(store, b.0));
        let c = fetch_feed(config, b.0, prefix)->Ok_0;
        law_feed_by_name(config, b.0, prefix);
        lemma_feed_up(config, store, b.0, prefix, c.1.0, c.1.1);
        assert(left_of(store, c.0));
        let d = fetch_beside(k, config, c.0, prefix)->Ok_0;
        lemma_beside(k, config, c.0, prefix);
        lemma_beside_up(config, store, c.0, prefix, d.1);
        assert(left_of(store, d.0));
        let e = fetch_norms(d.0, prefix)->Ok_0;
        lemma_norms(d.0, prefix);
        assert(left_of(store, e.0));
        assert(norms_at(store, prefix, e.1));
    }
}

/// What layers take from a store they take from a larger one.
proof fn lemma_layer_up<C: Copy>(config: CausalDecoderConfig<C>, store: Store<C>, rest: Store<C>, number: nat, layer: DecoderLayer<C>)
    requires
        left_of(store, rest),
        layer_at(config, rest, number, layer),
    ensures
        layer_at(config, store, number, layer),
{
    let prefix = "layers."@ + digits_of(number);
    lemma_attention_up(store, rest, prefix, layer.attention);
    lemma_feed_up(config, store, rest, prefix, layer.post_attention_norm, optional_feed_view(layer.mlp));
    lemma_beside_up(config, store, rest, prefix, optional_feed_view(layer.parallel_moe));
}

proof fn lemma_layers<K: Kernel>(k: K, config: CausalDecoderConfig<K::Cell>, store: Store<K::Cell>, count: nat, layers: Seq<DecoderLayer<K::Cell>>)
    requires
        layers.len() >= count,
    ensures
        fetch_layers(k, config, store, count) matches Ok((rest, parts)) ==> {
            &&& left_of(store, rest)
            &&& parts.len() == count
            &&& forall|i: int| 0 <= i < count && (#[trigger] parts[i]) == parts_of(layers[i]) ==> layer_at(config, store, i as nat, layers[i])
        },
    decreases count,
{
    if count > 0 && fetch_layers(k, config, store, count) is Ok {
        let before = (count - 1) as nat;
        lemma_layers(k, config, store, before, layers);
        let a = fetch_layers(k, config, store, before)->Ok_0;
        let b = fetch_layer(k, config, a.0, before as int)->Ok_0;
        law_layer_by_name(k, config, a.0, before, layers[before as int]);
        let parts = a.1.push(b.1);
        assert forall|i: int| 0 <= i < count && (#[trigger] parts[i]) == parts_of(layers[i]) implies layer_at(config, store, i as nat, layers[i]) by {
            if i < before {
                assert(a.1[i] == parts[i]);
            } else {
                lemma_layer_up(config, store, a.0, before, layers[i]);
            }
        }
    }
}

/// A model takes each of its parts from the name of that part: the embeddings, every layer
/// behind its number, the last norm and the output map.
pub proof fn law_model_by_name<K: Kernel>(
    k: K,
    config: CausalDecoderConfig<K::Cell>,
    store: Store<K::Cell>,
    embed_tokens: LinearWeight<K::Cell>,
    layers: Seq<DecoderLayer<K::Cell>>,
    final_norm: Tensor<K::Cell>,
    lm_head: Linear<K::Cell>,
)
    requires
        fetch_model(k, config, store) matches Ok((_, parts)) && parts == (ModelParts { embed_tokens, layers: all_parts(layers), final_norm, lm_head }),
    ensures
        weight_at(store, "embed_tokens.weight"@, embed_tokens),
        tensor_at(store, "norm.weight"@, final_norm),
        linear_at(store, "lm_head.weight"@, "lm_head.bias"@, lm_head),
        layers.len() == config.num_hidden_layers,
        forall|i: int| 0 <= i < layers.len() ==> layer_at(config, store, i as nat, #[trigger] layers[i]),
{
    lemma_feed_names();
    let name = "embed_tokens.weight"@;
    let a = fetch_weight(store, name)->Ok_0;
    assert(weight_at(store, name, embed_tokens)) by {
        match store[name] {
            DecoderTensor::Dense(tensor) => {
                assert(tensor_at(store, name, tensor));
            },
            _ => {},
        }
    }
    assert(left_of(store, a.0));
    let count = config.num_hidden_layers as nat;
    let b = fetch_layers(k, config, a.0, count)->Ok_0;
    assert(b.1 == all_parts(layers));
    lemma_layers_len(k, config, a.0, count);
    lemma_layers(k, config, a.0, count, layers);
    assert forall|i: int| 0 <= i < layers.len() implies layer_at(config, store, i as nat, #[trigger] layers[i]) by {
        assert(b.1[i] == parts_of(layers[i]));
        lemma_layer_up(config, store, a.0, i as nat, layers[i]);
    }
    assert(left_of(store, b.0));
    let c = fetch_dense(b.0, "norm.weight"@)->Ok_0;
    assert(left_of(store, c.0));
    law_linear_by_name(c.0, "lm_head"@);
    lemma_linear_up(store, c.0, "lm_head.weight"@, "lm_head.bias"@, lm_head);
}

proof fn lemma_layers_len<K: Kernel>(k: K, config: CausalDecoderConfig<K::Cell>, store: Store<K::Cell>, count: nat)
    ensures
        fetch_layers(k, config, store, count) matches Ok((_, parts)) ==> parts.len() == count,
    decreases count,
{
    if count > 0 {
        lemma_layers_len(k, config, store, (count - 1) as nat);
    }
}

/// The number that decimal digits write.
pub open spec fn number_of(digits: Seq<char>) -> int
    decreases digits.len(),
{
    if digits.len() == 0 {
        0
    } else {
        number_of(digits.drop_last()) * 10 + (digits.last() as u32 as int - 48)
    }
}

/// A layer's number is written in decimal digits that give the number back, and without a
/// zero before them; so no two layers have one prefix.
pub proof fn law_digits_give_the_number(n: nat)
    ensures
        number_of(digits_of(n)) == n,
        digits_of(n).len() > 0,
        n > 0 ==> digits_of(n)[0] != '0',
        forall|i: int| 0 <= i < digits_of(n).len() ==> '0' <= #[trigger] digits_of(n)[i] <= '9',
    decreases n,
{
    let d = n % 10;
    reveal_with_fuel(number_of, 2);
    assert(digit_char(d) as u32 == 48 + d);
    assert(digits_of(n).last() == digit_char(d));
    if n >= 10 {
        law_digits_give_the_number(n / 10);
        assert(digits_of(n).drop_last() =~= digits_of(n / 10));
    } else {
        assert(digits_of(n).drop_last() =~= Seq::empty());
    }
}

/// What is said of a block by its numbers is said of the block, map by map, and so with the
/// scales and biases of a packed weight.
pub proof fn law_parts_by_their_numbers<C>(mlp: GatedMlp<C>, linear: Linear<C>, moe: MoeMlp<C>, i: int)
    requires
        0 <= i < moe.experts@.len(),
    ensures
        expert_view(mlp).gate == linear_view(mlp.gate_proj),
        expert_view(mlp).up == linear_view(mlp.up_proj),
        expert_view(mlp).down == linear_view(mlp.down_proj),
        expert_view(mlp).activation == mlp.activation,
        linear_view(linear).in_dim == linear.in_dim && linear_view(linear).out_dim == linear.out_dim,
        linear.weight matches LinearWeight::Dense(tensor) ==> linear_view(linear).weight == WeightView::Dense(tensor.shape@, tensor.data@),
        linear.weight matches LinearWeight::AffineQuantized(matrix) ==> (linear_view(linear).weight matches WeightView::AffineQuantized(view) && view.scales
            == matrix.scales@ && view.biases == matrix.biases@ && view.packed == matrix.packed@ && view.rows == matrix.rows && view.cols == matrix.cols
            && view.bits == matrix.bits && view.group_size == matrix.group_size),
        feed_view(FeedForward::Moe(moe)) matches FeedView::Moe(view) && view.router == moe.router && view.experts[i] == expert_view(moe.experts@[i])
            && view.shared_expert == moe.shared_expert && view.shared_expert_gate == moe.shared_expert_gate && view.per_expert_scale
            == moe.per_expert_scale && view.top_k == moe.top_k && (moe.router_norm matches Some(norm) ==> view.router_norm == Some(
            (norm.weight.data@, norm.eps),
        )),
        feed_view(FeedForward::Dense(mlp)) == FeedView::Dense(mlp),
{
}

} // verus!
