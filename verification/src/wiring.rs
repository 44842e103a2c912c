//! How the parts of a layer and of a draft head are joined.

use vstd::prelude::*;
use crate::attention::FullAttention;
use crate::config::CausalDecoderConfig;
use crate::context::projected_row;
use crate::kernel::{activate_of, binary_of, constant_of, project_of, recur_of, Binary, Constant, Kernel};
use crate::kv::LayerView;
use crate::layer::{attention_row, combined_row, double_normed_ffn, layer_row, norm_of, AttentionBlock, DecoderLayer};
use crate::linear::{feed_forward_row, gated_mlp_row, linear_row, FeedForward};
use crate::model::{embed_row, layers_row, step, CacheView, DecoderModel};
use crate::mtp_head::{mtp_input, mtp_output, MtpHead};
use crate::numbers::{neutral, repeated};
use crate::tensor::Tensor;
use crate::weights::{GatedMlp, Linear};
use crate::rows::{activated_product, sum_rows};

verus! {

/// Every number of a row is zero.
pub open spec fn is_zeros<K: Kernel>(k: K, row: Seq<K::Cell>) -> bool {
    forall|i: int| 0 <= i < row.len() ==> #[trigger] row[i] == constant_of(k, Constant::Zero)
}

/// The row of zeros of a length.
pub open spec fn zeros<K: Kernel>(k: K, n: nat) -> Seq<K::Cell> {
    repeated(constant_of(k, Constant::Zero), n)
}

/// A norm with a weight of zeros leaves zeros.
proof fn lemma_shut_norm<K: Kernel>(k: K, row: Seq<K::Cell>, weight: Tensor<K::Cell>, eps: K::Cell)
    requires
        neutral(k),
        is_zeros(k, weight.data@),
    ensures
        norm_of(k, row, weight, eps) matches Some(normed) ==> normed == zeros(k, row.len()) && weight.data@.len() == row.len(),
{
    if norm_of(k, row, weight, eps) is Some {
        assert(norm_of(k, row, weight, eps)->0 =~= zeros(k, row.len()));
    }
}

/// The input of a layer goes through beside its parts: where its attention and its block put
/// out zeros, the layer puts out what it was given; and where only the block does, the sum of
/// that and the attention's output.
pub proof fn law_input_goes_through<K: Kernel>(
    k: K,
    config: CausalDecoderConfig<K::Cell>,
    layer: DecoderLayer<K::Cell>,
    x: Seq<K::Cell>,
    attn: Seq<K::Cell>,
    i: int,
)
    requires
        neutral(k),
        layer.pre_feedforward_norm is None,
        layer.mlp matches Some(block) ==> forall|row: Seq<K::Cell>| (#[trigger] feed_forward_row(k, block, row)) matches Some(out) ==> is_zeros(k, out),
        0 <= i < x.len(),
    ensures
        combined_row(k, config, layer, x, attn) matches Some(out) ==> {
            &&& out.len() == x.len() && attn.len() == x.len()
            &&& out[i] == binary_of(k, Binary::Add, x[i], attn[i])
            &&& attn[i] == constant_of(k, Constant::Zero) ==> out[i] == x[i]
        },
{
    if combined_row(k, config, layer, x, attn) is Some && layer.mlp is Some {
        let state = sum_rows(k, x, attn);
        let norm = layer.post_attention_norm->0;
        let input = norm_of(k, state, norm, config.rms_eps)->0;
        let made = feed_forward_row(k, layer.mlp->0, input)->0;
        assert(is_zeros(k, made));
        assert(made[i] == constant_of(k, Constant::Zero));
    }
}

/// The block of a layer sees the sum of its input and the attention's output through the
/// norm behind the attention: where that norm shuts, the block sees zeros, whatever they are.
pub proof fn law_block_behind_its_norm<K: Kernel>(
    k: K,
    config: CausalDecoderConfig<K::Cell>,
    layer: DecoderLayer<K::Cell>,
    norm: Tensor<K::Cell>,
    block: FeedForward<K::Cell>,
    x: Seq<K::Cell>,
    attn: Seq<K::Cell>,
    i: int,
)
    requires
        neutral(k),
        layer.pre_feedforward_norm is None,
        layer.post_attention_norm == Some(norm),
        layer.mlp == Some(block),
        is_zeros(k, norm.data@),
        0 <= i < x.len(),
    ensures
        combined_row(k, config, layer, x, attn) matches Some(out) ==> (feed_forward_row(k, block, zeros(k, x.len())) matches Some(made) && out[i]
            == binary_of(k, Binary::Add, binary_of(k, Binary::Add, x[i], attn[i]), made[i])),
{
    let state = sum_rows(k, x, attn);
    lemma_shut_norm(k, state, norm, config.rms_eps);
}

/// What a layer makes of the attention's output does not depend on the norm before the
/// attention, nor on the attention itself.
pub proof fn law_tail_knows_no_attention<K: Kernel>(
    k: K,
    config: CausalDecoderConfig<K::Cell>,
    layer: DecoderLayer<K::Cell>,
    other: DecoderLayer<K::Cell>,
    x: Seq<K::Cell>,
    attn: Seq<K::Cell>,
)
    requires
        other == (DecoderLayer { input_norm: other.input_norm, attention: other.attention, ..layer }),
    ensures
        combined_row(k, config, other, x, attn) == combined_row(k, config, layer, x, attn),
{
    assert forall|hidden: Seq<K::Cell>, eps: K::Cell| #[trigger] double_normed_ffn(k, other, hidden, eps) == double_normed_ffn(k, layer, hidden, eps) by {}
}

/// In a layer that norms its block on both sides, the attention's output comes in through the
/// norm behind the attention: where that norm shuts, the output does not matter.
pub proof fn law_attention_behind_its_norm<K: Kernel>(
    k: K,
    config: CausalDecoderConfig<K::Cell>,
    layer: DecoderLayer<K::Cell>,
    norm: Tensor<K::Cell>,
    x: Seq<K::Cell>,
    attn: Seq<K::Cell>,
    other: Seq<K::Cell>,
)
    requires
        neutral(k),
        layer.pre_feedforward_norm is Some,
        layer.post_attention_norm == Some(norm),
        is_zeros(k, norm.data@),
        attn.len() == other.len(),
    ensures
        combined_row(k, config, layer, x, attn) == combined_row(k, config, layer, x, other),
{
    lemma_shut_norm(k, attn, norm, config.rms_eps);
    lemma_shut_norm(k, other, norm, config.rms_eps);
}

/// In a layer that norms its block on both sides, the block's output comes in through the norm
/// behind the block: where that norm shuts, the layer puts out its input with the normed
/// output of the attention added, times the layer's scale where it has one.
pub proof fn law_block_behind_its_second_norm<K: Kernel>(
    k: K,
    config: CausalDecoderConfig<K::Cell>,
    layer: DecoderLayer<K::Cell>,
    norm: Tensor<K::Cell>,
    x: Seq<K::Cell>,
    attn: Seq<K::Cell>,
    i: int,
)
    requires
        neutral(k),
        layer.pre_feedforward_norm is Some,
        layer.post_feedforward_norm == Some(norm),
        is_zeros(k, norm.data@),
        0 <= i < x.len(),
    ensures
        combined_row(k, config, layer, x, attn) matches Some(out) ==> {
            &&& layer.post_attention_norm matches Some(behind) && norm_of(k, attn, behind, config.rms_eps) is Some
            &&& ({
                let normed = norm_of(k, attn, layer.post_attention_norm->0, config.rms_eps)->0;
                let sum = binary_of(k, Binary::Add, x[i], normed[i]);
                match layer.layer_scalar {
                    Some(scalar) => out[i] == binary_of(k, Binary::Mul, sum, scalar.data@[0]),
                    None => out[i] == sum,
                }
            })
        },
{
    if combined_row(k, config, layer, x, attn) is Some {
        let normed = norm_of(k, attn, layer.post_attention_norm->0, config.rms_eps)->0;
        let hidden = sum_rows(k, x, normed);
        let ffn = double_normed_ffn(k, layer, hidden, config.rms_eps)->0;
        lemma_shut_norm(k, ffn, norm, config.rms_eps);
    }
}

/// A layer's block sees the layer through the norm before the block: where that norm shuts
/// and there are no experts beside it, the block sees zeros.
pub proof fn law_block_behind_its_first_norm<K: Kernel>(k: K, layer: DecoderLayer<K::Cell>, norm: Tensor<K::Cell>, block: FeedForward<K::Cell>, hidden: Seq<K::Cell>, eps: K::Cell)
    requires
        neutral(k),
        layer.pre_feedforward_norm == Some(norm),
        layer.mlp == Some(block),
        layer.parallel_moe is None,
        is_zeros(k, norm.data@),
    ensures
        double_normed_ffn(k, layer, hidden, eps) matches Some(made) ==> feed_forward_row(k, block, zeros(k, hidden.len())) == Some(made),
{
    lemma_shut_norm(k, hidden, norm, eps);
}

/// Experts beside the block come in through their own norm, and the block through its own:
/// where the one shuts, what stands behind it does not matter.
pub proof fn law_experts_behind_their_norms<K: Kernel>(k: K, layer: DecoderLayer<K::Cell>, other: DecoderLayer<K::Cell>, after: Tensor<K::Cell>, hidden: Seq<K::Cell>, eps: K::Cell)
    requires
        neutral(k),
        layer.parallel_moe is Some,
        other.parallel_moe is Some,
        is_zeros(k, after.data@),
        double_normed_ffn(k, layer, hidden, eps) is Some,
        double_normed_ffn(k, other, hidden, eps) is Some,
    ensures
        layer.post_feedforward_norm_2 == Some(after) && other == (DecoderLayer {
            parallel_moe: other.parallel_moe,
            pre_feedforward_norm_2: other.pre_feedforward_norm_2,
            ..layer
        }) ==> double_normed_ffn(k, layer, hidden, eps) == double_normed_ffn(k, other, hidden, eps),
        layer.post_feedforward_norm_1 == Some(after) && other == (DecoderLayer {
            mlp: other.mlp,
            pre_feedforward_norm: other.pre_feedforward_norm,
            ..layer
        }) ==> double_normed_ffn(k, layer, hidden, eps) == double_normed_ffn(k, other, hidden, eps),
{
    let made = double_normed_ffn(k, layer, hidden, eps)->0;
    let also = double_normed_ffn(k, other, hidden, eps)->0;
    let dense = feed_forward_row(k, layer.mlp->0, norm_of(k, hidden, layer.pre_feedforward_norm->0, eps)->0)->0;
    let dense_too = feed_forward_row(k, other.mlp->0, norm_of(k, hidden, other.pre_feedforward_norm->0, eps)->0)->0;
    let mixed = feed_forward_row(k, layer.parallel_moe->0, norm_of(k, hidden, layer.pre_feedforward_norm_2->0, eps)->0)->0;
    let mixed_too = feed_forward_row(k, other.parallel_moe->0, norm_of(k, hidden, other.pre_feedforward_norm_2->0, eps)->0)->0;
    lemma_shut_norm(k, dense, after, eps);
    lemma_shut_norm(k, dense_too, after, eps);
    lemma_shut_norm(k, mixed, after, eps);
    lemma_shut_norm(k, mixed_too, after, eps);
    assert(dense.len() == hidden.len() && dense_too.len() == hidden.len());
    assert(mixed.len() == hidden.len() && mixed_too.len() == hidden.len());
}

/// The attention of a layer sees the layer's input through the norm before it: where that
/// norm shuts, the input does not matter.
pub proof fn law_attention_behind_the_input_norm<K: Kernel>(
    k: K,
    config: CausalDecoderConfig<K::Cell>,
    layer: DecoderLayer<K::Cell>,
    view: LayerView<K::Cell>,
    x: Seq<K::Cell>,
    other: Seq<K::Cell>,
    position: int,
)
    requires
        neutral(k),
        is_zeros(k, layer.input_norm.data@),
        x.len() == other.len(),
    ensures
        attention_row(k, config, layer, view, x, position) == attention_row(k, config, layer, view, other, position),
{
    lemma_shut_norm(k, x, layer.input_norm, config.rms_eps);
    lemma_shut_norm(k, other, layer.input_norm, config.rms_eps);
}

/// A layer with full attention leaves the state of a recurrence alone; one with a recurrence
/// leaves keys and values alone, and goes from the state that it left to the next.
pub proof fn law_layers_keep_apart<K: Kernel>(
    k: K,
    config: CausalDecoderConfig<K::Cell>,
    layer: DecoderLayer<K::Cell>,
    view: LayerView<K::Cell>,
    x: Seq<K::Cell>,
    position: int,
)
    ensures
        layer_row(k, config, layer, view, x, position) matches Some((after, _)) ==> match layer.attention {
            AttentionBlock::Full(_) => after.recurrent == view.recurrent,
            AttentionBlock::Linear(weights) => after.keys == view.keys && after.values == view.values && after.kv_dim == view.kv_dim && (norm_of(
                k,
                x,
                layer.input_norm,
                config.rms_eps,
            ) matches Some(normed) && config.linear_sizes() matches Some(sizes) && after.recurrent == recur_of(
                k,
                weights,
                sizes,
                view.recurrent,
                normed,
            ).1),
        },
{
}

/// The state that a token leaves comes through the last norm.
pub proof fn law_state_behind_the_last_norm<K: Kernel>(m: DecoderModel<K>, cache: CacheView<K::Cell>, token: usize)
    requires
        neutral(m.kernel),
        is_zeros(m.kernel, m.final_norm.data@),
    ensures
        step(m, cache, token) matches Some((after, state)) ==> is_zeros(m.kernel, state) && after.position == cache.position + 1,
{
    if step(m, cache, token) is Some {
        let x = embed_row(m, token)->0;
        let y = (layers_row(m, 0, cache.layers, x, cache.position)->0).1;
        lemma_shut_norm(m.kernel, y, m.final_norm, m.config.rms_eps);
    }
}

/// A block of three maps puts its up row through its last map where the activation takes its
/// other row to ones, and zeros where it takes it to zeros.
pub proof fn law_gated_block<K: Kernel>(k: K, mlp: GatedMlp<K::Cell>, row: Seq<K::Cell>, gate: Seq<K::Cell>, up: Seq<K::Cell>)
    requires
        neutral(k),
        linear_row(k, mlp.gate_proj, row) == Some(gate),
        linear_row(k, mlp.up_proj, row) == Some(up),
        gate.len() == up.len(),
    ensures
        (forall|i: int| 0 <= i < gate.len() ==> activate_of(k, mlp.activation, #[trigger] gate[i]) == constant_of(k, Constant::One)) ==> gated_mlp_row(
            k,
            mlp,
            row,
        ) == linear_row(k, mlp.down_proj, up),
        (forall|i: int| 0 <= i < gate.len() ==> activate_of(k, mlp.activation, #[trigger] gate[i]) == constant_of(k, Constant::Zero)) ==> gated_mlp_row(
            k,
            mlp,
            row,
        ) == linear_row(k, mlp.down_proj, zeros(k, up.len())),
        is_zeros(k, up) ==> gated_mlp_row(k, mlp, row) == linear_row(k, mlp.down_proj, zeros(k, up.len())),
{
    let product = activated_product(k, mlp.activation, gate, up);
    if forall|i: int| 0 <= i < gate.len() ==> activate_of(k, mlp.activation, #[trigger] gate[i]) == constant_of(k, Constant::One) {
        assert(product =~= up);
    }
    if forall|i: int| 0 <= i < gate.len() ==> activate_of(k, mlp.activation, #[trigger] gate[i]) == constant_of(k, Constant::Zero) {
        assert(product =~= zeros(k, up.len()));
    }
    if is_zeros(k, up) {
        assert(product =~= zeros(k, up.len()));
    }
}

/// A bias is added to what the weight makes of a row, number by number.
pub proof fn law_bias_is_added<K: Kernel>(k: K, linear: Linear<K::Cell>, row: Seq<K::Cell>, i: int)
    requires
        linear.wf(),
        0 <= i < linear.out_dim,
    ensures
        linear_row(k, linear, row) matches Some(out) ==> {
            &&& out.len() == linear.out_dim && row.len() == linear.in_dim
            &&& linear.bias is None ==> out == project_of(k, linear.weight, row)
            &&& linear.bias matches Some(bias) ==> out[i] == binary_of(k, Binary::Add, project_of(k, linear.weight, row)[i], bias.data@[i])
        },
{
}

/// Queries, keys and values each come of their own map: another map for the one leaves the
/// others as they are. Without a map of their own, the values are those of the keys' map.
pub proof fn law_projections_apart<K: Kernel>(
    k: K,
    config: CausalDecoderConfig<K::Cell>,
    attention: FullAttention<K::Cell>,
    other: FullAttention<K::Cell>,
    x: Seq<K::Cell>,
)
    requires
        projected_row(k, config, attention, x) is Some,
        projected_row(k, config, other, x) is Some,
    ensures
        ({
            let (q, gate, key, value) = projected_row(k, config, attention, x)->0;
            let (q_too, gate_too, key_too, value_too) = projected_row(k, config, other, x)->0;
            &&& other == (FullAttention { q_proj: other.q_proj, ..attention }) ==> key == key_too && value == value_too
            &&& other == (FullAttention { k_proj: other.k_proj, ..attention }) && attention.v_proj is Some ==> q == q_too && gate == gate_too && value == value_too
            &&& other == (FullAttention { v_proj: other.v_proj, ..attention }) ==> q == q_too && gate == gate_too && key == key_too
            &&& attention.v_proj is None && other == (FullAttention { v_proj: Some(attention.k_proj), ..attention }) ==> value == value_too
            &&& attention.v_proj is None ==> value == key
        }),
{
}

/// The map of a draft head sees a token's embedding in the first half of its row and the
/// state before the token in the second: one that looks at the second half only knows neither
/// the token nor the norm of embeddings, and one that looks at the first half only knows
/// neither the state nor the norm of states.
pub proof fn law_halves_of_a_head<K: Kernel>(
    m: DecoderModel<K>,
    head: MtpHead<K::Cell>,
    other: MtpHead<K::Cell>,
    state: Seq<K::Cell>,
    changed: Seq<K::Cell>,
    token: usize,
    instead: usize,
)
    requires
        other == (MtpHead {
            pre_fc_norm_embedding: other.pre_fc_norm_embedding,
            pre_fc_norm_hidden: other.pre_fc_norm_hidden,
            ..head
        }),
        state.len() == m.hidden(),
        changed.len() == m.hidden(),
        mtp_input(m, head, state, token) is Some,
    ensures
        (forall|a: Seq<K::Cell>, b: Seq<K::Cell>|
            a.skip(m.hidden()) == b.skip(m.hidden()) ==> #[trigger] project_of(m.kernel, head.fc.weight, a) == #[trigger] project_of(
                m.kernel,
                head.fc.weight,
                b,
            )) && other.pre_fc_norm_hidden == head.pre_fc_norm_hidden && mtp_input(m, other, state, instead) is Some ==> mtp_input(m, other, state, instead)
            == mtp_input(m, head, state, token),
        (forall|a: Seq<K::Cell>, b: Seq<K::Cell>|
            a.take(m.hidden()) == b.take(m.hidden()) ==> #[trigger] project_of(m.kernel, head.fc.weight, a) == #[trigger] project_of(
                m.kernel,
                head.fc.weight,
                b,
            )) && other.pre_fc_norm_embedding == head.pre_fc_norm_embedding && mtp_input(m, other, changed, token) is Some ==> mtp_input(
            m,
            other,
            changed,
            token,
        ) == mtp_input(m, head, state, token),
{
    let n = m.hidden();
    let eps = m.config.rms_eps;
    let left = norm_of(m.kernel, embed_row(m, token)->0, head.pre_fc_norm_embedding, eps)->0;
    let right = norm_of(m.kernel, state, head.pre_fc_norm_hidden, eps)->0;
    assert((left + right).skip(n) =~= right);
    assert((left + right).take(n) =~= left);
    if mtp_input(m, other, state, instead) is Some {
        let left_too = norm_of(m.kernel, embed_row(m, instead)->0, other.pre_fc_norm_embedding, eps)->0;
        let right_too = norm_of(m.kernel, state, other.pre_fc_norm_hidden, eps)->0;
        assert((left_too + right_too).skip(n) =~= right_too);
        assert(project_of(m.kernel, head.fc.weight, left + right).len() == head.fc.out_dim);
        assert(project_of(m.kernel, head.fc.weight, left_too + right_too).len() == head.fc.out_dim);
    }
    if mtp_input(m, other, changed, token) is Some {
        let left_too = norm_of(m.kernel, embed_row(m, token)->0, other.pre_fc_norm_embedding, eps)->0;
        let right_too = norm_of(m.kernel, changed, other.pre_fc_norm_hidden, eps)->0;
        assert((left_too + right_too).take(n) =~= left_too);
        assert(project_of(m.kernel, head.fc.weight, left + right).len() == head.fc.out_dim);
        assert(project_of(m.kernel, head.fc.weight, left_too + right_too).len() == head.fc.out_dim);
    }
}

/// The state of a draft head comes through its last norm, and its block sees the head through
/// the norm behind the attention.
pub proof fn law_norms_of_a_head<K: Kernel>(m: DecoderModel<K>, head: MtpHead<K::Cell>, h: Seq<K::Cell>)
    requires
        neutral(m.kernel),
    ensures
        mtp_output(m, head, h) matches Some(out) ==> {
            &&& is_zeros(m.kernel, head.norm.data@) ==> is_zeros(m.kernel, out)
            &&& is_zeros(m.kernel, head.layer.post_attention_norm.data@) ==> feed_forward_row(m.kernel, head.layer.mlp, zeros(m.kernel, h.len())) is Some
            &&& (forall|row: Seq<K::Cell>| (#[trigger] feed_forward_row(m.kernel, head.layer.mlp, row)) matches Some(made) ==> is_zeros(m.kernel, made))
                ==> norm_of(m.kernel, h, head.norm, m.config.rms_eps) == Some(out)
        },
{
    if mtp_output(m, head, h) is Some {
        let eps = m.config.rms_eps;
        let input = norm_of(m.kernel, h, head.layer.post_attention_norm, eps)->0;
        let made = feed_forward_row(m.kernel, head.layer.mlp, input)->0;
        let sum = sum_rows(m.kernel, h, made);
        if is_zeros(m.kernel, head.norm.data@) {
            lemma_shut_norm(m.kernel, sum, head.norm, eps);
        }
        if is_zeros(m.kernel, head.layer.post_attention_norm.data@) {
            lemma_shut_norm(m.kernel, h, head.layer.post_attention_norm, eps);
        }
        if forall|row: Seq<K::Cell>| (#[trigger] feed_forward_row(m.kernel, head.layer.mlp, row)) matches Some(made) ==> is_zeros(m.kernel, made) {
            assert(is_zeros(m.kernel, made));
            assert(sum =~= h);
        }
    }
}

} // verus!
