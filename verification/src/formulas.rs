//! What each part of a layer is made of, number by number.

use vstd::prelude::*;
use crate::adaptive::{clamped, depth_of, planned, AdaptiveDepthController};
use crate::attention::{rope_of, AttentionLayout, FullAttention};
use crate::config::CausalDecoderConfig;
use crate::attend::cached_context;
use crate::context::{cached_row, prepared_row, projected_row, qkv_row, split_row};
use crate::heads::{by_heads, normed_heads};
use crate::kernel::{at_most_of, binary_of, constant_of, lookup_of, Binary, Constant, Kernel};
use crate::kv::LayerView;
use crate::layer::{attention_row, combined_row, double_normed_ffn, AttentionBlock, DecoderLayer};
use crate::linear::{feed_forward_row, linear_row, FeedForward};
use crate::mtp_head::{mtp_input, mtp_row, MtpHead};
use crate::options::{greedy, hot, GenerationOptions};
use crate::model::{embed_row, layers_row, step, CacheView, DecoderModel};
use crate::rows::{gated_row, rms_row, rotations_of, sum_rows, turned, RopeParams};
use crate::sight::{law_pieces_of_a_row, law_query_and_gate};
use crate::stats::StatsView;
use crate::tensor::{row_of, Tensor};

verus! {

/// The sum of two rows.
pub open spec fn sums<K: Kernel>(k: K, a: Seq<K::Cell>, b: Seq<K::Cell>) -> Seq<K::Cell> {
    Seq::new(a.len(), |i: int| binary_of(k, Binary::Add, a[i], b[i]))
}

/// A layer's block is fed the sum of the layer's input and the attention's output, normed
/// with the configuration's small number, and its output is added to that sum.
pub proof fn law_simple_layer<K: Kernel>(
    k: K,
    config: CausalDecoderConfig<K::Cell>,
    layer: DecoderLayer<K::Cell>,
    norm: Tensor<K::Cell>,
    block: FeedForward<K::Cell>,
    x: Seq<K::Cell>,
    attn: Seq<K::Cell>,
)
    requires
        layer.pre_feedforward_norm is None,
        layer.post_attention_norm == Some(norm),
        layer.mlp == Some(block),
    ensures
        combined_row(k, config, layer, x, attn) matches Some(out) ==> {
            let sum = sums(k, x, attn);
            feed_forward_row(k, block, rms_row(k, sum, Some(norm.data@), config.rms_eps)) matches Some(made) && out == sums(k, sum, made)
        },
{
    let sum = sums(k, x, attn);
    assert(sum =~= sum_rows(k, x, attn));
    if combined_row(k, config, layer, x, attn) is Some {
        let made = feed_forward_row(k, block, rms_row(k, sum, Some(norm.data@), config.rms_eps))->0;
        assert(sums(k, sum, made) =~= combined_row(k, config, layer, x, attn)->0);
    }
}

/// In a layer that norms its block on both sides, the attention's output is normed and added
/// to the input; the block is fed that sum, normed, and its output is normed and added; the
/// layer's scale multiplies the whole. Every norm has the configuration's small number.
pub proof fn law_twice_normed_layer<K: Kernel>(
    k: K,
    config: CausalDecoderConfig<K::Cell>,
    layer: DecoderLayer<K::Cell>,
    before: Tensor<K::Cell>,
    block: FeedForward<K::Cell>,
    x: Seq<K::Cell>,
    attn: Seq<K::Cell>,
    i: int,
)
    requires
        layer.pre_feedforward_norm == Some(before),
        layer.mlp == Some(block),
        layer.parallel_moe is None,
        0 <= i < x.len(),
    ensures
        combined_row(k, config, layer, x, attn) matches Some(out) ==> {
            &&& layer.post_attention_norm is Some && layer.post_feedforward_norm is Some
            &&& ({
                let hidden = sums(k, x, rms_row(k, attn, Some(layer.post_attention_norm->0.data@), config.rms_eps));
                let made = feed_forward_row(k, block, rms_row(k, hidden, Some(before.data@), config.rms_eps))->0;
                let normed = rms_row(k, made, Some(layer.post_feedforward_norm->0.data@), config.rms_eps);
                let sum = binary_of(k, Binary::Add, hidden[i], normed[i]);
                out[i] == match layer.layer_scalar {
                    Some(scalar) => binary_of(k, Binary::Mul, sum, scalar.data@[0]),
                    None => sum,
                }
            })
        },
{
    if combined_row(k, config, layer, x, attn) is Some {
        let normed = rms_row(k, attn, Some(layer.post_attention_norm->0.data@), config.rms_eps);
        assert(sums(k, x, normed) =~= sum_rows(k, x, normed));
    }
}

/// Experts beside the block are fed the same row through a norm of their own; each of the two
/// outputs is normed, and they are added.
pub proof fn law_experts_beside<K: Kernel>(k: K, layer: DecoderLayer<K::Cell>, block: FeedForward<K::Cell>, beside: FeedForward<K::Cell>, hidden: Seq<K::Cell>, eps: K::Cell)
    requires
        layer.pre_feedforward_norm is Some,
        layer.mlp == Some(block),
        layer.parallel_moe == Some(beside),
    ensures
        double_normed_ffn(k, layer, hidden, eps) matches Some(out) ==> {
            &&& layer.post_feedforward_norm_1 is Some && layer.post_feedforward_norm_2 is Some && layer.pre_feedforward_norm_2 is Some
            &&& ({
                let own = feed_forward_row(k, block, rms_row(k, hidden, Some(layer.pre_feedforward_norm->0.data@), eps))->0;
                let other = feed_forward_row(k, beside, rms_row(k, hidden, Some(layer.pre_feedforward_norm_2->0.data@), eps))->0;
                out == sums(
                    k,
                    rms_row(k, own, Some(layer.post_feedforward_norm_1->0.data@), eps),
                    rms_row(k, other, Some(layer.post_feedforward_norm_2->0.data@), eps),
                )
            })
        },
{
    if double_normed_ffn(k, layer, hidden, eps) is Some {
        let own = feed_forward_row(k, block, rms_row(k, hidden, Some(layer.pre_feedforward_norm->0.data@), eps))->0;
        let other = feed_forward_row(k, beside, rms_row(k, hidden, Some(layer.pre_feedforward_norm_2->0.data@), eps))->0;
        let a = rms_row(k, own, Some(layer.post_feedforward_norm_1->0.data@), eps);
        let b = rms_row(k, other, Some(layer.post_feedforward_norm_2->0.data@), eps);
        assert(sums(k, a, b) =~= sum_rows(k, a, b));
    }
}

/// Full attention is fed the layer's input, normed with the configuration's small number, and
/// its context goes through the output map.
pub proof fn law_attention_of_a_layer<K: Kernel>(
    k: K,
    config: CausalDecoderConfig<K::Cell>,
    layer: DecoderLayer<K::Cell>,
    attention: FullAttention<K::Cell>,
    view: LayerView<K::Cell>,
    x: Seq<K::Cell>,
    position: int,
)
    requires
        layer.attention == AttentionBlock::Full(attention),
    ensures
        attention_row(k, config, layer, view, x, position) matches Some((after, out)) ==> (cached_row(
            k,
            config,
            attention,
            view,
            rms_row(k, x, Some(layer.input_norm.data@), config.rms_eps),
            position,
        ) matches Some((seen, context)) && after == seen && linear_row(k, attention.o_proj, context) == Some(out)),
{
}

/// A token starts from its row of the table, times the configuration's scale; its state is
/// what the layers make of that, normed with the last norm and the configuration's small
/// number.
pub proof fn law_token_to_state<K: Kernel>(m: DecoderModel<K>, cache: CacheView<K::Cell>, token: usize, i: int)
    requires
        0 <= i < m.hidden(),
    ensures
        step(m, cache, token) matches Some((after, state)) ==> {
            &&& embed_row(m, token) matches Some(x) && x.len() == m.hidden() && x[i] == match m.config.embed_scale {
                Some(scale) => binary_of(m.kernel, Binary::Mul, lookup_of(m.kernel, m.embed_tokens, token)[i], scale),
                None => lookup_of(m.kernel, m.embed_tokens, token)[i],
            }
            &&& layers_row(m, 0, cache.layers, embed_row(m, token)->0, cache.position) matches Some((layers, y)) && after.layers == layers && state
                == rms_row(m.kernel, y, Some(m.final_norm.data@), m.config.rms_eps)
        },
{
}

/// Where queries and keys have norms, each head is normed on its own, with the norm's weight
/// and the configuration's small number, and then turned by its position.
pub proof fn law_prepared_head<K: Kernel>(
    k: K,
    config: CausalDecoderConfig<K::Cell>,
    attention: FullAttention<K::Cell>,
    layout: AttentionLayout<K::Cell>,
    row: Seq<K::Cell>,
    heads: int,
    norm: Tensor<K::Cell>,
    position: int,
    rope: RopeParams<K::Cell>,
    h: int,
)
    requires
        attention.q_norm is Some && attention.k_norm is Some,
        rope_of(k, config, attention) == Some(rope),
        row.len() == heads * layout.head_dim,
        0 <= h < heads,
    ensures
        prepared_row(k, config, attention, layout, row, heads, Some(norm), position) matches Some(out) ==> row_of(out, layout.head_dim as int, h) == turned(
            k,
            rms_row(k, row_of(row, layout.head_dim as int, h), Some(norm.data@), config.rms_eps),
            rotations_of(k, position, layout.rope_dims as int, rope),
            config.rope_style,
        ),
{
    let dim = layout.head_dim as int;
    let turns = rotations_of(k, position, layout.rope_dims as int, rope);
    let norm_piece = |i: int| rms_row(k, row_of(row, dim, i), Some(norm.data@), config.rms_eps);
    assert forall|i: int| 0 <= i < heads implies (#[trigger] norm_piece(i)).len() == dim by {
        assert(0 <= i * dim && i * dim + dim <= heads * dim) by (nonlinear_arith)
            requires
                0 <= i < heads,
                0 <= dim,
        ;
    }
    law_pieces_of_a_row(heads, norm_piece, dim, h);
    let normed = normed_heads(k, row, heads, dim, Some(norm.data@), config.rms_eps);
    assert(normed == by_heads(heads, norm_piece));
    let turn_piece = |i: int| turned(k, row_of(normed, dim, i), turns, config.rope_style);
    assert forall|i: int| 0 <= i < heads implies (#[trigger] turn_piece(i)).len() == dim by {
        assert(0 <= i * dim && i * dim + dim <= heads * dim) by (nonlinear_arith)
            requires
                0 <= i < heads,
                0 <= dim,
        ;
    }
    law_pieces_of_a_row(heads, turn_piece, dim, h);
}

/// A guess that is checked is counted at its own place, and nowhere else.
pub proof fn law_counted_at_its_place(stats: StatsView, position: int, held: bool, other: int)
    requires
        0 <= position < stats.proposed_by_position.len(),
        0 <= position < stats.accepted_by_position.len(),
        other != position,
    ensures
        ({
            let after = stats.judged(position, held);
            &&& after.proposed_by_position[position] == stats.proposed_by_position[position] + 1
            &&& after.accepted_by_position[position] == stats.accepted_by_position[position] + (if held { 1int } else { 0int })
            &&& 0 <= other < stats.proposed_by_position.len() ==> after.proposed_by_position[other] == stats.proposed_by_position[other]
            &&& 0 <= other < stats.accepted_by_position.len() ==> after.accepted_by_position[other] == stats.accepted_by_position[other]
            &&& after.proposed_by_position.len() == stats.proposed_by_position.len()
        }),
{
}

/// A number that lies between the smallest above zero and one is kept; one below is raised to
/// the smallest, and one above lowered to one.
pub proof fn law_held_between<K: Kernel>(k: K, value: K::Cell)
    requires
        at_most_of(k, constant_of(k, Constant::MinPositive), constant_of(k, Constant::One)),
    ensures
        ({
            let (low, high) = (constant_of(k, Constant::MinPositive), constant_of(k, Constant::One));
            &&& at_most_of(k, low, value) && at_most_of(k, value, high) ==> clamped(k, value) == value
            &&& at_most_of(k, high, value) && !at_most_of(k, value, high) && at_most_of(k, low, value) ==> clamped(k, value) == high
            &&& at_most_of(k, value, low) && !at_most_of(k, low, value) && !at_most_of(k, high, low) ==> clamped(k, value) == low
        }),
{
}

/// Guesses are as many as there is room for where the average pays, one where it does not and
/// it is not time to try, and never more than fit behind what is left.
pub proof fn law_depth_of_guesses<K: Kernel>(k: K, c: AdaptiveDepthController<K::Cell>, remaining: int)
    requires
        c.wf(),
    ensures
        ({
            let room = if remaining < 1 {
                1
            } else {
                remaining
            };
            let most = if c.cap < room {
                c.cap as int
            } else {
                room
            };
            let depth = depth_of(k, c, remaining);
            let after = planned(k, c, remaining);
            &&& 1 <= depth <= most
            &&& at_most_of(k, c.threshold, c.ema_deep) ==> depth == most
            &&& !at_most_of(k, c.threshold, c.ema_deep) && c.steps_since_deep + 1 < c.probe_period ==> depth == 1
            &&& depth >= 2 ==> after.steps_since_deep == 0
            &&& depth < 2 && c.steps_since_deep < u32::MAX ==> after.steps_since_deep == c.steps_since_deep + 1
            &&& c.steps < u64::MAX ==> after.steps == c.steps + 1
            &&& c.total_depth + depth <= u64::MAX ==> after.total_depth == c.total_depth + depth
            &&& after.ema_deep == c.ema_deep && after.deep_steps == c.deep_steps
        }),
{
}

/// Values are what their map puts out; with a norm of values, each head of them is normed on
/// its own, without a weight and with the configuration's small number.
pub proof fn law_values_of_a_row<K: Kernel>(
    k: K,
    config: CausalDecoderConfig<K::Cell>,
    attention: FullAttention<K::Cell>,
    x: Seq<K::Cell>,
    position: int,
    h: int,
)
    ensures
        qkv_row(k, config, attention, x, position) matches Some(row) ==> (projected_row(k, config, attention, x) matches Some((_, gate, _, value)) && {
            &&& row.gate == gate
            &&& !attention.value_norm ==> row.value == value
            &&& attention.value_norm && 0 <= h < row.layout.num_key_value_heads && value.len() == row.layout.num_key_value_heads * row.layout.head_dim
                ==> row_of(row.value, row.layout.head_dim as int, h) == rms_row(k, row_of(value, row.layout.head_dim as int, h), None, config.rms_eps)
        }),
{
    if qkv_row(k, config, attention, x, position) is Some {
        let row = qkv_row(k, config, attention, x, position)->0;
        let value = (projected_row(k, config, attention, x)->0).3;
        let dim = row.layout.head_dim as int;
        let heads = row.layout.num_key_value_heads as int;
        if attention.value_norm && 0 <= h < heads && value.len() == heads * dim {
            let piece = |i: int| rms_row(k, row_of(value, dim, i), None, config.rms_eps);
            assert forall|i: int| 0 <= i < heads implies (#[trigger] piece(i)).len() == dim by {
                assert(0 <= i * dim && i * dim + dim <= heads * dim) by (nonlinear_arith)
                    requires
                        0 <= i < heads,
                        0 <= dim,
                ;
            }
            law_pieces_of_a_row(heads, piece, dim, h);
            assert(normed_heads(k, value, heads, dim, None, config.rms_eps) == by_heads(heads, piece));
        }
    }
}

/// One more position is put behind those that were seen, and its query sees all of them; the
/// context is gated where the attention is, and left as it is where not.
pub proof fn law_context_of_a_row<K: Kernel>(
    k: K,
    config: CausalDecoderConfig<K::Cell>,
    attention: FullAttention<K::Cell>,
    view: LayerView<K::Cell>,
    x: Seq<K::Cell>,
    position: int,
)
    ensures
        cached_row(k, config, attention, view, x, position) matches Some((after, out)) ==> (qkv_row(k, config, attention, x, position) matches Some(row) && {
            &&& after.keys == view.keys + row.key && after.values == view.values + row.value
            &&& row.gate is None ==> out == cached_context(k, row.q, after, row.layout)
            &&& row.gate matches Some(gate) ==> out == gated_row(k, cached_context(k, row.q, after, row.layout), gate)
            &&& row.gate is Some ==> config.attn_output_gate
        }),
{
}

/// A query map of gated attention puts out queries and gates, in this order for each head; any
/// other puts out queries alone.
pub proof fn law_split_of_a_projection<C: Copy>(config: CausalDecoderConfig<C>, row: Seq<C>, dim: usize, h: int)
    requires
        config.head_dim == Some(dim),
        0 <= h < config.num_attention_heads,
    ensures
        split_row(config, row) matches Some((q, gate)) ==> {
            &&& !config.attn_output_gate ==> q == row && gate is None
            &&& config.attn_output_gate ==> row.len() == 2 * (config.num_attention_heads * dim) && row_of(q, dim as int, h) == row_of(row, 2 * dim as int, h).take(
                dim as int,
            ) && (gate matches Some(gate) && row_of(gate, dim as int, h) == row_of(row, 2 * dim as int, h).skip(dim as int))
        },
{
    if config.attn_output_gate && split_row(config, row) is Some {
        law_query_and_gate(row, config.num_attention_heads as int, dim as int, h);
    }
}

/// A draft head takes its input through attention and a block as a layer does, with its own
/// cache and at its own position, and norms what comes out.
pub proof fn law_row_of_a_head<K: Kernel>(m: DecoderModel<K>, head: MtpHead<K::Cell>, view: LayerView<K::Cell>, state: Seq<K::Cell>, token: usize, position: int)
    requires
        m.mtp == Some(head),
    ensures
        mtp_row(m, view, state, token, position) matches Some((after, out)) ==> {
            let k = m.kernel;
            let eps = m.config.rms_eps;
            let x = mtp_input(m, head, state, token)->0;
            let seen = cached_row(k, m.config, head.layer.attention, view, rms_row(k, x, Some(head.layer.input_norm.data@), eps), position);
            let attn = linear_row(k, head.layer.attention.o_proj, (seen->0).1)->0;
            let h = sums(k, x, attn);
            let made = feed_forward_row(k, head.layer.mlp, rms_row(k, h, Some(head.layer.post_attention_norm.data@), eps))->0;
            &&& mtp_input(m, head, state, token) is Some && seen is Some && after == (seen->0).0
            &&& out == rms_row(k, sums(k, h, made), Some(head.norm.data@), eps)
        },
{
    if mtp_row(m, view, state, token, position) is Some {
        let k = m.kernel;
        let x = mtp_input(m, head, state, token)->0;
        let normed = rms_row(k, x, Some(head.layer.input_norm.data@), m.config.rms_eps);
        let context = (cached_row(k, m.config, head.layer.attention, view, normed, position)->0).1;
        let attn = linear_row(k, head.layer.attention.o_proj, context)->0;
        let h = sum_rows(k, x, attn);
        assert(sums(k, x, attn) =~= h);
        let made = feed_forward_row(k, head.layer.mlp, rms_row(k, h, Some(head.layer.post_attention_norm.data@), m.config.rms_eps))->0;
        assert(sums(k, h, made) =~= sum_rows(k, h, made));
    }
}

/// The best token is taken up to the bound under which a temperature counts as none, and
/// tokens are drawn above it.
pub proof fn law_bound_of_temperatures<K: Kernel>(k: K, options: GenerationOptions<K::Cell>)
    ensures
        at_most_of(k, options.temperature, constant_of(k, Constant::Epsilon)) ==> greedy(k, options) && !hot(k, options),
        !at_most_of(k, options.temperature, constant_of(k, Constant::Epsilon)) && at_most_of(k, constant_of(k, Constant::Epsilon), options.temperature)
            ==> hot(k, options) && !greedy(k, options),
{
}

} // verus!
