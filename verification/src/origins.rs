//! Where a generation's tokens come from, and where they do not.

use vstd::prelude::*;
use crate::decode::{advanced, generated, solo, started, DecodeView};
use crate::decoder::served;
use crate::flags::Switch;
use crate::kernel::{binary_of, constant_of, count_of, draw_of, unary_of, Binary, Constant, Kernel, SamplingParams, Unary};
use crate::kv::LayerView;
use crate::loading::{fetch_full, fetch_parallel, inferred_head_dim, FeedView};
use crate::model::{embed_row, embed_rows, layers_row, step, CacheView, DecoderModel};
use crate::options::{greedy, GenerationOptions, SamplerView};
use crate::prefill::uncached;
use crate::prefix_cache::EntryView;
use crate::sampling::device_route;
use crate::sink::Policy;
use crate::store::{weight_dims, DecoderTensor};
use crate::config::CausalDecoderConfig;
use crate::layer::layer_row;
use crate::verdicts::law_head_decides_nothing;

verus! {

/// Two decoders that differ in their draft heads only.
pub open spec fn but_for_heads<K: Kernel>(m: DecoderModel<K>, other: DecoderModel<K>) -> bool {
    other == (DecoderModel { mtp: other.mtp, mtp_draft_lm_head: other.mtp_draft_lm_head, ..m })
}

proof fn lemma_layers_ignore_heads<K: Kernel>(m: DecoderModel<K>, other: DecoderModel<K>, l: int, views: Seq<LayerView<K::Cell>>, x: Seq<K::Cell>, position: int)
    requires
        but_for_heads(m, other),
    ensures
        layers_row(other, l, views, x, position) == layers_row(m, l, views, x, position),
    decreases views.len(),
{
    if views.len() > 0 {
        let one = layer_row(m.kernel, m.config, m.layers@[l], views[0], x, position);
        if one is Some {
            lemma_layers_ignore_heads(m, other, l + 1, views.drop_first(), (one->0).1, position);
        }
    }
}

proof fn lemma_step_ignores_heads<K: Kernel>(m: DecoderModel<K>, other: DecoderModel<K>, cache: CacheView<K::Cell>, token: usize)
    requires
        but_for_heads(m, other),
    ensures
        step(other, cache, token) == step(m, cache, token),
{
    assert(embed_row(other, token) == embed_row(m, token));
    if embed_row(m, token) is Some {
        lemma_layers_ignore_heads(m, other, 0, cache.layers, embed_row(m, token)->0, cache.position);
    }
}

proof fn lemma_solo_ignores_heads<K: Kernel>(
    m: DecoderModel<K>,
    other: DecoderModel<K>,
    options: GenerationOptions<K::Cell>,
    policy: Policy,
    told: Seq<(usize, usize)>,
    at: DecodeView<K::Cell>,
    given: Seq<usize>,
    done: int,
    max: int,
)
    requires
        but_for_heads(m, other),
    ensures
        solo(other, options, policy, told, at, given, done, max) == solo(m, options, policy, told, at, given, done, max),
    decreases max - done,
{
    if done < max && !options.stops_at(at.token) {
        lemma_step_ignores_heads(m, other, at.cache, at.token);
        if step(m, at.cache, at.token) is Some {
            let state = (step(m, at.cache, at.token)->0).1;
            law_head_decides_nothing(m, other, options, state, None, 0, at.sampler);
        }
        assert(advanced(other, options, at) == advanced(m, options, at));
        let now = given.push(at.token);
        if advanced(m, options, at) is Some && done + 1 < max {
            lemma_solo_ignores_heads(m, other, options, policy, told.push((0, at.token)), advanced(m, options, at)->0, now, done + 1, max);
        }
    }
}

/// What a decoder generates from a state does not depend on its draft head, nor on the head's
/// output map.
pub proof fn law_generation_ignores_heads<K: Kernel>(
    m: DecoderModel<K>,
    other: DecoderModel<K>,
    options: GenerationOptions<K::Cell>,
    policy: Policy,
    told: Seq<(usize, usize)>,
    cache: CacheView<K::Cell>,
    state: Seq<K::Cell>,
    max: int,
)
    requires
        but_for_heads(m, other),
    ensures
        generated(other, options, policy, told, cache, state, max) == generated(m, options, policy, told, cache, state, max),
{
    law_head_decides_nothing(m, other, options, state, None, 0, SamplerView::start(options.seed));
    if max != 0 && started(m, options, cache, state) is Some {
        lemma_solo_ignores_heads(m, other, options, policy, told, started(m, options, cache, state)->0, Seq::empty(), 0, max);
    }
}

/// The first token that is drawn is drawn from the seed that is asked for; with another seed,
/// the best tokens stay the same.
pub proof fn law_seed_of_the_first_draw<K: Kernel>(
    m: DecoderModel<K>,
    options: GenerationOptions<K::Cell>,
    from: spec_fn(u64, usize) -> bool,
    cache: CacheView<K::Cell>,
    state: Seq<K::Cell>,
)
    requires
        forall|logits: Seq<K::Cell>, params: SamplingParams<K::Cell>, random: u64|
            (#[trigger] draw_of(m.kernel, logits, params, random)) matches Some(made) ==> from(random, made.0),
        !options.guided,
        device_route(m, m.lm_head, options) is None,
    ensures
        started(m, options, cache, state) matches Some(at) ==> {
            &&& at.cache == cache
            &&& at.sampler.accepted.len() == 0
            &&& if greedy(m.kernel, options) {
                at.sampler.random == options.seed
            } else {
                from(options.seed, at.token)
            }
        },
{
}

/// A decoder that keeps no prompts takes each as if it were the first, and keeps none.
pub proof fn law_nothing_kept<K: Kernel>(m: DecoderModel<K>, entries: Seq<EntryView<K::Cell>>, prompt: Seq<usize>)
    requires
        !m.flags.prefix_cache,
        prompt.len() > 0,
    ensures
        served(m, entries, prompt) == (uncached(m, prompt), entries),
{
}

/// A batch starts from the rows that its tokens start from, each in its place.
pub proof fn law_rows_of_tokens<K: Kernel>(m: DecoderModel<K>, tokens: Seq<usize>, i: int)
    requires
        0 <= i < tokens.len(),
    ensures
        embed_rows(m, tokens) matches Some(rows) ==> rows.len() == tokens.len() && embed_row(m, tokens[i]) == Some(rows[i]),
{
}

/// The size of a head that is read off a query map fills the map's rows, which hold a gate
/// too where the attention is gated; and a layer has the sizes of its shape or the model's.
pub proof fn law_sizes_of_attention<C: Copy>(config: CausalDecoderConfig<C>, store: Map<Seq<char>, DecoderTensor<C>>, prefix: Seq<char>, layer: int)
    ensures
        fetch_full(config, store, prefix, layer) matches Ok((_, attention)) ==> {
            &&& attention.head_dim matches Some(dim) && {
                &&& config.head_dim_at(layer) matches Some(own) ==> dim == own
                &&& config.head_dim_at(layer) is None ==> (weight_dims(attention.q_proj.weight) matches Some((rows, _)) && rows
                    == config.num_attention_heads * dim * (if config.attn_output_gate {
                    2int
                } else {
                    1int
                }))
                &&& attention.rope_dims == Some(config.rope_dims_at(layer, dim))
                &&& attention.rope_frequency_dim == Some(config.rope_frequency_dim_at(layer, dim))
            }
            &&& attention.num_key_value_heads == Some(config.kv_heads_at(layer))
            &&& attention.q_norm is Some == attention.k_norm is Some
        },
{
    if fetch_full(config, store, prefix, layer) is Ok {
        let attention = (fetch_full(config, store, prefix, layer)->Ok_0).1;
        let q = attention.q_proj;
        if config.head_dim_at(layer) is None {
            let rows = (weight_dims(q.weight)->0).0 as int;
            let heads = config.num_attention_heads as int;
            let per: int = if config.attn_output_gate {
                2
            } else {
                1
            };
            let dim = inferred_head_dim(config, q)->0 as int;
            let divisor = heads * per;
            assert(dim == rows / divisor) by {
                assert(0 <= rows / divisor <= rows) by (nonlinear_arith)
                    requires
                        0 <= rows,
                        divisor > 0,
                ;
            }
            assert(rows == heads * dim * per) by (nonlinear_arith)
                requires
                    divisor == heads * per,
                    divisor > 0,
                    rows % divisor == 0,
                    dim == rows / divisor,
            ;
        }
    }
}

/// The router of experts beside a block is normed with its stored scale, times one over the
/// root of its length, and with the configuration's small number.
pub proof fn law_norm_of_a_router<K: Kernel>(k: K, config: CausalDecoderConfig<K::Cell>, store: Map<Seq<char>, DecoderTensor<K::Cell>>, prefix: Seq<char>)
    ensures
        fetch_parallel(k, config, store, prefix) matches Ok((_, Some(FeedView::Moe(moe)))) ==> {
            &&& moe.router_norm matches Some((weight, eps)) && eps == config.rms_eps && exists|stored: Seq<K::Cell>| #[trigger] stored.len() == weight.len()
                && forall|i: int|
                0 <= i < weight.len() ==> #[trigger] weight[i] == binary_of(
                    k,
                    Binary::Mul,
                    stored[i],
                    binary_of(
                        k,
                        Binary::Pow,
                        count_of(k, weight.len() as usize),
                        unary_of(k, Unary::Negate, constant_of(k, Constant::Half)),
                    ),
                )
        },
{
}

/// What is off unless it is asked for: what only shows or measures something, and the keys
/// and values of full layers on a device.
pub proof fn law_switches_by_default(switch: Switch)
    ensures
        switch.default_on() == !(switch is DecodeResident || switch is ProfileLayer || switch is MtpNormTrace || switch is GpuCounters
            || switch is TraceLinearAttention || switch is TracePrefill || switch is DecodeProfile || switch is TopkBench || switch is TraceMoe),
{
}

} // verus!
