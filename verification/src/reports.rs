//! What a device is told, and what is reported of its answers.

use vstd::prelude::*;
use crate::config::CausalDecoderConfig;
use crate::dflash::{dflash_judge_from, dflash_judge_one, dflash_read_on, dflash_verified, projected, read_prompt, read_states, DflashView};
use crate::kernel::Kernel;
use crate::layer::{AttentionBlock, DecoderLayer};
use crate::layer_route::prefill_plan;
use crate::model::{CacheView, DecoderModel};
use crate::options::GenerationOptions;
use crate::resident_decode::sample_spec;
use crate::speculation::{checked_tokens, opening, Verdict};
use crate::weights::DraftModel;
use crate::xray::{layer_diffs, probed, xray_of, DeviceProbe, DeviceTrace};

verus! {

/// A draw on a device is asked for at the temperature and under the limits of the options,
/// and from the random state that is given.
pub proof fn law_device_draw_as_asked<C: Copy>(options: GenerationOptions<C>, random: u64, on_device: bool)
    ensures
        sample_spec(options, random, on_device).params.temperature == options.temperature,
        sample_spec(options, random, on_device).params.top_p == options.top_p,
        sample_spec(options, random, on_device).params.top_k == options.top_k,
        sample_spec(options, random, on_device).random == random,
        sample_spec(options, random, on_device).on_device == on_device,
{
}

/// A call that takes a batch through a layer says how many rows of which length there are,
/// how many heads of queries and of keys, and the configuration's small number.
pub proof fn law_call_of_a_batch<C: Copy>(config: CausalDecoderConfig<C>, layer: DecoderLayer<C>, rows: usize, cols: usize, offset: int, device: bool)
    ensures
        prefill_plan(config, layer, rows, cols, offset, device) matches Ok(Some(call)) ==> {
            &&& device && offset == 0
            &&& call.seq == rows && call.hidden_dim == cols
            &&& call.q_heads == config.num_attention_heads && call.kv_heads == config.num_key_value_heads
            &&& config.head_dim == Some(call.head_dim)
            &&& config.rope_dims matches Some(dims) ==> call.rope_dims == dims
            &&& config.rope_dims is None ==> call.rope_dims == call.head_dim
            &&& call.eps == config.rms_eps
            &&& layer.attention matches AttentionBlock::Full(attention) && (attention.rope_theta matches Some(base) ==> call.rope_theta == base)
                && (attention.rope_theta is None ==> config.rope_theta == Some(call.rope_theta))
        },
{
}

/// A report on a device holds the decoder's own token apart from the device's: what the
/// device's state is changes neither the token of the reference nor the layers' distances,
/// and what its rows of the layers are changes nothing but these.
pub proof fn law_report_keeps_apart<K: Kernel>(
    m: DecoderModel<K>,
    options: GenerationOptions<K::Cell>,
    prompt: Seq<usize>,
    given: DeviceTrace<K::Cell>,
    other: DeviceTrace<K::Cell>,
)
    requires
        xray_of(m, options, prompt, given) is Some,
        xray_of(m, options, prompt, other) is Some,
    ensures
        ({
            let a = xray_of(m, options, prompt, given)->0;
            let b = xray_of(m, options, prompt, other)->0;
            &&& a.input_token == b.input_token
            &&& a.reference_token == b.reference_token
            &&& other.hidden@ == given.hidden@ ==> a.layer_diffs == b.layer_diffs
            &&& other.state@ == given.state@ ==> a.resident_token == b.resident_token && a.final_distance == b.final_distance
            &&& other.probe == given.probe ==> a.probe == b.probe
        }),
{
}

/// Each distance of a probe is that of its own row: another row for the one leaves the others
/// as they are, and the distances of the states are handed on as they were found.
pub proof fn law_probe_keeps_apart<K: Kernel>(
    m: DecoderModel<K>,
    cache: CacheView<K::Cell>,
    given: DeviceProbe<K::Cell>,
    other: DeviceProbe<K::Cell>,
    token: usize,
)
    requires
        probed(m, cache, Some(given), token) matches Some(Some(_)),
        probed(m, cache, Some(other), token) matches Some(Some(_)),
    ensures
        ({
            let a = probed(m, cache, Some(given), token)->0->0;
            let b = probed(m, cache, Some(other), token)->0->0;
            &&& a.init_state == given.init_state && a.state == given.state && a.state_cpu_normed == given.state_cpu_normed
            &&& other.normed@ == given.normed@ ==> a.normed == b.normed
            &&& other.attn@ == given.attn@ ==> a.attn == b.attn
            &&& other.attn_cpu_normed@ == given.attn_cpu_normed@ ==> a.attn_cpu_normed == b.attn_cpu_normed
            &&& a.layer_index == 0
        }),
{
}

/// The layers are reported in order, each with its number and its kind.
pub proof fn law_layers_reported_in_order<K: Kernel>(m: DecoderModel<K>, reference: Seq<K::Cell>, resident: Seq<K::Cell>, n: int, i: int)
    requires
        0 <= i < n <= usize::MAX,
    ensures
        layer_diffs(m, reference, resident, n) matches Some(diffs) ==> diffs.len() == n && diffs[i].layer_index == i && (diffs[i].full <==> !(
        m.config.full_attention_interval matches Some(period) && period > 0 && (i + 1) % (period as int) != 0)),
    decreases n,
{
    if n > 0 && i < n - 1 {
        law_layers_reported_in_order(m, reference, resident, n - 1, i);
    } else if n > 1 {
        law_layers_reported_in_order(m, reference, resident, n - 1, 0);
    }
}

/// The context of a draft model has a row for each position that the decoder has seen.
pub open spec fn keeps_up<C>(s: DflashView<C>) -> bool {
    s.context.len() == s.run.cache.position
}

/// The context of a draft model starts with a row for each token of the prompt, and keeps up
/// with the decoder through every check and every token that is read behind one.
pub proof fn law_context_keeps_up<K: Kernel>(
    m: DecoderModel<K>,
    draft: DraftModel<K::Cell>,
    options: GenerationOptions<K::Cell>,
    s: DflashView<K::Cell>,
    drafts: Seq<usize>,
    primary: usize,
    max: int,
    prompt: Seq<usize>,
)
    ensures
        read_prompt(m, draft.target_layer_ids@, prompt) matches Some((cache, _, read)) ==> (projected(m, draft, read) matches Some(context) ==> context.len()
            == cache.position),
        keeps_up(s) ==> (dflash_verified(m, draft, options, s, drafts, primary, max) matches Some((next, _, _)) ==> keeps_up(next)),
        keeps_up(s) ==> (dflash_read_on(m, draft, options, s, primary) matches Some(next) ==> keeps_up(next)),
{
    if keeps_up(s) && drafts.len() > 0 && dflash_verified(m, draft, options, s, drafts, primary, max) is Some {
        let tokens = checked_tokens(primary, drafts);
        let ids = draft.target_layer_ids@;
        let (after, states, read) = read_states(m, ids, s.run.cache, tokens)->0;
        let v = dflash_judge_from(m, options, states, drafts, max, 0, opening(s.run, primary))->0;
        lemma_end_within(m, options, states, drafts, max, 0, opening(s.run, primary));
        assert(read.len() == tokens.len());
        assert(after.position == s.run.cache.position + tokens.len());
        assert(tokens.len() == drafts.len());
    }
}

/// A check ends at one of the guesses.
proof fn lemma_end_within<K: Kernel>(
    m: DecoderModel<K>,
    options: GenerationOptions<K::Cell>,
    states: Seq<Seq<K::Cell>>,
    drafts: Seq<usize>,
    max: int,
    position: int,
    v: Verdict<K::Cell>,
)
    requires
        0 <= position <= drafts.len(),
        v.ended is None,
    ensures
        dflash_judge_from(m, options, states, drafts, max, position, v) matches Some(out) ==> (out.ended matches Some(at) ==> position <= at
            < drafts.len()),
    decreases drafts.len() - position,
{
    if position < drafts.len() {
        let next = dflash_judge_one(m, options, states, drafts, max, position, v);
        if next is Some {
            if (next->0).ended is None {
                lemma_end_within(m, options, states, drafts, max, position + 1, next->0);
            } else {
                assert(dflash_judge_from(m, options, states, drafts, max, position + 1, next->0) == next);
            }
        }
    }
}

} // verus!
