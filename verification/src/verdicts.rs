//! Whose probabilities decide over a token.

use vstd::prelude::*;
use crate::kernel::{advance_of, argmax_of, device_answer_of, distribution_of, draw_from_of, draw_of, mask_of, speculate_of, DeviceRoute, Kernel, SamplingParams};
use crate::kv::LayerView;
use crate::model::{embed_row, DecoderModel};
use crate::mtp::{draft_one, Drafting};
use crate::mtp_head::mtp_row;
use crate::options::{greedy, hot, GenerationOptions, SamplerView};
use crate::sampling::{chosen, guided, logits_of, odds_of, sampled, MAX_SAMPLER_TOP_K};
use crate::speculation::{judge_from, judge_one, odds_at, target_of, Verdict};
use crate::weights::LinearWeight;

verus! {

/// The probabilities of the tokens behind a state under the decoder's own output map, at the
/// temperature and the limits that are asked for.
pub open spec fn model_odds<K: Kernel>(m: DecoderModel<K>, options: GenerationOptions<K::Cell>, state: Seq<K::Cell>) -> Option<Seq<K::Cell>> {
    match logits_of(m, m.lm_head, state) {
        Some(logits) => distribution_of(
            m.kernel,
            logits,
            SamplingParams { temperature: options.temperature, top_p: options.top_p, top_k: options.top_k },
        ),
        None => None,
    }
}

/// What tokens some probabilities admit.
pub type Admits<C> = spec_fn(Seq<C>, usize) -> bool;

/// A kernel whose check of a guess gives only tokens that the target's probabilities admit,
/// and keeps a guess only as it is.
pub open spec fn gives_admitted<K: Kernel>(k: K, admits: Admits<K::Cell>) -> bool {
    forall|target: Seq<K::Cell>, draft: Seq<K::Cell>, guess: usize, random: u64|
        (#[trigger] speculate_of(k, target, draft, guess, random)) matches Some(made) ==> admits(target, made.0) && (made.1 ==> made.0 == guess)
}

/// Where tokens are drawn, a guess is judged by the decoder's own probabilities: with a check
/// that gives only what the target's probabilities admit, the token that comes of it is one
/// that the decoder's probabilities admit, whatever the guess was drawn with. So a guess that
/// the decoder would never draw is never given.
pub proof fn law_model_decides<K: Kernel>(
    m: DecoderModel<K>,
    options: GenerationOptions<K::Cell>,
    admits: Admits<K::Cell>,
    state: Seq<K::Cell>,
    odds: Option<Seq<K::Cell>>,
    guess: usize,
    sampler: SamplerView,
)
    requires
        hot(m.kernel, options),
        gives_admitted(m.kernel, admits),
    ensures
        target_of(m, options, state, odds, guess, sampler) matches Some((token, held, after)) ==> {
            &&& model_odds(m, options, state) matches Some(target) && admits(target, token)
            &&& held ==> token == guess
            &&& after.accepted == sampler.accepted
        },
{
}

/// Where tokens are drawn, the probabilities that a guess was drawn with are those that the
/// check is told of as the guess's: with a check that keeps a guess only where the guess's
/// probabilities propose it, a guess that is kept was proposed. Without them none is judged.
pub proof fn law_guess_judged_by_its_odds<K: Kernel>(
    m: DecoderModel<K>,
    options: GenerationOptions<K::Cell>,
    proposes: Admits<K::Cell>,
    state: Seq<K::Cell>,
    odds: Option<Seq<K::Cell>>,
    guess: usize,
    sampler: SamplerView,
)
    requires
        hot(m.kernel, options),
        forall|target: Seq<K::Cell>, draft: Seq<K::Cell>, guess: usize, random: u64|
            (#[trigger] speculate_of(m.kernel, target, draft, guess, random)) matches Some(made) ==> (made.1 ==> proposes(draft, guess)),
    ensures
        target_of(m, options, state, odds, guess, sampler) matches Some((_, held, _)) ==> odds matches Some(drawn) && (held ==> proposes(drawn, guess)),
{
}

/// The check of a guess draws from the generation's random state, and leaves behind what the
/// draw leaves.
pub proof fn law_check_draws_on<K: Kernel>(
    m: DecoderModel<K>,
    options: GenerationOptions<K::Cell>,
    state: Seq<K::Cell>,
    odds: Option<Seq<K::Cell>>,
    guess: usize,
    sampler: SamplerView,
)
    requires
        hot(m.kernel, options),
        forall|target: Seq<K::Cell>, draft: Seq<K::Cell>, guess: usize, random: u64|
            (#[trigger] speculate_of(m.kernel, target, draft, guess, random)) matches Some(made) ==> made.2 == advance_of(m.kernel, random),
    ensures
        target_of(m, options, state, odds, guess, sampler) matches Some((_, _, after)) ==> after.random == advance_of(m.kernel, sampler.random),
{
}

/// Where the best token is taken, a guess decides nothing but whether it holds: the token is
/// the same for every guess, and a guess holds exactly where it is that token.
pub proof fn law_guess_decides_nothing<K: Kernel>(
    m: DecoderModel<K>,
    options: GenerationOptions<K::Cell>,
    state: Seq<K::Cell>,
    odds: Option<Seq<K::Cell>>,
    other_odds: Option<Seq<K::Cell>>,
    guess: usize,
    other: usize,
    sampler: SamplerView,
)
    requires
        !hot(m.kernel, options),
    ensures
        match (target_of(m, options, state, odds, guess, sampler), target_of(m, options, state, other_odds, other, sampler)) {
            (Some(a), Some(b)) => a.0 == b.0 && a.2 == b.2 && a.1 == (guess == a.0) && b.1 == (other == b.0),
            (None, None) => true,
            _ => false,
        },
{
}

/// What a draft head and its output map are does not decide over the tokens that are checked.
pub proof fn law_head_decides_nothing<K: Kernel>(
    m: DecoderModel<K>,
    other: DecoderModel<K>,
    options: GenerationOptions<K::Cell>,
    state: Seq<K::Cell>,
    odds: Option<Seq<K::Cell>>,
    guess: usize,
    sampler: SamplerView,
)
    requires
        other == (DecoderModel { mtp: other.mtp, mtp_draft_lm_head: other.mtp_draft_lm_head, ..m }),
    ensures
        target_of(other, options, state, odds, guess, sampler) == target_of(m, options, state, odds, guess, sampler),
        sampled(other, other.lm_head, state, options, sampler) == sampled(m, m.lm_head, state, options, sampler),
{
}

/// The tokens that a check of drawn guesses gives are admitted by the decoder's probabilities
/// behind the state that each was checked at; and so is the token that comes next, where the
/// check ends with a guess that is not kept.
pub proof fn law_checked_tokens_admitted<K: Kernel>(
    m: DecoderModel<K>,
    options: GenerationOptions<K::Cell>,
    admits: Admits<K::Cell>,
    states: Seq<Seq<K::Cell>>,
    drafts: Seq<usize>,
    odds: Seq<Option<Seq<K::Cell>>>,
    max: int,
    position: int,
    v: Verdict<K::Cell>,
)
    requires
        hot(m.kernel, options),
        gives_admitted(m.kernel, admits),
        0 <= position <= drafts.len(),
        v.ended is None,
    ensures
        judge_from(m, options, states, drafts, odds, max, position, v) matches Some(out) ==> {
            let more = out.generated.len() - v.generated.len();
            &&& 0 <= more <= drafts.len() - position
            &&& out.generated.take(v.generated.len() as int) == v.generated
            &&& forall|i: int|
                0 <= i < more ==> (#[trigger] out.generated[v.generated.len() + i]) == drafts[position + i] && (model_odds(
                    m,
                    options,
                    states[position + i],
                ) matches Some(target) && admits(target, drafts[position + i]))
            &&& out.ended matches Some(at) ==> (at == position + more ==> (model_odds(m, options, states[at]) matches Some(target) && admits(
                target,
                out.pending,
            )))
        },
    decreases drafts.len() - position,
{
    assert(v.generated.take(v.generated.len() as int) =~= v.generated);
    if position < drafts.len() {
        law_model_decides(m, options, admits, states[position], odds_at(odds, position), drafts[position], v.sampler);
        if judge_one(m, options, states, drafts, odds, max, position, v) is Some {
            let next = judge_one(m, options, states, drafts, odds, max, position, v)->0;
            if next.ended is None {
                law_checked_tokens_admitted(m, options, admits, states, drafts, odds, max, position + 1, next);
                if judge_from(m, options, states, drafts, odds, max, position + 1, next) is Some {
                    let out = judge_from(m, options, states, drafts, odds, max, position + 1, next)->0;
                    let n = v.generated.len() as int;
                    assert(out.generated.take(n + 1).take(n) =~= out.generated.take(n));
                    assert(next.generated.take(n) =~= v.generated);
                    assert(out.generated[n] == out.generated.take(n + 1)[n]);
                    let more = out.generated.len() - n;
                    assert forall|i: int| 0 <= i < more implies (#[trigger] out.generated[n + i]) == drafts[position + i] && (model_odds(
                        m,
                        options,
                        states[position + i],
                    ) matches Some(target) && admits(target, drafts[position + i])) by {
                        if i > 0 {
                            assert(out.generated[next.generated.len() + (i - 1)] == drafts[position + 1 + (i - 1)]);
                        }
                    }
                }
            } else {
                assert(judge_from(m, options, states, drafts, odds, max, position + 1, next) == Some(next));
                assert(next.generated.take(v.generated.len() as int) =~= v.generated);
            }
        }
    }
}

/// A guess of a draft head that is drawn comes from the probabilities that are kept with it,
/// where a draw gives only what its probabilities propose.
pub proof fn law_guess_drawn_from_its_odds<K: Kernel>(
    m: DecoderModel<K>,
    options: GenerationOptions<K::Cell>,
    proposes: Admits<K::Cell>,
    offset: int,
    at: Drafting<K::Cell>,
)
    requires
        hot(m.kernel, options),
        forall|odds: Seq<K::Cell>, random: u64| (#[trigger] draw_from_of(m.kernel, odds, random)) matches Some(made) ==> proposes(odds, made.0),
    ensures
        draft_one(m, options, offset, at) matches Some(next) ==> {
            &&& next.tokens.len() == at.tokens.len() + 1 && next.odds.len() == at.odds.len() + 1
            &&& next.odds.last() matches Some(odds) && proposes(odds, next.tokens.last())
            &&& next.token == next.tokens.last()
        },
{
}

/// Guesses are read with the draft head's own output map where it has one, whatever the
/// decoder's is; and with the decoder's where not, as if it were its own.
pub proof fn law_map_of_guesses<K: Kernel>(
    m: DecoderModel<K>,
    other: DecoderModel<K>,
    options: GenerationOptions<K::Cell>,
    offset: int,
    at: Drafting<K::Cell>,
)
    requires
        (m.mtp_draft_lm_head is Some && other == (DecoderModel { lm_head: other.lm_head, ..m })) || (m.mtp_draft_lm_head is None && other == (
        DecoderModel { mtp_draft_lm_head: Some(m.lm_head), ..m })),
    ensures
        draft_one(other, options, offset, at) == draft_one(m, options, offset, at),
{
    assert(m.draft_head() == other.draft_head());
    lemma_same_row(m, other, at.view, at.state, at.token, offset + at.tokens.len());
    assert forall|state: Seq<K::Cell>| #[trigger] odds_of(other, other.draft_head(), state, options) == odds_of(m, m.draft_head(), state, options) by {}
    assert forall|state: Seq<K::Cell>, sampler: SamplerView| #[trigger]
        sampled(other, other.draft_head(), state, options, sampler) == sampled(m, m.draft_head(), state, options, sampler) by {}
}

/// The output maps do not matter within a draft head.
proof fn lemma_same_row<K: Kernel>(m: DecoderModel<K>, other: DecoderModel<K>, view: LayerView<K::Cell>, state: Seq<K::Cell>, token: usize, position: int)
    requires
        other == (DecoderModel { lm_head: other.lm_head, mtp_draft_lm_head: other.mtp_draft_lm_head, ..m }),
    ensures
        mtp_row(other, view, state, token, position) == mtp_row(m, view, state, token, position),
{
    assert(embed_row(other, token) == embed_row(m, token));
}

/// A draw of a kernel is fair by the temperature and the limits that it is told of.
pub type Fair<C> = spec_fn(C, C, usize, Seq<C>, usize) -> bool;

/// A token is drawn at the temperature and under the limits that are asked for, from the
/// generation's random state; at no temperature it is the best one, and nothing is drawn.
pub proof fn law_draw_as_asked<K: Kernel>(k: K, options: GenerationOptions<K::Cell>, fair: Fair<K::Cell>, logits: Seq<K::Cell>, sampler: SamplerView)
    requires
        forall|logits: Seq<K::Cell>, params: SamplingParams<K::Cell>, random: u64|
            (#[trigger] draw_of(k, logits, params, random)) matches Some(made) ==> fair(params.temperature, params.top_p, params.top_k, logits, made.0) && made.1
                == advance_of(k, random),
    ensures
        chosen(k, logits, options, sampler) matches Some((token, after)) ==> {
            &&& after.accepted == sampler.accepted
            &&& if greedy(k, options) {
                argmax_of(k, logits) == Some(token) && after.random == sampler.random
            } else {
                fair(options.temperature, options.top_p, options.top_k, logits, token) && after.random == advance_of(k, sampler.random)
            }
        },
{
}

/// A token that is guided is one that is left once the guide's mask is laid over the logits,
/// behind the tokens that the guide has taken in; and the guide then takes it in.
pub proof fn law_guided_tokens<K: Kernel>(k: K, options: GenerationOptions<K::Cell>, left: Admits<K::Cell>, logits: Seq<K::Cell>, sampler: SamplerView)
    requires
        forall|logits: Seq<K::Cell>| (#[trigger] argmax_of(k, logits)) matches Some(token) ==> left(logits, token),
        forall|logits: Seq<K::Cell>, params: SamplingParams<K::Cell>, random: u64|
            (#[trigger] draw_of(k, logits, params, random)) matches Some(made) ==> left(logits, made.0),
    ensures
        guided(k, logits, options, sampler) matches Some((token, after)) ==> {
            &&& mask_of(k, sampler.accepted, logits) matches Some(masked) && left(masked, token)
            &&& after.accepted == sampler.accepted.push(token)
        },
{
}

/// A guided generation takes every token under the guide, and one that is not guided takes
/// none in.
pub proof fn law_guide_is_heeded<K: Kernel>(m: DecoderModel<K>, options: GenerationOptions<K::Cell>, state: Seq<K::Cell>, sampler: SamplerView)
    ensures
        sampled(m, m.lm_head, state, options, sampler) matches Some((token, after)) ==> after.accepted == if options.guided {
            sampler.accepted.push(token)
        } else {
            sampler.accepted
        },
{
}

/// A token that a device chooses is asked of it with the output map's weight, the state, and
/// the temperature and limits that are asked for: with a device that answers only what is
/// due, it is due. A map with a bias, and a guide, keep the choice on the host.
pub proof fn law_device_asked_rightly<K: Kernel>(
    m: DecoderModel<K>,
    options: GenerationOptions<K::Cell>,
    due: spec_fn(DeviceRoute, LinearWeight<K::Cell>, Seq<K::Cell>, SamplingParams<K::Cell>, usize) -> bool,
    state: Seq<K::Cell>,
    sampler: SamplerView,
)
    requires
        forall|route: DeviceRoute, weight: LinearWeight<K::Cell>, state: Seq<K::Cell>, params: SamplingParams<K::Cell>, random: u64|
            (#[trigger] device_answer_of(m.kernel, route, weight, state, params, random)) matches Some(Some(token)) ==> due(route, weight, state, params, token),
        forall|route: DeviceRoute, weight: LinearWeight<K::Cell>, state: Seq<K::Cell>, params: SamplingParams<K::Cell>, random: u64|
            (#[trigger] device_answer_of(m.kernel, route, weight, state, params, random)) matches Some(Some(_)),
    ensures
        ({
            let params = SamplingParams { temperature: options.temperature, top_p: options.top_p, top_k: options.top_k };
            sampled(m, m.lm_head, state, options, sampler) matches Some((token, after)) ==> {
                &&& !options.guided && m.lm_head.bias is None && greedy(m.kernel, options) && m.flags.gpu_argmax ==> due(
                    DeviceRoute::Argmax,
                    m.lm_head.weight,
                    state,
                    params,
                    token,
                ) && after == sampler
                &&& !options.guided && m.lm_head.bias is None && hot(m.kernel, options) && m.flags.gpu_sampler && 0 < options.top_k <= MAX_SAMPLER_TOP_K ==> due(
                    DeviceRoute::TopK,
                    m.lm_head.weight,
                    state,
                    params,
                    token,
                ) && after.random == advance_of(m.kernel, sampler.random)
            }
        }),
{
}

} // verus!
