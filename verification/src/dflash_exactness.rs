//! The guesses of a draft model change nothing in what is generated.

use vstd::prelude::*;
use crate::batching::{law_batch_is_steps, law_cold_batch_is_steps};
use crate::capture::law_read_batch;
use crate::cold::reciprocal;
use crate::decode::{advanced, generated, solo, DecodeView};
use crate::decoder::generated_from;
use crate::dflash::{dflash_drafts, dflash_generated, dflash_given, dflash_judge_from, dflash_judge_one, dflash_plain, dflash_reference, dflash_round, dflash_rounds, dflash_verified, guess_limit, lemma_dflash_round_grows, projected, read_prompt, read_states, DflashView};
use crate::exactness::{best, best_behind, best_from, cache_after, calm, law_solo_is_best, lemma_seen_less, lemma_step_at};
use crate::firsthand::{law_one_batch, law_served_is_uncached, one_batch, unhelped};
use crate::kernel::Kernel;
use crate::model::{batch_hidden, step, steps, CacheView, DecoderModel};
use crate::options::{GenerationOptions, SamplerView};
use crate::prefill::{last_state, tokenwise};
use crate::prefix_cache::EntryView;
use crate::prompts::{law_steps_gain, lemma_last_of_batch};
use crate::sampling::sampled;
use crate::sink::always;
use crate::speculation::{checked_tokens, opening, SpecView, Verdict};
use crate::transparency::{faithful, law_served_is_tokenwise};
use crate::warmth::{law_batch_gains, law_step_gains, lemma_fresh_seen, lemma_seen_is_warm, seen};
use crate::weights::DraftModel;

verus! {

/// Tokens without a last one that the generation stops at.
pub open spec fn settled<C: Copy>(options: GenerationOptions<C>, tokens: Seq<usize>) -> Seq<usize> {
    if tokens.len() > 0 && options.stops_at(tokens.last()) {
        tokens.drop_last()
    } else {
        tokens
    }
}

/// States read on the way are those of the tokens one after the other.
proof fn lemma_read_is_steps<K: Kernel>(m: DecoderModel<K>, ids: Seq<usize>, cache: CacheView<K::Cell>, tokens: Seq<usize>, count: int)
    requires
        seen(m, cache, count),
        count > 0,
    ensures
        read_states(m, ids, cache, tokens) matches Some(made) ==> steps(m, cache, tokens) == Some((made.0, made.1)),
{
    law_read_batch(m, ids, cache, tokens);
    if read_states(m, ids, cache, tokens) is Some {
        lemma_seen_is_warm(m, cache, count);
        law_batch_is_steps(m, cache, tokens);
    }
}

/// One token read on the way is one token.
proof fn lemma_read_is_step<K: Kernel>(m: DecoderModel<K>, ids: Seq<usize>, cache: CacheView<K::Cell>, token: usize, count: int)
    requires
        seen(m, cache, count),
        count > 0,
    ensures
        read_states(m, ids, cache, seq![token]) matches Some(made) ==> step(m, cache, token) == Some((made.0, made.1[0])),
{
    lemma_read_is_steps(m, ids, cache, seq![token], count);
    if read_states(m, ids, cache, seq![token]) is Some {
        assert(seq![token].drop_last() =~= Seq::<usize>::empty());
        assert(steps(m, cache, Seq::<usize>::empty()) == Some((cache, Seq::<Seq<K::Cell>>::empty())));
        let state = (step(m, cache, token)->0).1;
        assert(Seq::<Seq<K::Cell>>::empty().push(state)[0] == state);
    }
}

/// Where a check of guesses ends, the best tokens go on from there.
proof fn lemma_dflash_check<K: Kernel>(m: DecoderModel<K>, options: GenerationOptions<K::Cell>, cache: CacheView<K::Cell>, drafts: Seq<usize>, primary: usize, max: int, p: int, v: Verdict<K::Cell>)
    requires
        calm(m, options),
        steps(m, cache, checked_tokens(primary, drafts)) is Some,
        0 <= p < drafts.len(),
        v.ended is None,
        0 < v.generated.len() < max,
        v.generated.last() == checked_tokens(primary, drafts)[p],
        !options.stops_at(v.generated.last()),
    ensures
        ({
            let tokens = checked_tokens(primary, drafts);
            let states = (steps(m, cache, tokens)->0).1;
            dflash_judge_from(m, options, states, drafts, max, p, v) matches Some(w) ==> {
                &&& w.generated.len() > 0
                &&& match w.ended {
                    Some(q) => {
                        &&& p <= q < drafts.len()
                        &&& if options.stops_at(w.generated.last()) {
                            best_behind(m, options, cache_after(m, cache, tokens, p), v.generated, max) == Some(w.generated.drop_last())
                        } else {
                            best_behind(m, options, cache_after(m, cache, tokens, p), v.generated, max) == best_from(
                                m,
                                options,
                                cache_after(m, cache, tokens, q + 1),
                                w.pending,
                                w.generated,
                                max,
                            )
                        }
                    },
                    None => {
                        &&& w.last == w.generated.last()
                        &&& !options.stops_at(w.generated.last())
                        &&& best_behind(m, options, cache_after(m, cache, tokens, p), v.generated, max) == best_behind(
                            m,
                            options,
                            cache_after(m, cache, tokens, drafts.len() as int),
                            w.generated,
                            max,
                        )
                    },
                }
            }
        }),
    decreases drafts.len() - p,
{
    let tokens = checked_tokens(primary, drafts);
    let states = (steps(m, cache, tokens)->0).1;
    lemma_step_at(m, cache, tokens, p);
    crate::exactness::lemma_best(m, options, states[p], v.sampler);
    if dflash_judge_from(m, options, states, drafts, max, p, v) is Some {
        let next = dflash_judge_one(m, options, states, drafts, max, p, v)->0;
        let target = best(m, options, states[p])->0;
        let here = cache_after(m, cache, tokens, p);
        let there = cache_after(m, cache, tokens, p + 1);
        assert(best_behind(m, options, here, v.generated, max) == best_from(m, options, there, target, v.generated, max));
        if drafts[p] != target {
            assert(dflash_judge_from(m, options, states, drafts, max, p + 1, next) == Some(next));
        } else if options.stops_at(target) {
            assert(dflash_judge_from(m, options, states, drafts, max, p + 1, next) == Some(next));
            assert(next.generated.drop_last() =~= v.generated);
        } else if next.generated.len() >= max {
            assert(dflash_judge_from(m, options, states, drafts, max, p + 1, next) == Some(next));
            assert(best_behind(m, options, there, next.generated, max) == Some(next.generated));
        } else if p + 1 < drafts.len() {
            assert(tokens[p + 1] == drafts[p]);
            lemma_dflash_check(m, options, cache, drafts, primary, max, p + 1, next);
        } else {
            assert(dflash_judge_from(m, options, states, drafts, max, p + 1, next) == Some(next));
        }
    }
}

/// After a check of a draft model's guesses the best tokens go on from where it left
/// the generation, or end at a token that the generation stops at.
pub proof fn law_dflash_verified_goes_on<K: Kernel>(m: DecoderModel<K>, draft: DraftModel<K::Cell>, options: GenerationOptions<K::Cell>, s: DflashView<K::Cell>, drafts: Seq<usize>, max: int, count: int)
    requires
        calm(m, options),
        seen(m, s.run.cache, count),
        count > 0,
        0 < s.run.generated.len() < max,
        !options.stops_at(s.run.generated.last()),
    ensures
        dflash_verified(m, draft, options, s, drafts, s.run.generated.last(), max) matches Some((next, all, last)) ==> {
            &&& seen(m, next.run.cache, count)
            &&& next.run.generated.len() > 0
            &&& if options.stops_at(next.run.generated.last()) {
                best_behind(m, options, s.run.cache, s.run.generated, max) == Some(next.run.generated.drop_last())
            } else if all {
                &&& last == next.run.generated.last()
                &&& best_behind(m, options, s.run.cache, s.run.generated, max) == best_behind(
                    m,
                    options,
                    next.run.cache,
                    next.run.generated,
                    max,
                )
            } else {
                best_behind(m, options, s.run.cache, s.run.generated, max) == best_from(
                    m,
                    options,
                    next.run.cache,
                    next.run.pending,
                    next.run.generated,
                    max,
                )
            }
        },
{
    let primary = s.run.generated.last();
    let tokens = checked_tokens(primary, drafts);
    let ids = draft.target_layer_ids@;
    if drafts.len() > 0 && dflash_verified(m, draft, options, s, drafts, primary, max) is Some {
        lemma_read_is_steps(m, ids, s.run.cache, tokens, count);
        let (after, states) = steps(m, s.run.cache, tokens)->0;
        assert(tokens[0] == primary);
        lemma_dflash_check(m, options, s.run.cache, drafts, primary, max, 0, opening(s.run, primary));
        let w = dflash_judge_from(m, options, states, drafts, max, 0, opening(s.run, primary))->0;
        assert(tokens.take(0) =~= Seq::<usize>::empty());
        assert(cache_after(m, s.run.cache, tokens, 0) == s.run.cache) by {
            assert(steps(m, s.run.cache, Seq::<usize>::empty()) == Some((s.run.cache, Seq::<Seq<K::Cell>>::empty())));
        }
        assert(tokens.take(tokens.len() as int) =~= tokens);
        law_steps_gain(m, s.run.cache, tokens, count);
        lemma_seen_less(m, after, count + tokens.len(), count);
        if w.ended is Some {
            let q = w.ended->0;
            if q + 1 < tokens.len() {
                let used = tokens.take(q + 1);
                lemma_read_is_steps(m, ids, s.run.cache, used, count);
                law_steps_gain(m, s.run.cache, used, count);
                let early = (steps(m, s.run.cache, used)->0).0;
                lemma_seen_less(m, early, count + q + 1, count);
            }
        }
    }
}

/// Rounds give the best tokens, with a token behind them where the generation stops
/// at one that was guessed.
pub proof fn law_dflash_rounds_are_best<K: Kernel>(m: DecoderModel<K>, draft: DraftModel<K::Cell>, options: GenerationOptions<K::Cell>, max: int, guesses: int, s: DflashView<K::Cell>, count: int)
    requires
        calm(m, options),
        seen(m, s.run.cache, count),
        count > 0,
        s.run.generated.len() == 0 || !options.stops_at(s.run.generated.last()),
    ensures
        dflash_rounds(m, draft, options, max, guesses, s) matches Some(end) ==> best_from(
            m,
            options,
            s.run.cache,
            s.run.pending,
            s.run.generated,
            max,
        ) == Some(settled(options, end.run.generated)),
    decreases (if max > s.run.generated.len() { max - s.run.generated.len() } else { 0 }),
{
    if s.run.generated.len() >= max || options.stops_at(s.run.pending) {
    } else if s.run.generated.len() + 1 >= max {
    } else {
        let now = dflash_given(s);
        lemma_dflash_round_grows(m, draft, options, max, guesses, now);
        if dflash_round(m, draft, options, max, guesses, now) is Some {
            let primary = now.run.pending;
            let (drafts, sampler) = dflash_drafts(m, draft, now.context, primary, guesses, options, now.run.sampler)->0;
            let before = DflashView { run: SpecView { sampler, ..now.run }, ..now };
            assert(before.run.generated.last() == primary);
            law_dflash_verified_goes_on(m, draft, options, before, drafts, max, count);
            let (next, all, last) = dflash_verified(m, draft, options, before, drafts, primary, max)->0;
            let (on, ended) = dflash_round(m, draft, options, max, guesses, now)->0;
            if ended {
                if !options.stops_at(next.run.generated.last()) && all {
                    assert(best_behind(m, options, next.run.cache, next.run.generated, max) == Some(next.run.generated));
                }
            } else if all {
                lemma_read_is_step(m, draft.target_layer_ids@, next.run.cache, last, count);
                let (cache, state) = step(m, next.run.cache, last)->0;
                crate::exactness::lemma_best(m, options, state, next.run.sampler);
                law_step_gains(m, next.run.cache, last, count);
                lemma_seen_less(m, cache, count + 1, count);
                law_dflash_rounds_are_best(m, draft, options, max, guesses, on, count);
            } else {
                law_dflash_rounds_are_best(m, draft, options, max, guesses, on, count);
            }
        }
    }
}

/// A prompt read on the way leaves what it leaves token by token.
pub proof fn law_read_prompt<K: Kernel>(m: DecoderModel<K>, ids: Seq<usize>, prompt: Seq<usize>)
    requires
        reciprocal(m),
    ensures
        read_prompt(m, ids, prompt) matches Some(made) ==> tokenwise(m, prompt) == Some((made.0, made.1)),
{
    law_read_batch(m, ids, m.fresh(), prompt);
    if read_prompt(m, ids, prompt) is Some {
        lemma_fresh_seen(m);
        law_cold_batch_is_steps(m, m.fresh(), prompt);
        lemma_last_of_batch(m, m.fresh(), prompt);
        crate::warmth::law_batch_gains(m, m.fresh(), prompt, 0);
    }
}

/// What a prompt read on the way leaves has seen the prompt, and is what the prompt leaves
/// in one batch.
pub proof fn law_read_prompt_seen<K: Kernel>(m: DecoderModel<K>, ids: Seq<usize>, prompt: Seq<usize>)
    ensures
        read_prompt(m, ids, prompt) matches Some(made) ==> {
            &&& seen(m, made.0, prompt.len() as int)
            &&& made.0.position == prompt.len()
            &&& prompt.len() > 0
            &&& last_state(m, batch_hidden(m, m.fresh(), prompt)) == Some((made.0, made.1))
        },
{
    law_read_batch(m, ids, m.fresh(), prompt);
    lemma_fresh_seen(m);
    law_batch_gains(m, m.fresh(), prompt, 0);
}

/// A generation with a draft model's guesses gives the tokens of one without them from the
/// same start, with a token behind them where the generation stops at one that was
/// guessed.
pub proof fn law_dflash_from_start<K: Kernel>(m: DecoderModel<K>, draft: DraftModel<K::Cell>, options: GenerationOptions<K::Cell>, prompt: Seq<usize>, max: int, asked: int)
    requires
        calm(m, options),
        max > 0,
        asked >= 0,
    ensures
        dflash_generated(m, draft, options, prompt, max, asked) matches Some(made) ==> (read_prompt(
            m,
            draft.target_layer_ids@,
            prompt,
        ) matches Some(start) && (generated(m, options, always(), Seq::empty(), start.0, start.1, max) matches Some(out) && out.0
            == settled(options, made.0))),
{
    if dflash_generated(m, draft, options, prompt, max, asked) is Some {
        let ids = draft.target_layer_ids@;
        let guesses = guess_limit(draft, asked);
        law_read_prompt_seen(m, ids, prompt);
        let (cache, state, read) = read_prompt(m, ids, prompt)->0;
        let context = projected(m, draft, read)->0;
        let (pending, sampler) = sampled(m, m.lm_head, state, options, SamplerView::start(options.seed))->0;
        let run = SpecView {
            cache,
            state,
            pending,
            generated: Seq::empty(),
            sampler,
            stats: crate::stats::StatsView::zero(guesses),
        };
        law_dflash_rounds_are_best(m, draft, options, max, guesses, DflashView { run, context }, prompt.len() as int);
        law_solo_is_best(m, options, Seq::empty(), DecodeView { cache, token: pending, sampler }, Seq::empty(), max);
    }
}

/// A generation with a draft model's guesses gives the tokens of one without them, with a
/// token behind them where the generation stops at one that was guessed: the prompt goes
/// through the layers in one batch, which nothing that is kept helps.
pub proof fn law_dflash_is_solo<K: Kernel>(m: DecoderModel<K>, draft: DraftModel<K::Cell>, entries: Seq<EntryView<K::Cell>>, options: GenerationOptions<K::Cell>, prompt: Seq<usize>, max: int, asked: int)
    requires
        calm(m, options),
        one_batch(m, prompt),
        unhelped(m, entries, prompt),
        max >= 0,
        asked >= 0,
    ensures
        dflash_generated(m, draft, options, prompt, max, asked) matches Some(made) ==> (generated_from(
            m,
            entries,
            options,
            prompt,
            max,
        ).0 matches Some(out) && out.0 == settled(options, made.0)),
{
    if max > 0 {
        law_dflash_from_start(m, draft, options, prompt, max, asked);
        law_read_prompt_seen(m, draft.target_layer_ids@, prompt);
        law_served_is_uncached(m, entries, prompt, prompt);
        law_one_batch(m, prompt);
    }
}

/// However the prompt goes through the layers and whatever starts of it are kept, the same
/// holds where the arithmetic makes no difference.
pub proof fn law_steady_dflash_is_solo<K: Kernel>(m: DecoderModel<K>, draft: DraftModel<K::Cell>, entries: Seq<EntryView<K::Cell>>, options: GenerationOptions<K::Cell>, prompt: Seq<usize>, max: int, asked: int)
    requires
        calm(m, options),
        reciprocal(m),
        faithful(m, entries),
        max >= 0,
        asked >= 0,
    ensures
        dflash_generated(m, draft, options, prompt, max, asked) matches Some(made) ==> (generated_from(
            m,
            entries,
            options,
            prompt,
            max,
        ).0 matches Some(out) && out.0 == settled(options, made.0)),
{
    if max > 0 {
        law_dflash_from_start(m, draft, options, prompt, max, asked);
        law_read_prompt_seen(m, draft.target_layer_ids@, prompt);
        law_read_prompt(m, draft.target_layer_ids@, prompt);
        law_served_is_tokenwise(m, entries, prompt);
    }
}

proof fn lemma_plain_is_solo<K: Kernel>(m: DecoderModel<K>, ids: Seq<usize>, options: GenerationOptions<K::Cell>, told: Seq<(usize, usize)>, at: DecodeView<K::Cell>, given: Seq<usize>, max: int, count: int)
    requires
        seen(m, at.cache, count),
        count > 0,
    ensures
        dflash_plain(m, ids, options, at.cache, at.token, at.sampler, given, max) matches Some(tokens) ==> (solo(
            m,
            options,
            always(),
            told,
            at,
            given,
            given.len() as int,
            max,
        ) matches Some(out) && out.0 == tokens),
    decreases max - given.len(),
{
    if given.len() < max && !options.stops_at(at.token) {
        let now = given.push(at.token);
        if !crate::options::ends_with_any(now, options.stop_sequences@) && now.len() < max {
            lemma_read_is_step(m, ids, at.cache, at.token, count);
            if read_states(m, ids, at.cache, seq![at.token]) is Some {
                law_step_gains(m, at.cache, at.token, count);
                let cache = (step(m, at.cache, at.token)->0).0;
                lemma_seen_less(m, cache, count + 1, count);
                if advanced(m, options, at) is Some {
                    lemma_plain_is_solo(m, ids, options, told.push((0, at.token)), advanced(m, options, at)->0, now, max, count);
                }
            }
        }
    }
}

/// A generation that reads layers on the way gives the tokens of one that does not from the
/// same start.
pub proof fn law_reference_from_start<K: Kernel>(m: DecoderModel<K>, draft: DraftModel<K::Cell>, options: GenerationOptions<K::Cell>, prompt: Seq<usize>, max: int)
    requires
        max > 0,
    ensures
        dflash_reference(m, draft, options, prompt, max) matches Some(tokens) ==> (read_prompt(
            m,
            draft.target_layer_ids@,
            prompt,
        ) matches Some(start) && (generated(m, options, always(), Seq::empty(), start.0, start.1, max) matches Some(out) && out.0 == tokens)),
{
    if dflash_reference(m, draft, options, prompt, max) is Some {
        let ids = draft.target_layer_ids@;
        law_read_prompt_seen(m, ids, prompt);
        let (cache, state, read) = read_prompt(m, ids, prompt)->0;
        let (token, sampler) = sampled(m, m.lm_head, state, options, SamplerView::start(options.seed))->0;
        lemma_plain_is_solo(
            m,
            ids,
            options,
            Seq::empty(),
            DecodeView { cache, token, sampler },
            Seq::empty(),
            max,
            prompt.len() as int,
        );
    }
}

/// A generation with a draft model's guesses gives the tokens of one that only reads layers
/// on the way, with a token behind them where the generation stops at one that was guessed.
pub proof fn law_dflash_is_reference<K: Kernel>(m: DecoderModel<K>, draft: DraftModel<K::Cell>, options: GenerationOptions<K::Cell>, prompt: Seq<usize>, max: int, asked: int)
    requires
        calm(m, options),
        max >= 0,
        asked >= 0,
    ensures
        match (dflash_generated(m, draft, options, prompt, max, asked), dflash_reference(m, draft, options, prompt, max)) {
            (Some(made), Some(tokens)) => tokens == settled(options, made.0),
            _ => true,
        },
{
    if max > 0 {
        law_dflash_from_start(m, draft, options, prompt, max, asked);
        law_reference_from_start(m, draft, options, prompt, max);
    }
}

/// A generation that reads layers on the way gives the tokens of one that does not: the
/// prompt goes through the layers in one batch, which nothing that is kept helps.
pub proof fn law_dflash_reference_is_solo<K: Kernel>(m: DecoderModel<K>, draft: DraftModel<K::Cell>, entries: Seq<EntryView<K::Cell>>, options: GenerationOptions<K::Cell>, prompt: Seq<usize>, max: int)
    requires
        one_batch(m, prompt),
        unhelped(m, entries, prompt),
        max >= 0,
    ensures
        dflash_reference(m, draft, options, prompt, max) matches Some(tokens) ==> (generated_from(
            m,
            entries,
            options,
            prompt,
            max,
        ).0 matches Some(out) && out.0 == tokens),
{
    if max > 0 {
        law_reference_from_start(m, draft, options, prompt, max);
        law_read_prompt_seen(m, draft.target_layer_ids@, prompt);
        law_served_is_uncached(m, entries, prompt, prompt);
        law_one_batch(m, prompt);
    }
}

/// However the prompt goes through the layers and whatever starts of it are kept, the same
/// holds where the arithmetic makes no difference.
pub proof fn law_steady_dflash_reference_is_solo<K: Kernel>(m: DecoderModel<K>, draft: DraftModel<K::Cell>, entries: Seq<EntryView<K::Cell>>, options: GenerationOptions<K::Cell>, prompt: Seq<usize>, max: int)
    requires
        reciprocal(m),
        faithful(m, entries),
        max >= 0,
    ensures
        dflash_reference(m, draft, options, prompt, max) matches Some(tokens) ==> (generated_from(
            m,
            entries,
            options,
            prompt,
            max,
        ).0 matches Some(out) && out.0 == tokens),
{
    if max > 0 {
        law_reference_from_start(m, draft, options, prompt, max);
        law_read_prompt_seen(m, draft.target_layer_ids@, prompt);
        law_read_prompt(m, draft.target_layer_ids@, prompt);
        law_served_is_tokenwise(m, entries, prompt);
    }
}

} // verus!
