//! Guessing changes nothing in what is generated.

use vstd::prelude::*;
use crate::batching::law_batch_is_steps;
use crate::cold::reciprocal;
use crate::decode::{advanced, generated, solo, DecodeView};
use crate::decoder::{generated_from, served};
use crate::firsthand::{law_one_batch, law_served_is_uncached, law_served_seen, law_uncached_seen, one_batch, practised, unhelped};
use crate::kernel::Kernel;
use crate::kv::LayerView;
use crate::model::{step, steps, CacheView, DecoderModel};
use crate::mtp::{draft_on, draft_one, given, mtp_from, mtp_generated, mtp_round, mtp_rounds, prefilled_with_history, read_on, Drafting, MtpView};
use crate::options::{ends_with, ends_with_any, greedy, GenerationOptions, SamplerView};
use crate::prefix_cache::EntryView;
use crate::prompts::{law_steps_gain, law_tokenwise_position, steady};
use crate::sampling::sampled;
use crate::sink::always;
use crate::speculation::{checked_tokens, judge_from, judge_one, opening, verified, SpecView, Verdict};
use crate::transparency::{faithful, law_served_is_tokenwise};
use crate::warmth::{lemma_fresh_seen, lemma_seen_is_warm, seen};

verus! {

/// The best token is taken each time, no guide restricts it, and no sequence ends
/// the generation.
pub open spec fn calm<K: Kernel>(m: DecoderModel<K>, options: GenerationOptions<K::Cell>) -> bool {
    &&& greedy(m.kernel, options)
    &&& !options.guided
    &&& forall|i: int| 0 <= i < options.stop_sequences@.len() ==> (#[trigger] options.stop_sequences@[i])@.len() == 0
}

/// The best token of a state.
pub open spec fn best<K: Kernel>(m: DecoderModel<K>, options: GenerationOptions<K::Cell>, state: Seq<K::Cell>) -> Option<usize> {
    match sampled(m, m.lm_head, state, options, SamplerView::start(0)) {
        Some((token, _)) => Some(token),
        None => None,
    }
}

/// The best tokens, from one that comes next behind those that were given.
pub open spec fn best_from<K: Kernel>(m: DecoderModel<K>, options: GenerationOptions<K::Cell>, cache: CacheView<K::Cell>, token: usize, given: Seq<usize>, max: int) -> Option<Seq<usize>>
    decreases (if max > given.len() { max - given.len() } else { 0 }), 0int,
{
    if given.len() >= max || options.stops_at(token) {
        Some(given)
    } else {
        best_behind(m, options, cache, given.push(token), max)
    }
}

/// The best tokens behind those that were given, the last of which has not gone
/// through the decoder.
pub open spec fn best_behind<K: Kernel>(m: DecoderModel<K>, options: GenerationOptions<K::Cell>, cache: CacheView<K::Cell>, given: Seq<usize>, max: int) -> Option<Seq<usize>>
    decreases (if max > given.len() { max - given.len() } else { 0 }), 1int,
{
    if given.len() >= max {
        Some(given)
    } else {
        match step(m, cache, given.last()) {
            Some((after, state)) => match best(m, options, state) {
                Some(token) => best_from(m, options, after, token, given, max),
                None => None,
            },
            None => None,
        }
    }
}

pub proof fn lemma_best<K: Kernel>(m: DecoderModel<K>, options: GenerationOptions<K::Cell>, state: Seq<K::Cell>, sampler: SamplerView)
    requires
        calm(m, options),
    ensures
        sampled(m, m.lm_head, state, options, sampler) == match best(m, options, state) {
            Some(token) => Some((token, sampler)),
            None => None,
        },
{
}

proof fn lemma_no_end<K: Kernel>(m: DecoderModel<K>, options: GenerationOptions<K::Cell>, tokens: Seq<usize>)
    requires
        calm(m, options),
    ensures
        !ends_with_any(tokens, options.stop_sequences@),
{
    if ends_with_any(tokens, options.stop_sequences@) {
        let i = choose|i: int| 0 <= i < options.stop_sequences@.len() && ends_with(tokens, (#[trigger] options.stop_sequences@[i])@);
        assert(options.stop_sequences@[i]@.len() == 0);
    }
}

/// What a calm generation gives are the best tokens.
pub proof fn law_solo_is_best<K: Kernel>(m: DecoderModel<K>, options: GenerationOptions<K::Cell>, told: Seq<(usize, usize)>, at: DecodeView<K::Cell>, given: Seq<usize>, max: int)
    requires
        calm(m, options),
    ensures
        best_from(m, options, at.cache, at.token, given, max) == match solo(m, options, always(), told, at, given, given.len() as int, max) {
            Some((tokens, _)) => Some(tokens),
            None => None,
        },
    decreases max - given.len(),
{
    if given.len() < max && !options.stops_at(at.token) {
        let now = given.push(at.token);
        lemma_no_end(m, options, now);
        if now.len() < max {
            assert(now.last() == at.token);
            if step(m, at.cache, at.token) is Some {
                let state = (step(m, at.cache, at.token)->0).1;
                lemma_best(m, options, state, at.sampler);
                if advanced(m, options, at) is Some {
                    let next = advanced(m, options, at)->0;
                    law_solo_is_best(m, options, told.push((0, at.token)), next, now, max);
                }
            }
        }
    }
}

pub proof fn lemma_steps_prefix<K: Kernel>(m: DecoderModel<K>, cache: CacheView<K::Cell>, tokens: Seq<usize>, n: int)
    requires
        0 <= n <= tokens.len(),
        steps(m, cache, tokens) is Some,
    ensures
        steps(m, cache, tokens.take(n)) is Some,
        (steps(m, cache, tokens)->0).1.len() == tokens.len(),
        (steps(m, cache, tokens.take(n))->0).1 == (steps(m, cache, tokens)->0).1.take(n),
    decreases tokens.len(),
{
    if tokens.len() > 0 {
        let shorter = tokens.drop_last();
        if n == tokens.len() {
            lemma_steps_prefix(m, cache, shorter, n - 1);
            assert(tokens.take(n) =~= tokens);
            let states = (steps(m, cache, tokens)->0).1;
            assert(states.take(n) =~= states);
        } else {
            lemma_steps_prefix(m, cache, shorter, n);
            assert(shorter.take(n) =~= tokens.take(n));
            let states = (steps(m, cache, tokens)->0).1;
            let fewer = (steps(m, cache, shorter)->0).1;
            assert(states.take(n) =~= fewer.take(n));
        }
    } else {
        assert(tokens.take(n) =~= tokens);
        assert((steps(m, cache, tokens)->0).1.take(n) =~= Seq::<Seq<K::Cell>>::empty());
    }
}

/// The cache after the first `n` tokens.
pub open spec fn cache_after<K: Kernel>(m: DecoderModel<K>, cache: CacheView<K::Cell>, tokens: Seq<usize>, n: int) -> CacheView<K::Cell> {
    (steps(m, cache, tokens.take(n))->0).0
}

pub proof fn lemma_step_at<K: Kernel>(m: DecoderModel<K>, cache: CacheView<K::Cell>, tokens: Seq<usize>, n: int)
    requires
        0 <= n < tokens.len(),
        steps(m, cache, tokens) is Some,
    ensures
        step(m, cache_after(m, cache, tokens, n), tokens[n]) == Some(
            (cache_after(m, cache, tokens, n + 1), (steps(m, cache, tokens)->0).1[n]),
        ),
{
    lemma_steps_prefix(m, cache, tokens, n);
    lemma_steps_prefix(m, cache, tokens, n + 1);
    let longer = tokens.take(n + 1);
    assert(longer.drop_last() =~= tokens.take(n));
    assert(longer.last() == tokens[n]);
    let all = (steps(m, cache, tokens)->0).1;
    let some = (steps(m, cache, longer)->0).1;
    assert(some == all.take(n + 1));
    assert(some.last() == all[n]);
}

/// Where a check of guesses ends, the best tokens go on from there.
proof fn lemma_check<K: Kernel>(m: DecoderModel<K>, options: GenerationOptions<K::Cell>, cache: CacheView<K::Cell>, drafts: Seq<usize>, odds: Seq<Option<Seq<K::Cell>>>, primary: usize, max: int, p: int, v: Verdict<K::Cell>)
    requires
        calm(m, options),
        steps(m, cache, checked_tokens(primary, drafts)) is Some,
        0 <= p < drafts.len(),
        v.ended is None,
        0 < v.generated.len() < max,
        v.generated.last() == checked_tokens(primary, drafts)[p],
    ensures
        ({
            let tokens = checked_tokens(primary, drafts);
            let states = (steps(m, cache, tokens)->0).1;
            judge_from(m, options, states, drafts, odds, max, p, v) matches Some(w) ==> {
                &&& w.generated.len() > 0
                &&& match w.ended {
                    Some(q) => {
                        &&& p <= q < drafts.len()
                        &&& best_behind(m, options, cache_after(m, cache, tokens, p), v.generated, max) == best_from(
                            m,
                            options,
                            cache_after(m, cache, tokens, q + 1),
                            w.pending,
                            w.generated,
                            max,
                        )
                    },
                    None => {
                        &&& w.last == w.generated.last()
                        &&& best_behind(m, options, cache_after(m, cache, tokens, p), v.generated, max) == best_behind(
                            m,
                            options,
                            cache_after(m, cache, tokens, drafts.len() as int),
                            w.generated,
                            max,
                        )
                    },
                }
            }
        }),
    decreases drafts.len() - p,
{
    let tokens = checked_tokens(primary, drafts);
    let states = (steps(m, cache, tokens)->0).1;
    lemma_step_at(m, cache, tokens, p);
    lemma_best(m, options, states[p], v.sampler);
    if judge_from(m, options, states, drafts, odds, max, p, v) is Some {
        let next = judge_one(m, options, states, drafts, odds, max, p, v)->0;
        let target = best(m, options, states[p])->0;
        if options.stops_at(target) || drafts[p] != target {
            assert(judge_from(m, options, states, drafts, odds, max, p + 1, next) == Some(next));
        } else if next.generated.len() >= max {
            assert(judge_from(m, options, states, drafts, odds, max, p + 1, next) == Some(next));
        } else if p + 1 < drafts.len() {
            assert(tokens[p + 1] == drafts[p]);
            lemma_check(m, options, cache, drafts, odds, primary, max, p + 1, next);
        } else {
            assert(judge_from(m, options, states, drafts, odds, max, p + 1, next) == Some(next));
        }
    }
}

proof fn lemma_draft_count<K: Kernel>(m: DecoderModel<K>, options: GenerationOptions<K::Cell>, offset: int, left: int, at: Drafting<K::Cell>)
    requires
        left >= 0,
    ensures
        draft_on(m, options, offset, left, at) matches Some(d) ==> d.tokens.len() == at.tokens.len() + left,
    decreases left,
{
    if left > 0 && draft_one(m, options, offset, at) is Some {
        lemma_draft_count(m, options, offset, left - 1, draft_one(m, options, offset, at)->0);
    }
}

/// After a check of guesses behind the last token given, the best tokens go on from
/// where it left the generation.
pub proof fn law_verified_goes_on<K: Kernel>(m: DecoderModel<K>, options: GenerationOptions<K::Cell>, s: SpecView<K::Cell>, drafts: Seq<usize>, odds: Seq<Option<Seq<K::Cell>>>, max: int, count: int)
    requires
        calm(m, options),
        seen(m, s.cache, count),
        count > 0,
        drafts.len() > 0,
        0 < s.generated.len() < max,
    ensures
        verified(m, options, s, drafts, odds, s.generated.last(), max) matches Some((run, judged)) ==> {
            &&& seen(m, run.cache, count)
            &&& if judged.all {
                &&& run.generated.len() > 0
                &&& judged.last == run.generated.last()
                &&& best_behind(m, options, s.cache, s.generated, max) == best_behind(m, options, run.cache, run.generated, max)
            } else {
                best_behind(m, options, s.cache, s.generated, max) == best_from(m, options, run.cache, run.pending, run.generated, max)
            }
        },
{
    let primary = s.generated.last();
    let tokens = checked_tokens(primary, drafts);
    if verified(m, options, s, drafts, odds, primary, max) is Some {
        lemma_seen_is_warm(m, s.cache, count);
        law_batch_is_steps(m, s.cache, tokens);
        let (after, states) = steps(m, s.cache, tokens)->0;
        assert(tokens[0] == primary);
        lemma_check(m, options, s.cache, drafts, odds, primary, max, 0, opening(s, primary));
        let w = judge_from(m, options, states, drafts, odds, max, 0, opening(s, primary))->0;
        assert(tokens.take(0) =~= Seq::<usize>::empty());
        assert(cache_after(m, s.cache, tokens, 0) == s.cache) by {
            assert(steps(m, s.cache, Seq::<usize>::empty()) == Some((s.cache, Seq::<Seq<K::Cell>>::empty())));
        }
        assert(tokens.take(tokens.len() as int) =~= tokens);
        law_steps_gain(m, s.cache, tokens, count);
        lemma_seen_less(m, after, count + tokens.len(), count);
        if w.ended is Some {
            let q = w.ended->0;
            if q + 1 < tokens.len() {
                law_steps_gain(m, s.cache, tokens.take(q + 1), count);
                let early = (steps(m, s.cache, tokens.take(q + 1))->0).0;
                lemma_seen_less(m, early, count + q + 1, count);
            }
        }
    }
}

/// A cache that has seen so many positions has seen fewer.
pub proof fn lemma_seen_less<K: Kernel>(m: DecoderModel<K>, cache: CacheView<K::Cell>, many: int, few: int)
    requires
        seen(m, cache, many),
        few <= many,
    ensures
        seen(m, cache, few),
{
    assert(crate::warmth::seen_from(m, 0, cache.layers, few)) by {
        assert forall|i: int| 0 <= i < cache.layers.len() && (#[trigger] m.layers@[0 + i]).attention is Full implies cache.layers[i].count() >= few by {
            assert(cache.layers[i].count() >= many);
        }
    }
}

/// After a round the best tokens go on from where it left the generation.
pub proof fn law_round_goes_on<K: Kernel>(m: DecoderModel<K>, options: GenerationOptions<K::Cell>, max: int, drafts: int, s: MtpView<K::Cell>, count: int)
    requires
        calm(m, options),
        seen(m, s.run.cache, count),
        count > 0,
        drafts > 0,
        0 < s.run.generated.len() < max,
        s.run.generated.last() == s.run.pending,
    ensures
        mtp_round(m, options, max, drafts, s) matches Some(next) ==> {
            &&& seen(m, next.run.cache, count)
            &&& best_behind(m, options, s.run.cache, s.run.generated, max) == best_from(
                m,
                options,
                next.run.cache,
                next.run.pending,
                next.run.generated,
                max,
            )
        },
{
    if mtp_round(m, options, max, drafts, s) is Some {
        let offset = match s.history {
            Some(view) => view.count(),
            None => 0,
        };
        let view = match s.history {
            Some(view) => view,
            None => LayerView::empty(),
        };
        let at = Drafting {
            tokens: Seq::empty(),
            odds: Seq::empty(),
            view,
            state: s.run.state,
            token: s.run.pending,
            sampler: s.run.sampler,
        };
        lemma_draft_count(m, options, offset, drafts, at);
        let d = draft_on(m, options, offset, drafts, at)->0;
        let before = SpecView { sampler: d.sampler, ..s.run };
        law_verified_goes_on(m, options, before, d.tokens, d.odds, max, count);
        let (run, judged) = verified(m, options, before, d.tokens, d.odds, s.run.pending, max)->0;
        if judged.all {
            lemma_read_on(m, options, run, max, count);
        }
    }
}

/// Where the last token given goes through the decoder and the next one is read,
/// the best tokens go on from there.
pub proof fn lemma_read_on<K: Kernel>(m: DecoderModel<K>, options: GenerationOptions<K::Cell>, run: SpecView<K::Cell>, max: int, count: int)
    requires
        calm(m, options),
        seen(m, run.cache, count),
        run.generated.len() > 0,
    ensures
        read_on(m, options, run, run.generated.last()) matches Some(next) ==> {
            &&& next.generated == run.generated
            &&& seen(m, next.cache, count)
            &&& best_behind(m, options, run.cache, run.generated, max) == best_from(
                m,
                options,
                next.cache,
                next.pending,
                next.generated,
                max,
            )
        },
{
    let last = run.generated.last();
    if step(m, run.cache, last) is Some {
        let (cache, state) = step(m, run.cache, last)->0;
        lemma_best(m, options, state, run.sampler);
        crate::warmth::law_step_gains(m, run.cache, last, count);
        lemma_seen_less(m, cache, count + 1, count);
    }
}

/// Rounds give the best tokens.
pub proof fn law_rounds_are_best<K: Kernel>(m: DecoderModel<K>, options: GenerationOptions<K::Cell>, max: int, drafts: int, s: MtpView<K::Cell>, count: int)
    requires
        calm(m, options),
        seen(m, s.run.cache, count),
        count > 0,
        drafts > 0,
    ensures
        mtp_rounds(m, options, max, drafts, s) matches Some(end) ==> best_from(
            m,
            options,
            s.run.cache,
            s.run.pending,
            s.run.generated,
            max,
        ) == Some(end.run.generated),
    decreases (if max > s.run.generated.len() { max - s.run.generated.len() } else { 0 }),
{
    if s.run.generated.len() >= max || options.stops_at(s.run.pending) {
    } else if s.run.generated.len() + 1 >= max {
    } else {
        let now = given(s);
        crate::mtp::lemma_round_grows(m, options, max, drafts, now);
        law_round_goes_on(m, options, max, drafts, now, count);
        if mtp_round(m, options, max, drafts, now) is Some {
            law_rounds_are_best(m, options, max, drafts, mtp_round(m, options, max, drafts, now)->0, count);
        }
    }
}

/// A generation with a head's guesses gives the tokens of one without them.
pub proof fn law_mtp_is_solo<K: Kernel>(m: DecoderModel<K>, options: GenerationOptions<K::Cell>, max: int, drafts: int, cache: CacheView<K::Cell>, state: Seq<K::Cell>, history: Option<LayerView<K::Cell>>, count: int)
    requires
        calm(m, options),
        seen(m, cache, count),
        count > 0,
        drafts > 0,
        max > 0,
    ensures
        mtp_from(m, options, max, drafts, cache, state, history) matches Some(made) ==> (generated(
            m,
            options,
            always(),
            Seq::empty(),
            cache,
            state,
            max,
        ) matches Some(out) && out.0 == made.0),
{
    if mtp_from(m, options, max, drafts, cache, state, history) is Some {
        let start = SamplerView::start(options.seed);
        let (pending, sampler) = sampled(m, m.lm_head, state, options, start)->0;
        let run = SpecView {
            cache,
            state,
            pending,
            generated: Seq::empty(),
            sampler,
            stats: crate::stats::StatsView::zero(drafts),
        };
        law_rounds_are_best(m, options, max, drafts, MtpView { run, history }, count);
        law_solo_is_best(m, options, Seq::empty(), DecodeView { cache, token: pending, sampler }, Seq::empty(), max);
    }
}

/// From a prompt, a generation with a head's guesses gives the tokens of one without
/// them. What the decoder keeps of earlier prompts has seen them and no more; and where the
/// head's cache is kept, the prompt goes through the layers in one batch, which nothing
/// that is kept helps.
pub proof fn law_mtp_generation_is_solo<K: Kernel>(m: DecoderModel<K>, entries: Seq<EntryView<K::Cell>>, options: GenerationOptions<K::Cell>, prompt: Seq<usize>, max: int, drafts: int)
    requires
        calm(m, options),
        m.flags.mtp_committed_history ==> one_batch(m, prompt) && unhelped(m, entries, prompt),
        m.flags.prefix_cache && !m.flags.mtp_committed_history ==> practised(m, entries),
        max >= 0,
        drafts >= 0,
    ensures
        mtp_generated(m, entries, options, prompt, max, drafts).0 matches Some(made) ==> (generated_from(
            m,
            entries,
            options,
            prompt,
            max,
        ).0 matches Some(out) && out.0 == made.0),
{
    if mtp_generated(m, entries, options, prompt, max, drafts).0 is Some && max > 0 {
        if m.flags.mtp_committed_history {
            law_served_is_uncached(m, entries, prompt, prompt);
            law_one_batch(m, prompt);
            law_uncached_seen(m, prompt);
            let (cache, state, history) = prefilled_with_history(m, prompt)->0;
            law_mtp_is_solo(m, options, max, drafts, cache, state, Some(history), prompt.len() as int);
        } else {
            law_served_seen(m, entries, prompt);
            let (cache, state) = served(m, entries, prompt).0->0;
            law_mtp_is_solo(m, options, max, drafts, cache, state, None, prompt.len() as int);
        }
    }
}

/// The number of guesses changes nothing in the tokens.
pub proof fn law_drafts_change_nothing<K: Kernel>(m: DecoderModel<K>, entries: Seq<EntryView<K::Cell>>, options: GenerationOptions<K::Cell>, prompt: Seq<usize>, max: int, a: int, b: int)
    requires
        calm(m, options),
        m.flags.mtp_committed_history ==> one_batch(m, prompt) && unhelped(m, entries, prompt),
        m.flags.prefix_cache && !m.flags.mtp_committed_history ==> practised(m, entries),
        max >= 0,
        a >= 0,
        b >= 0,
    ensures
        match (
            mtp_generated(m, entries, options, prompt, max, a).0,
            mtp_generated(m, entries, options, prompt, max, b).0,
        ) {
            (Some(left), Some(right)) => left.0 == right.0,
            _ => true,
        },
{
    law_mtp_generation_is_solo(m, entries, options, prompt, max, a);
    law_mtp_generation_is_solo(m, entries, options, prompt, max, b);
}

/// From a prompt, however it goes through the layers and whatever starts of it are kept, a
/// generation with a head's guesses gives the tokens of one without them: the decoder is
/// steady, and what it keeps of earlier prompts is faithful.
/// Where the head's cache is kept, the prompt went through the layers as a batch, so
/// the arithmetic must make no difference.
pub proof fn law_steady_mtp_generation_is_solo<K: Kernel>(m: DecoderModel<K>, entries: Seq<EntryView<K::Cell>>, options: GenerationOptions<K::Cell>, prompt: Seq<usize>, max: int, drafts: int)
    requires
        calm(m, options),
        steady(m),
        m.flags.mtp_committed_history ==> reciprocal(m),
        faithful(m, entries),
        max >= 0,
        drafts >= 0,
    ensures
        mtp_generated(m, entries, options, prompt, max, drafts).0 matches Some(made) ==> (generated_from(
            m,
            entries,
            options,
            prompt,
            max,
        ).0 matches Some(out) && out.0 == made.0),
{
    if mtp_generated(m, entries, options, prompt, max, drafts).0 is Some && max > 0 {
        law_served_is_tokenwise(m, entries, prompt);
        law_tokenwise_position(m, prompt);
        if m.flags.mtp_committed_history {
            lemma_fresh_seen(m);
            crate::batching::law_cold_batch_is_steps(m, m.fresh(), prompt);
            let (cache, state, history) = prefilled_with_history(m, prompt)->0;
            law_mtp_is_solo(m, options, max, drafts, cache, state, Some(history), prompt.len() as int);
        } else {
            let (cache, state) = served(m, entries, prompt).0->0;
            law_mtp_is_solo(m, options, max, drafts, cache, state, None, prompt.len() as int);
        }
    }
}

} // verus!
