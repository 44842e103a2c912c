//! What the memory of prompts and the cache of positions leave as it is.

use vstd::prelude::*;
use crate::cold::reciprocal;
use crate::decode::{advanced, before_stop, law_budget_extends, law_stop_tokens_cut, never_stops, solo, DecodeView};
use crate::decoder::{generated_from, logits_after, prompted, served, whole};
use crate::kernel::Kernel;
use crate::model::{batch, step, CacheView, DecoderModel};
use crate::options::{ends_with_any, GenerationOptions, SamplerView};
use crate::prefill::{tokenwise, uncached};
use crate::prefix_cache::{is_longest, put, to_front, EntryView};
use crate::prompts::{last_of, law_suffix_extends, law_tokenwise_none, law_tokenwise_position, law_uncached_is_tokenwise, steady};
use crate::sampling::{device_route, logits_of, sampled};
use crate::sink::always;

verus! {

/// Every entry holds what its tokens leave.
pub open spec fn faithful<K: Kernel>(m: DecoderModel<K>, entries: Seq<EntryView<K::Cell>>) -> bool {
    forall|i: int| 0 <= i < entries.len() ==> tokenwise(m, (#[trigger] entries[i]).tokens) == Some((entries[i].cache, entries[i].state))
}

/// All of `some` are among `all`.
pub open spec fn among<T>(some: Seq<T>, all: Seq<T>) -> bool {
    forall|i: int| 0 <= i < some.len() ==> all.contains(#[trigger] some[i])
}

/// Dropping entries adds none.
pub proof fn lemma_filtered<C>(entries: Seq<EntryView<C>>, entry: EntryView<C>)
    ensures
        among(entries.filter(|other: EntryView<C>| other.tokens != entry.tokens), entries),
    decreases entries.len(),
{
    reveal(Seq::filter);
    if entries.len() > 0 {
        let shorter = entries.drop_last();
        lemma_filtered(shorter, entry);
        let kept = entries.filter(|other: EntryView<C>| other.tokens != entry.tokens);
        let fewer = shorter.filter(|other: EntryView<C>| other.tokens != entry.tokens);
        assert forall|i: int| 0 <= i < kept.len() implies entries.contains(#[trigger] kept[i]) by {
            if i < fewer.len() {
                assert(kept[i] == fewer[i]);
                assert(shorter.contains(fewer[i]));
                let j = choose|j: int| 0 <= j < shorter.len() && shorter[j] == fewer[i];
                assert(entries[j] == kept[i]);
            } else {
                assert(entries[entries.len() - 1] == kept[i]);
            }
        }
    }
}

/// Faithful entries stay so where a faithful one is put among them.
pub proof fn law_put_faithful<K: Kernel>(m: DecoderModel<K>, entries: Seq<EntryView<K::Cell>>, entry: EntryView<K::Cell>, capacity: int)
    requires
        capacity >= 0,
        faithful(m, entries),
        tokenwise(m, entry.tokens) == Some((entry.cache, entry.state)),
    ensures
        faithful(m, put(entries, entry, capacity)),
{
    lemma_filtered(entries, entry);
    let others = entries.filter(|other: EntryView<K::Cell>| other.tokens != entry.tokens);
    let after = put(entries, entry, capacity);
    if capacity != 0 {
        assert forall|i: int| 0 <= i < after.len() implies tokenwise(m, (#[trigger] after[i]).tokens) == Some((after[i].cache, after[i].state)) by {
            if i == 0 {
                assert(after[0] == entry);
            } else {
                assert(after[i] == others[i - 1]);
                assert(entries.contains(others[i - 1]));
                let j = choose|j: int| 0 <= j < entries.len() && entries[j] == others[i - 1];
                assert(tokenwise(m, entries[j].tokens) == Some((entries[j].cache, entries[j].state)));
            }
        }
    }
}

proof fn lemma_front_faithful<K: Kernel>(m: DecoderModel<K>, entries: Seq<EntryView<K::Cell>>, at: int)
    requires
        faithful(m, entries),
        0 <= at < entries.len(),
    ensures
        faithful(m, to_front(entries, at)),
{
    let after = to_front(entries, at);
    assert forall|i: int| 0 <= i < after.len() implies tokenwise(m, (#[trigger] after[i]).tokens) == Some((after[i].cache, after[i].state)) by {
        let from = if i == 0 {
            at
        } else if i <= at {
            i - 1
        } else {
            i
        };
        assert(after[i] == entries[from]);
    }
}

/// What a steady decoder makes of a prompt does not depend on the prompts it has
/// seen: it is what the prompt leaves token by token. The entries it keeps stay
/// faithful.
pub proof fn law_served_is_tokenwise<K: Kernel>(m: DecoderModel<K>, entries: Seq<EntryView<K::Cell>>, prompt: Seq<usize>)
    requires
        steady(m),
        faithful(m, entries),
    ensures
        served(m, entries, prompt).0 == tokenwise(m, prompt),
        faithful(m, served(m, entries, prompt).1),
{
    let capacity = m.flags.prefix_cache_capacity as int;
    law_uncached_is_tokenwise(m, prompt);
    if prompt.len() == 0 || !m.flags.prefix_cache {
    } else if exists|i: int| is_longest(entries, prompt, i) {
        let i = choose|i: int| is_longest(entries, prompt, i);
        let entry = entries[i];
        lemma_front_faithful(m, entries, i);
        assert(tokenwise(m, entry.tokens) == Some((entry.cache, entry.state)));
        let n = entry.tokens.len() as int;
        if n < prompt.len() {
            let suffix = prompt.skip(n);
            assert(entry.tokens + suffix =~= prompt) by {
                assert(prompt.take(n) + suffix =~= prompt);
            }
            law_suffix_extends(m, entry.tokens, suffix);
            let made = batch(m, entry.cache, suffix);
            if made is Some {
                let (cache, states) = made->0;
                law_put_faithful(m, to_front(entries, i), EntryView { tokens: prompt, cache, state: states.last() }, capacity);
            }
        } else {
            assert(prompt.take(n) =~= prompt);
        }
    } else if uncached(m, prompt) is Some {
        let (cache, state) = uncached(m, prompt)->0;
        law_put_faithful(m, entries, EntryView { tokens: prompt, cache, state }, capacity);
    }
}

/// What a steady decoder generates does not depend on the prompts it has seen.
pub proof fn law_generation_forgets_prompts<K: Kernel>(m: DecoderModel<K>, entries: Seq<EntryView<K::Cell>>, others: Seq<EntryView<K::Cell>>, options: GenerationOptions<K::Cell>, prompt: Seq<usize>, max: int)
    requires
        steady(m),
        faithful(m, entries),
        faithful(m, others),
    ensures
        generated_from(m, entries, options, prompt, max).0 == generated_from(m, others, options, prompt, max).0,
        faithful(m, generated_from(m, entries, options, prompt, max).1),
{
    law_served_is_tokenwise(m, entries, prompt);
    law_served_is_tokenwise(m, others, prompt);
}

/// Tokens to stop at only cut what a decoder generates from a prompt, before the first of
/// them.
pub proof fn law_generation_cut_at_stop<K: Kernel>(m: DecoderModel<K>, entries: Seq<EntryView<K::Cell>>, options: GenerationOptions<K::Cell>, free: GenerationOptions<K::Cell>, prompt: Seq<usize>, max: int)
    requires
        never_stops(free, options),
    ensures
        generated_from(m, entries, free, prompt, max).0 matches Some(all) ==> (generated_from(m, entries, options, prompt, max).0 matches Some(some)
            && some.0 == before_stop(options, all.0)),
        generated_from(m, entries, options, prompt, max).1 == generated_from(m, entries, free, prompt, max).1,
{
    if served(m, entries, prompt).0 is Some {
        let (cache, state) = served(m, entries, prompt).0->0;
        law_stop_tokens_cut(m, options, free, always(), Seq::empty(), cache, state, max);
    }
    assert(before_stop(options, Seq::empty()) =~= Seq::empty());
}

/// A larger budget only adds tokens behind those that a decoder generates from a prompt
/// with a smaller one, and adds none where the smaller one was not used up.
pub proof fn law_generation_budget_extends<K: Kernel>(m: DecoderModel<K>, entries: Seq<EntryView<K::Cell>>, options: GenerationOptions<K::Cell>, prompt: Seq<usize>, max: int, larger: int)
    requires
        0 <= max <= larger,
    ensures
        generated_from(m, entries, options, prompt, larger).0 matches Some(long) ==> (generated_from(m, entries, options, prompt, max).0 matches Some(
            short,
        ) && short.0.is_prefix_of(long.0) && (short.0.len() == max || short.0 == long.0)),
        generated_from(m, entries, options, prompt, max).0 matches Some(short) ==> short.0.len() <= max && (short.0.len() < max ==> generated_from(
            m,
            entries,
            options,
            prompt,
            larger,
        ).0 == Some(short)),
{
    if served(m, entries, prompt).0 is Some {
        let (cache, state) = served(m, entries, prompt).0->0;
        law_budget_extends(m, options, always(), Seq::empty(), cache, state, max, larger);
    }
}

/// What a suffix leaves behind what a prompt left; the same where there is none.
pub open spec fn extended<K: Kernel>(m: DecoderModel<K>, cache: CacheView<K::Cell>, state: Seq<K::Cell>, suffix: Seq<usize>) -> Option<(CacheView<K::Cell>, Seq<K::Cell>)> {
    if suffix.len() == 0 {
        Some((cache, state))
    } else {
        last_of(batch(m, cache, suffix))
    }
}

/// A generation from a prompt that was taken in two parts.
pub open spec fn generated_in_parts<K: Kernel>(m: DecoderModel<K>, options: GenerationOptions<K::Cell>, prompt: Seq<usize>, suffix: Seq<usize>, max: int) -> Option<(Seq<usize>, int)> {
    match uncached(m, prompt) {
        Some((cache, state)) => match extended(m, cache, state, suffix) {
            Some((after, last)) => prompted(m, options, always(), Seq::empty(), after, last, max),
            None => None,
        },
        None => None,
    }
}

/// A prompt that is taken in two parts gives the tokens that it gives as a whole, whatever
/// prompts a steady decoder has seen. Where no tokens are asked for, the whole prompt is not
/// looked at, so that only the parts can fail.
pub proof fn law_split_prompt<K: Kernel>(m: DecoderModel<K>, entries: Seq<EntryView<K::Cell>>, options: GenerationOptions<K::Cell>, prompt: Seq<usize>, suffix: Seq<usize>, max: int)
    requires
        steady(m),
        faithful(m, entries),
        prompt.len() > 0,
    ensures
        max != 0 || generated_in_parts(m, options, prompt, suffix, max) is Some ==> generated_in_parts(m, options, prompt, suffix, max) == generated_from(
            m,
            entries,
            options,
            prompt + suffix,
            max,
        ).0,
{
    law_served_is_tokenwise(m, entries, prompt + suffix);
    law_uncached_is_tokenwise(m, prompt);
    if suffix.len() == 0 {
        assert(prompt + suffix =~= prompt);
    } else if tokenwise(m, prompt) is Some {
        law_suffix_extends(m, prompt, suffix);
    } else {
        law_tokenwise_none(m, prompt, suffix);
    }
}

/// Tokens are chosen from logits alone: no guide restricts them, and no device
/// chooses.
pub open spec fn plain<K: Kernel>(m: DecoderModel<K>, options: GenerationOptions<K::Cell>) -> bool {
    !options.guided && device_route(m, m.lm_head, options) is None
}

/// The logits read from a whole sequence are those of the state that its tokens one by one
/// leave.
proof fn lemma_logits_after<K: Kernel>(m: DecoderModel<K>, tokens: Seq<usize>)
    requires
        reciprocal(m),
        tokens.len() > 0,
    ensures
        logits_after(m, tokens) == match tokenwise(m, tokens) {
            Some((_, state)) => logits_of(m, m.lm_head, state),
            None => None,
        },
{
    crate::warmth::lemma_fresh_seen(m);
    crate::prompts::lemma_last_of_batch(m, m.fresh(), tokens);
    crate::batching::law_cold_batch_is_steps(m, m.fresh(), tokens);
}

/// The logits that a token behind a cache leads to are those read from the whole sequence.
pub proof fn law_cached_logits_are_whole<K: Kernel>(m: DecoderModel<K>, tokens: Seq<usize>, token: usize)
    requires
        reciprocal(m),
        tokenwise(m, tokens) is Some,
    ensures
        logits_after(m, tokens.push(token)) == match step(m, (tokenwise(m, tokens)->0).0, token) {
            Some((_, state)) => logits_of(m, m.lm_head, state),
            None => None,
        },
{
    lemma_logits_after(m, tokens.push(token));
    assert(tokens.push(token).drop_last() =~= tokens);
}

proof fn lemma_whole_is_solo<K: Kernel>(m: DecoderModel<K>, options: GenerationOptions<K::Cell>, told: Seq<(usize, usize)>, tokens: Seq<usize>, given: Seq<usize>, sampler: SamplerView, done: int, max: int)
    requires
        reciprocal(m),
        plain(m, options),
        tokens.len() > 0,
        done < max,
        tokenwise(m, tokens) matches Some(made) && sampled(m, m.lm_head, made.1, options, sampler) is Some,
    ensures
        ({
            let (cache, state) = tokenwise(m, tokens)->0;
            let (token, after) = sampled(m, m.lm_head, state, options, sampler)->0;
            let at = DecodeView { cache, token, sampler: after };
            whole(m, options, tokens, given, sampler, max - done) == match solo(m, options, always(), told, at, given, done, max) {
                Some((out, _)) => Some(out),
                None => None,
            }
        }),
    decreases max - done,
{
    lemma_logits_after(m, tokens);
    let (cache, state) = tokenwise(m, tokens)->0;
    let (token, after) = sampled(m, m.lm_head, state, options, sampler)->0;
    let at = DecodeView { cache, token, sampler: after };
    let now = given.push(token);
    if options.stops_at(token) || ends_with_any(now, options.stop_sequences@) {
    } else if done + 1 >= max {
        assert(whole(m, options, tokens.push(token), now, after, max - done - 1) == Some(now));
    } else {
        let longer = tokens.push(token);
        assert(longer.drop_last() =~= tokens);
        lemma_logits_after(m, longer);
        assert(tokenwise(m, longer) == match step(m, cache, token) {
            Some(made) => Some(made),
            None => None,
        });
        if advanced(m, options, at) is Some {
            lemma_whole_is_solo(m, options, told.push((0, token)), longer, now, after, done + 1, max);
        } else {
            assert(whole(m, options, longer, now, after, max - done - 1) is None);
        }
    }
}

/// The tokens that a steady decoder reads from its cache are those it reads from
/// the whole sequence.
pub proof fn law_cached_is_whole<K: Kernel>(m: DecoderModel<K>, entries: Seq<EntryView<K::Cell>>, options: GenerationOptions<K::Cell>, prompt: Seq<usize>, max: int)
    requires
        reciprocal(m),
        plain(m, options),
        faithful(m, entries),
        prompt.len() > 0,
        max >= 0,
    ensures
        whole(m, options, prompt, Seq::empty(), SamplerView::start(options.seed), max) == match generated_from(m, entries, options, prompt, max).0 {
            Some((tokens, _)) => Some(tokens),
            None => None,
        },
{
    let start = SamplerView::start(options.seed);
    if max > 0 {
        law_served_is_tokenwise(m, entries, prompt);
        law_tokenwise_position(m, prompt);
        lemma_logits_after(m, prompt);
        if tokenwise(m, prompt) is Some {
            let (cache, state) = tokenwise(m, prompt)->0;
            if sampled(m, m.lm_head, state, options, start) is Some {
                lemma_whole_is_solo(m, options, Seq::empty(), prompt, Seq::empty(), start, 0, max);
            }
        }
    }
}

} // verus!
