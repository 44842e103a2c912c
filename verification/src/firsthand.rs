//! Prompts that earlier prompts change nothing of, whatever the arithmetic.

use vstd::prelude::*;
use crate::decoder::{generated_from, lemma_longest_unique, served};
use crate::kernel::Kernel;
use crate::model::{batch, batch_hidden, CacheView, DecoderModel};
use crate::options::GenerationOptions;
use crate::prefill::{batchable, chunk_hidden, last_state, uncached};
use crate::prefix_cache::{is_longest, law_put_serves, put, serves, starts_with, to_front, EntryView};
use crate::prompts::{last_of, law_tokenwise_position, lemma_last_of_batch};
use crate::transparency::lemma_filtered;
use crate::warmth::{law_batch_gains, lemma_fresh_seen, seen};

verus! {

/// Every entry holds what the decoder made of its tokens at first sight.
pub open spec fn firsthand<K: Kernel>(m: DecoderModel<K>, entries: Seq<EntryView<K::Cell>>) -> bool {
    forall|i: int| 0 <= i < entries.len() ==> uncached(m, (#[trigger] entries[i]).tokens) == Some((entries[i].cache, entries[i].state))
}

/// No entry holds a shorter start of the prompt.
pub open spec fn without_start<C>(entries: Seq<EntryView<C>>, prompt: Seq<usize>) -> bool {
    forall|i: int| 0 <= i < entries.len() && serves(#[trigger] entries[i], prompt) ==> entries[i].tokens.len() == prompt.len()
}

/// The decoder takes the prompt as at first sight: it keeps no prompts, or what it keeps is
/// firsthand and holds no shorter start of the prompt.
pub open spec fn unhelped<K: Kernel>(m: DecoderModel<K>, entries: Seq<EntryView<K::Cell>>, prompt: Seq<usize>) -> bool {
    m.flags.prefix_cache ==> firsthand(m, entries) && without_start(entries, prompt)
}

/// One prompt is a shorter start of the other.
pub open spec fn shorter_start(a: Seq<usize>, b: Seq<usize>) -> bool {
    a.len() < b.len() && starts_with(b, a)
}

/// Every entry has seen its tokens, and no more.
pub open spec fn practised<K: Kernel>(m: DecoderModel<K>, entries: Seq<EntryView<K::Cell>>) -> bool {
    forall|i: int|
        0 <= i < entries.len() ==> seen(m, (#[trigger] entries[i]).cache, entries[i].tokens.len() as int) && entries[i].cache.position
            == entries[i].tokens.len()
}

/// The decoder takes the prompt through its layers in one batch.
pub open spec fn one_batch<K: Kernel>(m: DecoderModel<K>, prompt: Seq<usize>) -> bool {
    batchable(m) && m.flags.prefill_batched && !(0 < m.flags.prefill_chunk_size < prompt.len())
}

/// Every entry is one of those before, or the new one.
spec fn drawn_from<C>(after: Seq<EntryView<C>>, before: Seq<EntryView<C>>, entry: EntryView<C>) -> bool {
    forall|i: int| 0 <= i < after.len() ==> #[trigger] after[i] == entry || before.contains(after[i])
}

proof fn lemma_put_drawn<C>(entries: Seq<EntryView<C>>, entry: EntryView<C>, capacity: int)
    requires
        capacity >= 0,
    ensures
        drawn_from(put(entries, entry, capacity), entries, entry),
{
    lemma_filtered(entries, entry);
    let others = entries.filter(|other: EntryView<C>| other.tokens != entry.tokens);
    let after = put(entries, entry, capacity);
    assert forall|i: int| 0 <= i < after.len() implies #[trigger] after[i] == entry || entries.contains(after[i]) by {
        if capacity == 0 {
            assert(entries[i] == after[i]);
        } else if i > 0 {
            assert(after[i] == others[i - 1]);
        }
    }
}

proof fn lemma_front_drawn<C>(entries: Seq<EntryView<C>>, at: int)
    requires
        0 <= at < entries.len(),
    ensures
        drawn_from(to_front(entries, at), entries, entries[at]),
        to_front(entries, at).len() == entries.len(),
{
    let after = to_front(entries, at);
    assert forall|i: int| 0 <= i < after.len() implies #[trigger] after[i] == entries[at] || entries.contains(after[i]) by {
        let from = if i == 0 {
            at
        } else if i <= at {
            i - 1
        } else {
            i
        };
        assert(after[i] == entries[from]);
    }
}

/// The longest entry that serves a prompt is still that once it is in front.
proof fn lemma_front_is_longest<C>(entries: Seq<EntryView<C>>, prompt: Seq<usize>, at: int)
    requires
        is_longest(entries, prompt, at),
    ensures
        is_longest(to_front(entries, at), prompt, 0),
        to_front(entries, at)[0] == entries[at],
{
    let after = to_front(entries, at);
    lemma_front_drawn(entries, at);
    assert(after[0] == entries[at]);
    assert forall|j: int| 0 <= j < after.len() && serves(#[trigger] after[j], prompt) implies after[j].tokens.len() <= after[0].tokens.len() by {
        if after[j] != entries[at] {
            let from = choose|from: int| 0 <= from < entries.len() && entries[from] == after[j];
            assert(serves(entries[from], prompt));
        }
    }
}

proof fn lemma_front_longest_twice<C>(entries: Seq<EntryView<C>>, prompt: Seq<usize>, at: int)
    requires
        is_longest(entries, prompt, at),
    ensures
        ({
            let after = to_front(entries, at);
            let i = choose|i: int| is_longest(after, prompt, i);
            is_longest(after, prompt, i) && i == 0
        }),
{
    let after = to_front(entries, at);
    lemma_front_is_longest(entries, prompt, at);
    let i = choose|i: int| is_longest(after, prompt, i);
    lemma_longest_unique(after, prompt, i, 0);
}

/// What a decoder makes of a prompt it makes again of the same prompt, whatever it kept
/// before.
pub proof fn law_served_again<K: Kernel>(m: DecoderModel<K>, entries: Seq<EntryView<K::Cell>>, prompt: Seq<usize>)
    ensures
        served(m, served(m, entries, prompt).1, prompt).0 == served(m, entries, prompt).0,
{
    let capacity = m.flags.prefix_cache_capacity as int;
    if prompt.len() == 0 || !m.flags.prefix_cache {
    } else if exists|i: int| is_longest(entries, prompt, i) {
        let i = choose|i: int| is_longest(entries, prompt, i);
        let entry = entries[i];
        let moved = to_front(entries, i);
        lemma_front_is_longest(entries, prompt, i);
        lemma_front_longest_twice(entries, prompt, i);
        if entry.tokens.len() < prompt.len() {
            let made = batch(m, entry.cache, prompt.skip(entry.tokens.len() as int));
            if made is Some {
                let (cache, states) = made->0;
                lemma_put_again(m, moved, (EntryView { tokens: prompt, cache, state: states.last() }), capacity);
            }
        }
    } else if uncached(m, prompt) is Some {
        let (cache, state) = uncached(m, prompt)->0;
        lemma_put_again(m, entries, (EntryView { tokens: prompt, cache, state }), capacity);
    }
}

/// A prompt that was just kept is served from what was kept.
proof fn lemma_put_again<K: Kernel>(m: DecoderModel<K>, entries: Seq<EntryView<K::Cell>>, entry: EntryView<K::Cell>, capacity: int)
    requires
        m.flags.prefix_cache,
        entry.tokens.len() > 0,
        capacity >= 0,
    ensures
        capacity > 0 ==> served(m, put(entries, entry, capacity), entry.tokens).0 == Some((entry.cache, entry.state)),
        capacity == 0 ==> put(entries, entry, capacity) == entries,
{
    if capacity > 0 {
        law_put_serves(entries, entry, capacity);
        let after = put(entries, entry, capacity);
        let i = choose|i: int| is_longest(after, entry.tokens, i);
        lemma_longest_unique(after, entry.tokens, i, 0);
    }
}

/// The same generation twice in a row gives the same tokens, drawn or not, whatever the
/// decoder kept before.
pub proof fn law_same_call_twice<K: Kernel>(m: DecoderModel<K>, entries: Seq<EntryView<K::Cell>>, options: GenerationOptions<K::Cell>, prompt: Seq<usize>, max: int)
    ensures
        generated_from(m, generated_from(m, entries, options, prompt, max).1, options, prompt, max).0 == generated_from(
            m,
            entries,
            options,
            prompt,
            max,
        ).0,
{
    law_served_again(m, entries, prompt);
}

/// A prompt that nothing helps is taken as at first sight. What the decoder then keeps is
/// firsthand, and helps no other prompt that this one is no shorter start of.
pub proof fn law_served_is_uncached<K: Kernel>(m: DecoderModel<K>, entries: Seq<EntryView<K::Cell>>, prompt: Seq<usize>, other: Seq<usize>)
    requires
        unhelped(m, entries, prompt),
        unhelped(m, entries, other),
        !shorter_start(prompt, other),
    ensures
        served(m, entries, prompt).0 == uncached(m, prompt),
        unhelped(m, served(m, entries, prompt).1, other),
{
    let capacity = m.flags.prefix_cache_capacity as int;
    if prompt.len() == 0 || !m.flags.prefix_cache {
        if prompt.len() == 0 {
            lemma_last_of_batch(m, m.fresh(), prompt);
        }
    } else if exists|i: int| is_longest(entries, prompt, i) {
        let i = choose|i: int| is_longest(entries, prompt, i);
        let entry = entries[i];
        assert(entry.tokens.len() == prompt.len());
        assert(prompt.take(prompt.len() as int) =~= prompt);
        assert(uncached(m, entry.tokens) == Some((entry.cache, entry.state)));
        lemma_front_drawn(entries, i);
        lemma_drawn(m, to_front(entries, i), entries, entry, other);
    } else if uncached(m, prompt) is Some {
        let (cache, state) = uncached(m, prompt)->0;
        let entry = EntryView { tokens: prompt, cache, state };
        lemma_put_drawn(entries, entry, capacity);
        lemma_drawn(m, put(entries, entry, capacity), entries, entry, other);
    }
}

proof fn lemma_drawn<K: Kernel>(m: DecoderModel<K>, after: Seq<EntryView<K::Cell>>, before: Seq<EntryView<K::Cell>>, entry: EntryView<K::Cell>, other: Seq<usize>)
    requires
        drawn_from(after, before, entry),
        firsthand(m, before),
        without_start(before, other),
        uncached(m, entry.tokens) == Some((entry.cache, entry.state)),
        !shorter_start(entry.tokens, other),
    ensures
        firsthand(m, after),
        without_start(after, other),
{
    assert forall|i: int| 0 <= i < after.len() implies uncached(m, (#[trigger] after[i]).tokens) == Some((after[i].cache, after[i].state)) by {
        if after[i] != entry {
            let j = choose|j: int| 0 <= j < before.len() && before[j] == after[i];
            assert(uncached(m, before[j].tokens) == Some((before[j].cache, before[j].state)));
        }
    }
    assert forall|i: int| 0 <= i < after.len() && serves(#[trigger] after[i], other) implies after[i].tokens.len() == other.len() by {
        if after[i] != entry {
            let j = choose|j: int| 0 <= j < before.len() && before[j] == after[i];
            assert(serves(before[j], other));
        }
    }
}

proof fn lemma_chunks_gain<K: Kernel>(m: DecoderModel<K>, cache: CacheView<K::Cell>, tokens: Seq<usize>, chunk: int, count: int)
    requires
        seen(m, cache, count),
    ensures
        chunk_hidden(m, cache, tokens, chunk) matches Some(made) ==> seen(m, made.0, count + tokens.len()) && made.0.position == cache.position
            + tokens.len(),
    decreases tokens.len(),
{
    if chunk > 0 && tokens.len() > 0 {
        if tokens.len() <= chunk {
            law_batch_gains(m, cache, tokens, count);
        } else {
            law_batch_gains(m, cache, tokens.take(chunk), count);
            if batch_hidden(m, cache, tokens.take(chunk)) is Some {
                let after = (batch_hidden(m, cache, tokens.take(chunk))->0).0;
                lemma_chunks_gain(m, after, tokens.skip(chunk), chunk, count + chunk);
            }
        }
    }
}

/// What a decoder makes of a prompt at first sight has seen the prompt, and no more.
pub proof fn law_uncached_seen<K: Kernel>(m: DecoderModel<K>, prompt: Seq<usize>)
    ensures
        uncached(m, prompt) matches Some(made) ==> seen(m, made.0, prompt.len() as int) && made.0.position == prompt.len(),
{
    lemma_fresh_seen(m);
    law_tokenwise_position(m, prompt);
    if 0 < m.flags.prefill_chunk_size < prompt.len() {
        lemma_chunks_gain(m, m.fresh(), prompt, m.flags.prefill_chunk_size as int, 0);
    } else {
        law_batch_gains(m, m.fresh(), prompt, 0);
    }
}

/// What a decoder makes of a prompt has seen the prompt, and no more, where that holds of
/// what it keeps; and it goes on to hold.
pub proof fn law_served_seen<K: Kernel>(m: DecoderModel<K>, entries: Seq<EntryView<K::Cell>>, prompt: Seq<usize>)
    requires
        m.flags.prefix_cache ==> practised(m, entries),
    ensures
        served(m, entries, prompt).0 matches Some(made) ==> seen(m, made.0, prompt.len() as int) && made.0.position == prompt.len(),
        m.flags.prefix_cache ==> practised(m, served(m, entries, prompt).1),
{
    let capacity = m.flags.prefix_cache_capacity as int;
    law_uncached_seen(m, prompt);
    if prompt.len() == 0 || !m.flags.prefix_cache {
    } else if exists|i: int| is_longest(entries, prompt, i) {
        let i = choose|i: int| is_longest(entries, prompt, i);
        let entry = entries[i];
        let moved = to_front(entries, i);
        assert(seen(m, entry.cache, entry.tokens.len() as int));
        lemma_front_drawn(entries, i);
        lemma_practised(m, moved, entries, entry);
        if entry.tokens.len() < prompt.len() {
            let suffix = prompt.skip(entry.tokens.len() as int);
            law_batch_gains(m, entry.cache, suffix, entry.tokens.len() as int);
            if batch(m, entry.cache, suffix) is Some {
                let (cache, states) = batch(m, entry.cache, suffix)->0;
                let next = EntryView { tokens: prompt, cache, state: states.last() };
                lemma_put_drawn(moved, next, capacity);
                lemma_practised(m, put(moved, next, capacity), moved, next);
            }
        }
    } else if uncached(m, prompt) is Some {
        let (cache, state) = uncached(m, prompt)->0;
        let next = EntryView { tokens: prompt, cache, state };
        lemma_put_drawn(entries, next, capacity);
        lemma_practised(m, put(entries, next, capacity), entries, next);
    }
}

proof fn lemma_practised<K: Kernel>(m: DecoderModel<K>, after: Seq<EntryView<K::Cell>>, before: Seq<EntryView<K::Cell>>, entry: EntryView<K::Cell>)
    requires
        drawn_from(after, before, entry),
        practised(m, before),
        seen(m, entry.cache, entry.tokens.len() as int),
        entry.cache.position == entry.tokens.len(),
    ensures
        practised(m, after),
{
    assert forall|i: int| 0 <= i < after.len() implies seen(m, (#[trigger] after[i]).cache, after[i].tokens.len() as int)
        && after[i].cache.position == after[i].tokens.len() by {
        if after[i] != entry {
            let j = choose|j: int| 0 <= j < before.len() && before[j] == after[i];
            assert(seen(m, before[j].cache, before[j].tokens.len() as int));
        }
    }
}

/// A prompt that goes through in one batch leaves the cache and the last state of the
/// batch.
pub proof fn law_one_batch<K: Kernel>(m: DecoderModel<K>, prompt: Seq<usize>)
    requires
        one_batch(m, prompt),
    ensures
        uncached(m, prompt) == last_of(batch(m, m.fresh(), prompt)),
        uncached(m, prompt) == last_state(m, batch_hidden(m, m.fresh(), prompt)),
{
    lemma_last_of_batch(m, m.fresh(), prompt);
}

} // verus!
