//! Ways to take a prompt through the decoder, and what they have in common.

use vstd::prelude::*;
use crate::batching::{law_batch_is_steps, law_cold_batch_is_steps, lemma_steps_position};
use crate::cold::reciprocal;
use crate::kernel::Kernel;
use crate::kv::LayerView;
use crate::layer::{layer_rows, norm_of, norm_rows};
use crate::model::{batch, batch_hidden, embed_row, embed_rows, layers_rows, step, steps, CacheView, DecoderModel};
use crate::prefill::{batchable, batched, chunk_hidden, chunked, last_state, lemma_steps_none, tokenwise, uncached};
use crate::warmth::{law_batch_gains, law_step_gains, lemma_fresh_seen, lemma_seen_is_warm, seen};

verus! {

/// The cache and the last of the states that tokens leave.
pub open spec fn last_of<C>(made: Option<(CacheView<C>, Seq<Seq<C>>)>) -> Option<(CacheView<C>, Seq<C>)> {
    match made {
        Some((cache, states)) => Some((cache, states.last())),
        None => None,
    }
}

/// Tokens one after the other are the first of them, and the others behind these.
pub proof fn law_steps_concat<K: Kernel>(m: DecoderModel<K>, cache: CacheView<K::Cell>, a: Seq<usize>, b: Seq<usize>)
    ensures
        steps(m, cache, a + b) == match steps(m, cache, a) {
            Some((middle, first)) => match steps(m, middle, b) {
                Some((after, second)) => Some((after, first + second)),
                None => None,
            },
            None => None,
        },
    decreases b.len(),
{
    if b.len() == 0 {
        assert(a + b =~= a);
        if steps(m, cache, a) is Some {
            let (middle, first) = steps(m, cache, a)->0;
            assert(steps(m, middle, b) == Some((middle, Seq::<Seq<K::Cell>>::empty())));
            assert(first + Seq::<Seq<K::Cell>>::empty() =~= first);
        }
    } else {
        let rest = b.drop_last();
        law_steps_concat(m, cache, a, rest);
        assert((a + b).drop_last() =~= a + rest);
        assert((a + b).last() == b.last());
        if steps(m, cache, a) is Some {
            let (middle, first) = steps(m, cache, a)->0;
            if steps(m, middle, rest) is Some {
                let (late, second) = steps(m, middle, rest)->0;
                if step(m, late, b.last()) is Some {
                    let state = (step(m, late, b.last())->0).1;
                    assert((first + second).push(state) =~= first + second.push(state));
                }
            }
        }
    }
}

proof fn lemma_layers_rows_len<K: Kernel>(m: DecoderModel<K>, l: int, views: Seq<LayerView<K::Cell>>, xs: Seq<Seq<K::Cell>>, offset: int, size: int)
    requires
        forall|i: int| 0 <= i < xs.len() ==> (#[trigger] xs[i]).len() == size,
    ensures
        layers_rows(m, l, views, xs, offset) matches Some(made) ==> made.1.len() == xs.len() && forall|i: int|
            0 <= i < made.1.len() ==> (#[trigger] made.1[i]).len() == size,
    decreases views.len(),
{
    if views.len() > 0 && layers_rows(m, l, views, xs, offset) is Some {
        let layer = m.layers@[l];
        let (after, ys) = layer_rows(m.kernel, m.config, layer, views[0], xs, offset)->0;
        let attn = (crate::layer::attention_rows(m.kernel, m.config, layer, views[0], xs, offset)->0).1;
        assert forall|i: int| 0 <= i < ys.len() implies (#[trigger] ys[i]).len() == size by {
            assert(crate::layer::combined_row(m.kernel, m.config, layer, xs[i], attn[i]) is Some);
            crate::layer::lemma_combined_len(m.kernel, m.config, layer, xs[i], attn[i]);
            assert(xs[i].len() == size);
        }
        lemma_layers_rows_len(m, l + 1, views.drop_first(), ys, offset, size);
    }
}

/// A batch that goes through the layers has states, and the last of them is that of
/// its last row.
pub proof fn lemma_last_of_batch<K: Kernel>(m: DecoderModel<K>, cache: CacheView<K::Cell>, tokens: Seq<usize>)
    ensures
        last_state(m, batch_hidden(m, cache, tokens)) == last_of(batch(m, cache, tokens)),
        batch_hidden(m, cache, tokens) is Some <==> batch(m, cache, tokens) is Some,
        batch_hidden(m, cache, tokens) matches Some(made) ==> made.0 == (batch(m, cache, tokens)->0).0,
{
    if batch_hidden(m, cache, tokens) is Some {
        let xs = embed_rows(m, tokens)->0;
        assert forall|i: int| 0 <= i < xs.len() implies (#[trigger] xs[i]).len() == m.hidden() by {
            assert(embed_row(m, tokens[i]) is Some);
        }
        lemma_layers_rows_len(m, 0, cache.layers, xs, cache.position, m.hidden());
        let ys = (batch_hidden(m, cache, tokens)->0).1;
        let f = |row: Seq<K::Cell>| norm_of(m.kernel, row, m.final_norm, m.config.rms_eps);
        assert forall|i: int| 0 <= i < ys.len() implies (#[trigger] f(ys[i])) is Some by {
            assert(ys[i].len() == m.hidden());
        }
        assert(norm_rows(m.kernel, ys, m.final_norm, m.config.rms_eps) is Some);
        assert(f(ys[ys.len() - 1]) is Some);
    }
}

/// Chunks of tokens are these tokens one after the other.
pub proof fn law_chunks_are_steps<K: Kernel>(m: DecoderModel<K>, cache: CacheView<K::Cell>, tokens: Seq<usize>, chunk: int, count: int)
    requires
        seen(m, cache, count),
        reciprocal(m),
        tokens.len() > 0,
        chunk > 0,
    ensures
        last_state(m, chunk_hidden(m, cache, tokens, chunk)) == last_of(steps(m, cache, tokens)),
    decreases tokens.len(),
{
    if tokens.len() <= chunk {
        lemma_last_of_batch(m, cache, tokens);
        law_cold_batch_is_steps(m, cache, tokens);
    } else {
        let first = tokens.take(chunk);
        let rest = tokens.skip(chunk);
        assert(first + rest =~= tokens);
        law_steps_concat(m, cache, first, rest);
        lemma_last_of_batch(m, cache, first);
        law_cold_batch_is_steps(m, cache, first);
        law_batch_gains(m, cache, first, count);
        if batch_hidden(m, cache, first) is Some {
            let middle = (batch_hidden(m, cache, first)->0).0;
            law_chunks_are_steps(m, middle, rest, chunk, count + chunk);
            if steps(m, middle, rest) is Some {
                lemma_steps_position(m, middle, rest);
                let early = (steps(m, cache, first)->0).1;
                let late = (steps(m, middle, rest)->0).1;
                assert((early + late).last() == late.last());
            }
        }
    }
}

/// A prompt in chunks leaves what it leaves token by token.
pub proof fn law_chunked_is_tokenwise<K: Kernel>(m: DecoderModel<K>, prompt: Seq<usize>, chunk: int)
    requires
        reciprocal(m),
        chunk > 0,
    ensures
        chunked(m, prompt, chunk) == tokenwise(m, prompt),
{
    if prompt.len() > 0 {
        lemma_fresh_seen(m);
        law_chunks_are_steps(m, m.fresh(), prompt, chunk, 0);
    }
}

/// A prompt as a batch leaves what it leaves token by token.
pub proof fn law_batched_is_tokenwise<K: Kernel>(m: DecoderModel<K>, prompt: Seq<usize>)
    requires
        reciprocal(m),
    ensures
        batched(m, prompt) == tokenwise(m, prompt),
{
    if 0 < m.flags.prefill_chunk_size < prompt.len() {
        law_chunked_is_tokenwise(m, prompt, m.flags.prefill_chunk_size as int);
    } else if prompt.len() > 0 {
        lemma_fresh_seen(m);
        lemma_last_of_batch(m, m.fresh(), prompt);
        law_cold_batch_is_steps(m, m.fresh(), prompt);
    }
}

/// However the decoder takes a prompt, it leaves what it leaves token by token:
/// the arithmetic makes no difference, or the decoder takes it so.
pub open spec fn steady<K: Kernel>(m: DecoderModel<K>) -> bool {
    reciprocal(m) || !(batchable(m) && m.flags.prefill_batched)
}

/// What a steady decoder makes of a prompt is what it makes of it token by token.
pub proof fn law_uncached_is_tokenwise<K: Kernel>(m: DecoderModel<K>, prompt: Seq<usize>)
    requires
        steady(m),
    ensures
        uncached(m, prompt) == tokenwise(m, prompt),
{
    if batchable(m) && m.flags.prefill_batched {
        law_batched_is_tokenwise(m, prompt);
    }
}

/// Tokens through the decoder add as many positions to every full layer.
pub proof fn law_steps_gain<K: Kernel>(m: DecoderModel<K>, cache: CacheView<K::Cell>, tokens: Seq<usize>, count: int)
    requires
        seen(m, cache, count),
    ensures
        steps(m, cache, tokens) matches Some(made) ==> seen(m, made.0, count + tokens.len()) && made.0.position
            == cache.position + tokens.len() && made.1.len() == tokens.len(),
    decreases tokens.len(),
{
    if tokens.len() > 0 && steps(m, cache, tokens) is Some {
        law_steps_gain(m, cache, tokens.drop_last(), count);
        let before = (steps(m, cache, tokens.drop_last())->0).0;
        law_step_gains(m, before, tokens.last(), count + tokens.len() - 1);
    }
}

/// What a prompt leaves has as many positions as the prompt has tokens.
pub proof fn law_tokenwise_position<K: Kernel>(m: DecoderModel<K>, prompt: Seq<usize>)
    ensures
        tokenwise(m, prompt) matches Some(made) ==> made.0.position == prompt.len() && seen(m, made.0, prompt.len() as int)
            && made.0.wf(),
{
    if prompt.len() > 0 {
        lemma_fresh_seen(m);
        law_steps_gain(m, m.fresh(), prompt, 0);
    }
}

/// A suffix as a batch behind a prompt leaves what the two together leave token by
/// token.
pub proof fn law_suffix_extends<K: Kernel>(m: DecoderModel<K>, prompt: Seq<usize>, suffix: Seq<usize>)
    requires
        suffix.len() > 0,
        tokenwise(m, prompt) is Some,
    ensures
        last_of(batch(m, (tokenwise(m, prompt)->0).0, suffix)) == tokenwise(m, prompt + suffix),
{
    lemma_fresh_seen(m);
    law_steps_gain(m, m.fresh(), prompt, 0);
    let middle = (tokenwise(m, prompt)->0).0;
    lemma_seen_is_warm(m, middle, prompt.len() as int);
    law_batch_is_steps(m, middle, suffix);
    law_steps_concat(m, m.fresh(), prompt, suffix);
    if steps(m, middle, suffix) is Some {
        law_steps_gain(m, middle, suffix, prompt.len() as int);
        let early = (steps(m, m.fresh(), prompt)->0).1;
        let late = (steps(m, middle, suffix)->0).1;
        assert((early + late).last() == late.last());
    }
}

/// Where a prompt cannot go through the decoder, no prompt that starts with it can.
pub proof fn law_tokenwise_none<K: Kernel>(m: DecoderModel<K>, prompt: Seq<usize>, suffix: Seq<usize>)
    requires
        prompt.len() > 0,
        tokenwise(m, prompt) is None,
    ensures
        tokenwise(m, prompt + suffix) is None,
{
    assert((prompt + suffix).take(prompt.len() as int) =~= prompt);
    lemma_steps_none(m, m.fresh(), prompt + suffix, prompt.len() as int);
}

} // verus!
