//! The decoder with its memory of prompts.

use vstd::prelude::*;
use crate::decode::{generated, within, GenerationOutput, GenerationTimings};
use crate::error::InferError;
use crate::kernel::{constant, constant_of, device_talker, elapsed, fails_with, functional, granted, is_refusal, talker_answer_of, Constant, Kernel};
use crate::model::{batch, batch_hidden, step, CacheView, CausalDecoderCache, DecoderModel};
use crate::options::{ends_with_any, generated_matches_stop_sequence, GenerationOptions, SamplerView, TokenSampler};
use crate::prefill::{is_prefilled, last_state, prefill_agrees, uncached, Prefilled};
use crate::prefix_cache::{is_longest, put, serves, to_front, EntryView, PrefixCache};
use crate::sampling::{chosen, logits_of};
use crate::snapshot::{restored, states_of, CausalDecoderPromptMetalSnapshot};
use crate::sink::{always, of_stream, Policy, TokenLog, TokenSink};
use crate::tensor::{copy_cells, copy_range, Tensor};

verus! {

/// A decoder, and the states of the prompts it has seen.
pub struct CausalDecoder<K: Kernel> {
    pub model: DecoderModel<K>,
    pub prefix_cache: PrefixCache<K::Cell>,
}

/// What a prompt left.
pub struct CausalDecoderPromptState<C> {
    pub cache: CausalDecoderCache<C>,
    pub final_state: Tensor<C>,
}

impl<C> CausalDecoderPromptState<C> {
    pub open spec fn wf(&self) -> bool {
        is_prefilled((self.cache, self.final_state))
    }
}

impl<C: Copy> CausalDecoderPromptState<C> {
    pub fn new(cache: CausalDecoderCache<C>, final_state: Tensor<C>) -> (made: CausalDecoderPromptState<C>)
        ensures
            made.cache == cache,
            made.final_state == final_state,
    {
        CausalDecoderPromptState { cache, final_state }
    }

    /// Number of positions seen.
    pub fn position(&self) -> (position: usize)
        ensures
            position == self.cache@.position,
    {
        self.cache.position()
    }

    /// A copy.
    pub fn duplicate(&self) -> (copy: CausalDecoderPromptState<C>)
        ensures
            copy.cache@ == self.cache@,
            copy.final_state.shape@ == self.final_state.shape@,
            copy.final_state.data@ == self.final_state.data@,
    {
        CausalDecoderPromptState { cache: self.cache.duplicate(), final_state: self.final_state.duplicate() }
    }
}

/// What a decoder makes of a prompt that it may have seen the start of: what the
/// prompt leaves, and the entries it then keeps.
pub open spec fn served<K: Kernel>(m: DecoderModel<K>, entries: Seq<EntryView<K::Cell>>, prompt: Seq<usize>) -> (Option<(CacheView<K::Cell>, Seq<K::Cell>)>, Seq<EntryView<K::Cell>>) {
    let capacity = m.flags.prefix_cache_capacity as int;
    if prompt.len() == 0 {
        (None, entries)
    } else if !m.flags.prefix_cache {
        (uncached(m, prompt), entries)
    } else if exists|i: int| is_longest(entries, prompt, i) {
        let i = choose|i: int| is_longest(entries, prompt, i);
        let entry = entries[i];
        let moved = to_front(entries, i);
        if entry.tokens.len() < prompt.len() {
            match batch(m, entry.cache, prompt.skip(entry.tokens.len() as int)) {
                Some((cache, states)) => (
                    Some((cache, states.last())),
                    put(moved, (EntryView { tokens: prompt, cache, state: states.last() }), capacity),
                ),
                None => (None, moved),
            }
        } else {
            (Some((entry.cache, entry.state)), moved)
        }
    } else {
        match uncached(m, prompt) {
            Some((cache, state)) => (
                Some((cache, state)),
                put(entries, (EntryView { tokens: prompt, cache, state }), capacity),
            ),
            None => (None, entries),
        }
    }
}

/// There is one such entry.
pub proof fn lemma_longest_unique<C>(entries: Seq<EntryView<C>>, prompt: Seq<usize>, i: int, j: int)
    requires
        is_longest(entries, prompt, i),
        is_longest(entries, prompt, j),
    ensures
        i == j,
{
    assert(entries[i].tokens.len() <= entries[j].tokens.len());
    assert(entries[j].tokens.len() <= entries[i].tokens.len());
}

/// A generation from the state of a prompt: refused where the state has seen
/// nothing and a token is asked for.
pub open spec fn prompted<K: Kernel>(
    m: DecoderModel<K>,
    options: GenerationOptions<K::Cell>,
    policy: Policy,
    told: Seq<(usize, usize)>,
    cache: CacheView<K::Cell>,
    state: Seq<K::Cell>,
    max: int,
) -> Option<(Seq<usize>, int)> {
    if max == 0 {
        Some((Seq::empty(), 0))
    } else if cache.position == 0 {
        None
    } else {
        generated(m, options, policy, told, cache, state, max)
    }
}

/// A generation from a prompt, and the entries the decoder then keeps.
pub open spec fn generated_from<K: Kernel>(m: DecoderModel<K>, entries: Seq<EntryView<K::Cell>>, options: GenerationOptions<K::Cell>, prompt: Seq<usize>, max: int) -> (Option<(Seq<usize>, int)>, Seq<EntryView<K::Cell>>) {
    if prompt.len() == 0 {
        (None, entries)
    } else if max == 0 {
        (Some((Seq::empty(), 0)), entries)
    } else {
        let (made, after) = served(m, entries, prompt);
        match made {
            Some((cache, state)) => (prompted(m, options, always(), Seq::empty(), cache, state, max), after),
            None => (None, after),
        }
    }
}

/// What a result says of a generation: it fails exactly where the model has none.
pub open spec fn output_agrees(result: Result<GenerationOutput, InferError>, model: Option<(Seq<usize>, int)>) -> bool {
    match result {
        Ok(output) => model == Some((output.tokens@, output.timings.decode_tokens as int)),
        Err(_) => model is None,
    }
}

/// The options of a generation that is asked for nothing in particular: the best
/// token each time, and nothing to stop at.
pub open spec fn is_default<K: Kernel>(k: K, options: GenerationOptions<K::Cell>) -> bool {
    &&& options.temperature == constant_of(k, Constant::Zero)
    &&& options.top_p == constant_of(k, Constant::One)
    &&& options.top_k == 0
    &&& options.seed == 0
    &&& options.stop_token_ids@.len() == 0
    &&& options.stop_sequences@.len() == 0
    &&& !options.guided
}

/// The options of a generation that is asked for nothing in particular.
pub fn default_options<K: Kernel>(k: &K) -> (options: GenerationOptions<K::Cell>)
    ensures
        functional(*k) ==> is_default(*k, options),
        options.stop_token_ids@.len() == 0,
        options.stop_sequences@.len() == 0,
        !options.guided,
{
    GenerationOptions {
        temperature: constant(k, Constant::Zero),
        top_p: constant(k, Constant::One),
        top_k: 0,
        seed: 0,
        stop_token_ids: Vec::new(),
        stop_sequences: Vec::new(),
        guided: false,
    }
}

/// The logits that follow tokens, read from nothing but them.
pub open spec fn logits_after<K: Kernel>(m: DecoderModel<K>, tokens: Seq<usize>) -> Option<Seq<K::Cell>> {
    match last_state(m, batch_hidden(m, m.fresh(), tokens)) {
        Some((_, state)) => logits_of(m, m.lm_head, state),
        None => None,
    }
}

/// The tokens of a generation that reads each from the whole sequence before it,
/// behind those it has given.
pub open spec fn whole<K: Kernel>(m: DecoderModel<K>, options: GenerationOptions<K::Cell>, tokens: Seq<usize>, given: Seq<usize>, sampler: SamplerView, left: int) -> Option<Seq<usize>>
    decreases left,
{
    if left <= 0 {
        Some(given)
    } else {
        match logits_after(m, tokens) {
            Some(logits) => match chosen(m.kernel, logits, options, sampler) {
                Some((token, after)) => {
                    let now = given.push(token);
                    if options.stops_at(token) {
                        Some(given)
                    } else if ends_with_any(now, options.stop_sequences@) {
                        Some(now)
                    } else {
                        whole(m, options, tokens.push(token), now, after, left - 1)
                    }
                },
                None => None,
            },
            None => None,
        }
    }
}

impl<K: Kernel> CausalDecoder<K> {
    pub open spec fn wf(&self) -> bool {
        &&& self.model.wf()
        &&& self.prefix_cache.wf()
    }

    /// A decoder that has seen no prompt.
    pub fn new(model: DecoderModel<K>) -> (made: CausalDecoder<K>)
        requires
            model.wf(),
        ensures
            made.wf(),
            made.model == model,
            made.prefix_cache@ == Seq::<EntryView<K::Cell>>::empty(),
    {
        CausalDecoder { model, prefix_cache: PrefixCache::new() }
    }

    /// The logits of the last of some states.
    pub fn logits_from_final_state(&self, final_state: &Tensor<K::Cell>) -> (out: Result<Tensor<K::Cell>, InferError>)
        requires
            self.wf(),
            final_state.is_matrix(),
        ensures
            out matches Err(error) ==> error is Dimension,
            final_state.shape@[0] == 0 ==> out is Err,
            out matches Ok(out) ==> out.is_matrix() && out.shape@[0] == 1 && out.cols() == self.model.lm_head.out_dim,
            functional(self.model.kernel) && final_state.shape@[0] > 0 ==> match out {
                Ok(out) => crate::linear::linear_rows(self.model.kernel, self.model.lm_head, final_state.rows()) matches Some(rows)
                    && out.data@ == crate::sampling::finalized(self.model, rows.last()),
                Err(_) => crate::linear::linear_rows(self.model.kernel, self.model.lm_head, final_state.rows()) is None,
            },
            functional(self.model.kernel) && final_state.shape@[0] == 1 ==> match out {
                Ok(out) => logits_of(self.model, self.model.lm_head, final_state.rows()[0]) == Some(out.data@),
                Err(_) => logits_of(self.model, self.model.lm_head, final_state.rows()[0]) is None,
            },
    {
        let row: Vec<K::Cell> = self.model.logits_from_linear_state(final_state, &self.model.lm_head)?;
        Ok(Tensor::row(row))
    }

    /// The best token of a state among those before `suppress_start` and `eos`, where
    /// a device finds it; nothing where there is no device. Refused where the device fails.
    pub fn talker_greedy_token(&self, final_state: &Tensor<K::Cell>, suppress_start: usize, eos: usize) -> (out: Result<Option<usize>, InferError>)
        ensures
            out matches Err(error) ==> fails_with(self.model.kernel, error),
            functional(self.model.kernel) ==> granted(out) == talker_answer_of(
                self.model.kernel,
                self.model.lm_head.weight,
                final_state.data@,
                suppress_start,
                eos,
            ),
    {
        device_talker(&self.model.kernel, &self.model.lm_head.weight, &final_state.data, suppress_start, eos)
    }

    /// The logits that follow tokens, read from nothing but them. Refused where there
    /// are none.
    pub fn next_logits(&self, tokens: &Vec<usize>) -> (out: Result<Tensor<K::Cell>, InferError>)
        requires
            self.wf(),
        ensures
            out matches Err(error) ==> error.is_misfit(self.model.complete()),
            tokens@.len() == 0 ==> (out matches Err(error) && error is Dimension),
            out matches Ok(out) ==> out.is_matrix() && out.shape@[0] == 1 && out.cols() == self.model.lm_head.out_dim,
            functional(self.model.kernel) ==> match out {
                Ok(out) => logits_after(self.model, tokens@) == Some(out.data@),
                Err(_) => logits_after(self.model, tokens@) is None,
            },
    {
        let mut cache: CausalDecoderCache<K::Cell> = self.model.empty_cache();
        let hidden: Tensor<K::Cell> = self.model.hidden_rows_batched(&mut cache, tokens)?;
        proof {
            hidden.lemma_rows();
        }
        let state: Tensor<K::Cell> = self.model.last_hidden_state(&hidden)?;
        self.logits_from_final_state(&state)
    }

    /// The logits that follow one more token.
    pub fn next_logits_cached(&self, cache: &mut CausalDecoderCache<K::Cell>, token: usize) -> (out: Result<Tensor<K::Cell>, InferError>)
        requires
            self.wf(),
            old(cache)@.wf(),
        ensures
            out matches Err(error) ==> error.is_misfit(self.model.complete()),
            final(cache)@.wf(),
            !self.model.fits(old(cache)@) ==> (out matches Err(error) && error is Dimension),
            out matches Ok(out) ==> out.is_matrix() && out.shape@[0] == 1 && out.cols() == self.model.lm_head.out_dim,
            functional(self.model.kernel) ==> match out {
                Ok(out) => step(self.model, old(cache)@, token) matches Some(made) && made.0 == final(cache)@ && logits_of(
                    self.model,
                    self.model.lm_head,
                    made.1,
                ) == Some(out.data@),
                Err(_) => step(self.model, old(cache)@, token) matches Some(made) ==> logits_of(
                    self.model,
                    self.model.lm_head,
                    made.1,
                ) is None,
            },
    {
        let state: Tensor<K::Cell> = self.model.next_final_state_cached(cache, token)?;
        self.logits_from_final_state(&state)
    }

    /// Takes a prompt through the decoder, from the longest start of it that was
    /// seen before, and keeps what it leaves. Refused where it is empty.
    pub fn prefill_cache_state(&mut self, prompt: &Vec<usize>) -> (out: Result<Prefilled<K::Cell>, InferError>)
        requires
            old(self).wf(),
        ensures
            out matches Err(error) ==> error.is_misfit(old(self).model.complete()),
            final(self).wf(),
            final(self).model == old(self).model,
            out matches Ok(made) ==> is_prefilled(made),
            prompt@.len() == 0 ==> (out matches Err(error) && error is Dimension),
            functional(old(self).model.kernel) ==> prefill_agrees(
                out,
                served(old(self).model, old(self).prefix_cache@, prompt@).0,
            ) && final(self).prefix_cache@ == served(old(self).model, old(self).prefix_cache@, prompt@).1,
    {
        let ghost entries = self.prefix_cache@;
        if prompt.len() == 0 {
            return Err(InferError::Dimension("empty prompt"));
        }
        let capacity: usize = self.model.flags.prefix_cache_capacity;
        if self.model.flags.prefix_cache {
            if let Some((cache, state, covered)) = self.prefix_cache.get(prompt) {
                let ghost i = choose|i: int| {
                    &&& #[trigger] is_longest(entries, prompt@, i)
                    &&& self.prefix_cache@ == to_front(entries, i)
                    &&& cache@ == entries[i].cache
                    &&& state.rows()[0] == entries[i].state
                    &&& covered == entries[i].tokens.len()
                };
                proof {
                    lemma_longest_unique(entries, prompt@, i, choose|j: int| is_longest(entries, prompt@, j));
                }
                let mut made: Prefilled<K::Cell> = (cache, state);
                if covered < prompt.len() {
                    let suffix: Vec<usize> = copy_range(prompt, covered, prompt.len());
                    assert(suffix@ =~= prompt@.skip(covered as int));
                    self.model.extend_prefix_cache_suffix(&mut made, &suffix)?;
                    proof {
                        assert(crate::tensor::row_of(made.1.data@, made.1.cols(), 0) =~= made.1.data@);
                    }
                    self.prefix_cache.put(prompt, &made.0, &made.1, capacity);
                }
                return Ok(made);
            }
            assert forall|i: int| !is_longest(entries, prompt@, i) by {
                if is_longest(entries, prompt@, i) {
                    assert(!serves(entries[i], prompt@));
                }
            }
        }
        let made: Prefilled<K::Cell> = self.model.prefill_cache_state_uncached(prompt)?;
        if self.model.flags.prefix_cache {
            proof {
                assert(crate::tensor::row_of(made.1.data@, made.1.cols(), 0) =~= made.1.data@);
            }
            self.prefix_cache.put(prompt, &made.0, &made.1, capacity);
        }
        Ok(made)
    }

    /// Takes a prompt through the decoder: the cache, and the logits that follow.
    pub fn prefill_cache(&mut self, prompt: &Vec<usize>) -> (out: Result<(CausalDecoderCache<K::Cell>, Tensor<K::Cell>), InferError>)
        requires
            old(self).wf(),
        ensures
            out matches Err(error) ==> error.is_misfit(old(self).model.complete()),
            final(self).wf(),
            final(self).model == old(self).model,
            out matches Ok(out) ==> out.0@.wf() && out.1.is_matrix() && out.1.shape@[0] == 1 && out.1.cols() == old(self).model.lm_head.out_dim,
            prompt@.len() == 0 ==> (out matches Err(error) && error is Dimension),
            functional(old(self).model.kernel) ==> {
                let (made, entries) = served(old(self).model, old(self).prefix_cache@, prompt@);
                &&& final(self).prefix_cache@ == entries
                &&& match out {
                    Ok(out) => made matches Some(made) && made.0 == out.0@ && logits_of(
                        old(self).model,
                        old(self).model.lm_head,
                        made.1,
                    ) == Some(out.1.data@),
                    Err(_) => made matches Some(made) ==> logits_of(old(self).model, old(self).model.lm_head, made.1) is None,
                }
            },
    {
        let made: Prefilled<K::Cell> = self.prefill_cache_state(prompt)?;
        let logits: Tensor<K::Cell> = self.logits_from_final_state(&made.1)?;
        Ok((made.0, logits))
    }

    /// Takes a prompt through the decoder as if it had seen none before.
    pub fn prefill_cache_uncached(&self, prompt: &Vec<usize>) -> (out: Result<(CausalDecoderCache<K::Cell>, Tensor<K::Cell>), InferError>)
        requires
            self.wf(),
        ensures
            out matches Err(error) ==> error.is_misfit(self.model.complete()),
            out matches Ok(out) ==> {
                &&& out.0@.wf()
                &&& out.1.is_matrix() && out.1.shape@[0] == 1 && out.1.cols() == self.model.lm_head.out_dim
                &&& self.model.behind(out.0@, prompt@.len() as int)
            },
            prompt@.len() == 0 ==> (out matches Err(error) && error is Dimension),
            functional(self.model.kernel) ==> match out {
                Ok(out) => uncached(self.model, prompt@) matches Some(made) && made.0 == out.0@ && logits_of(
                    self.model,
                    self.model.lm_head,
                    made.1,
                ) == Some(out.1.data@),
                Err(_) => uncached(self.model, prompt@) matches Some(made) ==> logits_of(
                    self.model,
                    self.model.lm_head,
                    made.1,
                ) is None,
            },
    {
        let made: Prefilled<K::Cell> = self.model.prefill_cache_state_uncached(prompt)?;
        let logits: Tensor<K::Cell> = self.logits_from_final_state(&made.1)?;
        Ok((made.0, logits))
    }

    /// What a prompt leaves, as if the decoder had seen none before.
    pub fn prefill_prompt_state_uncached(&self, prompt: &Vec<usize>) -> (out: Result<CausalDecoderPromptState<K::Cell>, InferError>)
        requires
            self.wf(),
        ensures
            out matches Err(error) ==> error.is_misfit(self.model.complete()),
            out matches Ok(state) ==> state.wf() && state.final_state.cols() == self.model.hidden() && self.model.behind(state.cache@, prompt@.len() as int),
            prompt@.len() == 0 ==> (out matches Err(error) && error is Dimension),
            functional(self.model.kernel) ==> match out {
                Ok(state) => uncached(self.model, prompt@) == Some((state.cache@, state.final_state.rows()[0])),
                Err(_) => uncached(self.model, prompt@) is None,
            },
    {
        let made: Prefilled<K::Cell> = self.model.prefill_cache_state_uncached(prompt)?;
        Ok(CausalDecoderPromptState::new(made.0, made.1))
    }

    /// Takes a suffix through the decoder behind a prompt; nothing happens without
    /// one.
    pub fn extend_prompt_state(&self, state: &mut CausalDecoderPromptState<K::Cell>, suffix: &Vec<usize>) -> (out: Result<(), InferError>)
        requires
            self.wf(),
            old(state).wf(),
        ensures
            out matches Err(error) ==> error.is_misfit(self.model.complete()),
            final(state).wf(),
            suffix@.len() == 0 ==> out is Ok && *final(state) == *old(state),
            suffix@.len() > 0 && !self.model.fits(old(state).cache@) ==> (out matches Err(error) && error is Dimension) && *final(state)
                == *old(state),
            out is Ok ==> final(state).cache@.position == old(state).cache@.position + suffix@.len(),
            out is Ok && suffix@.len() > 0 ==> final(state).final_state.cols() == self.model.hidden(),
            suffix@.len() > 0 && functional(self.model.kernel) ==> match out {
                Ok(_) => batch(self.model, old(state).cache@, suffix@) matches Some(made) && made.0 == final(state).cache@
                    && made.1.last() == final(state).final_state.rows()[0],
                Err(_) => batch(self.model, old(state).cache@, suffix@) is None,
            },
    {
        if suffix.len() == 0 {
            return Ok(());
        }
        let states: Tensor<K::Cell> = self.model.next_final_states_batched(&mut state.cache, suffix)?;
        proof {
            states.lemma_rows();
        }
        let row: Vec<K::Cell> = states.last_row()?;
        state.final_state = Tensor::row(row);
        Ok(())
    }

    /// The state of the recurrences that a prompt left.
    pub fn snapshot_prompt_state_metal(&self, state: &CausalDecoderPromptState<K::Cell>) -> (out: Result<
        CausalDecoderPromptMetalSnapshot<K::Cell>,
        InferError,
    >)
        ensures
            out matches Ok(snapshot) && snapshot@ == states_of(state.cache@),
    {
        Ok(CausalDecoderPromptMetalSnapshot::of_cache(&state.cache))
    }

    /// A copy of the state of the recurrences.
    pub fn copy_prompt_state_metal_snapshot(&self, snapshot: &CausalDecoderPromptMetalSnapshot<K::Cell>) -> (out: Result<
        CausalDecoderPromptMetalSnapshot<K::Cell>,
        InferError,
    >)
        ensures
            out matches Ok(copy) && copy@ == snapshot@,
    {
        Ok(snapshot.duplicate())
    }

    /// Puts the state of the recurrences back into the state of a prompt. Refused where
    /// the numbers of layers differ.
    pub fn restore_prompt_state_metal(&self, state: &mut CausalDecoderPromptState<K::Cell>, snapshot: CausalDecoderPromptMetalSnapshot<K::Cell>) -> (out: Result<
        (),
        InferError,
    >)
        ensures
            final(state).final_state == old(state).final_state,
            match out {
                Ok(_) => restored(old(state).cache@, snapshot@) == Some(final(state).cache@),
                Err(error) => restored(old(state).cache@, snapshot@) is None && error is Dimension && final(state).cache@ == old(state).cache@,
            },
    {
        snapshot.restore(&mut state.cache)
    }

    /// Generates from what a prompt left, and tells the sink of every token. Refused
    /// where the state has seen nothing and a token is asked for.
    pub fn generate_greedy_timed_from_prompt_state_with_options_and_callback<S: TokenSink>(
        &self,
        state: CausalDecoderPromptState<K::Cell>,
        prefill: u64,
        max_new_tokens: usize,
        options: &GenerationOptions<K::Cell>,
        on_token: &mut S,
    ) -> (out: Result<GenerationOutput, InferError>)
        requires
            self.wf(),
            state.wf(),
        ensures
            out matches Err(error) ==> is_refusal(self.model.kernel, error, self.model.complete()),
            final(on_token).policy() == old(on_token).policy(),
            out matches Ok(out) ==> {
                &&& within(*options, out.tokens@, max_new_tokens as int)
                &&& out.timings.prefill == prefill
                &&& max_new_tokens == 0 ==> out.timings.decode == 0 && out.timings.decode_tokens == 0
                &&& final(on_token).told() == old(on_token).told() + of_stream(0, out.tokens@)
            },
            max_new_tokens == 0 ==> out is Ok,
            max_new_tokens > 0 && state.cache@.position == 0 ==> (out matches Err(error) && error is Dimension),
            functional(self.model.kernel) ==> output_agrees(
                out,
                prompted(
                    self.model,
                    *options,
                    old(on_token).policy(),
                    old(on_token).told(),
                    state.cache@,
                    state.final_state.rows()[0],
                    max_new_tokens as int,
                ),
            ),
    {
        if max_new_tokens == 0 {
            let tokens: Vec<usize> = Vec::new();
            proof {
                assert(old(on_token).told() + of_stream(0, tokens@) =~= old(on_token).told());
                assert(tokens@ =~= Seq::<usize>::empty());
            }
            return Ok(GenerationOutput { tokens, timings: GenerationTimings { prefill, decode: 0, decode_tokens: 0 } });
        }
        if state.position() == 0 {
            return Err(InferError::Dimension("empty prompt state"));
        }
        self.model.generate_greedy_timed_from_prefilled_state(
            state.cache,
            state.final_state,
            prefill,
            max_new_tokens,
            options,
            on_token,
        )
    }

    /// Generates from what a prompt left.
    pub fn generate_greedy_timed_from_prompt_state_with_options(&self, state: CausalDecoderPromptState<K::Cell>, prefill: u64, max_new_tokens: usize, options: &GenerationOptions<K::Cell>) -> (out: Result<GenerationOutput, InferError>)
        requires
            self.wf(),
            state.wf(),
        ensures
            out matches Err(error) ==> is_refusal(self.model.kernel, error, self.model.complete()),
            out matches Ok(out) ==> within(*options, out.tokens@, max_new_tokens as int) && out.timings.prefill == prefill,
            max_new_tokens == 0 ==> (out matches Ok(out) && out.tokens@.len() == 0 && out.timings.decode == 0 && out.timings.decode_tokens == 0),
            max_new_tokens > 0 && state.cache@.position == 0 ==> (out matches Err(error) && error is Dimension),
            functional(self.model.kernel) ==> output_agrees(
                out,
                prompted(
                    self.model,
                    *options,
                    always(),
                    Seq::empty(),
                    state.cache@,
                    state.final_state.rows()[0],
                    max_new_tokens as int,
                ),
            ),
    {
        let mut log: TokenLog = TokenLog::new();
        self.generate_greedy_timed_from_prompt_state_with_options_and_callback(state, prefill, max_new_tokens, options, &mut log)
    }

    /// Generates from a prompt. Refused where it is empty.
    pub fn generate_greedy_timed_with_options(&mut self, prompt: &Vec<usize>, max_new_tokens: usize, options: &GenerationOptions<K::Cell>) -> (out: Result<GenerationOutput, InferError>)
        requires
            old(self).wf(),
        ensures
            out matches Err(error) ==> is_refusal(old(self).model.kernel, error, old(self).model.complete()),
            final(self).wf(),
            final(self).model == old(self).model,
            out matches Ok(out) ==> within(*options, out.tokens@, max_new_tokens as int),
            prompt@.len() == 0 ==> (out matches Err(error) && error is Dimension),
            prompt@.len() > 0 && max_new_tokens == 0 ==> {
                &&& *final(self) == *old(self)
                &&& out matches Ok(out)
                &&& out.tokens@.len() == 0
                &&& out.timings == (GenerationTimings { prefill: 0, decode: 0, decode_tokens: 0 })
            },
            functional(old(self).model.kernel) ==> {
                let (made, entries) = generated_from(old(self).model, old(self).prefix_cache@, *options, prompt@, max_new_tokens as int);
                &&& output_agrees(out, made)
                &&& final(self).prefix_cache@ == entries
            },
    {
        if prompt.len() == 0 {
            return Err(InferError::Dimension("empty prompt"));
        }
        if max_new_tokens == 0 {
            let tokens: Vec<usize> = Vec::new();
            assert(tokens@ =~= Seq::<usize>::empty());
            return Ok(GenerationOutput { tokens, timings: GenerationTimings { prefill: 0, decode: 0, decode_tokens: 0 } });
        }
        let started: u64 = self.model.kernel.nanoseconds();
        let made: Prefilled<K::Cell> = self.prefill_cache_state(prompt)?;
        let prefill: u64 = elapsed(&self.model.kernel, started);
        self.generate_greedy_timed_from_prompt_state_with_options(
            CausalDecoderPromptState::new(made.0, made.1),
            prefill,
            max_new_tokens,
            options,
        )
    }

    /// The tokens generated from a prompt. Refused where it is empty.
    pub fn generate_greedy_with_options(&mut self, prompt: &Vec<usize>, max_new_tokens: usize, options: &GenerationOptions<K::Cell>) -> (out: Result<Vec<usize>, InferError>)
        requires
            old(self).wf(),
        ensures
            out matches Err(error) ==> is_refusal(old(self).model.kernel, error, old(self).model.complete()),
            final(self).wf(),
            final(self).model == old(self).model,
            out matches Ok(tokens) ==> within(*options, tokens@, max_new_tokens as int),
            prompt@.len() == 0 ==> (out matches Err(error) && error is Dimension),
            functional(old(self).model.kernel) ==> {
                let (made, entries) = generated_from(old(self).model, old(self).prefix_cache@, *options, prompt@, max_new_tokens as int);
                &&& final(self).prefix_cache@ == entries
                &&& match out {
                    Ok(tokens) => made matches Some(made) && made.0 == tokens@,
                    Err(_) => made is None,
                }
            },
    {
        let output: GenerationOutput = self.generate_greedy_timed_with_options(prompt, max_new_tokens, options)?;
        Ok(output.tokens)
    }

    /// The tokens generated from a prompt, each read from the cache. Refused where the
    /// prompt is empty.
    pub fn generate_greedy_cached_with_options(&mut self, prompt: &Vec<usize>, max_new_tokens: usize, options: &GenerationOptions<K::Cell>) -> (out: Result<Vec<usize>, InferError>)
        requires
            old(self).wf(),
        ensures
            out matches Err(error) ==> is_refusal(old(self).model.kernel, error, old(self).model.complete()),
            final(self).wf(),
            final(self).model == old(self).model,
            out matches Ok(tokens) ==> within(*options, tokens@, max_new_tokens as int),
            prompt@.len() == 0 ==> (out matches Err(error) && error is Dimension),
            functional(old(self).model.kernel) ==> {
                let (made, entries) = generated_from(old(self).model, old(self).prefix_cache@, *options, prompt@, max_new_tokens as int);
                &&& final(self).prefix_cache@ == entries
                &&& match out {
                    Ok(tokens) => made matches Some(made) && made.0 == tokens@,
                    Err(_) => made is None,
                }
            },
    {
        let output: GenerationOutput = self.generate_greedy_timed_with_options(prompt, max_new_tokens, options)?;
        Ok(output.tokens)
    }

    /// The best tokens after a prompt. Refused where it is empty.
    pub fn generate_greedy(&mut self, prompt: &Vec<usize>, max_new_tokens: usize) -> (out: Result<Vec<usize>, InferError>)
        requires
            old(self).wf(),
        ensures
            out matches Err(error) ==> is_refusal(old(self).model.kernel, error, old(self).model.complete()),
            final(self).wf(),
            final(self).model == old(self).model,
            out matches Ok(tokens) ==> tokens@.len() <= max_new_tokens,
            prompt@.len() == 0 ==> (out matches Err(error) && error is Dimension),
            functional(old(self).model.kernel) ==> exists|options: GenerationOptions<K::Cell>| {
                let (made, entries) = generated_from(old(self).model, old(self).prefix_cache@, options, prompt@, max_new_tokens as int);
                &&& #[trigger] is_default(old(self).model.kernel, options)
                &&& final(self).prefix_cache@ == entries
                &&& match out {
                    Ok(tokens) => made matches Some(made) && made.0 == tokens@,
                    Err(_) => made is None,
                }
            },
    {
        let options: GenerationOptions<K::Cell> = default_options(&self.model.kernel);
        self.generate_greedy_with_options(prompt, max_new_tokens, &options)
    }

    /// The tokens generated from a prompt, each read from the whole sequence before
    /// it. Refused where the prompt is empty.
    pub fn generate_greedy_full_with_options(&self, prompt: &Vec<usize>, max_new_tokens: usize, options: &GenerationOptions<K::Cell>) -> (out: Result<Vec<usize>, InferError>)
        requires
            self.wf(),
        ensures
            out matches Err(error) ==> is_refusal(self.model.kernel, error, self.model.complete()),
            out matches Ok(tokens) ==> within(*options, tokens@, max_new_tokens as int),
            prompt@.len() == 0 ==> (out matches Err(error) && error is Dimension),
            prompt@.len() > 0 && functional(self.model.kernel) ==> match out {
                Ok(tokens) => whole(
                    self.model,
                    *options,
                    prompt@,
                    Seq::empty(),
                    SamplerView::start(options.seed),
                    max_new_tokens as int,
                ) == Some(tokens@),
                Err(_) => whole(
                    self.model,
                    *options,
                    prompt@,
                    Seq::empty(),
                    SamplerView::start(options.seed),
                    max_new_tokens as int,
                ) is None,
            },
    {
        if prompt.len() == 0 {
            return Err(InferError::Dimension("empty prompt"));
        }
        let mut tokens: Vec<usize> = copy_cells(prompt);
        let mut given: Vec<usize> = Vec::new();
        let mut sampler: TokenSampler = TokenSampler::new(options.seed);
        let mut left: usize = max_new_tokens;
        let ghost model = whole(self.model, *options, prompt@, Seq::empty(), SamplerView::start(options.seed), max_new_tokens as int);
        assert(given@ =~= Seq::<usize>::empty());
        while left > 0
            invariant_except_break
                functional(self.model.kernel) ==> model == whole(self.model, *options, tokens@, given@, sampler@, left as int),
                given@.len() == max_new_tokens - left,
            invariant
                left <= max_new_tokens,
                self.wf(),
                prompt@.len() > 0,
                tokens@.len() > 0,
                model == whole(self.model, *options, prompt@, Seq::empty(), SamplerView::start(options.seed), max_new_tokens as int),
                within(*options, given@, max_new_tokens as int),
            ensures
                functional(self.model.kernel) ==> model == Some(given@),
            decreases left,
        {
            let logits: Tensor<K::Cell> = self.next_logits(&tokens)?;
            let ghost before = sampler@;
            let token: usize = self.model.choose_token(&logits.data, options, &mut sampler)?;
            if options.is_stop_token(token) {
                break;
            }
            tokens.push(token);
            given.push(token);
            if generated_matches_stop_sequence(&given, &options.stop_sequences) {
                break;
            }
            left = left - 1;
        }
        Ok(given)
    }
}

} // verus!
