//! Prompts through the decoder.

use vstd::prelude::*;
use crate::error::InferError;
use crate::kernel::{functional, Kernel};
use crate::layer::norm_of;
use crate::linear::rms_norm;
use crate::model::{batch, batch_hidden, steps, CacheView, CausalDecoderCache, DecoderModel};
use crate::tensor::{copy_range, Tensor};

verus! {

/// The state that the last of some hidden rows leaves.
pub open spec fn last_state<K: Kernel>(m: DecoderModel<K>, made: Option<(CacheView<K::Cell>, Seq<Seq<K::Cell>>)>) -> Option<(CacheView<K::Cell>, Seq<K::Cell>)> {
    match made {
        Some((cache, rows)) => if rows.len() == 0 {
            None
        } else {
            match norm_of(m.kernel, rows.last(), m.final_norm, m.config.rms_eps) {
                Some(state) => Some((cache, state)),
                None => None,
            }
        },
        None => None,
    }
}

/// A prompt token by token: the cache and the state it leaves.
pub open spec fn tokenwise<K: Kernel>(m: DecoderModel<K>, prompt: Seq<usize>) -> Option<(CacheView<K::Cell>, Seq<K::Cell>)> {
    if prompt.len() == 0 {
        None
    } else {
        match steps(m, m.fresh(), prompt) {
            Some((cache, states)) => Some((cache, states.last())),
            None => None,
        }
    }
}

/// Tokens in chunks: the cache after them and the hidden rows of the last chunk.
pub open spec fn chunk_hidden<K: Kernel>(m: DecoderModel<K>, cache: CacheView<K::Cell>, tokens: Seq<usize>, chunk: int) -> Option<(CacheView<K::Cell>, Seq<Seq<K::Cell>>)>
    decreases tokens.len(),
{
    if chunk <= 0 || tokens.len() == 0 {
        None
    } else if tokens.len() <= chunk {
        batch_hidden(m, cache, tokens)
    } else {
        match batch_hidden(m, cache, tokens.take(chunk)) {
            Some((after, _)) => chunk_hidden(m, after, tokens.skip(chunk), chunk),
            None => None,
        }
    }
}

/// A prompt in chunks: the cache and the state it leaves.
pub open spec fn chunked<K: Kernel>(m: DecoderModel<K>, prompt: Seq<usize>, chunk: int) -> Option<(CacheView<K::Cell>, Seq<K::Cell>)> {
    last_state(m, chunk_hidden(m, m.fresh(), prompt, chunk))
}

/// A prompt as a batch, or in chunks where the decoder has a chunk size below the
/// prompt's length.
pub open spec fn batched<K: Kernel>(m: DecoderModel<K>, prompt: Seq<usize>) -> Option<(CacheView<K::Cell>, Seq<K::Cell>)> {
    if 0 < m.flags.prefill_chunk_size < prompt.len() {
        chunked(m, prompt, m.flags.prefill_chunk_size as int)
    } else {
        last_state(m, batch_hidden(m, m.fresh(), prompt))
    }
}

/// Every layer can take several positions at once.
pub open spec fn batchable<K: Kernel>(m: DecoderModel<K>) -> bool {
    forall|i: int| 0 <= i < m.layers@.len() ==> (#[trigger] m.layers@[i]).attention is Full || m.flags.prefill_linear_batched
}

/// A prompt through the decoder, as the decoder is set to take it.
pub open spec fn uncached<K: Kernel>(m: DecoderModel<K>, prompt: Seq<usize>) -> Option<(CacheView<K::Cell>, Seq<K::Cell>)> {
    if batchable(m) && m.flags.prefill_batched {
        batched(m, prompt)
    } else {
        tokenwise(m, prompt)
    }
}

/// A cache with the state that its last token left.
pub type Prefilled<C> = (CausalDecoderCache<C>, Tensor<C>);

/// The pair is a cache in order and one state.
pub open spec fn is_prefilled<C>(made: Prefilled<C>) -> bool {
    &&& made.0@.wf()
    &&& made.1.is_matrix()
    &&& made.1.shape@[0] == 1
}

/// What a result says of a prompt: it fails exactly where the model has no value.
pub open spec fn prefill_agrees<C>(result: Result<Prefilled<C>, InferError>, model: Option<(CacheView<C>, Seq<C>)>) -> bool {
    match result {
        Ok(made) => model == Some((made.0@, made.1.rows()[0])),
        Err(_) => model is None,
    }
}

impl<K: Kernel> DecoderModel<K> {
    /// The cache is one of the decoder and stands behind so many tokens.
    pub open spec fn behind(&self, cache: CacheView<K::Cell>, count: int) -> bool {
        cache.layers.len() == self.layers@.len() && cache.position == count
    }

    /// Takes a prompt through the decoder token by token. Refused where it is empty.
    pub fn prefill_cache_state_tokenwise(&self, prompt: &Vec<usize>) -> (out: Result<Prefilled<K::Cell>, InferError>)
        requires
            self.wf(),
        ensures
            out matches Err(error) ==> error.is_misfit(self.complete()),
            out matches Ok(made) ==> is_prefilled(made) && made.1.cols() == self.hidden() && self.behind(made.0@, prompt@.len() as int),
            prompt@.len() == 0 ==> (out matches Err(error) && error is Dimension),
            functional(self.kernel) ==> prefill_agrees(out, tokenwise(*self, prompt@)),
    {
        let mut cache: CausalDecoderCache<K::Cell> = self.empty_cache();
        let n: usize = prompt.len();
        if n == 0 {
            return Err(InferError::Dimension("empty prompt"));
        }
        let mut state: Option<Tensor<K::Cell>> = None;
        let ghost mut states: Seq<Seq<K::Cell>> = Seq::empty();
        let mut i: usize = 0;
        assert(prompt@.take(0) =~= Seq::<usize>::empty());
        while i < n
            invariant
                i <= n,
                n == prompt@.len(),
                self.wf(),
                cache@.wf(),
                self.behind(cache@, i as int),
                states.len() == i,
                i > 0 ==> state is Some,
                state matches Some(state) ==> state.is_matrix() && state.shape@[0] == 1 && state.cols() == self.hidden(),
                functional(self.kernel) ==> steps(*self, self.fresh(), prompt@.take(i as int)) == Some((cache@, states)),
                functional(self.kernel) && i > 0 ==> (state->0).rows()[0] == states.last(),
            decreases n - i,
        {
            proof {
                assert(prompt@.take(i + 1).drop_last() =~= prompt@.take(i as int));
            }
            match self.next_final_state_cached(&mut cache, prompt[i]) {
                Ok(next) => {
                    proof {
                        states = states.push(next.rows()[0]);
                    }
                    state = Some(next);
                },
                Err(error) => {
                    proof {
                        if functional(self.kernel) {
                            lemma_steps_none(*self, self.fresh(), prompt@, i + 1);
                        }
                    }
                    return Err(error);
                },
            }
            i = i + 1;
        }
        assert(prompt@.take(n as int) =~= prompt@);
        match state {
            Some(state) => Ok((cache, state)),
            None => Err(InferError::Dimension("empty prompt")),
        }
    }

    /// The state that the last row of a batch leaves.
    pub fn last_hidden_state(&self, hidden: &Tensor<K::Cell>) -> (out: Result<Tensor<K::Cell>, InferError>)
        requires
            hidden.is_matrix(),
            hidden.shape@[0] > 0,
            hidden.cols() == self.hidden(),
        ensures
            out matches Err(error) ==> error is Dimension,
            out matches Ok(out) && out.is_matrix() && out.shape@[0] == 1 && out.cols() == self.hidden(),
            functional(self.kernel) ==> norm_of(self.kernel, hidden.rows().last(), self.final_norm, self.config.rms_eps) == Some(
                (out->Ok_0).rows()[0],
            ),
    {
        proof {
            hidden.lemma_rows();
        }
        let row: Vec<K::Cell> = hidden.last_row()?;
        let last: Tensor<K::Cell> = Tensor::row(row);
        proof {
            last.lemma_rows();
        }
        rms_norm(&self.kernel, &last, &self.final_norm, self.config.rms_eps)
    }

    /// Takes a prompt through the decoder as one batch, or in chunks where the
    /// decoder has a chunk size below its length. Refused where it is empty.
    pub fn prefill_cache_state_batched(&self, prompt: &Vec<usize>) -> (out: Result<Prefilled<K::Cell>, InferError>)
        requires
            self.wf(),
        ensures
            out matches Err(error) ==> error.is_misfit(self.complete()),
            out matches Ok(made) ==> is_prefilled(made) && made.1.cols() == self.hidden() && self.behind(made.0@, prompt@.len() as int),
            prompt@.len() == 0 ==> (out matches Err(error) && error is Dimension),
            functional(self.kernel) ==> prefill_agrees(out, batched(*self, prompt@)),
    {
        let chunk: usize = self.flags.prefill_chunk_size;
        if chunk > 0 && chunk < prompt.len() {
            return self.prefill_cache_state_batched_chunked(prompt, chunk);
        }
        let mut cache: CausalDecoderCache<K::Cell> = self.empty_cache();
        let hidden: Tensor<K::Cell> = self.hidden_rows_batched(&mut cache, prompt)?;
        proof {
            hidden.lemma_rows();
        }
        let state: Tensor<K::Cell> = self.last_hidden_state(&hidden)?;
        Ok((cache, state))
    }

    /// Takes a prompt through the decoder in chunks. Refused where it is empty or
    /// the chunks are.
    pub fn prefill_cache_state_batched_chunked(&self, prompt: &Vec<usize>, chunk_size: usize) -> (out: Result<Prefilled<K::Cell>, InferError>)
        requires
            self.wf(),
        ensures
            out matches Err(error) ==> error.is_misfit(self.complete()),
            out matches Ok(made) ==> is_prefilled(made) && made.1.cols() == self.hidden() && self.behind(made.0@, prompt@.len() as int),
            prompt@.len() == 0 || chunk_size == 0 ==> (out matches Err(error) && error is Dimension),
            functional(self.kernel) ==> prefill_agrees(out, chunked(*self, prompt@, chunk_size as int)),
    {
        if chunk_size == 0 {
            return Err(InferError::Dimension("chunks of size zero"));
        }
        let n: usize = prompt.len();
        if n == 0 {
            return Err(InferError::Dimension("empty prompt"));
        }
        let mut cache: CausalDecoderCache<K::Cell> = self.empty_cache();
        let mut at: usize = 0;
        assert(prompt@.skip(0) =~= prompt@);
        while n - at > chunk_size
            invariant
                at < n,
                n == prompt@.len(),
                chunk_size > 0,
                self.wf(),
                cache@.wf(),
                self.behind(cache@, at as int),
                functional(self.kernel) ==> chunk_hidden(*self, self.fresh(), prompt@, chunk_size as int) == chunk_hidden(
                    *self,
                    cache@,
                    prompt@.skip(at as int),
                    chunk_size as int,
                ),
            decreases n - at,
        {
            let chunk: Vec<usize> = copy_range(prompt, at, at + chunk_size);
            let ghost before = cache@;
            proof {
                let rest = prompt@.skip(at as int);
                assert(rest.take(chunk_size as int) =~= chunk@);
                assert(rest.skip(chunk_size as int) =~= prompt@.skip(at + chunk_size));
            }
            let hidden: Tensor<K::Cell> = self.hidden_rows_batched(&mut cache, &chunk)?;
            at = at + chunk_size;
        }
        let chunk: Vec<usize> = copy_range(prompt, at, n);
        proof {
            assert(prompt@.skip(at as int) =~= chunk@);
        }
        let hidden: Tensor<K::Cell> = self.hidden_rows_batched(&mut cache, &chunk)?;
        proof {
            hidden.lemma_rows();
        }
        let state: Tensor<K::Cell> = self.last_hidden_state(&hidden)?;
        Ok((cache, state))
    }

    /// Whether every layer can take several positions at once.
    pub fn can_prefill_batched(&self) -> (can: bool)
        ensures
            can == batchable(*self),
    {
        let linear: bool = self.flags.prefill_linear_batched;
        for i in 0..self.layers.len()
            invariant
                linear == self.flags.prefill_linear_batched,
                forall|j: int| 0 <= j < i ==> (#[trigger] self.layers@[j]).attention is Full || linear,
        {
            if !self.layers[i].supports_batched_prefill(linear) {
                assert(!(self.layers@[i as int].attention is Full || linear));
                return false;
            }
        }
        true
    }

    /// Takes a prompt through the decoder, as the decoder is set to take it.
    pub fn prefill_cache_state_uncached(&self, prompt: &Vec<usize>) -> (out: Result<Prefilled<K::Cell>, InferError>)
        requires
            self.wf(),
        ensures
            out matches Err(error) ==> error.is_misfit(self.complete()),
            out matches Ok(made) ==> is_prefilled(made) && made.1.cols() == self.hidden() && self.behind(made.0@, prompt@.len() as int),
            prompt@.len() == 0 ==> (out matches Err(error) && error is Dimension),
            functional(self.kernel) ==> prefill_agrees(out, uncached(*self, prompt@)),
    {
        if self.can_prefill_batched() && self.flags.prefill_batched {
            self.prefill_cache_state_batched(prompt)
        } else {
            self.prefill_cache_state_tokenwise(prompt)
        }
    }

    /// Takes further tokens through the decoder; nothing happens without any.
    pub fn extend_prefix_cache_suffix(&self, state: &mut Prefilled<K::Cell>, suffix: &Vec<usize>) -> (out: Result<(), InferError>)
        requires
            self.wf(),
            is_prefilled(*old(state)),
        ensures
            out matches Err(error) ==> error.is_misfit(self.complete()),
            final(state).0@.wf(),
            final(state).1.is_matrix() && final(state).1.shape@[0] == 1,
            suffix@.len() == 0 ==> out is Ok && *final(state) == *old(state),
            suffix@.len() > 0 && !self.fits(old(state).0@) ==> (out matches Err(error) && error is Dimension),
            suffix@.len() > 0 && functional(self.kernel) ==> match out {
                Ok(_) => batch(*self, old(state).0@, suffix@) matches Some(made) && made.0 == final(state).0@ && made.1.last()
                    == final(state).1.rows()[0],
                Err(_) => batch(*self, old(state).0@, suffix@) is None,
            },
    {
        if suffix.len() == 0 {
            return Ok(());
        }
        let states: Tensor<K::Cell> = self.next_final_states_batched(&mut state.0, suffix)?;
        proof {
            states.lemma_rows();
        }
        let row: Vec<K::Cell> = states.last_row()?;
        state.1 = Tensor::row(row);
        Ok(())
    }
}

/// Where some of the tokens cannot go through the decoder, all of them cannot.
pub proof fn lemma_steps_none<K: Kernel>(m: DecoderModel<K>, cache: CacheView<K::Cell>, tokens: Seq<usize>, n: int)
    requires
        0 <= n <= tokens.len(),
        steps(m, cache, tokens.take(n)) is None,
    ensures
        steps(m, cache, tokens) is None,
    decreases tokens.len() - n,
{
    if n < tokens.len() {
        assert(tokens.take(n + 1).drop_last() =~= tokens.take(n));
        lemma_steps_none(m, cache, tokens, n + 1);
    } else {
        assert(tokens.take(n) =~= tokens);
    }
}

} // verus!
