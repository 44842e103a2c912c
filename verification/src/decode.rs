//! Tokens one after the other.

use vstd::prelude::*;
use crate::error::InferError;
use crate::kernel::{elapsed, functional, is_refusal, Kernel};
use crate::model::{step, CacheView, CausalDecoderCache, DecoderModel};
use crate::options::{ends_with_any, generated_matches_stop_sequence, GenerationOptions, SamplerView, TokenSampler};
use crate::sampling::sampled;
use crate::sink::{of_stream, Policy, TokenSink};
use crate::tensor::Tensor;

verus! {

/// What a generation took.
#[derive(Clone, Copy, PartialEq, Eq, Structural, Debug)]
pub struct GenerationTimings {
    /// Nanoseconds that the prompt took.
    pub prefill: u64,
    /// Nanoseconds that the tokens behind the first took.
    pub decode: u64,
    /// Number of tokens that were taken through the decoder one by one.
    pub decode_tokens: usize,
}

/// What a generation gave.
#[derive(Debug)]
pub struct GenerationOutput {
    pub tokens: Vec<usize>,
    pub timings: GenerationTimings,
}

/// Where a generation stands: the cache, the token that comes next, and the sampler.
#[verifier::ext_equal]
pub struct DecodeView<C> {
    pub cache: CacheView<C>,
    pub token: usize,
    pub sampler: SamplerView,
}

/// Where a generation stands after the next token went through the decoder.
pub open spec fn advanced<K: Kernel>(m: DecoderModel<K>, options: GenerationOptions<K::Cell>, at: DecodeView<K::Cell>) -> Option<DecodeView<K::Cell>> {
    match step(m, at.cache, at.token) {
        Some((cache, state)) => match sampled(m, m.lm_head, state, options, at.sampler) {
            Some((token, sampler)) => Some(DecodeView { cache, token, sampler }),
            None => None,
        },
        None => None,
    }
}

/// Where a generation stands before any token, given the state of its prompt.
pub open spec fn started<K: Kernel>(m: DecoderModel<K>, options: GenerationOptions<K::Cell>, cache: CacheView<K::Cell>, state: Seq<K::Cell>) -> Option<DecodeView<K::Cell>> {
    match sampled(m, m.lm_head, state, options, SamplerView::start(options.seed)) {
        Some((token, sampler)) => Some(DecodeView { cache, token, sampler }),
        None => None,
    }
}

/// The tokens that a generation gives from step `done` on, behind those it has
/// given, and the number of tokens taken through the decoder.
pub open spec fn solo<K: Kernel>(
    m: DecoderModel<K>,
    options: GenerationOptions<K::Cell>,
    policy: Policy,
    told: Seq<(usize, usize)>,
    at: DecodeView<K::Cell>,
    given: Seq<usize>,
    done: int,
    max: int,
) -> Option<(Seq<usize>, int)>
    decreases max - done,
{
    if done >= max || options.stops_at(at.token) {
        Some((given, done))
    } else {
        let now = given.push(at.token);
        let told_now = told.push((0, at.token));
        if !policy(told_now) || ends_with_any(now, options.stop_sequences@) || done + 1 >= max {
            Some((now, done))
        } else {
            match advanced(m, options, at) {
                Some(next) => solo(m, options, policy, told_now, next, now, done + 1, max),
                None => None,
            }
        }
    }
}

/// The tokens that a generation gives from the state of its prompt, and the number
/// of tokens taken through the decoder.
pub open spec fn generated<K: Kernel>(
    m: DecoderModel<K>,
    options: GenerationOptions<K::Cell>,
    policy: Policy,
    told: Seq<(usize, usize)>,
    cache: CacheView<K::Cell>,
    state: Seq<K::Cell>,
    max: int,
) -> Option<(Seq<usize>, int)> {
    if max == 0 {
        Some((Seq::empty(), 0))
    } else {
        match started(m, options, cache, state) {
            Some(at) => solo(m, options, policy, told, at, Seq::empty(), 0, max),
            None => None,
        }
    }
}

/// What holds of the tokens of any generation: there are at most `max`, none of
/// them stops it, and the sink was told of exactly these.
pub open spec fn within<C: Copy>(options: GenerationOptions<C>, tokens: Seq<usize>, max: int) -> bool {
    tokens.len() <= max && options.passes(tokens)
}

/// A generation that waits for an answer to each of its tokens.
pub struct Generation<C> {
    pub cache: CausalDecoderCache<C>,
    pub sampler: TokenSampler,
    /// The token that comes next.
    pub token: usize,
    pub tokens: Vec<usize>,
    /// Tokens taken through the decoder.
    pub done: usize,
    /// Tokens asked for.
    pub max: usize,
    /// The last token was given and waits for its answer.
    pub offers: bool,
    pub ended: bool,
    /// Nanoseconds that the prompt took.
    pub prefill: u64,
    /// Nanoseconds that the tokens behind the first took.
    pub decode: u64,
}

/// The contents of a [`Generation`].
#[verifier::ext_equal]
pub struct GenerationView<C> {
    pub at: DecodeView<C>,
    pub given: Seq<usize>,
    pub done: int,
    pub max: int,
    pub offers: bool,
    pub ended: bool,
}

impl<C> View for Generation<C> {
    type V = GenerationView<C>;

    open spec fn view(&self) -> GenerationView<C> {
        GenerationView {
            at: DecodeView { cache: self.cache@, token: self.token, sampler: self.sampler@ },
            given: self.tokens@,
            done: self.done as int,
            max: self.max as int,
            offers: self.offers,
            ended: self.ended,
        }
    }
}

/// A generation gives its next token, or ends.
pub open spec fn offered<C: Copy>(options: GenerationOptions<C>, g: GenerationView<C>) -> (GenerationView<C>, Option<usize>) {
    if g.ended || options.stops_at(g.at.token) {
        (GenerationView { ended: true, ..g }, None)
    } else {
        (GenerationView { given: g.given.push(g.at.token), offers: true, ..g }, Some(g.at.token))
    }
}

/// The token that a generation gave is to go through the decoder: more are wanted, and
/// neither a sequence to stop at nor the budget ends it.
pub open spec fn goes_on_with<C: Copy>(options: GenerationOptions<C>, g: GenerationView<C>, more: bool) -> bool {
    more && !ends_with_any(g.given, options.stop_sequences@) && g.done + 1 < g.max
}

/// A generation after the answer to its token: it has ended, or the token has gone through
/// the decoder.
pub open spec fn answered<K: Kernel>(m: DecoderModel<K>, options: GenerationOptions<K::Cell>, g: GenerationView<K::Cell>, more: bool) -> Option<GenerationView<K::Cell>> {
    if !goes_on_with(options, g, more) {
        Some(GenerationView { offers: false, ended: true, ..g })
    } else {
        match advanced(m, options, g.at) {
            Some(at) => Some(GenerationView { at, done: g.done + 1, offers: false, ..g }),
            None => None,
        }
    }
}

/// What a generation gives in the end, with answers by a policy.
pub open spec fn end_of<K: Kernel>(m: DecoderModel<K>, options: GenerationOptions<K::Cell>, policy: Policy, told: Seq<(usize, usize)>, g: GenerationView<K::Cell>) -> Option<(Seq<usize>, int)> {
    if g.ended {
        Some((g.given, g.done))
    } else {
        solo(m, options, policy, told, g.at, g.given, g.done, g.max)
    }
}

/// A generation that is answered token by token gives in the end what a generation with
/// these answers gives.
pub proof fn law_generation_step<K: Kernel>(m: DecoderModel<K>, options: GenerationOptions<K::Cell>, policy: Policy, told: Seq<(usize, usize)>, g: GenerationView<K::Cell>)
    requires
        !g.ended,
        g.done < g.max,
    ensures
        end_of(m, options, policy, told, g) == match offered(options, g) {
            (now, None) => Some((now.given, now.done)),
            (now, Some(token)) => {
                let told_now = told.push((0, token));
                match answered(m, options, now, policy(told_now)) {
                    Some(next) => end_of(m, options, policy, told_now, next),
                    None => None,
                }
            },
        },
{
}

/// The tokens before the first that a generation stops at.
pub open spec fn before_stop<C: Copy>(options: GenerationOptions<C>, tokens: Seq<usize>) -> Seq<usize>
    decreases tokens.len(),
{
    if tokens.len() == 0 || options.stops_at(tokens[0]) {
        Seq::empty()
    } else {
        seq![tokens[0]] + before_stop(options, tokens.skip(1))
    }
}

/// The options without tokens to stop at, and the same otherwise.
pub open spec fn never_stops<C: Copy>(free: GenerationOptions<C>, options: GenerationOptions<C>) -> bool {
    &&& free == (GenerationOptions { stop_token_ids: free.stop_token_ids, ..options })
    &&& free.stop_token_ids@.len() == 0
}

/// From any step on, tokens to stop at only cut off what is given behind that step.
#[verifier::spinoff_prover]
proof fn lemma_solo_stops<K: Kernel>(
    m: DecoderModel<K>,
    options: GenerationOptions<K::Cell>,
    free: GenerationOptions<K::Cell>,
    policy: Policy,
    told: Seq<(usize, usize)>,
    at: DecodeView<K::Cell>,
    given: Seq<usize>,
    done: int,
    max: int,
)
    requires
        never_stops(free, options),
    ensures
        solo(m, free, policy, told, at, given, done, max) matches Some(all) ==> {
            &&& all.0.len() >= given.len()
            &&& all.0.take(given.len() as int) == given
            &&& solo(m, options, policy, told, at, given, done, max) matches Some(some) && some.0 == given + before_stop(
                options,
                all.0.skip(given.len() as int),
            )
        },
    decreases max - done,
{
    if solo(m, free, policy, told, at, given, done, max) is Some {
        let all = (solo(m, free, policy, told, at, given, done, max)->0).0;
        let n = given.len() as int;
        if done >= max {
            assert(all.take(n) =~= given);
            assert(given + before_stop(options, all.skip(n)) =~= given);
        } else {
            let now = given.push(at.token);
            let told_now = told.push((0, at.token));
            if !policy(told_now) || ends_with_any(now, options.stop_sequences@) || done + 1 >= max {
                assert(all == now);
            } else {
                assert(advanced(m, free, at) == advanced(m, options, at));
                lemma_solo_stops(m, options, free, policy, told_now, advanced(m, free, at)->0, now, done + 1, max);
            }
            assert(all.take(n + 1) =~= now);
            assert(all.take(n) =~= given);
            assert(all[n] == all.take(n + 1)[n]);
            let tail = all.skip(n);
            assert(tail[0] == at.token);
            assert(tail.skip(1) =~= all.skip(n + 1));
            if options.stops_at(at.token) {
                assert(given + before_stop(options, tail) =~= given);
            } else {
                assert(given + before_stop(options, tail) =~= now + before_stop(options, all.skip(n + 1)));
            }
        }
    }
}

/// Tokens to stop at only cut the result off before the first of them. Where the generation
/// that stops at none succeeds, so does the one that does.
pub proof fn law_stop_tokens_cut<K: Kernel>(
    m: DecoderModel<K>,
    options: GenerationOptions<K::Cell>,
    free: GenerationOptions<K::Cell>,
    policy: Policy,
    told: Seq<(usize, usize)>,
    cache: CacheView<K::Cell>,
    state: Seq<K::Cell>,
    max: int,
)
    requires
        never_stops(free, options),
    ensures
        generated(m, free, policy, told, cache, state, max) matches Some(all) ==> (generated(m, options, policy, told, cache, state, max) matches Some(
            some,
        ) && some.0 == before_stop(options, all.0)),
{
    assert(started(m, free, cache, state) == started(m, options, cache, state));
    if max != 0 && started(m, free, cache, state) is Some {
        let at = started(m, free, cache, state)->0;
        lemma_solo_stops(m, options, free, policy, told, at, Seq::empty(), 0, max);
        if generated(m, free, policy, told, cache, state, max) is Some {
            let all = (generated(m, free, policy, told, cache, state, max)->0).0;
            assert(all.skip(0) =~= all);
            assert(Seq::empty() + before_stop(options, all) =~= before_stop(options, all));
        }
    } else if max == 0 {
        assert(before_stop(options, Seq::empty()) =~= Seq::empty());
    }
}

/// From any step on, a larger budget only adds tokens behind.
#[verifier::spinoff_prover]
proof fn lemma_solo_budget<K: Kernel>(
    m: DecoderModel<K>,
    options: GenerationOptions<K::Cell>,
    policy: Policy,
    told: Seq<(usize, usize)>,
    at: DecodeView<K::Cell>,
    given: Seq<usize>,
    done: int,
    max: int,
    larger: int,
)
    requires
        done == given.len(),
        done < max <= larger,
    ensures
        solo(m, options, policy, told, at, given, done, larger) matches Some(long) ==> {
            &&& solo(m, options, policy, told, at, given, done, max) matches Some(short) && short.0.is_prefix_of(long.0) && (short.0.len() == max
                || short.0 == long.0)
        },
        solo(m, options, policy, told, at, given, done, max) matches Some(short) ==> short.0.len() <= max && (short.0.len() < max ==> solo(
            m,
            options,
            policy,
            told,
            at,
            given,
            done,
            larger,
        ) == Some(short)),
        solo(m, options, policy, told, at, given, done, larger) matches Some(long) ==> given.is_prefix_of(long.0),
    decreases max - done,
{
    if !options.stops_at(at.token) {
        let now = given.push(at.token);
        let told_now = told.push((0, at.token));
        assert(now.take(done) =~= given);
        if !policy(told_now) || ends_with_any(now, options.stop_sequences@) {
        } else if done + 1 >= max {
            lemma_solo_starts(m, options, policy, told, at, given, done, larger);
        } else if advanced(m, options, at) is Some {
            lemma_solo_budget(m, options, policy, told_now, advanced(m, options, at)->0, now, done + 1, max, larger);
            if solo(m, options, policy, told, at, given, done, larger) is Some {
                let long = (solo(m, options, policy, told, at, given, done, larger)->0).0;
                assert(long.take(done + 1).take(done) =~= long.take(done));
            }
        }
    }
}

/// What a generation has given stays given, and the token that comes next comes next.
proof fn lemma_solo_starts<K: Kernel>(
    m: DecoderModel<K>,
    options: GenerationOptions<K::Cell>,
    policy: Policy,
    told: Seq<(usize, usize)>,
    at: DecodeView<K::Cell>,
    given: Seq<usize>,
    done: int,
    max: int,
)
    ensures
        solo(m, options, policy, told, at, given, done, max) matches Some(all) ==> {
            &&& given.is_prefix_of(all.0)
            &&& done < max && !options.stops_at(at.token) ==> given.push(at.token).is_prefix_of(all.0)
        },
    decreases max - done,
{
    if done < max && !options.stops_at(at.token) {
        let now = given.push(at.token);
        let told_now = told.push((0, at.token));
        assert(now.take(given.len() as int) =~= given);
        if policy(told_now) && !ends_with_any(now, options.stop_sequences@) && done + 1 < max && advanced(m, options, at) is Some {
            lemma_solo_starts(m, options, policy, told_now, advanced(m, options, at)->0, now, done + 1, max);
            if solo(m, options, policy, told, at, given, done, max) is Some {
                let all = (solo(m, options, policy, told, at, given, done, max)->0).0;
                assert(all.take(now.len() as int).take(given.len() as int) =~= all.take(given.len() as int));
            }
        }
    }
}

/// A larger budget only adds tokens behind those of a smaller one. Where the generation with
/// the larger budget succeeds, so does the other; and one that gives fewer tokens than it may
/// gives the same with any larger budget.
pub proof fn law_budget_extends<K: Kernel>(
    m: DecoderModel<K>,
    options: GenerationOptions<K::Cell>,
    policy: Policy,
    told: Seq<(usize, usize)>,
    cache: CacheView<K::Cell>,
    state: Seq<K::Cell>,
    max: int,
    larger: int,
)
    requires
        0 <= max <= larger,
    ensures
        generated(m, options, policy, told, cache, state, larger) matches Some(long) ==> (generated(m, options, policy, told, cache, state, max) matches Some(
            short,
        ) && short.0.is_prefix_of(long.0) && (short.0.len() == max || short.0 == long.0)),
        generated(m, options, policy, told, cache, state, max) matches Some(short) ==> short.0.len() <= max && (short.0.len() < max ==> generated(
            m,
            options,
            policy,
            told,
            cache,
            state,
            larger,
        ) == Some(short)),
{
    if max > 0 && started(m, options, cache, state) is Some {
        lemma_solo_budget(m, options, policy, told, started(m, options, cache, state)->0, Seq::empty(), 0, max, larger);
    }
}

impl<C: Copy> Generation<C> {
    pub open spec fn wf(&self) -> bool {
        &&& self.cache@.wf()
        &&& !self.ended ==> self.done < self.max
        &&& !self.ended ==> self.tokens@.len() == self.done + (if self.offers { 1int } else { 0int })
        &&& self.ended ==> !self.offers
        &&& self.tokens@.len() <= self.max
    }

    /// Gives the next token, or ends.
    pub fn offer(&mut self, options: &GenerationOptions<C>) -> (token: Option<usize>)
        requires
            old(self).wf(),
            !old(self).offers,
        ensures
            final(self).wf(),
            final(self).prefill == old(self).prefill,
            final(self).decode == old(self).decode,
            (final(self)@, token) == offered(*options, old(self)@),
    {
        if self.ended || options.is_stop_token(self.token) {
            self.ended = true;
            return None;
        }
        self.tokens.push(self.token);
        self.offers = true;
        Some(self.token)
    }

    /// Takes the answer to the token that was given: whether more are wanted. Says whether
    /// the token is then to go through the decoder; the generation has ended where not.
    pub fn hear(&mut self, options: &GenerationOptions<C>, more: bool) -> (goes_on: bool)
        requires
            old(self).wf(),
            old(self).offers,
        ensures
            final(self).wf(),
            goes_on == goes_on_with(*options, old(self)@, more),
            goes_on ==> *final(self) == *old(self),
            !goes_on ==> final(self)@ == (GenerationView { offers: false, ended: true, ..old(self)@ }),
            final(self).tokens == old(self).tokens,
            final(self).prefill == old(self).prefill,
            final(self).decode == old(self).decode,
    {
        if !more || generated_matches_stop_sequence(&self.tokens, &options.stop_sequences) || self.done + 1 >= self.max {
            self.offers = false;
            self.ended = true;
            return false;
        }
        true
    }

    /// Takes the token that follows the last one, and the nanoseconds that it took.
    pub fn take_token(&mut self, token: usize, passed: u64)
        requires
            old(self).wf(),
            old(self).offers,
            old(self).done + 1 < old(self).max,
        ensures
            final(self).wf(),
            final(self)@ == (GenerationView {
                at: DecodeView { token, ..old(self)@.at },
                done: old(self)@.done + 1,
                offers: false,
                ..old(self)@
            }),
            final(self).tokens == old(self).tokens,
            final(self).prefill == old(self).prefill,
            final(self).decode == if old(self).decode + passed > u64::MAX {
                u64::MAX as int
            } else {
                old(self).decode + passed
            },
    {
        self.token = token;
        self.decode = match self.decode.checked_add(passed) {
            Some(sum) => sum,
            None => u64::MAX,
        };
        self.done = self.done + 1;
        self.offers = false;
    }
}

impl<K: Kernel> DecoderModel<K> {
    /// The state of the decoder after one more token.
    pub fn next_decode_state(&self, cache: &mut CausalDecoderCache<K::Cell>, token: usize) -> (out: Result<Tensor<K::Cell>, InferError>)
        requires
            self.wf(),
            old(cache)@.wf(),
        ensures
            out matches Err(error) ==> error.is_misfit(self.complete()),
            final(cache)@.wf(),
            final(cache)@.layers.len() == old(cache)@.layers.len(),
            out matches Ok(out) ==> out.is_matrix() && out.shape@[0] == 1 && out.cols() == self.hidden(),
            functional(self.kernel) ==> match out {
                Ok(out) => step(*self, old(cache)@, token) == Some((final(cache)@, out.rows()[0])),
                Err(_) => step(*self, old(cache)@, token) is None,
            },
    {
        self.next_final_state_cached(cache, token)
    }

    /// Starts a generation from a cache and the state its last token left.
    pub fn open_generation(&self, cache: CausalDecoderCache<K::Cell>, final_state: &Tensor<K::Cell>, prefill: u64, max_new_tokens: usize, options: &GenerationOptions<K::Cell>) -> (out: Result<
        Generation<K::Cell>,
        InferError,
    >)
        requires
            self.wf(),
            cache@.wf(),
            final_state.is_matrix(),
            final_state.shape@[0] == 1,
        ensures
            out matches Err(error) ==> is_refusal(self.kernel, error, true),
            max_new_tokens == 0 ==> out is Ok,
            out matches Ok(run) ==> {
                &&& run.wf()
                &&& !run@.offers
                &&& run.max == max_new_tokens
                &&& run.tokens@.len() == 0
                &&& run.done == 0
                &&& run.ended == (max_new_tokens == 0)
                &&& run.prefill == prefill
                &&& run.decode == 0
            },
            max_new_tokens > 0 && functional(self.kernel) ==> match out {
                Ok(run) => started(*self, *options, cache@, final_state.rows()[0]) == Some(run@.at),
                Err(_) => started(*self, *options, cache@, final_state.rows()[0]) is None,
            },
    {
        let mut sampler: TokenSampler = TokenSampler::new(options.seed);
        let token: usize = if max_new_tokens == 0 {
            0
        } else {
            self.sample_token_from_state(final_state, options, &mut sampler)?
        };
        Ok(
            Generation {
                cache,
                sampler,
                token,
                tokens: Vec::new(),
                done: 0,
                max: max_new_tokens,
                offers: false,
                ended: max_new_tokens == 0,
                prefill,
                decode: 0,
            },
        )
    }

    /// Takes the answer to the token that a generation gave: whether more are wanted. The
    /// generation ends, or its token goes through the decoder.
    pub fn answer_generation(&self, run: &mut Generation<K::Cell>, options: &GenerationOptions<K::Cell>, more: bool) -> (out: Result<(), InferError>)
        requires
            self.wf(),
            old(run).wf(),
            old(run).offers,
        ensures
            out matches Err(error) ==> is_refusal(self.kernel, error, self.complete()),
            !more ==> out is Ok,
            final(run).tokens == old(run).tokens,
            final(run).max == old(run).max,
            final(run).prefill == old(run).prefill,
            out is Ok ==> final(run).wf() && !final(run).offers,
            out is Ok ==> final(run).done == old(run).done + (if final(run).ended { 0int } else { 1int }),
            functional(self.kernel) ==> match out {
                Ok(_) => answered(*self, *options, old(run)@, more) == Some(final(run)@),
                Err(_) => answered(*self, *options, old(run)@, more) is None,
            },
    {
        if !run.hear(options, more) {
            return Ok(());
        }
        let begun: u64 = self.kernel.nanoseconds();
        let state: Tensor<K::Cell> = self.next_decode_state(&mut run.cache, run.token)?;
        let token: usize = self.sample_token_from_state(&state, options, &mut run.sampler)?;
        let passed: u64 = elapsed(&self.kernel, begun);
        run.take_token(token, passed);
        Ok(())
    }

    /// Generates from a cache and the state its last token left.
    #[verifier::spinoff_prover]
    pub fn generate_greedy_timed_from_prefilled_state<S: TokenSink>(
        &self,
        cache: CausalDecoderCache<K::Cell>,
        final_state: Tensor<K::Cell>,
        prefill: u64,
        max_new_tokens: usize,
        options: &GenerationOptions<K::Cell>,
        sink: &mut S,
    ) -> (out: Result<GenerationOutput, InferError>)
        requires
            self.wf(),
            cache@.wf(),
            final_state.is_matrix(),
            final_state.shape@[0] == 1,
        ensures
            out matches Err(error) ==> is_refusal(self.kernel, error, self.complete()),
            final(sink).policy() == old(sink).policy(),
            out matches Ok(out) ==> {
                &&& within(*options, out.tokens@, max_new_tokens as int)
                &&& out.timings.prefill == prefill
                &&& max_new_tokens == 0 ==> out.timings.decode == 0 && out.timings.decode_tokens == 0
                &&& final(sink).told() == old(sink).told() + of_stream(0, out.tokens@)
            },
            functional(self.kernel) ==> match out {
                Ok(out) => generated(
                    *self,
                    *options,
                    old(sink).policy(),
                    old(sink).told(),
                    cache@,
                    final_state.rows()[0],
                    max_new_tokens as int,
                ) == Some((out.tokens@, out.timings.decode_tokens as int)),
                Err(_) => generated(
                    *self,
                    *options,
                    old(sink).policy(),
                    old(sink).told(),
                    cache@,
                    final_state.rows()[0],
                    max_new_tokens as int,
                ) is None,
            },
    {
        let ghost start = cache@;
        let ghost state = final_state.rows()[0];
        let ghost told = sink.told();
        let ghost policy = sink.policy();
        let ghost whole = generated(*self, *options, policy, told, start, state, max_new_tokens as int);
        let mut run: Generation<K::Cell> = self.open_generation(cache, &final_state, prefill, max_new_tokens, options)?;
        proof {
            assert(run.tokens@ =~= Seq::<usize>::empty());
            assert(told + of_stream(0, run.tokens@) =~= told);
        }
        while !run.ended
            invariant
                self.wf(),
                run.wf(),
                !run.offers,
                run.max == max_new_tokens,
                run.prefill == prefill,
                max_new_tokens == 0 ==> run.ended && run.decode == 0 && run.done == 0,
                start == cache@,
                state == final_state.rows()[0],
                whole == generated(*self, *options, policy, told, start, state, max_new_tokens as int),
                told == old(sink).told(),
                policy == old(sink).policy(),
                sink.policy() == policy,
                within(*options, run.tokens@, max_new_tokens as int),
                sink.told() == told + of_stream(0, run.tokens@),
                functional(self.kernel) ==> whole == end_of(*self, *options, policy, sink.told(), run@),
            decreases max_new_tokens - run.done + (if run.ended { 0int } else { 1int }),
        {
            let ghost before = run@;
            proof {
                law_generation_step(*self, *options, policy, sink.told(), before);
            }
            if let Some(token) = run.offer(options) {
                proof {
                    assert((told + of_stream(0, before.given)).push((0, token)) =~= told + of_stream(0, run.tokens@));
                }
                let more: bool = sink.on_token(0, token);
                self.answer_generation(&mut run, options, more)?;
            }
        }
        Ok(
            GenerationOutput {
                tokens: run.tokens,
                timings: GenerationTimings { prefill, decode: run.decode, decode_tokens: run.done },
            },
        )
    }
}

} // verus!
