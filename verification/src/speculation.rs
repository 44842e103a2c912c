//! Guessed tokens, checked in one batch.

use vstd::prelude::*;
use crate::error::InferError;
use crate::kernel::{functional, is_refusal, speculate, speculate_of, Kernel};
use crate::model::{batch, steps, CacheView, CausalDecoderCache, DecoderModel};
use crate::options::{hot, is_hot, may_be_hot, GenerationOptions, SamplerView, TokenSampler};
use crate::prefill::lemma_steps_none;
use crate::sampling::{odds_of, sampled};
use crate::stats::{SpeculativeStats, StatsView};
use crate::tensor::Tensor;

verus! {

/// What a generation that guesses gives.
#[derive(Debug)]
pub struct SpeculativeOutput {
    pub tokens: Vec<usize>,
    pub stats: SpeculativeStats,
    /// Nanoseconds that the tokens took.
    pub loop_duration: u64,
}

/// Where a generation that guesses stands.
pub struct Speculation<C> {
    pub cache: CausalDecoderCache<C>,
    pub final_state: Tensor<C>,
    /// The token that comes next.
    pub pending: usize,
    pub generated: Vec<usize>,
    pub sampler: TokenSampler,
    pub stats: SpeculativeStats,
}

/// The contents of a [`Speculation`].
#[verifier::ext_equal]
pub struct SpecView<C> {
    pub cache: CacheView<C>,
    pub state: Seq<C>,
    pub pending: usize,
    pub generated: Seq<usize>,
    pub sampler: SamplerView,
    pub stats: StatsView,
}

impl<C> View for Speculation<C> {
    type V = SpecView<C>;

    open spec fn view(&self) -> SpecView<C> {
        SpecView {
            cache: self.cache@,
            state: self.final_state.rows()[0],
            pending: self.pending,
            generated: self.generated@,
            sampler: self.sampler@,
            stats: self.stats@,
        }
    }
}

impl<C> Speculation<C> {
    pub open spec fn wf(&self) -> bool {
        &&& self.cache@.wf()
        &&& self.final_state.is_matrix()
        &&& self.final_state.shape@[0] == 1
    }
}

/// A cache to go back to.
pub struct SpeculativeCacheSnapshot<C> {
    pub cpu: CausalDecoderCache<C>,
}

/// What a check of guesses leads to.
pub struct MtpVerifyResult<C> {
    /// Every guess held, and there is room for more.
    pub accepted_all: bool,
    /// The last token that was given.
    pub verify_token: usize,
    /// The guesses that held, each with the state it was read from.
    pub accepted_history: Vec<(Tensor<C>, usize)>,
}

/// The contents of a [`MtpVerifyResult`].
#[verifier::ext_equal]
pub struct JudgedView<C> {
    pub all: bool,
    pub last: usize,
    pub history: Seq<(Seq<C>, usize)>,
}

pub open spec fn history_view<C>(history: Seq<(Tensor<C>, usize)>) -> Seq<(Seq<C>, usize)> {
    Seq::new(history.len(), |i: int| (history[i].0.rows()[0], history[i].1))
}

impl<C> View for MtpVerifyResult<C> {
    type V = JudgedView<C>;

    open spec fn view(&self) -> JudgedView<C> {
        JudgedView { all: self.accepted_all, last: self.verify_token, history: history_view(self.accepted_history@) }
    }
}

impl<C> MtpVerifyResult<C> {
    pub open spec fn wf(&self) -> bool {
        forall|i: int|
            0 <= i < self.accepted_history@.len() ==> (#[trigger] self.accepted_history@[i]).0.is_matrix() && self.accepted_history@[i].0.shape@[0] == 1
    }
}

/// The probabilities that guesses were drawn with, where they were drawn.
pub open spec fn odds_view<C>(odds: Seq<Option<Vec<C>>>) -> Seq<Option<Seq<C>>> {
    Seq::new(
        odds.len(),
        |i: int|
            match odds[i] {
                Some(row) => Some(row@),
                None => None,
            },
    )
}

/// The token that follows a state, and whether the guess holds against it. Where
/// tokens are drawn, the probabilities that the guess was drawn with decide too.
pub open spec fn target_of<K: Kernel>(m: DecoderModel<K>, options: GenerationOptions<K::Cell>, state: Seq<K::Cell>, odds: Option<Seq<K::Cell>>, draft: usize, sampler: SamplerView) -> Option<(usize, bool, SamplerView)> {
    if hot(m.kernel, options) {
        match (odds_of(m, m.lm_head, state, options), odds) {
            (Some(target), Some(odds)) => match speculate_of(m.kernel, target, odds, draft, sampler.random) {
                Some((token, held, random)) => Some((token, held, SamplerView { random, ..sampler })),
                None => None,
            },
            _ => None,
        }
    } else {
        match sampled(m, m.lm_head, state, options, sampler) {
            Some((token, after)) => Some((token, draft == token, after)),
            None => None,
        }
    }
}

/// The odds of a guess, where they are there.
pub open spec fn odds_at<C>(odds: Seq<Option<Seq<C>>>, position: int) -> Option<Seq<C>> {
    if position < odds.len() {
        odds[position]
    } else {
        None
    }
}

/// Where a check of guesses stands.
#[verifier::ext_equal]
pub struct Verdict<C> {
    pub generated: Seq<usize>,
    pub stats: StatsView,
    pub sampler: SamplerView,
    pub pending: usize,
    pub last: usize,
    pub history: Seq<(Seq<C>, usize)>,
    /// The position at which the check ended, where it did before the last.
    pub ended: Option<int>,
}

/// The check of the guess at `position`.
pub open spec fn judge_one<K: Kernel>(m: DecoderModel<K>, options: GenerationOptions<K::Cell>, states: Seq<Seq<K::Cell>>, drafts: Seq<usize>, odds: Seq<Option<Seq<K::Cell>>>, max: int, position: int, v: Verdict<K::Cell>) -> Option<Verdict<K::Cell>> {
    match target_of(m, options, states[position], odds_at(odds, position), drafts[position], v.sampler) {
        Some((target, held, sampler)) => {
            let stats = v.stats.judged(position, held);
            if options.stops_at(target) || !held {
                Some(Verdict { stats, sampler, pending: target, ended: Some(position), ..v })
            } else {
                let draft = drafts[position];
                let generated = v.generated.push(draft);
                Some(
                    Verdict {
                        generated,
                        stats,
                        sampler,
                        last: draft,
                        history: v.history.push((states[position], draft)),
                        ended: if generated.len() >= max { Some(position) } else { None },
                        ..v
                    },
                )
            }
        },
        None => None,
    }
}

/// The checks of the guesses from `position` on, up to the first that ends them.
pub open spec fn judge_from<K: Kernel>(m: DecoderModel<K>, options: GenerationOptions<K::Cell>, states: Seq<Seq<K::Cell>>, drafts: Seq<usize>, odds: Seq<Option<Seq<K::Cell>>>, max: int, position: int, v: Verdict<K::Cell>) -> Option<Verdict<K::Cell>>
    decreases drafts.len() - position,
{
    if position >= drafts.len() || v.ended is Some {
        Some(v)
    } else {
        match judge_one(m, options, states, drafts, odds, max, position, v) {
            Some(next) => judge_from(m, options, states, drafts, odds, max, position + 1, next),
            None => None,
        }
    }
}

/// The tokens that guesses are checked behind: the one that was given, and all
/// guesses but the last.
pub open spec fn checked_tokens(primary: usize, drafts: Seq<usize>) -> Seq<usize> {
    seq![primary] + drafts.drop_last()
}

/// The tokens that drafts are checked behind: the one that was given, and all drafts but the
/// last.
pub fn tokens_to_check(primary: usize, drafts: &Vec<usize>) -> (tokens: Vec<usize>)
    ensures
        drafts@.len() > 0 ==> tokens@ == checked_tokens(primary, drafts@),
        drafts@.len() == 0 ==> tokens@.len() == 0,
{
    let n: usize = drafts.len();
    let mut tokens: Vec<usize> = Vec::new();
    if n == 0 {
        return tokens;
    }
    tokens.push(primary);
    for i in 0..n - 1
        invariant
            n == drafts@.len(),
            n > 0,
            tokens@ == seq![primary] + drafts@.take(i as int),
    {
        tokens.push(drafts[i]);
        assert(seq![primary] + drafts@.take(i + 1) =~= (seq![primary] + drafts@.take(i as int)).push(drafts@[i as int]));
    }
    assert(drafts@.take(n - 1) =~= drafts@.drop_last());
    tokens
}

/// The cache and state that a check leaves: those of the whole batch where all of
/// it was used, and those of the tokens used, one after the other, elsewhere.
pub open spec fn landed<K: Kernel>(m: DecoderModel<K>, before: CacheView<K::Cell>, after: CacheView<K::Cell>, states: Seq<Seq<K::Cell>>, tokens: Seq<usize>, ended: Option<int>) -> Option<(CacheView<K::Cell>, Seq<K::Cell>)> {
    match ended {
        Some(position) => if position + 1 < tokens.len() {
            match steps(m, before, tokens.take(position + 1)) {
                Some((cache, replayed)) => Some((cache, replayed.last())),
                None => None,
            }
        } else {
            Some((after, states[position]))
        },
        None => Some((after, states[tokens.len() - 1])),
    }
}

/// The check of guesses behind `primary`: where the generation then stands, and
/// what it leads to.
pub open spec fn verified<K: Kernel>(m: DecoderModel<K>, options: GenerationOptions<K::Cell>, s: SpecView<K::Cell>, drafts: Seq<usize>, odds: Seq<Option<Seq<K::Cell>>>, primary: usize, max: int) -> Option<(SpecView<K::Cell>, JudgedView<K::Cell>)> {
    if drafts.len() == 0 {
        Some((s, JudgedView { all: true, last: primary, history: Seq::empty() }))
    } else {
        let tokens = checked_tokens(primary, drafts);
        match batch(m, s.cache, tokens) {
            Some((after, states)) => match judge_from(m, options, states, drafts, odds, max, 0, opening(s, primary)) {
                Some(v) => match landed(m, s.cache, after, states, tokens, v.ended) {
                    Some((cache, state)) => Some(
                        (
                            SpecView {
                                cache,
                                state,
                                pending: v.pending,
                                generated: v.generated,
                                sampler: v.sampler,
                                stats: v.stats,
                            },
                            JudgedView { all: v.ended is None, last: v.last, history: v.history },
                        ),
                    ),
                    None => None,
                },
                None => None,
            },
            None => None,
        }
    }
}

/// Where a check of guesses stands before the first.
pub open spec fn opening<C>(s: SpecView<C>, primary: usize) -> Verdict<C> {
    Verdict {
        generated: s.generated,
        stats: s.stats,
        sampler: s.sampler,
        pending: s.pending,
        last: primary,
        history: Seq::empty(),
        ended: None,
    }
}

/// A check only adds tokens.
pub proof fn lemma_judge_grows<K: Kernel>(m: DecoderModel<K>, options: GenerationOptions<K::Cell>, states: Seq<Seq<K::Cell>>, drafts: Seq<usize>, odds: Seq<Option<Seq<K::Cell>>>, max: int, position: int, v: Verdict<K::Cell>)
    ensures
        judge_from(m, options, states, drafts, odds, max, position, v) matches Some(out) ==> out.generated.len() >= v.generated.len(),
    decreases drafts.len() - position,
{
    if position < drafts.len() && v.ended is None {
        let next = judge_one(m, options, states, drafts, odds, max, position, v);
        if next is Some {
            lemma_judge_grows(m, options, states, drafts, odds, max, position + 1, next->0);
        }
    }
}

/// Guesses that can be checked: where tokens are drawn, the probabilities of every guess
/// are there.
pub open spec fn armed<K: Kernel>(k: K, options: GenerationOptions<K::Cell>, odds: Seq<Option<Vec<K::Cell>>>, count: int) -> bool {
    hot(k, options) ==> odds.len() >= count && forall|i: int| 0 <= i < count ==> (#[trigger] odds[i]) is Some
}

impl<K: Kernel> DecoderModel<K> {
    /// A copy of a cache to go back to.
    pub fn snapshot_speculative_cache(&self, cache: &CausalDecoderCache<K::Cell>) -> (snapshot: SpeculativeCacheSnapshot<K::Cell>)
        ensures
            snapshot.cpu@ == cache@,
    {
        SpeculativeCacheSnapshot { cpu: cache.duplicate() }
    }

    /// Goes back to a cache. Refused where it is of another decoder.
    pub fn restore_speculative_cache(&self, cache: &mut CausalDecoderCache<K::Cell>, snapshot: SpeculativeCacheSnapshot<K::Cell>) -> (out: Result<(), InferError>)
        ensures
            out is Ok <==> old(cache)@.layers.len() == snapshot.cpu@.layers.len(),
            out is Ok ==> final(cache)@ == snapshot.cpu@,
            out matches Err(error) ==> error is Dimension && final(cache)@ == old(cache)@,
    {
        if cache.layers.len() != snapshot.cpu.layers.len() {
            return Err(InferError::Dimension("snapshot and cache differ in layers"));
        }
        *cache = snapshot.cpu;
        Ok(())
    }

    /// Goes back to a cache and takes the first of some tokens through the decoder
    /// from there. Refused where there is no cache to go back to.
    pub fn restore_mtp_snapshot_replay(
        &self,
        cache: &mut CausalDecoderCache<K::Cell>,
        snapshot: Option<SpeculativeCacheSnapshot<K::Cell>>,
        verify_tokens: &Vec<usize>,
        replay_len: usize,
        final_state: &mut Tensor<K::Cell>,
    ) -> (out: Result<(), InferError>)
        requires
            self.wf(),
            old(cache)@.wf(),
            snapshot matches Some(snapshot) ==> snapshot.cpu@.wf(),
            old(final_state).is_matrix(),
            old(final_state).shape@[0] == 1,
            replay_len <= verify_tokens@.len(),
        ensures
            final(cache)@.wf(),
            final(final_state).is_matrix(),
            final(final_state).shape@[0] == 1,
            snapshot is None ==> (out matches Err(error) && error is Config),
            snapshot is Some ==> (out matches Err(error) ==> error.is_misfit(self.complete())),
            snapshot is Some && (snapshot->0).cpu@.layers.len() != old(cache)@.layers.len() ==> (out matches Err(error) && error is Dimension),
            functional(self.kernel) && snapshot is Some && (snapshot->0).cpu@.layers.len() == old(cache)@.layers.len() ==> match out {
                Ok(_) => {
                    &&& steps(*self, (snapshot->0).cpu@, verify_tokens@.take(replay_len as int)) matches Some(made)
                    &&& made.0 == final(cache)@
                    &&& replay_len == 0 ==> *final(final_state) == *old(final_state)
                    &&& replay_len > 0 ==> made.1.last() == final(final_state).rows()[0]
                },
                Err(_) => steps(*self, (snapshot->0).cpu@, verify_tokens@.take(replay_len as int)) is None,
            },
    {
        let kept: SpeculativeCacheSnapshot<K::Cell> = match snapshot {
            Some(kept) => kept,
            None => {
                return Err(InferError::Config("no cache to go back to"));
            },
        };
        let ghost start = kept.cpu@;
        let ghost first = *final_state;
        self.restore_speculative_cache(cache, kept)?;
        let ghost mut states: Seq<Seq<K::Cell>> = Seq::empty();
        assert(verify_tokens@.take(0) =~= Seq::<usize>::empty());
        let mut i: usize = 0;
        while i < replay_len
            invariant
                i <= replay_len <= verify_tokens@.len(),
                self.wf(),
                cache@.wf(),
                final_state.is_matrix(),
                final_state.shape@[0] == 1,
                states.len() == i,
                i == 0 ==> *final_state == first,
                first == *old(final_state),
                snapshot is Some,
                start == (snapshot->0).cpu@,
                start.layers.len() == old(cache)@.layers.len(),
                functional(self.kernel) ==> steps(*self, start, verify_tokens@.take(i as int)) == Some((cache@, states)),
                functional(self.kernel) && i > 0 ==> states.last() == final_state.rows()[0],
            decreases replay_len - i,
        {
            proof {
                assert(verify_tokens@.take(i + 1).drop_last() =~= verify_tokens@.take(i as int));
            }
            match self.next_decode_state(cache, verify_tokens[i]) {
                Ok(next) => {
                    proof {
                        states = states.push(next.rows()[0]);
                    }
                    *final_state = next;
                },
                Err(error) => {
                    proof {
                        if functional(self.kernel) {
                            let tokens = verify_tokens@.take(replay_len as int);
                            assert(tokens.take(i + 1) =~= verify_tokens@.take(i + 1));
                            lemma_steps_none(*self, start, tokens, i + 1);
                        }
                    }
                    return Err(error);
                },
            }
            i = i + 1;
        }
        Ok(())
    }

    /// Checks a guess against the state it follows. Refused where tokens are drawn
    /// and the probabilities of the guess are not there.
    pub fn judge_draft(&self, target_state: &Tensor<K::Cell>, odds: Option<&Vec<K::Cell>>, draft: usize, options: &GenerationOptions<K::Cell>, sampler: &mut TokenSampler) -> (out: Result<(usize, bool), InferError>)
        requires
            self.wf(),
            target_state.is_matrix(),
            target_state.shape@[0] == 1,
        ensures
            !may_be_hot(self.kernel, *options) ==> (out matches Ok(out) ==> out.1 == (draft == out.0)),
            out matches Err(error) ==> is_refusal(self.kernel, error, true) || (error is Config && odds is None && (functional(self.kernel) ==> hot(self.kernel, *options))),
            functional(self.kernel) ==> match out {
                Ok(out) => target_of(
                    *self,
                    *options,
                    target_state.rows()[0],
                    match odds {
                        Some(odds) => Some(odds@),
                        None => None,
                    },
                    draft,
                    old(sampler)@,
                ) == Some((out.0, out.1, final(sampler)@)),
                Err(_) => target_of(
                    *self,
                    *options,
                    target_state.rows()[0],
                    match odds {
                        Some(odds) => Some(odds@),
                        None => None,
                    },
                    draft,
                    old(sampler)@,
                ) is None,
            },
    {
        if is_hot(&self.kernel, options) {
            let target_odds: Vec<K::Cell> = self.token_distribution_from_state(target_state, options)?;
            match odds {
                Some(draft_odds) => {
                    let (token, held, random) = speculate(&self.kernel, &target_odds, draft_odds, draft, sampler.random)?;
                    sampler.random = random;
                    assert(sampler@ =~= SamplerView { random, ..old(sampler)@ });
                    Ok((token, held))
                },
                None => Err(InferError::Config("a drawn guess without its probabilities")),
            }
        } else {
            let token: usize = self.sample_token_from_state(target_state, options, sampler)?;
            Ok((token, draft == token))
        }
    }

    /// Checks guesses against the states of their batch, up to the first that ends
    /// the check: where it ended, the last token given, and the guesses that held.
    fn judge_drafts(
        &self,
        run: &mut Speculation<K::Cell>,
        states: &Tensor<K::Cell>,
        drafts: &Vec<usize>,
        draft_distributions: &Vec<Option<Vec<K::Cell>>>,
        primary: usize,
        max_new_tokens: usize,
        options: &GenerationOptions<K::Cell>,
        Ghost(limit): Ghost<int>,
    ) -> (out: Result<(Option<usize>, MtpVerifyResult<K::Cell>), InferError>)
        requires
            self.wf(),
            old(run).wf(),
            states.is_matrix(),
            states.shape@[0] == drafts@.len(),
            old(run).generated@.len() < max_new_tokens,
            old(run).stats.covers(drafts@.len() as int),
            old(run).stats.below(limit),
            0 <= limit,
            limit + drafts@.len() < u128::MAX,
        ensures
            out matches Err(error) ==> is_refusal(self.kernel, error, false) && (functional(self.kernel) ==> is_refusal(self.kernel, error, armed(self.kernel, *options, draft_distributions@, drafts@.len() as int))),
            final(run).cache == old(run).cache,
            final(run).final_state == old(run).final_state,
            final(run).stats.proposed_by_position@.len() == old(run).stats.proposed_by_position@.len(),
            final(run).stats.accepted_by_position@.len() == old(run).stats.accepted_by_position@.len(),
            old(run).generated@.len() <= final(run).generated@.len() <= max_new_tokens,
            final(run).generated@.take(old(run).generated@.len() as int) == old(run).generated@,
            !may_be_hot(self.kernel, *options) && options.passes(old(run).generated@) ==> options.passes(final(run).generated@),
            final(run).stats.below(limit + (final(run).generated@.len() - old(run).generated@.len()) + 1),
            old(run).stats@.balanced() ==> final(run).stats@.balanced(),
            out matches Ok((ended, judged)) ==> {
                &&& judged.wf()
                &&& judged.accepted_all == (ended is None)
                &&& ended is None ==> final(run).generated@.len() < max_new_tokens
                &&& ended matches Some(position) ==> position < drafts@.len()
            },
            functional(self.kernel) ==> match out {
                Ok((ended, judged)) => judge_from(
                    *self,
                    *options,
                    states.rows(),
                    drafts@,
                    odds_view(draft_distributions@),
                    max_new_tokens as int,
                    0,
                    opening(old(run)@, primary),
                ) == Some(
                    Verdict {
                        generated: final(run).generated@,
                        stats: final(run).stats@,
                        sampler: final(run).sampler@,
                        pending: final(run).pending,
                        last: judged@.last,
                        history: judged@.history,
                        ended: match ended {
                            Some(position) => Some(position as int),
                            None => None,
                        },
                    },
                ),
                Err(_) => judge_from(
                    *self,
                    *options,
                    states.rows(),
                    drafts@,
                    odds_view(draft_distributions@),
                    max_new_tokens as int,
                    0,
                    opening(old(run)@, primary),
                ) is None,
            },
    {
        let ghost rows = states.rows();
        let ghost odds = odds_view(draft_distributions@);
        let ghost first = run.generated@;
        let ghost model = judge_from(*self, *options, rows, drafts@, odds, max_new_tokens as int, 0, opening(run@, primary));
        let n: usize = drafts.len();
        let mut last: usize = primary;
        let mut history: Vec<(Tensor<K::Cell>, usize)> = Vec::new();
        let mut ended: Option<usize> = None;
        let mut position: usize = 0;
        proof {
            states.lemma_rows();
            assert(history_view(history@) =~= Seq::<(Seq<K::Cell>, usize)>::empty());
            assert(run.generated@.take(first.len() as int) =~= first);
        }
        while position < n && ended.is_none()
            invariant
                position <= n,
                n == drafts@.len(),
                self.wf(),
                states.is_matrix(),
                states.shape@[0] == n,
                rows == states.rows(),
                rows.len() == n,
                odds == odds_view(draft_distributions@),
                run.cache == old(run).cache,
                run.final_state == old(run).final_state,
                first == old(run).generated@,
                first.len() <= run.generated@.len() <= max_new_tokens,
                run.generated@.take(first.len() as int) == first,
                !may_be_hot(self.kernel, *options) && options.passes(first) ==> options.passes(run.generated@),
                run.stats.proposed_by_position@.len() == old(run).stats.proposed_by_position@.len(),
                run.stats.accepted_by_position@.len() == old(run).stats.accepted_by_position@.len(),
                run.stats.covers(n as int),
                0 <= limit,
                limit + n < u128::MAX,
                run.generated@.len() - first.len() <= position,
                run.stats.below(limit + (run.generated@.len() - first.len()) + (if ended is Some { 1int } else { 0 })),
                ended is None ==> run.generated@.len() < max_new_tokens,
                ended matches Some(at) ==> at < n,
                old(run).stats@.balanced() ==> run.stats@.balanced(),
                forall|i: int| 0 <= i < history@.len() ==> (#[trigger] history@[i]).0.is_matrix() && history@[i].0.shape@[0] == 1,
                model == judge_from(*self, *options, rows, drafts@, odds, max_new_tokens as int, 0, opening(old(run)@, primary)),
                functional(self.kernel) ==> model == judge_from(
                    *self,
                    *options,
                    rows,
                    drafts@,
                    odds,
                    max_new_tokens as int,
                    position as int,
                    Verdict {
                        generated: run.generated@,
                        stats: run.stats@,
                        sampler: run.sampler@,
                        pending: run.pending,
                        last,
                        history: history_view(history@),
                        ended: match ended {
                            Some(at) => Some(at as int),
                            None => None,
                        },
                    },
                ),
            decreases n - position,
        {
            let row: Vec<K::Cell> = states.row_slice(position)?;
            let target_state: Tensor<K::Cell> = Tensor::row(row);
            let draft: usize = drafts[position];
            let draft_odds: Option<&Vec<K::Cell>> = if position < draft_distributions.len() {
                match &draft_distributions[position] {
                    Some(draft_odds) => Some(draft_odds),
                    None => None,
                }
            } else {
                None
            };
            let ghost before = run.stats@;
            let ghost now = run.stats.proposed_by_position@.len();
            let (target, held) = self.judge_draft(&target_state, draft_odds, draft, options, &mut run.sampler)?;
            let ghost level = limit + (run.generated@.len() - first.len());
            run.stats.judge(position, held, Ghost(level));
            proof {
                if before.balanced() {
                    crate::stats::law_judged_balanced(before, position as int, held);
                }
            }
            if options.is_stop_token(target) || !held {
                run.pending = target;
                ended = Some(position);
            } else {
                let ghost past = history_view(history@);
                let ghost given = run.generated@;
                history.push((target_state, draft));
                run.generated.push(draft);
                last = draft;
                proof {
                    assert(history_view(history@) =~= past.push((rows[position as int], draft)));
                    assert(run.generated@.take(first.len() as int) =~= given.take(first.len() as int));
                }
                if run.generated.len() >= max_new_tokens {
                    ended = Some(position);
                }
            }
            position = position + 1;
        }
        Ok((ended, MtpVerifyResult { accepted_all: ended.is_none(), verify_token: last, accepted_history: history }))
    }

    /// Leaves a check of guesses with the cache and state of the tokens it used.
    fn land(
        &self,
        run: &mut Speculation<K::Cell>,
        snapshot: SpeculativeCacheSnapshot<K::Cell>,
        verify_tokens: &Vec<usize>,
        states: &Tensor<K::Cell>,
        ended: Option<usize>,
    ) -> (out: Result<(), InferError>)
        requires
            self.wf(),
            old(run).wf(),
            snapshot.cpu@.wf(),
            snapshot.cpu@.layers.len() == old(run).cache@.layers.len(),
            states.is_matrix(),
            states.shape@[0] == verify_tokens@.len(),
            verify_tokens@.len() > 0,
            ended matches Some(position) ==> position < verify_tokens@.len(),
        ensures
            out matches Err(error) ==> error.is_misfit(self.complete()),
            final(run).wf(),
            final(run).pending == old(run).pending,
            final(run).generated == old(run).generated,
            final(run).sampler == old(run).sampler,
            final(run).stats == old(run).stats,
            functional(self.kernel) ==> match out {
                Ok(_) => landed(
                    *self,
                    snapshot.cpu@,
                    old(run).cache@,
                    states.rows(),
                    verify_tokens@,
                    match ended {
                        Some(position) => Some(position as int),
                        None => None,
                    },
                ) == Some((final(run).cache@, final(run).final_state.rows()[0])),
                Err(_) => landed(
                    *self,
                    snapshot.cpu@,
                    old(run).cache@,
                    states.rows(),
                    verify_tokens@,
                    match ended {
                        Some(position) => Some(position as int),
                        None => None,
                    },
                ) is None,
            },
    {
        let n: usize = verify_tokens.len();
        match ended {
            Some(position) => if position + 1 < n {
                self.restore_mtp_snapshot_replay(
                    &mut run.cache,
                    Some(snapshot),
                    verify_tokens,
                    position + 1,
                    &mut run.final_state,
                )
            } else {
                let row: Vec<K::Cell> = states.row_slice(position)?;
                run.final_state = Tensor::row(row);
                Ok(())
            },
            None => {
                let row: Vec<K::Cell> = states.row_slice(n - 1)?;
                run.final_state = Tensor::row(row);
                Ok(())
            },
        }
    }

    /// Checks guesses behind the token that was given last, in one batch, and keeps
    /// those that hold: up to the first that does not, that the generation stops at,
    /// or that is the last one asked for.
    pub fn verify_mtp_drafts_batched(
        &self,
        run: &mut Speculation<K::Cell>,
        drafts: &Vec<usize>,
        draft_distributions: &Vec<Option<Vec<K::Cell>>>,
        primary: usize,
        max_new_tokens: usize,
        options: &GenerationOptions<K::Cell>,
        Ghost(limit): Ghost<int>,
    ) -> (out: Result<MtpVerifyResult<K::Cell>, InferError>)
        requires
            self.wf(),
            old(run).wf(),
            old(run).generated@.len() < max_new_tokens,
            old(run).stats.covers(drafts@.len() as int),
            old(run).stats.below(limit),
            0 <= limit,
            limit + drafts@.len() < u128::MAX,
        ensures
            out matches Err(error) ==> is_refusal(self.kernel, error, false) && (functional(self.kernel) ==> is_refusal(self.kernel, error, self.complete() && armed(self.kernel, *options, draft_distributions@, drafts@.len() as int))),
            final(run).wf(),
            final(run).stats.proposed_by_position@.len() == old(run).stats.proposed_by_position@.len(),
            final(run).stats.accepted_by_position@.len() == old(run).stats.accepted_by_position@.len(),
            final(run).generated@.len() >= old(run).generated@.len(),
            final(run).generated@.len() <= max_new_tokens,
            final(run).generated@.take(old(run).generated@.len() as int) == old(run).generated@,
            !may_be_hot(self.kernel, *options) && options.passes(old(run).generated@) ==> options.passes(final(run).generated@),
            final(run).stats.below(limit + (final(run).generated@.len() - old(run).generated@.len()) + 1),
            out matches Ok(judged) ==> judged.wf() && (judged.accepted_all ==> final(run).generated@.len() < max_new_tokens),
            out matches Ok(judged) && old(run).stats@.balanced() ==> final(run).stats@.balanced(),
            functional(self.kernel) ==> match out {
                Ok(judged) => verified(
                    *self,
                    *options,
                    old(run)@,
                    drafts@,
                    odds_view(draft_distributions@),
                    primary,
                    max_new_tokens as int,
                ) == Some((final(run)@, judged@)),
                Err(_) => verified(
                    *self,
                    *options,
                    old(run)@,
                    drafts@,
                    odds_view(draft_distributions@),
                    primary,
                    max_new_tokens as int,
                ) is None,
            },
    {
        let n: usize = drafts.len();
        if n == 0 {
            let accepted_history: Vec<(Tensor<K::Cell>, usize)> = Vec::new();
            proof {
                assert(history_view(accepted_history@) =~= Seq::<(Seq<K::Cell>, usize)>::empty());
                assert(run.generated@.take(run.generated@.len() as int) =~= run.generated@);
            }
            return Ok(MtpVerifyResult { accepted_all: true, verify_token: primary, accepted_history });
        }
        let ghost before = run.cache@;
        let ghost start = run@;
        let snapshot: SpeculativeCacheSnapshot<K::Cell> = self.snapshot_speculative_cache(&run.cache);
        let verify_tokens: Vec<usize> = tokens_to_check(primary, drafts);
        let ghost tokens = checked_tokens(primary, drafts@);
        proof {
            assert(run.generated@.take(run.generated@.len() as int) =~= run.generated@);
        }
        let states: Tensor<K::Cell> = self.next_final_states_batched(&mut run.cache, &verify_tokens)?;
        let ghost after = run.cache@;
        proof {
            states.lemma_rows();
            assert(run@.generated == start.generated);
        }
        let (ended, judged) = self.judge_drafts(
            run,
            &states,
            drafts,
            draft_distributions,
            primary,
            max_new_tokens,
            options,
            Ghost(limit),
        )?;
        self.land(run, snapshot, &verify_tokens, &states, ended)?;
        Ok(judged)
    }
}

} // verus!
