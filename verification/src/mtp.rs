//! Generation with the guesses of a head.

use vstd::prelude::*;
use crate::decoder::{served, CausalDecoder};
use crate::error::InferError;
use crate::kernel::{draw_from_of, elapsed, functional, is_refusal, Kernel};
use crate::kv::{LayerKvCache, LayerView};
use crate::model::{batch, step, CacheView, CausalDecoderCache, DecoderModel};
use crate::mtp_head::mtp_row;
use crate::options::{hot, is_hot, may_be_hot, GenerationOptions, SamplerView, TokenSampler};
use crate::prefill::Prefilled;
use crate::prefix_cache::EntryView;
use crate::sampling::{odds_of, sampled};
use crate::speculation::{armed, history_view, lemma_judge_grows, odds_view, opening, verified, JudgedView, MtpVerifyResult, SpecView, Speculation, SpeculativeOutput};
use crate::stats::{SpeculativeStats, StatsView};
use crate::tensor::Tensor;

verus! {

/// Where the guessing behind a token stands.
#[verifier::ext_equal]
pub struct Drafting<C> {
    pub tokens: Seq<usize>,
    pub odds: Seq<Option<Seq<C>>>,
    pub view: LayerView<C>,
    pub state: Seq<C>,
    pub token: usize,
    pub sampler: SamplerView,
}

/// One more guess, at the position of the head's cache that lies `offset` and the
/// guesses made behind its start.
pub open spec fn draft_one<K: Kernel>(m: DecoderModel<K>, options: GenerationOptions<K::Cell>, offset: int, at: Drafting<K::Cell>) -> Option<Drafting<K::Cell>> {
    let position = offset + at.tokens.len();
    if position > usize::MAX {
        None
    } else {
        match mtp_row(m, at.view, at.state, at.token, position) {
            Some((view, state)) => if hot(m.kernel, options) {
                match odds_of(m, m.draft_head(), state, options) {
                    Some(odds) => match draw_from_of(m.kernel, odds, at.sampler.random) {
                        Some((token, random)) => Some(
                            Drafting {
                                tokens: at.tokens.push(token),
                                odds: at.odds.push(Some(odds)),
                                view,
                                state,
                                token,
                                sampler: SamplerView { random, ..at.sampler },
                            },
                        ),
                        None => None,
                    },
                    None => None,
                }
            } else {
                match sampled(m, m.draft_head(), state, options, at.sampler) {
                    Some((token, sampler)) => Some(
                        Drafting { tokens: at.tokens.push(token), odds: at.odds, view, state, token, sampler },
                    ),
                    None => None,
                }
            },
            None => None,
        }
    }
}

/// `left` more guesses.
pub open spec fn draft_on<K: Kernel>(m: DecoderModel<K>, options: GenerationOptions<K::Cell>, offset: int, left: int, at: Drafting<K::Cell>) -> Option<Drafting<K::Cell>>
    decreases left,
{
    if left <= 0 {
        Some(at)
    } else {
        match draft_one(m, options, offset, at) {
            Some(next) => draft_on(m, options, offset, left - 1, next),
            None => None,
        }
    }
}

/// What a head's cache becomes where tokens, each with the state before it, go
/// through the head.
pub open spec fn remembered<K: Kernel>(m: DecoderModel<K>, view: LayerView<K::Cell>, items: Seq<(Seq<K::Cell>, usize)>) -> Option<LayerView<K::Cell>>
    decreases items.len(),
{
    if items.len() == 0 {
        Some(view)
    } else {
        match remembered(m, view, items.drop_last()) {
            Some(before) => match mtp_row(m, before, items.last().0, items.last().1, before.count()) {
                Some((after, _)) => Some(after),
                None => None,
            },
            None => None,
        }
    }
}

/// The tokens of a prompt behind its first, each with the state before it.
pub open spec fn prompt_pairs<C>(states: Seq<Seq<C>>, prompt: Seq<usize>) -> Seq<(Seq<C>, usize)> {
    Seq::new((prompt.len() - 1) as nat, |i: int| (states[i], prompt[i + 1]))
}

/// A prompt through the decoder as one batch, and through the head.
pub open spec fn prefilled_with_history<K: Kernel>(m: DecoderModel<K>, prompt: Seq<usize>) -> Option<(CacheView<K::Cell>, Seq<K::Cell>, LayerView<K::Cell>)> {
    match batch(m, m.fresh(), prompt) {
        Some((cache, states)) => match remembered(m, LayerView::empty(), prompt_pairs(states, prompt)) {
            Some(history) => Some((cache, states.last(), history)),
            None => None,
        },
        None => None,
    }
}

/// A cache can be cut to `count` positions.
pub open spec fn can_cut<C>(view: LayerView<C>, count: int) -> bool {
    match view.kv_dim {
        Some(dim) => count * dim <= view.keys.len() && count * dim <= view.values.len(),
        None => count == 0,
    }
}

/// The head's cache after a round: the token that was given, and the guesses that
/// held, behind the `offset` positions it had.
pub open spec fn history_after<K: Kernel>(m: DecoderModel<K>, view: LayerView<K::Cell>, offset: int, items: Seq<(Seq<K::Cell>, usize)>) -> Option<LayerView<K::Cell>> {
    if offset + 1 > usize::MAX || !can_cut(view, offset + 1) {
        None
    } else {
        remembered(m, view.truncate(offset + 1), items)
    }
}

/// Where a generation with a head's guesses stands; the head's cache is there where
/// it is kept from round to round.
#[verifier::ext_equal]
pub struct MtpView<C> {
    pub run: SpecView<C>,
    pub history: Option<LayerView<C>>,
}

/// One round: guesses behind the token that was given last, and their check.
pub open spec fn mtp_round<K: Kernel>(m: DecoderModel<K>, options: GenerationOptions<K::Cell>, max: int, count: int, s: MtpView<K::Cell>) -> Option<MtpView<K::Cell>> {
    let primary = s.run.pending;
    let offset = match s.history {
        Some(view) => view.count(),
        None => 0,
    };
    let view = match s.history {
        Some(view) => view,
        None => LayerView::empty(),
    };
    let at = Drafting {
        tokens: Seq::empty(),
        odds: Seq::empty(),
        view,
        state: s.run.state,
        token: primary,
        sampler: s.run.sampler,
    };
    match draft_on(m, options, offset, count, at) {
        Some(d) => match verified(m, options, (SpecView { sampler: d.sampler, ..s.run }), d.tokens, d.odds, primary, max) {
            Some((run, judged)) => match s.history {
                Some(_) => match history_after(m, d.view, offset, judged.history) {
                    Some(history) => gone_on(m, options, run, judged.all, judged.last, Some(history)),
                    None => None,
                },
                None => gone_on(m, options, run, judged.all, judged.last, None),
            },
            None => None,
        },
        None => None,
    }
}

/// The end of a round: where every guess held, the last of them goes through the
/// decoder and the next token is read.
pub open spec fn gone_on<K: Kernel>(m: DecoderModel<K>, options: GenerationOptions<K::Cell>, run: SpecView<K::Cell>, all: bool, last: usize, history: Option<LayerView<K::Cell>>) -> Option<MtpView<K::Cell>> {
    if !all {
        Some(MtpView { run, history })
    } else {
        match read_on(m, options, run, last) {
            Some(run) => Some(MtpView { run, history }),
            None => None,
        }
    }
}

/// The end of a round behind its check: the guesses that held go through the head where
/// its cache is kept.
pub open spec fn closing<K: Kernel>(m: DecoderModel<K>, options: GenerationOptions<K::Cell>, run: SpecView<K::Cell>, judged: JudgedView<K::Cell>, offset: int, kept: Option<LayerView<K::Cell>>) -> Option<MtpView<K::Cell>> {
    match kept {
        Some(view) => match history_after(m, view, offset, judged.history) {
            Some(history) => gone_on(m, options, run, judged.all, judged.last, Some(history)),
            None => None,
        },
        None => gone_on(m, options, run, judged.all, judged.last, None),
    }
}

/// A token through the decoder, and the next one read.
pub open spec fn read_on<K: Kernel>(m: DecoderModel<K>, options: GenerationOptions<K::Cell>, run: SpecView<K::Cell>, token: usize) -> Option<SpecView<K::Cell>> {
    match step(m, run.cache, token) {
        Some((cache, state)) => match sampled(m, m.lm_head, state, options, run.sampler) {
            Some((pending, sampler)) => Some(
                SpecView { cache, state, pending, sampler, stats: run.stats.read(), ..run },
            ),
            None => None,
        },
        None => None,
    }
}

pub proof fn lemma_verified_grows<K: Kernel>(m: DecoderModel<K>, options: GenerationOptions<K::Cell>, s: SpecView<K::Cell>, drafts: Seq<usize>, odds: Seq<Option<Seq<K::Cell>>>, primary: usize, max: int)
    ensures
        verified(m, options, s, drafts, odds, primary, max) matches Some(made) ==> made.0.generated.len() >= s.generated.len(),
{
    if drafts.len() > 0 {
        let tokens = crate::speculation::checked_tokens(primary, drafts);
        if batch(m, s.cache, tokens) is Some {
            let states = (batch(m, s.cache, tokens)->0).1;
            lemma_judge_grows(m, options, states, drafts, odds, max, 0, opening(s, primary));
        }
    }
}

pub proof fn lemma_round_grows<K: Kernel>(m: DecoderModel<K>, options: GenerationOptions<K::Cell>, max: int, count: int, s: MtpView<K::Cell>)
    ensures
        mtp_round(m, options, max, count, s) matches Some(next) ==> next.run.generated.len() >= s.run.generated.len(),
{
    if mtp_round(m, options, max, count, s) is Some {
        let offset = match s.history {
            Some(view) => view.count(),
            None => 0,
        };
        let view = match s.history {
            Some(view) => view,
            None => LayerView::empty(),
        };
        let at = Drafting {
            tokens: Seq::empty(),
            odds: Seq::empty(),
            view,
            state: s.run.state,
            token: s.run.pending,
            sampler: s.run.sampler,
        };
        let d = draft_on(m, options, offset, count, at)->0;
        lemma_verified_grows(m, options, SpecView { sampler: d.sampler, ..s.run }, d.tokens, d.odds, s.run.pending, max);
    }
}

/// The token that comes next, given.
pub open spec fn given<C>(s: MtpView<C>) -> MtpView<C> {
    MtpView { run: SpecView { generated: s.run.generated.push(s.run.pending), ..s.run }, ..s }
}

/// Rounds until there are enough tokens or the generation stops.
pub open spec fn mtp_rounds<K: Kernel>(m: DecoderModel<K>, options: GenerationOptions<K::Cell>, max: int, count: int, s: MtpView<K::Cell>) -> Option<MtpView<K::Cell>>
    decreases (if max > s.run.generated.len() { max - s.run.generated.len() } else { 0 }),
{
    if s.run.generated.len() >= max || options.stops_at(s.run.pending) {
        Some(s)
    } else if s.run.generated.len() + 1 >= max {
        Some(given(s))
    } else {
        proof {
            lemma_round_grows(m, options, max, count, given(s));
        }
        match mtp_round(m, options, max, count, given(s)) {
            Some(next) => mtp_rounds(m, options, max, count, next),
            None => None,
        }
    }
}

/// A generation with a head's guesses, from what a prompt left.
pub open spec fn mtp_from<K: Kernel>(m: DecoderModel<K>, options: GenerationOptions<K::Cell>, max: int, count: int, cache: CacheView<K::Cell>, state: Seq<K::Cell>, history: Option<LayerView<K::Cell>>) -> Option<(Seq<usize>, StatsView)> {
    match sampled(m, m.lm_head, state, options, SamplerView::start(options.seed)) {
        Some((pending, sampler)) => {
            let run = SpecView { cache, state, pending, generated: Seq::empty(), sampler, stats: StatsView::zero(count) };
            match mtp_rounds(m, options, max, count, (MtpView { run, history })) {
                Some(end) => Some((end.run.generated, end.run.stats)),
                None => None,
            }
        },
        None => None,
    }
}

/// A generation with a head's guesses, and the entries the decoder then keeps.
pub open spec fn mtp_generated<K: Kernel>(m: DecoderModel<K>, entries: Seq<EntryView<K::Cell>>, options: GenerationOptions<K::Cell>, prompt: Seq<usize>, max: int, count: int) -> (Option<(Seq<usize>, StatsView)>, Seq<EntryView<K::Cell>>) {
    if m.mtp is None || count == 0 || prompt.len() == 0 {
        (None, entries)
    } else if max == 0 {
        (Some((Seq::empty(), StatsView::zero(0))), entries)
    } else if m.flags.mtp_committed_history {
        match prefilled_with_history(m, prompt) {
            Some((cache, state, history)) => (mtp_from(m, options, max, count, cache, state, Some(history)), entries),
            None => (None, entries),
        }
    } else {
        let (made, after) = served(m, entries, prompt);
        match made {
            Some((cache, state)) => (mtp_from(m, options, max, count, cache, state, None), after),
            None => (None, after),
        }
    }
}

proof fn lemma_remembered_none<K: Kernel>(m: DecoderModel<K>, view: LayerView<K::Cell>, items: Seq<(Seq<K::Cell>, usize)>, n: int)
    requires
        0 <= n <= items.len(),
        remembered(m, view, items.take(n)) is None,
    ensures
        remembered(m, view, items) is None,
    decreases items.len() - n,
{
    if n < items.len() {
        assert(items.take(n + 1).drop_last() =~= items.take(n));
        lemma_remembered_none(m, view, items, n + 1);
    } else {
        assert(items.take(n) =~= items);
    }
}

impl<K: Kernel> DecoderModel<K> {
    /// Takes tokens, each with the state before it, through the head.
    pub fn remember(&self, cache: &mut LayerKvCache<K::Cell>, items: &Vec<(Tensor<K::Cell>, usize)>) -> (out: Result<(), InferError>)
        requires
            self.wf(),
            old(cache)@.wf(),
            forall|i: int| 0 <= i < items@.len() ==> (#[trigger] items@[i]).0.is_matrix() && items@[i].0.shape@[0] == 1,
        ensures
            out matches Err(error) ==> error is Dimension || (self.mtp is None && error is Config),
            final(cache)@.wf(),
            functional(self.kernel) ==> match out {
                Ok(_) => remembered(*self, old(cache)@, history_view(items@)) == Some(final(cache)@),
                Err(_) => remembered(*self, old(cache)@, history_view(items@)) is None,
            },
    {
        let ghost views = history_view(items@);
        let ghost start = cache@;
        let n: usize = items.len();
        assert(views.take(0) =~= Seq::<(Seq<K::Cell>, usize)>::empty());
        assert(remembered(*self, start, Seq::<(Seq<K::Cell>, usize)>::empty()) == Some(start));
        let mut i: usize = 0;
        while i < n
            invariant
                i <= n,
                n == items@.len(),
                self.wf(),
                cache@.wf(),
                start == old(cache)@,
                views == history_view(items@),
                forall|i: int| 0 <= i < items@.len() ==> (#[trigger] items@[i]).0.is_matrix() && items@[i].0.shape@[0] == 1,
                functional(self.kernel) ==> remembered(*self, start, views.take(i as int)) == Some(cache@),
            decreases n - i,
        {
            let position: usize = cache.len();
            proof {
                assert(views.take(i + 1).drop_last() =~= views.take(i as int));
                assert(views.take(i + 1).last() == views[i as int]);
            }
            match self.mtp_forward_post_hidden(&items[i].0, items[i].1, position, cache) {
                Ok(_) => {},
                Err(error) => {
                    proof {
                        if functional(self.kernel) {
                            lemma_remembered_none(*self, start, views, i + 1);
                        }
                    }
                    return Err(error);
                },
            }
            i = i + 1;
        }
        assert(views.take(n as int) =~= views);
        Ok(())
    }

    /// Takes a prompt through the decoder as one batch, and through the head. Refused
    /// where it is empty.
    pub fn prefill_cache_state_with_mtp_history(&self, prompt: &Vec<usize>) -> (out: Result<(CausalDecoderCache<K::Cell>, Tensor<K::Cell>, LayerKvCache<K::Cell>), InferError>)
        requires
            self.wf(),
        ensures
            out matches Err(error) ==> error.is_misfit(self.complete() && self.mtp is Some),
            out matches Ok(out) ==> {
                &&& out.0@.wf() && self.behind(out.0@, prompt@.len() as int)
                &&& out.1.is_matrix() && out.1.shape@[0] == 1 && out.1.cols() == self.hidden()
                &&& out.2@.wf()
            },
            prompt@.len() == 0 ==> (out matches Err(error) && error is Dimension),
            functional(self.kernel) ==> match out {
                Ok(out) => prefilled_with_history(*self, prompt@) == Some((out.0@, out.1.rows()[0], out.2@)),
                Err(_) => prefilled_with_history(*self, prompt@) is None,
            },
    {
        let n: usize = prompt.len();
        let mut cache: CausalDecoderCache<K::Cell> = self.empty_cache();
        let states: Tensor<K::Cell> = self.next_final_states_batched(&mut cache, prompt)?;
        proof {
            states.lemma_rows();
        }
        let last: Vec<K::Cell> = states.last_row()?;
        let final_state: Tensor<K::Cell> = Tensor::row(last);
        let mut items: Vec<(Tensor<K::Cell>, usize)> = Vec::new();
        let mut i: usize = 0;
        while i + 1 < n
            invariant
                n == prompt@.len(),
                0 < n,
                i <= n - 1,
                items@.len() == i,
                states.is_matrix(),
                states.shape@[0] == n,
                forall|j: int| 0 <= j < i ==> (#[trigger] items@[j]).0.is_matrix() && items@[j].0.shape@[0] == 1,
                forall|j: int| 0 <= j < i ==> (#[trigger] items@[j]).0.rows()[0] == states.rows()[j] && items@[j].1 == prompt@[j + 1],
            decreases n - i,
        {
            let row: Vec<K::Cell> = states.row_slice(i)?;
            items.push((Tensor::row(row), prompt[i + 1]));
            i = i + 1;
        }
        proof {
            assert(history_view(items@) =~= prompt_pairs(states.rows(), prompt@));
        }
        let mut history: LayerKvCache<K::Cell> = LayerKvCache::new();
        self.remember(&mut history, &items)?;
        Ok((cache, final_state, history))
    }

    /// Guesses one token behind another with the head.
    pub fn mtp_forward_greedy_with_hidden(&self, hidden: &Tensor<K::Cell>, next_id: usize, position: usize, mtp_cache: &mut LayerKvCache<K::Cell>, options: &GenerationOptions<K::Cell>, sampler: &mut TokenSampler) -> (out: Result<(usize, Tensor<K::Cell>), InferError>)
        requires
            self.wf(),
            hidden.is_matrix(),
            hidden.shape@[0] == 1,
            old(mtp_cache)@.wf(),
        ensures
            out matches Err(error) ==> is_refusal(self.kernel, error, self.mtp is Some),
            final(mtp_cache)@.wf(),
            out matches Ok(out) ==> out.1.is_matrix() && out.1.shape@[0] == 1,
            functional(self.kernel) ==> match out {
                Ok(out) => {
                    &&& mtp_row(*self, old(mtp_cache)@, hidden.rows()[0], next_id, position as int) == Some(
                        (final(mtp_cache)@, out.1.rows()[0]),
                    )
                    &&& sampled(*self, self.draft_head(), out.1.rows()[0], *options, old(sampler)@) == Some(
                        (out.0, final(sampler)@),
                    )
                },
                Err(_) => mtp_row(*self, old(mtp_cache)@, hidden.rows()[0], next_id, position as int) matches Some(made)
                    ==> sampled(*self, self.draft_head(), made.1, *options, old(sampler)@) is None,
            },
    {
        let post: Tensor<K::Cell> = self.mtp_forward_post_hidden(hidden, next_id, position, mtp_cache)?;
        let token: usize = self.sample_mtp_token_from_state(&post, options, sampler)?;
        Ok((token, post))
    }

    /// Guesses the token behind `token`, and gives the probabilities it was drawn with
    /// where it was drawn.
    fn draft_token(
        &self,
        hidden: &Tensor<K::Cell>,
        token: usize,
        position: usize,
        mtp_cache: &mut LayerKvCache<K::Cell>,
        options: &GenerationOptions<K::Cell>,
        sampler: &mut TokenSampler,
        Ghost(at): Ghost<Drafting<K::Cell>>,
        Ghost(offset): Ghost<int>,
    ) -> (out: Result<(usize, Tensor<K::Cell>, Option<Vec<K::Cell>>), InferError>)
        requires
            self.wf(),
            hidden.is_matrix(),
            hidden.shape@[0] == 1,
            old(mtp_cache)@.wf(),
            at.view == old(mtp_cache)@,
            at.state == hidden.rows()[0],
            at.token == token,
            at.sampler == old(sampler)@,
            offset + at.tokens.len() == position,
        ensures
            out matches Err(error) ==> is_refusal(self.kernel, error, self.mtp is Some),
            final(mtp_cache)@.wf(),
            out matches Ok(out) ==> out.1.is_matrix() && out.1.shape@[0] == 1,
            functional(self.kernel) ==> (out matches Ok(out) ==> out.2 is Some == hot(self.kernel, *options)),
            functional(self.kernel) ==> match out {
                Ok(out) => draft_one(*self, *options, offset, at) == Some(
                    Drafting {
                        tokens: at.tokens.push(out.0),
                        odds: match out.2 {
                            Some(row) => at.odds.push(Some(row@)),
                            None => at.odds,
                        },
                        view: final(mtp_cache)@,
                        state: out.1.rows()[0],
                        token: out.0,
                        sampler: final(sampler)@,
                    },
                ),
                Err(_) => draft_one(*self, *options, offset, at) is None,
            },
    {
        if is_hot(&self.kernel, options) {
            let next: Tensor<K::Cell> = self.mtp_forward_post_hidden(hidden, token, position, mtp_cache)?;
            let (draft, probabilities) = self.sample_mtp_token_and_distribution_from_state(&next, options, sampler)?;
            proof {
                assert(sampler@ =~= SamplerView { random: sampler@.random, ..at.sampler });
            }
            Ok((draft, next, Some(probabilities)))
        } else {
            let (draft, next) = self.mtp_forward_greedy_with_hidden(hidden, token, position, mtp_cache, options, sampler)?;
            Ok((draft, next, None))
        }
    }

    /// Guesses the `count` tokens behind `primary`, and gives the probabilities they
    /// were drawn with where they were drawn.
    #[verifier::spinoff_prover]
    pub fn draft_tokens(
        &self,
        final_state: &Tensor<K::Cell>,
        primary: usize,
        offset: usize,
        count: usize,
        mtp_cache: &mut LayerKvCache<K::Cell>,
        options: &GenerationOptions<K::Cell>,
        sampler: &mut TokenSampler,
    ) -> (out: Result<(Vec<usize>, Vec<Option<Vec<K::Cell>>>), InferError>)
        requires
            self.wf(),
            final_state.is_matrix(),
            final_state.shape@[0] == 1,
            old(mtp_cache)@.wf(),
        ensures
            out matches Err(error) ==> is_refusal(self.kernel, error, self.mtp is Some),
            final(mtp_cache)@.wf(),
            out matches Ok(out) ==> out.0@.len() == count,
            functional(self.kernel) ==> (out matches Ok(out) ==> armed(self.kernel, *options, out.1@, count as int)),
            functional(self.kernel) ==> ({
                let at = Drafting {
                    tokens: Seq::empty(),
                    odds: Seq::empty(),
                    view: old(mtp_cache)@,
                    state: final_state.rows()[0],
                    token: primary,
                    sampler: old(sampler)@,
                };
                let made = draft_on(*self, *options, offset as int, count as int, at);
                match out {
                    Ok(out) => made matches Some(d) && d.tokens == out.0@ && d.odds == odds_view(out.1@) && d.view
                        == final(mtp_cache)@ && d.sampler == final(sampler)@,
                    Err(_) => made is None,
                }
            }),
    {
        let k: &K = &self.kernel;
        let mut tokens: Vec<usize> = Vec::new();
        let mut odds: Vec<Option<Vec<K::Cell>>> = Vec::new();
        let mut hidden: Tensor<K::Cell> = final_state.duplicate();
        let mut token: usize = primary;
        let ghost start = Drafting {
            tokens: Seq::empty(),
            odds: Seq::empty(),
            view: mtp_cache@,
            state: final_state.rows()[0],
            token: primary,
            sampler: sampler@,
        };
        let ghost model = draft_on(*self, *options, offset as int, count as int, start);
        proof {
            assert(tokens@ =~= Seq::<usize>::empty());
            assert(odds_view(odds@) =~= Seq::<Option<Seq<K::Cell>>>::empty());
            assert(hidden.rows() =~= final_state.rows());
        }
        let mut i: usize = 0;
        while i < count
            invariant
                i <= count,
                *k == self.kernel,
                self.wf(),
                tokens@.len() == i,
                functional(*k) && hot(*k, *options) ==> odds@.len() == i,
                forall|j: int| 0 <= j < odds@.len() ==> (#[trigger] odds@[j]) is Some,
                hidden.is_matrix(),
                hidden.shape@[0] == 1,
                mtp_cache@.wf(),
                start == (Drafting {
                    tokens: Seq::empty(),
                    odds: Seq::empty(),
                    view: old(mtp_cache)@,
                    state: final_state.rows()[0],
                    token: primary,
                    sampler: old(sampler)@,
                }),
                model == draft_on(*self, *options, offset as int, count as int, start),
                functional(*k) ==> model == draft_on(
                    *self,
                    *options,
                    offset as int,
                    count - i,
                    Drafting {
                        tokens: tokens@,
                        odds: odds_view(odds@),
                        view: mtp_cache@,
                        state: hidden.rows()[0],
                        token,
                        sampler: sampler@,
                    },
                ),
            decreases count - i,
        {
            let position: usize = match offset.checked_add(i) {
                Some(position) => position,
                None => {
                    return Err(InferError::Dimension("position of a guess leaves the machine's range"));
                },
            };
            let ghost at = Drafting {
                tokens: tokens@,
                odds: odds_view(odds@),
                view: mtp_cache@,
                state: hidden.rows()[0],
                token,
                sampler: sampler@,
            };
            let (draft, next, row) = self.draft_token(&hidden, token, position, mtp_cache, options, sampler, Ghost(at), Ghost(offset as int))?;
            let ghost before = odds_view(odds@);
            if let Some(row) = row {
                let ghost given = row@;
                odds.push(Some(row));
                assert(odds_view(odds@) =~= before.push(Some(given)));
            }
            hidden = next;
            tokens.push(draft);
            token = draft;
            i = i + 1;
        }
        Ok((tokens, odds))
    }
}

/// The head's cache, where it is kept.
pub open spec fn kept_view<C>(history: Option<LayerKvCache<C>>) -> Option<LayerView<C>> {
    match history {
        Some(cache) => Some(cache@),
        None => None,
    }
}

impl<K: Kernel> DecoderModel<K> {
    /// Cuts the head's cache to the token that was given, and takes the guesses that
    /// held through the head.
    fn commit_history(&self, history: &mut LayerKvCache<K::Cell>, offset: usize, items: &Vec<(Tensor<K::Cell>, usize)>) -> (out: Result<(), InferError>)
        requires
            self.wf(),
            old(history)@.wf(),
            forall|i: int| 0 <= i < items@.len() ==> (#[trigger] items@[i]).0.is_matrix() && items@[i].0.shape@[0] == 1,
        ensures
            out matches Err(error) ==> error is Dimension || (self.mtp is None && error is Config),
            out is Ok ==> final(history)@.wf(),
            functional(self.kernel) ==> match out {
                Ok(_) => history_after(*self, old(history)@, offset as int, history_view(items@)) == Some(final(history)@),
                Err(_) => history_after(*self, old(history)@, offset as int, history_view(items@)) is None,
            },
    {
        let committed: usize = match offset.checked_add(1) {
            Some(committed) => committed,
            None => {
                return Err(InferError::Dimension("length of the head's cache leaves the machine's range"));
            },
        };
        let ghost before = history@;
        history.truncate(committed)?;
        proof {
            if before.kv_dim is Some {
                assert(0 <= committed * before.kv_dim->0) by (nonlinear_arith);
                crate::kv::lemma_truncate_wf(before, committed as int);
            }
        }
        self.remember(history, items)
    }

    /// Takes a token through the decoder and reads the next one.
    fn read_next(&self, run: &mut Speculation<K::Cell>, token: usize, options: &GenerationOptions<K::Cell>, Ghost(limit): Ghost<int>) -> (out: Result<(), InferError>)
        requires
            self.wf(),
            old(run).wf(),
            old(run).stats.below(limit),
            limit < u128::MAX,
        ensures
            out matches Err(error) ==> is_refusal(self.kernel, error, self.complete()),
            final(run).wf(),
            final(run).generated == old(run).generated,
            final(run).stats.below(limit + 1),
            final(run).stats.proposed_by_position@.len() == old(run).stats.proposed_by_position@.len(),
            final(run).stats.accepted_by_position@.len() == old(run).stats.accepted_by_position@.len(),
            old(run).stats@.balanced() ==> final(run).stats@.balanced(),
            functional(self.kernel) ==> match out {
                Ok(_) => read_on(*self, *options, old(run)@, token) == Some(final(run)@),
                Err(_) => read_on(*self, *options, old(run)@, token) is None,
            },
    {
        let state: Tensor<K::Cell> = self.next_decode_state(&mut run.cache, token)?;
        run.final_state = state;
        run.pending = self.sample_token_from_state(&run.final_state, options, &mut run.sampler)?;
        run.stats.read(Ghost(limit));
        Ok(())
    }

    /// Guesses behind the token that was given last, checked against the decoder.
    #[verifier::spinoff_prover]
    fn guess_and_check(
        &self,
        run: &mut Speculation<K::Cell>,
        head_cache: &mut LayerKvCache<K::Cell>,
        offset: usize,
        max_new_tokens: usize,
        max_draft_tokens: usize,
        options: &GenerationOptions<K::Cell>,
        Ghost(limit): Ghost<int>,
    ) -> (out: Result<MtpVerifyResult<K::Cell>, InferError>)
        requires
            self.wf(),
            old(run).wf(),
            old(head_cache)@.wf(),
            old(run).generated@.len() < max_new_tokens,
            old(run).stats.covers(max_draft_tokens as int),
            old(run).stats.below(limit),
            0 <= limit <= 3 * usize::MAX,
        ensures
            out matches Err(error) ==> is_refusal(self.kernel, error, false) && (functional(self.kernel) ==> is_refusal(self.kernel, error, self.complete() && self.mtp is Some)),
            out is Ok ==> final(head_cache)@.wf(),
            out is Ok ==> final(run).wf(),
            out is Ok ==> final(run).stats.covers(max_draft_tokens as int),
            out is Ok ==> old(run).generated@.len() <= final(run).generated@.len() <= max_new_tokens,
            !may_be_hot(self.kernel, *options) && options.passes(old(run).generated@) && out is Ok ==> options.passes(final(run).generated@),
            out is Ok ==> final(run).stats.below(limit + (final(run).generated@.len() - old(run).generated@.len()) + 1),
            out is Ok && old(run).stats@.balanced() ==> final(run).stats@.balanced(),
            out matches Ok(judged) ==> judged.wf(),
            functional(self.kernel) ==> ({
                let s = old(run)@;
                let at = Drafting {
                    tokens: Seq::empty(),
                    odds: Seq::empty(),
                    view: old(head_cache)@,
                    state: s.state,
                    token: s.pending,
                    sampler: s.sampler,
                };
                match draft_on(*self, *options, offset as int, max_draft_tokens as int, at) {
                    Some(d) => ({
                        let made = verified(*self, *options, (SpecView { sampler: d.sampler, ..s }), d.tokens, d.odds, s.pending, max_new_tokens as int);
                        match out {
                            Ok(judged) => d.view == final(head_cache)@ && made == Some((final(run)@, judged@)),
                            Err(_) => made is None,
                        }
                    }),
                    None => out is Err,
                }
            }),
    {
        let ghost start = run@;
        let primary: usize = run.pending;
        let (drafts, odds) = self.draft_tokens(
            &run.final_state,
            primary,
            offset,
            max_draft_tokens,
            head_cache,
            options,
            &mut run.sampler,
        )?;
        proof {
            assert(run@ =~= SpecView { sampler: run.sampler@, ..start });
        }
        self.verify_mtp_drafts_batched(run, &drafts, &odds, primary, max_new_tokens, options, Ghost(limit))
    }

    /// The end of a round: the guesses that held go through the head where its cache is
    /// kept, and the next token is read where every guess held.
    #[verifier::spinoff_prover]
    fn close_round(
        &self,
        run: &mut Speculation<K::Cell>,
        history: Option<LayerKvCache<K::Cell>>,
        offset: usize,
        judged: &MtpVerifyResult<K::Cell>,
        options: &GenerationOptions<K::Cell>,
        Ghost(limit): Ghost<int>,
    ) -> (out: Result<Option<LayerKvCache<K::Cell>>, InferError>)
        requires
            self.wf(),
            old(run).wf(),
            judged.wf(),
            history matches Some(cache) ==> cache@.wf(),
            old(run).stats.below(limit),
            limit < u128::MAX,
        ensures
            out matches Err(error) ==> is_refusal(self.kernel, error, self.complete() && self.mtp is Some),
            out is Ok ==> final(run).wf(),
            out matches Ok(history) ==> (history matches Some(cache) ==> cache@.wf()),
            final(run).generated == old(run).generated,
            out is Ok ==> final(run).stats.below(limit + 1),
            final(run).stats.proposed_by_position@.len() == old(run).stats.proposed_by_position@.len(),
            final(run).stats.accepted_by_position@.len() == old(run).stats.accepted_by_position@.len(),
            out is Ok && old(run).stats@.balanced() ==> final(run).stats@.balanced(),
            functional(self.kernel) ==> ({
                let made = closing(*self, *options, old(run)@, judged@, offset as int, kept_view(history));
                match out {
                    Ok(kept) => made == Some(MtpView { run: final(run)@, history: kept_view(kept) }),
                    Err(_) => made is None,
                }
            }),
    {
        let kept: Option<LayerKvCache<K::Cell>> = match history {
            Some(cache) => {
                let mut cache: LayerKvCache<K::Cell> = cache;
                self.commit_history(&mut cache, offset, &judged.accepted_history)?;
                Some(cache)
            },
            None => None,
        };
        if judged.accepted_all {
            self.read_next(run, judged.verify_token, options, Ghost(limit))?;
        }
        Ok(kept)
    }

    /// One round: guesses behind the token that was given last, and their check.
    #[verifier::spinoff_prover]
    pub fn mtp_round_once(
        &self,
        run: &mut Speculation<K::Cell>,
        history: Option<LayerKvCache<K::Cell>>,
        max_new_tokens: usize,
        max_draft_tokens: usize,
        options: &GenerationOptions<K::Cell>,
        Ghost(limit): Ghost<int>,
    ) -> (out: Result<Option<LayerKvCache<K::Cell>>, InferError>)
        requires
            self.wf(),
            old(run).wf(),
            history matches Some(cache) ==> cache@.wf(),
            old(run).generated@.len() < max_new_tokens,
            old(run).stats.covers(max_draft_tokens as int),
            old(run).stats.below(limit),
            0 <= limit <= 3 * usize::MAX,
        ensures
            out matches Err(error) ==> is_refusal(self.kernel, error, false) && (functional(self.kernel) ==> is_refusal(self.kernel, error, self.complete() && self.mtp is Some)),
            out is Ok ==> final(run).wf(),
            out matches Ok(history) ==> (history matches Some(cache) ==> cache@.wf()),
            out is Ok ==> final(run).stats.covers(max_draft_tokens as int),
            out is Ok ==> old(run).generated@.len() <= final(run).generated@.len() <= max_new_tokens,
            !may_be_hot(self.kernel, *options) && options.passes(old(run).generated@) && out is Ok ==> options.passes(final(run).generated@),
            out is Ok ==> final(run).stats.below(limit + (final(run).generated@.len() - old(run).generated@.len()) + 2),
            out is Ok && old(run).stats@.balanced() ==> final(run).stats@.balanced(),
            functional(self.kernel) ==> ({
                let s = MtpView { run: old(run)@, history: kept_view(history) };
                let made = mtp_round(*self, *options, max_new_tokens as int, max_draft_tokens as int, s);
                match out {
                    Ok(kept) => made == Some(MtpView { run: final(run)@, history: kept_view(kept) }),
                    Err(_) => made is None,
                }
            }),
    {
        let ghost start = run@;
        let keeps: bool = history.is_some();
        let mut head_cache: LayerKvCache<K::Cell> = match history {
            Some(cache) => cache,
            None => LayerKvCache::new(),
        };
        let offset: usize = if keeps {
            head_cache.len()
        } else {
            0
        };
        let judged: MtpVerifyResult<K::Cell> = self.guess_and_check(run, &mut head_cache, offset, max_new_tokens, max_draft_tokens, options, Ghost(limit))?;
        let ghost level = limit + (run.generated@.len() - start.generated.len()) + 1;
        let kept: Option<LayerKvCache<K::Cell>> = if keeps {
            Some(head_cache)
        } else {
            None
        };
        self.close_round(run, kept, offset, &judged, options, Ghost(level))
    }
}

impl<K: Kernel> DecoderModel<K> {
    /// Rounds until there are enough tokens or the generation stops.
    #[verifier::spinoff_prover]
    fn run_mtp_rounds(&self, run: &mut Speculation<K::Cell>, prompt_history: Option<LayerKvCache<K::Cell>>, max: usize, count: usize, options: &GenerationOptions<K::Cell>) -> (out: Result<
        (),
        InferError,
    >)
        requires
            self.wf(),
            old(run).wf(),
            prompt_history matches Some(cache) ==> cache@.wf(),
            old(run).generated@.len() == 0,
            old(run).stats.covers(count as int),
            old(run).stats.below(0),
            old(run).stats@.balanced(),
        ensures
            out matches Err(error) ==> is_refusal(self.kernel, error, false) && (functional(self.kernel) ==> is_refusal(self.kernel, error, self.complete() && self.mtp is Some)),
            out is Ok ==> final(run).generated@.len() <= max && final(run).stats@.balanced(),
            options.stop_token_ids@.len() == 0 && out is Ok ==> final(run).generated@.len() == max,
            !may_be_hot(self.kernel, *options) && out is Ok ==> options.passes(final(run).generated@),
            functional(self.kernel) ==> ({
                let made = mtp_rounds(*self, *options, max as int, count as int, MtpView { run: old(run)@, history: kept_view(prompt_history) });
                match out {
                    Ok(_) => made matches Some(end) && end.run.generated == final(run).generated@ && end.run.stats == final(run).stats@,
                    Err(_) => made is None,
                }
            }),
    {
        let mut history: Option<LayerKvCache<K::Cell>> = prompt_history;
        let ghost model = mtp_rounds(*self, *options, max as int, count as int, MtpView { run: run@, history: kept_view(history) });
        while run.generated.len() < max
            invariant_except_break
                functional(self.kernel) ==> model == mtp_rounds(
                    *self,
                    *options,
                    max as int,
                    count as int,
                    MtpView { run: run@, history: kept_view(history) },
                ),
            invariant
                self.wf(),
                run.wf(),
                history matches Some(cache) ==> cache@.wf(),
                run.generated@.len() <= max,
                !may_be_hot(self.kernel, *options) ==> options.passes(run.generated@),
                run.stats.covers(count as int),
                run.stats.below(3 * (run.generated@.len() as int)),
                run.stats@.balanced(),
                model == mtp_rounds(*self, *options, max as int, count as int, MtpView { run: old(run)@, history: kept_view(prompt_history) }),
            ensures
                options.stop_token_ids@.len() == 0 ==> run.generated@.len() == max,
                functional(self.kernel) ==> (model matches Some(end) && end.run.generated == run.generated@ && end.run.stats == run.stats@),
            decreases max - run.generated@.len(),
        {
            let ghost before = MtpView { run: run@, history: kept_view(history) };
            let ghost level: int = 3 * (run.generated@.len() as int);
            if options.is_stop_token(run.pending) {
                break;
            }
            let primary: usize = run.pending;
            run.generated.push(primary);
            proof {
                assert(run@ =~= given(before).run);
            }
            if run.generated.len() >= max {
                break;
            }
            history = self.mtp_round_once(run, history, max, count, options, Ghost(level))?;
        }
        Ok(())
    }
}

impl<K: Kernel> CausalDecoder<K> {
    /// What a prompt leaves for a generation with a head's guesses: the cache, the
    /// state, and the head's cache where it is kept.
    fn prefill_for_mtp(&mut self, prompt: &Vec<usize>) -> (out: Result<(CausalDecoderCache<K::Cell>, Tensor<K::Cell>, Option<LayerKvCache<K::Cell>>), InferError>)
        requires
            old(self).wf(),
            prompt@.len() > 0,
        ensures
            out matches Err(error) ==> error.is_misfit(old(self).model.complete() && old(self).model.mtp is Some),
            final(self).wf(),
            final(self).model == old(self).model,
            out matches Ok(out) ==> out.0@.wf() && out.1.is_matrix() && out.1.shape@[0] == 1 && (out.2 matches Some(cache) ==> cache@.wf()),
            functional(old(self).model.kernel) ==> if old(self).model.flags.mtp_committed_history {
                &&& final(self).prefix_cache@ == old(self).prefix_cache@
                &&& match out {
                    Ok(out) => out.2 is Some && prefilled_with_history(old(self).model, prompt@) == Some(
                        (out.0@, out.1.rows()[0], (out.2->0)@),
                    ),
                    Err(_) => prefilled_with_history(old(self).model, prompt@) is None,
                }
            } else {
                &&& final(self).prefix_cache@ == served(old(self).model, old(self).prefix_cache@, prompt@).1
                &&& match out {
                    Ok(out) => out.2 is None && served(old(self).model, old(self).prefix_cache@, prompt@).0 == Some(
                        (out.0@, out.1.rows()[0]),
                    ),
                    Err(_) => served(old(self).model, old(self).prefix_cache@, prompt@).0 is None,
                }
            },
    {
        if self.model.flags.mtp_committed_history {
            let (cache, state, history) = self.model.prefill_cache_state_with_mtp_history(prompt)?;
            Ok((cache, state, Some(history)))
        } else {
            let made: Prefilled<K::Cell> = self.prefill_cache_state(prompt)?;
            Ok((made.0, made.1, None))
        }
    }

    /// Generates from a prompt with the guesses of the head, each checked against the
    /// decoder. Refused without a head, without guesses, and where the prompt is
    /// empty.
    #[verifier::spinoff_prover]
    pub fn generate_greedy_mtp_batched_with_options(&mut self, prompt: &Vec<usize>, max_new_tokens: usize, options: &GenerationOptions<K::Cell>, max_draft_tokens: usize) -> (out: Result<SpeculativeOutput, InferError>)
        requires
            old(self).wf(),
        ensures
            out matches Err(error) ==> is_refusal(old(self).model.kernel, error, false) && (functional(old(self).model.kernel) ==> is_refusal(old(self).model.kernel, error, old(self).model.complete() && old(self).model.mtp is Some && max_draft_tokens > 0)),
            final(self).wf(),
            final(self).model == old(self).model,
            old(self).model.mtp is None || max_draft_tokens == 0 ==> (out matches Err(error) && error is Config),
            old(self).model.mtp is Some && max_draft_tokens > 0 && prompt@.len() == 0 ==> (out matches Err(error) && error is Dimension),
            old(self).model.mtp is Some && max_draft_tokens > 0 && prompt@.len() > 0 && max_new_tokens == 0 ==> out is Ok,
            out matches Ok(out) ==> out.tokens@.len() <= max_new_tokens && out.stats@.balanced(),
            options.stop_token_ids@.len() == 0 ==> (out matches Ok(out) ==> out.tokens@.len() == max_new_tokens),
            !may_be_hot(old(self).model.kernel, *options) ==> (out matches Ok(out) ==> options.passes(out.tokens@)),
            functional(old(self).model.kernel) ==> {
                let (made, entries) = mtp_generated(
                    old(self).model,
                    old(self).prefix_cache@,
                    *options,
                    prompt@,
                    max_new_tokens as int,
                    max_draft_tokens as int,
                );
                &&& final(self).prefix_cache@ == entries
                &&& match out {
                    Ok(out) => made == Some((out.tokens@, out.stats@)),
                    Err(_) => made is None,
                }
            },
    {
        if self.model.mtp.is_none() {
            return Err(InferError::Config("no head to guess tokens with"));
        }
        if max_draft_tokens == 0 {
            return Err(InferError::Config("no tokens to guess"));
        }
        if prompt.len() == 0 {
            return Err(InferError::Dimension("empty prompt"));
        }
        if max_new_tokens == 0 {
            let tokens: Vec<usize> = Vec::new();
            assert(tokens@ =~= Seq::<usize>::empty());
            proof {
                crate::stats::law_zero_balanced(0);
            }
            return Ok(SpeculativeOutput { tokens, stats: SpeculativeStats::new(0), loop_duration: 0 });
        }
        let (cache, final_state, prompt_history) = self.prefill_for_mtp(prompt)?;
        let m: &DecoderModel<K> = &self.model;
        let max: usize = max_new_tokens;
        let count: usize = max_draft_tokens;
        let mut sampler: TokenSampler = TokenSampler::new(options.seed);
        let pending: usize = m.sample_token_from_state(&final_state, options, &mut sampler)?;
        let started: u64 = m.kernel.nanoseconds();
        let mut run: Speculation<K::Cell> = Speculation {
            cache,
            final_state,
            pending,
            generated: Vec::new(),
            sampler,
            stats: SpeculativeStats::new(count),
        };
        proof {
            assert(run.generated@ =~= Seq::<usize>::empty());
            crate::stats::law_zero_balanced(count as int);
        }
        m.run_mtp_rounds(&mut run, prompt_history, max, count, options)?;
        let loop_duration: u64 = elapsed(&m.kernel, started);
        Ok(SpeculativeOutput { tokens: run.generated, stats: run.stats, loop_duration })
    }
}

} // verus!
