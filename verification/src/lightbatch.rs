//! Several generations of one decoder, a token each in turn.

use vstd::prelude::*;
use crate::decode::{advanced, started, DecodeView, GenerationOutput, GenerationTimings};
use crate::decoder::{served, CausalDecoder};
use crate::error::InferError;
use crate::kernel::{elapsed, functional, is_refusal, Kernel};
use crate::model::{CausalDecoderCache, DecoderModel};
use crate::options::{ends_with_any, generated_matches_stop_sequence, GenerationOptions, TokenSampler};
use crate::prefill::Prefilled;
use crate::prefix_cache::EntryView;
use crate::sink::{TokenLog, TokenSink};
use crate::tensor::Tensor;

verus! {

/// Where one of several generations stands. The first is the principal one, the
/// others run in the background.
pub struct LightBatchStream<C> {
    pub index: usize,
    /// Tokens asked for.
    pub max_new: usize,
    pub cache: CausalDecoderCache<C>,
    pub sampler: TokenSampler,
    /// The token that comes next.
    pub token: usize,
    pub generated: Vec<usize>,
    /// Tokens taken through the decoder.
    pub step: usize,
    pub done: bool,
    pub prefill: u64,
    pub decode: u64,
}

/// Where several generations stand, between two rounds.
pub struct LightBatchRun<C> {
    pub streams: Vec<LightBatchStream<C>>,
    /// The background streams have a turn in every so many rounds.
    pub stride: u64,
    /// Rounds that are behind.
    pub round: u64,
    pub over: bool,
}

/// The contents of a [`LightBatchStream`].
#[verifier::ext_equal]
pub struct StreamView<C> {
    pub index: usize,
    pub max: int,
    pub at: DecodeView<C>,
    pub given: Seq<usize>,
    pub step: int,
    pub done: bool,
}

impl<C> View for LightBatchStream<C> {
    type V = StreamView<C>;

    open spec fn view(&self) -> StreamView<C> {
        StreamView {
            index: self.index,
            max: self.max_new as int,
            at: DecodeView { cache: self.cache@, token: self.token, sampler: self.sampler@ },
            given: self.generated@,
            step: self.step as int,
            done: self.done,
        }
    }
}

impl<C> StreamView<C> {
    /// Turns that the stream may still need.
    pub open spec fn work(self) -> int {
        if self.done {
            0
        } else if self.max > self.step {
            self.max - self.step + 1
        } else {
            1
        }
    }
}

impl<C> LightBatchStream<C> {
    pub open spec fn wf(&self) -> bool {
        &&& self.cache@.wf()
        &&& self.step < self.max_new
        &&& !self.done ==> self.generated@.len() == self.step
        &&& self.generated@.len() <= self.max_new
    }
}

/// A stream gives its next token, and the sink is told of it. The flag says whether
/// the token is then to go through the decoder.
pub open spec fn pushed<C: Copy>(options: GenerationOptions<C>, s: StreamView<C>, told: Seq<(usize, usize)>) -> (StreamView<C>, Seq<(usize, usize)>, bool) {
    if s.done {
        (s, told, false)
    } else if options.stops_at(s.at.token) {
        (StreamView { done: true, ..s }, told, false)
    } else {
        let now = s.given.push(s.at.token);
        let told_now = told.push((s.index, s.at.token));
        if ends_with_any(now, options.stop_sequences@) || s.step + 1 >= s.max {
            (StreamView { given: now, done: true, ..s }, told_now, false)
        } else {
            (StreamView { given: now, ..s }, told_now, true)
        }
    }
}

/// A turn of one stream.
pub open spec fn stream_turn<K: Kernel>(m: DecoderModel<K>, options: GenerationOptions<K::Cell>, s: StreamView<K::Cell>, told: Seq<(usize, usize)>) -> Option<(StreamView<K::Cell>, Seq<(usize, usize)>)> {
    let (after, told_now, goes_on) = pushed(options, s, told);
    if goes_on {
        match advanced(m, options, after.at) {
            Some(at) => Some((StreamView { at, step: after.step + 1, ..after }, told_now)),
            None => None,
        }
    } else {
        Some((after, told_now))
    }
}

/// A round of the streams from `i` on: the principal one has a turn, the others
/// where it is theirs.
pub open spec fn turns<K: Kernel>(m: DecoderModel<K>, options: GenerationOptions<K::Cell>, background: bool, streams: Seq<StreamView<K::Cell>>, told: Seq<(usize, usize)>, i: int) -> Option<(Seq<StreamView<K::Cell>>, Seq<(usize, usize)>)>
    decreases streams.len() - i,
{
    if i < 0 || i >= streams.len() {
        Some((streams, told))
    } else if streams[i].index > 0 && !background {
        turns(m, options, background, streams, told, i + 1)
    } else {
        match stream_turn(m, options, streams[i], told) {
            Some((after, told_now)) => turns(m, options, background, streams.update(i, after), told_now, i + 1),
            None => None,
        }
    }
}

/// Every stream is done.
pub open spec fn all_done<C>(streams: Seq<StreamView<C>>) -> bool {
    forall|i: int| 0 <= i < streams.len() ==> (#[trigger] streams[i]).done
}

/// Turns that the streams may still need.
pub open spec fn work_left<C>(streams: Seq<StreamView<C>>) -> int
    decreases streams.len(),
{
    if streams.len() == 0 {
        0
    } else {
        work_left(streams.drop_last()) + streams.last().work()
    }
}

/// The number of the round after another.
pub open spec fn next_round(round: u64) -> u64 {
    if round == u64::MAX {
        0
    } else {
        (round + 1) as u64
    }
}

/// The background streams have a turn: in every round of a small stride, in every
/// so many rounds of a larger one, and always once the principal one is done.
pub open spec fn background_turn(stride: u64, round: u64, principal_done: bool) -> bool {
    stride <= 1 || round % stride == 0 || principal_done
}

pub proof fn lemma_work_nonneg<C>(streams: Seq<StreamView<C>>)
    ensures
        work_left(streams) >= 0,
    decreases streams.len(),
{
    if streams.len() > 0 {
        lemma_work_nonneg(streams.drop_last());
    }
}

/// A change of one stream changes the work left by the change of its own.
pub proof fn lemma_work_update<C>(streams: Seq<StreamView<C>>, i: int, s: StreamView<C>)
    requires
        0 <= i < streams.len(),
    ensures
        work_left(streams.update(i, s)) == work_left(streams) - streams[i].work() + s.work(),
    decreases streams.len(),
{
    let after = streams.update(i, s);
    if i == streams.len() - 1 {
        assert(after.drop_last() =~= streams.drop_last());
    } else {
        lemma_work_update(streams.drop_last(), i, s);
        assert(after.drop_last() =~= streams.drop_last().update(i, s));
    }
}

/// A turn takes work off a stream that is not done.
pub proof fn lemma_turn_works<K: Kernel>(m: DecoderModel<K>, options: GenerationOptions<K::Cell>, s: StreamView<K::Cell>, told: Seq<(usize, usize)>)
    ensures
        stream_turn(m, options, s, told) matches Some(made) ==> {
            &&& made.0.work() <= s.work()
            &&& !s.done ==> made.0.work() < s.work()
            &&& made.0.index == s.index
            &&& made.0.max == s.max
        },
{
}

/// A round takes work off where a stream that is not done has a turn.
pub proof fn lemma_turns_work<K: Kernel>(m: DecoderModel<K>, options: GenerationOptions<K::Cell>, background: bool, streams: Seq<StreamView<K::Cell>>, told: Seq<(usize, usize)>, i: int, j: int)
    requires
        0 <= i,
    ensures
        turns(m, options, background, streams, told, i) matches Some(made) ==> {
            &&& made.0.len() == streams.len()
            &&& work_left(made.0) <= work_left(streams)
            &&& i <= j < streams.len() && !streams[j].done && (streams[j].index == 0 || background) ==> work_left(made.0) < work_left(streams)
        },
    decreases streams.len() - i,
{
    if i < streams.len() {
        if streams[i].index > 0 && !background {
            lemma_turns_work(m, options, background, streams, told, i + 1, j);
        } else if stream_turn(m, options, streams[i], told) is Some {
            let (after, told_now) = stream_turn(m, options, streams[i], told)->0;
            lemma_turn_works(m, options, streams[i], told);
            lemma_work_update(streams, i, after);
            lemma_turns_work(m, options, background, streams.update(i, after), told_now, i + 1, j);
        }
    }
}

/// Rounds until every stream is done.
pub open spec fn rounds<K: Kernel>(m: DecoderModel<K>, options: GenerationOptions<K::Cell>, stride: u64, round: u64, streams: Seq<StreamView<K::Cell>>, told: Seq<(usize, usize)>) -> Option<(Seq<StreamView<K::Cell>>, Seq<(usize, usize)>)>
    decreases work_left(streams),
{
    let now = next_round(round);
    let background = background_turn(stride, now, streams[0].done);
    if streams.len() == 0 || streams[0].index != 0 || all_done(streams) {
        Some((streams, told))
    } else {
        proof {
            let j = if streams[0].done {
                choose|j: int| 0 <= j < streams.len() && !(#[trigger] streams[j]).done
            } else {
                0
            };
            lemma_turns_work(m, options, background, streams, told, 0, j);
            lemma_work_nonneg(streams);
            if turns(m, options, background, streams, told, 0) is Some {
                lemma_work_nonneg((turns(m, options, background, streams, told, 0)->0).0);
            }
        }
        match turns(m, options, background, streams, told, 0) {
            Some((after, told_now)) => rounds(m, options, stride, now, after, told_now),
            None => None,
        }
    }
}

/// The first `n` streams, each behind its prompt, and the entries the decoder then
/// keeps.
pub open spec fn opened<K: Kernel>(m: DecoderModel<K>, entries: Seq<EntryView<K::Cell>>, options: GenerationOptions<K::Cell>, prompts: Seq<Vec<usize>>, budgets: Seq<usize>, n: int) -> (Option<Seq<StreamView<K::Cell>>>, Seq<EntryView<K::Cell>>)
    decreases n,
{
    if n <= 0 {
        (Some(Seq::empty()), entries)
    } else {
        let (made, kept) = opened(m, entries, options, prompts, budgets, n - 1);
        match made {
            Some(streams) => {
                let (prompt, after) = served(m, kept, prompts[n - 1]@);
                match prompt {
                    Some((cache, state)) => match started(m, options, cache, state) {
                        Some(at) => (
                            Some(
                                streams.push(
                                    StreamView {
                                        index: (n - 1) as usize,
                                        max: budgets[n - 1] as int,
                                        at,
                                        given: Seq::empty(),
                                        step: 0,
                                        done: false,
                                    },
                                ),
                            ),
                            after,
                        ),
                        None => (None, after),
                    },
                    None => (None, after),
                }
            },
            None => (None, kept),
        }
    }
}

/// Several generations can be asked for: there are prompts, and a budget above zero
/// for each.
pub open spec fn askable(prompts: Seq<Vec<usize>>, budgets: Seq<usize>) -> bool {
    &&& prompts.len() > 0
    &&& prompts.len() == budgets.len()
    &&& !budgets.contains(0)
}

/// There are prompts, and none of them is empty.
pub open spec fn promptable(prompts: Seq<Vec<usize>>) -> bool {
    &&& prompts.len() > 0
    &&& forall|i: int| 0 <= i < prompts.len() ==> (#[trigger] prompts[i])@.len() > 0
}

/// Several generations in turn: the streams at their end, the tokens that the sink
/// was told of, and the entries the decoder then keeps.
pub open spec fn lightbatch<K: Kernel>(
    m: DecoderModel<K>,
    entries: Seq<EntryView<K::Cell>>,
    options: GenerationOptions<K::Cell>,
    prompts: Seq<Vec<usize>>,
    budgets: Seq<usize>,
    stride: u64,
    told: Seq<(usize, usize)>,
) -> (Option<(Seq<StreamView<K::Cell>>, Seq<(usize, usize)>)>, Seq<EntryView<K::Cell>>) {
    if !askable(prompts, budgets) {
        (None, entries)
    } else {
        let (streams, after) = opened(m, entries, options, prompts, budgets, prompts.len() as int);
        match streams {
            Some(streams) => (rounds(m, options, stride, 0, streams, told), after),
            None => (None, after),
        }
    }
}

pub open spec fn stream_views<C>(streams: Seq<LightBatchStream<C>>) -> Seq<StreamView<C>> {
    Seq::new(streams.len(), |i: int| streams[i]@)
}

impl<C> LightBatchRun<C> {
    pub open spec fn views(&self) -> Seq<StreamView<C>> {
        stream_views(self.streams@)
    }

    pub open spec fn wf(&self) -> bool {
        &&& self.streams@.len() > 0
        &&& forall|i: int| 0 <= i < self.streams@.len() ==> (#[trigger] self.streams@[i]).wf() && self.streams@[i].index == i
        &&& self.over == all_done(self.views())
    }
}

/// The rounds that a run still has before it.
pub open spec fn rounds_left<K: Kernel>(m: DecoderModel<K>, options: GenerationOptions<K::Cell>, run: LightBatchRun<K::Cell>, told: Seq<(usize, usize)>) -> Option<(Seq<StreamView<K::Cell>>, Seq<(usize, usize)>)> {
    rounds(m, options, run.stride, run.round, run.views(), told)
}

/// What results say of streams at their end.
pub open spec fn outputs_agree<C>(outputs: Seq<GenerationOutput>, streams: Seq<StreamView<C>>) -> bool {
    &&& outputs.len() == streams.len()
    &&& forall|i: int|
        0 <= i < streams.len() ==> (#[trigger] outputs[i]).tokens@ == streams[i].given && outputs[i].timings.decode_tokens == streams[i].step
}

impl<K: Kernel> DecoderModel<K> {
    /// A stream gives its next token, and the sink is told of it. Says whether the
    /// token is then to go through the decoder.
    pub fn resolve_lightbatch_push<S: TokenSink>(&self, stream: &mut LightBatchStream<K::Cell>, options: &GenerationOptions<K::Cell>, on_token: &mut S) -> (goes_on: bool)
        requires
            old(stream).wf(),
        ensures
            final(on_token).policy() == old(on_token).policy(),
            (final(stream)@, final(on_token).told(), goes_on) == pushed(*options, old(stream)@, old(on_token).told()),
            final(stream).cache@ == old(stream).cache@,
            !goes_on ==> final(stream).wf(),
            goes_on ==> final(stream).step + 1 < final(stream).max_new && final(stream).generated@.len() == final(stream).step + 1 && !final(stream).done,
    {
        if stream.done {
            return false;
        }
        if options.is_stop_token(stream.token) {
            stream.done = true;
            return false;
        }
        stream.generated.push(stream.token);
        on_token.on_token(stream.index, stream.token);
        if generated_matches_stop_sequence(&stream.generated, &options.stop_sequences) {
            stream.done = true;
            return false;
        }
        if stream.step + 1 >= stream.max_new {
            stream.done = true;
            return false;
        }
        true
    }

    /// Takes the token of a stream through the decoder and reads the next.
    pub fn decode_lightbatch_step(&self, stream: &mut LightBatchStream<K::Cell>, options: &GenerationOptions<K::Cell>) -> (out: Result<(), InferError>)
        requires
            self.wf(),
            old(stream).cache@.wf(),
            old(stream).step + 1 < old(stream).max_new,
            old(stream).generated@.len() == old(stream).step + 1,
            !old(stream).done,
        ensures
            out matches Err(error) ==> is_refusal(self.kernel, error, self.complete()),
            out is Ok ==> final(stream).wf(),
            final(stream).index == old(stream).index,
            final(stream).max_new == old(stream).max_new,
            final(stream).done == old(stream).done,
            out is Ok ==> final(stream).step == old(stream).step + 1 && final(stream).generated@ == old(stream).generated@,
            functional(self.kernel) ==> match out {
                Ok(_) => advanced(*self, *options, old(stream)@.at) matches Some(at) && final(stream)@ == (StreamView {
                    at,
                    step: old(stream).step + 1,
                    ..old(stream)@
                }),
                Err(_) => advanced(*self, *options, old(stream)@.at) is None,
            },
    {
        let begun: u64 = self.kernel.nanoseconds();
        let state: Tensor<K::Cell> = self.next_decode_state(&mut stream.cache, stream.token)?;
        stream.token = self.sample_token_from_state(&state, options, &mut stream.sampler)?;
        let passed: u64 = elapsed(&self.kernel, begun);
        stream.decode = match stream.decode.checked_add(passed) {
            Some(sum) => sum,
            None => u64::MAX,
        };
        stream.step = stream.step + 1;
        Ok(())
    }

    /// Gives a stream its turn.
    pub fn advance_lightbatch_stream<S: TokenSink>(&self, stream: &mut LightBatchStream<K::Cell>, options: &GenerationOptions<K::Cell>, on_token: &mut S) -> (out: Result<bool, InferError>)
        requires
            self.wf(),
            old(stream).wf(),
        ensures
            out matches Err(error) ==> is_refusal(self.kernel, error, self.complete()),
            out is Ok ==> final(stream).wf(),
            final(on_token).policy() == old(on_token).policy(),
            final(stream).index == old(stream).index,
            final(stream).max_new == old(stream).max_new,
            out is Ok ==> final(stream)@.work() <= old(stream)@.work(),
            out is Ok && !old(stream).done ==> final(stream)@.work() < old(stream)@.work(),
            out matches Ok(advanced) ==> (advanced ==> !final(stream).done),
            functional(self.kernel) ==> match out {
                Ok(_) => stream_turn(*self, *options, old(stream)@, old(on_token).told()) == Some(
                    (final(stream)@, final(on_token).told()),
                ),
                Err(_) => stream_turn(*self, *options, old(stream)@, old(on_token).told()) is None,
            },
    {
        if !self.resolve_lightbatch_push(stream, options, on_token) {
            return Ok(false);
        }
        self.decode_lightbatch_step(stream, options)?;
        Ok(true)
    }

    /// Whether the background streams have a turn.
    pub fn is_background_turn(&self, stride: u64, round: u64, principal_done: bool) -> (turn: bool)
        ensures
            turn == background_turn(stride, round, principal_done),
    {
        stride <= 1 || round % stride == 0 || principal_done
    }

    /// Gives every stream its turn of a round. Says whether one of them went on.
    #[verifier::spinoff_prover]
    fn lightbatch_round<S: TokenSink>(&self, streams: &mut Vec<LightBatchStream<K::Cell>>, background: bool, options: &GenerationOptions<K::Cell>, on_token: &mut S) -> (out: Result<bool, InferError>)
        requires
            self.wf(),
            forall|i: int| 0 <= i < old(streams)@.len() ==> (#[trigger] old(streams)@[i]).wf(),
        ensures
            out matches Err(error) ==> is_refusal(self.kernel, error, self.complete()),
            out is Ok ==> forall|i: int| 0 <= i < final(streams)@.len() ==> (#[trigger] final(streams)@[i]).wf(),
            final(streams)@.len() == old(streams)@.len(),
            final(on_token).policy() == old(on_token).policy(),
            out is Ok ==> forall|i: int|
                0 <= i < final(streams)@.len() ==> (#[trigger] final(streams)@[i]).index == old(streams)@[i].index && final(streams)@[i].max_new
                    == old(streams)@[i].max_new,
            out is Ok ==> work_left(stream_views(final(streams)@)) <= work_left(stream_views(old(streams)@)),
            out is Ok ==> forall|j: int|
                0 <= j < old(streams)@.len() && !(#[trigger] old(streams)@[j]).done && (old(streams)@[j].index == 0 || background) ==> work_left(
                    stream_views(final(streams)@),
                ) < work_left(stream_views(old(streams)@)),
            out matches Ok(advanced) ==> (advanced ==> !all_done(stream_views(final(streams)@))),
            functional(self.kernel) ==> match out {
                Ok(_) => turns(*self, *options, background, stream_views(old(streams)@), old(on_token).told(), 0) == Some(
                    (stream_views(final(streams)@), final(on_token).told()),
                ),
                Err(_) => turns(*self, *options, background, stream_views(old(streams)@), old(on_token).told(), 0) is None,
            },
    {
        let n: usize = streams.len();
        let ghost start = streams@;
        let ghost views = stream_views(streams@);
        let ghost told = on_token.told();
        let mut went_on: bool = false;
        let mut i: usize = 0;
        while i < n
            invariant
                i <= n,
                self.wf(),
                n == streams@.len(),
                start == old(streams)@,
                start.len() == n,
                views == stream_views(start),
                told == old(on_token).told(),
                on_token.policy() == old(on_token).policy(),
                forall|j: int| 0 <= j < n ==> (#[trigger] streams@[j]).wf(),
                forall|j: int| 0 <= j < n ==> (#[trigger] streams@[j]).index == start[j].index && streams@[j].max_new == start[j].max_new,
                forall|j: int| i <= j < n ==> (#[trigger] streams@[j]) == start[j],
                work_left(stream_views(streams@)) <= work_left(views),
                forall|j: int|
                    0 <= j < i && !(#[trigger] start[j]).done && (start[j].index == 0 || background) ==> work_left(stream_views(streams@))
                        < work_left(views),
                went_on ==> exists|j: int| 0 <= j < i && !(#[trigger] streams@[j]).done,
                functional(self.kernel) ==> turns(*self, *options, background, views, told, 0) == turns(
                    *self,
                    *options,
                    background,
                    stream_views(streams@),
                    on_token.told(),
                    i as int,
                ),
            decreases n - i,
        {
            if streams[i].index > 0 && !background {
                proof {
                    assert(stream_views(streams@)[i as int] == streams@[i as int]@);
                }
                i = i + 1;
                continue;
            }
            let ghost before = streams@;
            let ghost seen = stream_views(before);
            assert(seen[i as int] == streams@[i as int]@);
            let advanced: bool = self.advance_lightbatch_stream(&mut streams[i], options, on_token)?;
            proof {
                let after = streams@[i as int];
                assert(stream_views(streams@) =~= seen.update(i as int, after@));
                lemma_work_update(seen, i as int, after@);
                if went_on {
                    let j = choose|j: int| 0 <= j < i && !(#[trigger] before[j]).done;
                    assert(streams@[j] == before[j]);
                }
                if advanced {
                    assert(!streams@[i as int].done);
                }
            }
            went_on = went_on || advanced;
            i = i + 1;
        }
        proof {
            if went_on {
                let j = choose|j: int| 0 <= j < n && !(#[trigger] streams@[j]).done;
                assert(!stream_views(streams@)[j].done);
            }
        }
        Ok(went_on)
    }

    /// Gives every stream of a run its turn of the next round, and tells the sink of the
    /// tokens that come.
    #[verifier::spinoff_prover]
    pub fn next_lightbatch_round<S: TokenSink>(&self, run: &mut LightBatchRun<K::Cell>, options: &GenerationOptions<K::Cell>, on_token: &mut S) -> (out: Result<(), InferError>)
        requires
            self.wf(),
            old(run).wf(),
            !old(run).over,
        ensures
            out matches Err(error) ==> is_refusal(self.kernel, error, self.complete()),
            out is Ok ==> final(run).wf(),
            final(run).streams@.len() == old(run).streams@.len(),
            final(run).stride == old(run).stride,
            final(run).round == next_round(old(run).round),
            final(on_token).policy() == old(on_token).policy(),
            out is Ok ==> forall|i: int| 0 <= i < final(run).streams@.len() ==> (#[trigger] final(run).streams@[i]).max_new == old(run).streams@[i].max_new,
            out is Ok ==> work_left(final(run).views()) < work_left(old(run).views()),
            functional(self.kernel) ==> match out {
                Ok(_) => {
                    &&& turns(
                        *self,
                        *options,
                        background_turn(old(run).stride, next_round(old(run).round), old(run).streams@[0].done),
                        old(run).views(),
                        old(on_token).told(),
                        0,
                    ) == Some((final(run).views(), final(on_token).told()))
                    &&& rounds_left(*self, *options, *old(run), old(on_token).told()) == rounds_left(*self, *options, *final(run), final(on_token).told())
                },
                Err(_) => rounds_left(*self, *options, *old(run), old(on_token).told()) is None,
            },
    {
        let ghost views = run.views();
        run.round = if run.round == u64::MAX {
            0
        } else {
            run.round + 1
        };
        let background: bool = self.is_background_turn(run.stride, run.round, run.streams[0].done);
        proof {
            assert(views[0] == run.streams@[0]@);
            let j = if run.streams@[0].done {
                choose|j: int| 0 <= j < views.len() && !(#[trigger] views[j]).done
            } else {
                0
            };
            assert(views[j] == run.streams@[j]@);
            assert(!run.streams@[j].done);
        }
        let advanced: bool = self.lightbatch_round(&mut run.streams, background, options, on_token)?;
        let n: usize = run.streams.len();
        let mut left: bool = false;
        for i in 0..n
            invariant
                n == run.streams@.len(),
                left == !(forall|j: int| 0 <= j < i ==> (#[trigger] stream_views(run.streams@)[j]).done),
        {
            assert(stream_views(run.streams@)[i as int].done == run.streams@[i as int].done);
            if !run.streams[i].done {
                left = true;
            }
        }
        run.over = !advanced && !left;
        Ok(())
    }
}

/// Refuses several generations without prompts, or where a budget is missing or
/// zero.
pub fn check_askable(prompts: &Vec<Vec<usize>>, budgets: &Vec<usize>) -> (out: Result<(), InferError>)
    ensures
        out is Ok <==> askable(prompts@, budgets@),
        out matches Err(error) ==> error is Dimension,
{
    let n: usize = prompts.len();
    if n == 0 {
        return Err(InferError::Dimension("no prompts"));
    }
    if n != budgets.len() {
        return Err(InferError::Dimension("prompts and budgets differ in number"));
    }
    for i in 0..n
        invariant
            n == budgets@.len(),
            forall|j: int| 0 <= j < i ==> budgets@[j] != 0,
    {
        if budgets[i] == 0 {
            assert(budgets@.contains(0));
            return Err(InferError::Dimension("a budget of no tokens"));
        }
    }
    Ok(())
}

/// Refuses several generations without prompts, or with an empty one.
pub fn check_promptable(prompts: &Vec<Vec<usize>>) -> (out: Result<(), InferError>)
    ensures
        out is Ok <==> promptable(prompts@),
        out matches Err(error) ==> error is Dimension,
{
    let n: usize = prompts.len();
    if n == 0 {
        return Err(InferError::Dimension("no prompts"));
    }
    for i in 0..n
        invariant
            n == prompts@.len(),
            forall|j: int| 0 <= j < i ==> (#[trigger] prompts@[j])@.len() > 0,
    {
        if prompts[i].len() == 0 {
            assert(prompts@[i as int]@.len() == 0);
            return Err(InferError::Dimension("empty prompt"));
        }
    }
    Ok(())
}

/// What streams at their end have given.
pub fn lightbatch_outputs<C: Copy>(ended: Vec<LightBatchStream<C>>) -> (outputs: Vec<GenerationOutput>)
    ensures
        outputs_agree(outputs@, stream_views(ended@)),
{
    let n: usize = ended.len();
    let ghost ends = ended@;
    let mut streams: Vec<LightBatchStream<C>> = ended;
    let mut outputs: Vec<GenerationOutput> = Vec::new();
    let mut i: usize = 0;
    while i < n
        invariant
            i <= n,
            n == ends.len(),
            ends == ended@,
            streams@.len() == n - i,
            outputs@.len() == i,
            forall|j: int| 0 <= j < n - i ==> (#[trigger] streams@[j]) == ends[i + j],
            forall|j: int|
                0 <= j < i ==> (#[trigger] outputs@[j]).tokens@ == ends[j].generated@ && outputs@[j].timings.decode_tokens == ends[j].step,
        decreases n - i,
    {
        let stream: LightBatchStream<C> = streams.remove(0);
        assert(stream == ends[i as int]);
        outputs.push(
            GenerationOutput {
                tokens: stream.generated,
                timings: GenerationTimings { prefill: stream.prefill, decode: stream.decode, decode_tokens: stream.step },
            },
        );
        i = i + 1;
    }
    proof {
        let views = stream_views(ends);
        assert forall|j: int| 0 <= j < views.len() implies (#[trigger] outputs@[j]).tokens@ == views[j].given && outputs@[j].timings.decode_tokens
            == views[j].step by {
            assert(views[j] == ends[j]@);
        }
    }
    outputs
}

impl<K: Kernel> CausalDecoder<K> {
    /// Takes the prompt of one of several generations through the decoder.
    pub fn prefill_lightbatch_stream(&mut self, prompt: &Vec<usize>, max_new_tokens: usize, options: &GenerationOptions<K::Cell>, slot: usize) -> (out: Result<LightBatchStream<K::Cell>, InferError>)
        requires
            old(self).wf(),
            max_new_tokens > 0,
        ensures
            out matches Err(error) ==> is_refusal(old(self).model.kernel, error, old(self).model.complete()),
            final(self).wf(),
            final(self).model == old(self).model,
            out matches Ok(stream) ==> stream.wf() && stream.index == slot && stream.max_new == max_new_tokens && !stream.done && stream.step == 0,
            prompt@.len() == 0 ==> (out matches Err(error) && error is Dimension),
            functional(old(self).model.kernel) ==> {
                let (made, entries) = served(old(self).model, old(self).prefix_cache@, prompt@);
                &&& final(self).prefix_cache@ == entries
                &&& match out {
                    Ok(stream) => made matches Some(made) && started(old(self).model, *options, made.0, made.1) == Some(stream@.at)
                        && stream@.given.len() == 0,
                    Err(_) => made matches Some(made) ==> started(old(self).model, *options, made.0, made.1) is None,
                }
            },
    {
        let begun: u64 = self.model.kernel.nanoseconds();
        let made: Prefilled<K::Cell> = self.prefill_cache_state(prompt)?;
        let mut sampler: TokenSampler = TokenSampler::new(options.seed);
        let token: usize = self.model.sample_token_from_state(&made.1, options, &mut sampler)?;
        let prefill: u64 = elapsed(&self.model.kernel, begun);
        Ok(
            LightBatchStream {
                index: slot,
                max_new: max_new_tokens,
                cache: made.0,
                sampler,
                token,
                generated: Vec::new(),
                step: 0,
                done: false,
                prefill,
                decode: 0,
            },
        )
    }

    fn open_lightbatch(&mut self, prompts: &Vec<Vec<usize>>, max_new_tokens: &Vec<usize>, options: &GenerationOptions<K::Cell>) -> (out: Result<Vec<LightBatchStream<K::Cell>>, InferError>)
        requires
            old(self).wf(),
            askable(prompts@, max_new_tokens@),
        ensures
            out matches Err(error) ==> is_refusal(old(self).model.kernel, error, old(self).model.complete()),
            final(self).wf(),
            final(self).model == old(self).model,
            out matches Ok(streams) ==> {
                &&& streams@.len() == prompts@.len()
                &&& forall|i: int|
                    0 <= i < streams@.len() ==> (#[trigger] streams@[i]).wf() && streams@[i].index == i && streams@[i].max_new
                        == max_new_tokens@[i] && !streams@[i].done
            },
            functional(old(self).model.kernel) ==> {
                let (made, entries) = opened(
                    old(self).model,
                    old(self).prefix_cache@,
                    *options,
                    prompts@,
                    max_new_tokens@,
                    prompts@.len() as int,
                );
                &&& final(self).prefix_cache@ == entries
                &&& match out {
                    Ok(streams) => made == Some(stream_views(streams@)),
                    Err(_) => made is None,
                }
            },
    {
        let n: usize = prompts.len();
        let mut streams: Vec<LightBatchStream<K::Cell>> = Vec::new();
        assert(stream_views(streams@) =~= Seq::<StreamView<K::Cell>>::empty());
        let mut i: usize = 0;
        while i < n
            invariant
                i <= n,
                n == prompts@.len(),
                askable(prompts@, max_new_tokens@),
                self.wf(),
                self.model == old(self).model,
                streams@.len() == i,
                forall|j: int|
                    0 <= j < i ==> (#[trigger] streams@[j]).wf() && streams@[j].index == j && streams@[j].max_new == max_new_tokens@[j]
                        && !streams@[j].done,
                functional(self.model.kernel) ==> opened(
                    self.model,
                    old(self).prefix_cache@,
                    *options,
                    prompts@,
                    max_new_tokens@,
                    i as int,
                ) == (Some(stream_views(streams@)), self.prefix_cache@),
            decreases n - i,
        {
            let ghost before = stream_views(streams@);
            let ghost entries = old(self).prefix_cache@;
            let ghost m = self.model;
            assert(max_new_tokens@[i as int] != 0) by {
                if max_new_tokens@[i as int] == 0 {
                    assert(max_new_tokens@.contains(0));
                }
            }
            match self.prefill_lightbatch_stream(&prompts[i], max_new_tokens[i], options, i) {
                Ok(stream) => {
                    let ghost view = stream@;
                    streams.push(stream);
                    proof {
                        assert(stream_views(streams@) =~= before.push(view));
                        assert(view.given =~= Seq::<usize>::empty());
                        if functional(m.kernel) {
                            let next = opened(m, entries, *options, prompts@, max_new_tokens@, i + 1);
                            assert(next.0->0 =~= before.push(view));
                        }
                    }
                },
                Err(error) => {
                    proof {
                        if functional(m.kernel) {
                            let next = opened(m, entries, *options, prompts@, max_new_tokens@, i + 1);
                            assert(next.0 is None);
                            assert(next.1 == self.prefix_cache@);
                            lemma_opened_none(m, entries, *options, prompts@, max_new_tokens@, i + 1, n as int);
                        }
                    }
                    return Err(error);
                },
            }
            i = i + 1;
        }
        Ok(streams)
    }

    /// Takes several prompts through the decoder, for generations that go on round by
    /// round. Refused without prompts, and where a budget is missing or zero.
    #[verifier::spinoff_prover]
    pub fn begin_lightbatch(&mut self, prompts: &Vec<Vec<usize>>, max_new_tokens: &Vec<usize>, options: &GenerationOptions<K::Cell>, stride: u64) -> (out: Result<LightBatchRun<K::Cell>, InferError>)
        requires
            old(self).wf(),
        ensures
            out matches Err(error) ==> is_refusal(old(self).model.kernel, error, old(self).model.complete()),
            final(self).wf(),
            final(self).model == old(self).model,
            !askable(prompts@, max_new_tokens@) ==> (out matches Err(error) && error is Dimension) && *final(self) == *old(self),
            out matches Ok(run) ==> {
                &&& askable(prompts@, max_new_tokens@)
                &&& run.wf()
                &&& !run.over
                &&& run.round == 0
                &&& run.stride == stride
                &&& run.streams@.len() == prompts@.len()
                &&& forall|i: int| 0 <= i < run.streams@.len() ==> (#[trigger] run.streams@[i]).max_new == max_new_tokens@[i]
            },
            askable(prompts@, max_new_tokens@) && functional(old(self).model.kernel) ==> {
                let (made, entries) = opened(
                    old(self).model,
                    old(self).prefix_cache@,
                    *options,
                    prompts@,
                    max_new_tokens@,
                    prompts@.len() as int,
                );
                &&& final(self).prefix_cache@ == entries
                &&& match out {
                    Ok(run) => made == Some(run.views()),
                    Err(_) => made is None,
                }
            },
    {
        check_askable(prompts, max_new_tokens)?;
        let streams: Vec<LightBatchStream<K::Cell>> = self.open_lightbatch(prompts, max_new_tokens, options)?;
        assert(stream_views(streams@)[0] == streams@[0]@);
        Ok(LightBatchRun { streams, stride, round: 0, over: false })
    }

    /// Generates from several prompts, a token each in turn, and tells the sink of
    /// every token with the number of its stream. Each has a budget of its own; the
    /// background ones have a turn in every `stride` rounds. Refused without prompts,
    /// and where a budget is missing or zero.
    #[verifier::spinoff_prover]
    pub fn lightbatch_generate<S: TokenSink>(
        &mut self,
        prompts: &Vec<Vec<usize>>,
        max_new_tokens: &Vec<usize>,
        options: &GenerationOptions<K::Cell>,
        stride: u64,
        on_token: &mut S,
    ) -> (out: Result<Vec<GenerationOutput>, InferError>)
        requires
            old(self).wf(),
        ensures
            out matches Err(error) ==> is_refusal(old(self).model.kernel, error, old(self).model.complete()),
            final(self).wf(),
            final(self).model == old(self).model,
            final(on_token).policy() == old(on_token).policy(),
            !askable(prompts@, max_new_tokens@) ==> (out matches Err(error) && error is Dimension) && *final(self) == *old(self)
                && final(on_token).told() == old(on_token).told(),
            out matches Ok(outputs) ==> {
                &&& outputs@.len() == prompts@.len()
                &&& forall|i: int| 0 <= i < outputs@.len() ==> (#[trigger] outputs@[i]).tokens@.len() <= max_new_tokens@[i]
            },
            functional(old(self).model.kernel) ==> {
                let (made, entries) = lightbatch(
                    old(self).model,
                    old(self).prefix_cache@,
                    *options,
                    prompts@,
                    max_new_tokens@,
                    stride,
                    old(on_token).told(),
                );
                &&& final(self).prefix_cache@ == entries
                &&& match out {
                    Ok(outputs) => made matches Some(made) && outputs_agree(outputs@, made.0) && final(on_token).told() == made.1,
                    Err(_) => made is None,
                }
            },
    {
        let mut run: LightBatchRun<K::Cell> = self.begin_lightbatch(prompts, max_new_tokens, options, stride)?;
        let m: &DecoderModel<K> = &self.model;
        let ghost model = rounds_left(*m, *options, run, on_token.told());
        let ghost told = on_token.told();
        while !run.over
            invariant
                m.wf(),
                *m == self.model,
                self.model == old(self).model,
                self.wf(),
                askable(prompts@, max_new_tokens@),
                run.wf(),
                run.streams@.len() == prompts@.len(),
                told == old(on_token).told(),
                on_token.policy() == old(on_token).policy(),
                forall|i: int| 0 <= i < run.streams@.len() ==> (#[trigger] run.streams@[i]).max_new == max_new_tokens@[i],
                functional(m.kernel) ==> model == rounds_left(*m, *options, run, on_token.told()),
                functional(m.kernel) ==> lightbatch(
                    *m,
                    old(self).prefix_cache@,
                    *options,
                    prompts@,
                    max_new_tokens@,
                    stride,
                    told,
                ) == (model, self.prefix_cache@),
            decreases work_left(run.views()),
        {
            proof {
                lemma_work_nonneg(run.views());
            }
            m.next_lightbatch_round(&mut run, options, on_token)?;
            proof {
                lemma_work_nonneg(run.views());
            }
        }
        let streams: Vec<LightBatchStream<K::Cell>> = run.streams;
        let ghost ends = streams@;
        let outputs: Vec<GenerationOutput> = lightbatch_outputs(streams);
        proof {
            assert forall|j: int| 0 <= j < outputs@.len() implies (#[trigger] outputs@[j]).tokens@.len() <= max_new_tokens@[j] by {
                assert(ends[j].wf());
                assert(stream_views(ends)[j] == ends[j]@);
            }
        }
        Ok(outputs)
    }

    /// Generates from several prompts, a token each in turn, and tells the sink of
    /// every token with the number of its stream.
    pub fn generate_greedy_lightbatch_streaming_with_options<S: TokenSink>(
        &mut self,
        prompts: &Vec<Vec<usize>>,
        max_new_tokens: &Vec<usize>,
        options: &GenerationOptions<K::Cell>,
        on_token: &mut S,
    ) -> (out: Result<Vec<GenerationOutput>, InferError>)
        requires
            old(self).wf(),
        ensures
            out matches Err(error) ==> is_refusal(old(self).model.kernel, error, old(self).model.complete()),
            final(self).wf(),
            final(self).model == old(self).model,
            final(on_token).policy() == old(on_token).policy(),
            !askable(prompts@, max_new_tokens@) ==> (out matches Err(error) && error is Dimension) && *final(self) == *old(self)
                && final(on_token).told() == old(on_token).told(),
            out matches Ok(outputs) ==> {
                &&& outputs@.len() == prompts@.len()
                &&& forall|i: int| 0 <= i < outputs@.len() ==> (#[trigger] outputs@[i]).tokens@.len() <= max_new_tokens@[i]
            },
            functional(old(self).model.kernel) ==> {
                let (made, entries) = lightbatch(
                    old(self).model,
                    old(self).prefix_cache@,
                    *options,
                    prompts@,
                    max_new_tokens@,
                    old(self).model.flags.lightbatch_background_stride,
                    old(on_token).told(),
                );
                &&& final(self).prefix_cache@ == entries
                &&& match out {
                    Ok(outputs) => made matches Some(made) && outputs_agree(outputs@, made.0) && final(on_token).told() == made.1,
                    Err(_) => made is None,
                }
            },
    {
        let stride: u64 = self.model.flags.lightbatch_background_stride;
        self.lightbatch_generate(prompts, max_new_tokens, options, stride, on_token)
    }

    /// Generates from several prompts, a token each in turn, with one budget for all.
    /// Refused without prompts, and where one of them is empty. A budget of no tokens
    /// gives each of them none.
    pub fn generate_greedy_lightbatch_with_options(&mut self, prompts: &Vec<Vec<usize>>, max_new_tokens: usize, options: &GenerationOptions<K::Cell>) -> (out: Result<Vec<GenerationOutput>, InferError>)
        requires
            old(self).wf(),
        ensures
            out matches Err(error) ==> is_refusal(old(self).model.kernel, error, old(self).model.complete()),
            final(self).wf(),
            final(self).model == old(self).model,
            !promptable(prompts@) ==> (out matches Err(error) && error is Dimension) && *final(self) == *old(self),
            promptable(prompts@) && max_new_tokens == 0 ==> {
                &&& *final(self) == *old(self)
                &&& out matches Ok(outputs)
                &&& outputs@.len() == prompts@.len()
                &&& forall|i: int| 0 <= i < outputs@.len() ==> (#[trigger] outputs@[i]).tokens@.len() == 0 && outputs@[i].timings == (GenerationTimings {
                    prefill: 0,
                    decode: 0,
                    decode_tokens: 0,
                })
            },
            promptable(prompts@) && max_new_tokens > 0 && functional(old(self).model.kernel) ==> {
                let budgets = Seq::new(prompts@.len(), |i: int| max_new_tokens);
                let (made, entries) = lightbatch(
                    old(self).model,
                    old(self).prefix_cache@,
                    *options,
                    prompts@,
                    budgets,
                    old(self).model.flags.lightbatch_background_stride,
                    Seq::empty(),
                );
                &&& final(self).prefix_cache@ == entries
                &&& match out {
                    Ok(outputs) => made matches Some(made) && outputs_agree(outputs@, made.0),
                    Err(_) => made is None,
                }
            },
    {
        let n: usize = prompts.len();
        check_promptable(prompts)?;
        if max_new_tokens == 0 {
            let mut outputs: Vec<GenerationOutput> = Vec::new();
            for i in 0..n
                invariant
                    outputs@.len() == i,
                    *self == *old(self),
                    forall|j: int|
                        0 <= j < i ==> (#[trigger] outputs@[j]).tokens@.len() == 0 && outputs@[j].timings == (GenerationTimings {
                            prefill: 0,
                            decode: 0,
                            decode_tokens: 0,
                        }),
            {
                outputs.push(
                    GenerationOutput {
                        tokens: Vec::new(),
                        timings: GenerationTimings { prefill: 0, decode: 0, decode_tokens: 0 },
                    },
                );
            }
            return Ok(outputs);
        }
        let mut budgets: Vec<usize> = Vec::new();
        for i in 0..n
            invariant
                budgets@ == Seq::new(i as nat, |j: int| max_new_tokens),
        {
            budgets.push(max_new_tokens);
            assert(budgets@ =~= Seq::new((i + 1) as nat, |j: int| max_new_tokens));
        }
        let mut log: TokenLog = TokenLog::new();
        self.generate_greedy_lightbatch_streaming_with_options(prompts, &budgets, options, &mut log)
    }
}

/// Where some of the prompts cannot be opened, all of them cannot, and the entries
/// stay as they were left.
proof fn lemma_opened_none<K: Kernel>(m: DecoderModel<K>, entries: Seq<EntryView<K::Cell>>, options: GenerationOptions<K::Cell>, prompts: Seq<Vec<usize>>, budgets: Seq<usize>, few: int, many: int)
    requires
        0 <= few <= many,
        opened(m, entries, options, prompts, budgets, few).0 is None,
    ensures
        opened(m, entries, options, prompts, budgets, many) == opened(m, entries, options, prompts, budgets, few),
    decreases many - few,
{
    if few < many {
        lemma_opened_none(m, entries, options, prompts, budgets, few, many - 1);
    }
}

} // verus!
