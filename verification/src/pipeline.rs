//! Several tokens in flight on a device: each starts from the token before it, which the
//! host need not have seen yet.

use vstd::prelude::*;
use crate::device::{run, spot, Command, Memory, ResidentLayerKind, Slot, Spot, TokenPlace};
use crate::error::{Fault, InferError};
use crate::kernel::{advance_of, functional, Kernel};
use crate::model::{embed_row, step, CacheView, DecoderModel};
use crate::options::{hot, is_hot, GenerationOptions, SamplerView, TokenSampler};
use crate::resident::{ResidentCache, RESIDENT_PIPELINE_WINDOW};
use crate::resident_decode::{
    drawable_on_device, hidden_places, input_ready, law_namespaces_apart, law_token_program, left_behind, moved_on, outcome, pipeline_namespace, sample_spec,
    token_plan, token_program, Outcome, ResidentDecodeInput, ResidentSampleSpec, TokenProgram, PIPELINE_BASES,
};

verus! {

/// What is to be done next.
#[derive(Clone, Copy, PartialEq, Eq, Structural, Debug)]
pub enum PipelineAction {
    /// Hand the device the program of one more token.
    Enqueue,
    /// Wait for the oldest token in flight.
    Wait,
    Finish,
}

/// Tokens in flight, and tokens that have come back.
pub struct Pipeline {
    /// Tokens at most.
    pub max: usize,
    pub first: usize,
    pub tokens: Vec<usize>,
    pub enqueued: usize,
    pub answered: usize,
    pub stopped: bool,
}

/// The contents of a [`Pipeline`].
#[verifier::ext_equal]
pub struct PipelineView {
    pub max: int,
    pub first: usize,
    pub tokens: Seq<usize>,
    pub enqueued: int,
    pub answered: int,
    pub stopped: bool,
}

impl View for Pipeline {
    type V = PipelineView;

    open spec fn view(&self) -> PipelineView {
        PipelineView {
            max: self.max as int,
            first: self.first,
            tokens: self.tokens@,
            enqueued: self.enqueued as int,
            answered: self.answered as int,
            stopped: self.stopped,
        }
    }
}

/// The answers that are kept: those before the first stop token, and not too many.
pub open spec fn collected(stop: Seq<usize>, answers: Seq<usize>, limit: int) -> Seq<usize>
    decreases answers.len(),
{
    if answers.len() == 0 {
        Seq::empty()
    } else {
        let before = collected(stop, answers.drop_last(), limit);
        if before.len() + 1 == answers.len() && before.len() < limit && !stop.contains(answers.last()) {
            before.push(answers.last())
        } else {
            before
        }
    }
}

impl PipelineView {
    /// The pipeline with only its first token.
    pub open spec fn start(stop: Seq<usize>, first: usize, max: int) -> PipelineView {
        PipelineView {
            max,
            first,
            tokens: if stop.contains(first) {
                Seq::empty()
            } else {
                seq![first]
            },
            enqueued: 0,
            answered: 0,
            stopped: stop.contains(first),
        }
    }

    /// Nothing more is looked at.
    pub open spec fn done(self) -> bool {
        self.stopped || self.tokens.len() >= self.max
    }

    pub open spec fn action(self) -> PipelineAction {
        if !self.done() && self.enqueued < self.max - 1 && self.enqueued - self.answered < RESIDENT_PIPELINE_WINDOW {
            PipelineAction::Enqueue
        } else if self.answered < self.enqueued {
            PipelineAction::Wait
        } else {
            PipelineAction::Finish
        }
    }

    pub open spec fn sent(self) -> PipelineView {
        PipelineView { enqueued: self.enqueued + 1, ..self }
    }

    /// A token has come back.
    pub open spec fn told(self, stop: Seq<usize>, token: usize) -> PipelineView {
        if self.done() {
            PipelineView { answered: self.answered + 1, ..self }
        } else if stop.contains(token) {
            PipelineView { answered: self.answered + 1, stopped: true, ..self }
        } else {
            PipelineView { answered: self.answered + 1, tokens: self.tokens.push(token), ..self }
        }
    }

    /// The pipeline is where it is after these answers.
    pub open spec fn stands_at(self, stop: Seq<usize>, answers: Seq<usize>) -> bool {
        &&& self.max > 0
        &&& self.answered == answers.len()
        &&& self.answered <= self.enqueued < self.max
        &&& self.enqueued - self.answered <= RESIDENT_PIPELINE_WINDOW
        &&& if stop.contains(self.first) {
            self.stopped && self.tokens.len() == 0 && self.enqueued == 0
        } else {
            let kept = collected(stop, answers, self.max - 1);
            &&& self.tokens == seq![self.first] + kept
            &&& self.stopped == (kept.len() < answers.len())
        }
    }
}

/// Answers are kept in order, and no more than there are.
pub proof fn lemma_collected(stop: Seq<usize>, answers: Seq<usize>, limit: int)
    requires
        0 <= limit,
    ensures
        collected(stop, answers, limit).len() <= answers.len(),
        collected(stop, answers, limit).len() <= limit,
        collected(stop, answers, limit) == answers.take(collected(stop, answers, limit).len() as int),
        forall|i: int| 0 <= i < collected(stop, answers, limit).len() ==> !stop.contains(#[trigger] answers[i]),
    decreases answers.len(),
{
    if answers.len() > 0 {
        lemma_collected(stop, answers.drop_last(), limit);
        let before = collected(stop, answers.drop_last(), limit);
        assert forall|i: int| 0 <= i < before.len() implies !stop.contains(#[trigger] answers[i]) by {
            assert(answers.drop_last()[i] == answers[i]);
        }
        assert(before =~= answers.take(before.len() as int));
        assert(collected(stop, answers, limit) =~= answers.take(collected(stop, answers, limit).len() as int));
    } else {
        assert(collected(stop, answers, limit) =~= answers.take(0));
    }
}

/// However sending and waiting are mixed, the tokens that come out are the first token and
/// the answers in order, up to the first stop token and up to the limit. The pipeline ends
/// only where a stop token came or the limit is reached.
pub proof fn law_pipeline(at: PipelineView, stop: Seq<usize>, answers: Seq<usize>, token: usize)
    requires
        at.stands_at(stop, answers),
    ensures
        at.action() == PipelineAction::Enqueue ==> at.sent().stands_at(stop, answers),
        at.action() == PipelineAction::Wait ==> at.told(stop, token).stands_at(stop, answers.push(token)),
        at.answered < at.enqueued ==> at.told(stop, token).stands_at(stop, answers.push(token)),
        at.action() == PipelineAction::Finish ==> at.stopped || at.tokens.len() == at.max,
{
    lemma_collected(stop, answers, at.max - 1);
    let more = answers.push(token);
    assert(more.drop_last() =~= answers);
    let kept = collected(stop, answers, at.max - 1);
    let grown = collected(stop, more, at.max - 1);
    if grown.len() > kept.len() {
        assert(seq![at.first] + grown =~= (seq![at.first] + kept).push(token));
    }
}

/// The place where a new token is put is none that an answer is still awaited from.
pub proof fn law_ring_is_free(at: PipelineView, stop: Seq<usize>, answers: Seq<usize>, step: int)
    requires
        at.stands_at(stop, answers),
        at.action() == PipelineAction::Enqueue,
        at.answered <= step < at.enqueued,
    ensures
        step % (RESIDENT_PIPELINE_WINDOW as int) != at.enqueued % (RESIDENT_PIPELINE_WINDOW as int),
{
}

impl Pipeline {
    /// A pipeline with only its first token.
    pub fn new<C: Copy>(options: &GenerationOptions<C>, first: usize, max: usize) -> (made: Pipeline)
        requires
            max > 0,
        ensures
            made@ == PipelineView::start(options.stop_token_ids@, first, max as int),
            made@.stands_at(options.stop_token_ids@, Seq::empty()),
    {
        let mut tokens: Vec<usize> = Vec::new();
        let stopped: bool = options.is_stop_token(first);
        if !stopped {
            tokens.push(first);
        }
        let made: Pipeline = Pipeline { max, first, tokens, enqueued: 0, answered: 0, stopped };
        assert(made@ =~= PipelineView::start(options.stop_token_ids@, first, max as int));
        assert(seq![first] + collected(options.stop_token_ids@, Seq::empty(), max - 1) =~= seq![first]);
        made
    }

    pub fn action(&self) -> (action: PipelineAction)
        requires
            self.answered <= self.enqueued,
            self.max > 0,
        ensures
            action == self@.action(),
    {
        let done: bool = self.stopped || self.tokens.len() >= self.max;
        if !done && self.enqueued < self.max - 1 && self.enqueued - self.answered < RESIDENT_PIPELINE_WINDOW {
            PipelineAction::Enqueue
        } else if self.answered < self.enqueued {
            PipelineAction::Wait
        } else {
            PipelineAction::Finish
        }
    }

    /// Takes an answer.
    pub fn answer<C: Copy>(&mut self, options: &GenerationOptions<C>, token: usize)
        requires
            old(self).answered < old(self).enqueued,
        ensures
            final(self)@ == old(self)@.told(options.stop_token_ids@, token),
    {
        self.answered = self.answered + 1;
        if !self.stopped && self.tokens.len() < self.max {
            if options.is_stop_token(token) {
                self.stopped = true;
            } else {
                self.tokens.push(token);
            }
        }
        assert(self@ =~= old(self)@.told(options.stop_token_ids@, token));
    }
}

/// Where the token of a step is put.
pub open spec fn ring_slot(step: int) -> Slot {
    Slot { place: TokenPlace::Ring, at: (step % (RESIDENT_PIPELINE_WINDOW as int)) as usize }
}

/// What a step starts from: the first token, or the token that the step before it leaves.
pub open spec fn step_input(at: PipelineView) -> ResidentDecodeInput {
    if at.enqueued == 0 {
        ResidentDecodeInput::Host(at.first)
    } else {
        ResidentDecodeInput::Device(ring_slot(at.enqueued - 1))
    }
}

/// The scratch rows of a step; experts beside each other need rows of their own.
pub open spec fn step_rows<K: Kernel>(m: DecoderModel<K>, at: PipelineView) -> Option<usize> {
    if m.config.parallel_moe {
        Some((at.enqueued % (RESIDENT_PIPELINE_WINDOW as int)) as usize)
    } else {
        None
    }
}

/// The name of the scratch rows of a step: one of its own where it has rows of its own, and
/// the stream's where not.
pub open spec fn step_namespace<K: Kernel>(m: DecoderModel<K>, base: u64, at: PipelineView) -> u64 {
    match step_rows(m, at) {
        Some(slot) => pipeline_namespace(base, slot)->0,
        None => base,
    }
}

/// A step shares no scratch rows with one whose answer is still awaited, where experts
/// stand beside each other.
pub proof fn law_steps_in_flight_apart<K: Kernel>(m: DecoderModel<K>, base: u64, at: PipelineView, stop: Seq<usize>, answers: Seq<usize>, step: int)
    requires
        at.stands_at(stop, answers),
        at.action() == PipelineAction::Enqueue,
        at.answered <= step < at.enqueued,
        m.config.parallel_moe,
        base < PIPELINE_BASES,
    ensures
        step_namespace(m, base, at) != step_namespace(m, base, PipelineView { enqueued: step, ..at }),
        step_namespace(m, base, at) > base,
{
    law_ring_is_free(at, stop, answers, step);
    let earlier = PipelineView { enqueued: step, ..at };
    law_namespaces_apart(base, step_rows(m, at)->0, base, step_rows(m, earlier)->0);
}

/// The program of a step leaves on the device what the decoder would have made of the token
/// that the step starts from; and where a token was chosen there, the next step starts from
/// that token, whether or not the host has seen it.
pub proof fn law_pipelined_step<K: Kernel>(
    m: DecoderModel<K>,
    mem: Memory<K::Cell>,
    cache: CacheView<K::Cell>,
    kinds: Seq<ResidentLayerKind>,
    at: PipelineView,
    token: usize,
    sample: Option<ResidentSampleSpec<K::Cell>>,
)
    requires
        m.fits(cache),
        kinds.len() == m.layers@.len(),
        m.layers@.len() <= usize::MAX,
        0 <= cache.position < usize::MAX,
        mem.layers == cache.layers,
        embed_row(m, token) is Some,
        0 <= at.enqueued,
        input_ready(m, mem, step_input(at), token, spot(hidden_places(step_rows(m, at)).0, 0)),
    ensures
        ({
            let program = token_program(m.kernel, kinds, cache.position, step_input(at), ring_slot(at.enqueued), step_rows(m, at), sample);
            match step(m, cache, token) {
                Some((after, state)) => match outcome(m, sample, state) {
                    Some(made) => {
                        &&& run(m, mem, program) matches Some(left)
                        &&& left_behind::<K>(left, after.layers, state, ring_slot(at.enqueued), made)
                        &&& made matches Outcome::Token(next) ==> forall|place: Spot| #[trigger] input_ready(m, left, step_input(at.sent()), next, place)
                    },
                    None => run(m, mem, program) is None,
                },
                None => run(m, mem, program) is None,
            }
        }),
{
    law_token_program(m, mem, cache, kinds, token, step_input(at), ring_slot(at.enqueued), step_rows(m, at), sample);
}

/// The sampler behind a step.
pub open spec fn step_sampler<K: Kernel>(m: DecoderModel<K>, options: GenerationOptions<K::Cell>, sampler: SamplerView) -> SamplerView {
    if hot(m.kernel, options) {
        SamplerView { random: advance_of(m.kernel, sampler.random), ..sampler }
    } else {
        sampler
    }
}

impl<K: Kernel> DecoderModel<K> {
    /// Whether tokens of this cache can be in flight together.
    pub fn can_pipeline(&self, cache: &ResidentCache<K::Cell>) -> (can: bool)
        ensures
            can == (cache@.arena matches Some(arena) && !arena.timed && arena.ring >= RESIDENT_PIPELINE_WINDOW),
    {
        match &cache.arena {
            Some(arena) => !arena.timed && arena.ring >= RESIDENT_PIPELINE_WINDOW,
            None => false,
        }
    }

    /// The program of the next step of a pipeline.
    pub fn enqueue_pipeline_step(
        &self,
        device: bool,
        cache: &mut ResidentCache<K::Cell>,
        pipeline: &mut Pipeline,
        options: &GenerationOptions<K::Cell>,
        sampler: &mut TokenSampler,
    ) -> (out: Result<TokenProgram<K::Cell>, InferError>)
        requires
            self.fits(old(cache).cache@),
            old(cache).rooms@.len() == self.layers@.len(),
            old(pipeline)@.action() == PipelineAction::Enqueue,
            old(pipeline).answered <= old(pipeline).enqueued,
        ensures
            out is Ok ==> final(cache)@ == moved_on(old(cache)@, 1) && final(pipeline)@ == old(pipeline)@.sent(),
            out is Err ==> *final(cache) == *old(cache) && final(pipeline)@ == old(pipeline)@,
            functional(self.kernel) ==> if hot(self.kernel, *options) && !drawable_on_device(*self, *options) {
                (out matches Err(error) && error is Config) && final(sampler)@ == old(sampler)@
            } else {
                let sample = if hot(self.kernel, *options) {
                    Some(sample_spec(*options, old(sampler)@.random, true))
                } else {
                    None
                };
                let at = old(pipeline)@;
                let plan = token_plan(
                    *self,
                    device,
                    old(cache)@,
                    step_input(at),
                    Some(ring_slot(at.enqueued)),
                    step_rows(*self, at),
                    sample,
                );
                &&& final(sampler)@ == step_sampler(*self, *options, old(sampler)@)
                &&& match out {
                    Ok(made) => {
                        &&& plan == Result::<Seq<Command<K::Cell>>, Fault>::Ok(made.program@)
                        &&& match step_input(at) {
                            ResidentDecodeInput::Host(token) => made.upload matches Some(row) && embed_row(*self, token) == Some(row@),
                            ResidentDecodeInput::Device(_) => made.upload is None,
                        }
                        &&& made.namespace == step_namespace(*self, (old(cache)@.arena->0).namespace, at)
                    },
                    Err(error) => plan == Result::<Seq<Command<K::Cell>>, Fault>::Err(error.fault()),
                }
            },
    {
        let slot: usize = pipeline.enqueued % RESIDENT_PIPELINE_WINDOW;
        let input: ResidentDecodeInput = if pipeline.enqueued == 0 {
            ResidentDecodeInput::Host(pipeline.first)
        } else {
            ResidentDecodeInput::Device(Slot { place: TokenPlace::Ring, at: (pipeline.enqueued - 1) % RESIDENT_PIPELINE_WINDOW })
        };
        let sample: Option<ResidentSampleSpec<K::Cell>> = if is_hot(&self.kernel, options) {
            let spec: ResidentSampleSpec<K::Cell> = self.resident_sample_spec(options, sampler.random)?;
            self.sampled_on_device(sampler);
            Some(spec)
        } else {
            None
        };
        let rows: Option<usize> = if self.config.parallel_moe {
            Some(slot)
        } else {
            None
        };
        let made: TokenProgram<K::Cell> = self.enqueue_decode_token_resident(
            device,
            cache,
            input,
            Some(Slot { place: TokenPlace::Ring, at: slot }),
            rows,
            sample,
        )?;
        pipeline.enqueued = pipeline.enqueued + 1;
        assert(pipeline@ =~= old(pipeline)@.sent());
        Ok(made)
    }
}

} // verus!
