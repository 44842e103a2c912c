//! Generation with the guesses of a block draft model.

use vstd::prelude::*;
use crate::capture::{capturable, read_batch, validate_capture_layer_ids};
use crate::decoder::CausalDecoder;
use crate::error::InferError;
use crate::kernel::{draft_context, draft_context_of, draft_states, draft_states_of, elapsed, functional, is_refusal, Kernel};
use crate::layer::{norm_of, norm_rows};
use crate::linear::rms_norm;
use crate::model::{embed_rows, CacheView, CausalDecoderCache, DecoderModel};
use crate::options::{ends_with_any, generated_matches_stop_sequence, hot, is_hot, GenerationOptions, SamplerView, TokenSampler};
use crate::sampling::sampled;
use crate::speculation::{checked_tokens, opening, SpecView, Speculation, SpeculativeCacheSnapshot, SpeculativeOutput, Verdict};
use crate::stats::{SpeculativeStats, StatsView};
use crate::tensor::{copy_range, flatten, lemma_row_bounds, row_of, rows_of, Tensor};
use crate::weights::DraftModel;

verus! {

/// The draft model fits the decoder: rows of its length, and layers that are there.
pub open spec fn draft_fits<K: Kernel>(m: DecoderModel<K>, draft: DraftModel<K::Cell>) -> bool {
    &&& draft.hidden_size == m.hidden()
    &&& capturable(draft.target_layer_ids@, m.layers@.len() as int)
}

/// How a draft model that does not fit is refused: by its row length before the layers it
/// reads from; and where all of these are there, they are none or one is named twice.
pub open spec fn draft_refusal<K: Kernel>(m: DecoderModel<K>, draft: DraftModel<K::Cell>, error: InferError) -> bool {
    let ids = draft.target_layer_ids@;
    &&& error is Dimension || error is Config
    &&& draft.hidden_size != m.hidden() ==> error is Dimension
    &&& draft.hidden_size == m.hidden() && (forall|i: int| 0 <= i < ids.len() ==> (#[trigger] ids[i]) < m.layers@.len()) ==> error is Config
}

/// Rows read from the layers, as the draft model sees them.
pub open spec fn projected<K: Kernel>(m: DecoderModel<K>, draft: DraftModel<K::Cell>, rows: Seq<Seq<K::Cell>>) -> Option<Seq<Seq<K::Cell>>> {
    let out = Seq::new(rows.len(), |i: int| draft_context_of(m.kernel, draft, rows[i]));
    if forall|i: int| 0 <= i < out.len() ==> (#[trigger] out[i]).len() == draft.hidden_size {
        Some(out)
    } else {
        None
    }
}

/// The context of a draft model with rows read from the layers added.
pub open spec fn context_with<K: Kernel>(m: DecoderModel<K>, draft: DraftModel<K::Cell>, context: Seq<Seq<K::Cell>>, rows: Seq<Seq<K::Cell>>) -> Option<Seq<Seq<K::Cell>>> {
    match projected(m, draft, rows) {
        Some(more) => if context.len() + more.len() <= usize::MAX {
            Some(context + more)
        } else {
            None
        },
        None => None,
    }
}

/// The rows of a batch read on the way, as states.
pub open spec fn read_states<K: Kernel>(m: DecoderModel<K>, ids: Seq<usize>, cache: CacheView<K::Cell>, tokens: Seq<usize>) -> Option<(CacheView<K::Cell>, Seq<Seq<K::Cell>>, Seq<Seq<K::Cell>>)> {
    match read_batch(m, ids, cache, tokens) {
        Some((after, rows, read)) => match norm_rows(m.kernel, rows, m.final_norm, m.config.rms_eps) {
            Some(states) => Some((after, states, read)),
            None => None,
        },
        None => None,
    }
}

/// A prompt read on the way: what it leaves, and the rows read.
pub open spec fn read_prompt<K: Kernel>(m: DecoderModel<K>, ids: Seq<usize>, prompt: Seq<usize>) -> Option<(CacheView<K::Cell>, Seq<K::Cell>, Seq<Seq<K::Cell>>)> {
    match read_batch(m, ids, m.fresh(), prompt) {
        Some((cache, rows, read)) => match norm_of(m.kernel, rows.last(), m.final_norm, m.config.rms_eps) {
            Some(state) => Some((cache, state, read)),
            None => None,
        },
        None => None,
    }
}

/// The tokens that states lead to, one after the other.
pub open spec fn sampled_each<K: Kernel>(m: DecoderModel<K>, options: GenerationOptions<K::Cell>, states: Seq<Seq<K::Cell>>, sampler: SamplerView) -> Option<(Seq<usize>, SamplerView)>
    decreases states.len(),
{
    if states.len() == 0 {
        Some((Seq::empty(), sampler))
    } else {
        match sampled_each(m, options, states.drop_last(), sampler) {
            Some((tokens, before)) => match sampled(m, m.lm_head, states.last(), options, before) {
                Some((token, after)) => Some((tokens.push(token), after)),
                None => None,
            },
            None => None,
        }
    }
}

/// The block that a draft model fills in: the token given, and a mask for each
/// guess.
pub open spec fn masked_block(primary: usize, mask: usize, guesses: int) -> Seq<usize> {
    seq![primary] + Seq::new(guesses as nat, |i: int| mask)
}

/// The guesses of a draft model behind `primary`.
pub open spec fn dflash_drafts<K: Kernel>(m: DecoderModel<K>, draft: DraftModel<K::Cell>, context: Seq<Seq<K::Cell>>, primary: usize, guesses: int, options: GenerationOptions<K::Cell>, sampler: SamplerView) -> Option<(Seq<usize>, SamplerView)> {
    if guesses + 1 > usize::MAX {
        None
    } else {
        match embed_rows(m, masked_block(primary, draft.mask_token_id, guesses)) {
            Some(block) => {
                let states = draft_states_of(m.kernel, draft, flatten(block), flatten(context));
                if states.len() != (guesses + 1) * m.hidden() {
                    None
                } else {
                    sampled_each(m, options, rows_of(states, m.hidden(), guesses + 1).skip(1), sampler)
                }
            },
            None => None,
        }
    }
}

/// The check of the guess at `position`. A guess that holds is given, also where the
/// generation stops at it.
pub open spec fn dflash_judge_one<K: Kernel>(m: DecoderModel<K>, options: GenerationOptions<K::Cell>, states: Seq<Seq<K::Cell>>, drafts: Seq<usize>, max: int, position: int, v: Verdict<K::Cell>) -> Option<Verdict<K::Cell>> {
    match sampled(m, m.lm_head, states[position], options, v.sampler) {
        Some((target, sampler)) => {
            let draft = drafts[position];
            let stats = v.stats.judged(position, draft == target);
            if draft == target {
                let generated = v.generated.push(draft);
                Some(
                    Verdict {
                        generated,
                        stats,
                        sampler,
                        last: draft,
                        ended: if generated.len() >= max || options.stops_at(draft) { Some(position) } else { None },
                        ..v
                    },
                )
            } else {
                Some(Verdict { stats, sampler, pending: target, ended: Some(position), ..v })
            }
        },
        None => None,
    }
}

/// The checks of the guesses from `position` on, up to the first that ends them.
pub open spec fn dflash_judge_from<K: Kernel>(m: DecoderModel<K>, options: GenerationOptions<K::Cell>, states: Seq<Seq<K::Cell>>, drafts: Seq<usize>, max: int, position: int, v: Verdict<K::Cell>) -> Option<Verdict<K::Cell>>
    decreases drafts.len() - position,
{
    if position >= drafts.len() || v.ended is Some {
        Some(v)
    } else {
        match dflash_judge_one(m, options, states, drafts, max, position, v) {
            Some(next) => dflash_judge_from(m, options, states, drafts, max, position + 1, next),
            None => None,
        }
    }
}

/// Where a generation with a draft model's guesses stands: the rows read so far are
/// the draft model's context.
#[verifier::ext_equal]
pub struct DflashView<C> {
    pub run: SpecView<C>,
    pub context: Seq<Seq<C>>,
}

/// The cache, the state and the rows read that a check leaves: those of the whole
/// batch where all of it was used, and those of a batch of the tokens used
/// elsewhere.
pub open spec fn dflash_landed<K: Kernel>(m: DecoderModel<K>, ids: Seq<usize>, before: CacheView<K::Cell>, after: CacheView<K::Cell>, states: Seq<Seq<K::Cell>>, read: Seq<Seq<K::Cell>>, tokens: Seq<usize>, ended: Option<int>) -> Option<(CacheView<K::Cell>, Seq<K::Cell>, Seq<Seq<K::Cell>>)> {
    match ended {
        Some(position) => if position + 1 < tokens.len() {
            match read_states(m, ids, before, tokens.take(position + 1)) {
                Some((cache, replayed, replay_read)) => Some((cache, replayed.last(), replay_read)),
                None => None,
            }
        } else {
            Some((after, states[position], read.take(position + 1)))
        },
        None => Some((after, states[tokens.len() - 1], read)),
    }
}

/// The check of guesses behind `primary`: where the generation then stands, whether
/// all of them held with room for more, and the last token given.
pub open spec fn dflash_verified<K: Kernel>(m: DecoderModel<K>, draft: DraftModel<K::Cell>, options: GenerationOptions<K::Cell>, s: DflashView<K::Cell>, drafts: Seq<usize>, primary: usize, max: int) -> Option<(DflashView<K::Cell>, bool, usize)> {
    if drafts.len() == 0 {
        Some((s, true, primary))
    } else {
        let tokens = checked_tokens(primary, drafts);
        let ids = draft.target_layer_ids@;
        match read_states(m, ids, s.run.cache, tokens) {
            Some((after, states, read)) => match dflash_judge_from(m, options, states, drafts, max, 0, opening(s.run, primary)) {
                Some(v) => match dflash_landed(m, ids, s.run.cache, after, states, read, tokens, v.ended) {
                    Some((cache, state, used)) => match context_with(m, draft, s.context, used) {
                        Some(context) => Some(
                            (
                                DflashView {
                                    run: SpecView {
                                        cache,
                                        state,
                                        pending: v.pending,
                                        generated: v.generated,
                                        sampler: v.sampler,
                                        stats: v.stats,
                                    },
                                    context,
                                },
                                v.ended is None,
                                v.last,
                            ),
                        ),
                        None => None,
                    },
                    None => None,
                },
                None => None,
            },
            None => None,
        }
    }
}

/// A token through the decoder, read on the way, and the next one read.
pub open spec fn dflash_read_on<K: Kernel>(m: DecoderModel<K>, draft: DraftModel<K::Cell>, options: GenerationOptions<K::Cell>, s: DflashView<K::Cell>, token: usize) -> Option<DflashView<K::Cell>> {
    match read_states(m, draft.target_layer_ids@, s.run.cache, seq![token]) {
        Some((cache, states, read)) => match sampled(m, m.lm_head, states[0], options, s.run.sampler) {
            Some((pending, sampler)) => match context_with(m, draft, s.context, read) {
                Some(context) => Some(
                    DflashView {
                        run: SpecView { cache, state: states[0], pending, sampler, stats: s.run.stats.read(), ..s.run },
                        context,
                    },
                ),
                None => None,
            },
            None => None,
        },
        None => None,
    }
}

/// The token that comes next, given.
pub open spec fn dflash_given<C>(s: DflashView<C>) -> DflashView<C> {
    DflashView { run: SpecView { generated: s.run.generated.push(s.run.pending), ..s.run }, ..s }
}

/// One round: guesses behind the token given last, and their check. The flag says
/// that the generation is at its end.
pub open spec fn dflash_round<K: Kernel>(m: DecoderModel<K>, draft: DraftModel<K::Cell>, options: GenerationOptions<K::Cell>, max: int, guesses: int, s: DflashView<K::Cell>) -> Option<(DflashView<K::Cell>, bool)> {
    let primary = s.run.pending;
    match dflash_drafts(m, draft, s.context, primary, guesses, options, s.run.sampler) {
        Some((drafts, sampler)) => {
            let before = DflashView { run: SpecView { sampler, ..s.run }, ..s };
            match dflash_verified(m, draft, options, before, drafts, primary, max) {
                Some((next, all, last)) => if next.run.generated.len() >= max || options.stops_at(next.run.generated.last()) {
                    Some((next, true))
                } else if all {
                    match dflash_read_on(m, draft, options, next, last) {
                        Some(on) => Some((on, false)),
                        None => None,
                    }
                } else {
                    Some((next, false))
                },
                None => None,
            }
        },
        None => None,
    }
}

pub proof fn lemma_dflash_judge_grows<K: Kernel>(m: DecoderModel<K>, options: GenerationOptions<K::Cell>, states: Seq<Seq<K::Cell>>, drafts: Seq<usize>, max: int, position: int, v: Verdict<K::Cell>)
    ensures
        dflash_judge_from(m, options, states, drafts, max, position, v) matches Some(out) ==> out.generated.len() >= v.generated.len(),
    decreases drafts.len() - position,
{
    if position < drafts.len() && v.ended is None {
        let next = dflash_judge_one(m, options, states, drafts, max, position, v);
        if next is Some {
            lemma_dflash_judge_grows(m, options, states, drafts, max, position + 1, next->0);
        }
    }
}

pub proof fn lemma_dflash_round_grows<K: Kernel>(m: DecoderModel<K>, draft: DraftModel<K::Cell>, options: GenerationOptions<K::Cell>, max: int, guesses: int, s: DflashView<K::Cell>)
    ensures
        dflash_round(m, draft, options, max, guesses, s) matches Some(next) ==> next.0.run.generated.len() >= s.run.generated.len(),
{
    if dflash_round(m, draft, options, max, guesses, s) is Some {
        let primary = s.run.pending;
        let (drafts, sampler) = dflash_drafts(m, draft, s.context, primary, guesses, options, s.run.sampler)->0;
        let before = SpecView { sampler, ..s.run };
        let tokens = checked_tokens(primary, drafts);
        if drafts.len() > 0 {
            let states = (read_states(m, draft.target_layer_ids@, s.run.cache, tokens)->0).1;
            lemma_dflash_judge_grows(m, options, states, drafts, max, 0, opening(before, primary));
        }
    }
}

/// Rounds until there are enough tokens or the generation stops.
pub open spec fn dflash_rounds<K: Kernel>(m: DecoderModel<K>, draft: DraftModel<K::Cell>, options: GenerationOptions<K::Cell>, max: int, guesses: int, s: DflashView<K::Cell>) -> Option<DflashView<K::Cell>>
    decreases (if max > s.run.generated.len() { max - s.run.generated.len() } else { 0 }),
{
    if s.run.generated.len() >= max || options.stops_at(s.run.pending) {
        Some(s)
    } else if s.run.generated.len() + 1 >= max {
        Some(dflash_given(s))
    } else {
        proof {
            lemma_dflash_round_grows(m, draft, options, max, guesses, dflash_given(s));
        }
        match dflash_round(m, draft, options, max, guesses, dflash_given(s)) {
            Some((next, ended)) => if ended {
                Some(next)
            } else {
                dflash_rounds(m, draft, options, max, guesses, next)
            },
            None => None,
        }
    }
}

/// Guesses of one round: as many as asked for, and no more than a block holds.
pub open spec fn guess_limit<C>(draft: DraftModel<C>, asked: int) -> int {
    if asked < draft.block_size {
        asked
    } else {
        draft.block_size as int
    }
}

/// A generation with a draft model's guesses.
pub open spec fn dflash_generated<K: Kernel>(m: DecoderModel<K>, draft: DraftModel<K::Cell>, options: GenerationOptions<K::Cell>, prompt: Seq<usize>, max: int, asked: int) -> Option<(Seq<usize>, StatsView)> {
    let guesses = guess_limit(draft, asked);
    if hot(m.kernel, options) || asked == 0 || prompt.len() == 0 || !draft_fits(m, draft) {
        None
    } else if max == 0 {
        Some((Seq::empty(), StatsView::zero(0)))
    } else {
        match read_prompt(m, draft.target_layer_ids@, prompt) {
            Some((cache, state, read)) => match projected(m, draft, read) {
                Some(context) => match sampled(m, m.lm_head, state, options, SamplerView::start(options.seed)) {
                    Some((pending, sampler)) => {
                        let run = SpecView {
                            cache,
                            state,
                            pending,
                            generated: Seq::empty(),
                            sampler,
                            stats: StatsView::zero(guesses),
                        };
                        match dflash_rounds(m, draft, options, max, guesses, (DflashView { run, context })) {
                            Some(end) => Some((end.run.generated, end.run.stats)),
                            None => None,
                        }
                    },
                    None => None,
                },
                None => None,
            },
            None => None,
        }
    }
}

/// The tokens of a generation without guesses that reads the layers on the way,
/// behind those that were given.
pub open spec fn dflash_plain<K: Kernel>(m: DecoderModel<K>, ids: Seq<usize>, options: GenerationOptions<K::Cell>, cache: CacheView<K::Cell>, token: usize, sampler: SamplerView, given: Seq<usize>, max: int) -> Option<Seq<usize>>
    decreases max - given.len(),
{
    if given.len() >= max || options.stops_at(token) {
        Some(given)
    } else {
        let now = given.push(token);
        if ends_with_any(now, options.stop_sequences@) || now.len() >= max {
            Some(now)
        } else {
            match read_states(m, ids, cache, seq![token]) {
                Some((after, states, _)) => match sampled(m, m.lm_head, states[0], options, sampler) {
                    Some((next, after_sampler)) => dflash_plain(m, ids, options, after, next, after_sampler, now, max),
                    None => None,
                },
                None => None,
            }
        }
    }
}

/// A generation without guesses that reads the layers on the way.
pub open spec fn dflash_reference<K: Kernel>(m: DecoderModel<K>, draft: DraftModel<K::Cell>, options: GenerationOptions<K::Cell>, prompt: Seq<usize>, max: int) -> Option<Seq<usize>> {
    if hot(m.kernel, options) || prompt.len() == 0 || !draft_fits(m, draft) {
        None
    } else if max == 0 {
        Some(Seq::empty())
    } else {
        match read_prompt(m, draft.target_layer_ids@, prompt) {
            Some((cache, state, _)) => match sampled(m, m.lm_head, state, options, SamplerView::start(options.seed)) {
                Some((token, sampler)) => dflash_plain(m, draft.target_layer_ids@, options, cache, token, sampler, Seq::empty(), max),
                None => None,
            },
            None => None,
        }
    }
}

/// The first rows of a matrix. Refused where none are asked for, or more than there
/// are.
pub fn take_tensor_rows<C: Copy>(tensor: &Tensor<C>, rows: usize) -> (out: Result<Tensor<C>, InferError>)
    requires
        tensor.is_matrix(),
    ensures
        out is Ok <==> 0 < rows <= tensor.shape@[0],
        out matches Err(error) ==> error is Dimension,
        out matches Ok(out) ==> out.holds(tensor.rows().take(rows as int), tensor.cols()) && out.shape@[0] == rows,
{
    let (count, cols) = tensor.as_matrix()?;
    if rows == 0 || rows > count {
        return Err(InferError::Dimension("rows to take are none or too many"));
    }
    let mut out: Tensor<C> = Tensor::empty_matrix(cols);
    proof {
        tensor.lemma_rows();
        assert(tensor.rows().take(0) =~= Seq::empty());
    }
    let mut i: usize = 0;
    while i < rows
        invariant
            i <= rows <= count,
            count == tensor.shape@[0],
            cols == tensor.cols(),
            tensor.is_matrix(),
            tensor.rows().len() == count,
            out.holds(tensor.rows().take(i as int), cols as int),
            out.shape@[0] == i,
        decreases rows - i,
    {
        let row: Vec<C> = tensor.row_slice(i)?;
        proof {
            tensor.lemma_rows();
            assert(tensor.rows().take(i + 1) =~= tensor.rows().take(i as int).push(row@));
        }
        out.push_row(&row);
        i = i + 1;
    }
    Ok(out)
}

/// The rows of one matrix below those of another. Refused where their rows differ in
/// length, or their number leaves the machine's range.
pub fn append_tensor_rows<C: Copy>(left: &mut Tensor<C>, right: &Tensor<C>) -> (out: Result<(), InferError>)
    requires
        old(left).is_matrix(),
        right.is_matrix(),
    ensures
        out is Ok <==> old(left).cols() == right.cols() && old(left).shape@[0] + right.shape@[0] <= usize::MAX,
        old(left).cols() != right.cols() ==> (out matches Err(error) && error is Dimension),
        old(left).cols() == right.cols() ==> (out matches Err(error) ==> error is Shape),
        out is Ok ==> final(left).holds(old(left).rows() + right.rows(), old(left).cols()) && final(left).shape@[0] == old(left).shape@[0]
            + right.shape@[0],
        out is Err ==> *final(left) == *old(left),
{
    if left.shape[1] != right.shape[1] {
        return Err(InferError::Dimension("rows of different lengths"));
    }
    let have: usize = left.shape[0];
    let more: usize = right.shape[0];
    if have.checked_add(more).is_none() {
        return Err(InferError::Shape("number of rows leaves the machine's range"));
    }
    let ghost first = left.rows();
    let ghost cols = left.cols();
    proof {
        right.lemma_rows();
        left.lemma_rows();
        assert(first + right.rows().take(0) =~= first);
    }
    let mut i: usize = 0;
    while i < more
        invariant
            i <= more,
            more == right.shape@[0],
            have + more <= usize::MAX,
            right.is_matrix(),
            right.rows().len() == more,
            cols == right.cols(),
            left.holds(first + right.rows().take(i as int), cols),
            left.shape@[0] == have + i,
        decreases more - i,
    {
        match right.row_slice(i) {
            Ok(row) => {
                proof {
                    right.lemma_rows();
                    assert(first + right.rows().take(i + 1) =~= (first + right.rows().take(i as int)).push(row@));
                }
                left.push_row(&row);
            },
            Err(error) => {
                return Err(error);
            },
        }
        i = i + 1;
    }
    assert(right.rows().take(more as int) =~= right.rows());
    Ok(())
}

impl<K: Kernel> DecoderModel<K> {
    /// Refuses a draft model of another row length, or that reads from layers that
    /// are not there.
    pub fn validate_dflash_draft(&self, draft: &DraftModel<K::Cell>) -> (out: Result<(), InferError>)
        ensures
            out matches Err(error) ==> error is Dimension || error is Config,
            out is Ok <==> draft_fits(*self, *draft),
            out matches Err(error) ==> draft_refusal(*self, *draft, error),
    {
        if draft.hidden_size != self.final_norm.len() {
            return Err(InferError::Dimension("draft model and decoder differ in row length"));
        }
        validate_capture_layer_ids(&draft.target_layer_ids, self.layers.len())
    }

    /// Takes a batch of tokens through the decoder and reads layers on the way.
    pub fn next_final_states_batched_with_layer_capture(&self, cache: &mut CausalDecoderCache<K::Cell>, tokens: &Vec<usize>, layer_ids: &Vec<usize>) -> (out: Result<(Tensor<K::Cell>, Tensor<K::Cell>), InferError>)
        requires
            self.wf(),
            old(cache)@.wf(),
        ensures
            out matches Err(error) ==> error.is_misfit(self.complete() && capturable(layer_ids@, self.layers@.len() as int)) || (error is Shape && layer_ids@.len() * self.hidden() > usize::MAX),
            final(cache)@.wf(),
            final(cache)@.layers.len() == old(cache)@.layers.len(),
            out matches Ok(out) ==> {
                &&& out.0.is_matrix()
                &&& out.0.shape@[0] == tokens@.len()
                &&& out.0.cols() == self.hidden()
                &&& out.1.is_matrix()
                &&& out.1.shape@[0] == tokens@.len()
                &&& out.1.cols() == layer_ids@.len() * self.hidden()
                &&& final(cache)@.position == old(cache)@.position + tokens@.len()
            },
            tokens@.len() == 0 ==> (out matches Err(error) && error is Dimension),
            functional(self.kernel) ==> match out {
                Ok(out) => read_states(*self, layer_ids@, old(cache)@, tokens@) == Some((final(cache)@, out.0.rows(), out.1.rows())),
                Err(_) => read_states(*self, layer_ids@, old(cache)@, tokens@) is None,
            },
    {
        let (hidden, read) = self.read_rows_batched(cache, tokens, layer_ids)?;
        proof {
            hidden.lemma_rows();
            crate::layer::lemma_norm_rows(self.kernel, hidden, self.final_norm, self.config.rms_eps);
        }
        let states: Tensor<K::Cell> = rms_norm(&self.kernel, &hidden, &self.final_norm, self.config.rms_eps)?;
        Ok((states, read))
    }

    /// Takes one token through the decoder and reads layers on the way.
    pub fn next_final_state_with_layer_capture(&self, cache: &mut CausalDecoderCache<K::Cell>, token: usize, layer_ids: &Vec<usize>) -> (out: Result<(Tensor<K::Cell>, Tensor<K::Cell>), InferError>)
        requires
            self.wf(),
            old(cache)@.wf(),
        ensures
            out matches Err(error) ==> error.is_misfit(self.complete() && capturable(layer_ids@, self.layers@.len() as int)) || (error is Shape && layer_ids@.len() * self.hidden() > usize::MAX),
            final(cache)@.wf(),
            out matches Ok(out) ==> {
                &&& out.0.is_matrix() && out.0.shape@[0] == 1 && out.0.cols() == self.hidden()
                &&& out.1.is_matrix() && out.1.shape@[0] == 1 && out.1.cols() == layer_ids@.len() * self.hidden()
                &&& final(cache)@.position == old(cache)@.position + 1
            },
            functional(self.kernel) ==> match out {
                Ok(out) => read_states(*self, layer_ids@, old(cache)@, seq![token]) matches Some(made) && made.0 == final(cache)@
                    && made.1[0] == out.0.rows()[0] && made.2 == out.1.rows(),
                Err(_) => read_states(*self, layer_ids@, old(cache)@, seq![token]) is None,
            },
    {
        let mut one: Vec<usize> = Vec::new();
        one.push(token);
        assert(one@ =~= seq![token]);
        let (states, read) = self.next_final_states_batched_with_layer_capture(cache, &one, layer_ids)?;
        let row: Vec<K::Cell> = states.row_slice(0)?;
        Ok((Tensor::row(row), read))
    }

    /// Takes a prompt through the decoder and reads layers on the way. Refused where
    /// it is empty.
    pub fn prefill_cache_state_with_layer_capture(&self, prompt: &Vec<usize>, layer_ids: &Vec<usize>) -> (out: Result<(CausalDecoderCache<K::Cell>, Tensor<K::Cell>, Tensor<K::Cell>), InferError>)
        requires
            self.wf(),
        ensures
            out matches Err(error) ==> error.is_misfit(self.complete() && capturable(layer_ids@, self.layers@.len() as int)) || (error is Shape && layer_ids@.len() * self.hidden() > usize::MAX),
            out matches Ok(out) ==> {
                &&& out.0@.wf() && self.behind(out.0@, prompt@.len() as int)
                &&& out.1.is_matrix() && out.1.shape@[0] == 1 && out.1.cols() == self.hidden()
                &&& out.2.is_matrix() && out.2.shape@[0] == prompt@.len() && out.2.cols() == layer_ids@.len() * self.hidden()
            },
            prompt@.len() == 0 ==> (out matches Err(error) && error is Dimension),
            functional(self.kernel) ==> match out {
                Ok(out) => read_prompt(*self, layer_ids@, prompt@) == Some((out.0@, out.1.rows()[0], out.2.rows())),
                Err(_) => read_prompt(*self, layer_ids@, prompt@) is None,
            },
    {
        let mut cache: CausalDecoderCache<K::Cell> = self.empty_cache();
        let (hidden, read) = self.read_rows_batched(&mut cache, prompt, layer_ids)?;
        let state: Tensor<K::Cell> = self.last_hidden_state(&hidden)?;
        Ok((cache, state, read))
    }

    /// Rows read from the layers, as the draft model sees them.
    pub fn project_target_hidden(&self, draft: &DraftModel<K::Cell>, rows: &Tensor<K::Cell>) -> (out: Result<Tensor<K::Cell>, InferError>)
        requires
            rows.is_matrix(),
        ensures
            out matches Ok(out) ==> out.is_matrix() && out.cols() == draft.hidden_size && out.shape@[0] == rows.shape@[0],
            out matches Err(error) ==> error is Dimension,
            functional(self.kernel) ==> match out {
                Ok(out) => projected(*self, *draft, rows.rows()) == Some(out.rows()),
                Err(_) => projected(*self, *draft, rows.rows()) is None,
            },
    {
        let k: &K = &self.kernel;
        let ghost all = Seq::new(rows.rows().len(), |i: int| draft_context_of(*k, *draft, rows.rows()[i]));
        let mut out: Tensor<K::Cell> = Tensor::empty_matrix(draft.hidden_size);
        let count: usize = rows.shape[0];
        proof {
            rows.lemma_rows();
            assert(all.take(0) =~= Seq::empty());
        }
        let mut i: usize = 0;
        while i < count
            invariant
                i <= count,
                count == rows.shape@[0],
                *k == self.kernel,
                rows.is_matrix(),
                rows.rows().len() == count,
                all == Seq::new(rows.rows().len(), |i: int| draft_context_of(*k, *draft, rows.rows()[i])),
                out.is_matrix(),
                out.cols() == draft.hidden_size,
                out.shape@[0] == i,
                functional(*k) ==> out.rows() == all.take(i as int),
            decreases count - i,
        {
            let row: Vec<K::Cell> = rows.row_slice(i)?;
            let made: Vec<K::Cell> = draft_context(k, draft, &row);
            if made.len() != draft.hidden_size {
                proof {
                    if functional(*k) {
                        assert(all[i as int].len() != draft.hidden_size);
                    }
                }
                return Err(InferError::Dimension("draft model gave a row of another length"));
            }
            proof {
                if functional(*k) {
                    assert(all.take(i + 1) =~= all.take(i as int).push(made@));
                }
            }
            out.push_row(&made);
            i = i + 1;
        }
        proof {
            assert(all.take(count as int) =~= all);
            out.lemma_rows();
        }
        Ok(out)
    }

    /// Adds rows read from the layers to the context of a draft model.
    pub fn append_dflash_projected_context(&self, draft: &DraftModel<K::Cell>, projected_context: &mut Tensor<K::Cell>, target_hidden: &Tensor<K::Cell>) -> (out: Result<(), InferError>)
        requires
            old(projected_context).is_matrix(),
            old(projected_context).cols() == draft.hidden_size,
            target_hidden.is_matrix(),
        ensures
            out matches Err(error) ==> error is Dimension || error is Shape,
            final(projected_context).is_matrix(),
            final(projected_context).cols() == draft.hidden_size,
            out is Ok ==> final(projected_context).shape@[0] == old(projected_context).shape@[0] + target_hidden.shape@[0],
            functional(self.kernel) ==> match out {
                Ok(_) => context_with(*self, *draft, old(projected_context).rows(), target_hidden.rows()) == Some(
                    final(projected_context).rows(),
                ),
                Err(_) => context_with(*self, *draft, old(projected_context).rows(), target_hidden.rows()) is None,
            },
    {
        let more: Tensor<K::Cell> = self.project_target_hidden(draft, target_hidden)?;
        proof {
            more.lemma_rows();
            projected_context.lemma_rows();
        }
        append_tensor_rows(projected_context, &more)
    }
}

/// Where some of the states lead to no token, all of them do not.
proof fn lemma_sampled_none<K: Kernel>(m: DecoderModel<K>, options: GenerationOptions<K::Cell>, states: Seq<Seq<K::Cell>>, sampler: SamplerView, n: int)
    requires
        0 <= n <= states.len(),
        sampled_each(m, options, states.take(n), sampler) is None,
    ensures
        sampled_each(m, options, states, sampler) is None,
    decreases states.len() - n,
{
    if n < states.len() {
        assert(states.take(n + 1).drop_last() =~= states.take(n));
        lemma_sampled_none(m, options, states, sampler, n + 1);
    } else {
        assert(states.take(n) =~= states);
    }
}

impl<K: Kernel> DecoderModel<K> {
    /// The guesses of a draft model behind a token.
    #[verifier::spinoff_prover]
    pub fn dflash_draft_greedy_tokens(
        &self,
        draft: &DraftModel<K::Cell>,
        projected_context: &Tensor<K::Cell>,
        primary: usize,
        max_draft_tokens: usize,
        options: &GenerationOptions<K::Cell>,
        sampler: &mut TokenSampler,
    ) -> (out: Result<Vec<usize>, InferError>)
        requires
            self.wf(),
            projected_context.is_matrix(),
        ensures
            out matches Err(error) ==> is_refusal(self.kernel, error, true) || error is Shape,
            out matches Ok(tokens) ==> tokens@.len() == max_draft_tokens,
            max_draft_tokens == usize::MAX ==> (out matches Err(error) && error is Shape),
            functional(self.kernel) ==> match out {
                Ok(tokens) => dflash_drafts(
                    *self,
                    *draft,
                    projected_context.rows(),
                    primary,
                    max_draft_tokens as int,
                    *options,
                    old(sampler)@,
                ) == Some((tokens@, final(sampler)@)),
                Err(_) => dflash_drafts(
                    *self,
                    *draft,
                    projected_context.rows(),
                    primary,
                    max_draft_tokens as int,
                    *options,
                    old(sampler)@,
                ) is None,
            },
    {
        let k: &K = &self.kernel;
        let block_len: usize = match max_draft_tokens.checked_add(1) {
            Some(block_len) => block_len,
            None => {
                return Err(InferError::Shape("block of guesses leaves the machine's range"));
            },
        };
        let mut block: Vec<usize> = Vec::new();
        block.push(primary);
        let mut filled: usize = 0;
        while filled < max_draft_tokens
            invariant
                filled <= max_draft_tokens,
                block@ == masked_block(primary, draft.mask_token_id, filled as int),
            decreases max_draft_tokens - filled,
        {
            block.push(draft.mask_token_id);
            filled = filled + 1;
            assert(block@ =~= masked_block(primary, draft.mask_token_id, filled as int));
        }
        let embeddings: Tensor<K::Cell> = self.embed_scaled(&block)?;
        proof {
            embeddings.lemma_rows();
            projected_context.lemma_rows();
            crate::context::lemma_flatten_rows(embeddings.data@, embeddings.cols(), embeddings.shape@[0] as int);
            crate::context::lemma_flatten_rows(
                projected_context.data@,
                projected_context.cols(),
                projected_context.shape@[0] as int,
            );
        }
        let flat: Vec<K::Cell> = draft_states(k, draft, &embeddings.data, &projected_context.data);
        let have: usize = flat.len();
        let hidden: usize = self.final_norm.len();
        let size: usize = match block_len.checked_mul(hidden) {
            Some(size) => size,
            None => {
                return Err(InferError::Dimension("draft model gave states of another size"));
            },
        };
        if have != size {
            return Err(InferError::Dimension("draft model gave states of another size"));
        }
        let ghost states = rows_of(flat@, hidden as int, block_len as int).skip(1);
        let ghost start = sampler@;
        let mut tokens: Vec<usize> = Vec::new();
        proof {
            assert(states.take(0) =~= Seq::<Seq<K::Cell>>::empty());
            assert(tokens@ =~= Seq::<usize>::empty());
            assert(sampled_each(*self, *options, Seq::<Seq<K::Cell>>::empty(), start) == Some((Seq::<usize>::empty(), start)));
        }
        let mut i: usize = 0;
        while i < max_draft_tokens
            invariant
                i <= max_draft_tokens,
                block_len == max_draft_tokens + 1,
                self.wf(),
                *k == self.kernel,
                hidden == self.hidden(),
                flat@.len() == block_len * hidden,
                block_len * hidden <= usize::MAX,
                states == rows_of(flat@, hidden as int, block_len as int).skip(1),
                states.len() == max_draft_tokens,
                tokens@.len() == i,
                start == old(sampler)@,
                functional(*k) ==> sampled_each(*self, *options, states.take(i as int), start) == Some((tokens@, sampler@)),
                functional(*k) ==> dflash_drafts(
                    *self,
                    *draft,
                    projected_context.rows(),
                    primary,
                    max_draft_tokens as int,
                    *options,
                    start,
                ) == sampled_each(*self, *options, states, start),
            decreases max_draft_tokens - i,
        {
            proof {
                lemma_row_bounds(i + 1, hidden as int, block_len as int);
                assert(0 <= (i + 1) * hidden && (i + 1) * hidden + hidden <= block_len * hidden);
            }
            let at: usize = (i + 1) * hidden;
            let row: Vec<K::Cell> = copy_range(&flat, at, at + hidden);
            let state: Tensor<K::Cell> = Tensor::row(row);
            proof {
                assert(row@ =~= row_of(flat@, hidden as int, i + 1));
                assert(states[i as int] == row@);
                assert(states.take(i + 1).drop_last() =~= states.take(i as int));
                assert(states.take(i + 1).last() == states[i as int]);
            }
            match self.sample_token_from_state(&state, options, sampler) {
                Ok(token) => {
                    tokens.push(token);
                },
                Err(error) => {
                    proof {
                        if functional(*k) {
                            lemma_sampled_none(*self, *options, states, start, i + 1);
                        }
                    }
                    return Err(error);
                },
            }
            i = i + 1;
        }
        assert(states.take(max_draft_tokens as int) =~= states);
        Ok(tokens)
    }
}

impl<K: Kernel> DecoderModel<K> {
    /// Checks guesses against the states of their batch, up to the first that ends
    /// the check: where it ended, and the last token given.
    #[verifier::spinoff_prover]
    fn dflash_judge_drafts(
        &self,
        run: &mut Speculation<K::Cell>,
        states: &Tensor<K::Cell>,
        drafts: &Vec<usize>,
        primary: usize,
        max_new_tokens: usize,
        options: &GenerationOptions<K::Cell>,
        Ghost(limit): Ghost<int>,
    ) -> (out: Result<(Option<usize>, usize), InferError>)
        requires
            self.wf(),
            old(run).wf(),
            states.is_matrix(),
            states.shape@[0] == drafts@.len(),
            old(run).generated@.len() < max_new_tokens,
            old(run).stats.covers(drafts@.len() as int),
            old(run).stats.below(limit),
            0 <= limit,
            limit + drafts@.len() < u128::MAX,
        ensures
            out matches Err(error) ==> is_refusal(self.kernel, error, true),
            final(run).cache == old(run).cache,
            final(run).final_state == old(run).final_state,
            final(run).stats.proposed_by_position@.len() == old(run).stats.proposed_by_position@.len(),
            final(run).stats.accepted_by_position@.len() == old(run).stats.accepted_by_position@.len(),
            old(run).generated@.len() <= final(run).generated@.len() <= max_new_tokens,
            final(run).stats.below(limit + (final(run).generated@.len() - old(run).generated@.len()) + 1),
            old(run).stats@.balanced() ==> final(run).stats@.balanced(),
            out matches Ok((ended, _)) ==> {
                &&& ended is None ==> final(run).generated@.len() < max_new_tokens
                &&& ended matches Some(position) ==> position < drafts@.len()
            },
            functional(self.kernel) ==> match out {
                Ok((ended, last)) => dflash_judge_from(
                    *self,
                    *options,
                    states.rows(),
                    drafts@,
                    max_new_tokens as int,
                    0,
                    opening(old(run)@, primary),
                ) == Some(
                    Verdict {
                        generated: final(run).generated@,
                        stats: final(run).stats@,
                        sampler: final(run).sampler@,
                        pending: final(run).pending,
                        last,
                        history: Seq::<(Seq<K::Cell>, usize)>::empty(),
                        ended: match ended {
                            Some(position) => Some(position as int),
                            None => None,
                        },
                    },
                ),
                Err(_) => dflash_judge_from(
                    *self,
                    *options,
                    states.rows(),
                    drafts@,
                    max_new_tokens as int,
                    0,
                    opening(old(run)@, primary),
                ) is None,
            },
    {
        let ghost rows = states.rows();
        let ghost first = run.generated@;
        let ghost model = dflash_judge_from(*self, *options, rows, drafts@, max_new_tokens as int, 0, opening(run@, primary));
        let n: usize = drafts.len();
        let mut last: usize = primary;
        let mut ended: Option<usize> = None;
        let mut position: usize = 0;
        proof {
            states.lemma_rows();
        }
        while position < n && ended.is_none()
            invariant
                position <= n,
                n == drafts@.len(),
                self.wf(),
                states.is_matrix(),
                states.shape@[0] == n,
                rows == states.rows(),
                rows.len() == n,
                run.cache == old(run).cache,
                run.final_state == old(run).final_state,
                first == old(run).generated@,
                first.len() <= run.generated@.len() <= max_new_tokens,
                run.stats.proposed_by_position@.len() == old(run).stats.proposed_by_position@.len(),
                run.stats.accepted_by_position@.len() == old(run).stats.accepted_by_position@.len(),
                run.stats.covers(n as int),
                0 <= limit,
                limit + n < u128::MAX,
                run.generated@.len() - first.len() <= position,
                run.stats.below(limit + (run.generated@.len() - first.len()) + (if ended is Some { 1int } else { 0 })),
                ended is None ==> run.generated@.len() < max_new_tokens,
                ended matches Some(at) ==> at < n,
                old(run).stats@.balanced() ==> run.stats@.balanced(),
                model == dflash_judge_from(*self, *options, rows, drafts@, max_new_tokens as int, 0, opening(old(run)@, primary)),
                functional(self.kernel) ==> model == dflash_judge_from(
                    *self,
                    *options,
                    rows,
                    drafts@,
                    max_new_tokens as int,
                    position as int,
                    Verdict {
                        generated: run.generated@,
                        stats: run.stats@,
                        sampler: run.sampler@,
                        pending: run.pending,
                        last,
                        history: Seq::<(Seq<K::Cell>, usize)>::empty(),
                        ended: match ended {
                            Some(at) => Some(at as int),
                            None => None,
                        },
                    },
                ),
            decreases n - position,
        {
            let row: Vec<K::Cell> = states.row_slice(position)?;
            let target_state: Tensor<K::Cell> = Tensor::row(row);
            let draft: usize = drafts[position];
            let ghost before = run.stats@;
            let target: usize = self.sample_token_from_state(&target_state, options, &mut run.sampler)?;
            let ghost level = limit + (run.generated@.len() - first.len());
            run.stats.judge(position, draft == target, Ghost(level));
            proof {
                if before.balanced() {
                    crate::stats::law_judged_balanced(before, position as int, draft == target);
                }
            }
            if draft == target {
                run.generated.push(draft);
                last = draft;
                if run.generated.len() >= max_new_tokens || options.is_stop_token(draft) {
                    ended = Some(position);
                }
            } else {
                run.pending = target;
                ended = Some(position);
            }
            position = position + 1;
        }
        Ok((ended, last))
    }

    /// Leaves a check of guesses with the cache and state of the tokens it used, and
    /// gives the rows read from the layers for them.
    #[verifier::rlimit(40)]
    #[verifier::spinoff_prover]
    fn dflash_land(
        &self,
        run: &mut Speculation<K::Cell>,
        snapshot: SpeculativeCacheSnapshot<K::Cell>,
        verify_tokens: &Vec<usize>,
        states: &Tensor<K::Cell>,
        read: Tensor<K::Cell>,
        layer_ids: &Vec<usize>,
        ended: Option<usize>,
    ) -> (out: Result<Tensor<K::Cell>, InferError>)
        requires
            self.wf(),
            old(run).wf(),
            snapshot.cpu@.wf(),
            snapshot.cpu@.layers.len() == old(run).cache@.layers.len(),
            states.is_matrix(),
            states.shape@[0] == verify_tokens@.len(),
            read.is_matrix(),
            read.shape@[0] == verify_tokens@.len(),
            verify_tokens@.len() > 0,
            ended matches Some(position) ==> position < verify_tokens@.len(),
        ensures
            out matches Err(error) ==> error.is_misfit(self.complete() && capturable(layer_ids@, self.layers@.len() as int)) || (error is Shape && layer_ids@.len() * self.hidden() > usize::MAX),
            final(run).wf(),
            final(run).pending == old(run).pending,
            final(run).generated == old(run).generated,
            final(run).sampler == old(run).sampler,
            final(run).stats == old(run).stats,
            out matches Ok(used) ==> used.is_matrix(),
            functional(self.kernel) ==> ({
                let model = dflash_landed(
                    *self,
                    layer_ids@,
                    snapshot.cpu@,
                    old(run).cache@,
                    states.rows(),
                    read.rows(),
                    verify_tokens@,
                    match ended {
                        Some(position) => Some(position as int),
                        None => None,
                    },
                );
                match out {
                    Ok(used) => model == Some((final(run).cache@, final(run).final_state.rows()[0], used.rows())),
                    Err(_) => model is None,
                }
            }),
    {
        let n: usize = verify_tokens.len();
        proof {
            states.lemma_rows();
            read.lemma_rows();
        }
        match ended {
            Some(position) => if position + 1 < n {
                self.restore_speculative_cache(&mut run.cache, snapshot)?;
                let replay: Vec<usize> = copy_range(verify_tokens, 0, position + 1);
                assert(replay@ =~= verify_tokens@.take(position + 1));
                let (replayed, replay_read) = self.next_final_states_batched_with_layer_capture(
                    &mut run.cache,
                    &replay,
                    layer_ids,
                )?;
                proof {
                    replayed.lemma_rows();
                }
                let row: Vec<K::Cell> = replayed.row_slice(position)?;
                run.final_state = Tensor::row(row);
                Ok(replay_read)
            } else {
                let row: Vec<K::Cell> = states.row_slice(position)?;
                run.final_state = Tensor::row(row);
                take_tensor_rows(&read, position + 1)
            },
            None => {
                let row: Vec<K::Cell> = states.row_slice(n - 1)?;
                run.final_state = Tensor::row(row);
                Ok(read)
            },
        }
    }

    /// Checks guesses behind the token that was given last, in one batch, keeps those
    /// that hold, and adds what was read from the layers to the draft model's
    /// context.
    #[verifier::spinoff_prover]
    pub fn verify_dflash_drafts_batched(
        &self,
        run: &mut Speculation<K::Cell>,
        projected_context: &mut Tensor<K::Cell>,
        draft: &DraftModel<K::Cell>,
        drafts: &Vec<usize>,
        primary: usize,
        max_new_tokens: usize,
        options: &GenerationOptions<K::Cell>,
        Ghost(limit): Ghost<int>,
    ) -> (out: Result<(bool, usize), InferError>)
        requires
            self.wf(),
            old(run).wf(),
            old(projected_context).is_matrix(),
            old(projected_context).cols() == draft.hidden_size,
            old(run).generated@.len() < max_new_tokens,
            old(run).stats.covers(drafts@.len() as int),
            old(run).stats.below(limit),
            0 <= limit,
            limit + drafts@.len() < u128::MAX,
        ensures
            out matches Err(error) ==> is_refusal(self.kernel, error, self.complete() && capturable(draft.target_layer_ids@, self.layers@.len() as int)) || error is Shape,
            out is Ok ==> final(run).wf(),
            final(projected_context).is_matrix(),
            final(projected_context).cols() == draft.hidden_size,
            final(run).stats.proposed_by_position@.len() == old(run).stats.proposed_by_position@.len(),
            final(run).stats.accepted_by_position@.len() == old(run).stats.accepted_by_position@.len(),
            old(run).generated@.len() <= final(run).generated@.len() <= max_new_tokens,
            final(run).stats.below(limit + (final(run).generated@.len() - old(run).generated@.len()) + 1),
            old(run).stats@.balanced() ==> final(run).stats@.balanced(),
            functional(self.kernel) ==> ({
                let s = DflashView { run: old(run)@, context: old(projected_context).rows() };
                let model = dflash_verified(*self, *draft, *options, s, drafts@, primary, max_new_tokens as int);
                match out {
                    Ok((all, last)) => model == Some(
                        (DflashView { run: final(run)@, context: final(projected_context).rows() }, all, last),
                    ),
                    Err(_) => model is None,
                }
            }),
    {
        let n: usize = drafts.len();
        if n == 0 {
            return Ok((true, primary));
        }
        let ghost start = run@;
        let snapshot: SpeculativeCacheSnapshot<K::Cell> = self.snapshot_speculative_cache(&run.cache);
        let mut verify_tokens: Vec<usize> = Vec::new();
        verify_tokens.push(primary);
        for i in 0..n - 1
            invariant
                n == drafts@.len(),
                n > 0,
                verify_tokens@ == seq![primary] + drafts@.take(i as int),
        {
            verify_tokens.push(drafts[i]);
            assert(seq![primary] + drafts@.take(i + 1) =~= (seq![primary] + drafts@.take(i as int)).push(drafts@[i as int]));
        }
        let ghost tokens = checked_tokens(primary, drafts@);
        proof {
            assert(drafts@.take(n - 1) =~= drafts@.drop_last());
        }
        let (states, read) = self.next_final_states_batched_with_layer_capture(
            &mut run.cache,
            &verify_tokens,
            &draft.target_layer_ids,
        )?;
        proof {
            assert(run@.generated == start.generated);
        }
        let (ended, last) = self.dflash_judge_drafts(run, &states, drafts, primary, max_new_tokens, options, Ghost(limit))?;
        let used: Tensor<K::Cell> = self.dflash_land(
            run,
            snapshot,
            &verify_tokens,
            &states,
            read,
            &draft.target_layer_ids,
            ended,
        )?;
        self.append_dflash_projected_context(draft, projected_context, &used)?;
        Ok((ended.is_none(), last))
    }

    /// Takes a token through the decoder, reads layers on the way, and reads the next
    /// token.
    fn dflash_read_next(
        &self,
        run: &mut Speculation<K::Cell>,
        projected_context: &mut Tensor<K::Cell>,
        draft: &DraftModel<K::Cell>,
        token: usize,
        options: &GenerationOptions<K::Cell>,
        Ghost(limit): Ghost<int>,
    ) -> (out: Result<(), InferError>)
        requires
            self.wf(),
            old(run).wf(),
            old(projected_context).is_matrix(),
            old(projected_context).cols() == draft.hidden_size,
            old(run).stats.below(limit),
            limit < u128::MAX,
        ensures
            out matches Err(error) ==> is_refusal(self.kernel, error, self.complete() && capturable(draft.target_layer_ids@, self.layers@.len() as int)) || error is Shape,
            final(run).wf(),
            final(projected_context).is_matrix(),
            final(projected_context).cols() == draft.hidden_size,
            final(run).generated == old(run).generated,
            final(run).stats.below(limit + 1),
            final(run).stats.proposed_by_position@.len() == old(run).stats.proposed_by_position@.len(),
            final(run).stats.accepted_by_position@.len() == old(run).stats.accepted_by_position@.len(),
            old(run).stats@.balanced() ==> final(run).stats@.balanced(),
            functional(self.kernel) ==> ({
                let s = DflashView { run: old(run)@, context: old(projected_context).rows() };
                let model = dflash_read_on(*self, *draft, *options, s, token);
                match out {
                    Ok(_) => model == Some(DflashView { run: final(run)@, context: final(projected_context).rows() }),
                    Err(_) => model is None,
                }
            }),
    {
        let (state, read) = self.next_final_state_with_layer_capture(&mut run.cache, token, &draft.target_layer_ids)?;
        run.final_state = state;
        run.pending = self.sample_token_from_state(&run.final_state, options, &mut run.sampler)?;
        self.append_dflash_projected_context(draft, projected_context, &read)?;
        run.stats.read(Ghost(limit));
        Ok(())
    }

    /// One round: guesses behind the token that was given last, and their check. Says
    /// whether the generation is at its end.
    pub fn dflash_round_once(
        &self,
        run: &mut Speculation<K::Cell>,
        projected_context: &mut Tensor<K::Cell>,
        draft: &DraftModel<K::Cell>,
        guesses: usize,
        max_new_tokens: usize,
        options: &GenerationOptions<K::Cell>,
        Ghost(limit): Ghost<int>,
    ) -> (out: Result<bool, InferError>)
        requires
            self.wf(),
            old(run).wf(),
            old(projected_context).is_matrix(),
            old(projected_context).cols() == draft.hidden_size,
            0 < old(run).generated@.len() < max_new_tokens,
            old(run).stats.covers(guesses as int),
            old(run).stats.below(limit),
            0 <= limit <= 3 * usize::MAX,
        ensures
            out matches Err(error) ==> is_refusal(self.kernel, error, self.complete() && capturable(draft.target_layer_ids@, self.layers@.len() as int)) || error is Shape,
            out is Ok ==> final(run).wf(),
            final(projected_context).is_matrix(),
            final(projected_context).cols() == draft.hidden_size,
            out is Ok ==> final(run).stats.covers(guesses as int),
            out is Ok ==> old(run).generated@.len() <= final(run).generated@.len() <= max_new_tokens,
            out is Ok ==> final(run).stats.below(limit + (final(run).generated@.len() - old(run).generated@.len()) + 2),
            out is Ok && old(run).stats@.balanced() ==> final(run).stats@.balanced(),
            functional(self.kernel) ==> ({
                let s = DflashView { run: old(run)@, context: old(projected_context).rows() };
                let model = dflash_round(*self, *draft, *options, max_new_tokens as int, guesses as int, s);
                match out {
                    Ok(ended) => model == Some(
                        (DflashView { run: final(run)@, context: final(projected_context).rows() }, ended),
                    ),
                    Err(_) => model is None,
                }
            }),
    {
        let ghost start = run@;
        let primary: usize = run.pending;
        let drafts: Vec<usize> = self.dflash_draft_greedy_tokens(
            draft,
            projected_context,
            primary,
            guesses,
            options,
            &mut run.sampler,
        )?;
        proof {
            assert(run@ =~= SpecView { sampler: run.sampler@, ..start });
        }
        let (all, last) = self.verify_dflash_drafts_batched(
            run,
            projected_context,
            draft,
            &drafts,
            primary,
            max_new_tokens,
            options,
            Ghost(limit),
        )?;
        let count: usize = run.generated.len();
        if count >= max_new_tokens || options.is_stop_token(run.generated[count - 1]) {
            return Ok(true);
        }
        if all {
            let ghost level = limit + (run.generated@.len() - start.generated.len()) + 1;
            self.dflash_read_next(run, projected_context, draft, last, options, Ghost(level))?;
        }
        Ok(false)
    }
}

impl<K: Kernel> CausalDecoder<K> {
    /// Generates the best tokens from a prompt with the guesses of a block draft
    /// model, each checked against the decoder. Refused where tokens would be drawn,
    /// without guesses, where the prompt is empty, and where the draft model does not
    /// fit.
    #[verifier::spinoff_prover]
    pub fn generate_greedy_dflash_batched_with_options(
        &self,
        prompt: &Vec<usize>,
        max_new_tokens: usize,
        options: &GenerationOptions<K::Cell>,
        draft: &DraftModel<K::Cell>,
        max_draft_tokens: usize,
    ) -> (out: Result<SpeculativeOutput, InferError>)
        requires
            self.wf(),
        ensures
            functional(self.model.kernel) && hot(self.model.kernel, *options) ==> (out matches Err(error) && error is Config),
            max_draft_tokens == 0 ==> (out matches Err(error) && error is Config),
            functional(self.model.kernel) && !hot(self.model.kernel, *options) && max_draft_tokens > 0 && prompt@.len() == 0 ==> (
            out matches Err(error) && error is Dimension),
            functional(self.model.kernel) && !hot(self.model.kernel, *options) && draft_fits(self.model, *draft) && max_draft_tokens > 0 ==> (out matches Err(error)
                ==> is_refusal(self.model.kernel, error, self.model.complete()) || error is Shape),
            !draft_fits(self.model, *draft) ==> out is Err,
            functional(self.model.kernel) && !hot(self.model.kernel, *options) && max_draft_tokens > 0 && prompt@.len() > 0 && !draft_fits(
                self.model,
                *draft,
            ) ==> (out matches Err(error) && draft_refusal(self.model, *draft, error)),
            out matches Ok(out) ==> out.tokens@.len() <= max_new_tokens && out.stats@.balanced(),
            functional(self.model.kernel) ==> ({
                let model = dflash_generated(
                    self.model,
                    *draft,
                    *options,
                    prompt@,
                    max_new_tokens as int,
                    max_draft_tokens as int,
                );
                match out {
                    Ok(out) => model == Some((out.tokens@, out.stats@)),
                    Err(_) => model is None,
                }
            }),
    {
        let m: &DecoderModel<K> = &self.model;
        if is_hot(&m.kernel, options) {
            return Err(InferError::Config("a block draft model guesses the best tokens only"));
        }
        if max_draft_tokens == 0 {
            return Err(InferError::Config("no tokens to guess"));
        }
        if prompt.len() == 0 {
            return Err(InferError::Dimension("empty prompt"));
        }
        m.validate_dflash_draft(draft)?;
        if max_new_tokens == 0 {
            let tokens: Vec<usize> = Vec::new();
            assert(tokens@ =~= Seq::<usize>::empty());
            proof {
                crate::stats::law_zero_balanced(0);
            }
            return Ok(SpeculativeOutput { tokens, stats: SpeculativeStats::new(0), loop_duration: 0 });
        }
        let guesses: usize = if max_draft_tokens < draft.block_size {
            max_draft_tokens
        } else {
            draft.block_size
        };
        let (cache, final_state, read) = m.prefill_cache_state_with_layer_capture(prompt, &draft.target_layer_ids)?;
        let mut context: Tensor<K::Cell> = m.project_target_hidden(draft, &read)?;
        let mut sampler: TokenSampler = TokenSampler::new(options.seed);
        let pending: usize = m.sample_token_from_state(&final_state, options, &mut sampler)?;
        let started: u64 = m.kernel.nanoseconds();
        let mut run: Speculation<K::Cell> = Speculation {
            cache,
            final_state,
            pending,
            generated: Vec::new(),
            sampler,
            stats: SpeculativeStats::new(guesses),
        };
        let max: usize = max_new_tokens;
        let ghost start = DflashView { run: run@, context: context.rows() };
        let ghost model = dflash_rounds(*m, *draft, *options, max as int, guesses as int, start);
        proof {
            assert(run.generated@ =~= Seq::<usize>::empty());
            crate::stats::law_zero_balanced(guesses as int);
        }
        while run.generated.len() < max
            invariant_except_break
                functional(m.kernel) ==> model == dflash_rounds(
                    *m,
                    *draft,
                    *options,
                    max as int,
                    guesses as int,
                    DflashView { run: run@, context: context.rows() },
                ),
                run.wf(),
                run.stats.below(3 * (run.generated@.len() as int)),
            invariant
                m.wf(),
                *m == self.model,
                max == max_new_tokens,
                max > 0,
                max_draft_tokens > 0,
                prompt@.len() > 0,
                draft_fits(*m, *draft),
                functional(m.kernel) ==> !hot(m.kernel, *options),
                context.is_matrix(),
                context.cols() == draft.hidden_size,
                run.generated@.len() <= max,
                run.stats.covers(guesses as int),
                run.stats@.balanced(),
                model == dflash_rounds(*m, *draft, *options, max as int, guesses as int, start),
                functional(m.kernel) ==> dflash_generated(*m, *draft, *options, prompt@, max as int, max_draft_tokens as int) == match model {
                    Some(end) => Some((end.run.generated, end.run.stats)),
                    None => None,
                },
            ensures
                functional(m.kernel) ==> (model matches Some(end) && end.run.generated == run.generated@ && end.run.stats == run.stats@),
            decreases max - run.generated@.len(),
        {
            let ghost before = DflashView { run: run@, context: context.rows() };
            let ghost level: int = 3 * (run.generated@.len() as int);
            if options.is_stop_token(run.pending) {
                break;
            }
            let primary: usize = run.pending;
            run.generated.push(primary);
            proof {
                assert(run@ =~= dflash_given(before).run);
            }
            if run.generated.len() >= max {
                break;
            }
            let ended: bool = m.dflash_round_once(&mut run, &mut context, draft, guesses, max, options, Ghost(level))?;
            if ended {
                break;
            }
        }
        let loop_duration: u64 = elapsed(&m.kernel, started);
        Ok(SpeculativeOutput { tokens: run.generated, stats: run.stats, loop_duration })
    }

    /// Generates the best tokens from a prompt without guesses, and reads the layers
    /// of a block draft model on the way. Refused where tokens would be drawn, where
    /// the prompt is empty, and where the draft model does not fit.
    pub fn generate_greedy_dflash_reference_with_options(&self, prompt: &Vec<usize>, max_new_tokens: usize, options: &GenerationOptions<K::Cell>, draft: &DraftModel<K::Cell>) -> (out: Result<Vec<usize>, InferError>)
        requires
            self.wf(),
        ensures
            functional(self.model.kernel) && hot(self.model.kernel, *options) ==> (out matches Err(error) && error is Config),
            functional(self.model.kernel) && !hot(self.model.kernel, *options) && prompt@.len() == 0 ==> (out matches Err(error)
                && error is Dimension),
            functional(self.model.kernel) && !hot(self.model.kernel, *options) && draft_fits(self.model, *draft) ==> (out matches Err(error)
                ==> is_refusal(self.model.kernel, error, self.model.complete()) || error is Shape),
            !draft_fits(self.model, *draft) ==> out is Err,
            functional(self.model.kernel) && !hot(self.model.kernel, *options) && prompt@.len() > 0 && !draft_fits(self.model, *draft) ==> (
            out matches Err(error) && draft_refusal(self.model, *draft, error)),
            out matches Ok(tokens) ==> crate::decode::within(*options, tokens@, max_new_tokens as int),
            functional(self.model.kernel) ==> match out {
                Ok(tokens) => dflash_reference(self.model, *draft, *options, prompt@, max_new_tokens as int) == Some(tokens@),
                Err(_) => dflash_reference(self.model, *draft, *options, prompt@, max_new_tokens as int) is None,
            },
    {
        let m: &DecoderModel<K> = &self.model;
        if is_hot(&m.kernel, options) {
            return Err(InferError::Config("a block draft model guesses the best tokens only"));
        }
        if prompt.len() == 0 {
            return Err(InferError::Dimension("empty prompt"));
        }
        m.validate_dflash_draft(draft)?;
        let mut tokens: Vec<usize> = Vec::new();
        assert(tokens@ =~= Seq::<usize>::empty());
        if max_new_tokens == 0 {
            return Ok(tokens);
        }
        let (prompt_cache, final_state, _read) = m.prefill_cache_state_with_layer_capture(prompt, &draft.target_layer_ids)?;
        let mut cache: CausalDecoderCache<K::Cell> = prompt_cache;
        let mut sampler: TokenSampler = TokenSampler::new(options.seed);
        let mut token: usize = m.sample_token_from_state(&final_state, options, &mut sampler)?;
        let ids: &Vec<usize> = &draft.target_layer_ids;
        let max: usize = max_new_tokens;
        let ghost model = dflash_plain(*m, ids@, *options, cache@, token, sampler@, tokens@, max as int);
        while tokens.len() < max
            invariant_except_break
                functional(m.kernel) ==> model == dflash_plain(*m, ids@, *options, cache@, token, sampler@, tokens@, max as int),
            invariant
                m.wf(),
                *m == self.model,
                *ids == draft.target_layer_ids,
                max == max_new_tokens,
                max > 0,
                prompt@.len() > 0,
                draft_fits(*m, *draft),
                functional(m.kernel) ==> !hot(m.kernel, *options),
                cache@.wf(),
                crate::decode::within(*options, tokens@, max as int),
                functional(m.kernel) ==> dflash_reference(*m, *draft, *options, prompt@, max as int) == model,
            ensures
                functional(m.kernel) ==> model == Some(tokens@),
            decreases max - tokens@.len(),
        {
            if options.is_stop_token(token) {
                break;
            }
            tokens.push(token);
            if generated_matches_stop_sequence(&tokens, &options.stop_sequences) || tokens.len() >= max {
                break;
            }
            let (state, _read) = m.next_final_state_with_layer_capture(&mut cache, token, ids)?;
            token = m.sample_token_from_state(&state, options, &mut sampler)?;
        }
        Ok(tokens)
    }
}

} // verus!
