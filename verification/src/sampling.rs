//! From a state to a token.

use vstd::prelude::*;
use crate::error::InferError;
use crate::kernel::{accept, accept_of, advance, advance_of, argmax, argmax_of, at_most, at_most_of, binary, constant, constant_of, device_answer_of, device_token, distribution, distribution_of, draw, draw_from, draw_from_of, draw_of, fails_with, functional, is_refusal, mask, mask_of, unary, unary_of, Binary, Constant, DeviceRoute, Kernel, Unary};
use crate::linear::{forward_linear, linear_row, linear_rows};
use crate::model::DecoderModel;
use crate::options::{greedy, hot, is_greedy, is_hot, GenerationOptions, SamplerView, TokenSampler};
use crate::rows::{over, times};
use crate::tensor::Tensor;
use crate::weights::Linear;

verus! {

/// Largest number of candidates that a device draws from.
pub const MAX_SAMPLER_TOP_K: usize = 32;

/// The number is above zero.
pub open spec fn positive<K: Kernel>(k: K, value: K::Cell) -> bool {
    let zero = constant_of(k, Constant::Zero);
    at_most_of(k, zero, value) && !at_most_of(k, value, zero)
}

fn is_positive<K: Kernel>(k: &K, value: K::Cell) -> (yes: bool)
    ensures
        functional(*k) ==> yes == positive(*k, value),
{
    let zero: K::Cell = constant(k, Constant::Zero);
    let from_below: bool = at_most(k, zero, value);
    let from_above: bool = at_most(k, value, zero);
    from_below && !from_above
}

/// Logits bent into the range of a cap.
pub open spec fn capped<K: Kernel>(k: K, row: Seq<K::Cell>, cap: K::Cell) -> Seq<K::Cell> {
    Seq::new(row.len(), |i: int| times(k, unary_of(k, Unary::Tanh, over(k, row[i], cap)), cap))
}

/// Logits under the model's cap, where it has one above zero.
pub open spec fn finalized<K: Kernel>(m: DecoderModel<K>, row: Seq<K::Cell>) -> Seq<K::Cell> {
    match m.config.final_logit_softcapping {
        Some(cap) => if positive(m.kernel, cap) {
            capped(m.kernel, row, cap)
        } else {
            row
        },
        None => row,
    }
}

/// The logits that a head gives a state.
pub open spec fn logits_of<K: Kernel>(m: DecoderModel<K>, head: Linear<K::Cell>, state: Seq<K::Cell>) -> Option<Seq<K::Cell>> {
    match linear_row(m.kernel, head, state) {
        Some(row) => Some(finalized(m, row)),
        None => None,
    }
}

/// How a token is to be chosen on a device, where it is to be chosen there.
pub open spec fn device_route<K: Kernel>(m: DecoderModel<K>, head: Linear<K::Cell>, options: GenerationOptions<K::Cell>) -> Option<DeviceRoute> {
    if options.guided || head.bias is Some {
        None
    } else if greedy(m.kernel, options) {
        if m.flags.gpu_argmax {
            Some(DeviceRoute::Argmax)
        } else {
            None
        }
    } else if !hot(m.kernel, options) || !m.flags.gpu_sampler {
        None
    } else if options.top_k == 0 {
        if at_most_of(m.kernel, constant_of(m.kernel, Constant::One), options.top_p) {
            Some(DeviceRoute::Gumbel)
        } else {
            None
        }
    } else if options.top_k <= MAX_SAMPLER_TOP_K {
        Some(DeviceRoute::TopK)
    } else {
        None
    }
}

/// The random state that a device is given; the best token needs none.
pub open spec fn device_random(route: DeviceRoute, sampler: SamplerView) -> u64 {
    match route {
        DeviceRoute::Argmax => 0,
        _ => sampler.random,
    }
}

/// The sampler after a token was chosen on a device.
pub open spec fn after_device<K: Kernel>(k: K, route: DeviceRoute, sampler: SamplerView) -> SamplerView {
    match route {
        DeviceRoute::Argmax => sampler,
        _ => SamplerView { random: advance_of(k, sampler.random), ..sampler },
    }
}

/// What a device answers where a token is to be chosen there: nothing where it fails, and no
/// token where none is to be chosen there or none serves.
pub open spec fn on_device<K: Kernel>(m: DecoderModel<K>, head: Linear<K::Cell>, state: Seq<K::Cell>, options: GenerationOptions<K::Cell>, sampler: SamplerView) -> Option<Option<(usize, SamplerView)>> {
    match device_route(m, head, options) {
        Some(route) => match device_answer_of(
            m.kernel,
            route,
            head.weight,
            state,
            options.spec_params(),
            device_random(route, sampler),
        ) {
            Some(Some(token)) => Some(Some((token, after_device(m.kernel, route, sampler)))),
            Some(None) => Some(None),
            None => None,
        },
        None => Some(None),
    }
}

/// The token chosen from logits.
pub open spec fn chosen<K: Kernel>(k: K, logits: Seq<K::Cell>, options: GenerationOptions<K::Cell>, sampler: SamplerView) -> Option<(usize, SamplerView)> {
    if greedy(k, options) {
        match argmax_of(k, logits) {
            Some(token) => Some((token, sampler)),
            None => None,
        }
    } else {
        match draw_of(k, logits, options.spec_params(), sampler.random) {
            Some((token, random)) => Some((token, SamplerView { random, ..sampler })),
            None => None,
        }
    }
}

/// The token chosen from logits among those that a guide admits, which takes it in.
pub open spec fn guided<K: Kernel>(k: K, logits: Seq<K::Cell>, options: GenerationOptions<K::Cell>, sampler: SamplerView) -> Option<(usize, SamplerView)> {
    match mask_of(k, sampler.accepted, logits) {
        Some(masked) => match chosen(k, masked, options, sampler) {
            Some((token, after)) => match accept_of(k, after.accepted, token) {
                Some(_) => Some((token, SamplerView { accepted: after.accepted.push(token), ..after })),
                None => None,
            },
            None => None,
        },
        None => None,
    }
}

/// The token that a state leads to, and the sampler after it.
pub open spec fn sampled<K: Kernel>(m: DecoderModel<K>, head: Linear<K::Cell>, state: Seq<K::Cell>, options: GenerationOptions<K::Cell>, sampler: SamplerView) -> Option<(usize, SamplerView)> {
    match on_device(m, head, state, options, sampler) {
        Some(Some(made)) => Some(made),
        Some(None) => match logits_of(m, head, state) {
            Some(logits) => if options.guided {
                guided(m.kernel, logits, options, sampler)
            } else {
                chosen(m.kernel, logits, options, sampler)
            },
            None => None,
        },
        None => None,
    }
}

/// The probabilities of the tokens that a state leads to under a head.
pub open spec fn odds_of<K: Kernel>(m: DecoderModel<K>, head: Linear<K::Cell>, state: Seq<K::Cell>, options: GenerationOptions<K::Cell>) -> Option<Seq<K::Cell>> {
    match logits_of(m, head, state) {
        Some(logits) => distribution_of(m.kernel, logits, options.spec_params()),
        None => None,
    }
}

impl<K: Kernel> DecoderModel<K> {
    /// Logits under the model's cap: the last row, bent where there is a cap.
    pub fn finalize_logits(&self, logits: &Tensor<K::Cell>) -> (out: Result<Vec<K::Cell>, InferError>)
        requires
            logits.is_matrix(),
        ensures
            out is Ok <==> logits.shape@[0] > 0,
            out matches Err(error) ==> error is Dimension,
            out matches Ok(out) ==> out@.len() == logits.cols(),
            functional(self.kernel) ==> (out matches Ok(out) ==> out@ == finalized(*self, logits.rows().last())),
    {
        let k: &K = &self.kernel;
        proof {
            logits.lemma_rows();
        }
        let row: Vec<K::Cell> = logits.last_row()?;
        match self.config.final_logit_softcapping {
            Some(cap) => if is_positive(k, cap) {
                let mut out: Vec<K::Cell> = Vec::new();
                for i in 0..row.len()
                    invariant
                        out@.len() == i,
                        functional(*k) ==> forall|j: int|
                            0 <= j < i ==> out@[j] == times(*k, unary_of(*k, Unary::Tanh, over(*k, row@[j], cap)), cap),
                {
                    let inner: K::Cell = binary(k, Binary::Div, row[i], cap);
                    let bent: K::Cell = unary(k, Unary::Tanh, inner);
                    let value: K::Cell = binary(k, Binary::Mul, bent, cap);
                    out.push(value);
                }
                assert(functional(*k) ==> out@ =~= capped(*k, row@, cap));
                Ok(out)
            } else {
                Ok(row)
            },
            None => Ok(row),
        }
    }

    /// The logits that a head gives the last of some states.
    pub fn logits_from_linear_state(&self, final_state: &Tensor<K::Cell>, head: &Linear<K::Cell>) -> (out: Result<Vec<K::Cell>, InferError>)
        requires
            head.wf(),
            final_state.is_matrix(),
        ensures
            out matches Err(error) ==> error is Dimension,
            final_state.shape@[0] == 0 ==> out is Err,
            out matches Ok(out) ==> out@.len() == head.out_dim,
            functional(self.kernel) ==> match out {
                Ok(out) => linear_rows(self.kernel, *head, final_state.rows()) matches Some(rows) && rows.len() > 0 && out@
                    == finalized(*self, rows.last()),
                Err(_) => linear_rows(self.kernel, *head, final_state.rows()) is None || final_state.shape@[0] == 0,
            },
            functional(self.kernel) && final_state.shape@[0] == 1 ==> match out {
                Ok(out) => logits_of(*self, *head, final_state.rows()[0]) == Some(out@),
                Err(_) => logits_of(*self, *head, final_state.rows()[0]) is None,
            },
    {
        proof {
            final_state.lemma_rows();
            if final_state.shape@[0] == 1 {
                crate::layer::lemma_one_linear_row(self.kernel, *head, final_state.rows());
            }
        }
        let logits: Tensor<K::Cell> = forward_linear(&self.kernel, head, final_state)?;
        proof {
            logits.lemma_rows();
        }
        self.finalize_logits(&logits)
    }

    /// Chooses a token from logits.
    pub fn choose_token(&self, logits: &Vec<K::Cell>, options: &GenerationOptions<K::Cell>, sampler: &mut TokenSampler) -> (out: Result<usize, InferError>)
        ensures
            out matches Err(error) ==> fails_with(self.kernel, error) && final(sampler)@ == old(sampler)@,
            functional(self.kernel) ==> match out {
                Ok(token) => chosen(self.kernel, logits@, *options, old(sampler)@) == Some((token, final(sampler)@)),
                Err(_) => chosen(self.kernel, logits@, *options, old(sampler)@) is None,
            },
            final(sampler)@.accepted == old(sampler)@.accepted,
    {
        let k: &K = &self.kernel;
        if is_greedy(k, options) {
            return argmax(k, logits);
        }
        let (token, random) = draw(k, logits, options.params(), sampler.random)?;
        sampler.random = random;
        assert(sampler@ =~= SamplerView { random, ..old(sampler)@ });
        Ok(token)
    }

    /// How a token is to be chosen on a device, where it is to be chosen there.
    pub fn route_to_device(&self, head: &Linear<K::Cell>, options: &GenerationOptions<K::Cell>) -> (route: Option<DeviceRoute>)
        ensures
            functional(self.kernel) ==> route == device_route(*self, *head, *options),
    {
        let k: &K = &self.kernel;
        if options.guided || head.bias.is_some() {
            return None;
        }
        if is_greedy(k, options) {
            return if self.flags.gpu_argmax {
                Some(DeviceRoute::Argmax)
            } else {
                None
            };
        }
        if !is_hot(k, options) || !self.flags.gpu_sampler {
            return None;
        }
        if options.top_k == 0 {
            let one: K::Cell = constant(k, Constant::One);
            return if at_most(k, one, options.top_p) {
                Some(DeviceRoute::Gumbel)
            } else {
                None
            };
        }
        if options.top_k <= MAX_SAMPLER_TOP_K {
            Some(DeviceRoute::TopK)
        } else {
            None
        }
    }

    /// Chooses the token that a state leads to under a head.
    pub fn sample_token_from_linear_state(&self, final_state: &Tensor<K::Cell>, head: &Linear<K::Cell>, options: &GenerationOptions<K::Cell>, sampler: &mut TokenSampler) -> (out: Result<usize, InferError>)
        requires
            head.wf(),
            final_state.is_matrix(),
            final_state.shape@[0] == 1,
        ensures
            out matches Err(error) ==> is_refusal(self.kernel, error, true),
            functional(self.kernel) ==> match out {
                Ok(token) => sampled(*self, *head, final_state.rows()[0], *options, old(sampler)@) == Some(
                    (token, final(sampler)@),
                ),
                Err(error) => {
                    let state = final_state.rows()[0];
                    &&& sampled(*self, *head, state, *options, old(sampler)@) is None
                    &&& if on_device(*self, *head, state, *options, old(sampler)@) is Some && logits_of(*self, *head, state) is None {
                        error is Dimension
                    } else {
                        fails_with(self.kernel, error)
                    }
                },
            },
    {
        let k: &K = &self.kernel;
        proof {
            final_state.lemma_rows();
            assert(crate::tensor::row_of(final_state.data@, final_state.cols(), 0) =~= final_state.data@);
        }
        if let Some(route) = self.route_to_device(head, options) {
            let random: u64 = match route {
                DeviceRoute::Argmax => 0,
                _ => sampler.random,
            };
            if let Some(token) = device_token(k, route, &head.weight, &final_state.data, options.params(), random)? {
                match route {
                    DeviceRoute::Argmax => {},
                    _ => {
                        sampler.random = advance(k, sampler.random);
                    },
                }
                assert(functional(*k) ==> final(sampler)@ =~= after_device(*k, route, old(sampler)@));
                return Ok(token);
            }
        }
        let logits: Vec<K::Cell> = self.logits_from_linear_state(final_state, head)?;
        if options.guided {
            let masked: Vec<K::Cell> = mask(k, &sampler.accepted, &logits)?;
            let token: usize = self.choose_token(&masked, options, sampler)?;
            let ghost made = sampler@;
            accept(k, &sampler.accepted, token)?;
            sampler.accepted.push(token);
            assert(sampler@ =~= SamplerView { accepted: made.accepted.push(token), ..made });
            return Ok(token);
        }
        self.choose_token(&logits, options, sampler)
    }

    /// Chooses the token that a state leads to.
    pub fn sample_token_from_state(&self, final_state: &Tensor<K::Cell>, options: &GenerationOptions<K::Cell>, sampler: &mut TokenSampler) -> (out: Result<usize, InferError>)
        requires
            self.wf(),
            final_state.is_matrix(),
            final_state.shape@[0] == 1,
        ensures
            out matches Err(error) ==> is_refusal(self.kernel, error, true),
            functional(self.kernel) ==> match out {
                Ok(token) => sampled(*self, self.lm_head, final_state.rows()[0], *options, old(sampler)@) == Some(
                    (token, final(sampler)@),
                ),
                Err(_) => sampled(*self, self.lm_head, final_state.rows()[0], *options, old(sampler)@) is None,
            },
    {
        self.sample_token_from_linear_state(final_state, &self.lm_head, options, sampler)
    }

    /// The head that drafts are read with: its own, or the model's.
    pub open spec fn draft_head(&self) -> Linear<K::Cell> {
        match self.mtp_draft_lm_head {
            Some(head) => head,
            None => self.lm_head,
        }
    }

    fn mtp_draft_lm_head(&self) -> (head: &Linear<K::Cell>)
        ensures
            *head == self.draft_head(),
    {
        match &self.mtp_draft_lm_head {
            Some(head) => head,
            None => &self.lm_head,
        }
    }

    /// Chooses the token that a draft state leads to.
    pub fn sample_mtp_token_from_state(&self, final_state: &Tensor<K::Cell>, options: &GenerationOptions<K::Cell>, sampler: &mut TokenSampler) -> (out: Result<usize, InferError>)
        requires
            self.wf(),
            final_state.is_matrix(),
            final_state.shape@[0] == 1,
        ensures
            out matches Err(error) ==> is_refusal(self.kernel, error, true),
            functional(self.kernel) ==> match out {
                Ok(token) => sampled(*self, self.draft_head(), final_state.rows()[0], *options, old(sampler)@) == Some(
                    (token, final(sampler)@),
                ),
                Err(_) => sampled(*self, self.draft_head(), final_state.rows()[0], *options, old(sampler)@) is None,
            },
    {
        self.sample_token_from_linear_state(final_state, self.mtp_draft_lm_head(), options, sampler)
    }

    /// The probabilities of the tokens that a state leads to.
    pub fn token_distribution_from_state(&self, final_state: &Tensor<K::Cell>, options: &GenerationOptions<K::Cell>) -> (out: Result<Vec<K::Cell>, InferError>)
        requires
            self.wf(),
            final_state.is_matrix(),
            final_state.shape@[0] == 1,
        ensures
            out matches Err(error) ==> is_refusal(self.kernel, error, true),
            functional(self.kernel) ==> match out {
                Ok(out) => odds_of(*self, self.lm_head, final_state.rows()[0], *options) == Some(out@),
                Err(error) => odds_of(*self, self.lm_head, final_state.rows()[0], *options) is None && if logits_of(
                    *self,
                    self.lm_head,
                    final_state.rows()[0],
                ) is None {
                    error is Dimension
                } else {
                    fails_with(self.kernel, error)
                },
            },
    {
        let logits: Vec<K::Cell> = self.logits_from_linear_state(final_state, &self.lm_head)?;
        distribution(&self.kernel, &logits, options.params())
    }

    /// The probabilities of the tokens that a draft state leads to.
    pub fn token_distribution_from_mtp_state(&self, final_state: &Tensor<K::Cell>, options: &GenerationOptions<K::Cell>) -> (out: Result<Vec<K::Cell>, InferError>)
        requires
            self.wf(),
            final_state.is_matrix(),
            final_state.shape@[0] == 1,
        ensures
            out matches Err(error) ==> is_refusal(self.kernel, error, true),
            functional(self.kernel) ==> match out {
                Ok(out) => odds_of(*self, self.draft_head(), final_state.rows()[0], *options) == Some(out@),
                Err(error) => odds_of(*self, self.draft_head(), final_state.rows()[0], *options) is None && if logits_of(
                    *self,
                    self.draft_head(),
                    final_state.rows()[0],
                ) is None {
                    error is Dimension
                } else {
                    fails_with(self.kernel, error)
                },
            },
    {
        let logits: Vec<K::Cell> = self.logits_from_linear_state(final_state, self.mtp_draft_lm_head())?;
        distribution(&self.kernel, &logits, options.params())
    }

    /// Draws a token from a draft state, and gives the probabilities it was drawn with.
    pub fn sample_mtp_token_and_distribution_from_state(&self, final_state: &Tensor<K::Cell>, options: &GenerationOptions<K::Cell>, sampler: &mut TokenSampler) -> (out: Result<(usize, Vec<K::Cell>), InferError>)
        requires
            self.wf(),
            final_state.is_matrix(),
            final_state.shape@[0] == 1,
        ensures
            out matches Err(error) ==> is_refusal(self.kernel, error, true),
            final(sampler)@.accepted == old(sampler)@.accepted,
            functional(self.kernel) ==> match out {
                Ok(out) => {
                    &&& odds_of(*self, self.draft_head(), final_state.rows()[0], *options) == Some(out.1@)
                    &&& draw_from_of(self.kernel, out.1@, old(sampler)@.random) == Some((out.0, final(sampler)@.random))
                },
                Err(_) => odds_of(*self, self.draft_head(), final_state.rows()[0], *options) matches Some(odds) ==> draw_from_of(
                    self.kernel,
                    odds,
                    old(sampler)@.random,
                ) is None,
            },
    {
        let probabilities: Vec<K::Cell> = self.token_distribution_from_mtp_state(final_state, options)?;
        let (token, random) = draw_from(&self.kernel, &probabilities, sampler.random)?;
        sampler.random = random;
        Ok((token, probabilities))
    }
}

} // verus!
