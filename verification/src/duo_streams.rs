//! The turns of two generations that go through a decoder on a device together.

use vstd::prelude::*;
use crate::decode::DecodeView;
use crate::duo::{can_duo, DuoFacts};
use crate::error::InferError;
use crate::kernel::{advance_of, functional, Kernel};
use crate::lightbatch::{LightBatchStream, StreamView};
use crate::model::DecoderModel;
use crate::options::{greedy, hot, is_greedy, is_hot, GenerationOptions, SamplerView, TokenSampler};
use crate::resident::ResidentCache;
use crate::resident_decode::{drawable_on_device, sample_spec, ResidentSampleSpec};

verus! {

/// What a round of two streams does behind the tokens they gave.
#[derive(Clone, Copy, PartialEq, Eq, Structural, Debug)]
pub enum DuoRound {
    /// Both tokens go through the decoder together.
    Both,
    /// Only the first stream's token goes through.
    First,
    /// Only the second stream's token goes through.
    Second,
    /// No token goes through.
    Neither,
}

/// What a round does, given which streams go on; without a turn of the background the
/// second stream does not.
pub fn duo_round(background: bool, first_goes_on: bool, second_goes_on: bool) -> (round: DuoRound)
    ensures
        round is Both <==> background && first_goes_on && second_goes_on,
        round is First <==> first_goes_on && !(background && second_goes_on),
        round is Second <==> !first_goes_on && background && second_goes_on,
        round is Neither <==> !first_goes_on && !(background && second_goes_on),
{
    match (first_goes_on, background && second_goes_on) {
        (true, true) => DuoRound::Both,
        (true, false) => DuoRound::First,
        (false, true) => DuoRound::Second,
        (false, false) => DuoRound::Neither,
    }
}

/// A sampler behind a token that a device chose.
pub open spec fn behind_duo<K: Kernel>(m: DecoderModel<K>, options: GenerationOptions<K::Cell>, sampler: SamplerView) -> SamplerView {
    if hot(m.kernel, options) {
        SamplerView { random: advance_of(m.kernel, sampler.random), ..sampler }
    } else {
        sampler
    }
}

impl<K: Kernel> DecoderModel<K> {
    /// Whether streams go through the decoder together: there are two, that is switched on,
    /// the device can choose their tokens, and both stand there so that it can take both.
    pub fn is_duo(&self, streams: usize, enabled: bool, options: &GenerationOptions<K::Cell>, first: &ResidentCache<K::Cell>, second: &ResidentCache<K::Cell>, facts: &DuoFacts) -> (yes: bool)
        ensures
            functional(self.kernel) ==> yes == (streams == 2 && enabled && (greedy(self.kernel, *options) || drawable_on_device(*self, *options)) && can_duo(
                *self,
                first@,
                *facts,
            ) && can_duo(*self, second@, *facts)),
            yes ==> streams == 2 && enabled && can_duo(*self, first@, *facts) && can_duo(*self, second@, *facts),
    {
        let choosable: bool = is_greedy(&self.kernel, options) || self.resident_sampling_on_device(options);
        streams == 2 && enabled && choosable && self.supports_resident_duo(first, facts) && self.supports_resident_duo(second, facts)
    }

    /// How the tokens of two streams are chosen, each from its own random state, which then
    /// goes on by one. Refused where tokens are drawn and the device cannot.
    pub fn duo_samples(&self, options: &GenerationOptions<K::Cell>, first: &mut TokenSampler, second: &mut TokenSampler) -> (out: Result<
        (Option<ResidentSampleSpec<K::Cell>>, Option<ResidentSampleSpec<K::Cell>>),
        InferError,
    >)
        ensures
            out matches Err(error) ==> error is Config && *final(first) == *old(first) && *final(second) == *old(second),
            functional(self.kernel) ==> match out {
                Ok(samples) => {
                    &&& hot(self.kernel, *options) ==> drawable_on_device(*self, *options)
                    &&& samples.0 == if hot(self.kernel, *options) {
                        Some(sample_spec(*options, old(first)@.random, true))
                    } else {
                        None
                    }
                    &&& samples.1 == if hot(self.kernel, *options) {
                        Some(sample_spec(*options, old(second)@.random, true))
                    } else {
                        None
                    }
                    &&& final(first)@ == behind_duo(*self, *options, old(first)@)
                    &&& final(second)@ == behind_duo(*self, *options, old(second)@)
                },
                Err(_) => hot(self.kernel, *options) && !drawable_on_device(*self, *options),
            },
    {
        if !is_hot(&self.kernel, options) {
            return Ok((None, None));
        }
        let of_first: ResidentSampleSpec<K::Cell> = self.resident_sample_spec(options, first.random)?;
        let of_second: ResidentSampleSpec<K::Cell> = self.resident_sample_spec(options, second.random)?;
        self.sampled_on_device(first);
        self.sampled_on_device(second);
        Ok((Some(of_first), Some(of_second)))
    }
}

impl<C: Copy> LightBatchStream<C> {
    /// Takes the token that a device chose behind the last one.
    pub fn take_device_token(&mut self, token: usize, passed: u64)
        requires
            old(self).cache@.wf(),
            old(self).step + 1 < old(self).max_new,
            old(self).generated@.len() == old(self).step + 1,
            !old(self).done,
        ensures
            final(self).wf(),
            final(self)@ == (StreamView {
                at: DecodeView { token, ..old(self)@.at },
                step: old(self)@.step + 1,
                ..old(self)@
            }),
            final(self).prefill == old(self).prefill,
            final(self).decode == if old(self).decode + passed > u64::MAX {
                u64::MAX as int
            } else {
                old(self).decode + passed
            },
    {
        self.token = token;
        self.decode = match self.decode.checked_add(passed) {
            Some(sum) => sum,
            None => u64::MAX,
        };
        self.step = self.step + 1;
    }
}

} // verus!
