//! What is asked of a generation.

use vstd::prelude::*;
use crate::kernel::{at_most, at_most_of, constant, constant_of, functional, Constant, Kernel, SamplingParams};

verus! {

/// How tokens are chosen, and where generation stops.
pub struct GenerationOptions<C> {
    pub temperature: C,
    pub top_p: C,
    pub top_k: usize,
    pub seed: u64,
    /// Tokens before which generation stops.
    pub stop_token_ids: Vec<usize>,
    /// Sequences after which generation stops.
    pub stop_sequences: Vec<Vec<usize>>,
    /// A guide restricts the tokens.
    pub guided: bool,
}

/// The random state of a generation, and the tokens a guide has accepted.
pub struct TokenSampler {
    pub random: u64,
    pub accepted: Vec<usize>,
}

/// The contents of a [`TokenSampler`].
#[verifier::ext_equal]
pub struct SamplerView {
    pub random: u64,
    pub accepted: Seq<usize>,
}

impl View for TokenSampler {
    type V = SamplerView;

    open spec fn view(&self) -> SamplerView {
        SamplerView { random: self.random, accepted: self.accepted@ }
    }
}

impl SamplerView {
    pub open spec fn start(seed: u64) -> SamplerView {
        SamplerView { random: seed, accepted: Seq::empty() }
    }
}

impl TokenSampler {
    pub fn new(seed: u64) -> (made: TokenSampler)
        ensures
            made@ == SamplerView::start(seed),
    {
        let made: TokenSampler = TokenSampler { random: seed, accepted: Vec::new() };
        assert(made@ =~= SamplerView::start(seed));
        made
    }
}

/// The temperature counts as zero: the best token is taken.
pub open spec fn greedy<K: Kernel>(k: K, options: GenerationOptions<K::Cell>) -> bool {
    at_most_of(k, options.temperature, constant_of(k, Constant::Epsilon))
}

/// The temperature is above zero: tokens are drawn.
pub open spec fn hot<K: Kernel>(k: K, options: GenerationOptions<K::Cell>) -> bool {
    !greedy(k, options) && at_most_of(k, constant_of(k, Constant::Epsilon), options.temperature)
}

/// The kernel can answer that the temperature is above zero. One that answers equal questions
/// equally can where it is.
pub open spec fn may_be_hot<K: Kernel>(k: K, options: GenerationOptions<K::Cell>) -> bool {
    exists|bound: K::Cell| #[trigger]
        call_ensures(K::constant, (&k, Constant::Epsilon), bound) && call_ensures(K::at_most, (&k, options.temperature, bound), false)
            && call_ensures(K::at_most, (&k, bound, options.temperature), true)
}

/// Where equal questions are answered equally, tokens can be drawn only where they are.
pub proof fn law_may_be_hot<K: Kernel>(k: K, options: GenerationOptions<K::Cell>)
    requires
        functional(k),
        may_be_hot(k, options),
    ensures
        hot(k, options),
{
    reveal(functional);
}

pub fn is_greedy<K: Kernel>(k: &K, options: &GenerationOptions<K::Cell>) -> (yes: bool)
    ensures
        functional(*k) ==> yes == greedy(*k, *options),
{
    let bound: K::Cell = constant(k, Constant::Epsilon);
    at_most(k, options.temperature, bound)
}

pub fn is_hot<K: Kernel>(k: &K, options: &GenerationOptions<K::Cell>) -> (yes: bool)
    ensures
        functional(*k) ==> yes == hot(*k, *options),
        yes ==> may_be_hot(*k, *options),
{
    reveal(functional);
    let bound: K::Cell = k.constant(Constant::Epsilon);
    let cold: bool = k.at_most(options.temperature, bound);
    let above: bool = k.at_most(bound, options.temperature);
    !cold && above
}

impl<C: Copy> GenerationOptions<C> {
    pub open spec fn spec_params(&self) -> SamplingParams<C> {
        SamplingParams { temperature: self.temperature, top_p: self.top_p, top_k: self.top_k }
    }

    pub fn params(&self) -> (params: SamplingParams<C>)
        ensures
            params == self.spec_params(),
    {
        SamplingParams { temperature: self.temperature, top_p: self.top_p, top_k: self.top_k }
    }

    /// Generation stops before this token.
    pub open spec fn stops_at(&self, token: usize) -> bool {
        self.stop_token_ids@.contains(token)
    }

    /// Generation stops before none of the tokens.
    pub open spec fn passes(&self, tokens: Seq<usize>) -> bool {
        forall|i: int| 0 <= i < tokens.len() ==> !self.stops_at(#[trigger] tokens[i])
    }

    pub fn is_stop_token(&self, token: usize) -> (stops: bool)
        ensures
            stops == self.stops_at(token),
    {
        for i in 0..self.stop_token_ids.len()
            invariant
                forall|j: int| 0 <= j < i ==> self.stop_token_ids@[j] != token,
        {
            if self.stop_token_ids[i] == token {
                return true;
            }
        }
        false
    }
}

/// `tail` is not empty, and `whole` ends with it.
pub open spec fn ends_with(whole: Seq<usize>, tail: Seq<usize>) -> bool {
    &&& 0 < tail.len() <= whole.len()
    &&& whole.skip(whole.len() - tail.len()) == tail
}

/// One of the sequences is not empty and ends the tokens.
pub open spec fn ends_with_any(tokens: Seq<usize>, sequences: Seq<Vec<usize>>) -> bool {
    exists|i: int| 0 <= i < sequences.len() && ends_with(tokens, (#[trigger] sequences[i])@)
}

fn vec_ends_with(whole: &Vec<usize>, tail: &Vec<usize>) -> (yes: bool)
    ensures
        yes == ends_with(whole@, tail@),
{
    let n: usize = whole.len();
    let t: usize = tail.len();
    if t == 0 || t > n {
        return false;
    }
    for i in 0..t
        invariant
            n == whole@.len(),
            t == tail@.len(),
            0 < t <= n,
            forall|j: int| 0 <= j < i ==> whole@[n - t + j] == tail@[j],
    {
        if whole[n - t + i] != tail[i] {
            assert(whole@.skip(n - t)[i as int] != tail@[i as int]);
            return false;
        }
    }
    assert(whole@.skip(n - t) =~= tail@);
    true
}

/// Whether one of the sequences that is not empty ends the tokens.
pub fn generated_matches_stop_sequence(generated: &Vec<usize>, stop_sequences: &Vec<Vec<usize>>) -> (matched: bool)
    ensures
        matched == ends_with_any(generated@, stop_sequences@),
{
    for i in 0..stop_sequences.len()
        invariant
            forall|j: int| 0 <= j < i ==> !ends_with(generated@, (#[trigger] stop_sequences@[j])@),
    {
        if vec_ends_with(generated, &stop_sequences[i]) {
            assert(ends_with(generated@, stop_sequences@[i as int]@));
            return true;
        }
    }
    false
}

} // verus!
