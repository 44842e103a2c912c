//! The arithmetic that the decoder is run with.
//!
//! The decoder never computes with numbers itself: every arithmetic step is a
//! call into a [`Kernel`]. The trait promises nothing of its methods. What the
//! decoder states of a result is stated over the names below, each of which is
//! what the kernel answers to a given question, for a kernel that answers equal
//! questions equally ([`functional`]).

use vstd::prelude::*;
use crate::error::InferError;
use crate::weights::{DraftModel, LinearAttentionConfig, LinearAttentionWeights, LinearWeight, MoeMlp};

verus! {

/// Constants of the arithmetic.
#[derive(Clone, Copy, PartialEq, Eq, Structural, Debug)]
pub enum Constant {
    Zero,
    One,
    /// Bound under which a temperature, or a sum of weights, counts as zero.
    Epsilon,
    NegInfinity,
    /// Smallest temperature that a softmax divides by.
    MinTemperature,
    /// Smallest number above zero.
    MinPositive,
    Half,
}

/// Functions of one number.
#[derive(Clone, Copy, PartialEq, Eq, Structural, Debug)]
pub enum Unary {
    Exp,
    Sqrt,
    Tanh,
    Cos,
    Sin,
    Abs,
    Negate,
}

/// Functions of two numbers.
#[derive(Clone, Copy, PartialEq, Eq, Structural, Debug)]
pub enum Binary {
    Add,
    Sub,
    Mul,
    Div,
    Max,
    Pow,
}

/// Gate function of a feed-forward block.
#[derive(Clone, Copy, PartialEq, Eq, Structural, Debug)]
pub enum Activation {
    Silu,
    GeluTanh,
}

/// What a token is drawn with, when it is not the best one.
#[derive(Clone, Copy, Debug)]
pub struct SamplingParams<C> {
    pub temperature: C,
    pub top_p: C,
    pub top_k: usize,
}

/// A way to draw a token without reading the logits back from a device.
#[derive(Clone, Copy, PartialEq, Eq, Structural, Debug)]
pub enum DeviceRoute {
    /// The largest logit.
    Argmax,
    /// A draw over the whole vocabulary.
    Gumbel,
    /// A draw over the `top_k` largest logits, cut at `top_p`.
    TopK,
}

/// Arithmetic, and the parts of the model that are nothing but arithmetic.
///
/// To choose a token can fail: on a device, in a guide, or where the logits or probabilities
/// leave nothing to choose.
pub trait Kernel: Sized {
    /// A number.
    type Cell: Copy;

    fn constant(&self, which: Constant) -> Self::Cell;

    fn unary(&self, op: Unary, a: Self::Cell) -> Self::Cell;

    fn binary(&self, op: Binary, a: Self::Cell, b: Self::Cell) -> Self::Cell;

    /// The number that stands for a count.
    fn count(&self, n: usize) -> Self::Cell;

    /// Whether `a <= b`.
    fn at_most(&self, a: Self::Cell, b: Self::Cell) -> bool;

    fn activate(&self, activation: Activation, a: Self::Cell) -> Self::Cell;

    /// A row times the transpose of a weight matrix.
    fn project(&self, weight: &LinearWeight<Self::Cell>, row: &Vec<Self::Cell>) -> Vec<Self::Cell>;

    /// The row of an embedding table that belongs to a token.
    fn lookup(&self, table: &LinearWeight<Self::Cell>, token: usize) -> Vec<Self::Cell>;

    /// One step of the linear attention recurrence: the output row and the state
    /// after the step.
    fn recur(
        &self,
        weights: &LinearAttentionWeights<Self::Cell>,
        config: LinearAttentionConfig,
        state: &Vec<Self::Cell>,
        row: &Vec<Self::Cell>,
    ) -> (Vec<Self::Cell>, Vec<Self::Cell>);

    /// A mixture-of-experts block applied to one row.
    fn mix_experts(&self, moe: &MoeMlp<Self::Cell>, row: &Vec<Self::Cell>) -> Vec<Self::Cell>;

    /// The index of the largest logit.
    fn argmax(&self, logits: &Vec<Self::Cell>) -> Result<usize, InferError>;

    /// A draw from the logits: the token and the random state after the draw.
    fn draw(&self, logits: &Vec<Self::Cell>, params: SamplingParams<Self::Cell>, random: u64) -> Result<(usize, u64), InferError>;

    /// The probabilities that a draw from the logits would have.
    fn distribution(&self, logits: &Vec<Self::Cell>, params: SamplingParams<Self::Cell>) -> Result<Vec<Self::Cell>, InferError>;

    /// A draw from probabilities: the token and the random state after the draw.
    fn draw_from(&self, distribution: &Vec<Self::Cell>, random: u64) -> Result<(usize, u64), InferError>;

    /// Lossless speculative sampling of one drafted token: the token to keep,
    /// whether the draft was accepted, and the random state after the draw.
    fn speculate(
        &self,
        target: &Vec<Self::Cell>,
        draft: &Vec<Self::Cell>,
        token: usize,
        random: u64,
    ) -> Result<(usize, bool, u64), InferError>;

    /// Logits restricted to what a guide admits after the tokens accepted so far.
    fn mask(&self, accepted: &Vec<usize>, logits: &Vec<Self::Cell>) -> Result<Vec<Self::Cell>, InferError>;

    /// A token that a guide takes in behind those accepted so far.
    fn accept(&self, accepted: &Vec<usize>, token: usize) -> Result<(), InferError>;

    /// A token drawn on a device, where there is one that serves the route.
    fn device_token(
        &self,
        route: DeviceRoute,
        head: &LinearWeight<Self::Cell>,
        state: &Vec<Self::Cell>,
        params: SamplingParams<Self::Cell>,
        random: u64,
    ) -> Result<Option<usize>, InferError>;

    /// The best token among those below `suppress_start` and `eos`, found on a
    /// device, where there is one.
    fn device_talker(
        &self,
        head: &LinearWeight<Self::Cell>,
        state: &Vec<Self::Cell>,
        suppress_start: usize,
        eos: usize,
    ) -> Result<Option<usize>, InferError>;

    /// The random state after one draw on a device.
    fn advance(&self, random: u64) -> u64;

    /// Captured hidden rows of the target model, projected for a draft model.
    fn draft_context(&self, draft: &DraftModel<Self::Cell>, captured: &Vec<Self::Cell>) -> Vec<Self::Cell>;

    /// The states that a draft model gives a block of embeddings in a context,
    /// row after row as the embeddings are.
    fn draft_states(
        &self,
        draft: &DraftModel<Self::Cell>,
        embeddings: &Vec<Self::Cell>,
        context: &Vec<Self::Cell>,
    ) -> Vec<Self::Cell>;

    /// The numbers that bytes of a named format hold; `None` where the format is not one
    /// that can be read.
    fn decode(&self, format: &String, bytes: &Vec<u8>) -> Option<Vec<Self::Cell>>;

    /// Nanoseconds since some fixed moment.
    fn nanoseconds(&self) -> u64;
}

/// What an answer grants; `None` where it is a failure.
pub open spec fn granted<T>(answer: Result<T, InferError>) -> Option<T> {
    match answer {
        Ok(value) => Some(value),
        Err(_) => None,
    }
}

/// The numbers that an answer grants; `None` where it is a failure.
pub open spec fn granted_row<C>(answer: Result<Vec<C>, InferError>) -> Option<Seq<C>> {
    match answer {
        Ok(row) => Some(row@),
        Err(_) => None,
    }
}

/// The kernel can fail with this error where a token is chosen.
#[verifier::opaque]
pub open spec fn fails_with<K: Kernel>(k: K, error: InferError) -> bool {
    ||| exists|logits: Vec<K::Cell>| #[trigger] call_ensures(K::argmax, (&k, &logits), Err(error))
    ||| exists|logits: Vec<K::Cell>, params: SamplingParams<K::Cell>, random: u64| #[trigger]
        call_ensures(K::draw, (&k, &logits, params, random), Err(error))
    ||| exists|logits: Vec<K::Cell>, params: SamplingParams<K::Cell>| #[trigger]
        call_ensures(K::distribution, (&k, &logits, params), Err(error))
    ||| exists|distribution: Vec<K::Cell>, random: u64| #[trigger] call_ensures(K::draw_from, (&k, &distribution, random), Err(error))
    ||| exists|target: Vec<K::Cell>, draft: Vec<K::Cell>, token: usize, random: u64| #[trigger]
        call_ensures(K::speculate, (&k, &target, &draft, token, random), Err(error))
    ||| exists|accepted: Vec<usize>, logits: Vec<K::Cell>| #[trigger] call_ensures(K::mask, (&k, &accepted, &logits), Err(error))
    ||| exists|accepted: Vec<usize>, token: usize| #[trigger] call_ensures(K::accept, (&k, &accepted, token), Err(error))
    ||| exists|route: DeviceRoute, head: LinearWeight<K::Cell>, state: Vec<K::Cell>, params: SamplingParams<K::Cell>, random: u64| #[trigger]
        call_ensures(K::device_token, (&k, route, &head, &state, params, random), Err(error))
    ||| exists|head: LinearWeight<K::Cell>, state: Vec<K::Cell>, suppress_start: usize, eos: usize| #[trigger]
        call_ensures(K::device_talker, (&k, &head, &state, suppress_start, eos), Err(error))
}

/// The refusal of a computation that chooses tokens: sizes that do not fit, a part that the
/// decoder lacks where it is not complete, or a failure of the kernel.
pub open spec fn is_refusal<K: Kernel>(k: K, error: InferError, complete: bool) -> bool {
    error.is_misfit(complete) || fails_with(k, error)
}

/// What the kernel answers to [`Kernel::constant`].
pub open spec fn constant_of<K: Kernel>(k: K, which: Constant) -> K::Cell {
    let chosen = choose|answer: K::Cell| call_ensures(K::constant, (&k, which), answer);
    chosen
}

/// What the kernel answers to [`Kernel::unary`].
pub open spec fn unary_of<K: Kernel>(k: K, op: Unary, a: K::Cell) -> K::Cell {
    let chosen = choose|answer: K::Cell| call_ensures(K::unary, (&k, op, a), answer);
    chosen
}

/// What the kernel answers to [`Kernel::binary`].
pub open spec fn binary_of<K: Kernel>(k: K, op: Binary, a: K::Cell, b: K::Cell) -> K::Cell {
    let chosen = choose|answer: K::Cell| call_ensures(K::binary, (&k, op, a, b), answer);
    chosen
}

/// What the kernel answers to [`Kernel::count`].
pub open spec fn count_of<K: Kernel>(k: K, n: usize) -> K::Cell {
    let chosen = choose|answer: K::Cell| call_ensures(K::count, (&k, n), answer);
    chosen
}

/// What the kernel answers to [`Kernel::at_most`].
pub open spec fn at_most_of<K: Kernel>(k: K, a: K::Cell, b: K::Cell) -> bool {
    let chosen = choose|answer: bool| call_ensures(K::at_most, (&k, a, b), answer);
    chosen
}

/// What the kernel answers to [`Kernel::activate`].
pub open spec fn activate_of<K: Kernel>(k: K, activation: Activation, a: K::Cell) -> K::Cell {
    let chosen = choose|answer: K::Cell| call_ensures(K::activate, (&k, activation, a), answer);
    chosen
}

/// What the kernel answers to [`Kernel::project`].
pub open spec fn project_of<K: Kernel>(k: K, weight: LinearWeight<K::Cell>, row: Seq<K::Cell>) -> Seq<K::Cell> {
    let chosen = choose|row_arg: Vec<K::Cell>, answer: Vec<K::Cell>| #[trigger]
        call_ensures(K::project, (&k, &weight, &row_arg), answer) && row_arg@ == row;
    chosen.1@
}

/// What the kernel answers to [`Kernel::lookup`].
pub open spec fn lookup_of<K: Kernel>(k: K, table: LinearWeight<K::Cell>, token: usize) -> Seq<K::Cell> {
    let chosen = choose|answer: Vec<K::Cell>| call_ensures(K::lookup, (&k, &table, token), answer);
    chosen@
}

/// What the kernel answers to [`Kernel::recur`].
pub open spec fn recur_of<K: Kernel>(k: K, weights: LinearAttentionWeights<K::Cell>, config: LinearAttentionConfig, state: Seq<K::Cell>, row: Seq<K::Cell>) -> (Seq<K::Cell>, Seq<K::Cell>) {
    let chosen = choose|state_arg: Vec<K::Cell>, row_arg: Vec<K::Cell>, answer: (Vec<K::Cell>, Vec<K::Cell>)| #[trigger]
        call_ensures(K::recur, (&k, &weights, config, &state_arg, &row_arg), answer) && state_arg@ == state && row_arg@ == row;
    (chosen.2.0@, chosen.2.1@)
}

/// What the kernel answers to [`Kernel::mix_experts`].
pub open spec fn mix_experts_of<K: Kernel>(k: K, moe: MoeMlp<K::Cell>, row: Seq<K::Cell>) -> Seq<K::Cell> {
    let chosen = choose|row_arg: Vec<K::Cell>, answer: Vec<K::Cell>| #[trigger]
        call_ensures(K::mix_experts, (&k, &moe, &row_arg), answer) && row_arg@ == row;
    chosen.1@
}

/// What the kernel answers to [`Kernel::argmax`].
pub open spec fn argmax_of<K: Kernel>(k: K, logits: Seq<K::Cell>) -> Option<usize> {
    let chosen = choose|logits_arg: Vec<K::Cell>, answer: Result<usize, InferError>| #[trigger]
        call_ensures(K::argmax, (&k, &logits_arg), answer) && logits_arg@ == logits;
    granted(chosen.1)
}

/// What the kernel answers to [`Kernel::draw`].
pub open spec fn draw_of<K: Kernel>(k: K, logits: Seq<K::Cell>, params: SamplingParams<K::Cell>, random: u64) -> Option<(usize, u64)> {
    let chosen = choose|logits_arg: Vec<K::Cell>, answer: Result<(usize, u64), InferError>| #[trigger]
        call_ensures(K::draw, (&k, &logits_arg, params, random), answer) && logits_arg@ == logits;
    granted(chosen.1)
}

/// What the kernel answers to [`Kernel::distribution`].
pub open spec fn distribution_of<K: Kernel>(k: K, logits: Seq<K::Cell>, params: SamplingParams<K::Cell>) -> Option<Seq<K::Cell>> {
    let chosen = choose|logits_arg: Vec<K::Cell>, answer: Result<Vec<K::Cell>, InferError>| #[trigger]
        call_ensures(K::distribution, (&k, &logits_arg, params), answer) && logits_arg@ == logits;
    granted_row(chosen.1)
}

/// What the kernel answers to [`Kernel::draw_from`].
pub open spec fn draw_from_of<K: Kernel>(k: K, distribution: Seq<K::Cell>, random: u64) -> Option<(usize, u64)> {
    let chosen = choose|distribution_arg: Vec<K::Cell>, answer: Result<(usize, u64), InferError>| #[trigger]
        call_ensures(K::draw_from, (&k, &distribution_arg, random), answer) && distribution_arg@ == distribution;
    granted(chosen.1)
}

/// What the kernel answers to [`Kernel::speculate`].
pub open spec fn speculate_of<K: Kernel>(k: K, target: Seq<K::Cell>, draft: Seq<K::Cell>, token: usize, random: u64) -> Option<(usize, bool, u64)> {
    let chosen = choose|target_arg: Vec<K::Cell>, draft_arg: Vec<K::Cell>, answer: Result<(usize, bool, u64), InferError>| #[trigger]
        call_ensures(K::speculate, (&k, &target_arg, &draft_arg, token, random), answer) && target_arg@ == target && draft_arg@ == draft;
    granted(chosen.2)
}

/// What the kernel answers to [`Kernel::mask`].
pub open spec fn mask_of<K: Kernel>(k: K, accepted: Seq<usize>, logits: Seq<K::Cell>) -> Option<Seq<K::Cell>> {
    let chosen = choose|accepted_arg: Vec<usize>, logits_arg: Vec<K::Cell>, answer: Result<Vec<K::Cell>, InferError>| #[trigger]
        call_ensures(K::mask, (&k, &accepted_arg, &logits_arg), answer) && accepted_arg@ == accepted && logits_arg@ == logits;
    granted_row(chosen.2)
}

/// What the kernel answers to [`Kernel::accept`].
pub open spec fn accept_of<K: Kernel>(k: K, accepted: Seq<usize>, token: usize) -> Option<()> {
    let chosen = choose|accepted_arg: Vec<usize>, answer: Result<(), InferError>| #[trigger]
        call_ensures(K::accept, (&k, &accepted_arg, token), answer) && accepted_arg@ == accepted;
    granted(chosen.1)
}

/// What the kernel answers to [`Kernel::device_token`]: `None` where it fails.
pub open spec fn device_answer_of<K: Kernel>(k: K, route: DeviceRoute, head: LinearWeight<K::Cell>, state: Seq<K::Cell>, params: SamplingParams<K::Cell>, random: u64) -> Option<Option<usize>> {
    let chosen = choose|state_arg: Vec<K::Cell>, answer: Result<Option<usize>, InferError>| #[trigger]
        call_ensures(K::device_token, (&k, route, &head, &state_arg, params, random), answer) && state_arg@ == state;
    granted(chosen.1)
}

/// The token that the kernel answers [`Kernel::device_token`] with, where it has one.
pub open spec fn device_token_of<K: Kernel>(k: K, route: DeviceRoute, head: LinearWeight<K::Cell>, state: Seq<K::Cell>, params: SamplingParams<K::Cell>, random: u64) -> Option<usize> {
    match device_answer_of(k, route, head, state, params, random) {
        Some(token) => token,
        None => None,
    }
}

/// What the kernel answers to [`Kernel::device_talker`].
pub open spec fn talker_answer_of<K: Kernel>(k: K, head: LinearWeight<K::Cell>, state: Seq<K::Cell>, suppress_start: usize, eos: usize) -> Option<Option<usize>> {
    let chosen = choose|state_arg: Vec<K::Cell>, answer: Result<Option<usize>, InferError>| #[trigger]
        call_ensures(K::device_talker, (&k, &head, &state_arg, suppress_start, eos), answer) && state_arg@ == state;
    granted(chosen.1)
}

/// What the kernel answers to [`Kernel::advance`].
pub open spec fn advance_of<K: Kernel>(k: K, random: u64) -> u64 {
    let chosen = choose|answer: u64| call_ensures(K::advance, (&k, random), answer);
    chosen
}

/// What the kernel answers to [`Kernel::draft_context`].
pub open spec fn draft_context_of<K: Kernel>(k: K, draft: DraftModel<K::Cell>, captured: Seq<K::Cell>) -> Seq<K::Cell> {
    let chosen = choose|captured_arg: Vec<K::Cell>, answer: Vec<K::Cell>| #[trigger]
        call_ensures(K::draft_context, (&k, &draft, &captured_arg), answer) && captured_arg@ == captured;
    chosen.1@
}

/// What the kernel answers to [`Kernel::draft_states`].
pub open spec fn draft_states_of<K: Kernel>(k: K, draft: DraftModel<K::Cell>, embeddings: Seq<K::Cell>, context: Seq<K::Cell>) -> Seq<K::Cell> {
    let chosen = choose|embeddings_arg: Vec<K::Cell>, context_arg: Vec<K::Cell>, answer: Vec<K::Cell>| #[trigger]
        call_ensures(K::draft_states, (&k, &draft, &embeddings_arg, &context_arg), answer) && embeddings_arg@ == embeddings && context_arg@ == context;
    chosen.2@
}

/// What the kernel answers to [`Kernel::decode`].
pub open spec fn decode_of<K: Kernel>(k: K, format: Seq<char>, bytes: Seq<u8>) -> Option<Seq<K::Cell>> {
    let chosen = choose|format_arg: String, bytes_arg: Vec<u8>, answer: Option<Vec<K::Cell>>| #[trigger]
        call_ensures(K::decode, (&k, &format_arg, &bytes_arg), answer) && format_arg@ == format && bytes_arg@ == bytes;
    match chosen.2 {
        Some(cells) => Some(cells@),
        None => None,
    }
}

/// The kernel answers equal questions equally: what it answers to a question is
/// the name of that question.
#[verifier::opaque]
pub open spec fn functional<K: Kernel>(k: K) -> bool {
    &&& forall|which: Constant, answer: K::Cell| #[trigger]
        call_ensures(K::constant, (&k, which), answer)
            ==> answer == constant_of(k, which)
    &&& forall|op: Unary, a: K::Cell, answer: K::Cell| #[trigger]
        call_ensures(K::unary, (&k, op, a), answer)
            ==> answer == unary_of(k, op, a)
    &&& forall|op: Binary, a: K::Cell, b: K::Cell, answer: K::Cell| #[trigger]
        call_ensures(K::binary, (&k, op, a, b), answer)
            ==> answer == binary_of(k, op, a, b)
    &&& forall|n: usize, answer: K::Cell| #[trigger]
        call_ensures(K::count, (&k, n), answer)
            ==> answer == count_of(k, n)
    &&& forall|a: K::Cell, b: K::Cell, answer: bool| #[trigger]
        call_ensures(K::at_most, (&k, a, b), answer)
            ==> answer == at_most_of(k, a, b)
    &&& forall|activation: Activation, a: K::Cell, answer: K::Cell| #[trigger]
        call_ensures(K::activate, (&k, activation, a), answer)
            ==> answer == activate_of(k, activation, a)
    &&& forall|weight: LinearWeight<K::Cell>, row: Vec<K::Cell>, answer: Vec<K::Cell>| #[trigger]
        call_ensures(K::project, (&k, &weight, &row), answer)
            ==> answer@ == project_of(k, weight, row@)
    &&& forall|table: LinearWeight<K::Cell>, token: usize, answer: Vec<K::Cell>| #[trigger]
        call_ensures(K::lookup, (&k, &table, token), answer)
            ==> answer@ == lookup_of(k, table, token)
    &&& forall|weights: LinearAttentionWeights<K::Cell>, config: LinearAttentionConfig, state: Vec<K::Cell>, row: Vec<K::Cell>, answer: (Vec<K::Cell>, Vec<K::Cell>)| #[trigger]
        call_ensures(K::recur, (&k, &weights, config, &state, &row), answer)
            ==> (answer.0@, answer.1@) == recur_of(k, weights, config, state@, row@)
    &&& forall|moe: MoeMlp<K::Cell>, row: Vec<K::Cell>, answer: Vec<K::Cell>| #[trigger]
        call_ensures(K::mix_experts, (&k, &moe, &row), answer)
            ==> answer@ == mix_experts_of(k, moe, row@)
    &&& forall|logits: Vec<K::Cell>, answer: Result<usize, InferError>| #[trigger]
        call_ensures(K::argmax, (&k, &logits), answer)
            ==> granted(answer) == argmax_of(k, logits@)
    &&& forall|logits: Vec<K::Cell>, params: SamplingParams<K::Cell>, random: u64, answer: Result<(usize, u64), InferError>| #[trigger]
        call_ensures(K::draw, (&k, &logits, params, random), answer)
            ==> granted(answer) == draw_of(k, logits@, params, random)
    &&& forall|logits: Vec<K::Cell>, params: SamplingParams<K::Cell>, answer: Result<Vec<K::Cell>, InferError>| #[trigger]
        call_ensures(K::distribution, (&k, &logits, params), answer)
            ==> granted_row(answer) == distribution_of(k, logits@, params)
    &&& forall|distribution: Vec<K::Cell>, random: u64, answer: Result<(usize, u64), InferError>| #[trigger]
        call_ensures(K::draw_from, (&k, &distribution, random), answer)
            ==> granted(answer) == draw_from_of(k, distribution@, random)
    &&& forall|target: Vec<K::Cell>, draft: Vec<K::Cell>, token: usize, random: u64, answer: Result<(usize, bool, u64), InferError>| #[trigger]
        call_ensures(K::speculate, (&k, &target, &draft, token, random), answer)
            ==> granted(answer) == speculate_of(k, target@, draft@, token, random)
    &&& forall|accepted: Vec<usize>, logits: Vec<K::Cell>, answer: Result<Vec<K::Cell>, InferError>| #[trigger]
        call_ensures(K::mask, (&k, &accepted, &logits), answer)
            ==> granted_row(answer) == mask_of(k, accepted@, logits@)
    &&& forall|accepted: Vec<usize>, token: usize, answer: Result<(), InferError>| #[trigger]
        call_ensures(K::accept, (&k, &accepted, token), answer)
            ==> granted(answer) == accept_of(k, accepted@, token)
    &&& forall|route: DeviceRoute, head: LinearWeight<K::Cell>, state: Vec<K::Cell>, params: SamplingParams<K::Cell>, random: u64, answer: Result<Option<usize>, InferError>| #[trigger]
        call_ensures(K::device_token, (&k, route, &head, &state, params, random), answer)
            ==> granted(answer) == device_answer_of(k, route, head, state@, params, random)
    &&& forall|head: LinearWeight<K::Cell>, state: Vec<K::Cell>, suppress_start: usize, eos: usize, answer: Result<Option<usize>, InferError>| #[trigger]
        call_ensures(K::device_talker, (&k, &head, &state, suppress_start, eos), answer)
            ==> granted(answer) == talker_answer_of(k, head, state@, suppress_start, eos)
    &&& forall|random: u64, answer: u64| #[trigger]
        call_ensures(K::advance, (&k, random), answer)
            ==> answer == advance_of(k, random)
    &&& forall|draft: DraftModel<K::Cell>, captured: Vec<K::Cell>, answer: Vec<K::Cell>| #[trigger]
        call_ensures(K::draft_context, (&k, &draft, &captured), answer)
            ==> answer@ == draft_context_of(k, draft, captured@)
    &&& forall|draft: DraftModel<K::Cell>, embeddings: Vec<K::Cell>, context: Vec<K::Cell>, answer: Vec<K::Cell>| #[trigger]
        call_ensures(K::draft_states, (&k, &draft, &embeddings, &context), answer)
            ==> answer@ == draft_states_of(k, draft, embeddings@, context@)
    &&& forall|format: String, bytes: Vec<u8>, answer: Option<Vec<K::Cell>>| #[trigger]
        call_ensures(K::decode, (&k, &format, &bytes), answer)
            ==> match answer {
                Some(cells) => decode_of(k, format@, bytes@) == Some(cells@),
                None => decode_of(k, format@, bytes@) is None,
            }
}

pub fn constant<K: Kernel>(k: &K, which: Constant) -> (answer: K::Cell)
    ensures
        functional(*k) ==> answer == constant_of(*k, which),
{
    reveal(functional);
    k.constant(which)
}

pub fn unary<K: Kernel>(k: &K, op: Unary, a: K::Cell) -> (answer: K::Cell)
    ensures
        functional(*k) ==> answer == unary_of(*k, op, a),
{
    reveal(functional);
    k.unary(op, a)
}

pub fn binary<K: Kernel>(k: &K, op: Binary, a: K::Cell, b: K::Cell) -> (answer: K::Cell)
    ensures
        functional(*k) ==> answer == binary_of(*k, op, a, b),
{
    reveal(functional);
    k.binary(op, a, b)
}

pub fn count<K: Kernel>(k: &K, n: usize) -> (answer: K::Cell)
    ensures
        functional(*k) ==> answer == count_of(*k, n),
{
    reveal(functional);
    k.count(n)
}

pub fn at_most<K: Kernel>(k: &K, a: K::Cell, b: K::Cell) -> (answer: bool)
    ensures
        functional(*k) ==> answer == at_most_of(*k, a, b),
{
    reveal(functional);
    k.at_most(a, b)
}

pub fn activate<K: Kernel>(k: &K, activation: Activation, a: K::Cell) -> (answer: K::Cell)
    ensures
        functional(*k) ==> answer == activate_of(*k, activation, a),
{
    reveal(functional);
    k.activate(activation, a)
}

pub fn project<K: Kernel>(k: &K, weight: &LinearWeight<K::Cell>, row: &Vec<K::Cell>) -> (answer: Vec<K::Cell>)
    ensures
        functional(*k) ==> answer@ == project_of(*k, *weight, row@),
{
    reveal(functional);
    k.project(weight, row)
}

pub fn lookup<K: Kernel>(k: &K, table: &LinearWeight<K::Cell>, token: usize) -> (answer: Vec<K::Cell>)
    ensures
        functional(*k) ==> answer@ == lookup_of(*k, *table, token),
{
    reveal(functional);
    k.lookup(table, token)
}

pub fn recur<K: Kernel>(k: &K, weights: &LinearAttentionWeights<K::Cell>, config: LinearAttentionConfig, state: &Vec<K::Cell>, row: &Vec<K::Cell>) -> (answer: (Vec<K::Cell>, Vec<K::Cell>))
    ensures
        functional(*k) ==> (answer.0@, answer.1@) == recur_of(*k, *weights, config, state@, row@),
{
    reveal(functional);
    k.recur(weights, config, state, row)
}

pub fn mix_experts<K: Kernel>(k: &K, moe: &MoeMlp<K::Cell>, row: &Vec<K::Cell>) -> (answer: Vec<K::Cell>)
    ensures
        functional(*k) ==> answer@ == mix_experts_of(*k, *moe, row@),
{
    reveal(functional);
    k.mix_experts(moe, row)
}

pub fn argmax<K: Kernel>(k: &K, logits: &Vec<K::Cell>) -> (answer: Result<usize, InferError>)
    ensures
        answer matches Err(error) ==> fails_with(*k, error),
        functional(*k) ==> granted(answer) == argmax_of(*k, logits@),
{
    reveal(functional);
    reveal(fails_with);
    k.argmax(logits)
}

pub fn draw<K: Kernel>(k: &K, logits: &Vec<K::Cell>, params: SamplingParams<K::Cell>, random: u64) -> (answer: Result<(usize, u64), InferError>)
    ensures
        answer matches Err(error) ==> fails_with(*k, error),
        functional(*k) ==> granted(answer) == draw_of(*k, logits@, params, random),
{
    reveal(functional);
    reveal(fails_with);
    k.draw(logits, params, random)
}

pub fn distribution<K: Kernel>(k: &K, logits: &Vec<K::Cell>, params: SamplingParams<K::Cell>) -> (answer: Result<Vec<K::Cell>, InferError>)
    ensures
        answer matches Err(error) ==> fails_with(*k, error),
        functional(*k) ==> granted_row(answer) == distribution_of(*k, logits@, params),
{
    reveal(functional);
    reveal(fails_with);
    k.distribution(logits, params)
}

pub fn draw_from<K: Kernel>(k: &K, distribution: &Vec<K::Cell>, random: u64) -> (answer: Result<(usize, u64), InferError>)
    ensures
        answer matches Err(error) ==> fails_with(*k, error),
        functional(*k) ==> granted(answer) == draw_from_of(*k, distribution@, random),
{
    reveal(functional);
    reveal(fails_with);
    k.draw_from(distribution, random)
}

pub fn speculate<K: Kernel>(k: &K, target: &Vec<K::Cell>, draft: &Vec<K::Cell>, token: usize, random: u64) -> (answer: Result<(usize, bool, u64), InferError>)
    ensures
        answer matches Err(error) ==> fails_with(*k, error),
        functional(*k) ==> granted(answer) == speculate_of(*k, target@, draft@, token, random),
{
    reveal(functional);
    reveal(fails_with);
    k.speculate(target, draft, token, random)
}

pub fn mask<K: Kernel>(k: &K, accepted: &Vec<usize>, logits: &Vec<K::Cell>) -> (answer: Result<Vec<K::Cell>, InferError>)
    ensures
        answer matches Err(error) ==> fails_with(*k, error),
        functional(*k) ==> granted_row(answer) == mask_of(*k, accepted@, logits@),
{
    reveal(functional);
    reveal(fails_with);
    k.mask(accepted, logits)
}

pub fn accept<K: Kernel>(k: &K, accepted: &Vec<usize>, token: usize) -> (answer: Result<(), InferError>)
    ensures
        answer matches Err(error) ==> fails_with(*k, error),
        functional(*k) ==> granted(answer) == accept_of(*k, accepted@, token),
{
    reveal(functional);
    reveal(fails_with);
    k.accept(accepted, token)
}

pub fn device_token<K: Kernel>(k: &K, route: DeviceRoute, head: &LinearWeight<K::Cell>, state: &Vec<K::Cell>, params: SamplingParams<K::Cell>, random: u64) -> (answer: Result<Option<usize>, InferError>)
    ensures
        answer matches Err(error) ==> fails_with(*k, error),
        functional(*k) ==> granted(answer) == device_answer_of(*k, route, *head, state@, params, random),
{
    reveal(functional);
    reveal(fails_with);
    k.device_token(route, head, state, params, random)
}

pub fn device_talker<K: Kernel>(k: &K, head: &LinearWeight<K::Cell>, state: &Vec<K::Cell>, suppress_start: usize, eos: usize) -> (answer: Result<Option<usize>, InferError>)
    ensures
        answer matches Err(error) ==> fails_with(*k, error),
        functional(*k) ==> granted(answer) == talker_answer_of(*k, *head, state@, suppress_start, eos),
{
    reveal(functional);
    reveal(fails_with);
    k.device_talker(head, state, suppress_start, eos)
}

pub fn advance<K: Kernel>(k: &K, random: u64) -> (answer: u64)
    ensures
        functional(*k) ==> answer == advance_of(*k, random),
{
    reveal(functional);
    k.advance(random)
}

pub fn draft_context<K: Kernel>(k: &K, draft: &DraftModel<K::Cell>, captured: &Vec<K::Cell>) -> (answer: Vec<K::Cell>)
    ensures
        functional(*k) ==> answer@ == draft_context_of(*k, *draft, captured@),
{
    reveal(functional);
    k.draft_context(draft, captured)
}

pub fn draft_states<K: Kernel>(k: &K, draft: &DraftModel<K::Cell>, embeddings: &Vec<K::Cell>, context: &Vec<K::Cell>) -> (answer: Vec<K::Cell>)
    ensures
        functional(*k) ==> answer@ == draft_states_of(*k, *draft, embeddings@, context@),
{
    reveal(functional);
    k.draft_states(draft, embeddings, context)
}

pub fn decode<K: Kernel>(k: &K, format: &String, bytes: &Vec<u8>) -> (answer: Option<Vec<K::Cell>>)
    ensures
        functional(*k) ==> match answer {
            Some(cells) => decode_of(*k, format@, bytes@) == Some(cells@),
            None => decode_of(*k, format@, bytes@) is None,
        },
{
    reveal(functional);
    k.decode(format, bytes)
}

/// Nanoseconds since `started`, by the kernel's clock.
pub fn elapsed<K: Kernel>(k: &K, started: u64) -> (passed: u64) {
    let now: u64 = k.nanoseconds();
    if now < started {
        0
    } else {
        now - started
    }
}

} // verus!
