//! One token through the decoder and through the same decoder on a device, held against
//! each other layer by layer.

use vstd::prelude::*;
use crate::decoder::CausalDecoder;
use crate::dflash::read_states;
use crate::error::InferError;
use crate::kernel::{binary, binary_of, constant, constant_of, count, count_of, functional, is_refusal, recur, unary, unary_of, Binary, Constant, Kernel, Unary};
use crate::layer::{norm_of, norm_row, recur_step, AttentionBlock};
use crate::model::{embed_row, CacheView, CausalDecoderCache, DecoderModel};
use crate::options::{hot, is_hot, GenerationOptions, SamplerView, TokenSampler};
use crate::prefill::uncached;
use crate::sampling::sampled;
use crate::tensor::{copy_range, Tensor};

verus! {

/// How far two numbers are apart.
pub open spec fn apart<K: Kernel>(k: K, a: K::Cell, b: K::Cell) -> K::Cell {
    unary_of(k, Unary::Abs, binary_of(k, Binary::Sub, a, b))
}

/// The largest distance so far.
pub open spec fn farthest<K: Kernel>(k: K, left: Seq<K::Cell>, right: Seq<K::Cell>, n: int) -> K::Cell
    decreases n,
{
    if n <= 0 {
        constant_of(k, Constant::Zero)
    } else {
        binary_of(k, Binary::Max, farthest(k, left, right, n - 1), apart(k, left[n - 1], right[n - 1]))
    }
}

/// The sum of the distances so far.
pub open spec fn total_apart<K: Kernel>(k: K, left: Seq<K::Cell>, right: Seq<K::Cell>, n: int) -> K::Cell
    decreases n,
{
    if n <= 0 {
        constant_of(k, Constant::Zero)
    } else {
        binary_of(k, Binary::Add, total_apart(k, left, right, n - 1), apart(k, left[n - 1], right[n - 1]))
    }
}

/// The largest and the mean distance of two rows; both zero where the rows are empty.
pub open spec fn diff_of<K: Kernel>(k: K, left: Seq<K::Cell>, right: Seq<K::Cell>) -> Option<(K::Cell, K::Cell)> {
    if left.len() != right.len() {
        None
    } else if left.len() == 0 {
        Some((constant_of(k, Constant::Zero), constant_of(k, Constant::Zero)))
    } else {
        let n = left.len() as int;
        Some(
            (
                farthest(k, left, right, n),
                binary_of(k, Binary::Div, total_apart(k, left, right, n), count_of(k, left.len() as usize)),
            ),
        )
    }
}

/// The largest and the mean distance of two rows. Refused where they differ in length.
pub fn diff_stats_same_len<K: Kernel>(k: &K, left: &Vec<K::Cell>, right: &Vec<K::Cell>) -> (out: Result<(K::Cell, K::Cell), InferError>)
    ensures
        out is Ok <==> left@.len() == right@.len(),
        out matches Err(error) ==> error is Dimension,
        functional(*k) ==> match out {
            Ok(stats) => diff_of(*k, left@, right@) == Some(stats),
            Err(_) => diff_of(*k, left@, right@) is None,
        },
{
    let n: usize = left.len();
    if n != right.len() {
        return Err(InferError::Dimension("rows differ in length"));
    }
    let mut max_abs: K::Cell = constant(k, Constant::Zero);
    let mut sum_abs: K::Cell = constant(k, Constant::Zero);
    if n == 0 {
        return Ok((max_abs, sum_abs));
    }
    for i in 0..n
        invariant
            n == left@.len(),
            n == right@.len(),
            functional(*k) ==> max_abs == farthest(*k, left@, right@, i as int),
            functional(*k) ==> sum_abs == total_apart(*k, left@, right@, i as int),
    {
        let diff: K::Cell = unary(k, Unary::Abs, binary(k, Binary::Sub, left[i], right[i]));
        max_abs = binary(k, Binary::Max, max_abs, diff);
        sum_abs = binary(k, Binary::Add, sum_abs, diff);
    }
    Ok((max_abs, binary(k, Binary::Div, sum_abs, count(k, n))))
}

/// The largest and the mean distance of two rows.
#[derive(Clone, Copy, Debug)]
pub struct Distance<C> {
    pub max_abs: C,
    pub mean_abs: C,
}

/// Distances of the states of a linear layer, of its convolution and of its recurrence.
#[derive(Clone, Copy, Debug)]
pub struct StateDistance<C> {
    pub conv: Distance<C>,
    pub ssm: Distance<C>,
}

/// What a device made of the first layer.
pub struct DeviceProbe<C> {
    /// The row behind the first norm.
    pub normed: Vec<C>,
    /// The row behind the attention.
    pub attn: Vec<C>,
    /// The row behind the attention, from the host's row behind the norm.
    pub attn_cpu_normed: Vec<C>,
    pub init_state: StateDistance<C>,
    pub state: StateDistance<C>,
    pub state_cpu_normed: StateDistance<C>,
}

/// What a device made of the token.
pub struct DeviceTrace<C> {
    pub state: Vec<C>,
    /// The rows of all layers, side by side.
    pub hidden: Vec<C>,
    pub probe: Option<DeviceProbe<C>>,
}

/// The first layer held against what a device made of it.
#[derive(Clone, Copy, Debug)]
pub struct ResidentLinearXrayProbe<C> {
    pub layer_index: usize,
    pub normed: Distance<C>,
    pub attn: Distance<C>,
    pub attn_cpu_normed: Distance<C>,
    pub init_state: StateDistance<C>,
    pub state: StateDistance<C>,
    pub state_cpu_normed: StateDistance<C>,
}

/// A layer held against what a device made of it.
#[derive(Clone, Copy, Debug)]
pub struct ResidentLinearXrayLayerDiff<C> {
    pub layer_index: usize,
    /// The layer has full attention, not linear.
    pub full: bool,
    pub distance: Distance<C>,
}

/// A decoder held against what a device made of it.
pub struct ResidentLinearXrayReport<C> {
    pub input_token: usize,
    pub reference_token: usize,
    pub resident_token: usize,
    pub final_distance: Distance<C>,
    pub probe: Option<ResidentLinearXrayProbe<C>>,
    pub layer_diffs: Vec<ResidentLinearXrayLayerDiff<C>>,
}

pub open spec fn distance_of<K: Kernel>(k: K, left: Seq<K::Cell>, right: Seq<K::Cell>) -> Option<Distance<K::Cell>> {
    match diff_of(k, left, right) {
        Some((max_abs, mean_abs)) => Some(Distance { max_abs, mean_abs }),
        None => None,
    }
}

fn distance<K: Kernel>(k: &K, left: &Vec<K::Cell>, right: &Vec<K::Cell>) -> (out: Result<Distance<K::Cell>, InferError>)
    ensures
        out matches Err(error) ==> error is Dimension,
        functional(*k) ==> match out {
            Ok(made) => distance_of(*k, left@, right@) == Some(made),
            Err(_) => distance_of(*k, left@, right@) is None,
        },
{
    let (max_abs, mean_abs) = diff_stats_same_len(k, left, right)?;
    Ok(Distance { max_abs, mean_abs })
}

/// All layers, in order.
pub open spec fn all_layers(count: nat) -> Seq<usize> {
    Seq::new(count, |i: int| i as usize)
}

/// A row of one layer out of the rows of all layers.
pub open spec fn layer_slice<C>(rows: Seq<C>, hidden: int, layer: int) -> Option<Seq<C>> {
    if (layer + 1) * hidden <= rows.len() {
        Some(rows.subrange(layer * hidden, (layer + 1) * hidden))
    } else {
        None
    }
}

/// One layer held against what a device made of it.
pub open spec fn layer_diff<K: Kernel>(m: DecoderModel<K>, reference: Seq<K::Cell>, resident: Seq<K::Cell>, i: int) -> Option<ResidentLinearXrayLayerDiff<K::Cell>> {
    match (layer_slice(reference, m.hidden() as int, i), layer_slice(resident, m.hidden() as int, i)) {
        (Some(left), Some(right)) => match distance_of(m.kernel, left, right) {
            Some(distance) => Some(
                ResidentLinearXrayLayerDiff { layer_index: i as usize, full: m.config.full_attention_at(i), distance },
            ),
            None => None,
        },
        _ => None,
    }
}

/// The first layers held against what a device made of them.
pub open spec fn layer_diffs<K: Kernel>(m: DecoderModel<K>, reference: Seq<K::Cell>, resident: Seq<K::Cell>, n: int) -> Option<
    Seq<ResidentLinearXrayLayerDiff<K::Cell>>,
>
    decreases n,
{
    if n <= 0 {
        Some(Seq::empty())
    } else {
        match layer_diffs(m, reference, resident, n - 1) {
            Some(before) => match layer_diff(m, reference, resident, n - 1) {
                Some(diff) => Some(before.push(diff)),
                None => None,
            },
            None => None,
        }
    }
}

/// The first layer held against what a device made of it; nothing where it is not linear
/// or the device has no probe; refused where it cannot be.
pub open spec fn probed<K: Kernel>(m: DecoderModel<K>, cache: CacheView<K::Cell>, given: Option<DeviceProbe<K::Cell>>, token: usize) -> Option<
    Option<ResidentLinearXrayProbe<K::Cell>>,
> {
    if m.layers@.len() == 0 || m.config.full_attention_at(0) {
        Some(None)
    } else {
        match (m.layers@[0].attention, given) {
            (AttentionBlock::Linear(weights), Some(given)) => match embed_row(m, token) {
                Some(x) => match norm_of(m.kernel, x, m.layers@[0].input_norm, m.config.rms_eps) {
                    Some(normed) => match m.config.linear_sizes() {
                        Some(sizes) => {
                            let attn = recur_step(m.kernel, weights, sizes, cache.layers[0], normed).1;
                            match (
                                distance_of(m.kernel, normed, given.normed@),
                                distance_of(m.kernel, attn, given.attn@),
                                distance_of(m.kernel, attn, given.attn_cpu_normed@),
                            ) {
                                (Some(normed), Some(attn), Some(attn_cpu_normed)) => Some(
                                    Some(
                                        ResidentLinearXrayProbe {
                                            layer_index: 0,
                                            normed,
                                            attn,
                                            attn_cpu_normed,
                                            init_state: given.init_state,
                                            state: given.state,
                                            state_cpu_normed: given.state_cpu_normed,
                                        },
                                    ),
                                ),
                                _ => None,
                            }
                        },
                        None => None,
                    },
                    None => None,
                },
                None => None,
            },
            _ => Some(None),
        }
    }
}

/// What a report says.
#[verifier::ext_equal]
pub struct ReportView<C> {
    pub input_token: usize,
    pub reference_token: usize,
    pub resident_token: usize,
    pub final_distance: Distance<C>,
    pub probe: Option<ResidentLinearXrayProbe<C>>,
    pub layer_diffs: Seq<ResidentLinearXrayLayerDiff<C>>,
}

impl<C> View for ResidentLinearXrayReport<C> {
    type V = ReportView<C>;

    open spec fn view(&self) -> ReportView<C> {
        ReportView {
            input_token: self.input_token,
            reference_token: self.reference_token,
            resident_token: self.resident_token,
            final_distance: self.final_distance,
            probe: self.probe,
            layer_diffs: self.layer_diffs@,
        }
    }
}

/// The prompt and the token behind it: what the prompt left, the token, and the sampler
/// then.
pub open spec fn xray_start<K: Kernel>(m: DecoderModel<K>, options: GenerationOptions<K::Cell>, prompt: Seq<usize>) -> Option<(CacheView<K::Cell>, usize, SamplerView)> {
    if hot(m.kernel, options) || prompt.len() == 0 || m.layers@.len() == 0 {
        None
    } else {
        match uncached(m, prompt) {
            Some((cache, state)) => match sampled(m, m.lm_head, state, options, SamplerView::start(options.seed)) {
                Some((token, sampler)) => Some((cache, token, sampler)),
                None => None,
            },
            None => None,
        }
    }
}

/// The report on what a device made of the token behind a prompt.
pub open spec fn xray_of<K: Kernel>(m: DecoderModel<K>, options: GenerationOptions<K::Cell>, prompt: Seq<usize>, given: DeviceTrace<K::Cell>) -> Option<ReportView<K::Cell>> {
    match xray_start(m, options, prompt) {
        Some((cache, token, sampler)) => match (
            probed(m, cache, given.probe, token),
            read_states(m, all_layers(m.layers@.len()), cache, seq![token]),
        ) {
            (Some(probe), Some((_, states, hidden))) => match sampled(m, m.lm_head, states[0], options, sampler) {
                Some((reference_token, then)) => match sampled(m, m.lm_head, given.state@, options, then) {
                    Some((resident_token, _)) => match (
                        distance_of(m.kernel, states[0], given.state@),
                        layer_diffs(m, hidden[0], given.hidden@, m.layers@.len() as int),
                    ) {
                        (Some(final_distance), Some(layer_diffs)) => Some(
                            ReportView { input_token: token, reference_token, resident_token, final_distance, probe, layer_diffs },
                        ),
                        _ => None,
                    },
                    None => None,
                },
                None => None,
            },
            _ => None,
        },
        None => None,
    }
}

fn slice_layer<C: Copy>(rows: &Vec<C>, hidden: usize, layer: usize) -> (out: Result<Vec<C>, InferError>)
    ensures
        match out {
            Ok(row) => layer_slice(rows@, hidden as int, layer as int) == Some(row@),
            Err(error) => layer_slice(rows@, hidden as int, layer as int) is None && error is Dimension,
        },
{
    let size: usize = rows.len();
    proof {
        assert((layer + 1) * hidden == layer * hidden + hidden) by (nonlinear_arith);
        assert(layer * hidden >= 0) by (nonlinear_arith)
            requires
                layer >= 0,
                hidden >= 0,
        ;
    }
    let start: usize = match layer.checked_mul(hidden) {
        Some(start) => start,
        None => {
            return Err(InferError::Dimension("offset of a layer leaves the machine's range"));
        },
    };
    if start > size || size - start < hidden {
        return Err(InferError::Dimension("rows of the layers too short"));
    }
    Ok(copy_range(rows, start, start + hidden))
}

impl<K: Kernel> DecoderModel<K> {
    fn diff_layers(&self, reference: &Vec<K::Cell>, resident: &Vec<K::Cell>) -> (out: Result<Vec<ResidentLinearXrayLayerDiff<K::Cell>>, InferError>)
        ensures
            out matches Err(error) ==> error is Dimension,
            functional(self.kernel) ==> match out {
                Ok(diffs) => layer_diffs(*self, reference@, resident@, self.layers@.len() as int) == Some(diffs@),
                Err(_) => layer_diffs(*self, reference@, resident@, self.layers@.len() as int) is None,
            },
    {
        let hidden: usize = self.final_norm.data.len();
        let n: usize = self.layers.len();
        let mut diffs: Vec<ResidentLinearXrayLayerDiff<K::Cell>> = Vec::new();
        let mut i: usize = 0;
        while i < n
            invariant
                i <= n,
                n == self.layers@.len(),
                hidden == self.hidden(),
                functional(self.kernel) ==> layer_diffs(*self, reference@, resident@, i as int) == Some(diffs@),
            decreases n - i,
        {
            proof {
                if layer_diff(*self, reference@, resident@, i as int) is None {
                    if functional(self.kernel) {
                        lemma_diffs_refused(*self, reference@, resident@, i + 1, n as int);
                    }
                }
            }
            let left: Vec<K::Cell> = slice_layer(reference, hidden, i)?;
            let right: Vec<K::Cell> = slice_layer(resident, hidden, i)?;
            let made: Distance<K::Cell> = distance(&self.kernel, &left, &right)?;
            diffs.push(
                ResidentLinearXrayLayerDiff { layer_index: i, full: self.config.is_full_attention_layer(i), distance: made },
            );
            i = i + 1;
        }
        Ok(diffs)
    }

    fn probe_first_layer(&self, cache: &CausalDecoderCache<K::Cell>, given: &Option<DeviceProbe<K::Cell>>, token: usize) -> (out: Result<
        Option<ResidentLinearXrayProbe<K::Cell>>,
        InferError,
    >)
        requires
            self.fits(cache@),
        ensures
            out matches Err(error) ==> error.is_misfit(self.complete()),
            functional(self.kernel) ==> match out {
                Ok(probe) => probed(*self, cache@, *given, token) == Some(probe),
                Err(_) => probed(*self, cache@, *given, token) is None,
            },
    {
        if self.layers.len() == 0 || self.config.is_full_attention_layer(0) {
            return Ok(None);
        }
        let (weights, device) = match (&self.layers[0].attention, given) {
            (AttentionBlock::Linear(weights), Some(device)) => (weights, device),
            _ => {
                return Ok(None);
            },
        };
        assert(cache@.layers[0] == cache.layers@[0]@);
        let k: &K = &self.kernel;
        let x: Vec<K::Cell> = self.embedded_row(token)?;
        let normed: Vec<K::Cell> = norm_row(k, &x, &self.layers[0].input_norm, self.config.rms_eps)?;
        let sizes = self.config.linear_attention_config()?;
        let (attn, _state) = recur(k, weights, sizes, &cache.layers[0].recurrent, &normed);
        let normed_distance: Distance<K::Cell> = distance(k, &normed, &device.normed)?;
        let attn_distance: Distance<K::Cell> = distance(k, &attn, &device.attn)?;
        let attn_cpu_normed: Distance<K::Cell> = distance(k, &attn, &device.attn_cpu_normed)?;
        Ok(
            Some(
                ResidentLinearXrayProbe {
                    layer_index: 0,
                    normed: normed_distance,
                    attn: attn_distance,
                    attn_cpu_normed,
                    init_state: device.init_state,
                    state: device.state,
                    state_cpu_normed: device.state_cpu_normed,
                },
            ),
        )
    }
}

proof fn lemma_diffs_refused<K: Kernel>(m: DecoderModel<K>, reference: Seq<K::Cell>, resident: Seq<K::Cell>, fewer: int, more: int)
    requires
        0 <= fewer <= more,
        layer_diffs(m, reference, resident, fewer) is None,
    ensures
        layer_diffs(m, reference, resident, more) is None,
    decreases more,
{
    if fewer < more {
        lemma_diffs_refused(m, reference, resident, fewer, more - 1);
    }
}

fn list_layers(count: usize) -> (ids: Vec<usize>)
    ensures
        ids@ == all_layers(count as nat),
{
    let mut ids: Vec<usize> = Vec::new();
    for i in 0..count
        invariant
            ids@ == all_layers(i as nat),
    {
        ids.push(i);
        assert(ids@ =~= all_layers((i + 1) as nat));
    }
    ids
}

/// The token behind a prompt, and what the prompt left.
pub struct XrayStart<C> {
    pub cache: CausalDecoderCache<C>,
    pub input_token: usize,
    pub sampler: TokenSampler,
}

impl<K: Kernel> CausalDecoder<K> {
    /// Takes a prompt through the decoder and finds the token behind it, for a device to
    /// take on. Refused where tokens are drawn, or where there is no prompt.
    pub fn resident_linear_xray_start(&self, prompt: &Vec<usize>, options: &GenerationOptions<K::Cell>) -> (out: Result<XrayStart<K::Cell>, InferError>)
        requires
            self.model.wf(),
        ensures
            out matches Ok(made) ==> made.cache@.wf() && prompt@.len() > 0,
            functional(self.model.kernel) && hot(self.model.kernel, *options) ==> (out matches Err(error) && error is Config),
            functional(self.model.kernel) && !hot(self.model.kernel, *options) && prompt@.len() == 0 ==> (out matches Err(error) && error is Dimension),
            functional(self.model.kernel) && !hot(self.model.kernel, *options) && prompt@.len() > 0 ==> (out matches Err(error)
                ==> if self.model.layers@.len() == 0 {
                    error is Config
                } else {
                    is_refusal(self.model.kernel, error, self.model.complete())
                }),
            functional(self.model.kernel) ==> match out {
                Ok(made) => xray_start(self.model, *options, prompt@) == Some((made.cache@, made.input_token, made.sampler@)),
                Err(_) => xray_start(self.model, *options, prompt@) is None,
            },
    {
        let model: &DecoderModel<K> = &self.model;
        if is_hot(&model.kernel, options) {
            return Err(InferError::Config("only the best token can be held against a device"));
        }
        if prompt.len() == 0 {
            return Err(InferError::Dimension("prompt without tokens"));
        }
        if model.layers.len() == 0 {
            return Err(InferError::Config("no layers to read from"));
        }
        let (cache, state) = model.prefill_cache_state_uncached(prompt)?;
        let mut sampler: TokenSampler = TokenSampler::new(options.seed);
        let input_token: usize = model.sample_token_from_state(&state, options, &mut sampler)?;
        Ok(XrayStart { cache, input_token, sampler })
    }

    /// Holds the decoder against what a device made of the token behind a prompt: the
    /// rows of every layer, the state and the token behind it. Refused where tokens are
    /// drawn, where there is no prompt, or where rows do not fit.
    pub fn resident_linear_xray(&self, prompt: &Vec<usize>, options: &GenerationOptions<K::Cell>, resident: &DeviceTrace<K::Cell>) -> (out: Result<
        ResidentLinearXrayReport<K::Cell>,
        InferError,
    >)
        requires
            self.model.wf(),
        ensures
            functional(self.model.kernel) && hot(self.model.kernel, *options) ==> (out matches Err(error) && error is Config),
            functional(self.model.kernel) && !hot(self.model.kernel, *options) && prompt@.len() == 0 ==> (out matches Err(error) && error is Dimension),
            functional(self.model.kernel) && !hot(self.model.kernel, *options) && self.model.layers@.len() > 0 ==> (out matches Err(error)
                ==> is_refusal(self.model.kernel, error, self.model.complete()) || (error is Shape && self.model.layers@.len() * self.model.hidden() > usize::MAX)),
            functional(self.model.kernel) ==> match out {
                Ok(report) => xray_of(self.model, *options, prompt@, *resident) == Some(report@),
                Err(_) => xray_of(self.model, *options, prompt@, *resident) is None,
            },
    {
        let model: &DecoderModel<K> = &self.model;
        let XrayStart { mut cache, input_token, mut sampler } = self.resident_linear_xray_start(prompt, options)?;
        if cache.layers.len() != model.layers.len() {
            return Err(InferError::Dimension("cache does not fit the decoder"));
        }
        let probe: Option<ResidentLinearXrayProbe<K::Cell>> = model.probe_first_layer(&cache, &resident.probe, input_token)?;
        let ids: Vec<usize> = list_layers(model.layers.len());
        let mut tokens: Vec<usize> = Vec::new();
        tokens.push(input_token);
        assert(tokens@ =~= seq![input_token]);
        let (states, hidden) = model.next_final_states_batched_with_layer_capture(&mut cache, &tokens, &ids)?;
        proof {
            states.lemma_rows();
            hidden.lemma_rows();
        }
        let state: Vec<K::Cell> = states.row_slice(0)?;
        let read: Vec<K::Cell> = hidden.row_slice(0)?;
        let reference_token: usize = model.sample_token_from_state(&states, options, &mut sampler)?;
        let copied: Vec<K::Cell> = crate::tensor::copy_cells(&resident.state);
        let device_state: Tensor<K::Cell> = Tensor::row(copied);
        proof {
            device_state.lemma_rows();
        }
        let resident_token: usize = model.sample_token_from_state(&device_state, options, &mut sampler)?;
        let final_distance: Distance<K::Cell> = distance(&model.kernel, &state, &resident.state)?;
        let layer_diffs: Vec<ResidentLinearXrayLayerDiff<K::Cell>> = model.diff_layers(&read, &resident.hidden)?;
        let report: ResidentLinearXrayReport<K::Cell> = ResidentLinearXrayReport {
            input_token,
            reference_token,
            resident_token,
            final_distance,
            probe,
            layer_diffs,
        };
        assert(functional(model.kernel) ==> report@ =~= xray_of(self.model, *options, prompt@, *resident)->0);
        Ok(report)
    }
}

} // verus!
