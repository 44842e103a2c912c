//! One token through a decoder that stands on a device.

use vstd::prelude::*;
use crate::device::{law_run_concat, lemma_elsewhere, lemma_elsewhere_start, lemma_run_push, run, run_one, same_elsewhere, spot, Command, Memory, NormWeight, OutputMap, Place, ResidentLayerKind, Slot, Spot, TokenPlace};
use crate::error::{Fault, InferError};
use crate::kernel::{advance, advance_of, at_most, at_most_of, constant, constant_of, device_token_of, fails_with, functional, unary, unary_of, Constant, DeviceRoute, Kernel, SamplingParams, Unary};
use crate::kv::LayerView;
use crate::layer::{layer_row, norm_of, AttentionBlock, DecoderLayer};
use crate::linear::{linear_row, FeedForward};
use crate::model::{embed_row, layers_row, lemma_advance_row, prepend_row, step, CacheView, DecoderModel};
use crate::options::{hot, is_hot, GenerationOptions, SamplerView, TokenSampler};
use crate::resident::{filled, has_room, ArenaView, KvRoom, ResidentArena, ResidentCache};
use crate::sampling::MAX_SAMPLER_TOP_K;
use crate::tensor::Tensor;
use crate::weights::LinearAttentionConfig;

verus! {

/// A number that is neither infinite nor undefined.
pub open spec fn finite<K: Kernel>(k: K, x: K::Cell) -> bool {
    let low = constant_of(k, Constant::NegInfinity);
    at_most_of(k, x, x) && !at_most_of(k, x, low) && !at_most_of(k, unary_of(k, Unary::Negate, low), x)
}

fn is_finite<K: Kernel>(k: &K, x: K::Cell) -> (yes: bool)
    ensures
        functional(*k) ==> yes == finite(*k, x),
{
    let low: K::Cell = constant(k, Constant::NegInfinity);
    let high: K::Cell = unary(k, Unary::Negate, low);
    let defined: bool = at_most(k, x, x);
    let bottom: bool = at_most(k, x, low);
    let top: bool = at_most(k, high, x);
    defined && !bottom && !top
}

/// A draw by these options makes sense: the temperature is a number above zero, and the
/// share of the tokens is above zero and at most one.
pub open spec fn valid_draw<K: Kernel>(k: K, options: GenerationOptions<K::Cell>) -> bool {
    let zero = constant_of(k, Constant::Zero);
    let one = constant_of(k, Constant::One);
    &&& hot(k, options)
    &&& finite(k, options.temperature)
    &&& finite(k, options.top_p)
    &&& !at_most_of(k, options.top_p, zero)
    &&& at_most_of(k, options.top_p, one)
}

fn resident_sampling_params_valid<K: Kernel>(k: &K, options: &GenerationOptions<K::Cell>) -> (valid: bool)
    ensures
        functional(*k) ==> valid == valid_draw(*k, *options),
{
    let zero: K::Cell = constant(k, Constant::Zero);
    let one: K::Cell = constant(k, Constant::One);
    let hot: bool = is_hot(k, options);
    let temperature: bool = is_finite(k, options.temperature);
    let share: bool = is_finite(k, options.top_p);
    let none: bool = at_most(k, options.top_p, zero);
    let all: bool = at_most(k, options.top_p, one);
    hot && temperature && share && !none && all
}

/// Tokens can be drawn by these options while the decoder stands on a device.
pub open spec fn drawable<K: Kernel>(m: DecoderModel<K>, options: GenerationOptions<K::Cell>) -> bool {
    valid_draw(m.kernel, options) && m.flags.gpu_sampler
}

/// Tokens can be drawn by these options on the device itself: over the whole vocabulary,
/// or over few enough of the best tokens.
pub open spec fn drawable_on_device<K: Kernel>(m: DecoderModel<K>, options: GenerationOptions<K::Cell>) -> bool {
    &&& drawable(m, options)
    &&& (options.top_k == 0 && at_most_of(m.kernel, constant_of(m.kernel, Constant::One), options.top_p)) || (0 < options.top_k
        <= MAX_SAMPLER_TOP_K)
}

/// How a token is drawn: where, with what, and from which random state.
#[derive(Clone, Copy, Debug)]
pub struct ResidentSampleSpec<C> {
    pub params: SamplingParams<C>,
    pub random: u64,
    pub on_device: bool,
}

pub open spec fn sample_spec<C: Copy>(options: GenerationOptions<C>, random: u64, on_device: bool) -> ResidentSampleSpec<C> {
    ResidentSampleSpec {
        params: SamplingParams { temperature: options.temperature, top_p: options.top_p, top_k: options.top_k },
        random,
        on_device,
    }
}

impl<K: Kernel> DecoderModel<K> {
    /// Whether tokens can be drawn while the decoder stands on a device.
    pub fn resident_sampling_supported(&self, options: &GenerationOptions<K::Cell>) -> (yes: bool)
        ensures
            functional(self.kernel) ==> yes == drawable(*self, *options),
    {
        resident_sampling_params_valid(&self.kernel, options) && self.flags.gpu_sampler
    }

    /// Whether tokens can be drawn on the device itself.
    pub fn resident_sampling_on_device(&self, options: &GenerationOptions<K::Cell>) -> (yes: bool)
        ensures
            functional(self.kernel) ==> yes == drawable_on_device(*self, *options),
    {
        if !self.resident_sampling_supported(options) {
            return false;
        }
        let one: K::Cell = constant(&self.kernel, Constant::One);
        let whole: bool = at_most(&self.kernel, one, options.top_p);
        (options.top_k == 0 && whole) || (options.top_k > 0 && options.top_k <= MAX_SAMPLER_TOP_K)
    }

    /// How a token is drawn on the device itself. Refused where none is to be drawn, or not
    /// there.
    pub fn resident_sample_spec(&self, options: &GenerationOptions<K::Cell>, random: u64) -> (out: Result<ResidentSampleSpec<K::Cell>, InferError>)
        ensures
            out matches Err(error) ==> error is Config,
            functional(self.kernel) ==> match out {
                Ok(spec) => drawable_on_device(*self, *options) && spec == sample_spec(*options, random, true),
                Err(_) => !drawable_on_device(*self, *options),
            },
    {
        if !self.resident_sampling_on_device(options) {
            return Err(InferError::Config("tokens cannot be drawn on the device"));
        }
        Ok(
            ResidentSampleSpec {
                params: SamplingParams { temperature: options.temperature, top_p: options.top_p, top_k: options.top_k },
                random,
                on_device: true,
            },
        )
    }

    /// How a token is drawn: on the device where it can be, else from logits handed back.
    /// Refused where the options make no draw.
    pub fn resident_sample_spec_for_solo(&self, options: &GenerationOptions<K::Cell>, random: u64) -> (out: Result<ResidentSampleSpec<K::Cell>, InferError>)
        ensures
            out matches Err(error) ==> error is Config,
            functional(self.kernel) ==> match out {
                Ok(spec) => drawable(*self, *options) && spec == sample_spec(*options, random, drawable_on_device(*self, *options)),
                Err(_) => !drawable(*self, *options),
            },
    {
        if self.resident_sampling_on_device(options) {
            return self.resident_sample_spec(options, random);
        }
        if !self.resident_sampling_supported(options) {
            return Err(InferError::Config("options make no draw"));
        }
        Ok(
            ResidentSampleSpec {
                params: SamplingParams { temperature: options.temperature, top_p: options.top_p, top_k: options.top_k },
                random,
                on_device: false,
            },
        )
    }
}

/// Half of the names that scratch rows can have.
pub const PIPELINE_TAG: u64 = 0x8000_0000_0000_0000;

/// Names that a step of a pipeline leaves to the streams.
pub const PIPELINE_BASES: u64 = 0x80_0000_0000_0000;

/// Steps that a pipeline can have under names of their own.
pub const PIPELINE_SLOTS: u64 = 256;

/// The name of the scratch rows of a step of a pipeline, for a stream.
pub open spec fn pipeline_namespace(base: u64, slot: usize) -> Option<u64> {
    if slot + 1 >= PIPELINE_SLOTS || base >= PIPELINE_BASES {
        None
    } else {
        Some((PIPELINE_TAG + base * PIPELINE_SLOTS + slot + 1) as u64)
    }
}

/// The name of the scratch rows of a step of a pipeline, for a stream. Refused where there
/// are too many steps or streams.
pub fn pipeline_scratch_namespace(base: u64, slot: usize) -> (out: Result<u64, InferError>)
    ensures
        match out {
            Ok(name) => pipeline_namespace(base, slot) == Some(name),
            Err(error) => pipeline_namespace(base, slot) is None && error is Metal,
        },
{
    if slot >= 255 || base >= PIPELINE_BASES {
        return Err(InferError::Metal("name of a scratch row out of range"));
    }
    Ok(PIPELINE_TAG + base * PIPELINE_SLOTS + slot as u64 + 1)
}

/// No two steps share scratch rows, nor does a step with a stream of its own.
pub proof fn law_namespaces_apart(base: u64, slot: usize, other: u64, place: usize)
    requires
        pipeline_namespace(base, slot) is Some,
        pipeline_namespace(other, place) is Some,
    ensures
        pipeline_namespace(base, slot) == pipeline_namespace(other, place) ==> base == other && slot == place,
        pipeline_namespace(base, slot)->0 > other,
{
}

/// Where the row that a token starts from comes from.
#[derive(Clone, Copy, PartialEq, Eq, Structural, Debug)]
pub enum ResidentDecodeInput {
    /// A token that the host knows: its row is handed over.
    Host(usize),
    /// A token that stands on the device.
    Device(Slot),
}

/// What a device is told to do for one token, and the row that is handed over before.
pub struct TokenProgram<C> {
    pub upload: Option<Vec<C>>,
    pub program: Vec<Command<C>>,
    /// The name of the scratch rows.
    pub namespace: u64,
}

/// Why the sizes of the linear layers are refused.
pub open spec fn linear_fault<K: Kernel>(m: DecoderModel<K>) -> Option<Fault> {
    if forall|i: int| 0 <= i < m.layers@.len() ==> #[trigger] m.config.full_attention_at(i) {
        None
    } else {
        match m.config.linear_sizes() {
            Some(sizes) => if 2 * (sizes.num_key_heads * sizes.key_head_dim) + sizes.num_value_heads * sizes.value_head_dim > usize::MAX {
                Some(Fault::Shape)
            } else {
                None
            },
            None => Some(Fault::Config),
        }
    }
}

/// How a layer goes on the device, or why it does not.
pub open spec fn stands<K: Kernel>(m: DecoderModel<K>, kinds: Seq<ResidentLayerKind>, rooms: Seq<Option<KvRoom>>, cache: CacheView<K::Cell>, i: int) -> Result<
    ResidentLayerKind,
    Fault,
> {
    let layer = m.layers@[i];
    let kind = if i < kinds.len() {
        kinds[i]
    } else {
        ResidentLayerKind::Other
    };
    if m.config.full_attention_at(i) {
        match layer.attention {
            AttentionBlock::Full(attention) => if attention.q_norm is None || attention.k_norm is None || layer.post_attention_norm is None {
                Err(Fault::Config)
            } else if rooms[i] is None {
                Err(Fault::Metal)
            } else {
                match layer.mlp {
                    Some(FeedForward::Moe(_)) => if kind == ResidentLayerKind::FullMoe || kind == ResidentLayerKind::FullRouted {
                        Ok(kind)
                    } else {
                        Err(Fault::Config)
                    },
                    Some(FeedForward::Dense(_)) => if kind == ResidentLayerKind::FullDense {
                        Ok(kind)
                    } else {
                        Err(Fault::Config)
                    },
                    None => Err(Fault::Config),
                }
            },
            AttentionBlock::Linear(_) => Err(Fault::Config),
        }
    } else {
        match layer.attention {
            AttentionBlock::Linear(_) => if layer.post_attention_norm is None {
                Err(Fault::Config)
            } else if cache.layers[i].recurrent.len() == 0 {
                Err(Fault::Metal)
            } else {
                match layer.mlp {
                    Some(FeedForward::Moe(_)) => if kind == ResidentLayerKind::LinearMoe {
                        Ok(kind)
                    } else {
                        Err(Fault::Config)
                    },
                    Some(FeedForward::Dense(_)) => if kind == ResidentLayerKind::LinearDense {
                        Ok(kind)
                    } else {
                        Err(Fault::Config)
                    },
                    None => Err(Fault::Config),
                }
            },
            AttentionBlock::Full(_) => Err(Fault::Config),
        }
    }
}

/// How the first layers go on the device, or why one does not.
pub open spec fn all_stand<K: Kernel>(m: DecoderModel<K>, kinds: Seq<ResidentLayerKind>, rooms: Seq<Option<KvRoom>>, cache: CacheView<K::Cell>, n: int) -> Result<
    Seq<ResidentLayerKind>,
    Fault,
>
    decreases n,
{
    if n <= 0 {
        Ok(Seq::empty())
    } else {
        match all_stand(m, kinds, rooms, cache, n - 1) {
            Ok(before) => match stands(m, kinds, rooms, cache, n - 1) {
                Ok(kind) => Ok(before.push(kind)),
                Err(fault) => Err(fault),
            },
            Err(fault) => Err(fault),
        }
    }
}

/// The place of the row before layer `i`, of two that take turns.
pub open spec fn turn(a: Place, b: Place, i: int) -> Place {
    if i % 2 == 0 {
        a
    } else {
        b
    }
}

/// One row through the layers, in two places that take turns.
pub open spec fn layer_commands<C>(kinds: Seq<ResidentLayerKind>, position: int, a: Place, b: Place) -> Seq<Command<C>> {
    Seq::new(
        kinds.len(),
        |i: int|
            Command::Layer {
                layer: i as usize,
                kind: kinds[i],
                position: position as usize,
                from: spot(turn(a, b, i), 0),
                to: spot(turn(a, b, i + 1), 0),
            },
    )
}

/// The parameters of a choice that takes the best token.
pub open spec fn best_params<K: Kernel>(k: K) -> SamplingParams<K::Cell> {
    SamplingParams { temperature: constant_of(k, Constant::Zero), top_p: constant_of(k, Constant::One), top_k: 0 }
}

/// How a token is chosen from a state, and where it is put.
pub open spec fn choice<K: Kernel>(k: K, sample: Option<ResidentSampleSpec<K::Cell>>, from: Spot, to: Slot) -> Command<K::Cell> {
    match sample {
        Some(sample) => if !sample.on_device {
            Command::ReadBack { from }
        } else {
            Command::Pick {
                output: OutputMap::Decoder,
                route: if sample.params.top_k == 0 {
                    DeviceRoute::Gumbel
                } else {
                    DeviceRoute::TopK
                },
                params: sample.params,
                random: sample.random,
                from,
                to,
            }
        },
        None => Command::Pick { output: OutputMap::Decoder, route: DeviceRoute::Argmax, params: best_params(k), random: 0, from, to },
    }
}

/// The two places that the rows of a step take turns in.
pub open spec fn hidden_places(slot: Option<usize>) -> (Place, Place) {
    match slot {
        Some(slot) => (Place::PipelineA(slot), Place::PipelineB(slot)),
        None => (Place::HiddenA, Place::HiddenB),
    }
}

/// How the row of a token gets to its place.
pub open spec fn start_commands<C>(input: ResidentDecodeInput, a: Place) -> Seq<Command<C>> {
    match input {
        ResidentDecodeInput::Host(_) => Seq::empty(),
        ResidentDecodeInput::Device(token) => seq![Command::Gather { token, to: spot(a, 0) }],
    }
}

/// The program of a token.
pub open spec fn token_program<K: Kernel>(
    k: K,
    kinds: Seq<ResidentLayerKind>,
    position: int,
    input: ResidentDecodeInput,
    output: Slot,
    slot: Option<usize>,
    sample: Option<ResidentSampleSpec<K::Cell>>,
) -> Seq<Command<K::Cell>> {
    let (a, b) = hidden_places(slot);
    let last = spot(turn(a, b, kinds.len() as int), 0);
    let normed = spot(Place::FinalNormed, 0);
    (start_commands(input, a) + layer_commands(kinds, position, a, b)).push(Command::Norm { weight: NormWeight::Final, from: last, to: normed }).push(
        choice(k, sample, normed, output),
    )
}

/// Where a token is put that is given no other place.
pub open spec fn output_slot(output: Option<Slot>) -> Slot {
    match output {
        Some(slot) => slot,
        None => Slot { place: TokenPlace::Index, at: 0 },
    }
}

/// The state of a decoder on a device.
#[verifier::ext_equal]
pub struct ResidentView<C> {
    pub cache: CacheView<C>,
    pub rooms: Seq<Option<KvRoom>>,
    pub arena: Option<ArenaView>,
}

impl<C> View for ResidentCache<C> {
    type V = ResidentView<C>;

    open spec fn view(&self) -> ResidentView<C> {
        ResidentView {
            cache: self.cache@,
            rooms: self.rooms@,
            arena: match self.arena {
                Some(arena) => Some(arena@),
                None => None,
            },
        }
    }
}

/// Why a token is refused, before a layer is looked at.
pub open spec fn token_fault<K: Kernel>(m: DecoderModel<K>, device: bool, at: ResidentView<K::Cell>, input: ResidentDecodeInput, slot: Option<usize>) -> Option<Fault> {
    if !device {
        Some(Fault::Metal)
    } else if m.config.rope_theta is None {
        Some(Fault::Config)
    } else if linear_fault(m) is Some {
        linear_fault(m)
    } else if at.arena is None {
        Some(Fault::Metal)
    } else if slot is Some && (pipeline_namespace((at.arena->0).namespace, slot->0) is None || slot->0 >= (at.arena->0).pipeline_ring) {
        Some(Fault::Metal)
    } else {
        match input {
            ResidentDecodeInput::Host(token) => if embed_row(m, token) is None {
                Some(Fault::Dimension)
            } else {
                None
            },
            ResidentDecodeInput::Device(_) => None,
        }
    }
}

/// The program of a token, or why there is none.
pub open spec fn token_plan<K: Kernel>(
    m: DecoderModel<K>,
    device: bool,
    at: ResidentView<K::Cell>,
    input: ResidentDecodeInput,
    output: Option<Slot>,
    slot: Option<usize>,
    sample: Option<ResidentSampleSpec<K::Cell>>,
) -> Result<Seq<Command<K::Cell>>, Fault> {
    match token_fault(m, device, at, input, slot) {
        Some(fault) => Err(fault),
        None => match all_stand(m, (at.arena->0).kinds, at.rooms, at.cache, m.layers@.len() as int) {
            Ok(kinds) => if at.cache.position >= usize::MAX || !has_room(at.rooms) {
                Err(Fault::Dimension)
            } else {
                Ok(token_program(m.kernel, kinds, at.cache.position, input, output_slot(output), slot, sample))
            },
            Err(fault) => Err(fault),
        },
    }
}

/// The state of a decoder on a device after some tokens.
pub open spec fn moved_on<C>(at: ResidentView<C>, tokens: int) -> ResidentView<C> {
    ResidentView {
        cache: CacheView { position: at.cache.position + tokens, ..at.cache },
        rooms: filled(at.rooms, tokens),
        arena: at.arena,
    }
}

fn is_full_kind(kind: ResidentLayerKind) -> (yes: bool)
    ensures
        yes == (kind == ResidentLayerKind::FullMoe || kind == ResidentLayerKind::FullRouted),
{
    match kind {
        ResidentLayerKind::FullMoe => true,
        ResidentLayerKind::FullRouted => true,
        _ => false,
    }
}

/// Whether the row that a linear layer convolves fits the machine.
pub fn sizes_fit(sizes: &LinearAttentionConfig) -> (yes: bool)
    ensures
        yes == (2 * (sizes.num_key_heads * sizes.key_head_dim) + sizes.num_value_heads * sizes.value_head_dim <= usize::MAX),
{
    let key_heads: u128 = sizes.num_key_heads as u128;
    let key_size: u128 = sizes.key_head_dim as u128;
    let value_heads: u128 = sizes.num_value_heads as u128;
    let value_size: u128 = sizes.value_head_dim as u128;
    assert(0 <= key_heads * key_size <= u64::MAX * u64::MAX) by (nonlinear_arith)
        requires
            key_heads <= u64::MAX,
            key_size <= u64::MAX,
    ;
    assert(0 <= value_heads * value_size <= u64::MAX * u64::MAX) by (nonlinear_arith)
        requires
            value_heads <= u64::MAX,
            value_size <= u64::MAX,
    ;
    let keys: u128 = key_heads * key_size;
    let values: u128 = value_heads * value_size;
    let limit: u128 = usize::MAX as u128;
    keys <= limit && values <= limit && 2 * keys + values <= limit
}

impl<K: Kernel> DecoderModel<K> {
    /// Whether the sizes of the linear layers fit.
    pub fn check_linear_sizes(&self) -> (out: Result<(), InferError>)
        ensures
            match out {
                Ok(_) => linear_fault(*self) is None,
                Err(error) => linear_fault(*self) == Some(error.fault()),
            },
    {
        if !self.has_linear_layer() {
            return Ok(());
        }
        assert(exists|i: int| 0 <= i < self.layers@.len() && !(#[trigger] self.config.full_attention_at(i)));
        let sizes = self.linear_attention_sizes()?;
        if !sizes_fit(&sizes) {
            return Err(InferError::Shape("rows of the linear attention too long"));
        }
        Ok(())
    }

    fn linear_attention_sizes(&self) -> (out: Result<LinearAttentionConfig, InferError>)
        ensures
            match out {
                Ok(sizes) => self.config.linear_sizes() == Some(sizes),
                Err(error) => self.config.linear_sizes() is None && error is Config,
            },
    {
        self.config.linear_attention_config()
    }

    /// How a layer goes on the device.
    fn resident_layer(&self, arena: &ResidentArena, cache: &ResidentCache<K::Cell>, i: usize) -> (out: Result<ResidentLayerKind, InferError>)
        requires
            i < self.layers@.len(),
            i < cache.rooms@.len(),
            i < cache.cache.layers@.len(),
        ensures
            match out {
                Ok(kind) => stands(*self, arena.kinds@, cache.rooms@, cache.cache@, i as int) == Result::<ResidentLayerKind, Fault>::Ok(kind),
                Err(error) => stands(*self, arena.kinds@, cache.rooms@, cache.cache@, i as int) == Result::<ResidentLayerKind, Fault>::Err(
                    error.fault(),
                ),
            },
    {
        let layer: &DecoderLayer<K::Cell> = &self.layers[i];
        let kind: ResidentLayerKind = if i < arena.kinds.len() {
            arena.kinds[i]
        } else {
            ResidentLayerKind::Other
        };
        assert(cache.cache@.layers[i as int] == cache.cache.layers@[i as int]@);
        if self.config.is_full_attention_layer(i) {
            match &layer.attention {
                AttentionBlock::Full(attention) => {
                    if attention.q_norm.is_none() || attention.k_norm.is_none() {
                        return Err(InferError::Config("full layer without query or key norm"));
                    }
                },
                AttentionBlock::Linear(_) => {
                    return Err(InferError::Config("linear layer where a full one is due"));
                },
            }
            if layer.post_attention_norm.is_none() {
                return Err(InferError::Config("layer without a norm behind its attention"));
            }
            if cache.rooms[i].is_none() {
                return Err(InferError::Metal("full layer without a room on the device"));
            }
            match &layer.mlp {
                Some(FeedForward::Moe(_)) => if is_full_kind(kind) {
                    Ok(kind)
                } else {
                    Err(InferError::Config("weights of the experts not on the device"))
                },
                Some(FeedForward::Dense(_)) => match kind {
                    ResidentLayerKind::FullDense => Ok(kind),
                    _ => Err(InferError::Config("weights of the full layer not on the device")),
                },
                None => Err(InferError::Config("layer without a feed-forward block")),
            }
        } else {
            match &layer.attention {
                AttentionBlock::Linear(_) => {},
                AttentionBlock::Full(_) => {
                    return Err(InferError::Config("full layer where a linear one is due"));
                },
            }
            if layer.post_attention_norm.is_none() {
                return Err(InferError::Config("layer without a norm behind its attention"));
            }
            if cache.cache.layers[i].recurrent.len() == 0 {
                return Err(InferError::Metal("linear layer without a state on the device"));
            }
            match &layer.mlp {
                Some(FeedForward::Moe(_)) => match kind {
                    ResidentLayerKind::LinearMoe => Ok(kind),
                    _ => Err(InferError::Config("weights of the experts not on the device")),
                },
                Some(FeedForward::Dense(_)) => match kind {
                    ResidentLayerKind::LinearDense => Ok(kind),
                    _ => Err(InferError::Config("weights of the linear layer not on the device")),
                },
                None => Err(InferError::Config("layer without a feed-forward block")),
            }
        }
    }

    /// How the layers go on the device.
    pub fn resident_layers(&self, arena: &ResidentArena, cache: &ResidentCache<K::Cell>) -> (out: Result<Vec<ResidentLayerKind>, InferError>)
        requires
            self.fits(cache.cache@),
            cache.rooms@.len() == self.layers@.len(),
        ensures
            match out {
                Ok(kinds) => all_stand(*self, arena.kinds@, cache.rooms@, cache.cache@, self.layers@.len() as int) == Result::<
                    Seq<ResidentLayerKind>,
                    Fault,
                >::Ok(kinds@) && kinds@.len() == self.layers@.len(),
                Err(error) => all_stand(*self, arena.kinds@, cache.rooms@, cache.cache@, self.layers@.len() as int) == Result::<
                    Seq<ResidentLayerKind>,
                    Fault,
                >::Err(error.fault()),
            },
    {
        let n: usize = self.layers.len();
        let mut kinds: Vec<ResidentLayerKind> = Vec::new();
        let mut i: usize = 0;
        while i < n
            invariant
                i <= n,
                n == self.layers@.len(),
                self.fits(cache.cache@),
                cache.rooms@.len() == n,
                kinds@.len() == i,
                all_stand(*self, arena.kinds@, cache.rooms@, cache.cache@, i as int) == Result::<Seq<ResidentLayerKind>, Fault>::Ok(kinds@),
            decreases n - i,
        {
            match self.resident_layer(arena, cache, i) {
                Ok(kind) => {
                    kinds.push(kind);
                },
                Err(error) => {
                    proof {
                        lemma_stand_refused(*self, arena.kinds@, cache.rooms@, cache.cache@, i + 1, n as int);
                    }
                    return Err(error);
                },
            }
            i = i + 1;
        }
        Ok(kinds)
    }
}

/// A layer that does not go on the device keeps the decoder off it.
proof fn lemma_stand_refused<K: Kernel>(m: DecoderModel<K>, kinds: Seq<ResidentLayerKind>, rooms: Seq<Option<KvRoom>>, cache: CacheView<K::Cell>, fewer: int, more: int)
    requires
        0 <= fewer <= more,
        all_stand(m, kinds, rooms, cache, fewer) is Err,
    ensures
        all_stand(m, kinds, rooms, cache, more) == all_stand(m, kinds, rooms, cache, fewer),
    decreases more,
{
    if fewer < more {
        lemma_stand_refused(m, kinds, rooms, cache, fewer, more - 1);
    }
}

/// The two places that take turns.
pub fn take_turns(a: Place, b: Place, i: usize) -> (place: Place)
    ensures
        place == turn(a, b, i as int),
{
    if i % 2 == 0 {
        a
    } else {
        b
    }
}

/// Adds the commands that take one row through the layers.
pub fn push_layer_commands<C: Copy>(program: &mut Vec<Command<C>>, kinds: &Vec<ResidentLayerKind>, position: usize, a: Place, b: Place)
    ensures
        final(program)@ == old(program)@ + layer_commands::<C>(kinds@, position as int, a, b),
{
    let ghost start = program@;
    let ghost all = layer_commands::<C>(kinds@, position as int, a, b);
    let n: usize = kinds.len();
    assert(all.take(0) =~= Seq::empty());
    assert(start + all.take(0) =~= start);
    let mut i: usize = 0;
    while i < n
        invariant
            i <= n,
            n == kinds@.len(),
            all == layer_commands::<C>(kinds@, position as int, a, b),
            program@ == start + all.take(i as int),
        decreases n - i,
    {
        let from: Spot = Spot { place: take_turns(a, b, i), row: 0 };
        let to: Spot = Spot { place: take_turns(a, b, i + 1), row: 0 };
        program.push(Command::Layer { layer: i, kind: kinds[i], position, from, to });
        assert(all.take(i + 1) =~= all.take(i as int).push(all[i as int]));
        assert(program@ =~= start + all.take(i + 1));
        i = i + 1;
    }
    assert(all.take(n as int) =~= all);
}

/// The parameters of a choice that takes the best token.
pub fn best_choice<K: Kernel>(k: &K) -> (params: SamplingParams<K::Cell>)
    ensures
        functional(*k) ==> params == best_params(*k),
{
    SamplingParams { temperature: constant(k, Constant::Zero), top_p: constant(k, Constant::One), top_k: 0 }
}

fn choose_command<K: Kernel>(k: &K, sample: Option<ResidentSampleSpec<K::Cell>>, from: Spot, to: Slot) -> (command: Command<K::Cell>)
    ensures
        functional(*k) ==> command == choice(*k, sample, from, to),
{
    match sample {
        Some(sample) => {
            if !sample.on_device {
                return Command::ReadBack { from };
            }
            let route: DeviceRoute = if sample.params.top_k == 0 {
                DeviceRoute::Gumbel
            } else {
                DeviceRoute::TopK
            };
            Command::Pick { output: OutputMap::Decoder, route, params: sample.params, random: sample.random, from, to }
        },
        None => {
            let params: SamplingParams<K::Cell> = best_choice(k);
            Command::Pick { output: OutputMap::Decoder, route: DeviceRoute::Argmax, params, random: 0, from, to }
        },
    }
}

impl<K: Kernel> DecoderModel<K> {
    /// What a device is told to do for one token: the row that the token starts from is
    /// handed over or gathered there, goes through the layers in two places that take
    /// turns, is normed, and a token is chosen.
    pub fn enqueue_decode_token_resident(
        &self,
        device: bool,
        cache: &mut ResidentCache<K::Cell>,
        input: ResidentDecodeInput,
        output_index: Option<Slot>,
        pipeline_slot: Option<usize>,
        sample: Option<ResidentSampleSpec<K::Cell>>,
    ) -> (out: Result<TokenProgram<K::Cell>, InferError>)
        requires
            self.fits(old(cache).cache@),
            old(cache).rooms@.len() == self.layers@.len(),
        ensures
            out is Err ==> *final(cache) == *old(cache),
            out is Ok ==> final(cache)@ == moved_on(old(cache)@, 1),
            functional(self.kernel) ==> ({
                let plan = token_plan(*self, device, old(cache)@, input, output_index, pipeline_slot, sample);
                match out {
                    Ok(made) => {
                        &&& plan == Result::<Seq<Command<K::Cell>>, Fault>::Ok(made.program@)
                        &&& match input {
                            ResidentDecodeInput::Host(token) => made.upload matches Some(row) && embed_row(*self, token) == Some(row@),
                            ResidentDecodeInput::Device(_) => made.upload is None,
                        }
                        &&& made.namespace == match pipeline_slot {
                            Some(slot) => pipeline_namespace((old(cache)@.arena->0).namespace, slot)->0,
                            None => (old(cache)@.arena->0).namespace,
                        }
                    },
                    Err(error) => plan == Result::<Seq<Command<K::Cell>>, Fault>::Err(error.fault()),
                }
            }),
    {
        if !device {
            return Err(InferError::Metal("no device"));
        }
        if self.config.rope_theta.is_none() {
            return Err(InferError::Config("no base for the turns"));
        }
        self.check_linear_sizes()?;
        let arena: &ResidentArena = match &cache.arena {
            Some(arena) => arena,
            None => {
                return Err(InferError::Metal("decoder does not stand on the device"));
            },
        };
        let namespace: u64 = match pipeline_slot {
            Some(slot) => {
                let name: u64 = pipeline_scratch_namespace(arena.namespace, slot)?;
                if slot >= arena.pipeline_ring {
                    return Err(InferError::Metal("no hidden rows for the step"));
                }
                name
            },
            None => arena.namespace,
        };
        let (a, b): (Place, Place) = match pipeline_slot {
            Some(slot) => (Place::PipelineA(slot), Place::PipelineB(slot)),
            None => (Place::HiddenA, Place::HiddenB),
        };
        let mut program: Vec<Command<K::Cell>> = Vec::new();
        let upload: Option<Vec<K::Cell>> = match input {
            ResidentDecodeInput::Host(token) => {
                let mut one: Vec<usize> = Vec::new();
                one.push(token);
                let embedded: Result<Tensor<K::Cell>, InferError> = self.embed_scaled(&one);
                proof {
                    lemma_one_embedding(*self, token);
                    assert(one@ =~= seq![token]);
                    if embedded is Ok {
                        (embedded->Ok_0).lemma_rows();
                    }
                }
                let row: Vec<K::Cell> = embedded?.as_row()?;
                Some(row)
            },
            ResidentDecodeInput::Device(token) => {
                program.push(Command::Gather { token, to: Spot { place: a, row: 0 } });
                None
            },
        };
        let kinds: Vec<ResidentLayerKind> = self.resident_layers(arena, cache)?;
        if cache.cache.position == usize::MAX || !cache.can_grow() {
            return Err(InferError::Dimension("no room for another position"));
        }
        let position: usize = cache.cache.position;
        let ghost gathered = program@;
        push_layer_commands(&mut program, &kinds, position, a, b);
        let last: Spot = Spot { place: take_turns(a, b, kinds.len()), row: 0 };
        let normed: Spot = Spot { place: Place::FinalNormed, row: 0 };
        program.push(Command::Norm { weight: NormWeight::Final, from: last, to: normed });
        let output: Slot = match output_index {
            Some(slot) => slot,
            None => Slot { place: TokenPlace::Index, at: 0 },
        };
        program.push(choose_command(&self.kernel, sample, normed, output));
        assert(gathered =~= start_commands::<K::Cell>(input, a));
        cache.grow();
        cache.cache.position = position + 1;
        assert(cache@ =~= moved_on(old(cache)@, 1));
        Ok(TokenProgram { upload, program, namespace })
    }
}

pub proof fn lemma_one_embedding<K: Kernel>(m: DecoderModel<K>, token: usize)
    ensures
        embed_row(m, token) is Some ==> crate::model::embed_rows(m, seq![token]) == Some(seq![embed_row(m, token)->0]),
        embed_row(m, token) is None ==> crate::model::embed_rows(m, seq![token]) is None,
{
    let one = seq![token];
    assert(one[0] == token);
    if embed_row(m, token) is Some {
        assert(crate::model::embed_rows(m, one)->0 =~= seq![embed_row(m, token)->0]);
    } else {
        assert(embed_row(m, one[0]) is None);
    }
}

/// What a device holds once the first `n` layers took a row as far as the decoder would.
pub open spec fn reached<K: Kernel>(m: DecoderModel<K>, mem: Memory<K::Cell>, after: Memory<K::Cell>, position: int, a: Place, b: Place, n: int) -> bool {
    &&& after.rows.contains_key(spot(turn(a, b, n), 0))
    &&& after.layers.len() == mem.layers.len()
    &&& after.layers.skip(n) == mem.layers.skip(n)
    &&& prepend_row(after.layers.take(n), layers_row(m, n, mem.layers.skip(n), after.rows[spot(turn(a, b, n), 0)], position)) == layers_row(
        m,
        0,
        mem.layers,
        mem.rows[spot(a, 0)],
        position,
    )
    &&& after.tokens == mem.tokens
    &&& after.head == mem.head
    &&& after.kept == mem.kept
    &&& after.named == mem.named
    &&& same_elsewhere(mem, after, set![a, b])
}

/// One more layer takes the row one layer further.
#[verifier::spinoff_prover]
proof fn lemma_one_layer_on<K: Kernel>(m: DecoderModel<K>, mem: Memory<K::Cell>, before: Memory<K::Cell>, kind: ResidentLayerKind, position: int, a: Place, b: Place, l: int)
    requires
        a != b,
        0 <= l < m.layers@.len(),
        mem.layers.len() == m.layers@.len(),
        m.layers@.len() <= usize::MAX,
        0 <= position <= usize::MAX,
        reached(m, mem, before, position, a, b, l),
    ensures
        ({
            let command = Command::<K::Cell>::Layer {
                layer: l as usize,
                kind,
                position: position as usize,
                from: spot(turn(a, b, l), 0),
                to: spot(turn(a, b, l + 1), 0),
            };
            match run_one(m, before, command) {
                Some(after) => reached(m, mem, after, position, a, b, l + 1),
                None => layers_row(m, 0, mem.layers, mem.rows[spot(a, 0)], position) is None,
            }
        }),
{
    let start = mem.layers;
    let from = spot(turn(a, b, l), 0);
    let to = spot(turn(a, b, l + 1), 0);
    let row = before.rows[from];
    assert(before.layers[l] == before.layers.skip(l)[0]);
    assert(start.skip(l)[0] == start[l]);
    let one = layer_row(m.kernel, m.config, m.layers@[l], start[l], row, position);
    if one is Some {
        let (view, y) = one->0;
        lemma_advance_row(m, l, start, before.layers.take(l), row, position, view, y);
        let command = Command::<K::Cell>::Layer { layer: l as usize, kind, position: position as usize, from, to };
        let after = run_one(m, before, command)->0;
        assert(after.layers =~= before.layers.update(l, view));
        assert(after.layers.take(l + 1) =~= before.layers.take(l).push(view));
        let left = after.layers.skip(l + 1);
        let rest = start.skip(l + 1);
        assert forall|i: int| 0 <= i < left.len() implies #[trigger] left[i] == rest[i] by {
            assert(left[i] == before.layers[l + 1 + i]);
            assert(before.layers[l + 1 + i] == before.layers.skip(l)[i + 1]);
            assert(start.skip(l)[i + 1] == start[l + 1 + i]);
        }
        assert(after.layers.skip(l + 1) =~= start.skip(l + 1));
        assert(after.rows[to] == y);
        lemma_elsewhere(mem, before, after, set![a, b], to, y);
    }
}

/// The first layers of a program take a row as far as the decoder would.
#[verifier::spinoff_prover]
pub proof fn lemma_layers_program<K: Kernel>(
    m: DecoderModel<K>,
    mem: Memory<K::Cell>,
    kinds: Seq<ResidentLayerKind>,
    position: int,
    a: Place,
    b: Place,
    n: int,
)
    requires
        a != b,
        0 <= n <= kinds.len(),
        kinds.len() == m.layers@.len(),
        mem.layers.len() == m.layers@.len(),
        m.layers@.len() <= usize::MAX,
        0 <= position <= usize::MAX,
        mem.rows.contains_key(spot(a, 0)),
    ensures
        match run(m, mem, layer_commands::<K::Cell>(kinds, position, a, b).take(n)) {
            Some(after) => reached(m, mem, after, position, a, b, n),
            None => layers_row(m, 0, mem.layers, mem.rows[spot(a, 0)], position) is None,
        },
    decreases n,
{
    let all = layer_commands::<K::Cell>(kinds, position, a, b);
    let start = mem.layers;
    if n == 0 {
        let whole = layers_row(m, 0, start, mem.rows[spot(a, 0)], position);
        assert(all.take(0) =~= Seq::empty());
        assert(start.skip(0) =~= start);
        lemma_elsewhere_start(mem, set![a, b]);
        if whole is Some {
            assert(start.take(0) + (whole->0).0 =~= (whole->0).0);
        }
    } else {
        lemma_layers_program(m, mem, kinds, position, a, b, n - 1);
        assert(all.take(n).drop_last() =~= all.take(n - 1));
        assert(all.take(n).last() == all[n - 1]);
        if run(m, mem, all.take(n - 1)) is Some {
            lemma_one_layer_on(m, mem, run(m, mem, all.take(n - 1))->0, kinds[n - 1], position, a, b, n - 1);
        }
    }
}

/// What is chosen from a state: a token, or the logits handed back.
pub enum Outcome<C> {
    Token(usize),
    Logits(Seq<C>),
}

pub open spec fn outcome<K: Kernel>(m: DecoderModel<K>, sample: Option<ResidentSampleSpec<K::Cell>>, state: Seq<K::Cell>) -> Option<Outcome<K::Cell>> {
    let from = |route: DeviceRoute, params: SamplingParams<K::Cell>, random: u64|
        match device_token_of(m.kernel, route, m.lm_head.weight, state, params, random) {
            Some(token) => Some(Outcome::<K::Cell>::Token(token)),
            None => None,
        };
    match sample {
        None => from(DeviceRoute::Argmax, best_params(m.kernel), 0),
        Some(sample) => if !sample.on_device {
            match linear_row(m.kernel, m.lm_head, state) {
                Some(logits) => Some(Outcome::Logits(logits)),
                None => None,
            }
        } else if sample.params.top_k == 0 {
            from(DeviceRoute::Gumbel, sample.params, sample.random)
        } else {
            from(DeviceRoute::TopK, sample.params, sample.random)
        },
    }
}

/// What a device holds once a state was reached and something was chosen from it.
pub open spec fn left_behind<K: Kernel>(
    left: Memory<K::Cell>,
    layers: Seq<LayerView<K::Cell>>,
    state: Seq<K::Cell>,
    output: Slot,
    outcome: Outcome<K::Cell>,
) -> bool {
    &&& left.layers == layers
    &&& left.rows.contains_key(spot(Place::FinalNormed, 0))
    &&& left.rows[spot(Place::FinalNormed, 0)] == state
    &&& match outcome {
        Outcome::Token(token) => left.tokens.contains_key(output) && left.tokens[output] == token,
        Outcome::Logits(logits) => left.logits == Some(logits),
    }
}

/// The device holds the row that a token starts from, or the token.
pub open spec fn input_ready<K: Kernel>(m: DecoderModel<K>, mem: Memory<K::Cell>, input: ResidentDecodeInput, token: usize, at: Spot) -> bool {
    match input {
        ResidentDecodeInput::Host(given) => given == token && mem.rows.contains_key(at) && mem.rows[at] == embed_row(m, token)->0,
        ResidentDecodeInput::Device(slot) => mem.tokens.contains_key(slot) && mem.tokens[slot] == token,
    }
}

/// The row of a token through the layers.
proof fn lemma_token_layers<K: Kernel>(
    m: DecoderModel<K>,
    mem: Memory<K::Cell>,
    cache: CacheView<K::Cell>,
    kinds: Seq<ResidentLayerKind>,
    token: usize,
    input: ResidentDecodeInput,
    a: Place,
    b: Place,
)
    requires
        a != b,
        m.fits(cache),
        kinds.len() == m.layers@.len(),
        m.layers@.len() <= usize::MAX,
        0 <= cache.position < usize::MAX,
        mem.layers == cache.layers,
        embed_row(m, token) is Some,
        input_ready(m, mem, input, token, spot(a, 0)),
    ensures
        ({
            let body = layer_commands::<K::Cell>(kinds, cache.position, a, b);
            let last = spot(turn(a, b, kinds.len() as int), 0);
            match run(m, mem, start_commands(input, a) + body) {
                Some(after) => after.rows.contains_key(last) && layers_row(m, 0, cache.layers, embed_row(m, token)->0, cache.position) == Some(
                    (after.layers, after.rows[last]),
                ),
                None => layers_row(m, 0, cache.layers, embed_row(m, token)->0, cache.position) is None,
            }
        }),
{
    let n = kinds.len() as int;
    let first = start_commands::<K::Cell>(input, a);
    let body = layer_commands::<K::Cell>(kinds, cache.position, a, b);
    let started = match input {
        ResidentDecodeInput::Host(_) => mem,
        ResidentDecodeInput::Device(_) => mem.with_row(spot(a, 0), embed_row(m, token)->0),
    };
    assert(run(m, mem, first) == Some(started)) by {
        match input {
            ResidentDecodeInput::Host(_) => {},
            ResidentDecodeInput::Device(at) => {
                assert(first.drop_last() =~= Seq::empty());
                assert(run(m, mem, Seq::empty()) == Some(mem));
            },
        }
    }
    law_run_concat(m, mem, first, body);
    lemma_layers_program(m, started, kinds, cache.position, a, b, n);
    assert(body.take(n) =~= body);
    let none = started.layers.skip(n);
    assert(none.len() == 0);
    if run(m, started, body) is Some {
        let after = run(m, started, body)->0;
        assert(after.layers.take(n) =~= after.layers);
        assert(after.layers + none =~= after.layers);
    }
}

/// The row behind the last layer becomes the state.
#[verifier::spinoff_prover]
proof fn lemma_state_made<K: Kernel>(m: DecoderModel<K>, mem: Memory<K::Cell>, last: Spot)
    requires
        mem.rows.contains_key(last),
    ensures
        ({
            let normed = spot(Place::FinalNormed, 0);
            let state = norm_of(m.kernel, mem.rows[last], m.final_norm, m.config.rms_eps);
            match run_one(m, mem, Command::<K::Cell>::Norm { weight: NormWeight::Final, from: last, to: normed }) {
                Some(after) => state is Some && after.rows.contains_key(normed) && after.rows[normed] == state->0 && after.layers == mem.layers,
                None => state is None,
            }
        }),
{
}

/// What is chosen from the state is left on the device.
#[verifier::spinoff_prover]
proof fn lemma_choice_made<K: Kernel>(m: DecoderModel<K>, mem: Memory<K::Cell>, output: Slot, sample: Option<ResidentSampleSpec<K::Cell>>)
    requires
        mem.rows.contains_key(spot(Place::FinalNormed, 0)),
    ensures
        ({
            let normed = spot(Place::FinalNormed, 0);
            let state = mem.rows[normed];
            let left = run_one(m, mem, choice(m.kernel, sample, normed, output));
            match outcome(m, sample, state) {
                Some(made) => left is Some && left_behind::<K>(left->0, mem.layers, state, output, made),
                None => left is None,
            }
        }),
{
    match sample {
        None => {},
        Some(drawn) => {
            if !drawn.on_device {
            } else if drawn.params.top_k == 0 {
            } else {
            }
        },
    }
}

/// The program of a token leaves on the device what the decoder would have made of the
/// token: its layers have seen it, its state stands where the states stand, and the token
/// that follows was chosen from that state. Where the decoder refuses the token, the
/// program does not run through.
#[verifier::spinoff_prover]
pub proof fn law_token_program<K: Kernel>(
    m: DecoderModel<K>,
    mem: Memory<K::Cell>,
    cache: CacheView<K::Cell>,
    kinds: Seq<ResidentLayerKind>,
    token: usize,
    input: ResidentDecodeInput,
    output: Slot,
    slot: Option<usize>,
    sample: Option<ResidentSampleSpec<K::Cell>>,
)
    requires
        m.fits(cache),
        kinds.len() == m.layers@.len(),
        m.layers@.len() <= usize::MAX,
        0 <= cache.position < usize::MAX,
        mem.layers == cache.layers,
        embed_row(m, token) is Some,
        input_ready(m, mem, input, token, spot(hidden_places(slot).0, 0)),
    ensures
        ({
            let ran = run(m, mem, token_program(m.kernel, kinds, cache.position, input, output, slot, sample));
            match step(m, cache, token) {
                Some((after, state)) => match outcome(m, sample, state) {
                    Some(made) => ran matches Some(left) && left_behind::<K>(left, after.layers, state, output, made),
                    None => ran is None,
                },
                None => ran is None,
            }
        }),
{
    let (a, b) = hidden_places(slot);
    lemma_token_layers(m, mem, cache, kinds, token, input, a, b);
    let through = start_commands(input, a) + layer_commands::<K::Cell>(kinds, cache.position, a, b);
    let normed = spot(Place::FinalNormed, 0);
    let last = spot(turn(a, b, kinds.len() as int), 0);
    let norm = Command::<K::Cell>::Norm { weight: NormWeight::Final, from: last, to: normed };
    lemma_run_push(m, mem, through, norm);
    lemma_run_push(m, mem, through.push(norm), choice(m.kernel, sample, normed, output));
    if run(m, mem, through) is Some {
        let behind = run(m, mem, through)->0;
        lemma_state_made(m, behind, last);
        if run_one(m, behind, norm) is Some {
            lemma_choice_made(m, run_one(m, behind, norm)->0, output, sample);
        }
    }
}

impl<K: Kernel> DecoderModel<K> {
    /// What a device is told to do for one token that the host knows, where the best token
    /// is to follow.
    pub fn decode_token_resident(&self, device: bool, cache: &mut ResidentCache<K::Cell>, token: usize) -> (out: Result<TokenProgram<K::Cell>, InferError>)
        requires
            self.fits(old(cache).cache@),
            old(cache).rooms@.len() == self.layers@.len(),
        ensures
            out is Err ==> *final(cache) == *old(cache),
            out is Ok ==> final(cache)@ == moved_on(old(cache)@, 1),
            functional(self.kernel) ==> ({
                let plan = token_plan(*self, device, old(cache)@, ResidentDecodeInput::Host(token), None, None, None);
                match out {
                    Ok(made) => {
                        &&& plan == Result::<Seq<Command<K::Cell>>, Fault>::Ok(made.program@)
                        &&& made.upload matches Some(row) && embed_row(*self, token) == Some(row@)
                        &&& made.namespace == (old(cache)@.arena->0).namespace
                    },
                    Err(error) => plan == Result::<Seq<Command<K::Cell>>, Fault>::Err(error.fault()),
                }
            }),
    {
        self.enqueue_decode_token_resident(device, cache, ResidentDecodeInput::Host(token), None, None, None)
    }

    /// What a device is told to do for one token that the host knows, where a token is to
    /// be drawn behind it. Refused where the options make no draw.
    pub fn decode_token_resident_sampled(&self, device: bool, cache: &mut ResidentCache<K::Cell>, token: usize, options: &GenerationOptions<K::Cell>, sampler: &TokenSampler) -> (out: Result<
        TokenProgram<K::Cell>,
        InferError,
    >)
        requires
            self.fits(old(cache).cache@),
            old(cache).rooms@.len() == self.layers@.len(),
        ensures
            out is Err ==> *final(cache) == *old(cache),
            out is Ok ==> final(cache)@ == moved_on(old(cache)@, 1),
            functional(self.kernel) ==> if !drawable(*self, *options) {
                out matches Err(error) && error is Config
            } else {
                let sample = sample_spec(*options, sampler@.random, drawable_on_device(*self, *options));
                let plan = token_plan(*self, device, old(cache)@, ResidentDecodeInput::Host(token), None, None, Some(sample));
                match out {
                    Ok(made) => {
                        &&& plan == Result::<Seq<Command<K::Cell>>, Fault>::Ok(made.program@)
                        &&& made.upload matches Some(row) && embed_row(*self, token) == Some(row@)
                        &&& made.namespace == (old(cache)@.arena->0).namespace
                    },
                    Err(error) => plan == Result::<Seq<Command<K::Cell>>, Fault>::Err(error.fault()),
                }
            },
    {
        let sample: ResidentSampleSpec<K::Cell> = self.resident_sample_spec_for_solo(options, sampler.random)?;
        self.enqueue_decode_token_resident(device, cache, ResidentDecodeInput::Host(token), None, None, Some(sample))
    }

    /// The token drawn from logits that a device handed back.
    pub fn draw_from_readback(&self, logits: Vec<K::Cell>, options: &GenerationOptions<K::Cell>, sampler: &mut TokenSampler) -> (token: Result<usize, InferError>)
        ensures
            final(sampler)@.accepted == old(sampler)@.accepted,
            token matches Err(error) ==> fails_with(self.kernel, error),
            functional(self.kernel) ==> ({
                let made = crate::sampling::chosen(self.kernel, crate::sampling::finalized(*self, logits@), *options, old(sampler)@);
                match token {
                    Ok(token) => made == Some((token, final(sampler)@)),
                    Err(_) => made is None,
                }
            }),
    {
        let ghost given = logits@;
        let row: Tensor<K::Cell> = Tensor::row(logits);
        proof {
            row.lemma_rows();
            assert(row.rows().last() == given);
        }
        let capped: Vec<K::Cell> = self.finalize_logits(&row)?;
        self.choose_token(&capped, options, sampler)
    }

    /// The sampler behind a token that was drawn on a device.
    pub fn sampled_on_device(&self, sampler: &mut TokenSampler)
        ensures
            final(sampler)@.accepted == old(sampler)@.accepted,
            functional(self.kernel) ==> final(sampler)@ == (SamplerView { random: advance_of(self.kernel, old(sampler)@.random), ..old(sampler)@ }),
    {
        sampler.random = advance(&self.kernel, sampler.random);
        assert(functional(self.kernel) ==> sampler@ =~= (SamplerView { random: advance_of(self.kernel, old(sampler)@.random), ..old(sampler)@ }));
    }
}

/// The program of a row that the host hands over: through the layers and normed, and
/// then the best token of the head that the host named, where it named one.
pub open spec fn row_program<K: Kernel>(k: K, kinds: Seq<ResidentLayerKind>, position: int, named: bool) -> Seq<Command<K::Cell>> {
    let last = spot(turn(Place::HiddenA, Place::HiddenB, kinds.len() as int), 0);
    let normed = spot(Place::FinalNormed, 0);
    let state = layer_commands(kinds, position, Place::HiddenA, Place::HiddenB).push(
        Command::Norm { weight: NormWeight::Final, from: last, to: normed },
    );
    if named {
        state.push(
            Command::Pick {
                output: OutputMap::Named,
                route: DeviceRoute::Argmax,
                params: best_params(k),
                random: 0,
                from: normed,
                to: output_slot(None),
            },
        )
    } else {
        state
    }
}

/// The program of a row that the host hands over, or why there is none; nothing where the
/// decoder does not stand on a device.
pub open spec fn row_plan<K: Kernel>(m: DecoderModel<K>, device: bool, at: ResidentView<K::Cell>, shape: Seq<usize>, named: bool) -> Result<Option<Seq<Command<K::Cell>>>, Fault> {
    if !device {
        Ok(None)
    } else if shape.len() != 2 || shape[0] != 1 || shape[1] != m.hidden() {
        Err(Fault::Dimension)
    } else if m.config.rope_theta is None {
        Err(Fault::Config)
    } else if linear_fault(m) is Some {
        Err(linear_fault(m)->0)
    } else if at.arena is None {
        Ok(None)
    } else {
        match all_stand(m, (at.arena->0).kinds, at.rooms, at.cache, m.layers@.len() as int) {
            Ok(kinds) => if at.cache.position >= usize::MAX || !has_room(at.rooms) {
                Err(Fault::Dimension)
            } else {
                Ok(Some(row_program(m.kernel, kinds, at.cache.position, named)))
            },
            Err(fault) => Err(fault),
        }
    }
}

impl<K: Kernel> DecoderModel<K> {
    /// What a device is told to do for a row that the host hands over; nothing where the
    /// decoder does not stand on a device.
    pub fn next_resident_embedding_step(&self, device: bool, cache: &mut ResidentCache<K::Cell>, embedding: &Tensor<K::Cell>, named: bool) -> (out: Result<
        Option<Vec<Command<K::Cell>>>,
        InferError,
    >)
        requires
            self.fits(old(cache).cache@),
            old(cache).rooms@.len() == self.layers@.len(),
            embedding.shape@.len() == 2 ==> embedding.is_matrix(),
        ensures
            !(out matches Ok(Some(_))) ==> *final(cache) == *old(cache),
            out matches Ok(Some(_)) ==> final(cache)@ == moved_on(old(cache)@, 1),
            functional(self.kernel) ==> ({
                let plan = row_plan(*self, device, old(cache)@, embedding.shape@, named);
                match out {
                    Ok(Some(program)) => plan == Result::<Option<Seq<Command<K::Cell>>>, Fault>::Ok(Some(program@)),
                    Ok(None) => plan == Result::<Option<Seq<Command<K::Cell>>>, Fault>::Ok(None),
                    Err(error) => plan == Result::<Option<Seq<Command<K::Cell>>>, Fault>::Err(error.fault()),
                }
            }),
    {
        if !device {
            return Ok(None);
        }
        let hidden: usize = self.final_norm.data.len();
        let (rows, cols): (usize, usize) = embedding.as_matrix()?;
        if rows != 1 || cols != hidden {
            return Err(InferError::Dimension("one row of the hidden size expected"));
        }
        if self.config.rope_theta.is_none() {
            return Err(InferError::Config("no base for the turns"));
        }
        self.check_linear_sizes()?;
        let arena: &ResidentArena = match &cache.arena {
            Some(arena) => arena,
            None => {
                return Ok(None);
            },
        };
        let kinds: Vec<ResidentLayerKind> = self.resident_layers(arena, cache)?;
        if cache.cache.position == usize::MAX || !cache.can_grow() {
            return Err(InferError::Dimension("no room for another position"));
        }
        let position: usize = cache.cache.position;
        let mut program: Vec<Command<K::Cell>> = Vec::new();
        push_layer_commands(&mut program, &kinds, position, Place::HiddenA, Place::HiddenB);
        assert(program@ =~= layer_commands::<K::Cell>(kinds@, position as int, Place::HiddenA, Place::HiddenB));
        let last: Spot = Spot { place: take_turns(Place::HiddenA, Place::HiddenB, kinds.len()), row: 0 };
        let normed: Spot = Spot { place: Place::FinalNormed, row: 0 };
        program.push(Command::Norm { weight: NormWeight::Final, from: last, to: normed });
        if named {
            let params: SamplingParams<K::Cell> = best_choice(&self.kernel);
            program.push(
                Command::Pick {
                    output: OutputMap::Named,
                    route: DeviceRoute::Argmax,
                    params,
                    random: 0,
                    from: normed,
                    to: Slot { place: TokenPlace::Index, at: 0 },
                },
            );
        }
        cache.grow();
        cache.cache.position = position + 1;
        assert(cache@ =~= moved_on(old(cache)@, 1));
        Ok(Some(program))
    }
}

} // verus!
