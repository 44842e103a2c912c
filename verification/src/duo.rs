//! Two streams that go through a decoder on a device together: the weights are read once
//! for both, and each stream sees only what it has seen itself.

use vstd::prelude::*;
use crate::device::ResidentLayerKind;
use crate::error::{Fault, InferError};
use crate::kernel::{device_token_of, functional, DeviceRoute, Kernel, SamplingParams};
use crate::kv::LayerView;
use crate::layer::{layer_row, norm_of, AttentionBlock};
use crate::model::{embed_row, embed_rows, layers_row, lemma_advance_row, prepend_row, step, CacheView, DecoderModel};
use crate::resident::{has_room, ResidentArena, ResidentCache};
use crate::resident_decode::{best_choice, best_params, linear_fault, moved_on, ResidentSampleSpec, ResidentView};
use crate::tensor::Tensor;

verus! {

/// How a stream's token is chosen.
#[derive(Clone, Copy, Debug)]
pub struct DuoChoice<C> {
    pub route: DeviceRoute,
    pub params: SamplingParams<C>,
    pub random: u64,
}

/// What a device is told to do for two streams.
#[derive(Clone, Copy, Debug)]
pub enum DuoCommand<C> {
    /// A row of each stream through a layer.
    Layer { layer: usize, kind: ResidentLayerKind, first_at: usize, second_at: usize },
    Norm,
    /// A token of each stream.
    Pick { first: DuoChoice<C>, second: DuoChoice<C> },
}

/// One of the streams on the device.
#[verifier::ext_equal]
pub struct Stream<C> {
    pub layers: Seq<LayerView<C>>,
    pub row: Seq<C>,
    pub token: Option<usize>,
}

/// A row of a stream through a layer.
pub open spec fn stream_layer<K: Kernel>(m: DecoderModel<K>, stream: Stream<K::Cell>, layer: int, position: int) -> Option<Stream<K::Cell>> {
    if layer >= stream.layers.len() {
        None
    } else {
        match layer_row(m.kernel, m.config, m.layers@[layer], stream.layers[layer], stream.row, position) {
            Some((after, row)) => Some(Stream { layers: stream.layers.update(layer, after), row, token: stream.token }),
            None => None,
        }
    }
}

/// What a command makes of one of the streams; `second` says which.
pub open spec fn stream_one<K: Kernel>(m: DecoderModel<K>, stream: Stream<K::Cell>, command: DuoCommand<K::Cell>, second: bool) -> Option<Stream<K::Cell>> {
    match command {
        DuoCommand::Layer { layer, kind: _, first_at, second_at } => stream_layer(
            m,
            stream,
            layer as int,
            if second {
                second_at as int
            } else {
                first_at as int
            },
        ),
        DuoCommand::Norm => match norm_of(m.kernel, stream.row, m.final_norm, m.config.rms_eps) {
            Some(row) => Some(Stream { row, ..stream }),
            None => None,
        },
        DuoCommand::Pick { first, second: other } => {
            let choice = if second {
                other
            } else {
                first
            };
            match device_token_of(m.kernel, choice.route, m.lm_head.weight, stream.row, choice.params, choice.random) {
                Some(token) => Some(Stream { token: Some(token), ..stream }),
                None => None,
            }
        },
    }
}

/// What a program makes of one of the streams.
pub open spec fn stream_run<K: Kernel>(m: DecoderModel<K>, stream: Stream<K::Cell>, program: Seq<DuoCommand<K::Cell>>, second: bool) -> Option<Stream<K::Cell>>
    decreases program.len(),
{
    if program.len() == 0 {
        Some(stream)
    } else {
        match stream_run(m, stream, program.drop_last(), second) {
            Some(before) => stream_one(m, before, program.last(), second),
            None => None,
        }
    }
}

/// How a token is chosen: the best one, or drawn.
pub open spec fn duo_choice<K: Kernel>(k: K, sample: Option<ResidentSampleSpec<K::Cell>>) -> DuoChoice<K::Cell> {
    match sample {
        None => DuoChoice { route: DeviceRoute::Argmax, params: best_params(k), random: 0 },
        Some(sample) => DuoChoice {
            route: if sample.params.top_k == 0 {
                DeviceRoute::Gumbel
            } else {
                DeviceRoute::TopK
            },
            params: sample.params,
            random: sample.random,
        },
    }
}

pub open spec fn duo_layers<C>(kinds: Seq<ResidentLayerKind>, positions: (usize, usize)) -> Seq<DuoCommand<C>> {
    Seq::new(kinds.len(), |i: int| DuoCommand::Layer { layer: i as usize, kind: kinds[i], first_at: positions.0, second_at: positions.1 })
}

/// The program of one token of each stream.
pub open spec fn duo_program<K: Kernel>(
    k: K,
    kinds: Seq<ResidentLayerKind>,
    positions: (usize, usize),
    samples: (Option<ResidentSampleSpec<K::Cell>>, Option<ResidentSampleSpec<K::Cell>>),
) -> Seq<DuoCommand<K::Cell>> {
    duo_layers(kinds, positions).push(DuoCommand::Norm).push(
        DuoCommand::Pick { first: duo_choice(k, samples.0), second: duo_choice(k, samples.1) },
    )
}

/// The first layers take a stream's row as far as the decoder would.
#[verifier::spinoff_prover]
proof fn lemma_stream_layers<K: Kernel>(m: DecoderModel<K>, stream: Stream<K::Cell>, kinds: Seq<ResidentLayerKind>, positions: (usize, usize), second: bool, n: int)
    requires
        0 <= n <= kinds.len(),
        kinds.len() == m.layers@.len(),
        stream.layers.len() == m.layers@.len(),
        m.layers@.len() <= usize::MAX,
    ensures
        ({
            let position = if second {
                positions.1 as int
            } else {
                positions.0 as int
            };
            let program = duo_layers::<K::Cell>(kinds, positions).take(n);
            let whole = layers_row(m, 0, stream.layers, stream.row, position);
            match stream_run(m, stream, program, second) {
                Some(after) => {
                    &&& after.layers.len() == stream.layers.len()
                    &&& after.layers.skip(n) == stream.layers.skip(n)
                    &&& prepend_row(after.layers.take(n), layers_row(m, n, stream.layers.skip(n), after.row, position)) == whole
                },
                None => whole is None,
            }
        }),
    decreases n,
{
    let position = if second {
        positions.1 as int
    } else {
        positions.0 as int
    };
    let all = duo_layers::<K::Cell>(kinds, positions);
    let start = stream.layers;
    let whole = layers_row(m, 0, start, stream.row, position);
    if n == 0 {
        assert(all.take(0) =~= Seq::empty());
        assert(start.skip(0) =~= start);
        if whole is Some {
            assert(start.take(0) + (whole->0).0 =~= (whole->0).0);
        }
    } else {
        lemma_stream_layers(m, stream, kinds, positions, second, n - 1);
        assert(all.take(n).drop_last() =~= all.take(n - 1));
        assert(all.take(n).last() == all[n - 1]);
        if stream_run(m, stream, all.take(n - 1), second) is Some {
            let before = stream_run(m, stream, all.take(n - 1), second)->0;
            assert(before.layers[n - 1] == before.layers.skip(n - 1)[0]);
            assert(start.skip(n - 1)[0] == start[n - 1]);
            let after = stream_layer(m, before, n - 1, position);
            assert(stream_run(m, stream, all.take(n), second) == after);
            lemma_stream_on(m, start, before, position, n - 1);
        }
    }
}

/// One more layer.
proof fn lemma_stream_on<K: Kernel>(m: DecoderModel<K>, start: Seq<LayerView<K::Cell>>, before: Stream<K::Cell>, position: int, l: int)
    requires
        0 <= l < start.len(),
        before.layers.len() == start.len(),
        before.layers.skip(l) == start.skip(l),
        before.layers[l] == start[l],
    ensures
        ({
            let reached = prepend_row(before.layers.take(l), layers_row(m, l, start.skip(l), before.row, position));
            match stream_layer(m, before, l, position) {
                Some(after) => {
                    &&& after.layers.len() == start.len()
                    &&& after.layers.skip(l + 1) == start.skip(l + 1)
                    &&& prepend_row(after.layers.take(l + 1), layers_row(m, l + 1, start.skip(l + 1), after.row, position)) == reached
                },
                None => reached is None,
            }
        }),
{
    assert(start.skip(l)[0] == start[l]);
    let one = layer_row(m.kernel, m.config, m.layers@[l], start[l], before.row, position);
    if one is Some {
        let (view, y) = one->0;
        lemma_advance_row(m, l, start, before.layers.take(l), before.row, position, view, y);
        let after = Stream { layers: before.layers.update(l, view), row: y, token: before.token };
        assert(stream_layer(m, before, l, position) == Some(after));
        assert(after.layers.take(l + 1) =~= before.layers.take(l).push(view));
        let rest = start.skip(l + 1);
        let left = after.layers.skip(l + 1);
        assert forall|i: int| 0 <= i < left.len() implies #[trigger] left[i] == rest[i] by {
            assert(after.layers.skip(l + 1)[i] == before.layers[l + 1 + i]);
            assert(before.layers[l + 1 + i] == before.layers.skip(l)[i + 1]);
            assert(start.skip(l)[i + 1] == start[l + 1 + i]);
        }
        assert(after.layers.skip(l + 1) =~= start.skip(l + 1));
    }
}

/// Each of two streams that go together gets what it would get alone: its layers have seen
/// its token, and its next token is chosen from its own state.
#[verifier::spinoff_prover]
pub proof fn law_duo_is_solo<K: Kernel>(
    m: DecoderModel<K>,
    cache: CacheView<K::Cell>,
    token: usize,
    kinds: Seq<ResidentLayerKind>,
    positions: (usize, usize),
    samples: (Option<ResidentSampleSpec<K::Cell>>, Option<ResidentSampleSpec<K::Cell>>),
    second: bool,
)
    requires
        m.fits(cache),
        kinds.len() == m.layers@.len(),
        m.layers@.len() <= usize::MAX,
        cache.position < usize::MAX,
        cache.position == if second {
            positions.1
        } else {
            positions.0
        },
        embed_row(m, token) is Some,
    ensures
        ({
            let stream = Stream { layers: cache.layers, row: embed_row(m, token)->0, token: None };
            let choice = duo_choice(
                m.kernel,
                if second {
                    samples.1
                } else {
                    samples.0
                },
            );
            let ran = stream_run(m, stream, duo_program(m.kernel, kinds, positions, samples), second);
            match step(m, cache, token) {
                Some((after, state)) => match device_token_of(m.kernel, choice.route, m.lm_head.weight, state, choice.params, choice.random) {
                    Some(next) => ran == Some(Stream { layers: after.layers, row: state, token: Some(next) }),
                    None => ran is None,
                },
                None => ran is None,
            }
        }),
{
    let n = kinds.len() as int;
    let stream = Stream { layers: cache.layers, row: embed_row(m, token)->0, token: None };
    let body = duo_layers::<K::Cell>(kinds, positions);
    let norm = DuoCommand::<K::Cell>::Norm;
    let pick = DuoCommand::Pick { first: duo_choice(m.kernel, samples.0), second: duo_choice(m.kernel, samples.1) };
    lemma_stream_layers(m, stream, kinds, positions, second, n);
    lemma_stream_token(m, stream, kinds, positions, second, n);
    assert(body.take(n) =~= body);
    assert(body.push(norm).drop_last() =~= body);
    assert(body.push(norm).push(pick).drop_last() =~= body.push(norm));
    let none = cache.layers.skip(n);
    assert(none.len() == 0);
    if stream_run(m, stream, body, second) is Some {
        let after = stream_run(m, stream, body, second)->0;
        assert(after.layers.take(n) =~= after.layers);
        assert(after.layers + none =~= after.layers);
        assert(layers_row(m, 0, cache.layers, stream.row, cache.position) == Some((after.layers, after.row)));
        let state = norm_of(m.kernel, after.row, m.final_norm, m.config.rms_eps);
        if state is Some {
            let normed = Stream { layers: after.layers, row: state->0, token: None };
            assert(stream_one(m, after, norm, second) == Some(normed));
            assert(stream_run(m, stream, body.push(norm), second) == Some(normed));
        } else {
            assert(stream_run(m, stream, body.push(norm), second) is None);
        }
    } else {
        assert(stream_run(m, stream, body.push(norm), second) is None);
    }
}

/// No token is chosen in the layers.
#[verifier::spinoff_prover]
proof fn lemma_stream_token<K: Kernel>(m: DecoderModel<K>, stream: Stream<K::Cell>, kinds: Seq<ResidentLayerKind>, positions: (usize, usize), second: bool, n: int)
    requires
        0 <= n <= kinds.len(),
    ensures
        stream_run(m, stream, duo_layers::<K::Cell>(kinds, positions).take(n), second) matches Some(after) ==> after.token == stream.token,
    decreases n,
{
    let all = duo_layers::<K::Cell>(kinds, positions);
    if n > 0 {
        lemma_stream_token(m, stream, kinds, positions, second, n - 1);
        assert(all.take(n).drop_last() =~= all.take(n - 1));
        assert(all.take(n).last() == all[n - 1]);
    }
}

/// What a device says of the maps of a decoder: which of them it can take for two rows at
/// once.
pub struct DuoFacts {
    pub present: bool,
    pub lm_head: bool,
    pub layers: Vec<bool>,
}

/// A layer can be taken for two streams at once.
pub open spec fn layer_duo<K: Kernel>(m: DecoderModel<K>, at: ResidentView<K::Cell>, facts: DuoFacts, i: int) -> bool {
    let arena = at.arena->0;
    &&& i < facts.layers@.len() && facts.layers@[i]
    &&& match arena.kinds[i] {
        ResidentLayerKind::FullMoe => m.config.full_attention_at(i) && i < arena.joined.len() && arena.joined[i],
        ResidentLayerKind::LinearMoe => i < m.layers@.len() && m.layers@[i].attention is Linear,
        _ => false,
    }
}

/// Two streams can go through the decoder together.
pub open spec fn can_duo<K: Kernel>(m: DecoderModel<K>, at: ResidentView<K::Cell>, facts: DuoFacts) -> bool {
    &&& facts.present
    &&& at.arena is Some
    &&& m.config.attn_output_gate
    &&& m.config.head_dim is Some
    &&& m.hidden() % 512 == 0
    &&& facts.lm_head
    &&& forall|i: int| 0 <= i < (at.arena->0).kinds.len() ==> #[trigger] layer_duo(m, at, facts, i)
}

/// Why a layer cannot be taken for two streams.
pub open spec fn duo_layer_fault<K: Kernel>(m: DecoderModel<K>, kinds: Seq<ResidentLayerKind>, first: ResidentView<K::Cell>, second: ResidentView<K::Cell>, i: int) -> Option<Fault> {
    let kind = if i < kinds.len() {
        kinds[i]
    } else {
        ResidentLayerKind::Other
    };
    if m.config.full_attention_at(i) {
        if kind != ResidentLayerKind::FullMoe {
            Some(Fault::Config)
        } else if first.rooms[i] is None || second.rooms[i] is None {
            Some(Fault::Metal)
        } else {
            None
        }
    } else if kind != ResidentLayerKind::LinearMoe {
        Some(Fault::Config)
    } else if first.cache.layers[i].recurrent.len() == 0 || second.cache.layers[i].recurrent.len() == 0 {
        Some(Fault::Metal)
    } else {
        None
    }
}

/// Why the first layers cannot be taken for two streams.
pub open spec fn duo_fault<K: Kernel>(m: DecoderModel<K>, kinds: Seq<ResidentLayerKind>, first: ResidentView<K::Cell>, second: ResidentView<K::Cell>, n: int) -> Option<Fault>
    decreases n,
{
    if n <= 0 {
        None
    } else {
        match duo_fault(m, kinds, first, second, n - 1) {
            Some(fault) => Some(fault),
            None => duo_layer_fault(m, kinds, first, second, n - 1),
        }
    }
}

/// The kinds of the layers, where they are all there.
pub open spec fn duo_kinds<K: Kernel>(m: DecoderModel<K>) -> Seq<ResidentLayerKind> {
    Seq::new(
        m.layers@.len(),
        |i: int|
            if m.config.full_attention_at(i) {
                ResidentLayerKind::FullMoe
            } else {
                ResidentLayerKind::LinearMoe
            },
    )
}

/// The program of one token of each stream, or why there is none.
pub open spec fn duo_plan<K: Kernel>(
    m: DecoderModel<K>,
    device: bool,
    first: ResidentView<K::Cell>,
    second: ResidentView<K::Cell>,
    tokens: (usize, usize),
    samples: (Option<ResidentSampleSpec<K::Cell>>, Option<ResidentSampleSpec<K::Cell>>),
) -> Result<Seq<DuoCommand<K::Cell>>, Fault> {
    if !device {
        Err(Fault::Metal)
    } else if m.config.rope_theta is None {
        Err(Fault::Config)
    } else if linear_fault(m) is Some {
        Err(linear_fault(m)->0)
    } else if first.arena is None || second.arena is None {
        Err(Fault::Metal)
    } else if embed_rows(m, seq![tokens.0, tokens.1]) is None {
        Err(Fault::Dimension)
    } else {
        match duo_fault(m, (first.arena->0).kinds, first, second, m.layers@.len() as int) {
            Some(fault) => Err(fault),
            None => if first.cache.position >= usize::MAX || second.cache.position >= usize::MAX || !has_room(first.rooms) || !has_room(second.rooms) {
                Err(Fault::Dimension)
            } else {
                Ok(duo_program(m.kernel, duo_kinds(m), (first.cache.position as usize, second.cache.position as usize), samples))
            },
        }
    }
}

/// What a device is told to do for two streams, and the rows that are handed over before.
pub struct DuoProgram<C> {
    pub uploads: Tensor<C>,
    pub program: Vec<DuoCommand<C>>,
    /// The names under which each stream's rows of the device's scratch stand, so that the
    /// streams share none.
    pub namespaces: (u64, u64),
}

fn choose_duo<K: Kernel>(k: &K, sample: Option<ResidentSampleSpec<K::Cell>>) -> (choice: DuoChoice<K::Cell>)
    ensures
        functional(*k) ==> choice == duo_choice(*k, sample),
{
    match sample {
        None => DuoChoice { route: DeviceRoute::Argmax, params: best_choice(k), random: 0 },
        Some(sample) => {
            let route: DeviceRoute = if sample.params.top_k == 0 {
                DeviceRoute::Gumbel
            } else {
                DeviceRoute::TopK
            };
            DuoChoice { route, params: sample.params, random: sample.random }
        },
    }
}

proof fn lemma_duo_fault<K: Kernel>(m: DecoderModel<K>, kinds: Seq<ResidentLayerKind>, first: ResidentView<K::Cell>, second: ResidentView<K::Cell>, fewer: int, more: int)
    requires
        0 <= fewer <= more,
        duo_fault(m, kinds, first, second, fewer) is Some,
    ensures
        duo_fault(m, kinds, first, second, more) == duo_fault(m, kinds, first, second, fewer),
    decreases more,
{
    if fewer < more {
        lemma_duo_fault(m, kinds, first, second, fewer, more - 1);
    }
}

impl<K: Kernel> DecoderModel<K> {
    /// Whether two streams can go through the decoder together.
    pub fn supports_resident_duo(&self, cache: &ResidentCache<K::Cell>, facts: &DuoFacts) -> (can: bool)
        ensures
            can == can_duo(*self, cache@, *facts),
    {
        let arena: &ResidentArena = match &cache.arena {
            Some(arena) => arena,
            None => {
                return false;
            },
        };
        if !facts.present || !self.config.attn_output_gate || self.config.head_dim.is_none() || !facts.lm_head {
            return false;
        }
        if self.final_norm.data.len() % 512 != 0 {
            return false;
        }
        for i in 0..arena.kinds.len()
            invariant
                cache@.arena == Some(arena@),
                forall|j: int| 0 <= j < i ==> #[trigger] layer_duo(*self, cache@, *facts, j),
        {
            let known: bool = i < facts.layers.len() && facts.layers[i];
            let fits: bool = match arena.kinds[i] {
                ResidentLayerKind::FullMoe => self.config.is_full_attention_layer(i) && i < arena.joined.len() && arena.joined[i],
                ResidentLayerKind::LinearMoe => i < self.layers.len() && match &self.layers[i].attention {
                    AttentionBlock::Linear(_) => true,
                    AttentionBlock::Full(_) => false,
                },
                _ => false,
            };
            assert((known && fits) == layer_duo(*self, cache@, *facts, i as int));
            if !known || !fits {
                return false;
            }
        }
        true
    }

    fn check_duo_layer(&self, arena: &ResidentArena, first: &ResidentCache<K::Cell>, second: &ResidentCache<K::Cell>, i: usize) -> (out: Result<ResidentLayerKind, InferError>)
        requires
            i < self.layers@.len(),
            self.fits(first.cache@),
            self.fits(second.cache@),
            first.rooms@.len() == self.layers@.len(),
            second.rooms@.len() == self.layers@.len(),
        ensures
            match out {
                Ok(kind) => duo_layer_fault(*self, arena.kinds@, first@, second@, i as int) is None && kind == duo_kinds(*self)[i as int],
                Err(error) => duo_layer_fault(*self, arena.kinds@, first@, second@, i as int) == Some(error.fault()),
            },
    {
        let kind: ResidentLayerKind = if i < arena.kinds.len() {
            arena.kinds[i]
        } else {
            ResidentLayerKind::Other
        };
        assert(first.cache@.layers[i as int] == first.cache.layers@[i as int]@);
        assert(second.cache@.layers[i as int] == second.cache.layers@[i as int]@);
        if self.config.is_full_attention_layer(i) {
            match kind {
                ResidentLayerKind::FullMoe => {},
                _ => {
                    return Err(InferError::Config("full layer without a shared expert"));
                },
            }
            if first.rooms[i].is_none() || second.rooms[i].is_none() {
                return Err(InferError::Metal("full layer without a room on the device"));
            }
        } else {
            match kind {
                ResidentLayerKind::LinearMoe => {},
                _ => {
                    return Err(InferError::Config("linear layer without a shared expert"));
                },
            }
            if first.cache.layers[i].recurrent.len() == 0 || second.cache.layers[i].recurrent.len() == 0 {
                return Err(InferError::Metal("linear layer without a state on the device"));
            }
        }
        Ok(kind)
    }

    /// What a device is told to do for one token of each of two streams.
    #[verifier::spinoff_prover]
    pub fn decode_tokens_resident_duo(
        &self,
        device: bool,
        first: &mut ResidentCache<K::Cell>,
        second: &mut ResidentCache<K::Cell>,
        tokens: (usize, usize),
        samples: (Option<ResidentSampleSpec<K::Cell>>, Option<ResidentSampleSpec<K::Cell>>),
    ) -> (out: Result<DuoProgram<K::Cell>, InferError>)
        requires
            self.fits(old(first).cache@),
            self.fits(old(second).cache@),
            old(first).rooms@.len() == self.layers@.len(),
            old(second).rooms@.len() == self.layers@.len(),
        ensures
            out is Err ==> *final(first) == *old(first) && *final(second) == *old(second),
            out matches Ok(made) ==> {
                &&& old(first).arena matches Some(arena) && made.namespaces.0 == arena.namespace
                &&& old(second).arena matches Some(arena) && made.namespaces.1 == arena.namespace
            },
            out is Ok ==> final(first)@ == moved_on(old(first)@, 1) && final(second)@ == moved_on(old(second)@, 1),
            functional(self.kernel) ==> ({
                let plan = duo_plan(*self, device, old(first)@, old(second)@, tokens, samples);
                match out {
                    Ok(made) => {
                        &&& plan == Result::<Seq<DuoCommand<K::Cell>>, Fault>::Ok(made.program@)
                        &&& made.uploads.is_matrix()
                        &&& embed_rows(*self, seq![tokens.0, tokens.1]) == Some(made.uploads.rows())
                    },
                    Err(error) => plan == Result::<Seq<DuoCommand<K::Cell>>, Fault>::Err(error.fault()),
                }
            }),
    {
        if !device {
            return Err(InferError::Metal("no device"));
        }
        if self.config.rope_theta.is_none() {
            return Err(InferError::Config("no base for the turns"));
        }
        self.check_linear_sizes()?;
        let arena: &ResidentArena = match &first.arena {
            Some(arena) => arena,
            None => {
                return Err(InferError::Metal("first stream does not stand on the device"));
            },
        };
        let namespaces: (u64, u64) = match &second.arena {
            Some(other) => (arena.namespace, other.namespace),
            None => {
                return Err(InferError::Metal("second stream does not stand on the device"));
            },
        };
        let mut both: Vec<usize> = Vec::new();
        both.push(tokens.0);
        both.push(tokens.1);
        assert(both@ =~= seq![tokens.0, tokens.1]);
        let uploads: Tensor<K::Cell> = self.embed_scaled(&both)?;
        let positions: (usize, usize) = (first.cache.position, second.cache.position);
        let n: usize = self.layers.len();
        let ghost layers = duo_layers::<K::Cell>(duo_kinds(*self), positions);
        let mut program: Vec<DuoCommand<K::Cell>> = Vec::new();
        assert(program@ =~= layers.take(0));
        let mut i: usize = 0;
        while i < n
            invariant
                i <= n,
                n == self.layers@.len(),
                self.fits(first.cache@),
                self.fits(second.cache@),
                first.rooms@.len() == n,
                second.rooms@.len() == n,
                first.arena == Some(*arena),
                second.arena matches Some(other) && namespaces == (arena.namespace, other.namespace),
                *first == *old(first),
                *second == *old(second),
                layers == duo_layers::<K::Cell>(duo_kinds(*self), positions),
                program@ == layers.take(i as int),
                duo_fault(*self, arena.kinds@, first@, second@, i as int) is None,
                functional(self.kernel) ==> {
                    &&& device
                    &&& self.config.rope_theta is Some
                    &&& linear_fault(*self) is None
                    &&& second.arena is Some
                    &&& embed_rows(*self, seq![tokens.0, tokens.1]) is Some
                },
            decreases n - i,
        {
            match self.check_duo_layer(arena, first, second, i) {
                Ok(kind) => {
                    program.push(DuoCommand::Layer { layer: i, kind, first_at: positions.0, second_at: positions.1 });
                },
                Err(error) => {
                    proof {
                        lemma_duo_fault(*self, arena.kinds@, first@, second@, i + 1, n as int);
                    }
                    return Err(error);
                },
            }
            assert(program@ =~= layers.take(i + 1));
            i = i + 1;
        }
        assert(layers.take(n as int) =~= layers);
        if positions.0 == usize::MAX || positions.1 == usize::MAX || !first.can_grow() || !second.can_grow() {
            return Err(InferError::Dimension("no room for another position"));
        }
        program.push(DuoCommand::Norm);
        program.push(DuoCommand::Pick { first: choose_duo(&self.kernel, samples.0), second: choose_duo(&self.kernel, samples.1) });
        first.grow();
        first.cache.position = positions.0 + 1;
        second.grow();
        second.cache.position = positions.1 + 1;
        assert(first@ =~= moved_on(old(first)@, 1));
        assert(second@ =~= moved_on(old(second)@, 1));
        Ok(DuoProgram { uploads, program, namespaces })
    }
}

} // verus!
