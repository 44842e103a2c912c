//! Programs for a device that keeps the rows of a decoder.

use vstd::prelude::*;
use crate::batching::layer_fold;
use crate::context::cached_row;
use crate::kernel::{device_token_of, DeviceRoute, Kernel, SamplingParams};
use crate::kv::LayerView;
use crate::layer::{added, layer_row, norm_of, norm_rows};
use crate::linear::{feed_forward_row, linear_row};
use crate::model::{embed_row, DecoderModel};
use crate::mtp_head::MtpHead;
use crate::tensor::Tensor;
use crate::weights::Linear;

verus! {

/// Where rows stand on a device.
#[derive(Clone, Copy, PartialEq, Eq, Structural, Debug)]
pub enum Place {
    HiddenA,
    HiddenB,
    /// The two hidden rows of a step of a pipeline.
    PipelineA(usize),
    PipelineB(usize),
    /// The row that a token of a batch starts from.
    Input(usize),
    RowIn,
    RowOut,
    BatchA,
    BatchB,
    FinalNormed,
    FinalStates,
    /// The row that a chosen layer puts out for a token of a batch.
    Captured { slot: usize, token: usize },
    HeadA,
    HeadB,
    HeadEmbedding,
    HeadEmbeddingNorm,
    HeadHiddenNorm,
    HeadPair,
    HeadInput,
    HeadOutput,
    /// States that a draft head is to be told of.
    History,
    /// States of the tokens that were checked last.
    Checked,
}

/// A row on a device.
#[derive(Clone, Copy, PartialEq, Eq, Structural, Debug)]
pub struct Spot {
    pub place: Place,
    pub row: usize,
}

/// Where tokens stand on a device.
#[derive(Clone, Copy, PartialEq, Eq, Structural, Debug)]
pub enum TokenPlace {
    Index,
    Ring,
    HeadIndex,
    Drafts,
    Targets,
    Appends,
}

/// A token on a device.
#[derive(Clone, Copy, PartialEq, Eq, Structural, Debug)]
pub struct Slot {
    pub place: TokenPlace,
    pub at: usize,
}

/// How the weights of a layer stand on a device.
#[derive(Clone, Copy, PartialEq, Eq, Structural, Debug)]
pub enum ResidentLayerKind {
    FullMoe,
    FullRouted,
    FullDense,
    LinearMoe,
    LinearDense,
    Other,
}

/// Weights that a norm takes.
#[derive(Clone, Copy, PartialEq, Eq, Structural, Debug)]
pub enum NormWeight {
    Final,
    HeadEmbedding,
    HeadHidden,
    HeadOutput,
}

/// Map from states to logits.
#[derive(Clone, Copy, PartialEq, Eq, Structural, Debug)]
pub enum OutputMap {
    Decoder,
    Draft,
    /// One that the host named.
    Named,
}

/// What a device is told to do.
#[derive(Clone, Copy, Debug)]
#[allow(inconsistent_fields)]
pub enum Command<C> {
    /// The row that a token starts from.
    Gather { token: Slot, to: Spot },
    /// One row through a layer.
    Layer { layer: usize, kind: ResidentLayerKind, position: usize, from: Spot, to: Spot },
    /// Rows through a layer one after the other. What the layer has seen is kept behind
    /// each of the first `kept` of them.
    LayerRows { layer: usize, kind: ResidentLayerKind, position: usize, rows: usize, from: Place, to: Place, kept: usize },
    Copy { from: Spot, to: Spot },
    Norm { weight: NormWeight, from: Spot, to: Spot },
    NormRows { rows: usize, from: Place, to: Place },
    /// Two rows side by side.
    Join { first: Spot, second: Spot, to: Spot },
    /// The map of a draft head.
    HeadMap { from: Spot, to: Spot },
    /// The layer of a draft head.
    HeadLayer { position: usize, from: Spot, to: Spot },
    /// A token chosen from the logits of a state.
    Pick { output: OutputMap, route: DeviceRoute, params: SamplingParams<C>, random: u64, from: Spot, to: Slot },
    /// The logits of a state handed back.
    ReadBack { from: Spot },
}

/// What a device holds.
#[verifier::ext_equal]
pub struct Memory<C> {
    pub rows: Map<Spot, Seq<C>>,
    pub tokens: Map<Slot, usize>,
    /// What the layers have seen.
    pub layers: Seq<LayerView<C>>,
    /// What the draft head has seen.
    pub head: LayerView<C>,
    /// What a layer had seen behind a row of the last rows through it.
    pub kept: Map<(int, int), LayerView<C>>,
    /// Logits that were handed back.
    pub logits: Option<Seq<C>>,
    /// A map from states to logits that the host named.
    pub named: Option<Linear<C>>,
}

impl<C> Memory<C> {
    pub open spec fn with_row(self, to: Spot, row: Seq<C>) -> Memory<C> {
        Memory { rows: self.rows.insert(to, row), ..self }
    }

    /// The first rows of a place.
    pub open spec fn first_rows(self, place: Place, count: int) -> Seq<Seq<C>> {
        Seq::new(count as nat, |i: int| self.rows[spot(place, i)])
    }

    pub open spec fn has_rows(self, place: Place, count: int) -> bool {
        forall|i: int| 0 <= i < count ==> #[trigger] self.rows.contains_key(spot(place, i))
    }

    pub open spec fn with_rows(self, place: Place, rows: Seq<Seq<C>>) -> Memory<C> {
        Memory {
            rows: Map::new(
                |at: Spot| self.rows.contains_key(at) || (at.place == place && at.row < rows.len()),
                |at: Spot|
                    if at.place == place && at.row < rows.len() {
                        rows[at.row as int]
                    } else {
                        self.rows[at]
                    },
            ),
            ..self
        }
    }
}

/// The row of a place.
pub open spec fn spot(place: Place, row: int) -> Spot {
    Spot { place, row: row as usize }
}

/// What the weights of a norm are.
pub open spec fn norm_weight_of<K: Kernel>(m: DecoderModel<K>, weight: NormWeight) -> Option<Tensor<K::Cell>> {
    match weight {
        NormWeight::Final => Some(m.final_norm),
        NormWeight::HeadEmbedding => match m.mtp {
            Some(head) => Some(head.pre_fc_norm_embedding),
            None => None,
        },
        NormWeight::HeadHidden => match m.mtp {
            Some(head) => Some(head.pre_fc_norm_hidden),
            None => None,
        },
        NormWeight::HeadOutput => match m.mtp {
            Some(head) => Some(head.norm),
            None => None,
        },
    }
}

pub open spec fn output_map_of<K: Kernel>(m: DecoderModel<K>, mem: Memory<K::Cell>, output: OutputMap) -> Option<Linear<K::Cell>> {
    match output {
        OutputMap::Decoder => Some(m.lm_head),
        OutputMap::Draft => Some(m.draft_head()),
        OutputMap::Named => mem.named,
    }
}

/// One row through the layer of a draft head.
pub open spec fn head_layer_row<K: Kernel>(m: DecoderModel<K>, head: MtpHead<K::Cell>, view: LayerView<K::Cell>, x: Seq<K::Cell>, position: int) -> Option<(LayerView<K::Cell>, Seq<K::Cell>)> {
    let eps = m.config.rms_eps;
    match norm_of(m.kernel, x, head.layer.input_norm, eps) {
        Some(normed) => match cached_row(m.kernel, m.config, head.layer.attention, view, normed, position) {
            Some((after, context)) => match linear_row(m.kernel, head.layer.attention.o_proj, context) {
                Some(attn) => match added(m.kernel, x, attn) {
                    Some(h) => match norm_of(m.kernel, h, head.layer.post_attention_norm, eps) {
                        Some(input) => match feed_forward_row(m.kernel, head.layer.mlp, input) {
                            Some(out) => match added(m.kernel, h, out) {
                                Some(sum) => Some((after, sum)),
                                None => None,
                            },
                            None => None,
                        },
                        None => None,
                    },
                    None => None,
                },
                None => None,
            },
            None => None,
        },
        None => None,
    }
}

/// What a layer had seen behind each of the first rows, kept.
pub open spec fn keep<K: Kernel>(m: DecoderModel<K>, mem: Memory<K::Cell>, layer: int, xs: Seq<Seq<K::Cell>>, position: int, kept: int) -> Map<(int, int), LayerView<K::Cell>> {
    Map::new(
        |key: (int, int)| mem.kept.contains_key(key) || (key.0 == layer && 0 <= key.1 < kept),
        |key: (int, int)|
            if key.0 == layer && 0 <= key.1 < kept {
                (layer_fold(m.kernel, m.config, m.layers@[layer], mem.layers[layer], xs.take(key.1 + 1), position)->0).0
            } else {
                mem.kept[key]
            },
    )
}

/// What a device holds behind a command.
pub open spec fn run_one<K: Kernel>(m: DecoderModel<K>, mem: Memory<K::Cell>, command: Command<K::Cell>) -> Option<Memory<K::Cell>> {
    match command {
        Command::Gather { token, to } => if mem.tokens.contains_key(token) {
            match embed_row(m, mem.tokens[token]) {
                Some(row) => Some(mem.with_row(to, row)),
                None => None,
            }
        } else {
            None
        },
        Command::Layer { layer, kind: _, position, from, to } => if mem.rows.contains_key(from) && layer < mem.layers.len() {
            match layer_row(m.kernel, m.config, m.layers@[layer as int], mem.layers[layer as int], mem.rows[from], position as int) {
                Some((after, row)) => Some(Memory { layers: mem.layers.update(layer as int, after), ..mem.with_row(to, row) }),
                None => None,
            }
        } else {
            None
        },
        Command::LayerRows { layer, kind: _, position, rows, from, to, kept } => if mem.has_rows(from, rows as int) && layer < mem.layers.len() {
            let xs = mem.first_rows(from, rows as int);
            match layer_fold(m.kernel, m.config, m.layers@[layer as int], mem.layers[layer as int], xs, position as int) {
                Some((after, ys)) => Some(
                    Memory {
                        layers: mem.layers.update(layer as int, after),
                        kept: keep(m, mem, layer as int, xs, position as int, kept as int),
                        ..mem.with_rows(to, ys)
                    },
                ),
                None => None,
            }
        } else {
            None
        },
        Command::Copy { from, to } => if mem.rows.contains_key(from) {
            Some(mem.with_row(to, mem.rows[from]))
        } else {
            None
        },
        Command::Norm { weight, from, to } => if mem.rows.contains_key(from) && norm_weight_of(m, weight) is Some {
            match norm_of(m.kernel, mem.rows[from], norm_weight_of(m, weight)->0, m.config.rms_eps) {
                Some(row) => Some(mem.with_row(to, row)),
                None => None,
            }
        } else {
            None
        },
        Command::NormRows { rows, from, to } => if mem.has_rows(from, rows as int) {
            match norm_rows(m.kernel, mem.first_rows(from, rows as int), m.final_norm, m.config.rms_eps) {
                Some(states) => Some(mem.with_rows(to, states)),
                None => None,
            }
        } else {
            None
        },
        Command::Join { first, second, to } => if mem.rows.contains_key(first) && mem.rows.contains_key(second) {
            Some(mem.with_row(to, mem.rows[first] + mem.rows[second]))
        } else {
            None
        },
        Command::HeadMap { from, to } => if mem.rows.contains_key(from) && m.mtp is Some {
            match linear_row(m.kernel, (m.mtp->0).fc, mem.rows[from]) {
                Some(row) => Some(mem.with_row(to, row)),
                None => None,
            }
        } else {
            None
        },
        Command::HeadLayer { position, from, to } => if mem.rows.contains_key(from) && m.mtp is Some {
            match head_layer_row(m, m.mtp->0, mem.head, mem.rows[from], position as int) {
                Some((after, row)) => Some(Memory { head: after, ..mem.with_row(to, row) }),
                None => None,
            }
        } else {
            None
        },
        Command::Pick { output, route, params, random, from, to } => if mem.rows.contains_key(from) && output_map_of(m, mem, output) is Some {
            match device_token_of(m.kernel, route, (output_map_of(m, mem, output)->0).weight, mem.rows[from], params, random) {
                Some(token) => Some(Memory { tokens: mem.tokens.insert(to, token), ..mem }),
                None => None,
            }
        } else {
            None
        },
        Command::ReadBack { from } => if mem.rows.contains_key(from) {
            match linear_row(m.kernel, m.lm_head, mem.rows[from]) {
                Some(logits) => Some(Memory { logits: Some(logits), ..mem }),
                None => None,
            }
        } else {
            None
        },
    }
}

/// What a device holds behind a program.
pub open spec fn run<K: Kernel>(m: DecoderModel<K>, mem: Memory<K::Cell>, program: Seq<Command<K::Cell>>) -> Option<Memory<K::Cell>>
    decreases program.len(),
{
    if program.len() == 0 {
        Some(mem)
    } else {
        match run(m, mem, program.drop_last()) {
            Some(before) => run_one(m, before, program.last()),
            None => None,
        }
    }
}

/// One program behind another is run where the other left off.
pub proof fn law_run_concat<K: Kernel>(m: DecoderModel<K>, mem: Memory<K::Cell>, first: Seq<Command<K::Cell>>, second: Seq<Command<K::Cell>>)
    ensures
        run(m, mem, first + second) == match run(m, mem, first) {
            Some(middle) => run(m, middle, second),
            None => None,
        },
    decreases second.len(),
{
    if second.len() == 0 {
        assert(first + second =~= first);
    } else {
        assert((first + second).drop_last() =~= first + second.drop_last());
        law_run_concat(m, mem, first, second.drop_last());
    }
}

/// One more command.
pub proof fn lemma_run_push<K: Kernel>(m: DecoderModel<K>, mem: Memory<K::Cell>, program: Seq<Command<K::Cell>>, command: Command<K::Cell>)
    ensures
        run(m, mem, program.push(command)) == match run(m, mem, program) {
            Some(middle) => run_one(m, middle, command),
            None => None,
        },
{
    assert(program.push(command).drop_last() =~= program);
}

/// Only rows of these places have changed.
#[verifier::opaque]
pub open spec fn same_elsewhere<C>(before: Memory<C>, after: Memory<C>, changed: Set<Place>) -> bool {
    forall|at: Spot|
        !changed.contains(at.place) ==> (#[trigger] after.rows.contains_key(at)) == before.rows.contains_key(at) && (before.rows.contains_key(at)
            ==> after.rows[at] == before.rows[at])
}

pub proof fn lemma_elsewhere_start<C>(mem: Memory<C>, changed: Set<Place>)
    ensures
        same_elsewhere(mem, mem, changed),
{
    reveal(same_elsewhere);
}

/// A row of these places was written.
pub proof fn lemma_elsewhere<C>(start: Memory<C>, before: Memory<C>, after: Memory<C>, changed: Set<Place>, to: Spot, row: Seq<C>)
    requires
        same_elsewhere(start, before, changed),
        changed.contains(to.place),
        after.rows == before.rows.insert(to, row),
    ensures
        same_elsewhere(start, after, changed),
{
    reveal(same_elsewhere);
    assert forall|at: Spot| !changed.contains(at.place) implies (#[trigger] after.rows.contains_key(at)) == start.rows.contains_key(at) && (
    start.rows.contains_key(at) ==> after.rows[at] == start.rows[at]) by {
        assert(before.rows.contains_key(at) == start.rows.contains_key(at));
    }
}

/// A row of another place is as it was.
pub proof fn lemma_elsewhere_at<C>(before: Memory<C>, after: Memory<C>, changed: Set<Place>, at: Spot)
    requires
        same_elsewhere(before, after, changed),
        !changed.contains(at.place),
    ensures
        after.rows.contains_key(at) == before.rows.contains_key(at),
        before.rows.contains_key(at) ==> after.rows[at] == before.rows[at],
{
    reveal(same_elsewhere);
    assert(after.rows.contains_key(at) == before.rows.contains_key(at));
}

/// What is the same twice in a row is the same.
pub proof fn lemma_elsewhere_chain<C>(first: Memory<C>, second: Memory<C>, third: Memory<C>, changed: Set<Place>, more: Set<Place>)
    requires
        same_elsewhere(first, second, changed),
        same_elsewhere(second, third, more),
    ensures
        same_elsewhere(first, third, changed.union(more)),
{
    reveal(same_elsewhere);
    assert forall|at: Spot| !changed.union(more).contains(at.place) implies (#[trigger] third.rows.contains_key(at)) == first.rows.contains_key(at)
        && (first.rows.contains_key(at) ==> third.rows[at] == first.rows[at]) by {
        assert(third.rows.contains_key(at) == second.rows.contains_key(at));
        assert(second.rows.contains_key(at) == first.rows.contains_key(at));
    }
}

/// The first rows of one of these places were written.
pub proof fn lemma_elsewhere_rows<C>(before: Memory<C>, after: Memory<C>, changed: Set<Place>, place: Place, rows: Seq<Seq<C>>)
    requires
        changed.contains(place),
        after.rows == before.with_rows(place, rows).rows,
    ensures
        same_elsewhere(before, after, changed),
{
    reveal(same_elsewhere);
}

/// A program of one copy.
pub proof fn lemma_run_copy<K: Kernel>(m: DecoderModel<K>, mem: Memory<K::Cell>, from: Spot, to: Spot)
    requires
        mem.rows.contains_key(from),
    ensures
        run(m, mem, seq![Command::Copy { from, to }]) == Some(mem.with_row(to, mem.rows[from])),
{
    let copy = Command::<K::Cell>::Copy { from, to };
    assert(seq![copy] =~= Seq::empty().push(copy));
    lemma_run_push(m, mem, Seq::empty(), copy);
}

} // verus!
