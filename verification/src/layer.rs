//! One decoder layer.

use vstd::prelude::*;
use crate::attention::FullAttention;
use crate::config::CausalDecoderConfig;
use crate::context::{batch_rows, cached_row, full_attention_context_cached, full_attention_context_prefill};
use crate::error::InferError;
use crate::kernel::{functional, recur, recur_of, Binary, Kernel};
use crate::kv::{LayerKvCache, LayerView};
use crate::linear::{apply_feed_forward, feed_forward_row, forward_linear, linear_row, linear_rows, map_rows, rms_norm, rms_rows, FeedForward};
use crate::rows::{combine_rows, normalise, rms_row, scale_row, scaled_row, sum_rows};
use crate::tensor::Tensor;
use crate::weights::{LinearAttentionConfig, LinearAttentionWeights};

verus! {

/// The attention of a layer.
pub enum AttentionBlock<C> {
    Full(FullAttention<C>),
    Linear(LinearAttentionWeights<C>),
}

/// Weights of one layer.
pub struct DecoderLayer<C> {
    pub input_norm: Tensor<C>,
    pub attention: AttentionBlock<C>,
    pub post_attention_norm: Option<Tensor<C>>,
    pub mlp: Option<FeedForward<C>>,
    pub parallel_moe: Option<FeedForward<C>>,
    /// Present where the layer norms the feed-forward block on both sides.
    pub pre_feedforward_norm: Option<Tensor<C>>,
    pub post_feedforward_norm: Option<Tensor<C>>,
    pub pre_feedforward_norm_2: Option<Tensor<C>>,
    pub post_feedforward_norm_1: Option<Tensor<C>>,
    pub post_feedforward_norm_2: Option<Tensor<C>>,
    pub layer_scalar: Option<Tensor<C>>,
}

impl<C: Copy> DecoderLayer<C> {
    pub open spec fn wf(&self) -> bool {
        &&& self.attention matches AttentionBlock::Full(attention) ==> attention.wf()
        &&& self.mlp matches Some(mlp) ==> mlp.wf()
        &&& self.parallel_moe matches Some(moe) ==> moe.wf()
    }

    /// The second feed-forward block, where there is one, has its norms.
    pub open spec fn parallel_complete(&self) -> bool {
        self.parallel_moe is Some ==> {
            &&& self.post_feedforward_norm_1 is Some
            &&& self.post_feedforward_norm_2 is Some
            &&& self.pre_feedforward_norm_2 is Some
        }
    }

    /// The layer has every part that its other parts call for.
    pub open spec fn complete(&self, config: CausalDecoderConfig<C>) -> bool {
        &&& self.attention is Linear ==> config.linear_sizes() is Some
        &&& if self.pre_feedforward_norm is Some {
            &&& self.post_attention_norm is Some
            &&& self.post_feedforward_norm is Some
            &&& self.mlp is Some
            &&& self.parallel_complete()
        } else {
            self.post_attention_norm is Some <==> self.mlp is Some
        }
    }

    /// The layer can take several positions at once.
    pub fn supports_batched_prefill(&self, linear_enabled: bool) -> (supported: bool)
        ensures
            supported == (self.attention is Full || linear_enabled),
    {
        match &self.attention {
            AttentionBlock::Full(_) => true,
            AttentionBlock::Linear(_) => linear_enabled,
        }
    }
}

/// A row normalised with a weight of its length.
pub open spec fn norm_of<K: Kernel>(k: K, row: Seq<K::Cell>, weight: Tensor<K::Cell>, eps: K::Cell) -> Option<Seq<K::Cell>> {
    if weight.data@.len() == row.len() {
        Some(rms_row(k, row, Some(weight.data@), eps))
    } else {
        None
    }
}

/// Normalises a row with a weight of its length.
pub fn norm_row<K: Kernel>(k: &K, row: &Vec<K::Cell>, weight: &Tensor<K::Cell>, eps: K::Cell) -> (out: Result<Vec<K::Cell>, InferError>)
    ensures
        out matches Err(error) ==> error is Dimension,
        out is Ok <==> weight.data@.len() == row@.len(),
        out matches Ok(out) ==> out@.len() == row@.len(),
        functional(*k) ==> match out {
            Ok(out) => norm_of(*k, row@, *weight, eps) == Some(out@),
            Err(_) => norm_of(*k, row@, *weight, eps) is None,
        },
{
    if weight.data.len() != row.len() {
        return Err(InferError::Dimension("norm weight does not fit the row"));
    }
    assert(row@.subrange(0, row@.len() as int) =~= row@);
    Ok(normalise(k, row, 0, row.len(), Some(&weight.data), eps))
}

/// Two rows of one length added.
pub open spec fn added<K: Kernel>(k: K, a: Seq<K::Cell>, b: Seq<K::Cell>) -> Option<Seq<K::Cell>> {
    if a.len() == b.len() {
        Some(sum_rows(k, a, b))
    } else {
        None
    }
}

/// Adds two rows of one length.
pub fn add_row<K: Kernel>(k: &K, a: &Vec<K::Cell>, b: &Vec<K::Cell>) -> (out: Result<Vec<K::Cell>, InferError>)
    ensures
        out matches Err(error) ==> error is Dimension,
        out matches Ok(out) ==> out@.len() == a@.len(),
        functional(*k) ==> match out {
            Ok(out) => added(*k, a@, b@) == Some(out@),
            Err(_) => added(*k, a@, b@) is None,
        },
{
    if a.len() != b.len() {
        return Err(InferError::Dimension("sum of rows of different lengths"));
    }
    let out: Vec<K::Cell> = combine_rows(k, Binary::Add, a, b);
    assert(functional(*k) ==> out@ =~= sum_rows(*k, a@, b@));
    Ok(out)
}

/// The feed-forward part of a layer that norms it on both sides.
pub open spec fn double_normed_ffn<K: Kernel>(
    k: K,
    layer: DecoderLayer<K::Cell>,
    hidden: Seq<K::Cell>,
    eps: K::Cell,
) -> Option<Seq<K::Cell>> {
    let pre = layer.pre_feedforward_norm->0;
    let mlp = layer.mlp->0;
    match norm_of(k, hidden, pre, eps) {
        Some(input) => match feed_forward_row(k, mlp, input) {
            Some(dense) => match layer.parallel_moe {
                None => Some(dense),
                Some(moe) => match (
                    layer.post_feedforward_norm_1,
                    layer.post_feedforward_norm_2,
                    layer.pre_feedforward_norm_2,
                ) {
                    (Some(post_1), Some(post_2), Some(pre_2)) => match (
                        norm_of(k, dense, post_1, eps),
                        norm_of(k, hidden, pre_2, eps),
                    ) {
                        (Some(dense), Some(input)) => match feed_forward_row(k, moe, input) {
                            Some(mixed) => match norm_of(k, mixed, post_2, eps) {
                                Some(mixed) => added(k, dense, mixed),
                                None => None,
                            },
                            None => None,
                        },
                        _ => None,
                    },
                    _ => None,
                },
            },
            None => None,
        },
        None => None,
    }
}

/// Residuals, norms and feed-forward block around the output of the attention.
pub open spec fn combined_row<K: Kernel>(
    k: K,
    config: CausalDecoderConfig<K::Cell>,
    layer: DecoderLayer<K::Cell>,
    x: Seq<K::Cell>,
    attn: Seq<K::Cell>,
) -> Option<Seq<K::Cell>> {
    let eps = config.rms_eps;
    if layer.pre_feedforward_norm is Some {
        match (layer.post_attention_norm, layer.post_feedforward_norm, layer.mlp) {
            (Some(post_attn), Some(post_ffn), Some(_)) => match norm_of(k, attn, post_attn, eps) {
                Some(normed_attn) => match added(k, x, normed_attn) {
                    Some(hidden) => match double_normed_ffn(k, layer, hidden, eps) {
                        Some(ffn) => match norm_of(k, ffn, post_ffn, eps) {
                            Some(ffn) => match added(k, hidden, ffn) {
                                Some(output) => match layer.layer_scalar {
                                    Some(scalar) => if scalar.data@.len() > 0 {
                                        Some(scaled_row(k, output, scalar.data@[0]))
                                    } else {
                                        None
                                    },
                                    None => Some(output),
                                },
                                None => None,
                            },
                            None => None,
                        },
                        None => None,
                    },
                    None => None,
                },
                None => None,
            },
            _ => None,
        }
    } else {
        match added(k, x, attn) {
            Some(state) => match (layer.post_attention_norm, layer.mlp) {
                (Some(norm), Some(mlp)) => match norm_of(k, state, norm, eps) {
                    Some(input) => match feed_forward_row(k, mlp, input) {
                        Some(out) => added(k, state, out),
                        None => None,
                    },
                    None => None,
                },
                (None, None) => Some(state),
                _ => None,
            },
            None => None,
        }
    }
}

fn apply_double_normed_ffn<K: Kernel>(k: &K, layer: &DecoderLayer<K::Cell>, pre: &Tensor<K::Cell>, mlp: &FeedForward<K::Cell>, hidden: &Vec<K::Cell>, eps: K::Cell) -> (out: Result<Vec<K::Cell>, InferError>)
    requires
        layer.wf(),
        layer.pre_feedforward_norm == Some(*pre),
        layer.mlp == Some(*mlp),
    ensures
        out matches Err(error) ==> error.is_misfit(layer.parallel_complete()),
        functional(*k) ==> match out {
            Ok(out) => double_normed_ffn(*k, *layer, hidden@, eps) == Some(out@),
            Err(_) => double_normed_ffn(*k, *layer, hidden@, eps) is None,
        },
{
    match &layer.parallel_moe {
        Some(moe) => {
            let post_1: &Tensor<K::Cell> = match &layer.post_feedforward_norm_1 {
                Some(norm) => norm,
                None => {
                    return Err(InferError::Config("second feed-forward block without its norms"));
                },
            };
            let post_2: &Tensor<K::Cell> = match &layer.post_feedforward_norm_2 {
                Some(norm) => norm,
                None => {
                    return Err(InferError::Config("second feed-forward block without its norms"));
                },
            };
            let pre_2: &Tensor<K::Cell> = match &layer.pre_feedforward_norm_2 {
                Some(norm) => norm,
                None => {
                    return Err(InferError::Config("second feed-forward block without its norms"));
                },
            };
            let dense_input: Vec<K::Cell> = norm_row(k, hidden, pre, eps)?;
            let dense: Vec<K::Cell> = apply_feed_forward(k, mlp, &dense_input)?;
            let dense: Vec<K::Cell> = norm_row(k, &dense, post_1, eps)?;
            let moe_input: Vec<K::Cell> = norm_row(k, hidden, pre_2, eps)?;
            let mixed: Vec<K::Cell> = apply_feed_forward(k, moe, &moe_input)?;
            let mixed: Vec<K::Cell> = norm_row(k, &mixed, post_2, eps)?;
            add_row(k, &dense, &mixed)
        },
        None => {
            let input: Vec<K::Cell> = norm_row(k, hidden, pre, eps)?;
            apply_feed_forward(k, mlp, &input)
        },
    }
}

fn combine_row<K: Kernel>(k: &K, config: &CausalDecoderConfig<K::Cell>, layer: &DecoderLayer<K::Cell>, x: &Vec<K::Cell>, attn: &Vec<K::Cell>) -> (out: Result<Vec<K::Cell>, InferError>)
    requires
        layer.wf(),
    ensures
        out matches Err(error) ==> error.is_misfit(layer.complete(*config)),
        out matches Ok(out) ==> out@.len() == x@.len(),
        functional(*k) ==> match out {
            Ok(out) => combined_row(*k, *config, *layer, x@, attn@) == Some(out@),
            Err(_) => combined_row(*k, *config, *layer, x@, attn@) is None,
        },
{
    let eps: K::Cell = config.rms_eps;
    if let Some(pre) = &layer.pre_feedforward_norm {
        let post_attn: &Tensor<K::Cell> = match &layer.post_attention_norm {
            Some(norm) => norm,
            None => {
                return Err(InferError::Config("norm after the attention missing"));
            },
        };
        let post_ffn: &Tensor<K::Cell> = match &layer.post_feedforward_norm {
            Some(norm) => norm,
            None => {
                return Err(InferError::Config("norm after the feed-forward block missing"));
            },
        };
        let mlp: &FeedForward<K::Cell> = match &layer.mlp {
            Some(mlp) => mlp,
            None => {
                return Err(InferError::Config("feed-forward block missing"));
            },
        };
        let normed_attn: Vec<K::Cell> = norm_row(k, attn, post_attn, eps)?;
        let hidden: Vec<K::Cell> = add_row(k, x, &normed_attn)?;
        let ffn: Vec<K::Cell> = apply_double_normed_ffn(k, layer, pre, mlp, &hidden, eps)?;
        let ffn: Vec<K::Cell> = norm_row(k, &ffn, post_ffn, eps)?;
        let output: Vec<K::Cell> = add_row(k, &hidden, &ffn)?;
        return match &layer.layer_scalar {
            Some(scalar) => if scalar.data.len() == 0 {
                Err(InferError::Dimension("layer scalar is empty"))
            } else {
                Ok(scale_row(k, &output, scalar.data[0]))
            },
            None => Ok(output),
        };
    }
    let state: Vec<K::Cell> = add_row(k, x, attn)?;
    match (&layer.post_attention_norm, &layer.mlp) {
        (Some(norm), Some(mlp)) => {
            let input: Vec<K::Cell> = norm_row(k, &state, norm, eps)?;
            let out: Vec<K::Cell> = apply_feed_forward(k, mlp, &input)?;
            add_row(k, &state, &out)
        },
        (None, None) => Ok(state),
        _ => Err(InferError::Config("feed-forward block only in part")),
    }
}

/// Rows recombined with the rows of the attention, where every one can be.
pub open spec fn combined_rows<K: Kernel>(
    k: K,
    config: CausalDecoderConfig<K::Cell>,
    layer: DecoderLayer<K::Cell>,
    xs: Seq<Seq<K::Cell>>,
    attn: Seq<Seq<K::Cell>>,
) -> Option<Seq<Seq<K::Cell>>> {
    if xs.len() == attn.len() && forall|i: int|
        0 <= i < xs.len() ==> (#[trigger] combined_row(k, config, layer, xs[i], attn[i])) is Some {
        Some(Seq::new(xs.len(), |i: int| combined_row(k, config, layer, xs[i], attn[i])->0))
    } else {
        None
    }
}

/// Residuals, norms and feed-forward block around the output of the attention.
pub fn combine_attention_and_mlp<K: Kernel>(k: &K, config: &CausalDecoderConfig<K::Cell>, layer: &DecoderLayer<K::Cell>, x: &Tensor<K::Cell>, attn: &Tensor<K::Cell>) -> (out: Result<Tensor<K::Cell>, InferError>)
    requires
        layer.wf(),
        x.is_matrix(),
        attn.is_matrix(),
        attn.shape@[0] == x.shape@[0],
    ensures
        out matches Err(error) ==> error.is_misfit(layer.complete(*config)),
        out matches Ok(out) ==> out.is_matrix() && out.cols() == x.cols() && out.shape@[0] == x.shape@[0],
        functional(*k) ==> match out {
            Ok(out) => combined_rows(*k, *config, *layer, x.rows(), attn.rows()) == Some(out.rows()),
            Err(_) => combined_rows(*k, *config, *layer, x.rows(), attn.rows()) is None,
        },
{
    let count: usize = x.shape[0];
    let cols: usize = x.shape[1];
    let mut out: Tensor<K::Cell> = Tensor::empty_matrix(cols);
    for i in 0..count
        invariant
            layer.wf(),
            x.is_matrix(),
            attn.is_matrix(),
            count == x.shape@[0],
            count == attn.shape@[0],
            cols == x.cols(),
            out.is_matrix(),
            out.cols() == cols,
            out.shape@[0] == i,
            functional(*k) ==> forall|j: int|
                0 <= j < i ==> (#[trigger] combined_row(*k, *config, *layer, x.rows()[j], attn.rows()[j])) == Some(
                    out.rows()[j],
                ),
    {
        proof {
            x.lemma_rows();
            attn.lemma_rows();
            out.lemma_rows();
        }
        let row: Vec<K::Cell> = x.row_slice(i)?;
        let attn_row: Vec<K::Cell> = attn.row_slice(i)?;
        match combine_row(k, config, layer, &row, &attn_row) {
            Ok(made) => {
                out.push_row(&made);
            },
            Err(error) => {
                assert(functional(*k) ==> combined_row(*k, *config, *layer, x.rows()[i as int], attn.rows()[i as int]) is None);
                return Err(error);
            },
        }
    }
    proof {
        x.lemma_rows();
        attn.lemma_rows();
        out.lemma_rows();
        if functional(*k) {
            assert(out.rows() =~= combined_rows(*k, *config, *layer, x.rows(), attn.rows())->0);
        }
    }
    Ok(out)
}

/// What one more position makes of a layer's cache, and the output of its
/// attention.
pub open spec fn attention_row<K: Kernel>(
    k: K,
    config: CausalDecoderConfig<K::Cell>,
    layer: DecoderLayer<K::Cell>,
    view: LayerView<K::Cell>,
    x: Seq<K::Cell>,
    position: int,
) -> Option<(LayerView<K::Cell>, Seq<K::Cell>)> {
    match norm_of(k, x, layer.input_norm, config.rms_eps) {
        Some(normed) => match layer.attention {
            AttentionBlock::Full(attention) => match cached_row(k, config, attention, view, normed, position) {
                Some((after, context)) => match linear_row(k, attention.o_proj, context) {
                    Some(out) => Some((after, out)),
                    None => None,
                },
                None => None,
            },
            AttentionBlock::Linear(weights) => match config.linear_sizes() {
                Some(sizes) => Some(recur_step(k, weights, sizes, view, normed)),
                None => None,
            },
        },
        None => None,
    }
}

/// One step of the recurrence of a linear layer.
pub open spec fn recur_step<K: Kernel>(
    k: K,
    weights: LinearAttentionWeights<K::Cell>,
    sizes: LinearAttentionConfig,
    view: LayerView<K::Cell>,
    normed: Seq<K::Cell>,
) -> (LayerView<K::Cell>, Seq<K::Cell>) {
    let step = recur_of(k, weights, sizes, view.recurrent, normed);
    (LayerView { recurrent: step.1, ..view }, step.0)
}

/// What one more position makes of a layer's cache, and the output of the layer.
pub open spec fn layer_row<K: Kernel>(
    k: K,
    config: CausalDecoderConfig<K::Cell>,
    layer: DecoderLayer<K::Cell>,
    view: LayerView<K::Cell>,
    x: Seq<K::Cell>,
    position: int,
) -> Option<(LayerView<K::Cell>, Seq<K::Cell>)> {
    match attention_row(k, config, layer, view, x, position) {
        Some((after, attn)) => match combined_row(k, config, layer, x, attn) {
            Some(out) => Some((after, out)),
            None => None,
        },
        None => None,
    }
}

/// What one more position makes of the cache of a layer with full attention, and the context
/// it sees.
pub open spec fn context_row<K: Kernel>(
    k: K,
    config: CausalDecoderConfig<K::Cell>,
    layer: DecoderLayer<K::Cell>,
    attention: FullAttention<K::Cell>,
    view: LayerView<K::Cell>,
    x: Seq<K::Cell>,
    position: int,
) -> Option<(LayerView<K::Cell>, Seq<K::Cell>)> {
    match norm_of(k, x, layer.input_norm, config.rms_eps) {
        Some(normed) => cached_row(k, config, attention, view, normed, position),
        None => None,
    }
}

/// The output of a layer with full attention, from the context of its position.
pub open spec fn tail_row<K: Kernel>(
    k: K,
    config: CausalDecoderConfig<K::Cell>,
    layer: DecoderLayer<K::Cell>,
    attention: FullAttention<K::Cell>,
    x: Seq<K::Cell>,
    context: Seq<K::Cell>,
) -> Option<Seq<K::Cell>> {
    match linear_row(k, attention.o_proj, context) {
        Some(attn) => combined_row(k, config, layer, x, attn),
        None => None,
    }
}

/// Takes one position into the cache of a layer with full attention, and gives the context
/// it sees.
pub fn begin_cached<K: Kernel>(
    k: &K,
    config: &CausalDecoderConfig<K::Cell>,
    layer: &DecoderLayer<K::Cell>,
    attention: &FullAttention<K::Cell>,
    x: &Tensor<K::Cell>,
    cache: &mut LayerKvCache<K::Cell>,
    position: usize,
) -> (out: Result<Tensor<K::Cell>, InferError>)
    requires
        attention.wf(),
        x.is_matrix(),
        x.shape@[0] == 1,
        old(cache)@.wf(),
    ensures
        out matches Err(error) ==> error is Dimension && final(cache)@ == old(cache)@,
        final(cache)@.wf(),
        out matches Ok(out) ==> out.is_matrix() && out.shape@[0] == 1,
        functional(*k) ==> match out {
            Ok(out) => context_row(*k, *config, *layer, *attention, old(cache)@, x.rows()[0], position as int) == Some(
                (final(cache)@, out.rows()[0]),
            ),
            Err(_) => context_row(*k, *config, *layer, *attention, old(cache)@, x.rows()[0], position as int) is None,
        },
{
    proof {
        x.lemma_rows();
    }
    let normed: Tensor<K::Cell> = rms_norm(k, x, &layer.input_norm, config.rms_eps)?;
    proof {
        normed.lemma_rows();
    }
    full_attention_context_cached(k, config, &normed, cache, position, attention)
}

/// The output of a layer with full attention, from the context of its position: what a
/// device answered, or what the layer makes of the context where no device did.
pub fn settle_cached<K: Kernel>(
    k: &K,
    config: &CausalDecoderConfig<K::Cell>,
    layer: &DecoderLayer<K::Cell>,
    attention: &FullAttention<K::Cell>,
    x: &Tensor<K::Cell>,
    context: &Tensor<K::Cell>,
    answer: Option<Tensor<K::Cell>>,
) -> (out: Result<Tensor<K::Cell>, InferError>)
    requires
        layer.wf(),
        attention.wf(),
        x.is_matrix(),
        x.shape@[0] == 1,
        context.is_matrix(),
        context.shape@[0] == 1,
    ensures
        answer matches Some(made) ==> out == Result::<Tensor<K::Cell>, InferError>::Ok(made),
        answer is None ==> (out matches Err(error) ==> error.is_misfit(layer.complete(*config))),
        answer is None ==> (out matches Ok(out) ==> out.is_matrix() && out.cols() == x.cols() && out.shape@[0] == 1),
        answer is None && functional(*k) ==> match out {
            Ok(out) => tail_row(*k, *config, *layer, *attention, x.rows()[0], context.rows()[0]) == Some(out.rows()[0]),
            Err(_) => tail_row(*k, *config, *layer, *attention, x.rows()[0], context.rows()[0]) is None,
        },
{
    if let Some(made) = answer {
        return Ok(made);
    }
    proof {
        x.lemma_rows();
        context.lemma_rows();
        if functional(*k) {
            lemma_one_linear_row(*k, attention.o_proj, context.rows());
        }
    }
    let attn: Tensor<K::Cell> = forward_linear(k, &attention.o_proj, context)?;
    proof {
        attn.lemma_rows();
    }
    let out: Tensor<K::Cell> = combine_attention_and_mlp(k, config, layer, x, &attn)?;
    proof {
        out.lemma_rows();
        assert(functional(*k) ==> combined_row(*k, *config, *layer, x.rows()[0], attn.rows()[0]) is Some);
    }
    Ok(out)
}

/// Takes one position through a layer.
pub fn forward_cached<K: Kernel>(k: &K, config: &CausalDecoderConfig<K::Cell>, layer: &DecoderLayer<K::Cell>, x: &Tensor<K::Cell>, cache: &mut LayerKvCache<K::Cell>, position: usize) -> (out: Result<Tensor<K::Cell>, InferError>)
    requires
        layer.wf(),
        x.is_matrix(),
        x.shape@[0] == 1,
        old(cache)@.wf(),
    ensures
        out matches Err(error) ==> error.is_misfit(layer.complete(*config)),
        final(cache)@.wf(),
        out matches Ok(out) ==> out.is_matrix() && out.cols() == x.cols() && out.shape@[0] == 1,
        functional(*k) ==> match out {
            Ok(out) => layer_row(*k, *config, *layer, old(cache)@, x.rows()[0], position as int) == Some(
                (final(cache)@, out.rows()[0]),
            ),
            Err(_) => layer_row(*k, *config, *layer, old(cache)@, x.rows()[0], position as int) is None,
        },
{
    proof {
        x.lemma_rows();
    }
    let attn: Tensor<K::Cell> = match &layer.attention {
        AttentionBlock::Full(attention) => {
            let context: Tensor<K::Cell> = begin_cached(k, config, layer, attention, x, cache, position)?;
            return settle_cached(k, config, layer, attention, x, &context, None);
        },
        AttentionBlock::Linear(weights) => {
            let normed: Tensor<K::Cell> = rms_norm(k, x, &layer.input_norm, config.rms_eps)?;
            proof {
                normed.lemma_rows();
            }
            let sizes: LinearAttentionConfig = config.linear_attention_config()?;
            let row: Vec<K::Cell> = normed.as_row()?;
            let (made, state) = recur(k, weights, sizes, &cache.recurrent, &row);
            cache.recurrent = state;
            assert(functional(*k) ==> cache@ =~= recur_step(*k, *weights, sizes, old(cache)@, normed.rows()[0]).0);
            Tensor::row(made)
        },
    };
    proof {
        attn.lemma_rows();
    }
    let out: Tensor<K::Cell> = combine_attention_and_mlp(k, config, layer, x, &attn)?;
    proof {
        out.lemma_rows();
        assert(functional(*k) ==> combined_row(*k, *config, *layer, x.rows()[0], attn.rows()[0]) is Some);
    }
    Ok(out)
}

pub proof fn lemma_one_linear_row<K: Kernel>(k: K, linear: crate::weights::Linear<K::Cell>, rows: Seq<Seq<K::Cell>>)
    requires
        rows.len() == 1,
    ensures
        linear_rows(k, linear, rows) is Some <==> linear_row(k, linear, rows[0]) is Some,
        linear_rows(k, linear, rows) matches Some(out) ==> out.len() == 1 && linear_row(k, linear, rows[0]) == Some(out[0]),
{
    let f = |row: Seq<K::Cell>| linear_row(k, linear, row);
    assert(f(rows[0]) == linear_row(k, linear, rows[0]));
}

/// Rows normalised with a weight of their length.
pub open spec fn norm_rows<K: Kernel>(k: K, xs: Seq<Seq<K::Cell>>, weight: Tensor<K::Cell>, eps: K::Cell) -> Option<Seq<Seq<K::Cell>>> {
    map_rows(xs, |row: Seq<K::Cell>| norm_of(k, row, weight, eps))
}

/// The recurrence of a linear layer over rows, from the front.
pub open spec fn recur_fold<K: Kernel>(
    k: K,
    weights: LinearAttentionWeights<K::Cell>,
    sizes: LinearAttentionConfig,
    view: LayerView<K::Cell>,
    normed: Seq<Seq<K::Cell>>,
) -> (LayerView<K::Cell>, Seq<Seq<K::Cell>>)
    decreases normed.len(),
{
    if normed.len() == 0 {
        (view, Seq::empty())
    } else {
        let (before, outs) = recur_fold(k, weights, sizes, view, normed.drop_last());
        let (after, out) = recur_step(k, weights, sizes, before, normed.last());
        (after, outs.push(out))
    }
}

/// What a batch of positions makes of a layer's cache, and the outputs of its
/// attention.
pub open spec fn attention_rows<K: Kernel>(
    k: K,
    config: CausalDecoderConfig<K::Cell>,
    layer: DecoderLayer<K::Cell>,
    view: LayerView<K::Cell>,
    xs: Seq<Seq<K::Cell>>,
    offset: int,
) -> Option<(LayerView<K::Cell>, Seq<Seq<K::Cell>>)> {
    match norm_rows(k, xs, layer.input_norm, config.rms_eps) {
        Some(normed) => match layer.attention {
            AttentionBlock::Full(attention) => match batch_rows(k, config, attention, view, normed, offset) {
                Some((after, contexts)) => match linear_rows(k, attention.o_proj, contexts) {
                    Some(outs) => Some((after, outs)),
                    None => None,
                },
                None => None,
            },
            AttentionBlock::Linear(weights) => match config.linear_sizes() {
                Some(sizes) => Some(recur_fold(k, weights, sizes, view, normed)),
                None => None,
            },
        },
        None => None,
    }
}

/// What a batch of positions makes of a layer's cache, and the outputs of the
/// layer.
pub open spec fn layer_rows<K: Kernel>(
    k: K,
    config: CausalDecoderConfig<K::Cell>,
    layer: DecoderLayer<K::Cell>,
    view: LayerView<K::Cell>,
    xs: Seq<Seq<K::Cell>>,
    offset: int,
) -> Option<(LayerView<K::Cell>, Seq<Seq<K::Cell>>)> {
    match attention_rows(k, config, layer, view, xs, offset) {
        Some((after, attn)) => match combined_rows(k, config, layer, xs, attn) {
            Some(outs) => Some((after, outs)),
            None => None,
        },
        None => None,
    }
}

pub proof fn lemma_norm_rows<K: Kernel>(k: K, x: Tensor<K::Cell>, weight: Tensor<K::Cell>, eps: K::Cell)
    requires
        x.is_matrix(),
        x.shape@[0] > 0,
    ensures
        weight.data@.len() == x.cols() ==> norm_rows(k, x.rows(), weight, eps) == Some(rms_rows(k, x.rows(), weight.data@, eps)),
        weight.data@.len() != x.cols() ==> norm_rows(k, x.rows(), weight, eps) is None,
{
    x.lemma_rows();
    let f = |row: Seq<K::Cell>| norm_of(k, row, weight, eps);
    if weight.data@.len() == x.cols() {
        assert forall|i: int| 0 <= i < x.rows().len() implies (#[trigger] f(x.rows()[i])) is Some by {}
        assert(norm_rows(k, x.rows(), weight, eps)->0 =~= rms_rows(k, x.rows(), weight.data@, eps));
    } else {
        assert(f(x.rows()[0]) is None);
    }
}

/// Where the attention changes the length of a row, the layer has no output.
pub proof fn lemma_combined_len<K: Kernel>(k: K, config: CausalDecoderConfig<K::Cell>, layer: DecoderLayer<K::Cell>, x: Seq<K::Cell>, attn: Seq<K::Cell>)
    ensures
        x.len() != attn.len() ==> combined_row(k, config, layer, x, attn) is None,
        combined_row(k, config, layer, x, attn) matches Some(out) ==> out.len() == x.len(),
{
}

fn recur_rows<K: Kernel>(k: &K, weights: &LinearAttentionWeights<K::Cell>, sizes: LinearAttentionConfig, normed: &Tensor<K::Cell>, cache: &mut LayerKvCache<K::Cell>) -> (out: Result<Tensor<K::Cell>, InferError>)
    requires
        normed.is_matrix(),
        old(cache)@.wf(),
    ensures
        out matches Err(error) ==> error is Dimension,
        final(cache)@.wf(),
        out matches Ok(out) ==> out.is_matrix() && out.cols() == normed.cols() && out.shape@[0] == normed.shape@[0],
        functional(*k) ==> match out {
            Ok(out) => recur_fold(*k, *weights, sizes, old(cache)@, normed.rows()) == (final(cache)@, out.rows()),
            Err(_) => exists|i: int|
                0 <= i < normed.rows().len() && (#[trigger] recur_fold(
                    *k,
                    *weights,
                    sizes,
                    old(cache)@,
                    normed.rows(),
                ).1[i]).len() != normed.cols(),
        },
{
    let count: usize = normed.shape[0];
    let cols: usize = normed.shape[1];
    let ghost start = cache@;
    let ghost xs = normed.rows();
    proof {
        normed.lemma_rows();
        assert(xs.take(0).len() == 0);
        assert(xs.take(xs.len() as int) =~= xs);
    }
    let mut out: Tensor<K::Cell> = Tensor::empty_matrix(cols);
    for i in 0..count
        invariant
            normed.is_matrix(),
            count == normed.shape@[0],
            cols == normed.cols(),
            xs == normed.rows(),
            xs.len() == count,
            start == old(cache)@,
            cache@.wf(),
            out.is_matrix(),
            out.cols() == cols,
            out.shape@[0] == i,
            functional(*k) ==> recur_fold(*k, *weights, sizes, start, xs.take(i as int)) == (cache@, out.rows()),
    {
        proof {
            normed.lemma_rows();
            out.lemma_rows();
            assert(xs.take(i + 1).drop_last() =~= xs.take(i as int));
        }
        let ghost before = cache@;
        let row: Vec<K::Cell> = normed.row_slice(i)?;
        let (made, state) = recur(k, weights, sizes, &cache.recurrent, &row);
        cache.recurrent = state;
        assert(functional(*k) ==> cache@ =~= recur_step(*k, *weights, sizes, before, xs[i as int]).0);
        if made.len() != cols {
            proof {
                if functional(*k) {
                    lemma_recur_prefix(*k, *weights, sizes, start, xs, i + 1);
                    assert(recur_fold(*k, *weights, sizes, start, xs.take(i + 1)).1[i as int] == made@);
                    assert(recur_fold(*k, *weights, sizes, start, xs).1[i as int].len() != cols);
                }
            }
            return Err(InferError::Dimension("linear attention changed the row length"));
        }
        out.push_row(&made);
    }
    assert(xs.take(count as int) =~= xs);
    Ok(out)
}

/// The recurrence over the first rows gives the first outputs.
proof fn lemma_recur_prefix<K: Kernel>(
    k: K,
    weights: LinearAttentionWeights<K::Cell>,
    sizes: LinearAttentionConfig,
    view: LayerView<K::Cell>,
    xs: Seq<Seq<K::Cell>>,
    n: int,
)
    requires
        0 <= n <= xs.len(),
    ensures
        recur_fold(k, weights, sizes, view, xs).1.len() == xs.len(),
        recur_fold(k, weights, sizes, view, xs.take(n)).1 == recur_fold(k, weights, sizes, view, xs).1.take(n),
    decreases xs.len(),
{
    let whole = recur_fold(k, weights, sizes, view, xs).1;
    if xs.len() == 0 {
        assert(xs.take(n) =~= xs);
        assert(whole.take(n) =~= whole);
    } else if n == xs.len() {
        assert(xs.take(n) =~= xs);
        lemma_recur_prefix(k, weights, sizes, view, xs.drop_last(), n - 1);
        assert(whole.take(n) =~= whole);
    } else {
        lemma_recur_prefix(k, weights, sizes, view, xs.drop_last(), n);
        assert(xs.drop_last().take(n) =~= xs.take(n));
        assert(whole.take(n) =~= recur_fold(k, weights, sizes, view, xs.drop_last()).1.take(n));
    }
}

/// Takes a batch of positions through a layer. A layer with full attention refuses a batch
/// without positions.
pub fn forward_prefill<K: Kernel>(k: &K, config: &CausalDecoderConfig<K::Cell>, layer: &DecoderLayer<K::Cell>, x: &Tensor<K::Cell>, cache: &mut LayerKvCache<K::Cell>, offset: usize) -> (out: Result<Tensor<K::Cell>, InferError>)
    requires
        layer.wf(),
        x.is_matrix(),
        x.shape@[0] > 0 || layer.attention is Full,
        old(cache)@.wf(),
    ensures
        out matches Err(error) ==> error.is_misfit(layer.complete(*config)),
        final(cache)@.wf(),
        out matches Ok(out) ==> out.is_matrix() && out.cols() == x.cols() && out.shape@[0] == x.shape@[0],
        x.shape@[0] == 0 ==> (out matches Err(error) && error is Dimension) && final(cache)@ == old(cache)@,
        x.shape@[0] > 0 && functional(*k) ==> match out {
            Ok(out) => layer_rows(*k, *config, *layer, old(cache)@, x.rows(), offset as int) == Some(
                (final(cache)@, out.rows()),
            ),
            Err(_) => layer_rows(*k, *config, *layer, old(cache)@, x.rows(), offset as int) is None,
        },
{
    if x.shape[0] == 0 {
        return Err(InferError::Dimension("batch without positions"));
    }
    proof {
        x.lemma_rows();
        lemma_norm_rows(*k, *x, layer.input_norm, config.rms_eps);
    }
    let normed: Tensor<K::Cell> = rms_norm(k, x, &layer.input_norm, config.rms_eps)?;
    proof {
        normed.lemma_rows();
    }
    let attn: Tensor<K::Cell> = match &layer.attention {
        AttentionBlock::Full(attention) => {
            let contexts: Tensor<K::Cell> = full_attention_context_prefill(k, config, &normed, cache, offset, attention)?;
            forward_linear(k, &attention.o_proj, &contexts)?
        },
        AttentionBlock::Linear(weights) => {
            let sizes: LinearAttentionConfig = config.linear_attention_config()?;
            match recur_rows(k, weights, sizes, &normed, cache) {
                Ok(outs) => outs,
                Err(error) => {
                    proof {
                        if functional(*k) {
                            let outs = recur_fold(*k, *weights, sizes, old(cache)@, normed.rows()).1;
                            let i = choose|i: int| 0 <= i < normed.rows().len() && (#[trigger] outs[i]).len() != normed.cols();
                            lemma_combined_len(*k, *config, *layer, x.rows()[i], outs[i]);
                            assert(combined_row(*k, *config, *layer, x.rows()[i], outs[i]) is None);
                        }
                    }
                    return Err(error);
                },
            }
        },
    };
    proof {
        attn.lemma_rows();
    }
    combine_attention_and_mlp(k, config, layer, x, &attn)
}

/// Takes a whole sequence through a layer, without keeping what the layer saw.
pub fn forward<K: Kernel>(k: &K, config: &CausalDecoderConfig<K::Cell>, layer: &DecoderLayer<K::Cell>, x: &Tensor<K::Cell>) -> (out: Result<Tensor<K::Cell>, InferError>)
    requires
        layer.wf(),
        x.is_matrix(),
        x.shape@[0] > 0,
    ensures
        out matches Err(error) ==> error.is_misfit(layer.complete(*config)),
        out matches Ok(out) ==> out.is_matrix() && out.cols() == x.cols() && out.shape@[0] == x.shape@[0],
        functional(*k) ==> match out {
            Ok(out) => layer_rows(*k, *config, *layer, LayerView::empty(), x.rows(), 0) matches Some(made) && made.1
                == out.rows(),
            Err(_) => layer_rows(*k, *config, *layer, LayerView::empty(), x.rows(), 0) is None,
        },
{
    let mut cache: LayerKvCache<K::Cell> = LayerKvCache::new();
    forward_prefill(k, config, layer, x, &mut cache, 0)
}

} // verus!
