//! Why a batch of tokens leaves the decoder where the tokens one by one would.

use vstd::prelude::*;
use crate::cold::{even_layer, lemma_cold_is_fold, reciprocal};
use crate::config::CausalDecoderConfig;
use crate::context::{cached_row, fold_rows};
use crate::kernel::Kernel;
use crate::kv::LayerView;
use crate::layer::{attention_row, combined_row, combined_rows, layer_row, layer_rows, norm_of, norm_rows, recur_fold, AttentionBlock, DecoderLayer};
use crate::linear::{linear_row, linear_rows, map_rows};
use crate::model::{batch, embed_row, embed_rows, layers_row, layers_rows, step, steps, CacheView, DecoderModel};

verus! {

/// A further row appended to rows, where both can be had.
pub open spec fn extend<C>(made: Option<(LayerView<C>, Seq<Seq<C>>)>, one: Option<(LayerView<C>, Seq<C>)>) -> Option<(LayerView<C>, Seq<Seq<C>>)> {
    match (made, one) {
        (Some((_, rows)), Some((after, row))) => Some((after, rows.push(row))),
        _ => None,
    }
}

pub proof fn lemma_map_push<C>(rows: Seq<Seq<C>>, row: Seq<C>, f: spec_fn(Seq<C>) -> Option<Seq<C>>)
    ensures
        map_rows(rows.push(row), f) == match (map_rows(rows, f), f(row)) {
            (Some(done), Some(one)) => Some(done.push(one)),
            _ => None,
        },
{
    let longer = rows.push(row);
    if map_rows(rows, f) is Some && f(row) is Some {
        assert forall|i: int| 0 <= i < longer.len() implies (#[trigger] f(longer[i])) is Some by {
            if i < rows.len() {
                assert(longer[i] == rows[i]);
                assert(f(rows[i]) is Some);
            }
        }
        assert(map_rows(longer, f)->0 =~= (map_rows(rows, f)->0).push(f(row)->0));
    } else if f(row) is None {
        assert(longer[rows.len() as int] == row);
        assert(f(longer[rows.len() as int]) is None);
    } else {
        let i = choose|i: int| 0 <= i < rows.len() && !((#[trigger] f(rows[i])) is Some);
        assert(longer[i] == rows[i]);
        assert(f(longer[i]) is None);
    }
}

proof fn lemma_combined_push<K: Kernel>(k: K, config: CausalDecoderConfig<K::Cell>, layer: DecoderLayer<K::Cell>, xs: Seq<Seq<K::Cell>>, x: Seq<K::Cell>, attn: Seq<Seq<K::Cell>>, one: Seq<K::Cell>)
    requires
        xs.len() == attn.len(),
    ensures
        combined_rows(k, config, layer, xs.push(x), attn.push(one)) == match (
            combined_rows(k, config, layer, xs, attn),
            combined_row(k, config, layer, x, one),
        ) {
            (Some(done), Some(row)) => Some(done.push(row)),
            _ => None,
        },
{
    let longer = xs.push(x);
    let wider = attn.push(one);
    let n = xs.len() as int;
    if combined_rows(k, config, layer, xs, attn) is Some && combined_row(k, config, layer, x, one) is Some {
        assert forall|i: int| 0 <= i < longer.len() implies (#[trigger] combined_row(k, config, layer, longer[i], wider[i])) is Some by {
            if i < n {
                assert(combined_row(k, config, layer, xs[i], attn[i]) is Some);
            }
        }
        assert(combined_rows(k, config, layer, longer, wider)->0 =~= (combined_rows(k, config, layer, xs, attn)->0).push(
            combined_row(k, config, layer, x, one)->0,
        ));
    } else if combined_row(k, config, layer, x, one) is None {
        assert(combined_row(k, config, layer, longer[n], wider[n]) is None);
    } else {
        let i = choose|i: int| 0 <= i < n && !((#[trigger] combined_row(k, config, layer, xs[i], attn[i])) is Some);
        assert(combined_row(k, config, layer, longer[i], wider[i]) is None);
    }
}

/// [`attention_rows`] with the rows taken one after the other.
pub open spec fn attention_fold<K: Kernel>(k: K, config: CausalDecoderConfig<K::Cell>, layer: DecoderLayer<K::Cell>, view: LayerView<K::Cell>, xs: Seq<Seq<K::Cell>>, offset: int) -> Option<(LayerView<K::Cell>, Seq<Seq<K::Cell>>)> {
    match norm_rows(k, xs, layer.input_norm, config.rms_eps) {
        Some(normed) => match layer.attention {
            AttentionBlock::Full(attention) => match fold_rows(k, config, attention, view, normed, offset) {
                Some((after, contexts)) => match linear_rows(k, attention.o_proj, contexts) {
                    Some(outs) => Some((after, outs)),
                    None => None,
                },
                None => None,
            },
            AttentionBlock::Linear(weights) => match config.linear_sizes() {
                Some(sizes) => Some(recur_fold(k, weights, sizes, view, normed)),
                None => None,
            },
        },
        None => None,
    }
}

/// [`layer_rows`] with the rows taken one after the other.
pub open spec fn layer_fold<K: Kernel>(k: K, config: CausalDecoderConfig<K::Cell>, layer: DecoderLayer<K::Cell>, view: LayerView<K::Cell>, xs: Seq<Seq<K::Cell>>, offset: int) -> Option<(LayerView<K::Cell>, Seq<Seq<K::Cell>>)> {
    match attention_fold(k, config, layer, view, xs, offset) {
        Some((after, attn)) => match combined_rows(k, config, layer, xs, attn) {
            Some(outs) => Some((after, outs)),
            None => None,
        },
        None => None,
    }
}

/// [`layers_rows`] with the rows taken one after the other in every layer.
pub open spec fn layers_fold<K: Kernel>(m: DecoderModel<K>, l: int, views: Seq<LayerView<K::Cell>>, xs: Seq<Seq<K::Cell>>, offset: int) -> Option<(Seq<LayerView<K::Cell>>, Seq<Seq<K::Cell>>)>
    decreases views.len(),
{
    if views.len() == 0 {
        Some((views, xs))
    } else {
        match layer_fold(m.kernel, m.config, m.layers@[l], views[0], xs, offset) {
            Some((after, ys)) => match layers_fold(m, l + 1, views.drop_first(), ys, offset) {
                Some((rest, outs)) => Some((seq![after] + rest, outs)),
                None => None,
            },
            None => None,
        }
    }
}

/// The layer's cache has seen a position, or needs none.
pub open spec fn warm_layer<C>(layer: DecoderLayer<C>, view: LayerView<C>) -> bool {
    layer.attention is Linear || view.count() > 0
}

/// A batch in this layer is the rows one after the other: the layer is linear, its
/// cache has seen a position, or the two ways to scale a score agree.
pub open spec fn in_turn<K: Kernel>(k: K, config: CausalDecoderConfig<K::Cell>, layer: DecoderLayer<K::Cell>, view: LayerView<K::Cell>) -> bool {
    warm_layer(layer, view) || (view.wf() && (layer.attention matches AttentionBlock::Full(attention) ==> even_layer(k, config, attention)))
}

proof fn lemma_outputs_len<K: Kernel>(k: K, config: CausalDecoderConfig<K::Cell>, layer: DecoderLayer<K::Cell>, view: LayerView<K::Cell>, xs: Seq<Seq<K::Cell>>, offset: int)
    ensures
        attention_fold(k, config, layer, view, xs, offset) matches Some(made) ==> made.1.len() == xs.len(),
{
    if norm_rows(k, xs, layer.input_norm, config.rms_eps) is Some {
        let normed = norm_rows(k, xs, layer.input_norm, config.rms_eps)->0;
        match layer.attention {
            AttentionBlock::Full(attention) => {
                lemma_fold_len(k, config, attention, view, normed, offset);
            },
            AttentionBlock::Linear(weights) => {
                if config.linear_sizes() is Some {
                    lemma_recur_len(k, weights, config.linear_sizes()->0, view, normed);
                }
            },
        }
    }
}

proof fn lemma_fold_len<K: Kernel>(k: K, config: CausalDecoderConfig<K::Cell>, attention: crate::attention::FullAttention<K::Cell>, view: LayerView<K::Cell>, xs: Seq<Seq<K::Cell>>, offset: int)
    ensures
        fold_rows(k, config, attention, view, xs, offset) matches Some(made) ==> made.1.len() == xs.len(),
    decreases xs.len(),
{
    if xs.len() > 0 {
        lemma_fold_len(k, config, attention, view, xs.drop_last(), offset);
    }
}

proof fn lemma_recur_len<K: Kernel>(k: K, weights: crate::weights::LinearAttentionWeights<K::Cell>, sizes: crate::weights::LinearAttentionConfig, view: LayerView<K::Cell>, xs: Seq<Seq<K::Cell>>)
    ensures
        recur_fold(k, weights, sizes, view, xs).1.len() == xs.len(),
    decreases xs.len(),
{
    if xs.len() > 0 {
        lemma_recur_len(k, weights, sizes, view, xs.drop_last());
    }
}

proof fn lemma_attention_step<K: Kernel>(k: K, config: CausalDecoderConfig<K::Cell>, layer: DecoderLayer<K::Cell>, view: LayerView<K::Cell>, xs: Seq<Seq<K::Cell>>, x: Seq<K::Cell>, offset: int)
    ensures
        attention_fold(k, config, layer, view, xs.push(x), offset) == match attention_fold(k, config, layer, view, xs, offset) {
            Some((before, outs)) => extend(
                Some((before, outs)),
                attention_row(k, config, layer, before, x, offset + xs.len()),
            ),
            None => None,
        },
{
    let eps = config.rms_eps;
    let f = |row: Seq<K::Cell>| norm_of(k, row, layer.input_norm, eps);
    lemma_map_push(xs, x, f);
    if norm_rows(k, xs, layer.input_norm, eps) is Some && norm_of(k, x, layer.input_norm, eps) is Some {
        let normed = norm_rows(k, xs, layer.input_norm, eps)->0;
        let one = norm_of(k, x, layer.input_norm, eps)->0;
        assert(normed.len() == xs.len());
        assert(normed.push(one).drop_last() =~= normed);
        match layer.attention {
            AttentionBlock::Full(attention) => {
                if fold_rows(k, config, attention, view, normed, offset) is Some {
                    let made = fold_rows(k, config, attention, view, normed, offset)->0;
                    let g = |row: Seq<K::Cell>| linear_row(k, attention.o_proj, row);
                    if cached_row(k, config, attention, made.0, one, offset + xs.len()) is Some {
                        let context = (cached_row(k, config, attention, made.0, one, offset + xs.len())->0).1;
                        lemma_map_push(made.1, context, g);
                    }
                }
            },
            AttentionBlock::Linear(weights) => {},
        }
    }
}

/// One more row through a layer is the rows before it and then the row.
pub proof fn lemma_layer_step<K: Kernel>(k: K, config: CausalDecoderConfig<K::Cell>, layer: DecoderLayer<K::Cell>, view: LayerView<K::Cell>, xs: Seq<Seq<K::Cell>>, x: Seq<K::Cell>, offset: int)
    ensures
        layer_fold(k, config, layer, view, xs.push(x), offset) == match layer_fold(k, config, layer, view, xs, offset) {
            Some((before, outs)) => extend(
                Some((before, outs)),
                layer_row(k, config, layer, before, x, offset + xs.len()),
            ),
            None => None,
        },
{
    lemma_attention_step(k, config, layer, view, xs, x, offset);
    lemma_outputs_len(k, config, layer, view, xs, offset);
    if attention_fold(k, config, layer, view, xs, offset) is Some {
        let made = attention_fold(k, config, layer, view, xs, offset)->0;
        if attention_row(k, config, layer, made.0, x, offset + xs.len()) is Some {
            let one = (attention_row(k, config, layer, made.0, x, offset + xs.len())->0).1;
            lemma_combined_push(k, config, layer, xs, x, made.1, one);
        }
    }
}

pub proof fn lemma_layer_nothing<K: Kernel>(k: K, config: CausalDecoderConfig<K::Cell>, layer: DecoderLayer<K::Cell>, view: LayerView<K::Cell>, offset: int)
    requires
        layer.attention is Linear ==> config.linear_sizes() is Some,
    ensures
        layer_fold(k, config, layer, view, Seq::empty(), offset) == Some((view, Seq::<Seq<K::Cell>>::empty())),
{
    let none = Seq::<Seq<K::Cell>>::empty();
    let f = |row: Seq<K::Cell>| norm_of(k, row, layer.input_norm, config.rms_eps);
    assert(norm_rows(k, none, layer.input_norm, config.rms_eps)->0 =~= none);
    match layer.attention {
        AttentionBlock::Full(attention) => {
            assert(linear_rows(k, attention.o_proj, none)->0 =~= none);
        },
        AttentionBlock::Linear(weights) => {},
    }
    assert(combined_rows(k, config, layer, none, none)->0 =~= none);
}

/// Every layer's cache from layer `l` on has seen a position, or needs none.
pub open spec fn warm_from<K: Kernel>(m: DecoderModel<K>, l: int, views: Seq<LayerView<K::Cell>>) -> bool {
    forall|i: int| 0 <= i < views.len() ==> warm_layer(#[trigger] m.layers@[l + i], views[i])
}

/// A batch in every layer from `l` on is the rows one after the other.
pub open spec fn in_turn_from<K: Kernel>(m: DecoderModel<K>, l: int, views: Seq<LayerView<K::Cell>>) -> bool {
    forall|i: int| 0 <= i < views.len() ==> in_turn(m.kernel, m.config, #[trigger] m.layers@[l + i], views[i])
}

/// Rows through a layer one after the other.
pub open spec fn layer_steps<K: Kernel>(k: K, config: CausalDecoderConfig<K::Cell>, layer: DecoderLayer<K::Cell>, view: LayerView<K::Cell>, xs: Seq<Seq<K::Cell>>, offset: int) -> Option<(LayerView<K::Cell>, Seq<Seq<K::Cell>>)>
    decreases xs.len(),
{
    if xs.len() == 0 {
        Some((view, Seq::empty()))
    } else {
        match layer_steps(k, config, layer, view, xs.drop_last(), offset) {
            Some((before, outs)) => extend(
                Some((before, outs)),
                layer_row(k, config, layer, before, xs.last(), offset + xs.len() - 1),
            ),
            None => None,
        }
    }
}

/// A batch of rows through a layer leaves the cache and the rows that the rows one by one
/// leave, and is refused where one of them is: the layer is linear, its cache has seen a
/// position, or the two ways to scale a score agree in it.
pub proof fn law_layer_batch_is_rows<K: Kernel>(k: K, config: CausalDecoderConfig<K::Cell>, layer: DecoderLayer<K::Cell>, view: LayerView<K::Cell>, xs: Seq<Seq<K::Cell>>, offset: int)
    requires
        in_turn(k, config, layer, view),
        xs.len() > 0,
    ensures
        layer_rows(k, config, layer, view, xs, offset) == layer_steps(k, config, layer, view, xs, offset),
{
    lemma_layer_same(k, config, layer, view, xs, offset);
    if layer.attention is Linear && config.linear_sizes() is None {
        lemma_no_sizes(k, config, layer, view, xs, offset);
    } else {
        lemma_layer_fold_is_steps(k, config, layer, view, xs, offset);
    }
}

proof fn lemma_no_sizes<K: Kernel>(k: K, config: CausalDecoderConfig<K::Cell>, layer: DecoderLayer<K::Cell>, view: LayerView<K::Cell>, xs: Seq<Seq<K::Cell>>, offset: int)
    requires
        layer.attention is Linear,
        config.linear_sizes() is None,
        xs.len() > 0,
    ensures
        layer_fold(k, config, layer, view, xs, offset) is None,
        layer_steps(k, config, layer, view, xs, offset) is None,
    decreases xs.len(),
{
    if xs.len() > 1 {
        lemma_no_sizes(k, config, layer, view, xs.drop_last(), offset);
    }
}

proof fn lemma_layer_fold_is_steps<K: Kernel>(k: K, config: CausalDecoderConfig<K::Cell>, layer: DecoderLayer<K::Cell>, view: LayerView<K::Cell>, xs: Seq<Seq<K::Cell>>, offset: int)
    requires
        layer.attention is Linear ==> config.linear_sizes() is Some,
    ensures
        layer_fold(k, config, layer, view, xs, offset) == layer_steps(k, config, layer, view, xs, offset),
    decreases xs.len(),
{
    if xs.len() == 0 {
        lemma_layer_nothing(k, config, layer, view, offset);
        assert(xs =~= Seq::empty());
    } else {
        let before = xs.drop_last();
        lemma_layer_fold_is_steps(k, config, layer, view, before, offset);
        lemma_layer_step(k, config, layer, view, before, xs.last(), offset);
        assert(before.push(xs.last()) =~= xs);
    }
}

proof fn lemma_layer_same<K: Kernel>(k: K, config: CausalDecoderConfig<K::Cell>, layer: DecoderLayer<K::Cell>, view: LayerView<K::Cell>, xs: Seq<Seq<K::Cell>>, offset: int)
    requires
        in_turn(k, config, layer, view),
        xs.len() > 0,
    ensures
        layer_rows(k, config, layer, view, xs, offset) == layer_fold(k, config, layer, view, xs, offset),
{
    if norm_rows(k, xs, layer.input_norm, config.rms_eps) is Some {
        let normed = norm_rows(k, xs, layer.input_norm, config.rms_eps)->0;
        assert(normed.len() == xs.len());
        match layer.attention {
            AttentionBlock::Full(attention) => {
                crate::warmth::lemma_count_nonneg(view);
                if view.count() == 0 {
                    lemma_cold_is_fold(k, config, attention, view, normed, offset);
                }
            },
            AttentionBlock::Linear(weights) => {},
        }
    }
}

proof fn lemma_layers_same<K: Kernel>(m: DecoderModel<K>, l: int, views: Seq<LayerView<K::Cell>>, xs: Seq<Seq<K::Cell>>, offset: int)
    requires
        in_turn_from(m, l, views),
        xs.len() > 0,
    ensures
        layers_rows(m, l, views, xs, offset) == layers_fold(m, l, views, xs, offset),
    decreases views.len(),
{
    if views.len() > 0 {
        let layer = m.layers@[l];
        assert(in_turn(m.kernel, m.config, m.layers@[l + 0], views[0]));
        lemma_layer_same(m.kernel, m.config, layer, views[0], xs, offset);
        let rest = views.drop_first();
        assert(in_turn_from(m, l + 1, rest)) by {
            assert forall|i: int| 0 <= i < rest.len() implies in_turn(m.kernel, m.config, #[trigger] m.layers@[l + 1 + i], rest[i]) by {
                assert(in_turn(m.kernel, m.config, m.layers@[l + (i + 1)], views[i + 1]));
            }
        }
        if layer_rows(m.kernel, m.config, layer, views[0], xs, offset) is Some {
            let (before, ys) = layer_rows(m.kernel, m.config, layer, views[0], xs, offset)->0;
            lemma_layer_fold_len(m.kernel, m.config, layer, views[0], xs, offset);
            lemma_layers_same(m, l + 1, rest, ys, offset);
        }
    }
}

pub proof fn lemma_layers_exchange<K: Kernel>(m: DecoderModel<K>, l: int, views: Seq<LayerView<K::Cell>>, xs: Seq<Seq<K::Cell>>, x: Seq<K::Cell>, offset: int)
    requires
        0 <= l,
        l + views.len() <= m.layers@.len(),
    ensures
        layers_fold(m, l, views, xs.push(x), offset) == match layers_fold(m, l, views, xs, offset) {
            Some((before, outs)) => match layers_row(m, l, before, x, offset + xs.len()) {
                Some((after, out)) => Some((after, outs.push(out))),
                None => None,
            },
            None => None,
        },
        layers_fold(m, l, views, xs, offset) matches Some(made) ==> made.0.len() == views.len(),
    decreases views.len(),
{
    if views.len() > 0 {
        let layer = m.layers@[l];
        lemma_layer_step(m.kernel, m.config, layer, views[0], xs, x, offset);
        let rest = views.drop_first();
        if layer_fold(m.kernel, m.config, layer, views[0], xs, offset) is Some {
            let (before, ys) = layer_fold(m.kernel, m.config, layer, views[0], xs, offset)->0;
            lemma_layer_fold_len(m.kernel, m.config, layer, views[0], xs, offset);
            if layer_row(m.kernel, m.config, layer, before, x, offset + xs.len()) is Some {
                let (after, y) = layer_row(m.kernel, m.config, layer, before, x, offset + xs.len())->0;
                lemma_layers_exchange(m, l + 1, rest, ys, y, offset);
                if layers_fold(m, l + 1, rest, ys, offset) is Some {
                    let (deeper, outs) = layers_fold(m, l + 1, rest, ys, offset)->0;
                    assert((seq![before] + deeper).drop_first() =~= deeper);
                }
            } else {
                lemma_layers_exchange(m, l + 1, rest, ys, x, offset);
                if layers_fold(m, l + 1, rest, ys, offset) is Some {
                    let (deeper, outs) = layers_fold(m, l + 1, rest, ys, offset)->0;
                    assert((seq![before] + deeper)[0] == before);
                }
            }
        }
    }
}

pub proof fn lemma_layer_fold_len<K: Kernel>(k: K, config: CausalDecoderConfig<K::Cell>, layer: DecoderLayer<K::Cell>, view: LayerView<K::Cell>, xs: Seq<Seq<K::Cell>>, offset: int)
    ensures
        layer_fold(k, config, layer, view, xs, offset) matches Some(made) ==> made.1.len() == xs.len(),
{
    lemma_outputs_len(k, config, layer, view, xs, offset);
}

/// The decoder's cache has seen a position in every full layer.
pub open spec fn warm<K: Kernel>(m: DecoderModel<K>, cache: CacheView<K::Cell>) -> bool {
    &&& m.fits(cache)
    &&& warm_from(m, 0, cache.layers)
}

/// The sizes that the linear layers need are there, or there are no such layers.
pub open spec fn sized<K: Kernel>(m: DecoderModel<K>) -> bool {
    m.config.linear_sizes() is Some || forall|i: int| 0 <= i < m.layers@.len() ==> (#[trigger] m.layers@[i]).attention is Full
}

/// Without the sizes of a linear layer nothing goes through the layers.
proof fn lemma_unsized<K: Kernel>(m: DecoderModel<K>, l: int, views: Seq<LayerView<K::Cell>>, bad: int, xs: Seq<Seq<K::Cell>>, x: Seq<K::Cell>, at: int)
    requires
        0 <= l <= bad < l + views.len(),
        m.layers@[bad].attention is Linear,
        m.config.linear_sizes() is None,
    ensures
        layers_rows(m, l, views, xs, at) is None,
        layers_row(m, l, views, x, at) is None,
    decreases views.len(),
{
    if l < bad {
        let rest = views.drop_first();
        let rows = layer_rows(m.kernel, m.config, m.layers@[l], views[0], xs, at);
        let row = layer_row(m.kernel, m.config, m.layers@[l], views[0], x, at);
        let ys = match rows {
            Some((_, ys)) => ys,
            None => xs,
        };
        let y = match row {
            Some((_, y)) => y,
            None => x,
        };
        lemma_unsized(m, l + 1, rest, bad, ys, y, at);
    }
}

proof fn lemma_layers_nothing<K: Kernel>(m: DecoderModel<K>, l: int, views: Seq<LayerView<K::Cell>>, offset: int)
    requires
        0 <= l,
        l + views.len() <= m.layers@.len(),
        sized(m),
    ensures
        layers_fold(m, l, views, Seq::empty(), offset) == Some((views, Seq::<Seq<K::Cell>>::empty())),
    decreases views.len(),
{
    if views.len() > 0 {
        lemma_layer_nothing(m.kernel, m.config, m.layers@[l], views[0], offset);
        let rest = views.drop_first();
        lemma_layers_nothing(m, l + 1, rest, offset);
        assert(seq![views[0]] + rest =~= views);
    }
}

proof fn lemma_embed_push<K: Kernel>(m: DecoderModel<K>, tokens: Seq<usize>, token: usize)
    ensures
        embed_rows(m, tokens.push(token)) == match (embed_rows(m, tokens), embed_row(m, token)) {
            (Some(xs), Some(x)) => Some(xs.push(x)),
            _ => None,
        },
{
    let longer = tokens.push(token);
    let n = tokens.len() as int;
    if embed_rows(m, tokens) is Some && embed_row(m, token) is Some {
        assert forall|i: int| 0 <= i < longer.len() implies (#[trigger] embed_row(m, longer[i])) is Some by {
            if i < n {
                assert(embed_row(m, tokens[i]) is Some);
            }
        }
        assert(embed_rows(m, longer)->0 =~= (embed_rows(m, tokens)->0).push(embed_row(m, token)->0));
    } else if embed_row(m, token) is None {
        assert(embed_row(m, longer[n]) is None);
    } else {
        let i = choose|i: int| 0 <= i < n && !((#[trigger] embed_row(m, tokens[i])) is Some);
        assert(embed_row(m, longer[i]) is None);
    }
}

/// [`batch`] with the rows taken one after the other in every layer, and without
/// the refusal of an empty one.
pub open spec fn batch_fold<K: Kernel>(m: DecoderModel<K>, cache: CacheView<K::Cell>, tokens: Seq<usize>) -> Option<(CacheView<K::Cell>, Seq<Seq<K::Cell>>)> {
    if !m.fits(cache) || cache.position + tokens.len() > usize::MAX {
        None
    } else {
        match embed_rows(m, tokens) {
            Some(xs) => match layers_fold(m, 0, cache.layers, xs, cache.position) {
                Some((layers, ys)) => match norm_rows(m.kernel, ys, m.final_norm, m.config.rms_eps) {
                    Some(states) => Some((CacheView { layers, position: cache.position + tokens.len() }, states)),
                    None => None,
                },
                None => None,
            },
            None => None,
        }
    }
}

proof fn lemma_batch_push<K: Kernel>(m: DecoderModel<K>, cache: CacheView<K::Cell>, tokens: Seq<usize>, token: usize)
    requires
        m.fits(cache),
        cache.position + tokens.len() <= usize::MAX,
    ensures
        batch_fold(m, cache, tokens.push(token)) == match batch_fold(m, cache, tokens) {
            Some((before, states)) => match step(m, before, token) {
                Some((after, state)) => Some((after, states.push(state))),
                None => None,
            },
            None => None,
        },
{
    lemma_embed_push(m, tokens, token);
    let f = |row: Seq<K::Cell>| norm_of(m.kernel, row, m.final_norm, m.config.rms_eps);
    if embed_rows(m, tokens) is Some {
        let xs = embed_rows(m, tokens)->0;
        assert(xs.len() == tokens.len());
        if embed_row(m, token) is Some {
            let x = embed_row(m, token)->0;
            lemma_layers_exchange(m, 0, cache.layers, xs, x, cache.position);
            if layers_fold(m, 0, cache.layers, xs, cache.position) is Some {
                let (before, ys) = layers_fold(m, 0, cache.layers, xs, cache.position)->0;
                assert(before.len() == cache.layers.len());
                if layers_row(m, 0, before, x, cache.position + tokens.len()) is Some {
                    let y = (layers_row(m, 0, before, x, cache.position + tokens.len())->0).1;
                    lemma_map_push(ys, y, f);
                }
            }
        }
    }
}

pub proof fn lemma_fold_is_steps<K: Kernel>(m: DecoderModel<K>, cache: CacheView<K::Cell>, tokens: Seq<usize>)
    requires
        m.fits(cache),
        sized(m),
        0 <= cache.position <= usize::MAX,
    ensures
        batch_fold(m, cache, tokens) == steps(m, cache, tokens),
    decreases tokens.len(),
{
    if tokens.len() == 0 {
        let none = Seq::<Seq<K::Cell>>::empty();
        assert(embed_rows(m, tokens)->0 =~= none);
        lemma_layers_nothing(m, 0, cache.layers, cache.position);
        assert(norm_rows(m.kernel, none, m.final_norm, m.config.rms_eps)->0 =~= none);
        assert((batch_fold(m, cache, tokens)->0).0 =~= cache);
    } else {
        let shorter = tokens.drop_last();
        assert(shorter.push(tokens.last()) =~= tokens);
        lemma_fold_is_steps(m, cache, shorter);
        if cache.position + shorter.len() <= usize::MAX {
            lemma_batch_push(m, cache, shorter, tokens.last());
        } else {
            lemma_steps_position(m, cache, shorter);
        }
    }
}

proof fn lemma_in_turn_is_steps<K: Kernel>(m: DecoderModel<K>, cache: CacheView<K::Cell>, tokens: Seq<usize>)
    requires
        m.fits(cache),
        in_turn_from(m, 0, cache.layers),
        tokens.len() > 0,
        0 <= cache.position <= usize::MAX,
    ensures
        batch(m, cache, tokens) == steps(m, cache, tokens),
{
    if embed_rows(m, tokens) is Some {
        lemma_layers_same(m, 0, cache.layers, embed_rows(m, tokens)->0, cache.position);
    }
    assert(batch(m, cache, tokens) == batch_fold(m, cache, tokens));
    if sized(m) {
        lemma_fold_is_steps(m, cache, tokens);
    } else {
        let bad = choose|i: int| 0 <= i < m.layers@.len() && !((#[trigger] m.layers@[i]).attention is Full);
        if embed_rows(m, tokens) is Some {
            lemma_unsized(m, 0, cache.layers, bad, embed_rows(m, tokens)->0, Seq::empty(), cache.position);
        }
        assert(batch(m, cache, tokens) is None);
        lemma_unsized_steps(m, cache, tokens, bad);
    }
}

proof fn lemma_unsized_steps<K: Kernel>(m: DecoderModel<K>, cache: CacheView<K::Cell>, tokens: Seq<usize>, bad: int)
    requires
        m.fits(cache),
        0 <= bad < m.layers@.len(),
        m.layers@[bad].attention is Linear,
        m.config.linear_sizes() is None,
        tokens.len() > 0,
    ensures
        steps(m, cache, tokens) is None,
    decreases tokens.len(),
{
    let shorter = tokens.drop_last();
    if shorter.len() > 0 {
        lemma_unsized_steps(m, cache, shorter, bad);
    } else {
        assert(steps(m, cache, shorter) == Some((cache, Seq::<Seq<K::Cell>>::empty())));
        if embed_row(m, tokens.last()) is Some {
            lemma_unsized(m, 0, cache.layers, bad, Seq::empty(), embed_row(m, tokens.last())->0, cache.position);
        }
    }
}

/// A batch of tokens on a cache that has seen a position leaves the cache and the
/// states that the tokens one by one leave, and is refused where one of them is.
pub proof fn law_batch_is_steps<K: Kernel>(m: DecoderModel<K>, cache: CacheView<K::Cell>, tokens: Seq<usize>)
    requires
        warm(m, cache),
        tokens.len() > 0,
        0 <= cache.position <= usize::MAX,
    ensures
        batch(m, cache, tokens) == steps(m, cache, tokens),
{
    assert(in_turn_from(m, 0, cache.layers)) by {
        assert forall|i: int| 0 <= i < cache.layers.len() implies in_turn(m.kernel, m.config, #[trigger] m.layers@[0 + i], cache.layers[i]) by {
            assert(warm_layer(m.layers@[0 + i], cache.layers[i]));
        }
    }
    lemma_in_turn_is_steps(m, cache, tokens);
}

/// Where the two ways to scale a score agree in every layer, a batch of tokens on any cache
/// leaves what the tokens one by one leave.
pub proof fn law_cold_batch_is_steps<K: Kernel>(m: DecoderModel<K>, cache: CacheView<K::Cell>, tokens: Seq<usize>)
    requires
        reciprocal(m),
        m.fits(cache),
        cache.wf(),
        tokens.len() > 0,
    ensures
        batch(m, cache, tokens) == steps(m, cache, tokens),
{
    assert(in_turn_from(m, 0, cache.layers)) by {
        assert forall|i: int| 0 <= i < cache.layers.len() implies in_turn(m.kernel, m.config, #[trigger] m.layers@[0 + i], cache.layers[i]) by {
            assert(cache.layers[i].wf());
        }
    }
    lemma_in_turn_is_steps(m, cache, tokens);
}

pub proof fn lemma_steps_position<K: Kernel>(m: DecoderModel<K>, cache: CacheView<K::Cell>, tokens: Seq<usize>)
    requires
        cache.position <= usize::MAX,
    ensures
        steps(m, cache, tokens) matches Some(made) ==> made.0.position == cache.position + tokens.len()
            && made.0.position <= usize::MAX && made.1.len() == tokens.len(),
    decreases tokens.len(),
{
    if tokens.len() > 0 {
        lemma_steps_position(m, cache, tokens.drop_last());
    }
}

} // verus!
