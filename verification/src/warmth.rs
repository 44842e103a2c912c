//! What a cache has gained once a token went through the decoder.

use vstd::prelude::*;
use crate::attention::{layout_of, AttentionLayout, FullAttention};
use crate::batching::{warm_from, warm_layer};
use crate::config::CausalDecoderConfig;
use crate::context::{cached_row, cold_rows, fold_rows, prepared_row, projected_row, qkv_row, split_len, v_len};
use crate::heads::{by_heads, every_second, lemma_by_heads_len, normed_heads, turned_row};
use crate::kernel::Kernel;
use crate::kv::{lemma_append_count, lemma_count, LayerView};
use crate::layer::{attention_row, layer_row, layer_rows, norm_of, norm_rows, recur_fold, AttentionBlock, DecoderLayer};
use crate::linear::linear_row;
use crate::model::{batch, batch_hidden, embed_rows, layers_row, layers_rows, step, CacheView, DecoderModel};
use crate::rows::{rms_row, rotations_of, turned};
use crate::tensor::{flatten, lemma_row_bounds, row_of};

verus! {

proof fn lemma_layout<K: Kernel>(k: K, config: CausalDecoderConfig<K::Cell>, attention: FullAttention<K::Cell>, q_dim: int, k_dim: int, v_dim: int)
    requires
        0 <= q_dim <= usize::MAX,
    ensures
        layout_of(k, config, attention, q_dim, k_dim, v_dim) matches Some(layout) ==> {
            &&& layout.wf()
            &&& layout.q_dim() == q_dim
            &&& layout.kv_dim() == k_dim
            &&& layout.kv_dim() == v_dim
        },
{
    if layout_of(k, config, attention, q_dim, k_dim, v_dim) is Some {
        let heads = config.num_attention_heads;
        let head_dim = match crate::attention::or_else(attention.head_dim, config.head_dim) {
            Some(dim) => dim as int,
            None => q_dim / heads as int,
        };
        assert(0 <= head_dim <= q_dim) by (nonlinear_arith)
            requires
                q_dim == heads * head_dim,
                heads >= 1,
                q_dim >= 0,
        ;
    }
}

proof fn lemma_normed_heads_len<K: Kernel>(k: K, row: Seq<K::Cell>, heads: int, head_dim: int, weight: Option<Seq<K::Cell>>, eps: K::Cell)
    requires
        0 <= heads,
        0 <= head_dim,
        row.len() == heads * head_dim,
    ensures
        normed_heads(k, row, heads, head_dim, weight, eps).len() == heads * head_dim,
{
    let piece = |h: int| rms_row(k, row_of(row, head_dim, h), weight, eps);
    assert forall|h: int| 0 <= h < heads implies (#[trigger] piece(h)).len() == head_dim by {
        lemma_row_bounds(h, head_dim, heads);
    }
    lemma_by_heads_len(heads, piece, head_dim);
}

proof fn lemma_turned_row_len<K: Kernel>(k: K, row: Seq<K::Cell>, heads: int, head_dim: int, rope_dims: int, rope: crate::rows::RopeParams<K::Cell>, position: int, style: crate::config::RopeStyle)
    requires
        0 <= heads,
        0 <= head_dim,
        row.len() == heads * head_dim,
    ensures
        turned_row(k, row, heads, head_dim, rope_dims, rope, position, style).len() == heads * head_dim,
{
    let turns = rotations_of(k, position, rope_dims, rope);
    let piece = |h: int| turned(k, row_of(row, head_dim, h), turns, style);
    assert forall|h: int| 0 <= h < heads implies (#[trigger] piece(h)).len() == head_dim by {
        lemma_row_bounds(h, head_dim, heads);
    }
    lemma_by_heads_len(heads, piece, head_dim);
}

proof fn lemma_prepared_len<K: Kernel>(k: K, config: CausalDecoderConfig<K::Cell>, attention: FullAttention<K::Cell>, layout: AttentionLayout<K::Cell>, row: Seq<K::Cell>, heads: int, norm: Option<crate::tensor::Tensor<K::Cell>>, position: int)
    requires
        0 <= heads,
        row.len() == heads * layout.head_dim,
    ensures
        prepared_row(k, config, attention, layout, row, heads, norm, position) matches Some(out) ==> out.len() == row.len(),
{
    let head_dim = layout.head_dim as int;
    let rope = crate::attention::rope_of(k, config, attention);
    let normed = normed_heads(k, row, heads, head_dim, Some((norm->0).data@), config.rms_eps);
    lemma_normed_heads_len(k, row, heads, head_dim, Some((norm->0).data@), config.rms_eps);
    if rope is Some {
        lemma_turned_row_len(k, row, heads, head_dim, layout.rope_dims as int, rope->0, position, config.rope_style);
        lemma_turned_row_len(k, normed, heads, head_dim, layout.rope_dims as int, rope->0, position, config.rope_style);
    }
}

/// Query, key and value rows have the lengths of the layout.
pub proof fn lemma_qkv_len<K: Kernel>(k: K, config: CausalDecoderConfig<K::Cell>, attention: FullAttention<K::Cell>, x: Seq<K::Cell>, position: int)
    ensures
        qkv_row(k, config, attention, x, position) matches Some(row) ==> {
            &&& row.layout.wf()
            &&& row.q.len() == row.layout.q_dim()
            &&& row.key.len() == row.layout.kv_dim()
            &&& row.value.len() == row.layout.kv_dim()
            &&& layout_of(
                k,
                config,
                attention,
                split_len(config, attention.q_proj.out_dim as int),
                attention.k_proj.out_dim as int,
                v_len(attention),
            ) == Some(row.layout)
        },
{
    if qkv_row(k, config, attention, x, position) is Some {
        let (q, gate, key, value) = projected_row(k, config, attention, x)->0;
        let projection = linear_row(k, attention.q_proj, x)->0;
        let q_dim = split_len(config, attention.q_proj.out_dim as int);
        assert(projection.len() == attention.q_proj.out_dim);
        assert(0 <= q_dim <= usize::MAX) by {
            if config.attn_output_gate {
                let heads = config.num_attention_heads as int;
                let head_dim = config.head_dim->0 as int;
                assert(projection.len() == 2 * (heads * head_dim));
                assert(heads * head_dim >= 0) by (nonlinear_arith)
                    requires
                        heads >= 0,
                        head_dim >= 0,
                ;
            }
        }
        lemma_layout(k, config, attention, q_dim, attention.k_proj.out_dim as int, v_len(attention));
        let layout = layout_of(k, config, attention, q_dim, attention.k_proj.out_dim as int, v_len(attention))->0;
        assert(q.len() == q_dim) by {
            if config.attn_output_gate {
                let heads = config.num_attention_heads as int;
                let head_dim = config.head_dim->0 as int;
                let piece = |h: int| row_of(projection, head_dim, 2 * h + if false { 1int } else { 0int });
                assert forall|h: int| 0 <= h < heads implies (#[trigger] piece(h)).len() == head_dim by {
                    lemma_row_bounds(2 * h, head_dim, 2 * heads);
                    assert((2 * heads) * head_dim == 2 * (heads * head_dim)) by (nonlinear_arith);
                }
                lemma_by_heads_len(heads, piece, head_dim);
                assert(every_second(projection, heads, head_dim, false) == by_heads(heads, piece));
            }
        }
        lemma_prepared_len(k, config, attention, layout, q, layout.num_attention_heads as int, attention.q_norm, position);
        lemma_prepared_len(k, config, attention, layout, key, layout.num_key_value_heads as int, attention.k_norm, position);
        lemma_normed_heads_len(k, value, layout.num_key_value_heads as int, layout.head_dim as int, None, config.rms_eps);
    }
}

pub proof fn lemma_cached_row_warm<K: Kernel>(k: K, config: CausalDecoderConfig<K::Cell>, attention: FullAttention<K::Cell>, view: LayerView<K::Cell>, x: Seq<K::Cell>, position: int)
    requires
        view.wf(),
    ensures
        cached_row(k, config, attention, view, x, position) matches Some(made) ==> made.0.wf() && made.0.count() == view.count() + 1
            && made.0.recurrent == view.recurrent,
        view.count() >= 0,
{
    lemma_count_nonneg(view);
    lemma_qkv_len(k, config, attention, x, position);
    if cached_row(k, config, attention, view, x, position) is Some {
        let row = qkv_row(k, config, attention, x, position)->0;
        row.layout.lemma_kv();
        lemma_append_count(view, row.key, row.value, row.layout.kv_dim() as usize);
    }
}

pub proof fn lemma_count_nonneg<C>(view: LayerView<C>)
    ensures
        view.count() >= 0,
{
    if view.kv_dim is Some && view.kv_dim->0 > 0 {
        vstd::arithmetic::div_mod::lemma_div_pos_is_pos(view.keys.len() as int, view.kv_dim->0 as int);
    }
}

proof fn lemma_fold_warm<K: Kernel>(k: K, config: CausalDecoderConfig<K::Cell>, attention: FullAttention<K::Cell>, view: LayerView<K::Cell>, xs: Seq<Seq<K::Cell>>, offset: int)
    requires
        view.wf(),
    ensures
        fold_rows(k, config, attention, view, xs, offset) matches Some(made) ==> made.0.wf() && made.0.count() == view.count() + xs.len(),
    decreases xs.len(),
{
    if xs.len() > 0 {
        lemma_fold_warm(k, config, attention, view, xs.drop_last(), offset);
        if fold_rows(k, config, attention, view, xs.drop_last(), offset) is Some {
            let before = (fold_rows(k, config, attention, view, xs.drop_last(), offset)->0).0;
            lemma_cached_row_warm(k, config, attention, before, xs.last(), offset + xs.len() - 1);
        }
    }
}

/// Rows of one length laid one after the other.
pub proof fn lemma_flatten_len<C>(rows: Seq<Seq<C>>, size: int)
    requires
        forall|i: int| 0 <= i < rows.len() ==> (#[trigger] rows[i]).len() == size,
    ensures
        flatten(rows).len() == rows.len() * size,
    decreases rows.len(),
{
    if rows.len() > 0 {
        assert forall|i: int| 0 <= i < rows.drop_last().len() implies (#[trigger] rows.drop_last()[i]).len() == size by {
            assert(rows.drop_last()[i] == rows[i]);
        }
        lemma_flatten_len(rows.drop_last(), size);
        assert(rows.last() == rows[rows.len() - 1]);
        assert((rows.len() - 1) * size + size == rows.len() * size) by (nonlinear_arith);
    } else {
        assert(0 * size == 0) by (nonlinear_arith);
    }
}

proof fn lemma_cold_warm<K: Kernel>(k: K, config: CausalDecoderConfig<K::Cell>, attention: FullAttention<K::Cell>, view: LayerView<K::Cell>, xs: Seq<Seq<K::Cell>>, offset: int)
    requires
        view.wf(),
        view.count() == 0,
        xs.len() > 0,
    ensures
        cold_rows(k, config, attention, view, xs, offset) matches Some(made) ==> made.0.wf() && made.0.count() == xs.len(),
{
    if cold_rows(k, config, attention, view, xs, offset) is Some {
        let first = qkv_row(k, config, attention, xs[0], offset + 0);
        assert(first is Some);
        let layout = (first->0).layout;
        lemma_qkv_len(k, config, attention, xs[0], offset);
        layout.lemma_kv();
        let keys = Seq::new(xs.len(), |i: int| (qkv_row(k, config, attention, xs[i], offset + i)->0).key);
        let values = Seq::new(xs.len(), |i: int| (qkv_row(k, config, attention, xs[i], offset + i)->0).value);
        assert forall|i: int| 0 <= i < xs.len() implies (#[trigger] keys[i]).len() == layout.kv_dim() by {
            assert(qkv_row(k, config, attention, xs[i], offset + i) is Some);
            lemma_qkv_len(k, config, attention, xs[i], offset + i);
        }
        assert forall|i: int| 0 <= i < xs.len() implies (#[trigger] values[i]).len() == layout.kv_dim() by {
            assert(qkv_row(k, config, attention, xs[i], offset + i) is Some);
            lemma_qkv_len(k, config, attention, xs[i], offset + i);
        }
        lemma_flatten_len(keys, layout.kv_dim());
        lemma_flatten_len(values, layout.kv_dim());
        assert(view.keys.len() == 0) by {
            if view.kv_dim is Some {
                assert(0 * (view.kv_dim->0) == 0);
            }
        }
        let after = (cold_rows(k, config, attention, view, xs, offset)->0).0;
        assert(after.keys =~= flatten(keys));
        assert(after.values =~= flatten(values));
        lemma_count(after, xs.len() as int, layout.kv_dim() as usize);
    }
}

/// The number of positions that a layer's cache gained.
pub open spec fn gained<C>(layer: DecoderLayer<C>, before: LayerView<C>, after: LayerView<C>, rows: int) -> bool {
    &&& after.wf()
    &&& layer.attention is Full ==> after.count() == before.count() + rows
}

pub proof fn lemma_layer_row_gains<K: Kernel>(k: K, config: CausalDecoderConfig<K::Cell>, layer: DecoderLayer<K::Cell>, view: LayerView<K::Cell>, x: Seq<K::Cell>, position: int)
    requires
        view.wf(),
    ensures
        layer_row(k, config, layer, view, x, position) matches Some(made) ==> gained(layer, view, made.0, 1) && made.1.len() == x.len(),
{
    if layer_row(k, config, layer, view, x, position) is Some {
        let normed = norm_of(k, x, layer.input_norm, config.rms_eps)->0;
        match layer.attention {
            AttentionBlock::Full(attention) => {
                lemma_cached_row_warm(k, config, attention, view, normed, position);
            },
            AttentionBlock::Linear(weights) => {},
        }
        let attn = (attention_row(k, config, layer, view, x, position)->0).1;
        crate::layer::lemma_combined_len(k, config, layer, x, attn);
    }
}

pub proof fn lemma_layer_rows_gains<K: Kernel>(k: K, config: CausalDecoderConfig<K::Cell>, layer: DecoderLayer<K::Cell>, view: LayerView<K::Cell>, xs: Seq<Seq<K::Cell>>, offset: int)
    requires
        view.wf(),
        xs.len() > 0,
    ensures
        layer_rows(k, config, layer, view, xs, offset) matches Some(made) ==> gained(layer, view, made.0, xs.len() as int) && made.1.len() == xs.len(),
{
    if layer_rows(k, config, layer, view, xs, offset) is Some {
        let normed = norm_rows(k, xs, layer.input_norm, config.rms_eps)->0;
        assert(normed.len() == xs.len());
        match layer.attention {
            AttentionBlock::Full(attention) => {
                lemma_count_nonneg(view);
                if view.count() == 0 {
                    lemma_cold_warm(k, config, attention, view, normed, offset);
                } else {
                    lemma_fold_warm(k, config, attention, view, normed, offset);
                }
            },
            AttentionBlock::Linear(weights) => {
                lemma_recur_keeps(k, weights, config.linear_sizes()->0, view, normed);
            },
        }
    }
}

proof fn lemma_recur_keeps<K: Kernel>(k: K, weights: crate::weights::LinearAttentionWeights<K::Cell>, sizes: crate::weights::LinearAttentionConfig, view: LayerView<K::Cell>, xs: Seq<Seq<K::Cell>>)
    requires
        view.wf(),
    ensures
        recur_fold(k, weights, sizes, view, xs).0.wf(),
    decreases xs.len(),
{
    if xs.len() > 0 {
        lemma_recur_keeps(k, weights, sizes, view, xs.drop_last());
    }
}

/// Every layer's cache is in order.
pub open spec fn views_wf<C>(views: Seq<LayerView<C>>) -> bool {
    forall|i: int| 0 <= i < views.len() ==> (#[trigger] views[i]).wf()
}

/// Every full layer's cache from layer `l` on has at least `count` positions.
pub open spec fn seen_from<K: Kernel>(m: DecoderModel<K>, l: int, views: Seq<LayerView<K::Cell>>, count: int) -> bool {
    forall|i: int|
        0 <= i < views.len() && (#[trigger] m.layers@[l + i]).attention is Full ==> views[i].count() >= count
}

proof fn lemma_layers_row_gains<K: Kernel>(m: DecoderModel<K>, l: int, views: Seq<LayerView<K::Cell>>, x: Seq<K::Cell>, position: int, count: int)
    requires
        views_wf(views),
        seen_from(m, l, views, count),
    ensures
        layers_row(m, l, views, x, position) matches Some(made) ==> {
            &&& views_wf(made.0)
            &&& made.0.len() == views.len()
            &&& seen_from(m, l, made.0, count + 1)
            &&& made.1.len() == x.len()
        },
    decreases views.len(),
{
    if views.len() > 0 && layers_row(m, l, views, x, position) is Some {
        let layer = m.layers@[l];
        lemma_layer_row_gains(m.kernel, m.config, layer, views[0], x, position);
        let (after, y) = layer_row(m.kernel, m.config, layer, views[0], x, position)->0;
        let rest = views.drop_first();
        assert(seen_from(m, l + 1, rest, count)) by {
            assert forall|i: int| 0 <= i < rest.len() && (#[trigger] m.layers@[l + 1 + i]).attention is Full implies rest[i].count() >= count by {
                assert(m.layers@[l + (i + 1)].attention is Full);
            }
        }
        lemma_layers_row_gains(m, l + 1, rest, y, position, count);
        let deeper = (layers_row(m, l + 1, rest, y, position)->0).0;
        let all = seq![after] + deeper;
        assert forall|i: int| 0 <= i < all.len() implies (#[trigger] all[i]).wf() by {
            if i > 0 {
                assert(all[i] == deeper[i - 1]);
            }
        }
        assert forall|i: int| 0 <= i < all.len() && (#[trigger] m.layers@[l + i]).attention is Full implies all[i].count() >= count + 1 by {
            if i > 0 {
                assert(all[i] == deeper[i - 1]);
                assert(m.layers@[l + 1 + (i - 1)].attention is Full);
            } else {
                assert(m.layers@[l + 0].attention is Full);
            }
        }
    }
}

proof fn lemma_layers_rows_gains<K: Kernel>(m: DecoderModel<K>, l: int, views: Seq<LayerView<K::Cell>>, xs: Seq<Seq<K::Cell>>, offset: int, count: int)
    requires
        views_wf(views),
        xs.len() > 0,
        seen_from(m, l, views, count),
    ensures
        layers_rows(m, l, views, xs, offset) matches Some(made) ==> {
            &&& views_wf(made.0)
            &&& made.0.len() == views.len()
            &&& seen_from(m, l, made.0, count + xs.len())
            &&& made.1.len() == xs.len()
        },
    decreases views.len(),
{
    if views.len() > 0 && layers_rows(m, l, views, xs, offset) is Some {
        let layer = m.layers@[l];
        lemma_layer_rows_gains(m.kernel, m.config, layer, views[0], xs, offset);
        let (after, ys) = layer_rows(m.kernel, m.config, layer, views[0], xs, offset)->0;
        let rest = views.drop_first();
        assert(seen_from(m, l + 1, rest, count)) by {
            assert forall|i: int| 0 <= i < rest.len() && (#[trigger] m.layers@[l + 1 + i]).attention is Full implies rest[i].count() >= count by {
                assert(m.layers@[l + (i + 1)].attention is Full);
            }
        }
        lemma_layers_rows_gains(m, l + 1, rest, ys, offset, count);
        let deeper = (layers_rows(m, l + 1, rest, ys, offset)->0).0;
        let all = seq![after] + deeper;
        assert forall|i: int| 0 <= i < all.len() implies (#[trigger] all[i]).wf() by {
            if i > 0 {
                assert(all[i] == deeper[i - 1]);
            }
        }
        assert forall|i: int| 0 <= i < all.len() && (#[trigger] m.layers@[l + i]).attention is Full implies all[i].count() >= count + xs.len() by {
            if i > 0 {
                assert(all[i] == deeper[i - 1]);
                assert(m.layers@[l + 1 + (i - 1)].attention is Full);
            } else {
                assert(m.layers@[l + 0].attention is Full);
            }
        }
    }
}

/// Every full layer has seen at least `count` positions.
pub open spec fn seen<K: Kernel>(m: DecoderModel<K>, cache: CacheView<K::Cell>, count: int) -> bool {
    &&& m.fits(cache)
    &&& cache.wf()
    &&& seen_from(m, 0, cache.layers, count)
}

/// A token through the decoder adds a position to every full layer.
pub proof fn law_step_gains<K: Kernel>(m: DecoderModel<K>, cache: CacheView<K::Cell>, token: usize, count: int)
    requires
        seen(m, cache, count),
    ensures
        step(m, cache, token) matches Some(made) ==> seen(m, made.0, count + 1) && made.0.position == cache.position + 1
            && made.1.len() == m.hidden(),
{
    if step(m, cache, token) is Some {
        let x = crate::model::embed_row(m, token)->0;
        lemma_layers_row_gains(m, 0, cache.layers, x, cache.position, count);
    }
}

/// A batch of tokens through the decoder adds as many positions to every full
/// layer.
pub proof fn law_batch_gains<K: Kernel>(m: DecoderModel<K>, cache: CacheView<K::Cell>, tokens: Seq<usize>, count: int)
    requires
        seen(m, cache, count),
    ensures
        batch_hidden(m, cache, tokens) matches Some(made) ==> seen(m, made.0, count + tokens.len()) && made.0.position
            == cache.position + tokens.len() && made.1.len() == tokens.len(),
        batch(m, cache, tokens) matches Some(made) ==> seen(m, made.0, count + tokens.len()) && made.0.position
            == cache.position + tokens.len() && made.1.len() == tokens.len(),
{
    if batch_hidden(m, cache, tokens) is Some {
        let xs = embed_rows(m, tokens)->0;
        assert(xs.len() == tokens.len());
        lemma_layers_rows_gains(m, 0, cache.layers, xs, cache.position, count);
    }
}

/// A cache whose full layers have seen a position takes rows one after the other.
pub proof fn lemma_seen_is_warm<K: Kernel>(m: DecoderModel<K>, cache: CacheView<K::Cell>, count: int)
    requires
        seen(m, cache, count),
        count > 0,
    ensures
        warm_from(m, 0, cache.layers),
{
    assert forall|i: int| 0 <= i < cache.layers.len() implies warm_layer(#[trigger] m.layers@[0 + i], cache.layers[i]) by {
        if m.layers@[0 + i].attention is Full {
            assert(cache.layers[i].count() >= count);
        }
    }
}

/// A fresh cache has seen nothing, and is in order.
pub proof fn lemma_fresh_seen<K: Kernel>(m: DecoderModel<K>)
    ensures
        seen(m, m.fresh(), 0),
{
}

} // verus!
