//! Why rows taken together on an empty cache see what they would see one by one.

use vstd::prelude::*;
use crate::attend::{attend_of, cached_context, causal_context, dividing, head_context, head_part, mixed, multiplying, scaled_of, score_of, weights_of};
use crate::attention::{layout_of, AttentionLayout, FullAttention};
use crate::config::CausalDecoderConfig;
use crate::context::{cannot_prepare, cold_rows, fold_rows, gate_context, lemma_fold_none, lemma_fold_step, qkv_row, split_len, v_len};
use crate::kernel::Kernel;
use crate::kv::{lemma_count, LayerView};
use crate::layer::AttentionBlock;
use crate::model::DecoderModel;
use crate::tensor::{flatten, lemma_row_bounds, row_of};
use crate::warmth::{lemma_flatten_len, lemma_qkv_len};

verus! {

/// To divide by the root of this scalar is to multiply by one over the root. In binary
/// floating point that holds where the root is a power of two.
pub open spec fn even<K: Kernel>(k: K, scalar: K::Cell) -> bool {
    forall|dot: K::Cell| scaled_of(k, dot, dividing(k, scalar)) == #[trigger] scaled_of(k, dot, multiplying(k, scalar))
}

/// The layout of a layer, where its sizes agree.
pub open spec fn layer_layout<K: Kernel>(k: K, config: CausalDecoderConfig<K::Cell>, attention: FullAttention<K::Cell>) -> Option<AttentionLayout<K::Cell>> {
    layout_of(
        k,
        config,
        attention,
        split_len(config, attention.q_proj.out_dim as int),
        attention.k_proj.out_dim as int,
        v_len(attention),
    )
}

/// In this layer the two ways to scale a score agree.
pub open spec fn even_layer<K: Kernel>(k: K, config: CausalDecoderConfig<K::Cell>, attention: FullAttention<K::Cell>) -> bool {
    layer_layout(k, config, attention) matches Some(layout) ==> even(k, layout.attn_scalar)
}

/// In every layer with full attention the two ways to scale a score agree.
pub open spec fn reciprocal<K: Kernel>(m: DecoderModel<K>) -> bool {
    forall|l: int|
        0 <= l < m.layers@.len() ==> ((#[trigger] m.layers@[l]).attention matches AttentionBlock::Full(attention) ==> even_layer(
            m.kernel,
            m.config,
            attention,
        ))
}

proof fn lemma_mixed_prefix<K: Kernel>(k: K, weights: Seq<K::Cell>, short: Seq<K::Cell>, long: Seq<K::Cell>, start: int, row_len: int, at: int)
    requires
        0 <= start,
        0 <= at < row_len,
        short.len() >= (start + weights.len()) * row_len,
        short.len() <= long.len(),
        short == long.take(short.len() as int),
    ensures
        mixed(k, weights, short, start, row_len, at) == mixed(k, weights, long, start, row_len, at),
    decreases weights.len(),
{
    if weights.len() > 0 {
        let row = start + weights.len() - 1;
        lemma_row_bounds(row, row_len, row + 1);
        lemma_mixed_prefix(k, weights.drop_last(), short, long, start, row_len, at);
        assert(short[row * row_len + at] == long[row * row_len + at]);
    }
}

/// Attention reads nothing behind its last position, and where the two ways to scale a
/// score agree it makes no difference which is taken.
proof fn lemma_attend_same<K: Kernel>(k: K, q: Seq<K::Cell>, layout: AttentionLayout<K::Cell>, keys: Seq<K::Cell>, values: Seq<K::Cell>, all_keys: Seq<K::Cell>, all_values: Seq<K::Cell>, start: int, end: int)
    requires
        even(k, layout.attn_scalar),
        layout.wf(),
        q.len() == layout.q_dim(),
        0 <= start <= end,
        keys.len() >= end * layout.kv_dim(),
        values.len() >= end * layout.kv_dim(),
        keys.len() <= all_keys.len(),
        values.len() <= all_values.len(),
        keys == all_keys.take(keys.len() as int),
        values == all_values.take(values.len() as int),
    ensures
        attend_of(k, q, keys, values, layout, start, end, multiplying(k, layout.attn_scalar)) == attend_of(
            k,
            q,
            all_keys,
            all_values,
            layout,
            start,
            end,
            dividing(k, layout.attn_scalar),
        ),
{
    let heads = layout.num_attention_heads as int;
    let head_dim = layout.head_dim as int;
    let row_len = layout.kv_dim();
    let by = multiplying(k, layout.attn_scalar);
    let over_root = dividing(k, layout.attn_scalar);
    layout.lemma_kv();
    let left = |h: int| head_context(k, row_of(q, head_dim, h), keys, values, row_len, layout.kv_head(h), start, end, by);
    let right = |h: int|
        head_context(k, row_of(q, head_dim, h), all_keys, all_values, row_len, layout.kv_head(h), start, end, over_root);
    let lefts = Seq::new(heads as nat, left);
    let rights = Seq::new(heads as nat, right);
    assert forall|h: int| 0 <= h < heads implies #[trigger] lefts[h] == rights[h] by {
        let q_head = row_of(q, head_dim, h);
        let kv_head = layout.kv_head(h);
        lemma_row_bounds(h, head_dim, heads);
        lemma_row_bounds(kv_head, head_dim, layout.num_key_value_heads as int);
        let n = (end - start) as nat;
        let scores = Seq::new(n, |i: int| score_of(k, q_head, keys, start + i, row_len, kv_head, by));
        let scores_all = Seq::new(n, |i: int| score_of(k, q_head, all_keys, start + i, row_len, kv_head, over_root));
        assert forall|i: int| 0 <= i < n implies scores[i] == scores_all[i] by {
            lemma_row_bounds(start + i, row_len, end);
            assert(head_part(keys, start + i, row_len, kv_head, head_dim) =~= head_part(all_keys, start + i, row_len, kv_head, head_dim));
        }
        assert(scores =~= scores_all);
        let weights = weights_of(k, q_head, keys, row_len, kv_head, start, end, by);
        assert(weights == weights_of(k, q_head, all_keys, row_len, kv_head, start, end, over_root));
        assert(weights.len() == n);
        let one = lefts[h];
        let other = rights[h];
        assert forall|c: int| 0 <= c < head_dim implies #[trigger] one[c] == other[c] by {
            lemma_mixed_prefix(k, weights, values, all_values, start, row_len, kv_head * head_dim + c);
        }
        assert(one =~= other);
    }
    assert(lefts =~= rights);
}

proof fn lemma_flatten_prefix<C>(rows: Seq<Seq<C>>, n: int)
    requires
        0 <= n <= rows.len(),
    ensures
        flatten(rows.take(n)).len() <= flatten(rows).len(),
        flatten(rows.take(n)) == flatten(rows).take(flatten(rows.take(n)).len() as int),
    decreases rows.len(),
{
    if n == rows.len() {
        assert(rows.take(n) =~= rows);
        assert(flatten(rows).take(flatten(rows).len() as int) =~= flatten(rows));
    } else {
        lemma_flatten_prefix(rows.drop_last(), n);
        assert(rows.drop_last().take(n) =~= rows.take(n));
        let short = flatten(rows.take(n));
        assert(flatten(rows).take(short.len() as int) =~= flatten(rows.drop_last()).take(short.len() as int));
    }
}

/// Where the two ways to scale a score agree, rows taken together on a cache without
/// positions leave the cache and the contexts that they leave one by one.
pub proof fn lemma_cold_is_fold<K: Kernel>(k: K, config: CausalDecoderConfig<K::Cell>, attention: FullAttention<K::Cell>, view: LayerView<K::Cell>, xs: Seq<Seq<K::Cell>>, offset: int)
    requires
        even_layer(k, config, attention),
        view.wf(),
        view.count() == 0,
        xs.len() > 0,
    ensures
        cold_rows(k, config, attention, view, xs, offset) == fold_rows(k, config, attention, view, xs, offset),
{
    if cannot_prepare(k, config, attention, xs, offset) {
        let i = choose|i: int| 0 <= i < xs.len() && #[trigger] qkv_row(k, config, attention, xs[i], offset + i) is None;
        lemma_fold_step(k, config, attention, view, xs, offset, i);
        lemma_fold_none(k, config, attention, view, xs, offset, i + 1);
    } else {
        assert(qkv_row(k, config, attention, xs[0], offset + 0) is Some);
        let layout = (qkv_row(k, config, attention, xs[0], offset)->0).layout;
        lemma_qkv_len(k, config, attention, xs[0], offset);
        if !view.accepts(layout.kv_dim()) {
            lemma_fold_step(k, config, attention, view, xs, offset, 0);
            lemma_fold_none(k, config, attention, view, xs, offset, 1);
        } else {
            lemma_cold_prefix(k, config, attention, view, xs, offset, layout, xs.len() as int);
            let keys = Seq::new(xs.len(), |i: int| (qkv_row(k, config, attention, xs[i], offset + i)->0).key);
            let values = Seq::new(xs.len(), |i: int| (qkv_row(k, config, attention, xs[i], offset + i)->0).value);
            let made = cold_rows(k, config, attention, view, xs, offset)->0;
            assert(xs.take(xs.len() as int) =~= xs);
            assert(keys.take(xs.len() as int) =~= keys);
            assert(values.take(xs.len() as int) =~= values);
            let contexts = Seq::new(
                xs.len(),
                |i: int|
                    {
                        let row = qkv_row(k, config, attention, xs[i], offset + i)->0;
                        gate_context(k, causal_context(k, row.q, flatten(keys), flatten(values), layout, i), row.gate)
                    },
            );
            assert(made.1 =~= contexts);
        }
    }
}

proof fn lemma_cold_prefix<K: Kernel>(k: K, config: CausalDecoderConfig<K::Cell>, attention: FullAttention<K::Cell>, view: LayerView<K::Cell>, xs: Seq<Seq<K::Cell>>, offset: int, layout: AttentionLayout<K::Cell>, n: int)
    requires
        even_layer(k, config, attention),
        view.wf(),
        view.count() == 0,
        xs.len() > 0,
        0 <= n <= xs.len(),
        !cannot_prepare(k, config, attention, xs, offset),
        (qkv_row(k, config, attention, xs[0], offset)->0).layout == layout,
        view.accepts(layout.kv_dim()),
    ensures
        ({
            let keys = Seq::new(xs.len(), |i: int| (qkv_row(k, config, attention, xs[i], offset + i)->0).key);
            let values = Seq::new(xs.len(), |i: int| (qkv_row(k, config, attention, xs[i], offset + i)->0).value);
            let contexts = Seq::new(
                n as nat,
                |i: int|
                    {
                        let row = qkv_row(k, config, attention, xs[i], offset + i)->0;
                        gate_context(k, causal_context(k, row.q, flatten(keys), flatten(values), layout, i), row.gate)
                    },
            );
            let after = if n == 0 {
                view
            } else {
                view.append(flatten(keys.take(n)), flatten(values.take(n)), layout.kv_dim() as usize)
            };
            fold_rows(k, config, attention, view, xs.take(n), offset) == Some((after, contexts))
        }),
    decreases n,
{
    let keys = Seq::new(xs.len(), |i: int| (qkv_row(k, config, attention, xs[i], offset + i)->0).key);
    let values = Seq::new(xs.len(), |i: int| (qkv_row(k, config, attention, xs[i], offset + i)->0).value);
    let context_at = |i: int|
        {
            let row = qkv_row(k, config, attention, xs[i], offset + i)->0;
            gate_context(k, causal_context(k, row.q, flatten(keys), flatten(values), layout, i), row.gate)
        };
    let dim = layout.kv_dim() as usize;
    assert(qkv_row(k, config, attention, xs[0], offset + 0) is Some);
    lemma_qkv_len(k, config, attention, xs[0], offset);
    layout.lemma_kv();
    if n == 0 {
        assert(xs.take(0).len() == 0);
        assert(Seq::new(0, context_at) =~= Seq::<Seq<K::Cell>>::empty());
    } else {
        let i = n - 1;
        lemma_cold_prefix(k, config, attention, view, xs, offset, layout, i);
        lemma_fold_step(k, config, attention, view, xs, offset, i);
        assert(qkv_row(k, config, attention, xs[i], offset + i) is Some);
        let row = qkv_row(k, config, attention, xs[i], offset + i)->0;
        lemma_qkv_len(k, config, attention, xs[i], offset + i);
        assert(row.layout == layout);
        assert forall|j: int| 0 <= j < xs.len() implies (#[trigger] keys[j]).len() == dim by {
            assert(qkv_row(k, config, attention, xs[j], offset + j) is Some);
            lemma_qkv_len(k, config, attention, xs[j], offset + j);
        }
        assert forall|j: int| 0 <= j < xs.len() implies (#[trigger] values[j]).len() == dim by {
            assert(qkv_row(k, config, attention, xs[j], offset + j) is Some);
            lemma_qkv_len(k, config, attention, xs[j], offset + j);
        }
        assert(view.keys.len() == 0 && view.values.len() == 0) by {
            if view.kv_dim is Some {
                assert(0 * (view.kv_dim->0) == 0);
            }
        }
        let before = if i == 0 {
            view
        } else {
            view.append(flatten(keys.take(i)), flatten(values.take(i)), dim)
        };
        let after = view.append(flatten(keys.take(n)), flatten(values.take(n)), dim);
        assert(keys.take(n).drop_last() =~= keys.take(i));
        assert(values.take(n).drop_last() =~= values.take(i));
        assert(flatten(keys.take(n)) == flatten(keys.take(i)) + row.key);
        assert(flatten(values.take(n)) == flatten(values.take(i)) + row.value);
        if i == 0 {
            assert(keys.take(0).len() == 0 && values.take(0).len() == 0);
            assert(flatten(keys.take(0)) =~= Seq::<K::Cell>::empty());
            assert(flatten(values.take(0)) =~= Seq::<K::Cell>::empty());
        }
        assert(before.append(row.key, row.value, dim) =~= after);
        lemma_flatten_len(keys.take(n), dim as int);
        lemma_flatten_len(values.take(n), dim as int);
        assert(after.keys =~= flatten(keys.take(n)));
        assert(after.values =~= flatten(values.take(n)));
        lemma_count(after, n, dim);
        lemma_flatten_prefix(keys, n);
        lemma_flatten_prefix(values, n);
        lemma_attend_same(
            k,
            row.q,
            layout,
            after.keys,
            after.values,
            flatten(keys),
            flatten(values),
            layout.window_start(n),
            n,
        );
        assert(gate_context(k, cached_context(k, row.q, after, layout), row.gate) == context_at(i));
        assert(Seq::new(i as nat, context_at).push(context_at(i)) =~= Seq::new(n as nat, context_at));
    }
}

} // verus!
