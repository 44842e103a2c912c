//! From a normalised row to the context of its attention.

use vstd::prelude::*;
use crate::attend::{cached_attention_one, cached_context, causal_attention, causal_context};
use crate::attention::{attention_layout, layout_of, rope_of, rope_params, turns, AttentionLayout, FullAttention};
use crate::config::CausalDecoderConfig;
use crate::error::InferError;
use crate::heads::{apply_rope_heads_at, every_second, fits_head, gated_q_dim, normed_heads, positions_fit, rms_norm_heads, rms_norm_heads_no_scale, rms_norm_rope_heads_at, split_attention_gate, turned_row};
use crate::kernel::{at_most_of, constant_of, functional, Constant, Kernel};
use crate::kv::{lemma_append_count, LayerKvCache, LayerView};
use crate::linear::{forward_linear, linear_row, linear_rows, map_rows};
use crate::rows::{gate_row, gated_row, RopeParams};
use crate::tensor::{copy_range, flatten, lemma_row_bounds, row_of, rows_of, Tensor};

verus! {

/// Query, gate, key and value of one position.
#[verifier::ext_equal]
pub struct QkvRow<C> {
    pub q: Seq<C>,
    pub gate: Option<Seq<C>>,
    pub key: Seq<C>,
    pub value: Seq<C>,
    pub layout: AttentionLayout<C>,
}

/// A query or key row, normalised where both have norms, and turned where the
/// layer turns its rows.
pub open spec fn prepared_row<K: Kernel>(
    k: K,
    config: CausalDecoderConfig<K::Cell>,
    attention: FullAttention<K::Cell>,
    layout: AttentionLayout<K::Cell>,
    row: Seq<K::Cell>,
    heads: int,
    norm: Option<Tensor<K::Cell>>,
    position: int,
) -> Option<Seq<K::Cell>> {
    let head_dim = layout.head_dim as int;
    let rope_dims = layout.rope_dims as int;
    if attention.q_norm is Some && attention.k_norm is Some {
        let normed = normed_heads(k, row, heads, head_dim, Some((norm->0).data@), config.rms_eps);
        if !fits_head(norm->0, head_dim) {
            None
        } else {
            match rope_of(k, config, attention) {
                Some(rope) => Some(
                    turned_row(k, normed, heads, head_dim, rope_dims, rope, position, config.rope_style),
                ),
                None => Some(normed),
            }
        }
    } else {
        match rope_of(k, config, attention) {
            Some(rope) => if at_most_of(k, rope.theta, constant_of(k, Constant::Zero)) {
                None
            } else {
                Some(turned_row(k, row, heads, head_dim, rope_dims, rope, position, config.rope_style))
            },
            None => Some(row),
        }
    }
}

/// A query projection split into queries and what scales the output.
pub open spec fn split_row<C>(config: CausalDecoderConfig<C>, row: Seq<C>) -> Option<(Seq<C>, Option<Seq<C>>)> {
    if !config.attn_output_gate {
        Some((row, None))
    } else {
        match gated_q_dim(config) {
            Some(dim) => if row.len() == 2 * dim {
                let heads = config.num_attention_heads as int;
                let head_dim = config.head_dim->0 as int;
                Some((every_second(row, heads, head_dim, false), Some(every_second(row, heads, head_dim, true))))
            } else {
                None
            },
            None => None,
        }
    }
}

/// Length of the query part of a query projection.
pub open spec fn split_len<C>(config: CausalDecoderConfig<C>, cols: int) -> int {
    if config.attn_output_gate {
        gated_q_dim(config)->0
    } else {
        cols
    }
}

/// The projections of a row, before anything depends on its position.
pub open spec fn projected_row<K: Kernel>(k: K, config: CausalDecoderConfig<K::Cell>, attention: FullAttention<K::Cell>, x: Seq<K::Cell>) -> Option<(Seq<K::Cell>, Option<Seq<K::Cell>>, Seq<K::Cell>, Seq<K::Cell>)> {
    match (linear_row(k, attention.q_proj, x), linear_row(k, attention.k_proj, x)) {
        (Some(projection), Some(key)) => {
            let value = match attention.v_proj {
                Some(v_proj) => linear_row(k, v_proj, x),
                None => Some(key),
            };
            match (value, split_row(config, projection)) {
                (Some(value), Some(parts)) => Some((parts.0, parts.1, key, value)),
                _ => None,
            }
        },
        _ => None,
    }
}

/// Query, gate, key and value of a row at a position.
pub open spec fn qkv_row<K: Kernel>(k: K, config: CausalDecoderConfig<K::Cell>, attention: FullAttention<K::Cell>, x: Seq<K::Cell>, position: int) -> Option<QkvRow<K::Cell>> {
    match projected_row(k, config, attention, x) {
        Some((q, gate, key, value)) => {
            match layout_of(
                k,
                config,
                attention,
                split_len(config, attention.q_proj.out_dim as int),
                attention.k_proj.out_dim as int,
                v_len(attention),
            ) {
                Some(layout) => {
                    let heads = layout.num_attention_heads as int;
                    let kv_heads = layout.num_key_value_heads as int;
                    let value = if attention.value_norm {
                        normed_heads(k, value, kv_heads, layout.head_dim as int, None, config.rms_eps)
                    } else {
                        value
                    };
                    match (
                        prepared_row(k, config, attention, layout, q, heads, attention.q_norm, position),
                        prepared_row(k, config, attention, layout, key, kv_heads, attention.k_norm, position),
                    ) {
                        (Some(q), Some(key)) => if turns(config, attention) && position > usize::MAX {
                            None
                        } else {
                            Some(QkvRow { q, gate, key, value, layout })
                        },
                        _ => None,
                    }
                },
                None => None,
            }
        },
        None => None,
    }
}

/// Length of a value row.
pub open spec fn v_len<C>(attention: FullAttention<C>) -> int {
    match attention.v_proj {
        Some(v_proj) => v_proj.out_dim as int,
        None => attention.k_proj.out_dim as int,
    }
}

/// Queries, gates, keys and values of consecutive positions.
pub struct Prepared<C> {
    pub q: Tensor<C>,
    pub gate: Option<Tensor<C>>,
    pub key: Tensor<C>,
    pub value: Tensor<C>,
    pub layout: AttentionLayout<C>,
}

impl<C: Copy> Prepared<C> {
    pub open spec fn wf(&self, rows: int) -> bool {
        &&& self.layout.wf()
        &&& self.q.is_matrix() && self.q.shape@[0] == rows && self.q.cols() == self.layout.q_dim()
        &&& self.key.is_matrix() && self.key.shape@[0] == rows && self.key.cols() == self.layout.kv_dim()
        &&& self.value.is_matrix() && self.value.shape@[0] == rows && self.value.cols() == self.layout.kv_dim()
        &&& self.gate matches Some(gate) ==> gate.is_matrix() && gate.shape@[0] == rows && gate.cols()
            == self.layout.q_dim()
    }

    /// What is prepared for position `i` of the batch.
    pub open spec fn at(&self, i: int) -> QkvRow<C> {
        QkvRow {
            q: self.q.rows()[i],
            gate: match self.gate {
                Some(gate) => Some(gate.rows()[i]),
                None => None,
            },
            key: self.key.rows()[i],
            value: self.value.rows()[i],
            layout: self.layout,
        }
    }
}

/// A row is prepared as the model says, for each of the rows.
pub open spec fn prepares<K: Kernel>(k: K, config: CausalDecoderConfig<K::Cell>, attention: FullAttention<K::Cell>, rows: Seq<Seq<K::Cell>>, offset: int, made: Prepared<K::Cell>) -> bool {
    forall|i: int| 0 <= i < rows.len() ==> #[trigger] qkv_row(k, config, attention, rows[i], offset + i) == Some(made.at(i))
}

/// No row can be skipped: one of them has no preparation.
pub open spec fn cannot_prepare<K: Kernel>(k: K, config: CausalDecoderConfig<K::Cell>, attention: FullAttention<K::Cell>, rows: Seq<Seq<K::Cell>>, offset: int) -> bool {
    exists|i: int| 0 <= i < rows.len() && #[trigger] qkv_row(k, config, attention, rows[i], offset + i) is None
}

/// Queries, keys and values of a batch of rows.
pub fn project_qkv<K: Kernel>(k: &K, normed: &Tensor<K::Cell>, attention: &FullAttention<K::Cell>) -> (out: Result<(Tensor<K::Cell>, Tensor<K::Cell>, Tensor<K::Cell>), InferError>)
    requires
        attention.wf(),
        normed.is_matrix(),
    ensures
        out matches Err(error) ==> error is Dimension,
        out matches Ok(out) ==> {
            &&& out.0.is_matrix() && out.0.shape@[0] == normed.shape@[0] && out.0.cols() == attention.q_proj.out_dim
            &&& out.1.is_matrix() && out.1.shape@[0] == normed.shape@[0] && out.1.cols() == attention.k_proj.out_dim
            &&& out.2.is_matrix() && out.2.shape@[0] == normed.shape@[0] && out.2.cols() == v_len(*attention)
        },
        functional(*k) ==> match out {
            Ok(out) => {
                &&& linear_rows(*k, attention.q_proj, normed.rows()) == Some(out.0.rows())
                &&& linear_rows(*k, attention.k_proj, normed.rows()) == Some(out.1.rows())
                &&& match attention.v_proj {
                    Some(v_proj) => linear_rows(*k, v_proj, normed.rows()) == Some(out.2.rows()),
                    None => out.2.rows() == out.1.rows(),
                }
            },
            Err(_) => {
                ||| linear_rows(*k, attention.q_proj, normed.rows()) is None
                ||| linear_rows(*k, attention.k_proj, normed.rows()) is None
                ||| attention.v_proj matches Some(v_proj) && linear_rows(*k, v_proj, normed.rows()) is None
            },
        },
{
    let q: Tensor<K::Cell> = forward_linear(k, &attention.q_proj, normed)?;
    let key: Tensor<K::Cell> = forward_linear(k, &attention.k_proj, normed)?;
    let value: Tensor<K::Cell> = match &attention.v_proj {
        Some(v_proj) => forward_linear(k, v_proj, normed)?,
        None => key.duplicate(),
    };
    Ok((q, key, value))
}

proof fn lemma_map_rows_at<C>(rows: Seq<Seq<C>>, f: spec_fn(Seq<C>) -> Option<Seq<C>>, i: int)
    requires
        0 <= i < rows.len(),
        map_rows(rows, f) is Some,
    ensures
        f(rows[i]) == Some(map_rows(rows, f)->0[i]),
{
    assert(f(rows[i]) is Some);
}

proof fn lemma_linear_rows_at<K: Kernel>(k: K, linear: crate::weights::Linear<K::Cell>, rows: Seq<Seq<K::Cell>>)
    ensures
        linear_rows(k, linear, rows) matches Some(out) ==> out.len() == rows.len() && forall|i: int|
            0 <= i < rows.len() ==> #[trigger] linear_row(k, linear, rows[i]) == Some(out[i]),
        linear_rows(k, linear, rows) is None ==> exists|i: int|
            0 <= i < rows.len() && #[trigger] linear_row(k, linear, rows[i]) is None,
{
    let f = |row: Seq<K::Cell>| linear_row(k, linear, row);
    if linear_rows(k, linear, rows) is Some {
        assert forall|i: int| 0 <= i < rows.len() implies #[trigger] linear_row(k, linear, rows[i]) == Some(linear_rows(k, linear, rows)->0[i]) by {
            lemma_map_rows_at(rows, f, i);
        }
    } else {
        let i = choose|i: int| 0 <= i < rows.len() && !((#[trigger] f(rows[i])) is Some);
        assert(linear_row(k, linear, rows[i]) is None);
    }
}

/// Turns and normalises a batch of query or key rows.
#[verifier::spinoff_prover]
fn prepare_rows<K: Kernel>(
    k: &K,
    config: &CausalDecoderConfig<K::Cell>,
    attention: &FullAttention<K::Cell>,
    layout: &AttentionLayout<K::Cell>,
    x: Tensor<K::Cell>,
    heads: usize,
    norm: &Option<Tensor<K::Cell>>,
    offset: usize,
) -> (out: Result<Tensor<K::Cell>, InferError>)
    requires
        layout.wf(),
        x.is_matrix(),
        x.shape@[0] > 0,
        heads > 0,
        x.cols() == heads * layout.head_dim,
        turns(*config, *attention) ==> positions_fit(offset as int, x.shape@[0] as int),
        attention.q_norm is Some && attention.k_norm is Some ==> norm is Some,
    ensures
        out matches Err(error) ==> error is Dimension,
        out matches Ok(out) ==> out.is_matrix() && out.cols() == x.cols() && out.shape@[0] == x.shape@[0],
        functional(*k) ==> match out {
            Ok(out) => forall|i: int|
                0 <= i < x.rows().len() ==> #[trigger] prepared_row(
                    *k,
                    *config,
                    *attention,
                    *layout,
                    x.rows()[i],
                    heads as int,
                    *norm,
                    offset + i,
                ) == Some(out.rows()[i]),
            Err(_) => prepared_row(
                *k,
                *config,
                *attention,
                *layout,
                x.rows()[0],
                heads as int,
                *norm,
                offset as int,
            ) is None,
        },
{
    let rope: Option<RopeParams<K::Cell>> = rope_params(k, config, attention);
    if attention.q_norm.is_some() && attention.k_norm.is_some() {
        if let Some(weight) = norm {
            match rope {
                Some(rope) => rms_norm_rope_heads_at(
                    k,
                    &x,
                    heads,
                    layout.head_dim,
                    layout.rope_dims,
                    weight,
                    config.rms_eps,
                    rope,
                    offset,
                    config.rope_style,
                ),
                None => rms_norm_heads(k, &x, heads, layout.head_dim, weight, config.rms_eps),
            }
        } else {
            Ok(x)
        }
    } else {
        match rope {
            Some(rope) => apply_rope_heads_at(
                k,
                &x,
                heads,
                layout.head_dim,
                layout.rope_dims,
                rope,
                offset,
                config.rope_style,
            ),
            None => Ok(x),
        }
    }
}

/// Prepares a batch of rows that stand at `offset`, `offset + 1`, ... Refused
/// exactly where one of the rows has no preparation.
#[verifier::spinoff_prover]
pub fn prepare_qkv<K: Kernel>(k: &K, config: &CausalDecoderConfig<K::Cell>, attention: &FullAttention<K::Cell>, normed: &Tensor<K::Cell>, offset: usize) -> (out: Result<Prepared<K::Cell>, InferError>)
    requires
        attention.wf(),
        normed.is_matrix(),
        normed.shape@[0] > 0,
    ensures
        out matches Err(error) ==> error is Dimension,
        out matches Ok(out) ==> out.wf(normed.shape@[0] as int),
        functional(*k) ==> match out {
            Ok(out) => prepares(*k, *config, *attention, normed.rows(), offset as int, out),
            Err(_) => cannot_prepare(*k, *config, *attention, normed.rows(), offset as int),
        },
{
    let rows: usize = normed.shape[0];
    let ghost xs = normed.rows();
    proof {
        normed.lemma_rows();
        if functional(*k) {
            lemma_linear_rows_at(*k, attention.q_proj, xs);
            lemma_linear_rows_at(*k, attention.k_proj, xs);
            if attention.v_proj is Some {
                lemma_linear_rows_at(*k, attention.v_proj->0, xs);
            }
        }
    }
    let turned: bool = attention.rope_theta.is_some() || config.rope_theta.is_some();
    if turned && offset.checked_add(rows - 1).is_none() {
        proof {
            let last = rows - 1;
            assert(qkv_row(*k, *config, *attention, xs[last], offset + last) is None);
        }
        return Err(InferError::Dimension("position leaves the machine's range"));
    }
    let (projection, key, value) = match project_qkv(k, normed, attention) {
        Ok(parts) => parts,
        Err(error) => {
            proof {
                if functional(*k) {
                    let i = choose|i: int|
                        0 <= i < xs.len() && projected_row(*k, *config, *attention, #[trigger] xs[i]) is None;
                    assert(qkv_row(*k, *config, *attention, xs[i], offset + i) is None);
                }
            }
            return Err(error);
        },
    };
    proof {
        projection.lemma_rows();
        key.lemma_rows();
        value.lemma_rows();
    }
    let (q, gate) = match split_attention_gate(config, &projection) {
        Ok(parts) => parts,
        Err(error) => {
            proof {
                if functional(*k) {
                    assert(linear_row(*k, attention.q_proj, xs[0]) == Some(projection.rows()[0]));
                    assert(split_row(*config, projection.rows()[0]) is None);
                    assert(qkv_row(*k, *config, *attention, xs[0], offset + 0) is None);
                }
            }
            return Err(error);
        },
    };
    proof {
        q.lemma_rows();
        if gate is Some {
            (gate->0).lemma_rows();
        }
        if functional(*k) {
            assert forall|i: int| 0 <= i < xs.len() implies #[trigger] projected_row(*k, *config, *attention, xs[i]) == Some(
                (
                    q.rows()[i],
                    match gate {
                        Some(gate) => Some(gate.rows()[i]),
                        None => None,
                    },
                    key.rows()[i],
                    value.rows()[i],
                ),
            ) by {
                assert(linear_row(*k, attention.q_proj, xs[i]) == Some(projection.rows()[i]));
                assert(linear_row(*k, attention.k_proj, xs[i]) == Some(key.rows()[i]));
                if attention.v_proj is Some {
                    assert(linear_row(*k, attention.v_proj->0, xs[i]) == Some(value.rows()[i]));
                }
            }
        }
    }
    let layout: AttentionLayout<K::Cell> = match attention_layout(k, config, attention, q.shape[1], key.shape[1], value.shape[1]) {
        Ok(layout) => layout,
        Err(error) => {
            proof {
                if functional(*k) {
                    assert(projected_row(*k, *config, *attention, xs[0]) is Some);
                    assert(qkv_row(*k, *config, *attention, xs[0], offset + 0) is None);
                }
            }
            return Err(error);
        },
    };
    proof {
        layout.lemma_kv();
    }
    let ghost plain_value = value;
    let value: Tensor<K::Cell> = if attention.value_norm {
        rms_norm_heads_no_scale(k, &value, layout.num_key_value_heads, layout.head_dim, config.rms_eps)?
    } else {
        value
    };
    proof {
        value.lemma_rows();
        if functional(*k) {
            assert forall|i: int| 0 <= i < xs.len() implies #[trigger] value.rows()[i] == (if attention.value_norm {
                normed_heads(
                    *k,
                    plain_value.rows()[i],
                    layout.num_key_value_heads as int,
                    layout.head_dim as int,
                    None,
                    config.rms_eps,
                )
            } else {
                plain_value.rows()[i]
            }) by {}
        }
    }
    let ghost plain_q = q;
    let ghost plain_key = key;
    let q: Tensor<K::Cell> = match prepare_rows(
        k,
        config,
        attention,
        &layout,
        q,
        layout.num_attention_heads,
        &attention.q_norm,
        offset,
    ) {
        Ok(q) => q,
        Err(error) => {
            proof {
                if functional(*k) {
                    assert(projected_row(*k, *config, *attention, xs[0]) is Some);
                    assert(qkv_row(*k, *config, *attention, xs[0], offset + 0) is None);
                }
            }
            return Err(error);
        },
    };
    let key: Tensor<K::Cell> = match prepare_rows(
        k,
        config,
        attention,
        &layout,
        key,
        layout.num_key_value_heads,
        &attention.k_norm,
        offset,
    ) {
        Ok(key) => key,
        Err(error) => {
            proof {
                if functional(*k) {
                    assert(projected_row(*k, *config, *attention, xs[0]) is Some);
                    assert(qkv_row(*k, *config, *attention, xs[0], offset + 0) is None);
                }
            }
            return Err(error);
        },
    };
    let out: Prepared<K::Cell> = Prepared { q, gate, key, value, layout };
    proof {
        if functional(*k) {
            assert forall|i: int| 0 <= i < xs.len() implies #[trigger] qkv_row(*k, *config, *attention, xs[i], offset + i) == Some(out.at(i)) by {
                assert(projected_row(*k, *config, *attention, xs[i]) is Some);
                assert(prepared_row(*k, *config, *attention, layout, plain_q.rows()[i], layout.num_attention_heads as int, attention.q_norm, offset + i) == Some(q.rows()[i]));
                assert(prepared_row(*k, *config, *attention, layout, plain_key.rows()[i], layout.num_key_value_heads as int, attention.k_norm, offset + i) == Some(key.rows()[i]));
                assert(value.rows()[i] == out.value.rows()[i]);
            }
        }
    }
    Ok(out)
}

/// A context, gated where the attention is gated.
pub open spec fn gate_context<K: Kernel>(k: K, context: Seq<K::Cell>, gate: Option<Seq<K::Cell>>) -> Seq<K::Cell> {
    match gate {
        Some(gate) => gated_row(k, context, gate),
        None => context,
    }
}

/// What one more position makes of a cache, and the context it sees.
pub open spec fn cached_row<K: Kernel>(
    k: K,
    config: CausalDecoderConfig<K::Cell>,
    attention: FullAttention<K::Cell>,
    view: LayerView<K::Cell>,
    x: Seq<K::Cell>,
    position: int,
) -> Option<(LayerView<K::Cell>, Seq<K::Cell>)> {
    match qkv_row(k, config, attention, x, position) {
        Some(row) => if view.accepts(row.layout.kv_dim()) {
            let after = view.append(row.key, row.value, row.layout.kv_dim() as usize);
            Some((after, gate_context(k, cached_context(k, row.q, after, row.layout), row.gate)))
        } else {
            None
        },
        None => None,
    }
}

/// Rows taken one after the other, each seeing the ones before it.
pub open spec fn fold_rows<K: Kernel>(
    k: K,
    config: CausalDecoderConfig<K::Cell>,
    attention: FullAttention<K::Cell>,
    view: LayerView<K::Cell>,
    xs: Seq<Seq<K::Cell>>,
    offset: int,
) -> Option<(LayerView<K::Cell>, Seq<Seq<K::Cell>>)>
    decreases xs.len(),
{
    if xs.len() == 0 {
        Some((view, Seq::empty()))
    } else {
        match fold_rows(k, config, attention, view, xs.drop_last(), offset) {
            Some((before, contexts)) => match cached_row(
                k,
                config,
                attention,
                before,
                xs.last(),
                offset + xs.len() - 1,
            ) {
                Some((after, context)) => Some((after, contexts.push(context))),
                None => None,
            },
            None => None,
        }
    }
}

/// Keys of a batch of rows, one after the other.
pub open spec fn batch_keys<K: Kernel>(k: K, config: CausalDecoderConfig<K::Cell>, attention: FullAttention<K::Cell>, xs: Seq<Seq<K::Cell>>, offset: int) -> Seq<K::Cell> {
    flatten(Seq::new(xs.len(), |i: int| (qkv_row(k, config, attention, xs[i], offset + i)->0).key))
}

/// Values of a batch of rows, one after the other.
pub open spec fn batch_values<K: Kernel>(k: K, config: CausalDecoderConfig<K::Cell>, attention: FullAttention<K::Cell>, xs: Seq<Seq<K::Cell>>, offset: int) -> Seq<K::Cell> {
    flatten(Seq::new(xs.len(), |i: int| (qkv_row(k, config, attention, xs[i], offset + i)->0).value))
}

/// Rows taken together on a cache without positions, each seeing the ones before it.
pub open spec fn cold_rows<K: Kernel>(
    k: K,
    config: CausalDecoderConfig<K::Cell>,
    attention: FullAttention<K::Cell>,
    view: LayerView<K::Cell>,
    xs: Seq<Seq<K::Cell>>,
    offset: int,
) -> Option<(LayerView<K::Cell>, Seq<Seq<K::Cell>>)> {
    let keys = batch_keys(k, config, attention, xs, offset);
    let values = batch_values(k, config, attention, xs, offset);
    if cannot_prepare(k, config, attention, xs, offset) {
        None
    } else {
        let layout = (qkv_row(k, config, attention, xs[0], offset)->0).layout;
        if !view.accepts(layout.kv_dim()) {
            None
        } else {
            Some(
                (
                    view.append(keys, values, layout.kv_dim() as usize),
                    Seq::new(
                        xs.len(),
                        |i: int|
                            {
                                let row = qkv_row(k, config, attention, xs[i], offset + i)->0;
                                gate_context(k, causal_context(k, row.q, keys, values, layout, i), row.gate)
                            },
                    ),
                ),
            )
        }
    }
}

/// Rows taken as a batch: together on a cache without positions, one after the
/// other on any other.
pub open spec fn batch_rows<K: Kernel>(
    k: K,
    config: CausalDecoderConfig<K::Cell>,
    attention: FullAttention<K::Cell>,
    view: LayerView<K::Cell>,
    xs: Seq<Seq<K::Cell>>,
    offset: int,
) -> Option<(LayerView<K::Cell>, Seq<Seq<K::Cell>>)> {
    if view.count() == 0 {
        cold_rows(k, config, attention, view, xs, offset)
    } else {
        fold_rows(k, config, attention, view, xs, offset)
    }
}

pub proof fn lemma_fold_step<K: Kernel>(
    k: K,
    config: CausalDecoderConfig<K::Cell>,
    attention: FullAttention<K::Cell>,
    view: LayerView<K::Cell>,
    xs: Seq<Seq<K::Cell>>,
    offset: int,
    i: int,
)
    requires
        0 <= i < xs.len(),
    ensures
        fold_rows(k, config, attention, view, xs.take(i + 1), offset) == match fold_rows(
            k,
            config,
            attention,
            view,
            xs.take(i),
            offset,
        ) {
            Some((before, contexts)) => match cached_row(k, config, attention, before, xs[i], offset + i) {
                Some((after, context)) => Some((after, contexts.push(context))),
                None => None,
            },
            None => None,
        },
        xs.take(0).len() == 0,
        xs.take(xs.len() as int) == xs,
{
    assert(xs.take(i + 1).drop_last() =~= xs.take(i));
    assert(xs.take(xs.len() as int) =~= xs);
}

pub proof fn lemma_fold_none<K: Kernel>(
    k: K,
    config: CausalDecoderConfig<K::Cell>,
    attention: FullAttention<K::Cell>,
    view: LayerView<K::Cell>,
    xs: Seq<Seq<K::Cell>>,
    offset: int,
    i: int,
)
    requires
        0 <= i <= xs.len(),
        fold_rows(k, config, attention, view, xs.take(i), offset) is None,
    ensures
        fold_rows(k, config, attention, view, xs, offset) is None,
    decreases xs.len() - i,
{
    if i < xs.len() {
        lemma_fold_step(k, config, attention, view, xs, offset, i);
        lemma_fold_none(k, config, attention, view, xs, offset, i + 1);
    } else {
        assert(xs.take(i) =~= xs);
    }
}

/// Rows of one length laid one after the other are the rows again.
pub proof fn lemma_flatten_rows<C>(data: Seq<C>, cols: int, count: int)
    requires
        0 <= cols,
        0 <= count,
        data.len() == count * cols,
    ensures
        flatten(rows_of(data, cols, count)) == data,
    decreases count,
{
    let rows = rows_of(data, cols, count);
    if count > 0 {
        let shorter = data.take((count - 1) * cols);
        assert((count - 1) * cols + cols == count * cols) by (nonlinear_arith);
        assert((count - 1) * cols >= 0) by (nonlinear_arith)
            requires
                count >= 1,
                cols >= 0,
        ;
        lemma_flatten_rows(shorter, cols, count - 1);
        assert forall|i: int| 0 <= i < count - 1 implies row_of(shorter, cols, i) == row_of(data, cols, i) by {
            lemma_row_bounds(i, cols, count - 1);
            assert(row_of(shorter, cols, i) =~= row_of(data, cols, i));
        }
        assert(rows.drop_last() =~= rows_of(shorter, cols, count - 1));
        assert(shorter + rows.last() =~= data);
    } else {
        assert(0 * cols == 0) by (nonlinear_arith);
        assert(data =~= Seq::empty());
    }
}

fn gate_rows<K: Kernel>(k: &K, contexts: Tensor<K::Cell>, gate: &Option<Tensor<K::Cell>>) -> (out: Tensor<K::Cell>)
    requires
        contexts.is_matrix(),
        gate matches Some(gate) ==> gate.is_matrix() && gate.cols() == contexts.cols() && gate.shape@[0]
            == contexts.shape@[0],
    ensures
        out.is_matrix(),
        out.cols() == contexts.cols(),
        out.shape@[0] == contexts.shape@[0],
        functional(*k) ==> forall|i: int|
            0 <= i < contexts.rows().len() ==> #[trigger] out.rows()[i] == gate_context(
                *k,
                contexts.rows()[i],
                match *gate {
                    Some(gate) => Some(gate.rows()[i]),
                    None => None,
                },
            ),
{
    match gate {
        None => contexts,
        Some(gate) => {
            let count: usize = contexts.shape[0];
            let cols: usize = contexts.shape[1];
            let mut out: Tensor<K::Cell> = Tensor::empty_matrix(cols);
            for i in 0..count
                invariant
                    contexts.is_matrix(),
                    gate.is_matrix(),
                    count == contexts.shape@[0],
                    count == gate.shape@[0],
                    cols == contexts.cols(),
                    cols == gate.cols(),
                    out.is_matrix(),
                    out.cols() == cols,
                    out.shape@[0] == i,
                    functional(*k) ==> forall|j: int|
                        0 <= j < i ==> #[trigger] out.rows()[j] == gated_row(*k, contexts.rows()[j], gate.rows()[j]),
            {
                proof {
                    contexts.lemma_rows();
                    gate.lemma_rows();
                    out.lemma_rows();
                    lemma_row_bounds(i as int, cols as int, count as int);
                }
                let have: usize = contexts.data.len();
                let have_gate: usize = gate.data.len();
                let context: Vec<K::Cell> = copy_range(&contexts.data, i * cols, i * cols + cols);
                let opening: Vec<K::Cell> = copy_range(&gate.data, i * cols, i * cols + cols);
                assert(context@ == contexts.rows()[i as int]);
                assert(opening@ == gate.rows()[i as int]);
                let gated: Vec<K::Cell> = gate_row(k, &context, &opening);
                out.push_row(&gated);
            }
            proof {
                contexts.lemma_rows();
                out.lemma_rows();
            }
            out
        },
    }
}

/// Adds one position to a cache and gives the context it sees.
pub fn full_attention_context_cached<K: Kernel>(
    k: &K,
    config: &CausalDecoderConfig<K::Cell>,
    normed: &Tensor<K::Cell>,
    cache: &mut LayerKvCache<K::Cell>,
    position: usize,
    attention: &FullAttention<K::Cell>,
) -> (out: Result<Tensor<K::Cell>, InferError>)
    requires
        attention.wf(),
        normed.is_matrix(),
        normed.shape@[0] == 1,
        old(cache)@.wf(),
    ensures
        out matches Err(error) ==> error is Dimension,
        final(cache)@.wf(),
        out matches Ok(out) ==> out.is_matrix() && out.shape@[0] == 1,
        out is Err ==> final(cache)@ == old(cache)@,
        functional(*k) ==> match out {
            Ok(out) => cached_row(*k, *config, *attention, old(cache)@, normed.rows()[0], position as int) == Some(
                (final(cache)@, out.rows()[0]),
            ),
            Err(_) => cached_row(*k, *config, *attention, old(cache)@, normed.rows()[0], position as int) is None,
        },
{
    let prepared: Prepared<K::Cell> = match prepare_qkv(k, config, attention, normed, position) {
        Ok(prepared) => prepared,
        Err(error) => {
            proof {
                normed.lemma_rows();
                if functional(*k) {
                    let i = choose|i: int|
                        0 <= i < normed.rows().len() && #[trigger] qkv_row(
                            *k,
                            *config,
                            *attention,
                            normed.rows()[i],
                            position + i,
                        ) is None;
                    assert(i == 0);
                }
            }
            return Err(error);
        },
    };
    proof {
        normed.lemma_rows();
        prepared.q.lemma_rows();
        prepared.key.lemma_rows();
        prepared.value.lemma_rows();
        if functional(*k) {
            assert(qkv_row(*k, *config, *attention, normed.rows()[0], position + 0) == Some(prepared.at(0)));
        }
        assert(row_of(prepared.key.data@, prepared.key.cols(), 0) =~= prepared.key.data@);
        assert(row_of(prepared.value.data@, prepared.value.cols(), 0) =~= prepared.value.data@);
        assert(row_of(prepared.q.data@, prepared.q.cols(), 0) =~= prepared.q.data@);
    }
    let kv_len: usize = prepared.layout.kv_size();
    cache.append(&prepared.key, &prepared.value, kv_len)?;
    proof {
        lemma_append_count(old(cache)@, prepared.key.data@, prepared.value.data@, kv_len);
    }
    let context: Vec<K::Cell> = cached_attention_one(k, &prepared.q, cache, &prepared.layout)?;
    let contexts: Tensor<K::Cell> = Tensor::row(context);
    let out: Tensor<K::Cell> = gate_rows(k, contexts, &prepared.gate);
    Ok(out)
}

/// The context that a device made of one prepared position which it took in itself, gated
/// where the attention is gated. Refused where a gate is of another length.
pub fn settle_context<K: Kernel>(k: &K, prepared: &Prepared<K::Cell>, answer: Vec<K::Cell>) -> (out: Result<Tensor<K::Cell>, InferError>)
    requires
        prepared.wf(1),
    ensures
        out is Ok <==> (prepared.gate is Some ==> answer@.len() == prepared.layout.q_dim()),
        out matches Err(error) ==> error is Dimension,
        out matches Ok(out) ==> out.is_matrix() && out.shape@[0] == 1 && out.cols() == answer@.len(),
        functional(*k) ==> (out matches Ok(out) ==> out.rows()[0] == gate_context(*k, answer@, prepared.at(0).gate)),
{
    if let Some(gate) = &prepared.gate {
        if answer.len() != gate.shape[1] {
            return Err(InferError::Dimension("context and gate differ in length"));
        }
    }
    let context: Tensor<K::Cell> = Tensor::row(answer);
    proof {
        context.lemma_rows();
    }
    Ok(gate_rows(k, context, &prepared.gate))
}

/// Adds a batch of positions to a cache and gives the contexts they see.
#[verifier::spinoff_prover]
pub fn full_attention_context_prefill<K: Kernel>(
    k: &K,
    config: &CausalDecoderConfig<K::Cell>,
    normed: &Tensor<K::Cell>,
    cache: &mut LayerKvCache<K::Cell>,
    offset: usize,
    attention: &FullAttention<K::Cell>,
) -> (out: Result<Tensor<K::Cell>, InferError>)
    requires
        attention.wf(),
        normed.is_matrix(),
        normed.shape@[0] > 0,
        old(cache)@.wf(),
    ensures
        out matches Err(error) ==> error is Dimension,
        final(cache)@.wf(),
        out matches Ok(out) ==> out.is_matrix() && out.shape@[0] == normed.shape@[0],
        out is Err ==> final(cache)@ == old(cache)@,
        functional(*k) ==> match out {
            Ok(out) => batch_rows(*k, *config, *attention, old(cache)@, normed.rows(), offset as int) == Some(
                (final(cache)@, out.rows()),
            ),
            Err(_) => batch_rows(*k, *config, *attention, old(cache)@, normed.rows(), offset as int) is None,
        },
{
    let ghost xs = normed.rows();
    let ghost start = cache@;
    proof {
        normed.lemma_rows();
    }
    let prepared: Prepared<K::Cell> = match prepare_qkv(k, config, attention, normed, offset) {
        Ok(prepared) => prepared,
        Err(error) => {
            proof {
                if functional(*k) {
                    let i = choose|i: int|
                        0 <= i < xs.len() && #[trigger] qkv_row(*k, *config, *attention, xs[i], offset + i) is None;
                    lemma_fold_step(*k, *config, *attention, start, xs, offset as int, i);
                    lemma_fold_none(*k, *config, *attention, start, xs, offset as int, i + 1);
                }
            }
            return Err(error);
        },
    };
    proof {
        prepared.q.lemma_rows();
        prepared.key.lemma_rows();
        prepared.value.lemma_rows();
    }
    let kv_len: usize = prepared.layout.kv_size();
    if cache.len() == 0 {
        proof {
            let n = normed.shape@[0] as int;
            lemma_flatten_rows(prepared.key.data@, kv_len as int, n);
            lemma_flatten_rows(prepared.value.data@, kv_len as int, n);
            if functional(*k) {
                assert(qkv_row(*k, *config, *attention, xs[0], offset + 0) == Some(prepared.at(0)));
                assert(Seq::new(xs.len(), |i: int| (qkv_row(*k, *config, *attention, xs[i], offset + i)->0).key) =~= prepared.key.rows());
                assert(Seq::new(xs.len(), |i: int| (qkv_row(*k, *config, *attention, xs[i], offset + i)->0).value) =~= prepared.value.rows());
                assert(!cannot_prepare(*k, *config, *attention, xs, offset as int));
            }
        }
        cache.append_batch(&prepared.key, &prepared.value, kv_len)?;
        proof {
            let n = normed.shape@[0] as int;
            assert(start.keys.len() == 0) by {
                assert(0 * kv_len == 0);
            }
            assert(start.keys + prepared.key.data@ =~= prepared.key.data@);
            assert(start.values + prepared.value.data@ =~= prepared.value.data@);
            crate::kv::lemma_count(cache@, n, kv_len);
        }
        let contexts: Tensor<K::Cell> = causal_attention(k, &prepared.q, &prepared.key, &prepared.value, &prepared.layout)?;
        proof {
            contexts.lemma_rows();
        }
        let out: Tensor<K::Cell> = gate_rows(k, contexts, &prepared.gate);
        proof {
            out.lemma_rows();
            if functional(*k) {
                let model = cold_rows(*k, *config, *attention, start, xs, offset as int)->0;
                assert forall|i: int| 0 <= i < xs.len() implies out.rows()[i] == model.1[i] by {
                    assert(qkv_row(*k, *config, *attention, xs[i], offset + i) == Some(prepared.at(i)));
                    assert(contexts.rows()[i] == causal_context(*k, prepared.q.rows()[i], prepared.key.data@, prepared.value.data@, prepared.layout, i));
                }
                assert(out.rows() =~= model.1);
            }
        }
        return Ok(out);
    }
    cached_attention_prefill_rows(k, config, normed, cache, offset, attention, prepared)
}

/// Adds prepared positions to a cache one by one, and gives the contexts they see.
#[verifier::spinoff_prover]
fn cached_attention_prefill_rows<K: Kernel>(
    k: &K,
    config: &CausalDecoderConfig<K::Cell>,
    normed: &Tensor<K::Cell>,
    cache: &mut LayerKvCache<K::Cell>,
    offset: usize,
    attention: &FullAttention<K::Cell>,
    prepared: Prepared<K::Cell>,
) -> (out: Result<Tensor<K::Cell>, InferError>)
    requires
        normed.is_matrix(),
        normed.shape@[0] > 0,
        prepared.wf(normed.shape@[0] as int),
        functional(*k) ==> prepares(*k, *config, *attention, normed.rows(), offset as int, prepared),
        old(cache)@.wf(),
    ensures
        out matches Err(error) ==> error is Dimension,
        final(cache)@.wf(),
        out matches Ok(out) ==> out.is_matrix() && out.shape@[0] == normed.shape@[0],
        out is Err ==> final(cache)@ == old(cache)@,
        functional(*k) ==> match out {
            Ok(out) => fold_rows(*k, *config, *attention, old(cache)@, normed.rows(), offset as int) == Some(
                (final(cache)@, out.rows()),
            ),
            Err(_) => fold_rows(*k, *config, *attention, old(cache)@, normed.rows(), offset as int) is None,
        },
{
    let ghost xs = normed.rows();
    let ghost start = cache@;
    let rows: usize = normed.shape[0];
    let kv_len: usize = prepared.layout.kv_size();
    let q_len: usize = prepared.layout.q_size();
    let mut contexts: Tensor<K::Cell> = Tensor::empty_matrix(q_len);
    proof {
        normed.lemma_rows();
        lemma_fold_step(*k, *config, *attention, start, xs, offset as int, 0);
    }
    let mut i: usize = 0;
    while i < rows
        invariant
            i <= rows,
            rows == normed.shape@[0],
            normed.is_matrix(),
            rows > 0,
            xs == normed.rows(),
            xs.len() == rows,
            start == old(cache)@,
            prepared.wf(rows as int),
            kv_len == prepared.layout.kv_dim(),
            q_len == prepared.layout.q_dim(),
            kv_len > 0,
            functional(*k) ==> prepares(*k, *config, *attention, xs, offset as int, prepared),
            cache@.wf(),
            i == 0 ==> cache@ == start,
            i > 0 ==> cache@.kv_dim == Some(kv_len),
            contexts.is_matrix(),
            contexts.cols() == q_len,
            contexts.shape@[0] == i,
            functional(*k) ==> fold_rows(*k, *config, *attention, start, xs.take(i as int), offset as int) == Some(
                (cache@, contexts.rows()),
            ),
        decreases rows - i,
    {
        proof {
            prepared.q.lemma_rows();
            prepared.key.lemma_rows();
            prepared.value.lemma_rows();
            contexts.lemma_rows();
            lemma_fold_step(*k, *config, *attention, start, xs, offset as int, i as int);
            if functional(*k) {
                assert(qkv_row(*k, *config, *attention, xs[i as int], offset + i) == Some(prepared.at(i as int)));
            }
        }
        let q_row: Vec<K::Cell> = prepared.q.row_slice(i)?;
        let key_row: Vec<K::Cell> = prepared.key.row_slice(i)?;
        let value_row: Vec<K::Cell> = prepared.value.row_slice(i)?;
        let q: Tensor<K::Cell> = Tensor::row(q_row);
        let key: Tensor<K::Cell> = Tensor::row(key_row);
        let value: Tensor<K::Cell> = Tensor::row(value_row);
        let ghost before = cache@;
        match cache.append(&key, &value, kv_len) {
            Ok(_) => {},
            Err(error) => {
                proof {
                    if functional(*k) {
                        lemma_fold_none(*k, *config, *attention, start, xs, offset as int, i + 1);
                    }
                }
                return Err(error);
            },
        }
        proof {
            lemma_append_count(before, key.data@, value.data@, kv_len);
        }
        let context: Vec<K::Cell> = match cached_attention_one(k, &q, cache, &prepared.layout) {
            Ok(context) => context,
            Err(error) => {
                assert(false);
                return Err(error);
            },
        };
        let context: Vec<K::Cell> = match &prepared.gate {
            Some(gate) => {
                proof {
                    gate.lemma_rows();
                }
                let opening: Vec<K::Cell> = gate.row_slice(i)?;
                gate_row(k, &context, &opening)
            },
            None => context,
        };
        contexts.push_row(&context);
        i = i + 1;
    }
    proof {
        lemma_fold_step(*k, *config, *attention, start, xs, offset as int, 0);
    }
    Ok(contexts)
}

} // verus!
