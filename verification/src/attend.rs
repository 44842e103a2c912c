//! Values weighted by the scores of keys.

use vstd::prelude::*;
use crate::attention::AttentionLayout;
use crate::error::InferError;
use crate::heads::{by_heads, lemma_by_heads_len, lemma_by_heads_step};
use crate::kernel::{binary, constant, constant_of, functional, unary, unary_of, Binary, Constant, Kernel, Unary};
use crate::kv::{LayerKvCache, LayerView};
use crate::rows::{dot_of, dot_product, over, plus, softmax, softmax_of, times};
use crate::tensor::{append_cells, lemma_row_bounds, row_of, Tensor};

verus! {

/// How an inner product becomes a score.
#[derive(Clone, Copy, Debug)]
pub enum Scale<C> {
    /// Divided by the root of the scalar.
    Divide(C),
    /// Multiplied by one over the root of the scalar.
    Multiply(C),
}

pub open spec fn scaled_of<K: Kernel>(k: K, dot: K::Cell, scale: Scale<K::Cell>) -> K::Cell {
    match scale {
        Scale::Divide(by) => over(k, dot, by),
        Scale::Multiply(by) => times(k, dot, by),
    }
}

/// Division by the root of the scalar.
pub open spec fn dividing<K: Kernel>(k: K, scalar: K::Cell) -> Scale<K::Cell> {
    Scale::Divide(unary_of(k, Unary::Sqrt, scalar))
}

/// Multiplication by one over the root of the scalar.
pub open spec fn multiplying<K: Kernel>(k: K, scalar: K::Cell) -> Scale<K::Cell> {
    Scale::Multiply(over(k, constant_of(k, Constant::One), unary_of(k, Unary::Sqrt, scalar)))
}

/// The part of a key or value row that belongs to a head.
pub open spec fn head_part<C>(cells: Seq<C>, row: int, row_len: int, head: int, head_dim: int) -> Seq<C> {
    cells.subrange(row * row_len + head * head_dim, row * row_len + head * head_dim + head_dim)
}

/// Score of one position.
pub open spec fn score_of<K: Kernel>(k: K, q_head: Seq<K::Cell>, keys: Seq<K::Cell>, row: int, row_len: int, head: int, scale: Scale<K::Cell>) -> K::Cell {
    scaled_of(k, dot_of(k, q_head, head_part(keys, row, row_len, head, q_head.len() as int)), scale)
}

/// Weights of the positions `start..end`.
pub open spec fn weights_of<K: Kernel>(k: K, q_head: Seq<K::Cell>, keys: Seq<K::Cell>, row_len: int, head: int, start: int, end: int, scale: Scale<K::Cell>) -> Seq<K::Cell> {
    softmax_of(
        k,
        Seq::new((end - start) as nat, |i: int| score_of(k, q_head, keys, start + i, row_len, head, scale)),
        constant_of(k, Constant::One),
    )
}

/// One coordinate of the values of positions `start..start + weights.len()`,
/// weighted and summed from the front.
pub open spec fn mixed<K: Kernel>(k: K, weights: Seq<K::Cell>, values: Seq<K::Cell>, start: int, row_len: int, at: int) -> K::Cell
    decreases weights.len(),
{
    if weights.len() == 0 {
        constant_of(k, Constant::Zero)
    } else {
        plus(
            k,
            mixed(k, weights.drop_last(), values, start, row_len, at),
            times(k, weights.last(), values[(start + weights.len() - 1) * row_len + at]),
        )
    }
}

/// What one query head makes of the positions `start..end`.
pub open spec fn head_context<K: Kernel>(
    k: K,
    q_head: Seq<K::Cell>,
    keys: Seq<K::Cell>,
    values: Seq<K::Cell>,
    row_len: int,
    head: int,
    start: int,
    end: int,
    scale: Scale<K::Cell>,
) -> Seq<K::Cell> {
    let weights = weights_of(k, q_head, keys, row_len, head, start, end, scale);
    Seq::new(q_head.len(), |c: int| mixed(k, weights, values, start, row_len, head * q_head.len() + c))
}

/// What a query row makes of the positions `start..end`.
pub open spec fn attend_of<K: Kernel>(
    k: K,
    q: Seq<K::Cell>,
    keys: Seq<K::Cell>,
    values: Seq<K::Cell>,
    layout: AttentionLayout<K::Cell>,
    start: int,
    end: int,
    scale: Scale<K::Cell>,
) -> Seq<K::Cell> {
    by_heads(
        layout.num_attention_heads as int,
        |h: int|
            head_context(
                k,
                row_of(q, layout.head_dim as int, h),
                keys,
                values,
                layout.kv_dim(),
                layout.kv_head(h),
                start,
                end,
                scale,
            ),
    )
}

/// The row and head of a key lie within the keys.
proof fn lemma_head_part_bounds(row: int, rows: int, head: int, heads: int, head_dim: int)
    requires
        0 <= row < rows,
        0 <= head < heads,
        0 < head_dim,
    ensures
        0 <= row * (heads * head_dim) + head * head_dim,
        row * (heads * head_dim) + head * head_dim + head_dim <= rows * (heads * head_dim),
        head * head_dim + head_dim <= heads * head_dim,
        0 <= head * head_dim,
        0 <= row * (heads * head_dim),
{
    lemma_row_bounds(head, head_dim, heads);
    let size = heads * head_dim;
    lemma_row_bounds(row, size, rows);
}

fn attend_head<K: Kernel>(
    k: &K,
    q: &Vec<K::Cell>,
    q_head: usize,
    keys: &Vec<K::Cell>,
    values: &Vec<K::Cell>,
    layout: &AttentionLayout<K::Cell>,
    start: usize,
    end: usize,
    scale: Scale<K::Cell>,
) -> (out: Vec<K::Cell>)
    requires
        layout.shaped(),
        q@.len() == layout.q_dim(),
        q_head < layout.num_attention_heads,
        start <= end,
        end * layout.kv_dim() <= keys@.len(),
        end * layout.kv_dim() <= values@.len(),
    ensures
        out@.len() == layout.head_dim,
        functional(*k) ==> out@ == head_context(
            *k,
            row_of(q@, layout.head_dim as int, q_head as int),
            keys@,
            values@,
            layout.kv_dim(),
            layout.kv_head(q_head as int),
            start as int,
            end as int,
            scale,
        ),
{
    let head_dim: usize = layout.head_dim;
    let group: usize = layout.num_attention_heads / layout.num_key_value_heads;
    proof {
        layout.lemma_kv();
        lemma_row_bounds(q_head as int, head_dim as int, layout.num_attention_heads as int);
    }
    let kv_head: usize = q_head / group;
    assert(kv_head == layout.kv_head(q_head as int));
    let row_len: usize = layout.kv_size();
    let have_keys: usize = keys.len();
    let have_values: usize = values.len();
    let have_q: usize = q.len();
    let q_start: usize = q_head * head_dim;
    proof {
        lemma_row_bounds(kv_head as int, head_dim as int, layout.num_key_value_heads as int);
    }
    let k_start: usize = kv_head * head_dim;
    let ghost q_part = row_of(q@, head_dim as int, q_head as int);
    let ghost scores_model = Seq::new(
        (end - start) as nat,
        |i: int| score_of(*k, q_part, keys@, start + i, row_len as int, kv_head as int, scale),
    );
    let mut scores: Vec<K::Cell> = Vec::new();
    for row in start..end
        invariant
            layout.shaped(),
            head_dim == layout.head_dim,
            row_len == layout.kv_dim(),
            row_len == layout.num_key_value_heads * head_dim,
            kv_head < layout.num_key_value_heads,
            k_start == kv_head * head_dim,
            q_start == q_head * head_dim,
            q_start + head_dim <= q@.len(),
            have_keys == keys@.len(),
            end * row_len <= have_keys,
            start <= end,
            q_part == row_of(q@, head_dim as int, q_head as int),
            q_part.len() == head_dim,
            scores@.len() == row - start,
            functional(*k) ==> forall|i: int|
                0 <= i < row - start ==> scores@[i] == score_of(*k, q_part, keys@, start + i, row_len as int, kv_head as int, scale),
    {
        proof {
            lemma_head_part_bounds(row as int, end as int, kv_head as int, layout.num_key_value_heads as int, head_dim as int);
        }
        let key_start: usize = row * row_len + k_start;
        let dot: K::Cell = dot_product(k, q, q_start, keys, key_start, head_dim);
        let score: K::Cell = match scale {
            Scale::Divide(by) => binary(k, Binary::Div, dot, by),
            Scale::Multiply(by) => binary(k, Binary::Mul, dot, by),
        };
        scores.push(score);
    }
    assert(functional(*k) ==> scores@ =~= scores_model);
    let one: K::Cell = constant(k, Constant::One);
    let weights: Vec<K::Cell> = softmax(k, &scores, one);
    let ghost weights_model = weights_of(*k, q_part, keys@, row_len as int, kv_head as int, start as int, end as int, scale);
    assert(functional(*k) ==> weights@ == weights_model);
    let mut out: Vec<K::Cell> = Vec::new();
    for c in 0..head_dim
        invariant
            layout.shaped(),
            head_dim == layout.head_dim,
            row_len == layout.num_key_value_heads * head_dim,
            kv_head < layout.num_key_value_heads,
            k_start == kv_head * head_dim,
            have_values == values@.len(),
            end * row_len <= have_values,
            start <= end,
            weights@.len() == end - start,
            functional(*k) ==> weights@ == weights_model,
            out@.len() == c,
            functional(*k) ==> forall|j: int|
                0 <= j < c ==> out@[j] == mixed(*k, weights_model, values@, start as int, row_len as int, kv_head * head_dim + j),
    {
        let mut sum: K::Cell = constant(k, Constant::Zero);
        let n: usize = end - start;
        for i in 0..n
            invariant
                head_dim > 0,
                row_len == layout.num_key_value_heads * head_dim,
                kv_head < layout.num_key_value_heads,
                k_start == kv_head * head_dim,
                c < head_dim,
                have_values == values@.len(),
                end * row_len <= have_values,
                start <= end,
                n == end - start,
                weights@.len() == n,
                functional(*k) ==> sum == mixed(
                    *k,
                    weights@.subrange(0, i as int),
                    values@,
                    start as int,
                    row_len as int,
                    kv_head * head_dim + c,
                ),
        {
            proof {
                lemma_head_part_bounds((start + i) as int, end as int, kv_head as int, layout.num_key_value_heads as int, head_dim as int);
                assert(weights@.subrange(0, i + 1).drop_last() =~= weights@.subrange(0, i as int));
            }
            let at: usize = (start + i) * row_len + k_start + c;
            let part: K::Cell = binary(k, Binary::Mul, weights[i], values[at]);
            sum = binary(k, Binary::Add, sum, part);
        }
        assert(weights@.subrange(0, n as int) =~= weights@);
        out.push(sum);
    }
    assert(functional(*k) ==> out@ =~= head_context(
        *k,
        q_part,
        keys@,
        values@,
        layout.kv_dim(),
        layout.kv_head(q_head as int),
        start as int,
        end as int,
        scale,
    ));
    out
}

/// Lets a query row attend to the positions `start..end`.
pub fn attend<K: Kernel>(
    k: &K,
    q: &Vec<K::Cell>,
    keys: &Vec<K::Cell>,
    values: &Vec<K::Cell>,
    layout: &AttentionLayout<K::Cell>,
    start: usize,
    end: usize,
    scale: Scale<K::Cell>,
) -> (out: Vec<K::Cell>)
    requires
        layout.shaped(),
        q@.len() == layout.q_dim(),
        start <= end,
        end * layout.kv_dim() <= keys@.len(),
        end * layout.kv_dim() <= values@.len(),
    ensures
        out@.len() == layout.q_dim(),
        functional(*k) ==> out@ == attend_of(*k, q@, keys@, values@, *layout, start as int, end as int, scale),
{
    let heads: usize = layout.num_attention_heads;
    let ghost piece = |h: int|
        head_context(
            *k,
            row_of(q@, layout.head_dim as int, h),
            keys@,
            values@,
            layout.kv_dim(),
            layout.kv_head(h),
            start as int,
            end as int,
            scale,
        );
    let mut out: Vec<K::Cell> = Vec::new();
    proof {
        lemma_by_heads_step(0, piece);
        assert(0 * layout.head_dim == 0) by (nonlinear_arith);
    }
    for h in 0..heads
        invariant
            layout.shaped(),
            heads == layout.num_attention_heads,
            q@.len() == layout.q_dim(),
            start <= end,
            end * layout.kv_dim() <= keys@.len(),
            end * layout.kv_dim() <= values@.len(),
            piece == (|h: int|
                head_context(
                    *k,
                    row_of(q@, layout.head_dim as int, h),
                    keys@,
                    values@,
                    layout.kv_dim(),
                    layout.kv_head(h),
                    start as int,
                    end as int,
                    scale,
                )),
            out@.len() == h * layout.head_dim,
            functional(*k) ==> out@ == by_heads(h as int, piece),
    {
        proof {
            lemma_by_heads_step(h as int, piece);
            lemma_row_bounds(h as int, layout.head_dim as int, heads as int);
        }
        let part: Vec<K::Cell> = attend_head(k, q, h, keys, values, layout, start, end, scale);
        append_cells(&mut out, &part);
    }
    out
}

/// Where there are no heads, or heads without numbers, a query row makes nothing.
proof fn lemma_no_heads<K: Kernel>(
    k: K,
    q: Seq<K::Cell>,
    keys: Seq<K::Cell>,
    values: Seq<K::Cell>,
    layout: AttentionLayout<K::Cell>,
    start: int,
    end: int,
    scale: Scale<K::Cell>,
)
    requires
        layout.num_attention_heads == 0 || layout.head_dim == 0,
    ensures
        attend_of(k, q, keys, values, layout, start, end, scale) == Seq::<K::Cell>::empty(),
{
    let heads = layout.num_attention_heads as int;
    let piece = |h: int|
        head_context(k, row_of(q, layout.head_dim as int, h), keys, values, layout.kv_dim(), layout.kv_head(h), start, end, scale);
    if heads > 0 {
        assert forall|h: int| 0 <= h < heads implies (#[trigger] piece(h)).len() == 0 by {
            assert(h * 0 == 0) by (nonlinear_arith);
            assert((h + 1) * 0 == 0) by (nonlinear_arith);
        }
        lemma_by_heads_len(heads, piece, 0);
    } else {
        lemma_by_heads_step(0, piece);
    }
    assert(by_heads(heads, piece) =~= Seq::<K::Cell>::empty());
}

/// The context of one query row over a whole cache.
pub open spec fn cached_context<K: Kernel>(k: K, q: Seq<K::Cell>, view: LayerView<K::Cell>, layout: AttentionLayout<K::Cell>) -> Seq<K::Cell> {
    attend_of(
        k,
        q,
        view.keys,
        view.values,
        layout,
        layout.window_start(view.count()),
        view.count(),
        multiplying(k, layout.attn_scalar),
    )
}

/// Lets one query row attend to a cache, or to the window at its end. Refused
/// where the query is not one row of the layout, or the cache is empty or not of
/// the layout.
pub fn cached_attention_one<K: Kernel>(k: &K, q: &Tensor<K::Cell>, cache: &LayerKvCache<K::Cell>, layout: &AttentionLayout<K::Cell>) -> (out: Result<Vec<K::Cell>, InferError>)
    requires
        layout.grouped(),
        q.is_matrix(),
    ensures
        out is Ok <==> q.shape@[0] == 1 && q.cols() == layout.q_dim() && (cache@.kv_dim matches Some(dim) && dim
            == layout.kv_dim()) && cache@.count() > 0 && cache@.keys.len() == cache@.values.len(),
        out matches Err(error) ==> error is Dimension,
        out matches Ok(out) ==> out@.len() == layout.q_dim(),
        functional(*k) ==> (out matches Ok(out) ==> out@ == cached_context(*k, q.data@, cache@, *layout)),
{
    let q_len: usize = layout.num_attention_heads * layout.head_dim;
    let kv_len: usize = layout.num_key_value_heads * layout.head_dim;
    let dim_fits: bool = match cache.kv_dim {
        Some(dim) => dim == kv_len,
        None => false,
    };
    if q.shape[0] != 1 || q.shape[1] != q_len || !dim_fits {
        return Err(InferError::Dimension("query or cache does not fit the layout"));
    }
    let seen: usize = cache.len();
    if seen == 0 || cache.keys.len() != cache.values.len() {
        return Err(InferError::Dimension("cache is empty or uneven"));
    }
    proof {
        vstd::arithmetic::div_mod::lemma_fundamental_div_mod(cache.keys@.len() as int, kv_len as int);
        vstd::arithmetic::mul::lemma_mul_is_commutative(seen as int, kv_len as int);
        assert(q.data@.len() == q_len) by {
            assert(1 * q_len == q_len);
        }
    }
    if layout.num_attention_heads == 0 {
        let none: Vec<K::Cell> = Vec::new();
        proof {
            lemma_no_heads(*k, q.data@, cache@.keys, cache@.values, *layout, layout.window_start(seen as int), seen as int, multiplying(*k, layout.attn_scalar));
            assert(none@ =~= Seq::<K::Cell>::empty());
            assert(0 * layout.head_dim == 0) by (nonlinear_arith);
        }
        return Ok(none);
    }
    assert(layout.head_dim > 0) by {
        assert(layout.num_key_value_heads * 0 == 0);
    }
    let root: K::Cell = unary(k, Unary::Sqrt, layout.attn_scalar);
    let one: K::Cell = constant(k, Constant::One);
    let inverse: K::Cell = binary(k, Binary::Div, one, root);
    let start: usize = layout.start_of_window(seen);
    Ok(attend(k, &q.data, &cache.keys, &cache.values, layout, start, seen, Scale::Multiply(inverse)))
}

/// The context of query row `i` over the first `i + 1` rows of keys and values.
pub open spec fn causal_context<K: Kernel>(k: K, q: Seq<K::Cell>, keys: Seq<K::Cell>, values: Seq<K::Cell>, layout: AttentionLayout<K::Cell>, i: int) -> Seq<K::Cell> {
    attend_of(
        k,
        q,
        keys,
        values,
        layout,
        layout.window_start(i + 1),
        i + 1,
        dividing(k, layout.attn_scalar),
    )
}

/// Lets every query row attend to the rows up to its own, or to the window at
/// their end. Refused where the rows differ in number or are not of the layout.
pub fn causal_attention<K: Kernel>(k: &K, q: &Tensor<K::Cell>, keys: &Tensor<K::Cell>, values: &Tensor<K::Cell>, layout: &AttentionLayout<K::Cell>) -> (out: Result<Tensor<K::Cell>, InferError>)
    requires
        layout.grouped(),
        q.is_matrix(),
        keys.is_matrix(),
        values.is_matrix(),
    ensures
        out is Ok <==> q.shape@[0] == keys.shape@[0] && q.shape@[0] == values.shape@[0] && q.cols() == layout.q_dim()
            && keys.cols() == layout.kv_dim() && values.cols() == layout.kv_dim(),
        out matches Err(error) ==> error is Dimension,
        out matches Ok(out) ==> out.is_matrix() && out.cols() == layout.q_dim() && out.shape@[0] == q.shape@[0],
        functional(*k) ==> (out matches Ok(out) ==> forall|i: int|
            0 <= i < q.shape@[0] ==> #[trigger] out.rows()[i] == causal_context(
                *k,
                q.rows()[i],
                keys.data@,
                values.data@,
                *layout,
                i,
            )),
{
    let q_len: usize = layout.num_attention_heads * layout.head_dim;
    let kv_len: usize = layout.num_key_value_heads * layout.head_dim;
    let rows: usize = q.shape[0];
    if rows != keys.shape[0] || rows != values.shape[0] || q.shape[1] != q_len || keys.shape[1] != kv_len
        || values.shape[1] != kv_len {
        return Err(InferError::Dimension("queries, keys and values do not fit the layout"));
    }
    let mut out: Tensor<K::Cell> = Tensor::empty_matrix(q_len);
    if layout.num_attention_heads == 0 || layout.head_dim == 0 {
        assert(q_len == 0) by (nonlinear_arith)
            requires
                q_len == layout.num_attention_heads * layout.head_dim,
                layout.num_attention_heads == 0 || layout.head_dim == 0,
        ;
        let none: Vec<K::Cell> = Vec::new();
        assert(none@ =~= Seq::<K::Cell>::empty());
        for i in 0..rows
            invariant
                q.is_matrix(),
                rows == q.shape@[0],
                q.cols() == 0,
                layout.num_attention_heads == 0 || layout.head_dim == 0,
                none@ == Seq::<K::Cell>::empty(),
                out.is_matrix(),
                out.cols() == 0,
                out.shape@[0] == i,
                forall|j: int|
                    0 <= j < i ==> #[trigger] out.rows()[j] == causal_context(*k, q.rows()[j], keys.data@, values.data@, *layout, j),
        {
            proof {
                q.lemma_rows();
                out.lemma_rows();
                lemma_no_heads(*k, q.rows()[i as int], keys.data@, values.data@, *layout, layout.window_start(i + 1), i + 1, dividing(*k, layout.attn_scalar));
            }
            out.push_row(&none);
        }
        proof {
            q.lemma_rows();
            out.lemma_rows();
        }
        return Ok(out);
    }
    let root: K::Cell = unary(k, Unary::Sqrt, layout.attn_scalar);
    for i in 0..rows
        invariant
            layout.shaped(),
            q.is_matrix(),
            keys.is_matrix(),
            values.is_matrix(),
            rows == q.shape@[0],
            rows == keys.shape@[0],
            rows == values.shape@[0],
            q.cols() == q_len,
            q_len == layout.q_dim(),
            keys.cols() == layout.kv_dim(),
            values.cols() == layout.kv_dim(),
            functional(*k) ==> root == unary_of(*k, Unary::Sqrt, layout.attn_scalar),
            out.is_matrix(),
            out.cols() == q_len,
            out.shape@[0] == i,
            functional(*k) ==> forall|j: int|
                0 <= j < i ==> #[trigger] out.rows()[j] == causal_context(
                    *k,
                    q.rows()[j],
                    keys.data@,
                    values.data@,
                    *layout,
                    j,
                ),
    {
        proof {
            q.lemma_rows();
            out.lemma_rows();
            lemma_row_bounds(i as int, layout.kv_dim(), rows as int);
            layout.lemma_kv();
        }
        let row: Vec<K::Cell> = q.row_slice(i)?;
        let start: usize = layout.start_of_window(i + 1);
        let context: Vec<K::Cell> = attend(k, &row, &keys.data, &values.data, layout, start, i + 1, Scale::Divide(root));
        out.push_row(&context);
    }
    proof {
        q.lemma_rows();
        out.lemma_rows();
    }
    Ok(out)
}

/// The values of the positions from `start` on, weighted, are those of the rows cut from
/// there.
proof fn lemma_mixed_cut<K: Kernel>(k: K, weights: Seq<K::Cell>, values: Seq<K::Cell>, cut: Seq<K::Cell>, start: int, row_len: int, at: int)
    requires
        0 <= start,
        0 <= at < row_len,
        cut.len() >= weights.len() * row_len,
        start * row_len + cut.len() <= values.len(),
        cut == values.subrange(start * row_len, start * row_len + cut.len()),
    ensures
        mixed(k, weights, values, start, row_len, at) == mixed(k, weights, cut, 0, row_len, at),
    decreases weights.len(),
{
    if weights.len() > 0 {
        let row = weights.len() - 1;
        lemma_row_bounds(row, row_len, weights.len() as int);
        lemma_mixed_cut(k, weights.drop_last(), values, cut, start, row_len, at);
        vstd::arithmetic::mul::lemma_mul_is_distributive_add_other_way(row_len, start, row);
        vstd::arithmetic::mul::lemma_mul_nonnegative(start, row_len);
        assert(cut[row * row_len + at] == values[(start + row) * row_len + at]);
    }
}

/// To attend to the positions `start..end` is to attend to everything in a context that is
/// cut to them.
pub proof fn law_attend_cut<K: Kernel>(
    k: K,
    q: Seq<K::Cell>,
    keys: Seq<K::Cell>,
    values: Seq<K::Cell>,
    layout: AttentionLayout<K::Cell>,
    start: int,
    end: int,
    scale: Scale<K::Cell>,
)
    requires
        layout.shaped(),
        q.len() == layout.q_dim(),
        0 <= start <= end,
        end * layout.kv_dim() <= keys.len(),
        end * layout.kv_dim() <= values.len(),
    ensures
        attend_of(k, q, keys, values, layout, start, end, scale) == attend_of(
            k,
            q,
            keys.subrange(start * layout.kv_dim(), end * layout.kv_dim()),
            values.subrange(start * layout.kv_dim(), end * layout.kv_dim()),
            layout,
            0,
            end - start,
            scale,
        ),
{
    let heads = layout.num_attention_heads as int;
    let head_dim = layout.head_dim as int;
    let row_len = layout.kv_dim();
    layout.lemma_kv();
    vstd::arithmetic::mul::lemma_mul_nonnegative(start, row_len);
    vstd::arithmetic::mul::lemma_mul_inequality(start, end, row_len);
    vstd::arithmetic::mul::lemma_mul_is_distributive_sub_other_way(row_len, end, start);
    let cut_keys = keys.subrange(start * row_len, end * row_len);
    let cut_values = values.subrange(start * row_len, end * row_len);
    let n = end - start;
    let left = |h: int| head_context(k, row_of(q, head_dim, h), keys, values, row_len, layout.kv_head(h), start, end, scale);
    let right = |h: int| head_context(k, row_of(q, head_dim, h), cut_keys, cut_values, row_len, layout.kv_head(h), 0, n, scale);
    let lefts = Seq::new(heads as nat, left);
    let rights = Seq::new(heads as nat, right);
    assert forall|h: int| 0 <= h < heads implies #[trigger] lefts[h] == rights[h] by {
        let q_head = row_of(q, head_dim, h);
        let kv_head = layout.kv_head(h);
        lemma_row_bounds(h, head_dim, heads);
        lemma_row_bounds(kv_head, head_dim, layout.num_key_value_heads as int);
        let scores = Seq::new(n as nat, |i: int| score_of(k, q_head, keys, start + i, row_len, kv_head, scale));
        let cut_scores = Seq::new(n as nat, |i: int| score_of(k, q_head, cut_keys, 0 + i, row_len, kv_head, scale));
        assert forall|i: int| 0 <= i < n implies scores[i] == cut_scores[i] by {
            lemma_row_bounds(i, row_len, n);
            vstd::arithmetic::mul::lemma_mul_is_distributive_add_other_way(row_len, start, i);
            assert(head_part(keys, start + i, row_len, kv_head, head_dim) =~= head_part(cut_keys, i, row_len, kv_head, head_dim));
        }
        assert(scores =~= cut_scores);
        let weights = weights_of(k, q_head, keys, row_len, kv_head, start, end, scale);
        assert(weights == weights_of(k, q_head, cut_keys, row_len, kv_head, 0, n, scale));
        assert(weights.len() == n);
        let one = lefts[h];
        let other = rights[h];
        assert forall|c: int| 0 <= c < head_dim implies #[trigger] one[c] == other[c] by {
            lemma_mixed_cut(k, weights, values, cut_values, start, row_len, kv_head * head_dim + c);
        }
        assert(one =~= other);
    }
    assert(lefts =~= rights);
}

/// The layout without a window.
pub open spec fn unwindowed<C: Copy>(layout: AttentionLayout<C>) -> AttentionLayout<C> {
    AttentionLayout { sliding_window: None, ..layout }
}

/// A windowed row of attention is the last row of attention without a window over the
/// context cut to the window.
pub proof fn law_window_is_cut_context<K: Kernel>(k: K, q: Seq<K::Cell>, keys: Seq<K::Cell>, values: Seq<K::Cell>, layout: AttentionLayout<K::Cell>, i: int)
    requires
        layout.shaped(),
        q.len() == layout.q_dim(),
        0 <= i,
        (i + 1) * layout.kv_dim() <= keys.len(),
        (i + 1) * layout.kv_dim() <= values.len(),
    ensures
        ({
            let start = layout.window_start(i + 1);
            causal_context(k, q, keys, values, layout, i) == causal_context(
                k,
                q,
                keys.subrange(start * layout.kv_dim(), (i + 1) * layout.kv_dim()),
                values.subrange(start * layout.kv_dim(), (i + 1) * layout.kv_dim()),
                unwindowed(layout),
                i - start,
            )
        }),
{
    let scale = dividing(k, layout.attn_scalar);
    let start = layout.window_start(i + 1);
    let size = layout.kv_dim();
    law_attend_cut(k, q, keys, values, layout, start, i + 1, scale);
    lemma_unwindowed(
        k,
        q,
        keys.subrange(start * size, (i + 1) * size),
        values.subrange(start * size, (i + 1) * size),
        layout,
        0,
        i + 1 - start,
        scale,
    );
}

/// A windowed row over a cache is the row without a window over a cache that holds only the
/// positions in the window.
pub proof fn law_window_is_cut_cache<K: Kernel>(k: K, q: Seq<K::Cell>, view: LayerView<K::Cell>, layout: AttentionLayout<K::Cell>)
    requires
        layout.shaped(),
        q.len() == layout.q_dim(),
        view.kv_dim matches Some(dim) && dim == layout.kv_dim(),
        view.keys.len() == view.values.len(),
    ensures
        ({
            let start = layout.window_start(view.count());
            let size = layout.kv_dim();
            cached_context(k, q, view, layout) == cached_context(
                k,
                q,
                (LayerView {
                    keys: view.keys.subrange(start * size, view.count() * size),
                    values: view.values.subrange(start * size, view.count() * size),
                    ..view
                }),
                unwindowed(layout),
            )
        }),
{
    let scale = multiplying(k, layout.attn_scalar);
    let start = layout.window_start(view.count());
    let size = layout.kv_dim();
    let count = view.count();
    layout.lemma_kv();
    vstd::arithmetic::div_mod::lemma_fundamental_div_mod(view.keys.len() as int, size);
    vstd::arithmetic::div_mod::lemma_div_pos_is_pos(view.keys.len() as int, size);
    vstd::arithmetic::mul::lemma_mul_is_commutative(count, size);
    vstd::arithmetic::mul::lemma_mul_nonnegative(start, size);
    vstd::arithmetic::mul::lemma_mul_inequality(start, count, size);
    vstd::arithmetic::mul::lemma_mul_is_distributive_sub_other_way(size, count, start);
    let cut = LayerView {
        keys: view.keys.subrange(start * size, count * size),
        values: view.values.subrange(start * size, count * size),
        ..view
    };
    crate::kv::lemma_count(cut, count - start, size as usize);
    law_attend_cut(k, q, view.keys, view.values, layout, start, count, scale);
    lemma_unwindowed(k, q, cut.keys, cut.values, layout, 0, count - start, scale);
}

/// Which positions are attended to does not depend on the window of the layout once they
/// are given.
proof fn lemma_unwindowed<K: Kernel>(
    k: K,
    q: Seq<K::Cell>,
    keys: Seq<K::Cell>,
    values: Seq<K::Cell>,
    layout: AttentionLayout<K::Cell>,
    start: int,
    end: int,
    scale: Scale<K::Cell>,
)
    ensures
        attend_of(k, q, keys, values, layout, start, end, scale) == attend_of(k, q, keys, values, unwindowed(layout), start, end, scale),
{
    let one = |h: int|
        head_context(k, row_of(q, layout.head_dim as int, h), keys, values, layout.kv_dim(), layout.kv_head(h), start, end, scale);
    let plain = unwindowed(layout);
    let other = |h: int|
        head_context(k, row_of(q, plain.head_dim as int, h), keys, values, plain.kv_dim(), plain.kv_head(h), start, end, scale);
    assert(one =~= other);
}

} // verus!
