//! What a query sees, and how rows are turned.

use vstd::prelude::*;
use crate::attend::{causal_context, dividing, head_context, head_part, mixed, score_of, weights_of, Scale};
use crate::attention::AttentionLayout;
use crate::config::RopeStyle;
use crate::heads::{by_heads, every_second, lemma_by_heads_len, lemma_by_heads_step};
use crate::kernel::{binary_of, constant_of, count_of, unary_of, Binary, Constant, Kernel, Unary};
use crate::numbers::neutral;
use crate::rows::{first_of_pair, rotation_of, second_of_pair, turned, RopeParams};
use crate::tensor::row_of;

verus! {

/// A row that is put together of pieces falls into them again.
pub proof fn law_pieces_of_a_row<C>(count: int, piece: spec_fn(int) -> Seq<C>, size: int, h: int)
    requires
        0 <= h < count,
        0 <= size,
        forall|i: int| 0 <= i < count ==> (#[trigger] piece(i)).len() == size,
    ensures
        row_of(by_heads(count, piece), size, h) == piece(h),
        by_heads(count, piece).len() == count * size,
    decreases count,
{
    lemma_by_heads_step(count - 1, piece);
    lemma_by_heads_len(count, piece, size);
    lemma_by_heads_len(count - 1, piece, size);
    let before = by_heads(count - 1, piece);
    let last = piece(count - 1);
    assert((count - 1) * size + size == count * size) by (nonlinear_arith);
    if h < count - 1 {
        law_pieces_of_a_row(count - 1, piece, size, h);
        assert(h * size + size <= (count - 1) * size && 0 <= h * size) by (nonlinear_arith)
            requires
                0 <= h < count - 1,
                0 <= size,
        ;
        assert(row_of(before + last, size, h) =~= row_of(before, size, h));
    } else {
        assert(0 <= h * size) by (nonlinear_arith)
            requires
                0 <= h,
                0 <= size,
        ;
        assert(row_of(before + last, size, h) =~= last);
    }
}

/// Two sequences of rows agree in the columns of a head, in some rows.
pub open spec fn agree<C>(a: Seq<C>, b: Seq<C>, row_len: int, head: int, head_dim: int, start: int, end: int) -> bool {
    forall|row: int| start <= row < end ==> #[trigger] head_part(a, row, row_len, head, head_dim) == head_part(b, row, row_len, head, head_dim)
}

/// The columns of a head stand within the rows.
pub open spec fn stands<C>(a: Seq<C>, row_len: int, head: int, head_dim: int, end: int) -> bool {
    &&& 0 <= head && 0 < head_dim
    &&& head * head_dim + head_dim <= row_len
    &&& end * row_len <= a.len()
}

proof fn lemma_cell<C>(a: Seq<C>, b: Seq<C>, row: int, row_len: int, head: int, head_dim: int, end: int, c: int)
    requires
        stands(a, row_len, head, head_dim, end),
        stands(b, row_len, head, head_dim, end),
        0 <= row < end,
        0 <= c < head_dim,
        head_part(a, row, row_len, head, head_dim) == head_part(b, row, row_len, head, head_dim),
    ensures
        a[row * row_len + (head * head_dim + c)] == b[row * row_len + (head * head_dim + c)],
{
    assert(0 <= row * row_len && row * row_len + row_len <= end * row_len && 0 <= head * head_dim) by (nonlinear_arith)
        requires
            0 <= row < end,
            0 <= row_len,
            0 <= head,
            0 <= head_dim,
    ;
    let at = row * row_len + head * head_dim + c;
    assert(head_part(a, row, row_len, head, head_dim)[c] == a[at]);
    assert(head_part(b, row, row_len, head, head_dim)[c] == b[at]);
    assert(at == row * row_len + (head * head_dim + c));
}

proof fn lemma_mixed_agree<K: Kernel>(k: K, weights: Seq<K::Cell>, a: Seq<K::Cell>, b: Seq<K::Cell>, start: int, row_len: int, at: int)
    requires
        forall|row: int| start <= row < start + weights.len() ==> #[trigger] a[row * row_len + at] == b[row * row_len + at],
    ensures
        mixed(k, weights, a, start, row_len, at) == mixed(k, weights, b, start, row_len, at),
    decreases weights.len(),
{
    if weights.len() > 0 {
        lemma_mixed_agree(k, weights.drop_last(), a, b, start, row_len, at);
        let row = start + weights.len() - 1;
        assert(a[row * row_len + at] == b[row * row_len + at]);
    }
}

/// What a query head makes of some positions rests on nothing but its own numbers and the
/// keys and values of its key head at these positions.
pub proof fn law_sight_of_a_head<K: Kernel>(
    k: K,
    q_head: Seq<K::Cell>,
    keys: Seq<K::Cell>,
    other_keys: Seq<K::Cell>,
    values: Seq<K::Cell>,
    other_values: Seq<K::Cell>,
    row_len: int,
    head: int,
    start: int,
    end: int,
    scale: Scale<K::Cell>,
)
    requires
        0 <= start <= end,
        stands(values, row_len, head, q_head.len() as int, end),
        stands(other_values, row_len, head, q_head.len() as int, end),
        agree(keys, other_keys, row_len, head, q_head.len() as int, start, end),
        agree(values, other_values, row_len, head, q_head.len() as int, start, end),
    ensures
        head_context(k, q_head, keys, values, row_len, head, start, end, scale) == head_context(
            k,
            q_head,
            other_keys,
            other_values,
            row_len,
            head,
            start,
            end,
            scale,
        ),
{
    let dim = q_head.len() as int;
    let n = (end - start) as nat;
    let scores = Seq::new(n, |i: int| score_of(k, q_head, keys, start + i, row_len, head, scale));
    let others = Seq::new(n, |i: int| score_of(k, q_head, other_keys, start + i, row_len, head, scale));
    assert forall|i: int| 0 <= i < n implies #[trigger] scores[i] == others[i] by {
        assert(head_part(keys, start + i, row_len, head, dim) == head_part(other_keys, start + i, row_len, head, dim));
    }
    assert(scores =~= others);
    let weights = weights_of(k, q_head, keys, row_len, head, start, end, scale);
    assert(weights.len() == n);
    let made = head_context(k, q_head, keys, values, row_len, head, start, end, scale);
    let also = head_context(k, q_head, other_keys, other_values, row_len, head, start, end, scale);
    assert forall|c: int| 0 <= c < dim implies #[trigger] made[c] == also[c] by {
        let at = head * dim + c;
        assert forall|row: int| start <= row < start + weights.len() implies #[trigger] values[row * row_len + at] == other_values[row * row_len + at] by {
            assert(head_part(values, row, row_len, head, dim) == head_part(other_values, row, row_len, head, dim));
            lemma_cell(values, other_values, row, row_len, head, dim, end, c);
        }
        lemma_mixed_agree(k, weights, values, other_values, start, row_len, at);
    }
    assert(made =~= also);
}

/// A position sees itself and those before it, and none behind it: two batches that agree up
/// to a position give it the same context.
pub proof fn law_no_look_ahead<K: Kernel>(
    k: K,
    q: Seq<K::Cell>,
    keys: Seq<K::Cell>,
    other_keys: Seq<K::Cell>,
    values: Seq<K::Cell>,
    other_values: Seq<K::Cell>,
    layout: AttentionLayout<K::Cell>,
    i: int,
)
    requires
        0 <= i,
        layout.shaped(),
        (i + 1) * layout.kv_dim() <= keys.len(),
        (i + 1) * layout.kv_dim() <= other_keys.len(),
        (i + 1) * layout.kv_dim() <= values.len(),
        (i + 1) * layout.kv_dim() <= other_values.len(),
        keys.take((i + 1) * layout.kv_dim()) == other_keys.take((i + 1) * layout.kv_dim()),
        values.take((i + 1) * layout.kv_dim()) == other_values.take((i + 1) * layout.kv_dim()),
        q.len() == layout.q_dim(),
    ensures
        causal_context(k, q, keys, values, layout, i) == causal_context(k, q, other_keys, other_values, layout, i),
{
    let dim = layout.head_dim as int;
    let row_len = layout.kv_dim();
    let end = i + 1;
    let start = layout.window_start(end);
    let heads = layout.num_attention_heads as int;
    let scale = dividing(k, layout.attn_scalar);
    let pieces = Seq::new(
        heads as nat,
        |h: int| head_context(k, row_of(q, dim, h), keys, values, row_len, layout.kv_head(h), start, end, scale),
    );
    let others = Seq::new(
        heads as nat,
        |h: int| head_context(k, row_of(q, dim, h), other_keys, other_values, row_len, layout.kv_head(h), start, end, scale),
    );
    assert forall|h: int| 0 <= h < heads implies #[trigger] pieces[h] == others[h] by {
        layout.lemma_kv();
        let head = layout.kv_head(h);
        lemma_key_head(layout, h);
        assert(h * dim + dim <= heads * dim && 0 <= h * dim) by (nonlinear_arith)
            requires
                0 <= h < heads,
                0 < dim,
        ;
        let part = row_of(q, dim, h);
        assert(part.len() == dim);
        assert forall|row: int| start <= row < end implies #[trigger] head_part(keys, row, row_len, head, dim) == head_part(other_keys, row, row_len, head, dim) by {
            lemma_taken(keys, other_keys, row, row_len, head, dim, end);
        }
        assert forall|row: int| start <= row < end implies #[trigger] head_part(values, row, row_len, head, dim) == head_part(
            other_values,
            row,
            row_len,
            head,
            dim,
        ) by {
            lemma_taken(values, other_values, row, row_len, head, dim, end);
        }
        law_sight_of_a_head(k, part, keys, other_keys, values, other_values, row_len, head, start, end, scale);
    }
    assert(pieces =~= others);
}

/// A query head reads a key head that is there.
proof fn lemma_key_head<C: Copy>(layout: AttentionLayout<C>, h: int)
    requires
        layout.shaped(),
        0 <= h < layout.num_attention_heads,
    ensures
        0 <= layout.kv_head(h) < layout.num_key_value_heads,
        0 <= layout.kv_head(h) * layout.head_dim,
        layout.kv_head(h) * layout.head_dim + layout.head_dim <= layout.kv_dim(),
{
    let heads = layout.num_attention_heads as int;
    let kv = layout.num_key_value_heads as int;
    let dim = layout.head_dim as int;
    let group = heads / kv;
    assert(heads == kv * group && group > 0) by (nonlinear_arith)
        requires
            heads % kv == 0,
            kv > 0,
            heads > 0,
            group == heads / kv,
    ;
    let head = h / group;
    assert(0 <= head < kv) by (nonlinear_arith)
        requires
            0 <= h < kv * group,
            group > 0,
            head == h / group,
    ;
    assert(0 <= head * dim && head * dim + dim <= kv * dim) by (nonlinear_arith)
        requires
            0 <= head < kv,
            0 < dim,
    ;
}

/// Sequences that agree at the front agree in its rows.
proof fn lemma_taken<C>(a: Seq<C>, b: Seq<C>, row: int, row_len: int, head: int, dim: int, end: int)
    requires
        0 <= row < end,
        0 <= head * dim,
        0 < dim,
        head * dim + dim <= row_len,
        end * row_len <= a.len(),
        end * row_len <= b.len(),
        a.take(end * row_len) == b.take(end * row_len),
    ensures
        head_part(a, row, row_len, head, dim) == head_part(b, row, row_len, head, dim),
{
    assert(0 <= row * row_len && row * row_len + row_len <= end * row_len) by (nonlinear_arith)
        requires
            0 <= row < end,
            0 <= row_len,
    ;
    let (x, y) = (head_part(a, row, row_len, head, dim), head_part(b, row, row_len, head, dim));
    assert forall|c: int| 0 <= c < dim implies #[trigger] x[c] == y[c] by {
        let at = row * row_len + head * dim + c;
        assert(0 <= at < end * row_len);
        assert(x[c] == a[at] && y[c] == b[at]);
        assert(a.take(end * row_len)[at] == a[at] && b.take(end * row_len)[at] == b[at]);
        assert(a.take(end * row_len)[at] == b.take(end * row_len)[at]);
    }
    assert(x =~= y);
}

/// A projection with a gate holds, head by head, the query of the head and behind it the
/// head's gate.
pub proof fn law_query_and_gate<C>(row: Seq<C>, heads: int, head_dim: int, h: int)
    requires
        0 <= h < heads,
        0 <= head_dim,
        row.len() == 2 * (heads * head_dim),
    ensures
        row_of(every_second(row, heads, head_dim, false), head_dim, h) == row_of(row, 2 * head_dim, h).take(head_dim),
        row_of(every_second(row, heads, head_dim, true), head_dim, h) == row_of(row, 2 * head_dim, h).skip(head_dim),
{
    let query = |i: int| row_of(row, head_dim, 2 * i + if false { 1int } else { 0int });
    let gate = |i: int| row_of(row, head_dim, 2 * i + if true { 1int } else { 0int });
    assert forall|i: int| 0 <= i < heads implies (#[trigger] query(i)).len() == head_dim by {
        assert((2 * i) * head_dim + head_dim <= 2 * (heads * head_dim) && (2 * i + 1) * head_dim + head_dim <= 2 * (heads * head_dim) && 0 <= (2 * i)
            * head_dim && 0 <= (2 * i + 1) * head_dim) by (nonlinear_arith)
            requires
                0 <= i < heads,
                0 <= head_dim,
        ;
    }
    assert forall|i: int| 0 <= i < heads implies (#[trigger] gate(i)).len() == head_dim by {
        assert((2 * i) * head_dim + head_dim <= 2 * (heads * head_dim) && (2 * i + 1) * head_dim + head_dim <= 2 * (heads * head_dim) && 0 <= (2 * i)
            * head_dim && 0 <= (2 * i + 1) * head_dim) by (nonlinear_arith)
            requires
                0 <= i < heads,
                0 <= head_dim,
        ;
    }
    law_pieces_of_a_row(heads, query, head_dim, h);
    law_pieces_of_a_row(heads, gate, head_dim, h);
    assert(every_second(row, heads, head_dim, false) == by_heads(heads, query));
    assert(every_second(row, heads, head_dim, true) == by_heads(heads, gate));
    assert((2 * h) * head_dim == h * (2 * head_dim) && (2 * h + 1) * head_dim == h * (2 * head_dim) + head_dim) by (nonlinear_arith);
    assert(h * (2 * head_dim) + 2 * head_dim <= 2 * (heads * head_dim) && 0 <= h * (2 * head_dim)) by (nonlinear_arith)
        requires
            0 <= h < heads,
            0 <= head_dim,
    ;
    assert(query(h) =~= row_of(row, 2 * head_dim, h).take(head_dim));
    assert(gate(h) =~= row_of(row, 2 * head_dim, h).skip(head_dim));
}

/// The first pair of a head turns by the position times the layer's scale, whatever the base
/// is; and the pair whose number is half the size of the turns turns by that over the base.
pub proof fn law_angles<K: Kernel>(k: K, position: int, pair: int, rope: RopeParams<K::Cell>)
    requires
        neutral(k),
        0 <= pair,
        forall|x: K::Cell| #[trigger] binary_of(k, Binary::Pow, x, constant_of(k, Constant::Zero)) == constant_of(k, Constant::One),
        forall|x: K::Cell| #[trigger] binary_of(k, Binary::Pow, x, constant_of(k, Constant::One)) == x,
        binary_of(k, Binary::Div, count_of(k, 0), count_of(k, rope.frequency_dim)) == constant_of(k, Constant::Zero),
        binary_of(k, Binary::Div, count_of(k, rope.frequency_dim), count_of(k, rope.frequency_dim)) == constant_of(k, Constant::One),
    ensures
        ({
            let scaled = binary_of(k, Binary::Mul, count_of(k, position as usize), rope.position_scale);
            let divided = binary_of(k, Binary::Div, scaled, rope.theta);
            &&& rotation_of(k, position, 0, rope) == (unary_of(k, Unary::Cos, scaled), unary_of(k, Unary::Sin, scaled))
            &&& 2 * pair == rope.frequency_dim ==> rotation_of(k, position, pair, rope) == (unary_of(k, Unary::Cos, divided), unary_of(k, Unary::Sin, divided))
        }),
{
}

/// Turns by nothing leave a head as it is, and what lies behind the pairs is never turned.
pub proof fn law_unturned<K: Kernel>(k: K, head: Seq<K::Cell>, turns: Seq<(K::Cell, K::Cell)>, style: RopeStyle, c: int)
    requires
        neutral(k),
        2 * turns.len() <= head.len(),
        0 <= c < head.len(),
    ensures
        turned(k, head, turns, style).len() == head.len(),
        c >= 2 * turns.len() ==> turned(k, head, turns, style)[c] == head[c],
        (forall|p: int| 0 <= p < turns.len() ==> #[trigger] turns[p] == (constant_of(k, Constant::One), constant_of(k, Constant::Zero))) ==> turned(
            k,
            head,
            turns,
            style,
        )[c] == head[c],
{
}

/// Which numbers make a pair: neighbours, or those half of the turned numbers apart. A pair
/// that holds a one and a zero is turned to the cosine and the sine, in this order.
pub proof fn law_pairs<K: Kernel>(k: K, head: Seq<K::Cell>, turns: Seq<(K::Cell, K::Cell)>, pair: int)
    requires
        neutral(k),
        0 <= pair < turns.len(),
        2 * turns.len() <= head.len(),
    ensures
        ({
            let (zero, one) = (constant_of(k, Constant::Zero), constant_of(k, Constant::One));
            let n = turns.len() as int;
            let near = turned(k, head, turns, RopeStyle::Interleaved);
            let far = turned(k, head, turns, RopeStyle::Halves);
            &&& head[2 * pair] == one && head[2 * pair + 1] == zero ==> near[2 * pair] == turns[pair].0 && near[2 * pair + 1] == turns[pair].1
            &&& head[pair] == one && head[pair + n] == zero ==> far[pair] == turns[pair].0 && far[pair + n] == turns[pair].1
        }),
{
    let near = turned(k, head, turns, RopeStyle::Interleaved);
    assert((2 * pair) / 2 == pair && (2 * pair + 1) / 2 == pair);
    assert(near[2 * pair] == first_of_pair(k, head[2 * pair], head[2 * pair + 1], turns[pair]));
    assert(near[2 * pair + 1] == second_of_pair(k, head[2 * pair], head[2 * pair + 1], turns[pair]));
}

} // verus!
