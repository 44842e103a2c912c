//! Rows taken head by head.

use vstd::prelude::*;
use crate::config::{CausalDecoderConfig, RopeStyle};
use crate::error::InferError;
use crate::kernel::{at_most, at_most_of, constant, constant_of, functional, Constant, Kernel};
use crate::rows::{normalise, rms_row, rope_rotations, rotations_of, turn_head, turned, weight_view, RopeParams};
use crate::tensor::{append_cells, copy_range, flatten, lemma_row_bounds, row_of, Tensor};

verus! {

/// A row rebuilt from pieces, one for each of `count` heads.
pub open spec fn by_heads<C>(count: int, piece: spec_fn(int) -> Seq<C>) -> Seq<C> {
    flatten(Seq::new(count as nat, piece))
}

pub proof fn lemma_by_heads_step<C>(count: int, piece: spec_fn(int) -> Seq<C>)
    requires
        0 <= count,
    ensures
        by_heads(count + 1, piece) == by_heads(count, piece) + piece(count),
        by_heads(0, piece) == Seq::<C>::empty(),
{
    let longer = Seq::new((count + 1) as nat, piece);
    assert(longer.drop_last() =~= Seq::new(count as nat, piece));
    assert(longer.last() == piece(count));
}

/// Pieces of one length make a row of the product.
pub proof fn lemma_by_heads_len<C>(count: int, piece: spec_fn(int) -> Seq<C>, size: int)
    requires
        0 <= count,
        forall|h: int| 0 <= h < count ==> (#[trigger] piece(h)).len() == size,
    ensures
        by_heads(count, piece).len() == count * size,
    decreases count,
{
    if count > 0 {
        lemma_by_heads_len(count - 1, piece, size);
        lemma_by_heads_step(count - 1, piece);
        assert((count - 1) * size + size == count * size) by (nonlinear_arith);
    } else {
        lemma_by_heads_step(0, piece);
        assert(0 * size == 0) by (nonlinear_arith);
    }
}

/// A row whose heads are normalised one by one.
pub open spec fn normed_heads<K: Kernel>(k: K, row: Seq<K::Cell>, heads: int, head_dim: int, weight: Option<Seq<K::Cell>>, eps: K::Cell) -> Seq<K::Cell> {
    by_heads(heads, |h: int| rms_row(k, row_of(row, head_dim, h), weight, eps))
}

/// A row whose heads are turned one by one.
pub open spec fn turned_heads<K: Kernel>(k: K, row: Seq<K::Cell>, heads: int, head_dim: int, turns: Seq<(K::Cell, K::Cell)>, style: RopeStyle) -> Seq<K::Cell> {
    by_heads(heads, |h: int| turned(k, row_of(row, head_dim, h), turns, style))
}

fn norm_heads_of_row<K: Kernel>(k: &K, row: &Vec<K::Cell>, heads: usize, head_dim: usize, weight: Option<&Vec<K::Cell>>, eps: K::Cell) -> (out: Vec<K::Cell>)
    requires
        row@.len() == heads * head_dim,
        weight matches Some(weight) ==> weight@.len() == head_dim,
    ensures
        out@.len() == row@.len(),
        functional(*k) ==> out@ == normed_heads(*k, row@, heads as int, head_dim as int, weight_view(weight), eps),
{
    let have: usize = row.len();
    let ghost piece = |h: int| rms_row(*k, row_of(row@, head_dim as int, h), weight_view(weight), eps);
    let mut out: Vec<K::Cell> = Vec::new();
    proof {
        lemma_by_heads_step(0, piece);
        assert(0 * head_dim == 0) by (nonlinear_arith);
    }
    for h in 0..heads
        invariant
            have == row@.len(),
            row@.len() == heads * head_dim,
            weight matches Some(weight) ==> weight@.len() == head_dim,
            piece == (|h: int| rms_row(*k, row_of(row@, head_dim as int, h), weight_view(weight), eps)),
            out@.len() == h * head_dim,
            functional(*k) ==> out@ == by_heads(h as int, piece),
    {
        proof {
            lemma_row_bounds(h as int, head_dim as int, heads as int);
            lemma_by_heads_step(h as int, piece);
        }
        let start: usize = h * head_dim;
        let normed: Vec<K::Cell> = normalise(k, row, start, head_dim, weight, eps);
        append_cells(&mut out, &normed);
    }
    out
}

fn turn_heads_of_row<K: Kernel>(k: &K, row: &Vec<K::Cell>, heads: usize, head_dim: usize, turns: &Vec<(K::Cell, K::Cell)>, style: RopeStyle) -> (out: Vec<K::Cell>)
    requires
        row@.len() == heads * head_dim,
        heads > 0 ==> 2 * turns@.len() <= head_dim,
    ensures
        out@.len() == row@.len(),
        functional(*k) ==> out@ == turned_heads(*k, row@, heads as int, head_dim as int, turns@, style),
{
    let have: usize = row.len();
    let ghost piece = |h: int| turned(*k, row_of(row@, head_dim as int, h), turns@, style);
    let mut out: Vec<K::Cell> = Vec::new();
    proof {
        lemma_by_heads_step(0, piece);
        assert(0 * head_dim == 0) by (nonlinear_arith);
    }
    for h in 0..heads
        invariant
            have == row@.len(),
            row@.len() == heads * head_dim,
            heads > 0 ==> 2 * turns@.len() <= head_dim,
            piece == (|h: int| turned(*k, row_of(row@, head_dim as int, h), turns@, style)),
            out@.len() == h * head_dim,
            functional(*k) ==> out@ == by_heads(h as int, piece),
    {
        proof {
            lemma_row_bounds(h as int, head_dim as int, heads as int);
            lemma_by_heads_step(h as int, piece);
        }
        let start: usize = h * head_dim;
        let turned_head: Vec<K::Cell> = turn_head(k, row, start, head_dim, turns, style);
        append_cells(&mut out, &turned_head);
    }
    out
}

/// A weight is a vector of `size` numbers, alone or as the only row of a matrix.
pub open spec fn fits_head<C>(weight: Tensor<C>, size: int) -> bool {
    &&& weight.data@.len() == size
    &&& (weight.shape@ == seq![size as usize] || weight.shape@ == seq![1usize, size as usize])
}

fn weight_fits_head<C>(weight: &Tensor<C>, size: usize) -> (fits: bool)
    ensures
        fits == fits_head(*weight, size as int),
{
    let rank: usize = weight.shape.len();
    let fits: bool = weight.data.len() == size && ((rank == 1 && weight.shape[0] == size) || (rank == 2
        && weight.shape[0] == 1 && weight.shape[1] == size));
    proof {
        if fits {
            if rank == 1 {
                assert(weight.shape@ =~= seq![size]);
            } else {
                assert(weight.shape@ =~= seq![1usize, size]);
            }
        } else {
            assert(seq![size][0] == size);
            assert(seq![1usize, size][0] == 1 && seq![1usize, size][1] == size);
        }
    }
    fits
}

/// The rows fall into `heads` heads of size `head_dim`, neither of them zero.
pub open spec fn falls_into(cols: int, heads: int, head_dim: int) -> bool {
    heads > 0 && head_dim > 0 && cols == heads * head_dim
}

fn rows_fall_into(cols: usize, heads: usize, head_dim: usize) -> (fits: bool)
    ensures
        fits == falls_into(cols as int, heads as int, head_dim as int),
{
    if heads == 0 || head_dim == 0 {
        return false;
    }
    match heads.checked_mul(head_dim) {
        Some(size) => size == cols,
        None => false,
    }
}

/// Normalises every head of every row, with a weight. Refused where the rows do
/// not fall into heads or the weight is not of a head's size.
pub fn rms_norm_heads<K: Kernel>(k: &K, x: &Tensor<K::Cell>, heads: usize, head_dim: usize, weight: &Tensor<K::Cell>, eps: K::Cell) -> (out: Result<Tensor<K::Cell>, InferError>)
    requires
        x.is_matrix(),
    ensures
        out is Ok <==> falls_into(x.cols(), heads as int, head_dim as int) && fits_head(*weight, head_dim as int),
        out matches Err(error) ==> error is Dimension,
        out matches Ok(out) ==> out.is_matrix() && out.cols() == x.cols() && out.shape@[0] == x.shape@[0],
        functional(*k) ==> (out matches Ok(out) ==> forall|i: int|
            0 <= i < x.rows().len() ==> #[trigger] out.rows()[i] == normed_heads(
                *k,
                x.rows()[i],
                heads as int,
                head_dim as int,
                Some(weight.data@),
                eps,
            )),
{
    let cols: usize = x.shape[1];
    if !rows_fall_into(cols, heads, head_dim) {
        return Err(InferError::Dimension("rows do not fall into heads"));
    }
    if !weight_fits_head(weight, head_dim) {
        return Err(InferError::Dimension("norm weight does not fit a head"));
    }
    Ok(norm_all_heads(k, x, heads, head_dim, Some(&weight.data), eps))
}

/// Normalises every head of every row, without a weight.
pub fn rms_norm_heads_no_scale<K: Kernel>(k: &K, x: &Tensor<K::Cell>, heads: usize, head_dim: usize, eps: K::Cell) -> (out: Result<Tensor<K::Cell>, InferError>)
    requires
        x.is_matrix(),
    ensures
        out is Ok <==> falls_into(x.cols(), heads as int, head_dim as int),
        out matches Err(error) ==> error is Dimension,
        out matches Ok(out) ==> out.is_matrix() && out.cols() == x.cols() && out.shape@[0] == x.shape@[0],
        functional(*k) ==> (out matches Ok(out) ==> forall|i: int|
            0 <= i < x.rows().len() ==> #[trigger] out.rows()[i] == normed_heads(
                *k,
                x.rows()[i],
                heads as int,
                head_dim as int,
                None,
                eps,
            )),
{
    let cols: usize = x.shape[1];
    if !rows_fall_into(cols, heads, head_dim) {
        return Err(InferError::Dimension("rows do not fall into heads"));
    }
    Ok(norm_all_heads(k, x, heads, head_dim, None, eps))
}

fn norm_all_heads<K: Kernel>(k: &K, x: &Tensor<K::Cell>, heads: usize, head_dim: usize, weight: Option<&Vec<K::Cell>>, eps: K::Cell) -> (out: Tensor<K::Cell>)
    requires
        x.is_matrix(),
        x.cols() == heads * head_dim,
        weight matches Some(weight) ==> weight@.len() == head_dim,
    ensures
        out.is_matrix(),
        out.cols() == x.cols(),
        out.shape@[0] == x.shape@[0],
        functional(*k) ==> forall|i: int|
            0 <= i < x.rows().len() ==> #[trigger] out.rows()[i] == normed_heads(
                *k,
                x.rows()[i],
                heads as int,
                head_dim as int,
                weight_view(weight),
                eps,
            ),
{
    let count: usize = x.shape[0];
    let cols: usize = x.shape[1];
    let mut out: Tensor<K::Cell> = Tensor::empty_matrix(cols);
    for i in 0..count
        invariant
            x.is_matrix(),
            count == x.shape@[0],
            cols == x.cols(),
            x.cols() == heads * head_dim,
            weight matches Some(weight) ==> weight@.len() == head_dim,
            out.is_matrix(),
            out.cols() == cols,
            out.shape@[0] == i,
            functional(*k) ==> forall|j: int|
                0 <= j < i ==> #[trigger] out.rows()[j] == normed_heads(
                    *k,
                    x.rows()[j],
                    heads as int,
                    head_dim as int,
                    weight_view(weight),
                    eps,
                ),
    {
        proof {
            x.lemma_rows();
            out.lemma_rows();
            lemma_row_bounds(i as int, cols as int, count as int);
        }
        let have: usize = x.data.len();
        let row: Vec<K::Cell> = copy_range(&x.data, i * cols, i * cols + cols);
        assert(row@ == x.rows()[i as int]);
        let normed: Vec<K::Cell> = norm_heads_of_row(k, &row, heads, head_dim, weight, eps);
        out.push_row(&normed);
    }
    proof {
        x.lemma_rows();
        out.lemma_rows();
    }
    out
}

/// The rows turned by the rotations of the positions `offset`, `offset + 1`, ...
pub open spec fn turned_row<K: Kernel>(
    k: K,
    row: Seq<K::Cell>,
    heads: int,
    head_dim: int,
    rope_dims: int,
    rope: RopeParams<K::Cell>,
    position: int,
    style: RopeStyle,
) -> Seq<K::Cell> {
    turned_heads(k, row, heads, head_dim, rotations_of(k, position, rope_dims, rope), style)
}

/// The last of `rows` positions from `offset` on is within the machine's range.
pub open spec fn positions_fit(offset: int, rows: int) -> bool {
    rows == 0 || offset + rows - 1 <= usize::MAX
}

fn do_positions_fit(offset: usize, rows: usize) -> (fit: bool)
    ensures
        fit == positions_fit(offset as int, rows as int),
{
    rows == 0 || offset.checked_add(rows - 1).is_some()
}

/// The pairs that are turned stand within a head, where there is one.
pub open spec fn pairs_fit(rows: int, heads: int, head_dim: int, rope_dims: int) -> bool {
    rows == 0 || heads == 0 || 2 * (rope_dims / 2) <= head_dim
}

fn turn_all_heads<K: Kernel>(
    k: &K,
    x: &Tensor<K::Cell>,
    heads: usize,
    head_dim: usize,
    rope_dims: usize,
    rope: RopeParams<K::Cell>,
    position_offset: usize,
    style: RopeStyle,
) -> (out: Tensor<K::Cell>)
    requires
        x.is_matrix(),
        x.cols() == heads * head_dim,
        pairs_fit(x.shape@[0] as int, heads as int, head_dim as int, rope_dims as int),
        positions_fit(position_offset as int, x.shape@[0] as int),
    ensures
        out.is_matrix(),
        out.cols() == x.cols(),
        out.shape@[0] == x.shape@[0],
        functional(*k) ==> forall|i: int|
            0 <= i < x.rows().len() ==> #[trigger] out.rows()[i] == turned_row(
                *k,
                x.rows()[i],
                heads as int,
                head_dim as int,
                rope_dims as int,
                rope,
                position_offset + i,
                style,
            ),
{
    let count: usize = x.shape[0];
    let cols: usize = x.shape[1];
    let mut out: Tensor<K::Cell> = Tensor::empty_matrix(cols);
    for i in 0..count
        invariant
            x.is_matrix(),
            count == x.shape@[0],
            cols == x.cols(),
            x.cols() == heads * head_dim,
            pairs_fit(count as int, heads as int, head_dim as int, rope_dims as int),
            positions_fit(position_offset as int, count as int),
            out.is_matrix(),
            out.cols() == cols,
            out.shape@[0] == i,
            functional(*k) ==> forall|j: int|
                0 <= j < i ==> #[trigger] out.rows()[j] == turned_row(
                    *k,
                    x.rows()[j],
                    heads as int,
                    head_dim as int,
                    rope_dims as int,
                    rope,
                    position_offset + j,
                    style,
                ),
    {
        proof {
            x.lemma_rows();
            out.lemma_rows();
            lemma_row_bounds(i as int, cols as int, count as int);
        }
        let have: usize = x.data.len();
        let row: Vec<K::Cell> = copy_range(&x.data, i * cols, i * cols + cols);
        assert(row@ == x.rows()[i as int]);
        let turns: Vec<(K::Cell, K::Cell)> = rope_rotations(k, position_offset + i, rope_dims, rope);
        let turned_now: Vec<K::Cell> = turn_heads_of_row(k, &row, heads, head_dim, &turns, style);
        out.push_row(&turned_now);
    }
    proof {
        x.lemma_rows();
        out.lemma_rows();
    }
    out
}

/// Turns every head of every row; row `i` stands at position `position_offset + i`.
/// Refused where the rows do not fall into heads, the pairs of a head that is there do not
/// stand within it, the base is not positive, or a position leaves the machine's range.
pub fn apply_rope_heads_at<K: Kernel>(
    k: &K,
    x: &Tensor<K::Cell>,
    heads: usize,
    head_dim: usize,
    rope_dims: usize,
    rope: RopeParams<K::Cell>,
    position_offset: usize,
    style: RopeStyle,
) -> (out: Result<Tensor<K::Cell>, InferError>)
    requires
        x.is_matrix(),
    ensures
        out matches Err(error) ==> error is Dimension,
        out matches Ok(out) ==> out.is_matrix() && out.cols() == x.cols() && out.shape@[0] == x.shape@[0],
        functional(*k) ==> (out is Ok <==> {
            &&& x.cols() == heads * head_dim
            &&& pairs_fit(x.shape@[0] as int, heads as int, head_dim as int, rope_dims as int)
            &&& positions_fit(position_offset as int, x.shape@[0] as int)
            &&& !at_most_of(*k, rope.theta, constant_of(*k, Constant::Zero))
        }),
        functional(*k) ==> (out matches Ok(out) ==> forall|i: int|
            0 <= i < x.rows().len() ==> #[trigger] out.rows()[i] == turned_row(
                *k,
                x.rows()[i],
                heads as int,
                head_dim as int,
                rope_dims as int,
                rope,
                position_offset + i,
                style,
            )),
{
    let cols: usize = x.shape[1];
    let fits: bool = match heads.checked_mul(head_dim) {
        Some(size) => size == cols,
        None => false,
    };
    if !fits {
        return Err(InferError::Dimension("rows do not fall into heads"));
    }
    let zero: K::Cell = constant(k, Constant::Zero);
    if at_most(k, rope.theta, zero) {
        return Err(InferError::Dimension("rotation base is not positive"));
    }
    if x.shape[0] > 0 && heads > 0 && rope_dims / 2 > head_dim / 2 {
        return Err(InferError::Dimension("rotated part does not fit a head"));
    }
    if !do_positions_fit(position_offset, x.shape[0]) {
        return Err(InferError::Dimension("position leaves the machine's range"));
    }
    Ok(turn_all_heads(k, x, heads, head_dim, rope_dims, rope, position_offset, style))
}

/// Turns every head of every row from position zero on.
pub fn apply_rope_heads<K: Kernel>(
    k: &K,
    x: &Tensor<K::Cell>,
    heads: usize,
    head_dim: usize,
    rope_dims: usize,
    rope: RopeParams<K::Cell>,
    style: RopeStyle,
) -> (out: Result<Tensor<K::Cell>, InferError>)
    requires
        x.is_matrix(),
    ensures
        out matches Err(error) ==> error is Dimension,
        out matches Ok(out) ==> out.is_matrix() && out.cols() == x.cols() && out.shape@[0] == x.shape@[0],
        functional(*k) ==> (out is Ok <==> {
            &&& x.cols() == heads * head_dim
            &&& pairs_fit(x.shape@[0] as int, heads as int, head_dim as int, rope_dims as int)
            &&& !at_most_of(*k, rope.theta, constant_of(*k, Constant::Zero))
        }),
        functional(*k) ==> (out matches Ok(out) ==> forall|i: int|
            0 <= i < x.rows().len() ==> #[trigger] out.rows()[i] == turned_row(
                *k,
                x.rows()[i],
                heads as int,
                head_dim as int,
                rope_dims as int,
                rope,
                i,
                style,
            )),
{
    apply_rope_heads_at(k, x, heads, head_dim, rope_dims, rope, 0, style)
}

/// Normalises and turns every head of every row. Refused where the rows do not
/// fall into heads, the rotated part is not a whole number of pairs within a head,
/// the weight is not of a head's size, or a position leaves the machine's range.
pub fn rms_norm_rope_heads_at<K: Kernel>(
    k: &K,
    x: &Tensor<K::Cell>,
    heads: usize,
    head_dim: usize,
    rope_dims: usize,
    weight: &Tensor<K::Cell>,
    eps: K::Cell,
    rope: RopeParams<K::Cell>,
    position_offset: usize,
    style: RopeStyle,
) -> (out: Result<Tensor<K::Cell>, InferError>)
    requires
        x.is_matrix(),
    ensures
        out is Ok <==> falls_into(x.cols(), heads as int, head_dim as int) && 0 < rope_dims <= head_dim && rope_dims % 2
            == 0 && fits_head(*weight, head_dim as int) && positions_fit(position_offset as int, x.shape@[0] as int),
        out matches Err(error) ==> error is Dimension,
        out matches Ok(out) ==> out.is_matrix() && out.cols() == x.cols() && out.shape@[0] == x.shape@[0],
        functional(*k) ==> (out matches Ok(out) ==> forall|i: int|
            0 <= i < x.rows().len() ==> #[trigger] out.rows()[i] == turned_row(
                *k,
                normed_heads(*k, x.rows()[i], heads as int, head_dim as int, Some(weight.data@), eps),
                heads as int,
                head_dim as int,
                rope_dims as int,
                rope,
                position_offset + i,
                style,
            )),
{
    let cols: usize = x.shape[1];
    if !rows_fall_into(cols, heads, head_dim) {
        return Err(InferError::Dimension("rows do not fall into heads"));
    }
    if rope_dims == 0 || rope_dims > head_dim || rope_dims % 2 != 0 {
        return Err(InferError::Dimension("rotated part does not fit a head"));
    }
    if !do_positions_fit(position_offset, x.shape[0]) {
        return Err(InferError::Dimension("position leaves the machine's range"));
    }
    let normed: Tensor<K::Cell> = rms_norm_heads(k, x, heads, head_dim, weight, eps)?;
    let out: Tensor<K::Cell> = turn_all_heads(k, &normed, heads, head_dim, rope_dims, rope, position_offset, style);
    proof {
        x.lemma_rows();
        normed.lemma_rows();
        if functional(*k) {
            assert forall|i: int| 0 <= i < x.rows().len() implies #[trigger] out.rows()[i] == turned_row(
                *k,
                normed_heads(*k, x.rows()[i], heads as int, head_dim as int, Some(weight.data@), eps),
                heads as int,
                head_dim as int,
                rope_dims as int,
                rope,
                position_offset + i,
                style,
            ) by {
                assert(normed.rows()[i] == normed_heads(*k, x.rows()[i], heads as int, head_dim as int, Some(weight.data@), eps));
            }
        }
    }
    Ok(out)
}

/// Every second piece of a row of twice as many pieces, from the first or from
/// the second on.
pub open spec fn every_second<C>(row: Seq<C>, heads: int, head_dim: int, second: bool) -> Seq<C> {
    by_heads(heads, |h: int| row_of(row, head_dim, 2 * h + if second { 1int } else { 0int }))
}

/// The row length of a projection that holds a query and a gate for each head.
pub open spec fn gated_q_dim<C>(config: CausalDecoderConfig<C>) -> Option<int> {
    match config.head_dim {
        Some(head_dim) => Some(config.num_attention_heads * head_dim),
        None => None,
    }
}

/// Parts a query projection into queries and output gates, where the model gates
/// its attention. Refused where the model fixes no head size, or the rows do not
/// hold a query and a gate for each head.
pub fn split_attention_gate<C: Copy>(config: &CausalDecoderConfig<C>, projection: &Tensor<C>) -> (parts: Result<(Tensor<C>, Option<Tensor<C>>), InferError>)
    requires
        projection.is_matrix(),
    ensures
        parts is Ok <==> !config.attn_output_gate || (gated_q_dim(*config) matches Some(dim) && projection.cols() == 2
            * dim),
        parts matches Err(error) ==> error is Dimension,
        parts matches Ok(parts) ==> {
            &&& parts.0.is_matrix()
            &&& parts.0.shape@[0] == projection.shape@[0]
            &&& !config.attn_output_gate ==> parts.1 is None && parts.0.cols() == projection.cols() && parts.0.rows()
                == projection.rows()
            &&& config.attn_output_gate ==> {
                &&& parts.0.cols() == gated_q_dim(*config)->0
                &&& parts.1 matches Some(gate)
                &&& gate.is_matrix()
                &&& gate.shape@[0] == projection.shape@[0]
                &&& gate.cols() == gated_q_dim(*config)->0
                &&& forall|i: int|
                    0 <= i < projection.rows().len() ==> #[trigger] parts.0.rows()[i] == every_second(
                        projection.rows()[i],
                        config.num_attention_heads as int,
                        config.head_dim->0 as int,
                        false,
                    )
                &&& forall|i: int|
                    0 <= i < projection.rows().len() ==> #[trigger] gate.rows()[i] == every_second(
                        projection.rows()[i],
                        config.num_attention_heads as int,
                        config.head_dim->0 as int,
                        true,
                    )
            }
        },
{
    if !config.attn_output_gate {
        let copy: Tensor<C> = projection.duplicate();
        return Ok((copy, None));
    }
    let heads: usize = config.num_attention_heads;
    let head_dim: usize = match config.head_dim {
        Some(head_dim) => head_dim,
        None => {
            return Err(InferError::Dimension("head size missing"));
        },
    };
    let cols: usize = projection.shape[1];
    let q_dim: usize = match heads.checked_mul(head_dim) {
        Some(q_dim) => q_dim,
        None => {
            return Err(InferError::Dimension("query rows leave the machine's range"));
        },
    };
    if cols % 2 != 0 || cols / 2 != q_dim {
        return Err(InferError::Dimension("rows do not hold queries and gates"));
    }
    let count: usize = projection.shape[0];
    let mut q: Tensor<C> = Tensor::empty_matrix(q_dim);
    let mut gate: Tensor<C> = Tensor::empty_matrix(q_dim);
    for i in 0..count
        invariant
            projection.is_matrix(),
            count == projection.shape@[0],
            cols == projection.cols(),
            cols == 2 * q_dim,
            q_dim == heads * head_dim,
            q.is_matrix(),
            q.cols() == q_dim,
            q.shape@[0] == i,
            gate.is_matrix(),
            gate.cols() == q_dim,
            gate.shape@[0] == i,
            forall|j: int|
                0 <= j < i ==> #[trigger] q.rows()[j] == every_second(projection.rows()[j], heads as int, head_dim as int, false),
            forall|j: int|
                0 <= j < i ==> #[trigger] gate.rows()[j] == every_second(projection.rows()[j], heads as int, head_dim as int, true),
    {
        proof {
            projection.lemma_rows();
            q.lemma_rows();
            gate.lemma_rows();
            lemma_row_bounds(i as int, cols as int, count as int);
        }
        let have: usize = projection.data.len();
        let row: Vec<C> = copy_range(&projection.data, i * cols, i * cols + cols);
        assert(row@ == projection.rows()[i as int]);
        let q_row: Vec<C> = take_every_second(&row, heads, head_dim, false);
        let gate_row: Vec<C> = take_every_second(&row, heads, head_dim, true);
        q.push_row(&q_row);
        gate.push_row(&gate_row);
    }
    proof {
        projection.lemma_rows();
        q.lemma_rows();
        gate.lemma_rows();
    }
    Ok((q, Some(gate)))
}

fn take_every_second<C: Copy>(row: &Vec<C>, heads: usize, head_dim: usize, second: bool) -> (out: Vec<C>)
    requires
        row@.len() == 2 * (heads * head_dim),
    ensures
        out@.len() == heads * head_dim,
        out@ == every_second(row@, heads as int, head_dim as int, second),
{
    let have: usize = row.len();
    let ghost piece = |h: int| row_of(row@, head_dim as int, 2 * h + if second { 1int } else { 0int });
    let mut out: Vec<C> = Vec::new();
    proof {
        lemma_by_heads_step(0, piece);
        assert(0 * head_dim == 0) by (nonlinear_arith);
    }
    for h in 0..heads
        invariant
            have == row@.len(),
            row@.len() == 2 * (heads * head_dim),
            piece == (|h: int| row_of(row@, head_dim as int, 2 * h + if second { 1int } else { 0int })),
            out@.len() == h * head_dim,
            out@ == by_heads(h as int, piece),
    {
        proof {
            lemma_row_bounds(h as int, head_dim as int, heads as int);
            lemma_by_heads_step(h as int, piece);
            assert((2 * h) * head_dim == 2 * (h * head_dim)) by (nonlinear_arith);
            assert((2 * h + 1) * head_dim == 2 * (h * head_dim) + head_dim) by (nonlinear_arith);
        }
        let base: usize = 2 * (h * head_dim);
        let start: usize = if second {
            base + head_dim
        } else {
            base
        };
        let part: Vec<C> = copy_range(row, start, start + head_dim);
        append_cells(&mut out, &part);
    }
    out
}

} // verus!
