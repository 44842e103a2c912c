//! Linear maps and feed-forward blocks, applied row by row.

use vstd::prelude::*;
use crate::error::InferError;
use crate::kernel::{functional, mix_experts, mix_experts_of, project, project_of, Binary, Kernel};
use crate::rows::{activate_product, activated_product, combine_rows, normalise, rms_row, sum_rows};
use crate::tensor::Tensor;
use crate::weights::{GatedMlp, Linear, MoeMlp};

verus! {

/// A function applied to every row, where it is defined on every row.
pub open spec fn map_rows<C>(rows: Seq<Seq<C>>, f: spec_fn(Seq<C>) -> Option<Seq<C>>) -> Option<Seq<Seq<C>>> {
    if forall|i: int| 0 <= i < rows.len() ==> (#[trigger] f(rows[i])) is Some {
        Some(Seq::new(rows.len(), |i: int| f(rows[i])->0))
    } else {
        None
    }
}

/// What a result says of a computation that may fail: it fails exactly where the
/// model of the computation has no value, and holds that value elsewhere.
pub open spec fn rows_agree<C>(result: Result<Tensor<C>, InferError>, model: Option<Seq<Seq<C>>>, cols: int) -> bool {
    match result {
        Ok(tensor) => model is Some && tensor.holds(model->0, cols),
        Err(_) => model is None,
    }
}

impl<C: Copy> Linear<C> {
    /// The bias has one number per output.
    pub open spec fn wf(&self) -> bool {
        self.bias matches Some(bias) ==> bias.data@.len() == self.out_dim
    }
}

/// A linear map applied to a row.
pub open spec fn linear_row<K: Kernel>(k: K, linear: Linear<K::Cell>, row: Seq<K::Cell>) -> Option<Seq<K::Cell>> {
    let image = project_of(k, linear.weight, row);
    if row.len() != linear.in_dim || image.len() != linear.out_dim {
        None
    } else {
        match linear.bias {
            Some(bias) => Some(sum_rows(k, image, bias.data@)),
            None => Some(image),
        }
    }
}

/// Applies a linear map to a row.
pub fn apply_linear<K: Kernel>(k: &K, linear: &Linear<K::Cell>, row: &Vec<K::Cell>) -> (out: Result<Vec<K::Cell>, InferError>)
    requires
        linear.wf(),
    ensures
        out matches Err(error) ==> error is Dimension,
        out matches Ok(out) ==> out@.len() == linear.out_dim,
        row@.len() != linear.in_dim ==> (out matches Err(error) && error is Dimension),
        functional(*k) ==> match out {
            Ok(out) => linear_row(*k, *linear, row@) == Some(out@),
            Err(_) => linear_row(*k, *linear, row@) is None,
        },
{
    if row.len() != linear.in_dim {
        return Err(InferError::Dimension("input row does not fit the linear map"));
    }
    let image: Vec<K::Cell> = project(k, &linear.weight, row);
    if image.len() != linear.out_dim {
        return Err(InferError::Dimension("linear map gave a row of another length"));
    }
    match &linear.bias {
        Some(bias) => {
            let out: Vec<K::Cell> = combine_rows(k, Binary::Add, &image, &bias.data);
            assert(functional(*k) ==> out@ =~= sum_rows(*k, image@, bias.data@));
            Ok(out)
        },
        None => Ok(image),
    }
}

/// A linear map applied to every row.
pub open spec fn linear_rows<K: Kernel>(k: K, linear: Linear<K::Cell>, rows: Seq<Seq<K::Cell>>) -> Option<Seq<Seq<K::Cell>>> {
    map_rows(rows, |row: Seq<K::Cell>| linear_row(k, linear, row))
}

/// Applies a linear map to every row of a matrix.
pub fn forward_linear<K: Kernel>(k: &K, linear: &Linear<K::Cell>, x: &Tensor<K::Cell>) -> (out: Result<Tensor<K::Cell>, InferError>)
    requires
        linear.wf(),
        x.is_matrix(),
    ensures
        out matches Err(error) ==> error is Dimension,
        out matches Ok(out) ==> out.is_matrix() && out.cols() == linear.out_dim && out.shape@[0] == x.shape@[0],
        functional(*k) ==> rows_agree(out, linear_rows(*k, *linear, x.rows()), linear.out_dim as int),
{
    let count: usize = x.shape[0];
    let mut out: Tensor<K::Cell> = Tensor::empty_matrix(linear.out_dim);
    let ghost f = |row: Seq<K::Cell>| linear_row(*k, *linear, row);
    for i in 0..count
        invariant
            linear.wf(),
            x.is_matrix(),
            count == x.shape@[0],
            out.is_matrix(),
            out.cols() == linear.out_dim,
            out.shape@[0] == i,
            f == (|row: Seq<K::Cell>| linear_row(*k, *linear, row)),
            functional(*k) ==> forall|j: int| 0 <= j < i ==> (#[trigger] f(x.rows()[j])) == Some(out.rows()[j]),
    {
        proof {
            x.lemma_rows();
            out.lemma_rows();
        }
        let row: Vec<K::Cell> = x.row_slice(i)?;
        match apply_linear(k, linear, &row) {
            Ok(image) => {
                out.push_row(&image);
            },
            Err(error) => {
                assert(functional(*k) ==> f(x.rows()[i as int]) is None);
                return Err(error);
            },
        }
    }
    proof {
        x.lemma_rows();
        out.lemma_rows();
        if functional(*k) {
            assert(out.rows() =~= linear_rows(*k, *linear, x.rows())->0);
        }
    }
    Ok(out)
}

/// A whole row normalised.
pub open spec fn rms_rows<K: Kernel>(k: K, rows: Seq<Seq<K::Cell>>, weight: Seq<K::Cell>, eps: K::Cell) -> Seq<Seq<K::Cell>> {
    Seq::new(rows.len(), |i: int| rms_row(k, rows[i], Some(weight), eps))
}

/// Normalises every row of a matrix.
pub fn rms_norm<K: Kernel>(k: &K, x: &Tensor<K::Cell>, weight: &Tensor<K::Cell>, eps: K::Cell) -> (out: Result<Tensor<K::Cell>, InferError>)
    requires
        x.is_matrix(),
    ensures
        out is Ok <==> weight.data@.len() == x.cols(),
        out matches Err(error) ==> error is Dimension,
        out matches Ok(out) ==> out.is_matrix() && out.cols() == x.cols() && out.shape@[0] == x.shape@[0],
        functional(*k) ==> (out matches Ok(out) ==> out.rows() == rms_rows(*k, x.rows(), weight.data@, eps)),
{
    let count: usize = x.shape[0];
    let cols: usize = x.shape[1];
    if weight.data.len() != cols {
        return Err(InferError::Dimension("norm weight does not fit the rows"));
    }
    let mut out: Tensor<K::Cell> = Tensor::empty_matrix(cols);
    for i in 0..count
        invariant
            x.is_matrix(),
            count == x.shape@[0],
            cols == x.cols(),
            weight.data@.len() == cols,
            out.is_matrix(),
            out.cols() == cols,
            out.shape@[0] == i,
            functional(*k) ==> forall|j: int| 0 <= j < i ==> #[trigger] out.rows()[j] == rms_row(*k, x.rows()[j], Some(weight.data@), eps),
    {
        proof {
            x.lemma_rows();
            out.lemma_rows();
        }
        let row: Vec<K::Cell> = x.row_slice(i)?;
        let normed: Vec<K::Cell> = normalise(k, &row, 0, cols, Some(&weight.data), eps);
        assert(row@.subrange(0, cols as int) =~= row@);
        out.push_row(&normed);
    }
    proof {
        x.lemma_rows();
        out.lemma_rows();
        if functional(*k) {
            assert(out.rows() =~= rms_rows(*k, x.rows(), weight.data@, eps));
        }
    }
    Ok(out)
}

/// A feed-forward block.
pub enum FeedForward<C> {
    Dense(GatedMlp<C>),
    Moe(MoeMlp<C>),
}

impl<C: Copy> GatedMlp<C> {
    pub open spec fn wf(&self) -> bool {
        &&& self.gate_proj.wf()
        &&& self.up_proj.wf()
        &&& self.down_proj.wf()
    }
}

impl<C: Copy> FeedForward<C> {
    pub open spec fn wf(&self) -> bool {
        match *self {
            FeedForward::Dense(mlp) => mlp.wf(),
            FeedForward::Moe(_) => true,
        }
    }
}

/// A gated block applied to a row.
pub open spec fn gated_mlp_row<K: Kernel>(k: K, mlp: GatedMlp<K::Cell>, row: Seq<K::Cell>) -> Option<Seq<K::Cell>> {
    match (linear_row(k, mlp.gate_proj, row), linear_row(k, mlp.up_proj, row)) {
        (Some(gate), Some(up)) => if gate.len() == up.len() {
            linear_row(k, mlp.down_proj, activated_product(k, mlp.activation, gate, up))
        } else {
            None
        },
        _ => None,
    }
}

/// A feed-forward block applied to a row; it keeps the row's length.
pub open spec fn feed_forward_row<K: Kernel>(k: K, block: FeedForward<K::Cell>, row: Seq<K::Cell>) -> Option<Seq<K::Cell>> {
    let image = match block {
        FeedForward::Dense(mlp) => gated_mlp_row(k, mlp, row),
        FeedForward::Moe(moe) => Some(mix_experts_of(k, moe, row)),
    };
    match image {
        Some(image) => if image.len() == row.len() {
            Some(image)
        } else {
            None
        },
        None => None,
    }
}

fn apply_gated_mlp<K: Kernel>(k: &K, mlp: &GatedMlp<K::Cell>, row: &Vec<K::Cell>) -> (out: Result<Vec<K::Cell>, InferError>)
    requires
        mlp.wf(),
    ensures
        out matches Err(error) ==> error is Dimension,
        functional(*k) ==> match out {
            Ok(out) => gated_mlp_row(*k, *mlp, row@) == Some(out@),
            Err(_) => gated_mlp_row(*k, *mlp, row@) is None,
        },
{
    let gate: Vec<K::Cell> = apply_linear(k, &mlp.gate_proj, row)?;
    let up: Vec<K::Cell> = apply_linear(k, &mlp.up_proj, row)?;
    if gate.len() != up.len() {
        return Err(InferError::Dimension("gate and up projections differ in length"));
    }
    let product: Vec<K::Cell> = activate_product(k, mlp.activation, &gate, &up);
    apply_linear(k, &mlp.down_proj, &product)
}

pub fn apply_feed_forward<K: Kernel>(k: &K, block: &FeedForward<K::Cell>, row: &Vec<K::Cell>) -> (out: Result<Vec<K::Cell>, InferError>)
    requires
        block.wf(),
    ensures
        out matches Err(error) ==> error is Dimension,
        out matches Ok(out) ==> out@.len() == row@.len(),
        functional(*k) ==> match out {
            Ok(out) => feed_forward_row(*k, *block, row@) == Some(out@),
            Err(_) => feed_forward_row(*k, *block, row@) is None,
        },
{
    let image: Vec<K::Cell> = match block {
        FeedForward::Dense(mlp) => apply_gated_mlp(k, mlp, row)?,
        FeedForward::Moe(moe) => mix_experts(k, moe, row),
    };
    if image.len() != row.len() {
        return Err(InferError::Dimension("feed-forward block changed the row length"));
    }
    Ok(image)
}

} // verus!
