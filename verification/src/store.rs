//! Weights by name, taken one by one.

use vstd::prelude::*;
use crate::error::{Fault, InferError};
use crate::names::joined;
use crate::tensor::{copy_range, Tensor};
use crate::weights::{AffineMatrix, Linear, LinearWeight};

verus! {

/// What stands under a name.
pub enum DecoderTensor<C> {
    Dense(Tensor<C>),
    LinearWeight(LinearWeight<C>),
    /// One weight for each expert.
    ExpertLinearWeights(Vec<LinearWeight<C>>),
}

/// Weights by name.
pub struct TensorStore<C> {
    pub entries: Vec<(String, DecoderTensor<C>)>,
}

/// Place of a name among entries, where it stands there.
pub open spec fn place_of<C>(entries: Seq<(String, DecoderTensor<C>)>, name: Seq<char>) -> int {
    choose|i: int| 0 <= i < entries.len() && (#[trigger] entries[i]).0@ == name
}

/// The name stands among the entries.
pub open spec fn named<C>(entries: Seq<(String, DecoderTensor<C>)>, name: Seq<char>) -> bool {
    exists|i: int| 0 <= i < entries.len() && (#[trigger] entries[i]).0@ == name
}

impl<C> View for TensorStore<C> {
    type V = Map<Seq<char>, DecoderTensor<C>>;

    open spec fn view(&self) -> Map<Seq<char>, DecoderTensor<C>> {
        Map::new(
            |name: Seq<char>| named(self.entries@, name),
            |name: Seq<char>| self.entries@[place_of(self.entries@, name)].1,
        )
    }
}

impl<C> TensorStore<C> {
    /// No name stands twice.
    pub open spec fn wf(&self) -> bool {
        forall|i: int, j: int|
            0 <= i < j < self.entries@.len() ==> (#[trigger] self.entries@[i]).0@ != (#[trigger] self.entries@[j]).0@
    }

    proof fn lemma_at(&self, i: int)
        requires
            self.wf(),
            0 <= i < self.entries@.len(),
        ensures
            self@.contains_key(self.entries@[i].0@),
            self@[self.entries@[i].0@] == self.entries@[i].1,
    {
        let name = self.entries@[i].0@;
        assert(named(self.entries@, name));
        let j = place_of(self.entries@, name);
        if i < j {
            assert(self.entries@[i].0@ != self.entries@[j].0@);
        } else if j < i {
            assert(self.entries@[j].0@ != self.entries@[i].0@);
        }
    }

    pub fn new() -> (made: TensorStore<C>)
        ensures
            made.wf(),
            made@ == Map::<Seq<char>, DecoderTensor<C>>::empty(),
    {
        let made: TensorStore<C> = TensorStore { entries: Vec::new() };
        assert(made@ =~= Map::<Seq<char>, DecoderTensor<C>>::empty());
        made
    }

    fn find(&self, name: &String) -> (at: Option<usize>)
        requires
            self.wf(),
        ensures
            match at {
                Some(i) => i < self.entries@.len() && self.entries@[i as int].0@ == name@ && self@.contains_key(name@) && self@[name@]
                    == self.entries@[i as int].1,
                None => !self@.contains_key(name@),
            },
    {
        let n: usize = self.entries.len();
        let mut i: usize = 0;
        while i < n
            invariant
                i <= n,
                n == self.entries@.len(),
                self.wf(),
                forall|j: int| 0 <= j < i ==> (#[trigger] self.entries@[j]).0@ != name@,
            decreases n - i,
        {
            if self.entries[i].0 == *name {
                proof {
                    self.lemma_at(i as int);
                }
                return Some(i);
            }
            i = i + 1;
        }
        None
    }

    /// Whether a name is there.
    pub fn contains(&self, name: &String) -> (yes: bool)
        requires
            self.wf(),
        ensures
            yes == self@.contains_key(name@),
    {
        self.find(name).is_some()
    }

    /// Takes what stands under a name.
    pub fn take(&mut self, name: &String) -> (out: Option<DecoderTensor<C>>)
        requires
            old(self).wf(),
        ensures
            final(self).wf(),
            final(self)@ == old(self)@.remove(name@),
            match out {
                Some(tensor) => old(self)@.contains_key(name@) && tensor == old(self)@[name@],
                None => !old(self)@.contains_key(name@) && final(self)@ == old(self)@,
            },
    {
        match self.find(name) {
            Some(at) => {
                let ghost before = self.entries@;
                let ghost store = *self;
                let (_, tensor) = self.entries.remove(at);
                proof {
                    let after = self.entries@;
                    assert forall|i: int, j: int| 0 <= i < j < after.len() implies (#[trigger] after[i]).0@ != (#[trigger] after[j]).0@ by {
                        let a = if i < at { i } else { i + 1 };
                        let b = if j < at { j } else { j + 1 };
                        assert(after[i] == before[a] && after[j] == before[b]);
                    }
                    assert forall|key: Seq<char>| #[trigger] self@.contains_key(key) == store@.remove(name@).contains_key(key) by {
                        if self@.contains_key(key) {
                            let i = place_of(after, key);
                            let a = if i < at { i } else { i + 1 };
                            assert(after[i] == before[a]);
                            store.lemma_at(a);
                            if a < at {
                                assert(before[a].0@ != before[at as int].0@);
                            } else {
                                assert(before[at as int].0@ != before[a].0@);
                            }
                        }
                        if store@.remove(name@).contains_key(key) {
                            let a = place_of(before, key);
                            assert(a != at);
                            let i = if a < at { a } else { a - 1 };
                            assert(after[i] == before[a]);
                        }
                    }
                    assert forall|key: Seq<char>| #[trigger] self@.contains_key(key) implies self@[key] == store@[key] by {
                        let i = place_of(after, key);
                        let a = if i < at { i } else { i + 1 };
                        assert(after[i] == before[a]);
                        store.lemma_at(a);
                    }
                    assert(self@ =~= store@.remove(name@));
                }
                Some(tensor)
            },
            None => {
                assert(self@ =~= self@.remove(name@));
                None
            },
        }
    }

    /// Puts a weight under a name, in place of what stood there.
    pub fn insert(&mut self, name: String, tensor: DecoderTensor<C>)
        requires
            old(self).wf(),
        ensures
            final(self).wf(),
            final(self)@ == old(self)@.insert(name@, tensor),
    {
        let ghost first = *self;
        let _ = self.take(&name);
        let ghost middle = *self;
        let ghost before = self.entries@;
        let ghost key = name@;
        self.entries.push((name, tensor));
        proof {
            let after = self.entries@;
            assert forall|i: int, j: int| 0 <= i < j < after.len() implies (#[trigger] after[i]).0@ != (#[trigger] after[j]).0@ by {
                assert(after[i] == before[i]);
                if j == before.len() {
                    middle.lemma_at(i);
                } else {
                    assert(after[j] == before[j]);
                }
            }
            let wanted = first@.insert(key, tensor);
            assert forall|other: Seq<char>| #[trigger] self@.contains_key(other) == wanted.contains_key(other) by {
                if self@.contains_key(other) {
                    let i = place_of(after, other);
                    if i < before.len() {
                        assert(after[i] == before[i]);
                        middle.lemma_at(i);
                    }
                }
                if wanted.contains_key(other) {
                    if other == key {
                        assert(after[before.len() as int].0@ == key);
                    } else {
                        assert(middle@.contains_key(other));
                        let i = place_of(before, other);
                        assert(after[i] == before[i]);
                    }
                }
            }
            assert forall|other: Seq<char>| #[trigger] self@.contains_key(other) implies self@[other] == wanted[other] by {
                let i = place_of(after, other);
                if i < before.len() {
                    assert(after[i] == before[i]);
                    middle.lemma_at(i);
                }
            }
            assert(self@ =~= wanted);
        }
    }
}

/// The others, beside what was taken; or why it was refused.
pub type Taken<C, T> = Result<(Map<Seq<char>, DecoderTensor<C>>, T), Fault>;

/// What a taking function owes: what the model says, and what is left.
pub open spec fn took<C, T>(out: Result<T, InferError>, left: Map<Seq<char>, DecoderTensor<C>>, owed: Taken<C, T>) -> bool {
    match out {
        Ok(value) => owed == Taken::<C, T>::Ok((left, value)),
        Err(error) => owed == Taken::<C, T>::Err(error.fault()),
    }
}

/// A dense tensor under a name, and the others.
pub open spec fn fetch_dense<C>(store: Map<Seq<char>, DecoderTensor<C>>, name: Seq<char>) -> Taken<C, Tensor<C>> {
    if store.contains_key(name) {
        match store[name] {
            DecoderTensor::Dense(tensor) => Ok((store.remove(name), tensor)),
            _ => Err(Fault::Config),
        }
    } else {
        Err(Fault::Missing(name))
    }
}

/// A dense tensor under a name, where something stands there, and the others.
pub open spec fn fetch_optional<C>(store: Map<Seq<char>, DecoderTensor<C>>, name: Seq<char>) -> Taken<C, Option<Tensor<C>>> {
    if store.contains_key(name) {
        match store[name] {
            DecoderTensor::Dense(tensor) => Ok((store.remove(name), Some(tensor))),
            _ => Err(Fault::Config),
        }
    } else {
        Ok((store, None))
    }
}

/// The weight of a linear map under a name, and the others.
pub open spec fn fetch_weight<C>(store: Map<Seq<char>, DecoderTensor<C>>, name: Seq<char>) -> Taken<C, LinearWeight<C>> {
    if store.contains_key(name) {
        match store[name] {
            DecoderTensor::Dense(tensor) => Ok((store.remove(name), LinearWeight::Dense(tensor))),
            DecoderTensor::LinearWeight(weight) => Ok((store.remove(name), weight)),
            DecoderTensor::ExpertLinearWeights(_) => Err(Fault::Config),
        }
    } else {
        Err(Fault::Missing(name))
    }
}

/// Takes a dense tensor.
pub fn take_dense<C>(tensors: &mut TensorStore<C>, name: &String) -> (out: Result<Tensor<C>, InferError>)
    requires
        old(tensors).wf(),
    ensures
        final(tensors).wf(),
        took(out, final(tensors)@, fetch_dense(old(tensors)@, name@)),
{
    match tensors.take(name) {
        Some(DecoderTensor::Dense(tensor)) => Ok(tensor),
        Some(DecoderTensor::LinearWeight(_)) => Err(InferError::Config("packed weight where a dense tensor is due")),
        Some(DecoderTensor::ExpertLinearWeights(_)) => Err(InferError::Config("expert weights where a dense tensor is due")),
        None => Err(InferError::MissingWeight(name.clone())),
    }
}

/// Takes a dense tensor that may be absent.
pub fn take_optional_dense<C>(tensors: &mut TensorStore<C>, name: &String) -> (out: Result<Option<Tensor<C>>, InferError>)
    requires
        old(tensors).wf(),
    ensures
        final(tensors).wf(),
        took(out, final(tensors)@, fetch_optional(old(tensors)@, name@)),
{
    match tensors.take(name) {
        Some(DecoderTensor::Dense(tensor)) => Ok(Some(tensor)),
        Some(DecoderTensor::LinearWeight(_)) => Err(InferError::Config("packed weight where a dense tensor is due")),
        Some(DecoderTensor::ExpertLinearWeights(_)) => Err(InferError::Config("expert weights where a dense tensor is due")),
        None => Ok(None),
    }
}

/// Takes the weight of a linear map.
pub fn take_linear_weight<C>(tensors: &mut TensorStore<C>, name: &String) -> (out: Result<LinearWeight<C>, InferError>)
    requires
        old(tensors).wf(),
    ensures
        final(tensors).wf(),
        took(out, final(tensors)@, fetch_weight(old(tensors)@, name@)),
{
    match tensors.take(name) {
        Some(DecoderTensor::Dense(tensor)) => Ok(LinearWeight::Dense(tensor)),
        Some(DecoderTensor::LinearWeight(weight)) => Ok(weight),
        Some(DecoderTensor::ExpertLinearWeights(_)) => Err(InferError::Config("expert weights where a linear map is due")),
        None => Err(InferError::MissingWeight(name.clone())),
    }
}

/// Takes an embedding table.
pub fn take_embedding_weight<C>(tensors: &mut TensorStore<C>, name: &String) -> (out: Result<LinearWeight<C>, InferError>)
    requires
        old(tensors).wf(),
    ensures
        final(tensors).wf(),
        took(out, final(tensors)@, fetch_weight(old(tensors)@, name@)),
{
    match tensors.take(name) {
        Some(DecoderTensor::Dense(tensor)) => Ok(LinearWeight::Dense(tensor)),
        Some(DecoderTensor::LinearWeight(weight)) => Ok(weight),
        Some(DecoderTensor::ExpertLinearWeights(_)) => Err(InferError::Config("expert weights where an embedding table is due")),
        None => Err(InferError::MissingWeight(name.clone())),
    }
}

/// Rows and columns of the weight of a linear map.
pub open spec fn weight_dims<C>(weight: LinearWeight<C>) -> Option<(usize, usize)> {
    match weight {
        LinearWeight::Dense(tensor) => if tensor.shape@.len() == 2 {
            Some((tensor.shape@[0], tensor.shape@[1]))
        } else {
            None
        },
        LinearWeight::AffineQuantized(matrix) => Some((matrix.rows, matrix.cols)),
    }
}

/// Rows and columns of the weight of a linear map. Refused where it is not a matrix.
pub fn linear_weight_shape<C>(weight: &LinearWeight<C>) -> (out: Result<(usize, usize), InferError>)
    ensures
        match out {
            Ok(dims) => weight_dims(*weight) == Some(dims),
            Err(error) => weight_dims(*weight) is None && error is Dimension,
        },
{
    match weight {
        LinearWeight::Dense(tensor) => if tensor.shape.len() == 2 {
            Ok((tensor.shape[0], tensor.shape[1]))
        } else {
            Err(InferError::Dimension("weight of a linear map is not a matrix"))
        },
        LinearWeight::AffineQuantized(matrix) => Ok((matrix.rows, matrix.cols)),
    }
}

/// A linear map from its weight and bias, where they fit.
pub open spec fn linear_of<C>(weight: LinearWeight<C>, bias: Option<Tensor<C>>) -> Option<Linear<C>> {
    match weight_dims(weight) {
        Some((rows, cols)) => if bias is Some && (bias->0).data@.len() != rows {
            None
        } else {
            Some(Linear { weight, bias, in_dim: cols, out_dim: rows })
        },
        None => None,
    }
}

/// A linear map under a prefix, and the other weights.
pub open spec fn fetch_linear<C>(store: Map<Seq<char>, DecoderTensor<C>>, prefix: Seq<char>) -> Taken<C, Linear<C>> {
    match fetch_weight(store, prefix + ".weight"@) {
        Ok((store, weight)) => match fetch_optional(store, prefix + ".bias"@) {
            Ok((store, bias)) => match linear_of(weight, bias) {
                Some(linear) => Ok((store, linear)),
                None => Err(Fault::Dimension),
            },
            Err(fault) => Err(fault),
        },
        Err(fault) => Err(fault),
    }
}

impl<C: Copy> Linear<C> {
    /// A linear map from its weight and bias. Refused where the weight is not a matrix
    /// or the bias does not fit.
    pub fn from_weight(weight: LinearWeight<C>, bias: Option<Tensor<C>>) -> (out: Result<Linear<C>, InferError>)
        ensures
            out matches Ok(linear) ==> linear.wf(),
            match out {
                Ok(linear) => linear_of(weight, bias) == Some(linear),
                Err(error) => linear_of(weight, bias) is None && error is Dimension,
            },
    {
        let (rows, cols) = linear_weight_shape(&weight)?;
        if let Some(values) = &bias {
            if values.data.len() != rows {
                return Err(InferError::Dimension("bias does not fit the linear map"));
            }
        }
        Ok(Linear { weight, bias, in_dim: cols, out_dim: rows })
    }
}

/// Cells of one expert's weight in a stack of them.
pub open spec fn expert_cells<C>(data: Seq<C>, expert: int, rows: int, cols: int) -> Seq<C> {
    data.subrange(expert * (rows * cols), expert * (rows * cols) + rows * cols)
}

/// One expert's weight from a stack of them. Refused where it leaves the stack.
pub fn expert_matrix<C: Copy>(tensor: &Tensor<C>, expert: usize, rows: usize, cols: usize) -> (out: Result<Tensor<C>, InferError>)
    ensures
        out is Ok <==> (expert + 1) * (rows * cols) <= tensor.data@.len(),
        out matches Err(error) ==> error is Shape,
        out matches Ok(out) ==> out.wf() && out.shape@ == seq![rows, cols] && out.data@ == expert_cells(
            tensor.data@,
            expert as int,
            rows as int,
            cols as int,
        ),
{
    let have: usize = tensor.data.len();
    proof {
        assert(0 <= rows * cols) by (nonlinear_arith);
        assert((expert + 1) * (rows * cols) == expert * (rows * cols) + rows * cols) by (nonlinear_arith);
        assert(0 <= expert * (rows * cols)) by (nonlinear_arith)
            requires
                0 <= rows * cols,
        ;
    }
    let stride: usize = match rows.checked_mul(cols) {
        Some(stride) => stride,
        None => {
            return Err(InferError::Shape("weight of an expert too large"));
        },
    };
    let start: usize = match expert.checked_mul(stride) {
        Some(start) => start,
        None => {
            return Err(InferError::Shape("place of an expert too large"));
        },
    };
    let end: usize = match start.checked_add(stride) {
        Some(end) => end,
        None => {
            return Err(InferError::Shape("end of an expert too large"));
        },
    };
    if end > have {
        return Err(InferError::Shape("weight of an expert leaves the stack"));
    }
    let data: Vec<C> = copy_range(&tensor.data, start, end);
    let shape: Vec<usize> = vec![rows, cols];
    proof {
        assert(shape@ =~= seq![rows, cols]);
        crate::tensor::lemma_matrix_cells(shape@);
    }
    Tensor::from_vec(shape, data)
}

/// Takes a linear map.
pub fn linear_from<C: Copy>(tensors: &mut TensorStore<C>, prefix: &String) -> (out: Result<Linear<C>, InferError>)
    requires
        old(tensors).wf(),
    ensures
        final(tensors).wf(),
        out matches Ok(linear) ==> linear.wf(),
        took(out, final(tensors)@, fetch_linear(old(tensors)@, prefix@)),
{
    let weight: LinearWeight<C> = take_linear_weight(tensors, &joined(prefix.as_str(), ".weight"))?;
    let bias: Option<Tensor<C>> = take_optional_dense(tensors, &joined(prefix.as_str(), ".bias"))?;
    Linear::from_weight(weight, bias)
}

/// A weight by its numbers.
pub enum WeightView<C> {
    Dense(Seq<usize>, Seq<C>),
    AffineQuantized(AffineView<C>),
}

/// A packed weight by its numbers.
pub struct AffineView<C> {
    pub rows: usize,
    pub cols: usize,
    pub bits: usize,
    pub group_size: usize,
    pub packed: Seq<u32>,
    pub scales: Seq<C>,
    pub biases: Seq<C>,
}

pub open spec fn affine_view<C>(matrix: AffineMatrix<C>) -> AffineView<C> {
    AffineView {
        rows: matrix.rows,
        cols: matrix.cols,
        bits: matrix.bits,
        group_size: matrix.group_size,
        packed: matrix.packed@,
        scales: matrix.scales@,
        biases: matrix.biases@,
    }
}

pub open spec fn weight_view_of<C>(weight: LinearWeight<C>) -> WeightView<C> {
    match weight {
        LinearWeight::Dense(tensor) => WeightView::Dense(tensor.shape@, tensor.data@),
        LinearWeight::AffineQuantized(matrix) => WeightView::AffineQuantized(affine_view(matrix)),
    }
}

/// The weights of experts that a tensor holds.
pub open spec fn expert_weights<C>(tensor: DecoderTensor<C>, count: usize) -> Result<Seq<WeightView<C>>, Fault> {
    match tensor {
        DecoderTensor::ExpertLinearWeights(weights) => if weights@.len() == count {
            Ok(Seq::new(count as nat, |i: int| weight_view_of(weights@[i])))
        } else {
            Err(Fault::Dimension)
        },
        DecoderTensor::Dense(tensor) => stacked_weights(tensor, count),
        DecoderTensor::LinearWeight(_) => Err(Fault::Config),
    }
}

/// The weights of experts in a stack of matrices.
pub open spec fn stacked_weights<C>(tensor: Tensor<C>, count: usize) -> Result<Seq<WeightView<C>>, Fault> {
    if tensor.shape@.len() != 3 || tensor.shape@[0] != count {
        Err(Fault::Dimension)
    } else {
        let rows = tensor.shape@[1];
        let cols = tensor.shape@[2];
        if count * (rows * cols) > tensor.data@.len() {
            Err(Fault::Shape)
        } else {
            Ok(Seq::new(count as nat, |i: int| WeightView::Dense(seq![rows, cols], expert_cells(tensor.data@, i, rows as int, cols as int))))
        }
    }
}

/// Views of some weights.
pub open spec fn weight_views<C>(weights: Seq<LinearWeight<C>>) -> Seq<WeightView<C>> {
    Seq::new(weights.len(), |i: int| weight_view_of(weights[i]))
}

/// The weights of experts from a stack of them. Refused where it is not a stack of so
/// many matrices, or where the numbers do not fill it.
pub fn split_dense_expert_weights<C: Copy>(tensor: Tensor<C>, expert_count: usize) -> (out: Result<Vec<LinearWeight<C>>, InferError>)
    ensures
        match out {
            Ok(weights) => stacked_weights(tensor, expert_count) == Result::<Seq<WeightView<C>>, Fault>::Ok(weight_views(weights@)),
            Err(error) => stacked_weights(tensor, expert_count) == Result::<Seq<WeightView<C>>, Fault>::Err(error.fault()),
        },
{
    if tensor.shape.len() != 3 || tensor.shape[0] != expert_count {
        return Err(InferError::Dimension("expert weights are not a stack of matrices"));
    }
    let rows: usize = tensor.shape[1];
    let cols: usize = tensor.shape[2];
    let ghost owed = Seq::new(
        expert_count as nat,
        |i: int| WeightView::Dense(seq![rows, cols], expert_cells(tensor.data@, i, rows as int, cols as int)),
    );
    proof {
        assert(0 <= rows * cols) by (nonlinear_arith);
        assert(0 * (rows * cols) == 0) by (nonlinear_arith);
    }
    let mut out: Vec<LinearWeight<C>> = Vec::new();
    let mut expert: usize = 0;
    while expert < expert_count
        invariant
            expert <= expert_count,
            0 <= rows * cols,
            rows == tensor.shape@[1],
            cols == tensor.shape@[2],
            tensor.shape@.len() == 3,
            tensor.shape@[0] == expert_count,
            expert * (rows * cols) <= tensor.data@.len(),
            owed == Seq::new(
                expert_count as nat,
                |i: int| WeightView::Dense(seq![rows, cols], expert_cells(tensor.data@, i, rows as int, cols as int)),
            ),
            out@.len() == expert,
            forall|i: int| 0 <= i < expert ==> weight_view_of(#[trigger] out@[i]) == owed[i],
        decreases expert_count - expert,
    {
        proof {
            assert((expert + 1) * (rows * cols) <= expert_count * (rows * cols)) by (nonlinear_arith)
                requires
                    expert + 1 <= expert_count,
                    0 <= rows * cols,
            ;
        }
        out.push(LinearWeight::Dense(expert_matrix(&tensor, expert, rows, cols)?));
        expert = expert + 1;
    }
    assert(weight_views(out@) =~= owed);
    Ok(out)
}

/// The weights of experts under a name, and the others.
pub open spec fn fetch_experts<C>(store: Map<Seq<char>, DecoderTensor<C>>, name: Seq<char>, count: usize) -> Taken<C, Seq<WeightView<C>>> {
    if store.contains_key(name) {
        match expert_weights(store[name], count) {
            Ok(weights) => Ok((store.remove(name), weights)),
            Err(fault) => Err(fault),
        }
    } else {
        Err(Fault::Missing(name))
    }
}

/// Takes the weights of experts.
pub fn take_expert_linear_weights<C: Copy>(tensors: &mut TensorStore<C>, name: &String, expert_count: usize) -> (out: Result<
    Vec<LinearWeight<C>>,
    InferError,
>)
    requires
        old(tensors).wf(),
    ensures
        final(tensors).wf(),
        match out {
            Ok(weights) => fetch_experts(old(tensors)@, name@, expert_count) == Taken::<C, Seq<WeightView<C>>>::Ok(
                (final(tensors)@, weight_views(weights@)),
            ),
            Err(error) => fetch_experts(old(tensors)@, name@, expert_count) == Taken::<C, Seq<WeightView<C>>>::Err(error.fault()),
        },
{
    match tensors.take(name) {
        Some(DecoderTensor::ExpertLinearWeights(weights)) => {
            if weights.len() != expert_count {
                return Err(InferError::Dimension("another number of experts"));
            }
            assert(weight_views(weights@) =~= Seq::new(expert_count as nat, |i: int| weight_view_of(weights@[i])));
            Ok(weights)
        },
        Some(DecoderTensor::Dense(tensor)) => split_dense_expert_weights(tensor, expert_count),
        Some(DecoderTensor::LinearWeight(_)) => Err(InferError::Config("one weight where experts are due")),
        None => Err(InferError::MissingWeight(name.clone())),
    }
}

} // verus!
