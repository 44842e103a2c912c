//! Dense tensors, and matrices read row by row.

use vstd::prelude::*;
use crate::error::InferError;

verus! {

/// Numbers in row-major order under a shape.
#[derive(Debug)]
pub struct Tensor<C> {
    pub shape: Vec<usize>,
    pub data: Vec<C>,
}

/// The number of cells under a shape.
pub open spec fn cells(shape: Seq<usize>) -> nat
    decreases shape.len(),
{
    if shape.len() == 0 {
        1
    } else {
        cells(shape.drop_last()) * shape.last() as nat
    }
}

/// Cells `i * cols .. (i + 1) * cols` of a row-major sequence.
pub open spec fn row_of<C>(data: Seq<C>, cols: int, i: int) -> Seq<C> {
    data.subrange(i * cols, i * cols + cols)
}

/// The first `count` rows of a row-major sequence.
pub open spec fn rows_of<C>(data: Seq<C>, cols: int, count: int) -> Seq<Seq<C>> {
    Seq::new(count as nat, |i: int| row_of(data, cols, i))
}

/// Rows laid one after the other.
pub open spec fn flatten<C>(rows: Seq<Seq<C>>) -> Seq<C>
    decreases rows.len(),
{
    if rows.len() == 0 {
        Seq::empty()
    } else {
        flatten(rows.drop_last()) + rows.last()
    }
}

pub proof fn lemma_row_bounds(i: int, cols: int, count: int)
    requires
        0 <= i < count,
        0 <= cols,
    ensures
        0 <= i * cols,
        i * cols + cols <= count * cols,
        (i + 1) * cols == i * cols + cols,
{
    assert(0 <= i * cols) by (nonlinear_arith)
        requires
            0 <= i,
            0 <= cols,
    ;
    assert(i * cols + cols <= count * cols) by (nonlinear_arith)
        requires
            i + 1 <= count,
            0 <= cols,
    ;
    assert((i + 1) * cols == i * cols + cols) by (nonlinear_arith);
}

/// Appending one row to a row-major sequence appends it to the rows.
pub proof fn lemma_push_row<C>(data: Seq<C>, cols: int, count: int, row: Seq<C>)
    requires
        0 <= cols,
        0 <= count,
        data.len() == count * cols,
        row.len() == cols,
    ensures
        (data + row).len() == (count + 1) * cols,
        rows_of(data + row, cols, count + 1) == rows_of(data, cols, count).push(row),
{
    assert((count + 1) * cols == count * cols + cols) by (nonlinear_arith);
    let after = rows_of(data + row, cols, count + 1);
    let expected = rows_of(data, cols, count).push(row);
    assert forall|i: int| 0 <= i < count + 1 implies after[i] == expected[i] by {
        lemma_row_bounds(i, cols, count + 1);
        if i < count {
            lemma_row_bounds(i, cols, count);
            assert(row_of(data + row, cols, i) =~= row_of(data, cols, i));
        } else {
            assert(row_of(data + row, cols, count) =~= row);
        }
    }
    assert(after =~= expected);
}

/// A copy of a vector of plain numbers.
pub fn copy_cells<C: Copy>(source: &Vec<C>) -> (copy: Vec<C>)
    ensures
        copy@ == source@,
{
    let mut copy: Vec<C> = Vec::new();
    for i in 0..source.len()
        invariant
            copy@ == source@.subrange(0, i as int),
    {
        copy.push(source[i]);
        assert(copy@ =~= source@.subrange(0, i + 1));
    }
    assert(copy@ =~= source@);
    copy
}

/// A copy of the cells `start..end`.
pub fn copy_range<C: Copy>(source: &Vec<C>, start: usize, end: usize) -> (copy: Vec<C>)
    requires
        start <= end <= source.len(),
    ensures
        copy@ == source@.subrange(start as int, end as int),
{
    let mut copy: Vec<C> = Vec::new();
    for i in start..end
        invariant
            start <= end <= source.len(),
            copy@ == source@.subrange(start as int, i as int),
    {
        copy.push(source[i]);
        assert(copy@ =~= source@.subrange(start as int, i + 1));
    }
    copy
}

/// Appends the cells of `tail`.
pub fn append_cells<C: Copy>(target: &mut Vec<C>, tail: &Vec<C>)
    ensures
        final(target)@ == old(target)@ + tail@,
{
    let ghost before = target@;
    for i in 0..tail.len()
        invariant
            target@ == before + tail@.subrange(0, i as int),
    {
        target.push(tail[i]);
        assert(target@ =~= before + tail@.subrange(0, i + 1));
    }
    assert(target@ =~= before + tail@);
}

/// Number of cells under a shape, or `None` where it leaves the machine's range.
fn checked_cells(shape: &Vec<usize>) -> (count: Option<usize>)
    ensures
        match count {
            Some(n) => n == cells(shape@),
            None => cells(shape@) > usize::MAX,
        },
{
    let mut i: usize = 0;
    let mut has_zero: bool = false;
    while i < shape.len()
        invariant
            i <= shape.len(),
            has_zero ==> cells(shape@.subrange(0, i as int)) == 0,
            !has_zero ==> forall|j: int| 0 <= j < i ==> shape@[j] > 0,
        decreases shape.len() - i,
    {
        proof {
            let longer = shape@.subrange(0, i + 1);
            assert(longer.drop_last() =~= shape@.subrange(0, i as int));
            if has_zero || longer.last() == 0 {
                assert(cells(longer.drop_last()) * longer.last() as nat == 0) by (nonlinear_arith)
                    requires
                        cells(longer.drop_last()) == 0 || longer.last() == 0,
                ;
            }
        }
        if shape[i] == 0 {
            has_zero = true;
        }
        i = i + 1;
    }
    assert(shape@.subrange(0, shape@.len() as int) =~= shape@);
    if has_zero {
        return Some(0);
    }
    let mut n: usize = 1;
    let mut k: usize = 0;
    while k < shape.len()
        invariant
            k <= shape.len(),
            forall|j: int| 0 <= j < shape.len() ==> shape@[j] > 0,
            n == cells(shape@.subrange(0, k as int)),
        decreases shape.len() - k,
    {
        proof {
            assert(shape@.subrange(0, k + 1).drop_last() =~= shape@.subrange(0, k as int));
        }
        match n.checked_mul(shape[k]) {
            Some(next) => {
                n = next;
            },
            None => {
                proof {
                    lemma_cells_monotone(shape@, k + 1, shape@.len() as int);
                    assert(shape@.subrange(0, shape@.len() as int) =~= shape@);
                }
                return None;
            },
        }
        k = k + 1;
    }
    assert(shape@.subrange(0, shape@.len() as int) =~= shape@);
    Some(n)
}

proof fn lemma_cells_monotone(shape: Seq<usize>, a: int, b: int)
    requires
        0 <= a <= b <= shape.len(),
        forall|j: int| 0 <= j < shape.len() ==> shape[j] > 0,
    ensures
        cells(shape.subrange(0, a)) <= cells(shape.subrange(0, b)),
    decreases b - a,
{
    if a < b {
        lemma_cells_monotone(shape, a, b - 1);
        assert(shape.subrange(0, b).drop_last() =~= shape.subrange(0, b - 1));
        let less = cells(shape.subrange(0, b - 1));
        assert(less <= less * shape[b - 1] as nat) by (nonlinear_arith)
            requires
                shape[b - 1] > 0,
        ;
    }
}

pub proof fn lemma_matrix_cells(shape: Seq<usize>)
    requires
        shape.len() == 2,
    ensures
        cells(shape) == shape[0] * shape[1],
{
    assert(shape.drop_last().drop_last() =~= Seq::<usize>::empty());
    reveal_with_fuel(cells, 3);
    assert(1 * shape[0] as nat == shape[0]);
}

impl<C> Tensor<C> {
    /// The data fill the shape.
    pub open spec fn wf(&self) -> bool {
        self.data@.len() == cells(self.shape@)
    }

    pub open spec fn is_matrix(&self) -> bool {
        &&& self.shape@.len() == 2
        &&& self.data@.len() == self.shape@[0] * self.shape@[1]
    }

    pub open spec fn cols(&self) -> int {
        self.shape@[1] as int
    }

    /// The rows of a matrix.
    pub open spec fn rows(&self) -> Seq<Seq<C>> {
        rows_of(self.data@, self.cols(), self.shape@[0] as int)
    }

    /// The rows, where the tensor is a matrix with `cols` columns.
    pub open spec fn holds(&self, rows: Seq<Seq<C>>, cols: int) -> bool {
        &&& self.is_matrix()
        &&& self.cols() == cols
        &&& self.rows() == rows
    }

    pub proof fn lemma_rows(&self)
        requires
            self.is_matrix(),
        ensures
            self.rows().len() == self.shape@[0],
            forall|i: int| 0 <= i < self.rows().len() ==> (#[trigger] self.rows()[i]).len() == self.cols(),
    {
        assert forall|i: int| 0 <= i < self.rows().len() implies (#[trigger] self.rows()[i]).len() == self.cols() by {
            lemma_row_bounds(i, self.cols(), self.shape@[0] as int);
        }
    }

    /// A tensor over `data`, where they fill the shape.
    pub fn from_vec(shape: Vec<usize>, data: Vec<C>) -> (made: Result<Tensor<C>, InferError>)
        ensures
            made is Ok <==> data@.len() == cells(shape@),
            made matches Ok(tensor) ==> tensor.shape == shape && tensor.data == data && tensor.wf(),
            made matches Err(error) ==> error is Shape,
    {
        let have: usize = data.len();
        match checked_cells(&shape) {
            Some(count) => if count == have {
                Ok(Tensor { shape, data })
            } else {
                Err(InferError::Shape("data do not fill the shape"))
            },
            None => Err(InferError::Shape("shape too large")),
        }
    }

    /// A matrix of one row.
    pub fn row(data: Vec<C>) -> (made: Tensor<C>)
        ensures
            made.wf(),
            made.data == data,
            made.shape@ == seq![1usize, data@.len() as usize],
            made.holds(seq![data@], data@.len() as int),
    {
        let n: usize = data.len();
        let made: Tensor<C> = Tensor { shape: vec![1usize, n], data };
        proof {
            assert(made.shape@ =~= seq![1usize, n]);
            lemma_matrix_cells(made.shape@);
            assert(row_of(made.data@, n as int, 0) =~= made.data@);
            assert(made.rows() =~= seq![made.data@]);
        }
        made
    }

    /// A matrix without rows.
    pub fn empty_matrix(cols: usize) -> (made: Tensor<C>)
        ensures
            made.holds(Seq::empty(), cols as int),
            made.shape@[0] == 0,
    {
        let made: Tensor<C> = Tensor { shape: vec![0usize, cols], data: Vec::new() };
        proof {
            assert(made.shape@ =~= seq![0usize, cols]);
            assert(0 * cols == 0) by (nonlinear_arith);
            assert(made.rows() =~= Seq::empty());
        }
        made
    }

    /// Row count and column count of a matrix.
    pub fn as_matrix(&self) -> (size: Result<(usize, usize), InferError>)
        ensures
            size is Ok <==> self.shape@.len() == 2,
            size matches Ok(size) ==> size.0 == self.shape@[0] && size.1 == self.shape@[1],
            size matches Err(error) ==> error is Dimension,
    {
        if self.shape.len() == 2 {
            Ok((self.shape[0], self.shape[1]))
        } else {
            Err(InferError::Dimension("matrix expected"))
        }
    }

    /// Number of cells.
    pub fn len(&self) -> (count: usize)
        ensures
            count == self.data@.len(),
    {
        self.data.len()
    }

    pub fn shape(&self) -> (shape: &Vec<usize>)
        ensures
            *shape == self.shape,
    {
        &self.shape
    }

    pub fn data(&self) -> (data: &Vec<C>)
        ensures
            *data == self.data,
    {
        &self.data
    }
}

impl<C: Copy> Tensor<C> {
    /// A copy of one row of a matrix.
    pub fn row_slice(&self, index: usize) -> (row: Result<Vec<C>, InferError>)
        requires
            self.shape@.len() == 2 ==> self.is_matrix(),
        ensures
            row is Ok <==> self.shape@.len() == 2 && index < self.shape@[0],
            row matches Ok(row) ==> row@ == self.rows()[index as int],
            row matches Err(error) ==> error is Dimension,
    {
        let (count, cols) = match self.as_matrix() {
            Ok(size) => size,
            Err(error) => {
                return Err(error);
            },
        };
        if index >= count {
            return Err(InferError::Dimension("row index out of range"));
        }
        proof {
            lemma_row_bounds(index as int, cols as int, count as int);
        }
        let have: usize = self.data.len();
        assert(index * cols + cols <= have);
        let start: usize = index * cols;
        Ok(copy_range(&self.data, start, start + cols))
    }

    /// A copy of the only row.
    pub fn as_row(&self) -> (row: Result<Vec<C>, InferError>)
        requires
            self.shape@.len() == 2 ==> self.is_matrix(),
        ensures
            row is Ok <==> self.shape@.len() == 2 && self.shape@[0] == 1,
            row matches Ok(row) ==> row@ == self.rows()[0] && row@ == self.data@,
            row matches Err(error) ==> error is Dimension,
    {
        let (count, cols) = match self.as_matrix() {
            Ok(size) => size,
            Err(error) => {
                return Err(error);
            },
        };
        if count != 1 {
            return Err(InferError::Dimension("one row expected"));
        }
        proof {
            assert(row_of(self.data@, cols as int, 0) =~= self.data@);
        }
        self.row_slice(0)
    }

    /// A copy of the last row.
    pub fn last_row(&self) -> (row: Result<Vec<C>, InferError>)
        requires
            self.shape@.len() == 2 ==> self.is_matrix(),
        ensures
            row is Ok <==> self.shape@.len() == 2 && self.shape@[0] > 0,
            row matches Ok(row) ==> row@ == self.rows().last(),
            row matches Err(error) ==> error is Dimension,
    {
        let (count, cols) = match self.as_matrix() {
            Ok(size) => size,
            Err(error) => {
                return Err(error);
            },
        };
        if count == 0 {
            return Err(InferError::Dimension("matrix without rows"));
        }
        self.row_slice(count - 1)
    }

    /// Adds a row below the others.
    pub fn push_row(&mut self, row: &Vec<C>)
        requires
            old(self).is_matrix(),
            row@.len() == old(self).cols(),
            old(self).shape@[0] < usize::MAX,
        ensures
            final(self).holds(old(self).rows().push(row@), old(self).cols()),
            final(self).shape@[0] == old(self).shape@[0] + 1,
    {
        let ghost before = self.data@;
        let ghost cols = self.cols();
        let ghost count = self.shape@[0] as int;
        append_cells(&mut self.data, row);
        let count_now: usize = self.shape[0];
        self.shape.set(0, count_now + 1);
        proof {
            lemma_push_row(before, cols, count, row@);
        }
    }

    /// A copy.
    pub fn duplicate(&self) -> (copy: Tensor<C>)
        ensures
            copy.shape@ == self.shape@,
            copy.data@ == self.data@,
    {
        Tensor { shape: copy_cells(&self.shape), data: copy_cells(&self.data) }
    }
}

} // verus!
