//! Keys and values of the positions that a layer has seen.

use vstd::prelude::*;
use crate::error::InferError;
use crate::tensor::{append_cells, copy_cells, Tensor};

verus! {

/// What a layer remembers: keys and values position after position under a row
/// length that the first position fixes, and the state of a recurrence.
pub struct LayerKvCache<C> {
    pub keys: Vec<C>,
    pub values: Vec<C>,
    pub kv_dim: Option<usize>,
    pub recurrent: Vec<C>,
}

/// The contents of a [`LayerKvCache`].
#[verifier::ext_equal]
pub struct LayerView<C> {
    pub keys: Seq<C>,
    pub values: Seq<C>,
    pub kv_dim: Option<usize>,
    pub recurrent: Seq<C>,
}

impl<C> View for LayerKvCache<C> {
    type V = LayerView<C>;

    open spec fn view(&self) -> LayerView<C> {
        LayerView {
            keys: self.keys@,
            values: self.values@,
            kv_dim: self.kv_dim,
            recurrent: self.recurrent@,
        }
    }
}

impl<C> LayerView<C> {
    pub open spec fn empty() -> LayerView<C> {
        LayerView { keys: Seq::empty(), values: Seq::empty(), kv_dim: None, recurrent: Seq::empty() }
    }

    /// Keys and values hold whole rows, as many of the one as of the other.
    pub open spec fn wf(self) -> bool {
        &&& self.keys.len() == self.values.len()
        &&& match self.kv_dim {
            Some(dim) => self.keys.len() == self.count() * dim,
            None => self.keys.len() == 0,
        }
    }

    /// Number of positions.
    pub open spec fn count(self) -> int {
        match self.kv_dim {
            Some(dim) => if dim > 0 {
                self.keys.len() as int / dim as int
            } else {
                0
            },
            None => 0,
        }
    }

    /// The cache accepts rows of length `dim`.
    pub open spec fn accepts(self, dim: int) -> bool {
        self.kv_dim matches Some(own) ==> own == dim
    }

    /// The cache after one more position.
    pub open spec fn append(self, key: Seq<C>, value: Seq<C>, dim: usize) -> LayerView<C> {
        LayerView {
            keys: self.keys + key,
            values: self.values + value,
            kv_dim: Some(dim),
            recurrent: self.recurrent,
        }
    }

    /// The cache with the first `count` positions only.
    pub open spec fn truncate(self, count: int) -> LayerView<C> {
        match self.kv_dim {
            Some(dim) => LayerView {
                keys: self.keys.take(count * dim),
                values: self.values.take(count * dim),
                kv_dim: self.kv_dim,
                recurrent: self.recurrent,
            },
            None => self,
        }
    }
}

/// A cache of `n` rows of length `dim` counts `n` positions.
pub proof fn lemma_count<C>(view: LayerView<C>, n: int, dim: usize)
    requires
        view.kv_dim == Some(dim),
        dim > 0,
        n >= 0,
        view.keys.len() == n * dim,
    ensures
        view.count() == n,
{
    vstd::arithmetic::div_mod::lemma_div_multiples_vanish(n, dim as int);
    assert(n * dim == dim * n) by (nonlinear_arith);
}

/// One more position is one more in the count.
pub proof fn lemma_append_count<C>(view: LayerView<C>, key: Seq<C>, value: Seq<C>, dim: usize)
    requires
        view.wf(),
        view.accepts(dim as int),
        dim > 0,
        key.len() == dim,
        value.len() == dim,
    ensures
        view.append(key, value, dim).wf(),
        view.append(key, value, dim).count() == view.count() + 1,
{
    let n = view.count();
    if view.kv_dim is None {
        assert(view.keys.len() == 0 * dim);
    } else {
        vstd::arithmetic::div_mod::lemma_div_pos_is_pos(view.keys.len() as int, dim as int);
    }
    assert(n >= 0);
    assert(view.keys.len() == n * dim);
    assert((n + 1) * dim == n * dim + dim) by (nonlinear_arith);
    lemma_count(view.append(key, value, dim), n + 1, dim);
}

impl<C: Copy> LayerKvCache<C> {
    /// A cache that has seen nothing.
    pub fn new() -> (made: LayerKvCache<C>)
        ensures
            made@ == LayerView::<C>::empty(),
            made@.wf(),
    {
        let made: LayerKvCache<C> = LayerKvCache {
            keys: Vec::new(),
            values: Vec::new(),
            kv_dim: None,
            recurrent: Vec::new(),
        };
        assert(made@ =~= LayerView::<C>::empty());
        made
    }

    /// Adds one position. Refused where key or value is not one row of length
    /// `dim`, or where the cache holds rows of another length.
    pub fn append(&mut self, key: &Tensor<C>, value: &Tensor<C>, dim: usize) -> (done: Result<(), InferError>)
        requires
            key.is_matrix(),
            value.is_matrix(),
        ensures
            done is Ok <==> key.shape@[0] == 1 && value.shape@[0] == 1 && key.cols() == dim && value.cols() == dim && old(
                self,
            )@.accepts(dim as int),
            done is Ok ==> final(self)@ == old(self)@.append(key.data@, value.data@, dim),
            done matches Err(error) ==> error is Dimension && final(self)@ == old(self)@,
    {
        if key.shape[0] != 1 || value.shape[0] != 1 || key.shape[1] != dim || value.shape[1] != dim {
            return Err(InferError::Dimension("one key row and one value row expected"));
        }
        self.append_cells_of(key, value, dim)
    }

    /// Adds as many positions as key and value have rows. Refused where there are
    /// none, where their numbers differ, where they are not of length `dim`, or
    /// where the cache holds rows of another length.
    pub fn append_batch(&mut self, key: &Tensor<C>, value: &Tensor<C>, dim: usize) -> (done: Result<(), InferError>)
        requires
            key.is_matrix(),
            value.is_matrix(),
        ensures
            done is Ok <==> key.shape@[0] > 0 && key.shape@[0] == value.shape@[0] && key.cols() == dim && value.cols() == dim && old(
                self,
            )@.accepts(dim as int),
            done is Ok ==> final(self)@ == old(self)@.append(key.data@, value.data@, dim),
            done matches Err(error) ==> error is Dimension && final(self)@ == old(self)@,
    {
        if key.shape[0] == 0 || key.shape[0] != value.shape[0] || key.shape[1] != dim || value.shape[1] != dim {
            return Err(InferError::Dimension("as many key rows as value rows expected"));
        }
        self.append_cells_of(key, value, dim)
    }

    fn append_cells_of(&mut self, key: &Tensor<C>, value: &Tensor<C>, dim: usize) -> (done: Result<(), InferError>)
        ensures
            done is Ok <==> old(self)@.accepts(dim as int),
            done is Ok ==> final(self)@ == old(self)@.append(key.data@, value.data@, dim),
            done matches Err(error) ==> error is Dimension && final(self)@ == old(self)@,
    {
        match self.kv_dim {
            Some(own) => if own != dim {
                return Err(InferError::Dimension("cache holds rows of another length"));
            },
            None => {
                self.kv_dim = Some(dim);
            },
        }
        append_cells(&mut self.keys, &key.data);
        append_cells(&mut self.values, &value.data);
        assert(self@ =~= old(self)@.append(key.data@, value.data@, dim));
        Ok(())
    }

    /// Number of positions.
    pub fn len(&self) -> (count: usize)
        ensures
            count == self@.count(),
    {
        match self.kv_dim {
            Some(dim) => if dim > 0 {
                self.keys.len() / dim
            } else {
                0
            },
            None => 0,
        }
    }

    /// Forgets all positions but the first `count`. Refused where there are fewer.
    pub fn truncate(&mut self, count: usize) -> (done: Result<(), InferError>)
        ensures
            done is Ok <==> match old(self)@.kv_dim {
                Some(dim) => count * dim <= old(self)@.keys.len() && count * dim <= old(self)@.values.len(),
                None => count == 0,
            },
            done is Ok ==> final(self)@ == old(self)@.truncate(count as int),
            done matches Err(error) ==> error is Dimension && final(self)@ == old(self)@,
    {
        let dim: usize = match self.kv_dim {
            Some(dim) => dim,
            None => {
                if count == 0 {
                    return Ok(());
                }
                return Err(InferError::Dimension("cache without positions cannot be cut"));
            },
        };
        let have_keys: usize = self.keys.len();
        let have_values: usize = self.values.len();
        let size: usize = match count.checked_mul(dim) {
            Some(size) => size,
            None => {
                return Err(InferError::Dimension("cut leaves the machine's range"));
            },
        };
        if size > have_keys || size > have_values {
            return Err(InferError::Dimension("cut is longer than the cache"));
        }
        self.keys.truncate(size);
        self.values.truncate(size);
        assert(self@ =~= old(self)@.truncate(count as int));
        Ok(())
    }

    /// A copy.
    pub fn duplicate(&self) -> (copy: LayerKvCache<C>)
        ensures
            copy@ == self@,
    {
        let copy: LayerKvCache<C> = LayerKvCache {
            keys: copy_cells(&self.keys),
            values: copy_cells(&self.values),
            kv_dim: self.kv_dim,
            recurrent: copy_cells(&self.recurrent),
        };
        assert(copy@ =~= self@);
        copy
    }
}

/// Cutting a cache back to where it was undoes the positions added since.
pub proof fn law_truncate_undoes_append<C>(view: LayerView<C>, key: Seq<C>, value: Seq<C>, dim: usize)
    requires
        view.wf(),
        view.kv_dim == Some(dim),
    ensures
        view.append(key, value, dim).truncate(view.count()) == view,
{
    assert(view.append(key, value, dim).truncate(view.count()) =~= view);
}

/// Cutting twice is cutting to the shorter length.
pub proof fn law_truncate_twice<C>(view: LayerView<C>, long: int, short: int)
    requires
        view.wf(),
        0 <= short <= long <= view.count(),
    ensures
        view.truncate(long).truncate(short) == view.truncate(short),
{
    if let Some(dim) = view.kv_dim {
        assert(0 <= short * dim <= long * dim <= view.count() * dim) by (nonlinear_arith)
            requires
                0 <= short <= long <= view.count(),
                0 <= dim,
        ;
        assert(view.truncate(long).truncate(short) =~= view.truncate(short));
    }
}

/// A cache that is cut is in order, and counts as many positions.
pub proof fn lemma_truncate_wf<C>(view: LayerView<C>, count: int)
    requires
        view.kv_dim matches Some(dim) && 0 <= count * dim <= view.keys.len() && view.keys.len() == view.values.len(),
        count >= 0,
    ensures
        view.truncate(count).wf(),
        view.kv_dim->0 > 0 ==> view.truncate(count).count() == count,
{
    let dim = view.kv_dim->0;
    if dim > 0 {
        lemma_count(view.truncate(count), count, dim);
    } else {
        assert(count * dim == 0) by (nonlinear_arith)
            requires
                dim == 0,
        ;
    }
}

} // verus!
