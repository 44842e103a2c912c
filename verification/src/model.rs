//! The stack of layers.

use vstd::prelude::*;
use crate::config::CausalDecoderConfig;
use crate::error::InferError;
use crate::flags::DecoderFlags;
use crate::kernel::{functional, lookup, lookup_of, Kernel};
use crate::kv::{LayerKvCache, LayerView};
use crate::layer::{forward_cached, forward_prefill, layer_row, layer_rows, norm_of, norm_rows, DecoderLayer};
use crate::linear::{rms_norm, rows_agree};
use crate::mtp_head::MtpHead;
use crate::rows::{scale_row, scaled_row};
use crate::tensor::Tensor;
use crate::weights::{Linear, LinearWeight};

verus! {

/// Weights of a decoder, the arithmetic they are run with, and their shape.
pub struct DecoderModel<K: Kernel> {
    pub kernel: K,
    pub config: CausalDecoderConfig<K::Cell>,
    pub embed_tokens: LinearWeight<K::Cell>,
    pub layers: Vec<DecoderLayer<K::Cell>>,
    pub final_norm: Tensor<K::Cell>,
    pub lm_head: Linear<K::Cell>,
    pub mtp: Option<MtpHead<K::Cell>>,
    pub mtp_draft_lm_head: Option<Linear<K::Cell>>,
    pub flags: DecoderFlags,
}

/// What the layers have seen, and how many positions that is.
pub struct CausalDecoderCache<C> {
    pub layers: Vec<LayerKvCache<C>>,
    pub position: usize,
}

/// The contents of a [`CausalDecoderCache`].
#[verifier::ext_equal]
pub struct CacheView<C> {
    pub layers: Seq<LayerView<C>>,
    pub position: int,
}

pub open spec fn layer_views<C>(layers: Seq<LayerKvCache<C>>) -> Seq<LayerView<C>> {
    Seq::new(layers.len(), |i: int| layers[i]@)
}

impl<C> View for CausalDecoderCache<C> {
    type V = CacheView<C>;

    open spec fn view(&self) -> CacheView<C> {
        CacheView { layers: layer_views(self.layers@), position: self.position as int }
    }
}

impl<C> CacheView<C> {
    pub open spec fn wf(self) -> bool {
        &&& 0 <= self.position <= usize::MAX
        &&& forall|i: int| 0 <= i < self.layers.len() ==> (#[trigger] self.layers[i]).wf()
    }
}

impl<C: Copy> CausalDecoderCache<C> {
    /// Number of positions seen.
    pub fn position(&self) -> (position: usize)
        ensures
            position == self@.position,
    {
        self.position
    }

    pub fn layer_count(&self) -> (count: usize)
        ensures
            count == self@.layers.len(),
    {
        self.layers.len()
    }

    /// A copy.
    pub fn duplicate(&self) -> (copy: CausalDecoderCache<C>)
        ensures
            copy@ == self@,
    {
        let mut layers: Vec<LayerKvCache<C>> = Vec::new();
        for i in 0..self.layers.len()
            invariant
                layers@.len() == i,
                forall|j: int| 0 <= j < i ==> (#[trigger] layers@[j])@ == self.layers@[j]@,
        {
            layers.push(self.layers[i].duplicate());
        }
        let copy: CausalDecoderCache<C> = CausalDecoderCache { layers, position: self.position };
        assert(copy@ =~= self@);
        copy
    }
}

impl<K: Kernel> DecoderModel<K> {
    pub open spec fn wf(&self) -> bool {
        &&& forall|i: int| 0 <= i < self.layers@.len() ==> (#[trigger] self.layers@[i]).wf()
        &&& self.lm_head.wf()
        &&& self.mtp matches Some(head) ==> head.wf()
        &&& self.mtp_draft_lm_head matches Some(head) ==> head.wf()
    }

    /// Every layer has the parts that its other parts call for.
    pub open spec fn complete(&self) -> bool {
        forall|i: int| 0 <= i < self.layers@.len() ==> (#[trigger] self.layers@[i]).complete(self.config)
    }

    /// Length of a hidden row.
    pub open spec fn hidden(&self) -> int {
        self.final_norm.data@.len() as int
    }

    /// A cache of this decoder's shape.
    pub open spec fn fits(&self, cache: CacheView<K::Cell>) -> bool {
        cache.layers.len() == self.layers@.len()
    }

    /// A cache that has seen nothing.
    pub open spec fn fresh(&self) -> CacheView<K::Cell> {
        CacheView { layers: Seq::new(self.layers@.len(), |i: int| LayerView::empty()), position: 0 }
    }

    /// A cache that has seen nothing.
    pub fn empty_cache(&self) -> (cache: CausalDecoderCache<K::Cell>)
        ensures
            cache@ == self.fresh(),
            cache@.wf(),
    {
        let mut layers: Vec<LayerKvCache<K::Cell>> = Vec::new();
        for i in 0..self.layers.len()
            invariant
                layers@.len() == i,
                forall|j: int| 0 <= j < i ==> (#[trigger] layers@[j])@ == LayerView::<K::Cell>::empty(),
        {
            layers.push(LayerKvCache::new());
        }
        let cache: CausalDecoderCache<K::Cell> = CausalDecoderCache { layers, position: 0 };
        assert(cache@ =~= self.fresh());
        cache
    }
}

/// The hidden row that a token starts from.
pub open spec fn embed_row<K: Kernel>(m: DecoderModel<K>, token: usize) -> Option<Seq<K::Cell>> {
    let row = lookup_of(m.kernel, m.embed_tokens, token);
    if row.len() != m.hidden() {
        None
    } else {
        match m.config.embed_scale {
            Some(scale) => Some(scaled_row(m.kernel, row, scale)),
            None => Some(row),
        }
    }
}

/// The hidden rows that tokens start from.
pub open spec fn embed_rows<K: Kernel>(m: DecoderModel<K>, tokens: Seq<usize>) -> Option<Seq<Seq<K::Cell>>> {
    if forall|i: int| 0 <= i < tokens.len() ==> (#[trigger] embed_row(m, tokens[i])) is Some {
        Some(Seq::new(tokens.len(), |i: int| embed_row(m, tokens[i])->0))
    } else {
        None
    }
}

/// One position through the layers from `l` on; `views` are the caches of these
/// layers.
pub open spec fn layers_row<K: Kernel>(m: DecoderModel<K>, l: int, views: Seq<LayerView<K::Cell>>, x: Seq<K::Cell>, position: int) -> Option<(Seq<LayerView<K::Cell>>, Seq<K::Cell>)>
    decreases views.len(),
{
    if views.len() == 0 {
        Some((views, x))
    } else {
        match layer_row(m.kernel, m.config, m.layers@[l], views[0], x, position) {
            Some((after, y)) => match layers_row(m, l + 1, views.drop_first(), y, position) {
                Some((rest, out)) => Some((seq![after] + rest, out)),
                None => None,
            },
            None => None,
        }
    }
}

/// A batch of positions through the layers from `l` on.
pub open spec fn layers_rows<K: Kernel>(m: DecoderModel<K>, l: int, views: Seq<LayerView<K::Cell>>, xs: Seq<Seq<K::Cell>>, offset: int) -> Option<(Seq<LayerView<K::Cell>>, Seq<Seq<K::Cell>>)>
    decreases views.len(),
{
    if views.len() == 0 {
        Some((views, xs))
    } else {
        match layer_rows(m.kernel, m.config, m.layers@[l], views[0], xs, offset) {
            Some((after, ys)) => match layers_rows(m, l + 1, views.drop_first(), ys, offset) {
                Some((rest, outs)) => Some((seq![after] + rest, outs)),
                None => None,
            },
            None => None,
        }
    }
}

/// One token through the decoder: the cache after it and the state it leaves.
pub open spec fn step<K: Kernel>(m: DecoderModel<K>, cache: CacheView<K::Cell>, token: usize) -> Option<(CacheView<K::Cell>, Seq<K::Cell>)> {
    if !m.fits(cache) || cache.position >= usize::MAX {
        None
    } else {
        match embed_row(m, token) {
            Some(x) => match layers_row(m, 0, cache.layers, x, cache.position) {
                Some((layers, y)) => match norm_of(m.kernel, y, m.final_norm, m.config.rms_eps) {
                    Some(state) => Some((CacheView { layers, position: cache.position + 1 }, state)),
                    None => None,
                },
                None => None,
            },
            None => None,
        }
    }
}

/// Tokens through the decoder one after the other: the cache after them and the
/// states they leave.
pub open spec fn steps<K: Kernel>(m: DecoderModel<K>, cache: CacheView<K::Cell>, tokens: Seq<usize>) -> Option<(CacheView<K::Cell>, Seq<Seq<K::Cell>>)>
    decreases tokens.len(),
{
    if tokens.len() == 0 {
        Some((cache, Seq::empty()))
    } else {
        match steps(m, cache, tokens.drop_last()) {
            Some((before, states)) => match step(m, before, tokens.last()) {
                Some((after, state)) => Some((after, states.push(state))),
                None => None,
            },
            None => None,
        }
    }
}

/// The hidden rows that a batch of tokens leaves behind the last layer.
pub open spec fn batch_hidden<K: Kernel>(m: DecoderModel<K>, cache: CacheView<K::Cell>, tokens: Seq<usize>) -> Option<(CacheView<K::Cell>, Seq<Seq<K::Cell>>)> {
    if tokens.len() == 0 || !m.fits(cache) || cache.position + tokens.len() > usize::MAX {
        None
    } else {
        match embed_rows(m, tokens) {
            Some(xs) => match layers_rows(m, 0, cache.layers, xs, cache.position) {
                Some((layers, ys)) => Some((CacheView { layers, position: cache.position + tokens.len() }, ys)),
                None => None,
            },
            None => None,
        }
    }
}

/// Tokens through the decoder as one batch: the cache after them and the states
/// they leave.
pub open spec fn batch<K: Kernel>(m: DecoderModel<K>, cache: CacheView<K::Cell>, tokens: Seq<usize>) -> Option<(CacheView<K::Cell>, Seq<Seq<K::Cell>>)> {
    match batch_hidden(m, cache, tokens) {
        Some((after, ys)) => match norm_rows(m.kernel, ys, m.final_norm, m.config.rms_eps) {
            Some(states) => Some((after, states)),
            None => None,
        },
        None => None,
    }
}

/// Caches of the first layers put before those of the others.
pub open spec fn prepend_row<C>(done: Seq<LayerView<C>>, rest: Option<(Seq<LayerView<C>>, Seq<C>)>) -> Option<(Seq<LayerView<C>>, Seq<C>)> {
    match rest {
        Some((views, out)) => Some((done + views, out)),
        None => None,
    }
}

/// Caches of the first layers put before those of the others.
pub open spec fn prepend_rows<C>(done: Seq<LayerView<C>>, rest: Option<(Seq<LayerView<C>>, Seq<Seq<C>>)>) -> Option<(Seq<LayerView<C>>, Seq<Seq<C>>)> {
    match rest {
        Some((views, out)) => Some((done + views, out)),
        None => None,
    }
}

pub proof fn lemma_advance_row<K: Kernel>(m: DecoderModel<K>, l: int, start: Seq<LayerView<K::Cell>>, done: Seq<LayerView<K::Cell>>, x: Seq<K::Cell>, position: int, after: LayerView<K::Cell>, y: Seq<K::Cell>)
    requires
        0 <= l < start.len(),
        layer_row(m.kernel, m.config, m.layers@[l], start[l], x, position) == Some((after, y)),
    ensures
        prepend_row(done, layers_row(m, l, start.skip(l), x, position)) == prepend_row(
            done.push(after),
            layers_row(m, l + 1, start.skip(l + 1), y, position),
        ),
{
    assert(start.skip(l)[0] == start[l]);
    assert(start.skip(l).drop_first() =~= start.skip(l + 1));
    let deeper = layers_row(m, l + 1, start.skip(l + 1), y, position);
    if deeper is Some {
        assert(done + (seq![after] + (deeper->0).0) =~= done.push(after) + (deeper->0).0);
    }
}

proof fn lemma_advance_rows<K: Kernel>(m: DecoderModel<K>, l: int, start: Seq<LayerView<K::Cell>>, done: Seq<LayerView<K::Cell>>, xs: Seq<Seq<K::Cell>>, offset: int, after: LayerView<K::Cell>, ys: Seq<Seq<K::Cell>>)
    requires
        0 <= l < start.len(),
        layer_rows(m.kernel, m.config, m.layers@[l], start[l], xs, offset) == Some((after, ys)),
    ensures
        prepend_rows(done, layers_rows(m, l, start.skip(l), xs, offset)) == prepend_rows(
            done.push(after),
            layers_rows(m, l + 1, start.skip(l + 1), ys, offset),
        ),
{
    assert(start.skip(l)[0] == start[l]);
    assert(start.skip(l).drop_first() =~= start.skip(l + 1));
    let deeper = layers_rows(m, l + 1, start.skip(l + 1), ys, offset);
    if deeper is Some {
        assert(done + (seq![after] + (deeper->0).0) =~= done.push(after) + (deeper->0).0);
    }
}

pub proof fn lemma_layers_wf<C>(cache: CausalDecoderCache<C>)
    requires
        cache@.wf(),
    ensures
        forall|j: int| 0 <= j < cache.layers@.len() ==> (#[trigger] cache.layers@[j])@.wf(),
{
    assert forall|j: int| 0 <= j < cache.layers@.len() implies (#[trigger] cache.layers@[j])@.wf() by {
        assert(cache@.layers[j].wf());
    }
}

impl<K: Kernel> DecoderModel<K> {
    /// The hidden rows that tokens start from. Refused where the table has no row
    /// of the decoder's length for one of them.
    pub fn embed_scaled(&self, tokens: &Vec<usize>) -> (out: Result<Tensor<K::Cell>, InferError>)
        ensures
            out matches Ok(out) ==> out.is_matrix() && out.cols() == self.hidden() && out.shape@[0] == tokens@.len(),
            out matches Err(error) ==> error is Dimension,
            functional(self.kernel) ==> rows_agree(out, embed_rows(*self, tokens@), self.hidden()),
    {
        let k: &K = &self.kernel;
        let hidden: usize = self.final_norm.data.len();
        let mut out: Tensor<K::Cell> = Tensor::empty_matrix(hidden);
        for i in 0..tokens.len()
            invariant
                *k == self.kernel,
                hidden == self.hidden(),
                out.is_matrix(),
                out.cols() == hidden,
                out.shape@[0] == i,
                functional(*k) ==> forall|j: int| 0 <= j < i ==> (#[trigger] embed_row(*self, tokens@[j])) == Some(out.rows()[j]),
        {
            proof {
                out.lemma_rows();
            }
            let row: Vec<K::Cell> = lookup(k, &self.embed_tokens, tokens[i]);
            if row.len() != hidden {
                assert(functional(*k) ==> embed_row(*self, tokens@[i as int]) is None);
                return Err(InferError::Dimension("token without an embedding of the decoder's length"));
            }
            match self.config.embed_scale {
                Some(scale) => {
                    let scaled: Vec<K::Cell> = scale_row(k, &row, scale);
                    out.push_row(&scaled);
                },
                None => {
                    out.push_row(&row);
                },
            }
        }
        proof {
            out.lemma_rows();
            if functional(*k) {
                assert(out.rows() =~= embed_rows(*self, tokens@)->0);
            }
        }
        Ok(out)
    }

    fn run_layers_row(&self, layers: &mut Vec<LayerKvCache<K::Cell>>, x: Tensor<K::Cell>, position: usize) -> (out: Result<Tensor<K::Cell>, InferError>)
        requires
            self.wf(),
            old(layers)@.len() == self.layers@.len(),
            forall|j: int| 0 <= j < old(layers)@.len() ==> (#[trigger] old(layers)@[j])@.wf(),
            x.is_matrix(),
            x.shape@[0] == 1,
        ensures
            out matches Err(error) ==> error.is_misfit(self.complete()),
            final(layers)@.len() == old(layers)@.len(),
            forall|j: int| 0 <= j < final(layers)@.len() ==> (#[trigger] final(layers)@[j])@.wf(),
            out matches Ok(out) ==> out.is_matrix() && out.shape@[0] == 1 && out.cols() == x.cols(),
            functional(self.kernel) ==> match out {
                Ok(out) => layers_row(*self, 0, layer_views(old(layers)@), x.rows()[0], position as int) == Some(
                    (layer_views(final(layers)@), out.rows()[0]),
                ),
                Err(_) => layers_row(*self, 0, layer_views(old(layers)@), x.rows()[0], position as int) is None,
            },
    {
        let k: &K = &self.kernel;
        let ghost start = layer_views(layers@);
        let ghost first = x.rows()[0];
        let ghost cols = x.cols();
        let ghost mut done: Seq<LayerView<K::Cell>> = Seq::empty();
        let mut hidden: Tensor<K::Cell> = x;
        let count: usize = self.layers.len();
        proof {
            assert(start.skip(0) =~= start);
            if layers_row(*self, 0, start, first, position as int) is Some {
                let rest = (layers_row(*self, 0, start, first, position as int)->0).0;
                assert(done + rest =~= rest);
            }
        }
        let mut l: usize = 0;
        while l < count
            invariant
                l <= count,
                count == self.layers@.len(),
                *k == self.kernel,
                self.wf(),
                start == layer_views(old(layers)@),
                first == x.rows()[0],
                start.len() == count,
                layers@.len() == count,
                done.len() == l,
                forall|j: int| 0 <= j < count ==> (#[trigger] layers@[j])@.wf(),
                forall|j: int| 0 <= j < l ==> (#[trigger] layers@[j])@ == done[j],
                forall|j: int| l <= j < count ==> (#[trigger] layers@[j])@ == start[j],
                hidden.is_matrix(),
                hidden.shape@[0] == 1,
                hidden.cols() == cols,
                functional(*k) ==> layers_row(*self, 0, start, first, position as int) == prepend_row(
                    done,
                    layers_row(*self, l as int, start.skip(l as int), hidden.rows()[0], position as int),
                ),
            decreases count - l,
        {
            let ghost row = hidden.rows()[0];
            proof {
                hidden.lemma_rows();
            }
            match forward_cached(k, &self.config, &self.layers[l], &hidden, &mut layers[l], position) {
                Ok(next) => {
                    proof {
                        let after = layers@[l as int]@;
                        if functional(*k) {
                            lemma_advance_row(*self, l as int, start, done, row, position as int, after, next.rows()[0]);
                        }
                        done = done.push(after);
                    }
                    hidden = next;
                },
                Err(error) => {
                    proof {
                        if functional(*k) {
                            assert(start.skip(l as int)[0] == start[l as int]);
                            assert(layers_row(*self, l as int, start.skip(l as int), row, position as int) is None);
                        }
                    }
                    return Err(error);
                },
            }
            l = l + 1;
        }
        proof {
            assert(start.skip(count as int).len() == 0);
            assert(done + start.skip(count as int) =~= layer_views(layers@));
        }
        Ok(hidden)
    }

    fn run_layers_rows(&self, layers: &mut Vec<LayerKvCache<K::Cell>>, x: Tensor<K::Cell>, offset: usize) -> (out: Result<Tensor<K::Cell>, InferError>)
        requires
            self.wf(),
            old(layers)@.len() == self.layers@.len(),
            forall|j: int| 0 <= j < old(layers)@.len() ==> (#[trigger] old(layers)@[j])@.wf(),
            x.is_matrix(),
            x.shape@[0] > 0,
        ensures
            out matches Err(error) ==> error.is_misfit(self.complete()),
            final(layers)@.len() == old(layers)@.len(),
            forall|j: int| 0 <= j < final(layers)@.len() ==> (#[trigger] final(layers)@[j])@.wf(),
            out matches Ok(out) ==> out.is_matrix() && out.shape@[0] == x.shape@[0] && out.cols() == x.cols(),
            functional(self.kernel) ==> match out {
                Ok(out) => layers_rows(*self, 0, layer_views(old(layers)@), x.rows(), offset as int) == Some(
                    (layer_views(final(layers)@), out.rows()),
                ),
                Err(_) => layers_rows(*self, 0, layer_views(old(layers)@), x.rows(), offset as int) is None,
            },
    {
        let k: &K = &self.kernel;
        let ghost start = layer_views(layers@);
        let ghost first = x.rows();
        let ghost cols = x.cols();
        let ghost rows = x.shape@[0];
        let ghost mut done: Seq<LayerView<K::Cell>> = Seq::empty();
        let mut hidden: Tensor<K::Cell> = x;
        let count: usize = self.layers.len();
        proof {
            assert(start.skip(0) =~= start);
            if layers_rows(*self, 0, start, first, offset as int) is Some {
                let rest = (layers_rows(*self, 0, start, first, offset as int)->0).0;
                assert(done + rest =~= rest);
            }
        }
        let mut l: usize = 0;
        while l < count
            invariant
                l <= count,
                count == self.layers@.len(),
                *k == self.kernel,
                self.wf(),
                start == layer_views(old(layers)@),
                first == x.rows(),
                start.len() == count,
                layers@.len() == count,
                done.len() == l,
                forall|j: int| 0 <= j < count ==> (#[trigger] layers@[j])@.wf(),
                forall|j: int| 0 <= j < l ==> (#[trigger] layers@[j])@ == done[j],
                forall|j: int| l <= j < count ==> (#[trigger] layers@[j])@ == start[j],
                rows > 0,
                hidden.is_matrix(),
                hidden.shape@[0] == rows,
                hidden.cols() == cols,
                functional(*k) ==> layers_rows(*self, 0, start, first, offset as int) == prepend_rows(
                    done,
                    layers_rows(*self, l as int, start.skip(l as int), hidden.rows(), offset as int),
                ),
            decreases count - l,
        {
            let ghost cur = hidden.rows();
            match forward_prefill(k, &self.config, &self.layers[l], &hidden, &mut layers[l], offset) {
                Ok(next) => {
                    proof {
                        let after = layers@[l as int]@;
                        if functional(*k) {
                            lemma_advance_rows(*self, l as int, start, done, cur, offset as int, after, next.rows());
                        }
                        done = done.push(after);
                    }
                    hidden = next;
                },
                Err(error) => {
                    proof {
                        if functional(*k) {
                            assert(start.skip(l as int)[0] == start[l as int]);
                            assert(layers_rows(*self, l as int, start.skip(l as int), cur, offset as int) is None);
                        }
                    }
                    return Err(error);
                },
            }
            l = l + 1;
        }
        proof {
            assert(start.skip(count as int).len() == 0);
            assert(done + start.skip(count as int) =~= layer_views(layers@));
        }
        Ok(hidden)
    }

    /// Takes one token through the decoder.
    pub fn next_final_state_cached(&self, cache: &mut CausalDecoderCache<K::Cell>, token: usize) -> (out: Result<Tensor<K::Cell>, InferError>)
        requires
            self.wf(),
            old(cache)@.wf(),
        ensures
            out matches Err(error) ==> error.is_misfit(self.complete()),
            final(cache)@.wf(),
            final(cache)@.layers.len() == old(cache)@.layers.len(),
            out is Ok ==> final(cache)@.position == old(cache)@.position + 1,
            out matches Ok(out) ==> out.is_matrix() && out.shape@[0] == 1 && out.cols() == self.hidden(),
            !self.fits(old(cache)@) ==> (out matches Err(error) && error is Dimension),
            functional(self.kernel) ==> match out {
                Ok(out) => step(*self, old(cache)@, token) == Some((final(cache)@, out.rows()[0])),
                Err(_) => step(*self, old(cache)@, token) is None,
            },
    {
        if cache.layers.len() != self.layers.len() {
            return Err(InferError::Dimension("cache and decoder differ in layers"));
        }
        let position: usize = cache.position;
        if position == usize::MAX {
            return Err(InferError::Dimension("position leaves the machine's range"));
        }
        let k: &K = &self.kernel;
        proof {
            lemma_layers_wf(*cache);
        }
        let mut one: Vec<usize> = Vec::new();
        one.push(token);
        let x: Tensor<K::Cell> = match self.embed_scaled(&one) {
            Ok(x) => x,
            Err(error) => {
                proof {
                    if functional(*k) {
                        assert(one@[0] == token);
                        assert(embed_row(*self, token) is None);
                    }
                }
                return Err(error);
            },
        };
        proof {
            x.lemma_rows();
            if functional(*k) {
                assert(embed_row(*self, one@[0]) is Some);
            }
        }
        let hidden: Tensor<K::Cell> = self.run_layers_row(&mut cache.layers, x, position)?;
        cache.position = position + 1;
        proof {
            hidden.lemma_rows();
        }
        let out: Tensor<K::Cell> = rms_norm(k, &hidden, &self.final_norm, self.config.rms_eps)?;
        proof {
            out.lemma_rows();
        }
        Ok(out)
    }

    /// Takes a batch of tokens through the layers.
    pub fn hidden_rows_batched(&self, cache: &mut CausalDecoderCache<K::Cell>, tokens: &Vec<usize>) -> (out: Result<Tensor<K::Cell>, InferError>)
        requires
            self.wf(),
            old(cache)@.wf(),
        ensures
            out matches Err(error) ==> error.is_misfit(self.complete()),
            final(cache)@.wf(),
            final(cache)@.layers.len() == old(cache)@.layers.len(),
            out matches Ok(out) ==> out.is_matrix() && out.shape@[0] == tokens@.len() && out.cols() == self.hidden(),
            tokens@.len() == 0 || !self.fits(old(cache)@) ==> (out matches Err(error) && error is Dimension) && *final(cache) == *old(cache),
            out is Ok ==> final(cache)@.position == old(cache)@.position + tokens@.len(),
            functional(self.kernel) ==> match out {
                Ok(out) => batch_hidden(*self, old(cache)@, tokens@) == Some((final(cache)@, out.rows())),
                Err(_) => batch_hidden(*self, old(cache)@, tokens@) is None,
            },
    {
        if tokens.len() == 0 {
            return Err(InferError::Dimension("batch without tokens"));
        }
        if cache.layers.len() != self.layers.len() {
            return Err(InferError::Dimension("cache and decoder differ in layers"));
        }
        let offset: usize = cache.position;
        let after: usize = match offset.checked_add(tokens.len()) {
            Some(after) => after,
            None => {
                return Err(InferError::Dimension("position leaves the machine's range"));
            },
        };
        proof {
            lemma_layers_wf(*cache);
        }
        let x: Tensor<K::Cell> = self.embed_scaled(tokens)?;
        let hidden: Tensor<K::Cell> = self.run_layers_rows(&mut cache.layers, x, offset)?;
        cache.position = after;
        Ok(hidden)
    }

    /// Takes a batch of tokens through the decoder.
    pub fn next_final_states_batched(&self, cache: &mut CausalDecoderCache<K::Cell>, tokens: &Vec<usize>) -> (out: Result<Tensor<K::Cell>, InferError>)
        requires
            self.wf(),
            old(cache)@.wf(),
        ensures
            out matches Err(error) ==> error.is_misfit(self.complete()),
            final(cache)@.wf(),
            final(cache)@.layers.len() == old(cache)@.layers.len(),
            out matches Ok(out) ==> out.is_matrix() && out.shape@[0] == tokens@.len() && out.cols() == self.hidden(),
            tokens@.len() == 0 || !self.fits(old(cache)@) ==> (out matches Err(error) && error is Dimension) && *final(cache) == *old(cache),
            out is Ok ==> final(cache)@.position == old(cache)@.position + tokens@.len(),
            functional(self.kernel) ==> match out {
                Ok(out) => batch(*self, old(cache)@, tokens@) == Some((final(cache)@, out.rows())),
                Err(_) => batch(*self, old(cache)@, tokens@) is None,
            },
    {
        let hidden: Tensor<K::Cell> = self.hidden_rows_batched(cache, tokens)?;
        proof {
            hidden.lemma_rows();
            crate::layer::lemma_norm_rows(self.kernel, hidden, self.final_norm, self.config.rms_eps);
        }
        rms_norm(&self.kernel, &hidden, &self.final_norm, self.config.rms_eps)
    }
}

} // verus!
