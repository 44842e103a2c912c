//! What layers put out on the way.

use vstd::prelude::*;
use crate::error::InferError;
use crate::kernel::{functional, Kernel};
use crate::kv::{LayerKvCache, LayerView};
use crate::layer::{forward_prefill, layer_rows};
use crate::model::{batch_hidden, embed_rows, layer_views, layers_rows, lemma_layers_wf, CacheView, CausalDecoderCache, DecoderModel};
use crate::tensor::{append_cells, flatten, Tensor};

verus! {

/// The layers are some, are there, and are named once each.
pub open spec fn capturable(ids: Seq<usize>, count: int) -> bool {
    &&& ids.len() > 0
    &&& forall|i: int| 0 <= i < ids.len() ==> (#[trigger] ids[i]) < count
    &&& forall|i: int, j: int| 0 <= i < j < ids.len() ==> (#[trigger] ids[i]) != (#[trigger] ids[j])
}

/// The first place of a layer that is not there or was named before.
pub open spec fn first_fault(ids: Seq<usize>, count: int, i: int) -> bool {
    &&& 0 <= i < ids.len()
    &&& i > 0 ==> capturable(ids.take(i), count)
    &&& ids[i] >= count || ids.take(i).contains(ids[i])
}

/// There is one first fault, and none where there is no fault.
proof fn lemma_first_fault(ids: Seq<usize>, count: int, i: int, j: int)
    requires
        first_fault(ids, count, i),
    ensures
        !capturable(ids, count),
        first_fault(ids, count, j) ==> i == j,
        i < j <= ids.len() ==> !capturable(ids.take(j), count),
{
    let early = ids.take(i);
    if ids[i] < count {
        let l = early.index_of(ids[i]);
        assert(early[l] == ids[l]);
        assert(ids[l] == ids[i]);
    }
    if i < j <= ids.len() {
        let late = ids.take(j);
        assert(late[i] == ids[i]);
        if ids[i] < count {
            let l = early.index_of(ids[i]);
            assert(late[l] == ids[l]);
        }
    }
    if first_fault(ids, count, j) && j < i {
        let before = ids.take(j);
        assert(early[j] == ids[j]);
        if ids[j] < count {
            let l = before.index_of(ids[j]);
            assert(early[l] == ids[l]);
        }
    }
}

/// Refuses layers that are none, not there, or named twice.
pub fn validate_capture_layer_ids(layer_ids: &Vec<usize>, layer_count: usize) -> (out: Result<(), InferError>)
    ensures
        out is Ok <==> capturable(layer_ids@, layer_count as int),
        layer_ids@.len() == 0 ==> (out matches Err(error) && error is Config),
        out is Err && layer_ids@.len() > 0 ==> exists|i: int| #[trigger] first_fault(layer_ids@, layer_count as int, i),
        forall|i: int| #[trigger]
            first_fault(layer_ids@, layer_count as int, i) ==> (out matches Err(error) && if layer_ids@[i] >= layer_count {
                error is Dimension
            } else {
                error is Config
            }),
{
    let n: usize = layer_ids.len();
    if n == 0 {
        return Err(InferError::Config("no layers to read from"));
    }
    let mut i: usize = 0;
    while i < n
        invariant
            i <= n,
            n == layer_ids@.len(),
            n > 0,
            i > 0 ==> capturable(layer_ids@.take(i as int), layer_count as int),
        decreases n - i,
    {
        let ghost before = layer_ids@.take(i as int);
        let id: usize = layer_ids[i];
        if id >= layer_count {
            proof {
                let at = i as int;
                assert(first_fault(layer_ids@, layer_count as int, at));
                assert forall|l: int| #[trigger] first_fault(layer_ids@, layer_count as int, l) implies l == at by {
                    lemma_first_fault(layer_ids@, layer_count as int, at, l);
                }
                lemma_first_fault(layer_ids@, layer_count as int, at, at);
            }
            return Err(InferError::Dimension("layer to read from is not there"));
        }
        for j in 0..i
            invariant
                i < n,
                n == layer_ids@.len(),
                id == layer_ids@[i as int],
                id < layer_count,
                before == layer_ids@.take(i as int),
                i > 0 ==> capturable(before, layer_count as int),
                forall|l: int| 0 <= l < j ==> layer_ids@[l] != id,
        {
            if layer_ids[j] == id {
                assert(before[j as int] == id);
                proof {
                    let at = i as int;
                    assert(before.contains(id));
                    assert(first_fault(layer_ids@, layer_count as int, at));
                    assert forall|l: int| #[trigger] first_fault(layer_ids@, layer_count as int, l) implies l == at by {
                        lemma_first_fault(layer_ids@, layer_count as int, at, l);
                    }
                    lemma_first_fault(layer_ids@, layer_count as int, at, at);
                }
                return Err(InferError::Config("layer to read from named twice"));
            }
        }
        let ghost after = layer_ids@.take(i + 1);
        proof {
            assert forall|l: int| 0 <= l < after.len() implies (#[trigger] after[l]) < layer_count by {
                if l < i {
                    assert(after[l] == before[l]);
                }
            }
            assert forall|a: int, b: int| 0 <= a < b < after.len() implies (#[trigger] after[a]) != (#[trigger] after[b]) by {
                if b < i {
                    assert(after[a] == before[a] && after[b] == before[b]);
                } else {
                    assert(after[a] == layer_ids@[a]);
                }
            }
        }
        i = i + 1;
    }
    assert(layer_ids@.take(n as int) =~= layer_ids@);
    proof {
        assert forall|l: int| !#[trigger] first_fault(layer_ids@, layer_count as int, l) by {
            if first_fault(layer_ids@, layer_count as int, l) {
                lemma_first_fault(layer_ids@, layer_count as int, l, l);
            }
        }
    }
    Ok(())
}

/// The rows that every layer from `l` on puts out, and the caches after them.
pub open spec fn outputs<K: Kernel>(m: DecoderModel<K>, l: int, views: Seq<LayerView<K::Cell>>, xs: Seq<Seq<K::Cell>>, offset: int) -> Option<(Seq<LayerView<K::Cell>>, Seq<Seq<Seq<K::Cell>>>)>
    decreases views.len(),
{
    if views.len() == 0 {
        Some((views, Seq::empty()))
    } else {
        match layer_rows(m.kernel, m.config, m.layers@[l], views[0], xs, offset) {
            Some((after, ys)) => match outputs(m, l + 1, views.drop_first(), ys, offset) {
                Some((rest, outs)) => Some((seq![after] + rest, seq![ys] + outs)),
                None => None,
            },
            None => None,
        }
    }
}

/// Caches and rows of the first layers put before those of the others.
pub open spec fn prepend_outputs<C>(views: Seq<LayerView<C>>, outs: Seq<Seq<Seq<C>>>, rest: Option<(Seq<LayerView<C>>, Seq<Seq<Seq<C>>>)>) -> Option<(Seq<LayerView<C>>, Seq<Seq<Seq<C>>>)> {
    match rest {
        Some((more_views, more_outs)) => Some((views + more_views, outs + more_outs)),
        None => None,
    }
}

/// The rows behind the last layer.
pub open spec fn last_output<C>(xs: Seq<Seq<C>>, outs: Seq<Seq<Seq<C>>>) -> Seq<Seq<C>> {
    if outs.len() == 0 {
        xs
    } else {
        outs.last()
    }
}

/// The rows behind the last layer are those of the layers without reading on the
/// way.
pub proof fn law_reading_changes_nothing<K: Kernel>(m: DecoderModel<K>, l: int, views: Seq<LayerView<K::Cell>>, xs: Seq<Seq<K::Cell>>, offset: int)
    ensures
        layers_rows(m, l, views, xs, offset) == match outputs(m, l, views, xs, offset) {
            Some((after, outs)) => Some((after, last_output(xs, outs))),
            None => None,
        },
        outputs(m, l, views, xs, offset) matches Some(made) ==> made.1.len() == views.len() && made.0.len() == views.len(),
    decreases views.len(),
{
    if views.len() > 0 {
        let made = layer_rows(m.kernel, m.config, m.layers@[l], views[0], xs, offset);
        if made is Some {
            let ys = (made->0).1;
            law_reading_changes_nothing(m, l + 1, views.drop_first(), ys, offset);
            if outputs(m, l + 1, views.drop_first(), ys, offset) is Some {
                let outs = (outputs(m, l + 1, views.drop_first(), ys, offset)->0).1;
                assert(last_output(xs, seq![ys] + outs) == last_output(ys, outs));
            }
        }
    }
}

proof fn lemma_outputs_step<K: Kernel>(m: DecoderModel<K>, l: int, start: Seq<LayerView<K::Cell>>, views: Seq<LayerView<K::Cell>>, outs: Seq<Seq<Seq<K::Cell>>>, xs: Seq<Seq<K::Cell>>, offset: int, after: LayerView<K::Cell>, ys: Seq<Seq<K::Cell>>)
    requires
        0 <= l < start.len(),
        layer_rows(m.kernel, m.config, m.layers@[l], start[l], xs, offset) == Some((after, ys)),
    ensures
        prepend_outputs(views, outs, outputs(m, l, start.skip(l), xs, offset)) == prepend_outputs(
            views.push(after),
            outs.push(ys),
            outputs(m, l + 1, start.skip(l + 1), ys, offset),
        ),
{
    assert(start.skip(l)[0] == start[l]);
    assert(start.skip(l).drop_first() =~= start.skip(l + 1));
    let deeper = outputs(m, l + 1, start.skip(l + 1), ys, offset);
    if deeper is Some {
        assert(views + (seq![after] + (deeper->0).0) =~= views.push(after) + (deeper->0).0);
        assert(outs + (seq![ys] + (deeper->0).1) =~= outs.push(ys) + (deeper->0).1);
    }
}

/// Row `r` of the layers named, side by side.
pub open spec fn captured_row<C>(outs: Seq<Seq<Seq<C>>>, ids: Seq<usize>, r: int) -> Seq<C> {
    flatten(Seq::new(ids.len(), |slot: int| outs[ids[slot] as int][r]))
}

/// The rows of the layers named, side by side.
pub open spec fn captured_rows<C>(outs: Seq<Seq<Seq<C>>>, ids: Seq<usize>, rows: int) -> Seq<Seq<C>> {
    Seq::new(rows as nat, |r: int| captured_row(outs, ids, r))
}

/// A batch of tokens through the layers, read on the way: the cache after it, the
/// rows behind the last layer, and the rows of the layers named.
pub open spec fn read_batch<K: Kernel>(m: DecoderModel<K>, ids: Seq<usize>, cache: CacheView<K::Cell>, tokens: Seq<usize>) -> Option<(CacheView<K::Cell>, Seq<Seq<K::Cell>>, Seq<Seq<K::Cell>>)> {
    if tokens.len() == 0 || !capturable(ids, m.layers@.len() as int) || !m.fits(cache) || cache.position + tokens.len() > usize::MAX
        || ids.len() * m.hidden() > usize::MAX {
        None
    } else {
        match embed_rows(m, tokens) {
            Some(xs) => match outputs(m, 0, cache.layers, xs, cache.position) {
                Some((layers, outs)) => Some(
                    (
                        CacheView { layers, position: cache.position + tokens.len() },
                        last_output(xs, outs),
                        captured_rows(outs, ids, tokens.len() as int),
                    ),
                ),
                None => None,
            },
            None => None,
        }
    }
}

/// A batch read on the way leaves the cache and the rows it leaves unread.
pub proof fn law_read_batch<K: Kernel>(m: DecoderModel<K>, ids: Seq<usize>, cache: CacheView<K::Cell>, tokens: Seq<usize>)
    ensures
        read_batch(m, ids, cache, tokens) matches Some(made) ==> batch_hidden(m, cache, tokens) == Some((made.0, made.1)),
{
    if embed_rows(m, tokens) is Some {
        law_reading_changes_nothing(m, 0, cache.layers, embed_rows(m, tokens)->0, cache.position);
    }
}

/// Keeps a copy of a layer's rows in every slot that names it.
pub fn capture_layer_output<C: Copy>(layer_ids: &Vec<usize>, layer_index: usize, hidden: &Tensor<C>, captures: &mut Vec<Option<Tensor<C>>>)
    requires
        old(captures)@.len() == layer_ids@.len(),
    ensures
        final(captures)@.len() == old(captures)@.len(),
        forall|slot: int|
            0 <= slot < layer_ids@.len() ==> if layer_ids@[slot] == layer_index {
                (#[trigger] final(captures)@[slot]) matches Some(copy) && copy.shape@ == hidden.shape@ && copy.data@ == hidden.data@
            } else {
                final(captures)@[slot] == old(captures)@[slot]
            },
{
    let n: usize = layer_ids.len();
    let mut slot: usize = 0;
    while slot < n
        invariant
            slot <= n,
            n == layer_ids@.len(),
            captures@.len() == n,
            old(captures)@.len() == n,
            forall|s: int|
                0 <= s < slot ==> if layer_ids@[s] == layer_index {
                    (#[trigger] captures@[s]) matches Some(copy) && copy.shape@ == hidden.shape@ && copy.data@ == hidden.data@
                } else {
                    captures@[s] == old(captures)@[s]
                },
            forall|s: int| slot <= s < n ==> (#[trigger] captures@[s]) == old(captures)@[s],
        decreases n - slot,
    {
        if layer_ids[slot] == layer_index {
            captures.set(slot, Some(hidden.duplicate()));
        }
        slot = slot + 1;
    }
}

/// Every capture is there, of the size expected.
pub open spec fn captures_fit<C>(captures: Seq<Option<Tensor<C>>>, rows: int, cols: int) -> bool {
    forall|slot: int|
        0 <= slot < captures.len() ==> capture_fits(#[trigger] captures[slot], rows, cols)
}

/// A capture is there, of the size expected.
pub open spec fn capture_fits<C>(capture: Option<Tensor<C>>, rows: int, cols: int) -> bool {
    capture matches Some(capture) && capture.is_matrix() && capture.shape@[0] == rows && capture.cols() == cols
}

/// The first place of a capture that is missing or of another size.
pub open spec fn first_gap<C>(captures: Seq<Option<Tensor<C>>>, rows: int, cols: int, slot: int) -> bool {
    &&& 0 <= slot < captures.len()
    &&& !capture_fits(captures[slot], rows, cols)
    &&& forall|s: int| 0 <= s < slot ==> capture_fits(#[trigger] captures[s], rows, cols)
}

/// Captures side by side, row by row. Refused where one is missing or of another
/// size.
pub fn concat_layer_captures<C: Copy>(captures: &Vec<Option<Tensor<C>>>, expected_rows: usize, hidden_dim: usize) -> (out: Result<Tensor<C>, InferError>)
    requires
        forall|slot: int| 0 <= slot < captures@.len() ==> ((#[trigger] captures@[slot]) matches Some(capture) ==> capture.is_matrix()),
    ensures
        out is Ok <==> captures@.len() * hidden_dim <= usize::MAX && captures_fit(captures@, expected_rows as int, hidden_dim as int),
        captures@.len() * hidden_dim > usize::MAX ==> (out matches Err(error) && error is Shape),
        captures@.len() * hidden_dim <= usize::MAX ==> forall|slot: int| #[trigger]
            first_gap(captures@, expected_rows as int, hidden_dim as int, slot) ==> (out matches Err(error) && if captures@[slot] is None {
                error is Config
            } else {
                error is Dimension
            }),
        out matches Ok(out) ==> out.holds(
            Seq::new(
                expected_rows as nat,
                |r: int| flatten(Seq::new(captures@.len(), |slot: int| (captures@[slot]->0).rows()[r])),
            ),
            captures@.len() * hidden_dim,
        ),
{
    let n: usize = captures.len();
    let cols: usize = match n.checked_mul(hidden_dim) {
        Some(cols) => cols,
        None => {
            return Err(InferError::Shape("captures side by side leave the machine's range"));
        },
    };
    let mut slot: usize = 0;
    while slot < n
        invariant
            slot <= n,
            n == captures@.len(),
            n * hidden_dim <= usize::MAX,
            forall|s: int| 0 <= s < slot ==> capture_fits(#[trigger] captures@[s], expected_rows as int, hidden_dim as int),
            forall|slot: int| 0 <= slot < captures@.len() ==> ((#[trigger] captures@[slot]) matches Some(capture) ==> capture.is_matrix()),
        decreases n - slot,
    {
        match &captures[slot] {
            Some(capture) => {
                let (rows, width) = capture.as_matrix()?;
                if rows != expected_rows || width != hidden_dim {
                    assert(!capture_fits(captures@[slot as int], expected_rows as int, hidden_dim as int));
                    return Err(InferError::Dimension("capture of another size"));
                }
            },
            None => {
                assert(!capture_fits(captures@[slot as int], expected_rows as int, hidden_dim as int));
                return Err(InferError::Config("capture missing"));
            },
        }
        slot = slot + 1;
    }
    let mut out: Tensor<C> = Tensor::empty_matrix(cols);
    let ghost wanted = Seq::new(
        expected_rows as nat,
        |r: int| flatten(Seq::new(captures@.len(), |slot: int| (captures@[slot]->0).rows()[r])),
    );
    let mut r: usize = 0;
    assert(wanted.take(0) =~= Seq::empty());
    while r < expected_rows
        invariant
            r <= expected_rows,
            n == captures@.len(),
            cols == n * hidden_dim,
            captures_fit(captures@, expected_rows as int, hidden_dim as int),
            wanted == Seq::new(
                expected_rows as nat,
                |r: int| flatten(Seq::new(captures@.len(), |slot: int| (captures@[slot]->0).rows()[r])),
            ),
            out.holds(wanted.take(r as int), cols as int),
            out.shape@[0] == r,
        decreases expected_rows - r,
    {
        let ghost parts = Seq::new(captures@.len(), |slot: int| (captures@[slot]->0).rows()[r as int]);
        let mut row: Vec<C> = Vec::new();
        let mut s: usize = 0;
        assert(parts.take(0) =~= Seq::empty());
        while s < n
            invariant
                s <= n,
                n == captures@.len(),
                r < expected_rows,
                captures_fit(captures@, expected_rows as int, hidden_dim as int),
                parts == Seq::new(captures@.len(), |slot: int| (captures@[slot]->0).rows()[r as int]),
                row@ == flatten(parts.take(s as int)),
            decreases n - s,
        {
            assert(captures@[s as int] is Some);
            if let Some(capture) = &captures[s] {
                let part: Vec<C> = capture.row_slice(r)?;
                append_cells(&mut row, &part);
                proof {
                    assert(parts.take(s + 1).drop_last() =~= parts.take(s as int));
                    assert(parts.take(s + 1).last() == parts[s as int]);
                }
            }
            s = s + 1;
        }
        proof {
            assert(parts.take(n as int) =~= parts);
            assert forall|i: int| 0 <= i < parts.len() implies (#[trigger] parts[i]).len() == hidden_dim by {
                assert(captures@[i] is Some);
                (captures@[i]->0).lemma_rows();
            }
            crate::warmth::lemma_flatten_len(parts, hidden_dim as int);
            assert(wanted.take(r + 1) =~= wanted.take(r as int).push(row@));
        }
        out.push_row(&row);
        r = r + 1;
    }
    assert(wanted.take(expected_rows as int) =~= wanted);
    Ok(out)
}

impl<K: Kernel> DecoderModel<K> {
    fn run_layers_captured(&self, layers: &mut Vec<LayerKvCache<K::Cell>>, x: Tensor<K::Cell>, offset: usize, layer_ids: &Vec<usize>) -> (out: Result<(Tensor<K::Cell>, Vec<Option<Tensor<K::Cell>>>), InferError>)
        requires
            self.wf(),
            old(layers)@.len() == self.layers@.len(),
            forall|j: int| 0 <= j < old(layers)@.len() ==> (#[trigger] old(layers)@[j])@.wf(),
            x.is_matrix(),
            x.shape@[0] > 0,
            capturable(layer_ids@, self.layers@.len() as int),
        ensures
            out matches Err(error) ==> error.is_misfit(self.complete()),
            final(layers)@.len() == old(layers)@.len(),
            forall|j: int| 0 <= j < final(layers)@.len() ==> (#[trigger] final(layers)@[j])@.wf(),
            out matches Ok(out) ==> {
                &&& out.0.is_matrix()
                &&& out.0.shape@[0] == x.shape@[0]
                &&& out.0.cols() == x.cols()
                &&& out.1@.len() == layer_ids@.len()
                &&& captures_fit(out.1@, x.shape@[0] as int, x.cols())
            },
            functional(self.kernel) ==> match out {
                Ok(out) => {
                    &&& outputs(*self, 0, layer_views(old(layers)@), x.rows(), offset as int) matches Some(made)
                    &&& made.0 == layer_views(final(layers)@)
                    &&& last_output(x.rows(), made.1) == out.0.rows()
                    &&& forall|slot: int| 0 <= slot < layer_ids@.len() ==> ((#[trigger] out.1@[slot])->0).rows() == made.1[layer_ids@[slot] as int]
                },
                Err(_) => outputs(*self, 0, layer_views(old(layers)@), x.rows(), offset as int) is None,
            },
    {
        let k: &K = &self.kernel;
        let ghost start = layer_views(layers@);
        let ghost first = x.rows();
        let ghost cols = x.cols();
        let ghost rows = x.shape@[0];
        let ghost mut done: Seq<LayerView<K::Cell>> = Seq::empty();
        let ghost mut outs: Seq<Seq<Seq<K::Cell>>> = Seq::empty();
        let mut hidden: Tensor<K::Cell> = x;
        let count: usize = self.layers.len();
        let slots: usize = layer_ids.len();
        let mut captures: Vec<Option<Tensor<K::Cell>>> = Vec::new();
        let mut filled: usize = 0;
        while filled < slots
            invariant
                filled <= slots,
                captures@.len() == filled,
                forall|s: int| 0 <= s < filled ==> (#[trigger] captures@[s]) is None,
            decreases slots - filled,
        {
            captures.push(None);
            filled = filled + 1;
        }
        proof {
            assert(start.skip(0) =~= start);
            if outputs(*self, 0, start, first, offset as int) is Some {
                let made = outputs(*self, 0, start, first, offset as int)->0;
                assert(done + made.0 =~= made.0);
                assert(outs + made.1 =~= made.1);
            }
        }
        let mut l: usize = 0;
        while l < count
            invariant
                l <= count,
                count == self.layers@.len(),
                slots == layer_ids@.len(),
                *k == self.kernel,
                self.wf(),
                capturable(layer_ids@, count as int),
                start == layer_views(old(layers)@),
                first == x.rows(),
                start.len() == count,
                layers@.len() == count,
                done.len() == l,
                outs.len() == l,
                forall|j: int| 0 <= j < count ==> (#[trigger] layers@[j])@.wf(),
                forall|j: int| 0 <= j < l ==> (#[trigger] layers@[j])@ == done[j],
                forall|j: int| l <= j < count ==> (#[trigger] layers@[j])@ == start[j],
                rows > 0,
                rows == x.shape@[0],
                cols == x.cols(),
                hidden.is_matrix(),
                hidden.shape@[0] == rows,
                hidden.cols() == cols,
                last_output(first, outs) == hidden.rows(),
                captures@.len() == slots,
                forall|s: int|
                    0 <= s < slots ==> if layer_ids@[s] < l {
                        (#[trigger] captures@[s]) matches Some(capture) && capture.is_matrix() && capture.shape@[0] == rows && capture.cols() == cols
                            && capture.rows() == outs[layer_ids@[s] as int]
                    } else {
                        captures@[s] is None
                    },
                functional(*k) ==> outputs(*self, 0, start, first, offset as int) == prepend_outputs(
                    done,
                    outs,
                    outputs(*self, l as int, start.skip(l as int), hidden.rows(), offset as int),
                ),
            decreases count - l,
        {
            let ghost cur = hidden.rows();
            let ghost before = captures@;
            match forward_prefill(k, &self.config, &self.layers[l], &hidden, &mut layers[l], offset) {
                Ok(next) => {
                    proof {
                        let after = layers@[l as int]@;
                        if functional(*k) {
                            lemma_outputs_step(*self, l as int, start, done, outs, cur, offset as int, after, next.rows());
                        }
                        done = done.push(after);
                        outs = outs.push(next.rows());
                    }
                    hidden = next;
                },
                Err(error) => {
                    proof {
                        if functional(*k) {
                            assert(start.skip(l as int)[0] == start[l as int]);
                            assert(outputs(*self, l as int, start.skip(l as int), cur, offset as int) is None);
                        }
                    }
                    return Err(error);
                },
            }
            capture_layer_output(layer_ids, l, &hidden, &mut captures);
            proof {
                assert forall|s: int| 0 <= s < slots implies if layer_ids@[s] < l + 1 {
                    (#[trigger] captures@[s]) matches Some(capture) && capture.is_matrix() && capture.shape@[0] == rows && capture.cols() == cols
                        && capture.rows() == outs[layer_ids@[s] as int]
                } else {
                    captures@[s] is None
                } by {
                    assert(before[s] is Some || before[s] is None);
                    if layer_ids@[s] == l {
                        assert(captures@[s] is Some);
                        assert((captures@[s]->0).rows() =~= hidden.rows());
                    }
                }
            }
            l = l + 1;
        }
        proof {
            assert(start.skip(count as int).len() == 0);
            assert(done + start.skip(count as int) =~= layer_views(layers@));
            assert(outs + Seq::<Seq<Seq<K::Cell>>>::empty() =~= outs);
            assert forall|s: int| 0 <= s < slots implies ((#[trigger] captures@[s]) matches Some(capture) && capture.is_matrix() && capture.shape@[0]
                == rows && capture.cols() == cols) by {
                assert(layer_ids@[s] < count);
            }
        }
        Ok((hidden, captures))
    }

    /// Takes a batch of tokens through the layers and reads some of them on the way.
    pub fn read_rows_batched(&self, cache: &mut CausalDecoderCache<K::Cell>, tokens: &Vec<usize>, layer_ids: &Vec<usize>) -> (out: Result<(Tensor<K::Cell>, Tensor<K::Cell>), InferError>)
        requires
            self.wf(),
            old(cache)@.wf(),
        ensures
            out matches Err(error) ==> error.is_misfit(self.complete() && capturable(layer_ids@, self.layers@.len() as int)) || (error is Shape && layer_ids@.len() * self.hidden() > usize::MAX),
            final(cache)@.wf(),
            final(cache)@.layers.len() == old(cache)@.layers.len(),
            out matches Ok(out) ==> {
                &&& out.0.is_matrix()
                &&& out.0.shape@[0] == tokens@.len()
                &&& out.0.cols() == self.hidden()
                &&& out.1.is_matrix()
                &&& out.1.shape@[0] == tokens@.len()
                &&& out.1.cols() == layer_ids@.len() * self.hidden()
                &&& final(cache)@.position == old(cache)@.position + tokens@.len()
            },
            tokens@.len() == 0 ==> (out matches Err(error) && error is Dimension),
            tokens@.len() > 0 && layer_ids@.len() == 0 ==> (out matches Err(error) && error is Config),
            functional(self.kernel) ==> match out {
                Ok(out) => read_batch(*self, layer_ids@, old(cache)@, tokens@) == Some((final(cache)@, out.0.rows(), out.1.rows())),
                Err(_) => read_batch(*self, layer_ids@, old(cache)@, tokens@) is None,
            },
    {
        let n: usize = tokens.len();
        if n == 0 {
            return Err(InferError::Dimension("batch without tokens"));
        }
        validate_capture_layer_ids(layer_ids, self.layers.len())?;
        if cache.layers.len() != self.layers.len() {
            return Err(InferError::Dimension("cache and decoder differ in layers"));
        }
        let offset: usize = cache.position;
        let after: usize = match offset.checked_add(n) {
            Some(after) => after,
            None => {
                return Err(InferError::Dimension("position leaves the machine's range"));
            },
        };
        let ghost ids = layer_ids@;
        proof {
            lemma_layers_wf(*cache);
        }
        let x: Tensor<K::Cell> = self.embed_scaled(tokens)?;
        let (rows, cols) = x.as_matrix()?;
        let ghost xs = x.rows();
        let ghost views = cache@.layers;
        let (hidden, captures) = self.run_layers_captured(&mut cache.layers, x, offset, layer_ids)?;
        cache.position = after;
        proof {
            assert forall|slot: int| 0 <= slot < captures@.len() implies ((#[trigger] captures@[slot]) matches Some(capture) ==> capture.is_matrix()) by {
                assert(captures@[slot] is Some);
            }
        }
        let read: Tensor<K::Cell> = concat_layer_captures(&captures, rows, cols)?;
        proof {
            if functional(self.kernel) {
                let outs = (outputs(*self, 0, views, xs, offset as int)->0).1;
                assert forall|r: int| 0 <= r < n implies (#[trigger] read.rows()[r]) == captured_row(outs, ids, r) by {
                    let a = Seq::new(captures@.len(), |slot: int| (captures@[slot]->0).rows()[r]);
                    let b = Seq::new(ids.len(), |slot: int| outs[ids[slot] as int][r]);
                    assert(a =~= b);
                }
                assert(read.rows() =~= captured_rows(outs, ids, n as int));
            }
        }
        Ok((hidden, read))
    }
}

} // verus!
