//! Taking back the last of several tokens that went through a decoder on a device.

use vstd::prelude::*;
use crate::batching::{layer_fold, lemma_fold_is_steps, lemma_layer_nothing, lemma_layer_step, sized};
use crate::device::Memory;
use crate::error::InferError;
use crate::kernel::Kernel;
use crate::kv::{law_truncate_twice, law_truncate_undoes_append, LayerView};
use crate::layer::{layer_row, norm_of, AttentionBlock};
use crate::model::{embed_rows, steps, CacheView, DecoderModel};
use crate::resident::{KvRoom, ResidentCache};
use crate::resident_fold::{fold_to, lemma_fold_grows, lemma_fold_on, lemma_fold_prefix, lemma_fold_to, lemma_fold_whole};
use crate::resident_verify::{all_kept, full_where_due, seen_behind};
use crate::warmth::lemma_cached_row_warm;

verus! {

/// A layer that has seen positions, and knows their size.
pub open spec fn has_seen<C>(view: LayerView<C>, count: int) -> bool {
    &&& view.wf()
    &&& view.kv_dim matches Some(dim) && dim > 0
    &&& view.count() == count
}

/// One row through a full layer adds a position, and cutting it takes it back.
proof fn lemma_row_adds<K: Kernel>(m: DecoderModel<K>, layer: int, view: LayerView<K::Cell>, x: Seq<K::Cell>, position: int, count: int)
    requires
        m.layers@[layer].attention is Full,
        has_seen(view, count),
    ensures
        layer_row(m.kernel, m.config, m.layers@[layer], view, x, position) matches Some(made) ==> has_seen(made.0, count + 1)
            && made.0.truncate(count) == view,
{
    let full = m.layers@[layer];
    if layer_row(m.kernel, m.config, full, view, x, position) is Some {
        let normed = norm_of(m.kernel, x, full.input_norm, m.config.rms_eps)->0;
        match full.attention {
            AttentionBlock::Full(attention) => {
                lemma_cached_row_warm(m.kernel, m.config, attention, view, normed, position);
                let row = crate::context::qkv_row(m.kernel, m.config, attention, normed, position)->0;
                row.layout.lemma_kv();
                law_truncate_undoes_append(view, row.key, row.value, view.kv_dim->0);
            },
            AttentionBlock::Linear(_) => {},
        }
    }
}

/// What a full layer has seen behind the first rows is what it has seen behind all rows,
/// cut.
proof fn lemma_full_prefix<K: Kernel>(m: DecoderModel<K>, layer: int, view: LayerView<K::Cell>, xs: Seq<Seq<K::Cell>>, position: int, count: int, fewer: int)
    requires
        m.layers@[layer].attention is Full,
        has_seen(view, count),
        0 <= count,
        0 <= fewer <= xs.len(),
        layer_fold(m.kernel, m.config, m.layers@[layer], view, xs, position) is Some,
    ensures
        layer_fold(m.kernel, m.config, m.layers@[layer], view, xs.take(fewer), position) is Some,
        ({
            let all = (layer_fold(m.kernel, m.config, m.layers@[layer], view, xs, position)->0).0;
            let some = (layer_fold(m.kernel, m.config, m.layers@[layer], view, xs.take(fewer), position)->0).0;
            has_seen(all, count + xs.len()) && all.truncate(count + fewer) == some
        }),
    decreases xs.len(),
{
    let k = m.kernel;
    if xs.len() == 0 {
        assert(xs =~= Seq::empty());
        assert(xs.take(fewer) =~= Seq::empty());
        lemma_layer_nothing(k, m.config, m.layers@[layer], view, position);
        lemma_cut_nothing(view, count);
    } else {
        let last = xs.last();
        let rest = xs.drop_last();
        assert(rest.push(last) =~= xs);
        lemma_layer_step(k, m.config, m.layers@[layer], view, rest, last, position);
        let before = (layer_fold(k, m.config, m.layers@[layer], view, rest, position)->0).0;
        if fewer == xs.len() {
            assert(xs.take(fewer) =~= xs);
            lemma_full_prefix(m, layer, view, rest, position, count, rest.len() as int);
            lemma_row_adds(m, layer, before, last, position + rest.len(), count + rest.len());
            lemma_cut_nothing((layer_fold(k, m.config, m.layers@[layer], view, xs, position)->0).0, count + xs.len());
        } else {
            lemma_full_prefix(m, layer, view, rest, position, count, fewer);
            assert(rest.take(fewer) =~= xs.take(fewer));
            lemma_row_adds(m, layer, before, last, position + rest.len(), count + rest.len());
            let all = (layer_fold(k, m.config, m.layers@[layer], view, xs, position)->0).0;
            law_truncate_twice(all, count + rest.len(), count + fewer);
        }
    }
}

/// Cutting a layer where it ends changes nothing.
proof fn lemma_cut_nothing<C>(view: LayerView<C>, count: int)
    requires
        has_seen(view, count),
    ensures
        view.truncate(count) == view,
{
    assert(view.keys.take(count * (view.kv_dim->0)) =~= view.keys);
    assert(view.values.take(count * (view.kv_dim->0)) =~= view.values);
    assert(view.truncate(count) =~= view);
}

/// What the layers are taken back to: full layers are cut, linear layers get back what was
/// kept behind a row.
pub open spec fn rolled_back<K: Kernel>(m: DecoderModel<K>, mem: Memory<K::Cell>, position: int, row: int) -> Seq<LayerView<K::Cell>> {
    Seq::new(
        m.layers@.len(),
        |i: int|
            if m.config.full_attention_at(i) {
                mem.layers[i].truncate(position)
            } else {
                mem.kept[(i, row)]
            },
    )
}

/// Every full layer has seen the positions so far.
pub open spec fn all_seen<K: Kernel>(m: DecoderModel<K>, cache: CacheView<K::Cell>) -> bool {
    forall|i: int| 0 <= i < m.layers@.len() && m.config.full_attention_at(i) ==> has_seen(#[trigger] cache.layers[i], cache.position)
}

/// What the layers have seen behind rows, one layer at a time.
proof fn lemma_layers_behind<K: Kernel>(m: DecoderModel<K>, cache: CacheView<K::Cell>, tokens: Seq<usize>, j: int)
    requires
        m.fits(cache),
        sized(m),
        0 <= cache.position <= usize::MAX,
        steps(m, cache, tokens) is Some,
        0 <= j < m.layers@.len(),
    ensures
        ({
            let xs = embed_rows(m, tokens)->0;
            let ys = (fold_to(m, j, cache.layers, xs, cache.position)->0).1;
            &&& embed_rows(m, tokens) is Some
            &&& xs.len() == tokens.len()
            &&& fold_to(m, m.layers@.len() as int, cache.layers, xs, cache.position) is Some
            &&& fold_to(m, j, cache.layers, xs, cache.position) is Some
            &&& ys.len() == tokens.len()
            &&& layer_fold(m.kernel, m.config, m.layers@[j], cache.layers[j], ys, cache.position) is Some
            &&& (steps(m, cache, tokens)->0).0.layers.len() == m.layers@.len()
            &&& (steps(m, cache, tokens)->0).0.layers[j] == (layer_fold(
                m.kernel,
                m.config,
                m.layers@[j],
                cache.layers[j],
                ys,
                cache.position,
            )->0).0
        }),
{
    let n = m.layers@.len() as int;
    let xs = embed_rows(m, tokens)->0;
    lemma_fold_is_steps(m, cache, tokens);
    lemma_fold_whole(m, cache.layers, xs, cache.position);
    lemma_fold_to(m, n, cache.layers, xs, cache.position);
    lemma_fold_back(m, cache.layers, xs, cache.position, n, j + 1);
    lemma_fold_grows(m, j, cache.layers, xs, cache.position);
    lemma_fold_on(m, j, cache.layers, xs, cache.position);
    lemma_fold_prefix(m, n, cache.layers, xs, cache.position, xs.len() as int);
    assert(xs.take(xs.len() as int) =~= xs);
    let ys = (fold_to(m, j, cache.layers, xs, cache.position)->0).1;
    assert(ys.take(xs.len() as int) =~= ys);
}

/// Rows that got through more layers got through fewer.
proof fn lemma_fold_back<K: Kernel>(m: DecoderModel<K>, start: Seq<LayerView<K::Cell>>, xs: Seq<Seq<K::Cell>>, position: int, more: int, fewer: int)
    requires
        0 <= fewer <= more <= start.len(),
        fold_to(m, more, start, xs, position) is Some,
    ensures
        fold_to(m, fewer, start, xs, position) is Some,
    decreases more,
{
    if fewer < more {
        lemma_fold_grows(m, more - 1, start, xs, position);
        lemma_fold_back(m, start, xs, position, more - 1, fewer);
    }
}

/// Once the last of several tokens are taken back, the layers are as they were behind the
/// tokens before them.
#[verifier::spinoff_prover]
#[verifier::rlimit(50)]
pub proof fn law_rolled_back<K: Kernel>(m: DecoderModel<K>, mem: Memory<K::Cell>, cache: CacheView<K::Cell>, tokens: Seq<usize>, kept: int, row: int)
    requires
        m.fits(cache),
        sized(m),
        full_where_due(m),
        0 <= cache.position <= usize::MAX,
        all_seen(m, cache),
        steps(m, cache, tokens) is Some,
        0 <= row < kept,
        kept <= tokens.len(),
        mem.layers == (steps(m, cache, tokens)->0).0.layers,
        all_kept(m, mem, cache.layers, embed_rows(m, tokens)->0, cache.position, kept, m.layers@.len() as int),
    ensures
        steps(m, cache, tokens.take(row + 1)) is Some,
        rolled_back(m, mem, cache.position + row + 1, row) == (steps(m, cache, tokens.take(row + 1))->0).0.layers,
{
    let n = m.layers@.len() as int;
    let fewer = tokens.take(row + 1);
    let position = cache.position;
    crate::exactness::lemma_steps_prefix(m, cache, tokens, row + 1);
    lemma_fold_is_steps(m, cache, fewer);
    lemma_fold_is_steps(m, cache, tokens);
    let xs = embed_rows(m, tokens)->0;
    assert(embed_rows(m, fewer)->0 =~= xs.take(row + 1));
    lemma_fold_whole(m, cache.layers, xs.take(row + 1), position);
    lemma_fold_whole(m, cache.layers, xs, position);
    lemma_fold_to(m, n, cache.layers, xs.take(row + 1), position);
    lemma_fold_prefix(m, n, cache.layers, xs, position, row + 1);
    let done = (fold_to(m, n, cache.layers, xs.take(row + 1), position)->0).0;
    assert((steps(m, cache, fewer)->0).0.layers == done);
    let back = rolled_back(m, mem, position + row + 1, row);
    assert forall|j: int| 0 <= j < n implies back[j] == done[j] by {
        lemma_layers_behind(m, cache, tokens, j);
        let ys = (fold_to(m, j, cache.layers, xs, position)->0).1;
        if m.config.full_attention_at(j) {
            assert(m.layers@[j].attention is Full);
            assert(has_seen(cache.layers[j], position));
            lemma_full_prefix(m, j, cache.layers[j], ys, position, position, row + 1);
        } else {
            reveal(all_kept);
            assert(mem.kept.contains_key((j, row)));
            assert(mem.kept[(j, row)] == seen_behind(m, cache.layers, xs, position, j, row));
        }
    }
    assert(back =~= done);
}

/// The rows of linear layers that a check of several tokens kept.
pub struct ResidentVerifyCaptures {
    /// Positions that were seen before the check.
    pub base_position: usize,
    /// For each layer, how many rows were kept; nothing where the layer keeps none.
    pub linear: Vec<Option<usize>>,
}

/// The first of the rooms cut to a length.
pub open spec fn cut_first(rooms: Seq<Option<KvRoom>>, count: int, len: int) -> Seq<Option<KvRoom>> {
    Seq::new(
        rooms.len(),
        |i: int|
            match rooms[i] {
                Some(room) => Some(KvRoom { len: if i < count { len as usize } else { room.len }, ..room }),
                None => None,
            },
    )
}

/// A room that holds fewer positions.
pub open spec fn is_short(room: Option<KvRoom>, len: int) -> bool {
    room matches Some(room) && room.len < len
}

/// A layer is there and has a state of its recurrence, and a row of it was kept.
pub open spec fn is_kept<C>(layers: Seq<LayerView<C>>, linear: Seq<Option<usize>>, layer: int, row: int) -> bool {
    &&& 0 <= layer < layers.len()
    &&& layer < linear.len()
    &&& layers[layer].recurrent.len() > 0
    &&& linear[layer] matches Some(rows) && row < rows
}

/// The first layers whose row was kept.
pub open spec fn kept_at<C>(layers: Seq<LayerView<C>>, linear: Seq<Option<usize>>, count: int, row: int) -> Seq<usize>
    decreases count,
{
    if count <= 0 {
        Seq::empty()
    } else {
        let before = kept_at(layers, linear, count - 1, row);
        if is_kept(layers, linear, count - 1, row) {
            before.push((count - 1) as usize)
        } else {
            before
        }
    }
}

/// Every layer whose row was kept is among them, and no other.
pub proof fn law_kept_at<C>(layers: Seq<LayerView<C>>, linear: Seq<Option<usize>>, count: int, row: int, layer: usize)
    requires
        0 <= count <= usize::MAX,
    ensures
        kept_at(layers, linear, count, row).contains(layer) <==> layer < count && is_kept(layers, linear, layer as int, row),
    decreases count,
{
    if count > 0 {
        law_kept_at(layers, linear, count - 1, row, layer);
        let before = kept_at(layers, linear, count - 1, row);
        let all = kept_at(layers, linear, count, row);
        if is_kept(layers, linear, count - 1, row) {
            assert(all.last() == (count - 1) as usize);
            if before.contains(layer) {
                assert(all[before.index_of(layer)] == layer);
            }
            if all.contains(layer) && layer != count - 1 {
                assert(before[all.index_of(layer)] == layer);
            }
        }
    }
}

impl<K: Kernel> DecoderModel<K> {
    /// Takes back all but the first tokens of a check: the position and the rooms of the
    /// layers are cut, and the layers with a state come back whose state behind the last
    /// token that stays is to be put back. Refused where no token stays or a room is too short.
    pub fn restore_mtp_resident_progress(&self, device: bool, cache: &mut ResidentCache<K::Cell>, captures: &ResidentVerifyCaptures, accepted_len: usize) -> (out: Result<
        Vec<usize>,
        InferError,
    >)
        ensures
            final(cache).arena == old(cache).arena,
            final(cache).cache.layers == old(cache).cache.layers,
            out matches Err(error) ==> error is Dimension,
            ({
                let position = captures.base_position + accepted_len;
                if accepted_len == 0 || position > usize::MAX {
                    out is Err && *final(cache) == *old(cache)
                } else {
                    &&& final(cache).cache.position == position
                    &&& out is Ok <==> forall|i: int| 0 <= i < old(cache).rooms@.len() ==> !is_short(#[trigger] old(cache).rooms@[i], position)
                    &&& out matches Ok(layers) ==> {
                        &&& final(cache).rooms@ == cut_first(old(cache).rooms@, old(cache).rooms@.len() as int, position)
                        &&& layers@ == if device {
                            kept_at(old(cache).cache@.layers, captures.linear@, captures.linear@.len() as int, accepted_len - 1)
                        } else {
                            Seq::empty()
                        }
                    }
                    &&& out is Err ==> exists|i: int| {
                        &&& 0 <= i < old(cache).rooms@.len()
                        &&& is_short(#[trigger] old(cache).rooms@[i], position)
                        &&& forall|j: int| 0 <= j < i ==> !is_short(#[trigger] old(cache).rooms@[j], position)
                        &&& final(cache).rooms@ == cut_first(old(cache).rooms@, i, position)
                    }
                }
            }),
    {
        if accepted_len == 0 {
            return Err(InferError::Dimension("no token to go back to"));
        }
        let row: usize = accepted_len - 1;
        let position: usize = match captures.base_position.checked_add(accepted_len) {
            Some(position) => position,
            None => {
                return Err(InferError::Dimension("position leaves the machine's range"));
            },
        };
        let ghost rooms = cache.rooms@;
        cache.cache.position = position;
        let count: usize = cache.rooms.len();
        assert(cut_first(rooms, 0, position as int) =~= rooms);
        for i in 0..count
            invariant
                count == rooms.len(),
                rooms == old(cache).rooms@,
                position == captures.base_position + accepted_len,
                accepted_len > 0,
                cache.arena == old(cache).arena,
                cache.cache.layers == old(cache).cache.layers,
                cache.cache.position == position,
                cache.rooms@ == cut_first(rooms, i as int, position as int),
                forall|j: int| 0 <= j < i ==> !is_short(#[trigger] rooms[j], position as int),
        {
            if let Some(room) = cache.rooms[i] {
                assert(rooms[i as int] == Some(room));
                if room.len < position {
                    assert(is_short(rooms[i as int], position as int));
                    return Err(InferError::Dimension("cut is longer than the room holds"));
                }
                cache.rooms.set(i, Some(KvRoom { len: position, ..room }));
            }
            assert(cache.rooms@ =~= cut_first(rooms, i + 1, position as int));
        }
        let mut layers: Vec<usize> = Vec::new();
        if device {
            let n: usize = captures.linear.len();
            for i in 0..n
                invariant
                    n == captures.linear@.len(),
                    cache.cache.layers == old(cache).cache.layers,
                    layers@ == kept_at(old(cache).cache@.layers, captures.linear@, i as int, row as int),
            {
                assert(cache.cache@.layers =~= old(cache).cache@.layers);
                let stands: bool = i < cache.cache.layers.len() && cache.cache.layers[i].recurrent.len() > 0;
                if let Some(rows) = captures.linear[i] {
                    if stands && row < rows {
                        layers.push(i);
                    }
                }
            }
        }
        Ok(layers)
    }
}

} // verus!
