//! Several tokens at once on a device, one layer after the other.

use vstd::prelude::*;
use crate::batching::{layer_fold, layers_fold, lemma_layer_fold_len, lemma_layer_nothing, lemma_layer_step};
use crate::device::{keep, lemma_elsewhere, lemma_elsewhere_at, lemma_elsewhere_rows, lemma_elsewhere_start, lemma_run_push, run, run_one, same_elsewhere, spot, Command, Memory, Place, ResidentLayerKind, Spot};
use crate::kernel::Kernel;
use crate::kv::LayerView;
use crate::layer::layer_row;
use crate::model::{prepend_rows, DecoderModel};

verus! {

/// Rows through the first layers: what these layers have seen then, and the rows they put
/// out.
#[verifier::opaque]
pub open spec fn fold_to<K: Kernel>(m: DecoderModel<K>, l: int, start: Seq<LayerView<K::Cell>>, xs: Seq<Seq<K::Cell>>, position: int) -> Option<
    (Seq<LayerView<K::Cell>>, Seq<Seq<K::Cell>>),
>
    decreases l,
{
    if l <= 0 {
        Some((Seq::empty(), xs))
    } else {
        match fold_to(m, l - 1, start, xs, position) {
            Some((done, ys)) => match layer_fold(m.kernel, m.config, m.layers@[l - 1], start[l - 1], ys, position) {
                Some((after, outs)) => Some((done.push(after), outs)),
                None => None,
            },
            None => None,
        }
    }
}

/// Rows through the first layers, and then through the others, are rows through all.
pub proof fn lemma_fold_to<K: Kernel>(m: DecoderModel<K>, l: int, start: Seq<LayerView<K::Cell>>, xs: Seq<Seq<K::Cell>>, position: int)
    requires
        0 <= l <= start.len(),
    ensures
        layers_fold(m, 0, start, xs, position) == match fold_to(m, l, start, xs, position) {
            Some((done, ys)) => prepend_rows(done, layers_fold(m, l, start.skip(l), ys, position)),
            None => None,
        },
        fold_to(m, l, start, xs, position) matches Some((done, ys)) ==> done.len() == l && ys.len() == xs.len(),
    decreases l,
{
    reveal(fold_to);
    if l == 0 {
        assert(start.skip(0) =~= start);
        let whole = layers_fold(m, 0, start, xs, position);
        if whole is Some {
            assert(Seq::<LayerView<K::Cell>>::empty() + (whole->0).0 =~= (whole->0).0);
        }
    } else {
        lemma_fold_to(m, l - 1, start, xs, position);
        if fold_to(m, l - 1, start, xs, position) is Some {
            let (done, ys) = fold_to(m, l - 1, start, xs, position)->0;
            assert(start.skip(l - 1)[0] == start[l - 1]);
            assert(start.skip(l - 1).drop_first() =~= start.skip(l));
            lemma_layer_fold_len(m.kernel, m.config, m.layers@[l - 1], start[l - 1], ys, position);
            if layer_fold(m.kernel, m.config, m.layers@[l - 1], start[l - 1], ys, position) is Some {
                let (after, outs) = layer_fold(m.kernel, m.config, m.layers@[l - 1], start[l - 1], ys, position)->0;
                let deeper = layers_fold(m, l, start.skip(l), outs, position);
                if deeper is Some {
                    assert(done + (seq![after] + (deeper->0).0) =~= done.push(after) + (deeper->0).0);
                }
            }
        }
    }
}

/// One more layer.
pub proof fn lemma_fold_on<K: Kernel>(m: DecoderModel<K>, l: int, start: Seq<LayerView<K::Cell>>, xs: Seq<Seq<K::Cell>>, position: int)
    requires
        0 <= l,
    ensures
        l == 0 ==> fold_to(m, l, start, xs, position) == Some((Seq::<LayerView<K::Cell>>::empty(), xs)),
        fold_to(m, l + 1, start, xs, position) == match fold_to(m, l, start, xs, position) {
            Some((done, ys)) => match layer_fold(m.kernel, m.config, m.layers@[l], start[l], ys, position) {
                Some((after, outs)) => Some((done.push(after), outs)),
                None => None,
            },
            None => None,
        },
{
    reveal(fold_to);
}

/// Rows that got through more layers got through fewer.
pub proof fn lemma_fold_grows<K: Kernel>(m: DecoderModel<K>, l: int, start: Seq<LayerView<K::Cell>>, xs: Seq<Seq<K::Cell>>, position: int)
    requires
        0 <= l < start.len(),
    ensures
        fold_to(m, l + 1, start, xs, position) matches Some((more, outs)) ==> {
            &&& fold_to(m, l, start, xs, position) matches Some((done, ys))
            &&& done.len() == l
            &&& ys.len() == xs.len()
            &&& outs.len() == xs.len()
            &&& more == done.push(more[l])
        },
{
    lemma_fold_on(m, l, start, xs, position);
    lemma_fold_to(m, l, start, xs, position);
    lemma_fold_to(m, l + 1, start, xs, position);
}

/// Rows through all layers, built up from the first layer.
pub proof fn lemma_fold_whole<K: Kernel>(m: DecoderModel<K>, start: Seq<LayerView<K::Cell>>, xs: Seq<Seq<K::Cell>>, position: int)
    ensures
        layers_fold(m, 0, start, xs, position) == fold_to(m, start.len() as int, start, xs, position),
{
    lemma_fold_to(m, start.len() as int, start, xs, position);
    let none = start.skip(start.len() as int);
    assert(none.len() == 0);
    if fold_to(m, start.len() as int, start, xs, position) is Some {
        let (done, ys) = fold_to(m, start.len() as int, start, xs, position)->0;
        assert(done + none =~= done);
    }
}

/// Fewer rows through a layer give the first of what more rows give.
pub proof fn lemma_layer_prefix<K: Kernel>(m: DecoderModel<K>, layer: int, view: LayerView<K::Cell>, xs: Seq<Seq<K::Cell>>, position: int, count: int)
    requires
        0 <= count <= xs.len(),
        layer_fold(m.kernel, m.config, m.layers@[layer], view, xs, position) is Some,
    ensures
        layer_fold(m.kernel, m.config, m.layers@[layer], view, xs.take(count), position) matches Some(made) && made.1 == (layer_fold(
            m.kernel,
            m.config,
            m.layers@[layer],
            view,
            xs,
            position,
        )->0).1.take(count),
    decreases xs.len(),
{
    lemma_layer_fold_len(m.kernel, m.config, m.layers@[layer], view, xs, position);
    let whole = layer_fold(m.kernel, m.config, m.layers@[layer], view, xs, position)->0;
    if count == xs.len() {
        assert(xs.take(count) =~= xs);
        assert(whole.1.take(count) =~= whole.1);
    } else {
        let fewer = xs.drop_last();
        assert(fewer.push(xs.last()) =~= xs);
        lemma_layer_step(m.kernel, m.config, m.layers@[layer], view, fewer, xs.last(), position);
        lemma_layer_fold_len(m.kernel, m.config, m.layers@[layer], view, fewer, position);
        lemma_layer_prefix(m, layer, view, fewer, position, count);
        assert(fewer.take(count) =~= xs.take(count));
        let before = layer_fold(m.kernel, m.config, m.layers@[layer], view, fewer, position)->0;
        assert(before.1.take(count) =~= whole.1.take(count));
    }
}

/// Fewer rows through the layers give the first of what more rows give, and leave a layer
/// as it was behind the last of them.
pub proof fn lemma_fold_prefix<K: Kernel>(m: DecoderModel<K>, l: int, start: Seq<LayerView<K::Cell>>, xs: Seq<Seq<K::Cell>>, position: int, count: int)
    requires
        0 <= l <= start.len(),
        0 <= count <= xs.len(),
        fold_to(m, l, start, xs, position) is Some,
    ensures
        ({
            let fewer = fold_to(m, l, start, xs.take(count), position);
            &&& fewer is Some
            &&& (fewer->0).0.len() == l
            &&& (fewer->0).1 == (fold_to(m, l, start, xs, position)->0).1.take(count)
            &&& forall|j: int|
                0 <= j < l ==> #[trigger] (fewer->0).0[j] == (layer_fold(
                    m.kernel,
                    m.config,
                    m.layers@[j],
                    start[j],
                    (fold_to(m, j, start, xs, position)->0).1.take(count),
                    position,
                )->0).0
        }),
    decreases l,
{
    reveal(fold_to);
    if l > 0 {
        lemma_fold_prefix(m, l - 1, start, xs, position, count);
        lemma_fold_to(m, l - 1, start, xs, position);
        let ys = (fold_to(m, l - 1, start, xs, position)->0).1;
        lemma_layer_prefix(m, l - 1, start[l - 1], ys, position, count);
    }
}

/// A place holds these rows.
pub open spec fn rows_hold<C>(mem: Memory<C>, place: Place, rows: Seq<Seq<C>>) -> bool {
    forall|r: int| 0 <= r < rows.len() ==> mem.rows.contains_key(#[trigger] spot(place, r)) && mem.rows[spot(place, r)] == rows[r]
}

/// All but rows, layers and what was kept is the same.
pub open spec fn rest_same<C>(mem: Memory<C>, after: Memory<C>) -> bool {
    &&& after.tokens == mem.tokens
    &&& after.head == mem.head
    &&& after.logits == mem.logits
    &&& after.named == mem.named
}

/// Rows through a full layer, each on its own.
pub open spec fn in_rows<C>(layer: int, kind: ResidentLayerKind, position: int, from: Place, to: Place, rows: int) -> Seq<Command<C>>
    decreases rows,
{
    if rows <= 0 {
        Seq::empty()
    } else {
        in_rows(layer, kind, position, from, to, rows - 1).push(Command::Copy { from: spot(from, rows - 1), to: spot(Place::RowIn, 0) }).push(
            Command::Layer {
                layer: layer as usize,
                kind,
                position: (position + rows - 1) as usize,
                from: spot(Place::RowIn, 0),
                to: spot(Place::RowOut, 0),
            },
        ).push(Command::Copy { from: spot(Place::RowOut, 0), to: spot(to, rows - 1) })
    }
}

/// A place that neither the rows of a full layer nor the rows of a batch take is free.
pub open spec fn two_places(from: Place, to: Place) -> bool {
    from != to && from != Place::RowIn && from != Place::RowOut && to != Place::RowIn && to != Place::RowOut
}

/// Rows one by one through a full layer give what the layer gives.
pub proof fn lemma_in_rows<K: Kernel>(
    m: DecoderModel<K>,
    mem: Memory<K::Cell>,
    layer: int,
    kind: ResidentLayerKind,
    position: int,
    from: Place,
    to: Place,
    xs: Seq<Seq<K::Cell>>,
    j: int,
)
    requires
        0 <= j <= xs.len(),
        0 <= layer < mem.layers.len(),
        mem.layers.len() <= usize::MAX,
        0 <= position,
        position + xs.len() <= usize::MAX,
        two_places(from, to),
        rows_hold(mem, from, xs),
        m.layers@[layer].attention is Full,
    ensures
        match layer_fold(m.kernel, m.config, m.layers@[layer], mem.layers[layer], xs.take(j), position) {
            Some((after, ys)) => {
                &&& run(m, mem, in_rows(layer, kind, position, from, to, j)) matches Some(left)
                &&& left.layers == mem.layers.update(layer, after)
                &&& left.kept == mem.kept
                &&& rows_hold(left, to, ys)
                &&& rest_same(mem, left)
                &&& same_elsewhere(mem, left, set![to, Place::RowIn, Place::RowOut])
            },
            None => run(m, mem, in_rows(layer, kind, position, from, to, j)) is None,
        },
    decreases j,
{
    let changed = set![to, Place::RowIn, Place::RowOut];
    let view = mem.layers[layer];
    if j == 0 {
        assert(xs.take(0) =~= Seq::empty());
        lemma_layer_nothing(m.kernel, m.config, m.layers@[layer], view, position);
        assert(mem.layers.update(layer, view) =~= mem.layers);
        lemma_elsewhere_start(mem, changed);
    } else {
        lemma_in_rows(m, mem, layer, kind, position, from, to, xs, j - 1);
        let head = in_rows::<K::Cell>(layer, kind, position, from, to, j - 1);
        let row_in = spot(Place::RowIn, 0);
        let row_out = spot(Place::RowOut, 0);
        let first = Command::<K::Cell>::Copy { from: spot(from, j - 1), to: row_in };
        let second = Command::<K::Cell>::Layer { layer: layer as usize, kind, position: (position + j - 1) as usize, from: row_in, to: row_out };
        let third = Command::<K::Cell>::Copy { from: row_out, to: spot(to, j - 1) };
        lemma_run_push(m, mem, head, first);
        lemma_run_push(m, mem, head.push(first), second);
        lemma_run_push(m, mem, head.push(first).push(second), third);
        assert(xs.take(j - 1).push(xs[j - 1]) =~= xs.take(j));
        lemma_layer_step(m.kernel, m.config, m.layers@[layer], view, xs.take(j - 1), xs[j - 1], position);
        lemma_layer_fold_len(m.kernel, m.config, m.layers@[layer], view, xs.take(j - 1), position);
        if layer_fold(m.kernel, m.config, m.layers@[layer], view, xs.take(j - 1), position) is Some {
            let (before, ys) = layer_fold(m.kernel, m.config, m.layers@[layer], view, xs.take(j - 1), position)->0;
            let left = run(m, mem, head)->0;
            lemma_elsewhere_at(mem, left, changed, spot(from, j - 1));
            let copied = left.with_row(row_in, xs[j - 1]);
            assert(run(m, mem, head.push(first)) == Some(copied));
            lemma_elsewhere(mem, left, copied, changed, row_in, xs[j - 1]);
            let one = layer_row(m.kernel, m.config, m.layers@[layer], before, xs[j - 1], position + j - 1);
            if one is Some {
                let (after, y) = one->0;
                let through = run(m, mem, head.push(first).push(second))->0;
                lemma_elsewhere(mem, copied, through, changed, row_out, y);
                let done = through.with_row(spot(to, j - 1), y);
                lemma_elsewhere(mem, through, done, changed, spot(to, j - 1), y);
                assert(done.layers =~= mem.layers.update(layer, after));
                assert forall|r: int| 0 <= r < ys.push(y).len() implies done.rows.contains_key(#[trigger] spot(to, r)) && done.rows[spot(to, r)]
                    == ys.push(y)[r] by {
                    if r < j - 1 {
                        assert(left.rows.contains_key(spot(to, r)));
                        assert(spot(to, r).row == r);
                        assert(spot(to, j - 1).row == j - 1);
                    }
                }
            }
        }
    }
}

/// Rows through a layer.
pub open spec fn layer_part<C>(full: bool, layer: int, kind: ResidentLayerKind, position: int, from: Place, to: Place, rows: int, kept: int) -> Seq<Command<C>> {
    if full {
        in_rows(layer, kind, position, from, to, rows)
    } else {
        seq![
            Command::LayerRows {
                layer: layer as usize,
                kind,
                position: position as usize,
                rows: rows as usize,
                from,
                to,
                kept: kept as usize,
            },
        ]
    }
}

pub proof fn lemma_layer_part<K: Kernel>(
    m: DecoderModel<K>,
    mem: Memory<K::Cell>,
    full: bool,
    layer: int,
    kind: ResidentLayerKind,
    position: int,
    from: Place,
    to: Place,
    xs: Seq<Seq<K::Cell>>,
    kept: int,
)
    requires
        0 <= layer < mem.layers.len(),
        mem.layers.len() <= usize::MAX,
        0 <= position,
        position + xs.len() <= usize::MAX,
        0 <= kept <= xs.len(),
        two_places(from, to),
        rows_hold(mem, from, xs),
        full ==> m.layers@[layer].attention is Full,
    ensures
        match layer_fold(m.kernel, m.config, m.layers@[layer], mem.layers[layer], xs, position) {
            Some((after, ys)) => {
                &&& run(m, mem, layer_part(full, layer, kind, position, from, to, xs.len() as int, kept)) matches Some(left)
                &&& left.layers == mem.layers.update(layer, after)
                &&& left.kept == if full {
                    mem.kept
                } else {
                    keep(m, mem, layer, xs, position, kept)
                }
                &&& rows_hold(left, to, ys)
                &&& rest_same(mem, left)
                &&& same_elsewhere(mem, left, set![to, Place::RowIn, Place::RowOut])
            },
            None => run(m, mem, layer_part(full, layer, kind, position, from, to, xs.len() as int, kept)) is None,
        },
{
    if full {
        lemma_in_rows(m, mem, layer, kind, position, from, to, xs, xs.len() as int);
        assert(xs.take(xs.len() as int) =~= xs);
    } else {
        let command = Command::<K::Cell>::LayerRows {
            layer: layer as usize,
            kind,
            position: position as usize,
            rows: xs.len() as usize,
            from,
            to,
            kept: kept as usize,
        };
        let part = layer_part::<K::Cell>(full, layer, kind, position, from, to, xs.len() as int, kept);
        assert(part =~= Seq::empty().push(command));
        lemma_run_push(m, mem, Seq::empty(), command);
        lemma_rows_at_once(m, mem, command, xs);
    }
}

/// Rows through a layer at once.
proof fn lemma_rows_at_once<K: Kernel>(m: DecoderModel<K>, mem: Memory<K::Cell>, command: Command<K::Cell>, xs: Seq<Seq<K::Cell>>)
    requires
        xs.len() <= usize::MAX,
        command is LayerRows,
        command->LayerRows_rows == xs.len(),
        command->LayerRows_layer < mem.layers.len(),
        rows_hold(mem, command->LayerRows_from, xs),
    ensures
        ({
            let layer = command->LayerRows_layer as int;
            let position = command->LayerRows_position as int;
            let to = command->LayerRows_to;
            match layer_fold(m.kernel, m.config, m.layers@[layer], mem.layers[layer], xs, position) {
                Some((after, ys)) => {
                    &&& run_one(m, mem, command) matches Some(left)
                    &&& left.layers == mem.layers.update(layer, after)
                    &&& left.kept == keep(m, mem, layer, xs, position, command->LayerRows_kept as int)
                    &&& rows_hold(left, to, ys)
                    &&& rest_same(mem, left)
                    &&& same_elsewhere(mem, left, set![to, Place::RowIn, Place::RowOut])
                },
                None => run_one(m, mem, command) is None,
            }
        }),
{
    let layer = command->LayerRows_layer as int;
    let position = command->LayerRows_position as int;
    let from = command->LayerRows_from;
    let to = command->LayerRows_to;
    assert(mem.first_rows(from, xs.len() as int) =~= xs) by {
        assert forall|r: int| 0 <= r < xs.len() implies mem.first_rows(from, xs.len() as int)[r] == xs[r] by {
            assert(mem.rows.contains_key(spot(from, r)));
        }
    }
    assert(mem.has_rows(from, xs.len() as int)) by {
        assert forall|r: int| 0 <= r < xs.len() implies #[trigger] mem.rows.contains_key(spot(from, r)) by {}
    }
    lemma_layer_fold_len(m.kernel, m.config, m.layers@[layer], mem.layers[layer], xs, position);
    let made = layer_fold(m.kernel, m.config, m.layers@[layer], mem.layers[layer], xs, position);
    if made is Some {
        let ys = (made->0).1;
        let left = run_one(m, mem, command)->0;
        assert(left.rows == mem.with_rows(to, ys).rows);
        lemma_elsewhere_rows(mem, left, set![to, Place::RowIn, Place::RowOut], to, ys);
        assert(rows_hold(left, to, ys)) by {
            assert forall|r: int| 0 <= r < ys.len() implies left.rows.contains_key(#[trigger] spot(to, r)) && left.rows[spot(to, r)] == ys[r] by {
                assert(spot(to, r).row == r);
            }
        }
    }
}

/// Rows through the next layer: a full layer takes them one by one, unless it is to take
/// them at once; what a linear layer has seen is kept.
pub open spec fn next_part<C>(full: bool, at_once: bool, layer: int, kind: ResidentLayerKind, position: int, from: Place, to: Place, rows: int, kept: int) -> Seq<
    Command<C>,
> {
    layer_part(
        full && !at_once,
        layer,
        kind,
        position,
        from,
        to,
        rows,
        if full {
            0
        } else {
            kept
        },
    )
}

/// Rows that got through the first layers go through the next.
pub proof fn lemma_next_part<K: Kernel>(
    m: DecoderModel<K>,
    mem: Memory<K::Cell>,
    start: Seq<LayerView<K::Cell>>,
    l: int,
    kind: ResidentLayerKind,
    position: int,
    from: Place,
    to: Place,
    xs: Seq<Seq<K::Cell>>,
    kept: int,
    at_once: bool,
)
    requires
        0 <= l < start.len(),
        mem.layers.len() == start.len(),
        mem.layers[l] == start[l],
        start.len() <= usize::MAX,
        0 <= position,
        position + xs.len() <= usize::MAX,
        0 <= kept <= xs.len(),
        two_places(from, to),
        fold_to(m, l, start, xs, position) is Some,
        rows_hold(mem, from, (fold_to(m, l, start, xs, position)->0).1),
        m.config.full_attention_at(l) ==> m.layers@[l].attention is Full,
    ensures
        ({
            let full = m.config.full_attention_at(l);
            let part = next_part(full, at_once, l, kind, position, from, to, xs.len() as int, kept);
            match fold_to(m, l + 1, start, xs, position) {
                Some((more, outs)) => {
                    &&& run(m, mem, part) matches Some(left)
                    &&& left.layers == mem.layers.update(l, more[l])
                    &&& left.kept == if full {
                        mem.kept
                    } else {
                        keep(m, mem, l, (fold_to(m, l, start, xs, position)->0).1, position, kept)
                    }
                    &&& rows_hold(left, to, outs)
                    &&& rest_same(mem, left)
                    &&& same_elsewhere(mem, left, set![to, Place::RowIn, Place::RowOut])
                },
                None => run(m, mem, part) is None,
            }
        }),
{
    lemma_fold_on(m, l, start, xs, position);
    lemma_fold_to(m, l, start, xs, position);
    let full = m.config.full_attention_at(l);
    let ys = (fold_to(m, l, start, xs, position)->0).1;
    if full {
        lemma_layer_part(m, mem, !at_once, l, kind, position, from, to, ys, 0);
        assert(keep(m, mem, l, ys, position, 0) =~= mem.kept);
    } else {
        lemma_layer_part(m, mem, false, l, kind, position, from, to, ys, kept);
    }
}

/// Where the rows of a layer are put, where the layer is chosen.
pub open spec fn capture_slot(ids: Seq<usize>, layer: int, from: int) -> Option<int>
    decreases ids.len() - from,
{
    if from < 0 || from >= ids.len() {
        None
    } else if ids[from] == layer {
        Some(from)
    } else {
        capture_slot(ids, layer, from + 1)
    }
}

pub proof fn lemma_capture_slot(ids: Seq<usize>, layer: int, from: int)
    ensures
        capture_slot(ids, layer, from) matches Some(slot) ==> 0 <= slot < ids.len() && ids[slot] == layer,
    decreases ids.len() - from,
{
    if 0 <= from < ids.len() && ids[from] != layer {
        lemma_capture_slot(ids, layer, from + 1);
    }
}

/// Where the row of a chosen layer is put.
pub open spec fn capture_spot(slot: int, token: int) -> Spot {
    spot(Place::Captured { slot: slot as usize, token: token as usize }, 0)
}

/// The rows of a layer put aside, where the layer is chosen.
pub open spec fn capture_part<C>(ids: Seq<usize>, layer: int, from: Place, rows: int) -> Seq<Command<C>> {
    match capture_slot(ids, layer, 0) {
        Some(slot) => Seq::new(rows as nat, |r: int| Command::Copy { from: spot(from, r), to: capture_spot(slot, r) }),
        None => Seq::empty(),
    }
}

/// The rows that were put aside.
pub open spec fn captured<C>(mem: Memory<C>, slot: int, rows: Seq<Seq<C>>) -> bool {
    forall|r: int|
        0 <= r < rows.len() ==> mem.rows.contains_key(#[trigger] capture_spot(slot, r)) && mem.rows[capture_spot(slot, r)] == rows[r]
}

/// Places of the rows of a layer that were put aside.
pub open spec fn capture_places(slot: int) -> Set<Place> {
    Set::new(|place: Place| place matches Place::Captured { slot: s, token: _ } && s == slot)
}

proof fn lemma_copies<K: Kernel>(m: DecoderModel<K>, mem: Memory<K::Cell>, slot: int, from: Place, ys: Seq<Seq<K::Cell>>, j: int)
    requires
        0 <= j <= ys.len(),
        ys.len() <= usize::MAX,
        0 <= slot <= usize::MAX,
        rows_hold(mem, from, ys),
        !(from is Captured),
    ensures
        ({
            let copies = Seq::new(j as nat, |r: int| Command::<K::Cell>::Copy { from: spot(from, r), to: capture_spot(slot, r) });
            &&& run(m, mem, copies) matches Some(left)
            &&& left.layers == mem.layers
            &&& left.kept == mem.kept
            &&& rest_same(mem, left)
            &&& captured(left, slot, ys.take(j))
            &&& same_elsewhere(mem, left, capture_places(slot))
        }),
    decreases j,
{
    let copies = Seq::new(j as nat, |r: int| Command::<K::Cell>::Copy { from: spot(from, r), to: capture_spot(slot, r) });
    if j == 0 {
        lemma_elsewhere_start(mem, capture_places(slot));
        assert(run(m, mem, copies) == Some(mem));
    } else {
        lemma_copies(m, mem, slot, from, ys, j - 1);
        let fewer = Seq::new((j - 1) as nat, |r: int| Command::<K::Cell>::Copy { from: spot(from, r), to: capture_spot(slot, r) });
        assert(copies.drop_last() =~= fewer);
        let before = run(m, mem, fewer)->0;
        lemma_elsewhere_at(mem, before, capture_places(slot), spot(from, j - 1));
        assert(mem.rows.contains_key(spot(from, j - 1)));
        let left = before.with_row(capture_spot(slot, j - 1), ys[j - 1]);
        assert(run(m, mem, copies) == Some(left));
        lemma_elsewhere(mem, before, left, capture_places(slot), capture_spot(slot, j - 1), ys[j - 1]);
        assert forall|r: int| 0 <= r < ys.take(j).len() implies left.rows.contains_key(#[trigger] capture_spot(slot, r)) && left.rows[capture_spot(
            slot,
            r,
        )] == ys.take(j)[r] by {
            if r < j - 1 {
                assert(before.rows.contains_key(capture_spot(slot, r)));
                assert(before.rows[capture_spot(slot, r)] == ys.take(j - 1)[r]);
                assert((r as usize) as int == r);
                assert(((j - 1) as usize) as int == j - 1);
            }
        }
    }
}

/// The rows of a layer are put aside where the layer is chosen, and else nothing happens.
pub proof fn lemma_capture_part<K: Kernel>(m: DecoderModel<K>, mem: Memory<K::Cell>, ids: Seq<usize>, layer: int, from: Place, ys: Seq<Seq<K::Cell>>)
    requires
        ys.len() <= usize::MAX,
        ids.len() <= usize::MAX,
        rows_hold(mem, from, ys),
        !(from is Captured),
    ensures
        ({
            &&& run(m, mem, capture_part(ids, layer, from, ys.len() as int)) matches Some(left)
            &&& left.layers == mem.layers
            &&& left.kept == mem.kept
            &&& rest_same(mem, left)
            &&& match capture_slot(ids, layer, 0) {
                Some(slot) => captured(left, slot, ys) && same_elsewhere(mem, left, capture_places(slot)),
                None => left == mem,
            }
        }),
{
    lemma_capture_slot(ids, layer, 0);
    match capture_slot(ids, layer, 0) {
        Some(slot) => {
            lemma_copies(m, mem, slot, from, ys, ys.len() as int);
            assert(ys.take(ys.len() as int) =~= ys);
        },
        None => {},
    }
}

} // verus!
