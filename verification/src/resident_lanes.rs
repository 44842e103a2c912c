//! Several tokens on a device, one token after the other.

use vstd::prelude::*;
use crate::batching::{layer_fold, lemma_fold_is_steps, lemma_layer_nothing, lemma_layer_step, lemma_steps_position, sized};
use crate::device::{law_run_concat, lemma_elsewhere, lemma_elsewhere_at, lemma_elsewhere_chain, lemma_elsewhere_start, lemma_run_copy, lemma_run_push, run, run_one, same_elsewhere, spot, Command, Memory, NormWeight, Place, ResidentLayerKind, Spot};
use crate::kernel::Kernel;
use crate::kv::LayerView;
use crate::layer::{layer_row, norm_of, norm_rows};
use crate::model::{embed_row, steps, CacheView, DecoderModel};
use crate::resident_decode::turn;
use crate::resident_fold::{capture_slot, capture_spot, fold_to, lemma_capture_slot, lemma_fold_grows, lemma_fold_on, lemma_fold_to, lemma_fold_whole, rest_same, rows_hold};

verus! {

/// The row of a token that a layer puts out, put aside where the layer is chosen.
pub open spec fn lane_capture<C>(ids: Seq<usize>, layer: int, from: Spot, token: int) -> Seq<Command<C>> {
    match capture_slot(ids, layer, 0) {
        Some(slot) => seq![Command::Copy { from, to: capture_spot(slot, token) }],
        None => Seq::empty(),
    }
}

/// One token through the first layers, in two places that take turns.
pub open spec fn lanes<C>(kinds: Seq<ResidentLayerKind>, ids: Seq<usize>, position: int, a: Place, b: Place, token: int, l: int) -> Seq<Command<C>>
    decreases l,
{
    if l <= 0 {
        Seq::empty()
    } else {
        let to = spot(turn(a, b, l), 0);
        lanes(kinds, ids, position, a, b, token, l - 1).push(
            Command::Layer {
                layer: (l - 1) as usize,
                kind: kinds[l - 1],
                position: position as usize,
                from: spot(turn(a, b, l - 1), 0),
                to,
            },
        ) + lane_capture(ids, l - 1, to, token)
    }
}

/// One row through a layer.
proof fn lemma_one_row<K: Kernel>(m: DecoderModel<K>, layer: int, view: LayerView<K::Cell>, x: Seq<K::Cell>, position: int)
    requires
        m.layers@[layer].attention is Linear ==> m.config.linear_sizes() is Some,
    ensures
        layer_fold(m.kernel, m.config, m.layers@[layer], view, seq![x], position) == match layer_row(
            m.kernel,
            m.config,
            m.layers@[layer],
            view,
            x,
            position,
        ) {
            Some((after, y)) => Some((after, seq![y])),
            None => None,
        },
{
    let none = Seq::<Seq<K::Cell>>::empty();
    lemma_layer_nothing(m.kernel, m.config, m.layers@[layer], view, position);
    lemma_layer_step(m.kernel, m.config, m.layers@[layer], view, none, x, position);
    assert(none.push(x) =~= seq![x]);
    let one = layer_row(m.kernel, m.config, m.layers@[layer], view, x, position);
    if one is Some {
        assert(none.push((one->0).1) =~= seq![(one->0).1]);
    }
}

/// Places that one token uses.
pub open spec fn lane_places(a: Place, b: Place, token: int) -> Set<Place> {
    Set::new(|place: Place| place == a || place == b || (place matches Place::Captured { slot: _, token: t } && t == token))
}

/// The rows of the chosen ones of the first layers, for one token, were put aside.
#[verifier::opaque]
pub open spec fn lane_captured<K: Kernel>(m: DecoderModel<K>, left: Memory<K::Cell>, start: Seq<LayerView<K::Cell>>, x: Seq<K::Cell>, position: int, ids: Seq<usize>, token: int, l: int) -> bool {
    forall|j: int|
        0 <= j < l ==> ((#[trigger] capture_slot(ids, j, 0)) matches Some(slot) ==> left.rows.contains_key(capture_spot(slot, token))
            && left.rows[capture_spot(slot, token)] == (fold_to(m, j + 1, start, seq![x], position)->0).1[0])
}

/// What the first layers leave of one token.
pub open spec fn lane_reached<K: Kernel>(m: DecoderModel<K>, mem: Memory<K::Cell>, left: Memory<K::Cell>, ids: Seq<usize>, x: Seq<K::Cell>, position: int, a: Place, b: Place, token: int, l: int) -> bool {
    let start = mem.layers;
    let (done, ys) = fold_to(m, l, start, seq![x], position)->0;
    &&& left.layers == done + start.skip(l)
    &&& left.rows.contains_key(spot(turn(a, b, l), 0))
    &&& left.rows[spot(turn(a, b, l), 0)] == ys[0]
    &&& left.kept == mem.kept
    &&& rest_same(mem, left)
    &&& lane_captured(m, left, start, x, position, ids, token, l)
    &&& same_elsewhere(mem, left, lane_places(a, b, token))
}

proof fn lemma_lane_captured_on<K: Kernel>(
    m: DecoderModel<K>,
    before: Memory<K::Cell>,
    mid: Memory<K::Cell>,
    left: Memory<K::Cell>,
    start: Seq<LayerView<K::Cell>>,
    x: Seq<K::Cell>,
    y: Seq<K::Cell>,
    position: int,
    ids: Seq<usize>,
    token: int,
    to: Spot,
    l: int,
)
    requires
        0 <= l,
        ids.len() <= usize::MAX,
        lane_captured(m, before, start, x, position, ids, token, l),
        y == (fold_to(m, l + 1, start, seq![x], position)->0).1[0],
        !(to.place is Captured),
        mid.rows == before.rows.insert(to, y),
        left.rows == match capture_slot(ids, l, 0) {
            Some(slot) => mid.rows.insert(capture_spot(slot, token), y),
            None => mid.rows,
        },
    ensures
        lane_captured(m, left, start, x, position, ids, token, l + 1),
{
    reveal(lane_captured);
    assert forall|j: int| 0 <= j < l + 1 implies ((#[trigger] capture_slot(ids, j, 0)) matches Some(slot) ==> left.rows.contains_key(
        capture_spot(slot, token),
    ) && left.rows[capture_spot(slot, token)] == (fold_to(m, j + 1, start, seq![x], position)->0).1[0]) by {
        lemma_capture_slot(ids, j, 0);
        lemma_capture_slot(ids, l, 0);
        if j < l && capture_slot(ids, j, 0) is Some {
            let slot = capture_slot(ids, j, 0)->0;
            assert(before.rows.contains_key(capture_spot(slot, token)));
            if capture_slot(ids, l, 0) is Some {
                let other = capture_slot(ids, l, 0)->0;
                assert((slot as usize) as int == slot && (other as usize) as int == other);
            }
        }
    }
}

/// What one more layer leaves of one token.
proof fn lemma_lane_on<K: Kernel>(
    m: DecoderModel<K>,
    mem: Memory<K::Cell>,
    before: Memory<K::Cell>,
    kind: ResidentLayerKind,
    ids: Seq<usize>,
    x: Seq<K::Cell>,
    position: int,
    a: Place,
    b: Place,
    token: int,
    l: int,
)
    requires
        a != b,
        !(a is Captured),
        !(b is Captured),
        0 <= l < mem.layers.len(),
        mem.layers.len() <= usize::MAX,
        0 <= position <= usize::MAX,
        0 <= token <= usize::MAX,
        ids.len() <= usize::MAX,
        m.layers@[l].attention is Linear ==> m.config.linear_sizes() is Some,
        fold_to(m, l, mem.layers, seq![x], position) is Some,
        lane_reached(m, mem, before, ids, x, position, a, b, token, l),
    ensures
        ({
            let to = spot(turn(a, b, l + 1), 0);
            let command = Command::<K::Cell>::Layer { layer: l as usize, kind, position: position as usize, from: spot(turn(a, b, l), 0), to };
            match fold_to(m, l + 1, mem.layers, seq![x], position) {
                Some(_) => run_one(m, before, command) matches Some(mid) && (run(m, mid, lane_capture(ids, l, to, token)) matches Some(left)
                    && lane_reached(m, mem, left, ids, x, position, a, b, token, l + 1)),
                None => run_one(m, before, command) is None,
            }
        }),
{
    let start = mem.layers;
    let from = spot(turn(a, b, l), 0);
    let to = spot(turn(a, b, l + 1), 0);
    let command = Command::<K::Cell>::Layer { layer: l as usize, kind, position: position as usize, from, to };
    let aside = lane_capture::<K::Cell>(ids, l, to, token);
    lemma_fold_to(m, l, start, seq![x], position);
    lemma_fold_on(m, l, start, seq![x], position);
    let (done, ys) = fold_to(m, l, start, seq![x], position)->0;
    assert(before.layers[l] == start[l]);
    assert(ys =~= seq![ys[0]]);
    lemma_one_row(m, l, start[l], ys[0], position);
    let one = layer_row(m.kernel, m.config, m.layers@[l], start[l], ys[0], position);
    if one is Some {
        let (after, y) = one->0;
        let mid = Memory { layers: before.layers.update(l, after), ..before.with_row(to, y) };
        assert(run_one(m, before, command) == Some(mid));
        let left = match capture_slot(ids, l, 0) {
            Some(slot) => mid.with_row(capture_spot(slot, token), y),
            None => mid,
        };
        assert(run(m, mid, aside) == Some(left)) by {
            if capture_slot(ids, l, 0) is Some {
                lemma_run_copy(m, mid, to, capture_spot(capture_slot(ids, l, 0)->0, token));
            }
        }
        lemma_lane_left(m, mem, before, mid, left, ids, x, y, after, position, a, b, token, l);
    }
}

proof fn lemma_lane_left<K: Kernel>(
    m: DecoderModel<K>,
    mem: Memory<K::Cell>,
    before: Memory<K::Cell>,
    mid: Memory<K::Cell>,
    left: Memory<K::Cell>,
    ids: Seq<usize>,
    x: Seq<K::Cell>,
    y: Seq<K::Cell>,
    after: LayerView<K::Cell>,
    position: int,
    a: Place,
    b: Place,
    token: int,
    l: int,
)
    requires
        a != b,
        !(a is Captured),
        !(b is Captured),
        0 <= l < mem.layers.len(),
        0 <= token <= usize::MAX,
        ids.len() <= usize::MAX,
        fold_to(m, l, mem.layers, seq![x], position) is Some,
        (fold_to(m, l, mem.layers, seq![x], position)->0).0.len() == l,
        fold_to(m, l + 1, mem.layers, seq![x], position) == Some(
            ((fold_to(m, l, mem.layers, seq![x], position)->0).0.push(after), seq![y]),
        ),
        lane_reached(m, mem, before, ids, x, position, a, b, token, l),
        mid == (Memory { layers: before.layers.update(l, after), ..before.with_row(spot(turn(a, b, l + 1), 0), y) }),
        left == match capture_slot(ids, l, 0) {
            Some(slot) => mid.with_row(capture_spot(slot, token), y),
            None => mid,
        },
    ensures
        lane_reached(m, mem, left, ids, x, position, a, b, token, l + 1),
{
    let start = mem.layers;
    let changed = lane_places(a, b, token);
    let to = spot(turn(a, b, l + 1), 0);
    let done = (fold_to(m, l, mem.layers, seq![x], position)->0).0;
    lemma_elsewhere(mem, before, mid, changed, to, y);
    if capture_slot(ids, l, 0) is Some {
        lemma_elsewhere(mem, mid, left, changed, capture_spot(capture_slot(ids, l, 0)->0, token), y);
    }
    lemma_lane_captured_on(m, before, mid, left, start, x, y, position, ids, token, to, l);
    assert(left.layers =~= done.push(after) + start.skip(l + 1));
}

/// One token goes through the layers as the layers would take it.
pub proof fn lemma_lanes<K: Kernel>(
    m: DecoderModel<K>,
    mem: Memory<K::Cell>,
    kinds: Seq<ResidentLayerKind>,
    ids: Seq<usize>,
    x: Seq<K::Cell>,
    position: int,
    a: Place,
    b: Place,
    token: int,
    l: int,
)
    requires
        a != b,
        !(a is Captured),
        !(b is Captured),
        0 <= l <= mem.layers.len(),
        mem.layers.len() == m.layers@.len(),
        m.layers@.len() <= usize::MAX,
        sized(m),
        0 <= position <= usize::MAX,
        0 <= token <= usize::MAX,
        ids.len() <= usize::MAX,
        mem.rows.contains_key(spot(a, 0)),
        mem.rows[spot(a, 0)] == x,
    ensures
        match fold_to(m, l, mem.layers, seq![x], position) {
            Some(_) => run(m, mem, lanes(kinds, ids, position, a, b, token, l)) matches Some(left) && lane_reached(
                m,
                mem,
                left,
                ids,
                x,
                position,
                a,
                b,
                token,
                l,
            ),
            None => run(m, mem, lanes(kinds, ids, position, a, b, token, l)) is None,
        },
    decreases l,
{
    let start = mem.layers;
    if l == 0 {
        assert(Seq::<LayerView<K::Cell>>::empty() + start.skip(0) =~= start);
        reveal(lane_captured);
        lemma_fold_on(m, 0, start, seq![x], position);
        lemma_elsewhere_start(mem, lane_places(a, b, token));
    } else {
        lemma_lanes(m, mem, kinds, ids, x, position, a, b, token, l - 1);
        lemma_fold_grows(m, l - 1, start, seq![x], position);
        let head = lanes::<K::Cell>(kinds, ids, position, a, b, token, l - 1);
        let to = spot(turn(a, b, l), 0);
        let command = Command::<K::Cell>::Layer {
            layer: (l - 1) as usize,
            kind: kinds[l - 1],
            position: position as usize,
            from: spot(turn(a, b, l - 1), 0),
            to,
        };
        lemma_run_push(m, mem, head, command);
        law_run_concat(m, mem, head.push(command), lane_capture::<K::Cell>(ids, l - 1, to, token));
        if fold_to(m, l - 1, start, seq![x], position) is Some {
            lemma_lane_on(m, mem, run(m, mem, head)->0, kinds[l - 1], ids, x, position, a, b, token, l - 1);
        }
    }
}

/// One token through all layers and normed, and its state put with the others.
pub open spec fn token_part<K: Kernel>(m: DecoderModel<K>, kinds: Seq<ResidentLayerKind>, ids: Seq<usize>, position: int, token: int) -> Seq<Command<K::Cell>> {
    let a = Place::Input(token as usize);
    let n = kinds.len() as int;
    lanes(kinds, ids, position + token, a, Place::HiddenB, token, n).push(
        Command::Norm { weight: NormWeight::Final, from: spot(turn(a, Place::HiddenB, n), 0), to: spot(Place::FinalNormed, 0) },
    ).push(Command::Copy { from: spot(Place::FinalNormed, 0), to: spot(Place::FinalStates, token) })
}

/// The first tokens, one after the other.
pub open spec fn token_parts<K: Kernel>(m: DecoderModel<K>, kinds: Seq<ResidentLayerKind>, ids: Seq<usize>, position: int, t: int) -> Seq<Command<K::Cell>>
    decreases t,
{
    if t <= 0 {
        Seq::empty()
    } else {
        token_parts(m, kinds, ids, position, t - 1) + token_part(m, kinds, ids, position, t - 1)
    }
}

/// One token through the decoder, layer by layer.
proof fn lemma_one_step<K: Kernel>(m: DecoderModel<K>, cache: CacheView<K::Cell>, token: usize)
    requires
        m.fits(cache),
        sized(m),
        0 <= cache.position < usize::MAX,
        embed_row(m, token) is Some,
    ensures
        crate::model::step(m, cache, token) == match fold_to(m, m.layers@.len() as int, cache.layers, seq![embed_row(m, token)->0], cache.position) {
            Some((layers, ys)) => match norm_of(m.kernel, ys[0], m.final_norm, m.config.rms_eps) {
                Some(state) => Some((CacheView { layers, position: cache.position + 1 }, state)),
                None => None,
            },
            None => None,
        },
{
    let one = seq![token];
    let x = embed_row(m, token)->0;
    let n = m.layers@.len() as int;
    lemma_fold_is_steps(m, cache, one);
    crate::resident_decode::lemma_one_embedding(m, token);
    lemma_fold_whole(m, cache.layers, seq![x], cache.position);
    lemma_fold_to(m, n, cache.layers, seq![x], cache.position);
    assert(one.drop_last() =~= Seq::empty());
    assert(one.last() == token);
    reveal_with_fuel(steps, 2);
    let stepped = crate::model::step(m, cache, token);
    if fold_to(m, n, cache.layers, seq![x], cache.position) is Some {
        let (layers, ys) = fold_to(m, n, cache.layers, seq![x], cache.position)->0;
        let normed = norm_rows(m.kernel, ys, m.final_norm, m.config.rms_eps);
        assert(norm_of(m.kernel, ys[0], m.final_norm, m.config.rms_eps) is Some ==> normed is Some);
        if normed is Some {
            assert(normed->0 =~= seq![norm_of(m.kernel, ys[0], m.final_norm, m.config.rms_eps)->0]);
            assert(Seq::<Seq<K::Cell>>::empty().push((stepped->0).1)[0] == (stepped->0).1);
        }
    }
}

/// What is on the device once one token is through.
pub open spec fn token_reached<K: Kernel>(m: DecoderModel<K>, mem: Memory<K::Cell>, left: Memory<K::Cell>, ids: Seq<usize>, x: Seq<K::Cell>, position: int, token: int, layers: Seq<LayerView<K::Cell>>, state: Seq<K::Cell>) -> bool {
    &&& left.layers == layers
    &&& left.rows.contains_key(spot(Place::FinalStates, token))
    &&& left.rows[spot(Place::FinalStates, token)] == state
    &&& left.kept == mem.kept
    &&& rest_same(mem, left)
    &&& lane_captured(m, left, mem.layers, x, position, ids, token, m.layers@.len() as int)
    &&& forall|r: int|
        0 <= r < token ==> (#[trigger] left.rows.contains_key(spot(Place::FinalStates, r))) == mem.rows.contains_key(spot(Place::FinalStates, r)) && (
        mem.rows.contains_key(spot(Place::FinalStates, r)) ==> left.rows[spot(Place::FinalStates, r)] == mem.rows[spot(Place::FinalStates, r)])
    &&& same_elsewhere(mem, left, token_places(token))
}

/// Places that one token uses.
pub open spec fn token_places(token: int) -> Set<Place> {
    Set::new(
        |place: Place|
            place == Place::Input(token as usize) || place == Place::HiddenB || place == Place::FinalNormed || place == Place::FinalStates || (
            place matches Place::Captured { slot: _, token: t } && t == token),
    )
}

/// One token leaves what it leaves alone.
proof fn lemma_token_part<K: Kernel>(
    m: DecoderModel<K>,
    mem: Memory<K::Cell>,
    cache: CacheView<K::Cell>,
    kinds: Seq<ResidentLayerKind>,
    ids: Seq<usize>,
    id: usize,
    base: int,
    token: int,
)
    requires
        m.fits(cache),
        sized(m),
        kinds.len() == m.layers@.len(),
        m.layers@.len() <= usize::MAX,
        0 <= token < usize::MAX,
        0 <= base,
        cache.position == base + token,
        cache.position < usize::MAX,
        ids.len() <= usize::MAX,
        mem.layers == cache.layers,
        embed_row(m, id) is Some,
        mem.rows.contains_key(spot(Place::Input(token as usize), 0)),
        mem.rows[spot(Place::Input(token as usize), 0)] == embed_row(m, id)->0,
    ensures
        match crate::model::step(m, cache, id) {
            Some((after, state)) => {
                &&& run(m, mem, token_part(m, kinds, ids, base, token)) matches Some(left)
                &&& m.fits(after)
                &&& token_reached(m, mem, left, ids, embed_row(m, id)->0, cache.position, token, after.layers, state)
            },
            None => run(m, mem, token_part(m, kinds, ids, base, token)) is None,
        },
{
    let x = embed_row(m, id)->0;
    let n = kinds.len() as int;
    let a = Place::Input(token as usize);
    let last = spot(turn(a, Place::HiddenB, n), 0);
    let normed = spot(Place::FinalNormed, 0);
    let to = spot(Place::FinalStates, token);
    let head = lanes::<K::Cell>(kinds, ids, cache.position, a, Place::HiddenB, token, n);
    let norm = Command::<K::Cell>::Norm { weight: NormWeight::Final, from: last, to: normed };
    let copy = Command::<K::Cell>::Copy { from: normed, to };
    lemma_one_step(m, cache, id);
    lemma_fold_to(m, n, cache.layers, seq![x], cache.position);
    lemma_lanes(m, mem, kinds, ids, x, cache.position, a, Place::HiddenB, token, n);
    lemma_run_push(m, mem, head, norm);
    lemma_run_push(m, mem, head.push(norm), copy);
    if fold_to(m, n, cache.layers, seq![x], cache.position) is Some {
        let (layers, ys) = fold_to(m, n, cache.layers, seq![x], cache.position)->0;
        let before = run(m, mem, head)->0;
        assert(layers + cache.layers.skip(n) =~= layers);
        let state = norm_of(m.kernel, ys[0], m.final_norm, m.config.rms_eps);
        if state is Some {
            let mid = before.with_row(normed, state->0);
            assert(run_one(m, before, norm) == Some(mid));
            let left = mid.with_row(to, state->0);
            assert(run_one(m, mid, copy) == Some(left));
            lemma_token_left(m, mem, before, mid, left, ids, x, cache.position, token, state->0);
        }
    }
}

proof fn lemma_token_left<K: Kernel>(
    m: DecoderModel<K>,
    mem: Memory<K::Cell>,
    before: Memory<K::Cell>,
    mid: Memory<K::Cell>,
    left: Memory<K::Cell>,
    ids: Seq<usize>,
    x: Seq<K::Cell>,
    position: int,
    token: int,
    state: Seq<K::Cell>,
)
    requires
        0 <= token < usize::MAX,
        before.kept == mem.kept,
        rest_same(mem, before),
        lane_captured(m, before, mem.layers, x, position, ids, token, m.layers@.len() as int),
        same_elsewhere(mem, before, lane_places(Place::Input(token as usize), Place::HiddenB, token)),
        mid == before.with_row(spot(Place::FinalNormed, 0), state),
        left == mid.with_row(spot(Place::FinalStates, token), state),
    ensures
        token_reached(m, mem, left, ids, x, position, token, before.layers, state),
{
    let all = token_places(token);
    let some = lane_places(Place::Input(token as usize), Place::HiddenB, token);
    assert(same_elsewhere(mem, before, all)) by {
        lemma_elsewhere_start(before, all);
        lemma_elsewhere_chain(mem, before, before, some, all);
        assert(some.union(all) =~= all);
    }
    lemma_elsewhere(mem, before, mid, all, spot(Place::FinalNormed, 0), state);
    lemma_elsewhere(mem, mid, left, all, spot(Place::FinalStates, token), state);
    assert(lane_captured(m, left, mem.layers, x, position, ids, token, m.layers@.len() as int)) by {
        reveal(lane_captured);
    }
    assert forall|r: int| 0 <= r < token implies (#[trigger] left.rows.contains_key(spot(Place::FinalStates, r))) == mem.rows.contains_key(
        spot(Place::FinalStates, r),
    ) && (mem.rows.contains_key(spot(Place::FinalStates, r)) ==> left.rows[spot(Place::FinalStates, r)] == mem.rows[spot(Place::FinalStates, r)]) by {
        lemma_elsewhere_at(mem, before, some, spot(Place::FinalStates, r));
        assert(spot(Place::FinalStates, r).row == r);
        assert(spot(Place::FinalStates, token).row == token);
    }
}

/// The rows of the chosen layers were put aside for each of the first tokens.
#[verifier::opaque]
pub open spec fn lanes_captured<K: Kernel>(m: DecoderModel<K>, left: Memory<K::Cell>, cache: CacheView<K::Cell>, tokens: Seq<usize>, ids: Seq<usize>, t: int) -> bool {
    forall|r: int|
        0 <= r < t ==> #[trigger] lane_captured(
            m,
            left,
            (steps(m, cache, tokens.take(r))->0).0.layers,
            embed_row(m, tokens[r])->0,
            cache.position + r,
            ids,
            r,
            m.layers@.len() as int,
        )
}

/// Places that the first tokens use.
pub open spec fn used_places(t: int) -> Set<Place> {
    Set::new(
        |place: Place|
            place == Place::HiddenB || place == Place::FinalNormed || place == Place::FinalStates || (place matches Place::Input(r) && r < t) || (
            place matches Place::Captured { slot: _, token: r } && r < t),
    )
}

/// What is on the device once the first tokens are through.
pub open spec fn tokens_reached<K: Kernel>(m: DecoderModel<K>, mem: Memory<K::Cell>, left: Memory<K::Cell>, cache: CacheView<K::Cell>, tokens: Seq<usize>, ids: Seq<usize>, t: int) -> bool {
    let (after, states) = steps(m, cache, tokens.take(t))->0;
    &&& m.fits(after)
    &&& left.layers == after.layers
    &&& rows_hold(left, Place::FinalStates, states)
    &&& left.kept == mem.kept
    &&& rest_same(mem, left)
    &&& lanes_captured(m, left, cache, tokens, ids, t)
    &&& same_elsewhere(mem, left, used_places(t))
}

proof fn lemma_tokens_on<K: Kernel>(
    m: DecoderModel<K>,
    mem: Memory<K::Cell>,
    before: Memory<K::Cell>,
    left: Memory<K::Cell>,
    cache: CacheView<K::Cell>,
    tokens: Seq<usize>,
    ids: Seq<usize>,
    t: int,
)
    requires
        0 <= t < tokens.len(),
        tokens.len() <= usize::MAX,
        cache.position <= usize::MAX,
        ids.len() <= usize::MAX,
        steps(m, cache, tokens.take(t)) is Some,
        steps(m, cache, tokens.take(t + 1)) is Some,
        tokens_reached(m, mem, before, cache, tokens, ids, t),
        m.fits((steps(m, cache, tokens.take(t + 1))->0).0),
        (steps(m, cache, tokens.take(t + 1))->0).1.len() == t + 1,
        (steps(m, cache, tokens.take(t))->0).1 == (steps(m, cache, tokens.take(t + 1))->0).1.drop_last(),
        token_reached(
            m,
            before,
            left,
            ids,
            embed_row(m, tokens[t])->0,
            cache.position + t,
            t,
            (steps(m, cache, tokens.take(t + 1))->0).0.layers,
            (steps(m, cache, tokens.take(t + 1))->0).1.last(),
        ),
    ensures
        tokens_reached(m, mem, left, cache, tokens, ids, t + 1),
{
    let (after, states) = steps(m, cache, tokens.take(t + 1))->0;
    let fewer = (steps(m, cache, tokens.take(t))->0).1;
    assert(rows_hold(left, Place::FinalStates, states)) by {
        assert forall|r: int| 0 <= r < states.len() implies left.rows.contains_key(#[trigger] spot(Place::FinalStates, r)) && left.rows[spot(
            Place::FinalStates,
            r,
        )] == states[r] by {
            if r < t {
                assert(before.rows.contains_key(spot(Place::FinalStates, r)));
                assert(fewer[r] == states[r]);
                assert(left.rows.contains_key(spot(Place::FinalStates, r)) == before.rows.contains_key(spot(Place::FinalStates, r)));
            }
        }
    }
    assert(same_elsewhere(mem, left, used_places(t + 1))) by {
        lemma_elsewhere_chain(mem, before, left, used_places(t), token_places(t));
        assert(used_places(t).union(token_places(t)) =~= used_places(t + 1));
    }
    reveal(lanes_captured);
    assert forall|r: int| 0 <= r < t + 1 implies #[trigger] lane_captured(
        m,
        left,
        (steps(m, cache, tokens.take(r))->0).0.layers,
        embed_row(m, tokens[r])->0,
        cache.position + r,
        ids,
        r,
        m.layers@.len() as int,
    ) by {
        if r < t {
            let start = (steps(m, cache, tokens.take(r))->0).0.layers;
            let x = embed_row(m, tokens[r])->0;
            assert(lane_captured(m, before, start, x, cache.position + r, ids, r, m.layers@.len() as int));
            lemma_lane_captured_stays(m, before, left, start, x, cache.position + r, ids, r, token_places(t), m.layers@.len() as int);
        }
    }
}

proof fn lemma_lane_captured_stays<K: Kernel>(m: DecoderModel<K>, before: Memory<K::Cell>, left: Memory<K::Cell>, start: Seq<LayerView<K::Cell>>, x: Seq<K::Cell>, position: int, ids: Seq<usize>, token: int, changed: Set<Place>, l: int)
    requires
        0 <= token <= usize::MAX,
        ids.len() <= usize::MAX,
        lane_captured(m, before, start, x, position, ids, token, l),
        same_elsewhere(before, left, changed),
        forall|slot: usize| !(#[trigger] changed.contains(Place::Captured { slot, token: token as usize })),
    ensures
        lane_captured(m, left, start, x, position, ids, token, l),
{
    reveal(lane_captured);
    assert forall|j: int| 0 <= j < l implies ((#[trigger] capture_slot(ids, j, 0)) matches Some(slot) ==> left.rows.contains_key(
        capture_spot(slot, token),
    ) && left.rows[capture_spot(slot, token)] == (fold_to(m, j + 1, start, seq![x], position)->0).1[0]) by {
        if capture_slot(ids, j, 0) is Some {
            let slot = capture_slot(ids, j, 0)->0;
            assert(!changed.contains(Place::Captured { slot: slot as usize, token: token as usize }));
            lemma_elsewhere_at(before, left, changed, capture_spot(slot, token));
        }
    }
}

/// Tokens one after the other leave on the device what they leave in the decoder.
pub proof fn lemma_token_parts<K: Kernel>(
    m: DecoderModel<K>,
    mem: Memory<K::Cell>,
    cache: CacheView<K::Cell>,
    tokens: Seq<usize>,
    kinds: Seq<ResidentLayerKind>,
    ids: Seq<usize>,
    t: int,
)
    requires
        0 <= t <= tokens.len(),
        m.fits(cache),
        sized(m),
        kinds.len() == m.layers@.len(),
        m.layers@.len() <= usize::MAX,
        0 <= cache.position,
        cache.position + tokens.len() <= usize::MAX,
        ids.len() <= usize::MAX,
        mem.layers == cache.layers,
        forall|r: int|
            0 <= r < tokens.len() ==> embed_row(m, #[trigger] tokens[r]) is Some && mem.rows.contains_key(spot(Place::Input(r as usize), 0))
                && mem.rows[spot(Place::Input(r as usize), 0)] == embed_row(m, tokens[r])->0,
    ensures
        match steps(m, cache, tokens.take(t)) {
            Some(_) => run(m, mem, token_parts(m, kinds, ids, cache.position, t)) matches Some(left) && tokens_reached(
                m,
                mem,
                left,
                cache,
                tokens,
                ids,
                t,
            ),
            None => run(m, mem, token_parts(m, kinds, ids, cache.position, t)) is None,
        },
    decreases t,
{
    if t == 0 {
        reveal(lanes_captured);
        lemma_elsewhere_start(mem, used_places(0));
    } else {
        lemma_token_parts(m, mem, cache, tokens, kinds, ids, t - 1);
        let head = token_parts(m, kinds, ids, cache.position, t - 1);
        let part = token_part(m, kinds, ids, cache.position, t - 1);
        law_run_concat(m, mem, head, part);
        assert(tokens.take(t).drop_last() =~= tokens.take(t - 1));
        assert(tokens.take(t).last() == tokens[t - 1]);
        lemma_steps_position(m, cache, tokens.take(t - 1));
        lemma_steps_position(m, cache, tokens.take(t));
        if steps(m, cache, tokens.take(t - 1)) is Some {
            let (at, states) = steps(m, cache, tokens.take(t - 1))->0;
            let before = run(m, mem, head)->0;
            lemma_elsewhere_at(mem, before, used_places(t - 1), spot(Place::Input((t - 1) as usize), 0));
            lemma_token_part(m, before, at, kinds, ids, tokens[t - 1], cache.position, t - 1);
            if crate::model::step(m, at, tokens[t - 1]) is Some {
                let more = (steps(m, cache, tokens.take(t))->0).1;
                assert(more.drop_last() =~= states);
                lemma_tokens_on(m, mem, before, run(m, before, part)->0, cache, tokens, ids, t - 1);
            }
        }
    }
}

/// Rows that were put aside stay where no row changes.
pub proof fn lemma_lanes_stay<K: Kernel>(m: DecoderModel<K>, before: Memory<K::Cell>, left: Memory<K::Cell>, cache: CacheView<K::Cell>, tokens: Seq<usize>, ids: Seq<usize>, t: int)
    requires
        lanes_captured(m, before, cache, tokens, ids, t),
        left.rows == before.rows,
    ensures
        lanes_captured(m, left, cache, tokens, ids, t),
{
    reveal(lanes_captured);
    reveal(lane_captured);
    assert forall|r: int| 0 <= r < t implies #[trigger] lane_captured(
        m,
        left,
        (steps(m, cache, tokens.take(r))->0).0.layers,
        embed_row(m, tokens[r])->0,
        cache.position + r,
        ids,
        r,
        m.layers@.len() as int,
    ) by {
        assert(lane_captured(
            m,
            before,
            (steps(m, cache, tokens.take(r))->0).0.layers,
            embed_row(m, tokens[r])->0,
            cache.position + r,
            ids,
            r,
            m.layers@.len() as int,
        ));
    }
}

} // verus!
