//! Tokens that are taken through a decoder on a device all at once, so that the token
//! behind each of them can be told.

use vstd::prelude::*;
use crate::batching::{layer_fold, lemma_fold_is_steps, lemma_steps_position, sized};
use crate::device::{keep, law_run_concat, lemma_elsewhere_at, lemma_elsewhere_rows, lemma_run_push, run, run_one, same_elsewhere, spot, Command, Memory, NormWeight, OutputMap, Place, ResidentLayerKind, Slot, Spot, TokenPlace};
use crate::error::{Fault, InferError};
use crate::kernel::{device_token_of, functional, DeviceRoute, Kernel, SamplingParams};
use crate::kv::LayerView;
use crate::layer::norm_rows;
use crate::linear::FeedForward;
use crate::model::{embed_row, embed_rows, steps, CacheView, DecoderModel};
use crate::resident::{has_room_for, ResidentArena, ResidentCache};
use crate::resident_decode::{all_stand, best_choice, best_params, linear_fault, moved_on, take_turns, turn, ResidentView};
use crate::resident_fold::{capture_part, capture_places, capture_slot, capture_spot, captured, fold_to, in_rows, lemma_capture_part, lemma_capture_slot, lemma_fold_grows, lemma_fold_on, lemma_fold_to, lemma_fold_whole, lemma_next_part, next_part, rest_same, rows_hold};
use crate::resident_lanes::{lanes, lanes_captured, lemma_lanes_stay, lemma_token_parts, token_parts};
use crate::tensor::Tensor;

verus! {

/// Rows through the first layers, the rows of the chosen layers put aside.
pub open spec fn through<K: Kernel>(m: DecoderModel<K>, at_once: bool, kinds: Seq<ResidentLayerKind>, ids: Seq<usize>, position: int, rows: int, kept: int, l: int) -> Seq<Command<K::Cell>>
    decreases l,
{
    if l <= 0 {
        Seq::empty()
    } else {
        let from = turn(Place::BatchA, Place::BatchB, l - 1);
        let to = turn(Place::BatchA, Place::BatchB, l);
        through(m, at_once, kinds, ids, position, rows, kept, l - 1) + next_part(
            m.config.full_attention_at(l - 1),
            at_once,
            l - 1,
            kinds[l - 1],
            position,
            from,
            to,
            rows,
            kept,
        ) + capture_part(ids, l - 1, to, rows)
    }
}

/// What a layer had seen behind one of the rows.
pub open spec fn seen_behind<K: Kernel>(m: DecoderModel<K>, start: Seq<LayerView<K::Cell>>, xs: Seq<Seq<K::Cell>>, position: int, layer: int, row: int) -> LayerView<K::Cell> {
    (layer_fold(m.kernel, m.config, m.layers@[layer], start[layer], (fold_to(m, layer, start, xs, position)->0).1.take(row + 1), position)->0).0
}

/// The rows of the chosen ones of the first layers were put aside.
#[verifier::opaque]
pub open spec fn all_captured<K: Kernel>(m: DecoderModel<K>, left: Memory<K::Cell>, start: Seq<LayerView<K::Cell>>, xs: Seq<Seq<K::Cell>>, position: int, ids: Seq<usize>, l: int) -> bool {
    forall|j: int|
        0 <= j < l ==> ((#[trigger] capture_slot(ids, j, 0)) matches Some(slot) ==> captured(
            left,
            slot,
            (fold_to(m, j + 1, start, xs, position)->0).1,
        ))
}

/// What the linear ones of the first layers had seen behind the first rows was kept.
#[verifier::opaque]
pub open spec fn all_kept<K: Kernel>(m: DecoderModel<K>, left: Memory<K::Cell>, start: Seq<LayerView<K::Cell>>, xs: Seq<Seq<K::Cell>>, position: int, kept: int, l: int) -> bool {
    forall|j: int, r: int|
        0 <= j < l && !m.config.full_attention_at(j) && 0 <= r < kept ==> (#[trigger] left.kept.contains_key((j, r))) && left.kept[(j, r)]
            == seen_behind(m, start, xs, position, j, r)
}

/// Full layers have full attention.
pub open spec fn full_where_due<K: Kernel>(m: DecoderModel<K>) -> bool {
    forall|i: int| 0 <= i < m.layers@.len() && m.config.full_attention_at(i) ==> (#[trigger] m.layers@[i]).attention is Full
}

proof fn lemma_captured_stays<C>(before: Memory<C>, after: Memory<C>, changed: Set<Place>, slot: int, rows: Seq<Seq<C>>)
    requires
        captured(before, slot, rows),
        same_elsewhere(before, after, changed),
        forall|token: usize| !(#[trigger] changed.contains(Place::Captured { slot: slot as usize, token })),
    ensures
        captured(after, slot, rows),
{
    assert forall|r: int| 0 <= r < rows.len() implies after.rows.contains_key(#[trigger] capture_spot(slot, r)) && after.rows[capture_spot(slot, r)]
        == rows[r] by {
        assert(before.rows.contains_key(capture_spot(slot, r)));
        assert(!changed.contains(Place::Captured { slot: slot as usize, token: r as usize }));
        lemma_elsewhere_at(before, after, changed, capture_spot(slot, r));
    }
}

proof fn lemma_rows_stay<C>(before: Memory<C>, after: Memory<C>, changed: Set<Place>, place: Place, rows: Seq<Seq<C>>)
    requires
        rows_hold(before, place, rows),
        same_elsewhere(before, after, changed),
        !changed.contains(place),
    ensures
        rows_hold(after, place, rows),
{
    assert forall|r: int| 0 <= r < rows.len() implies after.rows.contains_key(#[trigger] spot(place, r)) && after.rows[spot(place, r)] == rows[r] by {
        assert(before.rows.contains_key(spot(place, r)));
        lemma_elsewhere_at(before, after, changed, spot(place, r));
    }
}

/// What the first layers leave on the device.
pub open spec fn reached<K: Kernel>(m: DecoderModel<K>, mem: Memory<K::Cell>, left: Memory<K::Cell>, ids: Seq<usize>, xs: Seq<Seq<K::Cell>>, position: int, kept: int, l: int) -> bool {
    let start = mem.layers;
    let (done, ys) = fold_to(m, l, start, xs, position)->0;
    &&& left.layers == done + start.skip(l)
    &&& rows_hold(left, turn(Place::BatchA, Place::BatchB, l), ys)
    &&& rest_same(mem, left)
    &&& all_captured(m, left, start, xs, position, ids, l)
    &&& all_kept(m, left, start, xs, position, kept, l)
}

/// One more layer.
proof fn lemma_reach_on<K: Kernel>(
    m: DecoderModel<K>,
    mem: Memory<K::Cell>,
    before: Memory<K::Cell>,
    mid: Memory<K::Cell>,
    left: Memory<K::Cell>,
    ids: Seq<usize>,
    xs: Seq<Seq<K::Cell>>,
    position: int,
    kept: int,
    l: int,
)
    requires
        0 <= l < mem.layers.len(),
        0 <= kept <= xs.len(),
        ids.len() <= usize::MAX,
        fold_to(m, l + 1, mem.layers, xs, position) is Some,
        fold_to(m, l, mem.layers, xs, position) is Some,
        reached(m, mem, before, ids, xs, position, kept, l),
        ({
            let (done, ys) = fold_to(m, l, mem.layers, xs, position)->0;
            let (more, outs) = fold_to(m, l + 1, mem.layers, xs, position)->0;
            let to = turn(Place::BatchA, Place::BatchB, l + 1);
            &&& mid.layers == before.layers.update(l, more[l])
            &&& mid.kept == if m.config.full_attention_at(l) {
                before.kept
            } else {
                keep(m, before, l, ys, position, kept)
            }
            &&& rows_hold(mid, to, outs)
            &&& rest_same(before, mid)
            &&& same_elsewhere(before, mid, set![to, Place::RowIn, Place::RowOut])
            &&& left.layers == mid.layers
            &&& left.kept == mid.kept
            &&& rest_same(mid, left)
            &&& match capture_slot(ids, l, 0) {
                Some(slot) => captured(left, slot, outs) && same_elsewhere(mid, left, capture_places(slot)),
                None => left == mid,
            }
        }),
    ensures
        reached(m, mem, left, ids, xs, position, kept, l + 1),
{
    let start = mem.layers;
    let (done, ys) = fold_to(m, l, start, xs, position)->0;
    let (more, outs) = fold_to(m, l + 1, start, xs, position)->0;
    let to = turn(Place::BatchA, Place::BatchB, l + 1);
    lemma_fold_grows(m, l, start, xs, position);
    assert(left.layers =~= more + start.skip(l + 1));
    assert(before.layers[l] == start[l]);
    assert(rows_hold(left, to, outs)) by {
        if capture_slot(ids, l, 0) is Some {
            lemma_rows_stay(mid, left, capture_places(capture_slot(ids, l, 0)->0), to, outs);
        }
    }
    lemma_captured_on(m, before, mid, left, start, xs, position, ids, l);
    lemma_kept_on(m, before, left, start, xs, position, kept, l);
}

proof fn lemma_captured_on<K: Kernel>(
    m: DecoderModel<K>,
    before: Memory<K::Cell>,
    mid: Memory<K::Cell>,
    left: Memory<K::Cell>,
    start: Seq<LayerView<K::Cell>>,
    xs: Seq<Seq<K::Cell>>,
    position: int,
    ids: Seq<usize>,
    l: int,
)
    requires
        0 <= l,
        ids.len() <= usize::MAX,
        all_captured(m, before, start, xs, position, ids, l),
        same_elsewhere(before, mid, set![turn(Place::BatchA, Place::BatchB, l + 1), Place::RowIn, Place::RowOut]),
        match capture_slot(ids, l, 0) {
            Some(slot) => captured(left, slot, (fold_to(m, l + 1, start, xs, position)->0).1) && same_elsewhere(mid, left, capture_places(slot)),
            None => left == mid,
        },
    ensures
        all_captured(m, left, start, xs, position, ids, l + 1),
{
    reveal(all_captured);
    let changed = set![turn(Place::BatchA, Place::BatchB, l + 1), Place::RowIn, Place::RowOut];
    assert forall|j: int| 0 <= j < l + 1 implies ((#[trigger] capture_slot(ids, j, 0)) matches Some(slot) ==> captured(
        left,
        slot,
        (fold_to(m, j + 1, start, xs, position)->0).1,
    )) by {
        if j < l && capture_slot(ids, j, 0) is Some {
            let slot = capture_slot(ids, j, 0)->0;
            let rows = (fold_to(m, j + 1, start, xs, position)->0).1;
            lemma_capture_slot(ids, j, 0);
            lemma_capture_slot(ids, l, 0);
            lemma_captured_stays(before, mid, changed, slot, rows);
            if capture_slot(ids, l, 0) is Some {
                lemma_captured_stays(mid, left, capture_places(capture_slot(ids, l, 0)->0), slot, rows);
            }
        }
    }
}

proof fn lemma_kept_on<K: Kernel>(
    m: DecoderModel<K>,
    before: Memory<K::Cell>,
    left: Memory<K::Cell>,
    start: Seq<LayerView<K::Cell>>,
    xs: Seq<Seq<K::Cell>>,
    position: int,
    kept: int,
    l: int,
)
    requires
        0 <= l,
        all_kept(m, before, start, xs, position, kept, l),
        before.layers[l] == start[l],
        left.kept == if m.config.full_attention_at(l) {
            before.kept
        } else {
            keep(m, before, l, (fold_to(m, l, start, xs, position)->0).1, position, kept)
        },
    ensures
        all_kept(m, left, start, xs, position, kept, l + 1),
{
    reveal(all_kept);
    assert forall|j: int, r: int| 0 <= j < l + 1 && !m.config.full_attention_at(j) && 0 <= r < kept implies (#[trigger] left.kept.contains_key((j, r)))
        && left.kept[(j, r)] == seen_behind(m, start, xs, position, j, r) by {
        if j < l {
            assert(before.kept.contains_key((j, r)));
        }
    }
}

/// The rows of a batch go through the layers as the layers would take them.
#[verifier::spinoff_prover]
proof fn lemma_through<K: Kernel>(
    m: DecoderModel<K>,
    mem: Memory<K::Cell>,
    at_once: bool,
    kinds: Seq<ResidentLayerKind>,
    ids: Seq<usize>,
    xs: Seq<Seq<K::Cell>>,
    position: int,
    kept: int,
    l: int,
)
    requires
        0 <= l <= mem.layers.len(),
        mem.layers.len() == m.layers@.len(),
        m.layers@.len() <= usize::MAX,
        full_where_due(m),
        0 <= position,
        position + xs.len() <= usize::MAX,
        0 <= kept <= xs.len(),
        ids.len() <= usize::MAX,
        rows_hold(mem, Place::BatchA, xs),
    ensures
        match fold_to(m, l, mem.layers, xs, position) {
            Some(_) => run(m, mem, through(m, at_once, kinds, ids, position, xs.len() as int, kept, l)) matches Some(left) && reached(
                m,
                mem,
                left,
                ids,
                xs,
                position,
                kept,
                l,
            ),
            None => run(m, mem, through(m, at_once, kinds, ids, position, xs.len() as int, kept, l)) is None,
        },
    decreases l,
{
    let start = mem.layers;
    let rows = xs.len() as int;
    if l == 0 {
        assert(Seq::<LayerView<K::Cell>>::empty() + start.skip(0) =~= start);
        reveal(all_captured);
        reveal(all_kept);
        lemma_fold_on(m, 0, start, xs, position);
    } else {
        lemma_through(m, mem, at_once, kinds, ids, xs, position, kept, l - 1);
        lemma_fold_grows(m, l - 1, start, xs, position);
        let from = turn(Place::BatchA, Place::BatchB, l - 1);
        let to = turn(Place::BatchA, Place::BatchB, l);
        let full = m.config.full_attention_at(l - 1);
        let head = through(m, at_once, kinds, ids, position, rows, kept, l - 1);
        let part = next_part::<K::Cell>(full, at_once, l - 1, kinds[l - 1], position, from, to, rows, kept);
        let aside = capture_part::<K::Cell>(ids, l - 1, to, rows);
        law_run_concat(m, mem, head, part);
        law_run_concat(m, mem, head + part, aside);
        if fold_to(m, l - 1, start, xs, position) is Some {
            lemma_fold_to(m, l - 1, start, xs, position);
            let before = run(m, mem, head)->0;
            assert(before.layers[l - 1] == start[l - 1]);
            assert(full ==> m.layers@[l - 1].attention is Full);
            lemma_next_part(m, before, start, l - 1, kinds[l - 1], position, from, to, xs, kept, at_once);
            if fold_to(m, l, start, xs, position) is Some {
                let outs = (fold_to(m, l, start, xs, position)->0).1;
                let mid = run(m, before, part)->0;
                lemma_capture_part(m, mid, ids, l - 1, to, outs);
                let left = run(m, mid, aside)->0;
                lemma_reach_on(m, mem, before, mid, left, ids, xs, position, kept, l - 1);
            }
        }
    }
}

/// The best token behind each of these states.
pub open spec fn best_tokens<K: Kernel>(m: DecoderModel<K>, states: Seq<Seq<K::Cell>>) -> Option<Seq<usize>> {
    if forall|r: int| 0 <= r < states.len() ==> (#[trigger] best_token(m, states[r])) is Some {
        Some(Seq::new(states.len(), |r: int| best_token(m, states[r])->0))
    } else {
        None
    }
}

pub open spec fn best_token<K: Kernel>(m: DecoderModel<K>, state: Seq<K::Cell>) -> Option<usize> {
    device_token_of(m.kernel, DeviceRoute::Argmax, m.lm_head.weight, state, best_params(m.kernel), 0)
}

/// Where the token behind a row is put.
pub open spec fn target_slot(row: int) -> Slot {
    Slot { place: TokenPlace::Targets, at: row as usize }
}

/// The best token behind a state.
pub open spec fn target_pick<K: Kernel>(k: K, row: int) -> Command<K::Cell> {
    Command::Pick {
        output: OutputMap::Decoder,
        route: DeviceRoute::Argmax,
        params: best_params(k),
        random: 0,
        from: spot(Place::FinalStates, row),
        to: target_slot(row),
    }
}

/// The best token behind each of the states.
pub open spec fn target_picks<K: Kernel>(k: K, rows: int) -> Seq<Command<K::Cell>> {
    Seq::new(rows as nat, |r: int| target_pick(k, r))
}

/// Tokens stand where the tokens behind rows are put.
pub open spec fn targets_hold<C>(mem: Memory<C>, tokens: Seq<usize>) -> bool {
    forall|r: int| 0 <= r < tokens.len() ==> mem.tokens.contains_key(#[trigger] target_slot(r)) && mem.tokens[target_slot(r)] == tokens[r]
}

/// Only tokens have changed, and of these only the tokens behind rows.
pub open spec fn only_targets<C>(before: Memory<C>, after: Memory<C>) -> bool {
    &&& after.rows == before.rows
    &&& after.layers == before.layers
    &&& after.head == before.head
    &&& after.kept == before.kept
    &&& after.logits == before.logits
    &&& after.named == before.named
    &&& other_tokens_same(before.tokens, after.tokens)
}

/// Tokens that do not stand behind rows are the same.
#[verifier::opaque]
pub open spec fn other_tokens_same(before: Map<Slot, usize>, after: Map<Slot, usize>) -> bool {
    forall|slot: Slot|
        slot.place != TokenPlace::Targets ==> (#[trigger] after.contains_key(slot)) == before.contains_key(slot) && after[slot] == before[slot]
}

proof fn lemma_other_tokens(start: Map<Slot, usize>, before: Map<Slot, usize>, slot: Slot, token: usize)
    requires
        other_tokens_same(start, before),
        slot.place == TokenPlace::Targets,
    ensures
        other_tokens_same(start, before.insert(slot, token)),
{
    reveal(other_tokens_same);
    let after = before.insert(slot, token);
    assert forall|other: Slot| other.place != TokenPlace::Targets implies (#[trigger] after.contains_key(other)) == start.contains_key(other)
        && after[other] == start[other] by {
        assert(before.contains_key(other) == start.contains_key(other));
    }
}

pub proof fn lemma_target_picks<K: Kernel>(m: DecoderModel<K>, mem: Memory<K::Cell>, states: Seq<Seq<K::Cell>>, j: int)
    requires
        0 <= j <= states.len(),
        states.len() <= usize::MAX,
        rows_hold(mem, Place::FinalStates, states),
    ensures
        match best_tokens(m, states.take(j)) {
            Some(tokens) => run(m, mem, target_picks(m.kernel, j)) matches Some(left) && targets_hold(left, tokens) && only_targets(mem, left),
            None => run(m, mem, target_picks(m.kernel, j)) is None,
        },
    decreases j,
{
    let picks = target_picks(m.kernel, j);
    if j == 0 {
        assert(run(m, mem, picks) == Some(mem));
        assert(other_tokens_same(mem.tokens, mem.tokens)) by {
            reveal(other_tokens_same);
        }
    } else {
        lemma_target_picks(m, mem, states, j - 1);
        assert(picks.drop_last() =~= target_picks(m.kernel, j - 1));
        let fewer = states.take(j - 1);
        let more = states.take(j);
        assert(more.drop_last() =~= fewer);
        assert(more[j - 1] == states[j - 1]);
        assert(forall|r: int| 0 <= r < j - 1 ==> more[r] == fewer[r]);
        if best_tokens(m, fewer) is Some {
            let tokens = best_tokens(m, fewer)->0;
            let before = run(m, mem, target_picks(m.kernel, j - 1))->0;
            assert(mem.rows.contains_key(spot(Place::FinalStates, j - 1)));
            if best_token(m, states[j - 1]) is Some {
                let token = best_token(m, states[j - 1])->0;
                assert forall|r: int| 0 <= r < more.len() implies (#[trigger] best_token(m, more[r])) is Some by {
                    if r < j - 1 {
                        assert(best_token(m, fewer[r]) is Some);
                    }
                }
                assert(best_tokens(m, more)->0 =~= tokens.push(token));
                assert(picks.last() == target_pick(m.kernel, j - 1));
                let left = Memory { tokens: before.tokens.insert(target_slot(j - 1), token), ..before };
                assert(run(m, mem, picks) == Some(left));
                assert(left.tokens == before.tokens.insert(target_slot(j - 1), token));
                assert forall|r: int| 0 <= r < tokens.push(token).len() implies left.tokens.contains_key(#[trigger] target_slot(r)) && left.tokens[target_slot(
                    r,
                )] == tokens.push(token)[r] by {
                    if r < j - 1 {
                        assert(before.tokens.contains_key(target_slot(r)));
                        assert(target_slot(r).at == r);
                        assert(target_slot(j - 1).at == j - 1);
                    }
                }
                lemma_other_tokens(mem.tokens, before.tokens, target_slot(j - 1), token);
                assert(targets_hold(left, tokens.push(token)));
                assert(only_targets(mem, left));
            } else {
                assert(best_token(m, more[j - 1]) is None);
                assert(best_tokens(m, more) is None);
                assert(run(m, mem, picks) is None);
            }
        } else {
            let bad = choose|r: int| 0 <= r < fewer.len() && (#[trigger] best_token(m, fewer[r])) is None;
            assert(best_token(m, more[bad]) is None);
            assert(best_tokens(m, more) is None);
            assert(run(m, mem, picks) is None);
        }
    }
}

/// The program of a batch.
pub open spec fn batch_program<K: Kernel>(m: DecoderModel<K>, at_once: bool, kinds: Seq<ResidentLayerKind>, ids: Seq<usize>, position: int, rows: int, kept: int, emit: bool) -> Seq<
    Command<K::Cell>,
> {
    let n = kinds.len() as int;
    let last = turn(Place::BatchA, Place::BatchB, n);
    through(m, at_once, kinds, ids, position, rows, kept, n).push(Command::NormRows { rows: rows as usize, from: last, to: Place::FinalStates }) + if emit {
        target_picks(m.kernel, rows)
    } else {
        Seq::empty()
    }
}

/// What a program over several tokens leaves on the device.
pub open spec fn verified<K: Kernel>(m: DecoderModel<K>, left: Memory<K::Cell>, layers: Seq<LayerView<K::Cell>>, states: Seq<Seq<K::Cell>>, emit: bool) -> bool {
    &&& left.layers == layers
    &&& rows_hold(left, Place::FinalStates, states)
    &&& emit ==> targets_hold(left, best_tokens(m, states)->0)
}

/// The program of a batch leaves on the device what the tokens leave one after the other:
/// what the layers have seen, the state of each token and the best token behind it. The
/// rows of the chosen layers are put aside, and what a linear layer had seen behind each
/// of the first tokens is kept.
#[verifier::spinoff_prover]
pub proof fn law_batch_program<K: Kernel>(
    m: DecoderModel<K>,
    mem: Memory<K::Cell>,
    at_once: bool,
    cache: CacheView<K::Cell>,
    tokens: Seq<usize>,
    kinds: Seq<ResidentLayerKind>,
    ids: Seq<usize>,
    kept: int,
    emit: bool,
)
    requires
        m.fits(cache),
        sized(m),
        full_where_due(m),
        kinds.len() == m.layers@.len(),
        m.layers@.len() <= usize::MAX,
        0 <= cache.position,
        cache.position + tokens.len() <= usize::MAX,
        0 <= kept <= tokens.len(),
        ids.len() <= usize::MAX,
        mem.layers == cache.layers,
        embed_rows(m, tokens) is Some,
        rows_hold(mem, Place::BatchA, embed_rows(m, tokens)->0),
    ensures
        ({
            let program = batch_program(m, at_once, kinds, ids, cache.position, tokens.len() as int, kept, emit);
            let xs = embed_rows(m, tokens)->0;
            match steps(m, cache, tokens) {
                Some((after, states)) => if emit && best_tokens(m, states) is None {
                    run(m, mem, program) is None
                } else {
                    &&& run(m, mem, program) matches Some(left)
                    &&& verified(m, left, after.layers, states, emit)
                    &&& left.head == mem.head
                    &&& left.named == mem.named
                    &&& other_tokens_same(mem.tokens, left.tokens)
                    &&& all_captured(m, left, cache.layers, xs, cache.position, ids, m.layers@.len() as int)
                    &&& all_kept(m, left, cache.layers, xs, cache.position, kept, m.layers@.len() as int)
                },
                None => run(m, mem, program) is None,
            }
        }),
{
    let n = m.layers@.len() as int;
    let xs = embed_rows(m, tokens)->0;
    let position = cache.position;
    let last = turn(Place::BatchA, Place::BatchB, n);
    let norm = Command::<K::Cell>::NormRows { rows: tokens.len() as usize, from: last, to: Place::FinalStates };
    let body = through(m, at_once, kinds, ids, position, xs.len() as int, kept, n);
    let picks = if emit {
        target_picks(m.kernel, tokens.len() as int)
    } else {
        Seq::empty()
    };
    lemma_fold_is_steps(m, cache, tokens);
    lemma_fold_whole(m, cache.layers, xs, position);
    lemma_fold_to(m, n, cache.layers, xs, position);
    lemma_through(m, mem, at_once, kinds, ids, xs, position, kept, n);
    lemma_run_push(m, mem, body, norm);
    law_run_concat(m, mem, body.push(norm), picks);
    if fold_to(m, n, cache.layers, xs, position) is Some {
        let (done, ys) = fold_to(m, n, cache.layers, xs, position)->0;
        let mid = run(m, mem, body)->0;
        assert(done + cache.layers.skip(n) =~= done);
        lemma_normed(m, mid, norm, ys);
        if norm_rows(m.kernel, ys, m.final_norm, m.config.rms_eps) is Some {
            let states = norm_rows(m.kernel, ys, m.final_norm, m.config.rms_eps)->0;
            let normed = run_one(m, mid, norm)->0;
            assert(all_captured(m, normed, cache.layers, xs, position, ids, n)) by {
                reveal(all_captured);
                assert forall|j: int| 0 <= j < n implies ((#[trigger] capture_slot(ids, j, 0)) matches Some(slot) ==> captured(
                    normed,
                    slot,
                    (fold_to(m, j + 1, cache.layers, xs, position)->0).1,
                )) by {
                    if capture_slot(ids, j, 0) is Some {
                        lemma_captured_stays(
                            mid,
                            normed,
                            set![Place::FinalStates],
                            capture_slot(ids, j, 0)->0,
                            (fold_to(m, j + 1, cache.layers, xs, position)->0).1,
                        );
                    }
                }
            }
            assert(all_kept(m, normed, cache.layers, xs, position, kept, n)) by {
                reveal(all_kept);
            }
            assert(states.take(states.len() as int) =~= states);
            if emit {
                lemma_target_picks(m, normed, states, states.len() as int);
                if best_tokens(m, states) is Some {
                    let left = run(m, normed, picks)->0;
                    lemma_only_targets(m, normed, left, cache.layers, xs, position, ids, kept, n);
                    assert(rows_hold(left, Place::FinalStates, states));
                }
            } else {
                assert(run(m, normed, picks) == Some(normed));
                assert(other_tokens_same(mem.tokens, mem.tokens)) by {
                    reveal(other_tokens_same);
                }
            }
        }
    }
}

proof fn lemma_only_targets<K: Kernel>(m: DecoderModel<K>, before: Memory<K::Cell>, after: Memory<K::Cell>, start: Seq<LayerView<K::Cell>>, xs: Seq<Seq<K::Cell>>, position: int, ids: Seq<usize>, kept: int, n: int)
    requires
        only_targets(before, after),
        all_captured(m, before, start, xs, position, ids, n),
        all_kept(m, before, start, xs, position, kept, n),
    ensures
        all_captured(m, after, start, xs, position, ids, n),
        all_kept(m, after, start, xs, position, kept, n),
{
    reveal(all_kept);
    reveal(all_captured);
    assert forall|j: int| 0 <= j < n implies ((#[trigger] capture_slot(ids, j, 0)) matches Some(slot) ==> captured(
        after,
        slot,
        (fold_to(m, j + 1, start, xs, position)->0).1,
    )) by {
        if capture_slot(ids, j, 0) is Some {
            assert(captured(before, capture_slot(ids, j, 0)->0, (fold_to(m, j + 1, start, xs, position)->0).1));
        }
    }
}

/// What is kept does not hang on anything else.
pub proof fn lemma_kept_same<K: Kernel>(m: DecoderModel<K>, before: Memory<K::Cell>, after: Memory<K::Cell>, start: Seq<LayerView<K::Cell>>, xs: Seq<Seq<K::Cell>>, position: int, kept: int, n: int)
    requires
        after.kept == before.kept,
        all_kept(m, before, start, xs, position, kept, n),
    ensures
        all_kept(m, after, start, xs, position, kept, n),
{
    reveal(all_kept);
    assert forall|j: int, r: int| 0 <= j < n && !m.config.full_attention_at(j) && 0 <= r < kept implies (#[trigger] after.kept.contains_key((j, r)))
        && after.kept[(j, r)] == seen_behind(m, start, xs, position, j, r) by {
        assert(before.kept.contains_key((j, r)));
    }
}

/// Rows normed at once.
pub proof fn lemma_normed<K: Kernel>(m: DecoderModel<K>, mem: Memory<K::Cell>, command: Command<K::Cell>, ys: Seq<Seq<K::Cell>>)
    requires
        ys.len() <= usize::MAX,
        command is NormRows,
        command->NormRows_rows == ys.len(),
        command->NormRows_from != command->NormRows_to,
        rows_hold(mem, command->NormRows_from, ys),
    ensures
        match norm_rows(m.kernel, ys, m.final_norm, m.config.rms_eps) {
            Some(states) => {
                &&& run_one(m, mem, command) matches Some(left)
                &&& states.len() == ys.len()
                &&& left.layers == mem.layers
                &&& left.kept == mem.kept
                &&& rest_same(mem, left)
                &&& rows_hold(left, command->NormRows_to, states)
                &&& same_elsewhere(mem, left, set![command->NormRows_to])
            },
            None => run_one(m, mem, command) is None,
        },
{
    let from = command->NormRows_from;
    let to = command->NormRows_to;
    assert(mem.first_rows(from, ys.len() as int) =~= ys) by {
        assert forall|r: int| 0 <= r < ys.len() implies mem.first_rows(from, ys.len() as int)[r] == ys[r] by {
            assert(mem.rows.contains_key(spot(from, r)));
        }
    }
    assert(mem.has_rows(from, ys.len() as int)) by {
        assert forall|r: int| 0 <= r < ys.len() implies #[trigger] mem.rows.contains_key(spot(from, r)) by {}
    }
    if norm_rows(m.kernel, ys, m.final_norm, m.config.rms_eps) is Some {
        let states = norm_rows(m.kernel, ys, m.final_norm, m.config.rms_eps)->0;
        let left = run_one(m, mem, command)->0;
        lemma_elsewhere_rows(mem, left, set![to], to, states);
        assert forall|r: int| 0 <= r < states.len() implies left.rows.contains_key(#[trigger] spot(to, r)) && left.rows[spot(to, r)] == states[r] by {
            assert(spot(to, r).row == r);
        }
    }
}

/// The program of tokens one after the other.
pub open spec fn turn_program<K: Kernel>(m: DecoderModel<K>, kinds: Seq<ResidentLayerKind>, ids: Seq<usize>, position: int, rows: int, emit: bool) -> Seq<
    Command<K::Cell>,
> {
    token_parts(m, kinds, ids, position, rows) + if emit {
        target_picks(m.kernel, rows)
    } else {
        Seq::empty()
    }
}

/// The program of tokens one after the other leaves on the device what the program of a
/// batch leaves there, but keeps nothing behind the tokens.
pub proof fn law_turn_program<K: Kernel>(
    m: DecoderModel<K>,
    mem: Memory<K::Cell>,
    cache: CacheView<K::Cell>,
    tokens: Seq<usize>,
    kinds: Seq<ResidentLayerKind>,
    ids: Seq<usize>,
    emit: bool,
)
    requires
        m.fits(cache),
        sized(m),
        kinds.len() == m.layers@.len(),
        m.layers@.len() <= usize::MAX,
        0 <= cache.position,
        cache.position + tokens.len() <= usize::MAX,
        ids.len() <= usize::MAX,
        mem.layers == cache.layers,
        forall|r: int|
            0 <= r < tokens.len() ==> embed_row(m, #[trigger] tokens[r]) is Some && mem.rows.contains_key(spot(Place::Input(r as usize), 0))
                && mem.rows[spot(Place::Input(r as usize), 0)] == embed_row(m, tokens[r])->0,
    ensures
        ({
            let program = turn_program(m, kinds, ids, cache.position, tokens.len() as int, emit);
            match steps(m, cache, tokens) {
                Some((after, states)) => if emit && best_tokens(m, states) is None {
                    run(m, mem, program) is None
                } else {
                    &&& run(m, mem, program) matches Some(left)
                    &&& verified(m, left, after.layers, states, emit)
                    &&& lanes_captured(m, left, cache, tokens, ids, tokens.len() as int)
                },
                None => run(m, mem, program) is None,
            }
        }),
{
    let n = tokens.len() as int;
    let body = token_parts(m, kinds, ids, cache.position, n);
    let picks = if emit {
        target_picks(m.kernel, n)
    } else {
        Seq::empty()
    };
    assert(tokens.take(n) =~= tokens);
    lemma_token_parts(m, mem, cache, tokens, kinds, ids, n);
    law_run_concat(m, mem, body, picks);
    lemma_steps_position(m, cache, tokens);
    if steps(m, cache, tokens) is Some {
        let states = (steps(m, cache, tokens)->0).1;
        let mid = run(m, mem, body)->0;
        if emit {
            lemma_target_picks(m, mid, states, n);
            assert(states.take(n) =~= states);
            if best_tokens(m, states) is Some {
                let left = run(m, mid, picks)->0;
                assert(rows_hold(left, Place::FinalStates, states));
                lemma_lanes_stay(m, mid, left, cache, tokens, ids, n);
            }
        } else {
            assert(run(m, mid, picks) == Some(mid));
        }
    }
}

/// Layers of a batch that a device can take.
pub open spec fn batches<K: Kernel>(m: DecoderModel<K>, kinds: Seq<ResidentLayerKind>, moe_rows: bool, count: int) -> bool {
    count > 1 && forall|i: int| 0 <= i < m.layers@.len() ==> #[trigger] layer_batches(m, kinds, moe_rows, i)
}

pub open spec fn layer_batches<K: Kernel>(m: DecoderModel<K>, kinds: Seq<ResidentLayerKind>, moe_rows: bool, i: int) -> bool {
    i < kinds.len() && match m.layers@[i].mlp {
        Some(FeedForward::Dense(_)) => if m.config.full_attention_at(i) {
            kinds[i] == ResidentLayerKind::FullDense
        } else {
            kinds[i] == ResidentLayerKind::LinearDense
        },
        Some(FeedForward::Moe(_)) => !m.config.full_attention_at(i) && moe_rows && kinds[i] == ResidentLayerKind::LinearMoe,
        None => false,
    }
}

/// What is asked of tokens that are taken through at once.
#[derive(Clone, Copy)]
pub struct VerifyRequest {
    /// The best token behind each token.
    pub emit_argmax: bool,
    /// What linear layers have seen behind each token.
    pub capture_linear: bool,
    /// The device takes the rows of linear layers with experts at once.
    pub moe_rows: bool,
}

/// Rows behind which linear layers are kept.
pub open spec fn kept_rows(count: int, request: VerifyRequest) -> int {
    if request.capture_linear {
        count - 1
    } else {
        0
    }
}

/// The program of several tokens, and whether they go as a batch; nothing where the
/// decoder does not stand on a device; or why there is none.
pub open spec fn verify_plan<K: Kernel>(m: DecoderModel<K>, device: bool, at: ResidentView<K::Cell>, tokens: Seq<usize>, request: VerifyRequest, ids: Seq<usize>) -> Result<
    Option<(bool, Seq<Command<K::Cell>>)>,
    Fault,
> {
    let n = tokens.len() as int;
    if n == 0 || !device {
        Ok(None)
    } else if m.config.head_dim is None {
        Err(Fault::Dimension)
    } else if m.config.rope_theta is None {
        Err(Fault::Config)
    } else if linear_fault(m) is Some {
        Err(linear_fault(m)->0)
    } else if at.arena is None {
        Ok(None)
    } else if embed_rows(m, tokens) is None {
        Err(Fault::Dimension)
    } else {
        let given = (at.arena->0).kinds;
        match all_stand(m, given, at.rooms, at.cache, m.layers@.len() as int) {
            Err(fault) => Err(fault),
            Ok(kinds) => if at.cache.position + n > usize::MAX || !has_room_for(at.rooms, n) {
                Err(Fault::Dimension)
            } else if batches(m, given, request.moe_rows, n) {
                Ok(Some((true, batch_program(m, false, kinds, ids, at.cache.position, n, kept_rows(n, request), request.emit_argmax))))
            } else {
                Ok(Some((false, turn_program(m, kinds, ids, at.cache.position, n, request.emit_argmax))))
            },
        }
    }
}

/// What a device is told to do for several tokens, and the rows that are handed over
/// before: the first rows of a batch, or the inputs of the tokens.
pub struct VerifyProgram<C> {
    pub batched: bool,
    pub uploads: Tensor<C>,
    pub program: Vec<Command<C>>,
}

fn push_in_rows<C: Copy>(program: &mut Vec<Command<C>>, layer: usize, kind: ResidentLayerKind, position: usize, from: Place, to: Place, rows: usize)
    requires
        position + rows <= usize::MAX,
    ensures
        final(program)@ == old(program)@ + in_rows::<C>(layer as int, kind, position as int, from, to, rows as int),
{
    let ghost start = program@;
    assert(start + in_rows::<C>(layer as int, kind, position as int, from, to, 0) =~= start);
    for r in 0..rows
        invariant
            position + rows <= usize::MAX,
            program@ == start + in_rows::<C>(layer as int, kind, position as int, from, to, r as int),
    {
        program.push(Command::Copy { from: Spot { place: from, row: r }, to: Spot { place: Place::RowIn, row: 0 } });
        program.push(
            Command::Layer {
                layer,
                kind,
                position: position + r,
                from: Spot { place: Place::RowIn, row: 0 },
                to: Spot { place: Place::RowOut, row: 0 },
            },
        );
        program.push(Command::Copy { from: Spot { place: Place::RowOut, row: 0 }, to: Spot { place: to, row: r } });
        assert(program@ =~= start + in_rows::<C>(layer as int, kind, position as int, from, to, r + 1));
    }
}

/// Where the rows of a layer are put, where the layer is chosen.
pub fn resident_capture_slot(layer_ids: &Vec<usize>, layer: usize) -> (slot: Option<usize>)
    ensures
        match slot {
            Some(slot) => capture_slot(layer_ids@, layer as int, 0) == Some(slot as int),
            None => capture_slot(layer_ids@, layer as int, 0) is None,
        },
{
    let n: usize = layer_ids.len();
    let mut i: usize = 0;
    while i < n
        invariant
            i <= n,
            n == layer_ids@.len(),
            capture_slot(layer_ids@, layer as int, 0) == capture_slot(layer_ids@, layer as int, i as int),
        decreases n - i,
    {
        if layer_ids[i] == layer {
            return Some(i);
        }
        i = i + 1;
    }
    None
}

fn push_capture_part<C: Copy>(program: &mut Vec<Command<C>>, ids: &Vec<usize>, layer: usize, from: Place, rows: usize)
    ensures
        final(program)@ == old(program)@ + capture_part::<C>(ids@, layer as int, from, rows as int),
{
    let ghost start = program@;
    match resident_capture_slot(ids, layer) {
        Some(slot) => {
            let ghost all = capture_part::<C>(ids@, layer as int, from, rows as int);
            assert(start + all.take(0) =~= start);
            for r in 0..rows
                invariant
                    all == capture_part::<C>(ids@, layer as int, from, rows as int),
                    capture_slot(ids@, layer as int, 0) == Some(slot as int),
                    program@ == start + all.take(r as int),
            {
                program.push(
                    Command::Copy { from: Spot { place: from, row: r }, to: Spot { place: Place::Captured { slot, token: r }, row: 0 } },
                );
                assert(all.take(r + 1) =~= all.take(r as int).push(all[r as int]));
                assert(program@ =~= start + all.take(r + 1));
            }
            assert(all.take(rows as int) =~= all);
        },
        None => {
            assert(start + capture_part::<C>(ids@, layer as int, from, rows as int) =~= start);
        },
    }
}

fn push_target_picks<K: Kernel>(k: &K, program: &mut Vec<Command<K::Cell>>, rows: usize)
    ensures
        functional(*k) ==> final(program)@ == old(program)@ + target_picks(*k, rows as int),
{
    let ghost start = program@;
    let ghost all = target_picks(*k, rows as int);
    assert(start + all.take(0) =~= start);
    for r in 0..rows
        invariant
            all == target_picks(*k, rows as int),
            functional(*k) ==> program@ == start + all.take(r as int),
    {
        let params: SamplingParams<K::Cell> = best_choice(k);
        program.push(
            Command::Pick {
                output: OutputMap::Decoder,
                route: DeviceRoute::Argmax,
                params,
                random: 0,
                from: Spot { place: Place::FinalStates, row: r },
                to: Slot { place: TokenPlace::Targets, at: r },
            },
        );
        assert(all.take(r + 1) =~= all.take(r as int).push(all[r as int]));
        assert(functional(*k) ==> program@ =~= start + all.take(r + 1));
    }
    assert(all.take(rows as int) =~= all);
}

fn push_lanes<C: Copy>(program: &mut Vec<Command<C>>, kinds: &Vec<ResidentLayerKind>, ids: &Vec<usize>, position: usize, a: Place, b: Place, token: usize)
    ensures
        final(program)@ == old(program)@ + lanes::<C>(kinds@, ids@, position as int, a, b, token as int, kinds@.len() as int),
{
    let ghost start = program@;
    assert(start + lanes::<C>(kinds@, ids@, position as int, a, b, token as int, 0) =~= start);
    for l in 0..kinds.len()
        invariant
            program@ == start + lanes::<C>(kinds@, ids@, position as int, a, b, token as int, l as int),
    {
        let from: Spot = Spot { place: take_turns(a, b, l), row: 0 };
        let to: Spot = Spot { place: take_turns(a, b, l + 1), row: 0 };
        program.push(Command::Layer { layer: l, kind: kinds[l], position, from, to });
        if let Some(slot) = resident_capture_slot(ids, l) {
            program.push(Command::Copy { from: to, to: Spot { place: Place::Captured { slot, token }, row: 0 } });
        }
        assert(program@ =~= start + lanes::<C>(kinds@, ids@, position as int, a, b, token as int, l + 1));
    }
}

impl<K: Kernel> DecoderModel<K> {
    fn push_through(&self, program: &mut Vec<Command<K::Cell>>, at_once: bool, kinds: &Vec<ResidentLayerKind>, ids: &Vec<usize>, position: usize, rows: usize, kept: usize)
        requires
            position + rows <= usize::MAX,
        ensures
            final(program)@ == old(program)@ + through(*self, at_once, kinds@, ids@, position as int, rows as int, kept as int, kinds@.len() as int),
    {
        let ghost start = program@;
        assert(start + through(*self, at_once, kinds@, ids@, position as int, rows as int, kept as int, 0) =~= start);
        for l in 0..kinds.len()
            invariant
                position + rows <= usize::MAX,
                program@ == start + through(*self, at_once, kinds@, ids@, position as int, rows as int, kept as int, l as int),
        {
            let from: Place = take_turns(Place::BatchA, Place::BatchB, l);
            let to: Place = take_turns(Place::BatchA, Place::BatchB, l + 1);
            let full: bool = self.config.is_full_attention_layer(l);
            if full && !at_once {
                push_in_rows(program, l, kinds[l], position, from, to, rows);
            } else {
                let layer_kept: usize = if full {
                    0
                } else {
                    kept
                };
                program.push(Command::LayerRows { layer: l, kind: kinds[l], position, rows, from, to, kept: layer_kept });
            }
            push_capture_part(program, ids, l, to, rows);
            assert(program@ =~= start + through(*self, at_once, kinds@, ids@, position as int, rows as int, kept as int, l + 1));
        }
    }

    /// Adds the program of a batch.
    pub fn push_batch(
        &self,
        program: &mut Vec<Command<K::Cell>>,
        at_once: bool,
        kinds: &Vec<ResidentLayerKind>,
        ids: &Vec<usize>,
        position: usize,
        rows: usize,
        kept: usize,
        emit: bool,
    )
        requires
            position + rows <= usize::MAX,
        ensures
            functional(self.kernel) ==> final(program)@ == old(program)@ + batch_program(
                *self,
                at_once,
                kinds@,
                ids@,
                position as int,
                rows as int,
                kept as int,
                emit,
            ),
    {
        self.push_through(program, at_once, kinds, ids, position, rows, kept);
        let last: Place = take_turns(Place::BatchA, Place::BatchB, kinds.len());
        program.push(Command::NormRows { rows, from: last, to: Place::FinalStates });
        if emit {
            push_target_picks(&self.kernel, program, rows);
        }
        assert(functional(self.kernel) ==> program@ =~= old(program)@ + batch_program(
            *self,
            at_once,
            kinds@,
            ids@,
            position as int,
            rows as int,
            kept as int,
            emit,
        ));
    }

    fn push_token_parts(&self, program: &mut Vec<Command<K::Cell>>, kinds: &Vec<ResidentLayerKind>, ids: &Vec<usize>, position: usize, rows: usize)
        requires
            position + rows <= usize::MAX,
        ensures
            final(program)@ == old(program)@ + token_parts(*self, kinds@, ids@, position as int, rows as int),
    {
        let ghost start = program@;
        assert(start + token_parts(*self, kinds@, ids@, position as int, 0) =~= start);
        for t in 0..rows
            invariant
                position + rows <= usize::MAX,
                program@ == start + token_parts(*self, kinds@, ids@, position as int, t as int),
        {
            let a: Place = Place::Input(t);
            push_lanes(program, kinds, ids, position + t, a, Place::HiddenB, t);
            let last: Spot = Spot { place: take_turns(a, Place::HiddenB, kinds.len()), row: 0 };
            let normed: Spot = Spot { place: Place::FinalNormed, row: 0 };
            program.push(Command::Norm { weight: NormWeight::Final, from: last, to: normed });
            program.push(Command::Copy { from: normed, to: Spot { place: Place::FinalStates, row: t } });
            assert(program@ =~= start + token_parts(*self, kinds@, ids@, position as int, t + 1));
        }
    }

    pub fn is_layer_batches(&self, kinds: &Vec<ResidentLayerKind>, moe_rows: bool, i: usize) -> (yes: bool)
        requires
            i < self.layers@.len(),
        ensures
            yes == layer_batches(*self, kinds@, moe_rows, i as int),
    {
        if i >= kinds.len() {
            return false;
        }
        let full: bool = self.config.is_full_attention_layer(i);
        match &self.layers[i].mlp {
            Some(FeedForward::Dense(_)) => match kinds[i] {
                ResidentLayerKind::FullDense => full,
                ResidentLayerKind::LinearDense => !full,
                _ => false,
            },
            Some(FeedForward::Moe(_)) => match kinds[i] {
                ResidentLayerKind::LinearMoe => !full && moe_rows,
                _ => false,
            },
            None => false,
        }
    }

    fn is_batches(&self, kinds: &Vec<ResidentLayerKind>, moe_rows: bool, count: usize) -> (yes: bool)
        ensures
            yes == batches(*self, kinds@, moe_rows, count as int),
    {
        if count <= 1 {
            return false;
        }
        for i in 0..self.layers.len()
            invariant
                forall|j: int| 0 <= j < i ==> #[trigger] layer_batches(*self, kinds@, moe_rows, j),
        {
            if !self.is_layer_batches(kinds, moe_rows, i) {
                assert(!layer_batches(*self, kinds@, moe_rows, i as int));
                return false;
            }
        }
        true
    }

    /// What a device is told to do for several tokens at once; nothing where the decoder
    /// does not stand on a device.
    #[verifier::spinoff_prover]
    pub fn next_final_states_resident_verify(&self, device: bool, cache: &mut ResidentCache<K::Cell>, token_ids: &Vec<usize>, request: VerifyRequest, capture_layer_ids: &Vec<usize>) -> (out: Result<
        Option<VerifyProgram<K::Cell>>,
        InferError,
    >)
        requires
            self.fits(old(cache).cache@),
            old(cache).rooms@.len() == self.layers@.len(),
        ensures
            !(out matches Ok(Some(_))) ==> *final(cache) == *old(cache),
            out matches Ok(Some(_)) ==> final(cache)@ == moved_on(old(cache)@, token_ids@.len() as int),
            functional(self.kernel) ==> ({
                let plan = verify_plan(*self, device, old(cache)@, token_ids@, request, capture_layer_ids@);
                match out {
                    Ok(Some(made)) => {
                        &&& plan == Result::<Option<(bool, Seq<Command<K::Cell>>)>, Fault>::Ok(Some((made.batched, made.program@)))
                        &&& made.uploads.is_matrix()
                        &&& embed_rows(*self, token_ids@) == Some(made.uploads.rows())
                    },
                    Ok(None) => plan == Result::<Option<(bool, Seq<Command<K::Cell>>)>, Fault>::Ok(None),
                    Err(error) => plan == Result::<Option<(bool, Seq<Command<K::Cell>>)>, Fault>::Err(error.fault()),
                }
            }),
    {
        let n: usize = token_ids.len();
        if n == 0 || !device {
            return Ok(None);
        }
        if self.config.head_dim.is_none() {
            return Err(InferError::Dimension("size of a head unknown"));
        }
        if self.config.rope_theta.is_none() {
            return Err(InferError::Config("no base for the turns"));
        }
        self.check_linear_sizes()?;
        let arena: &ResidentArena = match &cache.arena {
            Some(arena) => arena,
            None => {
                return Ok(None);
            },
        };
        let uploads: Tensor<K::Cell> = self.embed_scaled(token_ids)?;
        let kinds: Vec<ResidentLayerKind> = self.resident_layers(arena, cache)?;
        let position: usize = cache.cache.position;
        if usize::MAX - position < n || !cache.can_grow_by(n) {
            return Err(InferError::Dimension("no room for more positions"));
        }
        let batched: bool = self.is_batches(&arena.kinds, request.moe_rows, n);
        let mut program: Vec<Command<K::Cell>> = Vec::new();
        if batched {
            let kept: usize = if request.capture_linear {
                n - 1
            } else {
                0
            };
            self.push_batch(&mut program, false, &kinds, capture_layer_ids, position, n, kept, request.emit_argmax);
        } else {
            self.push_token_parts(&mut program, &kinds, capture_layer_ids, position, n);
            if request.emit_argmax {
                push_target_picks(&self.kernel, &mut program, n);
            }
        }
        assert(functional(self.kernel) && batched ==> program@ =~= batch_program(
            *self,
            false,
            kinds@,
            capture_layer_ids@,
            position as int,
            n as int,
            kept_rows(n as int, request),
            request.emit_argmax,
        ));
        assert(functional(self.kernel) && !batched ==> program@ =~= turn_program(
            *self,
            kinds@,
            capture_layer_ids@,
            position as int,
            n as int,
            request.emit_argmax,
        ));
        cache.grow_by(n);
        cache.cache.position = position + n;
        assert(cache@ =~= moved_on(old(cache)@, n as int));
        Ok(Some(VerifyProgram { batched, uploads, program }))
    }
}

} // verus!
