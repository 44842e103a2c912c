//! The draft head of a decoder that stands on a device.

use vstd::prelude::*;
use crate::device::{head_layer_row, law_run_concat, lemma_elsewhere_chain, lemma_run_push, run, run_one, same_elsewhere, spot, Command, Memory, NormWeight, OutputMap, Place, Slot, Spot, TokenPlace};
use crate::kernel::{device_token_of, DeviceRoute, Kernel};
use crate::kv::LayerView;
use crate::layer::norm_of;
use crate::linear::linear_row;
use crate::model::{embed_row, DecoderModel};
use crate::mtp_head::{mtp_input, mtp_row};
use crate::resident_decode::{best_params, turn};

verus! {

/// A token and a state through the head, without what its last norm makes of it.
pub open spec fn head_commands<C>(token: Slot, hidden: Spot, position: int) -> Seq<Command<C>> {
    let embedding = spot(Place::HeadEmbedding, 0);
    let left = spot(Place::HeadEmbeddingNorm, 0);
    let right = spot(Place::HeadHiddenNorm, 0);
    let pair = spot(Place::HeadPair, 0);
    let input = spot(Place::HeadInput, 0);
    seq![
        Command::Gather { token, to: embedding },
        Command::Norm { weight: NormWeight::HeadEmbedding, from: embedding, to: left },
        Command::Norm { weight: NormWeight::HeadHidden, from: hidden, to: right },
        Command::Join { first: left, second: right, to: pair },
        Command::HeadMap { from: pair, to: input },
        Command::HeadLayer { position: position as usize, from: input, to: spot(Place::HeadOutput, 0) },
    ]
}

/// A token and a state through the head.
pub open spec fn head_step<C>(token: Slot, hidden: Spot, position: int, out: Spot) -> Seq<Command<C>> {
    head_commands(token, hidden, position).push(
        Command::Norm { weight: NormWeight::HeadOutput, from: spot(Place::HeadOutput, 0), to: out },
    )
}

/// What the head has seen behind a token and a state, and the row its layer puts out.
pub open spec fn head_seen<K: Kernel>(m: DecoderModel<K>, view: LayerView<K::Cell>, state: Seq<K::Cell>, token: usize, position: int) -> Option<
    (LayerView<K::Cell>, Seq<K::Cell>),
> {
    match m.mtp {
        Some(head) => match mtp_input(m, head, state, token) {
            Some(x) => head_layer_row(m, head, view, x, position),
            None => None,
        },
        None => None,
    }
}

/// The state that the head leaves is its layer's row, normed.
pub proof fn lemma_head_seen<K: Kernel>(m: DecoderModel<K>, view: LayerView<K::Cell>, state: Seq<K::Cell>, token: usize, position: int)
    ensures
        mtp_row(m, view, state, token, position) == match head_seen(m, view, state, token, position) {
            Some((after, row)) => match norm_of(m.kernel, row, (m.mtp->0).norm, m.config.rms_eps) {
                Some(out) => Some((after, out)),
                None => None,
            },
            None => None,
        },
{
}

/// Rows that a step of the head does not write.
pub open spec fn outside_head(place: Place) -> bool {
    !(place is HeadEmbedding) && !(place is HeadEmbeddingNorm) && !(place is HeadHiddenNorm) && !(place is HeadPair) && !(place is HeadInput) && !(
    place is HeadOutput)
}

/// Only the head and its own rows have changed.
#[verifier::opaque]
pub open spec fn only_head<C>(before: Memory<C>, after: Memory<C>) -> bool {
    &&& after.tokens == before.tokens
    &&& after.layers == before.layers
    &&& after.kept == before.kept
    &&& after.logits == before.logits
    &&& after.named == before.named
    &&& forall|at: Spot|
        outside_head(at.place) ==> (#[trigger] after.rows.contains_key(at)) == before.rows.contains_key(at) && after.rows[at] == before.rows[at]
}

/// The first commands of a step make the row that the layer of the head starts from.
#[verifier::spinoff_prover]
proof fn lemma_head_input<K: Kernel>(m: DecoderModel<K>, mem: Memory<K::Cell>, token: Slot, hidden: Spot, position: int)
    requires
        mem.tokens.contains_key(token),
        mem.rows.contains_key(hidden),
        outside_head(hidden.place),
        m.mtp is Some,
    ensures
        ({
            let program = head_commands::<K::Cell>(token, hidden, position).take(5);
            match mtp_input(m, m.mtp->0, mem.rows[hidden], mem.tokens[token]) {
                Some(x) => {
                    &&& run(m, mem, program) matches Some(left)
                    &&& left.head == mem.head
                    &&& left.rows.contains_key(spot(Place::HeadInput, 0))
                    &&& left.rows[spot(Place::HeadInput, 0)] == x
                    &&& only_head(mem, left)
                },
                None => run(m, mem, program) is None,
            }
        }),
{
    let all = head_commands::<K::Cell>(token, hidden, position);
    let head = m.mtp->0;
    let eps = m.config.rms_eps;
    assert(all.take(0) =~= Seq::empty());
    assert(all.take(1) =~= all.take(0).push(all[0]));
    assert(all.take(2) =~= all.take(1).push(all[1]));
    assert(all.take(3) =~= all.take(2).push(all[2]));
    assert(all.take(4) =~= all.take(3).push(all[3]));
    assert(all.take(5) =~= all.take(4).push(all[4]));
    lemma_run_push(m, mem, all.take(0), all[0]);
    lemma_run_push(m, mem, all.take(1), all[1]);
    lemma_run_push(m, mem, all.take(2), all[2]);
    lemma_run_push(m, mem, all.take(3), all[3]);
    lemma_run_push(m, mem, all.take(4), all[4]);
    match embed_row(m, mem.tokens[token]) {
        Some(embedding) => {
            let one = mem.with_row(spot(Place::HeadEmbedding, 0), embedding);
            assert(run(m, mem, all.take(1)) == Some(one));
            match norm_of(m.kernel, embedding, head.pre_fc_norm_embedding, eps) {
                Some(left) => {
                    let two = one.with_row(spot(Place::HeadEmbeddingNorm, 0), left);
                    assert(run(m, mem, all.take(2)) == Some(two));
                    match norm_of(m.kernel, mem.rows[hidden], head.pre_fc_norm_hidden, eps) {
                        Some(right) => {
                            let three = two.with_row(spot(Place::HeadHiddenNorm, 0), right);
                            assert(two.rows[hidden] == mem.rows[hidden]);
                            assert(run(m, mem, all.take(3)) == Some(three));
                            let four = three.with_row(spot(Place::HeadPair, 0), left + right);
                            assert(run(m, mem, all.take(4)) == Some(four));
                            if linear_row(m.kernel, head.fc, left + right) is Some {
                                let x = linear_row(m.kernel, head.fc, left + right)->0;
                                let five = four.with_row(spot(Place::HeadInput, 0), x);
                                assert(run(m, mem, all.take(5)) == Some(five));
                                reveal(only_head);
                            }
                        },
                        None => {},
                    }
                },
                None => {},
            }
        },
        None => {},
    }
}

/// A step of the head on the device is a step of the head.
pub proof fn lemma_head_step<K: Kernel>(m: DecoderModel<K>, mem: Memory<K::Cell>, token: Slot, hidden: Spot, position: int)
    requires
        mem.tokens.contains_key(token),
        mem.rows.contains_key(hidden),
        outside_head(hidden.place),
        m.mtp is Some,
        0 <= position <= usize::MAX,
    ensures
        match head_seen(m, mem.head, mem.rows[hidden], mem.tokens[token], position) {
            Some((after, row)) => {
                &&& run(m, mem, head_commands(token, hidden, position)) matches Some(left)
                &&& left.head == after
                &&& left.rows.contains_key(spot(Place::HeadOutput, 0))
                &&& left.rows[spot(Place::HeadOutput, 0)] == row
                &&& only_head(mem, left)
            },
            None => run(m, mem, head_commands(token, hidden, position)) is None,
        },
{
    let all = head_commands::<K::Cell>(token, hidden, position);
    lemma_head_input(m, mem, token, hidden, position);
    assert(all =~= all.take(5).push(all[5]));
    lemma_run_push(m, mem, all.take(5), all[5]);
    if mtp_input(m, m.mtp->0, mem.rows[hidden], mem.tokens[token]) is Some {
        let before = run(m, mem, all.take(5))->0;
        if head_seen(m, mem.head, mem.rows[hidden], mem.tokens[token], position) is Some {
            let (after, row) = head_seen(m, mem.head, mem.rows[hidden], mem.tokens[token], position)->0;
            let left = Memory { head: after, ..before.with_row(spot(Place::HeadOutput, 0), row) };
            assert(run_one(m, before, all[5]) == Some(left));
            lemma_only_head_row(mem, before, left, spot(Place::HeadOutput, 0), row);
        }
    }
}

proof fn lemma_only_head_row<C>(start: Memory<C>, before: Memory<C>, left: Memory<C>, to: Spot, row: Seq<C>)
    requires
        only_head(start, before),
        !outside_head(to.place),
        left == (Memory { head: left.head, ..before.with_row(to, row) }),
    ensures
        only_head(start, left),
{
    reveal(only_head);
    assert forall|at: Spot| outside_head(at.place) implies (#[trigger] left.rows.contains_key(at)) == start.rows.contains_key(at) && left.rows[at]
        == start.rows[at] by {
        assert(before.rows.contains_key(at) == start.rows.contains_key(at));
    }
}

/// What a step of the head leaves on the device.
pub open spec fn head_stepped<C>(mem: Memory<C>, left: Memory<C>, out: Spot, after: LayerView<C>, state: Seq<C>) -> bool {
    &&& left.head == after
    &&& left.rows.contains_key(out)
    &&& left.rows[out] == state
    &&& exists|mid: Memory<C>| #[trigger] only_head(mem, mid) && left == mid.with_row(out, state)
}

/// A step of the head on the device leaves what the head leaves of the token and the
/// state, with the state where it was asked for.
pub proof fn law_head_step<K: Kernel>(m: DecoderModel<K>, mem: Memory<K::Cell>, token: Slot, hidden: Spot, position: int, out: Spot)
    requires
        mem.tokens.contains_key(token),
        mem.rows.contains_key(hidden),
        outside_head(hidden.place),
        m.mtp is Some,
        0 <= position <= usize::MAX,
    ensures
        match mtp_row(m, mem.head, mem.rows[hidden], mem.tokens[token], position) {
            Some((after, state)) => run(m, mem, head_step(token, hidden, position, out)) matches Some(left) && head_stepped(mem, left, out, after, state),
            None => run(m, mem, head_step(token, hidden, position, out)) is None,
        },
{
    let body = head_commands::<K::Cell>(token, hidden, position);
    let norm = Command::<K::Cell>::Norm { weight: NormWeight::HeadOutput, from: spot(Place::HeadOutput, 0), to: out };
    lemma_head_step(m, mem, token, hidden, position);
    lemma_head_seen(m, mem.head, mem.rows[hidden], mem.tokens[token], position);
    lemma_run_push(m, mem, body, norm);
    if head_seen(m, mem.head, mem.rows[hidden], mem.tokens[token], position) is Some {
        let (after, row) = head_seen(m, mem.head, mem.rows[hidden], mem.tokens[token], position)->0;
        let mid = run(m, mem, body)->0;
        let state = norm_of(m.kernel, row, (m.mtp->0).norm, m.config.rms_eps);
        if state is Some {
            assert(run_one(m, mid, norm) == Some(mid.with_row(out, state->0)));
            assert(only_head(mem, mid));
        } else {
            assert(run_one(m, mid, norm) is None);
        }
    }
}

/// What a step of the head leaves alone.
pub proof fn lemma_head_stepped<C>(mem: Memory<C>, left: Memory<C>, out: Spot, after: LayerView<C>, state: Seq<C>, at: Spot)
    requires
        head_stepped(mem, left, out, after, state),
    ensures
        left.tokens == mem.tokens,
        left.layers == mem.layers,
        left.kept == mem.kept,
        left.logits == mem.logits,
        left.named == mem.named,
        outside_head(at.place) && at != out ==> left.rows.contains_key(at) == mem.rows.contains_key(at) && left.rows[at] == mem.rows[at],
{
    reveal(only_head);
    let mid = choose|mid: Memory<C>| #[trigger] only_head(mem, mid) && left == mid.with_row(out, state);
    assert(mid.rows.contains_key(at) || !mid.rows.contains_key(at));
}

/// The token that the draft head takes for the best one.
pub open spec fn best_draft<K: Kernel>(m: DecoderModel<K>, state: Seq<K::Cell>) -> Option<usize> {
    device_token_of(m.kernel, DeviceRoute::Argmax, m.draft_head().weight, state, best_params(m.kernel), 0)
}

/// Tokens drafted one after the other, each from the one before it: what the head has
/// seen then, the state it leaves and the tokens.
#[verifier::opaque]
pub open spec fn drafted<K: Kernel>(m: DecoderModel<K>, view: LayerView<K::Cell>, state: Seq<K::Cell>, token: usize, offset: int, n: int) -> Option<
    (LayerView<K::Cell>, Seq<K::Cell>, Seq<usize>),
>
    decreases n,
{
    if n <= 0 {
        Some((view, state, Seq::empty()))
    } else {
        match drafted(m, view, state, token, offset, n - 1) {
            Some((seen, last, tokens)) => draft_more(m, seen, last, token, tokens, offset + n - 1),
            None => None,
        }
    }
}

/// One more token drafted.
pub open spec fn draft_more<K: Kernel>(m: DecoderModel<K>, view: LayerView<K::Cell>, state: Seq<K::Cell>, token: usize, tokens: Seq<usize>, position: int) -> Option<
    (LayerView<K::Cell>, Seq<K::Cell>, Seq<usize>),
> {
    let from = if tokens.len() == 0 {
        token
    } else {
        tokens.last()
    };
    match mtp_row(m, view, state, from, position) {
        Some((after, next)) => match best_draft(m, next) {
            Some(draft) => Some((after, next, tokens.push(draft))),
            None => None,
        },
        None => None,
    }
}

/// Where drafts are put.
pub open spec fn draft_slot(i: int) -> Slot {
    Slot { place: TokenPlace::Drafts, at: i as usize }
}

/// The token that a draft starts from.
pub open spec fn draft_source(i: int) -> Slot {
    if i == 0 {
        Slot { place: TokenPlace::HeadIndex, at: 0 }
    } else {
        draft_slot(i - 1)
    }
}

/// The state before draft `i`, in two places that take turns.
pub open spec fn draft_side(a_first: bool, i: int) -> Place {
    if a_first {
        turn(Place::HeadA, Place::HeadB, i)
    } else {
        turn(Place::HeadB, Place::HeadA, i)
    }
}

/// The best draft from a state.
pub open spec fn draft_pick<K: Kernel>(k: K, from: Spot, to: Slot) -> Command<K::Cell> {
    Command::Pick { output: OutputMap::Draft, route: DeviceRoute::Argmax, params: best_params(k), random: 0, from, to }
}

/// The program of one draft.
pub open spec fn draft_part<K: Kernel>(k: K, source: Slot, from: Spot, position: int, out: Spot, to: Slot) -> Seq<Command<K::Cell>> {
    head_step(source, from, position, out).push(draft_pick(k, out, to))
}

/// The program of several drafts.
pub open spec fn drafts_program<K: Kernel>(k: K, a_first: bool, offset: int, n: int) -> Seq<Command<K::Cell>>
    decreases n,
{
    if n <= 0 {
        Seq::empty()
    } else {
        drafts_program(k, a_first, offset, n - 1) + draft_part(
            k,
            draft_source(n - 1),
            spot(draft_side(a_first, n - 1), 0),
            offset + n - 1,
            spot(draft_side(a_first, n), 0),
            draft_slot(n - 1),
        )
    }
}

/// What one draft leaves on the device.
pub open spec fn draft_left<C>(mem: Memory<C>, left: Memory<C>, out: Spot, to: Slot, after: LayerView<C>, state: Seq<C>, draft: usize) -> bool {
    &&& left.head == after
    &&& left.rows.contains_key(out)
    &&& left.rows[out] == state
    &&& left.tokens == mem.tokens.insert(to, draft)
    &&& left.layers == mem.layers
    &&& left.kept == mem.kept
    &&& left.named == mem.named
}

/// One draft on the device.
#[verifier::spinoff_prover]
pub proof fn lemma_draft_part<K: Kernel>(m: DecoderModel<K>, mem: Memory<K::Cell>, source: Slot, from: Spot, position: int, out: Spot, to: Slot, at: Spot)
    requires
        mem.tokens.contains_key(source),
        mem.rows.contains_key(from),
        outside_head(from.place),
        m.mtp is Some,
        0 <= position <= usize::MAX,
    ensures
        match mtp_row(m, mem.head, mem.rows[from], mem.tokens[source], position) {
            Some((after, state)) => match best_draft(m, state) {
                Some(draft) => {
                    &&& run(m, mem, draft_part(m.kernel, source, from, position, out, to)) matches Some(left)
                    &&& draft_left(mem, left, out, to, after, state, draft)
                    &&& outside_head(at.place) && at != out ==> left.rows.contains_key(at) == mem.rows.contains_key(at) && left.rows[at] == mem.rows[at]
                },
                None => run(m, mem, draft_part(m.kernel, source, from, position, out, to)) is None,
            },
            None => run(m, mem, draft_part(m.kernel, source, from, position, out, to)) is None,
        },
{
    let body = head_step::<K::Cell>(source, from, position, out);
    let pick = draft_pick(m.kernel, out, to);
    law_head_step(m, mem, source, from, position, out);
    lemma_run_push(m, mem, body, pick);
    if run(m, mem, body) is Some {
        let mid = run(m, mem, body)->0;
        let (after, state) = mtp_row(m, mem.head, mem.rows[from], mem.tokens[source], position)->0;
        lemma_head_stepped(mem, mid, out, after, state, at);
        if best_draft(m, state) is Some {
            assert(run_one(m, mid, pick) == Some(Memory { tokens: mid.tokens.insert(to, best_draft(m, state)->0), ..mid }));
        } else {
            assert(run_one(m, mid, pick) is None);
        }
    }
}

/// Tokens stand where the drafts are put.
pub open spec fn drafts_hold<C>(mem: Memory<C>, tokens: Seq<usize>) -> bool {
    forall|i: int| 0 <= i < tokens.len() ==> mem.tokens.contains_key(#[trigger] draft_slot(i)) && mem.tokens[draft_slot(i)] == tokens[i]
}

/// Places that drafts use.
pub open spec fn draft_places() -> Set<Place> {
    Set::new(|place: Place| !outside_head(place) || place == Place::HeadA || place == Place::HeadB)
}

/// What several drafts leave on the device.
pub open spec fn drafts_left<C>(mem: Memory<C>, left: Memory<C>, a_first: bool, view: LayerView<C>, state: Seq<C>, tokens: Seq<usize>) -> bool {
    &&& left.head == view
    &&& left.rows.contains_key(spot(draft_side(a_first, tokens.len() as int), 0))
    &&& left.rows[spot(draft_side(a_first, tokens.len() as int), 0)] == state
    &&& drafts_hold(left, tokens)
    &&& left.tokens.contains_key(draft_source(0))
    &&& left.tokens[draft_source(0)] == mem.tokens[draft_source(0)]
    &&& left.layers == mem.layers
    &&& left.kept == mem.kept
    &&& left.named == mem.named
    &&& same_elsewhere(mem, left, draft_places())
}

/// The program of several drafts leaves on the device the tokens that the head drafts one
/// after the other, and what it has seen then.
#[verifier::spinoff_prover]
pub proof fn law_drafts<K: Kernel>(m: DecoderModel<K>, mem: Memory<K::Cell>, a_first: bool, offset: int, n: int)
    requires
        0 <= n <= usize::MAX,
        0 <= offset,
        offset + n <= usize::MAX,
        m.mtp is Some,
        mem.tokens.contains_key(draft_source(0)),
        mem.rows.contains_key(spot(draft_side(a_first, 0), 0)),
    ensures
        match drafted(m, mem.head, mem.rows[spot(draft_side(a_first, 0), 0)], mem.tokens[draft_source(0)], offset, n) {
            Some((view, state, tokens)) => {
                &&& run(m, mem, drafts_program(m.kernel, a_first, offset, n)) matches Some(left)
                &&& tokens.len() == n
                &&& drafts_left(mem, left, a_first, view, state, tokens)
            },
            None => run(m, mem, drafts_program(m.kernel, a_first, offset, n)) is None,
        },
    decreases n,
{
    let first = mem.rows[spot(draft_side(a_first, 0), 0)];
    let token = mem.tokens[draft_source(0)];
    if n == 0 {
        reveal(drafted);
        reveal(same_elsewhere);
    } else {
        law_drafts(m, mem, a_first, offset, n - 1);
        let head = drafts_program(m.kernel, a_first, offset, n - 1);
        let from = spot(draft_side(a_first, n - 1), 0);
        let out = spot(draft_side(a_first, n), 0);
        let part = draft_part(m.kernel, draft_source(n - 1), from, offset + n - 1, out, draft_slot(n - 1));
        law_run_concat(m, mem, head, part);
        lemma_drafted(m, mem.head, first, token, offset, n);
        if drafted(m, mem.head, first, token, offset, n - 1) is Some {
            let (view, state, tokens) = drafted(m, mem.head, first, token, offset, n - 1)->0;
            let before = run(m, mem, head)->0;
            if n > 1 {
                assert(before.tokens.contains_key(draft_slot(n - 2)));
            }
            lemma_draft_part(m, before, draft_source(n - 1), from, offset + n - 1, out, draft_slot(n - 1), from);
            if run(m, before, part) is Some {
                let left = run(m, before, part)->0;
                let draft = left.tokens[draft_slot(n - 1)];
                lemma_draft_beside(m, mem, before, left, draft_source(n - 1), from, offset + n - 1, out, draft_slot(n - 1));
                assert forall|i: int| 0 <= i < n implies left.tokens.contains_key(#[trigger] draft_slot(i)) && left.tokens[draft_slot(i)]
                    == tokens.push(draft)[i] by {
                    if i < n - 1 {
                        assert(before.tokens.contains_key(draft_slot(i)));
                        assert(draft_slot(i).at == i);
                        assert(draft_slot(n - 1).at == n - 1);
                    }
                }
            }
        }
    }
}

/// One more draft changes no other places.
proof fn lemma_draft_beside<K: Kernel>(m: DecoderModel<K>, start: Memory<K::Cell>, mem: Memory<K::Cell>, left: Memory<K::Cell>, source: Slot, from: Spot, position: int, out: Spot, to: Slot)
    requires
        mem.tokens.contains_key(source),
        mem.rows.contains_key(from),
        outside_head(from.place),
        m.mtp is Some,
        0 <= position <= usize::MAX,
        out.place == Place::HeadA || out.place == Place::HeadB,
        same_elsewhere(start, mem, draft_places()),
        run(m, mem, draft_part(m.kernel, source, from, position, out, to)) == Some(left),
    ensures
        same_elsewhere(start, left, draft_places()),
{
    assert(same_elsewhere(mem, left, draft_places())) by {
        reveal(same_elsewhere);
        assert forall|at: Spot| !draft_places().contains(at.place) implies (#[trigger] left.rows.contains_key(at)) == mem.rows.contains_key(at) && (
        mem.rows.contains_key(at) ==> left.rows[at] == mem.rows[at]) by {
            lemma_draft_part(m, mem, source, from, position, out, to, at);
        }
    }
    lemma_elsewhere_chain(start, mem, left, draft_places(), draft_places());
    assert(draft_places().union(draft_places()) =~= draft_places());
}

proof fn lemma_drafted<K: Kernel>(m: DecoderModel<K>, view: LayerView<K::Cell>, state: Seq<K::Cell>, token: usize, offset: int, n: int)
    requires
        n > 0,
    ensures
        drafted(m, view, state, token, offset, n) == match drafted(m, view, state, token, offset, n - 1) {
            Some((seen, last, tokens)) => draft_more(m, seen, last, token, tokens, offset + n - 1),
            None => None,
        },
{
    reveal(drafted);
}

/// States and tokens that the head is told of, one after the other.
pub open spec fn told_of<K: Kernel>(m: DecoderModel<K>, view: LayerView<K::Cell>, items: Seq<(Seq<K::Cell>, usize)>, start: int) -> Option<LayerView<K::Cell>>
    decreases items.len(),
{
    if items.len() == 0 {
        Some(view)
    } else {
        match told_of(m, view, items.drop_last(), start) {
            Some(seen) => match mtp_row(m, seen, items.last().0, items.last().1, start + items.len() - 1) {
                Some((after, _)) => Some(after),
                None => None,
            },
            None => None,
        }
    }
}

/// The program that tells the head of states and tokens.
pub open spec fn history_program<C>(start: int, n: int) -> Seq<Command<C>>
    decreases n,
{
    if n <= 0 {
        Seq::empty()
    } else {
        history_program(start, n - 1).push(Command::Copy { from: spot(Place::History, n - 1), to: spot(Place::HeadA, 0) }) + head_step(
            draft_slot(n - 1),
            spot(Place::HeadA, 0),
            start + n - 1,
            spot(Place::HeadB, 0),
        )
    }
}

/// The device holds states and tokens that the head is to be told of.
pub open spec fn history_holds<C>(mem: Memory<C>, items: Seq<(Seq<C>, usize)>) -> bool {
    forall|i: int|
        0 <= i < items.len() ==> mem.rows.contains_key(#[trigger] spot(Place::History, i)) && mem.rows[spot(Place::History, i)] == items[i].0
            && mem.tokens.contains_key(draft_slot(i)) && mem.tokens[draft_slot(i)] == items[i].1
}

/// The program that tells the head of states and tokens leaves the head as it is after it
/// was told of them.
#[verifier::spinoff_prover]
pub proof fn law_history<K: Kernel>(m: DecoderModel<K>, mem: Memory<K::Cell>, items: Seq<(Seq<K::Cell>, usize)>, start: int, n: int)
    requires
        0 <= n <= items.len(),
        0 <= start,
        start + items.len() <= usize::MAX,
        m.mtp is Some,
        history_holds(mem, items),
    ensures
        match told_of(m, mem.head, items.take(n), start) {
            Some(view) => {
                &&& run(m, mem, history_program(start, n)) matches Some(left)
                &&& left.head == view
                &&& left.layers == mem.layers
                &&& left.tokens == mem.tokens
                &&& history_holds(left, items)
            },
            None => run(m, mem, history_program(start, n)) is None,
        },
    decreases n,
{
    if n == 0 {
        assert(items.take(0) =~= Seq::empty());
    } else {
        law_history(m, mem, items, start, n - 1);
        let head = history_program::<K::Cell>(start, n - 1);
        let a = spot(Place::HeadA, 0);
        let b = spot(Place::HeadB, 0);
        let copy = Command::<K::Cell>::Copy { from: spot(Place::History, n - 1), to: a };
        let part = head_step::<K::Cell>(draft_slot(n - 1), a, start + n - 1, b);
        lemma_run_push(m, mem, head, copy);
        law_run_concat(m, mem, head.push(copy), part);
        assert(items.take(n).drop_last() =~= items.take(n - 1));
        assert(items.take(n).last() == items[n - 1]);
        if told_of(m, mem.head, items.take(n - 1), start) is Some {
            let before = run(m, mem, head)->0;
            assert(before.rows.contains_key(spot(Place::History, n - 1)));
            let mid = before.with_row(a, items[n - 1].0);
            assert(run_one(m, before, copy) == Some(mid));
            assert(mid.tokens.contains_key(draft_slot(n - 1)));
            law_head_step(m, mid, draft_slot(n - 1), a, start + n - 1, b);
            if run(m, mid, part) is Some {
                let left = run(m, mid, part)->0;
                let (after, state) = mtp_row(m, mid.head, items[n - 1].0, items[n - 1].1, start + n - 1)->0;
                lemma_head_stepped(mid, left, b, after, state, a);
                assert forall|i: int| 0 <= i < items.len() implies left.rows.contains_key(#[trigger] spot(Place::History, i)) && left.rows[spot(
                    Place::History,
                    i,
                )] == items[i].0 && left.tokens.contains_key(draft_slot(i)) && left.tokens[draft_slot(i)] == items[i].1 by {
                    assert(before.rows.contains_key(spot(Place::History, i)));
                    lemma_head_stepped(mid, left, b, after, state, spot(Place::History, i));
                }
            }
        }
    }
}

} // verus!
