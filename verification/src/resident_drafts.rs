//! How a draft head on a device is started, told of tokens and made to draft.

use vstd::prelude::*;
use crate::device::{law_run_concat, lemma_elsewhere_chain, lemma_run_push, run, run_one, same_elsewhere, spot, Command, Memory, NormWeight, OutputMap, Place, Slot, Spot, TokenPlace};
use crate::error::{Fault, InferError};
use crate::kernel::{functional, DeviceRoute, Kernel, SamplingParams};
use crate::kv::{LayerKvCache, LayerView};
use crate::model::DecoderModel;
use crate::resident::{ArenaView, HeadArena, KvRoom, ResidentArena, ResidentCache};
use crate::resident_decode::{best_choice, ResidentView};
use crate::resident_head::{draft_part, draft_side, drafts_program, head_commands, head_seen, head_step, history_program, lemma_head_seen, lemma_head_step, only_head, outside_head, told_of};
use crate::tensor::Tensor;

verus! {

/// The state of a decoder whose draft head has changed.
pub open spec fn with_head<C>(at: ResidentView<C>, head: HeadArena) -> ResidentView<C> {
    ResidentView { arena: Some(ArenaView { head: Some(head), ..at.arena->0 }), ..at }
}

/// The draft head on the device.
pub open spec fn head_at<C>(at: ResidentView<C>) -> Option<HeadArena> {
    match at.arena {
        Some(arena) => arena.head,
        None => None,
    }
}

/// A room with its first positions only; nothing where there are fewer.
pub open spec fn room_cut(room: KvRoom, len: usize) -> Option<KvRoom> {
    if len <= room.len {
        Some(KvRoom { len, ..room })
    } else {
        None
    }
}

/// Why nothing can go through a head.
pub open spec fn head_fault<K: Kernel>(m: DecoderModel<K>) -> Option<Fault> {
    if m.config.head_dim is None {
        Some(Fault::Dimension)
    } else if m.config.rope_theta is None {
        Some(Fault::Config)
    } else {
        None
    }
}

/// The map of the head puts out rows of the hidden size.
pub open spec fn head_maps<K: Kernel>(m: DecoderModel<K>) -> bool {
    m.mtp matches Some(head) && head.fc.out_dim == m.hidden()
}

/// The rows of pending tokens through the head.
pub open spec fn pending_program<C>(start: int, n: int) -> Seq<Command<C>>
    decreases n,
{
    if n <= 0 {
        Seq::empty()
    } else {
        pending_program(start, n - 1).push(Command::Copy { from: spot(Place::Checked, n - 1), to: spot(Place::RowIn, 0) }) + head_commands(
            append_slot(n - 1),
            spot(Place::RowIn, 0),
            start + n - 1,
        )
    }
}

/// Where tokens stand that the head is yet to be told of.
pub open spec fn append_slot(i: int) -> Slot {
    Slot { place: TokenPlace::Appends, at: i as usize }
}

/// What the head has seen behind states and tokens, whatever its last norm makes of them.
pub open spec fn seen_of<K: Kernel>(m: DecoderModel<K>, view: LayerView<K::Cell>, items: Seq<(Seq<K::Cell>, usize)>, start: int) -> Option<LayerView<K::Cell>>
    decreases items.len(),
{
    if items.len() == 0 {
        Some(view)
    } else {
        match seen_of(m, view, items.drop_last(), start) {
            Some(seen) => match head_seen(m, seen, items.last().0, items.last().1, start + items.len() - 1) {
                Some((after, _)) => Some(after),
                None => None,
            },
            None => None,
        }
    }
}

/// The head has seen the same, whether or not the states it leaves are normed.
pub proof fn lemma_seen_is_told<K: Kernel>(m: DecoderModel<K>, view: LayerView<K::Cell>, items: Seq<(Seq<K::Cell>, usize)>, start: int)
    ensures
        told_of(m, view, items, start) is Some ==> seen_of(m, view, items, start) == told_of(m, view, items, start),
    decreases items.len(),
{
    if items.len() > 0 {
        lemma_seen_is_told(m, view, items.drop_last(), start);
        if told_of(m, view, items.drop_last(), start) is Some {
            let seen = told_of(m, view, items.drop_last(), start)->0;
            lemma_head_seen(m, seen, items.last().0, items.last().1, start + items.len() - 1);
        }
    }
}

/// The device holds states and tokens that the head is yet to be told of.
pub open spec fn pending_holds<C>(mem: Memory<C>, items: Seq<(Seq<C>, usize)>) -> bool {
    forall|i: int|
        0 <= i < items.len() ==> mem.rows.contains_key(#[trigger] spot(Place::Checked, i)) && mem.rows[spot(Place::Checked, i)] == items[i].0
            && mem.tokens.contains_key(append_slot(i)) && mem.tokens[append_slot(i)] == items[i].1
}

/// Places that the rows of pending tokens use.
pub open spec fn pending_places() -> Set<Place> {
    Set::new(|place: Place| !outside_head(place) || place == Place::RowIn)
}

/// The rows of pending tokens leave the head as it is after it was told of them.
#[verifier::spinoff_prover]
pub proof fn law_pending<K: Kernel>(m: DecoderModel<K>, mem: Memory<K::Cell>, items: Seq<(Seq<K::Cell>, usize)>, start: int, n: int)
    requires
        0 <= n <= items.len(),
        0 <= start,
        start + items.len() <= usize::MAX,
        m.mtp is Some,
        pending_holds(mem, items),
    ensures
        match seen_of(m, mem.head, items.take(n), start) {
            Some(view) => {
                &&& run(m, mem, pending_program(start, n)) matches Some(left)
                &&& left.head == view
                &&& left.layers == mem.layers
                &&& left.tokens == mem.tokens
                &&& pending_holds(left, items)
                &&& same_elsewhere(mem, left, pending_places())
            },
            None => run(m, mem, pending_program(start, n)) is None,
        },
    decreases n,
{
    if n == 0 {
        assert(items.take(0) =~= Seq::empty());
        reveal(same_elsewhere);
    } else {
        law_pending(m, mem, items, start, n - 1);
        let head = pending_program::<K::Cell>(start, n - 1);
        let a = spot(Place::RowIn, 0);
        let copy = Command::<K::Cell>::Copy { from: spot(Place::Checked, n - 1), to: a };
        let part = head_commands::<K::Cell>(append_slot(n - 1), a, start + n - 1);
        lemma_run_push(m, mem, head, copy);
        law_run_concat(m, mem, head.push(copy), part);
        assert(items.take(n).drop_last() =~= items.take(n - 1));
        assert(items.take(n).last() == items[n - 1]);
        if seen_of(m, mem.head, items.take(n - 1), start) is Some {
            let before = run(m, mem, head)->0;
            assert(before.rows.contains_key(spot(Place::Checked, n - 1)));
            let mid = before.with_row(a, items[n - 1].0);
            assert(run_one(m, before, copy) == Some(mid));
            lemma_head_step(m, mid, append_slot(n - 1), a, start + n - 1);
            if run(m, mid, part) is Some {
                let left = run(m, mid, part)->0;
                lemma_pending_on(mem, before, left, a, items, n - 1);
            }
        }
    }
}

/// One more pending row changes no other places.
proof fn lemma_pending_on<C>(start: Memory<C>, before: Memory<C>, left: Memory<C>, a: Spot, items: Seq<(Seq<C>, usize)>, i: int)
    requires
        a == spot(Place::RowIn, 0),
        only_head(before.with_row(a, items[i].0), left),
        same_elsewhere(start, before, pending_places()),
        pending_holds(before, items),
    ensures
        left.layers == before.layers,
        left.tokens == before.tokens,
        pending_holds(left, items),
        same_elsewhere(start, left, pending_places()),
{
    reveal(only_head);
    let mid = before.with_row(a, items[i].0);
    assert(same_elsewhere(before, left, pending_places())) by {
        reveal(same_elsewhere);
        assert forall|at: Spot| !pending_places().contains(at.place) implies (#[trigger] left.rows.contains_key(at)) == before.rows.contains_key(at) && (
        before.rows.contains_key(at) ==> left.rows[at] == before.rows[at]) by {
            assert(left.rows.contains_key(at) == mid.rows.contains_key(at));
        }
    }
    lemma_elsewhere_chain(start, before, left, pending_places(), pending_places());
    assert(pending_places().union(pending_places()) =~= pending_places());
    assert forall|j: int| 0 <= j < items.len() implies left.rows.contains_key(#[trigger] spot(Place::Checked, j)) && left.rows[spot(
        Place::Checked,
        j,
    )] == items[j].0 && left.tokens.contains_key(append_slot(j)) && left.tokens[append_slot(j)] == items[j].1 by {
        assert(before.rows.contains_key(spot(Place::Checked, j)));
        assert(left.rows.contains_key(spot(Place::Checked, j)) == mid.rows.contains_key(spot(Place::Checked, j)));
    }
}

/// What a pending append comes to: its program and the head behind it.
pub open spec fn flush_plan<K: Kernel>(m: DecoderModel<K>, head: HeadArena, expected: usize) -> Result<(Seq<Command<K::Cell>>, HeadArena), Fault> {
    if head.pending_count == 0 {
        match room_cut(head.room, expected) {
            Some(room) => Ok((Seq::empty(), HeadArena { room, ..head })),
            None => Err(Fault::Dimension),
        }
    } else if head.pending_count > 2 || head.pending_start + head.pending_count != expected {
        Err(Fault::Dimension)
    } else if room_cut(head.room, head.pending_start) is None || expected > head.room.capacity || !head_maps(m) {
        Err(Fault::Dimension)
    } else {
        Ok(
            (
                pending_program(head.pending_start as int, head.pending_count as int),
                HeadArena { room: KvRoom { len: expected, ..head.room }, pending_count: 0, current_is_a: true, ..head },
            ),
        )
    }
}

impl<C> ResidentCache<C> {
    pub fn head(&self) -> (head: Option<HeadArena>)
        ensures
            head == head_at(self@),
    {
        match &self.arena {
            Some(arena) => arena.head,
            None => None,
        }
    }

    pub fn set_head(&mut self, head: HeadArena)
        requires
            old(self).arena is Some,
        ensures
            final(self)@ == with_head(old(self)@, head),
            final(self).cache == old(self).cache,
            final(self).rooms == old(self).rooms,
    {
        let mut arena: Option<ResidentArena> = self.arena.take();
        if let Some(mut arena) = arena {
            arena.head = Some(head);
            self.arena = Some(arena);
        }
        assert(self@ =~= with_head(old(self)@, head));
    }
}

/// A room with its first positions only; nothing where there are fewer.
pub fn cut_room(room: KvRoom, len: usize) -> (out: Option<KvRoom>)
    ensures
        out == room_cut(room, len),
{
    if len <= room.len {
        Some(KvRoom { capacity: room.capacity, len, sampled: room.sampled })
    } else {
        None
    }
}

/// Adds a token and a state through the head, without its last norm.
pub fn push_head_commands<C: Copy>(program: &mut Vec<Command<C>>, token: Slot, hidden: Spot, position: usize)
    ensures
        final(program)@ == old(program)@ + head_commands::<C>(token, hidden, position as int),
{
    let embedding: Spot = Spot { place: Place::HeadEmbedding, row: 0 };
    let left: Spot = Spot { place: Place::HeadEmbeddingNorm, row: 0 };
    let right: Spot = Spot { place: Place::HeadHiddenNorm, row: 0 };
    let pair: Spot = Spot { place: Place::HeadPair, row: 0 };
    let input: Spot = Spot { place: Place::HeadInput, row: 0 };
    let output: Spot = Spot { place: Place::HeadOutput, row: 0 };
    program.push(Command::Gather { token, to: embedding });
    program.push(Command::Norm { weight: NormWeight::HeadEmbedding, from: embedding, to: left });
    program.push(Command::Norm { weight: NormWeight::HeadHidden, from: hidden, to: right });
    program.push(Command::Join { first: left, second: right, to: pair });
    program.push(Command::HeadMap { from: pair, to: input });
    program.push(Command::HeadLayer { position, from: input, to: output });
    assert(program@ =~= old(program)@ + head_commands::<C>(token, hidden, position as int));
}

/// Adds a token and a state through the head.
pub fn push_head_step<C: Copy>(program: &mut Vec<Command<C>>, token: Slot, hidden: Spot, position: usize, out: Spot)
    ensures
        final(program)@ == old(program)@ + head_step::<C>(token, hidden, position as int, out),
{
    push_head_commands(program, token, hidden, position);
    program.push(Command::Norm { weight: NormWeight::HeadOutput, from: Spot { place: Place::HeadOutput, row: 0 }, to: out });
    assert(program@ =~= old(program)@ + head_step::<C>(token, hidden, position as int, out));
}

/// Adds one draft.
pub fn push_draft_part<K: Kernel>(k: &K, program: &mut Vec<Command<K::Cell>>, source: Slot, from: Spot, position: usize, out: Spot, to: Slot)
    ensures
        functional(*k) ==> final(program)@ == old(program)@ + draft_part(*k, source, from, position as int, out, to),
{
    push_head_step(program, source, from, position, out);
    let params: SamplingParams<K::Cell> = best_choice(k);
    program.push(Command::Pick { output: OutputMap::Draft, route: DeviceRoute::Argmax, params, random: 0, from: out, to });
    assert(functional(*k) ==> program@ =~= old(program)@ + draft_part(*k, source, from, position as int, out, to));
}

/// The two places that the states of drafts take turns in.
pub fn side_of(a_first: bool, i: usize) -> (place: Place)
    ensures
        place == draft_side(a_first, i as int),
{
    if (i % 2 == 0) == a_first {
        Place::HeadA
    } else {
        Place::HeadB
    }
}

/// Adds several drafts.
#[verifier::spinoff_prover]
pub fn push_drafts<K: Kernel>(k: &K, program: &mut Vec<Command<K::Cell>>, a_first: bool, offset: usize, n: usize)
    requires
        offset + n <= usize::MAX,
    ensures
        functional(*k) ==> final(program)@ == old(program)@ + drafts_program(*k, a_first, offset as int, n as int),
{
    let ghost start = program@;
    assert(start + drafts_program(*k, a_first, offset as int, 0) =~= start);
    for i in 0..n
        invariant
            offset + n <= usize::MAX,
            functional(*k) ==> program@ == start + drafts_program(*k, a_first, offset as int, i as int),
    {
        let source: Slot = if i == 0 {
            Slot { place: TokenPlace::HeadIndex, at: 0 }
        } else {
            Slot { place: TokenPlace::Drafts, at: i - 1 }
        };
        let from: Spot = Spot { place: side_of(a_first, i), row: 0 };
        let out: Spot = Spot { place: side_of(a_first, i + 1), row: 0 };
        push_draft_part(k, program, source, from, offset + i, out, Slot { place: TokenPlace::Drafts, at: i });
        assert(functional(*k) ==> program@ =~= start + drafts_program(*k, a_first, offset as int, i + 1));
    }
}

/// Adds the rows of pending tokens.
pub fn push_pending<C: Copy>(program: &mut Vec<Command<C>>, start: usize, n: usize)
    requires
        start + n <= usize::MAX,
    ensures
        final(program)@ == old(program)@ + pending_program::<C>(start as int, n as int),
{
    let ghost before = program@;
    assert(before + pending_program::<C>(start as int, 0) =~= before);
    for i in 0..n
        invariant
            start + n <= usize::MAX,
            program@ == before + pending_program::<C>(start as int, i as int),
    {
        let row: Spot = Spot { place: Place::RowIn, row: 0 };
        program.push(Command::Copy { from: Spot { place: Place::Checked, row: i }, to: row });
        push_head_commands(program, Slot { place: TokenPlace::Appends, at: i }, row, start + i);
        assert(program@ =~= before + pending_program::<C>(start as int, i + 1));
    }
}

fn push_history<C: Copy>(program: &mut Vec<Command<C>>, start: usize, n: usize)
    requires
        start + n <= usize::MAX,
    ensures
        final(program)@ == old(program)@ + history_program::<C>(start as int, n as int),
{
    let ghost before = program@;
    assert(before + history_program::<C>(start as int, 0) =~= before);
    for i in 0..n
        invariant
            start + n <= usize::MAX,
            program@ == before + history_program::<C>(start as int, i as int),
    {
        let a: Spot = Spot { place: Place::HeadA, row: 0 };
        program.push(Command::Copy { from: Spot { place: Place::History, row: i }, to: a });
        push_head_step(program, Slot { place: TokenPlace::Drafts, at: i }, a, start + i, Spot { place: Place::HeadB, row: 0 });
        assert(program@ =~= before + history_program::<C>(start as int, i + 1));
    }
}

/// What a device is told to do for drafts, and the token that is handed over before.
pub struct DraftProgram<C> {
    pub token: u32,
    pub program: Vec<Command<C>>,
}

/// What a device is told to do for a history, and the tokens and states that are handed
/// over before.
pub struct HistoryProgram<C> {
    pub tokens: Vec<u32>,
    pub states: Vec<Vec<C>>,
    pub program: Vec<Command<C>>,
}

/// Entries that the head can be told of: states of the hidden size, tokens that a device
/// can hold.
pub open spec fn tellable<C>(entries: Seq<(Tensor<C>, usize)>, hidden: int) -> bool {
    forall|i: int|
        0 <= i < entries.len() ==> (#[trigger] entries[i]).0.shape@.len() == 2 && entries[i].0.shape@[0] == 1 && entries[i].0.shape@[1] == hidden
            && entries[i].1 <= u32::MAX
}

/// Entries whose shapes are those of matrices are matrices.
pub open spec fn all_matrices<C>(entries: Seq<(Tensor<C>, usize)>) -> bool {
    forall|i: int| 0 <= i < entries.len() ==> ((#[trigger] entries[i]).0.shape@.len() == 2 ==> entries[i].0.is_matrix())
}

/// The head behind a history, or why there is none; nothing where nothing is to be done.
pub open spec fn history_plan<K: Kernel>(m: DecoderModel<K>, device: bool, at: ResidentView<K::Cell>, entries: Seq<(Tensor<K::Cell>, usize)>, start: usize) -> Result<
    Option<HeadArena>,
    Fault,
> {
    let n = entries.len();
    if n == 0 || !device {
        Ok(None)
    } else if head_fault(m) is Some {
        Err(head_fault(m)->0)
    } else {
        match head_at(at) {
            None => Err(Fault::Metal),
            Some(head) => if n > head.drafts || !tellable(entries, m.hidden() as int) || !head_maps(m) || start + n > usize::MAX || head.room.len + n
                > head.room.capacity {
                Err(Fault::Dimension)
            } else {
                Ok(
                    Some(HeadArena { room: KvRoom { len: (head.room.len + n) as usize, ..head.room }, current_is_a: true, ..head }),
                )
            },
        }
    }
}

/// The head behind drafts, or why there is none.
pub open spec fn draft_plan<K: Kernel>(m: DecoderModel<K>, at: ResidentView<K::Cell>, token: usize, n: int, offset: int, limited: bool) -> Result<HeadArena, Fault> {
    if head_fault(m) is Some {
        Err(head_fault(m)->0)
    } else if token > u32::MAX {
        Err(Fault::Dimension)
    } else {
        match head_at(at) {
            None => Err(Fault::Metal),
            Some(head) => if (limited && n > head.drafts) || !head_maps(m) || offset + n > usize::MAX || head.room.len + n > head.room.capacity {
                Err(Fault::Dimension)
            } else {
                Ok(
                    HeadArena {
                        room: KvRoom { len: (head.room.len + n) as usize, ..head.room },
                        current_is_a: if n % 2 == 0 {
                            head.current_is_a
                        } else {
                            !head.current_is_a
                        },
                        ..head
                    },
                )
            },
        }
    }
}

impl<K: Kernel> DecoderModel<K> {
    pub fn check_head(&self) -> (out: Result<(), InferError>)
        ensures
            match out {
                Ok(_) => head_fault(*self) is None,
                Err(error) => head_fault(*self) == Some(error.fault()),
            },
    {
        if self.config.head_dim.is_none() {
            return Err(InferError::Dimension("size of a head unknown"));
        }
        if self.config.rope_theta.is_none() {
            return Err(InferError::Config("no base for the turns"));
        }
        Ok(())
    }

    /// Whether the map of the head puts out rows of the hidden size.
    pub fn is_head_maps(&self) -> (yes: bool)
        ensures
            yes == head_maps(*self),
    {
        match &self.mtp {
            Some(head) => head.fc.out_dim == self.final_norm.data.len(),
            None => false,
        }
    }

    /// Starts drafts from a state behind a history: hands back the row that is handed
    /// over, or nothing where no head stands on a device. What is pending is flushed
    /// before.
    pub fn start_mtp_resident_draft(&self, cache: &mut ResidentCache<K::Cell>, final_state: &Tensor<K::Cell>, history_len: Option<usize>) -> (out: Result<
        Option<Vec<K::Cell>>,
        InferError,
    >)
        requires
            final_state.shape@.len() == 2 ==> final_state.is_matrix(),
        ensures
            ({
                let len = match history_len {
                    Some(len) => len,
                    None => 0,
                };
                let right = final_state.shape@.len() == 2 && final_state.shape@[0] == 1 && final_state.shape@[1] == self.hidden();
                match head_at(old(cache)@) {
                    None => out matches Ok(None) && *final(cache) == *old(cache),
                    Some(head) => if !right || room_cut(head.room, len) is None {
                        &&& out matches Err(error)
                        &&& error is Dimension
                        &&& *final(cache) == *old(cache)
                    } else {
                        &&& out matches Ok(Some(row))
                        &&& row@ == final_state.data@
                        &&& final(cache)@ == with_head(old(cache)@, HeadArena { room: room_cut(head.room, len)->0, current_is_a: true, ..head })
                    },
                }
            }),
    {
        let head: HeadArena = match cache.head() {
            Some(head) => head,
            None => {
                return Ok(None);
            },
        };
        let (rows, cols): (usize, usize) = final_state.as_matrix()?;
        if rows != 1 || cols != self.final_norm.data.len() {
            return Err(InferError::Dimension("one row of the hidden size expected"));
        }
        let len: usize = match history_len {
            Some(len) => len,
            None => 0,
        };
        match cut_room(head.room, len) {
            Some(room) => {
                let row: Vec<K::Cell> = final_state.as_row()?;
                cache.set_head(HeadArena { room, current_is_a: true, ..head });
                Ok(Some(row))
            },
            None => Err(InferError::Dimension("cut is longer than the history")),
        }
    }

    /// Gives the head on a device the history of a head. Nothing is pending then.
    pub fn seed_mtp_resident_history(&self, cache: &mut ResidentCache<K::Cell>, history: &LayerKvCache<K::Cell>) -> (out: Result<(), InferError>)
        ensures
            match head_at(old(cache)@) {
                None => out is Ok && *final(cache) == *old(cache),
                Some(head) => if history@.count() > head.room.capacity {
                    (out matches Err(error) && error is Dimension) && final(cache)@ == with_head(old(cache)@, HeadArena { pending_count: 0, ..head })
                } else {
                    out is Ok && final(cache)@ == with_head(
                        old(cache)@,
                        HeadArena { pending_count: 0, room: KvRoom { len: history@.count() as usize, ..head.room }, ..head },
                    )
                },
            },
    {
        let head: HeadArena = match cache.head() {
            Some(head) => head,
            None => {
                return Ok(());
            },
        };
        let len: usize = history.len();
        if len > head.room.capacity {
            cache.set_head(HeadArena { pending_count: 0, ..head });
            return Err(InferError::Dimension("history longer than the room"));
        }
        let room: KvRoom = KvRoom { capacity: head.room.capacity, len, sampled: head.room.sampled };
        cache.set_head(HeadArena { pending_count: 0, room, ..head });
        Ok(())
    }

    /// Makes the head on a device forget all but its first positions. Nothing is pending
    /// then.
    pub fn truncate_mtp_resident_history(&self, cache: &mut ResidentCache<K::Cell>, len: usize) -> (out: Result<(), InferError>)
        ensures
            match head_at(old(cache)@) {
                None => out is Ok && *final(cache) == *old(cache),
                Some(head) => match room_cut(head.room, len) {
                    Some(room) => out is Ok && final(cache)@ == with_head(old(cache)@, HeadArena { pending_count: 0, room, ..head }),
                    None => (out matches Err(error) && error is Dimension) && final(cache)@ == with_head(
                        old(cache)@,
                        HeadArena { pending_count: 0, ..head },
                    ),
                },
            },
    {
        let head: HeadArena = match cache.head() {
            Some(head) => head,
            None => {
                return Ok(());
            },
        };
        match cut_room(head.room, len) {
            Some(room) => {
                cache.set_head(HeadArena { pending_count: 0, room, ..head });
                Ok(())
            },
            None => {
                cache.set_head(HeadArena { pending_count: 0, ..head });
                Err(InferError::Dimension("cut is longer than the history"))
            },
        }
    }

    /// What a device is told to do for what is pending, and the head behind it.
    pub fn encode_mtp_pending_append_rows(&self, head: HeadArena, expected_history_len: usize) -> (out: Result<(Vec<Command<K::Cell>>, HeadArena), InferError>)
        ensures
            match out {
                Ok((program, after)) => flush_plan(*self, head, expected_history_len) == Result::<(Seq<Command<K::Cell>>, HeadArena), Fault>::Ok(
                    (program@, after),
                ),
                Err(error) => flush_plan(*self, head, expected_history_len) == Result::<(Seq<Command<K::Cell>>, HeadArena), Fault>::Err(error.fault()),
            },
    {
        let mut program: Vec<Command<K::Cell>> = Vec::new();
        if head.pending_count == 0 {
            return match cut_room(head.room, expected_history_len) {
                Some(room) => Ok((program, HeadArena { room, ..head })),
                None => Err(InferError::Dimension("cut is longer than the history")),
            };
        }
        if head.pending_count > 2 || head.pending_start > expected_history_len || expected_history_len - head.pending_start != head.pending_count {
            return Err(InferError::Dimension("what is pending does not end at the history"));
        }
        if head.pending_start > head.room.len || expected_history_len > head.room.capacity || !self.is_head_maps() {
            return Err(InferError::Dimension("no room for what is pending"));
        }
        push_pending(&mut program, head.pending_start, head.pending_count);
        assert(program@ =~= pending_program::<K::Cell>(head.pending_start as int, head.pending_count as int));
        let room: KvRoom = KvRoom { capacity: head.room.capacity, len: expected_history_len, sampled: head.room.sampled };
        Ok((program, HeadArena { room, pending_count: 0, current_is_a: true, ..head }))
    }

    /// What a device is told to do so that nothing is pending.
    pub fn flush_mtp_resident_pending_append(&self, device: bool, cache: &mut ResidentCache<K::Cell>, expected_history_len: usize) -> (out: Result<
        Vec<Command<K::Cell>>,
        InferError,
    >)
        ensures
            if !device || (head_fault(*self) is None && head_at(old(cache)@) is None) {
                (out matches Ok(program) && program@.len() == 0) && *final(cache) == *old(cache)
            } else if head_fault(*self) is Some {
                (out matches Err(error) && head_fault(*self) == Some(error.fault())) && *final(cache) == *old(cache)
            } else {
                match flush_plan(*self, head_at(old(cache)@)->0, expected_history_len) {
                    Ok((program, head)) => (out matches Ok(made) && made@ == program) && final(cache)@ == with_head(old(cache)@, head),
                    Err(fault) => (out matches Err(error) && error.fault() == fault) && *final(cache) == *old(cache),
                }
            },
    {
        if !device {
            return Ok(Vec::new());
        }
        self.check_head()?;
        let head: HeadArena = match cache.head() {
            Some(head) => head,
            None => {
                return Ok(Vec::new());
            },
        };
        let (program, after): (Vec<Command<K::Cell>>, HeadArena) = self.encode_mtp_pending_append_rows(head, expected_history_len)?;
        cache.set_head(after);
        Ok(program)
    }

    /// What a device is told to do so that the head has seen these states and tokens;
    /// nothing where there are none or no device.
    #[verifier::spinoff_prover]
    pub fn append_mtp_resident_history_steps(&self, device: bool, cache: &mut ResidentCache<K::Cell>, entries: &Vec<(Tensor<K::Cell>, usize)>, start_position: usize) -> (out: Result<
        Option<HistoryProgram<K::Cell>>,
        InferError,
    >)
        requires
            all_matrices(entries@),
        ensures
            match history_plan(*self, device, old(cache)@, entries@, start_position) {
                Ok(None) => out matches Ok(None) && *final(cache) == *old(cache),
                Ok(Some(head)) => {
                    &&& out matches Ok(Some(made))
                    &&& made.program@ == history_program::<K::Cell>(start_position as int, entries@.len() as int)
                    &&& made.tokens@.len() == entries@.len()
                    &&& made.states@.len() == entries@.len()
                    &&& forall|i: int| 0 <= i < entries@.len() ==> (#[trigger] made.tokens@[i]) == entries@[i].1
                    &&& forall|i: int| 0 <= i < entries@.len() ==> (#[trigger] made.states@[i])@ == entries@[i].0.data@
                    &&& final(cache)@ == with_head(old(cache)@, head)
                },
                Err(fault) => (out matches Err(error) && error.fault() == fault) && *final(cache) == *old(cache),
            },
    {
        let n: usize = entries.len();
        if n == 0 || !device {
            return Ok(None);
        }
        self.check_head()?;
        let head: HeadArena = match cache.head() {
            Some(head) => head,
            None => {
                return Err(InferError::Metal("no draft head on the device"));
            },
        };
        if n > head.drafts {
            return Err(InferError::Dimension("more entries than drafts"));
        }
        let hidden: usize = self.final_norm.data.len();
        let mut tokens: Vec<u32> = Vec::new();
        let mut states: Vec<Vec<K::Cell>> = Vec::new();
        for i in 0..n
            invariant
                n == entries@.len(),
                hidden == self.hidden(),
                all_matrices(entries@),
                head_fault(*self) is None,
                head_at(old(cache)@) == Some(head),
                *cache == *old(cache),
                device,
                tokens@.len() == i,
                states@.len() == i,
                forall|j: int| 0 <= j < i ==> (#[trigger] tokens@[j]) == entries@[j].1,
                forall|j: int| 0 <= j < i ==> (#[trigger] states@[j])@ == entries@[j].0.data@,
                tellable(entries@.take(i as int), hidden as int),
        {
            let entry: &(Tensor<K::Cell>, usize) = &entries[i];
            assert(entries@[i as int] == *entry);
            let shape_ok: bool = entry.0.shape.len() == 2 && entry.0.shape[0] == 1 && entry.0.shape[1] == hidden;
            if !shape_ok || entry.1 > u32::MAX as usize {
                assert(!tellable(entries@, hidden as int));
                return Err(InferError::Dimension("state or token cannot be told"));
            }
            match entry.0.as_row() {
                Ok(row) => {
                    states.push(row);
                },
                Err(error) => {
                    return Err(error);
                },
            }
            let token: u32 = entry.1 as u32;
            tokens.push(token);
            assert(token == entries@[i as int].1);
            assert(states@[i as int]@ == entries@[i as int].0.data@);
            assert forall|j: int| 0 <= j < i + 1 implies (#[trigger] entries@.take(i + 1)[j]).0.shape@.len() == 2 && entries@.take(i + 1)[j].0.shape@[0] == 1
                && entries@.take(i + 1)[j].0.shape@[1] == hidden && entries@.take(i + 1)[j].1 <= u32::MAX by {
                if j < i {
                    assert(entries@.take(i as int)[j] == entries@[j]);
                }
            }
        }
        assert(entries@.take(n as int) =~= entries@);
        if !self.is_head_maps() || usize::MAX - start_position < n || head.room.len > head.room.capacity || head.room.capacity - head.room.len < n {
            return Err(InferError::Dimension("no room for the history"));
        }
        let mut program: Vec<Command<K::Cell>> = Vec::new();
        push_history(&mut program, start_position, n);
        assert(program@ =~= history_program::<K::Cell>(start_position as int, n as int));
        let room: KvRoom = KvRoom { capacity: head.room.capacity, len: head.room.len + n, sampled: head.room.sampled };
        cache.set_head(HeadArena { room, current_is_a: true, ..head });
        Ok(Some(HistoryProgram { tokens, states, program }))
    }

    fn plan_drafts(&self, cache: &ResidentCache<K::Cell>, token: usize, n: usize, offset: usize, limited: bool) -> (out: Result<HeadArena, InferError>)
        ensures
            match out {
                Ok(head) => draft_plan(*self, cache@, token, n as int, offset as int, limited) == Result::<HeadArena, Fault>::Ok(head) && head_at(cache@) is Some
                    && offset + n <= usize::MAX,
                Err(error) => draft_plan(*self, cache@, token, n as int, offset as int, limited) == Result::<HeadArena, Fault>::Err(error.fault()),
            },
    {
        self.check_head()?;
        if token > u32::MAX as usize {
            return Err(InferError::Dimension("token that a device cannot hold"));
        }
        let head: HeadArena = match cache.head() {
            Some(head) => head,
            None => {
                return Err(InferError::Metal("no draft head on the device"));
            },
        };
        if (limited && n > head.drafts) || !self.is_head_maps() || usize::MAX - offset < n || head.room.len > head.room.capacity || head.room.capacity
            - head.room.len < n {
            return Err(InferError::Dimension("no room for the drafts"));
        }
        let room: KvRoom = KvRoom { capacity: head.room.capacity, len: head.room.len + n, sampled: head.room.sampled };
        let current_is_a: bool = if n % 2 == 0 {
            head.current_is_a
        } else {
            !head.current_is_a
        };
        Ok(HeadArena { room, current_is_a, ..head })
    }

    /// What a device is told to do for one draft, which takes the place of the token it
    /// starts from.
    pub fn next_mtp_draft_resident(&self, device: bool, cache: &mut ResidentCache<K::Cell>, token_id: usize, position: usize) -> (out: Result<DraftProgram<K::Cell>, InferError>)
        ensures
            out is Err ==> *final(cache) == *old(cache),
            !device ==> (out matches Err(error) && error is Metal),
            device ==> match draft_plan(*self, old(cache)@, token_id, 1, position as int, false) {
                Ok(head) => {
                    let index = Slot { place: TokenPlace::HeadIndex, at: 0 };
                    let a_first = (head_at(old(cache)@)->0).current_is_a;
                    &&& out matches Ok(made)
                    &&& made.token == token_id
                    &&& final(cache)@ == with_head(old(cache)@, head)
                    &&& functional(self.kernel) ==> made.program@ == draft_part(
                        self.kernel,
                        index,
                        spot(draft_side(a_first, 0), 0),
                        position as int,
                        spot(draft_side(a_first, 1), 0),
                        index,
                    )
                },
                Err(fault) => out matches Err(error) && error.fault() == fault,
            },
    {
        if !device {
            return Err(InferError::Metal("no device"));
        }
        let after: HeadArena = self.plan_drafts(cache, token_id, 1, position, false)?;
        let a_first: bool = !after.current_is_a;
        let mut program: Vec<Command<K::Cell>> = Vec::new();
        let index: Slot = Slot { place: TokenPlace::HeadIndex, at: 0 };
        let from: Spot = Spot { place: side_of(a_first, 0), row: 0 };
        let out: Spot = Spot { place: side_of(a_first, 1), row: 0 };
        push_draft_part(&self.kernel, &mut program, index, from, position, out, index);
        assert(functional(self.kernel) ==> program@ =~= draft_part(self.kernel, index, from, position as int, out, index));
        cache.set_head(after);
        Ok(DraftProgram { token: token_id as u32, program })
    }

    /// What a device is told to do for several drafts; nothing where there is no device.
    pub fn next_mtp_drafts_resident(&self, device: bool, cache: &mut ResidentCache<K::Cell>, first_token_id: usize, max_draft_tokens: usize, position_offset: usize) -> (out: Result<
        Option<DraftProgram<K::Cell>>,
        InferError,
    >)
        ensures
            max_draft_tokens == 0 ==> (out matches Ok(Some(made)) && made.program@.len() == 0 && made.token == 0) && *final(cache) == *old(cache),
            max_draft_tokens > 0 && !device ==> (out matches Ok(None)) && *final(cache) == *old(cache),
            max_draft_tokens > 0 && device ==> match draft_plan(
                *self,
                old(cache)@,
                first_token_id,
                max_draft_tokens as int,
                position_offset as int,
                true,
            ) {
                Ok(head) => {
                    let a_first = (head_at(old(cache)@)->0).current_is_a;
                    &&& out matches Ok(Some(made))
                    &&& made.token == first_token_id
                    &&& final(cache)@ == with_head(old(cache)@, head)
                    &&& functional(self.kernel) ==> made.program@ == drafts_program(
                        self.kernel,
                        a_first,
                        position_offset as int,
                        max_draft_tokens as int,
                    )
                },
                Err(fault) => (out matches Err(error) && error.fault() == fault) && *final(cache) == *old(cache),
            },
    {
        let mut program: Vec<Command<K::Cell>> = Vec::new();
        if max_draft_tokens == 0 {
            return Ok(Some(DraftProgram { token: 0, program }));
        }
        if !device {
            return Ok(None);
        }
        let after: HeadArena = self.plan_drafts(cache, first_token_id, max_draft_tokens, position_offset, true)?;
        let a_first: bool = match cache.head() {
            Some(head) => head.current_is_a,
            None => true,
        };
        push_drafts(&self.kernel, &mut program, a_first, position_offset, max_draft_tokens);
        assert(functional(self.kernel) ==> program@ =~= drafts_program(
            self.kernel,
            a_first,
            position_offset as int,
            max_draft_tokens as int,
        ));
        cache.set_head(after);
        Ok(Some(DraftProgram { token: first_token_id as u32, program }))
    }
}

} // verus!
