//! One round of drafting and checking that a device does in one go.

use vstd::prelude::*;
use crate::batching::sized;
use crate::device::{law_run_concat, lemma_run_push, run, run_one, spot, Command, Memory, Place, ResidentLayerKind, Slot, Spot, TokenPlace};
use crate::error::{Fault, InferError};
use crate::exactness::lemma_steps_prefix;
use crate::kernel::{functional, Kernel};
use crate::kv::LayerView;
use crate::model::{embed_row, embed_rows, steps, CacheView, DecoderModel};
use crate::mtp_head::mtp_row;
use crate::resident::{has_room_for, HeadArena, KvRoom, ResidentArena, ResidentCache};
use crate::resident_decode::{all_stand, linear_fault, moved_on, ResidentView};
use crate::resident_drafts::{cut_room, flush_plan, head_at, head_fault, head_maps, push_drafts, push_head_step, room_cut, with_head};
use crate::resident_head::{draft_slot, draft_source, drafted, drafts_hold, drafts_program, head_step, law_drafts, law_head_step, lemma_head_stepped};
use crate::resident_verify::{all_kept, batch_program, best_tokens, full_where_due, law_batch_program, layer_batches, lemma_kept_same, other_tokens_same, target_slot, verified};
use crate::resident_fold::rows_hold;
use crate::tensor::Tensor;

verus! {

/// Every layer stands on the device with a dense block.
pub open spec fn dense_trunk<K: Kernel>(m: DecoderModel<K>, kinds: Seq<ResidentLayerKind>) -> bool {
    forall|i: int| 0 <= i < m.layers@.len() ==> #[trigger] layer_batches(m, kinds, false, i)
}

/// A draft is kept: it is the token that the decoder takes for the best one, and that
/// token does not stop.
pub open spec fn kept_draft(draft: usize, target: usize, stop: Seq<usize>) -> bool {
    draft == target && !stop.contains(target)
}

/// Drafts of two that are kept.
pub open spec fn kept_of_two(drafts: (usize, usize), targets: (usize, usize, usize), stop: Seq<usize>) -> int {
    if !kept_draft(drafts.0, targets.0, stop) {
        0
    } else if !kept_draft(drafts.1, targets.1, stop) {
        1
    } else {
        2
    }
}

/// What came of two drafts.
#[derive(Clone, Copy, PartialEq, Eq, Debug)]
pub struct SpecTwoDecision {
    /// Whether each draft is the best token, as far as it was looked at.
    pub accepted: (bool, bool),
    /// Drafts that were looked at.
    pub checked: usize,
    /// Drafts that were kept.
    pub accepted_generated: usize,
    /// Tokens that stay in the decoder: the first one and the drafts that were kept.
    pub committed_rows: usize,
    /// The token behind them.
    pub pending: usize,
    /// That token was told from a draft that was kept.
    pub bonus_verified: bool,
}

pub open spec fn two_decided(drafts: (usize, usize), targets: (usize, usize, usize), stop: Seq<usize>) -> SpecTwoDecision {
    let kept = kept_of_two(drafts, targets, stop);
    SpecTwoDecision {
        accepted: (drafts.0 == targets.0, kept >= 1 && drafts.1 == targets.1),
        checked: if kept >= 1 {
            2
        } else {
            1
        },
        accepted_generated: kept as usize,
        committed_rows: (kept + 1) as usize,
        pending: if kept == 0 {
            targets.0
        } else if kept == 1 {
            targets.1
        } else {
            targets.2
        },
        bonus_verified: kept == 2,
    }
}

fn stops(stop: &Vec<usize>, token: usize) -> (yes: bool)
    ensures
        yes == stop@.contains(token),
{
    for i in 0..stop.len()
        invariant
            forall|j: int| 0 <= j < i ==> stop@[j] != token,
    {
        if stop[i] == token {
            return true;
        }
    }
    false
}

/// What came of two drafts.
pub fn decide_two(drafts: (usize, usize), targets: (usize, usize, usize), stop: &Vec<usize>) -> (decision: SpecTwoDecision)
    ensures
        decision == two_decided(drafts, targets, stop@),
{
    let first: bool = drafts.0 == targets.0;
    if !first || stops(stop, targets.0) {
        return SpecTwoDecision {
            accepted: (first, false),
            checked: 1,
            accepted_generated: 0,
            committed_rows: 1,
            pending: targets.0,
            bonus_verified: false,
        };
    }
    let second: bool = drafts.1 == targets.1;
    if !second || stops(stop, targets.1) {
        return SpecTwoDecision {
            accepted: (first, second),
            checked: 2,
            accepted_generated: 1,
            committed_rows: 2,
            pending: targets.1,
            bonus_verified: false,
        };
    }
    SpecTwoDecision { accepted: (first, second), checked: 2, accepted_generated: 2, committed_rows: 3, pending: targets.2, bonus_verified: true }
}

impl SpecTwoDecision {
    /// The row of the check that linear layers go back to, where not all tokens stay.
    pub fn row_to_go_back_to(&self) -> (row: Option<usize>)
        requires
            self.committed_rows > 0,
        ensures
            row == if self.committed_rows < 3 {
                Some((self.committed_rows - 1) as usize)
            } else {
                None
            },
    {
        if self.committed_rows < 3 {
            Some(self.committed_rows - 1)
        } else {
            None
        }
    }

    /// The tokens that the head is yet to be told of: those that the drafts that were kept
    /// turned out to be.
    pub fn tokens_for_the_head(&self, targets: (usize, usize, usize)) -> (tokens: Vec<usize>)
        ensures
            tokens@ == if self.committed_rows >= 3 {
                seq![targets.0, targets.1]
            } else if self.committed_rows == 2 {
                seq![targets.0]
            } else {
                Seq::empty()
            },
    {
        let mut tokens: Vec<usize> = Vec::new();
        if self.committed_rows >= 2 {
            tokens.push(targets.0);
        }
        if self.committed_rows >= 3 {
            tokens.push(targets.1);
        }
        assert(tokens@ =~= if self.committed_rows >= 3 {
            seq![targets.0, targets.1]
        } else if self.committed_rows == 2 {
            seq![targets.0]
        } else {
            Seq::empty()
        });
        tokens
    }
}

/// Each token is the best token behind the ones before it.
pub open spec fn best_chain<K: Kernel>(m: DecoderModel<K>, cache: CacheView<K::Cell>, tokens: Seq<usize>) -> bool {
    forall|i: int|
        0 < i < tokens.len() ==> crate::resident_verify::best_token(m, (steps(m, cache, #[trigger] tokens.take(i))->0).1.last()) == Some(tokens[i])
}

/// What is kept of two drafts is what the decoder would have taken token by token: each
/// token that stays is the best one behind the tokens before it, and so is the token that
/// is pending.
pub proof fn law_two_drafts_are_best<K: Kernel>(m: DecoderModel<K>, cache: CacheView<K::Cell>, primary: usize, drafts: (usize, usize), targets: (usize, usize, usize), stop: Seq<usize>)
    requires
        steps(m, cache, seq![primary, drafts.0, drafts.1]) is Some,
        best_tokens(m, (steps(m, cache, seq![primary, drafts.0, drafts.1])->0).1) == Some(seq![targets.0, targets.1, targets.2]),
    ensures
        ({
            let decision = two_decided(drafts, targets, stop);
            let committed = seq![primary, drafts.0, drafts.1].take(decision.committed_rows as int);
            best_chain(m, cache, committed.push(decision.pending))
        }),
{
    let tokens = seq![primary, drafts.0, drafts.1];
    let decision = two_decided(drafts, targets, stop);
    let committed = tokens.take(decision.committed_rows as int);
    let chain = committed.push(decision.pending);
    let states = (steps(m, cache, tokens)->0).1;
    let best = seq![targets.0, targets.1, targets.2];
    assert forall|i: int| 0 < i < chain.len() implies crate::resident_verify::best_token(m, (steps(m, cache, #[trigger] chain.take(i))->0).1.last())
        == Some(chain[i]) by {
        assert(chain.take(i) =~= tokens.take(i));
        lemma_steps_prefix(m, cache, tokens, i);
        assert(states.take(i).last() == states[i - 1]);
        assert(crate::resident_verify::best_token(m, states[i - 1]) == Some(best[i - 1]));
    }
}

/// What is kept of one draft is what the decoder would have taken token by token.
pub proof fn law_one_draft_is_best<K: Kernel>(m: DecoderModel<K>, cache: CacheView<K::Cell>, primary: usize, draft: usize, targets: (usize, usize), stop: Seq<usize>)
    requires
        steps(m, cache, seq![primary, draft]) is Some,
        best_tokens(m, (steps(m, cache, seq![primary, draft])->0).1) == Some(seq![targets.0, targets.1]),
    ensures
        best_chain(
            m,
            cache,
            if kept_draft(draft, targets.0, stop) {
                seq![primary, draft, targets.1]
            } else {
                seq![primary, targets.0]
            },
        ),
{
    let tokens = seq![primary, draft];
    let chain = if kept_draft(draft, targets.0, stop) {
        seq![primary, draft, targets.1]
    } else {
        seq![primary, targets.0]
    };
    let states = (steps(m, cache, tokens)->0).1;
    let best = seq![targets.0, targets.1];
    assert forall|i: int| 0 < i < chain.len() implies crate::resident_verify::best_token(m, (steps(m, cache, #[trigger] chain.take(i))->0).1.last())
        == Some(chain[i]) by {
        assert(chain.take(i) =~= tokens.take(i));
        lemma_steps_prefix(m, cache, tokens, i);
        assert(states.take(i).last() == states[i - 1]);
        assert(crate::resident_verify::best_token(m, states[i - 1]) == Some(best[i - 1]));
    }
}

/// The rows that are checked: the row of the first token, and the rows of the drafts.
pub open spec fn gather_rows<C>(n: int) -> Seq<Command<C>>
    decreases n,
{
    if n <= 0 {
        seq![Command::Copy { from: spot(Place::HiddenA, 0), to: spot(Place::BatchA, 0) }]
    } else {
        gather_rows(n - 1).push(Command::Gather { token: draft_slot(n - 1), to: spot(Place::BatchA, n) })
    }
}

/// The program of one draft and its check. A head that is told of what stays is told of
/// the token behind the first one.
pub open spec fn spec_one_program<K: Kernel>(m: DecoderModel<K>, kinds: Seq<ResidentLayerKind>, fresh: bool, history: int, position: int) -> Seq<Command<K::Cell>> {
    let head = drafts_program(m.kernel, true, history, 1) + gather_rows(1) + batch_program(m, true, kinds, Seq::empty(), position, 2, 1, true);
    if fresh {
        head
    } else {
        head + head_step(target_slot(0), spot(Place::FinalStates, 0), history + 1, spot(Place::HeadA, 0))
    }
}

/// The states of the tokens that were checked, put where they wait for the head.
pub open spec fn wait_rows<C>(rows: int) -> Seq<Command<C>> {
    Seq::new(rows as nat, |r: int| Command::Copy { from: spot(Place::FinalStates, r), to: spot(Place::Checked, r) })
}

/// The program of two drafts and their check, behind what is pending.
pub open spec fn spec_two_program<K: Kernel>(m: DecoderModel<K>, kinds: Seq<ResidentLayerKind>, pending: Seq<Command<K::Cell>>, history: int, position: int) -> Seq<
    Command<K::Cell>,
> {
    pending + drafts_program(m.kernel, true, history, 2) + gather_rows(2) + batch_program(m, true, kinds, Seq::empty(), position, 3, 2, true)
        + wait_rows(3)
}

/// The rows of the first token and of the drafts get to their places.
proof fn lemma_gather_rows<K: Kernel>(m: DecoderModel<K>, mem: Memory<K::Cell>, primary: usize, drafts: Seq<usize>, n: int)
    requires
        0 <= n <= drafts.len(),
        drafts.len() < usize::MAX,
        embed_row(m, primary) is Some,
        mem.rows.contains_key(spot(Place::HiddenA, 0)),
        mem.rows[spot(Place::HiddenA, 0)] == embed_row(m, primary)->0,
        drafts_hold(mem, drafts),
    ensures
        ({
            let tokens = seq![primary] + drafts.take(n);
            match embed_rows(m, tokens) {
                Some(xs) => {
                    &&& run(m, mem, gather_rows(n)) matches Some(left)
                    &&& rows_hold(left, Place::BatchA, xs)
                    &&& left.tokens == mem.tokens
                    &&& left.layers == mem.layers
                    &&& left.head == mem.head
                    &&& left.kept == mem.kept
                    &&& left.named == mem.named
                },
                None => run(m, mem, gather_rows(n)) is None,
            }
        }),
    decreases n,
{
    let tokens = seq![primary] + drafts.take(n);
    let first = Command::<K::Cell>::Copy { from: spot(Place::HiddenA, 0), to: spot(Place::BatchA, 0) };
    if n == 0 {
        assert(tokens =~= seq![primary]);
        crate::resident_decode::lemma_one_embedding(m, primary);
        crate::device::lemma_run_copy(m, mem, spot(Place::HiddenA, 0), spot(Place::BatchA, 0));
    } else {
        lemma_gather_rows(m, mem, primary, drafts, n - 1);
        let fewer = seq![primary] + drafts.take(n - 1);
        let draft = drafts[n - 1];
        assert(tokens =~= fewer.push(draft));
        let gather = Command::<K::Cell>::Gather { token: draft_slot(n - 1), to: spot(Place::BatchA, n) };
        lemma_run_push(m, mem, gather_rows(n - 1), gather);
        assert(mem.tokens.contains_key(draft_slot(n - 1)));
        if embed_rows(m, fewer) is Some {
            let xs = embed_rows(m, fewer)->0;
            let before = run(m, mem, gather_rows(n - 1))->0;
            if embed_row(m, draft) is Some {
                let x = embed_row(m, draft)->0;
                assert forall|i: int| 0 <= i < tokens.len() implies (#[trigger] embed_row(m, tokens[i])) is Some by {
                    if i < n {
                        assert(tokens[i] == fewer[i]);
                        assert(embed_row(m, fewer[i]) is Some);
                    }
                }
                assert(embed_rows(m, tokens)->0 =~= xs.push(x)) by {
                    assert forall|i: int| 0 <= i < xs.len() implies (embed_rows(m, tokens)->0)[i] == xs[i] by {
                        assert(tokens[i] == fewer[i]);
                    }
                }
                let left = before.with_row(spot(Place::BatchA, n), x);
                assert(run_one(m, before, gather) == Some(left));
                assert forall|r: int| 0 <= r < xs.push(x).len() implies left.rows.contains_key(#[trigger] spot(Place::BatchA, r)) && left.rows[spot(
                    Place::BatchA,
                    r,
                )] == xs.push(x)[r] by {
                    if r < n {
                        assert(before.rows.contains_key(spot(Place::BatchA, r)));
                        assert(spot(Place::BatchA, r).row == r);
                        assert(spot(Place::BatchA, n).row == n);
                    }
                }
            } else {
                assert(tokens[n] == draft);
                assert(embed_row(m, tokens[n]) is None);
            }
        } else {
            let bad = choose|i: int| 0 <= i < fewer.len() && (#[trigger] embed_row(m, fewer[i])) is None;
            assert(tokens[bad] == fewer[bad]);
            assert(embed_row(m, tokens[bad]) is None);
        }
    }
}

/// What the check of drafts leaves on the device.
pub open spec fn drafts_checked<K: Kernel>(m: DecoderModel<K>, left: Memory<K::Cell>, cache: CacheView<K::Cell>, primary: usize, drafts: Seq<usize>) -> bool {
    let tokens = seq![primary] + drafts;
    let (after, states) = steps(m, cache, tokens)->0;
    &&& verified(m, left, after.layers, states, true)
    &&& all_kept(m, left, cache.layers, embed_rows(m, tokens)->0, cache.position, drafts.len() as int, m.layers@.len() as int)
    &&& drafts_hold(left, drafts)
}

/// Drafts that stand on the device are checked all at once.
#[verifier::spinoff_prover]
proof fn lemma_check<K: Kernel>(m: DecoderModel<K>, mem: Memory<K::Cell>, cache: CacheView<K::Cell>, kinds: Seq<ResidentLayerKind>, primary: usize, drafts: Seq<usize>)
    requires
        m.fits(cache),
        sized(m),
        full_where_due(m),
        kinds.len() == m.layers@.len(),
        m.layers@.len() <= usize::MAX,
        0 <= cache.position,
        drafts.len() < usize::MAX,
        cache.position + drafts.len() + 1 <= usize::MAX,
        mem.layers == cache.layers,
        embed_row(m, primary) is Some,
        mem.rows.contains_key(spot(Place::HiddenA, 0)),
        mem.rows[spot(Place::HiddenA, 0)] == embed_row(m, primary)->0,
        drafts_hold(mem, drafts),
    ensures
        ({
            let n = drafts.len() as int;
            let program = gather_rows(n) + batch_program(m, true, kinds, Seq::empty(), cache.position, n + 1, n, true);
            match steps(m, cache, seq![primary] + drafts) {
                Some((_, states)) => match best_tokens(m, states) {
                    Some(_) => run(m, mem, program) matches Some(left) && drafts_checked(m, left, cache, primary, drafts) && left.head == mem.head,
                    None => run(m, mem, program) is None,
                },
                None => run(m, mem, program) is None,
            }
        }),
{
    let n = drafts.len() as int;
    let tokens = seq![primary] + drafts;
    let none = Seq::<usize>::empty();
    let first = gather_rows::<K::Cell>(n);
    let second = batch_program(m, true, kinds, none, cache.position, n + 1, n, true);
    assert(drafts.take(n) =~= drafts);
    lemma_gather_rows(m, mem, primary, drafts, n);
    law_run_concat(m, mem, first, second);
    crate::batching::lemma_fold_is_steps(m, cache, tokens);
    if embed_rows(m, tokens) is Some {
        let mid = run(m, mem, first)->0;
        law_batch_program(m, mid, true, cache, tokens, kinds, none, n, true);
        if steps(m, cache, tokens) is Some && best_tokens(m, (steps(m, cache, tokens)->0).1) is Some {
            let left = run(m, mid, second)->0;
            reveal(other_tokens_same);
            assert forall|i: int| 0 <= i < drafts.len() implies left.tokens.contains_key(#[trigger] draft_slot(i)) && left.tokens[draft_slot(i)]
                == drafts[i] by {
                assert(mem.tokens.contains_key(draft_slot(i)));
                assert(left.tokens.contains_key(draft_slot(i)) == mid.tokens.contains_key(draft_slot(i)));
            }
        }
    }
}

/// A step of the head leaves what was checked as it is.
proof fn lemma_checked_stays<K: Kernel>(m: DecoderModel<K>, mem: Memory<K::Cell>, left: Memory<K::Cell>, cache: CacheView<K::Cell>, primary: usize, drafts: Seq<usize>, after: LayerView<K::Cell>, state: Seq<K::Cell>)
    requires
        drafts_checked(m, mem, cache, primary, drafts),
        crate::resident_head::head_stepped(mem, left, spot(Place::HeadA, 0), after, state),
    ensures
        drafts_checked(m, left, cache, primary, drafts),
{
    let a = spot(Place::HeadA, 0);
    let tokens = seq![primary] + drafts;
    let states = (steps(m, cache, tokens)->0).1;
    lemma_head_stepped(mem, left, a, after, state, a);
    assert(rows_hold(left, Place::FinalStates, states)) by {
        assert forall|r: int| 0 <= r < states.len() implies left.rows.contains_key(#[trigger] spot(Place::FinalStates, r)) && left.rows[spot(
            Place::FinalStates,
            r,
        )] == states[r] by {
            assert(mem.rows.contains_key(spot(Place::FinalStates, r)));
            lemma_head_stepped(mem, left, a, after, state, spot(Place::FinalStates, r));
        }
    }
    lemma_kept_same(m, mem, left, cache.layers, embed_rows(m, tokens)->0, cache.position, drafts.len() as int, m.layers@.len() as int);
}

/// The device is ready for a round: it holds the state and the token that the head starts
/// from, and the row that the token starts from.
pub open spec fn round_ready<K: Kernel>(m: DecoderModel<K>, mem: Memory<K::Cell>, cache: CacheView<K::Cell>, primary: usize) -> bool {
    &&& mem.layers == cache.layers
    &&& mem.tokens.contains_key(draft_source(0))
    &&& mem.tokens[draft_source(0)] == primary
    &&& mem.rows.contains_key(spot(Place::HeadA, 0))
    &&& embed_row(m, primary) is Some
    &&& mem.rows.contains_key(spot(Place::HiddenA, 0))
    &&& mem.rows[spot(Place::HiddenA, 0)] == embed_row(m, primary)->0
}

/// A decoder that a round can be made with.
pub open spec fn round_fits<K: Kernel>(m: DecoderModel<K>, cache: CacheView<K::Cell>, kinds: Seq<ResidentLayerKind>, history: int) -> bool {
    &&& m.fits(cache)
    &&& sized(m)
    &&& full_where_due(m)
    &&& m.mtp is Some
    &&& kinds.len() == m.layers@.len()
    &&& m.layers@.len() <= usize::MAX
    &&& 0 <= cache.position
    &&& cache.position + 3 <= usize::MAX
    &&& 0 <= history
    &&& history + 2 <= usize::MAX
}

/// The first part of a round: drafts, and their check.
#[verifier::spinoff_prover]
proof fn lemma_round<K: Kernel>(m: DecoderModel<K>, mem: Memory<K::Cell>, cache: CacheView<K::Cell>, kinds: Seq<ResidentLayerKind>, history: int, primary: usize, n: int)
    requires
        0 <= n <= 2,
        round_fits(m, cache, kinds, history),
        round_ready(m, mem, cache, primary),
    ensures
        ({
            let program = drafts_program(m.kernel, true, history, n) + gather_rows(n) + batch_program(
                m,
                true,
                kinds,
                Seq::empty(),
                cache.position,
                n + 1,
                n,
                true,
            );
            match drafted(m, mem.head, mem.rows[spot(Place::HeadA, 0)], primary, history, n) {
                Some((view, _, drafts)) => match steps(m, cache, seq![primary] + drafts) {
                    Some((_, states)) => match best_tokens(m, states) {
                        Some(_) => {
                            &&& run(m, mem, program) matches Some(left)
                            &&& drafts.len() == n
                            &&& drafts_checked(m, left, cache, primary, drafts)
                            &&& left.head == view
                        },
                        None => run(m, mem, program) is None,
                    },
                    None => run(m, mem, program) is None,
                },
                None => run(m, mem, program) is None,
            }
        }),
{
    let first = drafts_program(m.kernel, true, history, n);
    let second = gather_rows::<K::Cell>(n);
    let third = batch_program(m, true, kinds, Seq::empty(), cache.position, n + 1, n, true);
    law_drafts(m, mem, true, history, n);
    assert((first + second) + third =~= first + (second + third));
    law_run_concat(m, mem, first, second + third);
    if run(m, mem, first) is Some {
        let mid = run(m, mem, first)->0;
        let drafts = (drafted(m, mem.head, mem.rows[spot(Place::HeadA, 0)], primary, history, n)->0).2;
        crate::device::lemma_elsewhere_at(mem, mid, crate::resident_head::draft_places(), spot(Place::HiddenA, 0));
        lemma_check(m, mid, cache, kinds, primary, drafts);
    }
}

/// The program of one draft and its check leaves on the device the draft, the state behind
/// the first token and behind the draft, the best token behind each, and what linear
/// layers had seen behind the first token. The head has seen the first token, and the
/// token behind it where it is told of what stays.
#[verifier::spinoff_prover]
pub proof fn law_spec_one<K: Kernel>(m: DecoderModel<K>, mem: Memory<K::Cell>, cache: CacheView<K::Cell>, kinds: Seq<ResidentLayerKind>, fresh: bool, history: int, primary: usize)
    requires
        round_fits(m, cache, kinds, history),
        round_ready(m, mem, cache, primary),
    ensures
        ({
            let ran = run(m, mem, spec_one_program(m, kinds, fresh, history, cache.position));
            match drafted(m, mem.head, mem.rows[spot(Place::HeadA, 0)], primary, history, 1) {
                Some((view, _, drafts)) => match steps(m, cache, seq![primary] + drafts) {
                    Some((_, states)) => match best_tokens(m, states) {
                        Some(targets) => if fresh {
                            ran matches Some(left) && drafts_checked(m, left, cache, primary, drafts) && left.head == view
                        } else {
                            match mtp_row(m, view, states[0], targets[0], history + 1) {
                                Some((after, _)) => ran matches Some(left) && drafts_checked(m, left, cache, primary, drafts) && left.head == after,
                                None => ran is None,
                            }
                        },
                        None => ran is None,
                    },
                    None => ran is None,
                },
                None => ran is None,
            }
        }),
{
    lemma_round(m, mem, cache, kinds, history, primary, 1);
    if !fresh {
        let head = drafts_program(m.kernel, true, history, 1) + gather_rows(1) + batch_program(
            m,
            true,
            kinds,
            Seq::empty(),
            cache.position,
            2,
            1,
            true,
        );
        let a = spot(Place::HeadA, 0);
        let told = head_step::<K::Cell>(target_slot(0), spot(Place::FinalStates, 0), history + 1, a);
        law_run_concat(m, mem, head, told);
        if run(m, mem, head) is Some {
            let mid = run(m, mem, head)->0;
            let drafts = (drafted(m, mem.head, mem.rows[a], primary, history, 1)->0).2;
            crate::batching::lemma_steps_position(m, cache, seq![primary] + drafts);
            assert(mid.tokens.contains_key(target_slot(0)));
            assert(mid.rows.contains_key(spot(Place::FinalStates, 0)));
            law_head_step(m, mid, target_slot(0), spot(Place::FinalStates, 0), history + 1, a);
            if run(m, mid, told) is Some {
                let left = run(m, mid, told)->0;
                let (after, state) = mtp_row(m, mid.head, mid.rows[spot(Place::FinalStates, 0)], mid.tokens[target_slot(0)], history + 1)->0;
                lemma_checked_stays(m, mid, left, cache, primary, drafts, after, state);
            }
        }
    }
}

/// States get to where they wait for the head.
proof fn lemma_wait_rows<K: Kernel>(m: DecoderModel<K>, mem: Memory<K::Cell>, cache: CacheView<K::Cell>, primary: usize, drafts: Seq<usize>, states: Seq<Seq<K::Cell>>, j: int)
    requires
        0 <= j <= states.len(),
        states.len() <= usize::MAX,
        states == (steps(m, cache, seq![primary] + drafts)->0).1,
        drafts_checked(m, mem, cache, primary, drafts),
    ensures
        ({
            &&& run(m, mem, wait_rows(j)) matches Some(left)
            &&& drafts_checked(m, left, cache, primary, drafts)
            &&& rows_hold(left, Place::Checked, states.take(j))
            &&& left.head == mem.head
        }),
    decreases j,
{
    if j == 0 {
        assert(run(m, mem, wait_rows(0)) == Some(mem));
    } else {
        lemma_wait_rows(m, mem, cache, primary, drafts, states, j - 1);
        assert(wait_rows::<K::Cell>(j).drop_last() =~= wait_rows::<K::Cell>(j - 1));
        let before = run(m, mem, wait_rows(j - 1))->0;
        assert(before.rows.contains_key(spot(Place::FinalStates, j - 1)));
        let left = before.with_row(spot(Place::Checked, j - 1), states[j - 1]);
        assert(run(m, mem, wait_rows(j)) == Some(left));
        assert(rows_hold(left, Place::FinalStates, states)) by {
            assert forall|r: int| 0 <= r < states.len() implies left.rows.contains_key(#[trigger] spot(Place::FinalStates, r)) && left.rows[spot(
                Place::FinalStates,
                r,
            )] == states[r] by {
                assert(before.rows.contains_key(spot(Place::FinalStates, r)));
            }
        }
        assert(rows_hold(left, Place::Checked, states.take(j))) by {
            assert forall|r: int| 0 <= r < j implies left.rows.contains_key(#[trigger] spot(Place::Checked, r)) && left.rows[spot(Place::Checked, r)]
                == states.take(j)[r] by {
                if r < j - 1 {
                    assert(before.rows.contains_key(spot(Place::Checked, r)));
                    assert(before.rows[spot(Place::Checked, r)] == states.take(j - 1)[r]);
                    assert(spot(Place::Checked, r).row == r);
                    assert(spot(Place::Checked, j - 1).row == j - 1);
                }
            }
        }
        lemma_kept_same(
            m,
            before,
            left,
            cache.layers,
            embed_rows(m, seq![primary] + drafts)->0,
            cache.position,
            drafts.len() as int,
            m.layers@.len() as int,
        );
    }
}

/// The program of two drafts and their check first tells the head of what is pending. It
/// leaves on the device the drafts, the state behind the first token and behind each
/// draft, the best token behind each, and what linear layers had seen behind all but the
/// last. The states wait for the head.
#[verifier::spinoff_prover]
pub proof fn law_spec_two<K: Kernel>(
    m: DecoderModel<K>,
    mem: Memory<K::Cell>,
    cache: CacheView<K::Cell>,
    kinds: Seq<ResidentLayerKind>,
    items: Seq<(Seq<K::Cell>, usize)>,
    history: int,
    primary: usize,
)
    requires
        round_fits(m, cache, kinds, history),
        round_ready(m, mem, cache, primary),
        items.len() <= history,
        crate::resident_drafts::pending_holds(mem, items),
    ensures
        ({
            let n = items.len() as int;
            let pending = crate::resident_drafts::pending_program(history - n, n);
            let ran = run(m, mem, spec_two_program(m, kinds, pending, history, cache.position));
            match crate::resident_drafts::seen_of(m, mem.head, items, history - n) {
                Some(seen) => match drafted(m, seen, mem.rows[spot(Place::HeadA, 0)], primary, history, 2) {
                    Some((view, _, drafts)) => match steps(m, cache, seq![primary] + drafts) {
                        Some((_, states)) => match best_tokens(m, states) {
                            Some(_) => {
                                &&& ran matches Some(left)
                                &&& drafts_checked(m, left, cache, primary, drafts)
                                &&& rows_hold(left, Place::Checked, states)
                                &&& left.head == view
                            },
                            None => ran is None,
                        },
                        None => ran is None,
                    },
                    None => ran is None,
                },
                None => ran is None,
            }
        }),
{
    let n = items.len() as int;
    let a = spot(Place::HeadA, 0);
    let pending = crate::resident_drafts::pending_program::<K::Cell>(history - n, n);
    let round = drafts_program(m.kernel, true, history, 2) + gather_rows(2) + batch_program(
        m,
        true,
        kinds,
        Seq::empty(),
        cache.position,
        3,
        2,
        true,
    );
    let wait = wait_rows::<K::Cell>(3);
    assert(spec_two_program(m, kinds, pending, history, cache.position) =~= pending + round + wait);
    assert(items.take(n) =~= items);
    crate::resident_drafts::law_pending(m, mem, items, history - n, n);
    law_run_concat(m, mem, pending, round);
    law_run_concat(m, mem, pending + round, wait);
    if run(m, mem, pending) is Some {
        let told = run(m, mem, pending)->0;
        crate::device::lemma_elsewhere_at(mem, told, crate::resident_drafts::pending_places(), a);
        crate::device::lemma_elsewhere_at(mem, told, crate::resident_drafts::pending_places(), spot(Place::HiddenA, 0));
        lemma_round(m, told, cache, kinds, history, primary, 2);
        if run(m, told, round) is Some {
            let mid = run(m, told, round)->0;
            let drafts = (drafted(m, told.head, told.rows[a], primary, history, 2)->0).2;
            crate::batching::lemma_steps_position(m, cache, seq![primary] + drafts);
            let states = (steps(m, cache, seq![primary] + drafts)->0).1;
            lemma_wait_rows(m, mid, cache, primary, drafts, states, 3);
            assert(states.take(3) =~= states);
        }
    }
}

/// What stands in the way of a round.
pub open spec fn round_plan<K: Kernel>(m: DecoderModel<K>, device: bool, at: ResidentView<K::Cell>, shape: Seq<usize>, primary: usize, two: bool) -> Result<
    Option<HeadArena>,
    Fault,
> {
    if !device {
        Ok(None)
    } else if head_fault(m) is Some {
        Err(head_fault(m)->0)
    } else if primary > u32::MAX {
        Err(Fault::Dimension)
    } else if linear_fault(m) is Some {
        Err(linear_fault(m)->0)
    } else if at.arena is None || (at.arena->0).timed || !dense_trunk(m, (at.arena->0).kinds) {
        Ok(None)
    } else {
        match head_at(at) {
            None => Ok(None),
            Some(head) => if two && head.drafts < 2 {
                Ok(None)
            } else if shape.len() != 2 || shape[0] != 1 || shape[1] != m.hidden() {
                Err(Fault::Dimension)
            } else {
                Ok(Some(head))
            },
        }
    }
}

/// What a device is told to do for a round, and what is handed over before: the state and
/// the token that the head starts from, and the row that the token starts from.
pub struct RoundProgram<C> {
    pub state: Vec<C>,
    pub token: u32,
    pub embedding: Vec<C>,
    pub program: Vec<Command<C>>,
}

/// The program of a round with one draft and the head behind it; nothing where it cannot
/// be made, or why it is refused.
pub open spec fn spec_one_plan<K: Kernel>(m: DecoderModel<K>, device: bool, at: ResidentView<K::Cell>, shape: Seq<usize>, primary: usize, fresh: bool, history_len: usize) -> Result<
    Option<(Seq<Command<K::Cell>>, HeadArena)>,
    Fault,
> {
    let history = if fresh {
        0
    } else {
        history_len
    };
    let told: int = if fresh {
        1
    } else {
        2
    };
    match round_plan(m, device, at, shape, primary, false) {
        Err(fault) => Err(fault),
        Ok(None) => Ok(None),
        Ok(Some(head)) => if room_cut(head.room, history) is None || embed_row(m, primary) is None {
            Err(Fault::Dimension)
        } else {
            match all_stand(m, (at.arena->0).kinds, at.rooms, at.cache, m.layers@.len() as int) {
                Err(fault) => Err(fault),
                Ok(kinds) => if !head_maps(m) || history + told > head.room.capacity || at.cache.position + 2 > usize::MAX || !has_room_for(at.rooms, 2) {
                    Err(Fault::Dimension)
                } else {
                    Ok(
                        Some(
                            (
                                spec_one_program(m, kinds, fresh, history as int, at.cache.position),
                                HeadArena { room: KvRoom { len: (history + told) as usize, ..head.room }, current_is_a: true, ..head },
                            ),
                        ),
                    )
                },
            }
        },
    }
}

/// The program of a round with two drafts and the head behind it; nothing where it cannot
/// be made, or why it is refused.
pub open spec fn spec_two_plan<K: Kernel>(m: DecoderModel<K>, device: bool, at: ResidentView<K::Cell>, shape: Seq<usize>, primary: usize, history_len: usize) -> Result<
    Option<(Seq<Command<K::Cell>>, HeadArena)>,
    Fault,
> {
    match round_plan(m, device, at, shape, primary, true) {
        Err(fault) => Err(fault),
        Ok(None) => Ok(None),
        Ok(Some(head)) => match flush_plan(m, head, history_len) {
            Err(fault) => Err(fault),
            Ok((pending, flushed)) => if embed_row(m, primary) is None {
                Err(Fault::Dimension)
            } else {
                match all_stand(m, (at.arena->0).kinds, at.rooms, at.cache, m.layers@.len() as int) {
                    Err(fault) => Err(fault),
                    Ok(kinds) => if !head_maps(m) || history_len + 2 > head.room.capacity || at.cache.position + 3 > usize::MAX || !has_room_for(at.rooms, 3) {
                        Err(Fault::Dimension)
                    } else {
                        Ok(
                            Some(
                                (
                                    spec_two_program(m, kinds, pending, history_len as int, at.cache.position),
                                    HeadArena {
                                        room: KvRoom { len: (history_len + 1) as usize, ..flushed.room },
                                        current_is_a: true,
                                        ..flushed
                                    },
                                ),
                            ),
                        )
                    },
                }
            },
        },
    }
}

fn push_gather_rows<C: Copy>(program: &mut Vec<Command<C>>, n: usize)
    requires
        n < usize::MAX,
    ensures
        final(program)@ == old(program)@ + gather_rows::<C>(n as int),
{
    let ghost start = program@;
    program.push(Command::Copy { from: Spot { place: Place::HiddenA, row: 0 }, to: Spot { place: Place::BatchA, row: 0 } });
    assert(program@ =~= start + gather_rows::<C>(0));
    for i in 0..n
        invariant
            n < usize::MAX,
            program@ == start + gather_rows::<C>(i as int),
    {
        program.push(Command::Gather { token: Slot { place: TokenPlace::Drafts, at: i }, to: Spot { place: Place::BatchA, row: i + 1 } });
        assert(program@ =~= start + gather_rows::<C>(i + 1));
    }
}

fn push_wait_rows<C: Copy>(program: &mut Vec<Command<C>>, rows: usize)
    ensures
        final(program)@ == old(program)@ + wait_rows::<C>(rows as int),
{
    let ghost start = program@;
    let ghost all = wait_rows::<C>(rows as int);
    assert(start + all.take(0) =~= start);
    for r in 0..rows
        invariant
            all == wait_rows::<C>(rows as int),
            program@ == start + all.take(r as int),
    {
        program.push(Command::Copy { from: Spot { place: Place::FinalStates, row: r }, to: Spot { place: Place::Checked, row: r } });
        assert(all.take(r + 1) =~= all.take(r as int).push(all[r as int]));
        assert(program@ =~= start + all.take(r + 1));
    }
    assert(all.take(rows as int) =~= all);
}

impl<K: Kernel> DecoderModel<K> {
    fn is_dense_trunk(&self, kinds: &Vec<ResidentLayerKind>) -> (yes: bool)
        ensures
            yes == dense_trunk(*self, kinds@),
    {
        for i in 0..self.layers.len()
            invariant
                forall|j: int| 0 <= j < i ==> #[trigger] layer_batches(*self, kinds@, false, j),
        {
            if !self.is_layer_batches(kinds, false, i) {
                assert(!layer_batches(*self, kinds@, false, i as int));
                return false;
            }
        }
        true
    }

    fn plan_round(&self, device: bool, cache: &ResidentCache<K::Cell>, final_state: &Tensor<K::Cell>, primary: usize, two: bool) -> (out: Result<Option<HeadArena>, InferError>)
        ensures
            match out {
                Ok(head) => round_plan(*self, device, cache@, final_state.shape@, primary, two) == Result::<Option<HeadArena>, Fault>::Ok(head),
                Err(error) => round_plan(*self, device, cache@, final_state.shape@, primary, two) == Result::<Option<HeadArena>, Fault>::Err(error.fault()),
            },
    {
        if !device {
            return Ok(None);
        }
        self.check_head()?;
        if primary > u32::MAX as usize {
            return Err(InferError::Dimension("token that a device cannot hold"));
        }
        self.check_linear_sizes()?;
        let arena: &ResidentArena = match &cache.arena {
            Some(arena) => arena,
            None => {
                return Ok(None);
            },
        };
        if arena.timed || !self.is_dense_trunk(&arena.kinds) {
            return Ok(None);
        }
        let head: HeadArena = match arena.head {
            Some(head) => head,
            None => {
                return Ok(None);
            },
        };
        if two && head.drafts < 2 {
            return Ok(None);
        }
        let (rows, cols): (usize, usize) = final_state.as_matrix()?;
        if rows != 1 || cols != self.final_norm.data.len() {
            return Err(InferError::Dimension("one row of the hidden size expected"));
        }
        Ok(Some(head))
    }

    pub fn embedded_row(&self, token: usize) -> (out: Result<Vec<K::Cell>, InferError>)
        ensures
            out matches Err(error) ==> error is Dimension,
            functional(self.kernel) ==> match out {
                Ok(row) => embed_row(*self, token) == Some(row@),
                Err(_) => embed_row(*self, token) is None,
            },
    {
        let mut one: Vec<usize> = Vec::new();
        one.push(token);
        let embedded: Result<Tensor<K::Cell>, InferError> = self.embed_scaled(&one);
        proof {
            crate::resident_decode::lemma_one_embedding(*self, token);
            assert(one@ =~= seq![token]);
            if embedded is Ok {
                (embedded->Ok_0).lemma_rows();
            }
        }
        embedded?.as_row()
    }

    /// What a device is told to do for a round with one draft; nothing where it cannot be
    /// made.
    pub fn next_mtp_spec_one_resident(&self, device: bool, cache: &mut ResidentCache<K::Cell>, final_state: &Tensor<K::Cell>, primary: usize, history_len: usize, fresh: bool) -> (out: Result<
        Option<RoundProgram<K::Cell>>,
        InferError,
    >)
        requires
            self.fits(old(cache).cache@),
            old(cache).rooms@.len() == self.layers@.len(),
            final_state.shape@.len() == 2 ==> final_state.is_matrix(),
        ensures
            !(out matches Ok(Some(_))) ==> *final(cache) == *old(cache),
            functional(self.kernel) ==> match spec_one_plan(*self, device, old(cache)@, final_state.shape@, primary, fresh, history_len) {
                Ok(None) => out matches Ok(None),
                Ok(Some((program, head))) => {
                    &&& out matches Ok(Some(made))
                    &&& made.program@ == program
                    &&& made.state@ == final_state.data@
                    &&& made.token == primary
                    &&& embed_row(*self, primary) == Some(made.embedding@)
                    &&& final(cache)@ == with_head(old(cache)@, head)
                },
                Err(fault) => out matches Err(error) && error.fault() == fault,
            },
    {
        let head: HeadArena = match self.plan_round(device, cache, final_state, primary, false)? {
            Some(head) => head,
            None => {
                return Ok(None);
            },
        };
        let history: usize = if fresh {
            0
        } else {
            history_len
        };
        if history > head.room.len {
            return Err(InferError::Dimension("cut is longer than the history"));
        }
        let embedding: Vec<K::Cell> = self.embedded_row(primary)?;
        let kinds: Vec<ResidentLayerKind> = match &cache.arena {
            Some(arena) => self.resident_layers(arena, cache)?,
            None => Vec::new(),
        };
        let told: usize = if fresh {
            1
        } else {
            2
        };
        let position: usize = cache.cache.position;
        if !self.is_head_maps() || history > head.room.capacity || head.room.capacity - history < told || usize::MAX - position < 2 || !cache.can_grow_by(2) {
            return Err(InferError::Dimension("no room for the round"));
        }
        let state: Vec<K::Cell> = final_state.as_row()?;
        let ids: Vec<usize> = Vec::new();
        let mut program: Vec<Command<K::Cell>> = Vec::new();
        push_drafts(&self.kernel, &mut program, true, history, 1);
        push_gather_rows(&mut program, 1);
        self.push_batch(&mut program, true, &kinds, &ids, position, 2, 1, true);
        if !fresh {
            push_head_step(
                &mut program,
                Slot { place: TokenPlace::Targets, at: 0 },
                Spot { place: Place::FinalStates, row: 0 },
                history + 1,
                Spot { place: Place::HeadA, row: 0 },
            );
        }
        assert(ids@ =~= Seq::empty());
        assert(functional(self.kernel) ==> program@ =~= spec_one_program(*self, kinds@, fresh, history as int, position as int));
        let room: KvRoom = KvRoom { capacity: head.room.capacity, len: history + told, sampled: head.room.sampled };
        cache.set_head(HeadArena { room, current_is_a: true, ..head });
        Ok(Some(RoundProgram { state, token: primary as u32, embedding, program }))
    }

    /// What a device is told to do for a round with two drafts; nothing where it cannot be
    /// made.
    pub fn next_mtp_spec_two_resident(&self, device: bool, cache: &mut ResidentCache<K::Cell>, final_state: &Tensor<K::Cell>, primary: usize, history_len: usize) -> (out: Result<
        Option<RoundProgram<K::Cell>>,
        InferError,
    >)
        requires
            self.fits(old(cache).cache@),
            old(cache).rooms@.len() == self.layers@.len(),
            final_state.shape@.len() == 2 ==> final_state.is_matrix(),
        ensures
            !(out matches Ok(Some(_))) ==> *final(cache) == *old(cache),
            functional(self.kernel) ==> match spec_two_plan(*self, device, old(cache)@, final_state.shape@, primary, history_len) {
                Ok(None) => out matches Ok(None),
                Ok(Some((program, head))) => {
                    &&& out matches Ok(Some(made))
                    &&& made.program@ == program
                    &&& made.state@ == final_state.data@
                    &&& made.token == primary
                    &&& embed_row(*self, primary) == Some(made.embedding@)
                    &&& final(cache)@ == with_head(old(cache)@, head)
                },
                Err(fault) => out matches Err(error) && error.fault() == fault,
            },
    {
        let head: HeadArena = match self.plan_round(device, cache, final_state, primary, true)? {
            Some(head) => head,
            None => {
                return Ok(None);
            },
        };
        let (pending, flushed): (Vec<Command<K::Cell>>, HeadArena) = self.encode_mtp_pending_append_rows(head, history_len)?;
        let embedding: Vec<K::Cell> = self.embedded_row(primary)?;
        let kinds: Vec<ResidentLayerKind> = match &cache.arena {
            Some(arena) => self.resident_layers(arena, cache)?,
            None => Vec::new(),
        };
        let position: usize = cache.cache.position;
        if !self.is_head_maps() || history_len > head.room.capacity || head.room.capacity - history_len < 2 || usize::MAX - position < 3
            || !cache.can_grow_by(3) {
            return Err(InferError::Dimension("no room for the round"));
        }
        let state: Vec<K::Cell> = final_state.as_row()?;
        let ids: Vec<usize> = Vec::new();
        let ghost flush = pending@;
        let mut program: Vec<Command<K::Cell>> = pending;
        push_drafts(&self.kernel, &mut program, true, history_len, 2);
        push_gather_rows(&mut program, 2);
        self.push_batch(&mut program, true, &kinds, &ids, position, 3, 2, true);
        push_wait_rows(&mut program, 3);
        assert(ids@ =~= Seq::empty());
        assert(functional(self.kernel) ==> program@ =~= spec_two_program(*self, kinds@, flush, history_len as int, position as int));
        let room: KvRoom = KvRoom { capacity: flushed.room.capacity, len: history_len + 1, sampled: flushed.room.sampled };
        cache.set_head(HeadArena { room, current_is_a: true, ..flushed });
        Ok(Some(RoundProgram { state, token: primary as u32, embedding, program }))
    }

    /// What stays of a round with one draft: hands back whether the draft is kept. Where it
    /// is not, linear layers get back what was kept behind the first token.
    pub fn finish_spec_one(&self, cache: &mut ResidentCache<K::Cell>, draft: usize, target: usize, history_len: usize, fresh: bool, stop_token_ids: &Vec<usize>) -> (kept: bool)
        requires
            old(cache).cache.position + 2 <= usize::MAX,
            has_room_for(old(cache).rooms@, 2),
            head_at(old(cache)@) is Some,
            history_len < usize::MAX,
        ensures
            kept == kept_draft(draft, target, stop_token_ids@),
            ({
                let head = head_at(old(cache)@)->0;
                let len = if fresh {
                    1
                } else {
                    (history_len + 1) as usize
                };
                final(cache)@ == if kept {
                    moved_on(old(cache)@, 2)
                } else {
                    with_head(
                        moved_on(old(cache)@, 1),
                        match room_cut(head.room, len) {
                            Some(room) => HeadArena { room, ..head },
                            None => head,
                        },
                    )
                }
            }),
    {
        let kept: bool = draft == target && !stops(stop_token_ids, target);
        let position: usize = cache.cache.position;
        if kept {
            cache.grow_by(2);
            cache.cache.position = position + 2;
            assert(cache@ =~= moved_on(old(cache)@, 2));
            return true;
        }
        cache.grow_by(1);
        cache.cache.position = position + 1;
        assert(cache@ =~= moved_on(old(cache)@, 1));
        if let Some(head) = cache.head() {
            let len: usize = if fresh {
                1
            } else {
                history_len + 1
            };
            let after: HeadArena = match cut_room(head.room, len) {
                Some(room) => HeadArena { room, ..head },
                None => head,
            };
            cache.set_head(after);
        }
        false
    }

    /// What stays of a round with two drafts. Where not all drafts are kept, linear layers
    /// get back what was kept behind the last token that stays. The drafts that are kept
    /// are pending for the head.
    pub fn finish_spec_two(&self, cache: &mut ResidentCache<K::Cell>, drafts: (usize, usize), targets: (usize, usize, usize), history_len: usize, stop_token_ids: &Vec<usize>) -> (decision: SpecTwoDecision)
        requires
            old(cache).cache.position + 3 <= usize::MAX,
            has_room_for(old(cache).rooms@, 3),
            head_at(old(cache)@) is Some,
            history_len < usize::MAX,
        ensures
            decision == two_decided(drafts, targets, stop_token_ids@),
            ({
                let head = head_at(old(cache)@)->0;
                let rows = decision.committed_rows as int;
                final(cache)@ == with_head(
                    moved_on(old(cache)@, rows),
                    HeadArena {
                        pending_start: if rows > 1 {
                            (history_len + 1) as usize
                        } else {
                            head.pending_start
                        },
                        pending_count: (rows - 1) as usize,
                        current_is_a: true,
                        ..head
                    },
                )
            }),
    {
        let decision: SpecTwoDecision = decide_two(drafts, targets, stop_token_ids);
        let rows: usize = decision.committed_rows;
        let position: usize = cache.cache.position;
        cache.grow_by(rows);
        cache.cache.position = position + rows;
        assert(cache@ =~= moved_on(old(cache)@, rows as int));
        if let Some(head) = cache.head() {
            let pending_start: usize = if rows > 1 {
                history_len + 1
            } else {
                head.pending_start
            };
            cache.set_head(HeadArena { pending_start, pending_count: rows - 1, current_is_a: true, ..head });
        }
        decision
    }
}

} // verus!
