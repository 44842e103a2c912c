//! How guesses are made, kept in memory and counted.

use vstd::prelude::*;
use crate::capture::captured_row;
use crate::dflash::{context_with, guess_limit, masked_block};
use crate::kernel::{draft_context_of, Kernel};
use crate::kv::LayerView;
use crate::model::DecoderModel;
use crate::mtp::{draft_on, draft_one, prompt_pairs, remembered, Drafting};
use crate::mtp_head::mtp_row;
use crate::options::GenerationOptions;
use crate::speculation::{judge_from, judge_one, Verdict};
use crate::weights::DraftModel;
use crate::heads::by_heads;
use crate::sight::law_pieces_of_a_row;
use crate::tensor::row_of;

verus! {

/// A guess takes its place behind what a draft head has seen: it leaves in the head's memory
/// what the head is left with when it is told of the token and the state before it.
pub proof fn law_guess_is_remembered<K: Kernel>(m: DecoderModel<K>, options: GenerationOptions<K::Cell>, offset: int, at: Drafting<K::Cell>)
    requires
        offset + at.tokens.len() == at.view.count(),
    ensures
        draft_one(m, options, offset, at) matches Some(next) ==> {
            &&& remembered(m, at.view, seq![(at.state, at.token)]) == Some(next.view)
            &&& mtp_row(m, at.view, at.state, at.token, at.view.count()) == Some((next.view, next.state))
            &&& next.tokens == at.tokens.push(next.token)
        },
{
    let one = seq![(at.state, at.token)];
    assert(one.drop_last() =~= Seq::empty());
    assert(remembered(m, at.view, Seq::empty()) == Some(at.view));
}

/// As many guesses are made as are asked for, each from the one before it.
pub proof fn law_guesses_follow_each_other<K: Kernel>(m: DecoderModel<K>, options: GenerationOptions<K::Cell>, offset: int, first: int, more: int, at: Drafting<K::Cell>)
    requires
        0 <= first,
        0 <= more,
    ensures
        draft_on(m, options, offset, first, at) matches Some(middle) ==> {
            &&& middle.tokens.len() == at.tokens.len() + first
            &&& middle.tokens.take(at.tokens.len() as int) == at.tokens
            &&& first > 0 ==> middle.token == middle.tokens.last()
            &&& draft_on(m, options, offset, first + more, at) == draft_on(m, options, offset, more, middle)
        },
    decreases first,
{
    assert(at.tokens.take(at.tokens.len() as int) =~= at.tokens);
    if first > 0 {
        if draft_one(m, options, offset, at) is Some {
            let next = draft_one(m, options, offset, at)->0;
            law_guesses_follow_each_other(m, options, offset, first - 1, more, next);
            if draft_on(m, options, offset, first - 1, next) is Some {
                let middle = draft_on(m, options, offset, first - 1, next)->0;
                let n = at.tokens.len() as int;
                assert(middle.tokens.take(n + 1).take(n) =~= middle.tokens.take(n));
                assert(next.tokens.take(n) =~= at.tokens);
                if first == 1 {
                    assert(middle.token == middle.tokens.last());
                }
            }
        }
    }
}

/// A draft head is told of each token of a prompt but the first, with the state that the
/// tokens before it left: one more token is told with the state that the prompt left.
pub proof fn law_prompt_in_memory<C>(states: Seq<Seq<C>>, prompt: Seq<usize>, state: Seq<C>, token: usize)
    requires
        states.len() == prompt.len(),
        prompt.len() > 0,
    ensures
        prompt_pairs(states.push(state), prompt.push(token)) == prompt_pairs(states, prompt).push((states.last(), token)),
        prompt_pairs(states.take(1), prompt.take(1)).len() == 0,
{
    assert(prompt_pairs(states.push(state), prompt.push(token)) =~= prompt_pairs(states, prompt).push((states.last(), token)));
}

/// What a draft head has seen is remembered piece by piece.
pub proof fn law_memory_grows<K: Kernel>(m: DecoderModel<K>, view: LayerView<K::Cell>, items: Seq<(Seq<K::Cell>, usize)>, more: Seq<(Seq<K::Cell>, usize)>)
    ensures
        remembered(m, view, items + more) == match remembered(m, view, items) {
            Some(middle) => remembered(m, middle, more),
            None => None,
        },
    decreases more.len(),
{
    if more.len() == 0 {
        assert(items + more =~= items);
    } else {
        law_memory_grows(m, view, items, more.drop_last());
        assert((items + more).drop_last() =~= items + more.drop_last());
        assert((items + more).last() == more.last());
    }
}

/// A check counts every guess that it looked at, once as checked and once as held or not; at
/// most one of them did not hold, and only the last. Where it does not end before the last
/// guess, all held.
pub proof fn law_checked_guesses_counted<K: Kernel>(
    m: DecoderModel<K>,
    options: GenerationOptions<K::Cell>,
    states: Seq<Seq<K::Cell>>,
    drafts: Seq<usize>,
    odds: Seq<Option<Seq<K::Cell>>>,
    max: int,
    position: int,
    v: Verdict<K::Cell>,
)
    requires
        0 <= position <= drafts.len(),
        v.ended is None,
    ensures
        judge_from(m, options, states, drafts, odds, max, position, v) matches Some(out) ==> {
            let looked = match out.ended {
                Some(at) => at + 1 - position,
                None => drafts.len() - position,
            };
            let held = out.stats.accepted - v.stats.accepted;
            let failed = out.stats.rejected - v.stats.rejected;
            &&& out.stats.proposed - v.stats.proposed == looked
            &&& out.stats.verifications - v.stats.verifications == looked
            &&& held + failed == looked
            &&& 0 <= failed <= 1
            &&& out.ended is None ==> failed == 0
            &&& held - 1 <= out.generated.len() - v.generated.len() <= held
            &&& failed == 1 ==> out.generated.len() - v.generated.len() == held
        },
    decreases drafts.len() - position,
{
    if position < drafts.len() && judge_one(m, options, states, drafts, odds, max, position, v) is Some {
        let next = judge_one(m, options, states, drafts, odds, max, position, v)->0;
        if next.ended is None {
            law_checked_guesses_counted(m, options, states, drafts, odds, max, position + 1, next);
        } else {
            assert(judge_from(m, options, states, drafts, odds, max, position + 1, next) == Some(next));
        }
    }
}

/// A block of a draft model starts with the token that was given, and a mask stands for every
/// guess; there are no more guesses than are asked for, nor than a block holds.
pub proof fn law_block_of_guesses<C>(draft: DraftModel<C>, primary: usize, asked: int)
    requires
        0 <= asked,
    ensures
        ({
            let guesses = guess_limit(draft, asked);
            let block = masked_block(primary, draft.mask_token_id, guesses);
            &&& guesses <= asked && guesses <= draft.block_size
            &&& guesses == asked || guesses == draft.block_size
            &&& block.len() == guesses + 1
            &&& block[0] == primary
            &&& forall|i: int| 1 <= i < block.len() ==> #[trigger] block[i] == draft.mask_token_id
        }),
{
}

/// The context of a draft model grows at its end, by what it makes of each row that was read.
pub proof fn law_context_grows<K: Kernel>(m: DecoderModel<K>, draft: DraftModel<K::Cell>, context: Seq<Seq<K::Cell>>, rows: Seq<Seq<K::Cell>>)
    ensures
        context_with(m, draft, context, rows) matches Some(after) ==> {
            &&& after.len() == context.len() + rows.len()
            &&& after.take(context.len() as int) == context
            &&& forall|i: int| 0 <= i < rows.len() ==> #[trigger] after[context.len() + i] == draft_context_of(m.kernel, draft, rows[i])
        },
{
    if context_with(m, draft, context, rows) is Some {
        let after = context_with(m, draft, context, rows)->0;
        assert(after.take(context.len() as int) =~= context);
    }
}

/// Rows that are read from layers stand side by side in the order in which the layers were
/// named.
pub proof fn law_order_of_read_rows<C>(outs: Seq<Seq<Seq<C>>>, ids: Seq<usize>, r: int, size: int, slot: int)
    requires
        0 <= slot < ids.len(),
        0 <= size,
        forall|s: int| 0 <= s < ids.len() ==> outs[(#[trigger] ids[s]) as int][r].len() == size,
    ensures
        row_of(captured_row(outs, ids, r), size, slot) == outs[ids[slot] as int][r],
{
    let piece = |s: int| outs[ids[s] as int][r];
    law_pieces_of_a_row(ids.len() as int, piece, size, slot);
    assert(by_heads(ids.len() as int, piece) == captured_row(outs, ids, r));
}

} // verus!
