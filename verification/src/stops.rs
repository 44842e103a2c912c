//! Where a generation ends.

use vstd::prelude::*;
use crate::decode::{advanced, generated, solo, started, DecodeView};
use crate::kernel::Kernel;
use crate::model::{CacheView, DecoderModel};
use crate::options::{ends_with, ends_with_any, GenerationOptions};
use crate::sink::Policy;

verus! {

/// Every sequence that is asked for, and is not empty, ends the tokens that it stands at the
/// end of; and nothing else does.
pub proof fn law_any_sequence_ends(before: Seq<usize>, sequences: Seq<Vec<usize>>, i: int)
    requires
        0 <= i < sequences.len(),
        sequences[i]@.len() > 0,
    ensures
        ends_with_any(before + sequences[i]@, sequences),
{
    let whole = before + sequences[i]@;
    assert(whole.skip(whole.len() - sequences[i]@.len()) =~= sequences[i]@);
    assert(ends_with(whole, sequences[i]@));
}

/// Tokens that end a generation are some tokens with one of the sequences behind them.
pub proof fn law_ended_by_a_sequence(tokens: Seq<usize>, sequences: Seq<Vec<usize>>)
    requires
        ends_with_any(tokens, sequences),
    ensures
        exists|i: int, before: Seq<usize>| 0 <= i < sequences.len() && sequences[i]@.len() > 0 && tokens == #[trigger] (before + sequences[i]@),
{
    let i = choose|i: int| 0 <= i < sequences.len() && ends_with(tokens, (#[trigger] sequences[i])@);
    let tail = sequences[i]@;
    let before = tokens.take(tokens.len() - tail.len());
    assert(tokens =~= before + tail);
}

/// A generation that may go on behind some tokens: they end with no sequence to stop at, and
/// the one that is told of them wants more.
pub open spec fn goes_on<C: Copy>(options: GenerationOptions<C>, policy: Policy, told: Seq<(usize, usize)>, tokens: Seq<usize>, n: int) -> bool {
    &&& !ends_with_any(tokens.take(n), options.stop_sequences@)
    &&& policy(told + tokens_told(tokens.take(n)))
}

/// Tokens as the one is told of them.
pub open spec fn tokens_told(tokens: Seq<usize>) -> Seq<(usize, usize)> {
    Seq::new(tokens.len(), |i: int| (0usize, tokens[i]))
}

/// From any step on: the tokens so far stay in front, none behind them is one to stop at,
/// and behind each but the last the generation may go on. As many tokens went through the
/// decoder as were given, or one less.
proof fn lemma_solo_ends<K: Kernel>(
    m: DecoderModel<K>,
    options: GenerationOptions<K::Cell>,
    policy: Policy,
    told: Seq<(usize, usize)>,
    at: DecodeView<K::Cell>,
    given: Seq<usize>,
    done: int,
    max: int,
)
    requires
        done == given.len(),
    ensures
        solo(m, options, policy, told + tokens_told(given), at, given, done, max) matches Some((tokens, count)) ==> {
            &&& given.len() <= tokens.len()
            &&& tokens.take(given.len() as int) == given
            &&& tokens.len() - 1 <= count <= tokens.len()
            &&& forall|j: int| given.len() <= j < tokens.len() ==> !options.stop_token_ids@.contains(#[trigger] tokens[j])
            &&& forall|j: int| given.len() < j < tokens.len() ==> #[trigger] goes_on(options, policy, told, tokens, j)
            &&& tokens.len() > max ==> tokens == given
        },
    decreases max - done,
{
    assert(given.take(given.len() as int) =~= given);
    let heard = told + tokens_told(given);
    if done < max && !options.stops_at(at.token) {
        let now = given.push(at.token);
        let told_now = heard.push((0, at.token));
        assert(now.take(given.len() as int) =~= given);
        assert(told_now =~= told + tokens_told(now));
        if policy(told_now) && !ends_with_any(now, options.stop_sequences@) && done + 1 < max && advanced(m, options, at) is Some {
            let next = advanced(m, options, at)->0;
            lemma_solo_ends(m, options, policy, told, next, now, done + 1, max);
            if solo(m, options, policy, told_now, next, now, done + 1, max) is Some {
                let tokens = (solo(m, options, policy, told_now, next, now, done + 1, max)->0).0;
                let n = now.len() as int;
                assert(tokens.take(n) == now);
                assert(tokens.take(n).take(n - 1) =~= tokens.take(n - 1));
                assert(tokens[n - 1] == tokens.take(n)[n - 1]);
                assert(goes_on(options, policy, told, tokens, n));
            }
        }
    }
}

/// A generation gives nothing behind tokens that end with a sequence to stop at, nothing once
/// the one that is told of the tokens wants no more, no token to stop at, and no more tokens
/// than were asked for.
pub proof fn law_nothing_behind_the_end<K: Kernel>(
    m: DecoderModel<K>,
    options: GenerationOptions<K::Cell>,
    policy: Policy,
    told: Seq<(usize, usize)>,
    cache: CacheView<K::Cell>,
    state: Seq<K::Cell>,
    max: int,
)
    requires
        0 <= max,
    ensures
        generated(m, options, policy, told, cache, state, max) matches Some((tokens, count)) ==> {
            &&& tokens.len() <= max
            &&& tokens.len() - 1 <= count <= tokens.len()
            &&& forall|j: int| 0 <= j < tokens.len() ==> !options.stop_token_ids@.contains(#[trigger] tokens[j])
            &&& forall|j: int, i: int, before: Seq<usize>|
                0 < j < tokens.len() && 0 <= i < options.stop_sequences@.len() && options.stop_sequences@[i]@.len() > 0 ==> #[trigger] tokens.take(j)
                    != #[trigger] (before + options.stop_sequences@[i]@)
            &&& forall|j: int| 0 < j < tokens.len() ==> policy(told + #[trigger] tokens_told(tokens.take(j)))
        },
{
    if max > 0 && started(m, options, cache, state) is Some {
        let at = started(m, options, cache, state)->0;
        assert(told + tokens_told(Seq::empty()) =~= told);
        lemma_solo_ends(m, options, policy, told, at, Seq::empty(), 0, max);
        if generated(m, options, policy, told, cache, state, max) is Some {
            let tokens = (generated(m, options, policy, told, cache, state, max)->0).0;
            assert forall|j: int, i: int, before: Seq<usize>|
                0 < j < tokens.len() && 0 <= i < options.stop_sequences@.len() && options.stop_sequences@[i]@.len() > 0 implies #[trigger] tokens.take(j)
                != #[trigger] (before + options.stop_sequences@[i]@) by {
                assert(goes_on(options, policy, told, tokens, j));
                law_any_sequence_ends(before, options.stop_sequences@, i);
            }
            assert forall|j: int| 0 < j < tokens.len() implies policy(told + #[trigger] tokens_told(tokens.take(j))) by {
                assert(goes_on(options, policy, told, tokens, j));
            }
        }
    }
}

} // verus!
