//! When each of several generations gives its tokens: the principal one first, the others
//! where they do not hold it up.

use vstd::prelude::*;
use crate::kernel::Kernel;
use crate::lightbatch::{all_done, askable, background_turn, lemma_turns_work, lemma_work_nonneg, lightbatch, next_round, opened, rounds, stream_turn, turns, work_left, StreamView};
use crate::lightbatch_exactness::{heard, in_order, lemma_heard_nothing, lemma_opened_in_order, lemma_tokens_push, live, tokens_of};
use crate::model::DecoderModel;
use crate::options::GenerationOptions;
use crate::prefix_cache::EntryView;

verus! {

/// Tokens of a stream that a sink was told of since it had been told of others.
pub open spec fn since(before: Seq<(usize, usize)>, told: Seq<(usize, usize)>, stream: int) -> int {
    tokens_of(told, stream).len() - tokens_of(before, stream).len()
}

/// Enough tokens of the principal stream stand before a place: where the token there is the
/// `k`-th of another stream, `k` times `stride`.
pub open spec fn waited(before: Seq<(usize, usize)>, told: Seq<(usize, usize)>, stride: u64, place: int) -> bool {
    since(before, told.take(place), 0) >= since(before, told.take(place + 1), told[place].0 as int) * stride
}

/// A token at a place is one of the principal stream, or enough tokens of the principal
/// stream stand before it, or all that the principal stream gives.
pub open spec fn gives_way(before: Seq<(usize, usize)>, told: Seq<(usize, usize)>, stride: u64, place: int) -> bool {
    ||| told[place].0 == 0
    ||| waited(before, told, stride, place)
    ||| since(before, told.take(place), 0) == since(before, told, 0)
}

/// The tokens so far give way to a principal stream that is done, or goes on.
spec fn all_give_way(before: Seq<(usize, usize)>, told: Seq<(usize, usize)>, stride: u64, done: bool) -> bool {
    &&& before.len() <= told.len()
    &&& told.take(before.len() as int) == before
    &&& forall|place: int|
        before.len() <= place < told.len() ==> told[place].0 == 0 || waited(before, told, stride, place) || (done && #[trigger] since(
            before,
            told.take(place),
            0,
        ) == since(before, told, 0))
}

/// Another token changes nothing before it.
proof fn lemma_places_stay(told: Seq<(usize, usize)>, one: (usize, usize), place: int)
    requires
        0 <= place < told.len(),
    ensures
        told.push(one)[place] == told[place],
        told.push(one).take(place) == told.take(place),
        told.push(one).take(place + 1) == told.take(place + 1),
{
    assert(told.push(one).take(place) =~= told.take(place));
    assert(told.push(one).take(place + 1) =~= told.take(place + 1));
}

/// A token of the principal stream, or one that gives way, leaves tokens that give way.
proof fn lemma_one_more(before: Seq<(usize, usize)>, told: Seq<(usize, usize)>, one: (usize, usize), stride: u64, done: bool, done_now: bool)
    requires
        all_give_way(before, told, stride, done),
        done ==> done_now && one.0 != 0,
        one.0 != 0 && !done_now ==> since(before, told, 0) >= (since(before, told, one.0 as int) + 1) * stride,
        one.0 != 0 ==> done == done_now,
    ensures
        all_give_way(before, told.push(one), stride, done_now),
{
    let now = told.push(one);
    let n = told.len() as int;
    assert(now.take(before.len() as int) =~= before) by {
        assert(told.take(before.len() as int) == before);
        assert(now.take(before.len() as int) =~= told.take(before.len() as int));
    }
    lemma_tokens_push(told, one, 0);
    lemma_tokens_push(told, one, one.0 as int);
    assert forall|place: int| before.len() <= place < now.len() implies now[place].0 == 0 || waited(before, now, stride, place) || (done_now
        && #[trigger] since(before, now.take(place), 0) == since(before, now, 0)) by {
        if place < n {
            lemma_places_stay(told, one, place);
            assert(since(before, told.take(place), 0) == since(before, now.take(place), 0));
        } else {
            assert(now.take(n) =~= told);
            assert(now.take(n + 1) =~= now);
        }
    }
}

/// A turn of a stream gives a token or ends it, and tokens come one at a time.
proof fn lemma_turn_gives<K: Kernel>(m: DecoderModel<K>, options: GenerationOptions<K::Cell>, s: StreamView<K::Cell>, told: Seq<(usize, usize)>)
    requires
        live(s),
    ensures
        stream_turn(m, options, s, told) matches Some((after, told_now)) ==> {
            &&& after.index == s.index
            &&& after.max == s.max
            &&& live(after)
            &&& s.done ==> after.done
            &&& (after.given == s.given && told_now == told && after.done) || (!s.done && after.given == s.given.push(s.at.token) && told_now == told.push(
                (s.index, s.at.token),
            ))
            &&& !after.done ==> after.step == s.step + 1
        },
{
}

/// What holds of the streams from `i` on before their turns of a round: the tokens so far
/// give way, and one more of each of them would too.
spec fn before_turns<C>(before: Seq<(usize, usize)>, told: Seq<(usize, usize)>, streams: Seq<StreamView<C>>, stride: u64, background: bool, i: int) -> bool {
    &&& streams.len() > 0
    &&& in_order(streams)
    &&& heard(before, told, streams)
    &&& all_give_way(before, told, stride, streams[0].done)
    &&& background && !streams[0].done ==> forall|j: int|
        i <= j < streams.len() ==> (((#[trigger] streams[j]).given.len() + 1) * stride <= streams[0].given.len())
}

/// What is heard is as much as was given.
proof fn lemma_since<C>(before: Seq<(usize, usize)>, told: Seq<(usize, usize)>, streams: Seq<StreamView<C>>, i: int)
    requires
        heard(before, told, streams),
        0 <= i < streams.len(),
    ensures
        since(before, told, i) == streams[i].given.len(),
{
    assert(tokens_of(told, i) == tokens_of(before, i) + streams[i].given);
}

/// What is heard behind a turn.
proof fn lemma_heard_turn<C>(before: Seq<(usize, usize)>, told: Seq<(usize, usize)>, streams: Seq<StreamView<C>>, i: int, after: StreamView<C>, token: usize)
    requires
        0 <= i < streams.len(),
        in_order(streams),
        heard(before, told, streams),
        live(after),
        after.index == i,
        after.given == streams[i].given.push(token),
    ensures
        in_order(streams.update(i, after)),
        heard(before, told.push((i as usize, token)), streams.update(i, after)),
{
    let now = streams.update(i, after);
    let one = (i as usize, token);
    assert(streams[i].index == i);
    assert forall|j: int| 0 <= j < now.len() implies (#[trigger] now[j]).index == j && live(now[j]) by {
        assert(streams[j].index == j);
    }
    assert forall|j: int| j < 0 || j >= now.len() implies #[trigger] tokens_of(told.push(one), j) == tokens_of(before, j) by {
        assert(tokens_of(told, j) == tokens_of(before, j));
        lemma_tokens_push(told, one, j);
    }
    assert forall|j: int| 0 <= j < now.len() implies tokens_of(told.push(one), j) == tokens_of(before, j) + (#[trigger] now[j]).given by {
        assert(tokens_of(told, j) == tokens_of(before, j) + streams[j].given);
        lemma_tokens_push(told, one, j);
        assert(tokens_of(before, j) + streams[j].given.push(token) =~= (tokens_of(before, j) + streams[j].given).push(token));
    }
}

/// What is heard behind a turn that gives nothing.
proof fn lemma_heard_nothing_more<C>(before: Seq<(usize, usize)>, told: Seq<(usize, usize)>, streams: Seq<StreamView<C>>, i: int, after: StreamView<C>)
    requires
        0 <= i < streams.len(),
        in_order(streams),
        heard(before, told, streams),
        live(after),
        after.index == i,
        after.given == streams[i].given,
    ensures
        in_order(streams.update(i, after)),
        heard(before, told, streams.update(i, after)),
{
    let now = streams.update(i, after);
    assert forall|j: int| 0 <= j < now.len() implies (#[trigger] now[j]).index == j && live(now[j]) by {
        assert(streams[j].index == j);
    }
    assert forall|j: int| j < 0 || j >= now.len() implies #[trigger] tokens_of(told, j) == tokens_of(before, j) by {}
    assert forall|j: int| 0 <= j < now.len() implies tokens_of(told, j) == tokens_of(before, j) + (#[trigger] now[j]).given by {
        assert(tokens_of(told, j) == tokens_of(before, j) + streams[j].given);
    }
}

/// The turns of the background streams of a round leave tokens that give way, and at most
/// one more of each stream.
proof fn lemma_background_turns<K: Kernel>(
    m: DecoderModel<K>,
    options: GenerationOptions<K::Cell>,
    background: bool,
    streams: Seq<StreamView<K::Cell>>,
    before: Seq<(usize, usize)>,
    told: Seq<(usize, usize)>,
    stride: u64,
    i: int,
)
    requires
        1 <= i,
        before_turns(before, told, streams, stride, background, i),
    ensures
        turns(m, options, background, streams, told, i) matches Some((after, told_now)) ==> {
            &&& after.len() == streams.len()
            &&& after[0] == streams[0]
            &&& in_order(after)
            &&& heard(before, told_now, after)
            &&& all_give_way(before, told_now, stride, streams[0].done)
            &&& forall|j: int| 0 <= j < streams.len() ==> (#[trigger] after[j]).given.len() <= streams[j].given.len() + (if background {
                1int
            } else {
                0int
            })
            &&& forall|j: int| 0 <= j < streams.len() && j < i ==> #[trigger] after[j] == streams[j]
        },
    decreases streams.len() - i,
{
    if i < streams.len() {
        assert(streams[i].index == i);
        if !background {
            lemma_background_turns(m, options, background, streams, before, told, stride, i + 1);
        } else if stream_turn(m, options, streams[i], told) is Some {
            lemma_turn_gives(m, options, streams[i], told);
            let (one, told_now) = stream_turn(m, options, streams[i], told)->0;
            let now = streams.update(i, one);
            lemma_since(before, told, streams, 0);
            lemma_since(before, told, streams, i);
            if one.given == streams[i].given && told_now == told {
                lemma_heard_nothing_more(before, told, streams, i, one);
            } else {
                lemma_heard_turn(before, told, streams, i, one, streams[i].at.token);
                lemma_one_more(before, told, (streams[i].index, streams[i].at.token), stride, streams[0].done, streams[0].done);
            }
            assert(now[0] == streams[0]);
            assert(before_turns(before, told_now, now, stride, background, i + 1)) by {
                assert forall|j: int| !now[0].done && i + 1 <= j < now.len() implies (((#[trigger] now[j]).given.len() + 1) * stride <= now[0].given.len()) by {
                    assert(now[j] == streams[j]);
                }
            }
            lemma_background_turns(m, options, background, now, before, told_now, stride, i + 1);
            if turns(m, options, background, now, told_now, i + 1) is Some {
                let after = (turns(m, options, background, now, told_now, i + 1)->0).0;
                assert(after[i] == now[i]);
                assert forall|j: int| 0 <= j < streams.len() implies (#[trigger] after[j]).given.len() <= streams[j].given.len() + 1 by {
                    if j != i {
                        assert(now[j] == streams[j]);
                    }
                }
            }
        }
    }
}

/// What holds of the streams behind `n` rounds. While the principal stream goes on, it has
/// given a token in each of them, and the others one in every `stride` of them at most.
spec fn behind_rounds<C>(before: Seq<(usize, usize)>, told: Seq<(usize, usize)>, streams: Seq<StreamView<C>>, stride: u64, n: int) -> bool {
    &&& streams.len() > 0
    &&& in_order(streams)
    &&& heard(before, told, streams)
    &&& all_give_way(before, told, stride, streams[0].done)
    &&& streams[0].max <= usize::MAX
    &&& !streams[0].done ==> {
        &&& streams[0].step == n
        &&& streams[0].given.len() == n
        &&& forall|j: int| 1 <= j < streams.len() ==> (#[trigger] streams[j]).given.len() * stride <= n
    }
}

/// One more token is due where the next round is.
proof fn lemma_due(given: int, stride: int, n: int)
    requires
        0 <= given,
        0 <= stride,
        0 <= n,
        given * stride <= n,
        stride <= 1 || (n + 1) % stride == 0,
    ensures
        (given + 1) * stride <= n + 1,
{
    if stride > 1 {
        let rounds = (n + 1) / stride;
        assert(n + 1 == rounds * stride) by (nonlinear_arith)
            requires
                stride > 1,
                (n + 1) % stride == 0,
                rounds == (n + 1) / stride,
        ;
        assert(given < rounds) by (nonlinear_arith)
            requires
                given * stride <= n,
                n + 1 == rounds * stride,
                stride > 1,
        ;
        assert((given + 1) * stride <= rounds * stride) by (nonlinear_arith)
            requires
                given + 1 <= rounds,
                stride > 1,
        ;
    } else {
        assert((given + 1) * stride <= n + 1) by (nonlinear_arith)
            requires
                given * stride <= n,
                0 <= stride <= 1,
        ;
    }
}

/// A round leaves what holds behind one more round.
proof fn lemma_round_gives_way<K: Kernel>(
    m: DecoderModel<K>,
    options: GenerationOptions<K::Cell>,
    streams: Seq<StreamView<K::Cell>>,
    before: Seq<(usize, usize)>,
    told: Seq<(usize, usize)>,
    stride: u64,
    n: int,
    background: bool,
)
    requires
        0 <= n,
        behind_rounds(before, told, streams, stride, n),
        streams[0].done || background == (stride <= 1 || (n + 1) % (stride as int) == 0),
    ensures
        turns(m, options, background, streams, told, 0) matches Some((after, told_now)) ==> after.len() == streams.len() && behind_rounds(
            before,
            told_now,
            after,
            stride,
            n + 1,
        ),
{
    let first = streams[0];
    assert(first.index == 0);
    if stream_turn(m, options, first, told) is Some {
        lemma_turn_gives(m, options, first, told);
        let (one, told_now) = stream_turn(m, options, first, told)->0;
        let now = streams.update(0, one);
        lemma_since(before, told, streams, 0);
        if one.given == first.given && told_now == told {
            lemma_heard_nothing_more(before, told, streams, 0, one);
            assert(all_give_way(before, told_now, stride, one.done)) by {
                assert forall|place: int| before.len() <= place < told.len() implies told[place].0 == 0 || waited(before, told, stride, place) || (
                one.done && #[trigger] since(before, told.take(place), 0) == since(before, told, 0)) by {
                    assert(since(before, told.take(place), 0) == since(before, told.take(place), 0));
                }
            }
        } else {
            lemma_heard_turn(before, told, streams, 0, one, first.at.token);
            lemma_one_more(before, told, (first.index, first.at.token), stride, first.done, one.done);
        }
        if background && !one.done {
            assert forall|j: int| 1 <= j < now.len() implies (((#[trigger] now[j]).given.len() + 1) * stride <= now[0].given.len()) by {
                assert(now[j] == streams[j]);
                lemma_due(streams[j].given.len() as int, stride as int, n);
            }
        }
        lemma_background_turns(m, options, background, now, before, told_now, stride, 1);
        if turns(m, options, background, now, told_now, 1) is Some {
            let (after, end) = turns(m, options, background, now, told_now, 1)->0;
            assert(after[0] == one);
            if !one.done {
                assert forall|j: int| 1 <= j < after.len() implies (#[trigger] after[j]).given.len() * stride <= n + 1 by {
                    assert(now[j] == streams[j]);
                    let more = after[j].given.len() as int;
                    let given = streams[j].given.len() as int;
                    if background {
                        assert(more * stride <= (given + 1) * stride) by (nonlinear_arith)
                            requires
                                more <= given + 1,
                                0 <= stride,
                        ;
                    } else {
                        assert(more * stride <= given * stride) by (nonlinear_arith)
                            requires
                                more <= given,
                                0 <= stride,
                        ;
                    }
                }
            }
        }
    }
}

/// Rounds leave tokens that give way.
proof fn lemma_rounds_give_way<K: Kernel>(
    m: DecoderModel<K>,
    options: GenerationOptions<K::Cell>,
    stride: u64,
    round: u64,
    streams: Seq<StreamView<K::Cell>>,
    before: Seq<(usize, usize)>,
    told: Seq<(usize, usize)>,
    n: int,
)
    requires
        0 <= n,
        behind_rounds(before, told, streams, stride, n),
        !streams[0].done ==> round == n,
    ensures
        rounds(m, options, stride, round, streams, told) matches Some((after, told_now)) ==> all_give_way(before, told_now, stride, true),
    decreases work_left(streams),
{
    assert(streams[0].index == 0);
    if !all_done(streams) {
        let now = next_round(round);
        let background = background_turn(stride, now, streams[0].done);
        let j = if streams[0].done {
            choose|j: int| 0 <= j < streams.len() && !(#[trigger] streams[j]).done
        } else {
            0
        };
        lemma_turns_work(m, options, background, streams, told, 0, j);
        lemma_work_nonneg(streams);
        if turns(m, options, background, streams, told, 0) is Some {
            let (after, told_now) = turns(m, options, background, streams, told, 0)->0;
            lemma_work_nonneg(after);
            if !streams[0].done {
                assert(live(streams[0]));
                assert(now == n + 1);
            }
            lemma_round_gives_way(m, options, streams, before, told, stride, n, background);
            if streams[0].done {
                lemma_first_stays_done(m, options, background, streams, told, 0);
            }
            lemma_rounds_give_way(m, options, stride, now, after, before, told_now, n + 1);
        }
    } else {
        assert(streams[0].done);
    }
}

/// A principal stream that is done stays so.
proof fn lemma_first_stays_done<K: Kernel>(m: DecoderModel<K>, options: GenerationOptions<K::Cell>, background: bool, streams: Seq<StreamView<K::Cell>>, told: Seq<(usize, usize)>, i: int)
    requires
        0 <= i,
        streams.len() > 0,
        streams[0].done,
    ensures
        turns(m, options, background, streams, told, i) matches Some((after, _)) ==> after.len() == streams.len() && after[0].done,
    decreases streams.len() - i,
{
    if i < streams.len() {
        if streams[i].index > 0 && !background {
            lemma_first_stays_done(m, options, background, streams, told, i + 1);
        } else if stream_turn(m, options, streams[i], told) is Some {
            let (one, told_now) = stream_turn(m, options, streams[i], told)->0;
            lemma_first_stays_done(m, options, background, streams.update(i, one), told_now, i + 1);
        }
    }
}

/// The background streams give way to the principal one: before the `k`-th token of one of
/// them, the sink is told of `k` times `stride` tokens of the principal one, or of all that
/// the principal one gives.
pub proof fn law_background_gives_way<K: Kernel>(
    m: DecoderModel<K>,
    entries: Seq<EntryView<K::Cell>>,
    options: GenerationOptions<K::Cell>,
    prompts: Seq<Vec<usize>>,
    budgets: Seq<usize>,
    stride: u64,
    told: Seq<(usize, usize)>,
)
    requires
        askable(prompts, budgets),
        prompts.len() <= usize::MAX,
    ensures
        lightbatch(m, entries, options, prompts, budgets, stride, told).0 matches Some(made) ==> {
            &&& told.is_prefix_of(made.1)
            &&& forall|place: int| told.len() <= place < made.1.len() ==> #[trigger] gives_way(told, made.1, stride, place)
        },
{
    let n = prompts.len() as int;
    lemma_opened_in_order(m, entries, options, prompts, budgets, n);
    if opened(m, entries, options, prompts, budgets, n).0 is Some {
        let streams = opened(m, entries, options, prompts, budgets, n).0->0;
        lemma_heard_nothing(told, streams);
        lemma_opened_first(m, entries, options, prompts, budgets, n);
        assert(told.take(told.len() as int) =~= told);
        assert(behind_rounds(told, told, streams, stride, 0)) by {
            assert forall|j: int| 1 <= j < streams.len() implies (#[trigger] streams[j]).given.len() * stride <= 0 by {
                assert(0 * stride == 0);
            }
        }
        lemma_rounds_give_way(m, options, stride, 0, streams, told, told, 0);
        if rounds(m, options, stride, 0, streams, told) is Some {
            let end = (rounds(m, options, stride, 0, streams, told)->0).1;
            assert(end.take(told.len() as int) == told);
            assert forall|place: int| told.len() <= place < end.len() implies #[trigger] gives_way(told, end, stride, place) by {
                assert(since(told, end.take(place), 0) == since(told, end.take(place), 0));
            }
        }
    }
}

/// The principal stream starts with nothing given.
proof fn lemma_opened_first<K: Kernel>(m: DecoderModel<K>, entries: Seq<EntryView<K::Cell>>, options: GenerationOptions<K::Cell>, prompts: Seq<Vec<usize>>, budgets: Seq<usize>, n: int)
    requires
        1 <= n <= prompts.len(),
        prompts.len() == budgets.len(),
    ensures
        opened(m, entries, options, prompts, budgets, n).0 matches Some(streams) ==> streams.len() == n && streams[0].step == 0
            && streams[0].max == budgets[0],
    decreases n,
{
    reveal_with_fuel(opened, 2);
    if n > 1 {
        lemma_opened_first(m, entries, options, prompts, budgets, n - 1);
    }
}

/// The streams that have a turn of a round give their tokens in their order, one each at
/// most, behind what the sink was told of before.
pub proof fn law_round_answers_in_order<K: Kernel>(m: DecoderModel<K>, options: GenerationOptions<K::Cell>, background: bool, streams: Seq<StreamView<K::Cell>>, told: Seq<(usize, usize)>)
    requires
        in_order(streams),
    ensures
        turns(m, options, background, streams, told, 0) matches Some((_, told_now)) ==> {
            &&& told.is_prefix_of(told_now)
            &&& forall|a: int, b: int| told.len() <= a < b < told_now.len() ==> (#[trigger] told_now[a]).0 < (#[trigger] told_now[b]).0
        },
{
    lemma_answers_in_order(m, options, background, streams, told, 0);
}

proof fn lemma_answers_in_order<K: Kernel>(m: DecoderModel<K>, options: GenerationOptions<K::Cell>, background: bool, streams: Seq<StreamView<K::Cell>>, told: Seq<(usize, usize)>, i: int)
    requires
        0 <= i,
        in_order(streams),
    ensures
        turns(m, options, background, streams, told, i) matches Some((_, told_now)) ==> {
            &&& told.is_prefix_of(told_now)
            &&& forall|a: int| told.len() <= a < told_now.len() ==> (#[trigger] told_now[a]).0 >= i
            &&& forall|a: int, b: int| told.len() <= a < b < told_now.len() ==> (#[trigger] told_now[a]).0 < (#[trigger] told_now[b]).0
        },
    decreases streams.len() - i,
{
    if i < streams.len() {
        assert(streams[i].index == i);
        if streams[i].index > 0 && !background {
            lemma_answers_in_order(m, options, background, streams, told, i + 1);
        } else if stream_turn(m, options, streams[i], told) is Some {
            lemma_turn_gives(m, options, streams[i], told);
            let (one, now) = stream_turn(m, options, streams[i], told)->0;
            let after = streams.update(i, one);
            assert forall|j: int| 0 <= j < after.len() implies (#[trigger] after[j]).index == j && live(after[j]) by {
                assert(streams[j].index == j);
            }
            lemma_answers_in_order(m, options, background, after, now, i + 1);
            if turns(m, options, background, after, now, i + 1) is Some {
                let end = (turns(m, options, background, after, now, i + 1)->0).1;
                assert(told.is_prefix_of(now));
                if now.len() > told.len() {
                    assert(end[told.len() as int] == now[told.len() as int]);
                }
            }
        }
    }
}

} // verus!
