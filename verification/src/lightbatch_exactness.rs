//! Each of several generations gives what it would give alone.

use vstd::prelude::*;
use crate::decode::{advanced, solo, DecodeView};
use crate::decoder::{generated_from, served};
use crate::firsthand::{law_served_is_uncached, law_uncached_seen, shorter_start, unhelped};
use crate::kernel::Kernel;
use crate::lightbatch::{all_done, askable, background_turn, lemma_turns_work, lemma_work_nonneg, lightbatch, next_round, opened, pushed, rounds, stream_turn, turns, work_left, StreamView};
use crate::model::DecoderModel;
use crate::options::{ends_with_any, GenerationOptions};
use crate::prefix_cache::EntryView;
use crate::prompts::{law_tokenwise_position, steady};
use crate::sink::always;
use crate::transparency::{faithful, law_served_is_tokenwise};

verus! {

/// A sink that always wants more changes nothing by what it was told of.
proof fn lemma_told_is_nothing<K: Kernel>(m: DecoderModel<K>, options: GenerationOptions<K::Cell>, a: Seq<(usize, usize)>, b: Seq<(usize, usize)>, at: DecodeView<K::Cell>, given: Seq<usize>, done: int, max: int)
    ensures
        solo(m, options, always(), a, at, given, done, max) == solo(m, options, always(), b, at, given, done, max),
    decreases max - done,
{
    if done < max && !options.stops_at(at.token) {
        let now = given.push(at.token);
        if !ends_with_any(now, options.stop_sequences@) && done + 1 < max && advanced(m, options, at) is Some {
            lemma_told_is_nothing(m, options, a.push((0, at.token)), b.push((0, at.token)), advanced(m, options, at)->0, now, done + 1, max);
        }
    }
}

/// What a stream gives in the end, alone.
pub open spec fn alone<K: Kernel>(m: DecoderModel<K>, options: GenerationOptions<K::Cell>, s: StreamView<K::Cell>) -> Option<(Seq<usize>, int)> {
    if s.done {
        Some((s.given, s.step))
    } else {
        solo(m, options, always(), Seq::empty(), s.at, s.given, s.step, s.max)
    }
}

/// A stream that is not done has steps left.
pub open spec fn live<C>(s: StreamView<C>) -> bool {
    s.done || s.step < s.max
}

/// The tokens of one stream among those that a sink was told of.
pub open spec fn tokens_of(told: Seq<(usize, usize)>, stream: int) -> Seq<usize>
    decreases told.len(),
{
    if told.len() == 0 {
        Seq::empty()
    } else if told.last().0 == stream {
        tokens_of(told.drop_last(), stream).push(told.last().1)
    } else {
        tokens_of(told.drop_last(), stream)
    }
}

pub proof fn lemma_tokens_push(told: Seq<(usize, usize)>, one: (usize, usize), stream: int)
    ensures
        tokens_of(told.push(one), stream) == if one.0 == stream {
            tokens_of(told, stream).push(one.1)
        } else {
            tokens_of(told, stream)
        },
{
    assert(told.push(one).drop_last() =~= told);
}

/// A turn changes nothing in what a stream gives in the end, and the sink is told of
/// exactly the token that the stream gives.
pub proof fn law_turn_changes_nothing<K: Kernel>(m: DecoderModel<K>, options: GenerationOptions<K::Cell>, s: StreamView<K::Cell>, told: Seq<(usize, usize)>)
    requires
        live(s),
    ensures
        match stream_turn(m, options, s, told) {
            Some((after, told_now)) => {
                &&& alone(m, options, after) == alone(m, options, s)
                &&& live(after)
                &&& after.index == s.index
                &&& (after.given == s.given && told_now == told) || (after.given == s.given.push(s.at.token) && told_now == told.push((s.index, s.at.token)))
            },
            None => alone(m, options, s) is None,
        },
{
    let (after, told_now, goes_on) = pushed(options, s, told);
    if goes_on && advanced(m, options, s.at) is Some {
        let next = advanced(m, options, s.at)->0;
        lemma_told_is_nothing(m, options, Seq::<(usize, usize)>::empty().push((0, s.at.token)), Seq::empty(), next, after.given, s.step + 1, s.max);
    }
}

/// The streams are numbered as they stand, and have steps left where they are not
/// done.
pub open spec fn in_order<C>(streams: Seq<StreamView<C>>) -> bool {
    forall|i: int| 0 <= i < streams.len() ==> (#[trigger] streams[i]).index == i && live(streams[i])
}

/// The sink was told of what each stream has given, behind what it was told of
/// before, and of no other stream.
pub open spec fn heard<C>(before: Seq<(usize, usize)>, told: Seq<(usize, usize)>, streams: Seq<StreamView<C>>) -> bool {
    &&& forall|i: int| 0 <= i < streams.len() ==> tokens_of(told, i) == tokens_of(before, i) + (#[trigger] streams[i]).given
    &&& forall|i: int| i < 0 || i >= streams.len() ==> #[trigger] tokens_of(told, i) == tokens_of(before, i)
}

/// A round changes nothing in what each stream gives in the end.
pub proof fn law_round_changes_nothing<K: Kernel>(m: DecoderModel<K>, options: GenerationOptions<K::Cell>, background: bool, streams: Seq<StreamView<K::Cell>>, before: Seq<(usize, usize)>, told: Seq<(usize, usize)>, i: int)
    requires
        0 <= i,
        in_order(streams),
        heard(before, told, streams),
    ensures
        match turns(m, options, background, streams, told, i) {
            Some((after, told_now)) => {
                &&& after.len() == streams.len()
                &&& in_order(after)
                &&& heard(before, told_now, after)
                &&& forall|j: int| 0 <= j < streams.len() ==> alone(m, options, #[trigger] after[j]) == alone(m, options, streams[j])
            },
            None => exists|j: int| 0 <= j < streams.len() && alone(m, options, #[trigger] streams[j]) is None,
        },
    decreases streams.len() - i,
{
    if i < streams.len() {
        if streams[i].index > 0 && !background {
            law_round_changes_nothing(m, options, background, streams, before, told, i + 1);
        } else {
            law_turn_changes_nothing(m, options, streams[i], told);
            if stream_turn(m, options, streams[i], told) is Some {
                let (one, told_now) = stream_turn(m, options, streams[i], told)->0;
                let now = streams.update(i, one);
                assert(in_order(now)) by {
                    assert forall|j: int| 0 <= j < now.len() implies (#[trigger] now[j]).index == j && live(now[j]) by {
                        assert(streams[j].index == j);
                    }
                }
                assert(heard(before, told_now, now)) by {
                    assert forall|j: int| j < 0 || j >= now.len() implies #[trigger] tokens_of(told_now, j) == tokens_of(before, j) by {
                        assert(tokens_of(told, j) == tokens_of(before, j));
                        lemma_tokens_push(told, (streams[i].index, streams[i].at.token), j);
                    }
                    assert forall|j: int| 0 <= j < now.len() implies tokens_of(told_now, j) == tokens_of(before, j) + (#[trigger] now[j]).given by {
                        assert(tokens_of(told, j) == tokens_of(before, j) + streams[j].given);
                        lemma_tokens_push(told, (streams[i].index, streams[i].at.token), j);
                        assert(tokens_of(before, j) + streams[j].given.push(streams[i].at.token) =~= (tokens_of(before, j) + streams[j].given).push(
                            streams[i].at.token,
                        ));
                    }
                }
                law_round_changes_nothing(m, options, background, now, before, told_now, i + 1);
                if turns(m, options, background, now, told_now, i + 1) is Some {
                    let after = (turns(m, options, background, now, told_now, i + 1)->0).0;
                    assert forall|j: int| 0 <= j < streams.len() implies alone(m, options, #[trigger] after[j]) == alone(m, options, streams[j]) by {
                        assert(alone(m, options, after[j]) == alone(m, options, now[j]));
                    }
                } else {
                    let j = choose|j: int| 0 <= j < now.len() && alone(m, options, #[trigger] now[j]) is None;
                    assert(alone(m, options, streams[j]) is None);
                }
            }
        }
    }
}

/// Rounds give of each stream what it gives alone, whatever the stride; and they
/// fail exactly where one of the streams fails alone.
pub proof fn law_rounds_are_alone<K: Kernel>(m: DecoderModel<K>, options: GenerationOptions<K::Cell>, stride: u64, round: u64, streams: Seq<StreamView<K::Cell>>, before: Seq<(usize, usize)>, told: Seq<(usize, usize)>)
    requires
        streams.len() > 0,
        in_order(streams),
        heard(before, told, streams),
    ensures
        match rounds(m, options, stride, round, streams, told) {
            Some((after, told_now)) => {
                &&& after.len() == streams.len()
                &&& heard(before, told_now, after)
                &&& forall|i: int| 0 <= i < streams.len() ==> alone(m, options, streams[i]) == Some(((#[trigger] after[i]).given, after[i].step))
            },
            None => exists|i: int| 0 <= i < streams.len() && alone(m, options, #[trigger] streams[i]) is None,
        },
    decreases work_left(streams),
{
    assert(streams[0].index == 0);
    if !all_done(streams) {
        let now = next_round(round);
        let background = background_turn(stride, now, streams[0].done);
        let j = if streams[0].done {
            choose|j: int| 0 <= j < streams.len() && !(#[trigger] streams[j]).done
        } else {
            0
        };
        lemma_turns_work(m, options, background, streams, told, 0, j);
        lemma_work_nonneg(streams);
        law_round_changes_nothing(m, options, background, streams, before, told, 0);
        if turns(m, options, background, streams, told, 0) is Some {
            let (after, told_now) = turns(m, options, background, streams, told, 0)->0;
            lemma_work_nonneg(after);
            law_rounds_are_alone(m, options, stride, now, after, before, told_now);
            if rounds(m, options, stride, now, after, told_now) is Some {
                let end = (rounds(m, options, stride, now, after, told_now)->0).0;
                assert forall|i: int| 0 <= i < streams.len() implies alone(m, options, streams[i]) == Some(((#[trigger] end[i]).given, end[i].step)) by {
                    assert(alone(m, options, after[i]) == alone(m, options, streams[i]));
                }
            } else {
                let i = choose|i: int| 0 <= i < after.len() && alone(m, options, #[trigger] after[i]) is None;
                assert(alone(m, options, streams[i]) is None);
            }
        }
    } else {
        assert forall|i: int| 0 <= i < streams.len() implies alone(m, options, streams[i]) == Some(((#[trigger] streams[i]).given, streams[i].step)) by {
            assert(streams[i].done);
        }
    }
}

/// The streams that prompts open are in order and have given nothing.
pub proof fn lemma_opened_in_order<K: Kernel>(m: DecoderModel<K>, entries: Seq<EntryView<K::Cell>>, options: GenerationOptions<K::Cell>, prompts: Seq<Vec<usize>>, budgets: Seq<usize>, n: int)
    requires
        0 <= n <= prompts.len(),
        prompts.len() == budgets.len(),
        prompts.len() <= usize::MAX,
        !budgets.contains(0),
    ensures
        opened(m, entries, options, prompts, budgets, n).0 matches Some(streams) ==> streams.len() == n && in_order(streams) && forall|i: int|
            0 <= i < n ==> (#[trigger] streams[i]).given.len() == 0,
    decreases n,
{
    if n > 0 {
        lemma_opened_in_order(m, entries, options, prompts, budgets, n - 1);
        assert(budgets[n - 1] != 0) by {
            if budgets[n - 1] == 0 {
                assert(budgets.contains(0));
            }
        }
        if opened(m, entries, options, prompts, budgets, n).0 is Some {
            let streams = opened(m, entries, options, prompts, budgets, n).0->0;
            let fewer = opened(m, entries, options, prompts, budgets, n - 1).0->0;
            assert forall|i: int| 0 <= i < n implies (#[trigger] streams[i]).index == i && live(streams[i]) && streams[i].given.len() == 0 by {
                if i < n - 1 {
                    assert(streams[i] == fewer[i]);
                }
            }
        }
    }
}

pub proof fn lemma_heard_nothing<C>(told: Seq<(usize, usize)>, streams: Seq<StreamView<C>>)
    requires
        forall|i: int| 0 <= i < streams.len() ==> (#[trigger] streams[i]).given.len() == 0,
    ensures
        heard(told, told, streams),
{
    assert forall|i: int| 0 <= i < streams.len() implies tokens_of(told, i) == tokens_of(told, i) + (#[trigger] streams[i]).given by {
        assert(tokens_of(told, i) + streams[i].given =~= tokens_of(told, i));
    }
}

/// The sink is told of the tokens of each stream, in their order, and of nothing else.
pub proof fn law_sink_hears_each_stream<K: Kernel>(m: DecoderModel<K>, entries: Seq<EntryView<K::Cell>>, options: GenerationOptions<K::Cell>, prompts: Seq<Vec<usize>>, budgets: Seq<usize>, stride: u64, told: Seq<(usize, usize)>)
    requires
        askable(prompts, budgets),
        prompts.len() <= usize::MAX,
    ensures
        lightbatch(m, entries, options, prompts, budgets, stride, told).0 matches Some(made) ==> {
            &&& made.0.len() == prompts.len()
            &&& forall|i: int| 0 <= i < prompts.len() ==> tokens_of(made.1, i) == tokens_of(told, i) + (#[trigger] made.0[i]).given
            &&& forall|i: int| i < 0 || i >= prompts.len() ==> #[trigger] tokens_of(made.1, i) == tokens_of(told, i)
        },
{
    let n = prompts.len() as int;
    lemma_opened_in_order(m, entries, options, prompts, budgets, n);
    if opened(m, entries, options, prompts, budgets, n).0 is Some {
        let streams = opened(m, entries, options, prompts, budgets, n).0->0;
        lemma_heard_nothing(told, streams);
        law_rounds_are_alone(m, options, stride, 0, streams, told, told);
    }
}

/// The stride of the background streams changes nothing in what each stream gives.
pub proof fn law_stride_changes_nothing<K: Kernel>(m: DecoderModel<K>, entries: Seq<EntryView<K::Cell>>, options: GenerationOptions<K::Cell>, prompts: Seq<Vec<usize>>, budgets: Seq<usize>, a: u64, b: u64, told: Seq<(usize, usize)>)
    requires
        askable(prompts, budgets),
        prompts.len() <= usize::MAX,
    ensures
        match (
            lightbatch(m, entries, options, prompts, budgets, a, told).0,
            lightbatch(m, entries, options, prompts, budgets, b, told).0,
        ) {
            (Some(left), Some(right)) => left.0.len() == right.0.len() && forall|i: int|
                0 <= i < left.0.len() ==> (#[trigger] left.0[i]).given == right.0[i].given && left.0[i].step == right.0[i].step,
            (None, None) => true,
            _ => false,
        },
        lightbatch(m, entries, options, prompts, budgets, a, told).1 == lightbatch(m, entries, options, prompts, budgets, b, told).1,
{
    let n = prompts.len() as int;
    lemma_opened_in_order(m, entries, options, prompts, budgets, n);
    if opened(m, entries, options, prompts, budgets, n).0 is Some {
        let streams = opened(m, entries, options, prompts, budgets, n).0->0;
        lemma_heard_nothing(told, streams);
        law_rounds_are_alone(m, options, a, 0, streams, told, told);
        law_rounds_are_alone(m, options, b, 0, streams, told, told);
        let left = rounds(m, options, a, 0, streams, told);
        let right = rounds(m, options, b, 0, streams, told);
        if left is Some && right is Some {
            let one = (left->0).0;
            let two = (right->0).0;
            assert forall|i: int| 0 <= i < one.len() implies (#[trigger] one[i]).given == two[i].given && one[i].step == two[i].step by {
                assert(alone(m, options, streams[i]) == Some((two[i].given, two[i].step)));
            }
        } else if left is Some {
            let i = choose|i: int| 0 <= i < streams.len() && alone(m, options, #[trigger] streams[i]) is None;
            assert(alone(m, options, streams[i]) == Some(((left->0).0[i].given, (left->0).0[i].step)));
        } else if right is Some {
            let i = choose|i: int| 0 <= i < streams.len() && alone(m, options, #[trigger] streams[i]) is None;
            assert(alone(m, options, streams[i]) == Some(((right->0).0[i].given, (right->0).0[i].step)));
        }
    }
}

/// What the decoder does with each prompt is what it does with it at first sight: nothing
/// that it keeps helps one of them, and none of them is a shorter start of a later one.
pub open spec fn apart<K: Kernel>(m: DecoderModel<K>, entries: Seq<EntryView<K::Cell>>, prompts: Seq<Vec<usize>>) -> bool {
    m.flags.prefix_cache ==> {
        &&& forall|i: int| 0 <= i < prompts.len() ==> unhelped(m, entries, (#[trigger] prompts[i])@)
        &&& forall|i: int, j: int| 0 <= i < j < prompts.len() ==> !shorter_start((#[trigger] prompts[i])@, (#[trigger] prompts[j])@)
    }
}

/// What each stream gives alone is what the decoder generates from its prompt alone.
pub open spec fn opens_alone<K: Kernel>(m: DecoderModel<K>, entries: Seq<EntryView<K::Cell>>, options: GenerationOptions<K::Cell>, prompts: Seq<Vec<usize>>, budgets: Seq<usize>, n: int) -> bool {
    match opened(m, entries, options, prompts, budgets, n).0 {
        Some(streams) => {
            &&& streams.len() == n
            &&& forall|i: int|
                0 <= i < n ==> alone(m, options, #[trigger] streams[i]) == generated_from(m, entries, options, prompts[i]@, budgets[i] as int).0
        },
        None => exists|i: int| 0 <= i < n && generated_from(m, entries, options, (#[trigger] prompts[i])@, budgets[i] as int).0 is None,
    }
}

/// One more prompt that the decoder makes the same of as alone.
proof fn lemma_opens_next<K: Kernel>(m: DecoderModel<K>, entries: Seq<EntryView<K::Cell>>, options: GenerationOptions<K::Cell>, prompts: Seq<Vec<usize>>, budgets: Seq<usize>, n: int)
    requires
        0 < n <= prompts.len(),
        prompts.len() == budgets.len(),
        prompts.len() <= usize::MAX,
        !budgets.contains(0),
        opens_alone(m, entries, options, prompts, budgets, n - 1),
        ({
            let kept = opened(m, entries, options, prompts, budgets, n - 1).1;
            let prompt = prompts[n - 1]@;
            &&& served(m, kept, prompt).0 == served(m, entries, prompt).0
            &&& served(m, entries, prompt).0 matches Some(made) ==> made.0.position == prompt.len() && prompt.len() > 0
        }),
    ensures
        opens_alone(m, entries, options, prompts, budgets, n),
{
    let (made, kept) = opened(m, entries, options, prompts, budgets, n - 1);
    assert(budgets[n - 1] != 0) by {
        if budgets[n - 1] == 0 {
            assert(budgets.contains(0));
        }
    }
    if made is Some {
        let next = opened(m, entries, options, prompts, budgets, n).0;
        if next is Some {
            let streams = next->0;
            let fewer = made->0;
            assert forall|i: int| 0 <= i < n implies alone(m, options, #[trigger] streams[i]) == generated_from(
                m,
                entries,
                options,
                prompts[i]@,
                budgets[i] as int,
            ).0 by {
                if i < n - 1 {
                    assert(streams[i] == fewer[i]);
                }
            }
        } else {
            assert(generated_from(m, entries, options, prompts[n - 1]@, budgets[n - 1] as int).0 is None);
        }
    } else {
        let i = choose|i: int| 0 <= i < n - 1 && generated_from(m, entries, options, (#[trigger] prompts[i])@, budgets[i] as int).0 is None;
        assert(generated_from(m, entries, options, prompts[i]@, budgets[i] as int).0 is None);
    }
}

proof fn lemma_opened_apart<K: Kernel>(m: DecoderModel<K>, entries: Seq<EntryView<K::Cell>>, options: GenerationOptions<K::Cell>, prompts: Seq<Vec<usize>>, budgets: Seq<usize>, n: int)
    requires
        apart(m, entries, prompts),
        0 <= n <= prompts.len(),
        prompts.len() == budgets.len(),
        prompts.len() <= usize::MAX,
        !budgets.contains(0),
    ensures
        opens_alone(m, entries, options, prompts, budgets, n),
        forall|j: int|
            n <= j < prompts.len() ==> unhelped(m, opened(m, entries, options, prompts, budgets, n).1, (#[trigger] prompts[j])@),
    decreases n,
{
    if n > 0 {
        lemma_opened_apart(m, entries, options, prompts, budgets, n - 1);
        let kept = opened(m, entries, options, prompts, budgets, n - 1).1;
        let prompt = prompts[n - 1]@;
        assert(unhelped(m, kept, prompts[n - 1]@));
        assert(unhelped(m, entries, prompts[n - 1]@));
        law_served_is_uncached(m, kept, prompt, prompt);
        law_served_is_uncached(m, entries, prompt, prompt);
        law_uncached_seen(m, prompt);
        lemma_opens_next(m, entries, options, prompts, budgets, n);
        assert forall|j: int| n <= j < prompts.len() implies unhelped(
            m,
            opened(m, entries, options, prompts, budgets, n).1,
            (#[trigger] prompts[j])@,
        ) by {
            assert(unhelped(m, kept, prompts[j]@));
            if m.flags.prefix_cache {
                assert(!shorter_start(prompts[n - 1]@, prompts[j]@));
                law_served_is_uncached(m, kept, prompt, prompts[j]@);
            }
        }
    }
}

/// What a stream gives alone from its prompt.
proof fn lemma_opened_steady<K: Kernel>(m: DecoderModel<K>, entries: Seq<EntryView<K::Cell>>, options: GenerationOptions<K::Cell>, prompts: Seq<Vec<usize>>, budgets: Seq<usize>, n: int)
    requires
        steady(m),
        faithful(m, entries),
        0 <= n <= prompts.len(),
        prompts.len() == budgets.len(),
        prompts.len() <= usize::MAX,
        !budgets.contains(0),
    ensures
        faithful(m, opened(m, entries, options, prompts, budgets, n).1),
        opens_alone(m, entries, options, prompts, budgets, n),
    decreases n,
{
    if n > 0 {
        lemma_opened_steady(m, entries, options, prompts, budgets, n - 1);
        let kept = opened(m, entries, options, prompts, budgets, n - 1).1;
        let prompt = prompts[n - 1]@;
        law_served_is_tokenwise(m, kept, prompt);
        law_served_is_tokenwise(m, entries, prompt);
        law_tokenwise_position(m, prompt);
        lemma_opens_next(m, entries, options, prompts, budgets, n);
    }
}

/// Each of several generations gives what the decoder generates from its prompt alone, and
/// they fail exactly where one of them fails alone.
pub open spec fn each_alone<K: Kernel>(m: DecoderModel<K>, entries: Seq<EntryView<K::Cell>>, options: GenerationOptions<K::Cell>, prompts: Seq<Vec<usize>>, budgets: Seq<usize>, made: Option<(Seq<StreamView<K::Cell>>, Seq<(usize, usize)>)>) -> bool {
    match made {
        Some((streams, _)) => {
            &&& streams.len() == prompts.len()
            &&& forall|i: int|
                0 <= i < prompts.len() ==> generated_from(m, entries, options, prompts[i]@, budgets[i] as int).0 == Some(
                    ((#[trigger] streams[i]).given, streams[i].step),
                )
        },
        None => exists|i: int|
            0 <= i < prompts.len() && generated_from(m, entries, options, (#[trigger] prompts[i])@, budgets[i] as int).0 is None,
    }
}

proof fn lemma_each_alone<K: Kernel>(m: DecoderModel<K>, entries: Seq<EntryView<K::Cell>>, options: GenerationOptions<K::Cell>, prompts: Seq<Vec<usize>>, budgets: Seq<usize>, stride: u64, told: Seq<(usize, usize)>)
    requires
        askable(prompts, budgets),
        prompts.len() <= usize::MAX,
        opens_alone(m, entries, options, prompts, budgets, prompts.len() as int),
    ensures
        each_alone(m, entries, options, prompts, budgets, lightbatch(m, entries, options, prompts, budgets, stride, told).0),
{
    let n = prompts.len() as int;
    lemma_opened_in_order(m, entries, options, prompts, budgets, n);
    let (made, after) = opened(m, entries, options, prompts, budgets, n);
    if made is Some {
        let streams = made->0;
        lemma_heard_nothing(told, streams);
        law_rounds_are_alone(m, options, stride, 0, streams, told, told);
        if rounds(m, options, stride, 0, streams, told) is Some {
            let (end, told_now) = rounds(m, options, stride, 0, streams, told)->0;
            assert forall|i: int| 0 <= i < n implies generated_from(m, entries, options, prompts[i]@, budgets[i] as int).0 == Some(
                ((#[trigger] end[i]).given, end[i].step),
            ) by {
                assert(alone(m, options, streams[i]) == Some((end[i].given, end[i].step)));
            }
        } else {
            let i = choose|i: int| 0 <= i < streams.len() && alone(m, options, #[trigger] streams[i]) is None;
            assert(generated_from(m, entries, options, prompts[i]@, budgets[i] as int).0 is None);
        }
    }
}

/// Several generations in turn give of each prompt what the decoder generates from
/// it alone, under its own budget and whatever the stride, and they fail exactly where
/// one of them fails alone: the decoder keeps no prompts, or the prompts are apart.
pub proof fn law_lightbatch_is_solo<K: Kernel>(m: DecoderModel<K>, entries: Seq<EntryView<K::Cell>>, options: GenerationOptions<K::Cell>, prompts: Seq<Vec<usize>>, budgets: Seq<usize>, stride: u64, told: Seq<(usize, usize)>)
    requires
        apart(m, entries, prompts),
        askable(prompts, budgets),
        prompts.len() <= usize::MAX,
    ensures
        each_alone(m, entries, options, prompts, budgets, lightbatch(m, entries, options, prompts, budgets, stride, told).0),
{
    lemma_opened_apart(m, entries, options, prompts, budgets, prompts.len() as int);
    lemma_each_alone(m, entries, options, prompts, budgets, stride, told);
}

/// Of a steady decoder the same holds whatever starts of the prompts it keeps, where what
/// it keeps is faithful; and it stays so.
pub proof fn law_steady_lightbatch_is_solo<K: Kernel>(m: DecoderModel<K>, entries: Seq<EntryView<K::Cell>>, options: GenerationOptions<K::Cell>, prompts: Seq<Vec<usize>>, budgets: Seq<usize>, stride: u64, told: Seq<(usize, usize)>)
    requires
        steady(m),
        faithful(m, entries),
        askable(prompts, budgets),
        prompts.len() <= usize::MAX,
    ensures
        faithful(m, lightbatch(m, entries, options, prompts, budgets, stride, told).1),
        each_alone(m, entries, options, prompts, budgets, lightbatch(m, entries, options, prompts, budgets, stride, told).0),
{
    lemma_opened_steady(m, entries, options, prompts, budgets, prompts.len() as int);
    lemma_each_alone(m, entries, options, prompts, budgets, stride, told);
}

} // verus!
