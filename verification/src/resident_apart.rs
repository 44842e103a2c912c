//! Rounds of a generation in which a device drafts first and checks the drafts behind it.

use vstd::prelude::*;
use crate::kernel::Kernel;
use crate::model::DecoderModel;
use crate::options::GenerationOptions;
use crate::resident::ResidentCache;
use crate::resident_rounds::{seen_by_host, ResidentRun, RunView};
use crate::resident_verify::VerifyRequest;
use crate::rollback::ResidentVerifyCaptures;
use crate::speculation::{judge_from, judge_one, odds_at, target_of, Verdict};

verus! {

/// A generation behind the drafts from `position` on, each held against the best token that
/// the device found in its place; and the place at which the check ended, where it did
/// before the last: at the first draft that fails, at one that the generation stops at, or
/// at the last token that is asked for.
pub open spec fn drafts_settled(stop: Seq<usize>, drafts: Seq<usize>, targets: Seq<usize>, max: int, position: int, r: RunView) -> (RunView, Option<int>)
    decreases drafts.len() - position,
{
    if position >= drafts.len() {
        (r, None)
    } else {
        let held = drafts[position] == targets[position];
        let stats = r.stats.judged(position, held);
        if stop.contains(targets[position]) || !held {
            (RunView { stats, pending: targets[position], ..r }, Some(position))
        } else {
            let now = RunView { generated: r.generated.push(drafts[position]), stats, ..r };
            if now.generated.len() >= max {
                (now, Some(position))
            } else {
                drafts_settled(stop, drafts, targets, max, position + 1, now)
            }
        }
    }
}

/// A generation behind a round of drafts. A head whose cache is kept was told of the token
/// before the drafts, and of each draft that holds.
pub open spec fn apart_settled(stop: Seq<usize>, r: RunView, drafts: Seq<usize>, targets: Seq<usize>, max: int, committed: bool) -> (RunView, Option<int>) {
    let (after, ended) = drafts_settled(stop, drafts, targets, max, 0, r);
    let history_len = if committed {
        r.history_len + 1 + (after.generated.len() - r.generated.len())
    } else {
        r.history_len
    };
    (RunView { history_len, ..after }, ended)
}

/// A check adds drafts in their order, and no more than there are.
pub proof fn lemma_drafts_settled(stop: Seq<usize>, drafts: Seq<usize>, targets: Seq<usize>, max: int, position: int, r: RunView)
    requires
        0 <= position <= drafts.len(),
    ensures
        ({
            let (after, ended) = drafts_settled(stop, drafts, targets, max, position, r);
            let more = after.generated.len() - r.generated.len();
            &&& 0 <= more <= drafts.len() - position
            &&& after.generated == r.generated + drafts.subrange(position, position + more)
            &&& after.history_len == r.history_len
            &&& ended is None ==> more == drafts.len() - position
            &&& ended matches Some(at) ==> position <= at < drafts.len() && at <= position + more
        }),
    decreases drafts.len() - position,
{
    assert(r.generated + drafts.subrange(position, position) =~= r.generated);
    if position < drafts.len() && drafts[position] == targets[position] && !stop.contains(targets[position]) {
        let now = RunView { generated: r.generated.push(drafts[position]), stats: r.stats.judged(position, true), ..r };
        assert(r.generated + drafts.subrange(position, position + 1) =~= now.generated);
        if now.generated.len() < max {
            lemma_drafts_settled(stop, drafts, targets, max, position + 1, now);
            let after = drafts_settled(stop, drafts, targets, max, position + 1, now).0;
            let more = after.generated.len() - now.generated.len();
            assert(now.generated + drafts.subrange(position + 1, position + 1 + more) =~= r.generated + drafts.subrange(position, position + 1 + more));
        }
    }
}

/// The check of drafts against the best tokens that a device found gives the tokens, the
/// counts and the end that the check on the host gives, where the host finds these tokens.
pub proof fn law_drafts_as_on_host<K: Kernel>(
    m: DecoderModel<K>,
    options: GenerationOptions<K::Cell>,
    states: Seq<Seq<K::Cell>>,
    drafts: Seq<usize>,
    targets: Seq<usize>,
    max: int,
    position: int,
    v: Verdict<K::Cell>,
    history_len: int,
)
    requires
        0 <= position <= drafts.len(),
        v.ended is None,
        forall|i: int, sampler: crate::options::SamplerView|
            0 <= i < drafts.len() ==> ((#[trigger] target_of(m, options, states[i], None, drafts[i], sampler)) matches Some(made) && made.0 == targets[i]
                && made.1 == (drafts[i] == targets[i])),
    ensures
        ({
            let odds = Seq::<Option<Seq<K::Cell>>>::empty();
            let (after, ended) = drafts_settled(options.stop_token_ids@, drafts, targets, max, position, seen_by_host(v, history_len));
            &&& judge_from(m, options, states, drafts, odds, max, position, v) matches Some(judged)
            &&& seen_by_host(judged, history_len) == after
            &&& judged.ended == ended
            &&& judged.history.len() - v.history.len() == after.generated.len() - v.generated.len()
        }),
    decreases drafts.len() - position,
{
    let odds = Seq::<Option<Seq<K::Cell>>>::empty();
    if position < drafts.len() {
        assert(odds_at(odds, position) is None);
        assert(target_of(m, options, states[position], None, drafts[position], v.sampler) is Some);
        let next = judge_one(m, options, states, drafts, odds, max, position, v)->0;
        if next.ended is None {
            law_drafts_as_on_host(m, options, states, drafts, targets, max, position + 1, next, history_len);
        }
    }
}

/// A generation gives its next token: not where it stops at it. The flag says whether a
/// round is to follow.
pub open spec fn gave(stop: Seq<usize>, r: RunView, max: int) -> (RunView, bool) {
    if r.generated.len() >= max || stop.contains(r.pending) {
        (r, false)
    } else {
        let generated = r.generated.push(r.pending);
        (RunView { generated, ..r }, generated.len() < max)
    }
}

impl ResidentRun {
    /// Gives the next token. Says whether a round is to follow.
    pub fn give<C: Copy>(&mut self, options: &GenerationOptions<C>, max: usize) -> (goes_on: bool)
        ensures
            (final(self)@, goes_on) == gave(options.stop_token_ids@, old(self)@, max as int),
            final(self).stats == old(self).stats,
    {
        if self.generated.len() >= max || options.is_stop_token(self.pending) {
            return false;
        }
        self.generated.push(self.pending);
        assert(self@ =~= gave(options.stop_token_ids@, old(self)@, max as int).0);
        self.generated.len() < max
    }

    /// Takes what a round of drafts gave: the drafts, and the best token that the device
    /// found in the place of each. Hands back the place at which the check ended, where it
    /// did before the last.
    pub fn settle_drafts<C: Copy>(&mut self, options: &GenerationOptions<C>, drafts: &Vec<usize>, targets: &Vec<usize>, max: usize, committed: bool) -> (ended: Option<usize>)
        requires
            targets@.len() == drafts@.len(),
            old(self).stats.below(u128::MAX - drafts@.len() - 1),
            old(self).stats.covers(drafts@.len() as int),
            committed ==> old(self).history_len + 1 + drafts@.len() <= usize::MAX,
        ensures
            ({
                let (after, end) = apart_settled(options.stop_token_ids@, old(self)@, drafts@, targets@, max as int, committed);
                &&& final(self)@ == after
                &&& match ended {
                    Some(at) => end == Some(at as int),
                    None => end is None,
                }
            }),
            final(self).stats.covers(drafts@.len() as int),
            final(self).stats.below(u128::MAX - 1),
    {
        let n: usize = drafts.len();
        let ghost stop = options.stop_token_ids@;
        let ghost start = self@;
        let ghost whole = drafts_settled(stop, drafts@, targets@, max as int, 0, start);
        let before: usize = self.generated.len();
        let mut ended: Option<usize> = None;
        let mut position: usize = 0;
        proof {
            lemma_drafts_settled(stop, drafts@, targets@, max as int, 0, start);
        }
        while position < n && ended.is_none()
            invariant
                position <= n,
                n == drafts@.len(),
                n == targets@.len(),
                stop == options.stop_token_ids@,
                self.stats.covers(n as int),
                self.stats.below(u128::MAX - 1 - n + position),
                self.history_len == start.history_len,
                self.generated@.len() <= before + position,
                self.generated@.len() >= before,
                whole == drafts_settled(stop, drafts@, targets@, max as int, 0, start),
                match ended {
                    Some(at) => whole == (self@, Some(at as int)),
                    None => whole == drafts_settled(stop, drafts@, targets@, max as int, position as int, self@),
                },
            decreases n - position,
        {
            let draft: usize = drafts[position];
            let target: usize = targets[position];
            let ghost then = self@;
            self.stats.judge(position, draft == target, Ghost(u128::MAX - 1 - n + position));
            if options.is_stop_token(target) || draft != target {
                self.pending = target;
                ended = Some(position);
                assert(self@ =~= (RunView { stats: then.stats.judged(position as int, draft == target), pending: target, ..then }));
            } else {
                self.generated.push(draft);
                assert(self@ =~= (RunView { generated: then.generated.push(draft), stats: then.stats.judged(position as int, true), ..then }));
                if self.generated.len() >= max {
                    ended = Some(position);
                }
            }
            position = position + 1;
        }
        if committed {
            let kept: usize = self.generated.len() - before;
            self.history_len = self.history_len + 1 + kept;
        }
        assert(self@ =~= apart_settled(stop, start, drafts@, targets@, max as int, committed).0);
        ended
    }

    /// Takes the best token behind the last draft, where all drafts held.
    pub fn go_on(&mut self, token: usize)
        requires
            old(self).stats.below(u128::MAX - 1),
        ensures
            final(self)@ == (RunView { stats: old(self)@.stats.read(), pending: token, ..old(self)@ }),
    {
        self.stats.read(Ghost(u128::MAX - 1));
        self.pending = token;
        assert(self@ =~= (RunView { stats: old(self)@.stats.read(), pending: token, ..old(self)@ }));
    }
}

impl<K: Kernel> DecoderModel<K> {
    /// What a check of so many tokens from a position on keeps of the layers that have a
    /// state of their recurrence: a row behind each token but the last. Nothing where the
    /// tokens did not go as a batch, or nothing was to be kept.
    pub fn captures_of_check(&self, cache: &ResidentCache<K::Cell>, base_position: usize, count: usize, request: VerifyRequest, batched: bool) -> (out: Option<ResidentVerifyCaptures>)
        ensures
            out is Some <==> batched && request.capture_linear && count > 1,
            out matches Some(captures) ==> {
                &&& captures.base_position == base_position
                &&& captures.linear@ == Seq::new(
                    cache.cache@.layers.len(),
                    |i: int|
                        if cache.cache@.layers[i].recurrent.len() > 0 {
                            Some((count - 1) as usize)
                        } else {
                            None
                        },
                )
            },
    {
        if !batched || !request.capture_linear || count <= 1 {
            return None;
        }
        let n: usize = cache.cache.layers.len();
        let mut linear: Vec<Option<usize>> = Vec::new();
        for i in 0..n
            invariant
                n == cache.cache.layers@.len(),
                count > 1,
                linear@.len() == i,
                forall|j: int|
                    0 <= j < i ==> (#[trigger] linear@[j]) == if cache.cache@.layers[j].recurrent.len() > 0 {
                        Some((count - 1) as usize)
                    } else {
                        None
                    },
        {
            assert(cache.cache@.layers[i as int] == cache.cache.layers@[i as int]@);
            if cache.cache.layers[i].recurrent.len() > 0 {
                linear.push(Some(count - 1));
            } else {
                linear.push(None);
            }
        }
        let captures: ResidentVerifyCaptures = ResidentVerifyCaptures { base_position, linear };
        assert(captures.linear@ =~= Seq::new(
            cache.cache@.layers.len(),
            |i: int|
                if cache.cache@.layers[i].recurrent.len() > 0 {
                    Some((count - 1) as usize)
                } else {
                    None
                },
        ));
        Some(captures)
    }
}

} // verus!
