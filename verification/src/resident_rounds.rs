//! What a round that a device did in one go means for a generation.

use vstd::prelude::*;
use crate::error::InferError;
use crate::kernel::Kernel;
use crate::model::DecoderModel;
use crate::options::GenerationOptions;
use crate::resident_spec::{decide_two, kept_draft, two_decided, SpecTwoDecision};
use crate::speculation::{judge_from, judge_one, odds_at, target_of, Verdict};
use crate::stats::{SpeculativeStats, StatsView};

verus! {

/// A generation whose rounds a device does.
pub struct ResidentRun {
    pub generated: Vec<usize>,
    pub stats: SpeculativeStats,
    /// The token that comes next.
    pub pending: usize,
    /// Positions that the head was told of.
    pub history_len: usize,
}

/// The contents of a [`ResidentRun`].
#[verifier::ext_equal]
pub struct RunView {
    pub generated: Seq<usize>,
    pub stats: StatsView,
    pub pending: usize,
    pub history_len: int,
}

impl View for ResidentRun {
    type V = RunView;

    open spec fn view(&self) -> RunView {
        RunView {
            generated: self.generated@,
            stats: self.stats@,
            pending: self.pending,
            history_len: self.history_len as int,
        }
    }
}

/// Counts that a round cannot take out of the machine's range.
pub open spec fn countable(stats: SpeculativeStats) -> bool {
    stats.below(u128::MAX - 3)
}

/// Whether no count is so large that a round could take it out of the machine's range.
pub fn is_countable(stats: &SpeculativeStats) -> (yes: bool)
    ensures
        yes == countable(*stats),
{
    counts_fit(stats, 3)
}

/// Whether so many more can be added to every count within the machine's range.
pub fn counts_fit(stats: &SpeculativeStats, more: u64) -> (yes: bool)
    ensures
        yes == stats.below(u128::MAX - more),
{
    let limit: u128 = u128::MAX - more as u128;
    if stats.verifications > limit || stats.proposed > limit || stats.accepted > limit || stats.rejected > limit {
        return false;
    }
    for i in 0..stats.proposed_by_position.len()
        invariant
            limit == u128::MAX - more,
            forall|j: int| 0 <= j < i ==> (#[trigger] stats.proposed_by_position@[j]) <= limit,
    {
        if stats.proposed_by_position[i] > limit {
            return false;
        }
    }
    for i in 0..stats.accepted_by_position.len()
        invariant
            limit == u128::MAX - more,
            forall|j: int| 0 <= j < i ==> (#[trigger] stats.accepted_by_position@[j]) <= limit,
    {
        if stats.accepted_by_position[i] > limit {
            return false;
        }
    }
    true
}

/// A generation behind a round with one draft, and the row whose state is the latest. With
/// a head that starts afresh in every round, nothing is added to what it was told of.
pub open spec fn one_settled(stop: Seq<usize>, r: RunView, draft: usize, target: usize, bonus: usize, max: int, fresh: bool) -> (RunView, int) {
    let stats = r.stats.judged(0, draft == target);
    if !kept_draft(draft, target, stop) {
        let history_len = if fresh {
            r.history_len
        } else {
            r.history_len + 1
        };
        (RunView { stats, pending: target, history_len, ..r }, 0)
    } else {
        let generated = r.generated.push(draft);
        let history_len = if fresh {
            r.history_len
        } else {
            r.history_len + 2
        };
        if generated.len() < max {
            (RunView { generated, stats: stats.read(), pending: bonus, history_len }, 1)
        } else {
            (RunView { generated, stats, history_len, ..r }, 1)
        }
    }
}

/// A generation behind a round with two drafts, and the row whose state is the latest.
pub open spec fn two_settled(stop: Seq<usize>, r: RunView, drafts: (usize, usize), targets: (usize, usize, usize), max: int) -> (RunView, int) {
    let decision = two_decided(drafts, targets, stop);
    let first = r.stats.judged(0, decision.accepted.0);
    let checked = if decision.checked == 2 {
        first.judged(1, decision.accepted.1)
    } else {
        first
    };
    let generated = r.generated + seq![drafts.0, drafts.1].take(decision.accepted_generated as int);
    let stats = if decision.bonus_verified && generated.len() < max {
        checked.read()
    } else {
        checked
    };
    (
        RunView { generated, stats, pending: decision.pending, history_len: r.history_len + decision.committed_rows },
        decision.committed_rows - 1,
    )
}

impl ResidentRun {
    /// Takes what a round with one draft gave: hands back the row whose state is the
    /// latest. Refused where what the head was told of leaves the machine's range.
    pub fn settle_one<C: Copy>(&mut self, options: &GenerationOptions<C>, draft: usize, target: usize, bonus: usize, max: usize, fresh: bool) -> (out: Result<
        usize,
        InferError,
    >)
        requires
            countable(old(self).stats),
            old(self).stats.covers(1),
        ensures
            out is Ok <==> old(self).history_len + 1 <= usize::MAX && (kept_draft(draft, target, options.stop_token_ids@) && !fresh
                ==> old(self).history_len + 2 <= usize::MAX),
            out matches Err(error) ==> error is Dimension && *final(self) == *old(self),
            out matches Ok(row) ==> (final(self)@, row as int) == one_settled(
                options.stop_token_ids@,
                old(self)@,
                draft,
                target,
                bonus,
                max as int,
                fresh,
            ),
    {
        let kept: bool = draft == target && !options.is_stop_token(target);
        let room: usize = usize::MAX - self.history_len;
        if room < 1 || (kept && !fresh && room < 2) {
            return Err(InferError::Dimension("history of the head leaves the machine's range"));
        }
        self.stats.judge(0, draft == target, Ghost(u128::MAX - 3));
        if !kept {
            self.pending = target;
            if !fresh {
                self.history_len = self.history_len + 1;
            }
            return Ok(0);
        }
        self.generated.push(draft);
        if !fresh {
            self.history_len = self.history_len + 2;
        }
        if self.generated.len() < max {
            self.pending = bonus;
            self.stats.read(Ghost(u128::MAX - 2));
        }
        Ok(1)
    }

    /// Takes what a round with two drafts gave: hands back the row whose state is the
    /// latest. Refused where what the head was told of leaves the machine's range.
    pub fn settle_two<C: Copy>(&mut self, options: &GenerationOptions<C>, drafts: (usize, usize), targets: (usize, usize, usize), max: usize) -> (out: Result<
        usize,
        InferError,
    >)
        requires
            countable(old(self).stats),
            old(self).stats.covers(2),
        ensures
            out is Ok <==> old(self).history_len + two_decided(drafts, targets, options.stop_token_ids@).committed_rows <= usize::MAX,
            out matches Err(error) ==> error is Dimension && *final(self) == *old(self),
            out matches Ok(row) ==> (final(self)@, row as int) == two_settled(options.stop_token_ids@, old(self)@, drafts, targets, max as int),
    {
        let decision: SpecTwoDecision = decide_two(drafts, targets, &options.stop_token_ids);
        let history_len: usize = match self.history_len.checked_add(decision.committed_rows) {
            Some(len) => len,
            None => {
                return Err(InferError::Dimension("history of the head leaves the machine's range"));
            },
        };
        let ghost before = self.generated@;
        let ghost pair = seq![drafts.0, drafts.1];
        self.stats.judge(0, decision.accepted.0, Ghost(u128::MAX - 3));
        if decision.checked == 2 {
            self.stats.judge(1, decision.accepted.1, Ghost(u128::MAX - 2));
        }
        if decision.accepted_generated >= 1 {
            self.generated.push(drafts.0);
        }
        if decision.accepted_generated >= 2 {
            self.generated.push(drafts.1);
        }
        assert(self.generated@ =~= before + pair.take(decision.accepted_generated as int));
        if decision.bonus_verified && self.generated.len() < max {
            self.stats.read(Ghost(u128::MAX - 1));
        }
        self.pending = decision.pending;
        self.history_len = history_len;
        Ok(decision.committed_rows - 1)
    }
}

/// How a device does the next round.
#[derive(Clone, Copy, PartialEq, Eq, Structural, Debug)]
pub enum RoundKind {
    /// One draft, drafted and checked in one go.
    One,
    /// Two drafts, drafted and checked in one go.
    Two,
    /// Drafts first, their check behind them.
    Apart,
}

/// How a device does the next round of a generation that has given `given` of `max`
/// tokens: in one go only where the best token is taken each time and the head's cache is
/// kept, and with two drafts only where two more tokens are wanted.
pub fn next_round_kind(greedy: bool, committed: bool, max_drafts: usize, given: usize, max: usize) -> (kind: RoundKind)
    ensures
        kind is One <==> greedy && committed && max_drafts == 1,
        kind is Two <==> greedy && committed && max_drafts == 2 && given + 2 <= max,
        kind is Apart <==> !(kind is One) && !(kind is Two),
{
    if !greedy || !committed {
        RoundKind::Apart
    } else if max_drafts == 1 {
        RoundKind::One
    } else if max_drafts == 2 && given <= max && max - given >= 2 {
        RoundKind::Two
    } else {
        RoundKind::Apart
    }
}

/// A generation as the check of guesses on the host sees it.
pub open spec fn seen_by_host<C>(v: Verdict<C>, history_len: int) -> RunView {
    RunView { generated: v.generated, stats: v.stats, pending: v.pending, history_len }
}

/// A round with one draft on a device gives the tokens and counts that the check of the
/// draft on the host gives. Where the check goes on, the device has already read the next
/// token.
pub proof fn law_one_as_on_host<K: Kernel>(m: DecoderModel<K>, options: GenerationOptions<K::Cell>, states: Seq<Seq<K::Cell>>, draft: usize, target: usize, bonus: usize, max: int, v: Verdict<K::Cell>, history_len: int, fresh: bool)
    requires
        v.ended is None,
        v.generated.len() < max,
        target_of(m, options, states[0], None, draft, v.sampler) matches Some(made) && made.0 == target && made.1 == (draft == target),
    ensures
        ({
            let judged = judge_from(m, options, states, seq![draft], Seq::empty(), max, 0, v);
            let (after, row) = one_settled(options.stop_token_ids@, seen_by_host(v, history_len), draft, target, bonus, max, fresh);
            &&& judged is Some
            &&& after.generated == (judged->0).generated
            &&& (judged->0).ended is Some ==> after.stats == (judged->0).stats && after.pending == (judged->0).pending
            &&& (judged->0).ended is None ==> after.stats == (judged->0).stats.read() && after.pending == bonus && row == 1
        }),
{
    let drafts = seq![draft];
    let odds = Seq::<Option<Seq<K::Cell>>>::empty();
    assert(odds_at(odds, 0) is None);
    let first = judge_one(m, options, states, drafts, odds, max, 0, v)->0;
    assert(judge_from(m, options, states, drafts, odds, max, 0, v) == judge_from(m, options, states, drafts, odds, max, 1, first));
    assert(judge_from(m, options, states, drafts, odds, max, 1, first) == Some(first));
}

/// A round with two drafts on a device gives the tokens and counts that the check of the
/// drafts on the host gives, where there is room for both. Where the check goes on, the
/// device has already read the next token.
pub proof fn law_two_as_on_host<K: Kernel>(m: DecoderModel<K>, options: GenerationOptions<K::Cell>, states: Seq<Seq<K::Cell>>, drafts: (usize, usize), targets: (usize, usize, usize), max: int, v: Verdict<K::Cell>, history_len: int)
    requires
        v.ended is None,
        v.generated.len() + 2 <= max,
        target_of(m, options, states[0], None, drafts.0, v.sampler) matches Some(made) && made.0 == targets.0 && made.1 == (drafts.0
            == targets.0) && (target_of(m, options, states[1], None, drafts.1, made.2) matches Some(next) && next.0 == targets.1 && next.1
            == (drafts.1 == targets.1)),
    ensures
        ({
            let judged = judge_from(m, options, states, seq![drafts.0, drafts.1], Seq::empty(), max, 0, v);
            let (after, row) = two_settled(options.stop_token_ids@, seen_by_host(v, history_len), drafts, targets, max);
            let both = kept_draft(drafts.0, targets.0, options.stop_token_ids@) && kept_draft(drafts.1, targets.1, options.stop_token_ids@);
            &&& judged is Some
            &&& after.generated == (judged->0).generated
            &&& !both ==> after.stats == (judged->0).stats && after.pending == (judged->0).pending
            &&& both ==> row == 2 && after.pending == targets.2
            &&& both && (judged->0).ended is Some ==> after.stats == (judged->0).stats
            &&& both && (judged->0).ended is None ==> after.stats == (judged->0).stats.read()
        }),
{
    let pair = seq![drafts.0, drafts.1];
    let odds = Seq::<Option<Seq<K::Cell>>>::empty();
    let stop = options.stop_token_ids@;
    assert(odds_at(odds, 0) is None);
    assert(odds_at(odds, 1) is None);
    let first = judge_one(m, options, states, pair, odds, max, 0, v)->0;
    assert(judge_from(m, options, states, pair, odds, max, 0, v) == judge_from(m, options, states, pair, odds, max, 1, first));
    let decision = two_decided(drafts, targets, stop);
    assert(pair.take(0) =~= Seq::<usize>::empty());
    assert(pair.take(1) =~= seq![drafts.0]);
    assert(pair.take(2) =~= pair);
    if kept_draft(drafts.0, targets.0, stop) {
        assert(first.generated == v.generated.push(drafts.0));
        assert(first.ended is None);
        let second = judge_one(m, options, states, pair, odds, max, 1, first)->0;
        assert(judge_from(m, options, states, pair, odds, max, 1, first) == judge_from(m, options, states, pair, odds, max, 2, second));
        assert(judge_from(m, options, states, pair, odds, max, 2, second) == Some(second));
        assert(v.generated + seq![drafts.0] =~= v.generated.push(drafts.0));
        assert(v.generated + pair =~= v.generated.push(drafts.0).push(drafts.1));
    } else {
        assert(judge_from(m, options, states, pair, odds, max, 1, first) == Some(first));
        assert(v.generated + Seq::<usize>::empty() =~= v.generated);
    }
}

} // verus!
