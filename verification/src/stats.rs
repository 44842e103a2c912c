//! How many guesses were made, and how many held.

use vstd::prelude::*;

verus! {

/// Counts of a generation that guesses tokens and then checks them.
#[derive(Debug)]
pub struct SpeculativeStats {
    /// States that a token was read from to check or to go on.
    pub verifications: u128,
    /// Guesses that were checked.
    pub proposed: u128,
    pub accepted: u128,
    pub rejected: u128,
    /// Guesses that were checked, by their place behind the token they follow.
    pub proposed_by_position: Vec<u128>,
    pub accepted_by_position: Vec<u128>,
}

/// The contents of [`SpeculativeStats`].
#[verifier::ext_equal]
pub struct StatsView {
    pub verifications: int,
    pub proposed: int,
    pub accepted: int,
    pub rejected: int,
    pub proposed_by_position: Seq<int>,
    pub accepted_by_position: Seq<int>,
}

pub open spec fn counts(values: Seq<u128>) -> Seq<int> {
    Seq::new(values.len(), |i: int| values[i] as int)
}

impl View for SpeculativeStats {
    type V = StatsView;

    open spec fn view(&self) -> StatsView {
        StatsView {
            verifications: self.verifications as int,
            proposed: self.proposed as int,
            accepted: self.accepted as int,
            rejected: self.rejected as int,
            proposed_by_position: counts(self.proposed_by_position@),
            accepted_by_position: counts(self.accepted_by_position@),
        }
    }
}

/// One more at `position`.
pub open spec fn bumped(values: Seq<int>, position: int) -> Seq<int> {
    values.update(position, values[position] + 1)
}

/// The sum of counts.
pub open spec fn total(values: Seq<int>) -> int
    decreases values.len(),
{
    if values.len() == 0 {
        0
    } else {
        total(values.drop_last()) + values.last()
    }
}

impl StatsView {
    /// Nothing counted yet, with room for `positions` places.
    pub open spec fn zero(positions: int) -> StatsView {
        StatsView {
            verifications: 0,
            proposed: 0,
            accepted: 0,
            rejected: 0,
            proposed_by_position: Seq::new(positions as nat, |i: int| 0),
            accepted_by_position: Seq::new(positions as nat, |i: int| 0),
        }
    }

    /// The counts after the guess at `position` was checked.
    pub open spec fn judged(self, position: int, accepted: bool) -> StatsView {
        StatsView {
            verifications: self.verifications + 1,
            proposed: self.proposed + 1,
            accepted: if accepted { self.accepted + 1 } else { self.accepted },
            rejected: if accepted { self.rejected } else { self.rejected + 1 },
            proposed_by_position: bumped(self.proposed_by_position, position),
            accepted_by_position: if accepted {
                bumped(self.accepted_by_position, position)
            } else {
                self.accepted_by_position
            },
        }
    }

    /// The counts after a token was read from a state to go on.
    pub open spec fn read(self) -> StatsView {
        StatsView { verifications: self.verifications + 1, ..self }
    }

    /// Every guess that was checked held or did not, and the places add up.
    pub open spec fn balanced(self) -> bool {
        &&& self.proposed == self.accepted + self.rejected
        &&& self.proposed <= self.verifications
        &&& total(self.proposed_by_position) == self.proposed
        &&& total(self.accepted_by_position) == self.accepted
        &&& self.proposed_by_position.len() == self.accepted_by_position.len()
        &&& forall|i: int| 0 <= i < self.accepted_by_position.len() ==> 0 <= #[trigger] self.accepted_by_position[i]
        &&& forall|i: int|
            0 <= i < self.proposed_by_position.len() ==> self.accepted_by_position[i] <= #[trigger] self.proposed_by_position[i]
    }
}

proof fn lemma_total_bumped(values: Seq<int>, position: int)
    requires
        0 <= position < values.len(),
    ensures
        total(bumped(values, position)) == total(values) + 1,
    decreases values.len(),
{
    let after = bumped(values, position);
    if position == values.len() - 1 {
        assert(after.drop_last() =~= values.drop_last());
    } else {
        lemma_total_bumped(values.drop_last(), position);
        assert(after.drop_last() =~= bumped(values.drop_last(), position));
    }
}

proof fn lemma_total_zero(n: nat)
    ensures
        total(Seq::new(n, |i: int| 0int)) == 0,
    decreases n,
{
    let zeros = Seq::new(n, |i: int| 0int);
    if n > 0 {
        lemma_total_zero((n - 1) as nat);
        assert(zeros.drop_last() =~= Seq::new((n - 1) as nat, |i: int| 0int));
    }
}

/// Counts stay balanced where a guess is checked.
pub proof fn law_judged_balanced(stats: StatsView, position: int, accepted: bool)
    requires
        stats.balanced(),
        0 <= position < stats.proposed_by_position.len(),
    ensures
        stats.judged(position, accepted).balanced(),
{
    lemma_total_bumped(stats.proposed_by_position, position);
    lemma_total_bumped(stats.accepted_by_position, position);
    let after = stats.judged(position, accepted);
    assert forall|i: int| 0 <= i < after.accepted_by_position.len() implies 0 <= #[trigger] after.accepted_by_position[i] by {
        assert(0 <= stats.accepted_by_position[i]);
    }
    assert forall|i: int| 0 <= i < after.proposed_by_position.len() implies after.accepted_by_position[i] <= #[trigger] after.proposed_by_position[i] by {
        assert(stats.accepted_by_position[i] <= stats.proposed_by_position[i]);
    }
}

/// Counts of nothing are balanced.
pub proof fn law_zero_balanced(positions: int)
    requires
        positions >= 0,
    ensures
        StatsView::zero(positions).balanced(),
{
    lemma_total_zero(positions as nat);
    let zeros: Seq<int> = Seq::new(positions as nat, |i: int| 0int);
    assert(StatsView::zero(positions).proposed_by_position =~= zeros);
    assert(StatsView::zero(positions).accepted_by_position =~= zeros);
}

impl SpeculativeStats {
    /// No count is above `limit`.
    pub open spec fn below(&self, limit: int) -> bool {
        &&& self.verifications <= limit
        &&& self.proposed <= limit
        &&& self.accepted <= limit
        &&& self.rejected <= limit
        &&& forall|i: int| 0 <= i < self.proposed_by_position@.len() ==> (#[trigger] self.proposed_by_position@[i]) <= limit
        &&& forall|i: int| 0 <= i < self.accepted_by_position@.len() ==> (#[trigger] self.accepted_by_position@[i]) <= limit
    }

    /// Room for `positions` places.
    pub open spec fn covers(&self, positions: int) -> bool {
        &&& positions <= self.proposed_by_position@.len()
        &&& positions <= self.accepted_by_position@.len()
    }

    /// Nothing counted yet, with room for `positions` places.
    pub fn new(positions: usize) -> (made: SpeculativeStats)
        ensures
            made@ == StatsView::zero(positions as int),
            made.below(0),
            made.covers(positions as int),
    {
        let mut proposed_by_position: Vec<u128> = Vec::new();
        let mut accepted_by_position: Vec<u128> = Vec::new();
        for i in 0..positions
            invariant
                proposed_by_position@.len() == i,
                accepted_by_position@.len() == i,
                forall|j: int| 0 <= j < i ==> proposed_by_position@[j] == 0,
                forall|j: int| 0 <= j < i ==> accepted_by_position@[j] == 0,
        {
            proposed_by_position.push(0);
            accepted_by_position.push(0);
        }
        let made: SpeculativeStats = SpeculativeStats {
            verifications: 0,
            proposed: 0,
            accepted: 0,
            rejected: 0,
            proposed_by_position,
            accepted_by_position,
        };
        assert(made@ =~= StatsView::zero(positions as int));
        made
    }

    /// Counts the check of the guess at `position`.
    pub fn judge(&mut self, position: usize, accepted: bool, Ghost(limit): Ghost<int>)
        requires
            old(self).covers(position + 1),
            old(self).below(limit),
            limit < u128::MAX,
        ensures
            final(self)@ == old(self)@.judged(position as int, accepted),
            final(self).below(limit + 1),
            final(self).proposed_by_position@.len() == old(self).proposed_by_position@.len(),
            final(self).accepted_by_position@.len() == old(self).accepted_by_position@.len(),
    {
        assert(self.proposed_by_position@[position as int] <= limit);
        assert(self.accepted_by_position@[position as int] <= limit);
        self.verifications = self.verifications + 1;
        self.proposed = self.proposed + 1;
        let proposed: u128 = self.proposed_by_position[position] + 1;
        self.proposed_by_position.set(position, proposed);
        if accepted {
            self.accepted = self.accepted + 1;
            let accepted_here: u128 = self.accepted_by_position[position] + 1;
            self.accepted_by_position.set(position, accepted_here);
        } else {
            self.rejected = self.rejected + 1;
        }
        assert(self@ =~= old(self)@.judged(position as int, accepted));
    }

    /// Counts that a token was read from a state to go on.
    pub fn read(&mut self, Ghost(limit): Ghost<int>)
        requires
            old(self).below(limit),
            limit < u128::MAX,
        ensures
            final(self)@ == old(self)@.read(),
            final(self).below(limit + 1),
            final(self).proposed_by_position@.len() == old(self).proposed_by_position@.len(),
            final(self).accepted_by_position@.len() == old(self).accepted_by_position@.len(),
    {
        self.verifications = self.verifications + 1;
        assert(self@ =~= old(self)@.read());
    }
}

} // verus!
