//! How many tokens to guess, by how often deep guesses held.

use vstd::prelude::*;
use crate::kernel::{at_most, at_most_of, binary, constant, constant_of, count, count_of, functional, Binary, Constant, Kernel};
use crate::rows::{minus, over, plus, times};

verus! {

/// Decides at each step how many tokens to guess.
#[derive(Clone, Copy, Debug)]
pub struct AdaptiveDepthController<C> {
    /// Guesses at most.
    pub cap: usize,
    /// Weight of the newest step in the average, above zero and at most one.
    pub alpha: C,
    /// Average from which deep guesses pay.
    pub threshold: C,
    /// A deep step is forced after so many steps.
    pub probe_period: u32,
    /// Average of whether the second guess held.
    pub ema_deep: C,
    /// Shallow steps since the last deep one.
    pub steps_since_deep: u32,
    pub total_depth: u64,
    pub steps: u64,
    /// Deep steps whose outcome was seen.
    pub deep_steps: u64,
}

/// What the steps came to.
#[derive(Clone, Copy, Debug)]
pub struct AdaptiveDepthSummary<C> {
    pub steps: u64,
    pub deep_steps: u64,
    pub avg_depth: C,
    pub ema_deep: C,
}

/// A number held between the smallest number above zero and one.
pub open spec fn clamped<K: Kernel>(k: K, value: K::Cell) -> K::Cell {
    let low = constant_of(k, Constant::MinPositive);
    let high = constant_of(k, Constant::One);
    let raised = if at_most_of(k, value, low) && !at_most_of(k, low, value) {
        low
    } else {
        value
    };
    if at_most_of(k, high, raised) && !at_most_of(k, raised, high) {
        high
    } else {
        raised
    }
}

fn clamp<K: Kernel>(k: &K, value: K::Cell) -> (out: K::Cell)
    ensures
        functional(*k) ==> out == clamped(*k, value),
{
    let low: K::Cell = constant(k, Constant::MinPositive);
    let high: K::Cell = constant(k, Constant::One);
    let below: bool = at_most(k, value, low);
    let not_above: bool = at_most(k, low, value);
    let raised: K::Cell = if below && !not_above {
        low
    } else {
        value
    };
    let above: bool = at_most(k, high, raised);
    let not_below: bool = at_most(k, raised, high);
    if above && !not_below {
        high
    } else {
        raised
    }
}

/// Number of guesses that there is room for.
pub open spec fn ceiling(cap: int, remaining: int) -> int {
    let room = if remaining < 1 {
        1
    } else {
        remaining
    };
    if cap < room {
        cap
    } else {
        room
    }
}

/// One more, up to the largest number.
pub open spec fn bumped_u32(n: u32) -> u32 {
    if n == u32::MAX {
        n
    } else {
        (n + 1) as u32
    }
}

/// So much more, up to the largest number.
pub open spec fn raised_u64(n: u64, by: int) -> u64 {
    if n + by > u64::MAX {
        u64::MAX
    } else {
        (n + by) as u64
    }
}

/// The guesses of a step: as many as there is room for where deep guesses pay or it
/// is time to try them, and one elsewhere.
pub open spec fn depth_of<K: Kernel>(k: K, c: AdaptiveDepthController<K::Cell>, remaining: int) -> int {
    let room = ceiling(c.cap as int, remaining);
    if room <= 1 {
        1
    } else if at_most_of(k, c.threshold, c.ema_deep) || bumped_u32(c.steps_since_deep) >= c.probe_period {
        room
    } else {
        1
    }
}

/// The controller after a step with so many guesses was planned.
pub open spec fn stepped<C>(c: AdaptiveDepthController<C>, depth: int) -> AdaptiveDepthController<C> {
    AdaptiveDepthController {
        steps: raised_u64(c.steps, 1),
        total_depth: raised_u64(c.total_depth, depth),
        steps_since_deep: if depth >= 2 {
            0
        } else {
            bumped_u32(c.steps_since_deep)
        },
        ..c
    }
}

/// The controller after a step was planned.
pub open spec fn planned<K: Kernel>(k: K, c: AdaptiveDepthController<K::Cell>, remaining: int) -> AdaptiveDepthController<K::Cell> {
    stepped(c, depth_of(k, c, remaining))
}

/// The controller after the outcome of a step was seen: a deep step moves the
/// average towards one where the second guess held, and towards zero elsewhere.
pub open spec fn observed<K: Kernel>(k: K, c: AdaptiveDepthController<K::Cell>, depth: int, held: int) -> AdaptiveDepthController<K::Cell> {
    if depth < 2 {
        c
    } else {
        let paid = if held >= 2 {
            constant_of(k, Constant::One)
        } else {
            constant_of(k, Constant::Zero)
        };
        AdaptiveDepthController {
            deep_steps: raised_u64(c.deep_steps, 1),
            ema_deep: plus(
                k,
                times(k, minus(k, constant_of(k, Constant::One), c.alpha), c.ema_deep),
                times(k, c.alpha, paid),
            ),
            ..c
        }
    }
}

fn raise(n: u64, by: u64) -> (out: u64)
    ensures
        out == raised_u64(n, by as int),
{
    match n.checked_add(by) {
        Some(sum) => sum,
        None => u64::MAX,
    }
}

fn bump(n: u32) -> (out: u32)
    ensures
        out == bumped_u32(n),
{
    if n == u32::MAX {
        n
    } else {
        n + 1
    }
}

/// A count as a machine word, up to the largest one.
pub open spec fn word_of(n: u64) -> usize {
    if n > usize::MAX {
        usize::MAX
    } else {
        n as usize
    }
}

fn to_word(n: u64) -> (out: usize)
    ensures
        out == word_of(n),
{
    if n > usize::MAX as u64 {
        usize::MAX
    } else {
        n as usize
    }
}

impl<C: Copy> AdaptiveDepthController<C> {
    pub open spec fn wf(&self) -> bool {
        self.cap >= 1 && self.probe_period >= 1
    }

    /// A controller that starts deep. A cap and a period of zero count as one, and the
    /// weight is held above zero and at most at one.
    pub fn new<K: Kernel<Cell = C>>(k: &K, cap: usize, alpha: C, threshold: C, probe_period: u32) -> (made: AdaptiveDepthController<C>)
        ensures
            made.wf(),
            made.cap == if cap < 1 { 1 } else { cap },
            made.probe_period == if probe_period < 1 { 1 } else { probe_period },
            made.threshold == threshold,
            made.steps_since_deep == 0 && made.total_depth == 0 && made.steps == 0 && made.deep_steps == 0,
            functional(*k) ==> made.alpha == clamped(*k, alpha) && made.ema_deep == constant_of(*k, Constant::One),
    {
        AdaptiveDepthController {
            cap: if cap < 1 {
                1
            } else {
                cap
            },
            alpha: clamp(k, alpha),
            threshold,
            probe_period: if probe_period < 1 {
                1
            } else {
                probe_period
            },
            ema_deep: constant(k, Constant::One),
            steps_since_deep: 0,
            total_depth: 0,
            steps: 0,
            deep_steps: 0,
        }
    }

    /// The number of tokens to guess at this step, where `remaining` are still to be
    /// given.
    pub fn plan<K: Kernel<Cell = C>>(&mut self, k: &K, remaining: usize) -> (depth: usize)
        requires
            old(self).wf(),
        ensures
            final(self).wf(),
            depth == 1 || depth == ceiling(old(self).cap as int, remaining as int),
            1 <= depth <= ceiling(old(self).cap as int, remaining as int),
            bumped_u32(old(self).steps_since_deep) >= old(self).probe_period ==> depth == ceiling(old(self).cap as int, remaining as int),
            *final(self) == stepped(*old(self), depth as int),
            functional(*k) ==> depth == depth_of(*k, *old(self), remaining as int) && *final(self) == planned(
                *k,
                *old(self),
                remaining as int,
            ),
    {
        self.steps = raise(self.steps, 1);
        let budget: usize = if remaining < 1 {
            1
        } else {
            remaining
        };
        let room: usize = if self.cap < budget {
            self.cap
        } else {
            budget
        };
        if room <= 1 {
            self.steps_since_deep = bump(self.steps_since_deep);
            self.total_depth = raise(self.total_depth, 1);
            return 1;
        }
        let probe: bool = bump(self.steps_since_deep) >= self.probe_period;
        let pays: bool = at_most(k, self.threshold, self.ema_deep);
        let depth: usize = if pays || probe {
            room
        } else {
            1
        };
        if depth >= 2 {
            self.steps_since_deep = 0;
        } else {
            self.steps_since_deep = bump(self.steps_since_deep);
        }
        self.total_depth = raise(self.total_depth, depth as u64);
        depth
    }

    /// Takes in the outcome of a step: the guesses made, and how many of them held.
    pub fn observe<K: Kernel<Cell = C>>(&mut self, k: &K, depth_used: usize, accepted_drafts: usize)
        requires
            old(self).wf(),
        ensures
            final(self).wf(),
            depth_used < 2 ==> *final(self) == *old(self),
            depth_used >= 2 ==> *final(self) == (AdaptiveDepthController {
                deep_steps: raised_u64(old(self).deep_steps, 1),
                ema_deep: final(self).ema_deep,
                ..*old(self)
            }),
            functional(*k) ==> *final(self) == observed(*k, *old(self), depth_used as int, accepted_drafts as int),
    {
        if depth_used < 2 {
            return;
        }
        self.deep_steps = raise(self.deep_steps, 1);
        let one: C = constant(k, Constant::One);
        let paid: C = if accepted_drafts >= 2 {
            one
        } else {
            constant(k, Constant::Zero)
        };
        let rest: C = binary(k, Binary::Sub, one, self.alpha);
        let kept: C = binary(k, Binary::Mul, rest, self.ema_deep);
        let fresh: C = binary(k, Binary::Mul, self.alpha, paid);
        self.ema_deep = binary(k, Binary::Add, kept, fresh);
    }

    /// What the steps came to.
    pub fn summary<K: Kernel<Cell = C>>(&self, k: &K) -> (summary: AdaptiveDepthSummary<C>)
        ensures
            summary.steps == self.steps,
            summary.deep_steps == self.deep_steps,
            summary.ema_deep == self.ema_deep,
            functional(*k) ==> summary.avg_depth == if self.steps > 0 {
                over(*k, count_of(*k, word_of(self.total_depth)), count_of(*k, word_of(self.steps)))
            } else {
                constant_of(*k, Constant::Zero)
            },
    {
        let avg_depth: C = if self.steps > 0 {
            let total: C = count(k, to_word(self.total_depth));
            let steps: C = count(k, to_word(self.steps));
            binary(k, Binary::Div, total, steps)
        } else {
            constant(k, Constant::Zero)
        };
        AdaptiveDepthSummary { steps: self.steps, deep_steps: self.deep_steps, avg_depth, ema_deep: self.ema_deep }
    }
}

/// The controller after the first `n` steps were planned, step `i` with room for
/// `remaining(i)` tokens, and none of them seen.
pub open spec fn after_plans<K: Kernel>(k: K, c: AdaptiveDepthController<K::Cell>, remaining: spec_fn(int) -> int, n: int) -> AdaptiveDepthController<K::Cell>
    decreases n,
{
    if n <= 0 {
        c
    } else {
        planned(k, after_plans(k, c, remaining, n - 1), remaining(n - 1))
    }
}

proof fn lemma_shallow_steps<K: Kernel>(k: K, c: AdaptiveDepthController<K::Cell>, remaining: spec_fn(int) -> int, n: int)
    requires
        c.wf(),
        0 <= n,
        c.steps_since_deep + n <= u32::MAX,
        forall|i: int| 0 <= i < n ==> depth_of(k, #[trigger] after_plans(k, c, remaining, i), remaining(i)) < 2,
    ensures
        after_plans(k, c, remaining, n).steps_since_deep == c.steps_since_deep + n,
        after_plans(k, c, remaining, n).cap == c.cap,
        after_plans(k, c, remaining, n).probe_period == c.probe_period,
    decreases n,
{
    if n > 0 {
        lemma_shallow_steps(k, c, remaining, n - 1);
        assert(depth_of(k, after_plans(k, c, remaining, n - 1), remaining(n - 1)) < 2);
    }
}

/// Where there is room for two guesses, one of every period of steps is deep, whatever room
/// there is at each of them: the average never goes stale.
pub proof fn law_probe_comes<K: Kernel>(k: K, c: AdaptiveDepthController<K::Cell>, remaining: spec_fn(int) -> int)
    requires
        c.wf(),
        c.cap >= 2,
        forall|i: int| 0 <= i < c.probe_period ==> #[trigger] remaining(i) >= 2,
    ensures
        exists|i: int| 0 <= i < c.probe_period && depth_of(k, #[trigger] after_plans(k, c, remaining, i), remaining(i)) >= 2,
{
    let period = c.probe_period as int;
    if forall|i: int| 0 <= i < period ==> depth_of(k, #[trigger] after_plans(k, c, remaining, i), remaining(i)) < 2 {
        let since = c.steps_since_deep as int;
        let n = if since >= period - 1 {
            0
        } else {
            period - 1 - since
        };
        lemma_shallow_steps(k, c, remaining, n);
        assert(remaining(n) >= 2);
        assert(depth_of(k, after_plans(k, c, remaining, n), remaining(n)) >= 2);
    }
}

/// However deep the guesses, there is at least one, and no more than asked for or
/// than there is room for.
pub proof fn law_depth_bounds<K: Kernel>(k: K, c: AdaptiveDepthController<K::Cell>, remaining: int)
    requires
        c.wf(),
    ensures
        1 <= depth_of(k, c, remaining) <= c.cap,
        remaining >= 1 ==> depth_of(k, c, remaining) <= remaining,
{
}

} // verus!
