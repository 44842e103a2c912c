//! How many experts two streams route to in one step.

use vstd::prelude::*;

verus! {

/// Experts of one stream, followed by those of the other that are not yet there.
pub open spec fn merged(first: Seq<u32>, second: Seq<u32>) -> Seq<u32>
    decreases second.len(),
{
    if second.len() == 0 {
        first
    } else {
        let before = merged(first, second.drop_last());
        if before.contains(second.last()) {
            before
        } else {
            before.push(second.last())
        }
    }
}

/// Two streams route to no fewer experts than the first of them, and to no more than both
/// together; the experts are those of either, each once where the first has each once.
pub proof fn law_merged(first: Seq<u32>, second: Seq<u32>)
    ensures
        first.len() <= merged(first, second).len() <= first.len() + second.len(),
        forall|expert: u32| #[trigger] merged(first, second).contains(expert) <==> first.contains(expert) || second.contains(expert),
        first.no_duplicates() ==> merged(first, second).no_duplicates(),
    decreases second.len(),
{
    if second.len() > 0 {
        let fewer = second.drop_last();
        let last = second.last();
        law_merged(first, fewer);
        let before = merged(first, fewer);
        assert(second =~= fewer.push(last));
        assert forall|expert: u32| #[trigger] merged(first, second).contains(expert) <==> first.contains(expert) || second.contains(expert) by {
            assert(second.contains(expert) <==> fewer.contains(expert) || expert == last) by {
                if fewer.contains(expert) {
                    let i = choose|i: int| 0 <= i < fewer.len() && fewer[i] == expert;
                    assert(second[i] == expert);
                }
                if expert == last {
                    assert(second[second.len() - 1] == expert);
                }
                if second.contains(expert) && expert != last {
                    let i = choose|i: int| 0 <= i < second.len() && second[i] == expert;
                    assert(fewer[i] == expert);
                }
            }
            if !before.contains(last) {
                let after = before.push(last);
                assert(after.contains(expert) <==> before.contains(expert) || expert == last) by {
                    if before.contains(expert) {
                        let i = choose|i: int| 0 <= i < before.len() && before[i] == expert;
                        assert(after[i] == expert);
                    }
                    if expert == last {
                        assert(after[after.len() - 1] == expert);
                    }
                    if after.contains(expert) && expert != last {
                        let i = choose|i: int| 0 <= i < after.len() && after[i] == expert;
                        assert(before[i] == expert);
                    }
                }
            }
        }
    }
}

fn holds(experts: &Vec<u32>, expert: u32) -> (yes: bool)
    ensures
        yes == experts@.contains(expert),
{
    for i in 0..experts.len()
        invariant
            forall|j: int| 0 <= j < i ==> experts@[j] != expert,
    {
        if experts[i] == expert {
            return true;
        }
    }
    false
}

/// Experts of one stream, followed by those of the other that are not yet there.
pub fn merge_experts(first: Vec<u32>, second: &Vec<u32>) -> (experts: Vec<u32>)
    ensures
        experts@ == merged(first@, second@),
{
    let ghost start = first@;
    let mut experts: Vec<u32> = first;
    let n: usize = second.len();
    assert(second@.take(0) =~= Seq::empty());
    for i in 0..n
        invariant
            n == second@.len(),
            experts@ == merged(start, second@.take(i as int)),
    {
        assert(second@.take(i + 1).drop_last() =~= second@.take(i as int));
        let expert: u32 = second[i];
        if !holds(&experts, expert) {
            experts.push(expert);
        }
    }
    assert(second@.take(n as int) =~= second@);
    experts
}

/// The experts that two streams chose in one layer, and how many each may choose; absent
/// where they could not be read.
pub struct ExpertPair {
    pub first: Vec<u32>,
    pub second: Vec<u32>,
    pub top_k: usize,
}

/// Counts of the experts that two streams shared.
pub struct ExpertStats {
    pub steps: u64,
    pub samples: u64,
    pub sum_distinct: u64,
    pub top_k: usize,
    /// How often two streams had so many experts.
    pub histogram: Vec<u64>,
    /// Sum and count for each layer.
    pub per_layer: Vec<(u64, u64)>,
}

pub struct ExpertCounts {
    pub steps: int,
    pub samples: int,
    pub sum_distinct: int,
    pub top_k: int,
    pub histogram: Seq<int>,
    pub per_layer: Seq<(int, int)>,
}

impl View for ExpertStats {
    type V = ExpertCounts;

    open spec fn view(&self) -> ExpertCounts {
        ExpertCounts {
            steps: self.steps as int,
            samples: self.samples as int,
            sum_distinct: self.sum_distinct as int,
            top_k: self.top_k as int,
            histogram: Seq::new(self.histogram@.len(), |i: int| self.histogram@[i] as int),
            per_layer: Seq::new(self.per_layer@.len(), |i: int| (self.per_layer@[i].0 as int, self.per_layer@[i].1 as int)),
        }
    }
}

/// A sequence made at least so long.
pub open spec fn grown<T>(values: Seq<T>, len: int, filler: T) -> Seq<T> {
    if values.len() < len {
        values + Seq::new((len - values.len()) as nat, |i: int| filler)
    } else {
        values
    }
}

/// Counts after the choice of two streams in a layer: `distinct` experts of `top_k` each.
pub open spec fn counted(counts: ExpertCounts, layer: int, distinct: int, top_k: int) -> ExpertCounts {
    let histogram = grown(counts.histogram, 2 * top_k + 1, 0int);
    let per_layer = grown(counts.per_layer, layer + 1, (0int, 0int));
    ExpertCounts {
        steps: counts.steps,
        samples: counts.samples + 1,
        sum_distinct: counts.sum_distinct + distinct,
        top_k: if counts.top_k < top_k {
            top_k
        } else {
            counts.top_k
        },
        histogram: if distinct < histogram.len() {
            histogram.update(distinct, histogram[distinct] + 1)
        } else {
            histogram
        },
        per_layer: per_layer.update(layer, (per_layer[layer].0 + distinct, per_layer[layer].1 + 1)),
    }
}

/// Counts after the choices in the first layers of a step.
pub open spec fn counted_step(counts: ExpertCounts, pairs: Seq<Option<ExpertPair>>) -> ExpertCounts
    decreases pairs.len(),
{
    if pairs.len() == 0 {
        ExpertCounts { steps: counts.steps + 1, ..counts }
    } else {
        let before = counted_step(counts, pairs.drop_last());
        match pairs.last() {
            Some(pair) => counted(before, pairs.len() - 1, merged(pair.first@, pair.second@).len() as int, pair.top_k as int),
            None => before,
        }
    }
}

/// Every count of a part is within the count of the whole.
pub open spec fn consistent(counts: ExpertCounts) -> bool {
    &&& 0 <= counts.samples
    &&& 0 <= counts.sum_distinct
    &&& 0 <= counts.top_k
    &&& forall|i: int| 0 <= i < counts.histogram.len() ==> 0 <= #[trigger] counts.histogram[i] <= counts.samples
    &&& forall|i: int| 0 <= i < counts.per_layer.len() ==> 0 <= (#[trigger] counts.per_layer[i]).0 <= counts.sum_distinct
    &&& forall|i: int| 0 <= i < counts.per_layer.len() ==> 0 <= (#[trigger] counts.per_layer[i]).1 <= counts.samples
}

pub open spec fn within(counts: ExpertCounts) -> bool {
    counts.steps <= u64::MAX && counts.samples <= u64::MAX && counts.sum_distinct <= u64::MAX
}

/// Counting keeps every part within the whole, and no count shrinks.
pub proof fn law_counting_is_consistent(counts: ExpertCounts, pairs: Seq<Option<ExpertPair>>)
    requires
        consistent(counts),
    ensures
        consistent(counted_step(counts, pairs)),
        counted_step(counts, pairs).steps == counts.steps + 1,
        counted_step(counts, pairs).samples >= counts.samples,
        counted_step(counts, pairs).sum_distinct >= counts.sum_distinct,
    decreases pairs.len(),
{
    if pairs.len() > 0 {
        law_counting_is_consistent(counts, pairs.drop_last());
    }
}

/// The counts of the first layers are within those of all.
proof fn lemma_fewer_within(counts: ExpertCounts, pairs: Seq<Option<ExpertPair>>, n: int)
    requires
        consistent(counts),
        0 <= n <= pairs.len(),
        within(counted_step(counts, pairs)),
    ensures
        within(counted_step(counts, pairs.take(n))),
        consistent(counted_step(counts, pairs.take(n))),
    decreases pairs.len(),
{
    law_counting_is_consistent(counts, pairs.take(n));
    if n < pairs.len() {
        law_counting_is_consistent(counts, pairs.drop_last());
        lemma_fewer_within(counts, pairs.drop_last(), n);
        assert(pairs.drop_last().take(n) =~= pairs.take(n));
    } else {
        assert(pairs.take(n) =~= pairs);
    }
}

fn grow_counts(values: &mut Vec<u64>, len: usize)
    ensures
        final(values)@ == grown(old(values)@, len as int, 0u64),
{
    let ghost start = values@;
    while values.len() < len
        invariant
            start == old(values)@,
            start.len() <= values@.len(),
            values@.len() <= len || values@.len() == start.len(),
            values@ == start + Seq::new((values@.len() - start.len()) as nat, |i: int| 0u64),
        decreases len - values@.len(),
    {
        values.push(0);
        assert(values@ =~= start + Seq::new((values@.len() - start.len()) as nat, |i: int| 0u64));
    }
    assert(values@ =~= grown(start, len as int, 0u64));
}

fn grow_layers(values: &mut Vec<(u64, u64)>, len: usize)
    ensures
        final(values)@ == grown(old(values)@, len as int, (0u64, 0u64)),
{
    let ghost start = values@;
    while values.len() < len
        invariant
            start == old(values)@,
            start.len() <= values@.len(),
            values@.len() <= len || values@.len() == start.len(),
            values@ == start + Seq::new((values@.len() - start.len()) as nat, |i: int| (0u64, 0u64)),
        decreases len - values@.len(),
    {
        values.push((0, 0));
        assert(values@ =~= start + Seq::new((values@.len() - start.len()) as nat, |i: int| (0u64, 0u64)));
    }
    assert(values@ =~= grown(start, len as int, (0u64, 0u64)));
}

impl ExpertStats {
    /// No counts yet.
    pub fn new() -> (made: ExpertStats)
        ensures
            consistent(made@),
            made@ == (ExpertCounts {
                steps: 0,
                samples: 0,
                sum_distinct: 0,
                top_k: 0,
                histogram: Seq::empty(),
                per_layer: Seq::empty(),
            }),
    {
        let made: ExpertStats = ExpertStats {
            steps: 0,
            samples: 0,
            sum_distinct: 0,
            top_k: 0,
            histogram: Vec::new(),
            per_layer: Vec::new(),
        };
        assert(made@.histogram =~= Seq::empty());
        assert(made@.per_layer =~= Seq::empty());
        made
    }

    /// Hands the counts over and starts again without any.
    pub fn reset(&mut self) -> (before: ExpertStats)
        ensures
            before@ == old(self)@,
            consistent(final(self)@),
            final(self)@ == (ExpertCounts {
                steps: 0,
                samples: 0,
                sum_distinct: 0,
                top_k: 0,
                histogram: Seq::empty(),
                per_layer: Seq::empty(),
            }),
    {
        let mut before: ExpertStats = ExpertStats::new();
        std::mem::swap(self, &mut before);
        before
    }

    fn count(&mut self, layer: usize, distinct: usize, top_k: usize)
        requires
            consistent(old(self)@),
            within(counted(old(self)@, layer as int, distinct as int, top_k as int)),
            2 * top_k < usize::MAX,
            layer < usize::MAX,
        ensures
            final(self)@ == counted(old(self)@, layer as int, distinct as int, top_k as int),
    {
        let ghost before = self@;
        let ghost start = *self;
        self.samples = self.samples + 1;
        self.sum_distinct = self.sum_distinct + distinct as u64;
        if self.top_k < top_k {
            self.top_k = top_k;
        }
        grow_counts(&mut self.histogram, 2 * top_k + 1);
        assert(forall|i: int| 0 <= i < start.histogram@.len() ==> #[trigger] start.histogram@[i] == before.histogram[i]);
        assert(forall|i: int| 0 <= i < start.per_layer@.len() ==> (#[trigger] start.per_layer@[i]).0 == before.per_layer[i].0);
        assert(forall|i: int| 0 <= i < start.per_layer@.len() ==> (#[trigger] start.per_layer@[i]).1 == before.per_layer[i].1);
        if distinct < self.histogram.len() {
            let bucket: u64 = self.histogram[distinct];
            self.histogram.set(distinct, bucket + 1);
        }
        grow_layers(&mut self.per_layer, layer + 1);
        let (sum, times) = self.per_layer[layer];
        self.per_layer.set(layer, (sum + distinct as u64, times + 1));
        let ghost owed = counted(before, layer as int, distinct as int, top_k as int);
        assert(self@.histogram =~= owed.histogram);
        assert(self@.per_layer =~= owed.per_layer);
    }

    /// Counts the choices of two streams in one step, layer by layer.
    pub fn record(&mut self, pairs: Vec<Option<ExpertPair>>)
        requires
            consistent(old(self)@),
            within(counted_step(old(self)@, pairs@)),
            forall|i: int| 0 <= i < pairs@.len() ==> ((#[trigger] pairs@[i]) matches Some(pair) ==> 2 * pair.top_k < usize::MAX),
        ensures
            consistent(final(self)@),
            final(self)@ == counted_step(old(self)@, pairs@),
    {
        let ghost start = self@;
        let ghost all = pairs@;
        let n: usize = pairs.len();
        let mut left: Vec<Option<ExpertPair>> = pairs;
        proof {
            lemma_fewer_within(start, all, 0);
            assert(all.take(0) =~= Seq::empty());
        }
        self.steps = self.steps + 1;
        let mut layer: usize = 0;
        while layer < n
            invariant
                layer <= n,
                n == all.len(),
                left@ == all.skip(layer as int),
                consistent(start),
                within(counted_step(start, all)),
                self@ == counted_step(start, all.take(layer as int)),
                forall|i: int| 0 <= i < all.len() ==> ((#[trigger] all[i]) matches Some(pair) ==> 2 * pair.top_k < usize::MAX),
            decreases n - layer,
        {
            proof {
                lemma_fewer_within(start, all, layer as int);
                lemma_fewer_within(start, all, layer + 1);
                assert(all.take(layer + 1).drop_last() =~= all.take(layer as int));
                assert(left@[0] == all[layer as int]);
            }
            let pair: Option<ExpertPair> = left.remove(0);
            assert(left@ =~= all.skip(layer + 1));
            if let Some(pair) = pair {
                let experts: Vec<u32> = merge_experts(pair.first, &pair.second);
                self.count(layer, experts.len(), pair.top_k);
            }
            layer = layer + 1;
        }
        assert(all.take(n as int) =~= all);
        proof {
            law_counting_is_consistent(start, all);
        }
    }
}

} // verus!
