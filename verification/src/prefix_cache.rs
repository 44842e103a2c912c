//! States of prompts, kept for prompts that start with them.

use vstd::prelude::*;
use crate::model::{CacheView, CausalDecoderCache};
use crate::tensor::{copy_cells, Tensor};

verus! {

/// A prompt, and what it left.
pub struct PrefixCacheEntry<C> {
    pub tokens: Vec<usize>,
    pub cache: CausalDecoderCache<C>,
    pub final_state: Tensor<C>,
}

/// The contents of a [`PrefixCacheEntry`].
#[verifier::ext_equal]
pub struct EntryView<C> {
    pub tokens: Seq<usize>,
    pub cache: CacheView<C>,
    pub state: Seq<C>,
}

impl<C> View for PrefixCacheEntry<C> {
    type V = EntryView<C>;

    open spec fn view(&self) -> EntryView<C> {
        EntryView { tokens: self.tokens@, cache: self.cache@, state: self.final_state.data@ }
    }
}

impl<C> PrefixCacheEntry<C> {
    pub open spec fn wf(&self) -> bool {
        &&& self.cache@.wf()
        &&& self.final_state.is_matrix()
        &&& self.final_state.shape@[0] == 1
    }
}

/// Prompts that were seen, the latest first.
pub struct PrefixCache<C> {
    pub entries: Vec<PrefixCacheEntry<C>>,
}

impl<C> View for PrefixCache<C> {
    type V = Seq<EntryView<C>>;

    open spec fn view(&self) -> Seq<EntryView<C>> {
        Seq::new(self.entries@.len(), |i: int| self.entries@[i]@)
    }
}

/// No two prompts are equal.
pub open spec fn distinct<C>(entries: Seq<EntryView<C>>) -> bool {
    forall|i: int, j: int| 0 <= i < j < entries.len() ==> (#[trigger] entries[i]).tokens != (#[trigger] entries[j]).tokens
}

impl<C> PrefixCache<C> {
    pub open spec fn wf(&self) -> bool {
        &&& forall|i: int| 0 <= i < self.entries@.len() ==> (#[trigger] self.entries@[i]).wf()
        &&& distinct(self@)
    }
}

/// `prompt` starts with `tokens`.
pub open spec fn starts_with(prompt: Seq<usize>, tokens: Seq<usize>) -> bool {
    tokens.len() <= prompt.len() && prompt.take(tokens.len() as int) == tokens
}

/// The prompt starts with the tokens of the entry, and there are some.
pub open spec fn serves<C>(entry: EntryView<C>, prompt: Seq<usize>) -> bool {
    entry.tokens.len() > 0 && starts_with(prompt, entry.tokens)
}

/// Entry `i` is the first of the longest entries that serve the prompt.
pub open spec fn is_longest<C>(entries: Seq<EntryView<C>>, prompt: Seq<usize>, i: int) -> bool {
    &&& 0 <= i < entries.len()
    &&& serves(entries[i], prompt)
    &&& forall|j: int| 0 <= j < entries.len() && serves(#[trigger] entries[j], prompt) ==> entries[j].tokens.len() <= entries[i].tokens.len()
    &&& forall|j: int| 0 <= j < i && serves(#[trigger] entries[j], prompt) ==> entries[j].tokens.len() < entries[i].tokens.len()
}

fn vec_starts_with(prompt: &Vec<usize>, tokens: &Vec<usize>) -> (yes: bool)
    ensures
        yes == starts_with(prompt@, tokens@),
{
    if tokens.len() > prompt.len() {
        return false;
    }
    for i in 0..tokens.len()
        invariant
            tokens@.len() <= prompt@.len(),
            forall|j: int| 0 <= j < i ==> prompt@[j] == tokens@[j],
    {
        if prompt[i] != tokens[i] {
            assert(prompt@.take(tokens@.len() as int)[i as int] != tokens@[i as int]);
            return false;
        }
    }
    assert(prompt@.take(tokens@.len() as int) =~= tokens@);
    true
}

fn same_tokens(a: &Vec<usize>, b: &Vec<usize>) -> (same: bool)
    ensures
        same == (a@ == b@),
{
    if a.len() != b.len() {
        return false;
    }
    for i in 0..a.len()
        invariant
            a@.len() == b@.len(),
            forall|j: int| 0 <= j < i ==> a@[j] == b@[j],
    {
        if a[i] != b[i] {
            return false;
        }
    }
    assert(a@ =~= b@);
    true
}

/// The first of the longest entries that the prompt starts with.
pub fn longest_prefix_entry_index<C>(entries: &Vec<PrefixCacheEntry<C>>, prompt: &Vec<usize>) -> (best: Option<usize>)
    ensures
        ({
            let views = Seq::new(entries@.len(), |i: int| entries@[i]@);
            match best {
                Some(index) => is_longest(views, prompt@, index as int),
                None => forall|j: int| 0 <= j < views.len() ==> !serves(#[trigger] views[j], prompt@),
            }
        }),
{
    let ghost views = Seq::new(entries@.len(), |i: int| entries@[i]@);
    let mut best: Option<usize> = None;
    let mut best_len: usize = 0;
    for i in 0..entries.len()
        invariant
            views == Seq::new(entries@.len(), |i: int| entries@[i]@),
            match best {
                Some(index) => {
                    &&& index < i
                    &&& best_len == views[index as int].tokens.len()
                    &&& best_len > 0
                    &&& serves(views[index as int], prompt@)
                    &&& forall|j: int| 0 <= j < index && serves(#[trigger] views[j], prompt@) ==> views[j].tokens.len() < best_len
                },
                None => best_len == 0,
            },
            forall|j: int| 0 <= j < i && serves(#[trigger] views[j], prompt@) ==> views[j].tokens.len() <= best_len,
    {
        let len: usize = entries[i].tokens.len();
        assert(views[i as int].tokens == entries@[i as int].tokens@);
        if len > best_len && vec_starts_with(prompt, &entries[i].tokens) {
            best = Some(i);
            best_len = len;
        }
    }
    best
}

/// Entry `i` moved to the front.
pub open spec fn to_front<C>(entries: Seq<EntryView<C>>, i: int) -> Seq<EntryView<C>> {
    seq![entries[i]] + entries.remove(i)
}

/// The entry put in front, in place of one with its tokens, and the last ones
/// beyond the capacity dropped.
pub open spec fn put<C>(entries: Seq<EntryView<C>>, entry: EntryView<C>, capacity: int) -> Seq<EntryView<C>> {
    let others = entries.filter(|other: EntryView<C>| other.tokens != entry.tokens);
    let all = seq![entry] + others;
    if capacity == 0 {
        entries
    } else if all.len() > capacity {
        all.take(capacity)
    } else {
        all
    }
}

/// Without the tokens among the entries the filter keeps all of them.
proof fn lemma_filter_absent<C>(entries: Seq<EntryView<C>>, tokens: Seq<usize>)
    requires
        forall|i: int| 0 <= i < entries.len() ==> (#[trigger] entries[i]).tokens != tokens,
    ensures
        entries.filter(|other: EntryView<C>| other.tokens != tokens) == entries,
    decreases entries.len(),
{
    reveal(Seq::filter);
    if entries.len() > 0 {
        assert forall|i: int| 0 <= i < entries.drop_last().len() implies (#[trigger] entries.drop_last()[i]).tokens != tokens by {
            assert(entries.drop_last()[i] == entries[i]);
        }
        lemma_filter_absent(entries.drop_last(), tokens);
        assert(entries.last() == entries[entries.len() - 1]);
        assert(entries.drop_last().push(entries.last()) =~= entries);
    }
}

/// Among distinct entries the filter drops the one with the tokens.
proof fn lemma_filter_one<C>(entries: Seq<EntryView<C>>, tokens: Seq<usize>, at: int)
    requires
        distinct(entries),
        0 <= at < entries.len(),
        entries[at].tokens == tokens,
    ensures
        entries.filter(|other: EntryView<C>| other.tokens != tokens) == entries.remove(at),
    decreases entries.len(),
{
    reveal(Seq::filter);
    let shorter = entries.drop_last();
    assert(distinct(shorter)) by {
        assert forall|i: int, j: int| 0 <= i < j < shorter.len() implies (#[trigger] shorter[i]).tokens != (#[trigger] shorter[j]).tokens by {
            assert(shorter[i] == entries[i] && shorter[j] == entries[j]);
        }
    }
    if at == entries.len() - 1 {
        assert forall|i: int| 0 <= i < shorter.len() implies (#[trigger] shorter[i]).tokens != tokens by {
            assert(entries[i].tokens != entries[at].tokens);
        }
        lemma_filter_absent(shorter, tokens);
        assert(entries.remove(at) =~= shorter);
    } else {
        assert(shorter[at] == entries[at]);
        lemma_filter_one(shorter, tokens, at);
        assert(entries[at].tokens != entries[entries.len() - 1].tokens);
        assert(shorter.remove(at).push(entries.last()) =~= entries.remove(at));
    }
}

impl<C: Copy> PrefixCache<C> {
    pub fn new() -> (made: PrefixCache<C>)
        ensures
            made.wf(),
            made@ == Seq::<EntryView<C>>::empty(),
    {
        let made: PrefixCache<C> = PrefixCache { entries: Vec::new() };
        assert(made@ =~= Seq::<EntryView<C>>::empty());
        made
    }

    /// The entry that serves a prompt best, moved to the front: a copy of what it
    /// left, and how many of the prompt's tokens that covers.
    pub fn get(&mut self, prompt: &Vec<usize>) -> (hit: Option<(CausalDecoderCache<C>, Tensor<C>, usize)>)
        requires
            old(self).wf(),
        ensures
            final(self).wf(),
            match hit {
                Some((cache, state, covered)) => exists|i: int| {
                    &&& #[trigger] is_longest(old(self)@, prompt@, i)
                    &&& final(self)@ == to_front(old(self)@, i)
                    &&& cache@ == old(self)@[i].cache
                    &&& cache@.wf()
                    &&& state.is_matrix()
                    &&& state.shape@[0] == 1
                    &&& state.rows()[0] == old(self)@[i].state
                    &&& covered == old(self)@[i].tokens.len()
                },
                None => {
                    &&& final(self)@ == old(self)@
                    &&& forall|j: int| 0 <= j < old(self)@.len() ==> !serves(#[trigger] old(self)@[j], prompt@)
                },
            },
    {
        let index: usize = match longest_prefix_entry_index(&self.entries, prompt) {
            Some(index) => index,
            None => {
                return None;
            },
        };
        let ghost before = self@;
        let ghost views = Seq::new(self.entries@.len(), |i: int| self.entries@[i]@);
        assert(views =~= before);
        let ghost list = self.entries@;
        let entry: PrefixCacheEntry<C> = self.entries.remove(index);
        assert(entry.wf());
        let covered: usize = entry.tokens.len();
        let cache: CausalDecoderCache<C> = entry.cache.duplicate();
        let state: Tensor<C> = entry.final_state.duplicate();
        proof {
            assert(entry == list[index as int]);
            assert(crate::tensor::row_of(state.data@, state.cols(), 0) =~= state.data@);
        }
        self.entries.insert(0, entry);
        proof {
            assert(self@ =~= to_front(before, index as int));
            assert forall|i: int| 0 <= i < self.entries@.len() implies (#[trigger] self.entries@[i]).wf() by {
                if i == 0 {
                } else if i <= index {
                    assert(self.entries@[i] == list[i - 1]);
                } else {
                    assert(self.entries@[i] == list[i]);
                }
            }
            assert forall|i: int, j: int| 0 <= i < j < self@.len() implies (#[trigger] self@[i]).tokens != (#[trigger] self@[j]).tokens by {
                let from = |n: int| if n == 0 { index as int } else if n <= index { n - 1 } else { n };
                assert(self@[i] == before[from(i)]);
                assert(self@[j] == before[from(j)]);
                if from(i) < from(j) {
                    assert(before[from(i)].tokens != before[from(j)].tokens);
                } else {
                    assert(before[from(j)].tokens != before[from(i)].tokens);
                }
            }
            assert(is_longest(before, prompt@, index as int));
        }
        Some((cache, state, covered))
    }

    /// Keeps what a prompt left, in front of the others and in place of what it
    /// left before, and drops the last ones beyond the capacity.
    pub fn put(&mut self, prompt: &Vec<usize>, cache: &CausalDecoderCache<C>, final_state: &Tensor<C>, capacity: usize)
        requires
            old(self).wf(),
            cache@.wf(),
            final_state.is_matrix(),
            final_state.shape@[0] == 1,
        ensures
            final(self).wf(),
            final(self)@ == put(
                old(self)@,
                (EntryView { tokens: prompt@, cache: cache@, state: final_state.data@ }),
                capacity as int,
            ),
    {
        if capacity == 0 {
            return;
        }
        let ghost before = self@;
        let ghost list = self.entries@;
        let ghost view = EntryView { tokens: prompt@, cache: cache@, state: final_state.data@ };
        let mut at: usize = 0;
        while at < self.entries.len()
            invariant_except_break
                forall|j: int| 0 <= j < at ==> (#[trigger] before[j]).tokens != prompt@,
            invariant
                at <= self.entries@.len(),
                self.entries@ == list,
                before == Seq::new(list.len(), |i: int| list[i]@),
            ensures
                at < list.len() ==> before[at as int].tokens == prompt@,
                at == list.len() ==> forall|j: int| 0 <= j < at ==> (#[trigger] before[j]).tokens != prompt@,
            decreases self.entries@.len() - at,
        {
            if same_tokens(&self.entries[at].tokens, prompt) {
                break;
            }
            at = at + 1;
        }
        if at < self.entries.len() {
            self.entries.remove(at);
            proof {
                lemma_filter_one(before, prompt@, at as int);
                assert(self@ =~= before.remove(at as int));
            }
        } else {
            proof {
                lemma_filter_absent(before, prompt@);
                assert(self@ =~= before);
            }
        }
        let ghost others = self@;
        let ghost kept = self.entries@;
        proof {
            assert(others == before.filter(|other: EntryView<C>| other.tokens != view.tokens));
            assert forall|i: int| 0 <= i < others.len() implies (#[trigger] others[i]).tokens != prompt@ by {
                if at < list.len() {
                    let from = if i < at { i } else { i + 1 };
                    assert(others[i] == before[from]);
                    if from < at {
                        assert(before[from].tokens != before[at as int].tokens);
                    } else {
                        assert(before[at as int].tokens != before[from].tokens);
                    }
                } else {
                    assert(others[i] == before[i]);
                }
            }
            assert forall|i: int, j: int| 0 <= i < j < others.len() implies (#[trigger] others[i]).tokens != (#[trigger] others[j]).tokens by {
                if at < list.len() {
                    let a = if i < at { i } else { i + 1 };
                    let b = if j < at { j } else { j + 1 };
                    assert(others[i] == before[a] && others[j] == before[b]);
                } else {
                    assert(others[i] == before[i] && others[j] == before[j]);
                }
            }
            assert forall|i: int| 0 <= i < kept.len() implies (#[trigger] kept[i]).wf() by {
                if at < list.len() {
                    let from = if i < at { i } else { i + 1 };
                    assert(kept[i] == list[from]);
                }
            }
        }
        let entry: PrefixCacheEntry<C> = PrefixCacheEntry {
            tokens: copy_cells(prompt),
            cache: cache.duplicate(),
            final_state: final_state.duplicate(),
        };
        assert(entry@ =~= view);
        self.entries.insert(0, entry);
        assert(self@ =~= seq![view] + others);
        let ghost all = self@;
        proof {
            assert forall|i: int, j: int| 0 <= i < j < all.len() implies (#[trigger] all[i]).tokens != (#[trigger] all[j]).tokens by {
                assert(all[j] == others[j - 1]);
                if i > 0 {
                    assert(all[i] == others[i - 1]);
                }
            }
            assert forall|i: int| 0 <= i < self.entries@.len() implies (#[trigger] self.entries@[i]).wf() by {
                if i > 0 {
                    assert(self.entries@[i] == kept[i - 1]);
                }
            }
        }
        let ghost full = self.entries@;
        if self.entries.len() > capacity {
            self.entries.truncate(capacity);
            assert(self@ =~= all.take(capacity as int));
        }
        proof {
            assert forall|i: int| 0 <= i < self.entries@.len() implies (#[trigger] self.entries@[i]).wf() by {
                assert(self.entries@[i] == full[i]);
            }
            assert forall|i: int, j: int| 0 <= i < j < self@.len() implies (#[trigger] self@[i]).tokens != (#[trigger] self@[j]).tokens by {
                assert(self@[i] == all[i] && self@[j] == all[j]);
            }
        }
    }
}

/// A prompt that was put is served by its own entry.
pub proof fn law_put_serves<C>(entries: Seq<EntryView<C>>, entry: EntryView<C>, capacity: int)
    requires
        capacity > 0,
        entry.tokens.len() > 0,
    ensures
        is_longest(put(entries, entry, capacity), entry.tokens, 0),
        put(entries, entry, capacity)[0] == entry,
{
    let after = put(entries, entry, capacity);
    assert(after[0] == entry);
    assert(entry.tokens.take(entry.tokens.len() as int) =~= entry.tokens);
}

/// No more prompts are kept than the capacity, where there were not more before.
pub proof fn law_put_capacity<C>(entries: Seq<EntryView<C>>, entry: EntryView<C>, capacity: int)
    requires
        capacity >= 0,
        entries.len() <= capacity,
    ensures
        put(entries, entry, capacity).len() <= capacity,
{
}

} // verus!
