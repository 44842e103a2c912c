//! The state of the recurrences of a prompt, kept apart from it.

use vstd::prelude::*;
use crate::error::InferError;
use crate::kernel::Kernel;
use crate::kv::{LayerKvCache, LayerView};
use crate::model::{batch, CacheView, CausalDecoderCache, DecoderModel};
use crate::prefill::{tokenwise, uncached};
use crate::prompts::{last_of, law_suffix_extends, law_uncached_is_tokenwise, steady};
use crate::tensor::copy_cells;

verus! {

/// Bytes of one stored number.
pub const CELL_BYTES: usize = 4;

/// The state of the recurrence of each layer that has one; nothing where none has.
pub struct CausalDecoderPromptMetalSnapshot<C> {
    pub linear: Vec<Option<Vec<C>>>,
}

impl<C> View for CausalDecoderPromptMetalSnapshot<C> {
    type V = Seq<Option<Seq<C>>>;

    open spec fn view(&self) -> Seq<Option<Seq<C>>> {
        Seq::new(
            self.linear@.len(),
            |i: int|
                match self.linear@[i] {
                    Some(state) => Some(state@),
                    None => None,
                },
        )
    }
}

/// A layer's recurrence has a state.
pub open spec fn recurrent_state<C>(layer: LayerView<C>) -> Option<Seq<C>> {
    if layer.recurrent.len() == 0 {
        None
    } else {
        Some(layer.recurrent)
    }
}

/// The states of the recurrences of a cache; empty where there are none.
pub open spec fn states_of<C>(cache: CacheView<C>) -> Seq<Option<Seq<C>>> {
    if forall|i: int| 0 <= i < cache.layers.len() ==> (#[trigger] cache.layers[i]).recurrent.len() == 0 {
        Seq::empty()
    } else {
        Seq::new(cache.layers.len(), |i: int| recurrent_state(cache.layers[i]))
    }
}

/// A layer with another state of its recurrence.
pub open spec fn with_state<C>(layer: LayerView<C>, state: Option<Seq<C>>) -> LayerView<C> {
    LayerView {
        recurrent: match state {
            Some(state) => state,
            None => Seq::empty(),
        },
        ..layer
    }
}

/// A cache with the states of a snapshot. An empty snapshot changes nothing, and one of
/// another number of layers does not fit.
pub open spec fn restored<C>(cache: CacheView<C>, snapshot: Seq<Option<Seq<C>>>) -> Option<CacheView<C>> {
    if snapshot.len() == 0 {
        Some(cache)
    } else if snapshot.len() != cache.layers.len() {
        None
    } else {
        Some(CacheView { layers: Seq::new(cache.layers.len(), |i: int| with_state(cache.layers[i], snapshot[i])), ..cache })
    }
}

/// Numbers that some states hold.
pub open spec fn cells_in<C>(states: Seq<Option<Seq<C>>>) -> int
    decreases states.len(),
{
    if states.len() == 0 {
        0
    } else {
        cells_in(states.drop_last()) + match states.last() {
            Some(state) => state.len() as int,
            None => 0,
        }
    }
}

/// Putting the states of a cache back into it changes nothing.
pub proof fn law_restore_own_snapshot<C>(cache: CacheView<C>)
    ensures
        restored(cache, states_of(cache)) == Some(cache),
{
    let states = states_of(cache);
    if states.len() > 0 {
        let after = restored(cache, states)->0;
        assert forall|i: int| 0 <= i < cache.layers.len() implies #[trigger] after.layers[i] == cache.layers[i] by {
            assert(after.layers[i] =~= cache.layers[i]);
        }
        assert(after.layers =~= cache.layers);
        assert(after =~= cache);
    }
}

/// Where two caches differ in nothing but the states of their recurrences, the states of
/// the one make the other like it.
pub proof fn law_restore_carries_over<C>(cache: CacheView<C>, other: CacheView<C>)
    requires
        cache.position == other.position,
        cache.layers.len() == other.layers.len(),
        forall|i: int| 0 <= i < cache.layers.len() ==> with_state(#[trigger] other.layers[i], None) == with_state(cache.layers[i], None),
        states_of(cache).len() > 0,
    ensures
        restored(other, states_of(cache)) == Some(cache),
{
    let after = restored(other, states_of(cache))->0;
    assert forall|i: int| 0 <= i < cache.layers.len() implies #[trigger] after.layers[i] == cache.layers[i] by {
        assert(with_state(other.layers[i], None) == with_state(cache.layers[i], None));
        assert(after.layers[i] =~= cache.layers[i]);
    }
    assert(after.layers =~= cache.layers);
    assert(after =~= cache);
}

/// The caches differ in nothing but the states of their recurrences, and where the first
/// has none, not in these either.
pub open spec fn alike<C>(cache: CacheView<C>, other: CacheView<C>) -> bool {
    &&& cache.position == other.position
    &&& cache.layers.len() == other.layers.len()
    &&& forall|i: int| 0 <= i < cache.layers.len() ==> with_state(#[trigger] other.layers[i], None) == with_state(cache.layers[i], None)
    &&& states_of(cache).len() == 0 ==> other == cache
}

/// The states of a prompt put back and a suffix taken behind them leave what the suffix
/// leaves behind the prompt, whatever became of the states in between. Where the prompt was
/// taken token by token, or a steady decoder took it, that is what prompt and suffix
/// together leave.
pub proof fn law_restore_and_extend<K: Kernel>(m: DecoderModel<K>, prompt: Seq<usize>, suffix: Seq<usize>, cache: CacheView<K::Cell>, state: Seq<K::Cell>, other: CacheView<K::Cell>)
    requires
        alike(cache, other),
        suffix.len() > 0,
    ensures
        restored(other, states_of(cache)) matches Some(back) && {
            &&& last_of(batch(m, back, suffix)) == last_of(batch(m, cache, suffix))
            &&& tokenwise(m, prompt) == Some((cache, state)) ==> last_of(batch(m, back, suffix)) == tokenwise(m, prompt + suffix)
            &&& steady(m) && uncached(m, prompt) == Some((cache, state)) ==> last_of(batch(m, back, suffix)) == uncached(m, prompt + suffix)
        },
{
    if states_of(cache).len() > 0 {
        law_restore_carries_over(cache, other);
    }
    if steady(m) {
        law_uncached_is_tokenwise(m, prompt);
        law_uncached_is_tokenwise(m, prompt + suffix);
    }
    if tokenwise(m, prompt) == Some((cache, state)) {
        law_suffix_extends(m, prompt, suffix);
    }
}

impl<C: Copy> CausalDecoderPromptMetalSnapshot<C> {
    /// Nothing kept.
    pub fn new() -> (made: CausalDecoderPromptMetalSnapshot<C>)
        ensures
            made@ == Seq::<Option<Seq<C>>>::empty(),
    {
        let made: CausalDecoderPromptMetalSnapshot<C> = CausalDecoderPromptMetalSnapshot { linear: Vec::new() };
        assert(made@ =~= Seq::empty());
        made
    }

    /// The states of the recurrences of a cache.
    pub fn of_cache(cache: &CausalDecoderCache<C>) -> (made: CausalDecoderPromptMetalSnapshot<C>)
        ensures
            made@ == states_of(cache@),
    {
        let mut linear: Vec<Option<Vec<C>>> = Vec::new();
        let mut any: bool = false;
        let n: usize = cache.layers.len();
        for i in 0..n
            invariant
                n == cache.layers@.len(),
                linear@.len() == i,
                any == !forall|j: int| 0 <= j < i ==> (#[trigger] cache@.layers[j]).recurrent.len() == 0,
                forall|j: int|
                    0 <= j < i ==> match (#[trigger] linear@[j]) {
                        Some(state) => recurrent_state(cache@.layers[j]) == Some(state@),
                        None => recurrent_state(cache@.layers[j]) is None,
                    },
        {
            assert(cache@.layers[i as int] == cache.layers@[i as int]@);
            if cache.layers[i].recurrent.len() > 0 {
                any = true;
                linear.push(Some(copy_cells(&cache.layers[i].recurrent)));
            } else {
                linear.push(None);
            }
        }
        if !any {
            return CausalDecoderPromptMetalSnapshot::new();
        }
        let made: CausalDecoderPromptMetalSnapshot<C> = CausalDecoderPromptMetalSnapshot { linear };
        assert(made@ =~= states_of(cache@));
        made
    }

    /// A copy.
    pub fn duplicate(&self) -> (copy: CausalDecoderPromptMetalSnapshot<C>)
        ensures
            copy@ == self@,
    {
        let mut linear: Vec<Option<Vec<C>>> = Vec::new();
        let n: usize = self.linear.len();
        for i in 0..n
            invariant
                n == self.linear@.len(),
                linear@.len() == i,
                forall|j: int|
                    0 <= j < i ==> match (#[trigger] linear@[j]) {
                        Some(state) => self@[j] == Some(state@),
                        None => self@[j] is None,
                    },
        {
            match &self.linear[i] {
                Some(state) => {
                    linear.push(Some(copy_cells(state)));
                },
                None => {
                    linear.push(None);
                },
            }
        }
        let copy: CausalDecoderPromptMetalSnapshot<C> = CausalDecoderPromptMetalSnapshot { linear };
        assert(copy@ =~= self@);
        copy
    }

    /// Bytes that the states take.
    pub fn estimated_bytes(&self) -> (bytes: u128)
        requires
            cells_in(self@) * CELL_BYTES <= u128::MAX,
        ensures
            bytes == cells_in(self@) * CELL_BYTES,
    {
        let n: usize = self.linear.len();
        let mut cells: u128 = 0;
        assert(self@.take(0) =~= Seq::empty());
        for i in 0..n
            invariant
                n == self.linear@.len(),
                cells == cells_in(self@.take(i as int)),
                cells_in(self@) * CELL_BYTES <= u128::MAX,
        {
            assert(self@.take(i + 1).drop_last() =~= self@.take(i as int));
            proof {
                lemma_fewer_cells(self@, i + 1);
            }
            if let Some(state) = &self.linear[i] {
                cells = cells + state.len() as u128;
            }
        }
        assert(self@.take(n as int) =~= self@);
        cells * CELL_BYTES as u128
    }

    /// Puts the states back into a cache. Refused where the numbers of layers differ.
    pub fn restore(self, cache: &mut CausalDecoderCache<C>) -> (out: Result<(), InferError>)
        ensures
            match out {
                Ok(_) => restored(old(cache)@, self@) == Some(final(cache)@),
                Err(error) => restored(old(cache)@, self@) is None && error is Dimension && final(cache)@ == old(cache)@,
            },
    {
        let ghost snapshot = self@;
        let ghost start = cache@;
        let n: usize = self.linear.len();
        if n == 0 {
            return Ok(());
        }
        if n != cache.layers.len() {
            return Err(InferError::Dimension("states of another number of layers"));
        }
        let mut left: Vec<Option<Vec<C>>> = self.linear;
        let mut old_layers: Vec<LayerKvCache<C>> = Vec::new();
        std::mem::swap(&mut old_layers, &mut cache.layers);
        let ghost before = old_layers@;
        let mut layers: Vec<LayerKvCache<C>> = Vec::new();
        let mut i: usize = 0;
        while i < n
            invariant
                i <= n,
                n == before.len(),
                n == snapshot.len(),
                left@.len() == n - i,
                old_layers@ == before.skip(i as int),
                forall|j: int|
                    0 <= j < n - i ==> match (#[trigger] left@[j]) {
                        Some(state) => snapshot[i + j] == Some(state@),
                        None => snapshot[i + j] is None,
                    },
                layers@.len() == i,
                forall|j: int| 0 <= j < i ==> (#[trigger] layers@[j])@ == with_state(before[j]@, snapshot[j]),
                cache.position == old(cache).position,
            decreases n - i,
        {
            let mut layer: LayerKvCache<C> = old_layers.remove(0);
            assert(layer == before[i as int]);
            assert(old_layers@ =~= before.skip(i + 1));
            let state: Option<Vec<C>> = left.remove(0);
            layer.recurrent = match state {
                Some(state) => state,
                None => Vec::new(),
            };
            assert(layer@ =~= with_state(before[i as int]@, snapshot[i as int]));
            layers.push(layer);
            i = i + 1;
        }
        cache.layers = layers;
        assert(cache@.layers =~= (restored(start, snapshot)->0).layers);
        Ok(())
    }
}

proof fn lemma_fewer_cells<C>(states: Seq<Option<Seq<C>>>, n: int)
    requires
        0 <= n <= states.len(),
    ensures
        0 <= cells_in(states.take(n)) <= cells_in(states),
    decreases states.len(),
{
    if n < states.len() {
        lemma_fewer_cells(states.drop_last(), n);
        assert(states.drop_last().take(n) =~= states.take(n));
    } else {
        assert(states.take(n) =~= states);
        if n > 0 {
            lemma_fewer_cells(states.drop_last(), n - 1);
            assert(states.drop_last().take(n - 1) =~= states.drop_last());
        }
    }
}

} // verus!
