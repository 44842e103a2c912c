//! What caches keep, in which order, and how far two rows are said to be apart.

use vstd::prelude::*;
use crate::kernel::{binary_of, constant_of, count_of, unary_of, Binary, Constant, Kernel, Unary};
use crate::kv::LayerView;
use crate::numbers::neutral;
use crate::prefix_cache::{put, to_front, EntryView};
use crate::snapshot::{restored, states_of};
use crate::model::CacheView;
use crate::xray::{apart, diff_of, farthest, layer_slice, total_apart};

verus! {

/// A position is put behind the others: its key ends the keys, and its value the values.
pub proof fn law_position_put_behind<C>(view: LayerView<C>, key: Seq<C>, value: Seq<C>, dim: usize)
    ensures
        ({
            let after = view.append(key, value, dim);
            &&& after.keys.take(view.keys.len() as int) == view.keys && after.keys.skip(view.keys.len() as int) == key
            &&& after.values.take(view.values.len() as int) == view.values && after.values.skip(view.values.len() as int) == value
            &&& after.kv_dim == Some(dim) && after.recurrent == view.recurrent
        }),
{
    let after = view.append(key, value, dim);
    assert(after.keys.take(view.keys.len() as int) =~= view.keys);
    assert(after.keys.skip(view.keys.len() as int) =~= key);
    assert(after.values.take(view.values.len() as int) =~= view.values);
    assert(after.values.skip(view.values.len() as int) =~= value);
}

/// A prompt that is kept anew stands first; the others keep their order behind it, and those
/// that were used longest ago are dropped first.
pub proof fn law_latest_first<C>(entries: Seq<EntryView<C>>, entry: EntryView<C>, capacity: int)
    requires
        capacity > 0,
        forall|i: int| 0 <= i < entries.len() ==> (#[trigger] entries[i]).tokens != entry.tokens,
    ensures
        put(entries, entry, capacity)[0] == entry,
        forall|i: int| 0 < i < put(entries, entry, capacity).len() ==> #[trigger] put(entries, entry, capacity)[i] == entries[i - 1],
        put(entries, entry, capacity).len() == if entries.len() + 1 <= capacity {
            entries.len() as int + 1
        } else {
            capacity
        },
{
    lemma_all_kept(entries, entry);
}

proof fn lemma_all_kept<C>(entries: Seq<EntryView<C>>, entry: EntryView<C>)
    requires
        forall|i: int| 0 <= i < entries.len() ==> (#[trigger] entries[i]).tokens != entry.tokens,
    ensures
        entries.filter(|other: EntryView<C>| other.tokens != entry.tokens) == entries,
    decreases entries.len(),
{
    reveal(Seq::filter);
    if entries.len() > 0 {
        let rest = entries.drop_last();
        assert forall|i: int| 0 <= i < rest.len() implies (#[trigger] rest[i]).tokens != entry.tokens by {
            assert(rest[i] == entries[i]);
        }
        lemma_all_kept(rest, entry);
        assert(entries.last() == entries[entries.len() - 1]);
        assert(rest.push(entries.last()) =~= entries);
    }
}

/// A prompt that is used moves to the front, and the others keep their order.
pub proof fn law_used_to_the_front<C>(entries: Seq<EntryView<C>>, at: int)
    requires
        0 <= at < entries.len(),
    ensures
        to_front(entries, at).len() == entries.len(),
        to_front(entries, at)[0] == entries[at],
        forall|i: int| 0 < i <= at ==> #[trigger] to_front(entries, at)[i] == entries[i - 1],
        forall|i: int| at < i < entries.len() ==> #[trigger] to_front(entries, at)[i] == entries[i],
{
}

/// A snapshot takes the states of the recurrences back and leaves all else: keys, values and
/// the position.
pub proof fn law_snapshot_takes_states_back<C>(cache: CacheView<C>, later: CacheView<C>, i: int)
    requires
        states_of(cache).len() > 0,
        cache.layers.len() == later.layers.len(),
        0 <= i < cache.layers.len(),
    ensures
        restored(later, states_of(cache)) matches Some(back) && {
            &&& back.position == later.position
            &&& back.layers.len() == later.layers.len()
            &&& back.layers[i].recurrent == cache.layers[i].recurrent
            &&& back.layers[i].keys == later.layers[i].keys
            &&& back.layers[i].values == later.layers[i].values
        },
{
    if cache.layers[i].recurrent.len() == 0 {
        assert(cache.layers[i].recurrent =~= Seq::empty());
    }
}

proof fn lemma_apart_once<K: Kernel>(k: K, left: Seq<K::Cell>, right: Seq<K::Cell>, at: int, n: int)
    requires
        neutral(k),
        left.len() == right.len(),
        0 <= n <= left.len(),
        0 <= at < left.len(),
        forall|i: int| 0 <= i < left.len() && i != at ==> #[trigger] left[i] == right[i],
        unary_of(k, Unary::Abs, constant_of(k, Constant::Zero)) == constant_of(k, Constant::Zero),
        ({
            let (zero, d) = (constant_of(k, Constant::Zero), unary_of(k, Unary::Abs, binary_of(k, Binary::Sub, left[at], right[at])));
            &&& binary_of(k, Binary::Max, zero, zero) == zero
            &&& binary_of(k, Binary::Max, zero, d) == d
            &&& binary_of(k, Binary::Max, d, zero) == d
        }),
    ensures
        ({
            let (zero, d) = (constant_of(k, Constant::Zero), unary_of(k, Unary::Abs, binary_of(k, Binary::Sub, left[at], right[at])));
            &&& farthest(k, left, right, n) == if n > at { d } else { zero }
            &&& total_apart(k, left, right, n) == if n > at { d } else { zero }
        }),
    decreases n,
{
    if n > 0 {
        lemma_apart_once(k, left, right, at, n - 1);
        if n - 1 != at {
            assert(left[n - 1] == right[n - 1]);
            assert(apart(k, left[n - 1], right[n - 1]) == constant_of(k, Constant::Zero));
        }
    }
}

/// Rows that differ in one number are as far apart as it is at most, and on the average as
/// far as that over their length; rows of different lengths are not compared.
pub proof fn law_distance_of_rows<K: Kernel>(k: K, left: Seq<K::Cell>, right: Seq<K::Cell>, at: int)
    requires
        neutral(k),
        left.len() == right.len() <= usize::MAX,
        0 <= at < left.len(),
        forall|i: int| 0 <= i < left.len() && i != at ==> #[trigger] left[i] == right[i],
        unary_of(k, Unary::Abs, constant_of(k, Constant::Zero)) == constant_of(k, Constant::Zero),
        ({
            let (zero, d) = (constant_of(k, Constant::Zero), unary_of(k, Unary::Abs, binary_of(k, Binary::Sub, left[at], right[at])));
            &&& binary_of(k, Binary::Max, zero, zero) == zero
            &&& binary_of(k, Binary::Max, zero, d) == d
            &&& binary_of(k, Binary::Max, d, zero) == d
        }),
    ensures
        ({
            let d = unary_of(k, Unary::Abs, binary_of(k, Binary::Sub, left[at], right[at]));
            diff_of(k, left, right) == Some((d, binary_of(k, Binary::Div, d, count_of(k, left.len() as usize))))
        }),
{
    lemma_apart_once(k, left, right, at, left.len() as int);
}

/// The rows of all layers side by side fall into those of the layers.
pub proof fn law_layers_side_by_side<C>(before: Seq<C>, row: Seq<C>, behind: Seq<C>, hidden: int, layer: int)
    requires
        before.len() == layer * hidden,
        row.len() == hidden,
        0 <= layer,
        0 <= hidden,
    ensures
        layer_slice(before + row + behind, hidden, layer) == Some(row),
{
    assert((layer + 1) * hidden == layer * hidden + hidden) by (nonlinear_arith);
    assert((before + row + behind).subrange(layer * hidden, (layer + 1) * hidden) =~= row);
}

} // verus!
