//! One-call constructors for the heap-based merging iterator.

use vstd::prelude::*;
use core::cmp::Ordering;
use crate::comparators::tie_breaker::InsertionOrder;
use crate::comparators::{ByFunc, ByKey, ByOrd};
use crate::iter::slots_of;
use crate::merge_iter::{DefaultMergeIter, MergeIter};
use crate::model::{OptSlot, SlotModel};
use crate::source::Source;
use crate::storage::{InternalVecStorage, VecStorage};

verus! {

/// The stationary slots a fresh merge over `iters` starts from: one live
/// slot per non-empty input, in order.
pub open spec fn initial_slots<I: Source>(iters: Seq<I>) -> Seq<OptSlot<I::Item>> {
    slots_of(iters).map_values(|s: SlotModel<I::Item>| Option::Some(s))
}

/// Fills a [`VecStorage`] from the given inputs, skipping empty ones.
fn storage_from<I: Source>(iters: Vec<I>) -> (s: VecStorage<I>)
    ensures
        s.model() == slots_of(iters@),
{
    let ghost all = iters@;
    let mut iters = iters;
    let mut s = VecStorage::new();
    let ghost mut k: int = 0;
    proof {
        assert(s.model() =~= slots_of(all.take(0)));
    }
    while iters.len() > 0
        invariant
            0 <= k,
            k + iters@.len() == all.len(),
            iters@ == all.skip(k),
            s.model() == slots_of(all.take(k)),
        decreases iters@.len(),
    {
        let it = iters.remove(0);
        proof {
            assert(all.take(k).push(all[k]) =~= all.take(k + 1));
            crate::iter::lemma_slots_of_push(all.take(k), all[k]);
        }
        s.push(it);
        proof {
            assert(iters@ =~= all.skip(k + 1));
            k = k + 1;
        }
    }
    proof {
        assert(all.take(k) =~= all);
    }
    s
}

/// Merges the given inputs by the element type's natural order, smallest
/// first, equal elements in insertion order.
pub fn merge<I: Source>(iters: Vec<I>) -> (m: DefaultMergeIter<InternalVecStorage<I::Item, I>>) where
    I::Item: Ord,

    ensures
        m.inv(),
        m.cmp_of() == ByOrd,
        m.tb_of() == InsertionOrder,
        m.model() == initial_slots(iters@),
        m.live_count() == slots_of(iters@).len(),
    {
    storage_from(iters).build()
}

/// Merges the given inputs by a comparison function, smallest first, equal
/// elements in insertion order.
pub fn merge_by<I: Source, F: Fn(&I::Item, &I::Item) -> Ordering>(iters: Vec<I>, func: F) -> (m:
    MergeIter<InternalVecStorage<I::Item, I>, ByFunc<F>, InsertionOrder>)
    requires
        forall|a: &I::Item, b: &I::Item| #[trigger] call_requires(func, (a, b)),
    ensures
        m.inv(),
        m.cmp_of().func_of() == func,
        m.tb_of() == InsertionOrder,
        m.model() == initial_slots(iters@),
        m.live_count() == slots_of(iters@).len(),
{
    storage_from(iters).into_builder().min_by_func(func).build()
}

/// Merges the given inputs by the keys a function extracts, smallest key
/// first, equal elements in insertion order.
pub fn merge_by_key<I: Source, F: Fn(&I::Item) -> K, K: Ord>(iters: Vec<I>, func: F) -> (m:
    MergeIter<InternalVecStorage<I::Item, I>, ByKey<F>, InsertionOrder>)
    requires
        forall|a: &I::Item| #[trigger] call_requires(func, (a,)),
    ensures
        m.inv(),
        m.cmp_of().func_of() == func,
        m.tb_of() == InsertionOrder,
        m.model() == initial_slots(iters@),
        m.live_count() == slots_of(iters@).len(),
{
    storage_from(iters).into_builder().min_by_key(func).build()
}

} // verus!
