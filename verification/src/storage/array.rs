//! Fixed-capacity storage for the heap engine.

use vstd::prelude::*;
use vstd::pervasive::VecAdditionalExecFns;
use crate::internal::{slots_model, BaseStorage, PeekIter};
use crate::iter::{lemma_slots_of_take_le, slots_of};
use crate::merge_iter::{Builder, DefaultBuilder, DefaultMergeIter};
use crate::model::SlotModel;
use crate::source::Source;

verus! {

/// Error signalling an overflow of the fixed capacity.
#[derive(Debug, Clone, Copy)]
pub struct ArrayCapacityOverflow;

impl ArrayCapacityOverflow {
    /// A short description of the error.
    pub fn message(&self) -> (r: &'static str)
        ensures
            r@ =~= "capacity overflow"@,
    {
        "capacity overflow"
    }
}

/// Fixed-capacity storage for the heap engine: it holds at most `CAP`
/// inputs and never reallocates once built.
pub struct ArrayStorage<const CAP: usize, I: Source> {
    storage: Vec<PeekIter<I>>,
}

impl<I: Source> ArrayStorage<0, I> {
    /// Creates an [`ArrayStorage`] with the given capacity and an inferred
    /// input type.
    pub fn with_capacity<const CAP: usize>() -> (s: ArrayStorage<CAP, I>)
        ensures
            s.model() == Seq::<SlotModel<I::Item>>::empty(),
    {
        ArrayStorage::<CAP, I>::new()
    }
}

impl<const CAP: usize, I: Source> ArrayStorage<CAP, I> {
    /// The stored `(head, rest)` pairs, in insertion order.
    pub closed spec fn model(&self) -> Seq<SlotModel<I::Item>> {
        self.storage@.map_values(|pi: PeekIter<I>| pi.model())
    }

    /// Creates a new, empty `ArrayStorage`.
    pub fn new() -> (s: Self)
        ensures
            s.model() == Seq::<SlotModel<I::Item>>::empty(),
    {
        let s = ArrayStorage { storage: Vec::new() };
        proof {
            assert(s.model() =~= Seq::<SlotModel<I::Item>>::empty());
        }
        s
    }

    /// Creates an `ArrayStorage` filled from the given inputs, skipping
    /// empty ones.  The non-empty inputs must fit the capacity.
    pub fn from_arr(iters: Vec<I>) -> (s: Self)
        requires
            slots_of(iters@).len() <= CAP,
        ensures
            s.model() == slots_of(iters@),
    {
        let ghost all = iters@;
        let mut iters = iters;
        let mut s = ArrayStorage::<CAP, I>::new();
        let ghost mut k: int = 0;
        proof {
            assert(s.model() =~= slots_of(all.take(0)));
        }
        while iters.len() > 0
            invariant
                0 <= k,
                k + iters@.len() == all.len(),
                iters@ == all.skip(k),
                s.model() == slots_of(all.take(k)),
                slots_of(all).len() <= CAP,
            decreases iters@.len(),
        {
            let it = iters.remove(0);
            proof {
                assert(all.take(k).push(all[k]) =~= all.take(k + 1));
                crate::iter::lemma_slots_of_push(all.take(k), all[k]);
                lemma_slots_of_take_le(all, k + 1);
            }
            s.push(it);
            proof {
                assert(iters@ =~= all.skip(k + 1));
                k = k + 1;
            }
        }
        proof {
            assert(all.take(k) =~= all);
        }
        s
    }

    /// The number of non-empty inputs stored.
    pub fn len(&self) -> (n: usize)
        ensures
            n == self.model().len(),
    {
        self.storage.len()
    }

    /// The fixed capacity.
    pub fn capacity(&self) -> (n: usize)
        ensures
            n == CAP,
    {
        CAP
    }

    /// Whether no input is stored.
    pub fn is_empty(&self) -> (r: bool)
        ensures
            r <==> self.model().len() == 0,
    {
        self.storage.len() == 0
    }

    /// Appends an input.  Empty inputs are skipped; a non-empty input
    /// needs a free position.  On the one input the fallible variant
    /// refuses — non-empty with the storage full — this infallible variant
    /// may not be called: verified functions do not panic, so the
    /// overflow becomes a precondition instead of an abort.
    pub fn push(&mut self, iter: I)
        requires
            iter.remaining().len() > 0 ==> old(self).model().len() < CAP,
        ensures
            iter.remaining().len() == 0 ==> final(self).model() == old(self).model(),
            iter.remaining().len() > 0 ==> final(self).model() == old(self).model().push(
                (iter.remaining()[0], iter.remaining().drop_first()),
            ),
    {
        let r = self.try_push(iter);
        match r {
            Result::Ok(()) => {},
            Result::Err(overflow) => {
                // A non-empty input is only handed in when a position is
                // free, so the fallible push cannot refuse it.
                proof {
                    assert(false);
                }
                let _ = overflow;
            },
        }
    }

    /// Appends an input; a non-empty input is refused when the storage is
    /// full.
    pub fn try_push(&mut self, iter: I) -> (r: Result<(), ArrayCapacityOverflow>)
        ensures
            iter.remaining().len() == 0 ==> r is Ok && final(self).model() == old(self).model(),
            iter.remaining().len() > 0 && old(self).model().len() < CAP ==> r is Ok && final(self).model() == old(self).model().push(
                (iter.remaining()[0], iter.remaining().drop_first()),
            ),
            iter.remaining().len() > 0 && old(self).model().len() >= CAP ==> r is Err && final(self).model() == old(self).model(),
    {
        match PeekIter::new_from_iter(iter) {
            Option::Some(peek_iter) => {
                if self.storage.len() >= CAP {
                    return Result::Err(ArrayCapacityOverflow);
                }
                self.storage.push(peek_iter);
                proof {
                    assert(final(self).model() =~= old(self).model().push(
                        (iter.remaining()[0], iter.remaining().drop_first()),
                    ));
                }
                Result::Ok(())
            },
            Option::None => Result::Ok(()),
        }
    }

    /// Converts this storage into a builder over the engine's internal
    /// representation, with the default comparator and tie-breaker.
    pub fn into_builder(self) -> (b: DefaultBuilder<InternalArrayStorage<I::Item, I>>)
        ensures
            b.cmp_of() == crate::comparators::ByOrd,
            b.tb_of() == crate::comparators::tie_breaker::InsertionOrder,
            b.storage_ready(),
            b.storage_model() == self.model().map_values(
                |s: SlotModel<I::Item>| Option::Some(s),
            ),
            b.storage_live_count() == self.model().len(),
    {
        let ghost m = self.model();
        let ArrayStorage { storage } = self;
        let mut items = storage;
        let ghost orig = items@;
        let mut slots: Vec<Option<PeekIter<I>>> = Vec::new();
        let mut heap: Vec<usize> = Vec::new();
        // Move the pairs into stationary slots and aim one pointer at each,
        // in insertion order.
        while items.len() > 0
            invariant
                slots@.len() + items@.len() == orig.len(),
                heap@.len() == slots@.len(),
                items@ == orig.skip(slots@.len() as int),
                forall|p: int|
                    0 <= p < slots@.len() ==> #[trigger] slots@[p] == Option::Some(orig[p]),
                forall|i: int| 0 <= i < heap@.len() ==> #[trigger] heap@[i] == i,
            decreases items@.len(),
        {
            let ghost k = slots@.len() as int;
            let pi = items.remove(0);
            heap.push(slots.len());
            slots.push(Option::Some(pi));
            proof {
                assert(pi == orig[k]);
                assert(items@ =~= orig.skip(k + 1));
            }
        }
        let internal = InternalArrayStorage { slots, heap };
        proof {
            let sm = slots_model(internal.slots());
            assert(sm =~= m.map_values(|s: SlotModel<I::Item>| Option::Some(s)));
            assert forall|i: int|
                0 <= i < internal.ptrs().len() implies {
                &&& ((#[trigger] internal.ptrs()[i]) as int) < sm.len()
                &&& sm[internal.ptrs()[i] as int] is Some
            } by {
                assert(internal.ptrs()[i] == i);
                assert(internal.slots()[i] == Option::Some(orig[i]));
            }
            assert forall|p: int|
                0 <= p < sm.len() && sm[p] is Some implies exists|i: int|
                0 <= i < internal.ptrs().len() && (#[trigger] internal.ptrs()[i]) as int == p by {
                assert(internal.ptrs()[p] as int == p);
            }
            assert(crate::internal::storage_bijective(internal));
        }
        Builder::new(
            internal,
            crate::comparators::ByOrd,
            crate::comparators::tie_breaker::InsertionOrder,
        )
    }

    /// Builds a merging iterator from this storage with the default
    /// comparator and tie-breaker.  Available when the element type has a
    /// natural order.
    pub fn build(self) -> (m: DefaultMergeIter<InternalArrayStorage<I::Item, I>>) where I::Item: Ord
        ensures
            m.inv(),
            m.cmp_of() == crate::comparators::ByOrd,
            m.tb_of() == crate::comparators::tie_breaker::InsertionOrder,
            m.model() == self.model().map_values(|s: SlotModel<I::Item>| Option::Some(s)),
            m.live_count() == self.model().len(),
    {
        self.into_builder().build()
    }
}

impl<const CAP: usize, I: Source> Default for ArrayStorage<CAP, I> {
    /// An empty storage.
    fn default() -> (s: Self)
        ensures
            s.model() == Seq::<SlotModel<I::Item>>::empty(),
    {
        ArrayStorage::new()
    }
}

/// Internal representation of the [`ArrayStorage`] that the heap engine
/// actually runs on: stationary slots and a permuted pointer array.
#[derive(Debug, Clone)]
#[verifier::reject_recursive_types(T)]
pub struct InternalArrayStorage<T, I: Source<Item = T>> {
    pub(crate) slots: Vec<Option<PeekIter<I>>>,
    pub(crate) heap: Vec<usize>,
}

impl<T, I: Source<Item = T>> BaseStorage for InternalArrayStorage<T, I> {
    type Src = I;

    closed spec fn slots(&self) -> Seq<Option<PeekIter<I>>> {
        self.slots@
    }

    closed spec fn ptrs(&self) -> Seq<usize> {
        self.heap@
    }

    fn len(&self) -> (n: usize) {
        self.heap.len()
    }

    fn ptr_at(&self, i: usize) -> (p: usize) {
        self.heap[i]
    }

    fn set_ptr(&mut self, i: usize, p: usize) {
        self.heap.set(i, p);
    }

    fn pop_ptr(&mut self) -> (p: usize) {
        self.heap.pop().unwrap()
    }

    fn head_at(&self, p: usize) -> (h: &I::Item) {
        match &self.slots[p] {
            Option::Some(pi) => &pi.item,
            Option::None => vstd::pervasive::unreached(),
        }
    }

    fn advance_slot(&mut self, p: usize) -> (r: Option<I::Item>) {
        let slot = vstd::std_specs::vec::vec_index_mut(&mut self.slots, p);
        match slot {
            Option::Some(pi) => pi.advance(),
            Option::None => vstd::pervasive::unreached(),
        }
    }

    fn take_slot(&mut self, p: usize) -> (pi: PeekIter<I>) {
        let slot = vstd::std_specs::vec::vec_index_mut(&mut self.slots, p);
        let mut taken: Option<PeekIter<I>> = Option::None;
        core::mem::swap(slot, &mut taken);
        match taken {
            Option::Some(pi) => pi,
            Option::None => vstd::pervasive::unreached(),
        }
    }

    fn slot_size_hint(&self, p: usize) -> (r: (usize, Option<usize>)) {
        match &self.slots[p] {
            Option::Some(pi) => pi.iter.size_hint(),
            Option::None => vstd::pervasive::unreached(),
        }
    }
}

} // verus!
