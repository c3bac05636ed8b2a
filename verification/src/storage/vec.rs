//! Growable storage for the heap engine.

use vstd::prelude::*;
use vstd::pervasive::VecAdditionalExecFns;
use std::collections::TryReserveError;
use crate::internal::{slots_model, BaseStorage, PeekIter};
use crate::merge_iter::{Builder, DefaultBuilder, DefaultMergeIter, MergeIter};
use crate::model::SlotModel;
use crate::source::Source;

verus! {

/// Growable storage for the heap engine; most methods mirror the
/// corresponding vector methods.
pub struct VecStorage<I: Source> {
    items: Vec<PeekIter<I>>,
}

impl<I: Source> VecStorage<I> {
    /// The stored `(head, rest)` pairs, in insertion order.
    pub closed spec fn model(&self) -> Seq<SlotModel<I::Item>> {
        self.items@.map_values(|pi: PeekIter<I>| pi.model())
    }

    /// Creates a new, empty `VecStorage`.
    pub fn new() -> (s: Self)
        ensures
            s.model() == Seq::<SlotModel<I::Item>>::empty(),
    {
        let s = VecStorage { items: Vec::new() };
        proof {
            assert(s.model() =~= Seq::<SlotModel<I::Item>>::empty());
        }
        s
    }

    /// Creates a new, empty `VecStorage` with at least the given capacity.
    pub fn with_capacity(capacity: usize) -> (s: Self)
        ensures
            s.model() == Seq::<SlotModel<I::Item>>::empty(),
    {
        let s = VecStorage { items: Vec::with_capacity(capacity) };
        proof {
            assert(s.model() =~= Seq::<SlotModel<I::Item>>::empty());
        }
        s
    }

    /// Appends an input to the storage.  Empty inputs are skipped.
    pub fn push(&mut self, iter: I)
        ensures
            iter.remaining().len() == 0 ==> final(self).model() == old(self).model(),
            iter.remaining().len() > 0 ==> final(self).model() == old(self).model().push(
                (iter.remaining()[0], iter.remaining().drop_first()),
            ),
    {
        match PeekIter::new_from_iter(iter) {
            Option::Some(peek_iter) => {
                self.items.push(peek_iter);
                proof {
                    assert(final(self).model() =~= old(self).model().push(
                        (iter.remaining()[0], iter.remaining().drop_first()),
                    ));
                }
            },
            Option::None => {},
        }
    }

    /// Appends an input, reporting an allocation failure instead of
    /// aborting on one.
    pub fn try_push(&mut self, iter: I) -> (r: Result<(), TryReserveError>)
        ensures
            r is Err ==> final(self).model() == old(self).model(),
            r is Ok && iter.remaining().len() == 0 ==> final(self).model() == old(self).model(),
            r is Ok && iter.remaining().len() > 0 ==> final(self).model() == old(self).model().push((iter.remaining()[0], iter.remaining().drop_first())),
    {
        match PeekIter::new_from_iter(iter) {
            Option::Some(peek_iter) => {
                match self.items.try_reserve(1) {
                    Result::Ok(()) => {
                        self.items.push(peek_iter);
                        proof {
                            assert(final(self).model() =~= old(self).model().push(
                                (iter.remaining()[0], iter.remaining().drop_first()),
                            ));
                        }
                        Result::Ok(())
                    },
                    Result::Err(e) => Result::Err(e),
                }
            },
            Option::None => Result::Ok(()),
        }
    }

    /// Reserves capacity for at least `additional` more inputs.
    pub fn reserve(&mut self, additional: usize)
        ensures
            final(self).model() == old(self).model(),
    {
        self.items.reserve(additional);
    }

    /// Tries to reserve capacity for at least `additional` more inputs.
    pub fn try_reserve(&mut self, additional: usize) -> (r: Result<(), TryReserveError>)
        ensures
            final(self).model() == old(self).model(),
    {
        self.items.try_reserve(additional)
    }

    /// Reserves the minimum capacity for `additional` more inputs.
    pub fn reserve_exact(&mut self, additional: usize)
        ensures
            final(self).model() == old(self).model(),
    {
        vec_reserve_exact(&mut self.items, additional);
    }

    /// Tries to reserve the minimum capacity for `additional` more inputs.
    pub fn try_reserve_exact(&mut self, additional: usize) -> (r: Result<(), TryReserveError>)
        ensures
            final(self).model() == old(self).model(),
    {
        vec_try_reserve_exact(&mut self.items, additional)
    }

    /// Converts this storage into a builder over the engine's internal
    /// representation, with the default comparator and tie-breaker.
    pub fn into_builder(self) -> (b: DefaultBuilder<InternalVecStorage<I::Item, I>>)
        ensures
            b.cmp_of() == crate::comparators::ByOrd,
            b.tb_of() == crate::comparators::tie_breaker::InsertionOrder,
            b.storage_ready(),
            b.storage_model() == self.model().map_values(
                |s: SlotModel<I::Item>| Option::Some(s),
            ),
            b.storage_live_count() == self.model().len(),
    {
        let VecStorage { items } = self;
        assemble_builder(items, Vec::new(), Vec::new())
    }

    /// Converts this storage into a builder, reporting an allocation
    /// failure for the engine's arrays instead of aborting on one.
    pub fn try_into_builder(self) -> (r: Result<
        DefaultBuilder<InternalVecStorage<I::Item, I>>,
        TryReserveError,
    >)
        ensures
            r matches Result::Ok(b) ==> {
                &&& b.cmp_of() == crate::comparators::ByOrd
                &&& b.tb_of() == crate::comparators::tie_breaker::InsertionOrder
                &&& b.storage_ready()
                &&& b.storage_model() == self.model().map_values(
                    |s: SlotModel<I::Item>| Option::Some(s),
                )
                &&& b.storage_live_count() == self.model().len()
            },
    {
        let VecStorage { items } = self;
        let len = items.len();
        let mut slots: Vec<Option<PeekIter<I>>> = Vec::new();
        match slots.try_reserve(len) {
            Result::Ok(()) => {},
            Result::Err(e) => {
                return Result::Err(e);
            },
        }
        let mut heap: Vec<usize> = Vec::new();
        match heap.try_reserve(len) {
            Result::Ok(()) => {},
            Result::Err(e) => {
                return Result::Err(e);
            },
        }
        Result::Ok(assemble_builder(items, slots, heap))
    }

    /// Builds a merging iterator from this storage with the default
    /// comparator and tie-breaker.  Available when the element type has a
    /// natural order.
    pub fn build(self) -> (m: DefaultMergeIter<InternalVecStorage<I::Item, I>>) where I::Item: Ord
        ensures
            m.inv(),
            m.cmp_of() == crate::comparators::ByOrd,
            m.tb_of() == crate::comparators::tie_breaker::InsertionOrder,
            m.model() == self.model().map_values(|s: SlotModel<I::Item>| Option::Some(s)),
            m.live_count() == self.model().len(),
    {
        self.into_builder().build()
    }
}

impl<I: Source> Default for VecStorage<I> {
    /// An empty storage.
    fn default() -> (s: Self)
        ensures
            s.model() == Seq::<SlotModel<I::Item>>::empty(),
    {
        VecStorage::new()
    }
}

/// Relies on `Vec::reserve_exact`: it only changes capacity, never the
/// contents.
#[verifier::external_body]
fn vec_reserve_exact<T>(v: &mut Vec<T>, additional: usize)
    ensures
        final(v)@ == old(v)@,
{
    v.reserve_exact(additional)
}

/// Relies on `Vec::try_reserve_exact`: it only changes capacity, never the
/// contents, whether or not it reports an allocation failure.
#[verifier::external_body]
fn vec_try_reserve_exact<T>(v: &mut Vec<T>, additional: usize) -> (r: Result<
    (),
    TryReserveError,
>)
    ensures
        final(v)@ == old(v)@,
{
    v.try_reserve_exact(additional)
}

/// Moves the stored pairs into stationary slots, aims one pointer at
/// each in insertion order, and wraps the result in a default builder.
fn assemble_builder<I: Source>(
    items: Vec<PeekIter<I>>,
    slots: Vec<Option<PeekIter<I>>>,
    heap: Vec<usize>,
) -> (b: DefaultBuilder<InternalVecStorage<I::Item, I>>)
    requires
        slots@.len() == 0,
        heap@.len() == 0,
    ensures
        b.cmp_of() == crate::comparators::ByOrd,
        b.tb_of() == crate::comparators::tie_breaker::InsertionOrder,
        b.storage_ready(),
        b.storage_model() == items@.map_values(
            |pi: PeekIter<I>| Option::Some(pi.model()),
        ),
        b.storage_live_count() == items@.len(),
{
    let ghost m = items@.map_values(|pi: PeekIter<I>| pi.model());
    let mut items = items;
    let ghost orig = items@;
    let mut slots = slots;
    let mut heap = heap;
    while items.len() > 0
        invariant
            slots@.len() + items@.len() == orig.len(),
            heap@.len() == slots@.len(),
            items@ == orig.skip(slots@.len() as int),
            forall|p: int|
                0 <= p < slots@.len() ==> #[trigger] slots@[p] == Option::Some(orig[p]),
            forall|i: int| 0 <= i < heap@.len() ==> #[trigger] heap@[i] == i,
        decreases items@.len(),
    {
        let ghost k = slots@.len() as int;
        let pi = items.remove(0);
        heap.push(slots.len());
        slots.push(Option::Some(pi));
        proof {
            assert(pi == orig[k]);
            assert(items@ =~= orig.skip(k + 1));
        }
    }
    let storage = InternalVecStorage { slots, heap };
    proof {
        let sm = slots_model(storage.slots());
        assert(sm =~= m.map_values(|s: SlotModel<I::Item>| Option::Some(s)));
        assert(sm =~= orig.map_values(|pi: PeekIter<I>| Option::Some(pi.model())));
        assert forall|i: int|
            0 <= i < storage.ptrs().len() implies {
            &&& ((#[trigger] storage.ptrs()[i]) as int) < sm.len()
            &&& sm[storage.ptrs()[i] as int] is Some
        } by {
            assert(storage.ptrs()[i] == i);
            assert(storage.slots()[i] == Option::Some(orig[i]));
        }
        assert forall|p: int|
            0 <= p < sm.len() && sm[p] is Some implies exists|i: int|
            0 <= i < storage.ptrs().len() && (#[trigger] storage.ptrs()[i]) as int == p by {
            assert(storage.ptrs()[p] as int == p);
        }
        assert(crate::internal::storage_bijective(storage));
    }
    Builder::new(
        storage,
        crate::comparators::ByOrd,
        crate::comparators::tie_breaker::InsertionOrder,
    )
}

/// Internal representation of the [`VecStorage`] that the heap engine
/// actually runs on: stationary slots and a permuted pointer array.
#[derive(Debug, Clone)]
#[verifier::reject_recursive_types(T)]
pub struct InternalVecStorage<T, I: Source<Item = T>> {
    pub(crate) slots: Vec<Option<PeekIter<I>>>,
    pub(crate) heap: Vec<usize>,
}

impl<T, I: Source<Item = T>> BaseStorage for InternalVecStorage<T, I> {
    type Src = I;

    closed spec fn slots(&self) -> Seq<Option<PeekIter<I>>> {
        self.slots@
    }

    closed spec fn ptrs(&self) -> Seq<usize> {
        self.heap@
    }

    fn len(&self) -> (n: usize) {
        self.heap.len()
    }

    fn ptr_at(&self, i: usize) -> (p: usize) {
        self.heap[i]
    }

    fn set_ptr(&mut self, i: usize, p: usize) {
        self.heap.set(i, p);
    }

    fn pop_ptr(&mut self) -> (p: usize) {
        self.heap.pop().unwrap()
    }

    fn head_at(&self, p: usize) -> (h: &I::Item) {
        match &self.slots[p] {
            Option::Some(pi) => &pi.item,
            Option::None => vstd::pervasive::unreached(),
        }
    }

    fn advance_slot(&mut self, p: usize) -> (r: Option<I::Item>) {
        let slot = vstd::std_specs::vec::vec_index_mut(&mut self.slots, p);
        match slot {
            Option::Some(pi) => pi.advance(),
            Option::None => vstd::pervasive::unreached(),
        }
    }

    fn take_slot(&mut self, p: usize) -> (pi: PeekIter<I>) {
        let slot = vstd::std_specs::vec::vec_index_mut(&mut self.slots, p);
        let mut taken: Option<PeekIter<I>> = Option::None;
        core::mem::swap(slot, &mut taken);
        match taken {
            Option::Some(pi) => pi,
            Option::None => vstd::pervasive::unreached(),
        }
    }

    fn slot_size_hint(&self, p: usize) -> (r: (usize, Option<usize>)) {
        match &self.slots[p] {
            Option::Some(pi) => pi.iter.size_hint(),
            Option::None => vstd::pervasive::unreached(),
        }
    }
}

} // verus!
