//! Internal machinery of the heap-based merge engine.
//!
//! A [`PeekIter`] holds an input together with the one element eagerly
//! pulled from it.  A storage backend owns an array of `PeekIter` slots
//! that never move ("the slots"), and a parallel array of slot indices
//! ("the pointers") that the heap engine permutes.  A slot's position is
//! fixed for the whole merge, so a pointer's value doubles as the slot's
//! insertion rank, which is what the rank tie-breakers compare.
//!
//! The pointer array is arranged as
//! `[smallest, second smallest (root of the binary heap), ...]`,
//! with the children of pointer position `i` at `2 * i` and `2 * i + 1`.
//!
//! The [`BaseStorage`] trait exposes the two arrays to the engine under a
//! contract that keeps every pointer aimed at a live slot; [`StorageOps`]
//! derives the handful of operations the engine surface needs.  Library
//! users normally never touch these types.

mod heap;
pub(crate) use heap::Heap;

use vstd::prelude::*;
use crate::model::SlotModel;
use crate::source::Source;

verus! {

/// Holds one peeked element and the input it came from.  Like a peekable
/// stream, except eager.
#[derive(Debug, Clone)]
pub struct PeekIter<I: Source> {
    /// Element peeked from the input.
    pub item: I::Item,
    /// Input containing the rest of the elements.
    pub iter: I,
}

impl<I: Source> PeekIter<I> {
    /// The `(head, rest)` pair this slot stands for.
    pub open spec fn model(&self) -> SlotModel<I::Item> {
        (self.item, self.iter.remaining())
    }

    /// Creates a new `PeekIter` from a peeked element and an input.
    pub fn new(peeked_item: I::Item, iter: I) -> (s: Self)
        ensures
            s.model() == (peeked_item, iter.remaining()),
    {
        PeekIter { item: peeked_item, iter }
    }

    /// Advances the input, returning the current peeked element and
    /// replacing it with the input's next element.  If the input is out of
    /// elements, returns nothing and keeps the final element in place.
    pub fn advance(&mut self) -> (r: Option<I::Item>)
        ensures
            match r {
                Option::None => {
                    &&& old(self).iter.remaining().len() == 0
                    &&& final(self).model() == old(self).model()
                },
                Option::Some(v) => {
                    &&& v == old(self).item
                    &&& old(self).iter.remaining().len() > 0
                    &&& final(self).model() == (
                        old(self).iter.remaining()[0],
                        old(self).iter.remaining().drop_first(),
                    )
                },
            },
    {
        match self.iter.next() {
            Option::Some(new_item) => {
                let mut taken = new_item;
                core::mem::swap(&mut self.item, &mut taken);
                Option::Some(taken)
            },
            Option::None => Option::None,
        }
    }

    /// Creates a new `PeekIter` by pulling the first element of `iter`;
    /// reports nothing if the input is empty.
    pub fn new_from_iter(iter: I) -> (r: Option<Self>)
        ensures
            match r {
                Option::None => iter.remaining().len() == 0,
                Option::Some(s) => {
                    &&& iter.remaining().len() > 0
                    &&& s.model() == (iter.remaining()[0], iter.remaining().drop_first())
                },
            },
    {
        let mut iter = iter;
        match iter.next() {
            Option::Some(peeked_item) => Option::Some(PeekIter { item: peeked_item, iter }),
            Option::None => Option::None,
        }
    }
}

/// The `(head, rest)` pairs of a slot array, position by position; a freed
/// slot contributes nothing.
pub open spec fn slots_model<I: Source>(slots: Seq<Option<PeekIter<I>>>) -> Seq<
    Option<SlotModel<I::Item>>,
> {
    slots.map_values(
        |s: Option<PeekIter<I>>|
            match s {
                Option::Some(pi) => Option::Some(pi.model()),
                Option::None => Option::<SlotModel<I::Item>>::None,
            },
    )
}

/// Every pointer of the storage aims at a distinct live slot, and every
/// live slot is aimed at: the pointers and the live slots are in bijection.
pub open spec fn storage_bijective<S: BaseStorage>(s: S) -> bool {
    let ps = s.ptrs();
    let sm = slots_model(s.slots());
    &&& forall|i: int|
        0 <= i < ps.len() ==> {
            &&& ((#[trigger] ps[i]) as int) < sm.len()
            &&& sm[ps[i] as int] is Some
        }
    &&& forall|i: int, j: int|
        0 <= i < ps.len() && 0 <= j < ps.len() && i != j ==> ps[i] != ps[j]
    &&& forall|p: int|
        0 <= p < sm.len() && sm[p] is Some ==> exists|i: int|
            0 <= i < ps.len() && #[trigger] ps[i] as int == p
}

/// Trait implemented by the storage backends of the heap engine.
///
/// A storage owns an array of slots that never move and an array of
/// pointers (slot indices) that the engine permutes.  The contracts keep
/// the slot array stationary: operations touch one slot or one pointer at
/// a time and leave everything else as it was.
pub trait BaseStorage: Sized {
    /// The input type contained in this storage.
    type Src: Source;

    /// The slot array: live slots and freed positions.
    spec fn slots(&self) -> Seq<Option<PeekIter<Self::Src>>>;

    /// The pointer array: indices of live slots, in heap order.
    spec fn ptrs(&self) -> Seq<usize>;

    /// Number of pointers, which is the number of live slots.
    fn len(&self) -> (n: usize)
        ensures
            n == self.ptrs().len(),
    ;

    /// The pointer at position `i`.
    fn ptr_at(&self, i: usize) -> (p: usize)
        requires
            i < self.ptrs().len(),
        ensures
            p == self.ptrs()[i as int],
    ;

    /// Overwrites the pointer at position `i`.
    fn set_ptr(&mut self, i: usize, p: usize)
        requires
            i < old(self).ptrs().len(),
        ensures
            final(self).ptrs() == old(self).ptrs().update(i as int, p),
            final(self).slots() == old(self).slots(),
    ;

    /// Removes and returns the last pointer.
    fn pop_ptr(&mut self) -> (p: usize)
        requires
            old(self).ptrs().len() > 0,
        ensures
            p == old(self).ptrs().last(),
            final(self).ptrs() == old(self).ptrs().drop_last(),
            final(self).slots() == old(self).slots(),
    ;

    /// A reference to the head element of the live slot at `p`.
    fn head_at(&self, p: usize) -> (h: &<Self::Src as Source>::Item)
        requires
            p < self.slots().len(),
            self.slots()[p as int] is Some,
        ensures
            *h == self.slots()[p as int].unwrap().item,
    ;

    /// Advances the input of the live slot at `p`, as
    /// [`PeekIter::advance`] does.
    fn advance_slot(&mut self, p: usize) -> (r: Option<<Self::Src as Source>::Item>)
        requires
            p < old(self).slots().len(),
            old(self).slots()[p as int] is Some,
        ensures
            final(self).ptrs() == old(self).ptrs(),
            final(self).slots().len() == old(self).slots().len(),
            forall|q: int|
                0 <= q < old(self).slots().len() && q != p ==> final(self).slots()[q] == old(
                    self,
                ).slots()[q],
            final(self).slots()[p as int] is Some,
            ({
                let before = old(self).slots()[p as int].unwrap().model();
                let after = final(self).slots()[p as int].unwrap().model();
                match r {
                    Option::None => before.1.len() == 0 && after == before,
                    Option::Some(v) => {
                        &&& v == before.0
                        &&& before.1.len() > 0
                        &&& after == (before.1[0], before.1.drop_first())
                    },
                }
            }),
    ;

    /// Removes and returns the live slot at `p`, freeing its position.
    fn take_slot(&mut self, p: usize) -> (pi: PeekIter<Self::Src>)
        requires
            p < old(self).slots().len(),
            old(self).slots()[p as int] is Some,
        ensures
            final(self).ptrs() == old(self).ptrs(),
            final(self).slots() == old(self).slots().update(
                p as int,
                Option::<PeekIter<Self::Src>>::None,
            ),
            pi.model() == old(self).slots()[p as int].unwrap().model(),
    ;

    /// Bounds reported by the input of the live slot at `p`.
    fn slot_size_hint(&self, p: usize) -> (r: (usize, Option<usize>))
        requires
            p < self.slots().len(),
            self.slots()[p as int] is Some,
        ensures
            r == self.slots()[p as int].unwrap().iter.hint_spec(),
            r.0 <= self.slots()[p as int].unwrap().model().1.len(),
            r.1 matches Option::Some(u) ==> self.slots()[p as int].unwrap().model().1.len()
                <= u,
    ;
}

/// Extra operations for working with a [`BaseStorage`], derived from its
/// primitives.  Implemented automatically for all storage backends.
pub trait StorageOps: BaseStorage {
    /// Whether no live slot remains.
    fn is_empty(&self) -> (r: bool)
        ensures
            r <==> self.ptrs().len() == 0,
    {
        self.len() == 0
    }
}

impl<S: BaseStorage> StorageOps for S {

}

} // verus!
