//! Draining the inputs back out of a [`MergeIter`].
//!
//! Both drains own the engine; `into_merge_iter` recovers it, with the
//! pairs already handed out excluded.

use vstd::prelude::*;
use crate::comparators::tie_breaker::TieBreaker;
use crate::comparators::Comparator;
use crate::internal::{BaseStorage, PeekIter};
use crate::model::{is_min_ptr, live, OptSlot};
use crate::merge_iter::MergeIter;
use crate::source::Source;

verus! {

/// Hands out `(head, rest)` pairs from a [`MergeIter`] in no promised
/// order.
#[derive(Debug, Clone)]
pub struct UnorderedItersIter<S, CMP, TB>(pub(crate) MergeIter<S, CMP, TB>);

impl<S: BaseStorage, CMP: Comparator<<S::Src as Source>::Item>, TB: TieBreaker> UnorderedItersIter<
    S,
    CMP,
    TB,
> {
    /// The stationary slots of the underlying engine.
    pub closed spec fn model(&self) -> Seq<OptSlot<<S::Src as Source>::Item>> {
        self.0.model()
    }

    /// The number of live inputs left.
    pub closed spec fn live_count(&self) -> int {
        self.0.live_count()
    }

    /// The comparator in use.
    pub closed spec fn cmp_of(&self) -> CMP {
        self.0.cmp_of()
    }

    /// The tie-breaker in use.
    pub closed spec fn tb_of(&self) -> TB {
        self.0.tb_of()
    }

    /// Well-formedness of the underlying engine.
    pub closed spec fn inv(&self) -> bool {
        self.0.inv()
    }

    /// Hands out one live `(head, rest)` pair; which one is unspecified.
    pub fn next(&mut self) -> (r: Option<(<S::Src as Source>::Item, S::Src)>)
        requires
            old(self).inv(),
        ensures
            final(self).inv(),
            final(self).cmp_of() == old(self).cmp_of(),
            final(self).tb_of() == old(self).tb_of(),
            match r {
                Option::None => {
                    &&& old(self).live_count() == 0
                    &&& final(self).live_count() == 0
                    &&& final(self).model() == old(self).model()
                },
                Option::Some((v, rest)) => {
                    &&& old(self).live_count() > 0
                    &&& crate::model::removed_some_slot(
                        old(self).model(),
                        final(self).model(),
                        v,
                        rest.remaining(),
                    )
                    &&& final(self).live_count() + 1 == old(self).live_count()
                },
            },
    {
        self.0.pop_back_pair()
    }

    /// Wraps the engine for an unordered drain.
    pub(crate) fn new(m: MergeIter<S, CMP, TB>) -> (r: Self)
        ensures
            r.inv() == m.inv(),
            r.model() == m.model(),
            r.live_count() == m.live_count(),
            r.cmp_of() == m.cmp_of(),
            r.tb_of() == m.tb_of(),
    {
        UnorderedItersIter(m)
    }

    /// Recovers the engine; the pairs already handed out are gone from it.
    pub fn into_merge_iter(self) -> (m: MergeIter<S, CMP, TB>)
        ensures
            m.inv() == self.inv(),
            m.model() == self.model(),
            m.live_count() == self.live_count(),
            m.cmp_of() == self.cmp_of(),
            m.tb_of() == self.tb_of(),
    {
        self.0
    }
}

/// Hands out `(head, rest)` pairs from a [`MergeIter`] in merge order.
#[derive(Debug, Clone)]
pub struct ItersIter<S, CMP, TB>(pub(crate) MergeIter<S, CMP, TB>);

impl<S: BaseStorage, CMP: Comparator<<S::Src as Source>::Item>, TB: TieBreaker> ItersIter<
    S,
    CMP,
    TB,
> {
    /// The stationary slots of the underlying engine.
    pub closed spec fn model(&self) -> Seq<OptSlot<<S::Src as Source>::Item>> {
        self.0.model()
    }

    /// The number of live inputs left.
    pub closed spec fn live_count(&self) -> int {
        self.0.live_count()
    }

    /// The comparator in use.
    pub closed spec fn cmp_of(&self) -> CMP {
        self.0.cmp_of()
    }

    /// The tie-breaker in use.
    pub closed spec fn tb_of(&self) -> TB {
        self.0.tb_of()
    }

    /// The slot position the next pair comes from.
    pub closed spec fn front_slot(&self) -> int {
        self.0.front_slot()
    }

    /// Well-formedness of the underlying engine.
    pub closed spec fn inv(&self) -> bool {
        self.0.inv()
    }

    /// Hands out the live `(head, rest)` pair with the smallest head.
    pub fn next(&mut self) -> (r: Option<(<S::Src as Source>::Item, S::Src)>)
        requires
            old(self).inv(),
        ensures
            final(self).inv(),
            final(self).cmp_of() == old(self).cmp_of(),
            final(self).tb_of() == old(self).tb_of(),
            match r {
                Option::None => {
                    &&& old(self).live_count() == 0
                    &&& final(self).live_count() == 0
                    &&& final(self).model() == old(self).model()
                },
                Option::Some((v, rest)) => {
                    let sm = old(self).model();
                    let p = old(self).front_slot();
                    &&& old(self).live_count() > 0
                    &&& live(sm, p)
                    &&& v == sm[p].unwrap().0
                    &&& rest.remaining() == sm[p].unwrap().1
                    &&& final(self).model() == sm.update(
                        p,
                        Option::<crate::model::SlotModel<<S::Src as Source>::Item>>::None,
                    )
                    &&& final(self).live_count() + 1 == old(self).live_count()
                    &&& old(self).cmp_of().wf() ==> is_min_ptr(
                        old(self).cmp_of(),
                        old(self).tb_of(),
                        sm,
                        p,
                    )
                },
            },
    {
        self.0.pop_front_pair()
    }

    /// Wraps the engine for an ordered drain.
    pub(crate) fn new(m: MergeIter<S, CMP, TB>) -> (r: Self)
        ensures
            r.inv() == m.inv(),
            r.model() == m.model(),
            r.live_count() == m.live_count(),
            r.cmp_of() == m.cmp_of(),
            r.tb_of() == m.tb_of(),
    {
        ItersIter(m)
    }

    /// Recovers the engine; the pairs already handed out are gone from it.
    pub fn into_merge_iter(self) -> (m: MergeIter<S, CMP, TB>)
        ensures
            m.inv() == self.inv(),
            m.model() == self.model(),
            m.live_count() == self.live_count(),
            m.cmp_of() == self.cmp_of(),
            m.tb_of() == self.tb_of(),
    {
        self.0
    }
}

} // verus!
