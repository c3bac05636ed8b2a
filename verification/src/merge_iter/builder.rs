//! Builder for the heap-based merging iterator.

use vstd::prelude::*;
use core::cmp::Ordering;
use crate::comparators::tie_breaker::{InsertionOrder, TieBreaker};
use crate::comparators::{ByFunc, ByKey, ByOrd, Comparator, MaxFirst};
use crate::internal::{slots_model, storage_bijective, BaseStorage, Heap};
use crate::merge_iter::MergeIter;
use crate::model::OptSlot;
use crate::source::Source;

verus! {

/// A [`MergeIter`] with the default comparator and tie-breaker.
pub type DefaultMergeIter<S> = MergeIter<S, ByOrd, InsertionOrder>;

/// A [`Builder`] with the default comparator and tie-breaker.
pub type DefaultBuilder<S> = Builder<S, ByOrd, InsertionOrder>;

/// Builder for a [`MergeIter`]: configures how the heads are compared.
///
/// By default items are compared by [`Ord`], smallest first, and equal
/// items are yielded in insertion order.
#[derive(Debug, Clone)]
pub struct Builder<S, CMP, TB> {
    comparator: CMP,
    tie_breaker: TB,
    storage: S,
}

impl<S: BaseStorage, CMP, TB> Builder<S, CMP, TB> {
    /// The configured comparator.
    pub closed spec fn cmp_of(&self) -> CMP {
        self.comparator
    }

    /// The configured tie-breaker.
    pub closed spec fn tb_of(&self) -> TB {
        self.tie_breaker
    }

    /// The `(head, rest)` pairs of the storage's slots.
    pub closed spec fn storage_model(&self) -> Seq<OptSlot<<S::Src as Source>::Item>> {
        slots_model(self.storage.slots())
    }

    /// Whether the storage's pointers and live slots are in bijection, as
    /// every storage conversion leaves them.
    pub closed spec fn storage_ready(&self) -> bool {
        storage_bijective(self.storage)
    }

    /// The number of live slots in the storage.
    pub closed spec fn storage_live_count(&self) -> int {
        self.storage.ptrs().len() as int
    }

    pub(crate) fn new(storage: S, comparator: CMP, tie_breaker: TB) -> (b: Self)
        ensures
            b.cmp_of() == comparator,
            b.tb_of() == tie_breaker,
            b.storage_model() == slots_model(storage.slots()),
            b.storage_ready() == storage_bijective(storage),
            b.storage_live_count() == storage.ptrs().len(),
    {
        Builder { comparator, tie_breaker, storage }
    }

    /// Compares heads with `cmp`, yielding the smallest first.
    pub fn min_by<C: Comparator<<S::Src as Source>::Item>>(self, cmp: C) -> (b: Builder<
        S,
        C,
        TB,
    >)
        ensures
            b.cmp_of() == cmp,
            b.tb_of() == self.tb_of(),
            b.storage_model() == self.storage_model(),
            b.storage_ready() == self.storage_ready(),
            b.storage_live_count() == self.storage_live_count(),
    {
        let Builder { tie_breaker, storage, .. } = self;
        Builder { comparator: cmp, tie_breaker, storage }
    }

    /// Compares heads with `cmp`, yielding the largest first.
    pub fn max_by<C: Comparator<<S::Src as Source>::Item>>(self, cmp: C) -> (b: Builder<
        S,
        MaxFirst<C>,
        TB,
    >)
        ensures
            b.cmp_of().inner() == cmp,
            b.tb_of() == self.tb_of(),
            b.storage_model() == self.storage_model(),
            b.storage_ready() == self.storage_ready(),
            b.storage_live_count() == self.storage_live_count(),
    {
        let c = MaxFirst::new(cmp);
        self.min_by(c)
    }

    /// Compares heads with `func`, yielding the smallest first.
    pub fn min_by_func<F: Fn(&<S::Src as Source>::Item, &<S::Src as Source>::Item) -> Ordering>(
        self,
        func: F,
    ) -> (b: Builder<S, ByFunc<F>, TB>)
        requires
            forall|a: &<S::Src as Source>::Item, b: &<S::Src as Source>::Item|
                #[trigger] call_requires(func, (a, b)),
        ensures
            b.cmp_of().func_of() == func,
            b.tb_of() == self.tb_of(),
            b.storage_model() == self.storage_model(),
            b.storage_ready() == self.storage_ready(),
            b.storage_live_count() == self.storage_live_count(),
    {
        let c = ByFunc::new(func);
        self.min_by(c)
    }

    /// Compares heads with `func`, yielding the largest first.
    pub fn max_by_func<F: Fn(&<S::Src as Source>::Item, &<S::Src as Source>::Item) -> Ordering>(
        self,
        func: F,
    ) -> (b: Builder<S, MaxFirst<ByFunc<F>>, TB>)
        requires
            forall|a: &<S::Src as Source>::Item, b: &<S::Src as Source>::Item|
                #[trigger] call_requires(func, (a, b)),
        ensures
            b.cmp_of().inner().func_of() == func,
            b.tb_of() == self.tb_of(),
            b.storage_model() == self.storage_model(),
            b.storage_ready() == self.storage_ready(),
            b.storage_live_count() == self.storage_live_count(),
    {
        let c = ByFunc::new(func);
        self.max_by(c)
    }

    /// Compares heads by the keys `func` extracts, smallest key first.
    pub fn min_by_key<F: Fn(&<S::Src as Source>::Item) -> K, K: Ord>(self, func: F) -> (b:
        Builder<S, ByKey<F>, TB>)
        requires
            forall|a: &<S::Src as Source>::Item| #[trigger] call_requires(func, (a,)),
        ensures
            b.cmp_of().func_of() == func,
            b.tb_of() == self.tb_of(),
            b.storage_model() == self.storage_model(),
            b.storage_ready() == self.storage_ready(),
            b.storage_live_count() == self.storage_live_count(),
    {
        let c = ByKey::new(func);
        self.min_by(c)
    }

    /// Compares heads by the keys `func` extracts, largest key first.
    pub fn max_by_key<F: Fn(&<S::Src as Source>::Item) -> K, K: Ord>(self, func: F) -> (b:
        Builder<S, MaxFirst<ByKey<F>>, TB>)
        requires
            forall|a: &<S::Src as Source>::Item| #[trigger] call_requires(func, (a,)),
        ensures
            b.cmp_of().inner().func_of() == func,
            b.tb_of() == self.tb_of(),
            b.storage_model() == self.storage_model(),
            b.storage_ready() == self.storage_ready(),
            b.storage_live_count() == self.storage_live_count(),
    {
        let c = ByKey::new(func);
        self.max_by(c)
    }

    /// Replaces the tie-breaker consulted when heads compare equal.
    pub fn tie_breaker<TB2: TieBreaker>(self, tie_breaker: TB2) -> (b: Builder<S, CMP, TB2>)
        ensures
            b.cmp_of() == self.cmp_of(),
            b.tb_of() == tie_breaker,
            b.storage_model() == self.storage_model(),
            b.storage_ready() == self.storage_ready(),
            b.storage_live_count() == self.storage_live_count(),
    {
        let Builder { comparator, storage, .. } = self;
        Builder { comparator, tie_breaker, storage }
    }
}

impl<S: BaseStorage, CMP: Comparator<<S::Src as Source>::Item>, TB: TieBreaker> Builder<
    S,
    CMP,
    TB,
> {
    /// Builds the [`MergeIter`], heapifying the storage in one pass.
    pub fn build(self) -> (m: MergeIter<S, CMP, TB>)
        requires
            self.cmp_of().callable(),
            self.storage_ready(),
        ensures
            m.inv(),
            m.cmp_of() == self.cmp_of(),
            m.tb_of() == self.tb_of(),
            m.model() == self.storage_model(),
            m.live_count() == self.storage_live_count(),
    {
        let Builder { comparator, tie_breaker, storage } = self;
        MergeIter(Heap::new(comparator, tie_breaker, storage))
    }
}

} // verus!
