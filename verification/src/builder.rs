//! Builder for the index-based merge engine.

use vstd::prelude::*;
use core::cmp::Ordering;
use crate::comparators::{ByFunc, ByOrd, Comparator};
use crate::iter::{slots_of, MergedIter};
use crate::source::Source;

verus! {

/// A builder for creating a [`MergedIter`].
///
/// `Merged` configures and creates merging iterators.  It lets you choose
/// between stable tie-breaking (items from earlier inputs are yielded first
/// when they compare equal) and arbitrary tie-breaking (faster, no order
/// promise among equal items), and lets you replace the default comparator,
/// which orders items by [`Ord`].
#[derive(Debug, Clone)]
pub struct Merged<const STABLE_TIE_BREAKING: bool, C, I> {
    iters: Vec<I>,
    cmp: C,
}

impl<I: Source> Merged<true, ByOrd, I> {
    /// Creates a new [`Merged`] over the given inputs, with stable
    /// tie-breaking and the item type's natural order.
    pub fn new(iters: Vec<I>) -> (r: Merged<true, ByOrd, I>)
        ensures
            r.iters_of() == iters@,
            r.cmp_of() == ByOrd,
    {
        Merged { iters, cmp: ByOrd }
    }
}

impl<const STABLE_TIE_BREAKING: bool, C, I: Source> Merged<STABLE_TIE_BREAKING, C, I> {
    /// The inputs waiting to be merged.
    pub closed spec fn iters_of(&self) -> Seq<I> {
        self.iters@
    }

    /// The configured comparator.
    pub closed spec fn cmp_of(&self) -> C {
        self.cmp
    }

    /// Replaces the comparator with a custom comparison function.
    pub fn with_cmp<F: Fn(&I::Item, &I::Item) -> Ordering>(self, cmp: F) -> (r: Merged<
        STABLE_TIE_BREAKING,
        ByFunc<F>,
        I,
    >)
        requires
            forall|a: &I::Item, b: &I::Item| #[trigger] call_requires(cmp, (a, b)),
        ensures
            r.iters_of() == self.iters_of(),
            r.cmp_of().func_of() == cmp,
    {
        let Merged { iters, .. } = self;
        Merged { iters, cmp: ByFunc::new(cmp) }
    }
}

impl<C, I: Source> Merged<true, C, I> {
    /// Enables arbitrary tie-breaking: equal items may be yielded in any
    /// order, which is a bit faster.
    pub fn arbitrary_tie_breaking(self) -> (r: Merged<false, C, I>)
        ensures
            r.iters_of() == self.iters_of(),
            r.cmp_of() == self.cmp_of(),
    {
        let Merged { iters, cmp } = self;
        Merged { iters, cmp }
    }
}

impl<C, I: Source> Merged<false, C, I> {
    /// Enables stable tie-breaking: equal items are yielded in insertion
    /// order.  This is the default; the method exists for completeness.
    pub fn stable_tie_breaking(self) -> (r: Merged<true, C, I>)
        ensures
            r.iters_of() == self.iters_of(),
            r.cmp_of() == self.cmp_of(),
    {
        let Merged { iters, cmp } = self;
        Merged { iters, cmp }
    }
}

impl<const STABLE_TIE_BREAKING: bool, C, I: Source> Merged<STABLE_TIE_BREAKING, C, I> where
    C: Comparator<I::Item>,
 {
    /// Builds the merging iterator over the configured inputs.
    pub fn build(self) -> (r: MergedIter<STABLE_TIE_BREAKING, I, C>)
        requires
            self.cmp_of().callable(),
        ensures
            r.inv(),
            r.cmp_of() == self.cmp_of(),
            r.model() == slots_of(self.iters_of()),
    {
        let Merged { iters, cmp } = self;
        let mut merged = MergedIter::new(cmp);
        merged.add_iters(iters);
        proof {
            assert(merged.model() =~= slots_of(self.iters_of()));
        }
        merged
    }
}

} // verus!
