//! Tie-breakers: comparators over insertion ranks.
//!
//! The heap engine keeps every slot at a fixed position for its whole life,
//! so a slot's position is exactly its insertion rank, and breaking ties by
//! rank reproduces insertion order.  A [`TieBreaker`] is consulted only when
//! the primary comparator answers `Equal`; it then orders the two slots by
//! their ranks.
//!
//! [`Unspecified`] always answers `Equal`.  This makes the engines a bit
//! faster, but the order of equally-compared items is then unspecified (it
//! may change if the initial input list is modified in any way).

use vstd::prelude::*;
use core::cmp::Ordering;

verus! {

/// Orders two insertion ranks.  Consulted by the heap engine when the
/// primary comparator answers `Equal`.
pub trait TieBreaker: Sized {
    /// The mathematical meaning of this rank comparison.
    spec fn tie_spec(a: int, b: int) -> Ordering;

    /// Whether `tie_spec` separates distinct ranks, so that the composed
    /// ordering is antisymmetric and the merge output canonical.
    spec fn decisive() -> bool;

    /// Exchange, transitivity, reflexivity, and decisiveness laws.
    proof fn lemma_tie_laws(a: int, b: int, c: int)
        ensures
            Self::tie_spec(a, b) == Ordering::Less <==> Self::tie_spec(b, a)
                == Ordering::Greater,
            Self::tie_spec(a, b) == Ordering::Equal <==> Self::tie_spec(b, a)
                == Ordering::Equal,
            Self::tie_spec(a, a) == Ordering::Equal,
            crate::comparators::ord_le(Self::tie_spec(a, b)) && crate::comparators::ord_le(
                Self::tie_spec(b, c),
            ) ==> crate::comparators::ord_le(Self::tie_spec(a, c)),
            Self::decisive() && Self::tie_spec(a, b) == Ordering::Equal ==> a == b,
    ;

    /// Compares two ranks.
    fn break_tie(&self, a: usize, b: usize) -> (r: Ordering)
        ensures
            r == Self::tie_spec(a as int, b as int),
    ;
}

/// If two items are equal, the item from the earlier-inserted input is
/// yielded first.
#[derive(Debug, Clone, Copy)]
pub struct InsertionOrder;

impl TieBreaker for InsertionOrder {
    open spec fn tie_spec(a: int, b: int) -> Ordering {
        if a < b {
            Ordering::Less
        } else if a > b {
            Ordering::Greater
        } else {
            Ordering::Equal
        }
    }

    open spec fn decisive() -> bool {
        true
    }

    proof fn lemma_tie_laws(a: int, b: int, c: int) {
    }

    fn break_tie(&self, a: usize, b: usize) -> (r: Ordering) {
        if a < b {
            Ordering::Less
        } else if a > b {
            Ordering::Greater
        } else {
            Ordering::Equal
        }
    }
}

/// If two items are equal, the item from the later-inserted input is
/// yielded first.
#[derive(Debug, Clone, Copy)]
pub struct ReverseInsertionOrder;

impl TieBreaker for ReverseInsertionOrder {
    open spec fn tie_spec(a: int, b: int) -> Ordering {
        if b < a {
            Ordering::Less
        } else if b > a {
            Ordering::Greater
        } else {
            Ordering::Equal
        }
    }

    open spec fn decisive() -> bool {
        true
    }

    proof fn lemma_tie_laws(a: int, b: int, c: int) {
    }

    fn break_tie(&self, a: usize, b: usize) -> (r: Ordering) {
        if b < a {
            Ordering::Less
        } else if b > a {
            Ordering::Greater
        } else {
            Ordering::Equal
        }
    }
}

/// If two items are equal they are yielded in unspecified order.  This
/// improves performance a bit.
#[derive(Debug, Clone, Copy)]
pub struct Unspecified;

impl TieBreaker for Unspecified {
    open spec fn tie_spec(a: int, b: int) -> Ordering {
        Ordering::Equal
    }

    open spec fn decisive() -> bool {
        false
    }

    proof fn lemma_tie_laws(a: int, b: int, c: int) {
    }

    fn break_tie(&self, a: usize, b: usize) -> (r: Ordering) {
        Ordering::Equal
    }
}

} // verus!
