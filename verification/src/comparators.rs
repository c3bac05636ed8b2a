//! Comparators for the merge engines.
//!
//! A [`Comparator`] is a total-preorder comparison function over the element
//! type.  Its contract separates two concerns: `compare` is the executable
//! comparison, and `cmp_spec` is its mathematical meaning.  A comparator is
//! *well-formed* (`wf`) when `compare` agrees with `cmp_spec` and `cmp_spec`
//! is a consistent total preorder; the ordering guarantees of the engines are
//! stated under that hypothesis, while permutation and fusion guarantees hold
//! for any comparator at all.

use vstd::prelude::*;
use vstd::laws_cmp::obeys_cmp;
use vstd::std_specs::cmp::{OrdSpec, PartialEqSpec, PartialOrdSpec};
use core::cmp::Ordering;

pub mod tie_breaker;

verus! {

/// `o` allows its left operand to go first: `Less` or `Equal`.
pub open spec fn ord_le(o: Ordering) -> bool {
    o != Ordering::Greater
}

/// `o` demands its left operand go first: strictly `Less`.
pub open spec fn ord_lt(o: Ordering) -> bool {
    o == Ordering::Less
}

/// Trait used to compare elements of the merge engines.
///
/// Implementations should produce a consistent total ordering; the laws a
/// well-formed comparator obeys are exactly those of [`Ord`]: comparing in
/// the other direction reverses the answer, and `Less`-or-`Equal` chains
/// compose.  Producing an inconsistent ordering (a comparator with `!wf()`)
/// may yield items in an unintended order but never loses or duplicates an
/// item.
pub trait Comparator<T>: Sized {
    /// The executable comparison agrees with `cmp_spec`, which is a
    /// consistent total preorder.
    spec fn wf(&self) -> bool;

    /// The mathematical meaning of this comparison.
    spec fn cmp_spec(&self, a: T, b: T) -> Ordering;

    /// The total-preorder laws of `cmp_spec`: exchange and transitivity.
    proof fn lemma_laws(&self, a: T, b: T, c: T)
        requires
            self.wf(),
        ensures
            self.cmp_spec(a, b) == Ordering::Less <==> self.cmp_spec(b, a) == Ordering::Greater,
            self.cmp_spec(a, b) == Ordering::Equal <==> self.cmp_spec(b, a) == Ordering::Equal,
            ord_le(self.cmp_spec(a, b)) && ord_le(self.cmp_spec(b, c)) ==> ord_le(
                self.cmp_spec(a, c),
            ),
    ;

    /// Whether the executable comparison may be invoked on any two
    /// elements.  Trivially true except for comparators built from caller
    /// code, whose preconditions the engine cannot know.
    spec fn callable(&self) -> bool;

    /// Compares two elements and returns an [`Ordering`].
    fn compare(&self, a: &T, b: &T) -> (r: Ordering)
        requires
            self.callable(),
        ensures
            self.wf() ==> r == self.cmp_spec(*a, *b),
    ;
}

/// A comparison is reflexively `Equal` for a well-formed comparator.
pub proof fn lemma_cmp_refl<T, C: Comparator<T>>(c: &C, a: T)
    requires
        c.wf(),
    ensures
        c.cmp_spec(a, a) == Ordering::Equal,
{
    c.lemma_laws(a, a, a);
}

/// Strictness composes with laxness on the left.
pub proof fn lemma_lt_le_trans<T, C: Comparator<T>>(c: &C, a: T, b: T, d: T)
    requires
        c.wf(),
        ord_lt(c.cmp_spec(a, b)),
        ord_le(c.cmp_spec(b, d)),
    ensures
        ord_lt(c.cmp_spec(a, d)),
{
    if !ord_lt(c.cmp_spec(a, d)) {
        // Then `d` is lax against `a`; chaining through `b` contradicts
        // the strictness of `a` against `b`.
        c.lemma_laws(a, d, b);
        c.lemma_laws(d, a, b);
        c.lemma_laws(b, d, a);
        c.lemma_laws(a, b, d);
    }
}

/// Laxness composes with strictness on the left.
pub proof fn lemma_le_lt_trans<T, C: Comparator<T>>(c: &C, a: T, b: T, d: T)
    requires
        c.wf(),
        ord_le(c.cmp_spec(a, b)),
        ord_lt(c.cmp_spec(b, d)),
    ensures
        ord_lt(c.cmp_spec(a, d)),
{
    if !ord_lt(c.cmp_spec(a, d)) {
        c.lemma_laws(a, d, b);
        c.lemma_laws(d, a, b);
        c.lemma_laws(b, d, a);
    }
}

/// Whether `==` comparing the type of `a` against the type of `b` obeys
/// its `vstd` specification.  The arguments only fix the types.
pub open spec fn eq_obeyed_for<A: PartialEq<B>, B>(a: &A, b: &B) -> bool {
    A::obeys_eq_spec()
}

/// Comparator that uses [`Ord`] to compare items; the default for the merge
/// engines.
///
/// It is well-formed whenever the item type's `Ord` implementation obeys the
/// standard comparison laws, which `vstd` establishes for the primitive
/// integer types and tuples of them.
#[derive(Debug, Clone, Copy)]
pub struct ByOrd;

impl<T: Ord> Comparator<T> for ByOrd {
    open spec fn wf(&self) -> bool {
        obeys_cmp::<T>()
    }

    open spec fn cmp_spec(&self, a: T, b: T) -> Ordering {
        a.cmp_spec(&b)
    }

    open spec fn callable(&self) -> bool {
        true
    }

    proof fn lemma_laws(&self, a: T, b: T, c: T) {
        reveal(vstd::laws_cmp::obeys_cmp_partial_ord);
        reveal(vstd::laws_cmp::obeys_cmp_ord);
        reveal(vstd::laws_cmp::obeys_partial_cmp_spec_properties);
        reveal(vstd::laws_eq::obeys_eq_spec_properties);
        lemma_ord_laws::<T>(a, b, c);
    }

    fn compare(&self, a: &T, b: &T) -> (r: Ordering) {
        proof {
            reveal(vstd::laws_cmp::obeys_cmp_ord);
        }
        a.cmp(b)
    }
}

/// The comparison laws of a lawful `Ord` implementation, in the form the
/// merge engines need.
proof fn lemma_ord_laws<T: Ord>(a: T, b: T, c: T)
    requires
        obeys_cmp::<T>(),
    ensures
        a.cmp_spec(&b) == Ordering::Less <==> b.cmp_spec(&a) == Ordering::Greater,
        a.cmp_spec(&b) == Ordering::Equal <==> b.cmp_spec(&a) == Ordering::Equal,
        ord_le(a.cmp_spec(&b)) && ord_le(b.cmp_spec(&c)) ==> ord_le(a.cmp_spec(&c)),
{
    reveal(vstd::laws_cmp::obeys_cmp_partial_ord);
    reveal(vstd::laws_cmp::obeys_cmp_ord);
    reveal(vstd::laws_cmp::obeys_partial_cmp_spec_properties);
    reveal(vstd::laws_eq::obeys_eq_spec_properties);
    // Exchange for `Equal` goes through `eq_spec` symmetry; exchange for
    // `Less`/`Greater` is one of the stated properties.
    assert(a.cmp_spec(&b) == Ordering::Equal <==> b.cmp_spec(&a) == Ordering::Equal);
    // Lax transitivity: case split on the two comparisons.
    if ord_le(a.cmp_spec(&b)) && ord_le(b.cmp_spec(&c)) && !ord_le(a.cmp_spec(&c)) {
        // `a > c`, so `c < a`.
        assert(c.cmp_spec(&a) == Ordering::Less);
        if a.cmp_spec(&b) == Ordering::Less {
            if b.cmp_spec(&c) == Ordering::Less {
                assert(a.cmp_spec(&c) == Ordering::Less);
            } else {
                // a < b, b == c, c < a: then c < b, contradicting b == c.
                assert(c.cmp_spec(&b) == Ordering::Less);
            }
        } else {
            // a == b.
            if b.cmp_spec(&c) == Ordering::Less {
                // b < c and c < a gives b < a, contradicting a == b.
                assert(b.cmp_spec(&a) == Ordering::Less);
            } else {
                // a == b, b == c gives a == c by eq transitivity.
                assert(a.eq_spec(&c));
            }
        }
    }
}

/// Wrapper that reverses a comparator.
///
/// The engines are all min-first, so max-first merging simply inverts the
/// order of the operands handed to the underlying comparator.
#[derive(Debug, Clone, Copy)]
pub struct MaxFirst<C>(pub(crate) C);

impl<C> MaxFirst<C> {
    /// The wrapped comparator.
    pub closed spec fn inner(&self) -> C {
        self.0
    }

    /// Wraps `comparator` so that its largest elements go first.
    pub fn new<T>(comparator: C) -> (r: Self) where C: Comparator<T>
        ensures
            r.inner() == comparator,
    {
        MaxFirst(comparator)
    }
}

impl<T, C: Comparator<T>> Comparator<T> for MaxFirst<C> {
    open spec fn wf(&self) -> bool {
        self.inner().wf()
    }

    open spec fn cmp_spec(&self, a: T, b: T) -> Ordering {
        self.inner().cmp_spec(b, a)
    }

    open spec fn callable(&self) -> bool {
        self.inner().callable()
    }

    proof fn lemma_laws(&self, a: T, b: T, c: T) {
        self.0.lemma_laws(b, a, c);
        self.0.lemma_laws(a, b, c);
        self.0.lemma_laws(c, b, a);
        self.0.lemma_laws(c, a, b);
        self.0.lemma_laws(b, c, a);
    }

    fn compare(&self, a: &T, b: &T) -> (r: Ordering) {
        self.0.compare(b, a)
    }
}

/// Calls the second comparator if the first one returns `Equal`.
#[derive(Debug, Clone, Copy)]
pub struct Chain<C1, C2> {
    first: C1,
    next: C2,
}

impl<C1, C2> Chain<C1, C2> {
    /// The comparator consulted first.
    pub closed spec fn first_of(&self) -> C1 {
        self.first
    }

    /// The comparator consulted on ties.
    pub closed spec fn next_of(&self) -> C2 {
        self.next
    }

    /// If `first` finds the elements equal, compare them again with
    /// `next`; similar to `Ordering::then_with`.
    pub fn new<T>(first: C1, next: C2) -> (r: Self) where
        C1: Comparator<T>,
        C2: Comparator<T>,

        ensures
            r.first_of() == first,
            r.next_of() == next,
    {
        Chain { first, next }
    }
}

impl<T, C1: Comparator<T>, C2: Comparator<T>> Comparator<T> for Chain<C1, C2> {
    open spec fn wf(&self) -> bool {
        self.first_of().wf() && self.next_of().wf()
    }

    open spec fn cmp_spec(&self, a: T, b: T) -> Ordering {
        match self.first_of().cmp_spec(a, b) {
            Ordering::Equal => self.next_of().cmp_spec(a, b),
            o => o,
        }
    }

    open spec fn callable(&self) -> bool {
        self.first_of().callable() && self.next_of().callable()
    }

    proof fn lemma_laws(&self, a: T, b: T, c: T) {
        self.first.lemma_laws(a, b, c);
        self.first.lemma_laws(b, a, c);
        self.first.lemma_laws(b, c, a);
        self.first.lemma_laws(c, b, a);
        self.first.lemma_laws(a, c, b);
        self.first.lemma_laws(c, a, b);
        self.next.lemma_laws(a, b, c);
        self.next.lemma_laws(b, a, c);
        // Lax transitivity of the chain: when both primary comparisons are
        // `Equal` the tie-breaker chain carries it, and a strict primary
        // comparison absorbs a lax one on either side.
        if ord_le(self.cmp_spec(a, b)) && ord_le(self.cmp_spec(b, c)) {
            if self.first.cmp_spec(a, b) == Ordering::Less {
                if self.first.cmp_spec(b, c) == Ordering::Less {
                    lemma_lt_le_trans(&self.first, a, b, c);
                } else {
                    lemma_lt_le_trans(&self.first, a, b, c);
                }
            } else if self.first.cmp_spec(b, c) == Ordering::Less {
                lemma_le_lt_trans(&self.first, a, b, c);
            }
        }
    }

    fn compare(&self, a: &T, b: &T) -> (r: Ordering) {
        let o = self.first.compare(a, b);
        match o {
            Ordering::Equal => self.next.compare(a, b),
            other => other,
        }
    }
}

/// Whether every answer the comparison function can give agrees with the
/// mathematical ordering `g`, and `g` is a consistent total preorder.
pub open spec fn fn_ord_matches<T, F: Fn(&T, &T) -> Ordering>(
    f: F,
    g: spec_fn(T, T) -> Ordering,
) -> bool {
    &&& forall|a: &T, b: &T, r: Ordering| call_ensures(f, (a, b), r) ==> r == g(*a, *b)
    &&& forall|a: T, b: T| (#[trigger] g(a, b)) == Ordering::Less <==> g(b, a) == Ordering::Greater
    &&& forall|a: T, b: T| (#[trigger] g(a, b)) == Ordering::Equal <==> g(b, a) == Ordering::Equal
    &&& forall|a: T, b: T, c: T|
        ord_le(#[trigger] g(a, b)) && ord_le(#[trigger] g(b, c)) ==> ord_le(g(a, c))
}

/// Comparator that uses a function to compare items.
///
/// Construct via `Merged::with_cmp` or the heap-engine builder's
/// `min_by_func`/`max_by_func`.  It is well-formed whenever the function is
/// deterministic and its answers form a consistent total preorder.
#[derive(Debug, Clone)]
pub struct ByFunc<F>(pub(crate) F);

impl<F> ByFunc<F> {
    /// The wrapped comparison function.
    pub closed spec fn func_of(&self) -> F {
        self.0
    }

    /// Wraps a comparison function.
    pub fn new<T>(f: F) -> (r: Self) where F: Fn(&T, &T) -> Ordering
        requires
            forall|a: &T, b: &T| #[trigger] call_requires(f, (a, b)),
        ensures
            r.func_of() == f,
    {
        ByFunc(f)
    }
}

impl<T, F: Fn(&T, &T) -> Ordering> Comparator<T> for ByFunc<F> {
    open spec fn wf(&self) -> bool {
        exists|g: spec_fn(T, T) -> Ordering| fn_ord_matches(self.func_of(), g)
    }

    open spec fn cmp_spec(&self, a: T, b: T) -> Ordering {
        (choose|g: spec_fn(T, T) -> Ordering| fn_ord_matches(self.func_of(), g))(a, b)
    }

    open spec fn callable(&self) -> bool {
        forall|a: &T, b: &T| #[trigger] call_requires(self.func_of(), (a, b))
    }

    proof fn lemma_laws(&self, a: T, b: T, c: T) {
        let g = choose|g: spec_fn(T, T) -> Ordering| fn_ord_matches(self.func_of(), g);
        assert(fn_ord_matches(self.func_of(), g));
    }

    fn compare(&self, a: &T, b: &T) -> (r: Ordering) {
        let r = (self.0)(a, b);
        proof {
            if self.wf() {
                let g = choose|g: spec_fn(T, T) -> Ordering| fn_ord_matches(self.func_of(), g);
                assert(fn_ord_matches(self.func_of(), g));
            }
        }
        r
    }
}

/// Whether every answer the key function can give agrees with the
/// mathematical key `k`.
pub open spec fn fn_key_matches<T, K, F: Fn(&T) -> K>(f: F, k: spec_fn(T) -> K) -> bool {
    forall|a: &T, r: K| call_ensures(f, (a,), r) ==> r == k(*a)
}

/// Comparator that uses a key to compare items.
///
/// Construct via the heap-engine builder's `min_by_key`/`max_by_key`.  It
/// is well-formed whenever the key function is deterministic and the key
/// type's `Ord` implementation obeys the standard comparison laws.
#[derive(Debug, Clone)]
pub struct ByKey<F>(pub(crate) F);

impl<F> ByKey<F> {
    /// The wrapped key function.
    pub closed spec fn func_of(&self) -> F {
        self.0
    }

    /// Wraps a key-extraction function.
    pub fn new<T, K>(f: F) -> (r: Self) where F: Fn(&T) -> K
        requires
            forall|a: &T| #[trigger] call_requires(f, (a,)),
        ensures
            r.func_of() == f,
    {
        ByKey(f)
    }
}

impl<T, K: Ord, F: Fn(&T) -> K> Comparator<T> for ByKey<F> {
    open spec fn wf(&self) -> bool {
        &&& exists|k: spec_fn(T) -> K| fn_key_matches(self.func_of(), k)
        &&& obeys_cmp::<K>()
    }

    open spec fn cmp_spec(&self, a: T, b: T) -> Ordering {
        let k = choose|k: spec_fn(T) -> K| fn_key_matches(self.func_of(), k);
        k(a).cmp_spec(&k(b))
    }

    open spec fn callable(&self) -> bool {
        forall|a: &T| #[trigger] call_requires(self.func_of(), (a,))
    }

    proof fn lemma_laws(&self, a: T, b: T, c: T) {
        let k = choose|k: spec_fn(T) -> K| fn_key_matches(self.func_of(), k);
        lemma_ord_laws::<K>(k(a), k(b), k(c));
    }

    fn compare(&self, a: &T, b: &T) -> (r: Ordering) {
        proof {
            assert(call_requires(self.func_of(), (a,)));
            assert(call_requires(self.func_of(), (b,)));
            assert(self.func_of() == self.0);
        }
        let ka = (self.0)(a);
        let kb = (self.0)(b);
        proof {
            reveal(vstd::laws_cmp::obeys_cmp_ord);
            if self.wf() {
                let k = choose|k: spec_fn(T) -> K| fn_key_matches(self.func_of(), k);
                assert(fn_key_matches(self.func_of(), k));
            }
        }
        ka.cmp(&kb)
    }
}

} // verus!
