//! The two-tier heap at the core of the engine.
//!
//! Pointer position 0 holds the overall minimum; position 1 is the root of
//! a binary min-heap over positions `[1, len)`, with the children of
//! position `i` at `2 * i` and `2 * i + 1`.  Long runs from one input then
//! touch only the first two positions.  Ordering is the composite order of
//! [`crate::model::comp_le`]: the comparator on heads, then the tie-breaker
//! on slot positions, which equal insertion ranks.

use vstd::prelude::*;
use core::cmp::Ordering;
use crate::comparators::tie_breaker::TieBreaker;
use crate::comparators::Comparator;
use crate::internal::{BaseStorage, PeekIter};
use crate::model::{
    advance_slot, comp_le, is_min_ptr, lemma_advance_slot, lemma_comp_le_same_heads,
    lemma_comp_refl, lemma_comp_total, lemma_comp_trans, live, min_ptr, opt_total_count, OptSlot,
};
use crate::source::Source;

verus! {

/// `v` occurs in the tail `[1, len)` of the pointer array `ps`.
pub open spec fn tail_member(ps: Seq<usize>, v: usize) -> bool {
    exists|i: int| 1 <= i < ps.len() && #[trigger] ps[i] == v
}

/// In a pointer arrangement whose tail `[1, len)` is heap-ordered over
/// live slots, every tail entry is composite-above the root at position 1.
pub proof fn lemma_tail_root_min<T, C: Comparator<T>, TB: TieBreaker>(
    c: C,
    tb: TB,
    sm: Seq<OptSlot<T>>,
    ps: Seq<usize>,
    i: int,
)
    requires
        c.wf(),
        1 <= i < ps.len(),
        forall|k: int| 0 <= k < ps.len() ==> live(sm, #[trigger] ps[k] as int),
        forall|j: int|
            2 <= j < ps.len() ==> comp_le(c, tb, sm, #[trigger] ps[j / 2] as int, ps[j] as int),
    ensures
        comp_le(c, tb, sm, ps[1] as int, ps[i] as int),
    decreases i,
{
    if i == 1 {
        lemma_comp_refl(c, tb, sm, ps[1] as int);
    } else {
        lemma_tail_root_min(c, tb, sm, ps, i / 2);
        lemma_comp_trans(c, tb, sm, ps[1] as int, ps[i / 2] as int, ps[i] as int);
    }
}

/// Min-heap organised on storage `S` and ordered by `CMP`, ties broken by
/// `TB` over insertion ranks.
#[derive(Debug, Clone)]
pub struct Heap<S, CMP, TB> {
    pub(crate) comparator: CMP,
    pub(crate) tie_breaker: TB,
    pub(crate) storage: S,
}

impl<S: BaseStorage, CMP: Comparator<<S::Src as Source>::Item>, TB: TieBreaker> Heap<
    S,
    CMP,
    TB,
> {
    /// The stationary slots, as `(head, rest)` pairs.
    pub closed spec fn sm(&self) -> Seq<OptSlot<<S::Src as Source>::Item>> {
        crate::internal::slots_model(self.storage.slots())
    }

    /// The permuted pointer array.
    pub closed spec fn ps(&self) -> Seq<usize> {
        self.storage.ptrs()
    }

    /// The comparator in use.
    pub closed spec fn cmp_of(&self) -> CMP {
        self.comparator
    }

    /// Every pointer aims at a distinct live slot, and every live slot is
    /// aimed at.
    pub closed spec fn bijective(&self) -> bool {
        let ps = self.ps();
        let sm = self.sm();
        &&& forall|i: int| 0 <= i < ps.len() ==> live(sm, #[trigger] ps[i] as int)
        &&& forall|i: int, j: int|
            0 <= i < ps.len() && 0 <= j < ps.len() && i != j ==> ps[i] != ps[j]
        &&& forall|p: int|
            live(sm, p) ==> exists|i: int| 0 <= i < ps.len() && #[trigger] ps[i] as int == p
    }

    /// The bijection restated against the raw storage, for constructors.
    proof fn lemma_storage_bijective(&self)
        requires
            crate::internal::storage_bijective(self.storage),
        ensures
            self.bijective(),
    {
        let ps = self.ps();
        let sm = self.sm();
        assert forall|i: int| 0 <= i < ps.len() implies live(sm, #[trigger] ps[i] as int) by {
            assert((ps[i] as int) < sm.len() && sm[ps[i] as int] is Some);
        }
        assert forall|p: int| live(sm, p) implies exists|i: int|
            0 <= i < ps.len() && #[trigger] ps[i] as int == p by {
            assert(0 <= p < sm.len() && sm[p] is Some);
        }
    }

    /// The binary-heap ordering over pointer positions `[1, len)`.
    pub closed spec fn tail_heap_ordered(&self) -> bool {
        let ps = self.ps();
        let sm = self.sm();
        forall|j: int|
            2 <= j < ps.len() ==> comp_le(
                self.comparator,
                self.tie_breaker,
                sm,
                #[trigger] ps[j / 2] as int,
                ps[j] as int,
            )
    }

    /// The two-tier heap ordering over the pointer array.
    pub closed spec fn heap_ordered(&self) -> bool {
        let ps = self.ps();
        let sm = self.sm();
        &&& self.tail_heap_ordered()
        &&& ps.len() >= 2 ==> comp_le(
            self.comparator,
            self.tie_breaker,
            sm,
            ps[0] as int,
            ps[1] as int,
        )
    }

    /// The tie-breaker in use.
    pub closed spec fn tb_of(&self) -> TB {
        self.tie_breaker
    }

    /// The slot the next emission comes from.
    pub closed spec fn front_ptr(&self) -> int {
        self.ps()[0] as int
    }

    /// Well-formedness of the whole heap.
    pub closed spec fn hinv(&self) -> bool {
        &&& self.comparator.callable()
        &&& self.bijective()
        &&& self.comparator.wf() ==> self.heap_ordered()
    }

    /// The heap ordering makes position 0 composite-minimal: its slot is
    /// lax against the slot of every pointer.
    proof fn lemma_front_min(&self)
        requires
            self.comparator.wf(),
            self.bijective(),
            self.heap_ordered(),
            self.ps().len() > 0,
        ensures
            is_min_ptr(self.comparator, self.tie_breaker, self.sm(), self.ps()[0] as int),
    {
        let ps = self.ps();
        let sm = self.sm();
        let c = self.comparator;
        let tb = self.tie_breaker;
        assert forall|q: int| live(sm, q) implies comp_le(c, tb, sm, ps[0] as int, q) by {
            assert(exists|i: int| 0 <= i < ps.len() && #[trigger] ps[i] as int == q);
            let i = choose|i: int| 0 <= i < ps.len() && #[trigger] ps[i] as int == q;
            if i == 0 {
                lemma_comp_refl(c, tb, sm, ps[0] as int);
            } else if i == 1 {
                assert(ps.len() >= 2);
            } else {
                self.lemma_above_root(i);
                lemma_comp_trans(c, tb, sm, ps[0] as int, ps[1] as int, ps[i] as int);
            }
        }
        lemma_comp_refl(c, tb, sm, ps[0] as int);
    }

    /// Every pointer position at 1 or beyond is composite-above the heap
    /// root at position 1.
    proof fn lemma_above_root(&self, i: int)
        requires
            self.comparator.wf(),
            self.bijective(),
            self.tail_heap_ordered(),
            1 <= i < self.ps().len(),
        ensures
            comp_le(
                self.comparator,
                self.tie_breaker,
                self.sm(),
                self.ps()[1] as int,
                self.ps()[i] as int,
            ),
    {
        lemma_tail_root_min(
            self.comparator,
            self.tie_breaker,
            self.sm(),
            self.ps(),
            i,
        );
    }

    /// Whether the slot a pointer at `pa` aims at may go before the slot a
    /// pointer at `pb` aims at.
    fn le_ptr(&self, pa: usize, pb: usize) -> (r: bool)
        requires
            self.comparator.callable(),
            live(self.sm(), pa as int),
            live(self.sm(), pb as int),
        ensures
            self.comparator.wf() ==> r == comp_le(
                self.comparator,
                self.tie_breaker,
                self.sm(),
                pa as int,
                pb as int,
            ),
    {
        let o = self.comparator.compare(self.storage.head_at(pa), self.storage.head_at(pb));
        match o {
            Ordering::Less => true,
            Ordering::Greater => false,
            Ordering::Equal => {
                let t = self.tie_breaker.break_tie(pa, pb);
                !(matches!(t, Ordering::Greater))
            },
        }
    }

    /// Moves the pointer at position `pos` down the heap while a child
    /// aims at a smaller slot.
    ///
    /// On entry the heap ordering may fail only on the edges out of `pos`;
    /// on exit it holds everywhere.  The pointer array is reordered within
    /// positions `[1, len)` only.
    fn sift_down_element(&mut self, pos: usize)
        requires
            old(self).comparator.callable(),
            old(self).bijective(),
            1 <= pos < old(self).ps().len(),
            old(self).comparator.wf() ==> forall|j: int|
                2 <= j < old(self).ps().len() && j / 2 > pos ==> comp_le(
                    old(self).comparator,
                    old(self).tie_breaker,
                    old(self).sm(),
                    #[trigger] old(self).ps()[j / 2] as int,
                    old(self).ps()[j] as int,
                ),
        ensures
            final(self).comparator == old(self).comparator,
            final(self).tie_breaker == old(self).tie_breaker,
            final(self).sm() == old(self).sm(),
            final(self).ps().len() == old(self).ps().len(),
            final(self).ps()[0] == old(self).ps()[0],
            final(self).bijective(),
            forall|i: int|
                1 <= i < final(self).ps().len() ==> tail_member(
                    old(self).ps(),
                    #[trigger] final(self).ps()[i],
                ),
            final(self).comparator.wf() ==> forall|j: int|
                2 <= j < final(self).ps().len() && j / 2 >= pos ==> comp_le(
                    final(self).comparator,
                    final(self).tie_breaker,
                    final(self).sm(),
                    #[trigger] final(self).ps()[j / 2] as int,
                    final(self).ps()[j] as int,
                ),
            forall|i: int| 0 <= i < pos ==> #[trigger] final(self).ps()[i] == old(self).ps()[i],
    {
        let ghost n0 = pos as int;
        let ghost sm = self.sm();
        let ghost c = old(self).comparator;
        let ghost tb = old(self).tie_breaker;
        let len = self.storage.len();
        let mut pos = pos;
        loop
            invariant
                self.comparator == c,
                self.tie_breaker == tb,
                self.comparator.callable(),
                self.sm() == sm,
                self.bijective(),
                len == self.ps().len(),
                1 <= n0 <= pos < len,
                self.ps()[0] == old(self).ps()[0],
                forall|i: int|
                    1 <= i < len ==> tail_member(old(self).ps(), #[trigger] self.ps()[i]),
                forall|i: int| 0 <= i < n0 ==> #[trigger] self.ps()[i] == old(self).ps()[i],
                self.comparator.wf() ==> {
                    let ps = self.ps();
                    &&& forall|j: int|
                        2 <= j < len && j / 2 >= n0 && j / 2 != pos ==> comp_le(
                            c,
                            tb,
                            sm,
                            #[trigger] ps[j / 2] as int,
                            ps[j] as int,
                        )
                    &&& pos > n0 ==> forall|j: int|
                        2 <= j < len && j / 2 == pos ==> comp_le(
                            c,
                            tb,
                            sm,
                            ps[pos as int / 2] as int,
                            (#[trigger] ps[j]) as int,
                        )
                },
            ensures
                self.comparator == c,
                self.tie_breaker == tb,
                self.sm() == sm,
                self.bijective(),
                len == self.ps().len(),
                self.ps()[0] == old(self).ps()[0],
                forall|i: int|
                    1 <= i < len ==> tail_member(old(self).ps(), #[trigger] self.ps()[i]),
                forall|i: int| 0 <= i < n0 ==> #[trigger] self.ps()[i] == old(self).ps()[i],
                self.comparator.wf() ==> forall|j: int|
                    2 <= j < len && j / 2 >= n0 ==> comp_le(
                        c,
                        tb,
                        sm,
                        #[trigger] self.ps()[j / 2] as int,
                        self.ps()[j] as int,
                    ),
            decreases len - pos,
        {
            let ghost ps0 = self.ps();
            if pos > (len - 1) / 2 {
                // No child is in range: every edge out of `pos` is vacuous.
                proof {
                    if self.comparator.wf() {
                        assert forall|j: int|
                            2 <= j < len && j / 2 >= n0 implies comp_le(
                            c,
                            tb,
                            sm,
                            #[trigger] self.ps()[j / 2] as int,
                            self.ps()[j] as int,
                        ) by {
                            assert(j / 2 != pos);
                        }
                    }
                }
                break ;
            }
            // `2 * pos` is in range.
            let child1 = 2 * pos;
            let mut child = child1;
            if child1 + 1 < len {
                let p_c1 = self.storage.ptr_at(child1);
                let p_c2 = self.storage.ptr_at(child1 + 1);
                if !self.le_ptr(p_c1, p_c2) {
                    child = child1 + 1;
                    proof {
                        if self.comparator.wf() {
                            lemma_comp_total(c, tb, sm, p_c1 as int, p_c2 as int);
                        }
                    }
                }
            }
            proof {
                // The chosen child is lax against its sibling, if any.
                if self.comparator.wf() {
                    assert forall|j: int|
                        2 <= j < len && j / 2 == pos as int && j != child as int implies comp_le(
                        c,
                        tb,
                        sm,
                        ps0[child as int] as int,
                        ps0[j] as int,
                    ) by {
                        assert(j == 2 * (pos as int) || j == 2 * (pos as int) + 1);
                    }
                }
            }
            // `child` is the smaller child (or the only one).
            let p_pos = self.storage.ptr_at(pos);
            let p_child = self.storage.ptr_at(child);
            if self.le_ptr(p_pos, p_child) {
                // Already in order; the remaining edges out of `pos` go
                // through the smaller child.
                proof {
                    if self.comparator.wf() {
                        assert forall|j: int|
                            2 <= j < len && j / 2 >= n0 implies comp_le(
                            c,
                            tb,
                            sm,
                            #[trigger] self.ps()[j / 2] as int,
                            self.ps()[j] as int,
                        ) by {
                            if j / 2 == pos as int && j != child as int {
                                lemma_comp_trans(
                                    c,
                                    tb,
                                    sm,
                                    ps0[pos as int] as int,
                                    ps0[child as int] as int,
                                    ps0[j] as int,
                                );
                            }
                        }
                    }
                }
                break ;
            }
            // The smaller child goes first: swap and descend.
            proof {
                if self.comparator.wf() {
                    lemma_comp_total(c, tb, sm, ps0[pos as int] as int, ps0[child as int] as int);
                }
            }
            self.storage.set_ptr(pos, p_child);
            self.storage.set_ptr(child, p_pos);
            proof {
                let ps1 = self.ps();
                assert(ps1 == ps0.update(pos as int, p_child).update(child as int, p_pos));
                assert forall|i: int|
                    1 <= i < len implies tail_member(old(self).ps(), #[trigger] ps1[i]) by {
                    if i == pos as int {
                        assert(ps1[i] == ps0[child as int]);
                        assert(tail_member(old(self).ps(), ps0[child as int]));
                    } else if i == child as int {
                        assert(ps1[i] == ps0[pos as int]);
                        assert(tail_member(old(self).ps(), ps0[pos as int]));
                    } else {
                        assert(ps1[i] == ps0[i]);
                        assert(tail_member(old(self).ps(), ps0[i]));
                    }
                }
                assert forall|i: int, j: int|
                    0 <= i < len && 0 <= j < len && i != j implies ps1[i] != ps1[j] by {
                    let li = if i == pos as int {
                        child as int
                    } else if i == child as int {
                        pos as int
                    } else {
                        i
                    };
                    let lj = if j == pos as int {
                        child as int
                    } else if j == child as int {
                        pos as int
                    } else {
                        j
                    };
                    assert(ps1[i] == ps0[li]);
                    assert(ps1[j] == ps0[lj]);
                }
                assert forall|p: int| live(sm, p) implies exists|i: int|
                    0 <= i < ps1.len() && #[trigger] ps1[i] as int == p by {
                    let i0 = choose|i: int| 0 <= i < ps0.len() && #[trigger] ps0[i] as int == p;
                    if i0 == pos as int {
                        assert(ps1[child as int] as int == p);
                    } else if i0 == child as int {
                        assert(ps1[pos as int] as int == p);
                    } else {
                        assert(ps1[i0] as int == p);
                    }
                }
                if self.comparator.wf() {
                    assert forall|j: int|
                        2 <= j < len && j / 2 >= n0 && j / 2 != child as int implies comp_le(
                        c,
                        tb,
                        sm,
                        #[trigger] ps1[j / 2] as int,
                        ps1[j] as int,
                    ) by {
                        if j == child as int {
                            // The edge from `pos` down to the swapped child.
                            assert(ps1[j / 2] == ps0[child as int]);
                            assert(ps1[j] == ps0[pos as int]);
                        } else if j == pos as int {
                            // The edge from `pos`'s parent: the parent was
                            // already lax against the chosen child.
                            assert(pos as int > n0);
                            assert(ps1[j / 2] == ps0[j / 2]);
                            assert(ps1[j] == ps0[child as int]);
                            assert(comp_le(c, tb, sm, ps0[pos as int / 2] as int, ps0[child as int] as int));
                        } else if j / 2 == pos as int {
                            // The sibling keeps its place; the chosen child
                            // was lax against it.
                            assert(ps1[j / 2] == ps0[child as int]);
                            assert(ps1[j] == ps0[j]);
                        } else {
                            assert(ps1[j / 2] == ps0[j / 2]);
                            assert(ps1[j] == ps0[j]);
                        }
                    }
                    assert forall|j: int|
                        2 <= j < len && j / 2 == child as int implies comp_le(
                        c,
                        tb,
                        sm,
                        ps1[child as int / 2] as int,
                        (#[trigger] ps1[j]) as int,
                    ) by {
                        assert(ps1[child as int / 2] == ps0[child as int]);
                        assert(ps1[j] == ps0[j]);
                    }
                }
                assert forall|i: int| 0 <= i < n0 implies #[trigger] ps1[i] == old(self).ps()[i] by {
                    assert(ps1[i] == ps0[i]);
                }
            }
            pos = child;
        }
    }
    /// Swaps the pointers at positions `a` and `b`.
    fn swap_ptrs(&mut self, a: usize, b: usize)
        requires
            old(self).bijective(),
            a < old(self).ps().len(),
            b < old(self).ps().len(),
            a != b,
        ensures
            final(self).comparator == old(self).comparator,
            final(self).tie_breaker == old(self).tie_breaker,
            final(self).sm() == old(self).sm(),
            final(self).ps() == old(self).ps().update(a as int, old(self).ps()[b as int]).update(
                b as int,
                old(self).ps()[a as int],
            ),
            final(self).bijective(),
    {
        let ghost ps0 = self.ps();
        let ghost sm = self.sm();
        let pa = self.storage.ptr_at(a);
        let pb = self.storage.ptr_at(b);
        self.storage.set_ptr(a, pb);
        self.storage.set_ptr(b, pa);
        proof {
            let ps1 = self.ps();
            let len = ps1.len();
            assert forall|i: int, j: int|
                0 <= i < len && 0 <= j < len && i != j implies ps1[i] != ps1[j] by {
                let li = if i == a as int {
                    b as int
                } else if i == b as int {
                    a as int
                } else {
                    i
                };
                let lj = if j == a as int {
                    b as int
                } else if j == b as int {
                    a as int
                } else {
                    j
                };
                assert(ps1[i] == ps0[li]);
                assert(ps1[j] == ps0[lj]);
            }
            assert forall|p: int| live(sm, p) implies exists|i: int|
                0 <= i < ps1.len() && #[trigger] ps1[i] as int == p by {
                let i0 = choose|i: int| 0 <= i < ps0.len() && #[trigger] ps0[i] as int == p;
                if i0 == a as int {
                    assert(ps1[b as int] as int == p);
                } else if i0 == b as int {
                    assert(ps1[a as int] as int == p);
                } else {
                    assert(ps1[i0] as int == p);
                }
            }
        }
    }

    /// Builds the two-tier heap over an arbitrary pointer arrangement:
    /// bottom-up sift over `[1, len)`, then a fix of the first two
    /// positions.
    fn heapify_storage(&mut self)
        requires
            old(self).comparator.callable(),
            old(self).bijective(),
        ensures
            final(self).comparator == old(self).comparator,
            final(self).tie_breaker == old(self).tie_breaker,
            final(self).sm() == old(self).sm(),
            final(self).ps().len() == old(self).ps().len(),
            final(self).hinv(),
    {
        let ghost sm = self.sm();
        let ghost c = old(self).comparator;
        let ghost tb = old(self).tie_breaker;
        let len = self.storage.len();
        if len <= 1 {
            return ;
        }
        let mut n: usize = len / 2;
        while n >= 1
            invariant
                self.comparator == c,
                self.tie_breaker == tb,
                self.comparator.callable(),
                self.sm() == sm,
                self.bijective(),
                len == self.ps().len(),
                2 <= len,
                0 <= n <= len / 2,
                self.comparator.wf() ==> forall|j: int|
                    2 <= j < len && j / 2 > n ==> comp_le(
                        c,
                        tb,
                        sm,
                        #[trigger] self.ps()[j / 2] as int,
                        self.ps()[j] as int,
                    ),
            decreases n,
        {
            self.sift_down_element(n);
            n = n - 1;
        }
        // The tail `[1, len)` is now a heap; fix the first two positions.
        let p0 = self.storage.ptr_at(0);
        let p1 = self.storage.ptr_at(1);
        if !self.le_ptr(p0, p1) {
            let ghost ps_before = self.ps();
            proof {
                if self.comparator.wf() {
                    lemma_comp_total(c, tb, sm, p0 as int, p1 as int);
                }
            }
            self.swap_ptrs(0, 1);
            if len >= 3 {
                let ghost ps_swapped = self.ps();
                proof {
                    if self.comparator.wf() {
                        assert forall|j: int|
                            2 <= j < len && j / 2 > 1 implies comp_le(
                            c,
                            tb,
                            sm,
                            #[trigger] self.ps()[j / 2] as int,
                            self.ps()[j] as int,
                        ) by {
                            assert(self.ps()[j] == ps_before[j]);
                            assert(self.ps()[j / 2] == ps_before[j / 2]);
                        }
                    }
                }
                self.sift_down_element(1);
                proof {
                    if self.comparator.wf() {
                        // The new front pointer was the old heap root, which
                        // is lax against everything the tail can now hold.
                        assert(self.ps()[0] == p1);
                        assert(tail_member(ps_swapped, self.ps()[1]));
                        let i2 = choose|i: int|
                            1 <= i < ps_swapped.len() && #[trigger] ps_swapped[i] == self.ps()[1];
                        if i2 == 1 {
                            assert(ps_swapped[1] == p0);
                        } else {
                            assert(ps_swapped[i2] == ps_before[i2]);
                            lemma_tail_root_min(c, tb, sm, ps_before, i2);
                            assert(ps_before[1] == p1);
                        }
                    }
                }
            }
        }
    }

    /// Creates the heap over a populated storage, establishing the
    /// ordering invariant in one pass.
    pub(crate) fn new(comparator: CMP, tie_breaker: TB, storage: S) -> (h: Self)
        requires
            comparator.callable(),
            crate::internal::storage_bijective(storage),
        ensures
            h.hinv(),
            h.cmp_of() == comparator,
            h.tb_of() == tie_breaker,
            h.sm() == crate::internal::slots_model(storage.slots()),
            h.ps().len() == storage.ptrs().len(),
    {
        let mut res = Heap { comparator, tie_breaker, storage };
        res.heapify_storage();
        res
    }

    /// Removes the slot the front pointer aims at, promoting the heap root
    /// into the front and re-balancing.
    fn remove_front(&mut self) -> (pi: PeekIter<S::Src>)
        requires
            old(self).hinv(),
            old(self).ps().len() > 0,
        ensures
            final(self).cmp_of() == old(self).cmp_of(),
            final(self).tb_of() == old(self).tb_of(),
            final(self).hinv(),
            pi.model() == old(self).sm()[old(self).front_ptr()].unwrap(),
            final(self).sm() == old(self).sm().update(
                old(self).front_ptr(),
                Option::<crate::model::SlotModel<<S::Src as Source>::Item>>::None,
            ),
            final(self).ps().len() + 1 == old(self).ps().len(),
    {
        let ghost c = old(self).comparator;
        let ghost tb = old(self).tie_breaker;
        let ghost sm0 = old(self).sm();
        let ghost ps0 = old(self).ps();
        let len = self.storage.len();
        let p0 = self.storage.ptr_at(0);
        let pi = self.storage.take_slot(p0);
        let ghost sm1 = self.sm();
        proof {
            assert(sm1 =~= sm0.update(p0 as int, Option::<crate::model::SlotModel<
                <S::Src as Source>::Item,
            >>::None));
        }
        if len == 1 {
            let _ = self.storage.pop_ptr();
            proof {
                assert forall|p: int| live(self.sm(), p) implies exists|i: int|
                    0 <= i < self.ps().len() && #[trigger] self.ps()[i] as int == p by {
                    assert(live(sm0, p));
                    let i0 = choose|i: int| 0 <= i < ps0.len() && #[trigger] ps0[i] as int == p;
                }
            }
            return pi;
        }
        // At least two pointers: read the heap root, fill the gap left by
        // the departing last pointer, and re-balance.
        let p1 = self.storage.ptr_at(1);
        let last = self.storage.pop_ptr();
        self.storage.set_ptr(0, p1);
        let new_len = len - 1;
        if new_len >= 2 {
            self.storage.set_ptr(1, last);
        }
        let ghost ps_mid = self.ps();
        proof {
            // The new pointer arrangement holds exactly the old pointers
            // except the front one.
            if new_len >= 2 {
                assert(ps_mid =~= ps0.drop_last().update(0, p1).update(1, last));
            } else {
                assert(ps_mid =~= ps0.drop_last().update(0, p1));
                assert(last == p1);
            }
            assert forall|i: int|
                0 <= i < ps_mid.len() implies live(self.sm(), #[trigger] ps_mid[i] as int) by {
                let li = if i == 0 {
                    1int
                } else if i == 1 && new_len >= 2 {
                    len - 1
                } else {
                    i
                };
                assert(ps_mid[i] == ps0[li]);
                assert(ps0[li] != ps0[0]);
            }
            assert forall|i: int, j: int|
                0 <= i < ps_mid.len() && 0 <= j < ps_mid.len() && i != j implies ps_mid[i]
                    != ps_mid[j] by {
                let li = if i == 0 {
                    1int
                } else if i == 1 && new_len >= 2 {
                    len - 1
                } else {
                    i
                };
                let lj = if j == 0 {
                    1int
                } else if j == 1 && new_len >= 2 {
                    len - 1
                } else {
                    j
                };
                assert(ps_mid[i] == ps0[li]);
                assert(ps_mid[j] == ps0[lj]);
            }
            assert forall|p: int| live(self.sm(), p) implies exists|i: int|
                0 <= i < ps_mid.len() && #[trigger] ps_mid[i] as int == p by {
                assert(live(sm0, p));
                let i0 = choose|i: int| 0 <= i < ps0.len() && #[trigger] ps0[i] as int == p;
                assert(p != p0 as int);
                if i0 == 1 {
                    assert(ps_mid[0] as int == p);
                } else if i0 == len - 1 {
                    if new_len >= 2 {
                        assert(ps_mid[1] as int == p);
                    } else {
                        assert(ps_mid[0] as int == p);
                    }
                } else {
                    assert(ps_mid[i0] as int == p);
                }
            }
        }
        if new_len >= 2 {
            proof {
                if self.comparator.wf() {
                    // Freeing one slot keeps the composite order among the
                    // others; the deep edges of the old heap survive.
                    assert forall|j: int|
                        2 <= j < new_len && j / 2 > 1 implies comp_le(
                        c,
                        tb,
                        self.sm(),
                        #[trigger] ps_mid[j / 2] as int,
                        ps_mid[j] as int,
                    ) by {
                        assert(ps_mid[j] == ps0[j]);
                        assert(ps_mid[j / 2] == ps0[j / 2]);
                        assert(ps0[j] != ps0[0] && ps0[j / 2] != ps0[0]);
                        self.lemma_comp_le_frees(sm0, p0 as int, ps0[j / 2] as int, ps0[j] as int);
                    }
                }
            }
            self.sift_down_element(1);
            proof {
                if self.comparator.wf() {
                    // The promoted old root is lax against everything that
                    // can now sit at position 1.
                    assert(self.ps()[0] == p1);
                    assert(tail_member(ps_mid, self.ps()[1]));
                    let i2 = choose|i: int|
                        1 <= i < ps_mid.len() && #[trigger] ps_mid[i] == self.ps()[1];
                    let q = ps_mid[i2];
                    let lq = if i2 == 1 && new_len >= 2 {
                        len - 1
                    } else {
                        i2
                    };
                    assert(q == ps0[lq]);
                    assert(1 <= lq < len);
                    lemma_tail_root_min(c, tb, sm0, ps0, lq);
                    assert(comp_le(c, tb, sm0, ps0[1] as int, q as int));
                    self.lemma_comp_le_frees(sm0, p0 as int, ps0[1] as int, q as int);
                }
            }
        }
        pi
    }

    /// Removes and returns the current minimum head.  The owning input is
    /// advanced; once it is exhausted its slot is retired.
    pub(crate) fn pop_front_item(&mut self) -> (r: Option<<S::Src as Source>::Item>)
        requires
            old(self).hinv(),
        ensures
            final(self).cmp_of() == old(self).cmp_of(),
            final(self).tb_of() == old(self).tb_of(),
            final(self).hinv(),
            match r {
                Option::None => {
                    &&& old(self).ps().len() == 0
                    &&& *final(self) == *old(self)
                    &&& crate::model::opt_total_count(old(self).sm()) == 0
                    &&& crate::model::opt_elems(old(self).sm()) == vstd::multiset::Multiset::<
                        <S::Src as Source>::Item,
                    >::empty()
                },
                Option::Some(v) => {
                    let sm = old(self).sm();
                    let p = old(self).front_ptr();
                    &&& old(self).ps().len() > 0
                    &&& live(sm, p)
                    &&& v == sm[p].unwrap().0
                    &&& final(self).sm() == advance_slot(sm, p)
                    &&& final(self).ps().len() == old(self).ps().len() - (
                    if sm[p].unwrap().1.len() > 0 {
                        0int
                    } else {
                        1int
                    })
                    &&& old(self).cmp_of().wf() ==> is_min_ptr(
                        old(self).cmp_of(),
                        old(self).tb_of(),
                        sm,
                        p,
                    )
                },
            },
    {
        let ghost c = old(self).comparator;
        let ghost tb = old(self).tie_breaker;
        let len = self.storage.len();
        if len == 0 {
            proof {
                self.lemma_no_ptrs_no_elems();
            }
            return Option::None;
        }
        proof {
            if self.comparator.wf() {
                self.lemma_front_min();
            }
        }
        let ghost sm0 = old(self).sm();
        let ghost ps0 = old(self).ps();
        let p0 = self.storage.ptr_at(0);
        let stepped = self.storage.advance_slot(p0);
        match stepped {
            Option::Some(item) => {
                let ghost sm1 = self.sm();
                proof {
                    assert(sm1 =~= advance_slot(sm0, p0 as int));
                    // The slot stays live, so the bijection is untouched.
                    assert forall|i: int|
                        0 <= i < ps0.len() implies live(sm1, #[trigger] ps0[i] as int) by {
                        assert(live(sm0, ps0[i] as int));
                        if ps0[i] != p0 {
                            assert(sm1[ps0[i] as int] == sm0[ps0[i] as int]);
                        }
                    }
                    assert forall|p: int| live(sm1, p) implies exists|i: int|
                        0 <= i < ps0.len() && #[trigger] ps0[i] as int == p by {
                        assert(live(sm0, p));
                    }
                    if self.comparator.wf() {
                        // Heap edges do not involve the front slot.
                        assert forall|j: int|
                            2 <= j < len implies comp_le(
                            c,
                            tb,
                            sm1,
                            #[trigger] ps0[j / 2] as int,
                            ps0[j] as int,
                        ) by {
                            assert(ps0[j] != ps0[0] && ps0[j / 2] != ps0[0]);
                            lemma_comp_le_same_heads(
                                c,
                                tb,
                                sm0,
                                sm1,
                                ps0[j / 2] as int,
                                ps0[j] as int,
                            );
                        }
                    }
                }
                if len >= 2 {
                    let p1 = self.storage.ptr_at(1);
                    let ok = self.le_ptr(p0, p1);
                    if !ok {
                        proof {
                            if self.comparator.wf() {
                                lemma_comp_total(c, tb, sm1, p0 as int, p1 as int);
                            }
                        }
                        self.swap_ptrs(0, 1);
                        if len >= 3 {
                            let ghost ps_swapped = self.ps();
                            proof {
                                if self.comparator.wf() {
                                    assert forall|j: int|
                                        2 <= j < len && j / 2 > 1 implies comp_le(
                                        c,
                                        tb,
                                        sm1,
                                        #[trigger] self.ps()[j / 2] as int,
                                        self.ps()[j] as int,
                                    ) by {
                                        assert(self.ps()[j] == ps0[j]);
                                        assert(self.ps()[j / 2] == ps0[j / 2]);
                                    }
                                }
                            }
                            self.sift_down_element(1);
                            proof {
                                if self.comparator.wf() {
                                    // The runner-up was the old heap root:
                                    // lax against everything now in the tail.
                                    assert(self.ps()[0] == p1);
                                    assert(tail_member(ps_swapped, self.ps()[1]));
                                    let i2 = choose|i: int|
                                        1 <= i < ps_swapped.len() && #[trigger] ps_swapped[i]
                                            == self.ps()[1];
                                    if i2 == 1 {
                                        assert(ps_swapped[1] == p0);
                                    } else {
                                        assert(ps_swapped[i2] == ps0[i2]);
                                        lemma_tail_root_min(c, tb, sm0, ps0, i2);
                                        lemma_comp_le_same_heads(
                                            c,
                                            tb,
                                            sm0,
                                            sm1,
                                            p1 as int,
                                            ps0[i2] as int,
                                        );
                                    }
                                }
                            }
                        }
                    }
                }
                Option::Some(item)
            },
            Option::None => {
                proof {
                    assert(self.sm() =~= sm0);
                    assert(self.sm() == sm0);
                    assert(advance_slot(sm0, p0 as int) =~= sm0.update(
                        p0 as int,
                        Option::<crate::model::SlotModel<<S::Src as Source>::Item>>::None,
                    ));
                }
                let pi = self.remove_front();
                let PeekIter { item, iter } = pi;
                Option::Some(item)
            },
        }
    }

    /// Removes and returns the whole minimum slot — head and remaining
    /// input — without advancing it.
    pub(crate) fn pop_front_iter(&mut self) -> (r: Option<PeekIter<S::Src>>)
        requires
            old(self).hinv(),
        ensures
            final(self).cmp_of() == old(self).cmp_of(),
            final(self).tb_of() == old(self).tb_of(),
            final(self).hinv(),
            match r {
                Option::None => {
                    &&& old(self).ps().len() == 0
                    &&& *final(self) == *old(self)
                    &&& crate::model::opt_total_count(old(self).sm()) == 0
                    &&& crate::model::opt_elems(old(self).sm()) == vstd::multiset::Multiset::<
                        <S::Src as Source>::Item,
                    >::empty()
                },
                Option::Some(pi) => {
                    let sm = old(self).sm();
                    let p = old(self).front_ptr();
                    &&& old(self).ps().len() > 0
                    &&& live(sm, p)
                    &&& pi.model() == sm[p].unwrap()
                    &&& final(self).sm() == sm.update(
                        p,
                        Option::<crate::model::SlotModel<<S::Src as Source>::Item>>::None,
                    )
                    &&& final(self).ps().len() + 1 == old(self).ps().len()
                    &&& old(self).cmp_of().wf() ==> is_min_ptr(
                        old(self).cmp_of(),
                        old(self).tb_of(),
                        sm,
                        p,
                    )
                },
            },
    {
        if self.storage.len() == 0 {
            proof {
                self.lemma_no_ptrs_no_elems();
            }
            return Option::None;
        }
        proof {
            if self.comparator.wf() {
                self.lemma_front_min();
            }
        }
        Option::Some(self.remove_front())
    }

    /// Removes and returns the slot the last pointer aims at: no order is
    /// promised, but the heap structure is preserved.
    pub(crate) fn pop_back(&mut self) -> (r: Option<PeekIter<S::Src>>)
        requires
            old(self).hinv(),
        ensures
            final(self).cmp_of() == old(self).cmp_of(),
            final(self).tb_of() == old(self).tb_of(),
            final(self).hinv(),
            match r {
                Option::None => {
                    &&& old(self).ps().len() == 0
                    &&& *final(self) == *old(self)
                    &&& crate::model::opt_total_count(old(self).sm()) == 0
                    &&& crate::model::opt_elems(old(self).sm()) == vstd::multiset::Multiset::<
                        <S::Src as Source>::Item,
                    >::empty()
                },
                Option::Some(pi) => {
                    let sm = old(self).sm();
                    let q = old(self).ps().last() as int;
                    &&& old(self).ps().len() > 0
                    &&& live(sm, q)
                    &&& pi.model() == sm[q].unwrap()
                    &&& final(self).sm() == sm.update(
                        q,
                        Option::<crate::model::SlotModel<<S::Src as Source>::Item>>::None,
                    )
                    &&& final(self).ps() == old(self).ps().drop_last()
                },
            },
    {
        let ghost c = old(self).comparator;
        let ghost tb = old(self).tie_breaker;
        let ghost sm0 = old(self).sm();
        let ghost ps0 = old(self).ps();
        let len = self.storage.len();
        if len == 0 {
            proof {
                self.lemma_no_ptrs_no_elems();
            }
            return Option::None;
        }
        let last = self.storage.pop_ptr();
        let pi = self.storage.take_slot(last);
        proof {
            let sm1 = self.sm();
            let ps1 = self.ps();
            assert(sm1 =~= sm0.update(
                last as int,
                Option::<crate::model::SlotModel<<S::Src as Source>::Item>>::None,
            ));
            assert forall|i: int|
                0 <= i < ps1.len() implies live(sm1, #[trigger] ps1[i] as int) by {
                assert(ps1[i] == ps0[i]);
                assert(ps0[i] != ps0[len - 1]);
                assert(sm1[ps1[i] as int] == sm0[ps1[i] as int]);
            }
            assert forall|p: int| live(sm1, p) implies exists|i: int|
                0 <= i < ps1.len() && #[trigger] ps1[i] as int == p by {
                assert(live(sm0, p));
                let i0 = choose|i: int| 0 <= i < ps0.len() && #[trigger] ps0[i] as int == p;
                assert(p != last as int);
                assert(i0 != len - 1);
                assert(ps1[i0] as int == p);
            }
            if self.comparator.wf() {
                assert forall|j: int|
                    2 <= j < ps1.len() implies comp_le(
                    c,
                    tb,
                    sm1,
                    #[trigger] ps1[j / 2] as int,
                    ps1[j] as int,
                ) by {
                    assert(ps1[j] == ps0[j] && ps1[j / 2] == ps0[j / 2]);
                    assert(ps0[j] != ps0[len - 1] && ps0[j / 2] != ps0[len - 1]);
                    lemma_comp_le_same_heads(c, tb, sm0, sm1, ps0[j / 2] as int, ps0[j] as int);
                }
                if ps1.len() >= 2 {
                    assert(ps1[0] == ps0[0] && ps1[1] == ps0[1]);
                    assert(ps0[0] != ps0[len - 1] && ps0[1] != ps0[len - 1]);
                    lemma_comp_le_same_heads(c, tb, sm0, sm1, ps0[0] as int, ps0[1] as int);
                }
            }
        }
        Option::Some(pi)
    }

    /// A reference to the current minimum head, if any input is live.
    pub(crate) fn peek(&self) -> (r: Option<&<S::Src as Source>::Item>)
        requires
            self.hinv(),
        ensures
            (r is None) <==> self.ps().len() == 0,
            self.ps().len() > 0 ==> {
                &&& live(self.sm(), self.front_ptr())
                &&& r matches Option::Some(v) && *v == self.sm()[self.front_ptr()].unwrap().0
                &&& self.cmp_of().wf() ==> is_min_ptr(
                    self.cmp_of(),
                    self.tb_of(),
                    self.sm(),
                    self.front_ptr(),
                )
            },
    {
        if self.storage.len() == 0 {
            return Option::None;
        }
        proof {
            if self.comparator.wf() {
                self.lemma_front_min();
            }
        }
        let p0 = self.storage.ptr_at(0);
        Option::Some(self.storage.head_at(p0))
    }

    /// With no pointer left, every slot is freed and nothing remains.
    proof fn lemma_no_ptrs_no_elems(&self)
        requires
            self.bijective(),
            self.ps().len() == 0,
        ensures
            crate::model::opt_total_count(self.sm()) == 0,
            crate::model::opt_elems(self.sm()) == vstd::multiset::Multiset::<
                <S::Src as Source>::Item,
            >::empty(),
    {
        let sm = self.sm();
        assert forall|p: int| 0 <= p < sm.len() implies !(#[trigger] sm[p] is Some) by {
            if sm[p] is Some {
                assert(live(sm, p));
            }
        }
        crate::model::lemma_opt_all_dead(sm);
    }

    /// The size hints the live inputs currently report, in pointer order.
    pub closed spec fn hints(&self) -> Seq<(usize, Option<usize>)> {
        let slots = self.storage.slots();
        self.ps().map_values(
            |p: usize| slots[p as int].unwrap().iter.hint_spec(),
        )
    }

    /// Bounds on the number of elements left to emit: the live heads plus
    /// the inputs' own bounds.  The lower bound saturates; the upper bound
    /// is absent as soon as one input reports none or the sum overflows.
    pub(crate) fn size_hint(&self) -> (r: (usize, Option<usize>))
        requires
            self.hinv(),
        ensures
            r.0 == crate::model::clamp_usize(
                self.ps().len() + crate::model::sum_hint_lowers(self.hints()),
            ),
            r.1 == (if crate::model::all_uppers(self.hints()) && self.ps().len()
                + crate::model::sum_hint_uppers(self.hints()) <= usize::MAX {
                Option::Some(
                    (self.ps().len() + crate::model::sum_hint_uppers(self.hints())) as usize,
                )
            } else {
                Option::<usize>::None
            }),
            r.0 <= crate::model::opt_total_count(self.sm()),
            r.1 matches Option::Some(u) ==> crate::model::opt_total_count(self.sm()) <= u,
    {
        let ghost sm = self.sm();
        let ghost ps = self.ps();
        let ghost hs = self.hints();
        let len = self.storage.len();
        let mut lower: usize = len;
        let mut upper: usize = len;
        let mut has_upper: bool = true;
        let mut i: usize = 0;
        proof {
            assert(hs.take(0) =~= Seq::<(usize, Option<usize>)>::empty());
            assert(ps.take(0) =~= Seq::<usize>::empty());
            assert(crate::model::ptr_total(sm, ps.take(0)) == 0);
        }
        while i < len
            invariant
                self.hinv(),
                0 <= i <= len,
                len == ps.len(),
                sm == self.sm(),
                ps == self.ps(),
                hs == self.hints(),
                hs.len() == ps.len(),
                lower == crate::model::clamp_usize(
                    len + crate::model::sum_hint_lowers(hs.take(i as int)),
                ),
                lower as int <= i + (crate::model::ptr_total(sm, ps.take(i as int)) - i) + (
                len - i),
                lower as int <= len + crate::model::ptr_total(sm, ps.take(i as int)) - i,
                has_upper ==> upper as int == len + crate::model::sum_hint_uppers(
                    hs.take(i as int),
                ),
                has_upper ==> crate::model::all_uppers(hs.take(i as int)),
                has_upper ==> crate::model::ptr_total(sm, ps.take(i as int)) - i
                    <= crate::model::sum_hint_uppers(hs.take(i as int)),
                !has_upper ==> !(crate::model::all_uppers(hs) && len
                    + crate::model::sum_hint_uppers(hs) <= usize::MAX),
            decreases len - i,
        {
            let p = self.storage.ptr_at(i);
            let hint_i = self.storage.slot_size_hint(p);
            let lo_i = hint_i.0;
            let up_i = hint_i.1;
            proof {
                crate::model::lemma_hints_take_step(hs, i as int);
                crate::model::lemma_hint_sums_nonneg(hs.take(i as int));
                assert(ps.take(i + 1).drop_last() =~= ps.take(i as int));
                assert(ps.take(i + 1).last() == ps[i as int]);
                assert(crate::model::ptr_total(sm, ps.take(i + 1)) == crate::model::ptr_total(
                    sm,
                    ps.take(i as int),
                ) + crate::model::opt_slot_count(sm[p as int]));
                assert(hs[i as int] == hint_i);
                assert(live(sm, p as int));
                assert(sm[p as int].unwrap().1
                    == self.storage.slots()[p as int].unwrap().model().1);
            }
            if lo_i <= usize::MAX - lower {
                lower = lower + lo_i;
            } else {
                lower = usize::MAX;
            }
            match up_i {
                Option::Some(u) => {
                    if has_upper {
                        if u <= usize::MAX - upper {
                            upper = upper + u;
                        } else {
                            has_upper = false;
                            proof {
                                crate::model::lemma_hint_sums_prefix(hs, i + 1);
                            }
                        }
                    }
                },
                Option::None => {
                    has_upper = false;
                    proof {
                        assert(hs[i as int].1 is None);
                        assert(!crate::model::all_uppers(hs));
                    }
                },
            }
            i = i + 1;
        }
        proof {
            assert(hs.take(len as int) =~= hs);
            assert(ps.take(len as int) =~= ps);
            crate::model::lemma_hint_sums_nonneg(hs);
            crate::model::lemma_ptr_total_eq(sm, ps);
        }
        let r_upper = if has_upper {
            Option::Some(upper)
        } else {
            Option::<usize>::None
        };
        (lower, r_upper)
    }

    /// Freeing an unrelated slot does not change how two live slots
    /// compare.
    proof fn lemma_comp_le_frees(
        &self,
        sm0: Seq<OptSlot<<S::Src as Source>::Item>>,
        freed: int,
        pa: int,
        pb: int,
    )
        requires
            0 <= freed < sm0.len(),
            live(sm0, pa),
            live(sm0, pb),
            pa != freed,
            pb != freed,
            self.sm() == sm0.update(freed, Option::<crate::model::SlotModel<
                <S::Src as Source>::Item,
            >>::None),
        ensures
            comp_le(self.comparator, self.tie_breaker, self.sm(), pa, pb) == comp_le(
                self.comparator,
                self.tie_breaker,
                sm0,
                pa,
                pb,
            ),
            live(self.sm(), pa),
            live(self.sm(), pb),
    {
        assert(self.sm()[pa] == sm0[pa]);
        assert(self.sm()[pb] == sm0[pb]);
    }
}

} // verus!
