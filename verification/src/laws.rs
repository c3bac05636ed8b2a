//! The laws of the merge, stated once over the models.
//!
//! The engines' method contracts pin each single step down; the proof
//! functions here state the properties of whole merges that follow, so a
//! reader finds them written out rather than implied.

use vstd::prelude::*;
use crate::comparators::tie_breaker::TieBreaker;
use crate::comparators::{ord_le, ord_lt, Comparator};
use crate::model::{
    advance_at, advance_slot, comp_le, elems, heap_merge_seq, is_min_ptr, lemma_advance_at,
    lemma_advance_slot, lemma_heap_merge_unfold, lemma_merge_seq_elems, lemma_merge_seq_len,
    lemma_merge_seq_unfold, lemma_min_exists, lemma_min_from, lemma_min_unique,
    lemma_opt_all_dead, live, merge_seq, min_ptr, min_rank, opt_elems, opt_total_count,
    total_count, SlotModel,
};

verus! {

/// Permutation: the canonical merge of a state emits exactly the elements
/// the state holds — no element is lost, duplicated, or invented —
/// whatever the comparator is.
pub proof fn lemma_permutation<T, C: Comparator<T>>(c: C, m: Seq<SlotModel<T>>)
    ensures
        merge_seq(c, m).to_multiset() == elems(m),
        merge_seq(c, m).len() == total_count(m),
{
    lemma_merge_seq_elems(c, m);
    lemma_merge_seq_len(c, m);
}

/// Local minimality: for a well-formed comparator, the element the
/// canonical merge emits first is lax against the head of every live
/// input.
pub proof fn lemma_local_minimality<T, C: Comparator<T>>(c: C, m: Seq<SlotModel<T>>)
    requires
        c.wf(),
        m.len() > 0,
    ensures
        forall|j: int|
            0 <= j < m.len() ==> ord_le(
                #[trigger] c.cmp_spec(merge_seq(c, m)[0], m[j].0),
            ),
{
    lemma_min_from(c, m, 0);
    lemma_merge_seq_unfold(c, m);
}

/// Stable tie-break: the canonical merge emits from the earliest input
/// whose head is minimal, so when several live inputs hold equal minimal
/// heads, the earliest-inserted of them is the one that emits.
pub proof fn lemma_stable_tie_break<T, C: Comparator<T>>(c: C, m: Seq<SlotModel<T>>)
    requires
        c.wf(),
        m.len() > 0,
    ensures
        0 <= min_rank(c, m) < m.len(),
        forall|j: int|
            0 <= j < m.len() ==> ord_le(#[trigger] c.cmp_spec(m[min_rank(c, m)].0, m[j].0)),
        forall|j: int|
            0 <= j < min_rank(c, m) ==> ord_lt(
                #[trigger] c.cmp_spec(m[min_rank(c, m)].0, m[j].0),
            ),
        merge_seq(c, m)[0] == m[min_rank(c, m)].0,
{
    lemma_min_from(c, m, 0);
    lemma_merge_seq_unfold(c, m);
}

/// Round trip: consuming the canonical merge element by element gives the
/// very sequence that draining it in one go gives — each step emits the
/// head of the earliest minimal input and continues with that input
/// advanced.
pub proof fn lemma_round_trip<T, C: Comparator<T>>(c: C, m: Seq<SlotModel<T>>)
    requires
        m.len() > 0,
    ensures
        merge_seq(c, m).len() > 0,
        merge_seq(c, m)[0] == m[min_rank(c, m)].0,
        merge_seq(c, m).drop_first() == merge_seq(c, advance_at(m, min_rank(c, m), true)),
{
    lemma_merge_seq_unfold(c, m);
}

/// Break-up completeness: one emission takes exactly the emitted head out
/// of the state, so the elements already emitted together with the heads
/// and insides a dismantled engine returns always add up to the original
/// contents.
pub proof fn lemma_break_up_completeness<T>(m: Seq<SlotModel<T>>, i: int, stable: bool)
    requires
        0 <= i < m.len(),
    ensures
        elems(advance_at(m, i, stable)).insert(m[i].0) == elems(m),
        total_count(advance_at(m, i, stable)) + 1 == total_count(m),
{
    lemma_advance_at(m, i, stable);
}

/// Permutation for the heap engine: for a well-formed comparator its
/// canonical output holds exactly the elements of the live slots.
pub proof fn lemma_heap_permutation<T, C: Comparator<T>, TB: TieBreaker>(
    c: C,
    tb: TB,
    sm: Seq<Option<SlotModel<T>>>,
)
    requires
        c.wf(),
    ensures
        heap_merge_seq(c, tb, sm).to_multiset() == opt_elems(sm),
    decreases opt_total_count(sm),
{
    broadcast use vstd::seq_lib::group_to_multiset_ensures;

    if exists|p: int| #[trigger] is_min_ptr(c, tb, sm, p) {
        let p = min_ptr(c, tb, sm);
        assert(is_min_ptr(c, tb, sm, p));
        lemma_advance_slot(sm, p);
        lemma_heap_permutation(c, tb, advance_slot(sm, p));
        vstd::seq_lib::lemma_multiset_commutative(
            seq![sm[p].unwrap().0],
            heap_merge_seq(c, tb, advance_slot(sm, p)),
        );
        assert(seq![sm[p].unwrap().0] =~= Seq::<T>::empty().push(sm[p].unwrap().0));
        Seq::<T>::empty().to_multiset_ensures();
        assert(heap_merge_seq(c, tb, sm).to_multiset() =~= opt_elems(sm));
    } else {
        assert forall|q: int| 0 <= q < sm.len() implies !(#[trigger] sm[q] is Some) by {
            if sm[q] is Some {
                lemma_min_exists(c, tb, sm, q);
            }
        }
        lemma_opt_all_dead(sm);
        assert(heap_merge_seq(c, tb, sm).to_multiset() =~= opt_elems(sm));
    }
}

/// Stable tie-break for the heap engine: with a well-formed comparator and
/// a decisive tie-breaker the emitting slot is unique, and under the
/// insertion-order tie-breaker it is the lowest-ranked slot among those
/// whose heads are minimal.
pub proof fn lemma_heap_emitter_unique<T, C: Comparator<T>, TB: TieBreaker>(
    c: C,
    tb: TB,
    sm: Seq<Option<SlotModel<T>>>,
    pa: int,
    pb: int,
)
    requires
        c.wf(),
        TB::decisive(),
        is_min_ptr(c, tb, sm, pa),
        is_min_ptr(c, tb, sm, pb),
    ensures
        pa == pb,
{
    lemma_min_unique(c, tb, sm, pa, pb);
}

/// Stable tie-break in plain comparator terms: under the insertion-order
/// tie-breaker, every live slot at a lower rank than the emitting slot
/// holds a strictly greater head — so among equal minimal heads the
/// earliest-inserted slot emits.
pub proof fn lemma_heap_insertion_order_ties<T, C: Comparator<T>>(
    c: C,
    tb: crate::comparators::tie_breaker::InsertionOrder,
    sm: Seq<Option<SlotModel<T>>>,
    p: int,
    q: int,
)
    requires
        is_min_ptr(c, tb, sm, p),
        live(sm, q),
        q < p,
    ensures
        ord_lt(c.cmp_spec(sm[p].unwrap().0, sm[q].unwrap().0)),
{
    assert(comp_le(c, tb, sm, p, q));
}

/// The meaning of holding the minimum: the emitting slot's head is lax
/// against every live head, and on primary ties its rank decides.
pub proof fn lemma_heap_minimality<T, C: Comparator<T>, TB: TieBreaker>(
    c: C,
    tb: TB,
    sm: Seq<Option<SlotModel<T>>>,
    p: int,
    q: int,
)
    requires
        is_min_ptr(c, tb, sm, p),
        live(sm, q),
    ensures
        comp_le(c, tb, sm, p, q),
{
}

} // verus!
