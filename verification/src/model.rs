//! Mathematical model of a merge in progress.
//!
//! A live input is modelled by the pair of its head (the element pulled but
//! not yet emitted) and the sequence of elements still inside it.  A whole
//! engine is modelled by the sequence of its live pairs, in insertion order.
//! This module defines the model transitions the engines promise — advancing
//! one input — together with the element count, the element multiset, the
//! earliest minimal head, and the canonical merge sequence, with the lemmas
//! that relate them.

use vstd::prelude::*;
use vstd::multiset::Multiset;
use crate::comparators::{Comparator, lemma_cmp_refl, lemma_le_lt_trans, lemma_lt_le_trans, ord_le, ord_lt};
use crate::comparators::tie_breaker::TieBreaker;
use core::cmp::Ordering;

verus! {

/// A live input: its head and the sequence of elements still inside it.
pub type SlotModel<T> = (T, Seq<T>);

/// Number of elements a live input still holds, its head included.
pub open spec fn slot_count<T>(s: SlotModel<T>) -> nat {
    1 + s.1.len()
}

/// Number of elements a whole merge state still holds.
pub open spec fn total_count<T>(m: Seq<SlotModel<T>>) -> nat
    decreases m.len(),
{
    if m.len() == 0 {
        0
    } else {
        total_count(m.drop_last()) + slot_count(m.last())
    }
}

/// The multiset of elements a live input still holds.
pub open spec fn slot_elems<T>(s: SlotModel<T>) -> Multiset<T> {
    s.1.to_multiset().insert(s.0)
}

/// The multiset of elements a whole merge state still holds.
pub open spec fn elems<T>(m: Seq<SlotModel<T>>) -> Multiset<T>
    decreases m.len(),
{
    if m.len() == 0 {
        Multiset::empty()
    } else {
        elems(m.drop_last()).add(slot_elems(m.last()))
    }
}

/// Removing position `i` by moving the last entry into its place.
pub open spec fn swap_remove_seq<A>(s: Seq<A>, i: int) -> Seq<A> {
    if i == s.len() - 1 {
        s.drop_last()
    } else {
        s.update(i, s.last()).drop_last()
    }
}

/// The merge state after input `i` is advanced: its next element becomes the
/// new head, or, if it is exhausted, the input leaves the state — shifting
/// later inputs down when `stable` is set, and swapping the last input into
/// its place otherwise.
pub open spec fn advance_at<T>(m: Seq<SlotModel<T>>, i: int, stable: bool) -> Seq<SlotModel<T>> {
    let s = m[i];
    if s.1.len() > 0 {
        m.update(i, (s.1[0], s.1.drop_first()))
    } else if stable {
        m.remove(i)
    } else {
        swap_remove_seq(m, i)
    }
}

pub proof fn lemma_total_count_concat<T>(a: Seq<SlotModel<T>>, b: Seq<SlotModel<T>>)
    ensures
        total_count(a + b) == total_count(a) + total_count(b),
    decreases b.len(),
{
    if b.len() == 0 {
        assert(a + b =~= a);
    } else {
        lemma_total_count_concat(a, b.drop_last());
        assert((a + b).drop_last() =~= a + b.drop_last());
        assert((a + b).last() == b.last());
    }
}

pub proof fn lemma_elems_concat<T>(a: Seq<SlotModel<T>>, b: Seq<SlotModel<T>>)
    ensures
        elems(a + b) == elems(a).add(elems(b)),
    decreases b.len(),
{
    if b.len() == 0 {
        assert(a + b =~= a);
        assert(elems(a).add(elems(b)) =~= elems(a));
    } else {
        lemma_elems_concat(a, b.drop_last());
        assert((a + b).drop_last() =~= a + b.drop_last());
        assert((a + b).last() == b.last());
        assert(elems(a).add(elems(b.drop_last())).add(slot_elems(b.last())) =~= elems(a).add(
            elems(b.drop_last()).add(slot_elems(b.last())),
        ));
    }
}

/// A single-entry state holds exactly that entry's elements.
pub proof fn lemma_singleton_measures<T>(s: SlotModel<T>)
    ensures
        total_count(seq![s]) == slot_count(s),
        elems(seq![s]) == slot_elems(s),
{
    assert(seq![s].drop_last() =~= Seq::<SlotModel<T>>::empty());
    assert(total_count(Seq::<SlotModel<T>>::empty()) == 0);
    assert(elems(Seq::<SlotModel<T>>::empty()) == Multiset::<T>::empty());
    assert(seq![s].last() == s);
    assert(total_count(seq![s]) == total_count(seq![s].drop_last()) + slot_count(s));
    assert(elems(seq![s]) =~= slot_elems(s));
}

/// A state splits around any of its positions.
pub proof fn lemma_split_at<T>(m: Seq<SlotModel<T>>, i: int)
    requires
        0 <= i < m.len(),
    ensures
        total_count(m) == total_count(m.take(i)) + slot_count(m[i]) + total_count(m.skip(i + 1)),
        elems(m) == elems(m.take(i)).add(slot_elems(m[i])).add(elems(m.skip(i + 1))),
    decreases m.len(),
{
    assert(m =~= (m.take(i) + seq![m[i]]) + m.skip(i + 1));
    lemma_total_count_concat(m.take(i) + seq![m[i]], m.skip(i + 1));
    lemma_total_count_concat(m.take(i), seq![m[i]]);
    lemma_elems_concat(m.take(i) + seq![m[i]], m.skip(i + 1));
    lemma_elems_concat(m.take(i), seq![m[i]]);
    lemma_singleton_measures(m[i]);
}

/// Advancing input `i` removes exactly one element, its head, from the state.
pub proof fn lemma_advance_at<T>(m: Seq<SlotModel<T>>, i: int, stable: bool)
    requires
        0 <= i < m.len(),
    ensures
        total_count(advance_at(m, i, stable)) + 1 == total_count(m),
        elems(advance_at(m, i, stable)).insert(m[i].0) == elems(m),
{
    let s = m[i];
    lemma_split_at(m, i);
    if s.1.len() > 0 {
        let s2 = (s.1[0], s.1.drop_first());
        let m2 = m.update(i, s2);
        assert(m2.take(i) =~= m.take(i));
        assert(m2.skip(i + 1) =~= m.skip(i + 1));
        lemma_split_at(m2, i);
        assert(s.1 =~= seq![s.1[0]] + s.1.drop_first());
        vstd::seq_lib::lemma_multiset_commutative(seq![s.1[0]], s.1.drop_first());
        seq![s.1[0]].to_multiset_ensures();
        Seq::<T>::empty().to_multiset_ensures();
        assert(seq![s.1[0]] =~= Seq::<T>::empty().push(s.1[0]));
        assert(slot_elems(s2).insert(s.0) =~= slot_elems(s));
        assert(elems(m2).insert(m[i].0) =~= elems(m));
    } else {
        s.1.to_multiset_ensures();
        assert(slot_elems(s) =~= Multiset::empty().insert(s.0));
        if stable {
            assert(m.remove(i) =~= m.take(i) + m.skip(i + 1));
            lemma_total_count_concat(m.take(i), m.skip(i + 1));
            lemma_elems_concat(m.take(i), m.skip(i + 1));
            assert(elems(m.remove(i)).insert(m[i].0) =~= elems(m));
        } else {
            let r = swap_remove_seq(m, i);
            if i == m.len() - 1 {
                assert(r =~= m.take(i));
                assert(m.skip(i + 1) =~= Seq::<SlotModel<T>>::empty());
                assert(elems(r).insert(m[i].0) =~= elems(m));
            } else {
                // `r` is `m` with the last entry moved into position `i`
                // and the tail cut off.
                let u = m.update(i, m.last());
                assert(u.take(i) =~= m.take(i));
                assert(u.skip(i + 1) =~= m.skip(i + 1));
                lemma_split_at(u, i);
                assert(u.last() == m.last());
                assert(total_count(u) == total_count(r) + slot_count(u.last()));
                assert(elems(u) == elems(r).add(slot_elems(u.last())));
                assert forall|x: T| elems(r).insert(m[i].0).count(x) == elems(m).count(x) by {
                    assert(elems(u).count(x) == elems(r).count(x) + slot_elems(m.last()).count(
                        x,
                    ));
                    assert(elems(u).count(x) == elems(m.take(i)).count(x) + slot_elems(
                        m.last(),
                    ).count(x) + elems(m.skip(i + 1)).count(x));
                    assert(elems(m).count(x) == elems(m.take(i)).count(x) + slot_elems(s).count(
                        x,
                    ) + elems(m.skip(i + 1)).count(x));
                }
                assert(elems(r).insert(m[i].0) =~= elems(m));
            }
        }
    }
}

/// The number of elements still inside the inputs, heads not counted.
pub open spec fn sum_rests<T>(m: Seq<SlotModel<T>>) -> int
    decreases m.len(),
{
    if m.len() == 0 {
        0
    } else {
        sum_rests(m.drop_last()) + m.last().1.len()
    }
}

/// A merge state holds one head per input plus the inputs' insides.
pub proof fn lemma_total_count_as_sum<T>(m: Seq<SlotModel<T>>)
    ensures
        total_count(m) == m.len() + sum_rests(m),
    decreases m.len(),
{
    if m.len() > 0 {
        lemma_total_count_as_sum(m.drop_last());
    }
}

/// The sum of the reported lower bounds of a sequence of size hints.
pub open spec fn sum_hint_lowers(hs: Seq<(usize, Option<usize>)>) -> int
    decreases hs.len(),
{
    if hs.len() == 0 {
        0
    } else {
        sum_hint_lowers(hs.drop_last()) + hs.last().0
    }
}

/// Whether every size hint in the sequence reports an upper bound.
pub open spec fn all_uppers<T>(hs: Seq<(usize, Option<T>)>) -> bool {
    forall|i: int| 0 <= i < hs.len() ==> (#[trigger] hs[i].1) is Some
}

/// The sum of the reported upper bounds, counting a missing one as zero.
pub open spec fn sum_hint_uppers(hs: Seq<(usize, Option<usize>)>) -> int
    decreases hs.len(),
{
    if hs.len() == 0 {
        0
    } else {
        sum_hint_uppers(hs.drop_last()) + (match hs.last().1 {
            Option::Some(u) => u as int,
            Option::None => 0,
        })
    }
}

/// `x` clamped into the range of `usize`.
pub open spec fn clamp_usize(x: int) -> usize {
    if x > usize::MAX {
        usize::MAX
    } else if x < 0 {
        0usize
    } else {
        x as usize
    }
}

/// One step of the hint sums: position `i` contributes its own bounds.
pub proof fn lemma_hints_take_step(hs: Seq<(usize, Option<usize>)>, i: int)
    requires
        0 <= i < hs.len(),
    ensures
        sum_hint_lowers(hs.take(i + 1)) == sum_hint_lowers(hs.take(i)) + hs[i].0,
        sum_hint_uppers(hs.take(i + 1)) == sum_hint_uppers(hs.take(i)) + (match hs[i].1 {
            Option::Some(u) => u as int,
            Option::None => 0,
        }),
        all_uppers(hs.take(i + 1)) <==> all_uppers(hs.take(i)) && hs[i].1 is Some,
{
    assert(hs.take(i + 1).drop_last() =~= hs.take(i));
    assert(hs.take(i + 1).last() == hs[i]);
    if all_uppers(hs.take(i)) && hs[i].1 is Some {
        assert forall|j: int| 0 <= j < i + 1 implies (#[trigger] hs.take(i + 1)[j].1) is Some by {
            if j < i {
                assert(hs.take(i)[j].1 is Some);
            }
        }
    }
    if all_uppers(hs.take(i + 1)) {
        assert forall|j: int| 0 <= j < i implies (#[trigger] hs.take(i)[j].1) is Some by {
            assert(hs.take(i + 1)[j].1 is Some);
        }
        assert(hs.take(i + 1)[i].1 is Some);
    }
}

/// The hint sums are sums of machine integers, hence never negative.
pub proof fn lemma_hint_sums_nonneg(hs: Seq<(usize, Option<usize>)>)
    ensures
        sum_hint_lowers(hs) >= 0,
        sum_hint_uppers(hs) >= 0,
    decreases hs.len(),
{
    if hs.len() > 0 {
        lemma_hint_sums_nonneg(hs.drop_last());
    }
}

/// A prefix contributes no more than the whole, and misses no upper bound
/// the whole has.
pub proof fn lemma_hint_sums_prefix(hs: Seq<(usize, Option<usize>)>, i: int)
    requires
        0 <= i <= hs.len(),
    ensures
        sum_hint_uppers(hs.take(i)) <= sum_hint_uppers(hs),
        all_uppers(hs) ==> all_uppers(hs.take(i)),
    decreases hs.len(),
{
    if i == hs.len() {
        assert(hs.take(i) =~= hs);
    } else {
        assert(hs.take(i) =~= hs.drop_last().take(i));
        lemma_hint_sums_prefix(hs.drop_last(), i);
        if all_uppers(hs) {
            assert forall|j: int|
                0 <= j < hs.len() - 1 implies (#[trigger] hs.drop_last()[j].1) is Some by {
                assert(hs[j].1 is Some);
            }
        }
    }
}

/// One step of the inside-count sum.
pub proof fn lemma_sum_rests_take_step<T>(m: Seq<SlotModel<T>>, i: int)
    requires
        0 <= i < m.len(),
    ensures
        sum_rests(m.take(i + 1)) == sum_rests(m.take(i)) + m[i].1.len(),
        sum_rests(m.take(i)) >= 0,
    decreases i,
{
    assert(m.take(i + 1).drop_last() =~= m.take(i));
    assert(m.take(i + 1).last() == m[i]);
    if i > 0 {
        lemma_sum_rests_take_step(m, i - 1);
    } else {
        assert(m.take(0) =~= Seq::<SlotModel<T>>::empty());
    }
}

/// The canonical merge of a single input is its head followed by its
/// remaining elements.
pub proof fn lemma_merge_seq_single<T, C: Comparator<T>>(c: C, s: SlotModel<T>)
    ensures
        merge_seq(c, seq![s]) == seq![s.0] + s.1,
    decreases s.1.len(),
{
    let m = seq![s];
    assert(min_rank(c, m) == 0);
    if s.1.len() == 0 {
        assert(advance_at(m, 0, true) =~= Seq::<SlotModel<T>>::empty());
        assert(merge_seq(c, advance_at(m, 0, true)) == Seq::<T>::empty());
        assert(merge_seq(c, m) == seq![m[0].0] + merge_seq(c, advance_at(m, 0, true)));
        assert(merge_seq(c, m) =~= seq![s.0] + s.1);
    } else {
        let s2 = (s.1[0], s.1.drop_first());
        assert(advance_at(m, 0, true) =~= seq![s2]);
        lemma_merge_seq_single(c, s2);
        assert(merge_seq(c, m) =~= seq![s.0] + s.1);
    }
}

/// The earliest position in `[i, len)` whose head is minimal under `c`
/// among the heads in `[i, len)`.
pub open spec fn min_from<T, C: Comparator<T>>(c: C, m: Seq<SlotModel<T>>, i: int) -> int
    decreases m.len() - i,
{
    if i + 1 >= m.len() {
        i
    } else {
        let k = min_from(c, m, i + 1);
        if ord_le(c.cmp_spec(m[i].0, m[k].0)) {
            i
        } else {
            k
        }
    }
}

/// The earliest position whose head is minimal under `c`: the input the
/// canonical stable merge emits from next.
pub open spec fn min_rank<T, C: Comparator<T>>(c: C, m: Seq<SlotModel<T>>) -> int {
    min_from(c, m, 0)
}

/// `min_from` stays in range whatever the comparator is.
pub proof fn lemma_min_from_bounds<T, C: Comparator<T>>(c: C, m: Seq<SlotModel<T>>, i: int)
    requires
        0 <= i < m.len(),
    ensures
        i <= min_from(c, m, i) < m.len(),
    decreases m.len() - i,
{
    if i + 1 < m.len() {
        lemma_min_from_bounds(c, m, i + 1);
    }
}

/// For a well-formed comparator, `min_from` points at a head that is lax
/// against every head in range and strictly below every earlier one.
pub proof fn lemma_min_from<T, C: Comparator<T>>(c: C, m: Seq<SlotModel<T>>, i: int)
    requires
        c.wf(),
        0 <= i < m.len(),
    ensures
        i <= min_from(c, m, i) < m.len(),
        forall|j: int|
            i <= j < m.len() ==> ord_le(
                #[trigger] c.cmp_spec(m[min_from(c, m, i)].0, m[j].0),
            ),
        forall|j: int|
            i <= j < min_from(c, m, i) ==> ord_lt(
                #[trigger] c.cmp_spec(m[min_from(c, m, i)].0, m[j].0),
            ),
    decreases m.len() - i,
{
    let k = min_from(c, m, i);
    if i + 1 >= m.len() {
        lemma_cmp_refl(&c, m[i].0);
    } else {
        let k2 = min_from(c, m, i + 1);
        lemma_min_from(c, m, i + 1);
        if ord_le(c.cmp_spec(m[i].0, m[k2].0)) {
            lemma_cmp_refl(&c, m[i].0);
            assert forall|j: int|
                i <= j < m.len() implies ord_le(#[trigger] c.cmp_spec(m[k].0, m[j].0)) by {
                if j > i {
                    c.lemma_laws(m[i].0, m[k2].0, m[j].0);
                }
            }
        } else {
            // The head at `i` compares `Greater` against the minimum of the
            // rest, so that minimum is strictly below it.
            c.lemma_laws(m[k2].0, m[i].0, m[i].0);
        }
    }
}

/// The canonical merge sequence: at every step, emit the head of the
/// earliest input whose head is minimal, then advance that input.  This is
/// the output the stable engines promise for a well-formed comparator.
pub open spec fn merge_seq<T, C: Comparator<T>>(c: C, m: Seq<SlotModel<T>>) -> Seq<T>
    decreases total_count(m),
    via merge_seq_decreases::<T, C>
{
    if m.len() == 0 {
        Seq::empty()
    } else {
        let k = min_rank(c, m);
        seq![m[k].0] + merge_seq(c, advance_at(m, k, true))
    }
}

#[via_fn]
proof fn merge_seq_decreases<T, C: Comparator<T>>(c: C, m: Seq<SlotModel<T>>) {
    if m.len() > 0 {
        lemma_min_from_bounds(c, m, 0);
        lemma_advance_at(m, min_rank(c, m), true);
    }
}

/// One canonical step: the head of the earliest minimal input comes out
/// first, and the rest is the canonical merge of the advanced state.
pub proof fn lemma_merge_seq_unfold<T, C: Comparator<T>>(c: C, m: Seq<SlotModel<T>>)
    requires
        m.len() > 0,
    ensures
        merge_seq(c, m).len() > 0,
        merge_seq(c, m)[0] == m[min_rank(c, m)].0,
        merge_seq(c, m).drop_first() == merge_seq(c, advance_at(m, min_rank(c, m), true)),
{
    let k = min_rank(c, m);
    assert(merge_seq(c, m) == seq![m[k].0] + merge_seq(c, advance_at(m, k, true)));
    assert(merge_seq(c, m).drop_first() =~= merge_seq(c, advance_at(m, k, true)));
}

/// The canonical merge emits exactly as many elements as the state holds.
pub proof fn lemma_merge_seq_len<T, C: Comparator<T>>(c: C, m: Seq<SlotModel<T>>)
    ensures
        merge_seq(c, m).len() == total_count(m),
    decreases total_count(m),
{
    if m.len() > 0 {
        let k = min_rank(c, m);
        lemma_min_from_bounds(c, m, 0);
        lemma_advance_at(m, k, true);
        lemma_merge_seq_len(c, advance_at(m, k, true));
    }
}

/// Permutation: the canonical merge emits exactly the elements the state
/// holds, whatever the comparator is.
pub proof fn lemma_merge_seq_elems<T, C: Comparator<T>>(c: C, m: Seq<SlotModel<T>>)
    ensures
        merge_seq(c, m).to_multiset() == elems(m),
    decreases total_count(m),
{
    broadcast use vstd::seq_lib::group_to_multiset_ensures;

    if m.len() == 0 {
        assert(merge_seq(c, m).to_multiset() =~= elems(m));
    } else {
        let k = min_rank(c, m);
        lemma_min_from_bounds(c, m, 0);
        lemma_advance_at(m, k, true);
        lemma_merge_seq_elems(c, advance_at(m, k, true));
        vstd::seq_lib::lemma_multiset_commutative(
            seq![m[k].0],
            merge_seq(c, advance_at(m, k, true)),
        );
        assert(seq![m[k].0] =~= Seq::<T>::empty().push(m[k].0));
        assert(merge_seq(c, m).to_multiset() =~= elems(m));
    }
}

/// A stationary slot: a live `(head, rest)` pair, or a freed position.
pub type OptSlot<T> = Option<SlotModel<T>>;

/// Number of elements a stationary slot still holds.
pub open spec fn opt_slot_count<T>(s: OptSlot<T>) -> nat {
    match s {
        Option::Some(x) => slot_count(x),
        Option::None => 0,
    }
}

/// Number of elements a whole slot array still holds.
pub open spec fn opt_total_count<T>(sm: Seq<OptSlot<T>>) -> nat
    decreases sm.len(),
{
    if sm.len() == 0 {
        0
    } else {
        opt_total_count(sm.drop_last()) + opt_slot_count(sm.last())
    }
}

/// The multiset of elements a stationary slot still holds.
pub open spec fn opt_slot_elems<T>(s: OptSlot<T>) -> Multiset<T> {
    match s {
        Option::Some(x) => slot_elems(x),
        Option::None => Multiset::empty(),
    }
}

/// The multiset of elements a whole slot array still holds.
pub open spec fn opt_elems<T>(sm: Seq<OptSlot<T>>) -> Multiset<T>
    decreases sm.len(),
{
    if sm.len() == 0 {
        Multiset::empty()
    } else {
        opt_elems(sm.drop_last()).add(opt_slot_elems(sm.last()))
    }
}

/// The slot array after the live slot at `p` is advanced: its next element
/// becomes the new head, or, if it is exhausted, the position is freed.
pub open spec fn advance_slot<T>(sm: Seq<OptSlot<T>>, p: int) -> Seq<OptSlot<T>> {
    let s = sm[p].unwrap();
    if s.1.len() > 0 {
        sm.update(p, Option::Some((s.1[0], s.1.drop_first())))
    } else {
        sm.update(p, Option::<SlotModel<T>>::None)
    }
}

pub proof fn lemma_opt_total_count_concat<T>(a: Seq<OptSlot<T>>, b: Seq<OptSlot<T>>)
    ensures
        opt_total_count(a + b) == opt_total_count(a) + opt_total_count(b),
    decreases b.len(),
{
    if b.len() == 0 {
        assert(a + b =~= a);
    } else {
        lemma_opt_total_count_concat(a, b.drop_last());
        assert((a + b).drop_last() =~= a + b.drop_last());
        assert((a + b).last() == b.last());
    }
}

pub proof fn lemma_opt_elems_concat<T>(a: Seq<OptSlot<T>>, b: Seq<OptSlot<T>>)
    ensures
        opt_elems(a + b) == opt_elems(a).add(opt_elems(b)),
    decreases b.len(),
{
    if b.len() == 0 {
        assert(a + b =~= a);
        assert(opt_elems(a).add(opt_elems(b)) =~= opt_elems(a));
    } else {
        lemma_opt_elems_concat(a, b.drop_last());
        assert((a + b).drop_last() =~= a + b.drop_last());
        assert((a + b).last() == b.last());
        assert(opt_elems(a).add(opt_elems(b.drop_last())).add(opt_slot_elems(b.last()))
            =~= opt_elems(a).add(opt_elems(b.drop_last()).add(opt_slot_elems(b.last()))));
    }
}

/// A slot array splits around any of its positions.
pub proof fn lemma_opt_split_at<T>(sm: Seq<OptSlot<T>>, p: int)
    requires
        0 <= p < sm.len(),
    ensures
        opt_total_count(sm) == opt_total_count(sm.take(p)) + opt_slot_count(sm[p])
            + opt_total_count(sm.skip(p + 1)),
        opt_elems(sm) == opt_elems(sm.take(p)).add(opt_slot_elems(sm[p])).add(
            opt_elems(sm.skip(p + 1)),
        ),
{
    assert(sm =~= (sm.take(p) + seq![sm[p]]) + sm.skip(p + 1));
    lemma_opt_total_count_concat(sm.take(p) + seq![sm[p]], sm.skip(p + 1));
    lemma_opt_total_count_concat(sm.take(p), seq![sm[p]]);
    lemma_opt_elems_concat(sm.take(p) + seq![sm[p]], sm.skip(p + 1));
    lemma_opt_elems_concat(sm.take(p), seq![sm[p]]);
    assert(seq![sm[p]].drop_last() =~= Seq::<OptSlot<T>>::empty());
    assert(opt_total_count(Seq::<OptSlot<T>>::empty()) == 0);
    assert(opt_elems(Seq::<OptSlot<T>>::empty()) == Multiset::<T>::empty());
    assert(seq![sm[p]].last() == sm[p]);
    assert(opt_total_count(seq![sm[p]]) == opt_slot_count(sm[p]));
    assert(opt_elems(seq![sm[p]]) =~= opt_slot_elems(sm[p]));
}

/// Advancing the live slot at `p` removes exactly its head.
pub proof fn lemma_advance_slot<T>(sm: Seq<OptSlot<T>>, p: int)
    requires
        0 <= p < sm.len(),
        sm[p] is Some,
    ensures
        advance_slot(sm, p).len() == sm.len(),
        opt_total_count(advance_slot(sm, p)) + 1 == opt_total_count(sm),
        opt_elems(advance_slot(sm, p)).insert(sm[p].unwrap().0) == opt_elems(sm),
{
    let s = sm[p].unwrap();
    let sm2 = advance_slot(sm, p);
    lemma_opt_split_at(sm, p);
    assert(sm2.take(p) =~= sm.take(p));
    assert(sm2.skip(p + 1) =~= sm.skip(p + 1));
    lemma_opt_split_at(sm2, p);
    if s.1.len() > 0 {
        let s2 = (s.1[0], s.1.drop_first());
        assert(s.1 =~= seq![s.1[0]] + s.1.drop_first());
        vstd::seq_lib::lemma_multiset_commutative(seq![s.1[0]], s.1.drop_first());
        seq![s.1[0]].to_multiset_ensures();
        Seq::<T>::empty().to_multiset_ensures();
        assert(seq![s.1[0]] =~= Seq::<T>::empty().push(s.1[0]));
        assert(opt_slot_elems(sm2[p]).insert(s.0) =~= opt_slot_elems(sm[p]));
        assert(opt_elems(sm2).insert(sm[p].unwrap().0) =~= opt_elems(sm));
    } else {
        s.1.to_multiset_ensures();
        assert(opt_slot_elems(sm[p]) =~= Multiset::empty().insert(s.0));
        assert(opt_elems(sm2).insert(sm[p].unwrap().0) =~= opt_elems(sm));
    }
}

/// Position `p` holds a live slot.
pub open spec fn live<T>(sm: Seq<OptSlot<T>>, p: int) -> bool {
    0 <= p < sm.len() && sm[p] is Some
}

/// The composite order of the heap engine: first the comparator on heads,
/// then, on ties, the tie-breaker on positions (insertion ranks).
pub open spec fn comp_le<T, C: Comparator<T>, TB: TieBreaker>(
    c: C,
    tb: TB,
    sm: Seq<OptSlot<T>>,
    pa: int,
    pb: int,
) -> bool {
    match c.cmp_spec(sm[pa].unwrap().0, sm[pb].unwrap().0) {
        Ordering::Less => true,
        Ordering::Greater => false,
        Ordering::Equal => ord_le(TB::tie_spec(pa, pb)),
    }
}

/// The composite order is reflexive.
pub proof fn lemma_comp_refl<T, C: Comparator<T>, TB: TieBreaker>(
    c: C,
    tb: TB,
    sm: Seq<OptSlot<T>>,
    p: int,
)
    requires
        c.wf(),
        live(sm, p),
    ensures
        comp_le(c, tb, sm, p, p),
{
    lemma_cmp_refl(&c, sm[p].unwrap().0);
    TB::lemma_tie_laws(p, p, p);
}

/// The composite order is total over live slots.
pub proof fn lemma_comp_total<T, C: Comparator<T>, TB: TieBreaker>(
    c: C,
    tb: TB,
    sm: Seq<OptSlot<T>>,
    pa: int,
    pb: int,
)
    requires
        c.wf(),
        live(sm, pa),
        live(sm, pb),
    ensures
        comp_le(c, tb, sm, pa, pb) || comp_le(c, tb, sm, pb, pa),
{
    let a = sm[pa].unwrap().0;
    let b = sm[pb].unwrap().0;
    c.lemma_laws(a, b, b);
    c.lemma_laws(b, a, a);
    TB::lemma_tie_laws(pa, pb, pb);
}

/// The composite order is transitive over live slots.
pub proof fn lemma_comp_trans<T, C: Comparator<T>, TB: TieBreaker>(
    c: C,
    tb: TB,
    sm: Seq<OptSlot<T>>,
    pa: int,
    pb: int,
    pc: int,
)
    requires
        c.wf(),
        live(sm, pa),
        live(sm, pb),
        live(sm, pc),
        comp_le(c, tb, sm, pa, pb),
        comp_le(c, tb, sm, pb, pc),
    ensures
        comp_le(c, tb, sm, pa, pc),
{
    let a = sm[pa].unwrap().0;
    let b = sm[pb].unwrap().0;
    let d = sm[pc].unwrap().0;
    c.lemma_laws(a, b, d);
    c.lemma_laws(b, a, d);
    c.lemma_laws(b, d, a);
    c.lemma_laws(d, b, a);
    c.lemma_laws(a, d, b);
    c.lemma_laws(d, a, b);
    TB::lemma_tie_laws(pa, pb, pc);
    if c.cmp_spec(a, b) == Ordering::Less {
        if c.cmp_spec(b, d) == Ordering::Less {
            lemma_lt_le_trans(&c, a, b, d);
        } else {
            lemma_lt_le_trans(&c, a, b, d);
        }
    } else {
        // Heads tie between `a` and `b`.
        if c.cmp_spec(b, d) == Ordering::Less {
            lemma_le_lt_trans(&c, a, b, d);
        } else {
            // All three heads tie; the tie-breaker chain carries it.
            if c.cmp_spec(a, d) == Ordering::Greater {
                lemma_le_lt_trans(&c, b, d, a);
                lemma_lt_le_trans(&c, d, a, b);
            }
        }
    }
}

/// On ties of a decisive tie-breaker, both directions lax means the same
/// position.
pub proof fn lemma_comp_antisym<T, C: Comparator<T>, TB: TieBreaker>(
    c: C,
    tb: TB,
    sm: Seq<OptSlot<T>>,
    pa: int,
    pb: int,
)
    requires
        c.wf(),
        TB::decisive(),
        live(sm, pa),
        live(sm, pb),
        comp_le(c, tb, sm, pa, pb),
        comp_le(c, tb, sm, pb, pa),
    ensures
        pa == pb,
{
    let a = sm[pa].unwrap().0;
    let b = sm[pb].unwrap().0;
    c.lemma_laws(a, b, b);
    TB::lemma_tie_laws(pa, pb, pb);
}

/// How two slots compare depends only on those two slots.
pub proof fn lemma_comp_le_same_heads<T, C: Comparator<T>, TB: TieBreaker>(
    c: C,
    tb: TB,
    sm0: Seq<OptSlot<T>>,
    sm1: Seq<OptSlot<T>>,
    pa: int,
    pb: int,
)
    requires
        live(sm0, pa),
        live(sm0, pb),
        sm1.len() == sm0.len(),
        sm1[pa] == sm0[pa],
        sm1[pb] == sm0[pb],
    ensures
        comp_le(c, tb, sm1, pa, pb) == comp_le(c, tb, sm0, pa, pb),
        live(sm1, pa),
        live(sm1, pb),
{
}

/// A slot array with no live slot holds nothing.
pub proof fn lemma_opt_all_dead<T>(sm: Seq<OptSlot<T>>)
    requires
        forall|p: int| 0 <= p < sm.len() ==> !(#[trigger] sm[p] is Some),
    ensures
        opt_total_count(sm) == 0,
        opt_elems(sm) == Multiset::<T>::empty(),
    decreases sm.len(),
{
    if sm.len() == 0 {
        assert(opt_elems(sm) =~= Multiset::<T>::empty());
    } else {
        assert(!(sm[sm.len() - 1] is Some));
        lemma_opt_all_dead(sm.drop_last());
        assert(opt_elems(sm) =~= Multiset::<T>::empty());
    }
}

/// The number of elements held by the slots a pointer array aims at.
pub open spec fn ptr_total<T>(sm: Seq<OptSlot<T>>, ps: Seq<usize>) -> int
    decreases ps.len(),
{
    if ps.len() == 0 {
        0
    } else {
        ptr_total(sm, ps.drop_last()) + opt_slot_count(sm[ps.last() as int])
    }
}

/// The pointer-indexed count only reads the slots the pointers aim at.
pub proof fn lemma_ptr_total_same<T>(sm0: Seq<OptSlot<T>>, sm1: Seq<OptSlot<T>>, ps: Seq<usize>)
    requires
        forall|i: int|
            0 <= i < ps.len() ==> sm0[(#[trigger] ps[i]) as int] == sm1[ps[i] as int],
    ensures
        ptr_total(sm0, ps) == ptr_total(sm1, ps),
    decreases ps.len(),
{
    if ps.len() > 0 {
        lemma_ptr_total_same(sm0, sm1, ps.drop_last());
    }
}

/// When the pointers and the live slots are in bijection, the
/// pointer-indexed count equals the whole state's count.
pub proof fn lemma_ptr_total_eq<T>(sm: Seq<OptSlot<T>>, ps: Seq<usize>)
    requires
        forall|i: int| 0 <= i < ps.len() ==> live(sm, (#[trigger] ps[i]) as int),
        forall|i: int, j: int|
            0 <= i < ps.len() && 0 <= j < ps.len() && i != j ==> ps[i] != ps[j],
        forall|p: int|
            live(sm, p) ==> exists|i: int| 0 <= i < ps.len() && (#[trigger] ps[i]) as int == p,
    ensures
        ptr_total(sm, ps) == opt_total_count(sm),
    decreases ps.len(),
{
    if ps.len() == 0 {
        assert forall|p: int| 0 <= p < sm.len() implies !(#[trigger] sm[p] is Some) by {
            if sm[p] is Some {
                assert(live(sm, p));
            }
        }
        lemma_opt_all_dead(sm);
    } else {
        let q = ps.last() as int;
        let ps2 = ps.drop_last();
        let sm2 = sm.update(q, Option::<SlotModel<T>>::None);
        assert forall|i: int| 0 <= i < ps2.len() implies live(sm2, (#[trigger] ps2[i]) as int) by {
            assert(ps2[i] == ps[i]);
            assert(ps[i] != ps[ps.len() - 1]);
        }
        assert forall|p: int| live(sm2, p) implies exists|i: int|
            0 <= i < ps2.len() && (#[trigger] ps2[i]) as int == p by {
            assert(live(sm, p));
            let i0 = choose|i: int| 0 <= i < ps.len() && (#[trigger] ps[i]) as int == p;
            assert(p != q);
            assert(i0 != ps.len() - 1);
            assert(ps2[i0] as int == p);
        }
        lemma_ptr_total_eq(sm2, ps2);
        lemma_ptr_total_same(sm, sm2, ps2);
        lemma_opt_split_at(sm, q);
        lemma_opt_split_at(sm2, q);
        assert(sm2.take(q) =~= sm.take(q));
        assert(sm2.skip(q + 1) =~= sm.skip(q + 1));
    }
}

/// `m1` is `m0` with one live slot, holding head `v` and remainder `rest`,
/// removed; which slot is not specified.
pub open spec fn removed_some_slot<T>(
    m0: Seq<OptSlot<T>>,
    m1: Seq<OptSlot<T>>,
    v: T,
    rest: Seq<T>,
) -> bool {
    exists|p: int|
        {
            &&& #[trigger] live(m0, p)
            &&& v == m0[p].unwrap().0
            &&& rest == m0[p].unwrap().1
            &&& m1 == m0.update(p, Option::<SlotModel<T>>::None)
        }
}

/// Position `p` holds the slot the heap engine emits from next: live, and
/// composite-lax against every live slot.
pub open spec fn is_min_ptr<T, C: Comparator<T>, TB: TieBreaker>(
    c: C,
    tb: TB,
    sm: Seq<OptSlot<T>>,
    p: int,
) -> bool {
    &&& live(sm, p)
    &&& forall|q: int| #[trigger] live(sm, q) ==> comp_le(c, tb, sm, p, q)
}

/// The position the heap engine emits from next.
pub open spec fn min_ptr<T, C: Comparator<T>, TB: TieBreaker>(
    c: C,
    tb: TB,
    sm: Seq<OptSlot<T>>,
) -> int {
    choose|p: int| is_min_ptr(c, tb, sm, p)
}

/// For a well-formed comparator, some live slot is composite-minimal among
/// the live slots at positions `i` and beyond.
proof fn lemma_min_exists_from<T, C: Comparator<T>, TB: TieBreaker>(
    c: C,
    tb: TB,
    sm: Seq<OptSlot<T>>,
    i: int,
)
    requires
        c.wf(),
        0 <= i,
        exists|p: int| i <= p && #[trigger] live(sm, p),
    ensures
        exists|p: int|
            {
                &&& i <= p
                &&& #[trigger] live(sm, p)
                &&& forall|q: int| i <= q && #[trigger] live(sm, q) ==> comp_le(c, tb, sm, p, q)
            },
    decreases sm.len() - i,
{
    let w = choose|p: int| i <= p && #[trigger] live(sm, p);
    if live(sm, i) {
        if exists|p: int| i + 1 <= p && #[trigger] live(sm, p) {
            lemma_min_exists_from(c, tb, sm, i + 1);
            let p2 = choose|p: int|
                {
                    &&& i + 1 <= p
                    &&& #[trigger] live(sm, p)
                    &&& forall|q: int|
                        i + 1 <= q && #[trigger] live(sm, q) ==> comp_le(c, tb, sm, p, q)
                };
            lemma_comp_total(c, tb, sm, i, p2);
            if comp_le(c, tb, sm, i, p2) {
                lemma_comp_refl(c, tb, sm, i);
                assert forall|q: int|
                    i <= q && #[trigger] live(sm, q) implies comp_le(c, tb, sm, i, q) by {
                    if q > i {
                        lemma_comp_trans(c, tb, sm, i, p2, q);
                    }
                }
            } else {
                assert forall|q: int|
                    i <= q && #[trigger] live(sm, q) implies comp_le(c, tb, sm, p2, q) by {
                    if q == i {
                        assert(comp_le(c, tb, sm, p2, i));
                    }
                }
            }
        } else {
            lemma_comp_refl(c, tb, sm, i);
            assert forall|q: int|
                i <= q && #[trigger] live(sm, q) implies comp_le(c, tb, sm, i, q) by {
                if q > i {
                    assert(i + 1 <= q && live(sm, q));
                }
            }
        }
    } else {
        assert(i + 1 <= w && live(sm, w));
        lemma_min_exists_from(c, tb, sm, i + 1);
        let p2 = choose|p: int|
            {
                &&& i + 1 <= p
                &&& #[trigger] live(sm, p)
                &&& forall|q: int|
                    i + 1 <= q && #[trigger] live(sm, q) ==> comp_le(c, tb, sm, p, q)
            };
        assert forall|q: int|
            i <= q && #[trigger] live(sm, q) implies comp_le(c, tb, sm, p2, q) by {
            assert(q != i);
        }
    }
}

/// For a well-formed comparator, a nonempty merge has a composite-minimal
/// live slot.
pub proof fn lemma_min_exists<T, C: Comparator<T>, TB: TieBreaker>(
    c: C,
    tb: TB,
    sm: Seq<OptSlot<T>>,
    w: int,
)
    requires
        c.wf(),
        live(sm, w),
    ensures
        exists|p: int| #[trigger] is_min_ptr(c, tb, sm, p),
{
    lemma_min_exists_from(c, tb, sm, 0);
    let p = choose|p: int|
        {
            &&& 0 <= p
            &&& #[trigger] live(sm, p)
            &&& forall|q: int| 0 <= q && #[trigger] live(sm, q) ==> comp_le(c, tb, sm, p, q)
        };
    assert(is_min_ptr(c, tb, sm, p));
}

/// For a well-formed comparator and a decisive tie-breaker, the minimal
/// live slot is unique.
pub proof fn lemma_min_unique<T, C: Comparator<T>, TB: TieBreaker>(
    c: C,
    tb: TB,
    sm: Seq<OptSlot<T>>,
    pa: int,
    pb: int,
)
    requires
        c.wf(),
        TB::decisive(),
        is_min_ptr(c, tb, sm, pa),
        is_min_ptr(c, tb, sm, pb),
    ensures
        pa == pb,
{
    lemma_comp_antisym(c, tb, sm, pa, pb);
}

/// The canonical output of the heap engine: at every step, emit the head
/// of the composite-minimal live slot, then advance that slot.  Defined
/// whenever the comparator is well-formed; for a decisive tie-breaker the
/// minimal slot is unique and the sequence fully pins the output down.
pub open spec fn heap_merge_seq<T, C: Comparator<T>, TB: TieBreaker>(
    c: C,
    tb: TB,
    sm: Seq<OptSlot<T>>,
) -> Seq<T>
    decreases opt_total_count(sm),
    via heap_merge_seq_decreases::<T, C, TB>
{
    if exists|p: int| #[trigger] is_min_ptr(c, tb, sm, p) {
        let p = min_ptr(c, tb, sm);
        seq![sm[p].unwrap().0] + heap_merge_seq(c, tb, advance_slot(sm, p))
    } else {
        Seq::empty()
    }
}

#[via_fn]
proof fn heap_merge_seq_decreases<T, C: Comparator<T>, TB: TieBreaker>(
    c: C,
    tb: TB,
    sm: Seq<OptSlot<T>>,
) {
    if exists|p: int| #[trigger] is_min_ptr(c, tb, sm, p) {
        let p = min_ptr(c, tb, sm);
        assert(is_min_ptr(c, tb, sm, p));
        lemma_advance_slot(sm, p);
    }
}

/// One canonical heap step, for the unique minimal slot.
pub proof fn lemma_heap_merge_unfold<T, C: Comparator<T>, TB: TieBreaker>(
    c: C,
    tb: TB,
    sm: Seq<OptSlot<T>>,
    p: int,
)
    requires
        c.wf(),
        TB::decisive(),
        is_min_ptr(c, tb, sm, p),
    ensures
        heap_merge_seq(c, tb, sm) == seq![sm[p].unwrap().0] + heap_merge_seq(
            c,
            tb,
            advance_slot(sm, p),
        ),
{
    let p0 = min_ptr(c, tb, sm);
    assert(is_min_ptr(c, tb, sm, p0));
    lemma_min_unique(c, tb, sm, p, p0);
}

} // verus!
