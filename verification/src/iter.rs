//! The index-based merge engine.
//!
//! [`MergedIter`] keeps one `(head, rest)` pair per live input in a growable
//! array, in insertion order, together with two cursors: `min_idx`, the
//! position whose head the next emission takes, and `next_min_idx`, the
//! position of the runner-up head.  With stable tie-breaking the array keeps
//! insertion order when an input leaves (`remove`), and the cursors always
//! point at the *earliest* minimal heads, so equal heads are emitted in
//! insertion order; with arbitrary tie-breaking the last pair is swapped
//! into the hole instead.
//!
//! The engine's state is modelled by [`MergedIter::model`], the sequence of
//! live `(head, remaining)` pairs; every mutation is pinned to a model
//! transition from [`crate::model`], and, for a well-formed comparator under
//! stable tie-breaking, the emitted stream is the canonical merge sequence.

use vstd::prelude::*;
use vstd::multiset::Multiset;
use vstd::std_specs::cmp::PartialEqSpec;
use core::cmp::Ordering;
use crate::comparators::{
    lemma_cmp_refl, lemma_le_lt_trans, lemma_lt_le_trans, ord_le, ord_lt, Comparator,
};
use crate::model::{advance_at, min_rank, total_count, SlotModel};
use crate::source::Source;

verus! {

/// An iterator that pulls the smallest item from multiple inputs.
///
/// `MergedIter` is created by [`Merged`](crate::Merged).  It merges items
/// from several inputs based on a comparator, emitting at every step the
/// smallest live head.
#[derive(Debug, Clone)]
pub struct MergedIter<const STABLE_TIE_BREAKING: bool, I: Source, C> {
    peek_iters: Vec<(I::Item, I)>,
    cmp: C,
    min_idx: usize,
    next_min_idx: usize,
}

impl<const STABLE_TIE_BREAKING: bool, I: Source, C: Comparator<I::Item>> MergedIter<
    STABLE_TIE_BREAKING,
    I,
    C,
> {
    /// The engine's mathematical state: its live `(head, remaining)` pairs,
    /// in storage order.
    pub closed spec fn model(&self) -> Seq<SlotModel<I::Item>> {
        self.peek_iters@.map_values(|p: (I::Item, I)| (p.0, p.1.remaining()))
    }

    /// The comparator the engine currently orders by.
    pub closed spec fn cmp_of(&self) -> C {
        self.cmp
    }

    /// The position the next emission takes its element from.
    pub closed spec fn front(&self) -> int {
        self.min_idx as int
    }

    /// `min_idx` is a position below `n` whose head, for a well-formed
    /// comparator, is minimal among the first `n` — and, under stable
    /// tie-breaking, strictly below every head before it.
    closed spec fn min_ok_upto(&self, n: int) -> bool {
        let m = self.model();
        let mi = self.min_idx as int;
        &&& self.min_idx < n
        &&& self.cmp.wf() ==> {
            &&& forall|j: int|
                0 <= j < n ==> ord_le(#[trigger] self.cmp.cmp_spec(m[mi].0, m[j].0))
            &&& STABLE_TIE_BREAKING ==> forall|j: int|
                0 <= j < mi ==> ord_lt(#[trigger] self.cmp.cmp_spec(m[mi].0, m[j].0))
        }
    }

    /// `next_min_idx` is a position below `n` other than `min_idx` whose
    /// head, for a well-formed comparator, is minimal among the first `n`
    /// positions other than `min_idx` — and, under stable tie-breaking,
    /// strictly below every such head before it.
    closed spec fn next_ok_upto(&self, n: int) -> bool {
        let m = self.model();
        let mi = self.min_idx as int;
        let ni = self.next_min_idx as int;
        &&& self.next_min_idx < n
        &&& self.next_min_idx != self.min_idx
        &&& self.cmp.wf() ==> {
            &&& forall|j: int|
                0 <= j < n && j != mi ==> ord_le(#[trigger] self.cmp.cmp_spec(m[ni].0, m[j].0))
            &&& STABLE_TIE_BREAKING ==> forall|j: int|
                0 <= j < ni && j != mi ==> ord_lt(
                    #[trigger] self.cmp.cmp_spec(m[ni].0, m[j].0),
                )
        }
    }

    /// The cursor invariants over the first `n` storage positions.
    closed spec fn cursors_ok_upto(&self, n: int) -> bool {
        &&& self.min_ok_upto(n)
        &&& n >= 2 ==> self.next_ok_upto(n)
    }

    /// Well-formedness of the whole engine state.
    pub closed spec fn inv(&self) -> bool {
        &&& self.cmp.callable()
        &&& self.model().len() > 0 ==> self.cursors_ok_upto(self.model().len() as int)
    }

    pub(crate) fn new(cmp: C) -> (s: Self)
        requires
            cmp.callable(),
        ensures
            s.inv(),
            s.model() == Seq::<SlotModel<I::Item>>::empty(),
            s.cmp_of() == cmp,
    {
        let s = MergedIter { peek_iters: Vec::new(), cmp, min_idx: 0, next_min_idx: 1 };
        proof {
            assert(s.model() =~= Seq::<SlotModel<I::Item>>::empty());
        }
        s
    }

    /// Compares two peeked items by storage position.
    fn cmp_idx(&self, idx_a: usize, idx_b: usize) -> (r: Ordering)
        requires
            self.cmp.callable(),
            idx_a < self.model().len(),
            idx_b < self.model().len(),
        ensures
            self.cmp_of().wf() ==> r == self.cmp_of().cmp_spec(
                self.model()[idx_a as int].0,
                self.model()[idx_b as int].0,
            ),
    {
        self.cmp.compare(&self.peek_iters[idx_a].0, &self.peek_iters[idx_b].0)
    }

    /// Sets the cursors for a state whose first two positions are live.
    ///
    /// After the call the cursor invariants hold over the first two
    /// positions.
    fn upd_idx_2(&mut self)
        requires
            old(self).cmp.callable(),
            old(self).model().len() >= 2,
        ensures
            final(self).peek_iters == old(self).peek_iters,
            final(self).cmp == old(self).cmp,
            final(self).cursors_ok_upto(2),
    {
        proof {
            if self.cmp.wf() {
                lemma_cmp_refl(&self.cmp, self.model()[0].0);
                lemma_cmp_refl(&self.cmp, self.model()[1].0);
                self.cmp.lemma_laws(self.model()[0].0, self.model()[1].0, self.model()[0].0);
            }
        }
        let o = self.cmp_idx(0, 1);
        if !(matches!(o, Ordering::Greater)) {
            self.min_idx = 0;
            self.next_min_idx = 1;
        } else {
            self.min_idx = 1;
            self.next_min_idx = 0;
        }
    }

    /// Folds the freshly pushed position `new_item_idx` into cursors that
    /// are already correct for the positions before it.
    fn upd_idx_n(&mut self, new_item_idx: usize)
        requires
            old(self).cmp.callable(),
            2 <= new_item_idx < old(self).model().len(),
            old(self).cursors_ok_upto(new_item_idx as int),
        ensures
            final(self).peek_iters == old(self).peek_iters,
            final(self).cmp == old(self).cmp,
            final(self).cursors_ok_upto(new_item_idx + 1),
    {
        let ghost m = self.model();
        let ghost k = new_item_idx as int;
        let ghost mi = self.min_idx as int;
        let ghost ni = self.next_min_idx as int;
        let o = self.cmp_idx(new_item_idx, self.next_min_idx);
        if !(matches!(o, Ordering::Less)) {
            proof {
                if self.cmp.wf() {
                    // The new head is at least the runner-up, hence at least
                    // the minimum; both cursors stay correct.
                    self.cmp.lemma_laws(m[k].0, m[ni].0, m[k].0);
                    self.cmp.lemma_laws(m[mi].0, m[ni].0, m[k].0);
                    assert forall|j: int|
                        0 <= j < k + 1 && j != mi implies ord_le(
                        #[trigger] self.cmp.cmp_spec(m[ni].0, m[j].0),
                    ) by {
                        if j == k {
                            self.cmp.lemma_laws(m[ni].0, m[k].0, m[k].0);
                        }
                    }
                }
            }
            return ;
        }
        // The new head is strictly below the runner-up.
        let o2 = self.cmp_idx(new_item_idx, self.min_idx);
        if matches!(o2, Ordering::Less) {
            // new < min <= next_min: the new position becomes the minimum.
            self.next_min_idx = self.min_idx;
            self.min_idx = new_item_idx;
            proof {
                if self.cmp.wf() {
                    assert forall|j: int|
                        0 <= j < k + 1 && j != k implies ord_lt(
                        #[trigger] self.cmp.cmp_spec(m[k].0, m[j].0),
                    ) by {
                        if j != mi {
                            lemma_lt_le_trans(&self.cmp, m[k].0, m[mi].0, m[j].0);
                        }
                    }
                    assert forall|j: int|
                        0 <= j < k + 1 implies ord_le(
                        #[trigger] self.cmp.cmp_spec(m[k].0, m[j].0),
                    ) by {
                        if j == k {
                            lemma_cmp_refl(&self.cmp, m[k].0);
                        }
                    }
                    assert forall|j: int|
                        0 <= j < k + 1 && j != k implies ord_le(
                        #[trigger] self.cmp.cmp_spec(m[mi].0, m[j].0),
                    ) by {}
                }
            }
        } else {
            // min <= new < next_min: the new position becomes the runner-up.
            self.next_min_idx = new_item_idx;
            proof {
                if self.cmp.wf() {
                    assert forall|j: int|
                        0 <= j < k + 1 && j != mi implies ord_le(
                        #[trigger] self.cmp.cmp_spec(m[k].0, m[j].0),
                    ) by {
                        if j == k {
                            lemma_cmp_refl(&self.cmp, m[k].0);
                        } else {
                            lemma_lt_le_trans(&self.cmp, m[k].0, m[ni].0, m[j].0);
                        }
                    }
                    assert forall|j: int|
                        0 <= j < k && j != mi implies ord_lt(
                        #[trigger] self.cmp.cmp_spec(m[k].0, m[j].0),
                    ) by {
                        lemma_lt_le_trans(&self.cmp, m[k].0, m[ni].0, m[j].0);
                    }
                    assert forall|j: int|
                        0 <= j < k + 1 implies ord_le(
                        #[trigger] self.cmp.cmp_spec(m[mi].0, m[j].0),
                    ) by {
                        if j == k {
                            // min <= next_min and new >= min because
                            // `is_lt` failed.
                            self.cmp.lemma_laws(m[k].0, m[mi].0, m[j].0);
                        }
                    }
                }
            }
        }
    }
    /// After the front and runner-up cursors have been swapped because the
    /// head at the old front ties with an earlier runner-up, makes the
    /// runner-up cursor the earliest position tying with the new minimum.
    fn rescan_ties(&mut self)
        requires
            old(self).cmp.callable(),
            STABLE_TIE_BREAKING,
            old(self).model().len() >= 2,
            old(self).min_idx < old(self).next_min_idx,
            (old(self).next_min_idx as int) < old(self).model().len(),
            old(self).cmp.wf() ==> {
                let m = old(self).model();
                let a = old(self).min_idx as int;
                let b = old(self).next_min_idx as int;
                &&& forall|j: int|
                    0 <= j < m.len() ==> ord_le(
                        #[trigger] old(self).cmp.cmp_spec(m[a].0, m[j].0),
                    )
                &&& forall|j: int|
                    0 <= j < a ==> ord_lt(#[trigger] old(self).cmp.cmp_spec(m[a].0, m[j].0))
                &&& old(self).cmp.cmp_spec(m[b].0, m[a].0) == Ordering::Equal
            },
        ensures
            final(self).peek_iters == old(self).peek_iters,
            final(self).cmp == old(self).cmp,
            final(self).min_idx == old(self).min_idx,
            final(self).next_ok_upto(final(self).model().len() as int),
    {
        let ghost m = self.model();
        let ghost n = m.len() as int;
        let ghost a = self.min_idx as int;
        let ghost b = self.next_min_idx as int;
        let limit = self.next_min_idx;
        let mut i: usize = self.min_idx + 1;
        while i < limit
            invariant
                self.peek_iters == old(self).peek_iters,
                self.cmp == old(self).cmp,
                self.cmp.callable(),
                self.min_idx == old(self).min_idx,
                self.next_min_idx == limit,
                m == self.model(),
                n == m.len() as int,
                a == self.min_idx as int,
                b == limit as int,
                0 <= a < b < n,
                a < i as int <= b,
                self.cmp.wf() ==> forall|j: int|
                    a < j < i as int ==> #[trigger] self.cmp.cmp_spec(m[a].0, m[j].0)
                        == Ordering::Less,
                self.cmp.wf() ==> {
                    &&& forall|j: int|
                        0 <= j < n ==> ord_le(#[trigger] self.cmp.cmp_spec(m[a].0, m[j].0))
                    &&& forall|j: int|
                        0 <= j < a ==> ord_lt(#[trigger] self.cmp.cmp_spec(m[a].0, m[j].0))
                    &&& self.cmp.cmp_spec(m[b].0, m[a].0) == Ordering::Equal
                },
            decreases limit - i,
        {
            let o = self.cmp_idx(i, self.min_idx);
            if matches!(o, Ordering::Equal) {
                self.next_min_idx = i;
                proof {
                    if self.cmp.wf() {
                        let k = i as int;
                        self.cmp.lemma_laws(m[k].0, m[a].0, m[a].0);
                        assert forall|j: int|
                            0 <= j < n && j != a implies ord_le(
                            #[trigger] self.cmp.cmp_spec(m[k].0, m[j].0),
                        ) by {
                            assert(ord_le(self.cmp.cmp_spec(m[a].0, m[j].0)));
                            self.cmp.lemma_laws(m[k].0, m[a].0, m[j].0);
                        }
                        assert forall|j: int|
                            0 <= j < k && j != a implies ord_lt(
                            #[trigger] self.cmp.cmp_spec(m[k].0, m[j].0),
                        ) by {
                            assert(ord_lt(self.cmp.cmp_spec(m[a].0, m[j].0)));
                            lemma_le_lt_trans(&self.cmp, m[k].0, m[a].0, m[j].0);
                        }
                    }
                }
                return ;
            }
            proof {
                if self.cmp.wf() {
                    // Not a tie, and the minimum is lax against it, so the
                    // minimum is strictly below it.
                    self.cmp.lemma_laws(m[a].0, m[i as int].0, m[i as int].0);
                }
            }
            i = i + 1;
        }
        proof {
            if self.cmp.wf() {
                self.cmp.lemma_laws(m[b].0, m[a].0, m[a].0);
                assert forall|j: int|
                    0 <= j < n && j != a implies ord_le(
                    #[trigger] self.cmp.cmp_spec(m[b].0, m[j].0),
                ) by {
                    assert(ord_le(self.cmp.cmp_spec(m[a].0, m[j].0)));
                    self.cmp.lemma_laws(m[b].0, m[a].0, m[j].0);
                }
                assert forall|j: int|
                    0 <= j < b && j != a implies ord_lt(
                    #[trigger] self.cmp.cmp_spec(m[b].0, m[j].0),
                ) by {
                    assert(ord_lt(self.cmp.cmp_spec(m[a].0, m[j].0)));
                    lemma_le_lt_trans(&self.cmp, m[b].0, m[a].0, m[j].0);
                }
            }
        }
    }

    /// Emits the element at the front cursor and advances that input,
    /// restoring the cursor invariants.
    fn produce_next(&mut self) -> (res: I::Item)
        requires
            old(self).inv(),
            old(self).model().len() >= 1,
        ensures
            final(self).inv(),
            final(self).cmp == old(self).cmp,
            res == old(self).model()[old(self).front()].0,
            final(self).model() == advance_at(
                old(self).model(),
                old(self).front(),
                STABLE_TIE_BREAKING,
            ),
    {
        let ghost m = old(self).model();
        let ghost n = m.len() as int;
        let ghost mi = old(self).front();
        let idx = self.min_idx;
        let slot = vstd::std_specs::vec::vec_index_mut(&mut self.peek_iters, idx);
        let stepped = slot.1.next();
        match stepped {
            Option::Some(new_head) => {
                let mut taken = new_head;
                core::mem::swap(&mut slot.0, &mut taken);
                proof {
                    assert(self.model() =~= advance_at(m, mi, STABLE_TIE_BREAKING));
                }
                if self.peek_iters.len() > 1 {
                    proof {
                        let m2 = self.model();
                        if self.cmp.wf() {
                            let ni = self.next_min_idx as int;
                            assert forall|j: int|
                                0 <= j < n && j != mi implies ord_le(
                                #[trigger] self.cmp.cmp_spec(m2[ni].0, m2[j].0),
                            ) by {
                                assert(m2[j] == m[j]);
                                assert(m2[ni] == m[ni]);
                                assert(ord_le(old(self).cmp.cmp_spec(m[ni].0, m[j].0)));
                            }
                            if STABLE_TIE_BREAKING {
                                assert forall|j: int|
                                    0 <= j < self.next_min_idx as int && j != mi implies ord_lt(
                                    #[trigger] self.cmp.cmp_spec(m2[self.next_min_idx as int].0, m2[j].0),
                                ) by {
                                    let ni = self.next_min_idx as int;
                                    assert(m2[j] == m[j]);
                                    assert(m2[ni] == m[ni]);
                                    assert(ord_lt(old(self).cmp.cmp_spec(m[ni].0, m[j].0)));
                                }
                            }
                        }
                        assert(self.next_ok_upto(n));
                    }
                    self.update_after_peek();
                } else {
                    proof {
                        if self.cmp.wf() {
                            lemma_cmp_refl(&self.cmp, self.model()[0].0);
                        }
                    }
                }
                taken
            },
            Option::None => {
                proof {
                    assert(self.model() =~= m);
                    assert(m[mi].1.len() == 0);
                }
                let r = self.pop_min();
                self.find_next_min();
                proof {
                    assert(final(self).model() =~= advance_at(m, mi, STABLE_TIE_BREAKING));
                }
                r
            },
        }
    }

    /// Emits the smallest head, or reports exhaustion.  Once the engine has
    /// reported exhaustion it is left untouched, so it stays exhausted.
    pub fn next(&mut self) -> (r: Option<I::Item>)
        requires
            old(self).inv(),
        ensures
            final(self).inv(),
            final(self).cmp_of() == old(self).cmp_of(),
            match r {
                Option::None => old(self).model().len() == 0 && *final(self) == *old(self),
                Option::Some(v) => {
                    let m = old(self).model();
                    let k = old(self).front();
                    &&& m.len() > 0
                    &&& 0 <= k < m.len()
                    &&& v == m[k].0
                    &&& final(self).model() == advance_at(m, k, STABLE_TIE_BREAKING)
                    &&& old(self).cmp_of().wf() ==> forall|j: int|
                        0 <= j < m.len() ==> ord_le(
                            #[trigger] old(self).cmp_of().cmp_spec(v, m[j].0),
                        )
                    &&& old(self).cmp_of().wf() && STABLE_TIE_BREAKING ==> {
                        &&& k == min_rank(old(self).cmp_of(), m)
                        &&& v == crate::model::merge_seq(old(self).cmp_of(), m)[0]
                        &&& crate::model::merge_seq(old(self).cmp_of(), final(self).model())
                            == crate::model::merge_seq(old(self).cmp_of(), m).drop_first()
                    }
                },
            },
    {
        if self.peek_iters.len() == 0 {
            return Option::None;
        }
        proof {
            if self.cmp.wf() && STABLE_TIE_BREAKING {
                self.lemma_front_is_min_rank();
                crate::model::lemma_merge_seq_unfold(self.cmp, self.model());
            }
        }
        Option::Some(self.produce_next())
    }

    /// Returns a reference to the element the next emission would return,
    /// without consuming it.
    pub fn peek(&self) -> (r: Option<&I::Item>)
        requires
            self.inv(),
        ensures
            (r is None) <==> self.model().len() == 0,
            self.model().len() > 0 ==> {
                &&& 0 <= self.front() < self.model().len()
                &&& r matches Option::Some(v) && *v == self.model()[self.front()].0
            },
            self.model().len() > 0 && self.cmp_of().wf() ==> forall|j: int|
                0 <= j < self.model().len() ==> ord_le(
                    #[trigger] self.cmp_of().cmp_spec(self.model()[self.front()].0, self.model()[j].0),
                ),
            self.model().len() > 0 && self.cmp_of().wf() && STABLE_TIE_BREAKING
                ==> self.front() == min_rank(self.cmp_of(), self.model()),
    {
        if self.min_idx >= self.peek_iters.len() {
            return Option::None;
        }
        proof {
            if self.cmp.wf() && STABLE_TIE_BREAKING {
                self.lemma_front_is_min_rank();
            }
        }
        Option::Some(&self.peek_iters[self.min_idx].0)
    }

    /// Adds a single input to the merge.
    ///
    /// The new input is integrated into the ordering, so the output stays
    /// correct from the next emission on.  Empty inputs are ignored and do
    /// not affect the merge state.
    pub fn add_iter(&mut self, iter: I)
        requires
            old(self).inv(),
        ensures
            final(self).inv(),
            final(self).cmp_of() == old(self).cmp_of(),
            iter.remaining().len() == 0 ==> final(self).model() == old(self).model(),
            iter.remaining().len() > 0 ==> final(self).model() == old(self).model().push(
                (iter.remaining()[0], iter.remaining().drop_first()),
            ),
    {
        let ghost orig = iter.remaining();
        let mut iter = iter;
        let peeked = iter.next();
        match peeked {
            Option::None => {},
            Option::Some(v) => {
                let new_item_idx = self.peek_iters.len();
                self.peek_iters.push((v, iter));
                proof {
                    assert(self.model() =~= old(self).model().push(
                        (orig[0], orig.drop_first()),
                    ));
                }
                if new_item_idx == 0 {
                    self.min_idx = 0;
                    self.next_min_idx = 1;
                    proof {
                        if self.cmp.wf() {
                            lemma_cmp_refl(&self.cmp, self.model()[0].0);
                        }
                    }
                } else if new_item_idx == 1 {
                    self.upd_idx_2();
                } else {
                    proof {
                        let m = self.model();
                        let k = new_item_idx as int;
                        let mi = self.min_idx as int;
                        let ni = self.next_min_idx as int;
                        if self.cmp.wf() {
                            assert forall|j: int|
                                0 <= j < k implies ord_le(
                                #[trigger] self.cmp.cmp_spec(m[mi].0, m[j].0),
                            ) by {
                                assert(m[j] == old(self).model()[j]);
                                assert(ord_le(old(self).cmp.cmp_spec(
                                    old(self).model()[mi].0,
                                    old(self).model()[j].0,
                                )));
                            }
                            if STABLE_TIE_BREAKING {
                                assert forall|j: int|
                                    0 <= j < mi implies ord_lt(
                                    #[trigger] self.cmp.cmp_spec(m[mi].0, m[j].0),
                                ) by {
                                    assert(m[j] == old(self).model()[j]);
                                    assert(ord_lt(old(self).cmp.cmp_spec(
                                        old(self).model()[mi].0,
                                        old(self).model()[j].0,
                                    )));
                                }
                            }
                            assert forall|j: int|
                                0 <= j < k && j != mi implies ord_le(
                                #[trigger] self.cmp.cmp_spec(m[ni].0, m[j].0),
                            ) by {
                                assert(m[j] == old(self).model()[j]);
                                assert(ord_le(old(self).cmp.cmp_spec(
                                    old(self).model()[ni].0,
                                    old(self).model()[j].0,
                                )));
                            }
                            if STABLE_TIE_BREAKING {
                                assert forall|j: int|
                                    0 <= j < ni && j != mi implies ord_lt(
                                    #[trigger] self.cmp.cmp_spec(m[ni].0, m[j].0),
                                ) by {
                                    assert(m[j] == old(self).model()[j]);
                                    assert(ord_lt(old(self).cmp.cmp_spec(
                                        old(self).model()[ni].0,
                                        old(self).model()[j].0,
                                    )));
                                }
                            }
                        }
                        assert(self.cursors_ok_upto(k));
                    }
                    self.upd_idx_n(new_item_idx);
                }
            },
        }
    }

    /// Returns the next element if it satisfies a predicate, consuming it
    /// only on success.
    pub fn next_if<F: FnOnce(&I::Item) -> bool>(&mut self, func: F) -> (r: Option<I::Item>)
        requires
            old(self).inv(),
            forall|x: &I::Item| #[trigger] call_requires(func, (x,)),
        ensures
            final(self).inv(),
            final(self).cmp_of() == old(self).cmp_of(),
            match r {
                Option::None => {
                    &&& *final(self) == *old(self)
                    &&& old(self).model().len() > 0 ==> call_ensures(
                        func,
                        (&old(self).model()[old(self).front()].0,),
                        false,
                    )
                },
                Option::Some(v) => {
                    let m = old(self).model();
                    let k = old(self).front();
                    &&& m.len() > 0
                    &&& 0 <= k < m.len()
                    &&& v == m[k].0
                    &&& call_ensures(func, (&m[k].0,), true)
                    &&& final(self).model() == advance_at(m, k, STABLE_TIE_BREAKING)
                    &&& old(self).cmp_of().wf() && STABLE_TIE_BREAKING ==> k == min_rank(
                        old(self).cmp_of(),
                        m,
                    )
                },
            },
    {
        if self.peek_iters.len() == 0 {
            return Option::None;
        }
        let keep = func(&self.peek_iters[self.min_idx].0);
        if !keep {
            return Option::None;
        }
        proof {
            if self.cmp.wf() && STABLE_TIE_BREAKING {
                self.lemma_front_is_min_rank();
            }
        }
        Option::Some(self.produce_next())
    }

    /// Returns the next element if it is equal to `expected`, consuming it
    /// only on success.
    pub fn next_if_eq<U>(&mut self, expected: &U) -> (r: Option<I::Item>) where
        I::Item: PartialEq<U>,

        requires
            old(self).inv(),
        ensures
            final(self).inv(),
            final(self).cmp_of() == old(self).cmp_of(),
            match r {
                Option::None => {
                    &&& *final(self) == *old(self)
                    &&& old(self).model().len() > 0 ==> (crate::comparators::eq_obeyed_for(
                        &old(self).model()[old(self).front()].0,
                        expected,
                    ) ==> !old(self).model()[old(self).front()].0.eq_spec(expected))
                },
                Option::Some(v) => {
                    let m = old(self).model();
                    let k = old(self).front();
                    &&& m.len() > 0
                    &&& 0 <= k < m.len()
                    &&& v == m[k].0
                    &&& crate::comparators::eq_obeyed_for(&v, expected) ==> v.eq_spec(expected)
                    &&& final(self).model() == advance_at(m, k, STABLE_TIE_BREAKING)
                },
            },
    {
        if self.peek_iters.len() == 0 {
            return Option::None;
        }
        let head_matches = self.peek_iters[self.min_idx].0 == *expected;
        if !head_matches {
            return Option::None;
        }
        Option::Some(self.produce_next())
    }

    /// Adds several inputs to the merge at once.  Empty inputs are ignored.
    pub fn add_iters(&mut self, iters: Vec<I>)
        requires
            old(self).inv(),
        ensures
            final(self).inv(),
            final(self).cmp_of() == old(self).cmp_of(),
            final(self).model() == old(self).model() + slots_of(iters@),
    {
        let ghost all = iters@;
        let mut iters = iters;
        let ghost mut k: int = 0;
        proof {
            assert(self.model() =~= old(self).model() + slots_of(all.take(0)));
        }
        while iters.len() > 0
            invariant
                self.inv(),
                self.cmp_of() == old(self).cmp_of(),
                0 <= k,
                k + iters@.len() == all.len(),
                iters@ == all.skip(k),
                self.model() == old(self).model() + slots_of(all.take(k)),
            decreases iters@.len(),
        {
            let it = iters.remove(0);
            self.add_iter(it);
            proof {
                assert(all.take(k).push(all[k]) =~= all.take(k + 1));
                lemma_slots_of_push(all.take(k), all[k]);
                assert(self.model() =~= old(self).model() + slots_of(all.take(k + 1)));
                assert(iters@ =~= all.skip(k + 1));
                k = k + 1;
            }
        }
        proof {
            assert(all.take(k) =~= all);
        }
    }

    /// Replaces the comparator, consuming the engine and returning one that
    /// continues the merge over the same inputs under the new ordering.
    pub fn replace_cmp<C2: Comparator<I::Item>>(self, cmp: C2) -> (r: MergedIter<
        STABLE_TIE_BREAKING,
        I,
        C2,
    >)
        requires
            cmp.callable(),
        ensures
            r.inv(),
            r.model() == self.model(),
            r.cmp_of() == cmp,
    {
        let ghost m0 = self.model();
        let MergedIter { peek_iters, .. } = self;
        let mut new = MergedIter { peek_iters, cmp, min_idx: 0, next_min_idx: 1 };
        let len = new.peek_iters.len();
        if len < 2 {
            proof {
                if new.cmp.wf() && len == 1 {
                    lemma_cmp_refl(&new.cmp, new.model()[0].0);
                }
            }
            return new;
        }
        new.upd_idx_2();
        let mut k: usize = 2;
        while k < len
            invariant
                2 <= k <= len,
                len == new.model().len(),
                new.model() == m0,
                new.cmp == cmp,
                new.cmp.callable(),
                new.cursors_ok_upto(k as int),
            decreases len - k,
        {
            new.upd_idx_n(k);
            k = k + 1;
        }
        new
    }

    /// Drains the merge into a vector.  The engine is left empty but
    /// usable: inputs may be added afterwards.
    ///
    /// Whatever the comparator, the result holds exactly the elements the
    /// engine held; for a well-formed comparator under stable tie-breaking
    /// it is exactly the canonical merge sequence.
    pub fn into_vec(&mut self) -> (r: Vec<I::Item>)
        requires
            old(self).inv(),
        ensures
            final(self).inv(),
            final(self).cmp_of() == old(self).cmp_of(),
            final(self).model() == Seq::<SlotModel<I::Item>>::empty(),
            r@.to_multiset() == crate::model::elems(old(self).model()),
            old(self).cmp_of().wf() && STABLE_TIE_BREAKING ==> r@ == crate::model::merge_seq(
                old(self).cmp_of(),
                old(self).model(),
            ),
    {
        broadcast use vstd::seq_lib::group_to_multiset_ensures;

        let ghost m0 = old(self).model();
        let ghost c = old(self).cmp_of();
        let mut res: Vec<I::Item> = Vec::new();
        proof {
            assert(res@.to_multiset().add(crate::model::elems(m0)) =~= crate::model::elems(m0));
            assert(res@ + crate::model::merge_seq(c, m0) =~= crate::model::merge_seq(c, m0));
        }
        loop
            invariant
                m0 == old(self).model(),
                c == old(self).cmp_of(),
                self.inv(),
                self.cmp == c,
                res@.to_multiset().add(crate::model::elems(self.model())) == crate::model::elems(
                    m0,
                ),
                c.wf() && STABLE_TIE_BREAKING ==> res@ + crate::model::merge_seq(
                    c,
                    self.model(),
                ) == crate::model::merge_seq(c, m0),
            decreases total_count(self.model()),
        {
            let len = self.peek_iters.len();
            if len == 0 {
                proof {
                    assert(self.model() =~= Seq::<SlotModel<I::Item>>::empty());
                    assert(crate::model::elems(self.model()) =~= Multiset::<I::Item>::empty());
                    assert(res@.to_multiset() =~= crate::model::elems(m0));
                    if c.wf() && STABLE_TIE_BREAKING {
                        assert(res@ + crate::model::merge_seq(c, self.model()) =~= res@);
                    }
                }
                return res;
            }
            if len == 1 {
                // A single input needs no comparisons: emit its head and
                // copy its tail across.
                let ghost m1 = self.model();
                let ghost res0 = res@;
                let pair = self.peek_iters.pop().unwrap();
                res.push(pair.0);
                let mut it = pair.1;
                let ghost rest = it.remaining();
                let ghost target = res@ + it.remaining();
                proof {
                    assert(m1 =~= seq![(pair.0, rest)]);
                    crate::model::lemma_merge_seq_single(c, (pair.0, rest));
                    crate::model::lemma_singleton_measures((pair.0, rest));
                    assert(self.model() =~= Seq::<SlotModel<I::Item>>::empty());
                }
                loop
                    invariant
                        res@ + it.remaining() == target,
                    ensures
                        res@ == target,
                    decreases it.remaining().len(),
                {
                    match it.next() {
                        Option::Some(v) => {
                            res.push(v);
                            proof {
                                assert(res@ + it.remaining() =~= target);
                            }
                        },
                        Option::None => {
                            proof {
                                assert(res@ =~= target);
                            }
                            break ;
                        },
                    }
                }
                proof {
                    // The output is the earlier emissions followed by the
                    // lone input's head and tail — its canonical merge.
                    assert(res@ =~= (res0 + seq![pair.0]) + rest);
                    vstd::seq_lib::lemma_multiset_commutative(res0 + seq![pair.0], rest);
                    vstd::seq_lib::lemma_multiset_commutative(res0, seq![pair.0]);
                    assert(seq![pair.0] =~= Seq::<I::Item>::empty().push(pair.0));
                    proof_to_multiset_facts::<I::Item>(pair.0);
                    assert(crate::model::elems(self.model()) =~= Multiset::<I::Item>::empty());
                    assert(res@.to_multiset() =~= crate::model::elems(m0));
                    if c.wf() && STABLE_TIE_BREAKING {
                        assert(res@ =~= crate::model::merge_seq(c, m0));
                    }
                }
                return res;
            }
            let ghost mbefore = self.model();
            let ghost fb = self.front();
            let ghost resb = res@;
            proof {
                if c.wf() && STABLE_TIE_BREAKING {
                    self.lemma_front_is_min_rank();
                    crate::model::lemma_merge_seq_unfold(c, mbefore);
                }
                crate::model::lemma_min_from_bounds(c, mbefore, 0);
                crate::model::lemma_advance_at(mbefore, fb, STABLE_TIE_BREAKING);
            }
            let v = self.produce_next();
            res.push(v);
            proof {
                assert(res@ == resb.push(v));
                resb.to_multiset_ensures();
                assert(res@.to_multiset() == resb.to_multiset().insert(v));
                assert(self.model() == advance_at(mbefore, fb, STABLE_TIE_BREAKING));
                assert(crate::model::elems(self.model()).insert(v) == crate::model::elems(
                    mbefore,
                ));
                assert(res@.to_multiset().add(crate::model::elems(self.model()))
                    =~= crate::model::elems(m0));
                if c.wf() && STABLE_TIE_BREAKING {
                    assert(crate::model::merge_seq(c, mbefore) == seq![v] + crate::model::merge_seq(
                        c,
                        self.model(),
                    ));
                    assert(res@ + crate::model::merge_seq(c, self.model())
                        =~= crate::model::merge_seq(c, m0));
                }
            }
        }
    }

    /// The size hints the live inputs currently report.
    pub closed spec fn hints(&self) -> Seq<(usize, Option<usize>)> {
        self.peek_iters@.map_values(|p: (I::Item, I)| p.1.hint_spec())
    }

    /// Bounds on the number of elements left to emit: the live heads plus
    /// the inputs' own bounds.  The lower bound saturates; the upper bound
    /// is absent as soon as one input reports none or the sum overflows.
    /// Both bounds are sound for the elements actually left.
    pub fn size_hint(&self) -> (r: (usize, Option<usize>))
        ensures
            r.0 == crate::model::clamp_usize(
                self.model().len() + crate::model::sum_hint_lowers(self.hints()),
            ),
            r.1 == (if crate::model::all_uppers(self.hints()) && self.model().len()
                + crate::model::sum_hint_uppers(self.hints()) <= usize::MAX {
                Option::Some(
                    (self.model().len() + crate::model::sum_hint_uppers(self.hints())) as usize,
                )
            } else {
                Option::<usize>::None
            }),
            r.0 <= total_count(self.model()),
            r.1 matches Option::Some(u) ==> total_count(self.model()) <= u,
    {
        let len = self.peek_iters.len();
        let ghost m = self.model();
        let ghost hs = self.hints();
        let mut lower: usize = len;
        let mut upper: usize = len;
        let mut has_upper: bool = true;
        let mut i: usize = 0;
        proof {
            assert(hs.take(0) =~= Seq::<(usize, Option<usize>)>::empty());
            assert(m.take(0) =~= Seq::<SlotModel<I::Item>>::empty());
        }
        while i < len
            invariant
                0 <= i <= len,
                len == m.len(),
                m == self.model(),
                hs == self.hints(),
                hs.len() == m.len(),
                lower == crate::model::clamp_usize(
                    len + crate::model::sum_hint_lowers(hs.take(i as int)),
                ),
                lower as int <= len + crate::model::sum_rests(m.take(i as int)),
                has_upper ==> upper as int == len + crate::model::sum_hint_uppers(
                    hs.take(i as int),
                ),
                has_upper ==> crate::model::all_uppers(hs.take(i as int)),
                has_upper ==> crate::model::sum_rests(m.take(i as int))
                    <= crate::model::sum_hint_uppers(hs.take(i as int)),
                !has_upper ==> !(crate::model::all_uppers(hs) && len
                    + crate::model::sum_hint_uppers(hs) <= usize::MAX),
            decreases len - i,
        {
            let hint_i = self.peek_iters[i].1.size_hint();
            let lo_i = hint_i.0;
            let up_i = hint_i.1;
            proof {
                crate::model::lemma_hints_take_step(hs, i as int);
                crate::model::lemma_sum_rests_take_step(m, i as int);
                crate::model::lemma_hint_sums_nonneg(hs.take(i as int));
                assert(hs[i as int] == hint_i);
                assert(m[i as int].1 == self.peek_iters@[i as int].1.remaining());
            }
            if lo_i <= usize::MAX - lower {
                lower = lower + lo_i;
            } else {
                lower = usize::MAX;
            }
            match up_i {
                Option::Some(u) => {
                    if has_upper {
                        if u <= usize::MAX - upper {
                            upper = upper + u;
                        } else {
                            has_upper = false;
                            proof {
                                crate::model::lemma_hint_sums_prefix(hs, i + 1);
                            }
                        }
                    }
                },
                Option::None => {
                    has_upper = false;
                    proof {
                        assert(hs[i as int].1 is None);
                        assert(!crate::model::all_uppers(hs));
                    }
                },
            }
            i = i + 1;
        }
        proof {
            assert(hs.take(len as int) =~= hs);
            assert(m.take(len as int) =~= m);
            crate::model::lemma_total_count_as_sum(m);
            crate::model::lemma_hint_sums_nonneg(hs);
        }
        let r_upper = if has_upper {
            Option::Some(upper)
        } else {
            Option::<usize>::None
        };
        (lower, r_upper)
    }

    /// Surrenders the remaining inputs: each still-live `(head, rest)`
    /// pair, in storage order.
    pub fn break_up(self) -> (r: Vec<(I::Item, I)>)
        ensures
            r@.len() == self.model().len(),
            forall|i: int|
                0 <= i < r@.len() ==> (#[trigger] r@[i]).0 == self.model()[i].0 && r@[i].1.remaining()
                    == self.model()[i].1,
    {
        let MergedIter { peek_iters, .. } = self;
        peek_iters
    }

    /// Under stable tie-breaking and a well-formed comparator, the front
    /// cursor points exactly at the earliest minimal head.
    proof fn lemma_front_is_min_rank(&self)
        requires
            self.cmp.wf(),
            self.model().len() > 0,
            self.min_ok_upto(self.model().len() as int),
            STABLE_TIE_BREAKING,
        ensures
            self.front() == min_rank(self.cmp, self.model()),
    {
        let m = self.model();
        let mi = self.front();
        let k = min_rank(self.cmp, m);
        crate::model::lemma_min_from(self.cmp, m, 0);
        if k < mi {
            self.cmp.lemma_laws(m[mi].0, m[k].0, m[k].0);
        } else if k > mi {
            self.cmp.lemma_laws(m[k].0, m[mi].0, m[mi].0);
        }
    }

    /// Recomputes the runner-up cursor by scanning every position other
    /// than `min_idx`, keeping the earliest of equal candidates.
    fn find_next_min(&mut self)
        requires
            old(self).cmp.callable(),
            old(self).model().len() >= 1 ==> old(self).min_idx < old(self).model().len(),
        ensures
            final(self).peek_iters == old(self).peek_iters,
            final(self).cmp == old(self).cmp,
            final(self).min_idx == old(self).min_idx,
            final(self).model().len() >= 2 ==> final(self).next_ok_upto(
                final(self).model().len() as int,
            ),
    {
        let len = self.peek_iters.len();
        let start: usize = if self.min_idx == 0 {
            1
        } else {
            0
        };
        if len < 2 {
            self.next_min_idx = start;
            return ;
        }
        let ghost m = self.model();
        let ghost mi = self.min_idx as int;
        proof {
            if self.cmp.wf() {
                lemma_cmp_refl(&self.cmp, m[start as int].0);
            }
        }
        self.next_min_idx = start;
        // Scan the positions before `min_idx`.
        let mut i: usize = start + 1;
        while i < self.min_idx
            invariant
                self.peek_iters == old(self).peek_iters,
                self.cmp == old(self).cmp,
                self.cmp.callable(),
                self.min_idx == old(self).min_idx,
                m == self.model(),
                mi == self.min_idx as int,
                2 <= self.model().len(),
                mi < self.model().len(),
                start < i <= mi || (i == start + 1 && mi <= start),
                self.next_min_idx < i,
                self.next_min_idx != self.min_idx,
                self.cmp.wf() ==> forall|j: int|
                    0 <= j < i && j != mi ==> ord_le(
                        #[trigger] self.cmp.cmp_spec(m[self.next_min_idx as int].0, m[j].0),
                    ),
                self.cmp.wf() && STABLE_TIE_BREAKING ==> forall|j: int|
                    0 <= j < self.next_min_idx as int && j != mi ==> ord_lt(
                        #[trigger] self.cmp.cmp_spec(m[self.next_min_idx as int].0, m[j].0),
                    ),
            decreases self.min_idx - i,
        {
            let ghost ni = self.next_min_idx as int;
            let o = self.cmp_idx(i, self.next_min_idx);
            if matches!(o, Ordering::Less) {
                self.next_min_idx = i;
                proof {
                    if self.cmp.wf() {
                        lemma_cmp_refl(&self.cmp, m[i as int].0);
                        assert forall|j: int|
                            0 <= j < i && j != mi implies ord_lt(
                            #[trigger] self.cmp.cmp_spec(m[i as int].0, m[j].0),
                        ) by {
                            lemma_lt_le_trans(&self.cmp, m[i as int].0, m[ni].0, m[j].0);
                        }
                    }
                }
            } else {
                proof {
                    if self.cmp.wf() {
                        self.cmp.lemma_laws(m[ni].0, m[i as int].0, m[i as int].0);
                    }
                }
            }
            i = i + 1;
        }
        // Scan the positions after `min_idx`.
        let mut i2: usize = self.min_idx + 1;
        while i2 < len
            invariant
                self.peek_iters == old(self).peek_iters,
                self.cmp == old(self).cmp,
                self.cmp.callable(),
                self.min_idx == old(self).min_idx,
                m == self.model(),
                mi == self.min_idx as int,
                2 <= self.model().len(),
                len == self.model().len(),
                mi < self.model().len(),
                mi < i2 <= len,
                self.next_min_idx < i2 || self.next_min_idx == start,
                start < 2,
                self.next_min_idx != self.min_idx,
                self.cmp.wf() ==> forall|j: int|
                    0 <= j < i2 && j != mi ==> ord_le(
                        #[trigger] self.cmp.cmp_spec(m[self.next_min_idx as int].0, m[j].0),
                    ),
                self.cmp.wf() && STABLE_TIE_BREAKING ==> forall|j: int|
                    0 <= j < self.next_min_idx as int && j != mi ==> ord_lt(
                        #[trigger] self.cmp.cmp_spec(m[self.next_min_idx as int].0, m[j].0),
                    ),
            decreases len - i2,
        {
            let ghost ni = self.next_min_idx as int;
            let o = self.cmp_idx(i2, self.next_min_idx);
            if matches!(o, Ordering::Less) {
                self.next_min_idx = i2;
                proof {
                    if self.cmp.wf() {
                        lemma_cmp_refl(&self.cmp, m[i2 as int].0);
                        assert forall|j: int|
                            0 <= j < i2 && j != mi implies ord_lt(
                            #[trigger] self.cmp.cmp_spec(m[i2 as int].0, m[j].0),
                        ) by {
                            lemma_lt_le_trans(&self.cmp, m[i2 as int].0, m[ni].0, m[j].0);
                        }
                    }
                }
            } else {
                proof {
                    if self.cmp.wf() {
                        self.cmp.lemma_laws(m[ni].0, m[i2 as int].0, m[i2 as int].0);
                    }
                }
            }
            i2 = i2 + 1;
        }
    }

    /// Removes the pair at the front cursor, returning its head and moving
    /// the front cursor onto the runner-up's new position.  The runner-up
    /// cursor is left stale; `find_next_min` restores it.
    fn pop_min(&mut self) -> (res: I::Item)
        requires
            old(self).model().len() >= 1,
            old(self).min_ok_upto(old(self).model().len() as int),
            old(self).model().len() >= 2 ==> old(self).next_ok_upto(
                old(self).model().len() as int,
            ),
        ensures
            final(self).cmp == old(self).cmp,
            res == old(self).model()[old(self).front()].0,
            final(self).model() == (if STABLE_TIE_BREAKING {
                old(self).model().remove(old(self).front())
            } else {
                crate::model::swap_remove_seq(old(self).model(), old(self).front())
            }),
            final(self).model().len() >= 1 ==> final(self).min_ok_upto(
                final(self).model().len() as int,
            ),
    {
        let ghost m = old(self).model();
        let ghost n = m.len() as int;
        let ghost mi = old(self).front();
        let ghost ni = old(self).next_min_idx as int;
        let res;
        if STABLE_TIE_BREAKING {
            let pair = self.peek_iters.remove(self.min_idx);
            res = pair.0;
            self.min_idx = if self.next_min_idx > self.min_idx {
                self.next_min_idx - 1
            } else {
                self.next_min_idx
            };
            proof {
                assert(final(self).model() =~= m.remove(mi));
                if n >= 2 {
                    let m2 = final(self).model();
                    let mi2 = final(self).min_idx as int;
                    assert(m2[mi2] == m[ni]);
                    if self.cmp.wf() {
                        assert forall|j: int|
                            0 <= j < n - 1 implies ord_le(
                            #[trigger] self.cmp.cmp_spec(m2[mi2].0, m2[j].0),
                        ) by {
                            if j < mi {
                                assert(m2[j] == m[j]);
                            } else {
                                assert(m2[j] == m[j + 1]);
                            }
                        }
                        if STABLE_TIE_BREAKING {
                            assert forall|j: int|
                                0 <= j < mi2 implies ord_lt(
                                #[trigger] self.cmp.cmp_spec(m2[mi2].0, m2[j].0),
                            ) by {
                                if j < mi {
                                    assert(m2[j] == m[j]);
                                } else {
                                    assert(m2[j] == m[j + 1]);
                                }
                            }
                        }
                    }
                }
            }
        } else {
            let pair = self.peek_iters.swap_remove(self.min_idx);
            res = pair.0;
            if self.next_min_idx != self.peek_iters.len() {
                self.min_idx = self.next_min_idx;
            }
            proof {
                assert(final(self).model() =~= crate::model::swap_remove_seq(m, mi));
                if n >= 2 {
                    let m2 = final(self).model();
                    let mi2 = final(self).min_idx as int;
                    assert(m2[mi2] == m[ni]);
                    if self.cmp.wf() {
                        assert forall|j: int|
                            0 <= j < n - 1 implies ord_le(
                            #[trigger] self.cmp.cmp_spec(m2[mi2].0, m2[j].0),
                        ) by {
                            if j == mi && mi < n - 1 {
                                assert(m2[j] == m[n - 1]);
                            } else {
                                assert(m2[j] == m[j]);
                            }
                        }
                    }
                }
            }
        }
        res
    }

    /// After the head at the front cursor has been replaced, restores both
    /// cursors by comparing it against the runner-up.
    fn update_after_peek(&mut self)
        requires
            old(self).cmp.callable(),
            old(self).model().len() >= 2,
            old(self).min_idx < old(self).model().len(),
            old(self).next_ok_upto(old(self).model().len() as int),
        ensures
            final(self).peek_iters == old(self).peek_iters,
            final(self).cmp == old(self).cmp,
            final(self).cursors_ok_upto(final(self).model().len() as int),
    {
        let ghost m = self.model();
        let ghost n = m.len() as int;
        let ghost mi = self.min_idx as int;
        let ghost ni = self.next_min_idx as int;
        let o = self.cmp_idx(self.min_idx, self.next_min_idx);
        match o {
            Ordering::Equal if STABLE_TIE_BREAKING && self.next_min_idx < self.min_idx => {
                // The new head ties with an earlier runner-up: the earlier
                // position must emit first.
                let t = self.min_idx;
                self.min_idx = self.next_min_idx;
                self.next_min_idx = t;
                proof {
                    if self.cmp.wf() {
                        lemma_cmp_refl(&self.cmp, m[ni].0);
                        self.cmp.lemma_laws(m[mi].0, m[ni].0, m[ni].0);
                        assert forall|j: int|
                            0 <= j < n implies ord_le(
                            #[trigger] self.cmp.cmp_spec(m[ni].0, m[j].0),
                        ) by {
                            if j != mi && j != ni {
                                self.cmp.lemma_laws(m[ni].0, m[ni].0, m[j].0);
                            }
                        }
                    }
                }
                // The runner-up cursor must again be the earliest position
                // tying with the new minimum; recheck the span between them.
                self.rescan_ties();
            },
            Ordering::Greater => {
                self.min_idx = self.next_min_idx;
                proof {
                    if self.cmp.wf() {
                        self.cmp.lemma_laws(m[mi].0, m[ni].0, m[ni].0);
                        lemma_cmp_refl(&self.cmp, m[ni].0);
                        assert forall|j: int|
                            0 <= j < n implies ord_le(
                            #[trigger] self.cmp.cmp_spec(m[ni].0, m[j].0),
                        ) by {}
                        if STABLE_TIE_BREAKING {
                            assert forall|j: int|
                                0 <= j < ni implies ord_lt(
                                #[trigger] self.cmp.cmp_spec(m[ni].0, m[j].0),
                            ) by {}
                        }
                    }
                }
                self.find_next_min();
            },
            _ => {
                proof {
                    if self.cmp.wf() {
                        lemma_cmp_refl(&self.cmp, m[mi].0);
                        assert forall|j: int|
                            0 <= j < n implies ord_le(
                            #[trigger] self.cmp.cmp_spec(m[mi].0, m[j].0),
                        ) by {
                            if j != mi {
                                self.cmp.lemma_laws(m[mi].0, m[ni].0, m[j].0);
                            }
                        }
                        if STABLE_TIE_BREAKING {
                            assert forall|j: int|
                                0 <= j < mi implies ord_lt(
                                #[trigger] self.cmp.cmp_spec(m[mi].0, m[j].0),
                            ) by {
                                if matches!(o, Ordering::Less) {
                                    lemma_lt_le_trans(&self.cmp, m[mi].0, m[ni].0, m[j].0);
                                } else {
                                    // `Equal`, with the runner-up later:
                                    // every position before the front is
                                    // strictly above the runner-up's head.
                                    lemma_le_lt_trans(&self.cmp, m[mi].0, m[ni].0, m[j].0);
                                }
                            }
                        }
                    }
                }
            },
        }
    }
}

/// The multiset facts about an empty and a one-element sequence.
proof fn proof_to_multiset_facts<T>(x: T)
    ensures
        Seq::<T>::empty().to_multiset() == Multiset::<T>::empty(),
        seq![x].to_multiset() == Multiset::<T>::empty().insert(x),
{
    Seq::<T>::empty().to_multiset_ensures();
    assert(Seq::<T>::empty().to_multiset() =~= Multiset::<T>::empty());
    assert(seq![x] =~= Seq::<T>::empty().push(x));
}

/// The `(head, rest)` pairs a sequence of inputs contributes to a merge
/// state, empty inputs skipped.
pub open spec fn slots_of<I: Source>(iters: Seq<I>) -> Seq<SlotModel<I::Item>>
    decreases iters.len(),
{
    if iters.len() == 0 {
        Seq::empty()
    } else {
        let rest = slots_of(iters.drop_last());
        let it = iters.last();
        if it.remaining().len() > 0 {
            rest.push((it.remaining()[0], it.remaining().drop_first()))
        } else {
            rest
        }
    }
}

/// A prefix of the inputs contributes at most as many pairs as the whole.
pub proof fn lemma_slots_of_take_le<I: Source>(iters: Seq<I>, k: int)
    requires
        0 <= k <= iters.len(),
    ensures
        slots_of(iters.take(k)).len() <= slots_of(iters).len(),
    decreases iters.len() - k,
{
    if k < iters.len() {
        assert(iters.take(k + 1).drop_last() =~= iters.take(k));
        assert(iters.take(k + 1).last() == iters[k]);
        lemma_slots_of_take_le(iters, k + 1);
    } else {
        assert(iters.take(k) =~= iters);
    }
}

/// One more input contributes one more pair, or none when it is empty.
pub proof fn lemma_slots_of_push<I: Source>(iters: Seq<I>, it: I)
    ensures
        it.remaining().len() == 0 ==> slots_of(iters.push(it)) == slots_of(iters),
        it.remaining().len() > 0 ==> slots_of(iters.push(it)) == slots_of(iters).push(
            (it.remaining()[0], it.remaining().drop_first()),
        ),
{
    assert(iters.push(it).drop_last() =~= iters);
    assert(iters.push(it).last() == it);
}

} // verus!
