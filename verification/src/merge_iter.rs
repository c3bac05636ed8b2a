//! The heap-based merging iterator.

mod builder;
mod into_iters;

pub use builder::{Builder, DefaultBuilder, DefaultMergeIter};
pub use into_iters::{ItersIter, UnorderedItersIter};

use vstd::prelude::*;
use vstd::multiset::Multiset;
use vstd::std_specs::cmp::PartialEqSpec;
use crate::comparators::tie_breaker::TieBreaker;
use crate::comparators::Comparator;
use crate::internal::{BaseStorage, Heap, PeekIter};
use crate::model::{
    advance_slot, clamp_usize, heap_merge_seq, is_min_ptr, lemma_advance_slot,
    lemma_heap_merge_unfold, live, opt_elems, opt_total_count, OptSlot,
};
use crate::source::Source;

verus! {

/// Iterator over merged inputs, served by the two-tier heap engine.
#[derive(Debug, Clone)]
pub struct MergeIter<S, CMP, TB>(pub(crate) Heap<S, CMP, TB>);

impl<S: BaseStorage, CMP: Comparator<<S::Src as Source>::Item>, TB: TieBreaker> MergeIter<
    S,
    CMP,
    TB,
> {
    /// The stationary slots of the engine, as `(head, rest)` pairs; a
    /// retired input leaves a freed position behind.
    pub closed spec fn model(&self) -> Seq<OptSlot<<S::Src as Source>::Item>> {
        self.0.sm()
    }

    /// The number of live inputs.
    pub closed spec fn live_count(&self) -> int {
        self.0.ps().len() as int
    }

    /// The comparator in use.
    pub closed spec fn cmp_of(&self) -> CMP {
        self.0.cmp_of()
    }

    /// The tie-breaker in use.
    pub closed spec fn tb_of(&self) -> TB {
        self.0.tb_of()
    }

    /// The slot position the next emission comes from.
    pub closed spec fn front_slot(&self) -> int {
        self.0.front_ptr()
    }

    /// Well-formedness of the engine state.
    pub closed spec fn inv(&self) -> bool {
        self.0.hinv()
    }

    /// Emits the smallest live head, or reports exhaustion.  Once the
    /// engine has reported exhaustion it is left untouched, so it stays
    /// exhausted.
    pub fn next(&mut self) -> (r: Option<<S::Src as Source>::Item>)
        requires
            old(self).inv(),
        ensures
            final(self).inv(),
            final(self).cmp_of() == old(self).cmp_of(),
            final(self).tb_of() == old(self).tb_of(),
            match r {
                Option::None => {
                    &&& old(self).live_count() == 0
                    &&& final(self).live_count() == 0
                    &&& final(self).model() == old(self).model()
                    &&& opt_elems(old(self).model()) == Multiset::<
                        <S::Src as Source>::Item,
                    >::empty()
                },
                Option::Some(v) => {
                    let sm = old(self).model();
                    let p = old(self).front_slot();
                    &&& old(self).live_count() > 0
                    &&& live(sm, p)
                    &&& v == sm[p].unwrap().0
                    &&& final(self).model() == advance_slot(sm, p)
                    &&& final(self).live_count() == old(self).live_count() - (
                    if sm[p].unwrap().1.len() > 0 {
                        0int
                    } else {
                        1int
                    })
                    &&& old(self).cmp_of().wf() ==> is_min_ptr(
                        old(self).cmp_of(),
                        old(self).tb_of(),
                        sm,
                        p,
                    )
                    &&& old(self).cmp_of().wf() && TB::decisive() ==> {
                        &&& v == heap_merge_seq(old(self).cmp_of(), old(self).tb_of(), sm)[0]
                        &&& heap_merge_seq(
                            old(self).cmp_of(),
                            old(self).tb_of(),
                            final(self).model(),
                        ) == heap_merge_seq(old(self).cmp_of(), old(self).tb_of(), sm).drop_first()
                    }
                },
            },
    {
        let ghost sm0 = self.model();
        let ghost fb = self.front_slot();
        let r = self.0.pop_front_item();
        proof {
            if r is Some && self.0.cmp_of().wf() && TB::decisive() {
                lemma_heap_merge_unfold(old(self).cmp_of(), old(self).tb_of(), sm0, fb);
                assert(heap_merge_seq(old(self).cmp_of(), old(self).tb_of(), sm0).drop_first()
                    =~= heap_merge_seq(old(self).cmp_of(), old(self).tb_of(), self.model()));
            }
        }
        r
    }

    /// A reference to the element the next emission would return, without
    /// consuming it.
    pub fn peek(&self) -> (r: Option<&<S::Src as Source>::Item>)
        requires
            self.inv(),
        ensures
            (r is None) <==> self.live_count() == 0,
            self.live_count() > 0 ==> {
                &&& live(self.model(), self.front_slot())
                &&& r matches Option::Some(v) && *v == self.model()[self.front_slot()].unwrap().0
                &&& self.cmp_of().wf() ==> is_min_ptr(
                    self.cmp_of(),
                    self.tb_of(),
                    self.model(),
                    self.front_slot(),
                )
            },
    {
        self.0.peek()
    }

    /// Returns the next element if it satisfies a predicate, consuming it
    /// only on success.
    pub fn next_if<F: FnOnce(&<S::Src as Source>::Item) -> bool>(&mut self, func: F) -> (r:
        Option<<S::Src as Source>::Item>)
        requires
            old(self).inv(),
            forall|x: &<S::Src as Source>::Item| #[trigger] call_requires(func, (x,)),
        ensures
            final(self).inv(),
            final(self).cmp_of() == old(self).cmp_of(),
            final(self).tb_of() == old(self).tb_of(),
            match r {
                Option::None => {
                    &&& final(self).model() == old(self).model()
                    &&& final(self).live_count() == old(self).live_count()
                    &&& final(self).front_slot() == old(self).front_slot()
                    &&& old(self).live_count() > 0 ==> call_ensures(
                        func,
                        (&old(self).model()[old(self).front_slot()].unwrap().0,),
                        false,
                    )
                },
                Option::Some(v) => {
                    let sm = old(self).model();
                    let p = old(self).front_slot();
                    &&& old(self).live_count() > 0
                    &&& live(sm, p)
                    &&& v == sm[p].unwrap().0
                    &&& call_ensures(func, (&sm[p].unwrap().0,), true)
                    &&& final(self).model() == advance_slot(sm, p)
                    &&& old(self).cmp_of().wf() ==> is_min_ptr(
                        old(self).cmp_of(),
                        old(self).tb_of(),
                        sm,
                        p,
                    )
                },
            },
    {
        let keep = match self.0.peek() {
            Option::Some(head) => func(head),
            Option::None => {
                return Option::None;
            },
        };
        if !keep {
            return Option::None;
        }
        self.0.pop_front_item()
    }

    /// Returns the next element if it is equal to `expected`, consuming it
    /// only on success.
    pub fn next_if_eq<U>(&mut self, expected: &U) -> (r: Option<<S::Src as Source>::Item>) where
        <S::Src as Source>::Item: PartialEq<U>,

        requires
            old(self).inv(),
        ensures
            final(self).inv(),
            final(self).cmp_of() == old(self).cmp_of(),
            final(self).tb_of() == old(self).tb_of(),
            match r {
                Option::None => {
                    &&& final(self).model() == old(self).model()
                    &&& final(self).live_count() == old(self).live_count()
                    &&& final(self).front_slot() == old(self).front_slot()
                    &&& old(self).live_count() > 0 ==> (crate::comparators::eq_obeyed_for(
                        &old(self).model()[old(self).front_slot()].unwrap().0,
                        expected,
                    ) ==> !old(self).model()[old(self).front_slot()].unwrap().0.eq_spec(
                        expected,
                    ))
                },
                Option::Some(v) => {
                    let sm = old(self).model();
                    let p = old(self).front_slot();
                    &&& old(self).live_count() > 0
                    &&& live(sm, p)
                    &&& v == sm[p].unwrap().0
                    &&& crate::comparators::eq_obeyed_for(&v, expected) ==> v.eq_spec(expected)
                    &&& final(self).model() == advance_slot(sm, p)
                },
            },
    {
        let head_matches = match self.0.peek() {
            Option::Some(head) => *head == *expected,
            Option::None => {
                return Option::None;
            },
        };
        if !head_matches {
            return Option::None;
        }
        self.0.pop_front_item()
    }

    /// Drains the merge into a vector.
    ///
    /// Whatever the comparator, the result holds exactly the elements the
    /// engine held; for a well-formed comparator and a decisive tie-breaker
    /// it is exactly the engine's canonical output.
    pub fn into_vec(self) -> (r: Vec<<S::Src as Source>::Item>)
        requires
            self.inv(),
        ensures
            r@.to_multiset() == opt_elems(self.model()),
            self.cmp_of().wf() && TB::decisive() ==> r@ == heap_merge_seq(
                self.cmp_of(),
                self.tb_of(),
                self.model(),
            ),
    {
        broadcast use vstd::seq_lib::group_to_multiset_ensures;

        let ghost m0 = self.model();
        let ghost c = self.cmp_of();
        let ghost tb = self.tb_of();
        let MergeIter(heap) = self;
        let mut heap = heap;
        let mut res: Vec<<S::Src as Source>::Item> = Vec::new();
        proof {
            assert(res@.to_multiset().add(opt_elems(m0)) =~= opt_elems(m0));
            assert(res@ + heap_merge_seq(c, tb, m0) =~= heap_merge_seq(c, tb, m0));
        }
        loop
            invariant
                m0 == self.model(),
                c == self.cmp_of(),
                tb == self.tb_of(),
                heap.hinv(),
                heap.cmp_of() == c,
                heap.tb_of() == tb,
                res@.to_multiset().add(opt_elems(heap.sm())) == opt_elems(m0),
                c.wf() && TB::decisive() ==> res@ + heap_merge_seq(c, tb, heap.sm())
                    == heap_merge_seq(c, tb, m0),
            decreases opt_total_count(heap.sm()),
        {
            let ghost mbefore = heap.sm();
            let ghost fb = heap.front_ptr();
            let ghost resb = res@;
            let stepped = heap.pop_front_item();
            match stepped {
                Option::Some(v) => {
                    res.push(v);
                    proof {
                        lemma_advance_slot(mbefore, fb);
                        resb.to_multiset_ensures();
                        assert(res@ == resb.push(v));
                        assert(res@.to_multiset() == resb.to_multiset().insert(v));
                        assert(opt_elems(heap.sm()).insert(v) == opt_elems(mbefore));
                        assert(res@.to_multiset().add(opt_elems(heap.sm())) =~= opt_elems(m0));
                        if c.wf() && TB::decisive() {
                            lemma_heap_merge_unfold(c, tb, mbefore, fb);
                            assert(heap_merge_seq(c, tb, mbefore) == seq![v] + heap_merge_seq(
                                c,
                                tb,
                                heap.sm(),
                            ));
                            assert(res@ + heap_merge_seq(c, tb, heap.sm()) =~= heap_merge_seq(
                                c,
                                tb,
                                m0,
                            ));
                        }
                    }
                },
                Option::None => {
                    proof {
                        assert(res@.to_multiset().add(opt_elems(mbefore)) =~= res@.to_multiset());
                        assert(res@.to_multiset() =~= opt_elems(m0));
                        if c.wf() && TB::decisive() {
                            if exists|p: int| #[trigger] is_min_ptr(c, tb, mbefore, p) {
                                let p = choose|p: int| #[trigger] is_min_ptr(c, tb, mbefore, p);
                                crate::model::lemma_opt_split_at(mbefore, p);
                                assert(false);
                            }
                            assert(heap_merge_seq(c, tb, mbefore) == Seq::<
                                <S::Src as Source>::Item,
                            >::empty());
                            assert(res@ =~= heap_merge_seq(c, tb, m0));
                        }
                    }
                    return res;
                },
            }
        }
    }

    /// The size hints the live inputs currently report, in engine order.
    pub closed spec fn hints(&self) -> Seq<(usize, Option<usize>)> {
        self.0.hints()
    }

    /// Bounds on the number of elements left to emit: the live heads plus
    /// the inputs' own bounds.  The lower bound saturates; the upper bound
    /// is absent as soon as one input reports none or the sum overflows.
    /// Both bounds are sound for the elements actually left.
    pub fn size_hint(&self) -> (r: (usize, Option<usize>))
        requires
            self.inv(),
        ensures
            r.0 == crate::model::clamp_usize(
                self.live_count() + crate::model::sum_hint_lowers(self.hints()),
            ),
            r.1 == (if crate::model::all_uppers(self.hints()) && self.live_count()
                + crate::model::sum_hint_uppers(self.hints()) <= usize::MAX {
                Option::Some(
                    (self.live_count() + crate::model::sum_hint_uppers(self.hints())) as usize,
                )
            } else {
                Option::<usize>::None
            }),
            r.0 <= opt_total_count(self.model()),
            r.1 matches Option::Some(u) ==> opt_total_count(self.model()) <= u,
    {
        self.0.size_hint()
    }

    /// Consumes the merge and counts the elements it still held, saturating
    /// at the largest machine count.
    pub fn count(self) -> (r: usize)
        requires
            self.inv(),
        ensures
            r == clamp_usize(opt_total_count(self.model()) as int),
    {
        let ghost m0 = self.model();
        let MergeIter(heap) = self;
        let mut heap = heap;
        let mut acc: usize = 0;
        loop
            invariant
                m0 == self.model(),
                heap.hinv(),
                acc == clamp_usize(opt_total_count(m0) - opt_total_count(heap.sm())),
                opt_total_count(heap.sm()) <= opt_total_count(m0),
            decreases opt_total_count(heap.sm()),
        {
            let ghost mbefore = heap.sm();
            let ghost qb = if heap.ps().len() > 0 {
                heap.ps().last() as int
            } else {
                0int
            };
            match heap.pop_back() {
                Option::Some(pi) => {
                    proof {
                        crate::model::lemma_opt_split_at(mbefore, qb);
                        crate::model::lemma_opt_split_at(heap.sm(), qb);
                        assert(heap.sm().take(qb) =~= mbefore.take(qb));
                        assert(heap.sm().skip(qb + 1) =~= mbefore.skip(qb + 1));
                    }
                    if acc < usize::MAX {
                        acc = acc + 1;
                    }
                    let mut src = pi.iter;
                    let ghost rest0 = src.remaining();
                    loop
                        invariant
                            opt_total_count(heap.sm()) + src.remaining().len() + 1
                                <= opt_total_count(m0),
                            acc == clamp_usize(
                                opt_total_count(m0) - opt_total_count(heap.sm())
                                    - src.remaining().len(),
                            ),
                        ensures
                            acc == clamp_usize(
                                opt_total_count(m0) - opt_total_count(heap.sm()),
                            ),
                            opt_total_count(heap.sm()) <= opt_total_count(m0),
                        decreases src.remaining().len(),
                    {
                        match src.next() {
                            Option::Some(x) => {
                                if acc < usize::MAX {
                                    acc = acc + 1;
                                }
                            },
                            Option::None => {
                                break ;
                            },
                        }
                    }
                },
                Option::None => {
                    return acc;
                },
            }
        }
    }

    /// Removes and hands out one live `(head, rest)` pair, in no promised
    /// order.
    pub(crate) fn pop_back_pair(&mut self) -> (r: Option<
        (<S::Src as Source>::Item, S::Src),
    >)
        requires
            old(self).inv(),
        ensures
            final(self).inv(),
            final(self).cmp_of() == old(self).cmp_of(),
            final(self).tb_of() == old(self).tb_of(),
            match r {
                Option::None => {
                    &&& old(self).live_count() == 0
                    &&& final(self).live_count() == 0
                    &&& final(self).model() == old(self).model()
                },
                Option::Some((v, rest)) => {
                    &&& old(self).live_count() > 0
                    &&& crate::model::removed_some_slot(
                        old(self).model(),
                        final(self).model(),
                        v,
                        rest.remaining(),
                    )
                    &&& final(self).live_count() + 1 == old(self).live_count()
                },
            },
    {
        let ghost q = if old(self).0.ps().len() > 0 {
            old(self).0.ps().last() as int
        } else {
            0int
        };
        let r = self.0.pop_back();
        match r {
            Option::Some(pi) => {
                proof {
                    assert(live(old(self).model(), q));
                    assert(crate::model::removed_some_slot(
                        old(self).model(),
                        self.model(),
                        pi.item,
                        pi.iter.remaining(),
                    ));
                }
                let PeekIter { item, iter } = pi;
                Option::Some((item, iter))
            },
            Option::None => Option::None,
        }
    }

    /// Removes and hands out the live `(head, rest)` pair with the smallest
    /// head.
    pub(crate) fn pop_front_pair(&mut self) -> (r: Option<
        (<S::Src as Source>::Item, S::Src),
    >)
        requires
            old(self).inv(),
        ensures
            final(self).inv(),
            final(self).cmp_of() == old(self).cmp_of(),
            final(self).tb_of() == old(self).tb_of(),
            match r {
                Option::None => {
                    &&& old(self).live_count() == 0
                    &&& final(self).live_count() == 0
                    &&& final(self).model() == old(self).model()
                },
                Option::Some((v, rest)) => {
                    let sm = old(self).model();
                    let p = old(self).front_slot();
                    &&& old(self).live_count() > 0
                    &&& live(sm, p)
                    &&& v == sm[p].unwrap().0
                    &&& rest.remaining() == sm[p].unwrap().1
                    &&& final(self).model() == sm.update(
                        p,
                        Option::<crate::model::SlotModel<<S::Src as Source>::Item>>::None,
                    )
                    &&& final(self).live_count() + 1 == old(self).live_count()
                    &&& old(self).cmp_of().wf() ==> is_min_ptr(
                        old(self).cmp_of(),
                        old(self).tb_of(),
                        sm,
                        p,
                    )
                },
            },
    {
        let r = self.0.pop_front_iter();
        match r {
            Option::Some(pi) => {
                let PeekIter { item, iter } = pi;
                Option::Some((item, iter))
            },
            Option::None => Option::None,
        }
    }

    /// Hands out the remaining `(head, rest)` pairs in no promised order;
    /// recover the engine with `into_merge_iter` when done.
    pub fn as_unordered_iters(self) -> (r: UnorderedItersIter<S, CMP, TB>)
        requires
            self.inv(),
        ensures
            r.inv(),
            r.model() == self.model(),
            r.live_count() == self.live_count(),
            r.cmp_of() == self.cmp_of(),
            r.tb_of() == self.tb_of(),
    {
        UnorderedItersIter::new(self)
    }

    /// Hands out the remaining `(head, rest)` pairs in merge order;
    /// recover the engine with `into_merge_iter` when done.
    pub fn as_iters(self) -> (r: ItersIter<S, CMP, TB>)
        requires
            self.inv(),
        ensures
            r.inv(),
            r.model() == self.model(),
            r.live_count() == self.live_count(),
            r.cmp_of() == self.cmp_of(),
            r.tb_of() == self.tb_of(),
    {
        ItersIter::new(self)
    }
}

} // verus!
