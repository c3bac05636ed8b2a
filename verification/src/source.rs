//! Input streams for the merge engines.
//!
//! A [`Source`] is a producer of elements with the standard lazy-stream
//! contract: `next` yields the front element or reports exhaustion, and once
//! exhausted it stays exhausted.  Each source is modelled in specifications
//! by [`Source::remaining`], the sequence of elements it has yet to yield.
//!
//! The library ships three sources: [`VecSource`] over an owned vector,
//! [`RangeSource`] over a half-open range of `usize`, and [`LooseHint`],
//! an adapter that deliberately coarsens the size hint of an inner source
//! (the way filtering or chaining adapters do), while yielding the same
//! elements.

use vstd::prelude::*;
use vstd::std_specs::vec::spec_vec_len;

verus! {

/// A producer of elements, pulled one at a time from the front.
pub trait Source: Sized {
    /// The element type this source yields.
    type Item;

    /// The sequence of elements this source has yet to yield.
    spec fn remaining(&self) -> Seq<Self::Item>;

    /// The size hint this source currently reports.
    spec fn hint_spec(&self) -> (usize, Option<usize>);

    /// Yields the front element, or reports exhaustion.
    fn next(&mut self) -> (r: Option<Self::Item>)
        ensures
            match r {
                Option::None => {
                    &&& old(self).remaining().len() == 0
                    &&& final(self).remaining() == old(self).remaining()
                },
                Option::Some(v) => {
                    &&& old(self).remaining().len() > 0
                    &&& v == old(self).remaining()[0]
                    &&& final(self).remaining() == old(self).remaining().drop_first()
                },
            },
    ;

    /// Bounds on the number of remaining elements: the lower bound is sound,
    /// and so is the upper bound when it is present.
    fn size_hint(&self) -> (r: (usize, Option<usize>))
        ensures
            r == self.hint_spec(),
            r.0 <= self.remaining().len(),
            r.1 matches Option::Some(upper) ==> self.remaining().len() <= upper,
    ;
}

/// A source that yields the elements of a vector, front to back.
///
/// The elements are held in reverse so that each `next` is a single `pop`.
#[derive(Debug, Clone)]
pub struct VecSource<T> {
    reversed: Vec<T>,
}

impl<T> VecSource<T> {
    /// Creates a source that will yield the elements of `items` in order.
    pub fn new(items: Vec<T>) -> (s: Self)
        ensures
            s.remaining() == items@,
    {
        let ghost orig = items@;
        let mut items = items;
        let mut reversed: Vec<T> = Vec::new();
        while items.len() > 0
            invariant
                reversed@.len() + items@.len() == orig.len(),
                items@ == orig.take(items@.len() as int),
                forall|j: int|
                    0 <= j < reversed@.len() ==> reversed@[j] == orig[orig.len() - 1 - j],
            decreases items@.len(),
        {
            let v = items.pop().unwrap();
            reversed.push(v);
        }
        let s = VecSource { reversed };
        proof {
            assert(s.remaining() =~= orig);
        }
        s
    }

    /// The number of elements this source has yet to yield.
    pub fn len(&self) -> (n: usize)
        ensures
            n == self.remaining().len(),
    {
        self.reversed.len()
    }
}

impl<T> VecSource<T> {
    /// This source reports exact bounds: lower and upper both equal the
    /// number of remaining elements, at every point of its life.
    pub proof fn lemma_hint_exact(&self)
        ensures
            self.remaining().len() <= usize::MAX,
            self.hint_spec() == (
                self.remaining().len() as usize,
                Option::Some(self.remaining().len() as usize),
            ),
    {
        broadcast use vstd::std_specs::vec::axiom_spec_len;

        assert(self.remaining().len() == self.reversed@.len());
        assert(spec_vec_len(&self.reversed) == self.reversed@.len());
    }
}

impl<T> Source for VecSource<T> {
    type Item = T;

    closed spec fn remaining(&self) -> Seq<T> {
        self.reversed@.reverse()
    }

    closed spec fn hint_spec(&self) -> (usize, Option<usize>) {
        (self.reversed@.len() as usize, Option::Some(self.reversed@.len() as usize))
    }

    fn next(&mut self) -> (r: Option<T>) {
        let r = self.reversed.pop();
        proof {
            if old(self).reversed@.len() > 0 {
                assert(final(self).remaining() =~= old(self).remaining().drop_first());
            } else {
                assert(final(self).remaining() =~= old(self).remaining());
            }
        }
        r
    }

    fn size_hint(&self) -> (r: (usize, Option<usize>)) {
        let n = self.reversed.len();
        (n, Option::Some(n))
    }
}

/// A source that yields the integers of a half-open range, in order.
#[derive(Debug, Clone, Copy)]
pub struct RangeSource {
    start: usize,
    end: usize,
}

impl RangeSource {
    /// Creates a source yielding `start`, `start + 1`, ..., `end - 1`.
    /// An empty range yields nothing.
    pub fn new(start: usize, end: usize) -> (s: Self)
        ensures
            s.remaining() == range_elements(start, end),
    {
        if start <= end {
            RangeSource { start, end }
        } else {
            RangeSource { start, end: start }
        }
    }
}

/// The elements of the half-open range `[start, end)`.
pub open spec fn range_elements(start: usize, end: usize) -> Seq<usize> {
    Seq::new(
        if start <= end {
            (end - start) as nat
        } else {
            0
        },
        |i: int| (start + i) as usize,
    )
}

impl RangeSource {
    /// This source reports exact bounds: lower and upper both equal the
    /// number of remaining elements, at every point of its life.
    pub proof fn lemma_hint_exact(&self)
        ensures
            self.remaining().len() <= usize::MAX,
            self.hint_spec() == (
                self.remaining().len() as usize,
                Option::Some(self.remaining().len() as usize),
            ),
    {
    }
}

impl Source for RangeSource {
    type Item = usize;

    closed spec fn remaining(&self) -> Seq<usize> {
        range_elements(self.start, self.end)
    }

    closed spec fn hint_spec(&self) -> (usize, Option<usize>) {
        let n = if self.start <= self.end {
            (self.end - self.start) as usize
        } else {
            0usize
        };
        (n, Option::Some(n))
    }

    fn next(&mut self) -> (r: Option<usize>) {
        if self.start < self.end {
            let v = self.start;
            self.start = self.start + 1;
            proof {
                assert(final(self).remaining() =~= old(self).remaining().drop_first());
            }
            Option::Some(v)
        } else {
            Option::None
        }
    }

    fn size_hint(&self) -> (r: (usize, Option<usize>)) {
        let n = if self.start <= self.end {
            self.end - self.start
        } else {
            0
        };
        (n, Option::Some(n))
    }
}

/// An adapter that yields exactly the elements of its inner source while
/// reporting a coarser size hint, the way filtering and chaining stream
/// adapters do: the lower bound is lowered by a fixed slack, and the upper
/// bound is either kept or dropped entirely.
#[derive(Debug, Clone)]
pub struct LooseHint<S> {
    inner: S,
    slack: usize,
    keep_upper: bool,
}

impl<S: Source> LooseHint<S> {
    /// Wraps `inner`, lowering its reported lower bound by `slack` and
    /// dropping its upper bound unless `keep_upper` is set.
    pub fn new(inner: S, slack: usize, keep_upper: bool) -> (s: Self)
        ensures
            s.inner_of() == inner,
            s.remaining() == inner.remaining(),
            s.slack_spec() == slack,
            s.keeps_upper() == keep_upper,
    {
        LooseHint { inner, slack, keep_upper }
    }

    /// The wrapped source.
    pub closed spec fn inner_of(&self) -> S {
        self.inner
    }

    /// The slack subtracted from the inner lower bound.
    pub closed spec fn slack_spec(&self) -> usize {
        self.slack
    }

    /// How the coarsened bounds relate to the inner source's: the lower
    /// bound is the inner one less the slack, floored at zero; the upper
    /// bound is the inner one or absent.
    pub proof fn lemma_hint(&self)
        ensures
            self.remaining() == self.inner_of().remaining(),
            self.hint_spec().0 as int == (if self.inner_of().hint_spec().0
                >= self.slack_spec() {
                self.inner_of().hint_spec().0 - self.slack_spec()
            } else {
                0int
            }),
            self.hint_spec().1 == (if self.keeps_upper() {
                self.inner_of().hint_spec().1
            } else {
                Option::<usize>::None
            }),
    {
    }

    /// Whether the inner upper bound is passed through.
    pub closed spec fn keeps_upper(&self) -> bool {
        self.keep_upper
    }
}

impl<S: Source> Source for LooseHint<S> {
    type Item = S::Item;

    closed spec fn remaining(&self) -> Seq<S::Item> {
        self.inner.remaining()
    }

    closed spec fn hint_spec(&self) -> (usize, Option<usize>) {
        let lo = if self.inner.hint_spec().0 >= self.slack {
            (self.inner.hint_spec().0 - self.slack) as usize
        } else {
            0usize
        };
        (
            lo,
            if self.keep_upper {
                self.inner.hint_spec().1
            } else {
                Option::None
            },
        )
    }

    fn next(&mut self) -> (r: Option<S::Item>) {
        self.inner.next()
    }

    fn size_hint(&self) -> (r: (usize, Option<usize>)) {
        let (lo, hi) = self.inner.size_hint();
        let lo = if lo >= self.slack {
            lo - self.slack
        } else {
            0
        };
        (
            lo,
            if self.keep_upper {
                hi
            } else {
                Option::None
            },
        )
    }
}

} // verus!
