//! A k-way merging library, verified with Verus.
//!
//! Given a collection of input streams, each already ordered under a chosen
//! comparator, the library produces a single lazy output stream that at
//! every step emits the smallest head element among the live inputs.  It
//! does not sort: when an input is not ordered under the comparator, the
//! output is only correct relative to the heads.
//!
//! Two engines are provided:
//!
//! * [`MergedIter`], an index-based engine over growable storage, built
//!   through the [`Merged`] builder; it supports adding inputs mid-stream,
//!   replacing the comparator, and dismantling into the surviving inputs.
//! * [`MergeIter`], a two-tier heap engine over stationary slots addressed
//!   through a permuted pointer array, built from a [`VecStorage`] or an
//!   [`ArrayStorage`] through a [`merge_iter::Builder`].
//!
//! Contracts are stated against mathematical models: each input is a
//! [`Source`] modelled by the sequence of its remaining elements, each
//! engine by the sequence of its live `(head, rest)` slots, and the
//! intended output by the canonical merge sequence of that model (see
//! [`model`]).  The properties whole merges obey — permutation, local
//! minimality, stable tie-breaking, round trips — are written out in
//! [`laws`].

pub mod comparators;
pub mod internal;
pub mod model;
pub mod source;

pub use source::{RangeSource, Source, VecSource};

mod builder;
mod iter;

pub use builder::Merged;
pub use iter::MergedIter;

pub mod merge_iter;
pub mod storage;

pub use merge_iter::MergeIter;
pub use storage::{ArrayStorage, VecStorage};

mod convenience;

pub use convenience::{merge, merge_by, merge_by_key};

pub mod laws;
