//! Storage backends for the heap engine.

pub(crate) mod array;
pub(crate) mod vec;

pub use array::{ArrayCapacityOverflow, ArrayStorage, InternalArrayStorage};
pub use vec::{InternalVecStorage, VecStorage};

use vstd::prelude::*;
use crate::comparators::tie_breaker::InsertionOrder;
use crate::comparators::ByOrd;
use crate::internal::{slots_model, storage_bijective, BaseStorage, StorageOps};
use crate::merge_iter::{Builder, DefaultBuilder};

verus! {

/// Marker trait for engine-ready storage: anything exposing the slot and
/// pointer arrays can be handed to a builder.
pub trait Storage: StorageOps + Sized {
    /// Creates a builder with the default comparator and tie-breaker for
    /// this storage.
    fn into_builder(self) -> (b: DefaultBuilder<Self>)
        ensures
            b.cmp_of() == ByOrd,
            b.tb_of() == InsertionOrder,
            b.storage_model() == slots_model(self.slots()),
            b.storage_ready() == storage_bijective(self),
            b.storage_live_count() == self.ptrs().len(),
    {
        Builder::new(self, ByOrd, InsertionOrder)
    }
}

impl<S: StorageOps + Sized> Storage for S {

}

} // verus!
