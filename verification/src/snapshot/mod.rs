//! Storage with snapshots: the keys, the records, the storage itself and the
//! transactions laid over it.

pub mod laws;
pub mod operation;
pub mod storage;
pub mod transaction;
pub mod utils;
pub mod value;

pub use storage::SnapshotableStorage;
pub use transaction::{Forkable, Transaction};
pub use value::{FromStoreBytes, StoreHeight, StoreType, StoreValue, ToStoreBytes};

use crate::bytes_ref::BytesRef;
use crate::error::Error;
use vstd::prelude::*;

verus! {

/// A store of one value as bytes.
pub trait KVStore {
    fn get(&self) -> Result<Option<BytesRef<'_>>, Error>;
}

} // verus!
