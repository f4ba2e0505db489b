//! A versioned key-value storage engine.
//!
//! Every commit of a storage advances its height by one and writes the
//! pending edits of its model cache under keys that carry the height, so that
//! the value of any key at any past height stays readable. A transaction is a
//! second cache laid over a storage; an optional Merkle accumulator folds
//! each committed batch into a running root.

pub mod backend;
pub mod bytes_ref;
pub mod codec;
pub mod cow_lite;
pub mod error;
pub mod merkle;
pub mod model;
pub mod operation;
pub mod order;
pub mod order_int;
pub mod prelude;
pub mod snapshot;
pub mod sorted;
pub mod storage;
pub mod store;
pub mod types;
pub mod utils;

pub use backend::Store;
pub use bytes_ref::BytesRef;
pub use cow_lite::{Cow, CowBytes};
pub use error::Error;
pub use operation::{Operation, OperationBytes};
pub use snapshot::utils::merkle_key;
pub use snapshot::{SnapshotableStorage, Transaction};
pub use store::{DoubleKeyMapStore, MapStore, ValueStore, VecStore};
