//! Records and names of a store that is laid out by branch and version.

pub mod store_key;
pub mod store_value;

pub use store_key::StoreKey;
pub use store_value::StoreValue;

use vstd::prelude::*;

verus! {

/// The name of a branch.
#[derive(Debug, Clone)]
pub struct BranchName(pub Vec<u8>);

/// The name of a version.
#[derive(Debug, Clone)]
pub struct VersionName(pub Vec<u8>);

} // verus!
