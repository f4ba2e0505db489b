//! What a store of any shape can be asked through bytes alone.

use crate::error::Error;
use vstd::prelude::*;

verus! {

/// A store that answers reads whose keys and values are bytes in a textual
/// form.
pub trait Tree {
    /// The value under `key`, and no bytes where there is none.
    fn tree_get(&self, key: &[u8]) -> Result<Vec<u8>, Error>;
}

} // verus!
