//! The record of the number that a key was given.

use crate::error::Error;
use crate::utils::{be_bytes, lemma_be_round_trip, read_u64_be, spec_read_be, u64_be_bytes};
use vstd::prelude::*;

verus! {

/// The number under which the values of a key are kept.
#[derive(Debug, Clone)]
pub struct StoreKey {
    pub key_id: u64,
}

impl StoreKey {
    /// The record of the key: its number as eight bytes, the most
    /// significant first.
    pub open spec fn record(&self) -> Seq<u8> {
        be_bytes(self.key_id)
    }

    pub fn to_bytes(&self) -> (r: Result<Vec<u8>, Error>)
        ensures
            r matches Ok(b) && b@ == self.record(),
    {
        Ok(u64_be_bytes(self.key_id))
    }

    /// Reads a record. Anything but eight bytes is refused with
    /// `TryFromSliceError`.
    pub fn from_bytes(bytes: &[u8]) -> (r: Result<Self, Error>)
        ensures
            bytes@.len() != 8 ==> (r matches Err(e) && e == Error::TryFromSliceError),
            bytes@.len() == 8 ==> (r matches Ok(k) && k.key_id == spec_read_be(bytes@) && k.record()
                == bytes@),
    {
        if bytes.len() != 8 {
            return Err(Error::TryFromSliceError);
        }
        let key_id = read_u64_be(bytes, 0);
        proof {
            assert(bytes@.subrange(0, 8) =~= bytes@);
            crate::utils::lemma_be_parsed(bytes@);
        }
        Ok(Self { key_id })
    }
}

/// The record of a key reads back as the key.
pub proof fn lemma_store_key_round_trip(key_id: u64)
    ensures
        spec_read_be(be_bytes(key_id)) == key_id,
        be_bytes(key_id).len() == 8,
{
    lemma_be_round_trip(key_id);
}

} // verus!
