//! The record that an accumulator persists for each height.

use crate::error::Error;
use crate::operation::{Operation, OperationBytes};
use crate::snapshot::value::{
    decode_operation_record, encode_operation_record, lemma_operation_record_parsed,
    operation_record, parse_operation_record, FromStoreBytes, ToStoreBytes,
};
use vstd::prelude::*;

verus! {

/// The hashes of one height, one after the other, as the payload of an
/// update.
pub struct MerkleValue {
    pub operation: OperationBytes,
}

impl ToStoreBytes for MerkleValue {
    open spec fn record(&self) -> Seq<u8> {
        operation_record(self.operation@)
    }

    fn to_bytes(&self) -> (r: Result<Vec<u8>, Error>) {
        Ok(encode_operation_record(&self.operation))
    }
}

impl FromStoreBytes for MerkleValue {
    open spec fn refusal(bytes: Seq<u8>) -> Option<Error> {
        match parse_operation_record(bytes) {
            Ok(_) => None,
            Err(e) => Some(e),
        }
    }

    fn from_bytes(bytes: &[u8]) -> (r: Result<Self, Error>)
        ensures
            r matches Ok(v) ==> parse_operation_record(bytes@) == Ok::<Operation<Seq<u8>>, Error>(
                v.operation@,
            ),
    {
        let operation = decode_operation_record(bytes)?;
        proof {
            lemma_operation_record_parsed(bytes@);
        }
        Ok(MerkleValue { operation })
    }
}

} // verus!
