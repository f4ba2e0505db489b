//! Operations on raw bytes, borrowed and owned.

use vstd::prelude::*;

verus! {

/// An operation whose bytes live elsewhere.
#[derive(Debug, PartialEq, Eq)]
pub enum Operation<'a> {
    Update(&'a [u8]),
    Delete,
}

/// An operation that owns its bytes.
#[derive(Debug, PartialEq, Eq)]
pub enum OperationOwned {
    Update(Vec<u8>),
    Delete,
}

/// The bytes of an update, and nothing for a tombstone.
pub open spec fn payload_of(op: Operation<'_>) -> Option<Seq<u8>> {
    match op {
        Operation::Update(v) => Some(v@),
        Operation::Delete => None,
    }
}

/// The bytes of an update, and nothing for a tombstone.
pub open spec fn owned_payload_of(op: OperationOwned) -> Option<Seq<u8>> {
    match op {
        OperationOwned::Update(v) => Some(v@),
        OperationOwned::Delete => None,
    }
}

impl<'a> Operation<'a> {
    /// The same operation with bytes of its own.
    pub fn to_operation_owned(self) -> (r: OperationOwned)
        ensures
            owned_payload_of(r) == payload_of(self),
    {
        match self {
            Operation::Update(v) => {
                let mut out: Vec<u8> = Vec::new();
                out.extend_from_slice(v);
                assert(out@ =~= v@);
                OperationOwned::Update(out)
            },
            Operation::Delete => OperationOwned::Delete,
        }
    }
}

impl OperationOwned {
    /// The same operation, borrowing the bytes.
    pub fn to_operation(&self) -> (r: Operation<'_>)
        ensures
            payload_of(r) == owned_payload_of(*self),
    {
        match self {
            OperationOwned::Update(v) => Operation::Update(v.as_slice()),
            OperationOwned::Delete => Operation::Delete,
        }
    }
}

} // verus!
