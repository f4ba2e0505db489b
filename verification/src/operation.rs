//! What a cache records of a key: a new value, or that the key is gone.

use crate::error::Error;
use crate::model::ValueType;
use vstd::prelude::*;

verus! {

/// A pending edit, and also a persisted record: either a value that takes
/// the place of whatever was there, or a tombstone.
#[derive(Debug, Clone, PartialEq, Eq)]
pub enum Operation<T> {
    Update(T),
    Delete,
}

/// An operation on encoded bytes.
pub type OperationBytes = Operation<Vec<u8>>;

impl<T: View> View for Operation<T> {
    type V = Operation<T::V>;

    open spec fn view(&self) -> Operation<T::V> {
        match self {
            Operation::Update(t) => Operation::Update(t@),
            Operation::Delete => Operation::Delete,
        }
    }
}

/// The operation with its value as bytes.
pub open spec fn encode_operation<T: ValueType>(op: Operation<T::V>) -> Operation<Seq<u8>> {
    match op {
        Operation::Update(v) => Operation::Update(T::encode(v)),
        Operation::Delete => Operation::Delete,
    }
}

/// The operation with its bytes read as a value, if they stand for one.
pub open spec fn decode_operation<T: ValueType>(op: Operation<Seq<u8>>) -> Option<
    Operation<T::V>,
> {
    match op {
        Operation::Update(b) => match T::decode(b) {
            Some(v) => Some(Operation::Update(v)),
            None => None,
        },
        Operation::Delete => Some(Operation::Delete),
    }
}

/// Whether the value of `op`, where it has one, is the view of a value of
/// the type.
pub open spec fn valid_operation<T: ValueType>(op: Operation<T::V>) -> bool {
    op matches Operation::Update(v) ==> T::valid(v)
}

/// An operation as bytes reads back as the operation.
pub proof fn lemma_operation_faithful<T: ValueType>(op: Operation<T::V>)
    requires
        valid_operation::<T>(op),
    ensures
        decode_operation::<T>(encode_operation::<T>(op)) == Some(op),
{
    match op {
        Operation::Update(v) => T::lemma_faithful(v),
        Operation::Delete => {},
    }
}

/// The value that an operation leaves behind: the new value, or nothing
/// where it is a tombstone.
pub open spec fn outcome<A>(op: Operation<A>) -> Option<A> {
    match op {
        Operation::Update(v) => Some(v),
        Operation::Delete => None,
    }
}

impl<T: ValueType> Operation<T> {
    /// The operation with its value as bytes.
    pub fn to_bytes(&self) -> (r: Result<OperationBytes, Error>)
        ensures
            r matches Ok(b) && b@ == encode_operation::<T>(self@) && valid_operation::<T>(self@),
    {
        match self {
            Operation::Update(v) => {
                let bytes = v.to_bytes()?;
                Ok(Operation::Update(bytes))
            },
            Operation::Delete => Ok(Operation::Delete),
        }
    }

    /// The operation that `bytes` stand for.
    pub fn from_bytes(bytes: &OperationBytes) -> (r: Result<Self, Error>)
        ensures
            match decode_operation::<T>(bytes@) {
                Some(op) => r matches Ok(o) && o@ == op,
                None => r matches Err(e) && e == Error::CborDeIoError,
            },
    {
        match bytes {
            Operation::Update(v) => {
                let value = T::from_bytes(v.as_slice())?;
                Ok(Operation::Update(value))
            },
            Operation::Delete => Ok(Operation::Delete),
        }
    }

    /// A second operation with the same view.
    pub fn duplicate(&self) -> (r: Self)
        ensures
            r@ == self@,
    {
        match self {
            Operation::Update(v) => Operation::Update(v.duplicate()),
            Operation::Delete => Operation::Delete,
        }
    }
}

} // verus!
