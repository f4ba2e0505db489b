//! The ways in which an operation on the store can fail.

use vstd::prelude::*;

verus! {

/// What went wrong. Every fallible function of this crate reports one of these.
#[derive(Debug, Clone, Copy, PartialEq, Eq, Structural)]
pub enum Error {
    /// The ordered store behind the storage reported a failure, or holds a
    /// record that no committed state can have produced.
    StoreError,
    /// A rollback named a height above the current one, or the height
    /// counter is exhausted.
    HeightError,
    BorrowMutError,
    BorrowError,
    LockReadError,
    /// The namespace was created for another kind of model.
    TypeMissMatch,
    /// A persisted record is too short to hold what it must.
    BytesLengthError,
    /// A persisted record starts with a discriminant that names no variant.
    TypeCodeError,
    TryFromIntError,
    TryFromSliceError,
    /// A key or a value could not be turned into bytes.
    CborSerError,
    /// The bytes of a key or a value do not decode.
    CborDeIoError,
    /// A list index beyond the end of the list.
    OutOffIndex,
}

} // verus!
