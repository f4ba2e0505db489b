//! The caches of pending edits, one kind for each shape of data, and what
//! keys and values must offer to be held in them.

pub mod doublekey_map;
pub mod map;
pub mod model;
pub mod types;
pub mod value;
pub mod vec;

pub use doublekey_map::DoubleKeyMap;
pub use map::MapModel;
pub use model::Model;
pub use value::Value;
pub use vec::{Vec, INDEX_VEC_LEN};

use crate::error::Error;
use crate::order::KeyOrder;
use vstd::prelude::*;

verus! {

/// A value that can be written to the store: it has a byte form, and bytes
/// can be read back as a value.
pub trait ValueType: View + Sized {
    /// The bytes that stand for a value.
    spec fn encode(v: Self::V) -> Seq<u8>;

    /// The value that bytes stand for, if they stand for one.
    spec fn decode(bytes: Seq<u8>) -> Option<Self::V>;

    /// Whether `v` is the view of a value of this type.
    spec fn valid(v: Self::V) -> bool;

    /// The bytes of a value stand for the value.
    proof fn lemma_faithful(v: Self::V)
        requires
            Self::valid(v),
        ensures
            Self::decode(Self::encode(v)) == Some(v),
    ;

    /// The bytes of this value.
    fn to_bytes(&self) -> (r: Result<std::vec::Vec<u8>, Error>)
        ensures
            r matches Ok(b) && b@ == Self::encode(self@) && Self::valid(self@),
    ;

    /// The value that `bytes` stand for.
    fn from_bytes(bytes: &[u8]) -> (r: Result<Self, Error>)
        ensures
            match Self::decode(bytes@) {
                Some(v) => r matches Ok(t) && t@ == v,
                None => r matches Err(e) && e == Error::CborDeIoError,
            },
    ;

    /// A second value with the same view.
    fn duplicate(&self) -> (r: Self)
        ensures
            r@ == self@,
    ;
}

/// A value that can be a key: it is a value, and keys are totally ordered.
pub trait KeyType: KeyOrder + ValueType {
}


} // verus!
