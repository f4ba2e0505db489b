//! Bytes that are either held or borrowed.

use vstd::prelude::*;

verus! {

pub enum BytesRef<'a> {
    Owned(Vec<u8>),
    Borrow(&'a [u8]),
}

impl<'a> BytesRef<'a> {
    /// The bytes, wherever they live.
    pub open spec fn bytes(self) -> Seq<u8> {
        match self {
            BytesRef::Owned(v) => v@,
            BytesRef::Borrow(v) => v@,
        }
    }

    /// Hands the bytes out as a vector, copying them only when they were
    /// borrowed.
    pub fn into(self) -> (r: Vec<u8>)
        ensures
            r@ == self.bytes(),
    {
        match self {
            BytesRef::Owned(v) => v,
            BytesRef::Borrow(v) => {
                let mut out: Vec<u8> = Vec::new();
                out.extend_from_slice(v);
                out
            },
        }
    }
}

} // verus!
