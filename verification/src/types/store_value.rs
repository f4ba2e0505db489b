//! The record of a value in a store that is laid out by branch and version.
//!
//! The first byte of a record tells what follows: the bytes of a value,
//! nothing, or the branch and the version at which the value is to be looked
//! up.

use crate::error::Error;
use crate::utils::{be_bytes, lemma_be_round_trip, read_u64_be, spec_read_be, u64_be_bytes};
use vstd::prelude::*;

verus! {

/// What a store holds for a key at a version.
#[derive(Debug, Clone)]
pub enum StoreValue {
    /// The value.
    Update(Vec<u8>),
    /// The key is gone.
    Delete,
    /// The value is that of the key at another version of another branch.
    Ref { branch_id: u64, version_id: u64 },
}

pub const STORE_VALUE_TYPE_INDEX_UPDATE: u8 = 1;

pub const STORE_VALUE_TYPE_INDEX_DELETE: u8 = 2;

pub const STORE_VALUE_TYPE_INDEX_REF: u8 = 3;

/// A record as a plain value.
pub enum StoreValueView {
    Update(Seq<u8>),
    Delete,
    Ref { branch_id: u64, version_id: u64 },
}

impl View for StoreValue {
    type V = StoreValueView;

    open spec fn view(&self) -> StoreValueView {
        match self {
            StoreValue::Update(d) => StoreValueView::Update(d@),
            StoreValue::Delete => StoreValueView::Delete,
            StoreValue::Ref { branch_id, version_id } => StoreValueView::Ref {
                branch_id: *branch_id,
                version_id: *version_id,
            },
        }
    }
}

/// The bytes of a record.
pub open spec fn store_value_record(v: StoreValueView) -> Seq<u8> {
    match v {
        StoreValueView::Update(d) => seq![STORE_VALUE_TYPE_INDEX_UPDATE] + d,
        StoreValueView::Delete => seq![STORE_VALUE_TYPE_INDEX_DELETE],
        StoreValueView::Ref { branch_id, version_id } => seq![STORE_VALUE_TYPE_INDEX_REF]
            + be_bytes(branch_id) + be_bytes(version_id),
    }
}

/// What a record holds, or why it holds nothing. After the byte of a
/// tombstone anything may follow; a reference must be two numbers of eight
/// bytes each.
pub open spec fn parse_store_value(bytes: Seq<u8>) -> Result<StoreValueView, Error> {
    if bytes.len() < 1 {
        Err(Error::BytesLengthError)
    } else if bytes[0] == STORE_VALUE_TYPE_INDEX_UPDATE {
        Ok(StoreValueView::Update(bytes.skip(1)))
    } else if bytes[0] == STORE_VALUE_TYPE_INDEX_DELETE {
        Ok(StoreValueView::Delete)
    } else if bytes[0] == STORE_VALUE_TYPE_INDEX_REF {
        if bytes.len() == 17 {
            Ok(
                StoreValueView::Ref {
                    branch_id: spec_read_be(bytes.subrange(1, 9)),
                    version_id: spec_read_be(bytes.subrange(9, 17)),
                },
            )
        } else {
            Err(Error::TryFromSliceError)
        }
    } else {
        Err(Error::TypeCodeError)
    }
}

/// A record reads back as the value it was made from.
pub proof fn lemma_store_value_round_trip(v: StoreValueView)
    ensures
        parse_store_value(store_value_record(v)) == Ok::<StoreValueView, Error>(v),
{
    match v {
        StoreValueView::Update(d) => {
            assert((seq![STORE_VALUE_TYPE_INDEX_UPDATE] + d).skip(1) =~= d);
        },
        StoreValueView::Delete => {},
        StoreValueView::Ref { branch_id, version_id } => {
            lemma_be_round_trip(branch_id);
            lemma_be_round_trip(version_id);
            let r = store_value_record(v);
            assert(r.subrange(1, 9) =~= be_bytes(branch_id));
            assert(r.subrange(9, 17) =~= be_bytes(version_id));
        },
    }
}

impl StoreValue {
    pub fn to_bytes(&self) -> (r: Result<Vec<u8>, Error>)
        ensures
            r matches Ok(b) && b@ == store_value_record(self@),
    {
        let mut res: Vec<u8> = Vec::new();
        match self {
            StoreValue::Update(d) => {
                res.push(STORE_VALUE_TYPE_INDEX_UPDATE);
                res.extend_from_slice(d.as_slice());
                assert(res@ =~= store_value_record(self@));
            },
            StoreValue::Delete => {
                res.push(STORE_VALUE_TYPE_INDEX_DELETE);
                assert(res@ =~= store_value_record(self@));
            },
            StoreValue::Ref { branch_id, version_id } => {
                res.push(STORE_VALUE_TYPE_INDEX_REF);
                let branch = u64_be_bytes(*branch_id);
                let version = u64_be_bytes(*version_id);
                res.extend_from_slice(branch.as_slice());
                res.extend_from_slice(version.as_slice());
                assert(res@ =~= store_value_record(self@));
            },
        }
        Ok(res)
    }

    /// Reads a record. An empty record is refused with `BytesLengthError`, a
    /// first byte that names no variant with `TypeCodeError`, and a
    /// reference of the wrong length with `TryFromSliceError`.
    pub fn from_bytes(bytes: &[u8]) -> (r: Result<Self, Error>)
        ensures
            match parse_store_value(bytes@) {
                Ok(v) => r matches Ok(x) && x@ == v,
                Err(e) => r matches Err(x) && x == e,
            },
    {
        if bytes.len() < 1 {
            return Err(Error::BytesLengthError);
        }
        let type_code: u8 = bytes[0];
        if type_code == STORE_VALUE_TYPE_INDEX_UPDATE {
            let mut data: Vec<u8> = Vec::new();
            let mut i: usize = 1;
            while i < bytes.len()
                invariant
                    1 <= i <= bytes@.len(),
                    data@ == bytes@.subrange(1, i as int),
                decreases bytes@.len() - i,
            {
                data.push(bytes[i]);
                assert(data@ =~= bytes@.subrange(1, i as int + 1));
                i = i + 1;
            }
            assert(data@ =~= bytes@.skip(1));
            Ok(StoreValue::Update(data))
        } else if type_code == STORE_VALUE_TYPE_INDEX_DELETE {
            Ok(StoreValue::Delete)
        } else if type_code == STORE_VALUE_TYPE_INDEX_REF {
            if bytes.len() != 17 {
                return Err(Error::TryFromSliceError);
            }
            let branch_id = read_u64_be(bytes, 1);
            let version_id = read_u64_be(bytes, 9);
            Ok(StoreValue::Ref { branch_id, version_id })
        } else {
            Err(Error::TypeCodeError)
        }
    }
}

} // verus!
