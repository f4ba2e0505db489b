//! The records that a storage persists, and their bytes.
//!
//! A data record is one byte that tells an update from a tombstone, followed
//! by the payload of an update. The height and the type tag are persisted as
//! little-endian integers.

use crate::error::Error;
use crate::operation::{Operation, OperationBytes};
use vstd::bytes::{
    lemma_auto_spec_u32_to_from_le_bytes, lemma_auto_spec_u64_to_from_le_bytes,
    spec_u32_from_le_bytes, spec_u32_to_le_bytes, spec_u64_from_le_bytes, spec_u64_to_le_bytes,
    u32_from_le_bytes, u32_to_le_bytes, u64_from_le_bytes, u64_to_le_bytes,
};
use vstd::prelude::*;

verus! {

/// The first byte of the record of an update.
pub const RECORD_UPDATE: u8 = 1;

/// The only byte of the record of a tombstone.
pub const RECORD_DELETE: u8 = 2;

/// The bytes of the record of `op`.
pub open spec fn operation_record(op: Operation<Seq<u8>>) -> Seq<u8> {
    match op {
        Operation::Update(b) => seq![RECORD_UPDATE] + b,
        Operation::Delete => seq![RECORD_DELETE],
    }
}

/// The operation that a record holds, or why it holds none.
pub open spec fn parse_operation_record(bytes: Seq<u8>) -> Result<Operation<Seq<u8>>, Error> {
    if bytes.len() == 0 {
        Err(Error::BytesLengthError)
    } else if bytes[0] == RECORD_UPDATE {
        Ok(Operation::Update(bytes.skip(1)))
    } else if bytes[0] == RECORD_DELETE {
        if bytes.len() == 1 {
            Ok(Operation::Delete)
        } else {
            Err(Error::BytesLengthError)
        }
    } else {
        Err(Error::TypeCodeError)
    }
}

/// The bytes of the record of a height.
pub open spec fn height_record(height: i64) -> Seq<u8> {
    spec_u64_to_le_bytes(height as u64)
}

/// The height that a record holds, or why it holds none.
pub open spec fn parse_height_record(bytes: Seq<u8>) -> Result<i64, Error> {
    if bytes.len() == 8 {
        Ok(spec_u64_from_le_bytes(bytes) as i64)
    } else {
        Err(Error::BytesLengthError)
    }
}

/// The bytes of the record of a type tag.
pub open spec fn type_record(ty: u32) -> Seq<u8> {
    spec_u32_to_le_bytes(ty)
}

/// The type tag that a record holds, or why it holds none.
pub open spec fn parse_type_record(bytes: Seq<u8>) -> Result<u32, Error> {
    if bytes.len() == 4 {
        Ok(spec_u32_from_le_bytes(bytes))
    } else {
        Err(Error::BytesLengthError)
    }
}

/// A record reads back as the operation it was made from.
pub proof fn lemma_operation_record_round_trip(op: Operation<Seq<u8>>)
    ensures
        parse_operation_record(operation_record(op)) == Ok::<Operation<Seq<u8>>, Error>(op),
{
    match op {
        Operation::Update(b) => {
            assert((seq![RECORD_UPDATE] + b).skip(1) =~= b);
        },
        Operation::Delete => {},
    }
}

/// A record that parses is the record of what it parses to.
pub proof fn lemma_operation_record_parsed(bytes: Seq<u8>)
    requires
        parse_operation_record(bytes) is Ok,
    ensures
        operation_record(parse_operation_record(bytes)->Ok_0) == bytes,
{
    if bytes[0] == RECORD_UPDATE {
        assert(seq![RECORD_UPDATE] + bytes.skip(1) =~= bytes);
    } else {
        assert(seq![RECORD_DELETE] =~= bytes);
    }
}

/// A height record reads back as the height it was made from.
pub proof fn lemma_height_record_round_trip(height: i64)
    ensures
        parse_height_record(height_record(height)) == Ok::<i64, Error>(height),
{
    lemma_auto_spec_u64_to_from_le_bytes();
    assert((height as u64) as i64 == height) by (bit_vector);
}

/// A type record reads back as the tag it was made from.
pub proof fn lemma_type_record_round_trip(ty: u32)
    ensures
        parse_type_record(type_record(ty)) == Ok::<u32, Error>(ty),
{
    lemma_auto_spec_u32_to_from_le_bytes();
}

/// Something that is persisted as a record.
pub trait ToStoreBytes {
    /// The bytes of the record.
    spec fn record(&self) -> Seq<u8>;

    fn to_bytes(&self) -> (r: Result<Vec<u8>, Error>)
        ensures
            r matches Ok(b) && b@ == self.record(),
    ;
}

/// Something that is read from a record.
pub trait FromStoreBytes: Sized + ToStoreBytes {
    /// Why `bytes` are no record, if they are none.
    spec fn refusal(bytes: Seq<u8>) -> Option<Error>;

    /// Reads a record. It is accepted exactly if it is the record of some
    /// value, and that value is returned.
    fn from_bytes(bytes: &[u8]) -> (r: Result<Self, Error>)
        ensures
            match Self::refusal(bytes@) {
                Some(e) => r matches Err(x) && x == e,
                None => r matches Ok(v) && v.record() == bytes@,
            },
    ;
}

/// Encodes an operation as a record.
pub fn encode_operation_record(op: &OperationBytes) -> (r: Vec<u8>)
    ensures
        r@ == operation_record(op@),
{
    let mut out: Vec<u8> = Vec::new();
    match op {
        Operation::Update(b) => {
            out.push(RECORD_UPDATE);
            out.extend_from_slice(b.as_slice());
            assert(out@ =~= operation_record(op@));
        },
        Operation::Delete => {
            out.push(RECORD_DELETE);
            assert(out@ =~= operation_record(op@));
        },
    }
    out
}

/// Decodes the record of an operation.
pub fn decode_operation_record(bytes: &[u8]) -> (r: Result<OperationBytes, Error>)
    ensures
        match parse_operation_record(bytes@) {
            Ok(op) => r matches Ok(o) && o@ == op,
            Err(e) => r matches Err(x) && x == e,
        },
{
    if bytes.len() == 0 {
        return Err(Error::BytesLengthError);
    }
    let tag: u8 = bytes[0];
    if tag == RECORD_UPDATE {
        let mut payload: Vec<u8> = Vec::new();
        let mut i: usize = 1;
        while i < bytes.len()
            invariant
                1 <= i <= bytes@.len(),
                payload@ == bytes@.subrange(1, i as int),
            decreases bytes@.len() - i,
        {
            payload.push(bytes[i]);
            assert(payload@ =~= bytes@.subrange(1, i as int + 1));
            i = i + 1;
        }
        assert(payload@ =~= bytes@.skip(1));
        Ok(Operation::Update(payload))
    } else if tag == RECORD_DELETE {
        if bytes.len() == 1 {
            Ok(Operation::Delete)
        } else {
            Err(Error::BytesLengthError)
        }
    } else {
        Err(Error::TypeCodeError)
    }
}

/// The record of one logical key at one height.
pub struct StoreValue {
    pub operation: OperationBytes,
}

impl ToStoreBytes for StoreValue {
    open spec fn record(&self) -> Seq<u8> {
        operation_record(self.operation@)
    }

    fn to_bytes(&self) -> (r: Result<Vec<u8>, Error>) {
        Ok(encode_operation_record(&self.operation))
    }
}

impl FromStoreBytes for StoreValue {
    open spec fn refusal(bytes: Seq<u8>) -> Option<Error> {
        match parse_operation_record(bytes) {
            Ok(_) => None,
            Err(e) => Some(e),
        }
    }

    fn from_bytes(bytes: &[u8]) -> (r: Result<Self, Error>)
        ensures
            r matches Ok(v) ==> parse_operation_record(bytes@) == Ok::<Operation<Seq<u8>>, Error>(
                v.operation@,
            ),
    {
        let operation = decode_operation_record(bytes)?;
        proof {
            lemma_operation_record_parsed(bytes@);
        }
        Ok(StoreValue { operation })
    }
}

/// The record of the current height of a namespace.
pub struct StoreHeight {
    pub height: i64,
}

impl ToStoreBytes for StoreHeight {
    open spec fn record(&self) -> Seq<u8> {
        height_record(self.height)
    }

    fn to_bytes(&self) -> (r: Result<Vec<u8>, Error>) {
        Ok(u64_to_le_bytes(self.height as u64))
    }
}

impl FromStoreBytes for StoreHeight {
    open spec fn refusal(bytes: Seq<u8>) -> Option<Error> {
        match parse_height_record(bytes) {
            Ok(_) => None,
            Err(e) => Some(e),
        }
    }

    fn from_bytes(bytes: &[u8]) -> (r: Result<Self, Error>)
        ensures
            r matches Ok(v) ==> parse_height_record(bytes@) == Ok::<i64, Error>(v.height),
    {
        if bytes.len() != 8 {
            return Err(Error::BytesLengthError);
        }
        let raw: u64 = u64_from_le_bytes(bytes);
        let height: i64 = raw as i64;
        proof {
            lemma_auto_spec_u64_to_from_le_bytes();
            assert((raw as i64) as u64 == raw) by (bit_vector);
        }
        Ok(StoreHeight { height })
    }
}

/// The record of the kind of model that owns a namespace.
pub struct StoreType {
    pub ty: u32,
}

impl ToStoreBytes for StoreType {
    open spec fn record(&self) -> Seq<u8> {
        type_record(self.ty)
    }

    fn to_bytes(&self) -> (r: Result<Vec<u8>, Error>) {
        Ok(u32_to_le_bytes(self.ty))
    }
}

impl FromStoreBytes for StoreType {
    open spec fn refusal(bytes: Seq<u8>) -> Option<Error> {
        match parse_type_record(bytes) {
            Ok(_) => None,
            Err(e) => Some(e),
        }
    }

    fn from_bytes(bytes: &[u8]) -> (r: Result<Self, Error>)
        ensures
            r matches Ok(v) ==> parse_type_record(bytes@) == Ok::<u32, Error>(v.ty),
    {
        if bytes.len() != 4 {
            return Err(Error::BytesLengthError);
        }
        let ty: u32 = u32_from_le_bytes(bytes);
        proof {
            lemma_auto_spec_u32_to_from_le_bytes();
        }
        Ok(StoreType { ty })
    }
}

} // verus!
