//! The keys of a store that is laid out by branch and version, and the
//! numbers in them.
//!
//! Every key starts with a byte that tells what kind of record it leads to.
//! Numbers are written as eight bytes, the most significant first, so that
//! keys sort as their numbers do.

use crate::error::Error;
use crate::types::{BranchName, VersionName};
use vstd::bytes::{
    lemma_auto_spec_u64_to_from_le_bytes, spec_u64_from_le_bytes, spec_u64_to_le_bytes,
    u64_from_le_bytes, u64_to_le_bytes,
};
use vstd::prelude::*;

verus! {

pub const STORE_TYPE_BRANCH_PRFIX: u8 = 0x01;

pub const STORE_TYPE_KEY_PRFIX: u8 = 0x02;

pub const STORE_TYPE_DATA_PRFIX: u8 = 0x03;

pub const STORE_TYPE_VERSION_PRFIX: u8 = 0x04;

/// A number as eight bytes, the most significant first.
pub open spec fn be_bytes(v: u64) -> Seq<u8> {
    spec_u64_to_le_bytes(v).reverse()
}

/// The number that eight bytes stand for, the most significant first.
pub open spec fn spec_read_be(bytes: Seq<u8>) -> u64 {
    spec_u64_from_le_bytes(bytes.reverse())
}

/// Eight bytes read back as the number they were made from.
pub proof fn lemma_be_round_trip(v: u64)
    ensures
        be_bytes(v).len() == 8,
        spec_read_be(be_bytes(v)) == v,
{
    lemma_auto_spec_u64_to_from_le_bytes();
    assert(spec_u64_to_le_bytes(v).reverse().reverse() =~= spec_u64_to_le_bytes(v));
}

/// Eight bytes are the bytes of the number they stand for.
pub proof fn lemma_be_parsed(bytes: Seq<u8>)
    requires
        bytes.len() == 8,
    ensures
        be_bytes(spec_read_be(bytes)) == bytes,
{
    lemma_auto_spec_u64_to_from_le_bytes();
    assert(bytes.reverse().len() == 8);
    assert(bytes.reverse().reverse() =~= bytes);
}

/// `bytes` in the opposite order.
fn reversed(bytes: &[u8]) -> (r: Vec<u8>)
    ensures
        r@ == bytes@.reverse(),
{
    let mut out: Vec<u8> = Vec::new();
    let mut i: usize = bytes.len();
    while i > 0
        invariant
            i <= bytes@.len(),
            out@.len() == bytes@.len() - i,
            forall|j: int| 0 <= j < out@.len() ==> out@[j] == bytes@[bytes@.len() - 1 - j],
        decreases i,
    {
        i = i - 1;
        out.push(bytes[i]);
    }
    assert(out@ =~= bytes@.reverse());
    out
}

/// A number as eight bytes, the most significant first.
pub fn u64_be_bytes(v: u64) -> (r: Vec<u8>)
    ensures
        r@ == be_bytes(v),
        r@.len() == 8,
{
    proof {
        lemma_auto_spec_u64_to_from_le_bytes();
    }
    let le = u64_to_le_bytes(v);
    reversed(le.as_slice())
}

/// The number that the eight bytes from `at` on stand for.
pub fn read_u64_be(bytes: &[u8], at: usize) -> (r: u64)
    requires
        at + 8 <= bytes@.len(),
    ensures
        r == spec_read_be(bytes@.subrange(at as int, at + 8)),
{
    let mut part: Vec<u8> = Vec::new();
    let mut i: usize = 0;
    let total: usize = bytes.len();
    while i < 8
        invariant
            i <= 8,
            total == bytes@.len(),
            at + 8 <= bytes@.len(),
            part@ == bytes@.subrange(at as int, at + i),
        decreases 8 - i,
    {
        part.push(bytes[at + i]);
        assert(part@ =~= bytes@.subrange(at as int, at + i + 1));
        i = i + 1;
    }
    let le = reversed(part.as_slice());
    u64_from_le_bytes(le.as_slice())
}

/// The key of the value of a key at a version of a branch.
pub open spec fn spec_data_store_key(branch_id: u64, key_id: u64, version_id: u64) -> Seq<u8> {
    seq![STORE_TYPE_DATA_PRFIX] + be_bytes(branch_id) + be_bytes(key_id) + be_bytes(version_id)
}

/// The key of the number of `key` in a branch.
pub open spec fn spec_key_store_key(branch_id: u64, key: Seq<u8>) -> Seq<u8> {
    seq![STORE_TYPE_KEY_PRFIX] + be_bytes(branch_id) + seq![key.len() as u8] + key
}

/// The key of the record of the branch `name`.
pub open spec fn spec_branch_store_key(name: Seq<u8>) -> Seq<u8> {
    seq![STORE_TYPE_BRANCH_PRFIX] + seq![name.len() as u8] + name
}

/// The key of the number of the version `name` in a branch.
pub open spec fn spec_version_store_key(branch_id: u64, name: Seq<u8>) -> Seq<u8> {
    seq![STORE_TYPE_VERSION_PRFIX] + be_bytes(branch_id) + seq![name.len() as u8] + name
}

/// The key of the value of the key `key_id` at the version `version_id` of
/// the branch `branch_id`.
pub fn data_store_key(branch_id: u64, key_id: u64, version_id: u64) -> (r: Vec<u8>)
    ensures
        r@ == spec_data_store_key(branch_id, key_id, version_id),
{
    let mut bytes: Vec<u8> = Vec::new();
    bytes.push(STORE_TYPE_DATA_PRFIX);
    let branch = u64_be_bytes(branch_id);
    bytes.extend_from_slice(branch.as_slice());
    let key = u64_be_bytes(key_id);
    bytes.extend_from_slice(key.as_slice());
    let version = u64_be_bytes(version_id);
    bytes.extend_from_slice(version.as_slice());
    assert(bytes@ =~= spec_data_store_key(branch_id, key_id, version_id));
    bytes
}

/// The key of the number of `key` in the branch `branch_id`. A key of more
/// than 255 bytes is refused with `TryFromIntError`.
pub fn key_store_key(branch_id: u64, key: &[u8]) -> (r: Result<Vec<u8>, Error>)
    ensures
        key@.len() <= 255 ==> (r matches Ok(b) && b@ == spec_key_store_key(branch_id, key@)),
        key@.len() > 255 ==> (r matches Err(e) && e == Error::TryFromIntError),
{
    if key.len() > 255 {
        return Err(Error::TryFromIntError);
    }
    let key_len: u8 = key.len() as u8;
    let mut bytes: Vec<u8> = Vec::new();
    bytes.push(STORE_TYPE_KEY_PRFIX);
    let branch = u64_be_bytes(branch_id);
    bytes.extend_from_slice(branch.as_slice());
    bytes.push(key_len);
    bytes.extend_from_slice(key);
    assert(bytes@ =~= spec_key_store_key(branch_id, key@));
    Ok(bytes)
}

/// The key of the record of a branch. A name of more than 255 bytes is
/// refused with `TryFromIntError`.
pub fn branch_store_key(branch_name: &BranchName) -> (r: Result<Vec<u8>, Error>)
    ensures
        branch_name.0@.len() <= 255 ==> (r matches Ok(b) && b@ == spec_branch_store_key(
            branch_name.0@,
        )),
        branch_name.0@.len() > 255 ==> (r matches Err(e) && e == Error::TryFromIntError),
{
    if branch_name.0.len() > 255 {
        return Err(Error::TryFromIntError);
    }
    let len: u8 = branch_name.0.len() as u8;
    let mut res: Vec<u8> = Vec::new();
    res.push(STORE_TYPE_BRANCH_PRFIX);
    res.push(len);
    res.extend_from_slice(branch_name.0.as_slice());
    assert(res@ =~= spec_branch_store_key(branch_name.0@));
    Ok(res)
}

/// The key of the number of a version in the branch `branch_id`. A name of
/// more than 255 bytes is refused with `TryFromIntError`.
pub fn version_store_key(branch_id: u64, version_name: &VersionName) -> (r: Result<Vec<u8>, Error>)
    ensures
        version_name.0@.len() <= 255 ==> (r matches Ok(b) && b@ == spec_version_store_key(
            branch_id,
            version_name.0@,
        )),
        version_name.0@.len() > 255 ==> (r matches Err(e) && e == Error::TryFromIntError),
{
    if version_name.0.len() > 255 {
        return Err(Error::TryFromIntError);
    }
    let len: u8 = version_name.0.len() as u8;
    let mut res: Vec<u8> = Vec::new();
    res.push(STORE_TYPE_VERSION_PRFIX);
    let branch = u64_be_bytes(branch_id);
    res.extend_from_slice(branch.as_slice());
    res.push(len);
    res.extend_from_slice(version_name.0.as_slice());
    assert(res@ =~= spec_version_store_key(branch_id, version_name.0@));
    Ok(res)
}

} // verus!
