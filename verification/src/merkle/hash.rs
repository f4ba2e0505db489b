//! The digests that an accumulator can be built on.

use vstd::prelude::*;

verus! {

/// The SHA3-256 digest of `data`.
pub uninterp spec fn sha3_256_of(data: Seq<u8>) -> Seq<u8>;

/// The SHA3-512 digest of `data`.
pub uninterp spec fn sha3_512_of(data: Seq<u8>) -> Seq<u8>;

/// Hashes `data` with SHA3-256.
///
/// Calls `Digest::digest` of `sha3::Sha3_256`, which hashes the whole input
/// at once and depends on nothing else. Its output is 32 bytes long.
#[verifier::external_body]
fn sha3_256(data: &[u8]) -> (out: Vec<u8>)
    ensures
        out@ == sha3_256_of(data@),
        out@.len() == 32,
{
    <sha3::Sha3_256 as digest::Digest>::digest(data).to_vec()
}

/// Hashes `data` with SHA3-512.
///
/// Calls `Digest::digest` of `sha3::Sha3_512`, which hashes the whole input
/// at once and depends on nothing else. Its output is 64 bytes long.
#[verifier::external_body]
fn sha3_512(data: &[u8]) -> (out: Vec<u8>)
    ensures
        out@ == sha3_512_of(data@),
        out@.len() == 64,
{
    <sha3::Sha3_512 as digest::Digest>::digest(data).to_vec()
}

/// `len` zero bytes.
pub open spec fn zeros(len: nat) -> Seq<u8> {
    Seq::new(len, |i: int| 0u8)
}

/// `bytes` where they are `len` long, and zeros otherwise.
pub open spec fn sized(bytes: Seq<u8>, len: nat) -> Seq<u8> {
    if bytes.len() == len {
        bytes
    } else {
        zeros(len)
    }
}

/// A hash function with an output of fixed length.
pub trait Hasher: Sized {
    /// The digest of `data`.
    spec fn digest(data: Seq<u8>) -> Seq<u8>;

    /// The length of every digest.
    spec fn output_len() -> nat;

    proof fn lemma_output(data: Seq<u8>)
        ensures
            Self::digest(data).len() == Self::output_len(),
            0 < Self::output_len(),
    ;

    /// A hasher that has seen nothing.
    fn new() -> Self;

    /// Hashes `data`.
    fn hash(&self, data: &[u8]) -> (out: Vec<u8>)
        ensures
            out@ == Self::digest(data@),
    ;

    /// The length of every digest.
    fn output_size() -> (n: usize)
        ensures
            n == Self::output_len(),
    ;
}

/// SHA3 with an output of 256 bits.
#[derive(Debug, Clone, Copy)]
pub struct Sha3_256;

/// SHA3 with an output of 512 bits.
#[derive(Debug, Clone, Copy)]
pub struct Sha3_512;

impl Hasher for Sha3_256 {
    open spec fn digest(data: Seq<u8>) -> Seq<u8> {
        sized(sha3_256_of(data), 32)
    }

    open spec fn output_len() -> nat {
        32
    }

    proof fn lemma_output(data: Seq<u8>) {
    }

    fn new() -> (r: Self) {
        Sha3_256
    }

    fn hash(&self, data: &[u8]) -> (out: Vec<u8>) {
        sha3_256(data)
    }

    fn output_size() -> (n: usize) {
        32
    }
}

impl Hasher for Sha3_512 {
    open spec fn digest(data: Seq<u8>) -> Seq<u8> {
        sized(sha3_512_of(data), 64)
    }

    open spec fn output_len() -> nat {
        64
    }

    proof fn lemma_output(data: Seq<u8>) {
    }

    fn new() -> (r: Self) {
        Sha3_512
    }

    fn hash(&self, data: &[u8]) -> (out: Vec<u8>) {
        sha3_512(data)
    }

    fn output_size() -> (n: usize) {
        64
    }
}

/// The hash that stands for "no root yet": zeros of the length of a digest.
pub open spec fn zero_hash<D: Hasher>() -> Seq<u8> {
    zeros(D::output_len())
}

/// `len` zero bytes.
pub fn zero_bytes(len: usize) -> (r: Vec<u8>)
    ensures
        r@ == zeros(len as nat),
{
    let mut out: Vec<u8> = Vec::new();
    let mut i: usize = 0;
    while i < len
        invariant
            i <= len,
            out@ == zeros(i as nat),
        decreases len - i,
    {
        out.push(0);
        assert(out@ =~= zeros((i + 1) as nat));
        i = i + 1;
    }
    out
}

} // verus!
