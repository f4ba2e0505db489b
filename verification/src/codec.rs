//! Keys and values as CBOR bytes.
//!
//! Integers and strings are written and read by `ciborium`. What it writes
//! for them is short enough to state; what it reads from arbitrary bytes is
//! not, and is only given a name.

use crate::error::Error;
use vstd::prelude::*;
use vstd::utf8::encode_utf8;

verus! {

/// The last `width` digits of `n` in base 256, the most significant first.
pub open spec fn base256(n: nat, width: nat) -> Seq<u8>
    decreases width,
{
    if width == 0 {
        Seq::empty()
    } else {
        base256(n / 256, (width - 1) as nat).push((n % 256) as u8)
    }
}

/// The head of a CBOR item: the major type in the upper three bits of the
/// first byte, and the argument `n` in the lower five bits or in the one,
/// two, four or eight bytes that follow, whichever is the shortest.
pub open spec fn cbor_head(major: nat, n: nat) -> Seq<u8> {
    if n <= 23 {
        seq![(major * 32 + n) as u8]
    } else if n <= 0xff {
        seq![(major * 32 + 24) as u8] + base256(n, 1)
    } else if n <= 0xffff {
        seq![(major * 32 + 25) as u8] + base256(n, 2)
    } else if n <= 0xffff_ffff {
        seq![(major * 32 + 26) as u8] + base256(n, 4)
    } else {
        seq![(major * 32 + 27) as u8] + base256(n, 8)
    }
}

/// An unsigned integer as CBOR.
pub open spec fn cbor_u64(v: u64) -> Seq<u8> {
    cbor_head(0, v as nat)
}

/// A signed integer as CBOR.
pub open spec fn cbor_i64(v: i64) -> Seq<u8> {
    if v >= 0 {
        cbor_head(0, v as nat)
    } else {
        cbor_head(1, (-1 - v) as nat)
    }
}

/// A string as CBOR: a head with the length of its UTF-8 form, then that
/// form.
pub open spec fn cbor_text(s: Seq<char>) -> Seq<u8> {
    cbor_head(3, encode_utf8(s).len()) + encode_utf8(s)
}

/// The unsigned integer that `ciborium` reads from `bytes`, if it reads one.
pub uninterp spec fn cbor_read_u64(bytes: Seq<u8>) -> Option<u64>;

/// The signed integer that `ciborium` reads from `bytes`, if it reads one.
pub uninterp spec fn cbor_read_i64(bytes: Seq<u8>) -> Option<i64>;

/// The string that `ciborium` reads from `bytes`, if it reads one.
pub uninterp spec fn cbor_read_text(bytes: Seq<u8>) -> Option<Seq<char>>;

/// The unsigned integer that `bytes` stand for: the one that is written as
/// these bytes, where there is one, and otherwise whatever `ciborium` reads
/// from them.
pub open spec fn read_u64(bytes: Seq<u8>) -> Option<u64> {
    if exists|v: u64| cbor_u64(v) == bytes {
        Some(choose|v: u64| cbor_u64(v) == bytes)
    } else {
        cbor_read_u64(bytes)
    }
}

/// The signed integer that `bytes` stand for: the one that is written as
/// these bytes, where there is one, and otherwise whatever `ciborium` reads
/// from them.
pub open spec fn read_i64(bytes: Seq<u8>) -> Option<i64> {
    if exists|v: i64| cbor_i64(v) == bytes {
        Some(choose|v: i64| cbor_i64(v) == bytes)
    } else {
        cbor_read_i64(bytes)
    }
}

/// The string that `bytes` stand for: the one that is written as these
/// bytes, where there is one, and otherwise whatever `ciborium` reads from
/// them.
pub open spec fn read_text(bytes: Seq<u8>) -> Option<Seq<char>> {
    if exists|s: Seq<char>| cbor_text(s) == bytes {
        Some(choose|s: Seq<char>| cbor_text(s) == bytes)
    } else {
        cbor_read_text(bytes)
    }
}

/// 256 to the power of `width`.
pub open spec fn pow256(width: nat) -> nat
    decreases width,
{
    if width == 0 {
        1
    } else {
        256 * pow256((width - 1) as nat)
    }
}

pub proof fn lemma_base256_len(n: nat, width: nat)
    ensures
        base256(n, width).len() == width,
    decreases width,
{
    if width > 0 {
        lemma_base256_len(n / 256, (width - 1) as nat);
    }
}

/// Numbers that fit the width have different digits.
pub proof fn lemma_base256_injective(a: nat, b: nat, width: nat)
    requires
        a < pow256(width),
        b < pow256(width),
        base256(a, width) == base256(b, width),
    ensures
        a == b,
    decreases width,
{
    if width > 0 {
        let w = (width - 1) as nat;
        let pa = base256(a / 256, w);
        let pb = base256(b / 256, w);
        assert(base256(a, width).last() == (a % 256) as u8);
        assert(base256(b, width).last() == (b % 256) as u8);
        assert(base256(a, width).drop_last() =~= pa);
        assert(base256(b, width).drop_last() =~= pb);
        lemma_base256_injective(a / 256, b / 256, w);
    }
}

/// The number of bytes that follow the first byte of the head of `n`.
pub open spec fn head_width(n: nat) -> nat {
    if n <= 23 {
        0
    } else if n <= 0xff {
        1
    } else if n <= 0xffff {
        2
    } else if n <= 0xffff_ffff {
        4
    } else {
        8
    }
}

/// What follows the major type in the first byte of the head of `n`.
pub open spec fn head_code(n: nat) -> nat {
    if n <= 23 {
        n
    } else if n <= 0xff {
        24
    } else if n <= 0xffff {
        25
    } else if n <= 0xffff_ffff {
        26
    } else {
        27
    }
}

/// The shape of a head: its first byte and its length.
pub proof fn lemma_head_shape(major: nat, n: nat)
    requires
        major <= 7,
    ensures
        cbor_head(major, n).len() == 1 + head_width(n),
        cbor_head(major, n)[0] == (major * 32 + head_code(n)) as u8,
        head_width(n) > 0 ==> cbor_head(major, n).subrange(1, 1 + head_width(n) as int) == base256(
            n,
            head_width(n),
        ),
{
    lemma_base256_len(n, head_width(n));
    if head_width(n) > 0 {
        assert(cbor_head(major, n).subrange(1, 1 + head_width(n) as int)
            =~= base256(n, head_width(n)));
    }
}

/// Different arguments, or different major types, have different heads,
/// even where something follows the heads.
pub proof fn lemma_head_injective(
    major: nat,
    a: nat,
    other: nat,
    b: nat,
    rest_a: Seq<u8>,
    rest_b: Seq<u8>,
)
    requires
        major <= 7,
        other <= 7,
        a <= u64::MAX,
        b <= u64::MAX,
        cbor_head(major, a) + rest_a == cbor_head(other, b) + rest_b,
    ensures
        major == other,
        a == b,
        rest_a == rest_b,
{
    let x = cbor_head(major, a) + rest_a;
    let y = cbor_head(other, b) + rest_b;
    lemma_head_shape(major, a);
    lemma_head_shape(other, b);
    assert(x[0] == cbor_head(major, a)[0]);
    assert(y[0] == cbor_head(other, b)[0]);
    assert(major * 32 + head_code(a) == other * 32 + head_code(b));
    assert(major == other);
    assert(head_code(a) == head_code(b));
    let w = head_width(a) as int;
    assert(w == head_width(b));
    if w > 0 {
        assert(x.subrange(1, 1 + w) =~= cbor_head(major, a).subrange(1, 1 + w));
        assert(y.subrange(1, 1 + w) =~= cbor_head(other, b).subrange(1, 1 + w));
        assert(pow256(1) == 0x100 && pow256(2) == 0x1_0000 && pow256(4) == 0x1_0000_0000 && pow256(
            8,
        ) == 0x1_0000_0000_0000_0000) by {
            reveal_with_fuel(pow256, 9);
        }
        lemma_base256_injective(a, b, w as nat);
    }
    assert(rest_a =~= x.skip(1 + w));
    assert(rest_b =~= y.skip(1 + w));
}

/// Different integers are written as different bytes.
pub proof fn lemma_cbor_u64_injective(a: u64, b: u64)
    requires
        cbor_u64(a) == cbor_u64(b),
    ensures
        a == b,
{
    assert(cbor_u64(a) + Seq::<u8>::empty() =~= cbor_u64(a));
    assert(cbor_u64(b) + Seq::<u8>::empty() =~= cbor_u64(b));
    lemma_head_injective(0, a as nat, 0, b as nat, Seq::empty(), Seq::empty());
}

/// Different integers are written as different bytes.
pub proof fn lemma_cbor_i64_injective(a: i64, b: i64)
    requires
        cbor_i64(a) == cbor_i64(b),
    ensures
        a == b,
{
    assert(cbor_i64(a) + Seq::<u8>::empty() =~= cbor_i64(a));
    assert(cbor_i64(b) + Seq::<u8>::empty() =~= cbor_i64(b));
    let ma: nat = if a >= 0 { 0 } else { 1 };
    let mb: nat = if b >= 0 { 0 } else { 1 };
    let na: nat = if a >= 0 { a as nat } else { (-1 - a) as nat };
    let nb: nat = if b >= 0 { b as nat } else { (-1 - b) as nat };
    lemma_head_injective(ma, na, mb, nb, Seq::empty(), Seq::empty());
}

/// Different strings are written as different bytes.
pub proof fn lemma_cbor_text_injective(a: Seq<char>, b: Seq<char>)
    requires
        encode_utf8(a).len() <= u64::MAX,
        encode_utf8(b).len() <= u64::MAX,
        cbor_text(a) == cbor_text(b),
    ensures
        a == b,
{
    lemma_head_injective(
        3,
        encode_utf8(a).len(),
        3,
        encode_utf8(b).len(),
        encode_utf8(a),
        encode_utf8(b),
    );
    vstd::utf8::encode_utf8_decode_utf8(a);
    vstd::utf8::encode_utf8_decode_utf8(b);
}

/// The bytes of an integer stand for the integer.
pub proof fn lemma_read_u64(v: u64)
    ensures
        read_u64(cbor_u64(v)) == Some(v),
{
    let found = choose|x: u64| cbor_u64(x) == cbor_u64(v);
    lemma_cbor_u64_injective(found, v);
}

/// The bytes of an integer stand for the integer.
pub proof fn lemma_read_i64(v: i64)
    ensures
        read_i64(cbor_i64(v)) == Some(v),
{
    let found = choose|x: i64| cbor_i64(x) == cbor_i64(v);
    lemma_cbor_i64_injective(found, v);
}

/// The bytes of a string that is not longer than a `u64` can tell stand for
/// the string.
pub proof fn lemma_read_text(s: Seq<char>)
    requires
        encode_utf8(s).len() <= u64::MAX,
    ensures
        read_text(cbor_text(s)) == Some(s),
{
    let found = choose|x: Seq<char>| cbor_text(x) == cbor_text(s);
    assert(cbor_text(found) == cbor_text(s));
    lemma_text_len(found, s);
    lemma_cbor_text_injective(found, s);
}

/// A string that is written as the bytes of a string that fits is no longer
/// than that one.
proof fn lemma_text_len(a: Seq<char>, b: Seq<char>)
    requires
        encode_utf8(b).len() <= u64::MAX,
        cbor_text(a) == cbor_text(b),
    ensures
        encode_utf8(a).len() <= u64::MAX,
{
    lemma_head_shape(3, encode_utf8(a).len());
    lemma_head_shape(3, encode_utf8(b).len());
    let la = encode_utf8(a).len();
    let lb = encode_utf8(b).len();
    assert(cbor_text(a).len() == 1 + head_width(la) + la);
    assert(cbor_text(b).len() == 1 + head_width(lb) + lb);
}

/// Writes `v` as CBOR.
///
/// Calls `ciborium::ser::into_writer` on a `u64`. It writes a head of major
/// type 0 with `v` as its argument. The writer is a byte vector, which takes every
/// write, so the call succeeds.
#[verifier::external_body]
fn cbor_write_u64(v: u64) -> (r: Result<Vec<u8>, Error>)
    ensures
        r is Ok && r->Ok_0@ == cbor_u64(v),
{
    let mut out: Vec<u8> = Vec::new();
    match ciborium::ser::into_writer(&v, &mut out) {
        Ok(()) => Ok(out),
        Err(_) => Err(Error::CborSerError),
    }
}

/// Reads a `u64` from CBOR.
///
/// Calls `ciborium::de::from_reader` for a `u64`. From the bytes that a
/// `u64` is written as it reads that `u64`. What it reads from other bytes is
/// named by `cbor_read_u64`; what it refuses is reported as `CborDeIoError`.
#[verifier::external_body]
fn cbor_read_u64_from(bytes: &[u8]) -> (r: Result<u64, Error>)
    ensures
        forall|v: u64| cbor_u64(v) == bytes@ ==> r is Ok && r->Ok_0 == v,
        (forall|v: u64| cbor_u64(v) != bytes@) ==> match cbor_read_u64(bytes@) {
            Some(v) => r matches Ok(x) && x == v,
            None => r matches Err(e) && e == Error::CborDeIoError,
        },
{
    match ciborium::de::from_reader::<u64, &[u8]>(bytes) {
        Ok(v) => Ok(v),
        Err(_) => Err(Error::CborDeIoError),
    }
}

/// Writes `v` as CBOR.
///
/// Calls `ciborium::ser::into_writer` on an `i64`. It writes a head of major
/// type 0 with `v` as its argument where `v` is not negative, and one of
/// major type 1 with `-1 - v` otherwise. The writer is a byte vector, which
/// takes every write, so the call succeeds.
#[verifier::external_body]
fn cbor_write_i64(v: i64) -> (r: Result<Vec<u8>, Error>)
    ensures
        r is Ok && r->Ok_0@ == cbor_i64(v),
{
    let mut out: Vec<u8> = Vec::new();
    match ciborium::ser::into_writer(&v, &mut out) {
        Ok(()) => Ok(out),
        Err(_) => Err(Error::CborSerError),
    }
}

/// Reads an `i64` from CBOR.
///
/// Calls `ciborium::de::from_reader` for an `i64`. From the bytes that an
/// `i64` is written as it reads that `i64`. What it reads from other bytes is
/// named by `cbor_read_i64`; what it refuses is reported as `CborDeIoError`.
#[verifier::external_body]
fn cbor_read_i64_from(bytes: &[u8]) -> (r: Result<i64, Error>)
    ensures
        forall|v: i64| cbor_i64(v) == bytes@ ==> r is Ok && r->Ok_0 == v,
        (forall|v: i64| cbor_i64(v) != bytes@) ==> match cbor_read_i64(bytes@) {
            Some(v) => r matches Ok(x) && x == v,
            None => r matches Err(e) && e == Error::CborDeIoError,
        },
{
    match ciborium::de::from_reader::<i64, &[u8]>(bytes) {
        Ok(v) => Ok(v),
        Err(_) => Err(Error::CborDeIoError),
    }
}

/// Writes `s` as CBOR.
///
/// Calls `ciborium::ser::into_writer` on a `str`. It writes a head of major
/// type 3 with the length of the string's bytes as its argument, then those
/// bytes. The writer is a byte vector, which takes
/// every write, so the call succeeds.
#[verifier::external_body]
fn cbor_write_text(s: &str) -> (r: Result<Vec<u8>, Error>)
    ensures
        r is Ok && r->Ok_0@ == cbor_text(s@),
{
    let mut out: Vec<u8> = Vec::new();
    match ciborium::ser::into_writer(s, &mut out) {
        Ok(()) => Ok(out),
        Err(_) => Err(Error::CborSerError),
    }
}

/// Reads a `String` from CBOR.
///
/// Calls `ciborium::de::from_reader` for a `String`. From the bytes that a
/// string is written as it reads that string. What it reads from other bytes
/// is named by `cbor_read_text`; what it refuses is reported as
/// `CborDeIoError`.
#[verifier::external_body]
fn cbor_read_text_from(bytes: &[u8]) -> (r: Result<String, Error>)
    ensures
        forall|s: Seq<char>| cbor_text(s) == bytes@ ==> r is Ok && r->Ok_0@ == s,
        (forall|s: Seq<char>| cbor_text(s) != bytes@) ==> match cbor_read_text(bytes@) {
            Some(s) => r matches Ok(t) && t@ == s,
            None => r matches Err(e) && e == Error::CborDeIoError,
        },
{
    match ciborium::de::from_reader::<String, &[u8]>(bytes) {
        Ok(v) => Ok(v),
        Err(_) => Err(Error::CborDeIoError),
    }
}

/// The bytes of `v`.
pub fn cbor_encode_u64(v: u64) -> (r: Result<Vec<u8>, Error>)
    ensures
        r matches Ok(b) && b@ == cbor_u64(v) && read_u64(b@) == Some(v),
{
    proof {
        lemma_read_u64(v);
    }
    cbor_write_u64(v)
}

/// The integer that `bytes` stand for.
pub fn cbor_decode_u64(bytes: &[u8]) -> (r: Result<u64, Error>)
    ensures
        match read_u64(bytes@) {
            Some(v) => r == Ok::<u64, Error>(v),
            None => r == Err::<u64, Error>(Error::CborDeIoError),
        },
{
    cbor_read_u64_from(bytes)
}

/// The bytes of `v`.
pub fn cbor_encode_i64(v: i64) -> (r: Result<Vec<u8>, Error>)
    ensures
        r matches Ok(b) && b@ == cbor_i64(v) && read_i64(b@) == Some(v),
{
    proof {
        lemma_read_i64(v);
    }
    cbor_write_i64(v)
}

/// The integer that `bytes` stand for.
pub fn cbor_decode_i64(bytes: &[u8]) -> (r: Result<i64, Error>)
    ensures
        match read_i64(bytes@) {
            Some(v) => r == Ok::<i64, Error>(v),
            None => r == Err::<i64, Error>(Error::CborDeIoError),
        },
{
    cbor_read_i64_from(bytes)
}

/// The bytes of `s`.
pub fn cbor_encode_text(s: &str) -> (r: Result<Vec<u8>, Error>)
    ensures
        encode_utf8(s@).len() <= u64::MAX,
        r matches Ok(b) && b@ == cbor_text(s@) && read_text(b@) == Some(s@),
{
    // The length of a string in memory fits a `usize`.
    let length: usize = s.as_bytes().len();
    assert(encode_utf8(s@).len() == length);
    proof {
        lemma_read_text(s@);
    }
    cbor_write_text(s)
}

/// The string that `bytes` stand for.
pub fn cbor_decode_text(bytes: &[u8]) -> (r: Result<String, Error>)
    ensures
        match read_text(bytes@) {
            Some(v) => r matches Ok(s) && s@ == v,
            None => r matches Err(e) && e == Error::CborDeIoError,
        },
{
    cbor_read_text_from(bytes)
}

} // verus!
