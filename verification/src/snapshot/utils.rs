//! The keys under which a storage keeps its records.
//!
//! All keys of a namespace start with the namespace's bytes. A data record is
//! keyed by the hex form of its logical key and by the height at which it was
//! written, the height as twenty decimal digits, so that the records of one
//! logical key sort by height.

use crate::order::{
    lemma_between_starts_with, lemma_lex_common_prefix, lemma_lex_irreflexive, lex_le, lex_lt,
    lex_lt_from, starts_with,
};
use vstd::prelude::*;
use vstd::utf8::encode_utf8;

verus! {

/// The lower-case hex digit of `n`, for `n` below sixteen.
pub open spec fn hex_digit(n: int) -> u8 {
    if n < 10 {
        (0x30 + n) as u8
    } else {
        (0x61 + n - 10) as u8
    }
}

/// The lower-case hex form of `bytes`: two digits a byte, the high half
/// first.
pub open spec fn hex_of(bytes: Seq<u8>) -> Seq<u8> {
    Seq::new(
        2 * bytes.len(),
        |i: int|
            hex_digit(
                if i % 2 == 0 {
                    bytes[i / 2] as int / 16
                } else {
                    bytes[i / 2] as int % 16
                },
            ),
    )
}

/// The last `width` decimal digits of `n`, padded with zeros on the left.
pub open spec fn digits(n: nat, width: nat) -> Seq<u8>
    decreases width,
{
    if width == 0 {
        Seq::empty()
    } else {
        digits(n / 10, (width - 1) as nat).push((0x30 + n % 10) as u8)
    }
}

/// Ten to the power of `width`.
pub open spec fn pow10(width: nat) -> nat
    decreases width,
{
    if width == 0 {
        1
    } else {
        10 * pow10((width - 1) as nat)
    }
}

/// A height as twenty characters: its decimal digits after zeros, a negative
/// height with a minus sign in front of nineteen digits.
pub open spec fn height_digits(height: int) -> Seq<u8> {
    if height >= 0 {
        digits(height as nat, 20)
    } else {
        seq![0x2du8] + digits((-height) as nat, 19)
    }
}

/// The bytes of `-ch`.
pub open spec fn height_suffix() -> Seq<u8> {
    seq![0x2du8, 0x63u8, 0x68u8]
}

/// The bytes of `-ty`.
pub open spec fn type_suffix() -> Seq<u8> {
    seq![0x2du8, 0x74u8, 0x79u8]
}

/// The bytes of `-kw-`.
pub open spec fn data_infix() -> Seq<u8> {
    seq![0x2du8, 0x6bu8, 0x77u8, 0x2du8]
}

/// The bytes of `-mr-`.
pub open spec fn merkle_infix() -> Seq<u8> {
    seq![0x2du8, 0x6du8, 0x72u8, 0x2du8]
}

/// The key of the record that holds the current height of `namespace`.
pub open spec fn spec_current_height_key(namespace: Seq<u8>) -> Seq<u8> {
    namespace + height_suffix()
}

/// The key of the record that holds the model type of `namespace`.
pub open spec fn spec_type_key(namespace: Seq<u8>) -> Seq<u8> {
    namespace + type_suffix()
}

/// What every data key of `key` in `namespace` starts with.
pub open spec fn data_prefix(namespace: Seq<u8>, key: Seq<u8>) -> Seq<u8> {
    namespace + data_infix() + hex_of(key) + seq![0x2du8]
}

/// The key of the record of `key` written at `height`.
pub open spec fn spec_storage_key(namespace: Seq<u8>, key: Seq<u8>, height: int) -> Seq<u8> {
    data_prefix(namespace, key) + height_digits(height)
}

/// The key of the Merkle record of `height`.
pub open spec fn spec_merkle_key(namespace: Seq<u8>, height: int) -> Seq<u8> {
    namespace + merkle_infix() + height_digits(height)
}

pub proof fn lemma_digits_len(n: nat, width: nat)
    ensures
        digits(n, width).len() == width,
    decreases width,
{
    if width > 0 {
        lemma_digits_len(n / 10, (width - 1) as nat);
    }
}

/// Two strings of one length keep their order when each is extended.
proof fn lemma_lex_extend(x: Seq<u8>, y: Seq<u8>, s: Seq<u8>, t: Seq<u8>, i: int)
    requires
        0 <= i,
        x.len() == y.len(),
        lex_lt_from(x, y, i),
    ensures
        lex_lt_from(x + s, y + t, i),
    decreases x.len() - i,
{
    if i < x.len() {
        assert((x + s)[i] == x[i]);
        assert((y + t)[i] == y[i]);
        if x[i] == y[i] {
            lemma_lex_extend(x, y, s, t, i + 1);
        }
    }
}

/// Among numbers that fit the width, a smaller number has the digits that
/// sort first.
pub proof fn lemma_digits_order(a: nat, b: nat, width: nat)
    requires
        a < b < pow10(width),
    ensures
        lex_lt(digits(a, width), digits(b, width)),
    decreases width,
{
    if width > 0 {
        let w = (width - 1) as nat;
        let pa = digits(a / 10, w);
        let pb = digits(b / 10, w);
        let da = (0x30 + a % 10) as u8;
        let db = (0x30 + b % 10) as u8;
        lemma_digits_len(a / 10, w);
        lemma_digits_len(b / 10, w);
        assert(pa.push(da) =~= pa + seq![da]);
        assert(pb.push(db) =~= pb + seq![db]);
        if a / 10 < b / 10 {
            lemma_digits_order(a / 10, b / 10, w);
            lemma_lex_extend(pa, pb, seq![da], seq![db], 0);
        } else {
            assert(a / 10 == b / 10);
            assert(da < db);
            lemma_lex_common_prefix(pa, seq![da], seq![db]);
            assert(lex_lt_from(seq![da], seq![db], 0));
        }
    }
}

/// For heights that are not negative, data keys of one logical key sort as
/// their heights do.
pub proof fn lemma_storage_key_order(namespace: Seq<u8>, key: Seq<u8>, low: int, high: int)
    requires
        0 <= low <= high <= i64::MAX,
    ensures
        lex_le(spec_storage_key(namespace, key, low), spec_storage_key(namespace, key, high)),
        low < high ==> lex_lt(
            spec_storage_key(namespace, key, low),
            spec_storage_key(namespace, key, high),
        ),
{
    if low < high {
        assert(pow10(20) == 100000000000000000000nat) by {
            reveal_with_fuel(pow10, 21);
        }
        lemma_digits_order(low as nat, high as nat, 20);
        lemma_lex_common_prefix(
            data_prefix(namespace, key),
            height_digits(low),
            height_digits(high),
        );
    }
}

/// Data keys of one logical key differ where their heights do.
pub proof fn lemma_storage_key_distinct(namespace: Seq<u8>, key: Seq<u8>, low: int, high: int)
    requires
        0 <= low < high <= i64::MAX,
    ensures
        spec_storage_key(namespace, key, low) != spec_storage_key(namespace, key, high),
{
    lemma_storage_key_order(namespace, key, low, high);
    lemma_lex_irreflexive(spec_storage_key(namespace, key, low), 0);
}

/// A hex digit is no hyphen, and different numbers have different digits.
pub proof fn lemma_hex_digit(a: int, b: int)
    requires
        0 <= a < 16,
        0 <= b < 16,
    ensures
        hex_digit(a) != 0x2d,
        hex_digit(a) == hex_digit(b) ==> a == b,
{
}

/// Different byte strings have different hex forms.
pub proof fn lemma_hex_injective(a: Seq<u8>, b: Seq<u8>)
    requires
        hex_of(a) == hex_of(b),
    ensures
        a == b,
{
    assert(a.len() == b.len()) by {
        assert(hex_of(a).len() == 2 * a.len());
        assert(hex_of(b).len() == 2 * b.len());
    }
    assert forall|i: int| 0 <= i < a.len() implies a[i] == b[i] by {
        let x = a[i] as int;
        let y = b[i] as int;
        assert(hex_of(a)[2 * i] == hex_digit(x / 16));
        assert(hex_of(b)[2 * i] == hex_digit(y / 16));
        assert(hex_of(a)[2 * i + 1] == hex_digit(x % 16));
        assert(hex_of(b)[2 * i + 1] == hex_digit(y % 16));
        lemma_hex_digit(x / 16, y / 16);
        lemma_hex_digit(x % 16, y % 16);
    }
    assert(a =~= b);
}

/// A data key that starts like the data keys of `key` is a data key of
/// `key`.
pub proof fn lemma_data_key_of(namespace: Seq<u8>, key: Seq<u8>, other: Seq<u8>, height: int)
    requires
        starts_with(spec_storage_key(namespace, other, height), data_prefix(namespace, key)),
    ensures
        other == key,
{
    let x = spec_storage_key(namespace, other, height);
    let p = data_prefix(namespace, key);
    let base: int = (namespace.len() + 4) as int;
    let n: int = (2 * other.len()) as int;
    let m: int = (2 * key.len()) as int;
    assert(hex_of(other).len() == n);
    assert(hex_of(key).len() == m);
    assert(p.len() == base + m + 1);
    assert(data_prefix(namespace, other).len() == base + n + 1);
    lemma_digits_len(0, 20);
    assert forall|j: int| 0 <= j < n implies x[base + j] == #[trigger] hex_of(other)[j] by {}
    assert forall|j: int| 0 <= j < m implies p[base + j] == #[trigger] hex_of(key)[j] by {}
    assert(x[base + n] == 0x2d);
    assert(p[base + m] == 0x2d);
    if n < m {
        assert(x[base + n] == p[base + n]);
        assert(p[base + n] == hex_of(key)[n]);
        lemma_hex_digit(key[n / 2] as int / 16, 0);
        lemma_hex_digit(key[n / 2] as int % 16, 0);
    } else if m < n {
        assert(x[base + m] == p[base + m]);
        assert(x[base + m] == hex_of(other)[m]);
        lemma_hex_digit(other[m / 2] as int / 16, 0);
        lemma_hex_digit(other[m / 2] as int % 16, 0);
    } else {
        assert forall|j: int| 0 <= j < n implies hex_of(other)[j] == hex_of(key)[j] by {
            assert(x[base + j] == p[base + j]);
        }
        assert(hex_of(other) =~= hex_of(key));
        lemma_hex_injective(other, key);
    }
}

/// Data keys of different logical keys differ.
pub proof fn lemma_storage_key_injective(
    namespace: Seq<u8>,
    key: Seq<u8>,
    other: Seq<u8>,
    height: int,
)
    requires
        spec_storage_key(namespace, key, height) == spec_storage_key(namespace, other, height),
    ensures
        key == other,
{
    lemma_data_key_of(namespace, key, other, height);
}

/// The key of the height record of a namespace starts like none of its data
/// keys.
pub proof fn lemma_height_key_apart(namespace: Seq<u8>, key: Seq<u8>)
    ensures
        !starts_with(spec_current_height_key(namespace), data_prefix(namespace, key)),
{
    let x = spec_current_height_key(namespace);
    let p = data_prefix(namespace, key);
    let at: int = (namespace.len() + 1) as int;
    assert(x[at] == 0x63);
    assert(p[at] == 0x6b);
}

/// The key of the type marker of a namespace starts like none of its data
/// keys.
pub proof fn lemma_type_key_apart(namespace: Seq<u8>, key: Seq<u8>)
    ensures
        !starts_with(spec_type_key(namespace), data_prefix(namespace, key)),
{
    let x = spec_type_key(namespace);
    let p = data_prefix(namespace, key);
    let at: int = (namespace.len() + 1) as int;
    assert(x[at] == 0x74);
    assert(p[at] == 0x6b);
}

/// A Merkle key of a namespace starts like none of its data keys.
pub proof fn lemma_merkle_key_apart(namespace: Seq<u8>, key: Seq<u8>, height: int)
    ensures
        !starts_with(spec_merkle_key(namespace, height), data_prefix(namespace, key)),
{
    let x = spec_merkle_key(namespace, height);
    let p = data_prefix(namespace, key);
    let at: int = (namespace.len() + 1) as int;
    assert(x[at] == 0x6d);
    assert(p[at] == 0x6b);
}

/// Whatever lies between two data keys of one logical key starts like its
/// data keys.
pub proof fn lemma_data_range(
    namespace: Seq<u8>,
    key: Seq<u8>,
    low: int,
    high: int,
    x: Seq<u8>,
)
    requires
        lex_le(spec_storage_key(namespace, key, low), x),
        lex_le(x, spec_storage_key(namespace, key, high)),
    ensures
        starts_with(x, data_prefix(namespace, key)),
{
    lemma_between_starts_with(
        data_prefix(namespace, key),
        height_digits(low),
        height_digits(high),
        x,
    );
}

/// The lower-case hex form of `data`, as bytes.
///
/// Calls `hex::encode`, which renders every byte as two characters of
/// `0123456789abcdef`, the high half first; the characters are handed on as
/// their bytes.
#[verifier::external_body]
fn hex_encode(data: &[u8]) -> (out: Vec<u8>)
    ensures
        out@ == hex_of(data@),
{
    hex::encode(data).into_bytes()
}

/// Appends the last `width` decimal digits of `n` to `out`.
fn push_digits(out: &mut Vec<u8>, n: u64, width: usize)
    ensures
        final(out)@ == old(out)@ + digits(n as nat, width as nat),
    decreases width,
{
    if width > 0 {
        push_digits(out, n / 10, width - 1);
        let digit: u8 = 0x30 + (n % 10) as u8;
        out.push(digit);
        assert(out@ =~= old(out)@ + digits(n as nat, width as nat));
    } else {
        assert(out@ =~= old(out)@ + digits(n as nat, width as nat));
    }
}

/// Appends the twenty characters of `height` to `out`.
fn push_height(out: &mut Vec<u8>, height: i64)
    ensures
        final(out)@ == old(out)@ + height_digits(height as int),
{
    if height >= 0 {
        push_digits(out, height as u64, 20);
    } else {
        let magnitude: u64 = (-(height + 1)) as u64 + 1;
        out.push(0x2d);
        push_digits(out, magnitude, 19);
        assert(out@ =~= old(out)@ + height_digits(height as int));
    }
}

/// The key of the record that holds the current height of `namespace`: the
/// namespace followed by `-ch`.
pub fn current_height_key(namespace: &String) -> (r: Vec<u8>)
    ensures
        r@ == spec_current_height_key(encode_utf8(namespace@)),
{
    let mut out: Vec<u8> = Vec::new();
    out.extend_from_slice(namespace.as_str().as_bytes());
    out.push(0x2d);
    out.push(0x63);
    out.push(0x68);
    assert(out@ =~= spec_current_height_key(encode_utf8(namespace@)));
    out
}

/// The key of the record that holds the model type of `namespace`: the
/// namespace followed by `-ty`.
pub fn type_key(namespace: &String) -> (r: Vec<u8>)
    ensures
        r@ == spec_type_key(encode_utf8(namespace@)),
{
    let mut out: Vec<u8> = Vec::new();
    out.extend_from_slice(namespace.as_str().as_bytes());
    out.push(0x2d);
    out.push(0x74);
    out.push(0x79);
    assert(out@ =~= spec_type_key(encode_utf8(namespace@)));
    out
}

/// The key of the record of `key` written at `height`: the namespace, `-kw-`,
/// the hex form of `key`, a hyphen, and the height as twenty characters.
pub fn storage_key(namespace: &str, key: &[u8], height: i64) -> (r: Vec<u8>)
    ensures
        r@ == spec_storage_key(encode_utf8(namespace@), key@, height as int),
{
    let mut out: Vec<u8> = Vec::new();
    out.extend_from_slice(namespace.as_bytes());
    out.push(0x2d);
    out.push(0x6b);
    out.push(0x77);
    out.push(0x2d);
    let hex = hex_encode(key);
    out.extend_from_slice(hex.as_slice());
    out.push(0x2d);
    assert(out@ =~= data_prefix(encode_utf8(namespace@), key@));
    push_height(&mut out, height);
    out
}

/// The key of the Merkle record of `height`: the namespace, `-mr-`, and the
/// height as twenty characters.
pub fn merkle_key(namespace: &str, height: i64) -> (r: Vec<u8>)
    ensures
        r@ == spec_merkle_key(encode_utf8(namespace@), height as int),
{
    let mut out: Vec<u8> = Vec::new();
    out.extend_from_slice(namespace.as_bytes());
    out.push(0x2d);
    out.push(0x6d);
    out.push(0x72);
    out.push(0x2d);
    assert(out@ =~= encode_utf8(namespace@) + merkle_infix());
    push_height(&mut out, height);
    out
}

} // verus!
