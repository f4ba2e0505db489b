//! The order of keys: byte strings compare lexicographically, integers by
//! value, strings by their UTF-8 bytes.

use vstd::prelude::*;
use vstd::utf8::encode_utf8;

verus! {

/// Whether the part of `a` from index `i` on comes before the part of `b`
/// from index `i` on, byte by byte, a proper prefix coming first.
pub open spec fn lex_lt_from(a: Seq<u8>, b: Seq<u8>, i: int) -> bool
    decreases a.len() - i,
{
    if i >= b.len() {
        false
    } else if i >= a.len() {
        true
    } else if a[i] != b[i] {
        a[i] < b[i]
    } else {
        lex_lt_from(a, b, i + 1)
    }
}

/// Strict lexicographic order on byte strings.
pub open spec fn lex_lt(a: Seq<u8>, b: Seq<u8>) -> bool {
    lex_lt_from(a, b, 0)
}

/// Lexicographic order on byte strings.
pub open spec fn lex_le(a: Seq<u8>, b: Seq<u8>) -> bool {
    a == b || lex_lt(a, b)
}

/// Whether `a` and `b` agree on every index from `i` on, and end together.
pub open spec fn same_from(a: Seq<u8>, b: Seq<u8>, i: int) -> bool {
    a.len() == b.len() && forall|j: int| i <= j < a.len() ==> a[j] == b[j]
}

pub proof fn lemma_lex_irreflexive(a: Seq<u8>, i: int)
    requires
        0 <= i,
    ensures
        !lex_lt_from(a, a, i),
    decreases a.len() - i,
{
    if i < a.len() {
        lemma_lex_irreflexive(a, i + 1);
    }
}

pub proof fn lemma_lex_transitive(a: Seq<u8>, b: Seq<u8>, c: Seq<u8>, i: int)
    requires
        0 <= i,
        lex_lt_from(a, b, i),
        lex_lt_from(b, c, i),
    ensures
        lex_lt_from(a, c, i),
    decreases a.len() - i,
{
    if i < a.len() && i < b.len() && i < c.len() && a[i] == b[i] && b[i] == c[i] {
        lemma_lex_transitive(a, b, c, i + 1);
    }
}

pub proof fn lemma_lex_connected(a: Seq<u8>, b: Seq<u8>, i: int)
    requires
        0 <= i <= a.len(),
        i <= b.len(),
    ensures
        lex_lt_from(a, b, i) || lex_lt_from(b, a, i) || same_from(a, b, i),
    decreases a.len() - i,
{
    if i < a.len() && i < b.len() && a[i] == b[i] {
        lemma_lex_connected(a, b, i + 1);
    }
}

/// The order is strict and total: exactly one of `a < b`, `a == b`, `b < a`.
pub proof fn lemma_lex_trichotomy(a: Seq<u8>, b: Seq<u8>)
    ensures
        lex_lt(a, b) || lex_lt(b, a) || a == b,
        !(lex_lt(a, b) && lex_lt(b, a)),
        !(lex_lt(a, b) && a == b),
{
    lemma_lex_connected(a, b, 0);
    if !lex_lt(a, b) && !lex_lt(b, a) {
        assert(a =~= b);
    }
    if lex_lt(a, b) && lex_lt(b, a) {
        lemma_lex_transitive(a, b, a, 0);
        lemma_lex_irreflexive(a, 0);
    }
    lemma_lex_irreflexive(a, 0);
}

/// Two strings that agree before index `i` compare as their parts from `i`
/// on do.
pub proof fn lemma_lex_skip_equal(a: Seq<u8>, b: Seq<u8>, i: int)
    requires
        0 <= i <= a.len(),
        i <= b.len(),
        forall|j: int| 0 <= j < i ==> a[j] == b[j],
    ensures
        lex_lt(a, b) == lex_lt_from(a, b, i),
    decreases i,
{
    if i > 0 {
        lemma_lex_skip_equal(a, b, i - 1);
    }
}

/// A common prefix does not change the order of two strings.
pub proof fn lemma_lex_common_prefix(p: Seq<u8>, x: Seq<u8>, y: Seq<u8>)
    ensures
        lex_lt(p + x, p + y) == lex_lt(x, y),
{
    lemma_lex_skip_equal(p + x, p + y, p.len() as int);
    lemma_lex_shift(p, x, y, 0);
}

proof fn lemma_lex_shift(p: Seq<u8>, x: Seq<u8>, y: Seq<u8>, i: int)
    requires
        0 <= i,
    ensures
        lex_lt_from(p + x, p + y, p.len() + i) == lex_lt_from(x, y, i),
    decreases x.len() - i,
{
    if i < x.len() && i < y.len() {
        assert((p + x)[p.len() + i] == x[i]);
        assert((p + y)[p.len() + i] == y[i]);
        if x[i] == y[i] {
            lemma_lex_shift(p, x, y, i + 1);
        }
    }
}

/// Whether `x` starts with `p`.
pub open spec fn starts_with(x: Seq<u8>, p: Seq<u8>) -> bool {
    x.len() >= p.len() && forall|j: int| 0 <= j < p.len() ==> x[j] == p[j]
}

proof fn lemma_between_step(p: Seq<u8>, a: Seq<u8>, b: Seq<u8>, x: Seq<u8>, i: int)
    requires
        0 <= i <= p.len(),
        x.len() >= i,
        forall|j: int| 0 <= j < i ==> x[j] == p[j],
        lex_le(p + a, x),
        lex_le(x, p + b),
    ensures
        starts_with(x, p),
    decreases p.len() - i,
{
    if i < p.len() {
        assert forall|j: int| 0 <= j < i implies (p + a)[j] == x[j] by {}
        assert forall|j: int| 0 <= j < i implies x[j] == (p + b)[j] by {}
        assert((p + a)[i] == p[i]);
        assert((p + b)[i] == p[i]);
        if p + a != x {
            lemma_lex_skip_equal(p + a, x, i);
        } else {
            assert(x[i] == p[i]);
        }
        if x != p + b {
            lemma_lex_skip_equal(x, p + b, i);
        } else {
            assert(x[i] == p[i]);
        }
        assert(x.len() > i);
        assert(x[i] == p[i]);
        lemma_between_step(p, a, b, x, i + 1);
    }
}

/// A string that lies between two strings with a common start has that
/// start too.
pub proof fn lemma_between_starts_with(p: Seq<u8>, a: Seq<u8>, b: Seq<u8>, x: Seq<u8>)
    requires
        lex_le(p + a, x),
        lex_le(x, p + b),
    ensures
        starts_with(x, p),
{
    lemma_between_step(p, a, b, x, 0);
}

/// Whether the bytes of `a` come strictly before those of `b`.
pub fn bytes_lt(a: &[u8], b: &[u8]) -> (r: bool)
    ensures
        r == lex_lt(a@, b@),
{
    let mut i: usize = 0;
    while i < a.len() && i < b.len()
        invariant
            i <= a.len(),
            i <= b.len(),
            forall|j: int| 0 <= j < i ==> a@[j] == b@[j],
        decreases a.len() - i,
    {
        if a[i] != b[i] {
            proof {
                lemma_lex_skip_equal(a@, b@, i as int);
            }
            return a[i] < b[i];
        }
        i = i + 1;
    }
    proof {
        lemma_lex_skip_equal(a@, b@, i as int);
    }
    i < b.len()
}

/// Whether `a` and `b` hold the same bytes.
pub fn bytes_eq(a: &[u8], b: &[u8]) -> (r: bool)
    ensures
        r == (a@ == b@),
{
    if a.len() != b.len() {
        return false;
    }
    let mut i: usize = 0;
    while i < a.len()
        invariant
            i <= a.len(),
            a.len() == b.len(),
            forall|j: int| 0 <= j < i ==> a@[j] == b@[j],
        decreases a.len() - i,
    {
        if a[i] != b[i] {
            return false;
        }
        i = i + 1;
    }
    assert(a@ =~= b@);
    true
}

/// A type whose values are totally ordered, the order being a property of
/// their views.
pub trait KeyOrder: View + Sized {
    /// The strict order.
    spec fn lt(a: Self::V, b: Self::V) -> bool;

    proof fn lemma_irreflexive(a: Self::V)
        ensures
            !Self::lt(a, a),
    ;

    proof fn lemma_transitive(a: Self::V, b: Self::V, c: Self::V)
        requires
            Self::lt(a, b),
            Self::lt(b, c),
        ensures
            Self::lt(a, c),
    ;

    proof fn lemma_connected(a: Self::V, b: Self::V)
        ensures
            Self::lt(a, b) || Self::lt(b, a) || a == b,
    ;

    /// Whether `self` is ordered strictly before `other`.
    fn precedes(&self, other: &Self) -> (r: bool)
        ensures
            r == Self::lt(self@, other@),
    ;
}

/// Whether `a` and `b` have the same view.
pub fn key_eq<K: KeyOrder>(a: &K, b: &K) -> (r: bool)
    ensures
        r == (a@ == b@),
{
    proof {
        K::lemma_connected(a@, b@);
        K::lemma_irreflexive(a@);
    }
    !a.precedes(b) && !b.precedes(a)
}

impl KeyOrder for Vec<u8> {
    open spec fn lt(a: Seq<u8>, b: Seq<u8>) -> bool {
        lex_lt(a, b)
    }

    proof fn lemma_irreflexive(a: Seq<u8>) {
        lemma_lex_irreflexive(a, 0);
    }

    proof fn lemma_transitive(a: Seq<u8>, b: Seq<u8>, c: Seq<u8>) {
        lemma_lex_transitive(a, b, c, 0);
    }

    proof fn lemma_connected(a: Seq<u8>, b: Seq<u8>) {
        lemma_lex_trichotomy(a, b);
    }

    fn precedes(&self, other: &Self) -> (r: bool) {
        bytes_lt(self.as_slice(), other.as_slice())
    }
}

impl KeyOrder for String {
    open spec fn lt(a: Seq<char>, b: Seq<char>) -> bool {
        lex_lt(encode_utf8(a), encode_utf8(b))
    }

    proof fn lemma_irreflexive(a: Seq<char>) {
        lemma_lex_irreflexive(encode_utf8(a), 0);
    }

    proof fn lemma_transitive(a: Seq<char>, b: Seq<char>, c: Seq<char>) {
        lemma_lex_transitive(encode_utf8(a), encode_utf8(b), encode_utf8(c), 0);
    }

    proof fn lemma_connected(a: Seq<char>, b: Seq<char>) {
        lemma_lex_trichotomy(encode_utf8(a), encode_utf8(b));
        if encode_utf8(a) == encode_utf8(b) {
            vstd::utf8::encode_utf8_decode_utf8(a);
            vstd::utf8::encode_utf8_decode_utf8(b);
        }
    }

    fn precedes(&self, other: &Self) -> (r: bool) {
        bytes_lt(self.as_str().as_bytes(), other.as_str().as_bytes())
    }
}

} // verus!
