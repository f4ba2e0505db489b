//! What a storage asks of the store beneath it: point reads, reads of the
//! greatest key in a range, and batches that are written whole or not at all.

use crate::cow_lite::CowBytes;
use crate::error::Error;
use crate::order::{lemma_lex_transitive, lemma_lex_trichotomy, lex_le, lex_lt};
use vstd::prelude::*;

verus! {

/// A batch as pairs of byte strings.
pub open spec fn batch_view(batch: Seq<(Vec<u8>, Vec<u8>)>) -> Seq<(Seq<u8>, Seq<u8>)> {
    Seq::new(batch.len(), |i: int| (batch[i].0@, batch[i].1@))
}

/// The contents after every pair of `batch` has been written in turn; a key
/// that occurs twice keeps the later value.
pub open spec fn write_all(m: Map<Seq<u8>, Seq<u8>>, batch: Seq<(Seq<u8>, Seq<u8>)>) -> Map<
    Seq<u8>,
    Seq<u8>,
>
    decreases batch.len(),
{
    if batch.len() == 0 {
        m
    } else {
        write_all(m, batch.drop_last()).insert(batch.last().0, batch.last().1)
    }
}

/// A batch of one pair is a single write.
pub proof fn lemma_write_one(m: Map<Seq<u8>, Seq<u8>>, key: Seq<u8>, value: Seq<u8>)
    ensures
        write_all(m, Seq::<(Seq<u8>, Seq<u8>)>::empty().push((key, value))) == m.insert(key, value),
{
    reveal_with_fuel(write_all, 2);
    let batch = Seq::<(Seq<u8>, Seq<u8>)>::empty().push((key, value));
    assert(batch.drop_last() =~= Seq::<(Seq<u8>, Seq<u8>)>::empty());
}

/// A key that no pair of the batch has is as it was.
pub proof fn lemma_write_all_untouched(
    m: Map<Seq<u8>, Seq<u8>>,
    batch: Seq<(Seq<u8>, Seq<u8>)>,
    key: Seq<u8>,
)
    requires
        forall|i: int| 0 <= i < batch.len() ==> (#[trigger] batch[i]).0 != key,
    ensures
        lookup(write_all(m, batch), key) == lookup(m, key),
    decreases batch.len(),
{
    if batch.len() > 0 {
        assert(batch.last() == batch[batch.len() - 1]);
        assert forall|i: int| 0 <= i < batch.drop_last().len() implies (
        #[trigger] batch.drop_last()[i]).0 != key by {
            assert(batch.drop_last()[i] == batch[i]);
        }
        lemma_write_all_untouched(m, batch.drop_last(), key);
    }
}

/// A key holds the value of the last pair of the batch that has it.
pub proof fn lemma_write_all_last(
    m: Map<Seq<u8>, Seq<u8>>,
    batch: Seq<(Seq<u8>, Seq<u8>)>,
    i: int,
)
    requires
        0 <= i < batch.len(),
        forall|j: int| i < j < batch.len() ==> (#[trigger] batch[j]).0 != batch[i].0,
    ensures
        lookup(write_all(m, batch), batch[i].0) == Some(batch[i].1),
    decreases batch.len(),
{
    assert(batch.last() == batch[batch.len() - 1]);
    if i < batch.len() - 1 {
        assert forall|j: int| i < j < batch.drop_last().len() implies (
        #[trigger] batch.drop_last()[j]).0 != batch.drop_last()[i].0 by {
            assert(batch.drop_last()[j] == batch[j]);
            assert(batch.drop_last()[i] == batch[i]);
        }
        assert(batch.drop_last()[i] == batch[i]);
        lemma_write_all_last(m, batch.drop_last(), i);
    }
}

/// A key that is held after a batch was held before or is a key of the
/// batch.
pub proof fn lemma_write_all_dom(
    m: Map<Seq<u8>, Seq<u8>>,
    batch: Seq<(Seq<u8>, Seq<u8>)>,
    key: Seq<u8>,
)
    requires
        write_all(m, batch).contains_key(key),
    ensures
        m.contains_key(key) || exists|i: int| 0 <= i < batch.len()
            && (#[trigger] batch[i]).0 == key,
    decreases batch.len(),
{
    if batch.len() > 0 {
        assert(batch.last() == batch[batch.len() - 1]);
        if batch.last().0 != key {
            lemma_write_all_dom(m, batch.drop_last(), key);
            if !m.contains_key(key) {
                let i = choose|i: int|
                    0 <= i < batch.drop_last().len() && (#[trigger] batch.drop_last()[i]).0 == key;
                assert(batch[i] == batch.drop_last()[i]);
            }
        }
    }
}

/// Two maps that hold the same under every key of a range have the same
/// greatest entry there.
pub proof fn lemma_greatest_agree(
    m: Map<Seq<u8>, Seq<u8>>,
    n: Map<Seq<u8>, Seq<u8>>,
    low: Seq<u8>,
    high: Seq<u8>,
)
    requires
        forall|key: Seq<u8>|
            in_range(key, low, high) ==> #[trigger] lookup(m, key) == lookup(n, key),
    ensures
        greatest_in(m, low, high) == greatest_in(n, low, high),
{
    if exists|key: Seq<u8>| is_greatest_in(m, low, high, key) {
        let key = choose|key: Seq<u8>| is_greatest_in(m, low, high, key);
        assert(lookup(m, key) == lookup(n, key));
        assert forall|other: Seq<u8>| #[trigger]
            n.contains_key(other) && in_range(other, low, high) implies lex_le(other, key) by {
            assert(lookup(m, other) == lookup(n, other));
        }
        lemma_greatest_is(m, low, high, key);
        lemma_greatest_is(n, low, high, key);
    } else if exists|key: Seq<u8>| is_greatest_in(n, low, high, key) {
        let key = choose|key: Seq<u8>| is_greatest_in(n, low, high, key);
        assert(lookup(m, key) == lookup(n, key));
        assert forall|other: Seq<u8>| #[trigger]
            m.contains_key(other) && in_range(other, low, high) implies lex_le(other, key) by {
            assert(lookup(m, other) == lookup(n, other));
        }
        assert(is_greatest_in(m, low, high, key));
    }
}

/// A range can be cut down to any key above which it holds nothing.
pub proof fn lemma_greatest_shrink(
    m: Map<Seq<u8>, Seq<u8>>,
    low: Seq<u8>,
    middle: Seq<u8>,
    high: Seq<u8>,
)
    requires
        lex_le(middle, high),
        forall|key: Seq<u8>| #[trigger]
            m.contains_key(key) ==> !(lex_lt(middle, key) && lex_le(key, high)),
    ensures
        greatest_in(m, low, high) == greatest_in(m, low, middle),
{
    assert forall|key: Seq<u8>| #[trigger] m.contains_key(key) implies in_range(key, low, high)
        == in_range(key, low, middle) by {
        lemma_lex_trichotomy(key, middle);
        if lex_le(key, middle) && key != middle && middle != high {
            lemma_lex_transitive(key, middle, high, 0);
        }
    }
    if exists|key: Seq<u8>| is_greatest_in(m, low, high, key) {
        let key = choose|key: Seq<u8>| is_greatest_in(m, low, high, key);
        assert(is_greatest_in(m, low, middle, key));
        lemma_greatest_is(m, low, high, key);
        lemma_greatest_is(m, low, middle, key);
    } else if exists|key: Seq<u8>| is_greatest_in(m, low, middle, key) {
        let key = choose|key: Seq<u8>| is_greatest_in(m, low, middle, key);
        assert(is_greatest_in(m, low, high, key));
    }
}

/// Whether `key` lies between `low` and `high`, both included.
pub open spec fn in_range(key: Seq<u8>, low: Seq<u8>, high: Seq<u8>) -> bool {
    lex_le(low, key) && lex_le(key, high)
}

/// Whether `key` is the greatest key of `m` between `low` and `high`.
pub open spec fn is_greatest_in(
    m: Map<Seq<u8>, Seq<u8>>,
    low: Seq<u8>,
    high: Seq<u8>,
    key: Seq<u8>,
) -> bool {
    &&& m.contains_key(key)
    &&& in_range(key, low, high)
    &&& forall|other: Seq<u8>| #[trigger]
        m.contains_key(other) && in_range(other, low, high) ==> lex_le(other, key)
}

/// The value under the greatest key of `m` between `low` and `high`, both
/// included; `None` where `m` has no key there.
pub open spec fn greatest_in(m: Map<Seq<u8>, Seq<u8>>, low: Seq<u8>, high: Seq<u8>) -> Option<
    Seq<u8>,
> {
    if exists|key: Seq<u8>| is_greatest_in(m, low, high, key) {
        Some(m[choose|key: Seq<u8>| is_greatest_in(m, low, high, key)])
    } else {
        None
    }
}

/// The value under `key`, if `m` has one.
pub open spec fn lookup(m: Map<Seq<u8>, Seq<u8>>, key: Seq<u8>) -> Option<Seq<u8>> {
    if m.contains_key(key) {
        Some(m[key])
    } else {
        None
    }
}

/// The bytes of an optional value.
pub open spec fn bytes_of(value: Option<CowBytes<'_>>) -> Option<Seq<u8>> {
    match value {
        Some(v) => Some(v.value()@),
        None => None,
    }
}

pub proof fn lemma_greatest_is(
    m: Map<Seq<u8>, Seq<u8>>,
    low: Seq<u8>,
    high: Seq<u8>,
    key: Seq<u8>,
)
    requires
        is_greatest_in(m, low, high, key),
    ensures
        greatest_in(m, low, high) == Some(m[key]),
{
    let other = choose|other: Seq<u8>| is_greatest_in(m, low, high, other);
    assert(lex_le(other, key));
    assert(lex_le(key, other));
    lemma_lex_trichotomy(key, other);
}

pub proof fn lemma_greatest_none(m: Map<Seq<u8>, Seq<u8>>, low: Seq<u8>, high: Seq<u8>)
    requires
        forall|key: Seq<u8>| #[trigger] m.contains_key(key) ==> !in_range(key, low, high),
    ensures
        greatest_in(m, low, high) is None,
{
}

/// What a store holds: a value under each of its keys.
pub type Contents = Map<Seq<u8>, Seq<u8>>;

/// An ordered store of byte strings under byte-string keys.
pub trait Store: Sized {
    /// What the store holds.
    spec fn contents(&self) -> Contents;

    /// What the store keeps true of itself.
    spec fn wf(&self) -> bool;

    /// Whether the store never refuses a call. A store in memory is
    /// reliable; one that writes to a disk is not.
    spec fn reliable(&self) -> bool;

    /// Writes every pair of `batch`, in order, or none of them.
    fn execute(&mut self, batch: Vec<(Vec<u8>, Vec<u8>)>) -> (r: Result<(), Error>)
        requires
            old(self).wf(),
        ensures
            final(self).wf(),
            final(self).reliable() == old(self).reliable(),
            old(self).reliable() ==> r is Ok,
            r is Ok ==> final(self).contents() == write_all(
                old(self).contents(),
                batch_view(batch@),
            ),
            r is Err ==> final(self).contents() == old(self).contents(),
    ;

    /// Writes one pair: a batch of one.
    fn insert(&mut self, key: Vec<u8>, value: Vec<u8>) -> (r: Result<(), Error>)
        requires
            old(self).wf(),
        ensures
            final(self).wf(),
            final(self).reliable() == old(self).reliable(),
            old(self).reliable() ==> r is Ok,
            r is Ok ==> final(self).contents() == old(self).contents().insert(key@, value@),
            r is Err ==> final(self).contents() == old(self).contents(),
    {
        let mut batch: Vec<(Vec<u8>, Vec<u8>)> = Vec::new();
        batch.push((key, value));
        proof {
            assert(batch_view(batch@) =~= Seq::<(Seq<u8>, Seq<u8>)>::empty().push((key@, value@)));
            lemma_write_one(self.contents(), key@, value@);
        }
        self.execute(batch)
    }

    /// The value under the greatest key between `begin_key` and `end_key`,
    /// both included.
    fn get_in(&self, begin_key: &[u8], end_key: &[u8]) -> (r: Result<Option<CowBytes<'_>>, Error>)
        requires
            self.wf(),
        ensures
            self.reliable() ==> r is Ok,
            r matches Ok(v) ==> bytes_of(v) == greatest_in(self.contents(), begin_key@, end_key@),
    ;

    /// The value under `key`.
    fn get(&self, key: &[u8]) -> (r: Result<Option<CowBytes<'_>>, Error>)
        requires
            self.wf(),
        ensures
            self.reliable() ==> r is Ok,
            r matches Ok(v) ==> bytes_of(v) == lookup(self.contents(), key@),
    ;
}

} // verus!
