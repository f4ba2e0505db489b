//! The cache of a map from keys to values.

use crate::error::Error;
use crate::model::model::{pairs_view, Model};
use crate::model::{KeyType, ValueType};
use crate::operation::{encode_operation, valid_operation, Operation, OperationBytes};
use crate::sorted::{lemma_index_of, sorted, to_map, SortedMap};
use vstd::prelude::*;

verus! {

/// The views of the operations of a map.
pub open spec fn operation_views<A, T: View>(m: Map<A, Operation<T>>) -> Map<A, Operation<T::V>> {
    Map::new(|k: A| m.contains_key(k), |k: A| m[k]@)
}

pub proof fn lemma_operation_views_insert<A, T: View>(
    m: Map<A, Operation<T>>,
    k: A,
    op: Operation<T>,
)
    ensures
        operation_views(m.insert(k, op)) == operation_views(m).insert(k, op@),
{
    assert(operation_views(m.insert(k, op)) =~= operation_views(m).insert(k, op@));
}

pub proof fn lemma_operation_views_remove<A, T: View>(m: Map<A, Operation<T>>, k: A)
    ensures
        operation_views(m.remove(k)) == operation_views(m).remove(k),
{
    assert(operation_views(m.remove(k)) =~= operation_views(m).remove(k));
}

pub proof fn lemma_operation_views_union<A, T: View>(
    m: Map<A, Operation<T>>,
    n: Map<A, Operation<T>>,
)
    ensures
        operation_views(m.union_prefer_right(n)) == operation_views(m).union_prefer_right(
            operation_views(n),
        ),
{
    assert(operation_views(m.union_prefer_right(n)) =~= operation_views(m).union_prefer_right(
        operation_views(n),
    ));
}

pub proof fn lemma_operation_views_empty<A, T: View>()
    ensures
        operation_views(Map::<A, Operation<T>>::empty()) == Map::<A, Operation<T::V>>::empty(),
{
    assert(operation_views(Map::<A, Operation<T>>::empty()) =~= Map::<
        A,
        Operation<T::V>,
    >::empty());
}

/// The edits of a sorted cache as they are written: every entry in key
/// order, the key and the operation as bytes.
pub open spec fn pending_of<K: KeyType, V: ValueType>(s: Seq<(K, Operation<V>)>) -> Seq<
    (Seq<u8>, Operation<Seq<u8>>),
> {
    Seq::new(s.len(), |i: int| (K::encode(s[i].0@), encode_operation::<V>(s[i].1@)))
}

/// Whether every key and every new value among `s` is the view of a value of
/// its type.
pub open spec fn entries_valid<K: KeyType, V: ValueType>(s: Seq<(K, Operation<V>)>) -> bool {
    forall|i: int|
        0 <= i < s.len() ==> K::valid((#[trigger] s[i]).0@) && valid_operation::<V>(s[i].1@)
}

/// Whether every key of `m` and every new value in it is the view of a value
/// of its type.
pub open spec fn edits_valid<K: KeyType, V: ValueType>(m: Map<K::V, Operation<V::V>>) -> bool {
    forall|k: K::V| #[trigger] m.contains_key(k) ==> K::valid(k) && valid_operation::<V>(m[k])
}

/// What holds of the entries in order holds of the map they stand for.
pub proof fn lemma_entries_valid<K: KeyType, V: ValueType>(s: Seq<(K, Operation<V>)>)
    requires
        sorted(s),
        entries_valid(s),
    ensures
        edits_valid::<K, V>(operation_views(to_map(s))),
{
    let m = operation_views(to_map(s));
    assert forall|k: K::V| #[trigger] m.contains_key(k) implies K::valid(k)
        && valid_operation::<V>(m[k]) by {
        let i = lemma_index_of(s, k);
        assert(s[i].0@ == k);
    }
}

/// Appends the entries of `cache` to `out`, as bytes, each key behind
/// `prefix`.
pub fn push_pending<K: KeyType, V: ValueType>(
    cache: &SortedMap<K, Operation<V>>,
    prefix: &[u8],
    out: &mut Vec<(Vec<u8>, OperationBytes)>,
) -> (r: Result<(), Error>)
    requires
        cache.wf(),
    ensures
        r is Ok,
        pairs_view(final(out)@) == pairs_view(old(out)@) + prefixed(
            prefix@,
            pending_of(cache.seq()),
        ),
        entries_valid(cache.seq()),
{
    let ghost start = pairs_view(out@);
    let ghost all = prefixed(prefix@, pending_of(cache.seq()));
    let mut i: usize = 0;
    assert(pairs_view(out@) =~= start + all.take(0));
    while i < cache.len()
        invariant
            cache.wf(),
            i <= cache.seq().len(),
            all == prefixed(prefix@, pending_of(cache.seq())),
            pairs_view(out@) == start + all.take(i as int),
            entries_valid(cache.seq().take(i as int)),
        decreases cache.seq().len() - i,
    {
        let entry = cache.entry(i);
        let key_bytes = entry.0.to_bytes()?;
        let op_bytes = entry.1.to_bytes()?;
        let mut key: Vec<u8> = Vec::new();
        key.extend_from_slice(prefix);
        key.extend_from_slice(key_bytes.as_slice());
        assert(key@ =~= prefix@ + key_bytes@);
        let ghost before = pairs_view(out@);
        out.push((key, op_bytes));
        proof {
            let next = (prefix@ + key_bytes@, op_bytes@);
            assert(all[i as int] == next);
            assert(pairs_view(out@) =~= before.push(next));
            assert(all.take(i as int + 1) =~= all.take(i as int).push(next));
            assert(cache.seq().take(i as int + 1) =~= cache.seq().take(i as int).push(*entry));
        }
        assert(pairs_view(out@) =~= start + all.take(i as int + 1));
        i = i + 1;
    }
    assert(all.take(cache.seq().len() as int) =~= all);
    assert(cache.seq().take(cache.seq().len() as int) =~= cache.seq());
    Ok(())
}

/// A batch with `prefix` in front of every key.
pub open spec fn prefixed(prefix: Seq<u8>, batch: Seq<(Seq<u8>, Operation<Seq<u8>>)>) -> Seq<
    (Seq<u8>, Operation<Seq<u8>>),
> {
    Seq::new(batch.len(), |i: int| (prefix + batch[i].0, batch[i].1))
}

pub proof fn lemma_prefixed_empty(batch: Seq<(Seq<u8>, Operation<Seq<u8>>)>)
    ensures
        prefixed(Seq::empty(), batch) == batch,
{
    assert forall|i: int| 0 <= i < batch.len() implies prefixed(Seq::empty(), batch)[i]
        == batch[i] by {
        assert(Seq::<u8>::empty() + batch[i].0 =~= batch[i].0);
    }
    assert(prefixed(Seq::empty(), batch) =~= batch);
}

/// Pending edits of the entries of a map: for each key a new value or a
/// tombstone.
#[derive(Debug, Clone)]
pub struct MapModel<K, V> {
    pub value: SortedMap<K, Operation<V>>,
}

impl<K: KeyType, V: ValueType> View for MapModel<K, V> {
    type V = Map<K::V, Operation<V::V>>;

    open spec fn view(&self) -> Map<K::V, Operation<V::V>> {
        operation_views(self.value@)
    }
}

impl<K: KeyType, V: ValueType> Default for MapModel<K, V> {
    fn default() -> (r: Self)
        ensures
            r.value.wf(),
            r@ == Map::<K::V, Operation<V::V>>::empty(),
    {
        proof {
            lemma_operation_views_empty::<K::V, V>();
        }
        Self { value: SortedMap::new() }
    }
}

impl<K: KeyType, V: ValueType> Model for MapModel<K, V> {
    open spec fn wf(&self) -> bool {
        self.value.wf()
    }

    open spec fn pending(&self) -> Seq<(Seq<u8>, Operation<Seq<u8>>)> {
        pending_of(self.value.seq())
    }

    open spec fn cleared(&self) -> bool {
        self.value.seq() == Seq::<(K, Operation<V>)>::empty() && self@ == Map::<
            K::V,
            Operation<V::V>,
        >::empty()
    }

    open spec fn spec_type_code() -> u32 {
        3
    }

    open spec fn encodable(&self) -> bool {
        edits_valid::<K, V>(self@)
    }

    open spec fn mergeable(&self, other: &Self) -> bool {
        true
    }

    /// Every edit of `other` is taken over; where both have an edit of a key,
    /// that of `other` stays.
    open spec fn merged(before: &Self, other: &Self, after: &Self) -> bool {
        after@ == before@.union_prefer_right(other@)
    }

    fn empty() -> (r: Self) {
        proof {
            lemma_operation_views_empty::<K::V, V>();
        }
        Self { value: SortedMap::new() }
    }

    fn pending_operations(&self) -> (r: Result<Vec<(Vec<u8>, OperationBytes)>, Error>) {
        let mut out: Vec<(Vec<u8>, OperationBytes)> = Vec::new();
        let prefix: Vec<u8> = Vec::new();
        assert(pairs_view(out@) =~= Seq::empty());
        push_pending(&self.value, prefix.as_slice(), &mut out)?;
        proof {
            lemma_prefixed_empty(self.pending());
            assert(prefix@ =~= Seq::<u8>::empty());
            assert(pairs_view(out@) =~= self.pending());
            lemma_entries_valid(self.value.seq());
        }
        Ok(out)
    }

    fn clear(&mut self) {
        proof {
            lemma_operation_views_empty::<K::V, V>();
        }
        self.value.clear();
    }

    fn operations(&mut self) -> (r: Result<Vec<(Vec<u8>, OperationBytes)>, Error>) {
        let ops = self.pending_operations()?;
        self.clear();
        Ok(ops)
    }

    fn type_code(&self) -> (r: u32) {
        3
    }

    fn merge(&mut self, other: Self) {
        proof {
            lemma_operation_views_union(self.value@, other.value@);
        }
        self.value.append(other.value);
    }
}

} // verus!
