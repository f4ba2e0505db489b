//! The cache of a map whose values can be reached by either of two keys.
//!
//! The first key leads to the second, the second to the value.

use crate::error::Error;
use crate::model::map::{
    edits_valid, lemma_entries_valid, lemma_operation_views_empty, lemma_operation_views_insert,
    lemma_operation_views_remove, lemma_operation_views_union, operation_views, pending_of,
    prefixed, push_pending,
};
use crate::model::model::{pairs_view, Model};
use crate::model::{KeyType, ValueType};
use crate::operation::{Operation, OperationBytes};
use crate::order::key_eq;
use crate::sorted::{lemma_at, lemma_index_of, SortedMap};
use vstd::prelude::*;

verus! {

/// What the logical key of a value starts with.
pub const VALUE_PREFIX: u8 = 1;

/// What the logical key of a link from a first key to a second starts with.
pub const LINK_PREFIX: u8 = 2;

/// The links with every update that leads to `key2` turned into a tombstone.
pub open spec fn without_links_to<A, B>(links: Map<A, Operation<B>>, key2: B) -> Map<
    A,
    Operation<B>,
> {
    Map::new(
        |k: A| links.contains_key(k),
        |k: A|
            if links[k] == Operation::Update(key2) {
                Operation::Delete
            } else {
                links[k]
            },
    )
}

/// Whether one of the first `done` keys of `marked` has the view `k`.
pub open spec fn marked_before<K: View>(marked: Seq<K>, done: int, k: K::V) -> bool {
    exists|j: int| 0 <= j < done && (#[trigger] marked[j])@ == k
}

/// The links with those of the first `done` keys of `marked` turned into
/// tombstones.
pub open spec fn partly_unlinked<K: View, B>(
    links: Map<K::V, Operation<B>>,
    marked: Seq<K>,
    done: int,
) -> Map<K::V, Operation<B>> {
    Map::new(
        |k: K::V| links.contains_key(k),
        |k: K::V|
            if marked_before(marked, done, k) {
                Operation::Delete
            } else {
                links[k]
            },
    )
}

/// Pending edits of the values, under their second keys, and of the links
/// from first keys to second keys.
#[derive(Debug, Clone)]
pub struct DoubleKeyMap<K1, K2, V> {
    pub cache: SortedMap<K2, Operation<V>>,
    pub key2key: SortedMap<K1, Operation<K2>>,
}

impl<K1: KeyType, K2: KeyType, V: ValueType> DoubleKeyMap<K1, K2, V> {
    /// The pending edits of the values.
    pub open spec fn values(&self) -> Map<K2::V, Operation<V::V>> {
        operation_views(self.cache@)
    }

    /// The pending edits of the links.
    pub open spec fn links(&self) -> Map<K1::V, Operation<K2::V>> {
        operation_views(self.key2key@)
    }

    /// The pending edit of the value under `key2`.
    pub fn get_value(&self, key2: &K2) -> (r: Option<&Operation<V>>)
        requires
            self.wf(),
        ensures
            match r {
                Some(op) => self.values().contains_key(key2@) && op@ == self.values()[key2@],
                None => !self.values().contains_key(key2@),
            },
    {
        self.cache.get(key2)
    }

    /// The pending edit of the link of `key1`.
    pub fn get_key2(&self, key1: &K1) -> (r: Option<&Operation<K2>>)
        requires
            self.wf(),
        ensures
            match r {
                Some(op) => self.links().contains_key(key1@) && op@ == self.links()[key1@],
                None => !self.links().contains_key(key1@),
            },
    {
        self.key2key.get(key1)
    }

    /// The pending edit of the value under `key2`, to be changed in place.
    pub fn get_mut_value(&mut self, key2: &K2) -> (r: Option<&mut Operation<V>>)
        requires
            old(self).wf(),
        ensures
            final(self).wf(),
            final(self).key2key == old(self).key2key,
            match r {
                Some(op) => old(self).values().contains_key(key2@)
                    && op@ == old(self).values()[key2@]
                        && final(self).values() == old(self).values().insert(
                    key2@,
                    (*final(op))@,
                ),
                None => !old(self).values().contains_key(key2@)
                    && final(self).values() == old(self).values(),
            },
    {
        let ghost before = self.cache@;
        match self.cache.get_mut(key2) {
            Some(op) => {
                proof {
                    lemma_operation_views_insert(before, key2@, *final(op));
                }
                Some(op)
            },
            None => None,
        }
    }

    /// The pending edit of the link of `key1`, to be changed in place.
    pub fn get_mut_key2(&mut self, key1: &K1) -> (r: Option<&mut Operation<K2>>)
        requires
            old(self).wf(),
        ensures
            final(self).wf(),
            final(self).cache == old(self).cache,
            match r {
                Some(op) => old(self).links().contains_key(key1@)
                    && op@ == old(self).links()[key1@]
                        && final(self).links() == old(self).links().insert(
                    key1@,
                    (*final(op))@,
                ),
                None => !old(self).links().contains_key(key1@)
                    && final(self).links() == old(self).links(),
            },
    {
        let ghost before = self.key2key@;
        match self.key2key.get_mut(key1) {
            Some(op) => {
                proof {
                    lemma_operation_views_insert(before, key1@, *final(op));
                }
                Some(op)
            },
            None => None,
        }
    }

    /// Forgets the edit of the value under `key2`, and hands it back.
    pub fn remove_operation(&mut self, key2: &K2) -> (r: Option<Operation<V>>)
        requires
            old(self).wf(),
        ensures
            final(self).wf(),
            final(self).key2key == old(self).key2key,
            final(self).values() == old(self).values().remove(key2@),
            match r {
                Some(gone) => old(self).values().contains_key(key2@)
                    && gone@ == old(self).values()[key2@],
                None => !old(self).values().contains_key(key2@),
            },
    {
        proof {
            lemma_operation_views_remove(self.cache@, key2@);
        }
        self.cache.remove(key2)
    }

    /// Forgets the edit of the link of `key1`, and hands it back.
    pub fn remove_key2(&mut self, key1: &K1) -> (r: Option<Operation<K2>>)
        requires
            old(self).wf(),
        ensures
            final(self).wf(),
            final(self).cache == old(self).cache,
            final(self).links() == old(self).links().remove(key1@),
            match r {
                Some(gone) => old(self).links().contains_key(key1@)
                    && gone@ == old(self).links()[key1@],
                None => !old(self).links().contains_key(key1@),
            },
    {
        proof {
            lemma_operation_views_remove(self.key2key@, key1@);
        }
        self.key2key.remove(key1)
    }

    /// Records `value` as the edit of the value under `key2`, and hands back
    /// the edit it replaces.
    pub fn insert_operation(&mut self, key2: K2, value: Operation<V>) -> (r: Option<Operation<V>>)
        requires
            old(self).wf(),
        ensures
            final(self).wf(),
            final(self).key2key == old(self).key2key,
            final(self).values() == old(self).values().insert(key2@, value@),
            match r {
                Some(gone) => old(self).values().contains_key(key2@)
                    && gone@ == old(self).values()[key2@],
                None => !old(self).values().contains_key(key2@),
            },
    {
        proof {
            lemma_operation_views_insert(self.cache@, key2@, value);
        }
        self.cache.insert(key2, value)
    }

    /// Records `key2` as the edit of the link of `key1`.
    pub fn insert_operation_key2(&mut self, key1: K1, key2: Operation<K2>)
        requires
            old(self).wf(),
        ensures
            final(self).wf(),
            final(self).cache == old(self).cache,
            final(self).links() == old(self).links().insert(key1@, key2@),
    {
        proof {
            lemma_operation_views_insert(self.key2key@, key1@, key2);
        }
        self.key2key.insert(key1, key2);
    }

    /// Turns every pending link to `key2` into a tombstone.
    pub fn unlink(&mut self, key2: &K2)
        requires
            old(self).wf(),
        ensures
            final(self).wf(),
            final(self).cache == old(self).cache,
            final(self).links() == without_links_to(old(self).links(), key2@),
    {
        let ghost s = self.key2key.seq();
        let ghost links = self.links();
        let mut found: Vec<K1> = Vec::new();
        let mut i: usize = 0;
        while i < self.key2key.len()
            invariant
                self.wf(),
                *self == *old(self),
                s == self.key2key.seq(),
                links == self.links(),
                i <= s.len(),
                forall|j: int|
                    0 <= j < found@.len() ==> links.contains_key(#[trigger] found@[j]@)
                        && links[found@[j]@] == Operation::Update(key2@),
                forall|n: int|
                    0 <= n < i && (#[trigger] s[n]).1@ == Operation::Update(key2@) ==> exists|
                        j: int,
                    |
                        0 <= j < found@.len() && (#[trigger] found@[j])@ == s[n].0@,
            decreases s.len() - i,
        {
            let entry = self.key2key.entry(i);
            let hit = match &entry.1 {
                Operation::Update(k) => key_eq(k, key2),
                Operation::Delete => false,
            };
            if hit {
                proof {
                    lemma_at(s, i as int);
                }
                let ghost before = found@;
                found.push(entry.0.duplicate());
                proof {
                    assert forall|n: int|
                        0 <= n < i + 1 && (#[trigger] s[n]).1@ == Operation::Update(
                            key2@,
                        ) implies exists|j: int|
                        0 <= j < found@.len() && (#[trigger] found@[j])@ == s[n].0@ by {
                        if n < i {
                            let j = choose|j: int|
                                0 <= j < before.len() && (#[trigger] before[j])@ == s[n].0@;
                            assert(found@[j] == before[j]);
                        } else {
                            assert(found@[found@.len() - 1]@ == s[n].0@);
                        }
                    }
                }
            }
            i = i + 1;
        }
        let ghost marked = found@;
        let mut done: usize = 0;
        assert(self.links() =~= partly_unlinked(links, marked, 0));
        while done < found.len()
            invariant
                self.wf(),
                self.cache == old(self).cache,
                marked == found@,
                done <= marked.len(),
                forall|j: int|
                    0 <= j < marked.len() ==> links.contains_key(#[trigger] marked[j]@)
                        && links[marked[j]@] == Operation::Update(key2@),
                self.links() == partly_unlinked(links, marked, done as int),
            decreases marked.len() - done,
        {
            let key1 = found[done].duplicate();
            self.insert_operation_key2(key1, Operation::Delete);
            proof {
                assert(self.links() =~= partly_unlinked(links, marked, done as int + 1)) by {
                    assert forall|k: K1::V| links.contains_key(k) implies (
                    #[trigger] self.links()[k])
                        == partly_unlinked(links, marked, done as int + 1)[k] by {
                        if marked_before(marked, done as int, k) {
                            let j = choose|j: int| 0 <= j < done && (#[trigger] marked[j])@ == k;
                            assert(marked_before(marked, done as int + 1, k));
                        }
                        if marked_before(marked, done as int + 1, k) && k != marked[done as int]@ {
                            let j = choose|j: int|
                                0 <= j < done + 1 && (#[trigger] marked[j])@ == k;
                            assert(marked_before(marked, done as int, k));
                        }
                    }
                }
            }
            done = done + 1;
        }
        proof {
            assert forall|k: K1::V| links.contains_key(k) implies (#[trigger] self.links()[k])
                == without_links_to(links, key2@)[k] by {
                if marked_before(marked, marked.len() as int, k) {
                    let j = choose|j: int| 0 <= j < marked.len() && (#[trigger] marked[j])@ == k;
                }
                if links[k] == Operation::Update(key2@) {
                    let n = lemma_index_of(s, k);
                    lemma_at(s, n);
                    let j = choose|j: int| 0 <= j < marked.len()
                        && (#[trigger] marked[j])@ == s[n].0@;
                    assert(marked_before(marked, marked.len() as int, k));
                }
            }
            assert(self.links() =~= without_links_to(links, key2@));
        }
    }

    /// Whether the value under `key2` has a pending edit.
    pub fn contains_opertaion(&self, key2: &K2) -> (r: bool)
        requires
            self.wf(),
        ensures
            r == self.values().contains_key(key2@),
    {
        self.cache.contains_key(key2)
    }
}

impl<K1: KeyType, K2: KeyType, V: ValueType> Default for DoubleKeyMap<K1, K2, V> {
    fn default() -> (r: Self)
        ensures
            r.wf(),
            r.cleared(),
    {
        proof {
            lemma_operation_views_empty::<K2::V, V>();
            lemma_operation_views_empty::<K1::V, K2>();
        }
        Self { cache: SortedMap::new(), key2key: SortedMap::new() }
    }
}

impl<K1: KeyType, K2: KeyType, V: ValueType> Model for DoubleKeyMap<K1, K2, V> {
    open spec fn wf(&self) -> bool {
        self.cache.wf() && self.key2key.wf()
    }

    /// The edits of the values in the order of their second keys, then the
    /// edits of the links in the order of their first keys.
    open spec fn pending(&self) -> Seq<(Seq<u8>, Operation<Seq<u8>>)> {
        prefixed(seq![VALUE_PREFIX], pending_of::<K2, V>(self.cache.seq())) + prefixed(
            seq![LINK_PREFIX],
            pending_of::<K1, K2>(self.key2key.seq()),
        )
    }

    open spec fn cleared(&self) -> bool {
        &&& self.cache.seq() == Seq::<(K2, Operation<V>)>::empty()
        &&& self.key2key.seq() == Seq::<(K1, Operation<K2>)>::empty()
        &&& self.values() == Map::<K2::V, Operation<V::V>>::empty()
        &&& self.links() == Map::<K1::V, Operation<K2::V>>::empty()
    }

    open spec fn spec_type_code() -> u32 {
        4
    }

    open spec fn encodable(&self) -> bool {
        edits_valid::<K2, V>(self.values()) && edits_valid::<K1, K2>(self.links())
    }

    open spec fn mergeable(&self, other: &Self) -> bool {
        true
    }

    /// Every edit of `other` is taken over; where both have an edit of a key,
    /// that of `other` stays.
    open spec fn merged(before: &Self, other: &Self, after: &Self) -> bool {
        &&& after.values() == before.values().union_prefer_right(other.values())
        &&& after.links() == before.links().union_prefer_right(other.links())
    }

    fn empty() -> (r: Self) {
        proof {
            lemma_operation_views_empty::<K2::V, V>();
            lemma_operation_views_empty::<K1::V, K2>();
        }
        Self { cache: SortedMap::new(), key2key: SortedMap::new() }
    }

    fn pending_operations(&self) -> (r: Result<Vec<(Vec<u8>, OperationBytes)>, Error>) {
        let mut out: Vec<(Vec<u8>, OperationBytes)> = Vec::new();
        let mut value_prefix: Vec<u8> = Vec::new();
        value_prefix.push(VALUE_PREFIX);
        let mut link_prefix: Vec<u8> = Vec::new();
        link_prefix.push(LINK_PREFIX);
        assert(pairs_view(out@) =~= Seq::empty());
        push_pending(&self.cache, value_prefix.as_slice(), &mut out)?;
        push_pending(&self.key2key, link_prefix.as_slice(), &mut out)?;
        proof {
            assert(value_prefix@ =~= seq![VALUE_PREFIX]);
            assert(link_prefix@ =~= seq![LINK_PREFIX]);
            assert(pairs_view(out@) =~= self.pending());
            lemma_entries_valid(self.cache.seq());
            lemma_entries_valid(self.key2key.seq());
        }
        Ok(out)
    }

    fn clear(&mut self) {
        proof {
            lemma_operation_views_empty::<K2::V, V>();
            lemma_operation_views_empty::<K1::V, K2>();
        }
        self.cache.clear();
        self.key2key.clear();
    }

    fn operations(&mut self) -> (r: Result<Vec<(Vec<u8>, OperationBytes)>, Error>) {
        let ops = self.pending_operations()?;
        self.clear();
        Ok(ops)
    }

    fn type_code(&self) -> (r: u32) {
        4
    }

    fn merge(&mut self, other: Self) {
        proof {
            lemma_operation_views_union(self.cache@, other.cache@);
            lemma_operation_views_union(self.key2key@, other.key2key@);
        }
        self.cache.append(other.cache);
        self.key2key.append(other.key2key);
    }
}

} // verus!
