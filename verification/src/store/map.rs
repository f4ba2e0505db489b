//! A map from keys to values, as a storage and as a transaction offer it.

use crate::backend::store::Store;
use crate::cow_lite::Cow;
use crate::error::Error;
use crate::merkle::Merkle;
use crate::model::map::{
    lemma_operation_views_insert, lemma_operation_views_remove, operation_views, MapModel,
};
use crate::model::{KeyType, ValueType};
use crate::operation::{decode_operation, Operation};
use crate::snapshot::value::{decode_operation_record, parse_operation_record};
use crate::snapshot::storage::{record_at, SnapshotableStorage};
use crate::store::utils::{
    agrees, cached, cow_view, get_greatest, operation_mut, opt_view, read_value,
    resolve,
};
use vstd::prelude::*;

verus! {

/// A store of values under keys.
pub trait MapStore<K: KeyType, V: ValueType>: Sized {
    spec fn wf(&self) -> bool;

    /// The pending edits.
    spec fn pending(&self) -> Map<K::V, Operation<V::V>>;

    /// What a read of `key` gives without the pending edits.
    spec fn beneath(&self, key: K::V) -> Result<Option<V::V>, Error>;

    /// The value that `insert` hands back for `key`.
    spec fn replaced(&self, key: K::V) -> Result<Option<V::V>, Error>;

    /// Whether `other` differs from this store in the pending edits at most.
    spec fn same_beneath(&self, other: &Self) -> bool;

    /// Whether the store beneath never refuses a call.
    spec fn reliable(&self) -> bool;

    /// What a read of `key` gives: the value of its pending edit, and
    /// without one what lies beneath.
    open spec fn spec_get(&self, key: K::V) -> Result<Option<V::V>, Error> {
        resolve(cached(self.pending(), key), self.beneath(key))
    }

    /// The value under `key`.
    fn get(&self, key: &K) -> (r: Result<Option<Cow<'_, V>>, Error>)
        requires
            self.wf(),
        ensures
            r matches Ok(v) ==> self.spec_get(key@) == Ok::<Option<V::V>, Error>(cow_view(v)),
            self.spec_get(key@) is Err ==> r is Err,
            self.pending().contains_key(key@) ==> r is Ok,
            self.reliable() ==> agrees(r, self.spec_get(key@)),
    ;

    /// The value under `key`, to be changed in place. A value that is read
    /// from beneath becomes a pending edit, so that a change to it is one.
    fn get_mut(&mut self, key: &K) -> (r: Result<Option<&mut V>, Error>)
        requires
            old(self).wf(),
        ensures
            final(self).wf(),
            old(self).same_beneath(final(self)),
            match r {
                Ok(Some(v)) => old(self).spec_get(key@) == Ok::<Option<V::V>, Error>(Some((*v)@))
                    && final(self).pending() == old(self).pending().insert(
                    key@,
                    Operation::Update((*final(v))@),
                ),
                Ok(None) => old(self).spec_get(key@) == Ok::<Option<V::V>, Error>(None)
                    && final(self).pending() == old(self).pending(),
                Err(_) => final(self).pending() == old(self).pending(),
            },
            old(self).spec_get(key@) is Err ==> r is Err,
            old(self).pending().contains_key(key@) ==> r is Ok,
            old(self).reliable() ==> agrees(r, old(self).spec_get(key@)),
    ;

    /// Records `value` as the value under `key`.
    fn insert(&mut self, key: K, value: V) -> (r: Result<Option<V>, Error>)
        requires
            old(self).wf(),
        ensures
            final(self).wf(),
            old(self).same_beneath(final(self)),
            match r {
                Ok(v) => old(self).replaced(key@) == Ok::<Option<V::V>, Error>(opt_view(v))
                    && final(self).pending() == old(self).pending().insert(
                    key@,
                    Operation::Update(value@),
                ),
                Err(_) => final(self).pending() == old(self).pending(),
            },
            old(self).replaced(key@) is Err ==> r is Err,
            old(self).reliable() ==> agrees(r, old(self).replaced(key@)),
    ;

    /// Records that `key` is gone, and hands back the value that was under
    /// it.
    fn remove(&mut self, key: &K) -> (r: Result<Option<V>, Error>)
        requires
            old(self).wf(),
        ensures
            final(self).wf(),
            old(self).same_beneath(final(self)),
            match r {
                Ok(v) => old(self).spec_get(key@) == Ok::<Option<V::V>, Error>(opt_view(v))
                    && final(self).pending() == old(self).pending().insert(
                    key@,
                    Operation::Delete,
                ),
                Err(_) => final(self).pending() == old(self).pending(),
            },
            old(self).spec_get(key@) is Err ==> r is Err,
            old(self).pending().contains_key(key@) ==> r is Ok,
            old(self).reliable() ==> agrees(r, old(self).spec_get(key@)),
    ;
}

impl<S: Store, M: Merkle, K: KeyType, V: ValueType> SnapshotableStorage<S, M, MapModel<K, V>> {
    /// The persisted value of `key` at the current height.
    pub open spec fn persisted_entry(&self, key: K::V) -> Result<Option<V::V>, Error> {
        read_value::<V>(
            record_at(self.contents(), self.scope(), K::encode(key), self.height as int),
        )
    }

    /// The persisted operation of `key` at the current height: what the
    /// latest record of the key holds.
    pub open spec fn persisted_operation(&self, key: K::V) -> Result<
        Option<Operation<V::V>>,
        Error,
    > {
        match record_at(self.contents(), self.scope(), K::encode(key), self.height as int) {
            None => Ok(None),
            Some(bytes) => match parse_operation_record(bytes) {
                Err(e) => Err(e),
                Ok(op) => match decode_operation::<V>(op) {
                    Some(typed) => Ok(Some(typed)),
                    None => Err(Error::CborDeIoError),
                },
            },
        }
    }

    /// Reads the persisted operation of `key`: an update, a tombstone, or
    /// nothing where the key was never written.
    pub fn get_inner_operation(&self, key: &K) -> (r: Result<Option<Operation<V>>, Error>)
        requires
            self.wf(),
        ensures
            r matches Ok(op) ==> self.persisted_operation(key@) == Ok::<
                Option<Operation<V::V>>,
                Error,
            >(opt_view(op)),
            self.persisted_operation(key@) is Err ==> r is Err,
            self.store.reliable() ==> agrees(r, self.persisted_operation(key@)),
    {
        let key_bytes = key.to_bytes()?;
        let store_key = self.storage_tuple_key(&key_bytes);
        match self.store.get_in(store_key.0.as_slice(), store_key.1.as_slice())? {
            Some(bytes) => {
                let raw = decode_operation_record(bytes.as_ref().as_slice())?;
                let operation = Operation::from_bytes(&raw)?;
                Ok(Some(operation))
            },
            None => Ok(None),
        }
    }

    /// Reads the persisted value of `key`.
    pub fn get_inner_value(&self, key: &K) -> (r: Result<Option<V>, Error>)
        requires
            self.wf(),
        ensures
            r matches Ok(v) ==> self.persisted_entry(key@) == Ok::<Option<V::V>, Error>(
                opt_view(v),
            ),
            self.persisted_entry(key@) is Err ==> r is Err,
            self.store.reliable() ==> agrees(r, self.persisted_entry(key@)),
            K::valid(key@),
    {
        let key_bytes = key.to_bytes()?;
        let store_key = self.storage_tuple_key(&key_bytes);
        get_greatest(&self.store, store_key.0.as_slice(), store_key.1.as_slice())
    }
}

impl<S: Store, M: Merkle, K: KeyType, V: ValueType> MapStore<K, V> for SnapshotableStorage<
    S,
    M,
    MapModel<K, V>,
> {
    open spec fn wf(&self) -> bool {
        SnapshotableStorage::wf(self)
    }

    open spec fn pending(&self) -> Map<K::V, Operation<V::V>> {
        self.value@
    }

    open spec fn beneath(&self, key: K::V) -> Result<Option<V::V>, Error> {
        self.persisted_entry(key)
    }

    /// A storage hands back the persisted value.
    open spec fn replaced(&self, key: K::V) -> Result<Option<V::V>, Error> {
        self.persisted_entry(key)
    }

    open spec fn same_beneath(&self, other: &Self) -> bool {
        &&& other.store == self.store
        &&& other.height == self.height
        &&& other.namespace == self.namespace
        &&& other.merkle == self.merkle
    }

    open spec fn reliable(&self) -> bool {
        self.store.reliable()
    }

    /// A value that is read from the cache is borrowed; one that is read
    /// from the store is owned.
    fn get(&self, key: &K) -> (r: Result<Option<Cow<'_, V>>, Error>)
        ensures
            r matches Ok(Some(c)) ==> (c is Borrowed <==> self.value@.contains_key(key@)),
    {
        match self.value.value.get(key) {
            Some(op) => match op {
                Operation::Update(v) => Ok(Some(Cow::Borrowed(v))),
                Operation::Delete => Ok(None),
            },
            None => match self.get_inner_value(key)? {
                Some(v) => Ok(Some(Cow::Owned(v))),
                None => Ok(None),
            },
        }
    }

    fn get_mut(&mut self, key: &K) -> (r: Result<Option<&mut V>, Error>) {
        if !self.value.value.contains_key(key) {
            match self.get_inner_value(key)? {
                Some(v) => {
                    proof {
                        lemma_operation_views_insert(
                            self.value.value@,
                            key@,
                            Operation::Update(v),
                        );
                    }
                    self.value.value.insert(key.duplicate(), Operation::Update(v));
                },
                None => {
                    return Ok(None);
                },
            }
        }
        let ghost before = self.value.value@;
        match self.value.value.get_mut(key) {
            Some(op) => {
                proof {
                    lemma_operation_views_insert(before, key@, *final(op));
                    assert(operation_views(before).insert(key@, before[key@]@) =~= operation_views(
                        before,
                    ));
                    assert(old(self).pending().insert(key@, before[key@]@).insert(
                        key@,
                        (*final(op))@,
                    ) =~= old(self).pending().insert(key@, (*final(op))@));
                }
                Ok(operation_mut(op))
            },
            None => Ok(None),
        }
    }

    /// A key that is taken has been written as bytes, so it is the view of
    /// a key of its type.
    fn insert(&mut self, key: K, value: V) -> (r: Result<Option<V>, Error>)
        ensures
            r is Ok ==> K::valid(key@),
    {
        let before = self.get_inner_value(&key)?;
        proof {
            lemma_operation_views_insert(self.value.value@, key@, Operation::Update(value));
        }
        self.value.value.insert(key, Operation::Update(value));
        Ok(before)
    }

    fn remove(&mut self, key: &K) -> (r: Result<Option<V>, Error>) {
        let ghost before = self.value.value@;
        let hidden = match self.value.value.remove(key) {
            Some(op) => match op {
                Operation::Update(v) => Some(v),
                Operation::Delete => None,
            },
            None => {
                assert(self.value.value@ =~= before);
                match self.get_inner_value(key) {
                    Ok(v) => v,
                    Err(e) => {
                        return Err(e);
                    },
                }
            },
        };
        proof {
            lemma_operation_views_remove(before, key@);
            lemma_operation_views_insert(before.remove(key@), key@, Operation::<V>::Delete);
            assert(operation_views(before).remove(key@).insert(key@, Operation::<V::V>::Delete)
                =~= operation_views(before).insert(key@, Operation::<V::V>::Delete));
        }
        self.value.value.insert(key.duplicate(), Operation::Delete);
        Ok(hidden)
    }
}

} // verus!
