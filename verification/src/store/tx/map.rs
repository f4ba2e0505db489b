//! A map from keys to values in a transaction.

use crate::backend::store::Store;
use crate::cow_lite::Cow;
use crate::error::Error;
use crate::merkle::Merkle;
use crate::model::map::{
    lemma_operation_views_insert, lemma_operation_views_remove, operation_views, MapModel,
};
use crate::model::{KeyType, ValueType};
use crate::operation::Operation;
use crate::snapshot::storage::SnapshotableStorage;
use crate::snapshot::transaction::Transaction;
use crate::store::map::MapStore;
use crate::store::utils::{cached, into_owned, operation_mut};
use vstd::prelude::*;

verus! {

impl<'a, S: Store, M: Merkle, K: KeyType, V: ValueType> MapStore<K, V> for Transaction<
    'a,
    S,
    M,
    MapModel<K, V>,
> {
    open spec fn wf(&self) -> bool {
        SnapshotableStorage::wf(self.store) && self.value.value.wf()
    }

    open spec fn pending(&self) -> Map<K::V, Operation<V::V>> {
        self.value@
    }

    /// Beneath a transaction lies its storage: the pending edits of the
    /// storage, and beneath those the persisted values.
    open spec fn beneath(&self, key: K::V) -> Result<Option<V::V>, Error> {
        self.store.spec_get(key)
    }

    /// A transaction hands back the value of its own pending edit.
    open spec fn replaced(&self, key: K::V) -> Result<Option<V::V>, Error> {
        Ok(
            match cached(self.value@, key) {
                Some(Operation::Update(v)) => Some(v),
                _ => None,
            },
        )
    }

    open spec fn same_beneath(&self, other: &Self) -> bool {
        other.store == self.store
    }

    open spec fn reliable(&self) -> bool {
        self.store.store.reliable()
    }

    /// An edit that is pending in the storage settles the read, as one of
    /// the transaction does.
    fn get(&self, key: &K) -> (r: Result<Option<Cow<'_, V>>, Error>)
        ensures
            cached(self.store.value@, key@) is Some ==> r is Ok,
    {
        match self.value.value.get(key) {
            Some(op) => match op {
                Operation::Update(v) => Ok(Some(Cow::Borrowed(v))),
                Operation::Delete => Ok(None),
            },
            None => self.store.get(key),
        }
    }

    fn get_mut(&mut self, key: &K) -> (r: Result<Option<&mut V>, Error>)
        ensures
            cached(old(self).store.value@, key@) is Some ==> r is Ok,
    {
        if !self.value.value.contains_key(key) {
            match self.store.get(key)? {
                Some(v) => {
                    let value = into_owned(v);
                    proof {
                        lemma_operation_views_insert(
                            self.value.value@,
                            key@,
                            Operation::Update(value),
                        );
                    }
                    self.value.value.insert(key.duplicate(), Operation::Update(value));
                },
                None => {
                    return Ok(None);
                },
            }
        }
        let ghost before = self.value.value@;
        match self.value.value.get_mut(key) {
            Some(op) => {
                proof {
                    lemma_operation_views_insert(before, key@, *final(op));
                    assert(operation_views(before).insert(key@, before[key@]@) =~= operation_views(
                        before,
                    ));
                    assert(old(self).pending().insert(key@, before[key@]@).insert(
                        key@,
                        (*final(op))@,
                    ) =~= old(self).pending().insert(key@, (*final(op))@));
                }
                Ok(operation_mut(op))
            },
            None => Ok(None),
        }
    }

    fn insert(&mut self, key: K, value: V) -> (r: Result<Option<V>, Error>)
        ensures
            r is Ok,
    {
        proof {
            lemma_operation_views_insert(self.value.value@, key@, Operation::Update(value));
        }
        match self.value.value.insert(key, Operation::Update(value)) {
            Some(Operation::Update(v)) => Ok(Some(v)),
            _ => Ok(None),
        }
    }

    fn remove(&mut self, key: &K) -> (r: Result<Option<V>, Error>)
        ensures
            cached(old(self).store.value@, key@) is Some ==> r is Ok,
    {
        let ghost before = self.value.value@;
        let hidden = match self.value.value.remove(key) {
            Some(op) => match op {
                Operation::Update(v) => Some(v),
                Operation::Delete => None,
            },
            None => {
                assert(self.value.value@ =~= before);
                match self.store.get(key) {
                    Ok(v) => match v {
                        Some(c) => Some(into_owned(c)),
                        None => None,
                    },
                    Err(e) => {
                        return Err(e);
                    },
                }
            },
        };
        proof {
            lemma_operation_views_remove(before, key@);
            lemma_operation_views_insert(before.remove(key@), key@, Operation::<V>::Delete);
            assert(operation_views(before).remove(key@).insert(key@, Operation::<V::V>::Delete)
                =~= operation_views(before).insert(key@, Operation::<V::V>::Delete));
        }
        self.value.value.insert(key.duplicate(), Operation::Delete);
        Ok(hidden)
    }
}

} // verus!
