//! A map with two keys in a transaction.

use crate::backend::store::Store;
use crate::cow_lite::Cow;
use crate::error::Error;
use crate::merkle::Merkle;
use crate::model::doublekey_map::DoubleKeyMap;
use crate::model::model::Model;
use crate::model::{KeyType, ValueType};
use crate::operation::Operation;
use crate::snapshot::storage::SnapshotableStorage;
use crate::snapshot::transaction::Transaction;
use crate::store::doublekey_map::{link_of, value_of, DoubleKeyMapStore, DoubleKeyState};
use crate::store::utils::{into_owned, operation_mut};
use vstd::prelude::*;

verus! {

impl<'a, S: Store, M: Merkle, K1: KeyType, K2: KeyType, V: ValueType> DoubleKeyState<
    K1,
    K2,
    V,
> for Transaction<'a, S, M, DoubleKeyMap<K1, K2, V>> {
    open spec fn wf(&self) -> bool {
        SnapshotableStorage::wf(self.store) && self.value.wf()
    }

    open spec fn links(&self) -> Map<K1::V, Operation<K2::V>> {
        self.value.links()
    }

    open spec fn values(&self) -> Map<K2::V, Operation<V::V>> {
        self.value.values()
    }

    /// Beneath a transaction lies its storage, with its own pending links.
    open spec fn beneath_link(&self, key1: K1::V) -> Result<Option<K2::V>, Error> {
        link_of::<K1, K2, V, SnapshotableStorage<S, M, DoubleKeyMap<K1, K2, V>>>(self.store, key1)
    }

    /// Beneath a transaction lies its storage, with its own pending values.
    open spec fn beneath_value(&self, key2: K2::V) -> Result<Option<V::V>, Error> {
        value_of::<K1, K2, V, SnapshotableStorage<S, M, DoubleKeyMap<K1, K2, V>>>(self.store, key2)
    }

    open spec fn same_beneath(&self, other: &Self) -> bool {
        other.store == self.store
    }

    open spec fn reliable(&self) -> bool {
        self.store.store.reliable()
    }

    proof fn lemma_same_beneath_reflexive(&self) {
    }

    proof fn lemma_same_beneath(&self, other: &Self) {
    }
}

impl<'a, S: Store, M: Merkle, K1: KeyType, K2: KeyType, V: ValueType> DoubleKeyMapStore<
    K1,
    K2,
    V,
> for Transaction<'a, S, M, DoubleKeyMap<K1, K2, V>> {
    /// An edit that is pending in the storage settles the read, as one of
    /// the transaction does.
    fn get_key2(&self, key2: &K2) -> (r: Result<Option<Cow<'_, V>>, Error>)
        ensures
            self.store.value.values().contains_key(key2@) ==> r is Ok,
    {
        match self.value.get_value(key2) {
            Some(op) => match op {
                Operation::Update(v) => Ok(Some(Cow::Borrowed(v))),
                Operation::Delete => Ok(None),
            },
            None => self.store.get_key2(key2),
        }
    }

    fn get_mut_key2(&mut self, key2: &K2) -> (r: Result<Option<&mut V>, Error>)
        ensures
            old(self).store.value.values().contains_key(key2@) ==> r is Ok,
    {
        if !self.value.contains_opertaion(key2) {
            match self.store.get_key2(key2)? {
                Some(v) => {
                    self.value.insert_operation(key2.duplicate(), Operation::Update(into_owned(v)));
                },
                None => {
                    return Ok(None);
                },
            }
        }
        let ghost before = self.value.values();
        match self.value.get_mut_value(key2) {
            Some(op) => {
                proof {
                    assert(before.insert(key2@, before[key2@]) =~= before);
                    assert(old(self).values().insert(key2@, before[key2@]).insert(
                        key2@,
                        (*final(op))@,
                    ) =~= old(self).values().insert(key2@, (*final(op))@));
                }
                Ok(operation_mut(op))
            },
            None => Ok(None),
        }
    }

    fn insert(&mut self, key1: K1, key2: K2, value: V) -> (r: Result<Option<V>, Error>) {
        let v_old = self.remove_by_key1(&key1)?;
        let ghost cleared = self.value.links();
        self.value.insert_operation(key2.duplicate(), Operation::Update(value));
        self.value.insert_operation_key2(key1, Operation::Update(key2));
        proof {
            assert(cleared.insert(key1@, Operation::Update(key2@)) =~= old(self).links().insert(
                key1@,
                Operation::Update(key2@),
            ));
        }
        Ok(v_old)
    }

    fn remove_by_key1(&mut self, key1: &K1) -> (r: Result<Option<V>, Error>) {
        let key2: K2 = match self.key1_to_key2(key1) {
            Ok(found) => match found {
                Some(c) => into_owned(c),
                None => {
                    return Ok(None);
                },
            },
            Err(e) => {
                return Err(e);
            },
        };
        let hidden: Option<V> = match self.get_key2(&key2) {
            Ok(found) => match found {
                Some(c) => Some(into_owned(c)),
                None => None,
            },
            Err(e) => {
                return Err(e);
            },
        };
        self.value.insert_operation(key2, Operation::Delete);
        self.value.insert_operation_key2(key1.duplicate(), Operation::Delete);
        Ok(hidden)
    }

    fn remove_by_key2(&mut self, key2: &K2) -> (r: Result<Option<V>, Error>)
        ensures
            old(self).store.value.values().contains_key(key2@) ==> r is Ok,
    {
        let hidden: V = match self.get_key2(key2) {
            Ok(found) => match found {
                Some(c) => into_owned(c),
                None => {
                    return Ok(None);
                },
            },
            Err(e) => {
                return Err(e);
            },
        };
        self.value.unlink(key2);
        self.value.insert_operation(key2.duplicate(), Operation::Delete);
        Ok(Some(hidden))
    }

    fn key1_to_key2(&self, key1: &K1) -> (r: Result<Option<Cow<'_, K2>>, Error>)
        ensures
            self.store.value.links().contains_key(key1@) ==> r is Ok,
    {
        match self.value.get_key2(key1) {
            Some(op) => match op {
                Operation::Update(key2) => Ok(Some(Cow::Borrowed(key2))),
                Operation::Delete => Ok(None),
            },
            None => self.store.key1_to_key2(key1),
        }
    }
}

} // verus!
