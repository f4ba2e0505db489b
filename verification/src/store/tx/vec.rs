//! A list in a transaction.

use crate::backend::store::Store;
use crate::cow_lite::Cow;
use crate::error::Error;
use crate::merkle::Merkle;
use crate::model::model::Model;
use crate::model::vec::Vec;
use crate::model::ValueType;
use crate::operation::Operation;
use crate::snapshot::storage::SnapshotableStorage;
use crate::snapshot::transaction::Transaction;
use crate::store::utils::{cached, into_owned, operation_mut};
use crate::store::vec::{list_element, list_get, list_item, list_len, VecState, VecStore};
use vstd::prelude::*;

verus! {

impl<'a, S: Store, M: Merkle, T: ValueType> VecState<T> for Transaction<'a, S, M, Vec<T>> {
    open spec fn wf(&self) -> bool {
        SnapshotableStorage::wf(self.store) && self.value.wf()
    }

    open spec fn pending(&self) -> Map<u64, Operation<T::V>> {
        self.value.entries()
    }

    open spec fn cached_len(&self) -> Option<u64> {
        self.value.len
    }

    open spec fn net_growth(&self) -> i64 {
        self.value.offset
    }

    /// Beneath a transaction lies its storage, with its own cache and its
    /// own length.
    open spec fn beneath(&self, index: u64) -> Result<Option<T::V>, Error> {
        list_get::<T, SnapshotableStorage<S, M, Vec<T>>>(self.store, index)
    }

    open spec fn beneath_len(&self) -> Result<u64, Error> {
        list_len::<T, SnapshotableStorage<S, M, Vec<T>>>(self.store)
    }

    open spec fn same_beneath(&self, other: &Self) -> bool {
        other.store == self.store
    }

    open spec fn reliable(&self) -> bool {
        self.store.store.reliable()
    }

    proof fn lemma_same_beneath(&self, other: &Self) {
    }

    proof fn lemma_same_beneath_transitive(&self, middle: &Self, other: &Self) {
    }

    proof fn lemma_same_beneath_reflexive(&self) {
    }
}

impl<'a, S: Store, M: Merkle, T: ValueType> VecStore<T> for Transaction<'a, S, M, Vec<T>> {
    fn net_growth_value(&self) -> (r: i64) {
        self.value.offset()
    }

    fn has_pending(&self) -> (r: bool) {
        self.value.has_edits()
    }

    /// A length that the storage knows settles the call, as one that the
    /// transaction knows does.
    fn len(&self) -> (r: Result<u64, Error>)
        ensures
            self.store.value.len is Some ==> r is Ok,
    {
        match self.value.len() {
            Some(l) => Ok(l),
            None => self.store.len(),
        }
    }

    /// A length and an edit that are pending in the storage settle the read,
    /// as those of the transaction do.
    fn get(&self, index: u64) -> (r: Result<Option<Cow<'_, T>>, Error>)
        ensures
            self.store.value.len is Some && self.store.value.entries().contains_key(index)
                ==> r is Ok,
    {
        let len = self.len()?;
        assert(list_len::<T, Self>(self) == Ok::<u64, Error>(len));
        if index >= len {
            assert(list_get::<T, Self>(self, index) == Ok::<Option<T::V>, Error>(None));
            return Ok(None);
        }
        assert(list_get::<T, Self>(self, index) == list_element::<T, Self>(self, index));
        match self.value.get(&index) {
            Some(op) => match op {
                Operation::Update(v) => Ok(Some(Cow::Borrowed(v))),
                Operation::Delete => Ok(None),
            },
            None => self.store.get(index),
        }
    }

    fn get_mut(&mut self, index: u64) -> (r: Result<Option<&mut T>, Error>)
        ensures
            old(self).store.value.len is Some && old(self).store.value.entries().contains_key(
                index,
            ) ==> r is Ok,
    {
        let len = self.len()?;
        assert(list_len::<T, Self>(self) == Ok::<u64, Error>(len));
        if index >= len {
            assert(list_get::<T, Self>(self, index) == Ok::<Option<T::V>, Error>(None));
            return Ok(None);
        }
        assert(list_get::<T, Self>(self, index) == list_element::<T, Self>(self, index));
        if !self.value.contains_key(&index) {
            match self.store.get(index)? {
                Some(c) => {
                    self.value.insert_operation(index, Operation::Update(into_owned(c)));
                },
                None => {
                    return Ok(None);
                },
            }
        }
        let ghost before = self.value.entries();
        match self.value.get_mut(&index) {
            Some(op) => {
                proof {
                    assert(before.insert(index, before[index]) =~= before);
                    assert(old(self).pending().insert(index, before[index]).insert(
                        index,
                        (*final(op))@,
                    ) =~= old(self).pending().insert(index, (*final(op))@));
                }
                Ok(operation_mut(op))
            },
            None => Ok(None),
        }
    }

    fn load_length(&mut self) -> (r: Result<u64, Error>) {
        let len = self.len()?;
        self.value.set_length(len);
        Ok(len)
    }

    fn replace_tail(&mut self, from: u64, old_len: u64, items: std::vec::Vec<T>, growth: i64) {
        self.value.replace_tail(from, old_len, items, growth);
    }

    fn push(&mut self, value: T) -> (r: Result<(), Error>) {
        let len = self.len()?;
        if len == u64::MAX || self.value.offset() == i64::MAX {
            return Err(Error::OutOffIndex);
        }
        self.value.insert_operation(len, Operation::Update(value));
        self.value.set_length(len + 1);
        self.value.add_offset();
        Ok(())
    }

    fn pop(&mut self) -> (r: Result<Option<T>, Error>) {
        let len = self.len()?;
        assert(list_len::<T, Self>(self) == Ok::<u64, Error>(len));
        if len == 0 {
            return Ok(None);
        }
        if self.value.offset() == i64::MIN {
            return Err(Error::OutOffIndex);
        }
        let ghost edit = cached(self.pending(), (len - 1) as u64);
        let held = match self.value.get(&(len - 1)) {
            Some(Operation::Update(_)) => true,
            _ => false,
        };
        assert(held == (edit matches Some(Operation::Update(_))));
        assert(!held
            ==> list_item::<T, Self>(self, (len - 1) as u64) == self.beneath((len - 1) as u64));
        let last = if held {
            match self.value.remove_operation(len - 1) {
                Some(Operation::Update(t)) => t,
                _ => {
                    return Err(Error::StoreError);
                },
            }
        } else {
            match self.store.get(len - 1)? {
                Some(c) => {
                    self.value.remove_operation(len - 1);
                    into_owned(c)
                },
                None => {
                    return Err(Error::StoreError);
                },
            }
        };
        assert(list_item::<T, Self>(old(self), (len - 1) as u64)
            == Ok::<Option<T::V>, Error>(Some(last@)));
        self.value.set_length(len - 1);
        self.value.sub_offset();
        Ok(Some(last))
    }
}

} // verus!
