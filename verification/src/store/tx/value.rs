//! A single value in a transaction.

use crate::backend::store::Store;
use crate::cow_lite::Cow;
use crate::error::Error;
use crate::merkle::Merkle;
use crate::model::value::Value;
use crate::model::ValueType;
use crate::operation::Operation;
use crate::snapshot::storage::SnapshotableStorage;
use crate::snapshot::transaction::Transaction;
use crate::store::utils::{into_owned, resolve};
use crate::store::value::{update_mut, ValueStore};
use vstd::prelude::*;

verus! {

impl<'a, S: Store, M: Merkle, T: ValueType> ValueStore<T> for Transaction<'a, S, M, Value<T>> {
    open spec fn wf(&self) -> bool {
        SnapshotableStorage::wf(self.store)
    }

    open spec fn pending(&self) -> Option<Operation<T::V>> {
        self.value@
    }

    /// Beneath a transaction lies its storage: the pending edit of the
    /// storage, and beneath that the persisted value.
    open spec fn beneath(&self) -> Result<Option<T::V>, Error> {
        resolve(self.store.value@, self.store.persisted_value())
    }

    /// A transaction hands back the value of its own pending edit.
    open spec fn replaced(&self) -> Result<Option<T::V>, Error> {
        Ok(
            match self.value@ {
                Some(Operation::Update(v)) => Some(v),
                _ => None,
            },
        )
    }

    open spec fn same_beneath(&self, other: &Self) -> bool {
        other.store == self.store
    }

    open spec fn reliable(&self) -> bool {
        self.store.store.reliable()
    }

    /// An edit that is pending in the storage settles the read, as one of
    /// the transaction does.
    fn get(&self) -> (r: Result<Option<Cow<'_, T>>, Error>)
        ensures
            self.store.value@ is Some ==> r is Ok,
    {
        match &self.value.value {
            Some(op) => match op {
                Operation::Update(v) => Ok(Some(Cow::Borrowed(v))),
                Operation::Delete => Ok(None),
            },
            None => self.store.get(),
        }
    }

    fn get_mut(&mut self) -> (r: Result<Option<&mut T>, Error>)
        ensures
            old(self).store.value@ is Some ==> r is Ok,
    {
        if self.value.value.is_none() {
            match self.store.get()? {
                None => {
                    return Ok(None);
                },
                Some(v) => {
                    self.value.value = Some(Operation::Update(into_owned(v)));
                },
            }
        }
        Ok(update_mut(&mut self.value.value))
    }

    fn set(&mut self, value: T) -> (r: Result<Option<T>, Error>)
        ensures
            r is Ok,
    {
        let before = self.value.take();
        self.value.store(value);
        Ok(
            match before {
                Some(Operation::Update(t)) => Some(t),
                _ => None,
            },
        )
    }

    fn del(&mut self) -> (r: Result<Option<T>, Error>)
        ensures
            old(self).store.value@ is Some ==> r is Ok,
    {
        let hidden = match self.value.value.take() {
            Some(op) => match op {
                Operation::Update(t) => Some(t),
                Operation::Delete => None,
            },
            None => match self.store.get() {
                Ok(v) => match v {
                    Some(c) => Some(into_owned(c)),
                    None => None,
                },
                Err(e) => {
                    return Err(e);
                },
            },
        };
        self.value.value = Some(Operation::Delete);
        Ok(hidden)
    }
}

} // verus!
