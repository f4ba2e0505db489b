//! A single value, as a storage and as a transaction offer it.

use crate::backend::store::Store;
use crate::cow_lite::Cow;
use crate::error::Error;
use crate::merkle::Merkle;
use crate::model::value::Value;
use crate::model::ValueType;
use crate::operation::Operation;
use crate::snapshot::storage::{record_at, SnapshotableStorage};
use crate::store::utils::{agrees, cow_view, get_greatest, opt_view, read_value, resolve};
use vstd::prelude::*;

verus! {

/// A store of one value.
pub trait ValueStore<T: ValueType>: Sized {
    spec fn wf(&self) -> bool;

    /// The pending edit, if there is one.
    spec fn pending(&self) -> Option<Operation<T::V>>;

    /// What a read gives without the pending edit.
    spec fn beneath(&self) -> Result<Option<T::V>, Error>;

    /// The value that `set` hands back.
    spec fn replaced(&self) -> Result<Option<T::V>, Error>;

    /// Whether `other` differs from this store in the pending edit at most.
    spec fn same_beneath(&self, other: &Self) -> bool;

    /// Whether the store beneath never refuses a call.
    spec fn reliable(&self) -> bool;

    /// The value: that of the pending edit, and without one what lies
    /// beneath.
    fn get(&self) -> (r: Result<Option<Cow<'_, T>>, Error>)
        requires
            self.wf(),
        ensures
            r matches Ok(v) ==> resolve(self.pending(), self.beneath()) == Ok::<
                Option<T::V>,
                Error,
            >(cow_view(v)),
            resolve(self.pending(), self.beneath()) is Err ==> r is Err,
            self.reliable() || self.pending() is Some ==> agrees(
                r,
                resolve(self.pending(), self.beneath()),
            ),
    ;

    /// The value, to be changed in place. A value that is read from beneath
    /// becomes the pending edit, so that a change to it is one.
    fn get_mut(&mut self) -> (r: Result<Option<&mut T>, Error>)
        requires
            old(self).wf(),
        ensures
            final(self).wf(),
            old(self).same_beneath(final(self)),
            match r {
                Ok(Some(v)) => resolve(old(self).pending(), old(self).beneath()) == Ok::<
                    Option<T::V>,
                    Error,
                >(Some((*v)@)) && final(self).pending() == Some(Operation::Update((*final(v))@)),
                Ok(None) => resolve(old(self).pending(), old(self).beneath()) == Ok::<
                    Option<T::V>,
                    Error,
                >(None) && final(self).pending() == old(self).pending(),
                Err(_) => final(self).pending() == old(self).pending(),
            },
            resolve(old(self).pending(), old(self).beneath()) is Err ==> r is Err,
            old(self).reliable() || old(self).pending() is Some ==> agrees(
                r,
                resolve(old(self).pending(), old(self).beneath()),
            ),
    ;

    /// Makes `value` the pending edit.
    fn set(&mut self, value: T) -> (r: Result<Option<T>, Error>)
        requires
            old(self).wf(),
        ensures
            final(self).wf(),
            old(self).same_beneath(final(self)),
            match r {
                Ok(v) => old(self).replaced() == Ok::<Option<T::V>, Error>(opt_view(v))
                    && final(self).pending() == Some(Operation::Update(value@)),
                Err(_) => final(self).pending() == old(self).pending(),
            },
            old(self).replaced() is Err ==> r is Err,
            old(self).reliable() ==> agrees(r, old(self).replaced()),
    ;

    /// Makes a tombstone the pending edit and hands back the value that it
    /// hides.
    fn del(&mut self) -> (r: Result<Option<T>, Error>)
        requires
            old(self).wf(),
        ensures
            final(self).wf(),
            old(self).same_beneath(final(self)),
            match r {
                Ok(v) => resolve(old(self).pending(), old(self).beneath()) == Ok::<
                    Option<T::V>,
                    Error,
                >(opt_view(v)) && final(self).pending() == Some(Operation::<T::V>::Delete),
                Err(_) => final(self).pending() == old(self).pending(),
            },
            resolve(old(self).pending(), old(self).beneath()) is Err ==> r is Err,
            old(self).reliable() || old(self).pending() is Some ==> agrees(
                r,
                resolve(old(self).pending(), old(self).beneath()),
            ),
    ;
}

/// The value of an update, to be changed in place.
pub fn update_mut<T: ValueType>(slot: &mut Option<Operation<T>>) -> (r: Option<&mut T>)
    ensures
        match *old(slot) {
            Some(Operation::Update(v)) => r matches Some(t) && *t == v && *final(slot) == Some(
                Operation::Update(*final(t)),
            ),
            _ => r is None && *final(slot) == *old(slot),
        },
{
    match slot {
        Some(Operation::Update(v)) => Some(v),
        _ => None,
    }
}

impl<S: Store, M: Merkle, T: ValueType> SnapshotableStorage<S, M, Value<T>> {
    /// The persisted value at the current height.
    pub open spec fn persisted_value(&self) -> Result<Option<T::V>, Error> {
        read_value::<T>(
            record_at(self.contents(), self.scope(), Seq::<u8>::empty(), self.height as int),
        )
    }

    fn get_inner_value(&self) -> (r: Result<Option<T>, Error>)
        requires
            self.wf(),
        ensures
            r matches Ok(v) ==> self.persisted_value() == Ok::<Option<T::V>, Error>(opt_view(v)),
            self.persisted_value() is Err ==> r is Err,
            self.store.reliable() ==> agrees(r, self.persisted_value()),
    {
        let key: Vec<u8> = Vec::new();
        let store_key = self.storage_tuple_key(&key);
        assert(key@ =~= Seq::<u8>::empty());
        get_greatest(&self.store, store_key.0.as_slice(), store_key.1.as_slice())
    }
}

impl<S: Store, M: Merkle, T: ValueType> ValueStore<T> for SnapshotableStorage<S, M, Value<T>> {
    open spec fn wf(&self) -> bool {
        SnapshotableStorage::wf(self)
    }

    open spec fn pending(&self) -> Option<Operation<T::V>> {
        self.value@
    }

    open spec fn beneath(&self) -> Result<Option<T::V>, Error> {
        self.persisted_value()
    }

    /// A storage hands back the persisted value.
    open spec fn replaced(&self) -> Result<Option<T::V>, Error> {
        self.persisted_value()
    }

    open spec fn same_beneath(&self, other: &Self) -> bool {
        &&& other.store == self.store
        &&& other.height == self.height
        &&& other.namespace == self.namespace
        &&& other.merkle == self.merkle
    }

    open spec fn reliable(&self) -> bool {
        self.store.reliable()
    }

    /// A value that is read from the cache is borrowed; one that is read
    /// from the store is owned.
    fn get(&self) -> (r: Result<Option<Cow<'_, T>>, Error>)
        ensures
            r matches Ok(Some(c)) ==> (c is Borrowed <==> self.value.value is Some),
    {
        match &self.value.value {
            Some(op) => match op {
                Operation::Update(iv) => Ok(Some(Cow::Borrowed(iv))),
                Operation::Delete => Ok(None),
            },
            None => match self.get_inner_value()? {
                Some(v) => Ok(Some(Cow::Owned(v))),
                None => Ok(None),
            },
        }
    }

    fn get_mut(&mut self) -> (r: Result<Option<&mut T>, Error>) {
        if self.value.value.is_none() {
            match self.get_inner_value()? {
                None => {
                    return Ok(None);
                },
                Some(v) => {
                    self.value.value = Some(Operation::Update(v));
                },
            }
        }
        Ok(update_mut(&mut self.value.value))
    }

    fn set(&mut self, value: T) -> (r: Result<Option<T>, Error>) {
        let before = self.get_inner_value()?;
        self.value.store(value);
        Ok(before)
    }

    fn del(&mut self) -> (r: Result<Option<T>, Error>) {
        let hidden = match self.value.value.take() {
            Some(op) => match op {
                Operation::Update(t) => Some(t),
                Operation::Delete => None,
            },
            None => match self.get_inner_value() {
                Ok(v) => v,
                Err(e) => {
                    return Err(e);
                },
            },
        };
        self.value.value = Some(Operation::Delete);
        Ok(hidden)
    }
}

} // verus!
