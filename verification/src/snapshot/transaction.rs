//! A cache of edits laid over a storage.
//!
//! A transaction reads through to the storage it was made from and writes
//! only to its own cache. Its edits reach the storage when its cache is
//! merged into that of the storage.

use crate::backend::store::Store;
use crate::merkle::Merkle;
use crate::model::model::Model;
use crate::snapshot::storage::SnapshotableStorage;
use vstd::prelude::*;

verus! {

/// Something that edits can be split off from and merged back into.
pub trait Forkable: Sized {
    type Cache;

    /// The pending edits.
    spec fn edits(&self) -> Self::Cache;

    /// Whether the edits `v` can be taken over.
    spec fn can_merge(&self, v: &Self::Cache) -> bool;

    /// Whether `after` is `before` with the edits `v` taken over.
    spec fn merged(before: &Self, v: &Self::Cache, after: &Self) -> bool;

    /// Gives up the value and hands out its pending edits.
    fn cache(self) -> (r: Self::Cache)
        ensures
            r == self.edits(),
    ;

    /// Takes over pending edits.
    fn merge(&mut self, v: Self::Cache)
        requires
            old(self).can_merge(&v),
        ensures
            Self::merged(old(self), &v, final(self)),
    ;
}

/// An overlay over a storage: the storage, borrowed, and a cache of its own.
pub struct Transaction<'a, S, M, V> {
    pub store: &'a SnapshotableStorage<S, M, V>,
    pub value: V,
}

impl<'a, S: Store, M: Merkle, V: Model + Clone> Clone for Transaction<'a, S, M, V> {
    /// A second transaction over the same storage, with a copy of the cache.
    fn clone(&self) -> (r: Self)
        ensures
            r.store == self.store,
    {
        Self { store: self.store, value: self.value.clone() }
    }
}

impl<'a, S: Store, M: Merkle, V: Model> Forkable for Transaction<'a, S, M, V> {
    type Cache = V;

    open spec fn edits(&self) -> V {
        self.value
    }

    open spec fn can_merge(&self, v: &V) -> bool {
        self.value.wf() && v.wf() && self.value.mergeable(v)
    }

    open spec fn merged(before: &Self, v: &V, after: &Self) -> bool {
        &&& after.value.wf()
        &&& after.store == before.store
        &&& V::merged(&before.value, v, &after.value)
    }

    fn cache(self) -> (r: V) {
        self.value
    }

    fn merge(&mut self, v: V) {
        self.execute(v)
    }
}

impl<'a, S: Store, M: Merkle, V: Model> Transaction<'a, S, M, V> {
    /// The storage and the cache are well formed.
    pub open spec fn wf(&self) -> bool {
        self.store.wf() && self.value.wf()
    }

    /// A transaction over `store` that holds no edit.
    pub fn new(store: &'a SnapshotableStorage<S, M, V>) -> (r: Self)
        ensures
            *r.store == *store,
            r.value.wf(),
            r.value.cleared(),
    {
        Transaction { store, value: V::empty() }
    }

    /// Merges `val` into the cache of the transaction.
    pub fn execute(&mut self, val: V)
        requires
            old(self).value.wf(),
            val.wf(),
            old(self).value.mergeable(&val),
        ensures
            final(self).value.wf(),
            final(self).store == old(self).store,
            V::merged(&old(self).value, &val, &final(self).value),
    {
        self.value.merge(val)
    }
}

} // verus!
