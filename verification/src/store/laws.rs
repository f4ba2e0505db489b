//! What holds of reads after commits.

use crate::backend::store::{lookup, Store};
use crate::error::Error;
use crate::merkle::Merkle;
use crate::model::map::MapModel;
use crate::model::model::Model;
use crate::model::value::Value;
use crate::model::{KeyType, ValueType};
use crate::operation::{encode_operation, outcome, valid_operation, Operation};
use crate::codec::{cbor_u64, lemma_read_u64};
use crate::model::vec::{Vec, INDEX_VEC_LEN};
use crate::snapshot::laws::{
    lemma_commit_keeps_history, lemma_commit_keeps_others, lemma_commit_writes, no_record_ahead,
};
use crate::store::vec::VecState;
use crate::snapshot::storage::{record_at, SnapshotableStorage};
use crate::snapshot::utils::spec_storage_key;
use crate::snapshot::value::{lemma_operation_record_round_trip, operation_record};
use crate::sorted::{lemma_at, lemma_index_of, lemma_unique};
use crate::store::map::MapStore;
use crate::store::utils::{read_value, resolve};
use crate::store::value::ValueStore;
use vstd::prelude::*;

verus! {

/// The record of an operation reads back as what the operation leaves
/// behind.
pub proof fn lemma_read_record<T: ValueType>(op: Operation<T::V>)
    requires
        valid_operation::<T>(op),
    ensures
        read_value::<T>(Some(operation_record(encode_operation::<T>(op)))) == Ok::<
            Option<T::V>,
            Error,
        >(outcome(op)),
{
    lemma_operation_record_round_trip(encode_operation::<T>(op));
    match op {
        Operation::Update(v) => T::lemma_faithful(v),
        Operation::Delete => {},
    }
}

/// Whether every key with a pending edit is the view of a key of the type.
pub open spec fn keys_valid<K: KeyType, A>(pending: Map<K::V, A>) -> bool {
    forall|k: K::V| #[trigger] pending.contains_key(k) ==> K::valid(k)
}

/// After a commit, a read of a key that had a pending edit gives what the
/// edit leaves behind: its value where it was an update, and nothing where
/// it was a tombstone. A read that is bounded by the height of the commit
/// gives the same.
///
/// The storage must not hold a record of the key from a height that a
/// rollback has left; the read at the new height would find that one.
pub proof fn lemma_map_commit_then_get<S: Store, M: Merkle, K: KeyType, V: ValueType>(
    before: &SnapshotableStorage<S, M, MapModel<K, V>>,
    after: &SnapshotableStorage<S, M, MapModel<K, V>>,
    key: K::V,
)
    requires
        SnapshotableStorage::wf(before),
        before.height >= 0,
        before.committed(after),
        before.value@.contains_key(key),
        keys_valid::<K, Operation<V::V>>(before.value@),
        valid_operation::<V>(before.value@[key]),
    ensures
        read_value::<V>(
            record_at(after.contents(), before.scope(), K::encode(key), before.height as int),
        ) == Ok::<Option<V::V>, Error>(outcome(before.value@[key])),
        lookup(
            after.contents(),
            spec_storage_key(before.scope(), K::encode(key), before.height as int),
        ) == Some(operation_record(encode_operation::<V>(before.value@[key]))),
        no_record_ahead(before.contents(), before.scope(), K::encode(key), before.height as int)
            ==> after.spec_get(key) == Ok::<Option<V::V>, Error>(outcome(before.value@[key])),
{
    let s = before.value.value.seq();
    let pending = before.value.pending();
    let i = lemma_index_of(s, key);
    assert(pending[i] == (K::encode(key), encode_operation::<V>(before.value@[key])));
    assert forall|j: int| 0 <= j < pending.len() && j != i implies (#[trigger] pending[j]).0
        != pending[i].0 by {
        lemma_at(s, j);
        assert(before.value@.contains_key(s[j].0@));
        if pending[j].0 == pending[i].0 {
            K::lemma_faithful(s[j].0@);
            K::lemma_faithful(key);
            lemma_unique(s, i, j, key);
        }
    }
    lemma_commit_writes(before, after, i);
    lemma_read_record::<V>(before.value@[key]);
    crate::snapshot::laws::lemma_commit_lookup(before, after, i);
}

/// Read-after-commit: a value that is put under a key and then committed is
/// what a read of the key gives, from the store and not from the cache,
/// which the commit has emptied.
pub proof fn lemma_read_after_commit<S: Store, M: Merkle, K: KeyType, V: ValueType>(
    before: &SnapshotableStorage<S, M, MapModel<K, V>>,
    after: &SnapshotableStorage<S, M, MapModel<K, V>>,
    key: K::V,
    value: V::V,
)
    requires
        SnapshotableStorage::wf(before),
        before.height >= 0,
        before.committed(after),
        before.value@.contains_key(key),
        before.value@[key] == Operation::Update(value),
        keys_valid::<K, Operation<V::V>>(before.value@),
        V::valid(value),
        no_record_ahead(before.contents(), before.scope(), K::encode(key), before.height as int),
    ensures
        after.spec_get(key) == Ok::<Option<V::V>, Error>(Some(value)),
        after.value@ == Map::<K::V, Operation<V::V>>::empty(),
{
    lemma_map_commit_then_get(before, after, key);
}

/// An uncommitted remove is transient: where a key is put and taken away
/// before the commit, the commit writes a tombstone for it and never the
/// value, and a read of the key gives nothing.
pub proof fn lemma_uncommitted_remove<S: Store, M: Merkle, K: KeyType, V: ValueType>(
    start: &SnapshotableStorage<S, M, MapModel<K, V>>,
    removed: &SnapshotableStorage<S, M, MapModel<K, V>>,
    after: &SnapshotableStorage<S, M, MapModel<K, V>>,
    key: K::V,
    value: V::V,
)
    requires
        SnapshotableStorage::wf(removed),
        removed.height >= 0,
        removed.value@ == start.value@.insert(key, Operation::Update(value)).insert(
            key,
            Operation::Delete,
        ),
        removed.committed(after),
        keys_valid::<K, Operation<V::V>>(removed.value@),
        no_record_ahead(
            removed.contents(),
            removed.scope(),
            K::encode(key),
            removed.height as int,
        ),
    ensures
        after.spec_get(key) == Ok::<Option<V::V>, Error>(None),
        lookup(
            after.contents(),
            spec_storage_key(removed.scope(), K::encode(key), removed.height as int),
        ) == Some(operation_record(Operation::Delete)),
{
    lemma_map_commit_then_get(removed, after, key);
}

/// A remove after a commit is a true delete: where a value is committed
/// under a key and the key is then taken away and that is committed, a read
/// of the key gives nothing, while a read that is bounded by the height of
/// the first commit still gives the value.
pub proof fn lemma_remove_after_commit<S: Store, M: Merkle, K: KeyType, V: ValueType>(
    inserted: &SnapshotableStorage<S, M, MapModel<K, V>>,
    committed: &SnapshotableStorage<S, M, MapModel<K, V>>,
    removed: &SnapshotableStorage<S, M, MapModel<K, V>>,
    after: &SnapshotableStorage<S, M, MapModel<K, V>>,
    key: K::V,
    value: V::V,
)
    requires
        SnapshotableStorage::wf(inserted),
        SnapshotableStorage::wf(removed),
        inserted.height >= 0,
        inserted.value@.contains_key(key),
        inserted.value@[key] == Operation::Update(value),
        keys_valid::<K, Operation<V::V>>(inserted.value@),
        V::valid(value),
        inserted.committed(committed),
        committed.same_beneath(removed),
        removed.value@ == committed.value@.insert(key, Operation::Delete),
        removed.committed(after),
        no_record_ahead(
            removed.contents(),
            removed.scope(),
            K::encode(key),
            removed.height as int,
        ),
    ensures
        after.spec_get(key) == Ok::<Option<V::V>, Error>(None),
        read_value::<V>(
            record_at(after.contents(), after.scope(), K::encode(key), inserted.height as int),
        ) == Ok::<Option<V::V>, Error>(Some(value)),
{
    lemma_map_commit_then_get(inserted, committed, key);
    assert forall|k: K::V| #[trigger] removed.value@.contains_key(k) implies K::valid(k) by {
        assert(k == key);
    }
    lemma_map_commit_then_get(removed, after, key);
    lemma_commit_keeps_history(removed, after, K::encode(key), inserted.height as int);
}

/// After a commit, a read of a single value gives what the pending edit left
/// behind.
pub proof fn lemma_value_commit_then_get<S: Store, M: Merkle, T: ValueType>(
    before: &SnapshotableStorage<S, M, Value<T>>,
    after: &SnapshotableStorage<S, M, Value<T>>,
)
    requires
        SnapshotableStorage::wf(before),
        before.height >= 0,
        before.committed(after),
        before.value@ is Some,
        valid_operation::<T>(before.value@->0),
        no_record_ahead(
            before.contents(),
            before.scope(),
            Seq::<u8>::empty(),
            before.height as int,
        ),
    ensures
        resolve(after.pending(), after.beneath()) == Ok::<Option<T::V>, Error>(
            outcome(before.value@->0),
        ),
{
    lemma_commit_writes(before, after, 0);
    lemma_read_record::<T>(before.value@->0);
}

/// After a commit, a read of an element of a list that had a pending edit
/// gives what the edit leaves behind.
///
/// The storage must not hold a record of the index from a height that a
/// rollback has left, and the index must not be the one that the length is
/// kept under.
pub proof fn lemma_list_commit_then_get<S: Store, M: Merkle, T: ValueType>(
    before: &SnapshotableStorage<S, M, Vec<T>>,
    after: &SnapshotableStorage<S, M, Vec<T>>,
    index: u64,
)
    requires
        SnapshotableStorage::wf(before),
        before.height >= 0,
        before.committed(after),
        before.value.entries().contains_key(index),
        index != INDEX_VEC_LEN,
        valid_operation::<T>(before.value.entries()[index]),
        no_record_ahead(before.contents(), before.scope(), cbor_u64(index), before.height as int),
    ensures
        after.beneath(index) == Ok::<Option<T::V>, Error>(
            outcome(before.value.entries()[index]),
        ),
{
    let s = before.value.cache.seq();
    let pending = before.value.pending();
    let i = lemma_index_of(s, index);
    assert(pending[i] == (cbor_u64(index), encode_operation::<T>(before.value.entries()[index])));
    assert forall|j: int| 0 <= j < pending.len() && j != i implies (#[trigger] pending[j]).0
        != pending[i].0 by {
        if j < s.len() {
            if pending[j].0 == pending[i].0 {
                lemma_read_u64(s[j].0);
                lemma_read_u64(index);
                lemma_unique(s, i, j, index);
            }
        } else {
            lemma_read_u64(INDEX_VEC_LEN);
            lemma_read_u64(index);
        }
    }
    lemma_commit_writes(before, after, i);
    lemma_read_record::<T>(before.value.entries()[index]);
}

/// After a commit, the length that the cache of a list knew is the length
/// that is read.
///
/// The storage must not hold a record of the length from a height that a
/// rollback has left, and the cache must hold no edit under the index that
/// the length is kept under.
pub proof fn lemma_list_commit_then_len<S: Store, M: Merkle, T: ValueType>(
    before: &SnapshotableStorage<S, M, Vec<T>>,
    after: &SnapshotableStorage<S, M, Vec<T>>,
)
    requires
        SnapshotableStorage::wf(before),
        before.height >= 0,
        before.committed(after),
        before.value.len is Some,
        !before.value.entries().contains_key(INDEX_VEC_LEN),
        no_record_ahead(
            before.contents(),
            before.scope(),
            cbor_u64(INDEX_VEC_LEN),
            before.height as int,
        ),
    ensures
        after.beneath_len() == Ok::<u64, Error>(before.value.len->0),
{
    let s = before.value.cache.seq();
    let pending = before.value.pending();
    let i = s.len() as int;
    let l = before.value.len->0;
    assert(pending[i] == (cbor_u64(INDEX_VEC_LEN), Operation::Update(cbor_u64(l))));
    assert forall|j: int| 0 <= j < pending.len() && j != i implies (#[trigger] pending[j]).0
        != pending[i].0 by {
        lemma_at(s, j);
        if pending[j].0 == pending[i].0 {
            lemma_read_u64(s[j].0);
            lemma_read_u64(INDEX_VEC_LEN);
        }
    }
    lemma_commit_writes(before, after, i);
    lemma_read_record::<u64>(Operation::Update(l));
}

/// A commit leaves the reads of a list alone where the cache held no edit:
/// an element without a pending edit reads as before, and so does the
/// length where the cache did not know it.
///
/// The storage must not hold a record of the index from a height that a
/// rollback has left.
pub proof fn lemma_list_commit_keeps<S: Store, M: Merkle, T: ValueType>(
    before: &SnapshotableStorage<S, M, Vec<T>>,
    after: &SnapshotableStorage<S, M, Vec<T>>,
    index: u64,
)
    requires
        SnapshotableStorage::wf(before),
        before.height >= 0,
        before.committed(after),
        !before.value.entries().contains_key(index),
        index == INDEX_VEC_LEN ==> before.value.len is None,
        no_record_ahead(before.contents(), before.scope(), cbor_u64(index), before.height as int),
    ensures
        index != INDEX_VEC_LEN ==> after.beneath(index) == before.beneath(index),
        index == INDEX_VEC_LEN ==> after.beneath_len() == before.beneath_len(),
{
    let s = before.value.cache.seq();
    let pending = before.value.pending();
    assert forall|j: int| 0 <= j < pending.len() implies (#[trigger] pending[j]).0 != cbor_u64(
        index,
    ) by {
        if j < s.len() {
            lemma_at(s, j);
            if pending[j].0 == cbor_u64(index) {
                lemma_read_u64(s[j].0);
                lemma_read_u64(index);
            }
        } else {
            if pending[j].0 == cbor_u64(index) {
                lemma_read_u64(INDEX_VEC_LEN);
                lemma_read_u64(index);
            }
        }
    }
    lemma_commit_keeps_others(before, after, cbor_u64(index));
}

} // verus!
