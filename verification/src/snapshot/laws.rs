//! What a commit does to what a storage reads.

use crate::backend::store::{
    in_range, lemma_greatest_agree, lemma_greatest_is, lemma_greatest_none, lemma_greatest_shrink,
    lemma_write_all_dom, lemma_write_all_last, lemma_write_all_untouched, lookup, Store,
};
use crate::merkle::{is_merkle_key, Merkle};
use crate::model::model::Model;
use crate::order::{
    lemma_lex_irreflexive, lemma_lex_transitive, lemma_lex_trichotomy, lex_le, lex_lt, starts_with,
};
use crate::snapshot::storage::{commit_batch, opened_contents, record_at, SnapshotableStorage};
use crate::snapshot::utils::{
    data_prefix, lemma_data_key_of, lemma_data_range, lemma_height_key_apart,
    lemma_merkle_key_apart, lemma_storage_key_injective, lemma_storage_key_order,
    lemma_type_key_apart,
    spec_current_height_key, spec_merkle_key, spec_storage_key,
};
use crate::snapshot::value::{height_record, operation_record};
use vstd::prelude::*;

verus! {

/// Whether `store` holds no key above the data key of `key` at `height` and
/// up to its data key at the next height. A storage that was rolled back
/// may hold such records, written at heights that it has left.
pub open spec fn no_record_ahead(
    store: Map<Seq<u8>, Seq<u8>>,
    namespace: Seq<u8>,
    key: Seq<u8>,
    height: int,
) -> bool {
    forall|other: Seq<u8>| #[trigger]
        store.contains_key(other) ==> !(lex_lt(spec_storage_key(namespace, key, height), other)
            && lex_le(other, spec_storage_key(namespace, key, height + 1)))
}

/// The accumulator of a storage writes under no key that starts like a data
/// key of the storage.
pub proof fn lemma_data_keys_not_owned<S: Store, M: Merkle, V: Model>(
    storage: &SnapshotableStorage<S, M, V>,
    key: Seq<u8>,
    x: Seq<u8>,
)
    requires
        storage.wf(),
        starts_with(x, data_prefix(storage.scope(), key)),
    ensures
        !storage.merkle.owns(x),
{
    if storage.merkle.owns(x) {
        assert(is_merkle_key(storage.scope(), x));
        let height = choose|height: int| x == #[trigger] spec_merkle_key(storage.scope(), height);
        lemma_merkle_key_apart(storage.scope(), key, height);
    }
}

/// After a commit, the record of an edit is what a read at the height of the
/// commit finds for its logical key, provided that no other edit of the
/// batch has that key. A read at the new height finds it too, unless the
/// store holds a record of the key from a height that was left by a
/// rollback.
pub proof fn lemma_commit_writes<S: Store, M: Merkle, V: Model>(
    before: &SnapshotableStorage<S, M, V>,
    after: &SnapshotableStorage<S, M, V>,
    i: int,
)
    requires
        before.wf(),
        before.height >= 0,
        before.committed(after),
        0 <= i < before.value.pending().len(),
        forall|j: int|
            0 <= j < before.value.pending().len() && j != i ==> (
            #[trigger] before.value.pending()[j]).0 != before.value.pending()[i].0,
    ensures
        record_at(
            after.contents(),
            before.scope(),
            before.value.pending()[i].0,
            before.height as int,
        ) == Some(operation_record(before.value.pending()[i].1)),
        no_record_ahead(
            before.contents(),
            before.scope(),
            before.value.pending()[i].0,
            before.height as int,
        ) ==> record_at(
            after.contents(),
            before.scope(),
            before.value.pending()[i].0,
            before.height + 1,
        ) == Some(operation_record(before.value.pending()[i].1)),
{
    let ns = before.scope();
    let h = before.height as int;
    let pending = before.value.pending();
    let kb = pending[i].0;
    let rec = operation_record(pending[i].1);
    let target = spec_storage_key(ns, kb, h);
    let low = spec_storage_key(ns, kb, 0);
    let next = spec_storage_key(ns, kb, h + 1);
    let batch = commit_batch(ns, before.height, pending);
    let written = before.written();
    let last = after.contents();
    assert(batch[i] == (target, rec));
    assert(starts_with(target, data_prefix(ns, kb)));
    assert forall|j: int| i < j < batch.len() implies (#[trigger] batch[j]).0 != batch[i].0 by {
        if j < pending.len() {
            if batch[j].0 == target {
                lemma_storage_key_injective(ns, pending[j].0, kb, h);
            }
        } else {
            lemma_height_key_apart(ns, kb);
        }
    }
    lemma_write_all_last(before.contents(), batch, i);
    lemma_data_keys_not_owned(before, kb, target);
    M::lemma_inserted_frame(&before.merkle, written, pending, &after.merkle, last, target);
    lemma_storage_key_order(ns, kb, 0, h);
    lemma_storage_key_order(ns, kb, h, h + 1);
    lemma_storage_key_order(ns, kb, 0, h + 1);
    lemma_greatest_is(last, low, target, target);
    if no_record_ahead(before.contents(), ns, kb, h) {
        assert forall|other: Seq<u8>| #[trigger]
            last.contains_key(other) && in_range(other, low, next) implies lex_le(
            other,
            target,
        ) by {
            lemma_data_range(ns, kb, 0, h + 1, other);
            lemma_data_keys_not_owned(before, kb, other);
            M::lemma_inserted_frame(&before.merkle, written, pending, &after.merkle, last, other);
            lemma_lex_trichotomy(other, target);
            if lex_lt(target, other) {
                lemma_write_all_dom(before.contents(), batch, other);
                if !before.contents().contains_key(other) {
                    let j = choose|j: int| 0 <= j < batch.len() && (#[trigger] batch[j]).0 == other;
                    if j < pending.len() {
                        lemma_data_key_of(ns, kb, pending[j].0, h);
                        lemma_lex_irreflexive(target, 0);
                    } else {
                        lemma_height_key_apart(ns, kb);
                    }
                }
            }
        }
        lemma_greatest_is(last, low, next, target);
    }
}

/// After a commit, the record of an edit lies under the data key of its
/// logical key at the height of the commit, provided that no other edit of
/// the batch has that key.
pub proof fn lemma_commit_lookup<S: Store, M: Merkle, V: Model>(
    before: &SnapshotableStorage<S, M, V>,
    after: &SnapshotableStorage<S, M, V>,
    i: int,
)
    requires
        before.wf(),
        before.height >= 0,
        before.committed(after),
        0 <= i < before.value.pending().len(),
        forall|j: int|
            0 <= j < before.value.pending().len() && j != i ==> (
            #[trigger] before.value.pending()[j]).0 != before.value.pending()[i].0,
    ensures
        lookup(
            after.contents(),
            spec_storage_key(before.scope(), before.value.pending()[i].0, before.height as int),
        ) == Some(operation_record(before.value.pending()[i].1)),
{
    let ns = before.scope();
    let h = before.height as int;
    let pending = before.value.pending();
    let kb = pending[i].0;
    let target = spec_storage_key(ns, kb, h);
    let batch = commit_batch(ns, before.height, pending);
    assert(batch[i] == (target, operation_record(pending[i].1)));
    assert(starts_with(target, data_prefix(ns, kb)));
    assert forall|j: int| i < j < batch.len() implies (#[trigger] batch[j]).0 != batch[i].0 by {
        if j < pending.len() {
            if batch[j].0 == target {
                lemma_storage_key_injective(ns, pending[j].0, kb, h);
            }
        } else {
            lemma_height_key_apart(ns, kb);
        }
    }
    lemma_write_all_last(before.contents(), batch, i);
    lemma_data_keys_not_owned(before, kb, target);
    M::lemma_inserted_frame(
        &before.merkle,
        before.written(),
        pending,
        &after.merkle,
        after.contents(),
        target,
    );
}

/// A commit changes nothing of what a read finds for a logical key that has
/// no pending edit: at the new height it finds what it found before.
///
/// The storage must not hold a record of the key from a height that a
/// rollback has left; the read at the new height would find that one.
pub proof fn lemma_commit_keeps_others<S: Store, M: Merkle, V: Model>(
    before: &SnapshotableStorage<S, M, V>,
    after: &SnapshotableStorage<S, M, V>,
    key: Seq<u8>,
)
    requires
        before.wf(),
        before.height >= 0,
        before.committed(after),
        forall|i: int|
            0 <= i < before.value.pending().len() ==> (#[trigger] before.value.pending()[i]).0
                != key,
        no_record_ahead(before.contents(), before.scope(), key, before.height as int),
    ensures
        record_at(after.contents(), before.scope(), key, before.height + 1) == record_at(
            before.contents(),
            before.scope(),
            key,
            before.height as int,
        ),
{
    let ns = before.scope();
    let h = before.height as int;
    let pending = before.value.pending();
    let low = spec_storage_key(ns, key, 0);
    let middle = spec_storage_key(ns, key, h);
    let high = spec_storage_key(ns, key, h + 1);
    let batch = commit_batch(ns, before.height, pending);
    let written = before.written();
    let last = after.contents();
    assert forall|x: Seq<u8>| in_range(x, low, high) implies #[trigger] lookup(last, x) == lookup(
        before.contents(),
        x,
    ) by {
        lemma_data_range(ns, key, 0, h + 1, x);
        lemma_data_keys_not_owned(before, key, x);
        M::lemma_inserted_frame(&before.merkle, written, pending, &after.merkle, last, x);
        assert forall|j: int| 0 <= j < batch.len() implies (#[trigger] batch[j]).0 != x by {
            if batch[j].0 == x {
                if j < pending.len() {
                    lemma_data_key_of(ns, key, pending[j].0, h);
                } else {
                    lemma_height_key_apart(ns, key);
                }
            }
        }
        lemma_write_all_untouched(before.contents(), batch, x);
    }
    lemma_greatest_agree(last, before.contents(), low, high);
    lemma_storage_key_order(ns, key, h, h + 1);
    lemma_greatest_shrink(before.contents(), low, middle, high);
}

/// A rollback deletes nothing: what a read that is bounded by any height
/// finds for a logical key is what it found before.
pub proof fn lemma_rollback_keeps_records<S: Store, M: Merkle, V: Model>(
    before: &SnapshotableStorage<S, M, V>,
    after: &SnapshotableStorage<S, M, V>,
    target: i64,
    key: Seq<u8>,
    bound: int,
)
    requires
        after.namespace == before.namespace,
        after.contents() == before.contents().insert(
            spec_current_height_key(before.scope()),
            height_record(target),
        ),
    ensures
        record_at(after.contents(), after.scope(), key, bound) == record_at(
            before.contents(),
            before.scope(),
            key,
            bound,
        ),
{
    let ns = before.scope();
    let low = spec_storage_key(ns, key, 0);
    let high = spec_storage_key(ns, key, bound);
    assert forall|x: Seq<u8>| in_range(x, low, high) implies #[trigger] lookup(
        after.contents(),
        x,
    ) == lookup(before.contents(), x) by {
        lemma_data_range(ns, key, 0, bound, x);
        lemma_height_key_apart(ns, key);
    }
    lemma_greatest_agree(after.contents(), before.contents(), low, high);
}

/// A commit changes nothing of what a read below its height finds: what was
/// committed stays readable as it was.
pub proof fn lemma_commit_keeps_history<S: Store, M: Merkle, V: Model>(
    before: &SnapshotableStorage<S, M, V>,
    after: &SnapshotableStorage<S, M, V>,
    key: Seq<u8>,
    bound: int,
)
    requires
        before.wf(),
        before.committed(after),
        0 <= bound < before.height,
    ensures
        record_at(after.contents(), before.scope(), key, bound) == record_at(
            before.contents(),
            before.scope(),
            key,
            bound,
        ),
{
    let ns = before.scope();
    let h = before.height as int;
    let pending = before.value.pending();
    let low = spec_storage_key(ns, key, 0);
    let high = spec_storage_key(ns, key, bound);
    let batch = commit_batch(ns, before.height, pending);
    let written = before.written();
    let last = after.contents();
    assert forall|x: Seq<u8>| in_range(x, low, high) implies #[trigger] lookup(last, x) == lookup(
        before.contents(),
        x,
    ) by {
        lemma_data_range(ns, key, 0, bound, x);
        lemma_data_keys_not_owned(before, key, x);
        M::lemma_inserted_frame(&before.merkle, written, pending, &after.merkle, last, x);
        assert forall|j: int| 0 <= j < batch.len() implies (#[trigger] batch[j]).0 != x by {
            if batch[j].0 == x {
                if j < pending.len() {
                    lemma_data_key_of(ns, key, pending[j].0, h);
                    lemma_storage_key_order(ns, key, bound, h);
                    lemma_lex_trichotomy(x, high);
                } else {
                    lemma_height_key_apart(ns, key);
                }
            }
        }
        lemma_write_all_untouched(before.contents(), batch, x);
    }
    lemma_greatest_agree(last, before.contents(), low, high);
}

/// Whether `store` holds nothing at `height` or ahead of it: whatever it
/// holds that starts like a data key of the namespace lies below the data
/// key of its logical key at `height`. An empty store is in this state, and
/// opening a namespace and committing keep it so; a rollback does not.
pub open spec fn settled(store: Map<Seq<u8>, Seq<u8>>, namespace: Seq<u8>, height: int) -> bool {
    forall|key: Seq<u8>, x: Seq<u8>|
        store.contains_key(x) && #[trigger] starts_with(x, data_prefix(namespace, key)) ==> lex_lt(
            x,
            spec_storage_key(namespace, key, height),
        )
}

/// A store that holds nothing at a height or ahead of it holds no record
/// ahead of any logical key at that height.
pub proof fn lemma_settled_no_record_ahead(
    store: Map<Seq<u8>, Seq<u8>>,
    namespace: Seq<u8>,
    key: Seq<u8>,
    height: int,
)
    requires
        settled(store, namespace, height),
    ensures
        no_record_ahead(store, namespace, key, height),
{
    let here = spec_storage_key(namespace, key, height);
    let next = spec_storage_key(namespace, key, height + 1);
    assert forall|other: Seq<u8>| #[trigger] store.contains_key(other) implies !(lex_lt(
        here,
        other,
    ) && lex_le(other, next)) by {
        if lex_lt(here, other) && lex_le(other, next) {
            lemma_data_range(namespace, key, height, height + 1, other);
            assert(starts_with(other, data_prefix(namespace, key)));
            lemma_lex_trichotomy(here, other);
        }
    }
}

/// Setting a namespace up in a store that holds nothing at a height or
/// ahead of it leaves it so: the marker and the height record are no data
/// keys.
pub proof fn lemma_opening_keeps_settled(
    store: Map<Seq<u8>, Seq<u8>>,
    namespace: Seq<u8>,
    code: u32,
    height: int,
)
    requires
        settled(store, namespace, height),
    ensures
        settled(opened_contents(store, namespace, code), namespace, height),
{
    let after = opened_contents(store, namespace, code);
    assert forall|key: Seq<u8>, x: Seq<u8>|
        after.contains_key(x) && #[trigger] starts_with(
            x,
            data_prefix(namespace, key),
        ) implies lex_lt(x, spec_storage_key(namespace, key, height)) by {
        lemma_type_key_apart(namespace, key);
        lemma_height_key_apart(namespace, key);
        assert(store.contains_key(x));
    }
}

/// A commit on a storage whose store holds nothing at its height or ahead of
/// it leaves a store that holds nothing at the new height or ahead of it.
pub proof fn lemma_commit_keeps_settled<S: Store, M: Merkle, V: Model>(
    before: &SnapshotableStorage<S, M, V>,
    after: &SnapshotableStorage<S, M, V>,
)
    requires
        before.wf(),
        before.height >= 0,
        before.committed(after),
        settled(before.contents(), before.scope(), before.height as int),
    ensures
        settled(after.contents(), after.scope(), after.height as int),
{
    let ns = before.scope();
    let h = before.height as int;
    let pending = before.value.pending();
    let batch = commit_batch(ns, before.height, pending);
    let written = before.written();
    let last = after.contents();
    assert forall|key: Seq<u8>, x: Seq<u8>|
        last.contains_key(x) && #[trigger] starts_with(x, data_prefix(ns, key)) implies lex_lt(
        x,
        spec_storage_key(ns, key, h + 1),
    ) by {
        let here = spec_storage_key(ns, key, h);
        let next = spec_storage_key(ns, key, h + 1);
        lemma_storage_key_order(ns, key, h, h + 1);
        lemma_data_keys_not_owned(before, key, x);
        M::lemma_inserted_frame(&before.merkle, written, pending, &after.merkle, last, x);
        assert(written.contains_key(x));
        lemma_write_all_dom(before.contents(), batch, x);
        if before.contents().contains_key(x) {
            lemma_lex_transitive(x, here, next, 0);
        } else {
            let j = choose|j: int| 0 <= j < batch.len() && (#[trigger] batch[j]).0 == x;
            if j < pending.len() {
                lemma_data_key_of(ns, key, pending[j].0, h);
            } else {
                lemma_height_key_apart(ns, key);
            }
        }
    }
}

/// A store that holds nothing at height 0 or ahead of it holds no record of
/// any logical key: a read at height 0 finds nothing.
pub proof fn lemma_settled_reads_nothing(
    store: Map<Seq<u8>, Seq<u8>>,
    namespace: Seq<u8>,
    key: Seq<u8>,
)
    requires
        settled(store, namespace, 0),
    ensures
        record_at(store, namespace, key, 0) is None,
{
    let first = spec_storage_key(namespace, key, 0);
    assert forall|x: Seq<u8>| #[trigger] store.contains_key(x) implies !in_range(
        x,
        first,
        first,
    ) by {
        if in_range(x, first, first) {
            lemma_data_range(namespace, key, 0, 0, x);
            assert(starts_with(x, data_prefix(namespace, key)));
            lemma_lex_trichotomy(x, first);
        }
    }
    lemma_greatest_none(store, first, first);
}

} // verus!
