//! The storage: a store, a cache of pending edits, and a height.
//!
//! A commit writes every pending edit under a key that carries the current
//! height, together with the record of the next height, as one batch. The
//! height in memory advances last, so that a commit that fails leaves the
//! storage as it was. A rollback only moves the height; nothing is deleted.

use crate::backend::store::{batch_view, greatest_in, lemma_write_one, lookup, write_all, Store};
use crate::error::Error;
use crate::merkle::{is_merkle_key, Merkle};
use crate::model::model::{pairs_view, Model};
use crate::operation::{Operation, OperationBytes};
use crate::snapshot::transaction::Transaction;
use crate::store::utils::agrees;
use crate::snapshot::utils::{
    current_height_key, spec_current_height_key, spec_storage_key, spec_type_key, storage_key,
    type_key,
};
use crate::snapshot::value::{
    encode_operation_record, height_record, operation_record, parse_height_record,
    parse_type_record, type_record, FromStoreBytes, StoreHeight, StoreType, ToStoreBytes,
};
use vstd::prelude::*;
use vstd::utf8::encode_utf8;

verus! {

/// A store of versioned records with the cache of edits that the next commit
/// will write.
pub struct SnapshotableStorage<S, M, V> {
    pub store: S,
    pub height: i64,
    pub value: V,
    pub namespace: String,
    pub merkle: M,
}

/// The data records that a commit at `height` writes for `pending`.
pub open spec fn data_writes(
    namespace: Seq<u8>,
    height: int,
    pending: Seq<(Seq<u8>, Operation<Seq<u8>>)>,
) -> Seq<(Seq<u8>, Seq<u8>)> {
    Seq::new(
        pending.len(),
        |i: int|
            (
                spec_storage_key(namespace, pending[i].0, height),
                operation_record(pending[i].1),
            ),
    )
}

/// The batch that a commit at `height` writes for `pending`: the data
/// records, then the record of the next height.
pub open spec fn commit_batch(
    namespace: Seq<u8>,
    height: i64,
    pending: Seq<(Seq<u8>, Operation<Seq<u8>>)>,
) -> Seq<(Seq<u8>, Seq<u8>)> {
    data_writes(namespace, height as int, pending).push(
        (spec_current_height_key(namespace), height_record((height + 1) as i64)),
    )
}

/// The record of the logical key `key` that a storage at `height` reads: the
/// one written at the greatest height that is not above `height`.
pub open spec fn record_at(
    store: Map<Seq<u8>, Seq<u8>>,
    namespace: Seq<u8>,
    key: Seq<u8>,
    height: int,
) -> Option<Seq<u8>> {
    greatest_in(
        store,
        spec_storage_key(namespace, key, 0),
        spec_storage_key(namespace, key, height),
    )
}

/// The contents of a store after a namespace has been set up in it for a
/// model with the tag `code`.
pub open spec fn initialized(store: Map<Seq<u8>, Seq<u8>>, namespace: Seq<u8>, code: u32) -> Map<
    Seq<u8>,
    Seq<u8>,
> {
    store.insert(spec_type_key(namespace), type_record(code)).insert(
        spec_current_height_key(namespace),
        height_record(0),
    )
}

/// The height that a store holds for a namespace: that of its height record,
/// and 0 where it has none.
pub open spec fn persisted_height(store: Map<Seq<u8>, Seq<u8>>, namespace: Seq<u8>) -> Result<
    i64,
    Error,
> {
    match lookup(store, spec_current_height_key(namespace)) {
        Some(bytes) => parse_height_record(bytes),
        None => Ok(0i64),
    }
}

/// The contents of a store after `namespace` has been opened in it for a
/// model with the tag `code`: a namespace without a type marker is set up, a
/// namespace with one is left as it is.
pub open spec fn opened_contents(
    before: Map<Seq<u8>, Seq<u8>>,
    namespace: Seq<u8>,
    code: u32,
) -> Map<Seq<u8>, Seq<u8>> {
    match lookup(before, spec_type_key(namespace)) {
        None => initialized(before, namespace, code),
        Some(_) => before,
    }
}

/// The height at which `namespace` is opened: 0 on first use, and its
/// persisted height after that.
pub open spec fn opened_height(before: Map<Seq<u8>, Seq<u8>>, namespace: Seq<u8>) -> i64 {
    match lookup(before, spec_type_key(namespace)) {
        None => 0,
        Some(_) => match persisted_height(before, namespace) {
            Ok(h) => h,
            Err(_) => 0,
        },
    }
}

/// Whether opening `namespace` for a model with the tag `code`, in a store
/// with the contents `before`, gives the contents `after` and `height`.
pub open spec fn opened(
    before: Map<Seq<u8>, Seq<u8>>,
    namespace: Seq<u8>,
    code: u32,
    after: Map<Seq<u8>, Seq<u8>>,
    height: i64,
) -> bool {
    &&& refusal(before, namespace, code) is None
    &&& after == opened_contents(before, namespace, code)
    &&& height == opened_height(before, namespace)
}

/// Why `namespace` cannot be opened for a model with the tag `code`, if it
/// cannot: its marker is no record, or it is the marker of another kind of
/// model, which is a `TypeMissMatch`, or its height is no record.
pub open spec fn refusal(before: Map<Seq<u8>, Seq<u8>>, namespace: Seq<u8>, code: u32) -> Option<
    Error,
> {
    match lookup(before, spec_type_key(namespace)) {
        None => None,
        Some(marker) => match parse_type_record(marker) {
            Err(e) => Some(e),
            Ok(tag) => if tag != code {
                Some(Error::TypeMissMatch)
            } else {
                match persisted_height(before, namespace) {
                    Err(e) => Some(e),
                    Ok(_) => None,
                }
            },
        },
    }
}

/// Whether `namespace` can be opened at `height`, and why not where it
/// cannot: it cannot be opened at all, or its height is below `height`,
/// which is a `HeightError`.
pub open spec fn opening_at(
    before: Map<Seq<u8>, Seq<u8>>,
    namespace: Seq<u8>,
    code: u32,
    height: i64,
) -> Result<(), Error> {
    match refusal(before, namespace, code) {
        Some(e) => Err(e),
        None => if height > opened_height(before, namespace) {
            Err(Error::HeightError)
        } else {
            Ok(())
        },
    }
}

/// Whether opening `namespace` at `height`, in a store with the contents
/// `before`, gives the contents `after`: those of the opened namespace, with
/// the record of `height` where the namespace was rolled back to it.
pub open spec fn opened_at(
    before: Map<Seq<u8>, Seq<u8>>,
    namespace: Seq<u8>,
    code: u32,
    height: i64,
    after: Map<Seq<u8>, Seq<u8>>,
) -> bool {
    &&& opening_at(before, namespace, code, height) is Ok
    &&& after == if height == opened_height(before, namespace) {
        opened_contents(before, namespace, code)
    } else {
        opened_contents(before, namespace, code).insert(
            spec_current_height_key(namespace),
            height_record(height),
        )
    }
}

impl<S: Store, M: Merkle, V: Model> SnapshotableStorage<S, M, V> {
    /// The bytes of the namespace.
    pub open spec fn scope(&self) -> Seq<u8> {
        encode_utf8(self.namespace@)
    }

    /// The store and the cache are well formed, the accumulator is at the
    /// height of the storage and writes only Merkle records of its
    /// namespace.
    pub open spec fn wf(&self) -> bool {
        &&& self.store.wf()
        &&& self.value.wf()
        &&& self.merkle.follows(self.height)
        &&& forall|key: Seq<u8>| #[trigger] self.merkle.owns(key)
            ==> is_merkle_key(self.scope(), key)
    }

    /// What the store holds.
    pub open spec fn contents(&self) -> Map<Seq<u8>, Seq<u8>> {
        self.store.contents()
    }

    /// What the store holds once the batch of a commit has been written,
    /// before the accumulator has added its own record.
    pub open spec fn written(&self) -> Map<Seq<u8>, Seq<u8>> {
        write_all(self.contents(), commit_batch(self.scope(), self.height, self.value.pending()))
    }

    /// Whether `after` is this storage after a commit: the batch is written
    /// and folded into the accumulator, the cache is empty, and the height
    /// has advanced by one.
    pub open spec fn committed(&self, after: &Self) -> bool {
        &&& self.height < i64::MAX
        &&& after.height == self.height + 1
        &&& after.namespace == self.namespace
        &&& after.value.cleared()
        &&& M::inserted(
            &self.merkle,
            self.written(),
            self.value.pending(),
            &after.merkle,
            after.contents(),
        )
    }

    /// Whether the accumulator can fail once the batch is written: it
    /// refuses the batch on grounds of its own, or it calls a store that may
    /// refuse.
    pub open spec fn accumulator_may_fail(&self) -> bool {
        self.merkle.refusal(self.written()) is Some || (self.merkle.uses_store()
            && !self.store.reliable())
    }

    /// Whether `after` is this storage after a commit that has failed: cache,
    /// height and accumulator are as they were. The store is as it was too,
    /// unless it was the accumulator that failed: then the batch is written.
    pub open spec fn commit_failed(&self, after: &Self) -> bool {
        &&& after.height == self.height
        &&& after.namespace == self.namespace
        &&& after.value == self.value
        &&& after.merkle == self.merkle
        &&& (after.contents() == self.contents() || (after.contents() == self.written()
            && self.accumulator_may_fail()))
    }

    /// What a commit gives over a store that does not fail: the next height,
    /// unless the height cannot grow or the accumulator refuses the batch.
    pub open spec fn commit_outcome(&self) -> Result<i64, Error> {
        if self.height == i64::MAX {
            Err(Error::HeightError)
        } else {
            match self.merkle.refusal(self.written()) {
                Some(e) => Err(e),
                None => Ok((self.height + 1) as i64),
            }
        }
    }

    /// Opens the storage of the empty namespace.
    pub fn new(value: V, store: S) -> (r: Result<Self, Error>)
        requires
            store.wf(),
            value.wf(),
        ensures
            match r {
                Ok(s) => s.wf() && s.namespace@ == Seq::<char>::empty() && s.value == value
                    && opened(
                    store.contents(),
                    s.scope(),
                    V::spec_type_code(),
                    s.contents(),
                    s.height,
                ),
                Err(e) => true,
            },
            refusal(store.contents(), encode_utf8(Seq::<char>::empty()), V::spec_type_code())
                is Some ==> r is Err,
            store.reliable() ==> match refusal(
                store.contents(),
                encode_utf8(Seq::<char>::empty()),
                V::spec_type_code(),
            ) {
                Some(e) => r matches Err(x) && x == e,
                None => r is Ok,
            },
            r matches Ok(s) ==> s.store.reliable() == store.reliable(),
    {
        Self::new_with_name(value, String::new(), store)
    }

    /// Opens the storage of the namespace `name`. On first use the
    /// namespace is set up at height 0. A namespace that belongs to another
    /// kind of model is refused with `TypeMissMatch`.
    pub fn new_with_name(value: V, name: String, store: S) -> (r: Result<Self, Error>)
        requires
            store.wf(),
            value.wf(),
        ensures
            match r {
                Ok(s) => s.wf() && s.namespace@ == name@ && s.value == value && opened(
                    store.contents(),
                    s.scope(),
                    V::spec_type_code(),
                    s.contents(),
                    s.height,
                ),
                Err(e) => true,
            },
            refusal(store.contents(), encode_utf8(name@), V::spec_type_code()) is Some ==> r is Err,
            store.reliable() ==> match refusal(
                store.contents(),
                encode_utf8(name@),
                V::spec_type_code(),
            ) {
                Some(e) => r matches Err(x) && x == e,
                None => r is Ok,
            },
            r matches Ok(s) ==> s.store.reliable() == store.reliable(),
    {
        let mut store = store;
        let key = type_key(&name);
        let found = match store.get(key.as_slice()) {
            Ok(found) => match found {
                Some(bytes) => Some(StoreType::from_bytes(bytes.as_ref().as_slice())),
                None => None,
            },
            Err(e) => {
                return Err(e);
            },
        };
        let height: i64 = match found {
            Some(parsed) => {
                let store_type = parsed?;
                if store_type.ty != value.type_code() {
                    return Err(Error::TypeMissMatch);
                }
                Self::read_height(&store, &name)?
            },
            None => {
                Self::init(&mut store, &name, value.type_code())?;
                0
            },
        };
        let merkle = M::new(name.as_str(), height);
        Ok(Self { store, height, value, namespace: name, merkle })
    }

    /// Opens the storage of the empty namespace and moves it to `height`.
    pub fn new_with_height(value: V, height: i64, store: S) -> (r: Result<Self, Error>)
        requires
            store.wf(),
            value.wf(),
        ensures
            r matches Ok(s) ==> s.wf() && s.namespace@ == Seq::<char>::empty() && s.value == value
                && s.store.reliable() == store.reliable() && opened_at(
                store.contents(),
                s.scope(),
                V::spec_type_code(),
                height,
                s.contents(),
            ) && s.height == height,
            store.reliable() ==> agrees(
                r,
                opening_at(
                    store.contents(),
                    encode_utf8(Seq::<char>::empty()),
                    V::spec_type_code(),
                    height,
                ),
            ),
            opening_at(
                store.contents(),
                encode_utf8(Seq::<char>::empty()),
                V::spec_type_code(),
                height,
            ) is Err ==> r is Err,
    {
        Self::new_with_height_namespace(value, height, String::new(), store)
    }

    /// Opens the storage of `namespace` and moves it to `height`: the
    /// namespace is opened as by `new_with_name`, and rolled back to `height`
    /// where that is not its height. A height above that of the namespace is
    /// refused with `HeightError`.
    pub fn new_with_height_namespace(value: V, height: i64, namespace: String, store: S) -> (r:
        Result<Self, Error>)
        requires
            store.wf(),
            value.wf(),
        ensures
            r matches Ok(s) ==> s.wf() && s.namespace@ == namespace@ && s.value == value
                && s.store.reliable() == store.reliable() && opened_at(
                store.contents(),
                s.scope(),
                V::spec_type_code(),
                height,
                s.contents(),
            ) && s.height == height,
            store.reliable() ==> agrees(
                r,
                opening_at(store.contents(), encode_utf8(namespace@), V::spec_type_code(), height),
            ),
            opening_at(store.contents(), encode_utf8(namespace@), V::spec_type_code(), height)
                is Err ==> r is Err,
    {
        let mut s = Self::new_with_name(value, namespace, store)?;
        if s.height != height {
            s.rollback(height)?;
        }
        Ok(s)
    }

    /// Sets up `namespace` for a model with the tag `code`: writes the type
    /// marker, then the height 0.
    fn init(store: &mut S, namespace: &String, code: u32) -> (r: Result<(), Error>)
        requires
            old(store).wf(),
        ensures
            final(store).wf(),
            final(store).reliable() == old(store).reliable(),
            old(store).reliable() ==> r is Ok,
            r is Ok ==> final(store).contents() == initialized(
                old(store).contents(),
                encode_utf8(namespace@),
                code,
            ),
    {
        let key = type_key(namespace);
        let store_type = StoreType { ty: code };
        let bytes = match store_type.to_bytes() {
            Ok(bytes) => bytes,
            Err(e) => {
                return Err(e);
            },
        };
        store.insert(key, bytes)?;
        proof {
            assert(batch_view(Seq::<(Vec<u8>, Vec<u8>)>::empty()) =~= Seq::empty());
            lemma_write_one(
                store.contents(),
                spec_current_height_key(encode_utf8(namespace@)),
                height_record(0),
            );
        }
        Self::persist(store, namespace, 0, Vec::new())?;
        Ok(())
    }

    /// The store behind the storage.
    pub fn store(&self) -> (r: &S)
        ensures
            *r == self.store,
    {
        &self.store
    }

    /// The bytes of the record that a storage at `height` reads for the
    /// logical key `key`.
    pub fn get_with_height(&self, key: &str, height: i64) -> (r: Result<Option<Vec<u8>>, Error>)
        requires
            self.wf(),
        ensures
            r matches Ok(found) ==> (match found {
                Some(bytes) => Some(bytes@),
                None => None,
            }) == record_at(self.contents(), self.scope(), encode_utf8(key@), height as int),
            self.store.reliable() ==> r is Ok,
    {
        let begin_key = storage_key(self.namespace.as_str(), key.as_bytes(), 0);
        let end_key = storage_key(self.namespace.as_str(), key.as_bytes(), height);
        match self.store.get_in(begin_key.as_slice(), end_key.as_slice())? {
            Some(v) => {
                let mut out: Vec<u8> = Vec::new();
                out.extend_from_slice(v.as_ref().as_slice());
                assert(out@ =~= v.value()@);
                Ok(Some(out))
            },
            None => Ok(None),
        }
    }

    /// The height that the store holds for `namespace`.
    fn read_height(store: &S, namespace: &String) -> (r: Result<i64, Error>)
        requires
            store.wf(),
        ensures
            r matches Ok(h) ==> persisted_height(store.contents(), encode_utf8(namespace@)) == Ok::<
                i64,
                Error,
            >(h),
            persisted_height(store.contents(), encode_utf8(namespace@)) is Err ==> r is Err,
            store.reliable() ==> match persisted_height(
                store.contents(),
                encode_utf8(namespace@),
            ) {
                Ok(_) => r is Ok,
                Err(e) => r matches Err(x) && x == e,
            },
    {
        let key = current_height_key(namespace);
        match store.get(key.as_slice())? {
            Some(bytes) => {
                let store_height = StoreHeight::from_bytes(bytes.as_ref().as_slice())?;
                Ok(store_height.height)
            },
            None => Ok(0),
        }
    }

    /// Writes `batch` and the record of `target_height` as one batch.
    fn persist(
        store: &mut S,
        namespace: &String,
        target_height: i64,
        batch: Vec<(Vec<u8>, Vec<u8>)>,
    ) -> (r: Result<(), Error>)
        requires
            old(store).wf(),
        ensures
            final(store).wf(),
            final(store).reliable() == old(store).reliable(),
            old(store).reliable() ==> r is Ok,
            r is Ok ==> final(store).contents() == write_all(
                old(store).contents(),
                batch_view(batch@).push(
                    (
                        spec_current_height_key(encode_utf8(namespace@)),
                        height_record(target_height),
                    ),
                ),
            ),
            r is Err ==> final(store).contents() == old(store).contents(),
    {
        let mut operations = batch;
        let store_height = StoreHeight { height: target_height };
        let height_key_bytes = current_height_key(namespace);
        let height_value_bytes = match store_height.to_bytes() {
            Ok(bytes) => bytes,
            Err(e) => {
                return Err(e);
            },
        };
        let ghost before = batch_view(operations@);
        operations.push((height_key_bytes, height_value_bytes));
        assert(batch_view(operations@) =~= before.push(
            (spec_current_height_key(encode_utf8(namespace@)), height_record(target_height)),
        ));
        store.execute(operations)
    }

    /// Moves the storage to `target_height`, which must not be above the
    /// current height: that is refused with `HeightError`. Only the height is
    /// written; every record stays.
    pub fn rollback(&mut self, target_height: i64) -> (r: Result<(), Error>)
        requires
            old(self).wf(),
        ensures
            final(self).wf(),
            final(self).namespace == old(self).namespace,
            final(self).value == old(self).value,
            final(self).store.reliable() == old(self).store.reliable(),
            target_height > old(self).height ==> r == Err::<(), Error>(Error::HeightError),
            target_height <= old(self).height && old(self).store.reliable() ==> r is Ok,
            match r {
                Ok(_) => {
                    &&& target_height <= old(self).height
                    &&& final(self).height == target_height
                    &&& final(self).contents() == old(self).contents().insert(
                        spec_current_height_key(old(self).scope()),
                        height_record(target_height),
                    )
                },
                Err(_) => {
                    &&& final(self).height == old(self).height
                    &&& final(self).contents() == old(self).contents()
                    &&& final(self).merkle == old(self).merkle
                },
            },
    {
        if target_height > self.height {
            return Err(Error::HeightError);
        }
        proof {
            assert(batch_view(Seq::<(Vec<u8>, Vec<u8>)>::empty()) =~= Seq::empty());
            lemma_write_one(
                self.store.contents(),
                spec_current_height_key(self.scope()),
                height_record(target_height),
            );
        }
        Self::persist(&mut self.store, &self.namespace, target_height, Vec::new())?;
        assert(old(self).merkle.follows(old(self).height));
        match self.merkle.rollback(target_height) {
            Ok(()) => {},
            Err(e) => {
                return Err(e);
            },
        }
        self.height = target_height;
        Ok(())
    }

    /// The key under which a commit at the current height writes the logical
    /// key `key`.
    pub fn storage_key(&self, key: &Vec<u8>) -> (r: Vec<u8>)
        ensures
            r@ == spec_storage_key(self.scope(), key@, self.height as int),
    {
        storage_key(self.namespace.as_str(), key.as_slice(), self.height)
    }

    /// The ends of the range in which the storage looks for the record of
    /// the logical key `key`: its keys at height 0 and at the current
    /// height.
    pub fn storage_tuple_key(&self, key: &Vec<u8>) -> (r: (Vec<u8>, Vec<u8>))
        ensures
            r.0@ == spec_storage_key(self.scope(), key@, 0),
            r.1@ == spec_storage_key(self.scope(), key@, self.height as int),
    {
        (
            storage_key(self.namespace.as_str(), key.as_slice(), 0),
            storage_key(self.namespace.as_str(), key.as_slice(), self.height),
        )
    }

    /// Writes the pending edits at the current height, feeds them to the
    /// accumulator, empties the cache and advances the height by one, which
    /// is returned.
    ///
    /// A storage at the greatest height is refused with `HeightError`. Where
    /// the store refuses the batch, nothing changes. Where the accumulator
    /// fails, the batch has been written, but cache and height are as they
    /// were, and the commit can be made again. Over a store that does not
    /// fail the commit succeeds unless the accumulator refuses the batch,
    /// and then the error is the accumulator's.
    ///
    /// The edits of a commit that succeeds have been written as bytes, so
    /// their keys and values are views of values of their types.
    pub fn commit(&mut self) -> (r: Result<i64, Error>)
        requires
            old(self).wf(),
        ensures
            final(self).wf(),
            final(self).namespace == old(self).namespace,
            final(self).store.reliable() == old(self).store.reliable(),
            old(self).height == i64::MAX ==> r == Err::<i64, Error>(Error::HeightError),
            old(self).commit_outcome() is Err ==> r is Err,
            old(self).store.reliable() ==> r == old(self).commit_outcome(),
            old(self).store.reliable() && r is Err && old(self).height < i64::MAX
                ==> final(self).contents() == old(self).written(),
            match r {
                Ok(h) => old(self).committed(final(self)) && h == final(self).height
                    && old(self).value.encodable(),
                Err(_) => old(self).commit_failed(final(self)),
            },
    {
        if self.height == i64::MAX {
            return Err(Error::HeightError);
        }
        let pending = self.value.pending_operations()?;
        self.commit_pending(pending)
    }

    /// Commits the pending edits, given as the bytes `pending` that the
    /// cache has encoded them to. Over a store that does not fail a storage
    /// below the greatest height commits, unless the accumulator refuses the
    /// batch.
    pub fn commit_pending(&mut self, pending: Vec<(Vec<u8>, OperationBytes)>) -> (r: Result<
        i64,
        Error,
    >)
        requires
            old(self).wf(),
            pairs_view(pending@) == old(self).value.pending(),
        ensures
            final(self).wf(),
            final(self).namespace == old(self).namespace,
            final(self).store.reliable() == old(self).store.reliable(),
            old(self).height == i64::MAX ==> r == Err::<i64, Error>(Error::HeightError),
            old(self).commit_outcome() is Err ==> r is Err,
            old(self).store.reliable() ==> r == old(self).commit_outcome(),
            old(self).store.reliable() && r is Err && old(self).height < i64::MAX
                ==> final(self).contents() == old(self).written(),
            match r {
                Ok(h) => old(self).committed(final(self)) && h == final(self).height,
                Err(_) => old(self).commit_failed(final(self)),
            },
    {
        if self.height == i64::MAX {
            return Err(Error::HeightError);
        }
        let ghost edits = pairs_view(pending@);
        let ghost writes = data_writes(self.scope(), self.height as int, edits);
        let mut operations: Vec<(Vec<u8>, Vec<u8>)> = Vec::new();
        let mut i: usize = 0;
        assert(batch_view(operations@) =~= writes.take(0));
        while i < pending.len()
            invariant
                i <= pending@.len(),
                edits == pairs_view(pending@),
                writes == data_writes(self.scope(), self.height as int, edits),
                batch_view(operations@) == writes.take(i as int),
            decreases pending@.len() - i,
        {
            let key_bytes = self.storage_key(&pending[i].0);
            let record = encode_operation_record(&pending[i].1);
            let ghost before = batch_view(operations@);
            operations.push((key_bytes, record));
            proof {
                assert(batch_view(operations@) =~= before.push((key_bytes@, record@)));
                assert(writes.take(i as int + 1) =~= writes.take(i as int).push(writes[i as int]));
            }
            i = i + 1;
        }
        assert(writes.take(pending@.len() as int) =~= writes);
        Self::persist(&mut self.store, &self.namespace, self.height + 1, operations)?;
        match self.merkle.insert(&mut self.store, pending.as_slice()) {
            Ok(()) => {},
            Err(e) => {
                return Err(e);
            },
        }
        self.value.clear();
        self.height = self.height + 1;
        Ok(self.height)
    }

    /// The root of the accumulator, as it reads it from the store. A root
    /// that cannot be read is an error; over a store that does not fail the
    /// call succeeds and fails as the reading of the root does.
    pub fn root(&self) -> (r: Result<Vec<u8>, Error>)
        requires
            self.wf(),
        ensures
            r matches Ok(hash) ==> self.merkle.spec_root(self.contents()) == Ok::<Seq<u8>, Error>(
                hash@,
            ),
            self.merkle.spec_root(self.contents()) is Err ==> r is Err,
            self.store.reliable() || !self.merkle.uses_store() ==> agrees(
                r,
                self.merkle.spec_root(self.contents()),
            ),
    {
        self.merkle.root(&self.store)
    }

    /// A transaction over this storage.
    pub fn transaction(&self) -> (r: Transaction<'_, S, M, V>)
        ensures
            *r.store == *self,
            r.value.wf(),
            r.value.cleared(),
    {
        Transaction::new(self)
    }

    /// Takes over the edits of a transaction: merges `val` into the cache.
    pub fn execute(&mut self, val: V)
        requires
            old(self).wf(),
            val.wf(),
            old(self).value.mergeable(&val),
        ensures
            final(self).wf(),
            final(self).store == old(self).store,
            final(self).height == old(self).height,
            final(self).namespace == old(self).namespace,
            final(self).merkle == old(self).merkle,
            V::merged(&old(self).value, &val, &final(self).value),
    {
        self.value.merge(val)
    }
}

} // verus!
