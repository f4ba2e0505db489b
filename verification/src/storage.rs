//! A store that is laid out by branch and version.
//!
//! Every key of a branch has a number, kept under the key's own record. The
//! values of a key lie under its number, one record for each version at which
//! it was written; a read at a version finds the record of the greatest
//! version that is not above it. A record may refer to another version of
//! another branch, and the read goes on there.

use crate::backend::store::{greatest_in, lookup, Contents, Store};
use crate::error::Error;
use crate::model::model::{pairs_view, Model};
use crate::operation::{Operation, OperationBytes};
use crate::types::store_key::StoreKey;
use crate::types::store_value::{parse_store_value, store_value_record, StoreValue, StoreValueView};
use crate::types::{BranchName, VersionName};
use crate::utils::{
    branch_store_key, data_store_key, key_store_key, spec_data_store_key, spec_key_store_key,
    spec_read_be, version_store_key,
};
use vstd::prelude::*;

verus! {

/// The number of references that a read follows before it gives up.
pub const MAX_HOPS: u64 = 0xffff_ffff_ffff_ffff;

/// A branch of a store at one of its versions, with a cache of pending
/// edits.
pub struct Storage<S: Store, V: Model> {
    pub store: S,
    pub value: V,
    pub version: VersionName,
    pub branch: BranchName,
    pub version_id: u64,
    pub branch_id: u64,
    pub allocable_key_id: u64,
}

/// What a read of the key with the number `key_id` gives in the branch
/// `branch_id` at the version `version_id`: the value of the record with the
/// greatest version that is not above it, nothing where that is a tombstone
/// or where there is none, and what the read at the other place gives where
/// it is a reference. After `hops` references the read is refused with
/// `StoreError`.
pub open spec fn read_by_id(
    contents: Contents,
    branch_id: u64,
    key_id: u64,
    version_id: u64,
    hops: nat,
) -> Result<Option<Seq<u8>>, Error>
    decreases hops,
{
    match greatest_in(
        contents,
        spec_data_store_key(branch_id, key_id, 0),
        spec_data_store_key(branch_id, key_id, version_id),
    ) {
        None => Ok(None),
        Some(record) => match parse_store_value(record) {
            Err(e) => Err(e),
            Ok(StoreValueView::Update(data)) => Ok(Some(data)),
            Ok(StoreValueView::Delete) => Ok(None),
            Ok(StoreValueView::Ref { branch_id: other, version_id: version }) => if hops == 0 {
                Err(Error::StoreError)
            } else {
                read_by_id(contents, other, key_id, version, (hops - 1) as nat)
            },
        },
    }
}

/// What a read of `key` gives in the branch `branch_id` at the version
/// `version_id`: nothing where the key has no number, and otherwise what the
/// read of its number gives. A key of more than 255 bytes is refused with
/// `TryFromIntError`, and a number that is not eight bytes long with
/// `TryFromSliceError`.
pub open spec fn read_by_key(contents: Contents, branch_id: u64, version_id: u64, key: Seq<u8>)
    -> Result<Option<Seq<u8>>, Error> {
    if key.len() > 255 {
        Err(Error::TryFromIntError)
    } else {
        match lookup(contents, spec_key_store_key(branch_id, key)) {
            None => Ok(None),
            Some(number) => if number.len() != 8 {
                Err(Error::TryFromSliceError)
            } else {
                read_by_id(contents, branch_id, spec_read_be(number), version_id, MAX_HOPS as nat)
            },
        }
    }
}

/// The number under which a value of `key` is written: the key's own where
/// it has one, and the next free one otherwise.
pub open spec fn number_for(contents: Contents, branch_id: u64, next: u64, key: Seq<u8>) -> Result<
    u64,
    Error,
> {
    if key.len() > 255 {
        Err(Error::TryFromIntError)
    } else {
        match lookup(contents, spec_key_store_key(branch_id, key)) {
            None => Ok((next + 1) as u64),
            Some(number) => if number.len() != 8 {
                Err(Error::TryFromSliceError)
            } else {
                Ok(spec_read_be(number))
            },
        }
    }
}

/// The contents and the last number given out after the pairs of `batch`
/// have been written, one after the other, in the branch `branch_id` at the
/// version `version_id`; or the error of the first pair that cannot be
/// written.
pub open spec fn stored(
    contents: Contents,
    next: u64,
    branch_id: u64,
    version_id: u64,
    batch: Seq<(Seq<u8>, StoreValueView)>,
) -> Result<(Contents, u64), Error>
    decreases batch.len(),
{
    if batch.len() == 0 {
        Ok((contents, next))
    } else {
        match stored(contents, next, branch_id, version_id, batch.drop_last()) {
            Err(e) => Err(e),
            Ok((sofar, given)) => match number_for(sofar, branch_id, given, batch.last().0) {
                Err(e) => Err(e),
                Ok(number) => Ok(
                    (
                        sofar.insert(
                            spec_data_store_key(branch_id, number, version_id),
                            store_value_record(batch.last().1),
                        ),
                        if lookup(sofar, spec_key_store_key(branch_id, batch.last().0)) is None {
                            number
                        } else {
                            given
                        },
                    ),
                ),
            },
        }
    }
}

/// Whether `after` and `given` are the contents and the last number given
/// out where the writing of `batch` has stopped after `n` pairs: those pairs
/// are written, and at most one number more is given out.
pub open spec fn stopped_after(
    contents: Contents,
    next: u64,
    branch_id: u64,
    version_id: u64,
    batch: Seq<(Seq<u8>, StoreValueView)>,
    n: int,
    after: Contents,
    given: u64,
) -> bool {
    match stored(contents, next, branch_id, version_id, batch.take(n)) {
        Ok(state) => state.0 == after && state.1 <= given <= state.1 + 1,
        Err(_) => false,
    }
}

/// The views of a batch of keys and records.
pub open spec fn records_view(batch: Seq<(Vec<u8>, StoreValue)>) -> Seq<(Seq<u8>, StoreValueView)> {
    Seq::new(batch.len(), |i: int| (batch[i].0@, batch[i].1@))
}

/// An edit as a record: an update as an update, a tombstone as a
/// tombstone.
pub open spec fn record_of(op: Operation<Seq<u8>>) -> StoreValueView {
    match op {
        Operation::Update(data) => StoreValueView::Update(data),
        Operation::Delete => StoreValueView::Delete,
    }
}

/// The edits of a cache as records.
pub open spec fn records_of(edits: Seq<(Seq<u8>, Operation<Seq<u8>>)>) -> Seq<
    (Seq<u8>, StoreValueView),
> {
    Seq::new(edits.len(), |i: int| (edits[i].0, record_of(edits[i].1)))
}

/// The edits as records.
pub fn to_records(edits: Vec<(Vec<u8>, OperationBytes)>) -> (r: Vec<(Vec<u8>, StoreValue)>)
    ensures
        records_view(r@) == records_of(pairs_view(edits@)),
{
    let ghost all = records_of(pairs_view(edits@));
    let mut out: Vec<(Vec<u8>, StoreValue)> = Vec::new();
    let mut i: usize = 0;
    assert(records_view(out@) =~= all.take(0));
    while i < edits.len()
        invariant
            i <= edits@.len(),
            all == records_of(pairs_view(edits@)),
            records_view(out@) == all.take(i as int),
        decreases edits@.len() - i,
    {
        let key = edits[i].0.clone();
        let record = match &edits[i].1 {
            Operation::Update(data) => StoreValue::Update(data.clone()),
            Operation::Delete => StoreValue::Delete,
        };
        let ghost before = records_view(out@);
        out.push((key, record));
        proof {
            assert(records_view(out@) =~= before.push((key@, record@)));
            assert(all.take(i as int + 1) =~= all.take(i as int).push(all[i as int]));
        }
        i = i + 1;
    }
    assert(all.take(edits@.len() as int) =~= all);
    out
}

impl<S: Store, V: Model> Storage<S, V> {
    pub open spec fn wf(&self) -> bool {
        self.store.wf() && self.value.wf()
    }

    /// What the store holds.
    pub open spec fn contents(&self) -> Contents {
        self.store.contents()
    }

    /// Reads the key with the number `key_id` in the branch `branch_id` at
    /// the version `version_id`.
    pub fn get_by_id(&self, branch_id: u64, key_id: u64, version_id: u64) -> (r: Result<
        Option<Vec<u8>>,
        Error,
    >)
        requires
            self.wf(),
        ensures
            r matches Ok(v) ==> read_by_id(
                self.contents(),
                branch_id,
                key_id,
                version_id,
                MAX_HOPS as nat,
            ) == Ok::<Option<Seq<u8>>, Error>(
                match v {
                    Some(data) => Some(data@),
                    None => None,
                },
            ),
            read_by_id(self.contents(), branch_id, key_id, version_id, MAX_HOPS as nat) is Err
                ==> r is Err,
            self.store.reliable() ==> match read_by_id(
                self.contents(),
                branch_id,
                key_id,
                version_id,
                MAX_HOPS as nat,
            ) {
                Ok(_) => r is Ok,
                Err(e) => r == Err::<Option<Vec<u8>>, Error>(e),
            },
    {
        let ghost wanted = read_by_id(
            self.contents(),
            branch_id,
            key_id,
            version_id,
            MAX_HOPS as nat,
        );
        let mut branch: u64 = branch_id;
        let mut version: u64 = version_id;
        let mut hops: u64 = MAX_HOPS;
        loop
            invariant
                self.wf(),
                wanted == read_by_id(
                    self.contents(),
                    branch_id,
                    key_id,
                    version_id,
                    MAX_HOPS as nat,
                ),
                wanted == read_by_id(self.contents(), branch, key_id, version, hops as nat),
            decreases hops,
        {
            let begin_key = data_store_key(branch, key_id, 0);
            let end_key = data_store_key(branch, key_id, version);
            let found = self.store.get_in(begin_key.as_slice(), end_key.as_slice())?;
            match found {
                None => {
                    return Ok(None);
                },
                Some(bytes) => {
                    let record = StoreValue::from_bytes(bytes.as_ref().as_slice())?;
                    match record {
                        StoreValue::Update(data) => {
                            return Ok(Some(data));
                        },
                        StoreValue::Delete => {
                            return Ok(None);
                        },
                        StoreValue::Ref { branch_id: other_branch, version_id: other_version } => {
                            if hops == 0 {
                                return Err(Error::StoreError);
                            }
                            branch = other_branch;
                            version = other_version;
                            hops = hops - 1;
                        },
                    }
                },
            }
        }
    }

    /// Reads `key` in this branch at this version.
    pub fn get(&self, key: &[u8]) -> (r: Result<Option<Vec<u8>>, Error>)
        requires
            self.wf(),
        ensures
            r matches Ok(v) ==> read_by_key(self.contents(), self.branch_id, self.version_id, key@)
                == Ok::<Option<Seq<u8>>, Error>(
                match v {
                    Some(data) => Some(data@),
                    None => None,
                },
            ),
            read_by_key(self.contents(), self.branch_id, self.version_id, key@) is Err ==> r is Err,
            key@.len() > 255 ==> r == Err::<Option<Vec<u8>>, Error>(Error::TryFromIntError),
            self.store.reliable() ==> match read_by_key(
                self.contents(),
                self.branch_id,
                self.version_id,
                key@,
            ) {
                Ok(_) => r is Ok,
                Err(e) => r == Err::<Option<Vec<u8>>, Error>(e),
            },
    {
        let key_key = key_store_key(self.branch_id, key)?;
        match self.store.get(key_key.as_slice())? {
            Some(number) => {
                let key_store = StoreKey::from_bytes(number.as_ref().as_slice())?;
                self.get_by_id(self.branch_id, key_store.key_id, self.version_id)
            },
            None => Ok(None),
        }
    }

    /// Writes the pairs of `kvs` at this version, one after the other. A
    /// key without a number is given the next free one. Where a pair cannot
    /// be written, those before it stay written, and a number that was given
    /// to it stays given.
    pub fn store_batch(&mut self, kvs: Vec<(Vec<u8>, StoreValue)>) -> (r: Result<(), Error>)
        requires
            old(self).wf(),
            old(self).allocable_key_id + kvs@.len() <= u64::MAX,
        ensures
            final(self).wf(),
            final(self).store.reliable() == old(self).store.reliable(),
            final(self).value == old(self).value,
            final(self).version == old(self).version,
            final(self).branch == old(self).branch,
            final(self).version_id == old(self).version_id,
            final(self).branch_id == old(self).branch_id,
            r is Ok ==> stored(
                old(self).contents(),
                old(self).allocable_key_id,
                old(self).branch_id,
                old(self).version_id,
                records_view(kvs@),
            ) == Ok::<(Contents, u64), Error>(
                (final(self).contents(), final(self).allocable_key_id),
            ),
            r is Err ==> exists|n: int|
                0 <= n < kvs@.len() && #[trigger] stopped_after(
                    old(self).contents(),
                    old(self).allocable_key_id,
                    old(self).branch_id,
                    old(self).version_id,
                    records_view(kvs@),
                    n,
                    final(self).contents(),
                    final(self).allocable_key_id,
                ),
            stored(
                old(self).contents(),
                old(self).allocable_key_id,
                old(self).branch_id,
                old(self).version_id,
                records_view(kvs@),
            ) is Err ==> r is Err,
            kvs@.len() == 0 ==> r is Ok,
            old(self).store.reliable() ==> match stored(
                old(self).contents(),
                old(self).allocable_key_id,
                old(self).branch_id,
                old(self).version_id,
                records_view(kvs@),
            ) {
                Ok(_) => r is Ok,
                Err(e) => r == Err::<(), Error>(e),
            },
    {
        let ghost all = records_view(kvs@);
        let ghost start = self.contents();
        let ghost first = self.allocable_key_id;
        let mut i: usize = 0;
        assert(all.take(0) =~= Seq::<(Seq<u8>, StoreValueView)>::empty());
        while i < kvs.len()
            invariant
                self.wf(),
                i <= kvs@.len(),
                all == records_view(kvs@),
                start == old(self).contents(),
                first == old(self).allocable_key_id,
                self.store.reliable() == old(self).store.reliable(),
                self.value == old(self).value,
                self.version == old(self).version,
                self.branch == old(self).branch,
                self.version_id == old(self).version_id,
                self.branch_id == old(self).branch_id,
                first + kvs@.len() <= u64::MAX,
                self.allocable_key_id <= first + i,
                stored(start, first, self.branch_id, self.version_id, all.take(i as int)) == Ok::<
                    (Contents, u64),
                    Error,
                >((self.contents(), self.allocable_key_id)),
            decreases kvs@.len() - i,
        {
            proof {
                assert(all.take(i as int + 1).drop_last() =~= all.take(i as int));
                assert(all.take(i as int + 1).last() == all[i as int]);
                lemma_stored_prefix(
                    start,
                    first,
                    self.branch_id,
                    self.version_id,
                    all,
                    i as int + 1,
                );
                assert(stopped_after(
                    start,
                    first,
                    self.branch_id,
                    self.version_id,
                    all,
                    i as int,
                    self.contents(),
                    self.allocable_key_id,
                ));
            }
            let key_key = key_store_key(self.branch_id, kvs[i].0.as_slice())?;
            let key_id: u64 = match self.store.get(key_key.as_slice())? {
                Some(number) => {
                    let key_store = StoreKey::from_bytes(number.as_ref().as_slice())?;
                    key_store.key_id
                },
                None => {
                    self.allocable_key_id = self.allocable_key_id + 1;
                    self.allocable_key_id
                },
            };
            let data_key = data_store_key(self.branch_id, key_id, self.version_id);
            let record = kvs[i].1.to_bytes()?;
            let ghost held = self.contents();
            match self.store.insert(data_key, record) {
                Ok(()) => {},
                Err(e) => {
                    proof {
                        assert(self.contents() == held);
                        assert(stopped_after(
                            start,
                            first,
                            self.branch_id,
                            self.version_id,
                            all,
                            i as int,
                            self.contents(),
                            self.allocable_key_id,
                        ));
                    }
                    return Err(e);
                },
            }
            i = i + 1;
        }
        assert(all.take(kvs@.len() as int) =~= all);
        Ok(())
    }

    /// Opens the branch `branch` with the number `branch_id` at a first
    /// version named `version`, and writes the pending edits of `value` to
    /// it. The cache is empty afterwards. A name of more than 255 bytes is
    /// refused with `TryFromIntError`.
    pub fn new(store: S, branch: BranchName, branch_id: u64, version: VersionName, value: V) -> (r:
        Result<Self, Error>)
        requires
            store.wf(),
            value.wf(),
        ensures
            r matches Ok(s) ==> {
                &&& s.wf()
                &&& s.value.cleared()
                &&& s.branch == branch
                &&& s.version == version
                &&& s.branch_id == branch_id
                &&& s.version_id == 0
                &&& s.store.reliable() == store.reliable()
                &&& version.0@.len() <= 255
                &&& branch.0@.len() <= 255
                &&& stored(store.contents(), 0, branch_id, 0, records_of(value.pending())) == Ok::<
                    (Contents, u64),
                    Error,
                >((s.contents(), s.allocable_key_id))
            },
            stored(store.contents(), 0, branch_id, 0, records_of(value.pending())) is Err
                || version.0@.len() > 255 || branch.0@.len() > 255 ==> r is Err,
            store.reliable() && version.0@.len() <= 255 && branch.0@.len() <= 255 && stored(
                store.contents(),
                0,
                branch_id,
                0,
                records_of(value.pending()),
            ) is Ok ==> r is Ok,
    {
        let mut value = value;
        let operations = value.operations()?;
        let kvs = to_records(operations);
        // The length of a vector fits a `usize`.
        let count: usize = kvs.len();
        assert(kvs@.len() == count);
        let mut s = Self {
            store,
            branch,
            version,
            value,
            allocable_key_id: 0,
            branch_id,
            version_id: 0,
        };
        s.store_batch(kvs)?;
        let _version_key = version_store_key(branch_id, &s.version)?;
        let _branch_key = branch_store_key(&s.branch)?;
        Ok(s)
    }

    /// The name of the version.
    pub fn version(&self) -> (r: &VersionName)
        ensures
            *r == self.version,
    {
        &self.version
    }

    /// The name of the branch.
    pub fn branch(&self) -> (r: &BranchName)
        ensures
            *r == self.branch,
    {
        &self.branch
    }

    /// Names the current version. Nothing is written.
    pub fn commit(&mut self, _version: VersionName) -> (r: Result<(), Error>)
        ensures
            r is Ok,
            *final(self) == *old(self),
    {
        Ok(())
    }

    /// Goes back to the version `_version`. Nothing is written.
    pub fn rollback(&mut self, _version: &VersionName) -> (r: Result<(), Error>)
        ensures
            r is Ok,
            *final(self) == *old(self),
    {
        Ok(())
    }

    /// Drops the pending edits. Nothing is written.
    pub fn revert(&mut self) -> (r: Result<(), Error>)
        ensures
            r is Ok,
            *final(self) == *old(self),
    {
        Ok(())
    }

    /// Takes over the branch `_branch`. Nothing is written.
    pub fn merge(&self, _branch: Self) -> (r: Result<(), Error>)
        ensures
            r is Ok,
    {
        Ok(())
    }
}

/// Where the first `n` pairs of a batch cannot be written, neither can the
/// batch.
pub proof fn lemma_stored_prefix(
    contents: Contents,
    next: u64,
    branch_id: u64,
    version_id: u64,
    batch: Seq<(Seq<u8>, StoreValueView)>,
    n: int,
)
    requires
        0 <= n <= batch.len(),
    ensures
        stored(contents, next, branch_id, version_id, batch.take(n)) matches Err(e) ==> stored(
            contents,
            next,
            branch_id,
            version_id,
            batch,
        ) == Err::<(Contents, u64), Error>(e),
    decreases batch.len() - n,
{
    if n < batch.len() {
        assert(batch.take(n + 1).drop_last() =~= batch.take(n));
        lemma_stored_prefix(contents, next, branch_id, version_id, batch, n + 1);
    } else {
        assert(batch.take(n) =~= batch);
    }
}

} // verus!
