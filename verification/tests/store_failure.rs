use bs3::backend::store::Contents;
use bs3::backend::{MemoryBackend, Store};
use bs3::merkle::{AppendOnlyMerkle, EmptyMerkle, Sha3_256, Sha3_512};
use bs3::merkle::Merkle;
use bs3::model::{DoubleKeyMap, MapModel, Value, Vec as ListModel};
use bs3::{Cow, CowBytes, DoubleKeyMapStore, Error, MapStore, SnapshotableStorage};
use bs3::{Transaction, ValueStore, VecStore};

fn flaky() -> Flaky {
    Flaky { inner: MemoryBackend::new(), refuse: false, deaf: false }
}

/// A store that refuses writes while `refuse` is set, and reads while `deaf`
/// is set.
struct Flaky {
    inner: MemoryBackend,
    refuse: bool,
    deaf: bool,
}

impl Store for Flaky {
    fn contents(&self) -> Contents {
        unreachable!()
    }

    fn wf(&self) -> bool {
        true
    }

    fn reliable(&self) -> bool {
        false
    }

    fn execute(&mut self, batch: Vec<(Vec<u8>, Vec<u8>)>) -> Result<(), Error> {
        if self.refuse {
            Err(Error::StoreError)
        } else {
            self.inner.execute(batch)
        }
    }

    fn get_in(&self, begin_key: &[u8], end_key: &[u8]) -> Result<Option<CowBytes<'_>>, Error> {
        if self.deaf {
            Err(Error::StoreError)
        } else {
            self.inner.get_in(begin_key, end_key)
        }
    }

    fn get(&self, key: &[u8]) -> Result<Option<CowBytes<'_>>, Error> {
        if self.deaf {
            Err(Error::StoreError)
        } else {
            self.inner.get(key)
        }
    }
}

#[test]
fn a_refused_batch_leaves_the_storage_as_it_was() {
    let store = Flaky { inner: MemoryBackend::new(), refuse: false, deaf: false };
    let mut ss =
        SnapshotableStorage::<Flaky, EmptyMerkle<Sha3_512>, MapModel<u32, u32>>::new(
            MapModel::default(),
            store,
        )
        .unwrap();
    ss.insert(1, 1).unwrap();
    assert_eq!(ss.commit(), Ok(1));
    ss.insert(2, 2).unwrap();
    ss.remove(&1).unwrap();
    ss.store.refuse = true;
    assert_eq!(ss.commit(), Err(Error::StoreError));
    assert_eq!(ss.height, 1);
    assert_eq!(ss.get(&2).unwrap(), Some(Cow::Borrowed(&2)));
    assert_eq!(ss.get(&1).unwrap(), None);
    assert_eq!(ss.rollback(0), Err(Error::StoreError));
    assert_eq!(ss.height, 1);
    ss.store.refuse = false;
    assert_eq!(ss.commit(), Ok(2));
    assert_eq!(ss.get(&2).unwrap(), Some(Cow::Owned(2)));
    assert_eq!(ss.get(&1).unwrap(), None);
}

#[test]
fn a_failing_accumulator_leaves_cache_and_height() {
    let mut inner = MemoryBackend::new();
    inner.insert(b"-ty".to_vec(), vec![3, 0, 0, 0]).unwrap();
    inner.insert(b"-ch".to_vec(), vec![1, 0, 0, 0, 0, 0, 0, 0]).unwrap();
    inner.insert(bs3::merkle_key("", 1), vec![9]).unwrap();
    let mut ss =
        SnapshotableStorage::<MemoryBackend, AppendOnlyMerkle<Sha3_256>, MapModel<u32, u32>>::new(
            MapModel::default(),
            inner,
        )
        .unwrap();
    assert_eq!(ss.height, 1);
    ss.insert(5, 6).unwrap();
    assert_eq!(ss.commit(), Err(Error::TypeCodeError));
    assert_eq!(ss.height, 1);
    assert_eq!(ss.get(&5).unwrap(), Some(Cow::Borrowed(&6)));
    assert_eq!(ss.root(), Err(Error::TypeCodeError));
}

#[test]
fn a_pending_edit_settles_a_read_of_a_map_whatever_the_store_does() {
    let mut ss =
        SnapshotableStorage::<Flaky, EmptyMerkle<Sha3_512>, MapModel<u32, u32>>::new(
            MapModel::default(),
            flaky(),
        )
        .unwrap();
    ss.insert(1, 10).unwrap();
    ss.remove(&2).unwrap();
    ss.store.deaf = true;
    assert_eq!(ss.get(&1), Ok(Some(Cow::Borrowed(&10))));
    assert_eq!(ss.get(&2), Ok(None));
    assert_eq!(ss.get(&3), Err(Error::StoreError));
    assert_eq!(ss.get_mut(&1), Ok(Some(&mut 10)));
    assert_eq!(ss.get_mut(&3), Err(Error::StoreError));
    assert_eq!(ss.insert(3, 30), Err(Error::StoreError));
    assert_eq!(ss.remove(&3), Err(Error::StoreError));
    // an edit that is pending in the storage settles the read of a transaction
    let mut tx = Transaction::new(&ss);
    assert_eq!(tx.get(&1), Ok(Some(Cow::Borrowed(&10))));
    assert_eq!(tx.get(&2), Ok(None));
    assert_eq!(tx.get(&3), Err(Error::StoreError));
    assert_eq!(tx.get_mut(&1), Ok(Some(&mut 10)));
    assert_eq!(tx.remove(&1), Ok(Some(10)));
    assert_eq!(tx.remove(&2), Ok(None));
    assert_eq!(tx.remove(&3), Err(Error::StoreError));
    assert_eq!(tx.insert(3, 30), Ok(None));
    assert_eq!(tx.get(&3), Ok(Some(Cow::Borrowed(&30))));
    ss.remove(&1).unwrap();
    assert_eq!(ss.remove(&1), Ok(None));
}

#[test]
fn a_pending_edit_settles_a_read_of_a_value_whatever_the_store_does() {
    let mut ss = SnapshotableStorage::<Flaky, EmptyMerkle<Sha3_512>, Value<u32>>::new(
        Value::default(),
        flaky(),
    )
    .unwrap();
    ss.store.deaf = true;
    assert_eq!(ss.get(), Err(Error::StoreError));
    {
        let tx = Transaction::new(&ss);
        assert_eq!(tx.get(), Err(Error::StoreError));
    }
    ss.store.deaf = false;
    ss.set(7).unwrap();
    ss.store.deaf = true;
    assert_eq!(ss.get(), Ok(Some(Cow::Borrowed(&7))));
    let mut tx = Transaction::new(&ss);
    assert_eq!(tx.get(), Ok(Some(Cow::Borrowed(&7))));
    assert_eq!(tx.get_mut(), Ok(Some(&mut 7)));
    assert_eq!(tx.del(), Ok(Some(7)));
    assert_eq!(tx.get(), Ok(None));
}

#[test]
fn a_known_length_settles_the_calls_of_a_list_whatever_the_store_does() {
    let mut ss = SnapshotableStorage::<Flaky, EmptyMerkle<Sha3_512>, ListModel<u32>>::new(
        ListModel::default(),
        flaky(),
    )
    .unwrap();
    ss.store.deaf = true;
    assert_eq!(ss.len(), Err(Error::StoreError));
    assert_eq!(ss.push(1), Err(Error::StoreError));
    assert_eq!(ss.pop(), Err(Error::StoreError));
    assert_eq!(ss.get(0), Err(Error::StoreError));
    // nothing is pending: nothing is taken away, and the store is not asked
    assert_eq!(ss.remove(0), Ok(None));
    ss.store.deaf = false;
    ss.push(1).unwrap();
    ss.push(2).unwrap();
    ss.store.deaf = true;
    assert_eq!(ss.len(), Ok(2));
    assert_eq!(ss.is_empty(), Ok(false));
    assert_eq!(ss.push(3), Ok(()));
    assert_eq!(ss.get(0), Ok(Some(Cow::Borrowed(&1))));
    assert_eq!(ss.get(3), Ok(None));
    assert_eq!(ss.get_mut(1), Ok(Some(&mut 2)));
    assert_eq!(ss.get_mut(3), Ok(None));
    assert_eq!(ss.insert(1, 9), Ok(()));
    assert_eq!(ss.remove(0), Ok(Some(1)));
    assert_eq!(ss.pop(), Ok(Some(3)));
    assert_eq!(ss.len(), Ok(2));
    assert_eq!(ss.get(0), Ok(Some(Cow::Borrowed(&9))));
    assert_eq!(ss.get(1), Ok(Some(Cow::Borrowed(&2))));
    assert_eq!(ss.pop(), Ok(Some(2)));
    assert_eq!(ss.pop(), Ok(Some(9)));
    assert_eq!(ss.pop(), Ok(None));
    assert_eq!(ss.remove(0), Err(Error::OutOffIndex));
    assert_eq!(ss.insert(1, 5), Err(Error::OutOffIndex));
}

#[test]
fn pending_edits_settle_the_calls_of_a_map_with_two_keys_whatever_the_store_does() {
    let mut ss =
        SnapshotableStorage::<Flaky, EmptyMerkle<Sha3_512>, DoubleKeyMap<u32, u32, u32>>::new(
            DoubleKeyMap::default(),
            flaky(),
        )
        .unwrap();
    ss.insert(1, 10, 100).unwrap();
    ss.insert(2, 20, 200).unwrap();
    ss.store.deaf = true;
    assert_eq!(ss.key1_to_key2(&1), Ok(Some(Cow::Borrowed(&10))));
    assert_eq!(ss.key1_to_key2(&3), Err(Error::StoreError));
    assert_eq!(ss.get_key2(&10), Ok(Some(Cow::Borrowed(&100))));
    assert_eq!(ss.get_key2(&30), Err(Error::StoreError));
    assert_eq!(ss.get_key1(&1), Ok(Some(Cow::Borrowed(&100))));
    assert_eq!(ss.get(&1, &10), Ok(Some(Cow::Borrowed(&100))));
    assert_eq!(ss.get(&1, &20), Ok(None));
    assert_eq!(ss.get_mut_key2(&10), Ok(Some(&mut 100)));
    assert_eq!(ss.get_mut_key1(&2), Ok(Some(&mut 200)));
    assert_eq!(ss.insert(1, 11, 101), Ok(Some(100)));
    assert_eq!(ss.insert(3, 30, 300), Err(Error::StoreError));
    assert_eq!(ss.remove_by_key1(&2), Ok(Some(200)));
    assert_eq!(ss.remove_by_key1(&2), Ok(None));
    assert_eq!(ss.remove_by_key1(&3), Err(Error::StoreError));
    assert_eq!(ss.remove_by_key2(&11), Ok(Some(101)));
    assert_eq!(ss.remove(&1, &11), Ok(None));
}

#[test]
fn an_accumulator_at_the_start_reads_no_store() {
    let mut store = flaky();
    store.deaf = true;
    let merkle = AppendOnlyMerkle::<Sha3_256>::new("", 0);
    assert_eq!(merkle.root(&store), Ok(vec![0u8; 32]));
    let later = AppendOnlyMerkle::<Sha3_256>::new("", 1);
    assert_eq!(later.root(&store), Err(Error::StoreError));
    let none = EmptyMerkle::<Sha3_512>::new("", 3);
    assert_eq!(none.root(&store), Ok(vec![0u8; 64]));
}

#[test]
fn the_edits_of_a_storage_settle_the_reads_of_its_transaction() {
    let mut list = SnapshotableStorage::<Flaky, EmptyMerkle<Sha3_512>, ListModel<u32>>::new(
        ListModel::default(),
        flaky(),
    )
    .unwrap();
    list.push(1).unwrap();
    list.push(2).unwrap();
    list.store.deaf = true;
    let mut tx = Transaction::new(&list);
    assert_eq!(tx.len(), Ok(2));
    assert_eq!(tx.get(1), Ok(Some(Cow::Borrowed(&2))));
    assert_eq!(tx.get(2), Ok(None));
    assert_eq!(tx.get_mut(0), Ok(Some(&mut 1)));
    assert_eq!(tx.push(3), Ok(()));
    assert_eq!(tx.pop(), Ok(Some(3)));
    assert_eq!(tx.pop(), Ok(Some(2)));

    let mut pairs =
        SnapshotableStorage::<Flaky, EmptyMerkle<Sha3_512>, DoubleKeyMap<u32, u32, u32>>::new(
            DoubleKeyMap::default(),
            flaky(),
        )
        .unwrap();
    pairs.insert(1, 10, 100).unwrap();
    pairs.store.deaf = true;
    let mut tx = Transaction::new(&pairs);
    assert_eq!(tx.key1_to_key2(&1), Ok(Some(Cow::Borrowed(&10))));
    assert_eq!(tx.key1_to_key2(&2), Err(Error::StoreError));
    assert_eq!(tx.get_key2(&10), Ok(Some(Cow::Borrowed(&100))));
    assert_eq!(tx.get_key2(&20), Err(Error::StoreError));
    assert_eq!(tx.get_mut_key2(&10), Ok(Some(&mut 100)));
    assert_eq!(tx.remove_by_key2(&10), Ok(Some(100)));
    assert_eq!(tx.get_key2(&10), Ok(None));
}
