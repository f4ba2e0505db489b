use bs3::backend::{MemoryBackend, Store};
use bs3::merkle::{AppendOnlyMerkle, EmptyMerkle, Hasher, Merkle, Sha3_256, Sha3_512};
use bs3::model::{DoubleKeyMap, MapModel, Model, Value, ValueType, Vec as ListModel};
use bs3::snapshot::utils::{current_height_key, storage_key, type_key};
use bs3::snapshot::{FromStoreBytes, StoreHeight, StoreType, StoreValue, ToStoreBytes};
use bs3::{
    merkle_key, Cow, CowBytes, DoubleKeyMapStore, Error, MapStore, Operation, OperationBytes,
    SnapshotableStorage, Transaction, ValueStore, VecStore,
};

type Plain<V> = SnapshotableStorage<MemoryBackend, EmptyMerkle<Sha3_512>, V>;

type Hashed<V> = SnapshotableStorage<MemoryBackend, AppendOnlyMerkle<Sha3_256>, V>;

fn stored(store: &MemoryBackend, key: &[u8]) -> Option<Vec<u8>> {
    match store.get(key).unwrap() {
        Some(v) => Some(v.as_ref().clone()),
        None => None,
    }
}

#[test]
fn height_grows_by_one_and_rollback_moves_it() {
    let mut ss =
        Plain::<MapModel<u32, u32>>::new(MapModel::default(), MemoryBackend::new()).unwrap();
    assert_eq!(ss.height, 0);
    assert_eq!(ss.commit(), Ok(1));
    assert_eq!(ss.commit(), Ok(2));
    assert_eq!(ss.commit(), Ok(3));
    assert_eq!(ss.height, 3);
    assert_eq!(ss.rollback(4), Err(Error::HeightError));
    assert_eq!(ss.height, 3);
    assert_eq!(ss.rollback(3), Ok(()));
    assert_eq!(ss.height, 3);
    assert_eq!(ss.rollback(1), Ok(()));
    assert_eq!(ss.height, 1);
    assert_eq!(ss.commit(), Ok(2));
    assert_eq!(ss.rollback(-2), Ok(()));
    assert_eq!(ss.height, -2);
    assert_eq!(ss.commit(), Ok(-1));
}

#[test]
fn rollback_persists_the_height() {
    let mut ss = Plain::<Value<u64>>::new_with_name(
        Value::default(),
        "ns".to_string(),
        MemoryBackend::new(),
    )
    .unwrap();
    ss.commit().unwrap();
    ss.commit().unwrap();
    assert_eq!(stored(ss.store(), b"ns-ch"), Some(vec![2, 0, 0, 0, 0, 0, 0, 0]));
    ss.rollback(1).unwrap();
    assert_eq!(stored(ss.store(), b"ns-ch"), Some(vec![1, 0, 0, 0, 0, 0, 0, 0]));
    let store = ss.store().clone();
    let again =
        Plain::<Value<u64>>::new_with_name(Value::default(), "ns".to_string(), store).unwrap();
    assert_eq!(again.height, 1);
}

#[test]
fn commit_at_the_greatest_height_is_refused() {
    let mut store = MemoryBackend::new();
    store.insert(b"-ty".to_vec(), vec![1, 0, 0, 0]).unwrap();
    store.insert(b"-ch".to_vec(), i64::MAX.to_le_bytes().to_vec()).unwrap();
    let mut ss = Plain::<Value<u64>>::new(Value::default(), store).unwrap();
    assert_eq!(ss.height, i64::MAX);
    ss.set(1).unwrap();
    assert_eq!(ss.commit(), Err(Error::HeightError));
    assert_eq!(ss.height, i64::MAX);
    assert_eq!(ss.get().unwrap(), Some(Cow::Borrowed(&1)));
}

#[test]
fn a_namespace_is_opened_at_a_height_by_rolling_back() {
    let fresh = Plain::<Value<u64>>::new_with_height(Value::default(), 0, MemoryBackend::new());
    assert_eq!(fresh.unwrap().height, 0);
    let ahead = Plain::<Value<u64>>::new_with_height(Value::default(), 2, MemoryBackend::new());
    assert!(matches!(ahead, Err(Error::HeightError)));

    let mut ss = Plain::<Value<u64>>::new_with_name(
        Value::default(),
        "v".to_string(),
        MemoryBackend::new(),
    )
    .unwrap();
    ss.set(1).unwrap();
    ss.commit().unwrap();
    ss.set(2).unwrap();
    ss.commit().unwrap();
    ss.set(3).unwrap();
    ss.commit().unwrap();
    let store = ss.store().clone();

    let same = Plain::<Value<u64>>::new_with_height_namespace(
        Value::default(),
        3,
        "v".to_string(),
        store.clone(),
    )
    .unwrap();
    assert_eq!(same.height, 3);
    assert_eq!(same.get().unwrap(), Some(Cow::Owned(3)));

    let back = Plain::<Value<u64>>::new_with_height_namespace(
        Value::default(),
        1,
        "v".to_string(),
        store.clone(),
    )
    .unwrap();
    assert_eq!(back.height, 1);
    assert_eq!(back.get().unwrap(), Some(Cow::Owned(2)));
    assert_eq!(stored(back.store(), b"v-ch"), Some(vec![1, 0, 0, 0, 0, 0, 0, 0]));

    let ahead = Plain::<Value<u64>>::new_with_height_namespace(
        Value::default(),
        4,
        "v".to_string(),
        store.clone(),
    );
    assert!(matches!(ahead, Err(Error::HeightError)));
    let wrong = Plain::<MapModel<u8, u8>>::new_with_height_namespace(
        MapModel::default(),
        1,
        "v".to_string(),
        store,
    );
    assert!(matches!(wrong, Err(Error::TypeMissMatch)));
}

#[test]
fn read_after_commit_comes_from_the_store() {
    let mut ss =
        Plain::<MapModel<u32, String>>::new(MapModel::default(), MemoryBackend::new()).unwrap();
    ss.insert(7, "seven".to_string()).unwrap();
    assert_eq!(ss.get(&7).unwrap(), Some(Cow::Borrowed(&"seven".to_string())));
    assert_eq!(ss.commit(), Ok(1));
    assert_eq!(ss.get(&7).unwrap(), Some(Cow::Owned("seven".to_string())));
    assert_eq!(ss.get(&8).unwrap(), None);
}

#[test]
fn uncommitted_remove_writes_only_a_tombstone() {
    let mut ss = Plain::<MapModel<u32, u32>>::new_with_name(
        MapModel::default(),
        "m".to_string(),
        MemoryBackend::new(),
    )
    .unwrap();
    assert_eq!(ss.insert(1, 9).unwrap(), None);
    assert_eq!(ss.remove(&1).unwrap(), Some(9));
    assert_eq!(ss.commit(), Ok(1));
    assert_eq!(ss.get(&1).unwrap(), None);
    assert_eq!(stored(ss.store(), b"m-kw-01-00000000000000000000"), Some(vec![2]));
}

#[test]
fn remove_after_commit_is_a_true_delete() {
    let mut ss =
        Plain::<MapModel<u32, u32>>::new(MapModel::default(), MemoryBackend::new()).unwrap();
    ss.insert(1, 7).unwrap();
    assert_eq!(ss.commit(), Ok(1));
    assert_eq!(ss.remove(&1).unwrap(), Some(7));
    assert_eq!(ss.commit(), Ok(2));
    assert_eq!(ss.get(&1).unwrap(), None);
    assert_eq!(ss.get_with_height("\u{1}", 0).unwrap(), Some(vec![1, 7]));
    assert_eq!(ss.get_with_height("\u{1}", 1).unwrap(), Some(vec![2]));
    assert_eq!(ss.get_with_height("\u{1}", 2).unwrap(), Some(vec![2]));
    assert_eq!(ss.get_with_height("\u{2}", 2).unwrap(), None);
}

#[test]
fn a_record_left_by_a_rollback_is_read_at_its_height() {
    let mut ss =
        Plain::<MapModel<u32, u32>>::new(MapModel::default(), MemoryBackend::new()).unwrap();
    ss.insert(1, 1).unwrap();
    assert_eq!(ss.commit(), Ok(1));
    ss.insert(1, 2).unwrap();
    assert_eq!(ss.commit(), Ok(2));
    ss.rollback(0).unwrap();
    ss.insert(1, 3).unwrap();
    assert_eq!(ss.commit(), Ok(1));
    assert_eq!(ss.get(&1).unwrap(), Some(Cow::Owned(2)));
    assert_eq!(ss.get_with_height("\u{1}", 0).unwrap(), Some(vec![1, 3]));
}

#[test]
fn merkle_root_is_a_function_of_the_batches() {
    let batch: Vec<(Vec<u8>, OperationBytes)> = vec![
        (vec![1], Operation::Update(vec![10])),
        (vec![2], Operation::Delete),
        (vec![3], Operation::Update(vec![30, 31])),
    ];
    let mut roots = Vec::new();
    for _ in 0..2 {
        let mut s = MemoryBackend::new();
        let mut merkle = AppendOnlyMerkle::<Sha3_256>::new("p", 0);
        merkle.insert(&mut s, batch.as_slice()).unwrap();
        roots.push(merkle.root(&s).unwrap());
    }
    assert_eq!(roots[0], roots[1]);
    assert_eq!(roots[0].len(), 32);

    let mut changed = batch.clone();
    changed[2] = (vec![3], Operation::Update(vec![30, 32]));
    let mut s = MemoryBackend::new();
    let mut merkle = AppendOnlyMerkle::<Sha3_256>::new("p", 0);
    merkle.insert(&mut s, changed.as_slice()).unwrap();
    assert_ne!(merkle.root(&s).unwrap(), roots[0]);
}

#[test]
fn merkle_layers_are_persisted_under_the_new_height() {
    let mut s = MemoryBackend::new();
    let mut merkle = AppendOnlyMerkle::<Sha3_256>::new("p", 0);
    assert_eq!(merkle.root(&s).unwrap(), vec![0u8; 32]);
    merkle.insert(&mut s, vec![].as_slice()).unwrap();
    assert_eq!(merkle.height, 1);
    let zero = vec![0u8; 32];
    let mut both = zero.clone();
    both.extend_from_slice(&zero);
    let root = Sha3_256::new().hash(&both);
    let record = stored(&s, &merkle_key("p", 1)).unwrap();
    let mut expected = vec![1u8];
    expected.extend_from_slice(&zero);
    expected.extend_from_slice(&zero);
    expected.extend_from_slice(&root);
    assert_eq!(record, expected);
    assert_eq!(merkle.root(&s).unwrap(), root);
}

#[test]
fn merkle_pairs_a_last_hash_with_itself() {
    let h = Sha3_256::new();
    let mut s = MemoryBackend::new();
    let mut merkle = AppendOnlyMerkle::<Sha3_256>::new("", 3);
    let batch: Vec<(Vec<u8>, OperationBytes)> = vec![
        (vec![1], Operation::Update(vec![2])),
        (vec![3], Operation::Delete),
        (vec![4], Operation::Update(vec![])),
    ];
    merkle.insert(&mut s, batch.as_slice()).unwrap();
    let a = h.hash(&[1, 2]);
    let b = h.hash(&[3]);
    let c = h.hash(&[4]);
    let ab = h.hash(&[a.clone(), b.clone()].concat());
    let cc = h.hash(&[c.clone(), c.clone()].concat());
    let root = h.hash(&[ab.clone(), cc.clone()].concat());
    assert_eq!(merkle.root(&s).unwrap(), root);
    let record = stored(&s, &merkle_key("", 4)).unwrap();
    assert_eq!(record, [vec![1u8], a, b, c.clone(), c, ab, cc, root].concat());
}

#[test]
fn merkle_rollback_and_errors() {
    let mut s = MemoryBackend::new();
    let mut merkle = AppendOnlyMerkle::<Sha3_256>::new("p", 2);
    assert_eq!(merkle.rollback(3), Err(Error::HeightError));
    assert_eq!(merkle.rollback(1), Ok(()));
    assert_eq!(merkle.height, 1);
    assert_eq!(merkle.root(&s).unwrap(), vec![0u8; 32]);
    s.insert(merkle_key("p", 1), vec![2]).unwrap();
    assert_eq!(merkle.root(&s).unwrap(), vec![0u8; 32]);
    s.insert(merkle_key("p", 1), vec![1]).unwrap();
    assert_eq!(merkle.root(&s), Err(Error::StoreError));
    s.insert(merkle_key("p", 1), vec![1, 5, 5, 5]).unwrap();
    assert_eq!(merkle.root(&s), Err(Error::StoreError));
    s.insert(merkle_key("p", 1), vec![9]).unwrap();
    assert_eq!(merkle.root(&s), Err(Error::TypeCodeError));
    assert_eq!(merkle.insert(&mut s, vec![].as_slice()), Err(Error::TypeCodeError));
    assert_eq!(merkle.height, 1);
    let mut top = AppendOnlyMerkle::<Sha3_256>::new("q", i64::MAX);
    assert_eq!(top.insert(&mut s, vec![].as_slice()), Err(Error::HeightError));
}

#[test]
fn empty_merkle_writes_nothing() {
    let mut s = MemoryBackend::new();
    let mut merkle = EmptyMerkle::<Sha3_512>::new("p", 0);
    let batch: Vec<(Vec<u8>, OperationBytes)> = vec![(vec![1], Operation::Update(vec![2]))];
    assert_eq!(merkle.insert(&mut s, batch.as_slice()), Ok(()));
    assert_eq!(merkle.rollback(100), Ok(()));
    assert_eq!(merkle.root(&s).unwrap(), vec![0u8; 64]);
    assert_eq!(stored(&s, &merkle_key("p", 1)), None);
}

#[test]
fn storage_root_follows_the_commits() {
    let mut ss = Hashed::<MapModel<u8, u8>>::new_with_name(
        MapModel::default(),
        "r".to_string(),
        MemoryBackend::new(),
    )
    .unwrap();
    assert_eq!(ss.root().unwrap(), vec![0u8; 32]);
    ss.insert(1, 2).unwrap();
    ss.insert(3, 4).unwrap();
    ss.commit().unwrap();
    let h = Sha3_256::new();
    let zero = vec![0u8; 32];
    let a = h.hash(&[1, 2]);
    let b = h.hash(&[3, 4]);
    let za = h.hash(&[zero.clone(), a.clone()].concat());
    let bb = h.hash(&[b.clone(), b.clone()].concat());
    let root = h.hash(&[za, bb].concat());
    assert_eq!(ss.root().unwrap(), root);
    ss.rollback(0).unwrap();
    assert_eq!(ss.root().unwrap(), zero);
}

#[test]
fn sha3_of_nothing() {
    assert_eq!(
        hex::encode(Sha3_256::new().hash(&[])),
        "a7ffc6f8bf1ed76651c14756a061d662f580ff4de43b49fa82d80a4b80f8434a"
    );
    assert_eq!(
        hex::encode(Sha3_512::new().hash(&[])),
        "a69f73cca23a9ac5c8b567dc185a756e97c982164fe25859e0d1dcc1475c80a615b2123af1f5f94c11e3e9402c3ac558f500199d95b6d3e301758586281dcd26"
    );
    assert_eq!(Sha3_256::output_size(), 32);
    assert_eq!(Sha3_512::output_size(), 64);
}

#[test]
fn two_keys_stay_together() {
    let mut ss = Plain::<DoubleKeyMap<u32, u64, String>>::new(
        DoubleKeyMap::default(),
        MemoryBackend::new(),
    )
    .unwrap();
    assert_eq!(ss.insert(1, 10, "a".to_string()).unwrap(), None);
    assert_eq!(ss.key1_to_key2(&1).unwrap(), Some(Cow::Borrowed(&10)));
    assert_eq!(ss.get_key2(&10).unwrap(), Some(Cow::Borrowed(&"a".to_string())));
    assert_eq!(ss.get_key1(&1).unwrap(), Some(Cow::Borrowed(&"a".to_string())));
    assert_eq!(ss.commit(), Ok(1));
    assert_eq!(ss.key1_to_key2(&1).unwrap(), Some(Cow::Owned(10)));
    assert_eq!(ss.get_key2(&10).unwrap(), Some(Cow::Owned("a".to_string())));

    // a new second key for the same first key frees the old one
    assert_eq!(ss.insert(1, 11, "b".to_string()).unwrap(), Some("a".to_string()));
    assert_eq!(ss.get_key2(&10).unwrap(), None);
    assert_eq!(ss.key1_to_key2(&1).unwrap(), Some(Cow::Borrowed(&11)));
    assert_eq!(ss.get(&1, &10).unwrap(), None);
    assert_eq!(ss.get(&1, &11).unwrap(), Some(Cow::Borrowed(&"b".to_string())));
    assert_eq!(ss.commit(), Ok(2));

    assert_eq!(ss.remove_by_key1(&1).unwrap(), Some("b".to_string()));
    assert_eq!(ss.key1_to_key2(&1).unwrap(), None);
    assert_eq!(ss.get_key2(&11).unwrap(), None);
    assert_eq!(ss.remove_by_key1(&1).unwrap(), None);
    assert_eq!(ss.key1_to_key2(&1).unwrap(), None);
    assert_eq!(ss.commit(), Ok(3));
    assert_eq!(ss.key1_to_key2(&1).unwrap(), None);
    assert_eq!(ss.get_key2(&11).unwrap(), None);
    assert_eq!(ss.get_key2(&10).unwrap(), None);
    assert_eq!(ss.remove_by_key2(&10).unwrap(), None);
}

#[test]
fn map_scenario() {
    let mut ss =
        Plain::<MapModel<i32, i32>>::new(MapModel::default(), MemoryBackend::new()).unwrap();
    assert_eq!(ss.insert(1, 1).unwrap(), None);
    assert_eq!(ss.insert(2, 2).unwrap(), None);
    assert_eq!(ss.insert(3, 3).unwrap(), None);
    assert_eq!(ss.remove(&1).unwrap(), Some(1));
    assert_eq!(ss.commit(), Ok(1));
    assert_eq!(ss.commit(), Ok(2));
    assert_eq!(ss.commit(), Ok(3));
    assert_eq!(ss.get(&1).unwrap(), None);
    assert_eq!(ss.get_mut(&2).unwrap(), Some(&mut 2));
}

#[test]
fn list_scenario() {
    let mut ss = Plain::<ListModel<i32>>::new(ListModel::default(), MemoryBackend::new()).unwrap();
    ss.push(1).unwrap();
    ss.push(2).unwrap();
    ss.push(3).unwrap();
    assert_eq!(ss.commit(), Ok(1));
    // the cache is empty after the commit: there is no pending edit to take away
    assert_eq!(ss.remove(0), Ok(None));
    assert_eq!(ss.len(), Ok(3));
    assert_eq!(ss.commit(), Ok(2));
    assert_eq!(ss.get(0).unwrap(), Some(Cow::Owned(1)));
    assert_eq!(ss.get(1).unwrap(), Some(Cow::Owned(2)));
    assert_eq!(ss.get(2).unwrap(), Some(Cow::Owned(3)));
}

#[test]
fn value_scenario() {
    let mut ss = Plain::<Value<i32>>::new(Value::default(), MemoryBackend::new()).unwrap();
    assert_eq!(ss.set(1).unwrap(), None);
    assert_eq!(ss.commit(), Ok(1));
    assert_eq!(ss.get().unwrap(), Some(Cow::Owned(1)));
    assert_eq!(ss.set(2).unwrap(), Some(1));
    assert_eq!(ss.commit(), Ok(2));
    assert_eq!(ss.get().unwrap(), Some(Cow::Owned(2)));
}

#[test]
fn value_del_hides_the_persisted_value() {
    let mut ss = Plain::<Value<i32>>::new(Value::default(), MemoryBackend::new()).unwrap();
    ss.set(5).unwrap();
    ss.commit().unwrap();
    assert_eq!(ss.del().unwrap(), Some(5));
    assert_eq!(ss.get().unwrap(), None);
    assert_eq!(ss.get_mut().unwrap(), None);
    assert_eq!(ss.del().unwrap(), None);
    ss.commit().unwrap();
    assert_eq!(ss.get().unwrap(), None);
    let tx = Transaction::new(&ss);
    assert_eq!(tx.get().unwrap(), None);
}

#[test]
fn keys_have_the_documented_form() {
    assert_eq!(current_height_key(&"ns".to_string()), b"ns-ch".to_vec());
    assert_eq!(type_key(&"ns".to_string()), b"ns-ty".to_vec());
    assert_eq!(
        storage_key("ns", &[0x01, 0xff, 0xa0], 5),
        b"ns-kw-01ffa0-00000000000000000005".to_vec()
    );
    assert_eq!(storage_key("", &[], 0), b"-kw--00000000000000000000".to_vec());
    assert_eq!(
        storage_key("x", &[0x0b], i64::MAX),
        b"x-kw-0b-09223372036854775807".to_vec()
    );
    assert_eq!(
        storage_key("x", &[0x0b], -5),
        b"x-kw-0b--0000000000000000005".to_vec()
    );
    assert_eq!(
        storage_key("x", &[], i64::MIN),
        b"x-kw---9223372036854775808".to_vec()
    );
    assert_eq!(merkle_key("ns", 12), b"ns-mr-00000000000000000012".to_vec());
    assert_eq!(storage_key("é", &[1], 1), "é-kw-01-00000000000000000001".as_bytes().to_vec());
    assert_eq!(
        storage_key("ns", &[1], 7),
        format!("{}-kw-{}-{:020}", "ns", hex::encode([1u8]), 7).into_bytes()
    );
    assert_eq!(
        storage_key("ns", &[1], -7),
        format!("{}-kw-{}-{:020}", "ns", hex::encode([1u8]), -7).into_bytes()
    );
}

#[test]
fn data_keys_sort_by_height() {
    let mut previous = storage_key("ns", &[1, 2], 0);
    for height in [1i64, 2, 9, 10, 11, 99, 100, 1000, 123456789, i64::MAX] {
        let next = storage_key("ns", &[1, 2], height);
        assert!(previous < next);
        previous = next;
    }
}

#[test]
fn records_have_the_documented_bytes() {
    assert_eq!(StoreHeight { height: 1 }.to_bytes(), Ok(vec![1, 0, 0, 0, 0, 0, 0, 0]));
    assert_eq!(StoreHeight { height: -1 }.to_bytes(), Ok(vec![255; 8]));
    assert_eq!(StoreHeight::from_bytes(&[0, 1, 0, 0, 0, 0, 0, 0]).unwrap().height, 256);
    assert_eq!(StoreHeight::from_bytes(&[255; 8]).unwrap().height, -1);
    assert!(matches!(StoreHeight::from_bytes(&[1, 2]), Err(Error::BytesLengthError)));
    assert_eq!(StoreType { ty: 3 }.to_bytes(), Ok(vec![3, 0, 0, 0]));
    assert_eq!(StoreType::from_bytes(&[4, 0, 0, 0]).unwrap().ty, 4);
    assert!(matches!(StoreType::from_bytes(&[4]), Err(Error::BytesLengthError)));
    assert_eq!(
        StoreValue { operation: Operation::Update(vec![7, 8]) }.to_bytes(),
        Ok(vec![1, 7, 8])
    );
    assert_eq!(StoreValue { operation: Operation::Delete }.to_bytes(), Ok(vec![2]));
    assert_eq!(
        StoreValue::from_bytes(&[1, 7, 8]).unwrap().operation,
        Operation::Update(vec![7, 8])
    );
    assert_eq!(StoreValue::from_bytes(&[1]).unwrap().operation, Operation::Update(vec![]));
    assert_eq!(StoreValue::from_bytes(&[2]).unwrap().operation, Operation::Delete);
    assert!(matches!(StoreValue::from_bytes(&[]), Err(Error::BytesLengthError)));
    assert!(matches!(StoreValue::from_bytes(&[2, 0]), Err(Error::BytesLengthError)));
    assert!(matches!(StoreValue::from_bytes(&[0, 1]), Err(Error::TypeCodeError)));
}

#[test]
fn values_are_written_as_cbor() {
    assert_eq!(5u64.to_bytes(), Ok(vec![0x05]));
    assert_eq!(23u8.to_bytes(), Ok(vec![0x17]));
    assert_eq!(24u8.to_bytes(), Ok(vec![0x18, 0x18]));
    assert_eq!(1000u16.to_bytes(), Ok(vec![0x19, 0x03, 0xe8]));
    assert_eq!(1_000_000u32.to_bytes(), Ok(vec![0x1a, 0x00, 0x0f, 0x42, 0x40]));
    assert_eq!(
        u64::MAX.to_bytes(),
        Ok(vec![0x1b, 0xff, 0xff, 0xff, 0xff, 0xff, 0xff, 0xff, 0xff])
    );
    assert_eq!((-1i64).to_bytes(), Ok(vec![0x20]));
    assert_eq!(10i8.to_bytes(), Ok(vec![0x0a]));
    assert_eq!((-500i32).to_bytes(), Ok(vec![0x39, 0x01, 0xf3]));
    assert_eq!(
        i64::MIN.to_bytes(),
        Ok(vec![0x3b, 0x7f, 0xff, 0xff, 0xff, 0xff, 0xff, 0xff, 0xff])
    );
    assert_eq!("ab".to_string().to_bytes(), Ok(vec![0x62, 0x61, 0x62]));
    assert_eq!("é".to_string().to_bytes(), Ok(vec![0x62, 0xc3, 0xa9]));
    assert_eq!(String::new().to_bytes(), Ok(vec![0x60]));
}

#[test]
fn values_are_read_from_cbor() {
    assert_eq!(u64::from_bytes(&[0x19, 0x03, 0xe8]), Ok(1000));
    assert_eq!(u64::from_bytes(&[0x05]), Ok(5));
    assert_eq!(u8::from_bytes(&[0x18, 0xff]), Ok(255));
    assert_eq!(u8::from_bytes(&[0x19, 0x01, 0x00]), Err(Error::CborDeIoError));
    assert_eq!(u16::from_bytes(&[0x1a, 0x00, 0x01, 0x00, 0x00]), Err(Error::CborDeIoError));
    assert_eq!(u32::from_bytes(&[0x20]), Err(Error::CborDeIoError));
    assert_eq!(i64::from_bytes(&[0x39, 0x01, 0xf3]), Ok(-500));
    assert_eq!(i8::from_bytes(&[0x38, 0x7f]), Ok(-128));
    assert_eq!(i8::from_bytes(&[0x38, 0x80]), Err(Error::CborDeIoError));
    assert_eq!(i16::from_bytes(&[0x19, 0x80, 0x00]), Err(Error::CborDeIoError));
    assert_eq!(i32::from_bytes(&[0x0a]), Ok(10));
    assert_eq!(u64::from_bytes(&[]), Err(Error::CborDeIoError));
    assert_eq!(u64::from_bytes(&[0x62, 0x61, 0x62]), Err(Error::CborDeIoError));
    assert_eq!(String::from_bytes(&[0x62, 0x61, 0x62]), Ok("ab".to_string()));
    assert_eq!(String::from_bytes(&[0x05]), Err(Error::CborDeIoError));
    for v in [0u64, 1, 23, 24, 255, 256, 65535, 65536, u32::MAX as u64, u64::MAX] {
        assert_eq!(u64::from_bytes(&v.to_bytes().unwrap()), Ok(v));
    }
    for v in [0i64, -1, -24, -25, -256, -257, i32::MIN as i64, i64::MIN, i64::MAX] {
        assert_eq!(i64::from_bytes(&v.to_bytes().unwrap()), Ok(v));
    }
}

#[test]
fn long_strings_are_read_back() {
    let long: String = "aé€😀".repeat(3000);
    let bytes = long.to_bytes().unwrap();
    assert_eq!(&bytes[..3], &[0x79, 0x75, 0x30]);
    assert_eq!(bytes.len(), 3 + 30000);
    assert_eq!(String::from_bytes(&bytes), Ok(long));
}

#[test]
fn bytes_that_no_value_is_written_as_may_still_be_read() {
    assert_eq!(u64::from_bytes(&[0x18, 0x05]), Ok(5));
    assert_eq!(u8::from_bytes(&[0x1b, 0, 0, 0, 0, 0, 0, 0, 7]), Ok(7));
    assert_eq!(i64::from_bytes(&[0x38, 0x00]), Ok(-1));
}

#[test]
fn operations_are_encoded_value_by_value() {
    let op: Operation<u32> = Operation::Update(300);
    assert_eq!(op.to_bytes(), Ok(Operation::Update(vec![0x19, 0x01, 0x2c])));
    let gone: Operation<u32> = Operation::Delete;
    assert_eq!(gone.to_bytes(), Ok(Operation::Delete));
    assert_eq!(
        Operation::<u32>::from_bytes(&Operation::Update(vec![0x19, 0x01, 0x2c])),
        Ok(Operation::Update(300))
    );
    assert_eq!(Operation::<u32>::from_bytes(&Operation::Delete), Ok(Operation::Delete));
    assert_eq!(
        Operation::<u32>::from_bytes(&Operation::Update(vec![0xff])),
        Err(Error::CborDeIoError)
    );
}

#[test]
fn caches_drain_in_key_order() {
    let mut m: MapModel<i32, u8> = MapModel::default();
    m.value.insert(5, Operation::Update(1));
    m.value.insert(-3, Operation::Delete);
    m.value.insert(2, Operation::Update(9));
    assert_eq!(m.type_code(), 3);
    let ops = m.operations().unwrap();
    assert_eq!(
        ops,
        vec![
            (vec![0x22], Operation::Delete),
            (vec![0x02], Operation::Update(vec![0x09])),
            (vec![0x05], Operation::Update(vec![0x01])),
        ]
    );
    assert_eq!(m.operations().unwrap(), vec![]);

    let mut v: Value<u8> = Value::new(3);
    assert_eq!(v.type_code(), 1);
    assert_eq!(v.operations().unwrap(), vec![(vec![], Operation::Update(vec![3]))]);
    assert!(!v.is_some());

    let mut l: ListModel<u8> = ListModel::new();
    l.insert_operation(1, Operation::Update(7));
    l.insert_operation(0, Operation::Update(6));
    l.set_length(2);
    assert_eq!(l.type_code(), 2);
    assert_eq!(
        l.operations().unwrap(),
        vec![
            (vec![0x00], Operation::Update(vec![6])),
            (vec![0x01], Operation::Update(vec![7])),
            (
                vec![0x1b, 0xff, 0xff, 0xff, 0xff, 0xff, 0xff, 0xff, 0xff],
                Operation::Update(vec![2])
            ),
        ]
    );
    assert_eq!(l.len(), None);
    assert_eq!(l.offset(), 0);

    let mut d: DoubleKeyMap<u8, u8, u8> = DoubleKeyMap::default();
    d.insert_operation(9, Operation::Update(1));
    d.insert_operation_key2(4, Operation::Update(9));
    assert_eq!(d.type_code(), 4);
    assert_eq!(
        d.operations().unwrap(),
        vec![
            (vec![1, 9], Operation::Update(vec![1])),
            (vec![2, 4], Operation::Update(vec![9])),
        ]
    );
    assert!(!d.contains_opertaion(&9));
}

#[test]
fn value_cache_edits() {
    let mut v: Value<u8> = Value::default();
    assert!(!v.is_some());
    assert_eq!(v.del(), None);
    assert!(!v.is_some());
    v.store(4);
    assert_eq!(v.as_ref(), Some(&Operation::Update(4)));
    *v.as_mut().unwrap() = Operation::Update(5);
    assert_eq!(v.del(), Some(Operation::Update(5)));
    assert_eq!(v.as_ref(), Some(&Operation::Delete));
    assert_eq!(v.take(), Some(Operation::Delete));
    assert_eq!(v.take(), None);

    let mut base: Value<u8> = Value::new(1);
    base.merge(Value::default());
    assert_eq!(base.as_ref(), Some(&Operation::Update(1)));
    let mut other: Value<u8> = Value::default();
    other.store(2);
    other.del();
    base.merge(other);
    assert_eq!(base.as_ref(), Some(&Operation::Delete));
}

#[test]
fn map_merge_lets_the_later_edit_win() {
    let mut base: MapModel<u8, u8> = MapModel::default();
    base.value.insert(1, Operation::Update(1));
    base.value.insert(2, Operation::Update(2));
    let mut other: MapModel<u8, u8> = MapModel::default();
    other.value.insert(2, Operation::Delete);
    other.value.insert(3, Operation::Update(3));
    base.merge(other);
    assert_eq!(base.value.get(&1), Some(&Operation::Update(1)));
    assert_eq!(base.value.get(&2), Some(&Operation::Delete));
    assert_eq!(base.value.get(&3), Some(&Operation::Update(3)));
    assert_eq!(base.value.len(), 3);
}

#[test]
fn list_merge_replays_added_elements_at_the_end() {
    // nothing added on balance: edits are taken over as they are
    let mut base: ListModel<u8> = ListModel::new();
    base.insert_operation(0, Operation::Update(1));
    let mut same: ListModel<u8> = ListModel::new();
    same.insert_operation(0, Operation::Update(9));
    base.merge(same);
    assert_eq!(base.get(&0), Some(&Operation::Update(9)));
    assert_eq!(base.offset(), 0);
    assert_eq!(base.len(), None);

    // elements taken away: only the count moves
    let mut shrunk: ListModel<u8> = ListModel::new();
    shrunk.sub_offset();
    shrunk.sub_offset();
    shrunk.insert_operation(5, Operation::Update(5));
    base.merge(shrunk);
    assert_eq!(base.offset(), -2);
    assert!(!base.contains_key(&5));

    // elements added: they are replayed from the length of the base on
    let mut base: ListModel<u8> = ListModel::new();
    base.set_length(3);
    base.add_offset();
    let mut grown: ListModel<u8> = ListModel::new();
    grown.insert_operation(7, Operation::Update(70));
    grown.insert_operation(8, Operation::Update(80));
    grown.add_offset();
    grown.add_offset();
    base.merge(grown);
    assert_eq!(base.get(&3), Some(&Operation::Update(70)));
    assert_eq!(base.get(&4), Some(&Operation::Update(80)));
    assert_eq!(base.get(&7), None);
    assert_eq!(base.len(), Some(5));
    assert_eq!(base.offset(), 3);

    // every element is replayed, whatever the count of the base
    let mut base: ListModel<u8> = ListModel::new();
    base.set_length(0);
    base.sub_offset();
    base.sub_offset();
    let mut grown: ListModel<u8> = ListModel::new();
    grown.insert_operation(0, Operation::Update(1));
    grown.insert_operation(1, Operation::Update(2));
    grown.insert_operation(2, Operation::Update(3));
    grown.add_offset();
    base.merge(grown);
    assert_eq!(base.get(&0), Some(&Operation::Update(1)));
    assert_eq!(base.get(&1), Some(&Operation::Update(2)));
    assert_eq!(base.get(&2), Some(&Operation::Update(3)));
    assert_eq!(base.len(), Some(3));
    assert_eq!(base.offset(), -1);

    // a base that has not read its length has the length that the other
    // cache started from
    let mut base: ListModel<u8> = ListModel::new();
    let mut grown: ListModel<u8> = ListModel::new();
    grown.insert_operation(3, Operation::Update(4));
    grown.insert_operation(4, Operation::Update(5));
    grown.set_length(5);
    grown.add_offset();
    grown.add_offset();
    base.merge(grown);
    assert_eq!(base.get(&3), Some(&Operation::Update(4)));
    assert_eq!(base.get(&4), Some(&Operation::Update(5)));
    assert_eq!(base.len(), Some(5));
    assert_eq!(base.offset(), 2);

    // where neither length is known the elements are replayed from 0 on
    let mut base: ListModel<u8> = ListModel::new();
    let mut grown: ListModel<u8> = ListModel::new();
    grown.insert_operation(7, Operation::Update(70));
    grown.add_offset();
    base.merge(grown);
    assert_eq!(base.get(&0), Some(&Operation::Update(70)));
    assert_eq!(base.len(), Some(1));
}

#[test]
fn a_transaction_is_merged_into_a_list_that_has_not_read_its_length() {
    let mut ss = Plain::<ListModel<u8>>::new(ListModel::default(), MemoryBackend::new()).unwrap();
    ss.push(1).unwrap();
    ss.push(2).unwrap();
    ss.push(3).unwrap();
    ss.commit().unwrap();
    let mut tx = Transaction::new(&ss);
    tx.push(4).unwrap();
    tx.push(5).unwrap();
    let edits = tx.value;
    assert_eq!(ss.value.len(), None);
    ss.execute(edits);
    assert_eq!(ss.len(), Ok(5));
    ss.commit().unwrap();
    for (i, v) in [1u8, 2, 3, 4, 5].iter().enumerate() {
        assert_eq!(ss.get(i as u64).unwrap(), Some(Cow::Owned(*v)));
    }
}

#[test]
fn taking_an_element_away_needs_a_pending_edit() {
    let mut ss = Plain::<ListModel<u8>>::new(ListModel::default(), MemoryBackend::new()).unwrap();
    ss.push(1).unwrap();
    ss.push(2).unwrap();
    ss.push(3).unwrap();
    ss.commit().unwrap();
    // a transaction without an edit of its own takes nothing away
    let mut tx = Transaction::new(&ss);
    assert_eq!(tx.remove(0), Ok(None));
    assert_eq!(tx.len(), Ok(3));
    // one with an edit does
    tx.push(4).unwrap();
    assert_eq!(tx.remove(0), Ok(Some(1)));
    assert_eq!(tx.len(), Ok(3));
    assert_eq!(tx.get(0).unwrap(), Some(Cow::Borrowed(&2)));
    assert_eq!(tx.get(2).unwrap(), Some(Cow::Borrowed(&4)));
}

#[test]
fn transaction_reads_through_three_tiers() {
    let mut ss =
        Plain::<MapModel<u32, u32>>::new(MapModel::default(), MemoryBackend::new()).unwrap();
    ss.insert(1, 10).unwrap();
    ss.insert(2, 20).unwrap();
    ss.commit().unwrap();
    ss.insert(2, 21).unwrap();
    ss.remove(&1).unwrap();
    ss.insert(3, 30).unwrap();
    let mut tx = ss.transaction();
    assert_eq!(tx.get(&1).unwrap(), None);
    assert_eq!(tx.get(&2).unwrap(), Some(Cow::Borrowed(&21)));
    assert_eq!(tx.get(&3).unwrap(), Some(Cow::Borrowed(&30)));
    assert_eq!(tx.get(&4).unwrap(), None);
    assert_eq!(tx.insert(4, 40).unwrap(), None);
    assert_eq!(tx.insert(4, 41).unwrap(), Some(40));
    assert_eq!(tx.remove(&3).unwrap(), Some(30));
    assert_eq!(tx.get(&3).unwrap(), None);
    *tx.get_mut(&2).unwrap().unwrap() += 1;
    assert_eq!(tx.get(&2).unwrap(), Some(Cow::Borrowed(&22)));
    let edits = tx.value;
    // the storage has not changed
    assert_eq!(ss.get(&2).unwrap(), Some(Cow::Borrowed(&21)));
    assert_eq!(ss.get(&4).unwrap(), None);
    ss.execute(edits);
    assert_eq!(ss.get(&2).unwrap(), Some(Cow::Borrowed(&22)));
    assert_eq!(ss.get(&3).unwrap(), None);
    assert_eq!(ss.get(&4).unwrap(), Some(Cow::Borrowed(&41)));
    ss.commit().unwrap();
    assert_eq!(ss.get(&1).unwrap(), None);
    assert_eq!(ss.get(&2).unwrap(), Some(Cow::Owned(22)));
    assert_eq!(ss.get(&3).unwrap(), None);
    assert_eq!(ss.get(&4).unwrap(), Some(Cow::Owned(41)));
}

#[test]
fn a_transaction_appends_to_the_list_it_is_merged_into() {
    let mut ss = Plain::<ListModel<u8>>::new(ListModel::default(), MemoryBackend::new()).unwrap();
    ss.push(1).unwrap();
    ss.push(2).unwrap();
    ss.push(3).unwrap();
    ss.commit().unwrap();
    let mut tx = Transaction::new(&ss);
    assert_eq!(tx.len(), Ok(3));
    tx.push(4).unwrap();
    tx.push(5).unwrap();
    assert_eq!(tx.len(), Ok(5));
    assert_eq!(tx.get(2).unwrap(), Some(Cow::Owned(3)));
    assert_eq!(tx.get(4).unwrap(), Some(Cow::Borrowed(&5)));
    let edits = tx.value;
    assert_eq!(ss.len(), Ok(3));
    assert_eq!(ss.load_length(), Ok(3));
    ss.execute(edits);
    assert_eq!(ss.len(), Ok(5));
    assert_eq!(ss.get(3).unwrap(), Some(Cow::Borrowed(&4)));
    assert_eq!(ss.get(4).unwrap(), Some(Cow::Borrowed(&5)));
    ss.commit().unwrap();
    assert_eq!(ss.len(), Ok(5));
    for (i, v) in [1u8, 2, 3, 4, 5].iter().enumerate() {
        assert_eq!(ss.get(i as u64).unwrap(), Some(Cow::Owned(*v)));
    }
    assert_eq!(ss.pop().unwrap(), Some(5));
}

#[test]
fn a_list_with_a_missing_element_is_left_as_it_is() {
    let mut ss = Plain::<ListModel<u8>>::new(ListModel::default(), MemoryBackend::new()).unwrap();
    ss.push(1).unwrap();
    ss.push(2).unwrap();
    ss.push(3).unwrap();
    ss.commit().unwrap();
    ss.value.insert_operation(1, Operation::Delete);
    assert_eq!(ss.get(1).unwrap(), None);
    assert_eq!(ss.remove(0), Err(Error::StoreError));
    assert_eq!(ss.insert(0, 9), Err(Error::StoreError));
    assert_eq!(ss.len(), Ok(3));
    assert_eq!(ss.value.len(), None);
    assert_eq!(ss.value.offset(), 0);
    assert_eq!(ss.get(0).unwrap(), Some(Cow::Owned(1)));
    assert_eq!(ss.get(2).unwrap(), Some(Cow::Owned(3)));
    assert_eq!(ss.remove(2).unwrap(), Some(3));
    assert_eq!(ss.len(), Ok(2));
}

#[test]
fn list_indices_beyond_the_end_are_refused() {
    let mut ss = Plain::<ListModel<u8>>::new(ListModel::default(), MemoryBackend::new()).unwrap();
    assert_eq!(ss.is_empty(), Ok(true));
    // nothing is pending: there is nothing to take away
    assert_eq!(ss.remove(0), Ok(None));
    assert_eq!(ss.load_length(), Ok(0));
    assert_eq!(ss.remove(0), Err(Error::OutOffIndex));
    assert_eq!(ss.insert(1, 5), Err(Error::OutOffIndex));
    assert_eq!(ss.insert(0, 5), Ok(()));
    assert_eq!(ss.insert(0, 4), Ok(()));
    assert_eq!(ss.insert(2, 6), Ok(()));
    assert_eq!(ss.insert(1, 9), Ok(()));
    assert_eq!(ss.len(), Ok(4));
    assert_eq!(ss.is_empty(), Ok(false));
    assert_eq!(ss.get(0).unwrap(), Some(Cow::Borrowed(&4)));
    assert_eq!(ss.get(1).unwrap(), Some(Cow::Borrowed(&9)));
    assert_eq!(ss.get(2).unwrap(), Some(Cow::Borrowed(&5)));
    assert_eq!(ss.get(3).unwrap(), Some(Cow::Borrowed(&6)));
    assert_eq!(ss.get(4).unwrap(), None);
    ss.commit().unwrap();
    assert_eq!(ss.remove(1), Ok(None));
    assert_eq!(ss.len(), Ok(4));
    assert_eq!(ss.load_length(), Ok(4));
    assert_eq!(ss.remove(1).unwrap(), Some(9));
    assert_eq!(ss.remove(2).unwrap(), Some(6));
    assert_eq!(ss.remove(2), Err(Error::OutOffIndex));
    assert_eq!(ss.len(), Ok(2));
    ss.commit().unwrap();
    assert_eq!(ss.get(0).unwrap(), Some(Cow::Owned(4)));
    assert_eq!(ss.get(1).unwrap(), Some(Cow::Owned(5)));
    assert_eq!(ss.get(2).unwrap(), None);
}

#[test]
fn a_namespace_belongs_to_one_kind_of_model() {
    let mut first = Plain::<MapModel<u32, u32>>::new_with_name(
        MapModel::default(),
        "one".to_string(),
        MemoryBackend::new(),
    )
    .unwrap();
    first.insert(1, 1).unwrap();
    first.commit().unwrap();
    assert_eq!(stored(first.store(), b"one-ty"), Some(vec![3, 0, 0, 0]));
    let store = first.store().clone();
    let wrong =
        Plain::<Value<u32>>::new_with_name(Value::default(), "one".to_string(), store.clone());
    assert!(matches!(wrong, Err(Error::TypeMissMatch)));
    let other =
        Plain::<Value<u32>>::new_with_name(Value::default(), "two".to_string(), store.clone());
    assert_eq!(other.unwrap().height, 0);
    let again =
        Plain::<MapModel<u32, u32>>::new_with_name(MapModel::default(), "one".to_string(), store)
            .unwrap();
    assert_eq!(again.height, 1);
    assert_eq!(again.get(&1).unwrap(), Some(Cow::Owned(1)));
}

#[test]
fn a_broken_record_is_an_error_and_not_an_absence() {
    let mut store = MemoryBackend::new();
    store.insert(b"-ty".to_vec(), vec![3, 0, 0, 0]).unwrap();
    store.insert(b"-ch".to_vec(), vec![1, 0, 0, 0, 0, 0, 0, 0]).unwrap();
    store
        .insert(storage_key("", &[0x01], 0), vec![1, 0x62, 0x61, 0x62])
        .unwrap();
    store.insert(storage_key("", &[0x02], 0), vec![7]).unwrap();
    store.insert(storage_key("", &[0x03], 0), vec![]).unwrap();
    let ss = Plain::<MapModel<u32, u32>>::new(MapModel::default(), store).unwrap();
    assert_eq!(ss.height, 1);
    assert_eq!(ss.get(&1), Err(Error::CborDeIoError));
    assert_eq!(ss.get(&2), Err(Error::TypeCodeError));
    assert_eq!(ss.get(&3), Err(Error::BytesLengthError));
    assert_eq!(ss.get(&4), Ok(None));

    let mut store = MemoryBackend::new();
    store.insert(b"-ty".to_vec(), vec![3, 0]).unwrap();
    assert!(matches!(
        Plain::<MapModel<u32, u32>>::new(MapModel::default(), store),
        Err(Error::BytesLengthError)
    ));
    let mut store = MemoryBackend::new();
    store.insert(b"-ty".to_vec(), vec![3, 0, 0, 0]).unwrap();
    store.insert(b"-ch".to_vec(), vec![1]).unwrap();
    assert!(matches!(
        Plain::<MapModel<u32, u32>>::new(MapModel::default(), store),
        Err(Error::BytesLengthError)
    ));
}

#[test]
fn memory_backend_reads_the_greatest_key_in_a_range() {
    let mut s = MemoryBackend::new();
    s.execute(vec![
        (vec![1], vec![10]),
        (vec![1, 0], vec![11]),
        (vec![2], vec![20]),
        (vec![3], vec![30]),
        (vec![2], vec![21]),
    ])
    .unwrap();
    let read = |lo: &[u8], hi: &[u8]| -> Option<Vec<u8>> {
        let found: Option<CowBytes> = s.get_in(lo, hi).unwrap();
        found.map(|v| v.as_ref().clone())
    };
    assert_eq!(read(&[0], &[9]), Some(vec![30]));
    assert_eq!(read(&[1], &[2]), Some(vec![21]));
    assert_eq!(read(&[1], &[1, 255]), Some(vec![11]));
    assert_eq!(read(&[1], &[1]), Some(vec![10]));
    assert_eq!(read(&[1, 1], &[1, 9]), None);
    assert_eq!(read(&[4], &[9]), None);
    assert_eq!(read(&[], &[0]), None);
    assert_eq!(read(&[3], &[1]), None);
    assert_eq!(stored(&s, &[2]), Some(vec![21]));
    assert_eq!(stored(&s, &[5]), None);
}
