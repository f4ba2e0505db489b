use bs3::backend::{MemoryBackend, Store};
use bs3::model::{MapModel, Model};
use bs3::storage::Storage;
use bs3::types::store_key::StoreKey;
use bs3::types::store_value::StoreValue;
use bs3::types::{BranchName, VersionName};
use bs3::utils::{data_store_key, key_store_key};
use bs3::{Error, Operation};

type Branch = Storage<MemoryBackend, MapModel<u32, u32>>;

fn branch_with(edits: &[(u32, Option<u32>)]) -> Branch {
    let mut cache: MapModel<u32, u32> = MapModel::default();
    for (key, value) in edits {
        let op = match value {
            Some(v) => Operation::Update(*v),
            None => Operation::Delete,
        };
        cache.value.insert(*key, op);
    }
    Storage::new(
        MemoryBackend::new(),
        BranchName(b"main".to_vec()),
        1,
        VersionName(b"first".to_vec()),
        cache,
    )
    .unwrap()
}

#[test]
fn a_new_branch_writes_the_pending_edits_under_fresh_numbers() {
    let s = branch_with(&[(1, Some(10)), (2, None), (3, Some(30))]);
    assert_eq!(s.branch().0, b"main".to_vec());
    assert_eq!(s.version().0, b"first".to_vec());
    assert_eq!(s.branch_id, 1);
    assert_eq!(s.version_id, 0);
    assert_eq!(s.allocable_key_id, 3);
    assert_eq!(s.value.pending_operations().unwrap(), vec![]);
    // the edits are numbered in key order, and the values are written as bytes
    assert_eq!(s.get_by_id(1, 1, 0), Ok(Some(vec![10])));
    assert_eq!(s.get_by_id(1, 2, 0), Ok(None));
    assert_eq!(s.get_by_id(1, 3, 0), Ok(Some(vec![24, 30])));
    assert_eq!(s.get_by_id(1, 4, 0), Ok(None));
    assert_eq!(s.get_by_id(2, 1, 0), Ok(None));
    // the record itself
    assert_eq!(
        s.store.get(&data_store_key(1, 1, 0)).unwrap().map(|v| v.as_ref().clone()),
        Some(StoreValue::Update(vec![10]).to_bytes().unwrap())
    );
}

#[test]
fn a_read_finds_the_greatest_version_that_is_not_above_it() {
    let mut s = branch_with(&[(1, Some(10))]);
    s.store
        .insert(data_store_key(1, 1, 4), StoreValue::Update(vec![7]).to_bytes().unwrap())
        .unwrap();
    s.store.insert(data_store_key(1, 1, 6), StoreValue::Delete.to_bytes().unwrap()).unwrap();
    assert_eq!(s.get_by_id(1, 1, 0), Ok(Some(vec![10])));
    assert_eq!(s.get_by_id(1, 1, 3), Ok(Some(vec![10])));
    assert_eq!(s.get_by_id(1, 1, 4), Ok(Some(vec![7])));
    assert_eq!(s.get_by_id(1, 1, 5), Ok(Some(vec![7])));
    assert_eq!(s.get_by_id(1, 1, 6), Ok(None));
    assert_eq!(s.get_by_id(1, 1, u64::MAX), Ok(None));
}

#[test]
fn a_reference_is_followed_to_the_other_branch() {
    let mut s = branch_with(&[(1, Some(10))]);
    let to_first = StoreValue::Ref { branch_id: 1, version_id: 0 };
    s.store.insert(data_store_key(2, 1, 3), to_first.to_bytes().unwrap()).unwrap();
    let to_second = StoreValue::Ref { branch_id: 2, version_id: 9 };
    s.store.insert(data_store_key(3, 1, 0), to_second.to_bytes().unwrap()).unwrap();
    assert_eq!(s.get_by_id(2, 1, 2), Ok(None));
    assert_eq!(s.get_by_id(2, 1, 3), Ok(Some(vec![10])));
    assert_eq!(s.get_by_id(3, 1, 0), Ok(Some(vec![10])));
    // the reference keeps the number of the key
    assert_eq!(s.get_by_id(3, 2, 0), Ok(None));
}

#[test]
fn a_record_that_is_none_is_refused() {
    let mut s = branch_with(&[]);
    s.store.insert(data_store_key(1, 1, 0), vec![]).unwrap();
    s.store.insert(data_store_key(1, 2, 0), vec![9, 1]).unwrap();
    s.store.insert(data_store_key(1, 3, 0), vec![3, 1, 2]).unwrap();
    assert_eq!(s.get_by_id(1, 1, 0), Err(Error::BytesLengthError));
    assert_eq!(s.get_by_id(1, 2, 0), Err(Error::TypeCodeError));
    assert_eq!(s.get_by_id(1, 3, 0), Err(Error::TryFromSliceError));
}

#[test]
fn a_key_is_read_through_its_number() {
    let mut s = branch_with(&[(1, Some(10))]);
    // the batch has given the value a number, but the key has no record of it
    assert_eq!(s.get(&[1]), Ok(None));
    let number = StoreKey { key_id: 1 }.to_bytes().unwrap();
    s.store.insert(key_store_key(1, b"one").unwrap(), number).unwrap();
    assert_eq!(s.get(b"one"), Ok(Some(vec![10])));
    assert_eq!(s.get(b"two"), Ok(None));
    s.store.insert(key_store_key(1, b"odd").unwrap(), vec![1, 2, 3]).unwrap();
    assert_eq!(s.get(b"odd"), Err(Error::TryFromSliceError));
    assert_eq!(s.get(&[0u8; 256]), Err(Error::TryFromIntError));
    assert_eq!(s.get(&[0u8; 255]), Ok(None));
}

#[test]
fn a_batch_writes_under_the_number_of_a_key_that_has_one() {
    let mut s = branch_with(&[(1, Some(10))]);
    let number = StoreKey { key_id: 7 }.to_bytes().unwrap();
    s.store.insert(key_store_key(1, b"seven").unwrap(), number).unwrap();
    s.store_batch(vec![
        (b"seven".to_vec(), StoreValue::Update(vec![70])),
        (b"fresh".to_vec(), StoreValue::Update(vec![80])),
        (b"seven".to_vec(), StoreValue::Update(vec![71])),
    ])
    .unwrap();
    assert_eq!(s.allocable_key_id, 2);
    assert_eq!(s.get(b"seven"), Ok(Some(vec![71])));
    assert_eq!(s.get_by_id(1, 7, 0), Ok(Some(vec![71])));
    assert_eq!(s.get_by_id(1, 2, 0), Ok(Some(vec![80])));
    // a key that is too long stops the batch; what came before it stays
    let r = s.store_batch(vec![
        (b"seven".to_vec(), StoreValue::Delete),
        (vec![0u8; 256], StoreValue::Delete),
        (b"fresh".to_vec(), StoreValue::Delete),
    ]);
    assert_eq!(r, Err(Error::TryFromIntError));
    assert_eq!(s.get(b"seven"), Ok(None));
    assert_eq!(s.get_by_id(1, 2, 0), Ok(Some(vec![80])));
    assert_eq!(s.allocable_key_id, 2);
}

#[test]
fn a_name_that_is_too_long_is_refused() {
    let long = vec![0u8; 256];
    let cache: MapModel<u32, u32> = MapModel::default();
    let r = Storage::new(
        MemoryBackend::new(),
        BranchName(long.clone()),
        1,
        VersionName(b"first".to_vec()),
        cache,
    );
    assert_eq!(r.err(), Some(Error::TryFromIntError));
    let cache: MapModel<u32, u32> = MapModel::default();
    let r = Storage::new(
        MemoryBackend::new(),
        BranchName(b"main".to_vec()),
        1,
        VersionName(long),
        cache,
    );
    assert_eq!(r.err(), Some(Error::TryFromIntError));
}

#[test]
fn versions_are_not_written_yet() {
    let mut s = branch_with(&[(1, Some(10))]);
    assert_eq!(s.commit(VersionName(b"second".to_vec())), Ok(()));
    assert_eq!(s.rollback(&VersionName(b"first".to_vec())), Ok(()));
    assert_eq!(s.revert(), Ok(()));
    assert_eq!(s.merge(branch_with(&[])), Ok(()));
    assert_eq!(s.version().0, b"first".to_vec());
    assert_eq!(s.version_id, 0);
    assert_eq!(s.get_by_id(1, 1, 0), Ok(Some(vec![10])));
}
