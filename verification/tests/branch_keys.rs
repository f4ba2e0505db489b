use bs3::snapshot::operation::{Operation as RawOperation, OperationOwned};
use bs3::types::{BranchName, StoreKey, StoreValue, VersionName};
use bs3::utils::{branch_store_key, data_store_key, key_store_key, version_store_key};
use bs3::{BytesRef, Error};

#[test]
fn branch_store_keys() {
    assert_eq!(
        data_store_key(1, 2, 0x0102030405060708),
        vec![3, 0, 0, 0, 0, 0, 0, 0, 1, 0, 0, 0, 0, 0, 0, 0, 2, 1, 2, 3, 4, 5, 6, 7, 8]
    );
    assert_eq!(
        key_store_key(258, &[7, 8]),
        Ok(vec![2, 0, 0, 0, 0, 0, 0, 1, 2, 2, 7, 8])
    );
    assert_eq!(key_store_key(0, &[0u8; 255]).unwrap().len(), 1 + 8 + 1 + 255);
    assert_eq!(key_store_key(0, &[0u8; 256]), Err(Error::TryFromIntError));
    assert_eq!(branch_store_key(&BranchName(vec![9, 9, 9])), Ok(vec![1, 3, 9, 9, 9]));
    assert_eq!(branch_store_key(&BranchName(vec![0; 300])), Err(Error::TryFromIntError));
    assert_eq!(
        version_store_key(1, &VersionName(vec![5])),
        Ok(vec![4, 0, 0, 0, 0, 0, 0, 0, 1, 1, 5])
    );
    assert_eq!(version_store_key(1, &VersionName(vec![0; 256])), Err(Error::TryFromIntError));
}

#[test]
fn branch_store_records() {
    assert_eq!(StoreValue::Update(vec![4, 5]).to_bytes(), Ok(vec![1, 4, 5]));
    assert_eq!(StoreValue::Delete.to_bytes(), Ok(vec![2]));
    assert_eq!(
        StoreValue::Ref { branch_id: 1, version_id: 515 }.to_bytes(),
        Ok(vec![3, 0, 0, 0, 0, 0, 0, 0, 1, 0, 0, 0, 0, 0, 0, 2, 3])
    );
    assert!(matches!(StoreValue::from_bytes(&[1, 4, 5]), Ok(StoreValue::Update(d)) if d
        == vec![4, 5]));
    assert!(matches!(StoreValue::from_bytes(&[2]), Ok(StoreValue::Delete)));
    assert!(matches!(StoreValue::from_bytes(&[2, 1]), Ok(StoreValue::Delete)));
    assert!(matches!(
        StoreValue::from_bytes(&[3, 0, 0, 0, 0, 0, 0, 0, 1, 0, 0, 0, 0, 0, 0, 2, 3]),
        Ok(StoreValue::Ref { branch_id: 1, version_id: 515 })
    ));
    assert!(matches!(StoreValue::from_bytes(&[3, 1, 2]), Err(Error::TryFromSliceError)));
    assert!(matches!(StoreValue::from_bytes(&[]), Err(Error::BytesLengthError)));
    assert!(matches!(StoreValue::from_bytes(&[0]), Err(Error::TypeCodeError)));
    assert!(matches!(StoreValue::from_bytes(&[4, 1]), Err(Error::TypeCodeError)));

    assert_eq!(StoreKey { key_id: 258 }.to_bytes(), Ok(vec![0, 0, 0, 0, 0, 0, 1, 2]));
    assert_eq!(StoreKey::from_bytes(&[0, 0, 0, 0, 0, 0, 1, 2]).unwrap().key_id, 258);
    assert!(matches!(StoreKey::from_bytes(&[1, 2]), Err(Error::TryFromSliceError)));
}

#[test]
fn raw_operations_and_bytes() {
    let bytes = [1u8, 2, 3];
    assert_eq!(
        RawOperation::Update(&bytes).to_operation_owned(),
        OperationOwned::Update(vec![1, 2, 3])
    );
    assert_eq!(RawOperation::Delete.to_operation_owned(), OperationOwned::Delete);
    assert_eq!(OperationOwned::Update(vec![4]).to_operation(), RawOperation::Update(&[4]));
    assert_eq!(OperationOwned::Delete.to_operation(), RawOperation::Delete);
    assert_eq!(BytesRef::Borrow(&bytes).into(), vec![1, 2, 3]);
    assert_eq!(BytesRef::Owned(vec![9]).into(), vec![9]);
}
