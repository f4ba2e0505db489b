use bs3::backend::MemoryBackend;
use bs3::merkle::{EmptyMerkle, Sha3_512};
use bs3::model::{MapModel, Value, Vec};
use bs3::{MapStore, SnapshotableStorage, Transaction, ValueStore, VecStore};

#[test]
fn test_value() {
    let value: Value<String> = Value::new(String::from("aaaaaa"));
    let store = MemoryBackend::new();
    let mut storage =
        SnapshotableStorage::<_, EmptyMerkle<Sha3_512>, _>::new(value, store).unwrap();

    storage.commit().unwrap();
    storage.commit().unwrap();
    println!("{:#?}", storage.store());
}

#[test]
fn tx_map_mem_test() {
    let m: MapModel<i32, i32> = MapModel::default();
    let s = MemoryBackend::new();
    let ss = SnapshotableStorage::<_, EmptyMerkle<Sha3_512>, _>::new(m, s).unwrap();
    let mut tx = Transaction::new(&ss);

    let _r = tx.insert(1, 1);
    let _r = tx.insert(2, 2);
    let _r = tx.insert(3, 3);
    let _r = tx.remove(&1);
    let _r = tx.get(&1);
    let _r = tx.get_mut(&1);
    let _r = tx.get(&2);
    let _r = tx.get(&3);
}

#[test]
fn mod_tx_value_mem_test() {
    let v: Value<i32> = Value::default();
    let s = MemoryBackend::new();
    let ss = SnapshotableStorage::<_, EmptyMerkle<Sha3_512>, _>::new(v, s).unwrap();
    let mut tx = Transaction::new(&ss);

    let _r = tx.set(1);
    let _r = tx.get();
    let _r = tx.set(2);
    let _r = tx.get();
}

#[test]
fn mod_tx_vec_mem_test() {
    let v: Vec<i32> = Vec::default();
    let s = MemoryBackend::new();
    let ss = SnapshotableStorage::<_, EmptyMerkle<Sha3_512>, _>::new(v, s).unwrap();
    let mut tx = Transaction::new(&ss);

    let _r = tx.push(1);
    let _r = tx.push(2);
    let _r = tx.push(3);
    let _r = tx.remove(0);
    let _r = tx.get(0);
    let _r = tx.get(1);
    let _r = tx.get(2);
}
