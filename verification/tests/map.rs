use cosmwasm_std::testing::MockStorage;
use storage_extra::{MapCow, Order, StoreError};

#[test]
fn map_new_owned() {
    let a = b"g";
    let mut storage = MockStorage::new();
    let addr_owned = MapCow::new_owned(String::from("g"));

    addr_owned.save(&mut storage, a, &1u64.to_be_bytes()).unwrap();
    assert_eq!(addr_owned.load(&storage, a).unwrap(), 1u64.to_be_bytes().to_vec());
}

#[test]
fn map_new_ref() {
    let a = b"g";
    let mut storage = MockStorage::new();
    let addr_ref = MapCow::new_ref("g");

    addr_ref.save(&mut storage, a, &1u64.to_be_bytes()).unwrap();
    assert_eq!(addr_ref.load(&storage, a).unwrap(), 1u64.to_be_bytes().to_vec());
    assert_eq!(addr_ref.namespace(), "g");
}

#[derive(Clone, Copy)]
enum TestEnum {
    G,
    F,
}

fn enum_key(e: TestEnum) -> [u8; 1] {
    match e {
        TestEnum::G => [0],
        TestEnum::F => [1],
    }
}

#[test]
fn compile_and_works() {
    let mut storage = MockStorage::new();

    let map = MapCow::new_ref("great!");
    let map_2 = MapCow::new_ref("good!");

    map.save(&mut storage, &enum_key(TestEnum::G), &[4]).unwrap();
    map_2.save(&mut storage, &enum_key(TestEnum::F), &[4]).unwrap();

    assert_eq!(map.load(&storage, &enum_key(TestEnum::G)).unwrap(), vec![4]);
    assert_eq!(map_2.load(&storage, &enum_key(TestEnum::F)).unwrap(), vec![4]);
    assert_eq!(map.load(&storage, &enum_key(TestEnum::F)), Err(StoreError::NotFound));
}

#[test]
fn map_has_and_remove() {
    let mut storage = MockStorage::new();
    let map = MapCow::new_ref("m");
    assert!(!map.has(&storage, b"k"));
    assert_eq!(map.may_load(&storage, b"k"), Ok(None));
    map.save(&mut storage, b"k", b"v").unwrap();
    assert!(map.has(&storage, b"k"));
    assert_eq!(map.may_load(&storage, b"k"), Ok(Some(b"v".to_vec())));
    map.remove(&mut storage, b"k");
    assert!(!map.has(&storage, b"k"));
    assert_eq!(map.load(&storage, b"k"), Err(StoreError::NotFound));
}

#[test]
fn map_save_overwrites() {
    let mut storage = MockStorage::new();
    let map = MapCow::new_ref("m");
    map.save(&mut storage, b"k", b"one").unwrap();
    map.save(&mut storage, b"k", b"two").unwrap();
    assert_eq!(map.load(&storage, b"k").unwrap(), b"two".to_vec());
}

#[test]
fn map_update_stores_what_the_action_returns() {
    let mut storage = MockStorage::new();
    let map = MapCow::new_ref("m");
    let r: Result<Vec<u8>, StoreError> = map.update(&mut storage, b"k", |old| {
        assert_eq!(old, None);
        Ok(vec![1])
    });
    assert_eq!(r, Ok(vec![1]));
    let r: Result<Vec<u8>, StoreError> = map.update(&mut storage, b"k", |old| {
        let mut v = old.unwrap();
        v.push(2);
        Ok(v)
    });
    assert_eq!(r, Ok(vec![1, 2]));
    assert_eq!(map.load(&storage, b"k").unwrap(), vec![1, 2]);
}

#[test]
fn map_update_leaves_the_store_when_the_action_fails() {
    let mut storage = MockStorage::new();
    let map = MapCow::new_ref("m");
    map.save(&mut storage, b"k", b"v").unwrap();
    let r: Result<Vec<u8>, StoreError> =
        map.update(&mut storage, b"k", |_| Err(StoreError::Corruption));
    assert_eq!(r, Err(StoreError::Corruption));
    assert_eq!(map.load(&storage, b"k").unwrap(), b"v".to_vec());
    let all = map.prefix(&[]).range(&storage, None, None, Order::Ascending);
    assert_eq!(all, vec![Ok((b"k".to_vec(), b"v".to_vec()))]);
}

#[test]
fn map_keys_are_set_apart_by_namespace() {
    let mut storage = MockStorage::new();
    let a = MapCow::new_ref("a");
    let ab = MapCow::new_ref("ab");
    a.save(&mut storage, b"bk", b"1").unwrap();
    ab.save(&mut storage, b"k", b"2").unwrap();
    assert_eq!(a.load(&storage, b"bk").unwrap(), b"1".to_vec());
    assert_eq!(ab.load(&storage, b"k").unwrap(), b"2".to_vec());
    assert_eq!(
        a.prefix(&[]).range(&storage, None, None, Order::Ascending),
        vec![Ok((b"bk".to_vec(), b"1".to_vec()))]
    );
}
