use cosmwasm_std::testing::MockStorage;
use storage_extra::{ItemCow, StoreError};

#[test]
fn item_new_owned() {
    let a = b"g".to_vec();
    let mut storage = MockStorage::new();
    let item = ItemCow::new_owned(String::from("Something brah"));

    item.save(&mut storage, &a).unwrap();

    assert_eq!(item.load(&storage).unwrap(), a);
}

#[test]
fn item_new_ref() {
    let a = b"g".to_vec();
    let mut storage = MockStorage::new();
    let item = ItemCow::new_ref("Anotherthing");

    item.save(&mut storage, &a).unwrap();

    assert_eq!(item.load(&storage).unwrap(), a);
    assert_eq!(item.namespace(), "Anotherthing");
}

#[test]
fn item_load_of_nothing_is_not_found() {
    let storage = MockStorage::new();
    let item = ItemCow::new_ref("empty");
    assert_eq!(item.load(&storage), Err(StoreError::NotFound));
    assert_eq!(item.may_load(&storage), Ok(None));
}

#[test]
fn item_remove_drops_the_record() {
    let mut storage = MockStorage::new();
    let item = ItemCow::new_ref("it");
    item.save(&mut storage, b"x").unwrap();
    item.remove(&mut storage);
    assert_eq!(item.may_load(&storage), Ok(None));
}

#[test]
fn item_update_needs_a_record() {
    let mut storage = MockStorage::new();
    let item = ItemCow::new_ref("it");
    let r: Result<Vec<u8>, StoreError> = item.update(&mut storage, |v| Ok(v));
    assert_eq!(r, Err(StoreError::NotFound));
    assert_eq!(item.may_load(&storage), Ok(None));

    item.save(&mut storage, &[1]).unwrap();
    let r: Result<Vec<u8>, StoreError> = item.update(&mut storage, |mut v| {
        v.push(9);
        Ok(v)
    });
    assert_eq!(r, Ok(vec![1, 9]));
    assert_eq!(item.load(&storage).unwrap(), vec![1, 9]);

    let r: Result<Vec<u8>, StoreError> = item.update(&mut storage, |_| Err(StoreError::Deserialize));
    assert_eq!(r, Err(StoreError::Deserialize));
    assert_eq!(item.load(&storage).unwrap(), vec![1, 9]);
}
