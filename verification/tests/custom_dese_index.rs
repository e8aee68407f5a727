use cosmwasm_std::testing::MockStorage;
use storage_extra::{
    deserialize_multi_kv_custom_pk, CustomDeseMultiIndex, IndexedMapCow, MapCow, MultiIndexCow,
    Order, StoreError,
};

type Key = (Vec<Vec<u8>>, Vec<u8>);
type KeyFn = fn(&[u8], Vec<u8>) -> Key;
type PkFn = fn(Vec<u8>) -> Vec<u8>;

struct Test {
    id: u64,
    val: u128,
}

fn to_bytes(t: &Test) -> Vec<u8> {
    let mut out = t.id.to_be_bytes().to_vec();
    out.extend_from_slice(&t.val.to_be_bytes());
    out
}

fn from_bytes(b: &[u8]) -> Test {
    let mut id = [0u8; 8];
    id.copy_from_slice(&b[0..8]);
    let mut val = [0u8; 16];
    val.copy_from_slice(&b[8..24]);
    Test { id: u64::from_be_bytes(id), val: u128::from_be_bytes(val) }
}

fn by_val(t: &[u8], k: Vec<u8>) -> Key {
    (vec![from_bytes(t).val.to_be_bytes().to_vec()], k)
}

fn by_val_inv(t: &[u8], _k: Vec<u8>) -> Key {
    let t = from_bytes(t);
    (vec![t.val.to_be_bytes().to_vec()], (u64::MAX - t.id).to_be_bytes().to_vec())
}

fn invert(old_kv: Vec<u8>) -> Vec<u8> {
    let mut id = [0u8; 8];
    id.copy_from_slice(old_kv.as_slice());
    (u64::MAX - u64::from_be_bytes(id)).to_be_bytes().to_vec()
}

type TestIndexes = (CustomDeseMultiIndex<KeyFn, PkFn>, (MultiIndexCow<KeyFn>, ()));

// the indexes in the order val, val_n
fn idm() -> IndexedMapCow<TestIndexes> {
    IndexedMapCow::new_ref(
        "test",
        (
            CustomDeseMultiIndex::new_ref(by_val_inv as KeyFn, Some(invert as PkFn), "test", "test__val"),
            (MultiIndexCow::new_ref("test", "test__val_n", by_val as KeyFn), ()),
        ),
    )
}

fn ids(found: Vec<Result<(Vec<u8>, Vec<u8>), StoreError>>) -> Vec<u64> {
    found.into_iter().map(|e| from_bytes(&e.unwrap().1).id).collect::<Vec<_>>()
}

#[test]
fn custom_dese_index_correct_namespace() {
    let idm = idm();

    assert_eq!(idm.index.0.pk_namespace(), "test");
    assert_eq!(idm.index.0.idx_namespace(), "test__val");
}

#[test]
fn correctly_dese() {
    let mut storage = MockStorage::new();
    idm().save(&mut storage, &0u64.to_be_bytes(), &to_bytes(&Test { id: 0, val: 100 })).unwrap();

    let v = ids(idm().index.0.sub_prefix(&[]).range(&storage, None, None, Order::Ascending));

    assert_eq!(v, vec![0]);
}

#[test]
fn index_correctly_use_dese_fn() {
    let mut storage = MockStorage::new();
    idm().save(&mut storage, &0u64.to_be_bytes(), &to_bytes(&Test { id: 0, val: 100 })).unwrap();
    idm().save(&mut storage, &1u64.to_be_bytes(), &to_bytes(&Test { id: 1, val: 100 })).unwrap();
    idm().save(&mut storage, &2u64.to_be_bytes(), &to_bytes(&Test { id: 2, val: 200 })).unwrap();
    idm().save(&mut storage, &3u64.to_be_bytes(), &to_bytes(&Test { id: 3, val: 100 })).unwrap();

    let v = ids(idm().index.0.sub_prefix(&[]).range(&storage, None, None, Order::Descending));

    // custom
    // val: Descending, id: Ascending
    assert_eq!(v, vec![2, 0, 1, 3]);

    let vn = ids(idm().index.1 .0.sub_prefix(&[]).range(&storage, None, None, Order::Descending));

    // normal
    // val: Descending, id: Descending
    assert_eq!(vn, vec![2, 3, 1, 0]);
}

#[test]
fn custom_index_without_a_recovery_function_takes_the_end_of_the_key() {
    let mut storage = MockStorage::new();
    let plain: IndexedMapCow<(CustomDeseMultiIndex<KeyFn, PkFn>, ())> = IndexedMapCow::new_owned(
        "test".to_string(),
        (
            CustomDeseMultiIndex::new_owned(
                by_val as KeyFn,
                None,
                "test".to_string(),
                "test__val".to_string(),
            ),
            (),
        ),
    );
    plain.save(&mut storage, &7u64.to_be_bytes(), &to_bytes(&Test { id: 7, val: 5 })).unwrap();
    let found = plain.index.0.prefix(&[&5u128.to_be_bytes()]).range(
        &storage,
        None,
        None,
        Order::Ascending,
    );
    assert_eq!(
        found,
        vec![Ok((7u64.to_be_bytes().to_vec(), to_bytes(&Test { id: 7, val: 5 })))]
    );
}

#[test]
fn custom_pk_is_recovered_from_the_end_of_the_key() {
    let mut storage = MockStorage::new();
    let table = MapCow::new_ref("test");
    table.save(&mut storage, &[9, 9], b"record").unwrap();
    // an index key of five bytes whose last two are the transformed primary key
    let kv = (vec![1, 2, 3, 8, 8], 2u32.to_be_bytes().to_vec());
    let r = deserialize_multi_kv_custom_pk(&storage, b"test", kv, &|end: Vec<u8>| {
        end.iter().map(|b| b + 1).collect::<Vec<u8>>()
    });
    assert_eq!(r, Ok((vec![9, 9], b"record".to_vec())));
}

#[test]
fn custom_pk_without_a_record_is_corruption() {
    let storage = MockStorage::new();
    let kv = (vec![1, 2, 3, 8, 8], 2u32.to_be_bytes().to_vec());
    let r = deserialize_multi_kv_custom_pk(&storage, b"test", kv, &|end: Vec<u8>| end);
    assert_eq!(r, Err(StoreError::Corruption));
}

#[test]
fn custom_pk_with_a_bad_length_is_a_deserialize_error() {
    let storage = MockStorage::new();
    let too_long = (vec![1, 2], 3u32.to_be_bytes().to_vec());
    let r = deserialize_multi_kv_custom_pk(&storage, b"test", too_long, &|end: Vec<u8>| end);
    assert_eq!(r, Err(StoreError::Deserialize));
    let no_length = (vec![1, 2], vec![0, 0, 1]);
    let r = deserialize_multi_kv_custom_pk(&storage, b"test", no_length, &|end: Vec<u8>| end);
    assert_eq!(r, Err(StoreError::Deserialize));
}
