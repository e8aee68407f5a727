use cosmwasm_std::testing::MockStorage;
use storage_extra::{ConditionalMultiIndex, IndexedMapCow, MultiIndexCow, Order, StoreError};

type Key = (Vec<Vec<u8>>, Vec<u8>);
type KeyFn = fn(&[u8], Vec<u8>) -> Key;
type CondFn = fn(&[u8]) -> bool;
type PkFn = fn(Vec<u8>) -> Vec<u8>;

struct Test {
    id: u64,
    val: u128,
}

fn to_bytes(t: &Test) -> Vec<u8> {
    let mut out = t.id.to_be_bytes().to_vec();
    out.extend_from_slice(&t.val.to_be_bytes());
    out
}

fn from_bytes(b: &[u8]) -> Test {
    let mut id = [0u8; 8];
    id.copy_from_slice(&b[0..8]);
    let mut val = [0u8; 16];
    val.copy_from_slice(&b[8..24]);
    Test { id: u64::from_be_bytes(id), val: u128::from_be_bytes(val) }
}

fn by_val(t: &[u8], k: Vec<u8>) -> Key {
    (vec![from_bytes(t).val.to_be_bytes().to_vec()], k)
}

fn by_val_inv(t: &[u8], _k: Vec<u8>) -> Key {
    let t = from_bytes(t);
    (vec![t.val.to_be_bytes().to_vec()], (u64::MAX - t.id).to_be_bytes().to_vec())
}

fn over_100(t: &[u8]) -> bool {
    from_bytes(t).val > 100
}

fn invert(old_kv: Vec<u8>) -> Vec<u8> {
    let mut id = [0u8; 8];
    id.copy_from_slice(old_kv.as_slice());
    (u64::MAX - u64::from_be_bytes(id)).to_be_bytes().to_vec()
}

type TestIndexes = (
    ConditionalMultiIndex<KeyFn, CondFn, PkFn>,
    (MultiIndexCow<KeyFn>, (ConditionalMultiIndex<KeyFn, CondFn, PkFn>, ())),
);

// the indexes in the order val, val_n, val_inv
fn idm() -> IndexedMapCow<TestIndexes> {
    IndexedMapCow::new_ref(
        "test",
        (
            ConditionalMultiIndex::new_ref(
                by_val as KeyFn,
                // only add to val if t.val > 100
                over_100 as CondFn,
                None,
                "test",
                "test__val",
            ),
            (
                MultiIndexCow::new_ref("test", "test__normal", by_val as KeyFn),
                (
                    ConditionalMultiIndex::new_ref(
                        by_val_inv as KeyFn,
                        // only add to val if t.val > 100
                        over_100 as CondFn,
                        Some(invert as PkFn),
                        "test",
                        "test__inv",
                    ),
                    (),
                ),
            ),
        ),
    )
}

fn ids_and_vals(found: Vec<Result<(Vec<u8>, Vec<u8>), StoreError>>) -> Vec<(u64, u128)> {
    found
        .into_iter()
        .map(|e| e.map(|(_, i)| (from_bytes(&i).id, from_bytes(&i).val)).unwrap())
        .collect::<Vec<_>>()
}

fn save_three(storage: &mut MockStorage) {
    idm().save(storage, &0u64.to_be_bytes(), &to_bytes(&Test { id: 0, val: 101 })).unwrap();
    idm().save(storage, &1u64.to_be_bytes(), &to_bytes(&Test { id: 1, val: 100 })).unwrap();
    idm().save(storage, &2u64.to_be_bytes(), &to_bytes(&Test { id: 2, val: 101 })).unwrap();
}

#[test]
fn conditional_multi_index_correct_namespace() {
    let idm = idm();

    assert_eq!(idm.index.0.pk_namespace(), "test");
    assert_eq!(idm.index.0.idx_namespace(), "test__val");
}

#[test]
fn correctly_add_to_index() {
    let mut storage = MockStorage::new();
    save_three(&mut storage);

    let v = ids_and_vals(idm().index.0.sub_prefix(&[]).range(
        &storage,
        None,
        None,
        Order::Descending,
    ));

    assert_eq!(v, vec![(2, 101), (0, 101)]);

    let v_n = ids_and_vals(idm().index.1 .0.sub_prefix(&[]).range(
        &storage,
        None,
        None,
        Order::Descending,
    ));

    assert_eq!(v_n, vec![(2, 101), (0, 101), (1, 100),]);
}

#[test]
fn correctly_add_to_index_custom_dese() {
    let mut storage = MockStorage::new();
    save_three(&mut storage);

    let v_inv = ids_and_vals(idm().index.1 .1 .0.sub_prefix(&[]).range(
        &storage,
        None,
        None,
        Order::Descending,
    ));

    assert_eq!(v_inv, vec![(0, 101), (2, 101)]);

    let v_n = ids_and_vals(idm().index.1 .0.sub_prefix(&[]).range(
        &storage,
        None,
        None,
        Order::Descending,
    ));

    assert_eq!(v_n, vec![(2, 101), (0, 101), (1, 100),]);
}

#[test]
fn conditional_index_lets_go_of_a_removed_record() {
    let mut storage = MockStorage::new();
    save_three(&mut storage);
    idm().remove(&mut storage, &2u64.to_be_bytes()).unwrap();

    let v = ids_and_vals(idm().index.0.sub_prefix(&[]).range(
        &storage,
        None,
        None,
        Order::Ascending,
    ));
    assert_eq!(v, vec![(0, 101)]);
    let v_inv = ids_and_vals(idm().index.1 .1 .0.sub_prefix(&[]).range(
        &storage,
        None,
        None,
        Order::Ascending,
    ));
    assert_eq!(v_inv, vec![(0, 101)]);
    let v_n = ids_and_vals(idm().index.1 .0.sub_prefix(&[]).range(
        &storage,
        None,
        None,
        Order::Ascending,
    ));
    assert_eq!(v_n, vec![(1, 100), (0, 101)]);
}

#[test]
fn conditional_index_scans_under_the_derived_key() {
    let mut storage = MockStorage::new();
    save_three(&mut storage);
    let v = ids_and_vals(idm().index.0.prefix(&[&101u128.to_be_bytes()]).range(
        &storage,
        None,
        None,
        Order::Ascending,
    ));
    assert_eq!(v, vec![(0, 101), (2, 101)]);
    let none = ids_and_vals(idm().index.0.prefix(&[&100u128.to_be_bytes()]).range(
        &storage,
        None,
        None,
        Order::Ascending,
    ));
    assert_eq!(none, vec![]);
}
