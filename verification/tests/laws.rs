use cosmwasm_std::testing::MockStorage;
use storage_extra::{
    ConditionalMultiIndex, IndexedMapCow, MultiIndexCow, Order, StoreError, UniqueIndexCow,
};

type Key = (Vec<Vec<u8>>, Vec<u8>);
type MultiFn = fn(&[u8], Vec<u8>) -> Key;
type UniqueFn = fn(&[u8]) -> Key;
type CondFn = fn(&[u8]) -> bool;
type PkFn = fn(Vec<u8>) -> Vec<u8>;

// a record is a group byte, then a name
fn by_group(record: &[u8], pk: Vec<u8>) -> Key {
    (vec![vec![record[0]]], pk)
}

fn by_name(record: &[u8]) -> Key {
    (vec![], record[1..].to_vec())
}

fn even_group(record: &[u8]) -> bool {
    record[0] % 2 == 0
}

// the indexes in the order group, name, even
type Indexes = (
    MultiIndexCow<MultiFn>,
    (UniqueIndexCow<UniqueFn>, (ConditionalMultiIndex<MultiFn, CondFn, PkFn>, ())),
);

fn table() -> IndexedMapCow<Indexes> {
    IndexedMapCow::new_ref(
        "t",
        (
            MultiIndexCow::new_ref("t", "t_group", by_group as MultiFn),
            (
                UniqueIndexCow::new_ref("t_name", by_name as UniqueFn),
                (
                    ConditionalMultiIndex::new_ref(
                        by_group as MultiFn,
                        even_group as CondFn,
                        None,
                        "t",
                        "t_even",
                    ),
                    (),
                ),
            ),
        ),
    )
}

fn rows() -> Vec<(Vec<u8>, Vec<u8>)> {
    vec![
        (vec![3], b"\x05carol".to_vec()),
        (vec![1], b"\x05alice".to_vec()),
        (vec![2, 0], b"\x04bob".to_vec()),
        (vec![], b"\x04dave".to_vec()),
        (vec![2], b"\x09erin".to_vec()),
        (vec![255, 255], b"\xfffrank".to_vec()),
    ]
}

fn filled() -> MockStorage {
    let mut storage = MockStorage::new();
    for (pk, record) in rows() {
        table().save(&mut storage, &pk, &record).unwrap();
    }
    storage
}

fn times(found: &[Result<(Vec<u8>, Vec<u8>), StoreError>], pk: &[u8], record: &[u8]) -> usize {
    found.iter().filter(|item| **item == Ok((pk.to_vec(), record.to_vec()))).count()
}

#[test]
fn what_was_saved_is_loaded() {
    let storage = filled();
    for (pk, record) in rows() {
        assert_eq!(table().load(&storage, &pk), Ok(record));
    }
    assert_eq!(table().load(&storage, &[9]), Err(StoreError::NotFound));
}

#[test]
fn a_save_over_a_record_is_loaded() {
    let mut storage = filled();
    table().save(&mut storage, &[1], b"\x07alice").unwrap();
    assert_eq!(table().load(&storage, &[1]), Ok(b"\x07alice".to_vec()));
}

#[test]
fn every_record_is_found_once_under_its_derived_key() {
    let storage = filled();
    let t = table();
    for order in [Order::Ascending, Order::Descending] {
        for (pk, record) in rows() {
            let group = [record[0]];
            let in_group = t.index.0.prefix(&[&group]).range(&storage, None, None, order);
            assert_eq!(times(&in_group, &pk, &record), 1);
            let all = t.index.0.sub_prefix(&[]).range(&storage, None, None, order);
            assert_eq!(times(&all, &pk, &record), 1);
            let by_name = t.index.1 .0.prefix(&[]).range(&storage, None, None, order);
            assert_eq!(times(&by_name, &pk, &record), 1);
            let even = t.index.1 .1 .0.prefix(&[&group]).range(&storage, None, None, order);
            assert_eq!(times(&even, &pk, &record), if record[0] % 2 == 0 { 1 } else { 0 });
        }
    }
    assert_eq!(t.index.0.sub_prefix(&[]).range(&storage, None, None, Order::Ascending).len(), 6);
    assert_eq!(t.index.1 .0.prefix(&[]).range(&storage, None, None, Order::Ascending).len(), 6);
    assert_eq!(t.index.1 .1 .0.sub_prefix(&[]).range(&storage, None, None, Order::Ascending).len(), 2);
}

#[test]
fn a_removed_record_leaves_every_index() {
    let mut storage = filled();
    let t = table();
    t.remove(&mut storage, &[2, 0]).unwrap();
    assert_eq!(t.may_load(&storage, &[2, 0]), Ok(None));
    let all = t.index.0.sub_prefix(&[]).range(&storage, None, None, Order::Ascending);
    assert_eq!(times(&all, &[2, 0], b"\x04bob"), 0);
    assert_eq!(all.len(), 5);
    assert_eq!(t.index.1 .0.item(&storage, (vec![], b"bob".to_vec())), Ok(None));
    let even = t.index.1 .1 .0.sub_prefix(&[]).range(&storage, None, None, Order::Ascending);
    assert_eq!(even, vec![Ok((vec![], b"\x04dave".to_vec()))]);
    // the others are where they were
    for (pk, record) in rows() {
        if pk != vec![2, 0] {
            assert_eq!(times(&all, &pk, &record), 1);
        }
    }
}

#[test]
fn a_record_that_moves_is_found_under_its_new_key_only() {
    let mut storage = filled();
    let t = table();
    t.save(&mut storage, &[3], b"\x04carol").unwrap();
    let old_group = t.index.0.prefix(&[&[5]]).range(&storage, None, None, Order::Ascending);
    assert_eq!(old_group, vec![Ok((vec![1], b"\x05alice".to_vec()))]);
    let new_group = t.index.0.prefix(&[&[4]]).range(&storage, None, None, Order::Ascending);
    assert_eq!(
        new_group,
        vec![
            Ok((vec![], b"\x04dave".to_vec())),
            Ok((vec![2, 0], b"\x04bob".to_vec())),
            Ok((vec![3], b"\x04carol".to_vec())),
        ]
    );
    let even = t.index.1 .1 .0.prefix(&[&[4]]).range(&storage, None, None, Order::Ascending);
    assert_eq!(even.len(), 3);
}

#[test]
fn a_multi_index_scans_by_derived_key_then_by_primary_key() {
    let storage = filled();
    let t = table();
    let up = t.index.0.sub_prefix(&[]).range(&storage, None, None, Order::Ascending);
    assert_eq!(
        up,
        vec![
            Ok((vec![], b"\x04dave".to_vec())),
            Ok((vec![2, 0], b"\x04bob".to_vec())),
            Ok((vec![1], b"\x05alice".to_vec())),
            Ok((vec![3], b"\x05carol".to_vec())),
            Ok((vec![2], b"\x09erin".to_vec())),
            Ok((vec![255, 255], b"\xfffrank".to_vec())),
        ]
    );
    let mut down = t.index.0.sub_prefix(&[]).range(&storage, None, None, Order::Descending);
    down.reverse();
    assert_eq!(up, down);
}

#[test]
fn a_scan_twice_hands_out_the_same() {
    let storage = filled();
    let t = table();
    let once = t.index.0.sub_prefix(&[]).range(&storage, None, None, Order::Descending);
    let twice = t.index.0.sub_prefix(&[]).range(&storage, None, None, Order::Descending);
    assert_eq!(once, twice);
}

#[test]
fn an_index_entry_without_its_record_is_corruption() {
    let mut storage = filled();
    let t = table();
    // the record goes from the table behind the back of the indexes
    t.replace(&mut storage, &[1], None, None).unwrap();
    let in_group = t.index.0.prefix(&[&[5]]).range(&storage, None, None, Order::Ascending);
    assert_eq!(in_group, vec![Err(StoreError::Corruption), Ok((vec![3], b"\x05carol".to_vec()))]);
}
