use cosmwasm_std::testing::MockStorage;
use storage_extra::{
    Bound, IndexedMapCow, ItemCow, MapCow, MultiIndexCow, Order, StoreError, UniqueIndexCow,
};

type Key = (Vec<Vec<u8>>, Vec<u8>);
type MultiFn = fn(&[u8], Vec<u8>) -> Key;
type UniqueFn = fn(&[u8]) -> Key;

#[derive(Clone, Debug, PartialEq)]
struct ToIndex {
    id: u64,
    count: u64,
    address: String,
}

fn to_bytes(t: &ToIndex) -> Vec<u8> {
    let mut out = t.id.to_be_bytes().to_vec();
    out.extend_from_slice(&t.count.to_be_bytes());
    out.extend_from_slice(t.address.as_bytes());
    out
}

fn from_bytes(b: &[u8]) -> ToIndex {
    let mut id = [0u8; 8];
    id.copy_from_slice(&b[0..8]);
    let mut count = [0u8; 8];
    count.copy_from_slice(&b[8..16]);
    ToIndex {
        id: u64::from_be_bytes(id),
        count: u64::from_be_bytes(count),
        address: String::from_utf8(b[16..].to_vec()).unwrap(),
    }
}

fn by_count(e: &[u8], k: Vec<u8>) -> Key {
    (vec![from_bytes(e).count.to_be_bytes().to_vec()], k)
}

fn by_address(e: &[u8]) -> Key {
    (vec![], from_bytes(e).address.into_bytes())
}

fn address_key(address: &str) -> Key {
    (vec![], address.as_bytes().to_vec())
}

// the indexes in the order count, address
type ToIndexList = (MultiIndexCow<MultiFn>, (UniqueIndexCow<UniqueFn>, ()));

fn records(found: Vec<Result<(Vec<u8>, Vec<u8>), StoreError>>) -> Vec<ToIndex> {
    found.into_iter().map(|e| from_bytes(&e.unwrap().1)).collect::<Vec<_>>()
}

fn first() -> ToIndex {
    ToIndex { id: 0, count: 5, address: "a".to_string() }
}

fn second() -> ToIndex {
    ToIndex { id: 1, count: 5, address: "b".to_string() }
}

fn check_two_records(to: &IndexedMapCow<ToIndexList>) {
    let mut storage = MockStorage::new();
    let first = first();

    to.save(&mut storage, &first.id.to_be_bytes(), &to_bytes(&first)).unwrap();

    assert_eq!(
        from_bytes(&to.indexed_map().load(&storage, &first.id.to_be_bytes()).unwrap()),
        first
    );

    let second = second();

    to.save(&mut storage, &second.id.to_be_bytes(), &to_bytes(&second)).unwrap();

    assert_eq!(
        records(to.index.0.prefix(&[&5u64.to_be_bytes()]).range(
            &storage,
            None,
            None,
            Order::Ascending
        )),
        vec![first.clone(), second.clone()]
    );

    assert_eq!(
        from_bytes(&to.index.1 .0.item(&storage, address_key("a")).unwrap().unwrap().1),
        first
    );

    to.remove(&mut storage, &first.id.to_be_bytes()).unwrap();

    assert_eq!(
        records(to.index.0.prefix(&[&5u64.to_be_bytes()]).range(
            &storage,
            None,
            None,
            Order::Ascending
        )),
        vec![second.clone()]
    );

    assert_eq!(to.index.1 .0.item(&storage, address_key("a")).unwrap(), None);
}

#[test]
fn indexed_map_new_ref() {
    let to: IndexedMapCow<ToIndexList> = IndexedMapCow::new_ref(
        "primary",
        (
            MultiIndexCow::new_ref("primary", "primary_count", by_count as MultiFn),
            (UniqueIndexCow::new_ref("primary_address", by_address as UniqueFn), ()),
        ),
    );
    check_two_records(&to);
}

#[test]
fn indexed_map_new_owned() {
    let to: IndexedMapCow<ToIndexList> = IndexedMapCow::new_owned(
        "primary".to_string(),
        (
            MultiIndexCow::new_owned(
                "primary".to_string(),
                "primary_count".to_string(),
                by_count as MultiFn,
            ),
            (UniqueIndexCow::new_owned("primary_address".to_string(), by_address as UniqueFn), ()),
        ),
    );
    check_two_records(&to);
}

struct ItemMapAccessor {
    item: ItemCow,
    map: MapCow,
    indexed_map: IndexedMapCow<ToIndexList>,
}

impl ItemMapAccessor {
    fn new(primary_ns: &str) -> Self {
        Self {
            item: ItemCow::new_owned(format!("{}-item", primary_ns)),
            map: MapCow::new_owned(format!("{}-map", primary_ns)),
            indexed_map: IndexedMapCow::new_owned(
                format!("{}-idm", primary_ns),
                (
                    MultiIndexCow::new_owned(
                        format!("{}-idm", primary_ns),
                        format!("{}-idm-count", primary_ns),
                        by_count as MultiFn,
                    ),
                    (
                        UniqueIndexCow::new_owned(
                            format!("{}-idm-addr", primary_ns),
                            by_address as UniqueFn,
                        ),
                        (),
                    ),
                ),
            ),
        }
    }
}

#[test]
fn tests_correct_namespace() {
    let it = ItemMapAccessor::new("primary");
    assert_eq!(it.item.namespace(), "primary-item");
    assert_eq!(it.map.namespace(), "primary-map");
    assert_eq!(it.indexed_map.pk_namespace(), "primary-idm");
    assert_eq!(it.indexed_map.index.0.pk_namespace(), "primary-idm");
    assert_eq!(it.indexed_map.index.0.idx_namespace(), "primary-idm-count");
    assert_eq!(it.indexed_map.index.1 .0.idx_namespace(), "primary-idm-addr");
}

#[test]
fn ensure_uninit() {
    let storage = MockStorage::new();
    let it = ItemMapAccessor::new("primary");

    assert_eq!(it.item.may_load(&storage).unwrap(), None);
    assert_eq!(it.map.prefix(&[]).range(&storage, None, None, Order::Ascending), vec![]);
    assert_eq!(it.indexed_map.prefix(&[]).range(&storage, None, None, Order::Ascending), vec![]);
}

#[test]
fn item_works() {
    let mut storage = MockStorage::new();
    let it = ItemMapAccessor::new("primary");

    assert_eq!(it.item.may_load(&storage).unwrap(), None);

    it.item.save(&mut storage, &1u64.to_be_bytes()).unwrap();

    assert_eq!(it.item.may_load(&storage).unwrap(), Some(1u64.to_be_bytes().to_vec()));

    it.item.save(&mut storage, &555u64.to_be_bytes()).unwrap();

    assert_eq!(it.item.may_load(&storage).unwrap(), Some(555u64.to_be_bytes().to_vec()));
}

fn addresses(found: Vec<Result<(Vec<u8>, Vec<u8>), StoreError>>) -> Vec<(String, u64)> {
    found
        .into_iter()
        .map(|e| {
            e.map(|res| {
                let mut n = [0u8; 8];
                n.copy_from_slice(&res.1);
                (String::from_utf8(res.0).unwrap(), u64::from_be_bytes(n))
            })
            .unwrap()
        })
        .collect::<Vec<_>>()
}

#[test]
fn map_works() {
    let mut storage = MockStorage::new();
    let it = ItemMapAccessor::new("primary");

    let a = "a".to_string();
    let b = "b".to_string();

    assert_eq!(
        addresses(it.map.prefix(&[]).range(&storage, None, None, Order::Ascending)),
        vec![]
    );

    it.map.save(&mut storage, a.as_bytes(), &1u64.to_be_bytes()).unwrap();

    assert_eq!(
        addresses(it.map.prefix(&[]).range(&storage, None, None, Order::Ascending)),
        vec![(a.clone(), 1)]
    );

    it.map.save(&mut storage, b.as_bytes(), &2u64.to_be_bytes()).unwrap();

    assert_eq!(
        addresses(it.map.prefix(&[]).range(&storage, None, None, Order::Ascending)),
        vec![(a.clone(), 1), (b.clone(), 2)]
    );

    it.map.remove(&mut storage, a.as_bytes());

    assert_eq!(
        addresses(it.map.prefix(&[]).range(&storage, None, None, Order::Ascending)),
        vec![(b, 2)]
    );
}

#[test]
fn indexed_map_works() {
    let mut storage = MockStorage::new();
    let it = ItemMapAccessor::new("primary");

    let first = first();
    let second = second();

    assert_eq!(
        records(it.indexed_map.prefix(&[]).range(&storage, None, None, Order::Ascending)),
        vec![]
    );

    it.indexed_map.save(&mut storage, &first.id.to_be_bytes(), &to_bytes(&first)).unwrap();

    assert_eq!(
        records(it.indexed_map.prefix(&[]).range(&storage, None, None, Order::Ascending)),
        vec![first.clone()]
    );

    it.indexed_map.save(&mut storage, &second.id.to_be_bytes(), &to_bytes(&second)).unwrap();

    assert_eq!(
        records(it.indexed_map.prefix(&[]).range(&storage, None, None, Order::Ascending)),
        vec![first.clone(), second.clone()]
    );

    assert_eq!(
        records(it.indexed_map.index.0.prefix(&[&5u64.to_be_bytes()]).range(
            &storage,
            None,
            None,
            Order::Ascending
        )),
        vec![first.clone(), second.clone()]
    );

    assert_eq!(
        records(it.indexed_map.index.0.prefix(&[&5u64.to_be_bytes()]).range(
            &storage,
            Some(Bound::exclusive_int(0u64)),
            None,
            Order::Ascending
        )),
        vec![second.clone()]
    );

    assert_eq!(
        records(it.indexed_map.index.0.prefix(&[&5u64.to_be_bytes()]).range(
            &storage,
            None,
            Some(Bound::exclusive_int(1u64)),
            Order::Ascending,
        )),
        vec![first.clone()]
    );

    assert_eq!(
        from_bytes(&it.indexed_map.index.1 .0.item(&storage, address_key("a")).unwrap().unwrap().1),
        first.clone()
    );

    assert_eq!(
        from_bytes(&it.indexed_map.index.1 .0.item(&storage, address_key("b")).unwrap().unwrap().1),
        second.clone()
    );

    it.indexed_map.remove(&mut storage, &first.id.to_be_bytes()).unwrap();

    assert_eq!(
        records(it.indexed_map.prefix(&[]).range(&storage, None, None, Order::Ascending)),
        vec![second.clone()]
    );

    assert_eq!(
        records(it.indexed_map.index.0.prefix(&[&5u64.to_be_bytes()]).range(
            &storage,
            None,
            None,
            Order::Ascending
        )),
        vec![second.clone()]
    );

    assert_eq!(it.indexed_map.index.1 .0.item(&storage, address_key("a")).unwrap(), None);
}

#[derive(Clone, Debug, PartialEq)]
struct TestStruct {
    id: u64,
    id2: u32,
    addr: String,
}

fn struct_bytes(t: &TestStruct) -> Vec<u8> {
    let mut out = t.id.to_be_bytes().to_vec();
    out.extend_from_slice(&t.id2.to_be_bytes());
    out.extend_from_slice(t.addr.as_bytes());
    out
}

fn struct_of(b: &[u8]) -> TestStruct {
    let mut id = [0u8; 8];
    id.copy_from_slice(&b[0..8]);
    let mut id2 = [0u8; 4];
    id2.copy_from_slice(&b[8..12]);
    TestStruct {
        id: u64::from_be_bytes(id),
        id2: u32::from_be_bytes(id2),
        addr: String::from_utf8(b[12..].to_vec()).unwrap(),
    }
}

fn by_id2(t: &[u8], k: Vec<u8>) -> Key {
    (vec![struct_of(t).id2.to_be_bytes().to_vec()], k)
}

fn by_addr(t: &[u8]) -> Key {
    (vec![], struct_of(t).addr.into_bytes())
}

// the indexes in the order id, addr
fn test_indexes() -> IndexedMapCow<ToIndexList> {
    IndexedMapCow::new_ref(
        "t",
        (
            MultiIndexCow::new_ref("t", "t_2", by_id2 as MultiFn),
            (UniqueIndexCow::new_ref("t_addr", by_addr as UniqueFn), ()),
        ),
    )
}

#[test]
fn compile() {
    let _: IndexedMapCow<ToIndexList> = test_indexes();
}

#[test]
fn works() {
    let mut storage = MockStorage::new();
    let idm = test_indexes();

    idm.save(
        &mut storage,
        &0u64.to_be_bytes(),
        &struct_bytes(&TestStruct { id: 0, id2: 100, addr: "1".to_string() }),
    )
    .unwrap();

    assert_eq!(
        struct_of(&idm.load(&storage, &0u64.to_be_bytes()).unwrap()),
        TestStruct { id: 0, id2: 100, addr: "1".to_string() }
    );
}

#[test]
fn unique_index_refuses_a_second_primary_key() {
    let mut storage = MockStorage::new();
    let it = ItemMapAccessor::new("primary");
    let first = first();
    let clash = ToIndex { id: 7, count: 9, address: "a".to_string() };

    it.indexed_map.save(&mut storage, &first.id.to_be_bytes(), &to_bytes(&first)).unwrap();
    let r = it.indexed_map.save(&mut storage, &clash.id.to_be_bytes(), &to_bytes(&clash));
    assert_eq!(r, Err(StoreError::DuplicateKey));

    // the table does not hold the refused record, the unique index still leads to the first
    assert_eq!(it.indexed_map.may_load(&storage, &clash.id.to_be_bytes()), Ok(None));
    assert_eq!(
        from_bytes(&it.indexed_map.index.1 .0.item(&storage, address_key("a")).unwrap().unwrap().1),
        first
    );
    // the index before the failing one has taken the record in: nothing is rolled back
    assert_eq!(
        it.indexed_map.index.0.prefix(&[&9u64.to_be_bytes()]).range(
            &storage,
            None,
            None,
            Order::Ascending
        ),
        vec![Err(StoreError::Corruption)]
    );
}

#[test]
fn unique_index_takes_the_same_primary_key_again() {
    let mut storage = MockStorage::new();
    let it = ItemMapAccessor::new("primary");
    let first = first();
    let moved = ToIndex { id: 0, count: 6, address: "a".to_string() };

    it.indexed_map.save(&mut storage, &first.id.to_be_bytes(), &to_bytes(&first)).unwrap();
    it.indexed_map.save(&mut storage, &moved.id.to_be_bytes(), &to_bytes(&moved)).unwrap();

    assert_eq!(
        from_bytes(&it.indexed_map.index.1 .0.item(&storage, address_key("a")).unwrap().unwrap().1),
        moved
    );
    assert_eq!(
        records(it.indexed_map.index.0.sub_prefix(&[]).range(
            &storage,
            None,
            None,
            Order::Ascending
        )),
        vec![moved.clone()]
    );
}

#[test]
fn unique_index_scan_hands_out_its_own_copies() {
    let mut storage = MockStorage::new();
    let it = ItemMapAccessor::new("primary");
    it.indexed_map.save(&mut storage, &1u64.to_be_bytes(), &to_bytes(&second())).unwrap();
    it.indexed_map.save(&mut storage, &0u64.to_be_bytes(), &to_bytes(&first())).unwrap();
    let found = it.indexed_map.index.1 .0.prefix(&[]).range(&storage, None, None, Order::Descending);
    assert_eq!(
        found,
        vec![
            Ok((1u64.to_be_bytes().to_vec(), to_bytes(&second()))),
            Ok((0u64.to_be_bytes().to_vec(), to_bytes(&first()))),
        ]
    );
}

#[test]
fn unique_index_reports_bytes_it_did_not_write() {
    let mut storage = MockStorage::new();
    let it = ItemMapAccessor::new("primary");
    // what a unique index keeps under the address "a", written by a stranger
    let strange = MapCow::new_ref("primary-idm-addr");
    strange.save(&mut storage, b"a", &[1, 2, 3]).unwrap();
    assert_eq!(
        it.indexed_map.index.1 .0.item(&storage, address_key("a")),
        Err(StoreError::Deserialize)
    );
    let r = it.indexed_map.save(&mut storage, &0u64.to_be_bytes(), &to_bytes(&first()));
    assert_eq!(r, Err(StoreError::Deserialize));
}

#[test]
fn update_goes_through_the_indexes() {
    let mut storage = MockStorage::new();
    let it = ItemMapAccessor::new("primary");
    let first = first();
    it.indexed_map.save(&mut storage, &first.id.to_be_bytes(), &to_bytes(&first)).unwrap();

    let r: Result<Vec<u8>, StoreError> =
        it.indexed_map.update(&mut storage, &first.id.to_be_bytes(), |old| {
            let mut t = from_bytes(&old.unwrap());
            t.count = 8;
            t.address = "z".to_string();
            Ok(to_bytes(&t))
        });
    let updated = ToIndex { id: 0, count: 8, address: "z".to_string() };
    assert_eq!(r, Ok(to_bytes(&updated)));
    assert_eq!(
        from_bytes(&it.indexed_map.load(&storage, &first.id.to_be_bytes()).unwrap()),
        updated
    );
    assert_eq!(
        records(it.indexed_map.index.0.sub_prefix(&[]).range(
            &storage,
            None,
            None,
            Order::Ascending
        )),
        vec![updated.clone()]
    );
    assert_eq!(it.indexed_map.index.1 .0.item(&storage, address_key("a")).unwrap(), None);
    assert_eq!(
        from_bytes(&it.indexed_map.index.1 .0.item(&storage, address_key("z")).unwrap().unwrap().1),
        updated
    );
}

#[test]
fn update_that_fails_leaves_every_byte() {
    let mut storage = MockStorage::new();
    let it = ItemMapAccessor::new("primary");
    it.indexed_map.save(&mut storage, &0u64.to_be_bytes(), &to_bytes(&first())).unwrap();
    it.indexed_map.save(&mut storage, &1u64.to_be_bytes(), &to_bytes(&second())).unwrap();
    let before = cosmwasm_std::Storage::range(&storage, None, None, cosmwasm_std::Order::Ascending)
        .collect::<Vec<_>>();

    let r: Result<Vec<u8>, StoreError> =
        it.indexed_map.update(&mut storage, &0u64.to_be_bytes(), |_| Err(StoreError::NotFound));
    assert_eq!(r, Err(StoreError::NotFound));
    let r: Result<Vec<u8>, StoreError> =
        it.indexed_map.update(&mut storage, &5u64.to_be_bytes(), |_| Err(StoreError::Corruption));
    assert_eq!(r, Err(StoreError::Corruption));

    let after = cosmwasm_std::Storage::range(&storage, None, None, cosmwasm_std::Order::Ascending)
        .collect::<Vec<_>>();
    assert_eq!(before, after);
    assert_eq!(before.len(), 6);
}

#[test]
fn replace_follows_the_given_old_record() {
    let mut storage = MockStorage::new();
    let it = ItemMapAccessor::new("primary");
    let first = first();
    let second = second();
    let pk = 0u64.to_be_bytes();
    it.indexed_map.replace(&mut storage, &pk, Some(&to_bytes(&first)), None).unwrap();
    assert_eq!(from_bytes(&it.indexed_map.load(&storage, &pk).unwrap()), first);
    // the old record's entries go, the new record's entries come
    it.indexed_map
        .replace(&mut storage, &pk, Some(&to_bytes(&second)), Some(&to_bytes(&first)))
        .unwrap();
    assert_eq!(it.indexed_map.index.1 .0.item(&storage, address_key("a")).unwrap(), None);
    assert_eq!(
        it.indexed_map.index.1 .0.item(&storage, address_key("b")).unwrap(),
        Some((pk.to_vec(), to_bytes(&second)))
    );
    it.indexed_map.replace(&mut storage, &pk, None, Some(&to_bytes(&second))).unwrap();
    assert_eq!(
        cosmwasm_std::Storage::range(&storage, None, None, cosmwasm_std::Order::Ascending).count(),
        0
    );
}

#[test]
fn indexed_map_key_is_the_namespace_behind_its_length_then_the_key() {
    let it = ItemMapAccessor::new("primary");
    assert_eq!(it.indexed_map.key(b"k"), b"\x00\x0bprimary-idmk".to_vec());
    assert_eq!(it.indexed_map.indexed_map().key(b""), b"\x00\x0bprimary-idm".to_vec());
}

#[test]
fn index_key_joins_the_segments() {
    let it = ItemMapAccessor::new("primary");
    assert_eq!(
        it.indexed_map.index.0.index_key((vec![vec![7, 7], vec![]], vec![1, 2, 3])),
        vec![0, 2, 7, 7, 0, 0, 1, 2, 3]
    );
    assert_eq!(it.indexed_map.index.1 .0.index_key((vec![], vec![4])), vec![4]);
}

#[test]
fn an_overwriting_unique_index_lets_the_last_write_win() {
    let mut storage = MockStorage::new();
    let to: IndexedMapCow<ToIndexList> = IndexedMapCow::new_ref(
        "primary",
        (
            MultiIndexCow::new_ref("primary", "primary_count", by_count as MultiFn),
            (UniqueIndexCow::new_ref("primary_address", by_address as UniqueFn).overwriting(), ()),
        ),
    );
    let first = first();
    let clash = ToIndex { id: 7, count: 9, address: "a".to_string() };

    to.save(&mut storage, &first.id.to_be_bytes(), &to_bytes(&first)).unwrap();
    to.save(&mut storage, &clash.id.to_be_bytes(), &to_bytes(&clash)).unwrap();

    assert_eq!(
        to.index.1 .0.item(&storage, address_key("a")).unwrap(),
        Some((clash.id.to_be_bytes().to_vec(), to_bytes(&clash)))
    );
    assert_eq!(from_bytes(&to.load(&storage, &first.id.to_be_bytes()).unwrap()), first);
    assert_eq!(from_bytes(&to.load(&storage, &clash.id.to_be_bytes()).unwrap()), clash);
}
