use cosmwasm_std::testing::MockStorage;
use storage_extra::codec::{
    bytes_from, decode_u32, encode_length, encode_u32, encode_u64, joined_key, namespace_fits,
    namespaces_with_key, same_bytes, storage_prefix,
};
use storage_extra::helpers::{
    decode_unique_ref, deserialize_multi_kv, deserialize_unique_kv, encode_unique_ref,
};
use storage_extra::prefix::{range_with_prefix, upper_bound};
use storage_extra::{Bound, MapCow, Order, StoreError};

#[test]
fn encode_length_works() {
    assert_eq!(encode_length(b""), *b"\x00\x00");
    assert_eq!(encode_length(b"a"), *b"\x00\x01");
    assert_eq!(encode_length(b"aa"), *b"\x00\x02");
    assert_eq!(encode_length(b"aaa"), *b"\x00\x03");
    assert_eq!(encode_length(&vec![1; 255]), *b"\x00\xff");
    assert_eq!(encode_length(&vec![1; 256]), *b"\x01\x00");
    assert_eq!(encode_length(&vec![1; 12345]), *b"\x30\x39");
    assert_eq!(encode_length(&vec![1; 65535]), *b"\xff\xff");
}

#[test]
fn namespaces_with_key_prefixes_all_but_the_key() {
    assert_eq!(namespaces_with_key(&[], b"key"), b"key".to_vec());
    assert_eq!(namespaces_with_key(&[b"ns"], b"key"), b"\x00\x02nskey".to_vec());
    assert_eq!(namespaces_with_key(&[b"ns", b""], b""), b"\x00\x02ns\x00\x00".to_vec());
    assert_eq!(
        namespaces_with_key(&[b"a", b"bcd"], b"\x00"),
        b"\x00\x01a\x00\x03bcd\x00".to_vec()
    );
}

#[test]
fn a_namespace_fits_up_to_the_greatest_length_of_two_bytes() {
    assert!(namespace_fits(""));
    assert!(namespace_fits("primary"));
    assert!(namespace_fits(&"a".repeat(65535)));
    assert!(!namespace_fits(&"a".repeat(65536)));
    // the bytes count, not the characters
    assert!(namespace_fits(&"\u{e9}".repeat(32767)));
    assert!(!namespace_fits(&"\u{e9}".repeat(32768)));
}

#[test]
fn storage_prefix_prefixes_every_segment() {
    assert_eq!(storage_prefix(b"top", &[]), b"\x00\x03top".to_vec());
    assert_eq!(storage_prefix(b"top", &[b"s", b"tu"]), b"\x00\x03top\x00\x01s\x00\x02tu".to_vec());
}

#[test]
fn joined_key_leaves_the_last_segment_bare() {
    assert_eq!(joined_key(&(vec![], vec![1, 2])), vec![1, 2]);
    assert_eq!(joined_key(&(vec![vec![9]], vec![1, 2])), vec![0, 1, 9, 1, 2]);
}

#[test]
fn lengths_are_four_bytes_big_end_first() {
    assert_eq!(encode_u32(0), vec![0, 0, 0, 0]);
    assert_eq!(encode_u32(8), vec![0, 0, 0, 8]);
    assert_eq!(encode_u32(0x0102_0304), vec![1, 2, 3, 4]);
    assert_eq!(encode_u32(u32::MAX), vec![255, 255, 255, 255]);
    assert_eq!(decode_u32(&[1, 2, 3, 4]), Some(0x0102_0304));
    assert_eq!(decode_u32(&[255, 255, 255, 255]), Some(u32::MAX));
    assert_eq!(decode_u32(&[1, 2, 3]), None);
    assert_eq!(decode_u32(&[1, 2, 3, 4, 5]), None);
    assert_eq!(decode_u32(b"8"), None);
}

#[test]
fn numbers_in_keys_are_eight_bytes_big_end_first() {
    assert_eq!(encode_u64(0), 0u64.to_be_bytes().to_vec());
    assert_eq!(encode_u64(0x0102_0304_0506_0708), vec![1, 2, 3, 4, 5, 6, 7, 8]);
    assert_eq!(encode_u64(u64::MAX), u64::MAX.to_be_bytes().to_vec());
}

#[test]
fn byte_helpers() {
    assert!(same_bytes(b"abc", b"abc"));
    assert!(same_bytes(b"", b""));
    assert!(!same_bytes(b"abc", b"abd"));
    assert!(!same_bytes(b"abc", b"ab"));
    assert_eq!(bytes_from(b"abcdef", 4), b"ef".to_vec());
    assert_eq!(bytes_from(b"abcdef", 6), Vec::<u8>::new());
}

#[test]
fn unique_entries_frame_the_primary_key_and_the_record() {
    assert_eq!(encode_unique_ref(b"pk", b"record"), b"\x00\x00\x00\x02pkrecord".to_vec());
    assert_eq!(
        decode_unique_ref(b"\x00\x00\x00\x02pkrecord"),
        Some((b"pk".to_vec(), b"record".to_vec()))
    );
    assert_eq!(decode_unique_ref(b"\x00\x00\x00\x00"), Some((vec![], vec![])));
    assert_eq!(decode_unique_ref(b"\x00\x00\x00"), None);
    assert_eq!(decode_unique_ref(b"\x00\x00\x00\x03pk"), None);
    assert_eq!(
        deserialize_unique_kv((b"any".to_vec(), b"\x00\x00\x00\x01pr".to_vec())),
        Ok((b"p".to_vec(), b"r".to_vec()))
    );
    assert_eq!(deserialize_unique_kv((b"any".to_vec(), b"xx".to_vec())), Err(StoreError::Deserialize));
}

#[test]
fn multi_entries_lead_to_the_record_of_the_embedded_key() {
    let mut storage = MockStorage::new();
    let table = MapCow::new_ref("t");
    table.save(&mut storage, b"pk", b"record").unwrap();
    assert_eq!(
        deserialize_multi_kv(&storage, b"t", (b"\x00\x01xpk".to_vec(), encode_u32(2))),
        Ok((b"pk".to_vec(), b"record".to_vec()))
    );
    assert_eq!(
        deserialize_multi_kv(&storage, b"t", (b"\x00\x01xpk".to_vec(), encode_u32(1))),
        Err(StoreError::Corruption)
    );
    assert_eq!(
        deserialize_multi_kv(&storage, b"t", (b"pk".to_vec(), encode_u32(3))),
        Err(StoreError::Deserialize)
    );
    assert_eq!(
        deserialize_multi_kv(&storage, b"t", (b"pk".to_vec(), b"2".to_vec())),
        Err(StoreError::Deserialize)
    );
}

#[test]
fn upper_bound_steps_over_trailing_full_bytes() {
    assert_eq!(upper_bound(b""), None);
    assert_eq!(upper_bound(&[255]), None);
    assert_eq!(upper_bound(&[255, 255]), None);
    assert_eq!(upper_bound(&[1]), Some(vec![2]));
    assert_eq!(upper_bound(&[1, 2]), Some(vec![1, 3]));
    assert_eq!(upper_bound(&[1, 255]), Some(vec![2]));
    assert_eq!(upper_bound(&[1, 254, 255, 255]), Some(vec![1, 255]));
}

fn filled() -> MockStorage {
    let mut storage = MockStorage::new();
    for key in [&b"a"[..], b"b", b"b\x00", b"ba", b"bb", b"b\xff", b"b\xff\x00", b"c", b"\xff"] {
        cosmwasm_std::Storage::set(&mut storage, key, key);
    }
    storage
}

fn rests(found: Vec<(Vec<u8>, Vec<u8>)>) -> Vec<Vec<u8>> {
    found.into_iter().map(|kv| kv.0).collect()
}

#[test]
fn range_with_prefix_hands_out_what_starts_with_the_prefix() {
    let storage = filled();
    assert_eq!(
        rests(range_with_prefix(&storage, b"b", None, None, Order::Ascending)),
        vec![b"".to_vec(), b"\x00".to_vec(), b"a".to_vec(), b"b".to_vec(), b"\xff".to_vec(), b"\xff\x00".to_vec()]
    );
    assert_eq!(
        rests(range_with_prefix(&storage, b"b", None, None, Order::Descending)),
        vec![b"\xff\x00".to_vec(), b"\xff".to_vec(), b"b".to_vec(), b"a".to_vec(), b"\x00".to_vec(), b"".to_vec()]
    );
    assert_eq!(
        range_with_prefix(&storage, b"c", None, None, Order::Ascending),
        vec![(b"".to_vec(), b"c".to_vec())]
    );
    assert_eq!(rests(range_with_prefix(&storage, b"d", None, None, Order::Ascending)), Vec::<Vec<u8>>::new());
    assert_eq!(rests(range_with_prefix(&storage, b"", None, None, Order::Ascending)).len(), 9);
}

#[test]
fn range_with_prefix_under_a_prefix_of_full_bytes() {
    let storage = filled();
    assert_eq!(
        rests(range_with_prefix(&storage, b"b\xff", None, None, Order::Ascending)),
        vec![b"".to_vec(), b"\x00".to_vec()]
    );
    assert_eq!(
        rests(range_with_prefix(&storage, b"\xff", None, None, Order::Ascending)),
        vec![b"".to_vec()]
    );
}

#[test]
fn range_with_prefix_keeps_to_the_bounds() {
    let storage = filled();
    let from_a = Some(Bound::inclusive(b"a".to_vec()));
    assert_eq!(
        rests(range_with_prefix(&storage, b"b", from_a, None, Order::Ascending)),
        vec![b"a".to_vec(), b"b".to_vec(), b"\xff".to_vec(), b"\xff\x00".to_vec()]
    );
    let after_a = Some(Bound::exclusive(b"a".to_vec()));
    assert_eq!(
        rests(range_with_prefix(&storage, b"b", after_a, None, Order::Ascending)),
        vec![b"b".to_vec(), b"\xff".to_vec(), b"\xff\x00".to_vec()]
    );
    let to_b = Some(Bound::inclusive(b"b".to_vec()));
    assert_eq!(
        rests(range_with_prefix(&storage, b"b", None, to_b, Order::Descending)),
        vec![b"b".to_vec(), b"a".to_vec(), b"\x00".to_vec(), b"".to_vec()]
    );
    let before_b = Some(Bound::exclusive(b"b".to_vec()));
    assert_eq!(
        rests(range_with_prefix(&storage, b"b", None, before_b, Order::Ascending)),
        vec![b"".to_vec(), b"\x00".to_vec(), b"a".to_vec()]
    );
    let lo = Some(Bound::exclusive(b"".to_vec()));
    let hi = Some(Bound::exclusive(b"\x00".to_vec()));
    assert_eq!(rests(range_with_prefix(&storage, b"b", lo, hi, Order::Ascending)), Vec::<Vec<u8>>::new());
    let lo = Some(Bound::inclusive(b"z".to_vec()));
    let hi = Some(Bound::inclusive(b"a".to_vec()));
    assert_eq!(rests(range_with_prefix(&storage, b"b", lo, hi, Order::Ascending)), Vec::<Vec<u8>>::new());
}

#[test]
fn integer_bounds_are_the_bytes_of_the_number() {
    match Bound::inclusive_int(258) {
        Bound::Inclusive(limit) => assert_eq!(limit, 258u64.to_be_bytes().to_vec()),
        Bound::Exclusive(_) => panic!("an inclusive bound was asked for"),
    }
    match Bound::exclusive_int(1) {
        Bound::Exclusive(limit) => assert_eq!(limit, 1u64.to_be_bytes().to_vec()),
        Bound::Inclusive(_) => panic!("an exclusive bound was asked for"),
    }
}

#[test]
fn errors_describe_themselves() {
    assert_eq!(StoreError::NotFound.message(), "not found");
    assert_eq!(StoreError::Deserialize.message(), "stored bytes do not decode");
    assert_eq!(StoreError::Corruption.message(), "pk not found");
    assert_eq!(StoreError::DuplicateKey.message(), "Violates unique constraint on index");
}

#[test]
fn a_scan_can_be_taken_up_where_it_was_left() {
    let mut storage = MockStorage::new();
    let table = MapCow::new_ref("t");
    for key in [&b"a"[..], b"b", b"c", b"d"] {
        table.save(&mut storage, key, key).unwrap();
    }
    let prefix = table.prefix(&[]);
    let all = prefix.entries(&storage, None, None, Order::Ascending);
    assert_eq!(rests(all.clone()), vec![b"a".to_vec(), b"b".to_vec(), b"c".to_vec(), b"d".to_vec()]);
    // follow the first two, then go on behind the second
    assert_eq!(prefix.load(&storage, all[0].clone()), Ok((b"a".to_vec(), b"a".to_vec())));
    assert_eq!(prefix.load(&storage, all[1].clone()), Ok((b"b".to_vec(), b"b".to_vec())));
    let rest = prefix.entries(&storage, Some(Bound::exclusive(all[1].0.clone())), None, Order::Ascending);
    assert_eq!(rests(rest), vec![b"c".to_vec(), b"d".to_vec()]);
}
