//! What holds of tables and indexes across their operations.

use vstd::prelude::*;
use crate::byte_order::{lemma_lex_lt_asymmetric, lemma_lex_lt_irreflexive};
use crate::codec::{be32_value, joined, key_before, lemma_key_order, segments_fit};
use crate::error::StoreError;
use crate::helpers::{
    custom_kv, embedded_pk, lemma_unique_ref_round_trip, multi_kv, primary_key, unique_kv,
    unique_ref, unique_ref_value,
};
use crate::index::{is_pk, removed_all, IndexList};
use crate::indexed_map_ref::replaced;
use crate::item::{loaded, may_loaded};
use crate::key_fn::recovered;
use crate::plan::{lemma_removed_all, lemma_saved_all, separate_keys};
use crate::prefix::{is_prefix_scan, lower_ok, upper_ok, Limit};
use crate::store::{comes_before, Entries, Order};

verus! {

/// Round trip in a plain table or an item: what was saved under a key is
/// what a load of that key returns.
pub proof fn law_round_trip(entries: Entries, key: Seq<u8>, record: Seq<u8>)
    ensures
        loaded(entries.insert(key, record), key) == Ok::<Seq<u8>, StoreError>(record),
        may_loaded(entries.insert(key, record), key) == Some(record),
{
}

/// Round trip in a table with indexes: after a record has been saved under
/// a primary key, without an index refusing it, a load of that key returns
/// the record, whatever stood there before.
pub proof fn law_indexed_round_trip<I: IndexList>(
    index: I,
    pk_namespace: Seq<u8>,
    entries: Entries,
    pk: Seq<u8>,
    record: Seq<u8>,
    old: Option<Seq<u8>>,
)
    ensures
        ({
            let (next, failure) = replaced(index, pk_namespace, entries, pk, Some(record), old);
            failure is None ==> loaded(next, primary_key(pk_namespace, pk)) == Ok::<
                Seq<u8>,
                StoreError,
            >(record)
        }),
{
}

/// Index completeness, on the way in: after a record has been saved in a
/// table, without an index refusing it, every index that takes the record
/// in holds its entry for it, provided that no two indexes use one key and
/// none uses the key of the table.
pub proof fn law_saved_record_is_indexed<I: IndexList>(
    index: I,
    pk_namespace: Seq<u8>,
    entries: Entries,
    pk: Seq<u8>,
    record: Seq<u8>,
    old: Option<Seq<u8>>,
    i: int,
)
    requires
        separate_keys(index.plan(pk, record), primary_key(pk_namespace, pk)),
        replaced(index, pk_namespace, entries, pk, Some(record), old).1 is None,
        0 <= i < index.plan(pk, record).len(),
        index.plan(pk, record)[i] is Some,
    ensures
        ({
            let next = replaced(index, pk_namespace, entries, pk, Some(record), old).0;
            let entry = index.plan(pk, record)[i]->0;
            next.contains_key(entry.key) && next[entry.key] == entry.value
        }),
{
    let cleared = match old {
        Some(before) => removed_all(entries, index.plan(pk, before)),
        None => entries,
    };
    lemma_saved_all(cleared, index.plan(pk, record), pk, primary_key(pk_namespace, pk));
}

/// Index completeness, on the way out: after the record of a primary key
/// has been removed from a table, no index holds its entry for it any more.
pub proof fn law_removed_record_is_not_indexed<I: IndexList>(
    index: I,
    pk_namespace: Seq<u8>,
    entries: Entries,
    pk: Seq<u8>,
    old: Seq<u8>,
    i: int,
)
    requires
        0 <= i < index.plan(pk, old).len(),
        index.plan(pk, old)[i] is Some,
    ensures
        ({
            let next = replaced(index, pk_namespace, entries, pk, None, Some(old)).0;
            let entry = index.plan(pk, old)[i]->0;
            !next.contains_key(entry.key) && !next.contains_key(primary_key(pk_namespace, pk))
        }),
{
    lemma_removed_all(entries, index.plan(pk, old));
}

/// Up to position `n`, two scans of one store under one prefix hand out
/// the same keys.
proof fn lemma_scans_agree(
    entries: Entries,
    prefix: Seq<u8>,
    start: Limit,
    end: Limit,
    order: Order,
    a: Seq<(Seq<u8>, Seq<u8>)>,
    b: Seq<(Seq<u8>, Seq<u8>)>,
    n: int,
)
    requires
        is_prefix_scan(entries, prefix, start, end, order, a),
        is_prefix_scan(entries, prefix, start, end, order, b),
        0 <= n <= a.len(),
    ensures
        n <= b.len(),
        forall|i: int| 0 <= i < n ==> (#[trigger] a[i]).0 == b[i].0,
    decreases n,
{
    if n > 0 {
        lemma_scans_agree(entries, prefix, start, end, order, a, b, n - 1);
        let i = n - 1;
        let key = a[i].0;
        assert(entries.contains_key(prefix + key));
        let j = choose|j: int| 0 <= j < b.len() && (#[trigger] b[j]).0 == key;
        lemma_lex_lt_irreflexive(key);
        if j < i {
            assert(a[j].0 == b[j].0);
            assert(comes_before(order, a[j].0, a[i].0));
        }
        let other = b[i].0;
        assert(entries.contains_key(prefix + other));
        let k = choose|k: int| 0 <= k < a.len() && (#[trigger] a[k]).0 == other;
        lemma_lex_lt_irreflexive(other);
        if k < i {
            assert(a[k].0 == b[k].0);
            assert(comes_before(order, b[k].0, b[i].0));
        }
        if j > i {
            assert(comes_before(order, b[i].0, b[j].0));
            if k > i {
                assert(comes_before(order, a[i].0, a[k].0));
                lemma_lex_lt_asymmetric(key, other);
            }
        }
    }
}

/// A scan is a function of the store: two scans of one store under one
/// prefix, between the same limits and in the same direction, hand out the
/// same entries in the same order.
pub proof fn law_scan_is_determined(
    entries: Entries,
    prefix: Seq<u8>,
    start: Limit,
    end: Limit,
    order: Order,
    a: Seq<(Seq<u8>, Seq<u8>)>,
    b: Seq<(Seq<u8>, Seq<u8>)>,
)
    requires
        is_prefix_scan(entries, prefix, start, end, order, a),
        is_prefix_scan(entries, prefix, start, end, order, b),
    ensures
        a == b,
{
    lemma_scans_agree(entries, prefix, start, end, order, a, b, a.len() as int);
    lemma_scans_agree(entries, prefix, start, end, order, b, a, b.len() as int);
    assert forall|i: int| 0 <= i < a.len() implies a[i] == b[i] by {
        assert(a[i].0 == b[i].0);
        assert(entries[prefix + a[i].0] == a[i].1);
        assert(entries[prefix + b[i].0] == b[i].1);
    }
    assert(a =~= b);
}

/// Ordering law: a scan hands out the entries of an index in the order of
/// their index keys, which stand first by their leading segments, the
/// derived key, and under one derived key by their last segment, the
/// primary key; a descending scan reverses both.
pub proof fn law_scan_order(
    entries: Entries,
    prefix: Seq<u8>,
    start: Limit,
    end: Limit,
    order: Order,
    raw: Seq<(Seq<u8>, Seq<u8>)>,
    i: int,
    j: int,
    a: (Seq<Seq<u8>>, Seq<u8>),
    b: (Seq<Seq<u8>>, Seq<u8>),
)
    requires
        is_prefix_scan(entries, prefix, start, end, order, raw),
        0 <= i < j < raw.len(),
        raw[i].0 == joined(a),
        raw[j].0 == joined(b),
        a.0.len() == b.0.len(),
        segments_fit(a.0),
        segments_fit(b.0),
    ensures
        match order {
            Order::Ascending => key_before(a, b),
            Order::Descending => key_before(b, a),
        },
{
    assert(comes_before(order, raw[i].0, raw[j].0));
    lemma_key_order(a, b);
    lemma_key_order(b, a);
}

/// Under `prefix`, every entry holds the length of what follows the prefix
/// in its key: the primary key is all that follows. A multi-index that puts
/// the primary key at the end of its keys keeps its entries so under the
/// leading segments of each key.
pub open spec fn whole_keys(entries: Entries, prefix: Seq<u8>) -> bool {
    forall|rest: Seq<u8>| #[trigger]
        entries.contains_key(prefix + rest) ==> be32_value(entries[prefix + rest]) == Some(rest.len())
}

/// Index completeness, in a scan: where the table holds a record and a
/// multi-index its entry for it, a scan of the index under the leading
/// segments of the index key, between limits that admit the primary key,
/// hands out the primary key with the record, and hands out that primary
/// key once only.
pub proof fn law_scan_finds_record_once(
    entries: Entries,
    prefix: Seq<u8>,
    pk_namespace: Seq<u8>,
    pk: Seq<u8>,
    record: Seq<u8>,
    start: Limit,
    end: Limit,
    order: Order,
    raw: Seq<(Seq<u8>, Seq<u8>)>,
)
    requires
        whole_keys(entries, prefix),
        entries.contains_key(prefix + pk),
        entries.contains_key(primary_key(pk_namespace, pk)),
        entries[primary_key(pk_namespace, pk)] == record,
        lower_ok(pk, start),
        upper_ok(pk, end),
        is_prefix_scan(entries, prefix, start, end, order, raw),
    ensures
        exists|i: int|
            0 <= i < raw.len() && multi_kv(entries, pk_namespace, #[trigger] raw[i]) == Ok::<
                (Seq<u8>, Seq<u8>),
                StoreError,
            >((pk, record)) && forall|j: int|
                0 <= j < raw.len() && (multi_kv(entries, pk_namespace, #[trigger] raw[j]) matches Ok(found)
                    && found.0 == pk) ==> j == i,
{
    let i = choose|i: int| 0 <= i < raw.len() && (#[trigger] raw[i]).0 == pk;
    assert(entries.contains_key(prefix + raw[i].0));
    assert(pk.subrange(0, pk.len() as int) =~= pk);
    assert(embedded_pk(raw[i]) == Some(pk));
    assert forall|j: int|
        0 <= j < raw.len() && (multi_kv(entries, pk_namespace, #[trigger] raw[j]) matches Ok(found)
            && found.0 == pk) implies j == i by {
        let rest = raw[j].0;
        assert(entries.contains_key(prefix + rest));
        assert(rest.subrange(0, rest.len() as int) =~= rest);
        assert(embedded_pk(raw[j]) == Some(rest));
        lemma_lex_lt_irreflexive(pk);
        if j < i {
            assert(comes_before(order, raw[j].0, raw[i].0));
        } else if i < j {
            assert(comes_before(order, raw[i].0, raw[j].0));
        }
    }
}

/// Index completeness, in a scan of a multi-index with a recovery
/// function: the index key of the record ends in `embedded`, which the
/// function takes back to the primary key. Where the table holds the
/// record and the index its entry, a scan under the leading segments of
/// the index key, between limits that admit `embedded`, hands out the
/// primary key with the record, and hands out that primary key once only,
/// provided that the function takes no two ends of keys to one primary key.
pub proof fn law_custom_scan_finds_record_once<G: Fn(Vec<u8>) -> Vec<u8>>(
    entries: Entries,
    prefix: Seq<u8>,
    pk_namespace: Seq<u8>,
    pk: Seq<u8>,
    record: Seq<u8>,
    embedded: Seq<u8>,
    pk_fn: G,
    start: Limit,
    end: Limit,
    order: Order,
    raw: Seq<(Seq<u8>, Seq<u8>)>,
)
    requires
        whole_keys(entries, prefix),
        entries.contains_key(prefix + embedded),
        recovered(pk_fn, embedded) == pk,
        forall|a: Seq<u8>, b: Seq<u8>|
            #[trigger] recovered(pk_fn, a) == #[trigger] recovered(pk_fn, b) ==> a == b,
        entries.contains_key(primary_key(pk_namespace, pk)),
        entries[primary_key(pk_namespace, pk)] == record,
        lower_ok(embedded, start),
        upper_ok(embedded, end),
        is_prefix_scan(entries, prefix, start, end, order, raw),
    ensures
        exists|i: int|
            0 <= i < raw.len() && custom_kv(entries, pk_namespace, #[trigger] raw[i], pk_fn) == Ok::<
                (Seq<u8>, Seq<u8>),
                StoreError,
            >((pk, record)) && forall|j: int|
                0 <= j < raw.len() && (custom_kv(entries, pk_namespace, #[trigger] raw[j], pk_fn) matches Ok(
                    found,
                ) && found.0 == pk) ==> j == i,
{
    let i = choose|i: int| 0 <= i < raw.len() && (#[trigger] raw[i]).0 == embedded;
    assert(entries.contains_key(prefix + raw[i].0));
    assert(embedded.subrange(0, embedded.len() as int) =~= embedded);
    assert(embedded_pk(raw[i]) == Some(embedded));
    assert forall|j: int|
        0 <= j < raw.len() && (custom_kv(entries, pk_namespace, #[trigger] raw[j], pk_fn) matches Ok(
            found,
        ) && found.0 == pk) implies j == i by {
        let rest = raw[j].0;
        assert(entries.contains_key(prefix + rest));
        assert(rest.subrange(0, rest.len() as int) =~= rest);
        assert(embedded_pk(raw[j]) == Some(rest));
        assert(recovered(pk_fn, rest) == recovered(pk_fn, embedded));
        lemma_lex_lt_irreflexive(embedded);
        if j < i {
            assert(comes_before(order, raw[j].0, raw[i].0));
        } else if i < j {
            assert(comes_before(order, raw[i].0, raw[j].0));
        }
    }
}

/// Under `prefix`, no two entries of a unique index hold one primary key.
pub open spec fn distinct_owners(entries: Entries, prefix: Seq<u8>) -> bool {
    forall|a: Seq<u8>, b: Seq<u8>|
        #[trigger] entries.contains_key(prefix + a) && #[trigger] entries.contains_key(prefix + b)
            && unique_ref_value(entries[prefix + a]) is Some && unique_ref_value(entries[prefix + a])
            == unique_ref_value(entries[prefix + b]) ==> a == b
}

/// Index completeness, in a scan of a unique index: where the index holds
/// its entry for a record, a scan under a prefix of the entry's key,
/// between limits that admit the rest of the key, hands out the primary
/// key with the record, and hands it out once only where no two entries
/// under the prefix hold the same.
pub proof fn law_unique_scan_finds_record_once(
    entries: Entries,
    prefix: Seq<u8>,
    rest: Seq<u8>,
    pk: Seq<u8>,
    record: Seq<u8>,
    start: Limit,
    end: Limit,
    order: Order,
    raw: Seq<(Seq<u8>, Seq<u8>)>,
)
    requires
        is_pk(pk),
        entries.contains_key(prefix + rest),
        entries[prefix + rest] == unique_ref(pk, record),
        distinct_owners(entries, prefix),
        lower_ok(rest, start),
        upper_ok(rest, end),
        is_prefix_scan(entries, prefix, start, end, order, raw),
    ensures
        exists|i: int|
            0 <= i < raw.len() && unique_kv(#[trigger] raw[i]) == Ok::<(Seq<u8>, Seq<u8>), StoreError>(
                (pk, record),
            ) && forall|j: int|
                0 <= j < raw.len() && unique_kv(#[trigger] raw[j]) == Ok::<
                    (Seq<u8>, Seq<u8>),
                    StoreError,
                >((pk, record)) ==> j == i,
{
    let i = choose|i: int| 0 <= i < raw.len() && (#[trigger] raw[i]).0 == rest;
    lemma_unique_ref_round_trip(pk, record);
    assert(entries.contains_key(prefix + raw[i].0));
    assert forall|j: int|
        0 <= j < raw.len() && unique_kv(#[trigger] raw[j]) == Ok::<(Seq<u8>, Seq<u8>), StoreError>(
            (pk, record),
        ) implies j == i by {
        assert(entries.contains_key(prefix + raw[j].0));
        assert(raw[j].0 == rest);
        lemma_lex_lt_irreflexive(rest);
        if j < i {
            assert(comes_before(order, raw[j].0, raw[i].0));
        } else if i < j {
            assert(comes_before(order, raw[i].0, raw[j].0));
        }
    }
}

} // verus!
