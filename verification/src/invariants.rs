//! What stays true of the entries of an index while records come and go:
//! the conditions under which a scan finds every record once.

use vstd::prelude::*;
use crate::byte_order::{lemma_part_ways_order, lemma_same_behind_prefix};
use crate::codec::{
    be32_value, composite_key, joined, lemma_be32_round_trip, lemma_length_prefixed_part_ways,
    lemma_namespaces_part_ways, lemma_namespaces_prefix_concat, lemma_namespaces_prefix_one,
    name_bytes, namespaces_prefix, segments_fit, IndexKey, MAX_SEGMENT_LEN,
};
use crate::custom_dese_index::CustomDeseMultiIndex;
use crate::error::StoreError;
use crate::helpers::{
    custom_kv, lemma_unique_ref_round_trip, multi_kv, primary_key, unique_kv, unique_ref_value,
};
use crate::index::{
    is_pk, multi_entry, removed_all, saved, saved_all, unique_entry, Index, IndexEntry, IndexList,
};
use crate::indexed_map::{IndexedMapCow, MultiIndexCow, UniqueIndexCow};
use crate::indexed_map_ref::replaced;
use crate::key_fn::{recovered, unique_key};
use crate::laws::{
    distinct_owners, law_custom_scan_finds_record_once, law_indexed_round_trip,
    law_saved_record_is_indexed, law_scan_finds_record_once, law_unique_scan_finds_record_once,
    whole_keys,
};
use crate::plan::{lemma_removed_all, lemma_saved_all_is_not_refused, separate_keys};
use crate::prefix::{is_prefix_scan, lower_ok, upper_ok, Limit};
use crate::store::{Entries, Order};

verus! {

/// A key under one namespace does not lie under a prefix in another.
pub proof fn lemma_other_namespace(
    namespace: Seq<u8>,
    key: Seq<u8>,
    scan_namespace: Seq<u8>,
    scan_segments: Seq<Seq<u8>>,
)
    requires
        namespace != scan_namespace,
        namespace.len() <= MAX_SEGMENT_LEN,
        scan_namespace.len() <= MAX_SEGMENT_LEN,
    ensures
        forall|rest: Seq<u8>|
            composite_key(seq![namespace], key) != #[trigger] (namespaces_prefix(
                seq![scan_namespace] + scan_segments,
            ) + rest),
{
    let prefix = namespaces_prefix(seq![scan_namespace] + scan_segments);
    lemma_namespaces_prefix_concat(seq![scan_namespace], scan_segments);
    lemma_namespaces_prefix_one(namespace);
    lemma_namespaces_prefix_one(scan_namespace);
    lemma_length_prefixed_part_ways(namespace, scan_namespace);
    assert forall|rest: Seq<u8>| composite_key(seq![namespace], key) != #[trigger] (prefix + rest) by {
        let own = namespaces_prefix(seq![namespace]);
        let other = namespaces_prefix(seq![scan_namespace]);
        lemma_part_ways_order(own, other, key, namespaces_prefix(scan_segments) + rest);
        assert(prefix + rest =~= other + (namespaces_prefix(scan_segments) + rest));
    }
}

/// The entry, if it lies under `prefix`, holds the length of what follows
/// the prefix in its key.
pub open spec fn keeps_whole_keys(entry: Option<IndexEntry>, prefix: Seq<u8>) -> bool {
    entry matches Some(e) ==> forall|rest: Seq<u8>|
        e.key == #[trigger] (prefix + rest) ==> be32_value(e.value) == Some(rest.len())
}

/// Saving the entries of a plan keeps `whole_keys` where each entry does.
pub proof fn lemma_saved_all_whole_keys(
    entries: Entries,
    plan: Seq<Option<IndexEntry>>,
    pk: Seq<u8>,
    prefix: Seq<u8>,
)
    requires
        whole_keys(entries, prefix),
        forall|i: int| 0 <= i < plan.len() ==> keeps_whole_keys(#[trigger] plan[i], prefix),
    ensures
        whole_keys(saved_all(entries, plan, pk).0, prefix),
    decreases plan.len(),
{
    if plan.len() > 0 {
        match saved(entries, plan[0], pk) {
            Ok(first) => {
                assert(keeps_whole_keys(plan[0], prefix));
                assert(whole_keys(first, prefix)) by {
                    assert forall|rest: Seq<u8>| #[trigger]
                        first.contains_key(prefix + rest) implies be32_value(first[prefix + rest])
                        == Some(rest.len()) by {
                        if plan[0] is Some && plan[0]->0.key == prefix + rest {
                        } else {
                            assert(entries.contains_key(prefix + rest));
                        }
                    }
                }
                let rest_plan = plan.skip(1);
                assert forall|i: int| 0 <= i < rest_plan.len() implies keeps_whole_keys(
                    #[trigger] rest_plan[i],
                    prefix,
                ) by {
                    assert(rest_plan[i] == plan[i + 1]);
                }
                lemma_saved_all_whole_keys(first, rest_plan, pk, prefix);
            },
            Err(_) => {},
        }
    }
}

/// A change to the record of a primary key keeps `whole_keys` under a
/// prefix, where each index entry of the new record does and the key of
/// the table does not lie under the prefix.
pub proof fn law_replace_keeps_whole_keys<I: IndexList>(
    index: I,
    pk_namespace: Seq<u8>,
    entries: Entries,
    pk: Seq<u8>,
    new: Option<Seq<u8>>,
    old: Option<Seq<u8>>,
    prefix: Seq<u8>,
)
    requires
        whole_keys(entries, prefix),
        new matches Some(record) ==> forall|i: int|
            0 <= i < index.plan(pk, record).len() ==> keeps_whole_keys(
                #[trigger] index.plan(pk, record)[i],
                prefix,
            ),
        forall|rest: Seq<u8>| primary_key(pk_namespace, pk) != #[trigger] (prefix + rest),
    ensures
        whole_keys(replaced(index, pk_namespace, entries, pk, new, old).0, prefix),
{
    let cleared = match old {
        Some(before) => removed_all(entries, index.plan(pk, before)),
        None => entries,
    };
    if let Some(before) = old {
        lemma_removed_all(entries, index.plan(pk, before));
    }
    assert(whole_keys(cleared, prefix)) by {
        assert forall|rest: Seq<u8>| #[trigger]
            cleared.contains_key(prefix + rest) implies be32_value(cleared[prefix + rest]) == Some(
            rest.len(),
        ) by {
            assert(entries.contains_key(prefix + rest));
        }
    }
    let next = replaced(index, pk_namespace, entries, pk, new, old).0;
    match new {
        Some(record) => {
            lemma_saved_all_whole_keys(cleared, index.plan(pk, record), pk, prefix);
            let indexed = saved_all(cleared, index.plan(pk, record), pk).0;
            assert forall|rest: Seq<u8>| #[trigger]
                next.contains_key(prefix + rest) implies be32_value(next[prefix + rest]) == Some(
                rest.len(),
            ) by {
                assert(primary_key(pk_namespace, pk) != prefix + rest);
                assert(indexed.contains_key(prefix + rest));
            }
        },
        None => {
            assert forall|rest: Seq<u8>| #[trigger]
                next.contains_key(prefix + rest) implies be32_value(next[prefix + rest]) == Some(
                rest.len(),
            ) by {
                assert(cleared.contains_key(prefix + rest));
            }
        },
    }
}

/// The entry of a multi-index whose key ends in the primary key, or in as
/// many bytes made of it, keeps `whole_keys` under the leading segments of
/// any key of as many segments, in its own namespace or another.
pub proof fn lemma_multi_entry_keeps_whole_keys(
    idx_namespace: Seq<u8>,
    key: (Seq<Seq<u8>>, Seq<u8>),
    pk: Seq<u8>,
    scan_namespace: Seq<u8>,
    scan_segments: Seq<Seq<u8>>,
)
    requires
        key.1.len() == pk.len(),
        is_pk(pk),
        key.0.len() == scan_segments.len(),
        idx_namespace.len() <= MAX_SEGMENT_LEN,
        scan_namespace.len() <= MAX_SEGMENT_LEN,
        segments_fit(key.0),
        segments_fit(scan_segments),
    ensures
        keeps_whole_keys(
            Some(multi_entry(idx_namespace, key, pk)),
            namespaces_prefix(seq![scan_namespace] + scan_segments),
        ),
{
    let entry = multi_entry(idx_namespace, key, pk);
    let own = seq![idx_namespace] + key.0;
    let scanned = seq![scan_namespace] + scan_segments;
    let prefix = namespaces_prefix(scanned);
    lemma_namespaces_prefix_concat(seq![idx_namespace], key.0);
    assert(entry.key =~= namespaces_prefix(own) + key.1);
    lemma_be32_round_trip(pk.len());
    assert forall|rest: Seq<u8>| entry.key == #[trigger] (prefix + rest) implies be32_value(entry.value)
        == Some(rest.len()) by {
        if own == scanned {
            lemma_same_behind_prefix(prefix, key.1, rest);
        } else {
            assert forall|i: int| 0 <= i < own.len() implies (#[trigger] own[i]).len()
                <= MAX_SEGMENT_LEN by {
                if i > 0 {
                    assert(own[i] == key.0[i - 1]);
                }
            }
            assert forall|i: int| 0 <= i < scanned.len() implies (#[trigger] scanned[i]).len()
                <= MAX_SEGMENT_LEN by {
                if i > 0 {
                    assert(scanned[i] == scan_segments[i - 1]);
                }
            }
            lemma_namespaces_part_ways(own, scanned);
            lemma_part_ways_order(namespaces_prefix(own), prefix, key.1, rest);
        }
    }
}

/// Index completeness for a table with one multi-index that has a recovery
/// function, in a namespace other than that of the table. The key function
/// ends the index key of a record in bytes made of the primary key, as many
/// as the primary key has, which the recovery function takes back to the
/// primary key, and no two ends of keys to one primary key; without a
/// recovery function, the index key ends in the primary key itself. After
/// the record has been saved, a scan of the index under the leading
/// segments of the record's index key, between limits that admit the end
/// of the index key, hands out the primary key with the record, and hands
/// out that primary key once only. It is enough that before the change
/// every entry under those segments held the length of what follows them,
/// as the entries of such an index do.
pub proof fn law_custom_index_complete<F: Fn(&[u8], Vec<u8>) -> IndexKey, G: Fn(Vec<u8>) -> Vec<u8>>(
    map: IndexedMapCow<(CustomDeseMultiIndex<F, G>, ())>,
    entries: Entries,
    pk: Seq<u8>,
    record: Seq<u8>,
    old: Option<Seq<u8>>,
    start: Limit,
    end: Limit,
    order: Order,
    raw: Seq<(Seq<u8>, Seq<u8>)>,
)
    requires
        is_pk(pk),
        name_bytes(map.pk_namespace@).len() <= MAX_SEGMENT_LEN,
        name_bytes(map.index.0.idx_namespace@).len() <= MAX_SEGMENT_LEN,
        name_bytes(map.index.0.idx_namespace@) != name_bytes(map.pk_namespace@),
        segments_fit(map.index.0.key_of(pk, record).0),
        map.index.0.key_of(pk, record).1.len() == pk.len(),
        match map.index.0.dese_fn {
            Some(g) => recovered(g, map.index.0.key_of(pk, record).1) == pk && forall|
                a: Seq<u8>,
                b: Seq<u8>,
            | #[trigger] recovered(g, a) == #[trigger] recovered(g, b) ==> a == b,
            None => map.index.0.key_of(pk, record).1 == pk,
        },
        whole_keys(
            entries,
            namespaces_prefix(
                seq![name_bytes(map.index.0.idx_namespace@)] + map.index.0.key_of(pk, record).0,
            ),
        ),
        lower_ok(map.index.0.key_of(pk, record).1, start),
        upper_ok(map.index.0.key_of(pk, record).1, end),
        is_prefix_scan(
            map.replaced(entries, pk, Some(record), old).0,
            namespaces_prefix(
                seq![name_bytes(map.index.0.idx_namespace@)] + map.index.0.key_of(pk, record).0,
            ),
            start,
            end,
            order,
            raw,
        ),
    ensures
        map.replaced(entries, pk, Some(record), old).1 is None,
        ({
            let next = map.replaced(entries, pk, Some(record), old).0;
            let pk_namespace = name_bytes(map.pk_namespace@);
            match map.index.0.dese_fn {
                Some(g) => exists|at: int|
                    0 <= at < raw.len() && custom_kv(next, pk_namespace, #[trigger] raw[at], g) == Ok::<
                        (Seq<u8>, Seq<u8>),
                        StoreError,
                    >((pk, record)) && forall|j: int|
                        0 <= j < raw.len() && (custom_kv(next, pk_namespace, #[trigger] raw[j], g) matches Ok(
                            found,
                        ) && found.0 == pk) ==> j == at,
                None => exists|at: int|
                    0 <= at < raw.len() && multi_kv(next, pk_namespace, #[trigger] raw[at]) == Ok::<
                        (Seq<u8>, Seq<u8>),
                        StoreError,
                    >((pk, record)) && forall|j: int|
                        0 <= j < raw.len() && (multi_kv(next, pk_namespace, #[trigger] raw[j]) matches Ok(
                            found,
                        ) && found.0 == pk) ==> j == at,
            }
        }),
{
    let idx_namespace = name_bytes(map.index.0.idx_namespace@);
    let pk_namespace = name_bytes(map.pk_namespace@);
    let key = map.index.0.key_of(pk, record);
    let prefix = namespaces_prefix(seq![idx_namespace] + key.0);
    let plan = map.index.plan(pk, record);
    let entry = multi_entry(idx_namespace, key, pk);
    let next = map.replaced(entries, pk, Some(record), old).0;
    assert(plan =~= seq![Some(entry)]);
    lemma_namespaces_prefix_concat(seq![idx_namespace], key.0);
    assert(entry.key =~= prefix + key.1);
    lemma_other_namespace(pk_namespace, pk, idx_namespace, key.0);
    assert(separate_keys(plan, primary_key(pk_namespace, pk)));
    lemma_multi_entry_keeps_whole_keys(idx_namespace, key, pk, idx_namespace, key.0);
    let after = match old {
        Some(before) => removed_all(entries, map.index.plan(pk, before)),
        None => entries,
    };
    lemma_saved_all_is_not_refused(after, plan, pk);
    law_saved_record_is_indexed(map.index, pk_namespace, entries, pk, record, old, 0);
    law_indexed_round_trip(map.index, pk_namespace, entries, pk, record, old);
    law_replace_keeps_whole_keys(map.index, pk_namespace, entries, pk, Some(record), old, prefix);
    match map.index.0.dese_fn {
        Some(g) => {
            law_custom_scan_finds_record_once(
                next,
                prefix,
                pk_namespace,
                pk,
                record,
                key.1,
                g,
                start,
                end,
                order,
                raw,
            );
        },
        None => {
            law_scan_finds_record_once(next, prefix, pk_namespace, pk, record, start, end, order, raw);
        },
    }
}

/// Every entry of a unique index stands under the index key of the record
/// that it holds.
pub open spec fn placed<F: Fn(&[u8]) -> IndexKey>(entries: Entries, idx_namespace: Seq<u8>, idx_fn: F) -> bool {
    forall|below: Seq<u8>| #[trigger]
        entries.contains_key(composite_key(seq![idx_namespace], below)) ==> (unique_ref_value(
            entries[composite_key(seq![idx_namespace], below)],
        ) matches Some(owner) ==> below == joined(unique_key(idx_fn, owner.1)))
}

/// The entry, if it lies in the namespace of the unique index, stands under
/// the index key of the record that it holds.
pub open spec fn keeps_placed<F: Fn(&[u8]) -> IndexKey>(
    entry: Option<IndexEntry>,
    idx_namespace: Seq<u8>,
    idx_fn: F,
) -> bool {
    entry matches Some(e) ==> forall|below: Seq<u8>|
        e.key == #[trigger] composite_key(seq![idx_namespace], below) ==> (unique_ref_value(e.value) matches Some(
            owner,
        ) ==> below == joined(unique_key(idx_fn, owner.1)))
}

/// Where every entry of a unique index stands under the index key of its
/// record, no two entries under a prefix in the index hold the same.
pub proof fn lemma_placed_owners_are_distinct<F: Fn(&[u8]) -> IndexKey>(
    entries: Entries,
    idx_namespace: Seq<u8>,
    idx_fn: F,
    segments: Seq<Seq<u8>>,
)
    requires
        placed(entries, idx_namespace, idx_fn),
    ensures
        distinct_owners(entries, namespaces_prefix(seq![idx_namespace] + segments)),
{
    let prefix = namespaces_prefix(seq![idx_namespace] + segments);
    let under = namespaces_prefix(segments);
    lemma_namespaces_prefix_concat(seq![idx_namespace], segments);
    assert forall|a: Seq<u8>, b: Seq<u8>|
        #[trigger] entries.contains_key(prefix + a) && #[trigger] entries.contains_key(prefix + b)
            && unique_ref_value(entries[prefix + a]) is Some && unique_ref_value(entries[prefix + a])
            == unique_ref_value(entries[prefix + b]) implies a == b by {
        assert(prefix + a =~= composite_key(seq![idx_namespace], under + a));
        assert(prefix + b =~= composite_key(seq![idx_namespace], under + b));
        assert(entries.contains_key(composite_key(seq![idx_namespace], under + a)));
        assert(entries.contains_key(composite_key(seq![idx_namespace], under + b)));
        lemma_same_behind_prefix(under, a, b);
    }
}

/// The entry of a unique index stands under the index key of its record.
pub proof fn lemma_unique_entry_keeps_placed<F: Fn(&[u8]) -> IndexKey>(
    idx_namespace: Seq<u8>,
    idx_fn: F,
    pk: Seq<u8>,
    record: Seq<u8>,
    reject: bool,
)
    requires
        is_pk(pk),
    ensures
        keeps_placed(
            Some(unique_entry(idx_namespace, unique_key(idx_fn, record), pk, record, reject)),
            idx_namespace,
            idx_fn,
        ),
{
    let entry = unique_entry(idx_namespace, unique_key(idx_fn, record), pk, record, reject);
    lemma_unique_ref_round_trip(pk, record);
    assert forall|below: Seq<u8>|
        entry.key == #[trigger] composite_key(seq![idx_namespace], below) implies (unique_ref_value(
        entry.value,
    ) matches Some(owner) ==> below == joined(unique_key(idx_fn, owner.1))) by {
        lemma_same_behind_prefix(
            namespaces_prefix(seq![idx_namespace]),
            joined(unique_key(idx_fn, record)),
            below,
        );
    }
}

/// An entry in another namespace does not touch the entries of a unique index.
pub proof fn lemma_other_entry_keeps_placed<F: Fn(&[u8]) -> IndexKey>(
    entry: IndexEntry,
    namespace: Seq<u8>,
    below: Seq<u8>,
    idx_namespace: Seq<u8>,
    idx_fn: F,
)
    requires
        entry.key == composite_key(seq![namespace], below),
        namespace != idx_namespace,
        namespace.len() <= MAX_SEGMENT_LEN,
        idx_namespace.len() <= MAX_SEGMENT_LEN,
    ensures
        keeps_placed(Some(entry), idx_namespace, idx_fn),
{
    lemma_other_namespace(namespace, below, idx_namespace, Seq::<Seq<u8>>::empty());
    assert(seq![idx_namespace] + Seq::<Seq<u8>>::empty() =~= seq![idx_namespace]);
    assert forall|under: Seq<u8>| entry.key == #[trigger] composite_key(seq![idx_namespace], under) implies (
    unique_ref_value(entry.value) matches Some(owner) ==> under == joined(unique_key(idx_fn, owner.1))) by {
        assert(composite_key(seq![idx_namespace], under) == namespaces_prefix(
            seq![idx_namespace] + Seq::<Seq<u8>>::empty(),
        ) + under);
    }
}

/// Saving the entries of a plan keeps `placed` where each entry does.
pub proof fn lemma_saved_all_placed<F: Fn(&[u8]) -> IndexKey>(
    entries: Entries,
    plan: Seq<Option<IndexEntry>>,
    pk: Seq<u8>,
    idx_namespace: Seq<u8>,
    idx_fn: F,
)
    requires
        placed(entries, idx_namespace, idx_fn),
        forall|i: int| 0 <= i < plan.len() ==> keeps_placed(#[trigger] plan[i], idx_namespace, idx_fn),
    ensures
        placed(saved_all(entries, plan, pk).0, idx_namespace, idx_fn),
    decreases plan.len(),
{
    if plan.len() > 0 {
        match saved(entries, plan[0], pk) {
            Ok(first) => {
                assert(keeps_placed(plan[0], idx_namespace, idx_fn));
                assert(placed(first, idx_namespace, idx_fn)) by {
                    assert forall|below: Seq<u8>| #[trigger]
                        first.contains_key(composite_key(seq![idx_namespace], below)) implies (unique_ref_value(
                        first[composite_key(seq![idx_namespace], below)],
                    ) matches Some(owner) ==> below == joined(unique_key(idx_fn, owner.1))) by {
                        if plan[0] is Some && plan[0]->0.key == composite_key(
                            seq![idx_namespace],
                            below,
                        ) {
                        } else {
                            assert(entries.contains_key(composite_key(seq![idx_namespace], below)));
                        }
                    }
                }
                let rest_plan = plan.skip(1);
                assert forall|i: int| 0 <= i < rest_plan.len() implies keeps_placed(
                    #[trigger] rest_plan[i],
                    idx_namespace,
                    idx_fn,
                ) by {
                    assert(rest_plan[i] == plan[i + 1]);
                }
                lemma_saved_all_placed(first, rest_plan, pk, idx_namespace, idx_fn);
            },
            Err(_) => {},
        }
    }
}

/// A change to the record of a primary key keeps the entries of a unique
/// index under the index keys of their records, where each index entry of
/// the new record does and the table lies in another namespace.
pub proof fn law_replace_keeps_placed<I: IndexList, F: Fn(&[u8]) -> IndexKey>(
    index: I,
    pk_namespace: Seq<u8>,
    entries: Entries,
    pk: Seq<u8>,
    new: Option<Seq<u8>>,
    old: Option<Seq<u8>>,
    idx_namespace: Seq<u8>,
    idx_fn: F,
)
    requires
        placed(entries, idx_namespace, idx_fn),
        new matches Some(record) ==> forall|i: int|
            0 <= i < index.plan(pk, record).len() ==> keeps_placed(
                #[trigger] index.plan(pk, record)[i],
                idx_namespace,
                idx_fn,
            ),
        pk_namespace != idx_namespace,
        pk_namespace.len() <= MAX_SEGMENT_LEN,
        idx_namespace.len() <= MAX_SEGMENT_LEN,
    ensures
        placed(replaced(index, pk_namespace, entries, pk, new, old).0, idx_namespace, idx_fn),
{
    let cleared = match old {
        Some(before) => removed_all(entries, index.plan(pk, before)),
        None => entries,
    };
    if let Some(before) = old {
        lemma_removed_all(entries, index.plan(pk, before));
    }
    assert(placed(cleared, idx_namespace, idx_fn)) by {
        assert forall|below: Seq<u8>| #[trigger]
            cleared.contains_key(composite_key(seq![idx_namespace], below)) implies (unique_ref_value(
            cleared[composite_key(seq![idx_namespace], below)],
        ) matches Some(owner) ==> below == joined(unique_key(idx_fn, owner.1))) by {
            assert(entries.contains_key(composite_key(seq![idx_namespace], below)));
        }
    }
    let next = replaced(index, pk_namespace, entries, pk, new, old).0;
    lemma_other_namespace(pk_namespace, pk, idx_namespace, Seq::<Seq<u8>>::empty());
    assert(seq![idx_namespace] + Seq::<Seq<u8>>::empty() =~= seq![idx_namespace]);
    assert forall|below: Seq<u8>|
        primary_key(pk_namespace, pk) != #[trigger] composite_key(seq![idx_namespace], below) by {
        assert(composite_key(seq![idx_namespace], below) == namespaces_prefix(
            seq![idx_namespace] + Seq::<Seq<u8>>::empty(),
        ) + below);
    }
    match new {
        Some(record) => {
            lemma_saved_all_placed(cleared, index.plan(pk, record), pk, idx_namespace, idx_fn);
            let indexed = saved_all(cleared, index.plan(pk, record), pk).0;
            assert forall|below: Seq<u8>| #[trigger]
                next.contains_key(composite_key(seq![idx_namespace], below)) implies (unique_ref_value(
                next[composite_key(seq![idx_namespace], below)],
            ) matches Some(owner) ==> below == joined(unique_key(idx_fn, owner.1))) by {
                assert(indexed.contains_key(composite_key(seq![idx_namespace], below)));
            }
        },
        None => {
            assert forall|below: Seq<u8>| #[trigger]
                next.contains_key(composite_key(seq![idx_namespace], below)) implies (unique_ref_value(
                next[composite_key(seq![idx_namespace], below)],
            ) matches Some(owner) ==> below == joined(unique_key(idx_fn, owner.1))) by {
                assert(cleared.contains_key(composite_key(seq![idx_namespace], below)));
            }
        },
    }
}

/// Index completeness for a table with a multi-index and, behind it, a
/// unique index, each in a namespace of its own: after a record has been
/// saved, without the unique index refusing it, a scan of the unique index
/// under the leading segments of the record's index key, between limits
/// that admit the last segment, hands out the primary key with the record,
/// and hands it out once only. It is enough that before the change every
/// entry of the unique index stood under the index key of its record, as
/// the entries that the index writes do.
pub proof fn law_unique_index_complete<F: Fn(&[u8], Vec<u8>) -> IndexKey, U: Fn(&[u8]) -> IndexKey>(
    map: IndexedMapCow<(MultiIndexCow<F>, (UniqueIndexCow<U>, ()))>,
    entries: Entries,
    pk: Seq<u8>,
    record: Seq<u8>,
    old: Option<Seq<u8>>,
    start: Limit,
    end: Limit,
    order: Order,
    raw: Seq<(Seq<u8>, Seq<u8>)>,
)
    requires
        is_pk(pk),
        name_bytes(map.pk_namespace@).len() <= MAX_SEGMENT_LEN,
        name_bytes(map.index.0.idx_namespace@).len() <= MAX_SEGMENT_LEN,
        name_bytes(map.index.1.0.idx_namespace@).len() <= MAX_SEGMENT_LEN,
        name_bytes(map.index.1.0.idx_namespace@) != name_bytes(map.index.0.idx_namespace@),
        name_bytes(map.index.1.0.idx_namespace@) != name_bytes(map.pk_namespace@),
        name_bytes(map.index.0.idx_namespace@) != name_bytes(map.pk_namespace@),
        placed(entries, name_bytes(map.index.1.0.idx_namespace@), map.index.1.0.idx_fn),
        map.replaced(entries, pk, Some(record), old).1 is None,
        lower_ok(map.index.1.0.key_of(record).1, start),
        upper_ok(map.index.1.0.key_of(record).1, end),
        is_prefix_scan(
            map.replaced(entries, pk, Some(record), old).0,
            namespaces_prefix(
                seq![name_bytes(map.index.1.0.idx_namespace@)] + map.index.1.0.key_of(record).0,
            ),
            start,
            end,
            order,
            raw,
        ),
    ensures
        exists|i: int|
            0 <= i < raw.len() && unique_kv(#[trigger] raw[i]) == Ok::<(Seq<u8>, Seq<u8>), StoreError>(
                (pk, record),
            ) && forall|j: int|
                0 <= j < raw.len() && unique_kv(#[trigger] raw[j]) == Ok::<
                    (Seq<u8>, Seq<u8>),
                    StoreError,
                >((pk, record)) ==> j == i,
{
    let pk_namespace = name_bytes(map.pk_namespace@);
    let multi_namespace = name_bytes(map.index.0.idx_namespace@);
    let unique_namespace = name_bytes(map.index.1.0.idx_namespace@);
    let unique = map.index.1.0;
    let key = unique.key_of(record);
    let prefix = namespaces_prefix(seq![unique_namespace] + key.0);
    let plan = map.index.plan(pk, record);
    let multi_entry = map.index.0.entry(pk, record)->0;
    let unique_entry = unique.entry(pk, record)->0;
    let next = map.replaced(entries, pk, Some(record), old).0;
    assert(plan =~= seq![Some(multi_entry), Some(unique_entry)]);
    lemma_namespaces_prefix_concat(seq![unique_namespace], key.0);
    assert(unique_entry.key =~= prefix + key.1);
    // the three namespaces keep the keys apart
    lemma_other_namespace(multi_namespace, joined(map.index.0.key_of(pk, record)), unique_namespace, key.0);
    lemma_other_namespace(pk_namespace, pk, unique_namespace, key.0);
    lemma_other_namespace(pk_namespace, pk, multi_namespace, map.index.0.key_of(pk, record).0);
    lemma_namespaces_prefix_concat(seq![multi_namespace], map.index.0.key_of(pk, record).0);
    assert(multi_entry.key =~= namespaces_prefix(
        seq![multi_namespace] + map.index.0.key_of(pk, record).0,
    ) + map.index.0.key_of(pk, record).1);
    assert(separate_keys(plan, primary_key(pk_namespace, pk)));
    law_saved_record_is_indexed(map.index, pk_namespace, entries, pk, record, old, 1);
    // the entries of the unique index stay where their records put them
    lemma_other_entry_keeps_placed(
        multi_entry,
        multi_namespace,
        joined(map.index.0.key_of(pk, record)),
        unique_namespace,
        unique.idx_fn,
    );
    lemma_unique_entry_keeps_placed(unique_namespace, unique.idx_fn, pk, record, !unique.overwrite);
    law_replace_keeps_placed(
        map.index,
        pk_namespace,
        entries,
        pk,
        Some(record),
        old,
        unique_namespace,
        unique.idx_fn,
    );
    lemma_placed_owners_are_distinct(next, unique_namespace, unique.idx_fn, key.0);
    law_unique_scan_finds_record_once(next, prefix, key.1, pk, record, start, end, order, raw);
}

} // verus!
