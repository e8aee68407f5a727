//! The invariant that ties a multi-index to its table, and its keeping.

use vstd::prelude::*;
use crate::byte_order::{
    has_prefix, lemma_has_prefix, lemma_part_ways_order, lemma_prefix_split,
    lemma_same_behind_prefix,
};
use crate::codec::{
    be32, be32_value, joined, lemma_be32_round_trip, lemma_length_prefixed_part_ways,
    lemma_namespaces_part_ways, lemma_namespaces_prefix_concat, lemma_namespaces_prefix_one,
    length_prefixed, name_bytes, namespaces_prefix, segments_fit, IndexKey, MAX_SEGMENT_LEN,
};
use crate::conditional_multi_index::ConditionalMultiIndex;
use crate::error::StoreError;
use crate::helpers::{multi_kv, primary_key};
use crate::index::{entry_key, is_pk, multi_entry, saved, saved_all, Index, IndexEntry, IndexList};
use crate::indexed_map::{IndexedMapCow, MultiIndexCow, UniqueIndexCow};
use crate::indexed_map_ref::{cleared, replaced};
use crate::item::may_loaded;
use crate::laws::{law_scan_finds_record_once, whole_keys};
use crate::plan::{
    lemma_removed_all, lemma_saved_all_at, lemma_saved_all_is_not_refused, plans_key,
};
use crate::prefix::{is_prefix_scan, lower_ok, upper_ok, Limit};
use crate::store::{Entries, Order};

verus! {

/// A multi-index as the invariant sees it: its namespaces, the number of
/// leading segments of its keys, its key function and its predicate.
pub struct MultiModel {
    /// The namespace of the index.
    pub idx_namespace: Seq<u8>,
    /// The namespace of the table.
    pub pk_namespace: Seq<u8>,
    /// How many leading segments every index key has.
    pub arity: nat,
    /// The index key of a record under a primary key.
    pub key_of: spec_fn(Seq<u8>, Seq<u8>) -> (Seq<Seq<u8>>, Seq<u8>),
    /// Whether the index takes a record in.
    pub includes: spec_fn(Seq<u8>) -> bool,
}

/// `key` lies in `namespace`.
pub open spec fn in_namespace(key: Seq<u8>, namespace: Seq<u8>) -> bool {
    has_prefix(key, length_prefixed(namespace))
}

impl MultiModel {
    /// The namespaces fit their length prefix and differ, and every index
    /// key has as many leading segments as the model says, each fitting its
    /// length prefix, and ends in the primary key.
    pub open spec fn wf(self) -> bool {
        &&& self.idx_namespace.len() <= MAX_SEGMENT_LEN
        &&& self.pk_namespace.len() <= MAX_SEGMENT_LEN
        &&& self.idx_namespace != self.pk_namespace
        &&& forall|pk: Seq<u8>, record: Seq<u8>|
            {
                let key = #[trigger] (self.key_of)(pk, record);
                key.0.len() == self.arity && segments_fit(key.0) && key.1 == pk
            }
    }

    /// The entry of the index for a record.
    pub open spec fn entry(self, pk: Seq<u8>, record: Seq<u8>) -> IndexEntry {
        multi_entry(self.idx_namespace, (self.key_of)(pk, record), pk)
    }

    /// The prefix of the index keys with the leading segments `segments`.
    pub open spec fn prefix(self, segments: Seq<Seq<u8>>) -> Seq<u8> {
        namespaces_prefix(seq![self.idx_namespace] + segments)
    }

    /// The table holds a record for `pk`.
    pub open spec fn table_has(self, entries: Entries, pk: Seq<u8>) -> bool {
        entries.contains_key(primary_key(self.pk_namespace, pk))
    }

    /// The record that the table holds for `pk`.
    pub open spec fn record(self, entries: Entries, pk: Seq<u8>) -> Seq<u8> {
        entries[primary_key(self.pk_namespace, pk)]
    }

    /// Index and table agree. For every record of the table that the index
    /// takes in, the index holds its entry. Every entry of the index, under
    /// leading segments of the right number, ends in a primary key of the
    /// table whose record the index takes in and puts under just those
    /// segments, and holds the length of that primary key.
    pub open spec fn consistent(self, entries: Entries) -> bool {
        &&& forall|pk: Seq<u8>|
            #[trigger] self.table_has(entries, pk) && (self.includes)(self.record(entries, pk))
                ==> entries.contains_key(self.entry(pk, self.record(entries, pk)).key) && entries[self.entry(
                pk,
                self.record(entries, pk),
            ).key] == be32(pk.len())
        &&& forall|segments: Seq<Seq<u8>>, rest: Seq<u8>|
            segments.len() == self.arity && segments_fit(segments) && #[trigger] entries.contains_key(
                self.prefix(segments) + rest,
            ) ==> {
                &&& entries[self.prefix(segments) + rest] == be32(rest.len())
                &&& is_pk(rest)
                &&& self.table_has(entries, rest)
                &&& (self.includes)(self.record(entries, rest))
                &&& (self.key_of)(rest, self.record(entries, rest)).0 == segments
            }
    }

    /// The index is one of `index`, and the others keep out of its
    /// namespace and out of that of the table: the plan for a record holds
    /// the entry of the index if the index takes the record in, and every
    /// other entry of the plan lies in a third namespace.
    pub open spec fn part_of<I: IndexList>(self, index: I) -> bool {
        forall|pk: Seq<u8>, record: Seq<u8>|
            {
                let plan = #[trigger] index.plan(pk, record);
                &&& (self.includes)(record) ==> plans_key(plan, self.entry(pk, record).key)
                &&& forall|i: int|
                    0 <= i < plan.len() && (#[trigger] plan[i]) is Some ==> {
                        ||| ((self.includes)(record) && plan[i]->0 == self.entry(pk, record))
                        ||| (!in_namespace(plan[i]->0.key, self.idx_namespace) && !in_namespace(
                            plan[i]->0.key,
                            self.pk_namespace,
                        ))
                    }
            }
    }

    /// The key of an entry of the index lies in the namespace of the index,
    /// and tells the leading segments and the primary key.
    pub proof fn lemma_entry_key(self, pk: Seq<u8>, record: Seq<u8>)
        requires
            self.wf(),
        ensures
            self.entry(pk, record).key == self.prefix((self.key_of)(pk, record).0) + pk,
            in_namespace(self.entry(pk, record).key, self.idx_namespace),
            !in_namespace(self.entry(pk, record).key, self.pk_namespace),
            forall|segments: Seq<Seq<u8>>, rest: Seq<u8>|
                segments.len() == self.arity && segments_fit(segments) && self.entry(pk, record).key
                    == #[trigger] (self.prefix(segments) + rest) ==> segments == (self.key_of)(
                    pk,
                    record,
                ).0 && rest == pk,
    {
        let key = (self.key_of)(pk, record);
        let own = seq![self.idx_namespace] + key.0;
        lemma_namespaces_prefix_concat(seq![self.idx_namespace], key.0);
        lemma_namespaces_prefix_one(self.idx_namespace);
        assert(self.entry(pk, record).key =~= self.prefix(key.0) + pk);
        assert(self.entry(pk, record).key =~= length_prefixed(self.idx_namespace) + (namespaces_prefix(
            key.0,
        ) + pk));
        lemma_has_prefix(length_prefixed(self.idx_namespace), namespaces_prefix(key.0) + pk);
        lemma_length_prefixed_part_ways(self.idx_namespace, self.pk_namespace);
        lemma_part_ways_order(
            length_prefixed(self.idx_namespace),
            length_prefixed(self.pk_namespace),
            namespaces_prefix(key.0) + pk,
            Seq::<u8>::empty(),
        );
        lemma_fits_with_namespace(self.idx_namespace, key.0);
        assert forall|segments: Seq<Seq<u8>>, rest: Seq<u8>|
            segments.len() == self.arity && segments_fit(segments) && self.entry(pk, record).key
                == #[trigger] (self.prefix(segments) + rest) implies segments == key.0 && rest == pk by {
            let other = seq![self.idx_namespace] + segments;
            lemma_fits_with_namespace(self.idx_namespace, segments);
            if own != other {
                lemma_namespaces_part_ways(own, other);
                lemma_part_ways_order(namespaces_prefix(own), namespaces_prefix(other), pk, rest);
            } else {
                assert(segments =~= other.skip(1));
                assert(key.0 =~= own.skip(1));
                lemma_same_behind_prefix(namespaces_prefix(own), pk, rest);
            }
        }
    }

    /// The key of the table for a primary key lies in the namespace of the
    /// table and not in that of the index.
    pub proof fn lemma_table_key(self, pk: Seq<u8>)
        requires
            self.wf(),
        ensures
            in_namespace(primary_key(self.pk_namespace, pk), self.pk_namespace),
            !in_namespace(primary_key(self.pk_namespace, pk), self.idx_namespace),
            forall|segments: Seq<Seq<u8>>, rest: Seq<u8>|
                primary_key(self.pk_namespace, pk) != #[trigger] (self.prefix(segments) + rest),
    {
        lemma_namespaces_prefix_one(self.pk_namespace);
        lemma_has_prefix(length_prefixed(self.pk_namespace), pk);
        lemma_length_prefixed_part_ways(self.pk_namespace, self.idx_namespace);
        lemma_part_ways_order(
            length_prefixed(self.pk_namespace),
            length_prefixed(self.idx_namespace),
            pk,
            Seq::<u8>::empty(),
        );
        assert forall|segments: Seq<Seq<u8>>, rest: Seq<u8>|
            primary_key(self.pk_namespace, pk) != #[trigger] (self.prefix(segments) + rest) by {
            self.lemma_prefix_in_namespace(segments, rest);
        }
    }

    /// What lies under a prefix of the index lies in its namespace.
    pub proof fn lemma_prefix_in_namespace(self, segments: Seq<Seq<u8>>, rest: Seq<u8>)
        ensures
            in_namespace(self.prefix(segments) + rest, self.idx_namespace),
    {
        lemma_namespaces_prefix_concat(seq![self.idx_namespace], segments);
        lemma_namespaces_prefix_one(self.idx_namespace);
        assert(self.prefix(segments) + rest =~= length_prefixed(self.idx_namespace) + (namespaces_prefix(
            segments,
        ) + rest));
        lemma_has_prefix(length_prefixed(self.idx_namespace), namespaces_prefix(segments) + rest);
    }
}

impl MultiModel {
    /// A key of the plan for a record of `pk` that lies in the namespace of
    /// the index is the key of the entry of the index for that record.
    proof fn lemma_plan_key<I: IndexList>(self, index: I, pk: Seq<u8>, record: Seq<u8>, key: Seq<u8>)
        requires
            self.wf(),
            self.part_of(index),
            plans_key(index.plan(pk, record), key),
            in_namespace(key, self.idx_namespace) || in_namespace(key, self.pk_namespace),
        ensures
            (self.includes)(record),
            key == self.entry(pk, record).key,
            forall|i: int|
                0 <= i < index.plan(pk, record).len() && (#[trigger] index.plan(pk, record)[i]) is Some
                    && index.plan(pk, record)[i]->0.key == key ==> index.plan(pk, record)[i]->0
                    == self.entry(pk, record),
    {
        let plan = index.plan(pk, record);
        let i = choose|i: int| 0 <= i < plan.len() && (#[trigger] plan[i]) is Some && plan[i]->0.key == key;
        assert(plan[i] is Some);
        self.lemma_entry_key(pk, record);
    }

    /// The entry of the index for the record of another primary key is not
    /// touched by a plan for `pk`, and neither is any key of the table.
    proof fn lemma_plan_spares<I: IndexList>(
        self,
        index: I,
        pk: Seq<u8>,
        record: Seq<u8>,
        other: Seq<u8>,
        other_record: Seq<u8>,
    )
        requires
            self.wf(),
            self.part_of(index),
        ensures
            other != pk ==> !plans_key(index.plan(pk, record), self.entry(other, other_record).key),
            !plans_key(index.plan(pk, record), primary_key(self.pk_namespace, other)),
    {
        let plan = index.plan(pk, record);
        self.lemma_entry_key(other, other_record);
        self.lemma_entry_key(pk, record);
        self.lemma_table_key(other);
        if plans_key(plan, self.entry(other, other_record).key) {
            self.lemma_plan_key(index, pk, record, self.entry(other, other_record).key);
            assert(self.entry(pk, record).key == self.prefix((self.key_of)(other, other_record).0) + other);
        }
        if plans_key(plan, primary_key(self.pk_namespace, other)) {
            self.lemma_plan_key(index, pk, record, primary_key(self.pk_namespace, other));
        }
    }

    /// Two primary keys with one key in the table are one.
    proof fn lemma_table_keys_differ(self, a: Seq<u8>, b: Seq<u8>)
        ensures
            (primary_key(self.pk_namespace, a) == primary_key(self.pk_namespace, b)) == (a == b),
    {
        lemma_same_behind_prefix(namespaces_prefix(seq![self.pk_namespace]), a, b);
    }

    /// After the entries of the current record of `pk` have left the
    /// indexes, the table is as it was, the entries of the index for other
    /// primary keys are as they were, no entry of the index ends in `pk`,
    /// and nothing has come in.
    proof fn lemma_cleared<I: IndexList>(self, index: I, entries: Entries, pk: Seq<u8>)
        requires
            self.wf(),
            self.part_of(index),
            self.consistent(entries),
        ensures
            ({
                let old = may_loaded(entries, primary_key(self.pk_namespace, pk));
                let after = cleared(index, entries, pk, old);
                &&& forall|key: Seq<u8>|
                    #[trigger] after.contains_key(key) ==> entries.contains_key(key) && after[key]
                        == entries[key]
                &&& forall|other: Seq<u8>|
                    #[trigger] self.table_has(entries, other) ==> self.table_has(after, other)
                &&& forall|other: Seq<u8>|
                    other != pk && #[trigger] self.table_has(entries, other) && (self.includes)(
                        self.record(entries, other),
                    ) ==> after.contains_key(self.entry(other, self.record(entries, other)).key)
                &&& forall|segments: Seq<Seq<u8>>|
                    segments.len() == self.arity && segments_fit(segments) ==> !after.contains_key(
                        #[trigger] (self.prefix(segments) + pk),
                    )
            }),
    {
        let old = may_loaded(entries, primary_key(self.pk_namespace, pk));
        let after = cleared(index, entries, pk, old);
        match old {
            Some(record) => {
                let plan = index.plan(pk, record);
                lemma_removed_all(entries, plan);
                assert forall|other: Seq<u8>| #[trigger]
                    self.table_has(entries, other) implies self.table_has(after, other) by {
                    self.lemma_plan_spares(index, pk, record, other, record);
                }
                assert forall|other: Seq<u8>|
                    other != pk && #[trigger] self.table_has(entries, other) && (self.includes)(
                        self.record(entries, other),
                    ) implies after.contains_key(self.entry(other, self.record(entries, other)).key) by {
                    self.lemma_plan_spares(index, pk, record, other, self.record(entries, other));
                }
                assert forall|segments: Seq<Seq<u8>>|
                    segments.len() == self.arity && segments_fit(segments) implies !after.contains_key(
                    #[trigger] (self.prefix(segments) + pk),
                ) by {
                    let key = self.prefix(segments) + pk;
                    if after.contains_key(key) {
                        assert(entries.contains_key(key));
                        assert(self.table_has(entries, pk));
                        self.lemma_entry_key(pk, record);
                        assert(self.entry(pk, record).key == key);
                        assert(plans_key(plan, key));
                        let i = choose|i: int|
                            0 <= i < plan.len() && (#[trigger] plan[i]) is Some && plan[i]->0.key == key;
                        assert(!after.contains_key(plan[i]->0.key));
                    }
                }
            },
            None => {
                assert forall|segments: Seq<Seq<u8>>|
                    segments.len() == self.arity && segments_fit(segments) implies !after.contains_key(
                    #[trigger] (self.prefix(segments) + pk),
                ) by {
                    if entries.contains_key(self.prefix(segments) + pk) {
                        assert(self.table_has(entries, pk));
                    }
                }
            },
        }
    }

    /// Index consistency is kept: where index and table agree, they agree
    /// after the record of a primary key has been saved or removed through
    /// the table, starting from the record that the table holds, unless an
    /// index has refused the new record.
    pub proof fn law_replace_keeps_consistent<I: IndexList>(
        self,
        index: I,
        entries: Entries,
        pk: Seq<u8>,
        new: Option<Seq<u8>>,
    )
        requires
            self.wf(),
            self.part_of(index),
            self.consistent(entries),
            is_pk(pk),
            replaced(
                index,
                self.pk_namespace,
                entries,
                pk,
                new,
                may_loaded(entries, primary_key(self.pk_namespace, pk)),
            ).1 is None,
        ensures
            self.consistent(
                replaced(
                    index,
                    self.pk_namespace,
                    entries,
                    pk,
                    new,
                    may_loaded(entries, primary_key(self.pk_namespace, pk)),
                ).0,
            ),
    {
        let table_key = primary_key(self.pk_namespace, pk);
        let old = may_loaded(entries, table_key);
        let after = cleared(index, entries, pk, old);
        let next = replaced(index, self.pk_namespace, entries, pk, new, old).0;
        self.lemma_cleared(index, entries, pk);
        self.lemma_table_key(pk);
        match new {
            Some(record) => {
                let plan = index.plan(pk, record);
                let indexed = saved_all(after, plan, pk).0;
                assert(next == indexed.insert(table_key, record));
                assert forall|other: Seq<u8>|
                    #[trigger] self.table_has(next, other) && (self.includes)(
                        self.record(next, other),
                    ) implies next.contains_key(self.entry(other, self.record(next, other)).key)
                    && next[self.entry(other, self.record(next, other)).key] == be32(other.len()) by {
                    let held = self.record(next, other);
                    let key = self.entry(other, held).key;
                    self.lemma_entry_key(other, held);
                    self.lemma_table_keys_differ(other, pk);
                    lemma_saved_all_at(after, plan, pk, key);
                    if other == pk {
                        self.lemma_plan_key(index, pk, record, key);
                    } else {
                        lemma_saved_all_at(after, plan, pk, primary_key(self.pk_namespace, other));
                        self.lemma_plan_spares(index, pk, record, other, held);
                        assert(self.table_has(after, other));
                        assert(self.table_has(entries, other));
                    }
                }
                assert forall|segments: Seq<Seq<u8>>, rest: Seq<u8>|
                    segments.len() == self.arity && segments_fit(segments) && #[trigger] next.contains_key(
                        self.prefix(segments) + rest,
                    ) implies {
                    &&& next[self.prefix(segments) + rest] == be32(rest.len())
                    &&& is_pk(rest)
                    &&& self.table_has(next, rest)
                    &&& (self.includes)(self.record(next, rest))
                    &&& (self.key_of)(rest, self.record(next, rest)).0 == segments
                } by {
                    let key = self.prefix(segments) + rest;
                    self.lemma_prefix_in_namespace(segments, rest);
                    lemma_saved_all_at(after, plan, pk, key);
                    self.lemma_table_keys_differ(rest, pk);
                    if plans_key(plan, key) {
                        self.lemma_plan_key(index, pk, record, key);
                        self.lemma_entry_key(pk, record);
                    } else {
                        assert(after.contains_key(key));
                        assert(entries.contains_key(key));
                        lemma_saved_all_at(after, plan, pk, primary_key(self.pk_namespace, rest));
                        self.lemma_plan_spares(index, pk, record, rest, record);
                        assert(self.table_has(after, rest));
                    }
                }
            },
            None => {
                assert(next == after.remove(table_key));
                assert forall|other: Seq<u8>|
                    #[trigger] self.table_has(next, other) && (self.includes)(
                        self.record(next, other),
                    ) implies next.contains_key(self.entry(other, self.record(next, other)).key)
                    && next[self.entry(other, self.record(next, other)).key] == be32(other.len()) by {
                    let held = self.record(next, other);
                    self.lemma_entry_key(other, held);
                    self.lemma_table_keys_differ(other, pk);
                    assert(self.table_has(after, other));
                    assert(self.table_has(entries, other));
                }
                assert forall|segments: Seq<Seq<u8>>, rest: Seq<u8>|
                    segments.len() == self.arity && segments_fit(segments) && #[trigger] next.contains_key(
                        self.prefix(segments) + rest,
                    ) implies {
                    &&& next[self.prefix(segments) + rest] == be32(rest.len())
                    &&& is_pk(rest)
                    &&& self.table_has(next, rest)
                    &&& (self.includes)(self.record(next, rest))
                    &&& (self.key_of)(rest, self.record(next, rest)).0 == segments
                } by {
                    let key = self.prefix(segments) + rest;
                    self.lemma_table_keys_differ(rest, pk);
                    assert(after.contains_key(key));
                    assert(entries.contains_key(key));
                    assert(self.table_has(after, rest));
                }
            },
        }
    }
}

impl MultiModel {
    /// In an empty store, index and table agree.
    pub proof fn law_empty_store_is_consistent(self)
        ensures
            self.consistent(Map::empty()),
    {
    }

    /// Where index and table agree, the index holds one entry only that
    /// ends in a given primary key: two entries that end in it stand under
    /// the same leading segments.
    pub proof fn law_consistent_one_entry_per_record(
        self,
        entries: Entries,
        pk: Seq<u8>,
        first: Seq<Seq<u8>>,
        second: Seq<Seq<u8>>,
    )
        requires
            self.consistent(entries),
            first.len() == self.arity,
            second.len() == self.arity,
            segments_fit(first),
            segments_fit(second),
            entries.contains_key(self.prefix(first) + pk),
            entries.contains_key(self.prefix(second) + pk),
        ensures
            first == second,
    {
    }

    /// Where index and table agree, a scan under leading segments of the
    /// right number meets no entry that it cannot follow: each entry ends
    /// in a primary key of the table, and leads to it and its record.
    pub proof fn law_consistent_scan_has_no_failure(
        self,
        entries: Entries,
        segments: Seq<Seq<u8>>,
        start: Limit,
        end: Limit,
        order: Order,
        raw: Seq<(Seq<u8>, Seq<u8>)>,
        i: int,
    )
        requires
            self.wf(),
            self.consistent(entries),
            segments.len() == self.arity,
            segments_fit(segments),
            is_prefix_scan(entries, self.prefix(segments), start, end, order, raw),
            0 <= i < raw.len(),
        ensures
            multi_kv(entries, self.pk_namespace, raw[i]) == Ok::<(Seq<u8>, Seq<u8>), StoreError>(
                (raw[i].0, self.record(entries, raw[i].0)),
            ),
            self.table_has(entries, raw[i].0),
            (self.includes)(self.record(entries, raw[i].0)),
            (self.key_of)(raw[i].0, self.record(entries, raw[i].0)).0 == segments,
    {
        let rest = raw[i].0;
        assert(entries.contains_key(self.prefix(segments) + rest));
        lemma_be32_round_trip(rest.len());
        assert(rest.subrange(0, rest.len() as int) =~= rest);
    }

    /// Index completeness: where index and table agree, a scan of the index
    /// under the leading segments of the index key of a record of the
    /// table that the index takes in, between limits that admit the primary
    /// key, hands out the primary key with the record, and hands out that
    /// primary key once only.
    pub proof fn law_consistent_scan_is_complete(
        self,
        entries: Entries,
        pk: Seq<u8>,
        start: Limit,
        end: Limit,
        order: Order,
        raw: Seq<(Seq<u8>, Seq<u8>)>,
    )
        requires
            self.wf(),
            self.consistent(entries),
            self.table_has(entries, pk),
            (self.includes)(self.record(entries, pk)),
            lower_ok(pk, start),
            upper_ok(pk, end),
            is_prefix_scan(
                entries,
                self.prefix((self.key_of)(pk, self.record(entries, pk)).0),
                start,
                end,
                order,
                raw,
            ),
        ensures
            exists|i: int|
                0 <= i < raw.len() && multi_kv(entries, self.pk_namespace, #[trigger] raw[i]) == Ok::<
                    (Seq<u8>, Seq<u8>),
                    StoreError,
                >((pk, self.record(entries, pk))) && forall|j: int|
                    0 <= j < raw.len() && (multi_kv(entries, self.pk_namespace, #[trigger] raw[j]) matches Ok(
                        found,
                    ) && found.0 == pk) ==> j == i,
    {
        let record = self.record(entries, pk);
        let segments = (self.key_of)(pk, record).0;
        let prefix = self.prefix(segments);
        self.lemma_entry_key(pk, record);
        assert(whole_keys(entries, prefix)) by {
            assert forall|rest: Seq<u8>| #[trigger]
                entries.contains_key(prefix + rest) implies be32_value(entries[prefix + rest]) == Some(
                rest.len(),
            ) by {
                lemma_be32_round_trip(rest.len());
            }
        }
        law_scan_finds_record_once(
            entries,
            prefix,
            self.pk_namespace,
            pk,
            record,
            start,
            end,
            order,
            raw,
        );
    }
}

/// Every entry that the indexes of `index` plan lies outside the two
/// namespaces.
pub open spec fn keeps_out<I: IndexList>(index: I, first: Seq<u8>, second: Seq<u8>) -> bool {
    forall|pk: Seq<u8>, record: Seq<u8>, i: int|
        0 <= i < index.plan(pk, record).len() && (#[trigger] index.plan(pk, record)[i]) is Some
            ==> !in_namespace(index.plan(pk, record)[i]->0.key, first) && !in_namespace(
            index.plan(pk, record)[i]->0.key,
            second,
        )
}

/// A key lies in one namespace only.
pub proof fn lemma_in_one_namespace(key: Seq<u8>, own: Seq<u8>, other: Seq<u8>)
    requires
        in_namespace(key, own),
        own != other,
        own.len() <= MAX_SEGMENT_LEN,
        other.len() <= MAX_SEGMENT_LEN,
    ensures
        !in_namespace(key, other),
{
    lemma_length_prefixed_part_ways(own, other);
    lemma_prefix_split(key, length_prefixed(own));
    lemma_part_ways_order(
        length_prefixed(own),
        length_prefixed(other),
        key.subrange(length_prefixed(own).len() as int, key.len() as int),
        Seq::<u8>::empty(),
    );
}

/// The key of an index entry lies in the namespace of its index.
pub proof fn lemma_entry_key_in_namespace(idx_namespace: Seq<u8>, key: (Seq<Seq<u8>>, Seq<u8>))
    ensures
        in_namespace(entry_key(idx_namespace, key), idx_namespace),
{
    lemma_namespaces_prefix_one(idx_namespace);
    lemma_has_prefix(length_prefixed(idx_namespace), joined(key));
}

impl MultiModel {
    /// The index in front of a list of indexes that keep out of its
    /// namespace and that of the table is one of the indexes of the table.
    pub proof fn lemma_part_of_first<A: Index, L: IndexList>(self, first: A, others: L)
        requires
            forall|pk: Seq<u8>, record: Seq<u8>|
                #[trigger] first.entry(pk, record) == if (self.includes)(record) {
                    Some(self.entry(pk, record))
                } else {
                    None
                },
            keeps_out(others, self.idx_namespace, self.pk_namespace),
        ensures
            self.part_of((first, others)),
    {
        assert forall|pk: Seq<u8>, record: Seq<u8>|
            {
                let plan = #[trigger] (first, others).plan(pk, record);
                &&& (self.includes)(record) ==> plans_key(plan, self.entry(pk, record).key)
                &&& forall|i: int|
                    0 <= i < plan.len() && (#[trigger] plan[i]) is Some ==> {
                        ||| ((self.includes)(record) && plan[i]->0 == self.entry(pk, record))
                        ||| (!in_namespace(plan[i]->0.key, self.idx_namespace) && !in_namespace(
                            plan[i]->0.key,
                            self.pk_namespace,
                        ))
                    }
            } by {
            let plan = (first, others).plan(pk, record);
            assert(plan[0] == first.entry(pk, record));
            assert forall|i: int| 0 <= i < plan.len() && (#[trigger] plan[i]) is Some implies {
                ||| ((self.includes)(record) && plan[i]->0 == self.entry(pk, record))
                ||| (!in_namespace(plan[i]->0.key, self.idx_namespace) && !in_namespace(
                    plan[i]->0.key,
                    self.pk_namespace,
                ))
            } by {
                if i > 0 {
                    assert(plan[i] == others.plan(pk, record)[i - 1]);
                }
            }
        }
    }

    /// Behind an index that keeps out of the two namespaces, the index is
    /// one of the indexes of the table if it is one of the list behind.
    pub proof fn lemma_part_of_behind<A: Index, L: IndexList>(self, first: A, others: L)
        requires
            self.part_of(others),
            forall|pk: Seq<u8>, record: Seq<u8>|
                (#[trigger] first.entry(pk, record)) matches Some(e) ==> !in_namespace(
                    e.key,
                    self.idx_namespace,
                ) && !in_namespace(e.key, self.pk_namespace),
        ensures
            self.part_of((first, others)),
    {
        assert forall|pk: Seq<u8>, record: Seq<u8>|
            {
                let plan = #[trigger] (first, others).plan(pk, record);
                &&& (self.includes)(record) ==> plans_key(plan, self.entry(pk, record).key)
                &&& forall|i: int|
                    0 <= i < plan.len() && (#[trigger] plan[i]) is Some ==> {
                        ||| ((self.includes)(record) && plan[i]->0 == self.entry(pk, record))
                        ||| (!in_namespace(plan[i]->0.key, self.idx_namespace) && !in_namespace(
                            plan[i]->0.key,
                            self.pk_namespace,
                        ))
                    }
            } by {
            let plan = (first, others).plan(pk, record);
            let behind = others.plan(pk, record);
            assert(plan[0] == first.entry(pk, record));
            if (self.includes)(record) {
                let at = choose|i: int|
                    0 <= i < behind.len() && (#[trigger] behind[i]) is Some && behind[i]->0.key
                        == self.entry(pk, record).key;
                assert(plan[at + 1] == behind[at]);
            }
            assert forall|i: int| 0 <= i < plan.len() && (#[trigger] plan[i]) is Some implies {
                ||| ((self.includes)(record) && plan[i]->0 == self.entry(pk, record))
                ||| (!in_namespace(plan[i]->0.key, self.idx_namespace) && !in_namespace(
                    plan[i]->0.key,
                    self.pk_namespace,
                ))
            } by {
                if i > 0 {
                    assert(plan[i] == behind[i - 1]);
                }
            }
        }
    }
}

/// An empty list of indexes keeps out of every namespace.
pub proof fn lemma_none_keeps_out(first: Seq<u8>, second: Seq<u8>)
    ensures
        keeps_out((), first, second),
{
}

/// A list of indexes keeps out of two namespaces if its first index and
/// the list behind it do.
pub proof fn lemma_keeps_out<A: Index, L: IndexList>(index: A, others: L, first: Seq<u8>, second: Seq<u8>)
    requires
        keeps_out(others, first, second),
        forall|pk: Seq<u8>, record: Seq<u8>|
            (#[trigger] index.entry(pk, record)) matches Some(e) ==> !in_namespace(e.key, first)
                && !in_namespace(e.key, second),
    ensures
        keeps_out((index, others), first, second),
{
    assert forall|pk: Seq<u8>, record: Seq<u8>, i: int|
        0 <= i < (index, others).plan(pk, record).len() && (#[trigger] (index, others).plan(
            pk,
            record,
        )[i]) is Some implies !in_namespace((index, others).plan(pk, record)[i]->0.key, first)
        && !in_namespace((index, others).plan(pk, record)[i]->0.key, second) by {
        let plan = (index, others).plan(pk, record);
        if i == 0 {
            assert(plan[0] == index.entry(pk, record));
        } else {
            assert(plan[i] == others.plan(pk, record)[i - 1]);
        }
    }
}

/// A multi-index of the library as the invariant sees it, with index keys
/// of `arity` leading segments.
pub open spec fn multi_model<F: Fn(&[u8], Vec<u8>) -> IndexKey>(
    index: MultiIndexCow<F>,
    arity: nat,
) -> MultiModel {
    MultiModel {
        idx_namespace: name_bytes(index.idx_namespace@),
        pk_namespace: name_bytes(index.pk_namespace@),
        arity,
        key_of: |pk: Seq<u8>, record: Seq<u8>| index.key_of(pk, record),
        includes: |record: Seq<u8>| true,
    }
}

/// A conditional multi-index of the library as the invariant sees it, with
/// index keys of `arity` leading segments.
pub open spec fn conditional_model<
    F: Fn(&[u8], Vec<u8>) -> IndexKey,
    C: Fn(&[u8]) -> bool,
    G: Fn(Vec<u8>) -> Vec<u8>,
>(index: ConditionalMultiIndex<F, C, G>, arity: nat) -> MultiModel {
    MultiModel {
        idx_namespace: name_bytes(index.idx_namespace@),
        pk_namespace: name_bytes(index.pk_namespace@),
        arity,
        key_of: |pk: Seq<u8>, record: Seq<u8>| index.key_of(pk, record),
        includes: |record: Seq<u8>| index.includes(record),
    }
}

/// Index consistency for a table with one multi-index whose key function
/// gives `arity` leading segments and puts the primary key last: where
/// index and table agree, they agree after every save and every removal
/// through the table, and no save is refused. The store that `save` and
/// `remove` of the table leave is the one of which this speaks.
pub proof fn law_multi_index_stays_consistent<F: Fn(&[u8], Vec<u8>) -> IndexKey>(
    map: IndexedMapCow<(MultiIndexCow<F>, ())>,
    arity: nat,
    entries: Entries,
    pk: Seq<u8>,
    new: Option<Seq<u8>>,
)
    requires
        map.index.0.pk_namespace@ == map.pk_namespace@,
        multi_model(map.index.0, arity).wf(),
        multi_model(map.index.0, arity).consistent(entries),
        is_pk(pk),
    ensures
        map.replaced(entries, pk, new, map.current(entries, pk)).1 is None,
        multi_model(map.index.0, arity).consistent(
            map.replaced(entries, pk, new, map.current(entries, pk)).0,
        ),
{
    let model = multi_model(map.index.0, arity);
    lemma_none_keeps_out(model.idx_namespace, model.pk_namespace);
    model.lemma_part_of_first(map.index.0, ());
    if let Some(record) = new {
        let after = cleared(map.index, entries, pk, map.current(entries, pk));
        assert(map.index.plan(pk, record).len() == 1);
        lemma_saved_all_is_not_refused(after, map.index.plan(pk, record), pk);
    }
    model.law_replace_keeps_consistent(map.index, entries, pk, new);
}

/// Index consistency for a table with one conditional multi-index whose
/// key function gives `arity` leading segments and puts the primary key
/// last: where index and table agree, they agree after every save and
/// every removal through the table, and no save is refused.
pub proof fn law_conditional_index_stays_consistent<
    F: Fn(&[u8], Vec<u8>) -> IndexKey,
    C: Fn(&[u8]) -> bool,
    G: Fn(Vec<u8>) -> Vec<u8>,
>(
    map: IndexedMapCow<(ConditionalMultiIndex<F, C, G>, ())>,
    arity: nat,
    entries: Entries,
    pk: Seq<u8>,
    new: Option<Seq<u8>>,
)
    requires
        map.index.0.pk_namespace@ == map.pk_namespace@,
        conditional_model(map.index.0, arity).wf(),
        conditional_model(map.index.0, arity).consistent(entries),
        is_pk(pk),
    ensures
        map.replaced(entries, pk, new, map.current(entries, pk)).1 is None,
        conditional_model(map.index.0, arity).consistent(
            map.replaced(entries, pk, new, map.current(entries, pk)).0,
        ),
{
    let model = conditional_model(map.index.0, arity);
    lemma_none_keeps_out(model.idx_namespace, model.pk_namespace);
    model.lemma_part_of_first(map.index.0, ());
    if let Some(record) = new {
        let after = cleared(map.index, entries, pk, map.current(entries, pk));
        assert(map.index.plan(pk, record).len() == 1);
        lemma_saved_all_is_not_refused(after, map.index.plan(pk, record), pk);
    }
    model.law_replace_keeps_consistent(map.index, entries, pk, new);
}

/// Index consistency for a table with a multi-index and, behind it, a
/// unique index, each in a namespace of its own: where the multi-index and
/// the table agree, they agree after every save that the unique index does
/// not refuse, and after every removal.
pub proof fn law_multi_index_beside_unique_stays_consistent<
    F: Fn(&[u8], Vec<u8>) -> IndexKey,
    U: Fn(&[u8]) -> IndexKey,
>(
    map: IndexedMapCow<(MultiIndexCow<F>, (UniqueIndexCow<U>, ()))>,
    arity: nat,
    entries: Entries,
    pk: Seq<u8>,
    new: Option<Seq<u8>>,
)
    requires
        map.index.0.pk_namespace@ == map.pk_namespace@,
        multi_model(map.index.0, arity).wf(),
        name_bytes(map.index.1.0.idx_namespace@).len() <= MAX_SEGMENT_LEN,
        name_bytes(map.index.1.0.idx_namespace@) != name_bytes(map.index.0.idx_namespace@),
        name_bytes(map.index.1.0.idx_namespace@) != name_bytes(map.pk_namespace@),
        multi_model(map.index.0, arity).consistent(entries),
        is_pk(pk),
        map.replaced(entries, pk, new, map.current(entries, pk)).1 is None,
    ensures
        multi_model(map.index.0, arity).consistent(
            map.replaced(entries, pk, new, map.current(entries, pk)).0,
        ),
{
    let model = multi_model(map.index.0, arity);
    let unique = map.index.1.0;
    let unique_namespace = name_bytes(unique.idx_namespace@);
    lemma_none_keeps_out(model.idx_namespace, model.pk_namespace);
    assert forall|pk: Seq<u8>, record: Seq<u8>|
        (#[trigger] unique.entry(pk, record)) is Some implies !in_namespace(
        unique.entry(pk, record)->0.key,
        model.idx_namespace,
    ) && !in_namespace(unique.entry(pk, record)->0.key, model.pk_namespace) by {
        let key = unique.entry(pk, record)->0.key;
        lemma_entry_key_in_namespace(unique_namespace, unique.key_of(record));
        lemma_in_one_namespace(key, unique_namespace, model.idx_namespace);
        lemma_in_one_namespace(key, unique_namespace, model.pk_namespace);
    }
    lemma_keeps_out(unique, (), model.idx_namespace, model.pk_namespace);
    model.lemma_part_of_first(map.index.0, map.index.1);
    model.law_replace_keeps_consistent(map.index, entries, pk, new);
}

/// Index consistency for a table with a unique index and, behind it, a
/// multi-index, each in a namespace of its own: where the multi-index and
/// the table agree, they agree after every save that the unique index does
/// not refuse, and after every removal.
pub proof fn law_multi_index_behind_unique_stays_consistent<
    F: Fn(&[u8], Vec<u8>) -> IndexKey,
    U: Fn(&[u8]) -> IndexKey,
>(
    map: IndexedMapCow<(UniqueIndexCow<U>, (MultiIndexCow<F>, ()))>,
    arity: nat,
    entries: Entries,
    pk: Seq<u8>,
    new: Option<Seq<u8>>,
)
    requires
        map.index.1.0.pk_namespace@ == map.pk_namespace@,
        multi_model(map.index.1.0, arity).wf(),
        name_bytes(map.index.0.idx_namespace@).len() <= MAX_SEGMENT_LEN,
        name_bytes(map.index.0.idx_namespace@) != name_bytes(map.index.1.0.idx_namespace@),
        name_bytes(map.index.0.idx_namespace@) != name_bytes(map.pk_namespace@),
        multi_model(map.index.1.0, arity).consistent(entries),
        is_pk(pk),
        map.replaced(entries, pk, new, map.current(entries, pk)).1 is None,
    ensures
        multi_model(map.index.1.0, arity).consistent(
            map.replaced(entries, pk, new, map.current(entries, pk)).0,
        ),
{
    let model = multi_model(map.index.1.0, arity);
    let unique = map.index.0;
    let unique_namespace = name_bytes(unique.idx_namespace@);
    lemma_none_keeps_out(model.idx_namespace, model.pk_namespace);
    model.lemma_part_of_first(map.index.1.0, ());
    assert forall|pk: Seq<u8>, record: Seq<u8>|
        (#[trigger] unique.entry(pk, record)) is Some implies !in_namespace(
        unique.entry(pk, record)->0.key,
        model.idx_namespace,
    ) && !in_namespace(unique.entry(pk, record)->0.key, model.pk_namespace) by {
        let key = unique.entry(pk, record)->0.key;
        lemma_entry_key_in_namespace(unique_namespace, unique.key_of(record));
        lemma_in_one_namespace(key, unique_namespace, model.idx_namespace);
        lemma_in_one_namespace(key, unique_namespace, model.pk_namespace);
    }
    model.lemma_part_of_behind(unique, map.index.1);
    model.law_replace_keeps_consistent(map.index, entries, pk, new);
}

/// Segments that fit their length prefix, behind a namespace that fits, all fit.
proof fn lemma_fits_with_namespace(namespace: Seq<u8>, segments: Seq<Seq<u8>>)
    requires
        namespace.len() <= MAX_SEGMENT_LEN,
        segments_fit(segments),
    ensures
        segments_fit(seq![namespace] + segments),
{
    let all = seq![namespace] + segments;
    assert forall|i: int| 0 <= i < all.len() implies (#[trigger] all[i]).len() <= MAX_SEGMENT_LEN by {
        if i > 0 {
            assert(all[i] == segments[i - 1]);
        }
    }
}

} // verus!
