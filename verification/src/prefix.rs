//! Scans of the keys that share a prefix.

use vstd::prelude::*;
use cosmwasm_std::MemoryStorage;
use crate::byte_order::{
    has_prefix, lemma_has_prefix, lemma_lex_le_as_lt, lemma_lex_le_transitive, lemma_lex_lt_as_le,
    lemma_lex_lt_behind_prefix, lemma_prefix_range, lemma_prefix_split, lemma_same_behind_prefix,
    lex_le, lex_lt, prefix_upper_bound, trimmed_len,
};
use crate::codec::{
    be64, bytes_from, copy_bytes, encode_u64, namespaces_prefix, segments_fit, slices_view,
    storage_prefix, MAX_SEGMENT_LEN,
};
use crate::error::StoreError;
use crate::helpers::{
    custom_kv, deserialize_custom_kv, deserialize_multi_kv, deserialize_unique_kv, item_view,
    multi_kv, unique_kv, Loaded,
};
use crate::key_fn::recover_fn_ok;
use crate::store::{
    comes_before, contents, is_range_scan, pairs_view, store_range, within, Entries, Order,
};

verus! {

/// One end of a scan, given as the rest of a key behind the scanned prefix.
#[derive(Debug)]
pub enum Bound {
    /// The scan reaches this key.
    Inclusive(Vec<u8>),
    /// The scan stops short of this key.
    Exclusive(Vec<u8>),
}

/// One end of a scan as a byte string.
pub enum Limit {
    /// No limit on this side.
    Open,
    /// The scan ends at this key and takes it in.
    Closed(Seq<u8>),
    /// The scan ends at this key and leaves it out.
    Beyond(Seq<u8>),
}

/// The limit that an optional bound stands for.
pub open spec fn limit_of(bound: Option<Bound>) -> Limit {
    match bound {
        None => Limit::Open,
        Some(Bound::Inclusive(limit)) => Limit::Closed(limit@),
        Some(Bound::Exclusive(limit)) => Limit::Beyond(limit@),
    }
}

/// `rest` is not below the lower limit.
pub open spec fn lower_ok(rest: Seq<u8>, start: Limit) -> bool {
    match start {
        Limit::Open => true,
        Limit::Closed(limit) => lex_le(limit, rest),
        Limit::Beyond(limit) => lex_lt(limit, rest),
    }
}

/// `rest` is not above the upper limit.
pub open spec fn upper_ok(rest: Seq<u8>, end: Limit) -> bool {
    match end {
        Limit::Open => true,
        Limit::Closed(limit) => lex_le(rest, limit),
        Limit::Beyond(limit) => lex_lt(rest, limit),
    }
}

/// `found` is the scan of the entries of `entries` whose keys start with
/// `prefix`, between the two limits: each pair is the rest of such a key
/// with its value, every such entry is among them, and they stand in the
/// order of their keys.
pub open spec fn is_prefix_scan(
    entries: Entries,
    prefix: Seq<u8>,
    start: Limit,
    end: Limit,
    order: Order,
    found: Seq<(Seq<u8>, Seq<u8>)>,
) -> bool {
    &&& forall|i: int|
        0 <= i < found.len() ==> entries.contains_key(prefix + (#[trigger] found[i]).0) && entries[prefix
            + found[i].0] == found[i].1 && lower_ok(found[i].0, start) && upper_ok(found[i].0, end)
    &&& forall|rest: Seq<u8>|
        #[trigger] entries.contains_key(prefix + rest) && lower_ok(rest, start) && upper_ok(rest, end)
            ==> exists|i: int| 0 <= i < found.len() && (#[trigger] found[i]).0 == rest
    &&& forall|i: int, j: int|
        0 <= i < j < found.len() ==> comes_before(order, (#[trigger] found[i]).0, (#[trigger] found[j]).0)
}

impl Bound {
    /// A bound that the scan reaches.
    pub fn inclusive(limit: Vec<u8>) -> (b: Bound)
        ensures
            b == Bound::Inclusive(limit),
    {
        Bound::Inclusive(limit)
    }

    /// A bound that the scan stops short of.
    pub fn exclusive(limit: Vec<u8>) -> (b: Bound)
        ensures
            b == Bound::Exclusive(limit),
    {
        Bound::Exclusive(limit)
    }

    /// A bound at a number, for keys that hold numbers big end first; the
    /// scan reaches it.
    pub fn inclusive_int(limit: u64) -> (b: Bound)
        ensures
            limit_of(Some(b)) == Limit::Closed(be64(limit as nat)),
    {
        Bound::Inclusive(encode_u64(limit))
    }

    /// A bound at a number, for keys that hold numbers big end first; the
    /// scan stops short of it.
    pub fn exclusive_int(limit: u64) -> (b: Bound)
        ensures
            limit_of(Some(b)) == Limit::Beyond(be64(limit as nat)),
    {
        Bound::Exclusive(encode_u64(limit))
    }
}

/// The least key after all keys that start with `prefix`, if there is one.
pub fn upper_bound(prefix: &[u8]) -> (r: Option<Vec<u8>>)
    ensures
        match r {
            Some(bound) => prefix_upper_bound(prefix@) == Some(bound@),
            None => prefix_upper_bound(prefix@) is None,
        },
{
    let mut n: usize = prefix.len();
    assert(prefix@.subrange(0, n as int) =~= prefix@);
    while n > 0 && prefix[n - 1] == 255
        invariant
            n <= prefix.len(),
            trimmed_len(prefix@) == trimmed_len(prefix@.subrange(0, n as int)),
        decreases n,
    {
        assert(prefix@.subrange(0, n as int).drop_last() =~= prefix@.subrange(0, n - 1));
        n -= 1;
    }
    if n == 0 {
        return None;
    }
    let mut out = copy_bytes(vstd::slice::slice_subrange(prefix, 0, n - 1));
    out.push(prefix[n - 1] + 1);
    Some(out)
}

/// The key at which the store is entered for a scan under `prefix`.
pub open spec fn scan_start(prefix: Seq<u8>, start: Limit) -> Seq<u8> {
    match start {
        Limit::Open => prefix,
        Limit::Closed(limit) => prefix + limit,
        Limit::Beyond(limit) => prefix + limit.push(0),
    }
}

/// The key before which the store is left for a scan under `prefix`.
pub open spec fn scan_end(prefix: Seq<u8>, end: Limit) -> Option<Seq<u8>> {
    match end {
        Limit::Open => prefix_upper_bound(prefix),
        Limit::Closed(limit) => Some(prefix + limit.push(0)),
        Limit::Beyond(limit) => Some(prefix + limit),
    }
}

/// The rest of `key` behind a prefix of `n` bytes.
pub open spec fn rest_of(key: Seq<u8>, n: nat) -> Seq<u8> {
    key.subrange(n as int, key.len() as int)
}

/// A key lies between the two ends of the store scan exactly if it starts
/// with the prefix and its rest lies between the two limits.
pub proof fn lemma_scan_range(key: Seq<u8>, prefix: Seq<u8>, start: Limit, end: Limit)
    ensures
        within(key, Some(scan_start(prefix, start)), scan_end(prefix, end)) == (has_prefix(key, prefix)
            && lower_ok(rest_of(key, prefix.len()), start) && upper_ok(
            rest_of(key, prefix.len()),
            end,
        )),
{
    let rest = rest_of(key, prefix.len());
    let lo = scan_start(prefix, start);
    let hi = scan_end(prefix, end);
    lemma_prefix_range(key, prefix);
    lemma_prefix_range(lo, prefix);
    match start {
        Limit::Open => {
            assert(lo =~= prefix + Seq::<u8>::empty());
            lemma_has_prefix(prefix, Seq::<u8>::empty());
        },
        Limit::Closed(limit) => {
            lemma_has_prefix(prefix, limit);
        },
        Limit::Beyond(limit) => {
            lemma_has_prefix(prefix, limit.push(0));
        },
    }
    match end {
        Limit::Open => {},
        Limit::Closed(limit) => {
            lemma_has_prefix(prefix, limit.push(0));
            lemma_prefix_range(prefix + limit.push(0), prefix);
        },
        Limit::Beyond(limit) => {
            lemma_has_prefix(prefix, limit);
            lemma_prefix_range(prefix + limit, prefix);
        },
    }
    if within(key, Some(lo), hi) {
        lemma_lex_le_transitive(prefix, lo, key);
        if prefix_upper_bound(prefix) is Some && end !is Open {
            lemma_lex_le_transitive(key, hi.unwrap(), prefix_upper_bound(prefix).unwrap());
        }
        assert(has_prefix(key, prefix));
    }
    if has_prefix(key, prefix) {
        lemma_prefix_split(key, prefix);
        match start {
            Limit::Open => {},
            Limit::Closed(limit) => {
                lemma_lex_lt_behind_prefix(prefix, limit, rest);
                lemma_same_behind_prefix(prefix, limit, rest);
            },
            Limit::Beyond(limit) => {
                lemma_lex_lt_behind_prefix(prefix, limit.push(0), rest);
                lemma_same_behind_prefix(prefix, limit.push(0), rest);
                lemma_lex_lt_as_le(limit, rest);
            },
        }
        match end {
            Limit::Open => {},
            Limit::Closed(limit) => {
                lemma_lex_lt_behind_prefix(prefix, rest, limit.push(0));
                lemma_lex_le_as_lt(rest, limit);
            },
            Limit::Beyond(limit) => {
                lemma_lex_lt_behind_prefix(prefix, rest, limit);
            },
        }
    }
}

/// The pairs of a store scan without the first `n` bytes of each key.
pub open spec fn trimmed(raw: Seq<(Seq<u8>, Seq<u8>)>, n: nat) -> Seq<(Seq<u8>, Seq<u8>)> {
    Seq::new(raw.len(), |i: int| (rest_of(raw[i].0, n), raw[i].1))
}

/// A store scan between the two ends, with the prefix taken off each key,
/// is the scan under the prefix.
pub proof fn lemma_trimmed_scan(
    entries: Entries,
    prefix: Seq<u8>,
    start: Limit,
    end: Limit,
    order: Order,
    raw: Seq<(Seq<u8>, Seq<u8>)>,
)
    requires
        is_range_scan(entries, Some(scan_start(prefix, start)), scan_end(prefix, end), order, raw),
    ensures
        forall|i: int| 0 <= i < raw.len() ==> has_prefix((#[trigger] raw[i]).0, prefix),
        is_prefix_scan(entries, prefix, start, end, order, trimmed(raw, prefix.len())),
{
    let found = trimmed(raw, prefix.len());
    assert forall|i: int| 0 <= i < raw.len() implies has_prefix((#[trigger] raw[i]).0, prefix)
        && raw[i].0 == prefix + found[i].0 && lower_ok(found[i].0, start) && upper_ok(found[i].0, end) by {
        lemma_scan_range(raw[i].0, prefix, start, end);
        lemma_prefix_split(raw[i].0, prefix);
    }
    assert forall|i: int| 0 <= i < found.len() implies entries.contains_key(
        prefix + (#[trigger] found[i]).0,
    ) && entries[prefix + found[i].0] == found[i].1 && lower_ok(found[i].0, start) && upper_ok(
        found[i].0,
        end,
    ) by {
        assert(raw[i].0 == prefix + found[i].0);
    }
    assert forall|rest: Seq<u8>|
        #[trigger] entries.contains_key(prefix + rest) && lower_ok(rest, start) && upper_ok(
            rest,
            end,
        ) implies exists|i: int| 0 <= i < found.len() && (#[trigger] found[i]).0 == rest by {
        lemma_has_prefix(prefix, rest);
        lemma_scan_range(prefix + rest, prefix, start, end);
        let i = choose|i: int| 0 <= i < raw.len() && (#[trigger] raw[i]).0 == prefix + rest;
        assert(found[i].0 == rest);
    }
    assert forall|i: int, j: int| 0 <= i < j < found.len() implies comes_before(
        order,
        (#[trigger] found[i]).0,
        (#[trigger] found[j]).0,
    ) by {
        assert(raw[i].0 == prefix + found[i].0);
        assert(raw[j].0 == prefix + found[j].0);
        lemma_lex_lt_behind_prefix(prefix, found[i].0, found[j].0);
        lemma_lex_lt_behind_prefix(prefix, found[j].0, found[i].0);
    }
}

/// The bytes of `a`, then those of `b`.
fn concat(a: &[u8], b: &[u8]) -> (out: Vec<u8>)
    ensures
        out@ == a@ + b@,
{
    let mut out = copy_bytes(a);
    out.extend_from_slice(b);
    out
}

/// Scans the entries whose keys start with `namespace`, between the two
/// bounds, and hands out the rest of each key with its value.
pub fn range_with_prefix(
    store: &MemoryStorage,
    namespace: &[u8],
    start: Option<Bound>,
    end: Option<Bound>,
    order: Order,
) -> (found: Vec<(Vec<u8>, Vec<u8>)>)
    ensures
        is_prefix_scan(
            contents(*store),
            namespace@,
            limit_of(start),
            limit_of(end),
            order,
            pairs_view(found@),
        ),
{
    let lo: Vec<u8> = match &start {
        None => copy_bytes(namespace),
        Some(Bound::Inclusive(limit)) => concat(namespace, limit.as_slice()),
        Some(Bound::Exclusive(limit)) => {
            let mut key = concat(namespace, limit.as_slice());
            key.push(0);
            assert(key@ =~= namespace@ + limit@.push(0));
            key
        },
    };
    let hi: Option<Vec<u8>> = match &end {
        None => upper_bound(namespace),
        Some(Bound::Exclusive(limit)) => Some(concat(namespace, limit.as_slice())),
        Some(Bound::Inclusive(limit)) => {
            let mut key = concat(namespace, limit.as_slice());
            key.push(0);
            assert(key@ =~= namespace@ + limit@.push(0));
            Some(key)
        },
    };
    let raw = match &hi {
        Some(key) => store_range(store, Some(lo.as_slice()), Some(key.as_slice()), order),
        None => store_range(store, Some(lo.as_slice()), None, order),
    };
    proof {
        lemma_trimmed_scan(
            contents(*store),
            namespace@,
            limit_of(start),
            limit_of(end),
            order,
            pairs_view(raw@),
        );
    }
    let n: usize = namespace.len();
    let mut found: Vec<(Vec<u8>, Vec<u8>)> = Vec::new();
    let mut i: usize = 0;
    while i < raw.len()
        invariant
            i <= raw.len(),
            n == namespace@.len(),
            forall|j: int| 0 <= j < raw.len() ==> has_prefix((#[trigger] pairs_view(raw@)[j]).0, namespace@),
            found@.len() == i,
            forall|j: int|
                0 <= j < i ==> (#[trigger] pairs_view(found@)[j]) == trimmed(pairs_view(raw@), n as nat)[j],
        decreases raw.len() - i,
    {
        assert(has_prefix(pairs_view(raw@)[i as int].0, namespace@));
        let rest = bytes_from(raw[i].0.as_slice(), n);
        let value = copy_bytes(raw[i].1.as_slice());
        let ghost before = found@;
        found.push((rest, value));
        assert(pairs_view(found@)[i as int] == trimmed(pairs_view(raw@), n as nat)[i as int]);
        assert forall|j: int| 0 <= j < i + 1 implies (#[trigger] pairs_view(found@)[j]) == trimmed(
            pairs_view(raw@),
            n as nat,
        )[j] by {
            if j < i {
                assert(pairs_view(found@)[j] == pairs_view(before)[j]);
            }
        }
        i += 1;
    }
    assert(pairs_view(found@) =~= trimmed(pairs_view(raw@), n as nat));
    found
}

/// How an entry under a prefix leads to a primary key and its record.
#[derive(Clone, Copy, Debug, PartialEq, Eq, Structural)]
pub enum EntryKind {
    /// The entry is the record of a table, under the rest of its key.
    Direct,
    /// The entry is that of a multi-index: the primary key ends its key, and
    /// the table holds the record.
    Multi,
    /// The entry is that of a unique index: it holds primary key and record.
    Unique,
}

/// The byte strings behind the items of a scan.
pub open spec fn items_view(items: Seq<Result<(Vec<u8>, Vec<u8>), StoreError>>) -> Seq<Loaded> {
    Seq::new(items.len(), |i: int| item_view(items[i]))
}

/// The keys of a table or an index that share a prefix, ready to be scanned.
pub struct Prefix {
    /// The namespaces behind their length prefixes: what the keys start with.
    pub storage_prefix: Vec<u8>,
    /// The namespace of the table that holds the records.
    pub pk_name: Vec<u8>,
    /// How an entry leads to its record.
    pub kind: EntryKind,
}

impl Prefix {
    /// The prefix can be scanned.
    pub open spec fn wf(&self) -> bool {
        self.pk_name@.len() <= MAX_SEGMENT_LEN
    }

    /// What an entry under the prefix leads to.
    pub open spec fn loaded(&self, entries: Entries, kv: (Seq<u8>, Seq<u8>)) -> Loaded {
        match self.kind {
            EntryKind::Direct => Ok(kv),
            EntryKind::Multi => multi_kv(entries, self.pk_name@, kv),
            EntryKind::Unique => unique_kv(kv),
        }
    }

    /// `items` is what a scan under the prefix hands out: for each entry
    /// under the prefix and between the limits, in the order of the keys,
    /// what the entry leads to.
    pub open spec fn is_scan(
        &self,
        entries: Entries,
        start: Limit,
        end: Limit,
        order: Order,
        items: Seq<Loaded>,
    ) -> bool {
        exists|raw: Seq<(Seq<u8>, Seq<u8>)>| #[trigger]
            is_prefix_scan(entries, self.storage_prefix@, start, end, order, raw) && items == Seq::new(
                raw.len(),
                |i: int| self.loaded(entries, raw[i]),
            )
    }

    /// The records of a table under `top_name` whose keys lie under each of
    /// `sub_names`.
    pub fn new(top_name: &[u8], sub_names: &[&[u8]]) -> (p: Prefix)
        requires
            top_name@.len() <= MAX_SEGMENT_LEN,
            segments_fit(slices_view(sub_names@)),
        ensures
            p.wf(),
            p.storage_prefix@ == namespaces_prefix(seq![top_name@] + slices_view(sub_names@)),
            p.pk_name@ == Seq::<u8>::empty(),
            p.kind == EntryKind::Direct,
    {
        Prefix {
            storage_prefix: storage_prefix(top_name, sub_names),
            pk_name: Vec::new(),
            kind: EntryKind::Direct,
        }
    }

    /// The entries of an index under `top_name` whose keys lie under each of
    /// `sub_names`; `pk_name` is the namespace of the table.
    pub fn with_kind(top_name: &[u8], sub_names: &[&[u8]], pk_name: &[u8], kind: EntryKind) -> (p:
        Prefix)
        requires
            top_name@.len() <= MAX_SEGMENT_LEN,
            segments_fit(slices_view(sub_names@)),
            pk_name@.len() <= MAX_SEGMENT_LEN,
        ensures
            p.wf(),
            p.storage_prefix@ == namespaces_prefix(seq![top_name@] + slices_view(sub_names@)),
            p.pk_name@ == pk_name@,
            p.kind == kind,
    {
        Prefix {
            storage_prefix: storage_prefix(top_name, sub_names),
            pk_name: copy_bytes(pk_name),
            kind,
        }
    }

    /// Follows one entry under the prefix to its primary key and record.
    pub fn load(&self, store: &MemoryStorage, kv: (Vec<u8>, Vec<u8>)) -> (r: Result<
        (Vec<u8>, Vec<u8>),
        StoreError,
    >)
        requires
            self.wf(),
        ensures
            item_view(r) == self.loaded(contents(*store), (kv.0@, kv.1@)),
    {
        match self.kind {
            EntryKind::Direct => Ok(kv),
            EntryKind::Multi => deserialize_multi_kv(store, self.pk_name.as_slice(), kv),
            EntryKind::Unique => deserialize_unique_kv(kv),
        }
    }

    /// Scans the entries under the prefix between the two bounds, without
    /// following them: each comes as the rest of its key and its value. A
    /// caller that follows them one by one with `load`, and goes on later
    /// from an exclusive bound at the last rest that it took, reads the
    /// table only where it needs a record.
    pub fn entries(&self, store: &MemoryStorage, min: Option<Bound>, max: Option<Bound>, order: Order) -> (found:
        Vec<(Vec<u8>, Vec<u8>)>)
        ensures
            is_prefix_scan(
                contents(*store),
                self.storage_prefix@,
                limit_of(min),
                limit_of(max),
                order,
                pairs_view(found@),
            ),
    {
        range_with_prefix(store, self.storage_prefix.as_slice(), min, max, order)
    }

    /// Scans the entries under the prefix between the two bounds and
    /// follows each to its primary key and record.
    pub fn range(&self, store: &MemoryStorage, min: Option<Bound>, max: Option<Bound>, order: Order) -> (found:
        Vec<Result<(Vec<u8>, Vec<u8>), StoreError>>)
        requires
            self.wf(),
        ensures
            self.is_scan(contents(*store), limit_of(min), limit_of(max), order, items_view(found@)),
    {
        let raw = range_with_prefix(store, self.storage_prefix.as_slice(), min, max, order);
        let mut found: Vec<Result<(Vec<u8>, Vec<u8>), StoreError>> = Vec::new();
        let mut i: usize = 0;
        while i < raw.len()
            invariant
                i <= raw.len(),
                self.wf(),
                found@.len() == i,
                forall|j: int|
                    0 <= j < i ==> item_view(#[trigger] found@[j]) == self.loaded(
                        contents(*store),
                        pairs_view(raw@)[j],
                    ),
            decreases raw.len() - i,
        {
            let kv = (copy_bytes(raw[i].0.as_slice()), copy_bytes(raw[i].1.as_slice()));
            let item = self.load(store, kv);
            found.push(item);
            i += 1;
        }
        assert(items_view(found@) =~= Seq::new(
            pairs_view(raw@).len(),
            |i: int| self.loaded(contents(*store), pairs_view(raw@)[i]),
        ));
        found
    }
}

/// The entries of a multi-index that share a prefix, ready to be scanned,
/// with the function that recovers the primary key from the end of a key,
/// where the index has one.
pub struct CustomPrefix<'a, G> {
    /// The namespaces behind their length prefixes: what the keys start with.
    pub storage_prefix: Vec<u8>,
    /// The namespace of the table that holds the records.
    pub pk_name: Vec<u8>,
    /// Makes the primary key of the end of an index key.
    pub dese_fn: Option<&'a G>,
}

impl<'a, G: Fn(Vec<u8>) -> Vec<u8>> CustomPrefix<'a, G> {
    /// The prefix can be scanned.
    pub open spec fn wf(&self) -> bool {
        &&& self.pk_name@.len() <= MAX_SEGMENT_LEN
        &&& self.dese_fn matches Some(g) ==> recover_fn_ok(*g)
    }

    /// What an entry under the prefix leads to.
    pub open spec fn loaded(&self, entries: Entries, kv: (Seq<u8>, Seq<u8>)) -> Loaded {
        match self.dese_fn {
            Some(g) => custom_kv(entries, self.pk_name@, kv, *g),
            None => multi_kv(entries, self.pk_name@, kv),
        }
    }

    /// `items` is what a scan under the prefix hands out: for each entry
    /// under the prefix and between the limits, in the order of the keys,
    /// what the entry leads to.
    pub open spec fn is_scan(
        &self,
        entries: Entries,
        start: Limit,
        end: Limit,
        order: Order,
        items: Seq<Loaded>,
    ) -> bool {
        exists|raw: Seq<(Seq<u8>, Seq<u8>)>| #[trigger]
            is_prefix_scan(entries, self.storage_prefix@, start, end, order, raw) && items == Seq::new(
                raw.len(),
                |i: int| self.loaded(entries, raw[i]),
            )
    }

    /// Follows one entry under the prefix to its primary key and record.
    pub fn load(&self, store: &MemoryStorage, kv: (Vec<u8>, Vec<u8>)) -> (r: Result<
        (Vec<u8>, Vec<u8>),
        StoreError,
    >)
        requires
            self.wf(),
        ensures
            item_view(r) == self.loaded(contents(*store), (kv.0@, kv.1@)),
    {
        match self.dese_fn {
            Some(g) => deserialize_custom_kv(store, self.pk_name.as_slice(), kv, g),
            None => deserialize_multi_kv(store, self.pk_name.as_slice(), kv),
        }
    }

    /// Scans the entries under the prefix between the two bounds, without
    /// following them: each comes as the rest of its key and its value. A
    /// caller that follows them one by one with `load`, and goes on later
    /// from an exclusive bound at the last rest that it took, reads the
    /// table only where it needs a record.
    pub fn entries(&self, store: &MemoryStorage, min: Option<Bound>, max: Option<Bound>, order: Order) -> (found:
        Vec<(Vec<u8>, Vec<u8>)>)
        ensures
            is_prefix_scan(
                contents(*store),
                self.storage_prefix@,
                limit_of(min),
                limit_of(max),
                order,
                pairs_view(found@),
            ),
    {
        range_with_prefix(store, self.storage_prefix.as_slice(), min, max, order)
    }

    /// Scans the entries under the prefix between the two bounds and
    /// follows each to its primary key and record.
    pub fn range(&self, store: &MemoryStorage, min: Option<Bound>, max: Option<Bound>, order: Order) -> (found:
        Vec<Result<(Vec<u8>, Vec<u8>), StoreError>>)
        requires
            self.wf(),
        ensures
            self.is_scan(contents(*store), limit_of(min), limit_of(max), order, items_view(found@)),
    {
        let raw = range_with_prefix(store, self.storage_prefix.as_slice(), min, max, order);
        let mut found: Vec<Result<(Vec<u8>, Vec<u8>), StoreError>> = Vec::new();
        let mut i: usize = 0;
        while i < raw.len()
            invariant
                i <= raw.len(),
                self.wf(),
                found@.len() == i,
                forall|j: int|
                    0 <= j < i ==> item_view(#[trigger] found@[j]) == self.loaded(
                        contents(*store),
                        pairs_view(raw@)[j],
                    ),
            decreases raw.len() - i,
        {
            let kv = (copy_bytes(raw[i].0.as_slice()), copy_bytes(raw[i].1.as_slice()));
            let item = self.load(store, kv);
            found.push(item);
            i += 1;
        }
        assert(items_view(found@) =~= Seq::new(
            pairs_view(raw@).len(),
            |i: int| self.loaded(contents(*store), pairs_view(raw@)[i]),
        ));
        found
    }
}

} // verus!
