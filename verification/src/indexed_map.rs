//! A table that owns its indexes, and the two plain kinds of index.

use vstd::prelude::*;
use cosmwasm_std::MemoryStorage;
use crate::codec::{
    joined, joined_key, key_view, name_bytes, namespace_bytes, namespaces_prefix, segments_fit,
    slices_view, IndexKey, MAX_SEGMENT_LEN,
};
use crate::error::StoreError;
use crate::helpers::{decode_unique_ref, primary_key, unique_ref_value};
use crate::index::{
    entry_key, index_entry_key, is_pk, is_record, multi_entry, remove_entry, save_multi_entry,
    save_unique_entry, unique_entry, Index, IndexEntry, IndexList,
};
use crate::indexed_map_ref::{replaced, slice_view, IndexedMapRef};
use crate::item::{load_view, loaded, may_loaded, record_view};
use crate::key_fn::{
    derive_multi_key, derive_unique_key, multi_fn_ok, multi_key, unique_fn_ok, unique_key,
};
use crate::prefix::{EntryKind, Prefix};
use crate::store::{contents, store_get, Entries};

verus! {

/// A table that owns its namespace and its indexes.
#[derive(Debug, Clone)]
pub struct IndexedMapCow<I> {
    /// The namespace of the table.
    pub pk_namespace: String,
    /// The indexes of the table.
    pub index: I,
}

impl<I> IndexedMapCow<I> {
    /// A table under a namespace given by reference.
    pub fn new_ref(pk_namespace: &str, index: I) -> (map: Self)
        ensures
            map.pk_namespace@ == pk_namespace@,
            map.index == index,
    {
        Self { pk_namespace: pk_namespace.to_owned(), index }
    }

    /// A table under a namespace that the table owns.
    pub fn new_owned(pk_namespace: String, index: I) -> (map: Self)
        ensures
            map.pk_namespace == pk_namespace,
            map.index == index,
    {
        Self { pk_namespace, index }
    }

    /// The namespace of the table.
    pub fn pk_namespace(&self) -> (name: &str)
        ensures
            name@ == self.pk_namespace@,
    {
        self.pk_namespace.as_str()
    }
}

impl<I: IndexList> IndexedMapCow<I> {
    /// The namespace fits its length prefix and the indexes can be used.
    pub open spec fn wf(&self) -> bool {
        &&& name_bytes(self.pk_namespace@).len() <= MAX_SEGMENT_LEN
        &&& self.index.wf()
    }

    /// The key of the store under which the table keeps `k`.
    pub open spec fn storage_key(&self, k: Seq<u8>) -> Seq<u8> {
        primary_key(name_bytes(self.pk_namespace@), k)
    }

    /// The record that the table holds for `k`, if any.
    pub open spec fn current(&self, entries: Entries, k: Seq<u8>) -> Option<Seq<u8>> {
        may_loaded(entries, self.storage_key(k))
    }

    /// The store after the record of `k` has gone from `old` to `new`.
    pub open spec fn replaced(
        &self,
        entries: Entries,
        k: Seq<u8>,
        new: Option<Seq<u8>>,
        old: Option<Seq<u8>>,
    ) -> (Entries, Option<StoreError>) {
        replaced(self.index, name_bytes(self.pk_namespace@), entries, k, new, old)
    }

    /// The table and its indexes by reference.
    pub fn indexed_map(&self) -> (map: IndexedMapRef<'_, I>)
        ensures
            map.pk_namespace@ == self.pk_namespace@,
            *map.idx == self.index,
            self.wf() ==> map.wf(),
    {
        IndexedMapRef::new(self.pk_namespace.as_str(), &self.index)
    }

    /// The key of the store under which the table keeps `k`.
    pub fn key(&self, k: &[u8]) -> (key: Vec<u8>)
        requires
            self.wf(),
        ensures
            key@ == self.storage_key(k@),
    {
        self.indexed_map().key(k)
    }

    /// Stores `data` under `key` and brings the indexes in line: the
    /// entries of the record that was there leave, those of `data` enter.
    pub fn save(&self, store: &mut MemoryStorage, key: &[u8], data: &[u8]) -> (r: Result<(), StoreError>)
        requires
            self.wf(),
            is_pk(key@),
            is_record(data@),
        ensures
            contents(*final(store)) == self.replaced(
                contents(*old(store)),
                key@,
                Some(data@),
                self.current(contents(*old(store)), key@),
            ).0,
            match self.replaced(
                contents(*old(store)),
                key@,
                Some(data@),
                self.current(contents(*old(store)), key@),
            ).1 {
                None => r is Ok,
                Some(e) => r == Err::<(), StoreError>(e),
            },
            r is Ok ==> loaded(contents(*final(store)), self.storage_key(key@)) == Ok::<
                Seq<u8>,
                StoreError,
            >(data@),
    {
        self.indexed_map().save(store, key, data)
    }

    /// Drops the record under `key` and its entries in the indexes.
    pub fn remove(&self, store: &mut MemoryStorage, key: &[u8]) -> (r: Result<(), StoreError>)
        requires
            self.wf(),
            is_pk(key@),
        ensures
            r is Ok,
            contents(*final(store)) == self.replaced(
                contents(*old(store)),
                key@,
                None,
                self.current(contents(*old(store)), key@),
            ).0,
    {
        self.indexed_map().remove(store, key)
    }

    /// Takes the record of `key` from `old_data` to `data`, in the indexes
    /// and in the table.
    pub fn replace(
        &self,
        store: &mut MemoryStorage,
        key: &[u8],
        data: Option<&[u8]>,
        old_data: Option<&[u8]>,
    ) -> (r: Result<(), StoreError>)
        requires
            self.wf(),
            is_pk(key@),
            data matches Some(record) ==> is_record(record@),
        ensures
            contents(*final(store)) == self.replaced(
                contents(*old(store)),
                key@,
                slice_view(data),
                slice_view(old_data),
            ).0,
            match self.replaced(contents(*old(store)), key@, slice_view(data), slice_view(old_data)).1 {
                None => r is Ok,
                Some(e) => r == Err::<(), StoreError>(e),
            },
    {
        self.indexed_map().replace(store, key, data, old_data)
    }

    /// Loads the record under `key`, if any, lets `action` make the new
    /// record of it, and takes the table and the indexes from the one to
    /// the other. Where `action` fails, its error comes back and the store
    /// stays as it is.
    pub fn update<A, E>(&self, store: &mut MemoryStorage, key: &[u8], action: A) -> (r: Result<
        Vec<u8>,
        E,
    >) where A: FnOnce(Option<Vec<u8>>) -> Result<Vec<u8>, E>, E: From<StoreError>
        requires
            self.wf(),
            is_pk(key@),
            forall|input: Option<Vec<u8>>| call_requires(action, (input,)),
            forall|input: Option<Vec<u8>>, output: Vec<u8>|
                call_ensures(action, (input,), Ok::<Vec<u8>, E>(output)) ==> is_record(output@),
        ensures
            exists|input: Option<Vec<u8>>, outcome: Result<Vec<u8>, E>|
                record_view(input) == self.current(contents(*old(store)), key@)
                    && #[trigger] call_ensures(action, (input,), outcome) && match outcome {
                    Err(_) => r == outcome && contents(*final(store)) == contents(*old(store)),
                    Ok(output) => {
                        let (next, failure) = self.replaced(
                            contents(*old(store)),
                            key@,
                            Some(output@),
                            record_view(input),
                        );
                        contents(*final(store)) == next && match failure {
                            None => r == outcome,
                            Some(e) => (r matches Err(failed) && call_ensures(E::from, (e,), failed)),
                        }
                    },
                },
            (forall|input: Option<Vec<u8>>, outcome: Result<Vec<u8>, E>|
                call_ensures(action, (input,), outcome) ==> outcome is Err) ==> contents(*final(store))
                == contents(*old(store)),
    {
        self.indexed_map().update(store, key, action)
    }

    /// The record under `key`; it is an error if there is none.
    pub fn load(&self, store: &MemoryStorage, key: &[u8]) -> (r: Result<Vec<u8>, StoreError>)
        requires
            self.wf(),
        ensures
            load_view(r) == loaded(contents(*store), self.storage_key(key@)),
    {
        self.indexed_map().load(store, key)
    }

    /// The record under `key`, if there is one.
    pub fn may_load(&self, store: &MemoryStorage, key: &[u8]) -> (r: Result<Option<Vec<u8>>, StoreError>)
        requires
            self.wf(),
        ensures
            r matches Ok(found) && record_view(found) == self.current(contents(*store), key@),
    {
        self.indexed_map().may_load(store, key)
    }

    /// The records of the table whose keys lie under each segment of `p`.
    pub fn prefix(&self, p: &[&[u8]]) -> (prefix: Prefix)
        requires
            self.wf(),
            segments_fit(slices_view(p@)),
        ensures
            prefix.wf(),
            prefix.kind == EntryKind::Direct,
            prefix.storage_prefix@ == namespaces_prefix(
                seq![name_bytes(self.pk_namespace@)] + slices_view(p@),
            ),
    {
        self.indexed_map().prefix(p)
    }

    /// The records of the table whose keys lie under each segment of `p`,
    /// where `p` is short of the full prefix of a key.
    pub fn sub_prefix(&self, p: &[&[u8]]) -> (prefix: Prefix)
        requires
            self.wf(),
            segments_fit(slices_view(p@)),
        ensures
            prefix.wf(),
            prefix.kind == EntryKind::Direct,
            prefix.storage_prefix@ == namespaces_prefix(
                seq![name_bytes(self.pk_namespace@)] + slices_view(p@),
            ),
    {
        self.indexed_map().sub_prefix(p)
    }
}

/// An index under whose keys many records may stand: the key function puts
/// the primary key at the end of each index key, and the entry holds the
/// length of the primary key.
#[derive(Clone)]
pub struct MultiIndexCow<F> {
    /// The namespace of the table that the index belongs to.
    pub pk_namespace: String,
    /// The namespace of the index.
    pub idx_namespace: String,
    /// Makes the index key of a record and its primary key.
    pub idx_fn: F,
}

impl<F> MultiIndexCow<F> {
    /// An index under namespaces given by reference.
    pub fn new_ref(pk_namespace: &str, idx_namespace: &str, idx_fn: F) -> (index: Self)
        ensures
            index.pk_namespace@ == pk_namespace@,
            index.idx_namespace@ == idx_namespace@,
            index.idx_fn == idx_fn,
    {
        Self {
            idx_fn,
            pk_namespace: pk_namespace.to_owned(),
            idx_namespace: idx_namespace.to_owned(),
        }
    }

    /// An index under namespaces that the index owns.
    pub fn new_owned(pk_namespace: String, idx_namespace: String, idx_fn: F) -> (index: Self)
        ensures
            index.pk_namespace == pk_namespace,
            index.idx_namespace == idx_namespace,
            index.idx_fn == idx_fn,
    {
        Self { idx_fn, pk_namespace, idx_namespace }
    }

    /// The namespace of the table that the index belongs to.
    pub fn pk_namespace(&self) -> (name: &str)
        ensures
            name@ == self.pk_namespace@,
    {
        self.pk_namespace.as_str()
    }

    /// The namespace of the index.
    pub fn idx_namespace(&self) -> (name: &str)
        ensures
            name@ == self.idx_namespace@,
    {
        self.idx_namespace.as_str()
    }
}

impl<F: Fn(&[u8], Vec<u8>) -> IndexKey> MultiIndexCow<F> {
    /// The index key of `record` under `pk`.
    pub open spec fn key_of(&self, pk: Seq<u8>, record: Seq<u8>) -> (Seq<Seq<u8>>, Seq<u8>) {
        multi_key(self.idx_fn, record, pk)
    }

    /// The entries under the leading segments `p` of the index keys.
    pub fn prefix(&self, p: &[&[u8]]) -> (prefix: Prefix)
        requires
            self.wf(),
            segments_fit(slices_view(p@)),
        ensures
            prefix.wf(),
            prefix.kind == EntryKind::Multi,
            prefix.pk_name@ == name_bytes(self.pk_namespace@),
            prefix.storage_prefix@ == namespaces_prefix(
                seq![name_bytes(self.idx_namespace@)] + slices_view(p@),
            ),
    {
        Prefix::with_kind(
            namespace_bytes(&self.idx_namespace),
            p,
            namespace_bytes(&self.pk_namespace),
            EntryKind::Multi,
        )
    }

    /// The entries under the segments `p`, where `p` is short of the
    /// leading segments of an index key.
    pub fn sub_prefix(&self, p: &[&[u8]]) -> (prefix: Prefix)
        requires
            self.wf(),
            segments_fit(slices_view(p@)),
        ensures
            prefix.wf(),
            prefix.kind == EntryKind::Multi,
            prefix.pk_name@ == name_bytes(self.pk_namespace@),
            prefix.storage_prefix@ == namespaces_prefix(
                seq![name_bytes(self.idx_namespace@)] + slices_view(p@),
            ),
    {
        Prefix::with_kind(
            namespace_bytes(&self.idx_namespace),
            p,
            namespace_bytes(&self.pk_namespace),
            EntryKind::Multi,
        )
    }

    /// The bytes of an index key below the namespace of the index.
    pub fn index_key(&self, k: IndexKey) -> (key: Vec<u8>)
        requires
            segments_fit(key_view(k).0),
        ensures
            key@ == joined(key_view(k)),
    {
        joined_key(&k)
    }

    /// What the index is as an `Index`, spelled out. A caller that holds
    /// an index with a key function of its own learns from this when the
    /// index can be used and which entry it keeps.
    pub proof fn as_index(self, pk: Seq<u8>, record: Seq<u8>)
        ensures
            self.wf() == (name_bytes(self.pk_namespace@).len() <= MAX_SEGMENT_LEN && name_bytes(
                self.idx_namespace@,
            ).len() <= MAX_SEGMENT_LEN && multi_fn_ok(self.idx_fn)),
            self.entry(pk, record) == Some(
                multi_entry(name_bytes(self.idx_namespace@), self.key_of(pk, record), pk),
            ),
    {
    }
}

impl<F: Fn(&[u8], Vec<u8>) -> IndexKey> Index for MultiIndexCow<F> {
    /// The namespaces fit their length prefix, and the key function can be
    /// called on every record, is pure and gives segments that fit.
    open spec fn wf(&self) -> bool {
        &&& name_bytes(self.pk_namespace@).len() <= MAX_SEGMENT_LEN
        &&& name_bytes(self.idx_namespace@).len() <= MAX_SEGMENT_LEN
        &&& multi_fn_ok(self.idx_fn)
    }

    open spec fn entry(&self, pk: Seq<u8>, record: Seq<u8>) -> Option<IndexEntry> {
        Some(multi_entry(name_bytes(self.idx_namespace@), self.key_of(pk, record), pk))
    }

    fn save(&self, store: &mut MemoryStorage, pk: &[u8], data: &[u8]) -> (r: Result<(), StoreError>) {
        let idx = derive_multi_key(&self.idx_fn, data, pk);
        save_multi_entry(store, namespace_bytes(&self.idx_namespace), &idx, pk);
        Ok(())
    }

    fn remove(&self, store: &mut MemoryStorage, pk: &[u8], old_data: &[u8]) -> (r: Result<
        (),
        StoreError,
    >) {
        let idx = derive_multi_key(&self.idx_fn, old_data, pk);
        remove_entry(store, namespace_bytes(&self.idx_namespace), &idx);
        Ok(())
    }
}

/// An index under whose keys one record may stand: the entry holds the
/// primary key and a copy of the record.
///
/// Where the records of two primary keys have one index key, the index
/// rejects the second: its save fails with `StoreError::DuplicateKey` and
/// the first entry stays. An index made with `overwriting` lets the last
/// write win instead: the second entry takes the place of the first, and
/// the index then no longer leads to the record of the first primary key.
#[derive(Clone)]
pub struct UniqueIndexCow<F> {
    /// The namespace of the index.
    pub idx_namespace: String,
    /// Makes the index key of a record.
    pub idx_fn: F,
    /// Whether a save overwrites the entry of another primary key.
    pub overwrite: bool,
}

impl<F> UniqueIndexCow<F> {
    /// An index under a namespace given by reference.
    pub fn new_ref(idx_namespace: &str, idx_fn: F) -> (index: Self)
        ensures
            index.idx_namespace@ == idx_namespace@,
            index.idx_fn == idx_fn,
            !index.overwrite,
    {
        Self { idx_fn, idx_namespace: idx_namespace.to_owned(), overwrite: false }
    }

    /// An index under a namespace that the index owns.
    pub fn new_owned(idx_namespace: String, idx_fn: F) -> (index: Self)
        ensures
            index.idx_namespace == idx_namespace,
            index.idx_fn == idx_fn,
            !index.overwrite,
    {
        Self { idx_fn, idx_namespace, overwrite: false }
    }

    /// The same index, but the last write wins: a save overwrites the
    /// entry of another primary key instead of failing.
    pub fn overwriting(self) -> (index: Self)
        ensures
            index.idx_namespace == self.idx_namespace,
            index.idx_fn == self.idx_fn,
            index.overwrite,
    {
        Self { idx_fn: self.idx_fn, idx_namespace: self.idx_namespace, overwrite: true }
    }

    /// The namespace of the index.
    pub fn idx_namespace(&self) -> (name: &str)
        ensures
            name@ == self.idx_namespace@,
    {
        self.idx_namespace.as_str()
    }
}

/// The bytes behind a primary key and a record that an index handed out.
pub open spec fn pair_view(pair: Option<(Vec<u8>, Vec<u8>)>) -> Option<(Seq<u8>, Seq<u8>)> {
    match pair {
        Some(p) => Some((p.0@, p.1@)),
        None => None,
    }
}

impl<F: Fn(&[u8]) -> IndexKey> UniqueIndexCow<F> {
    /// The index key of `record`.
    pub open spec fn key_of(&self, record: Seq<u8>) -> (Seq<Seq<u8>>, Seq<u8>) {
        unique_key(self.idx_fn, record)
    }

    /// What the index holds under the index key `idx`: nothing, a primary
    /// key with its record, or bytes that no unique index wrote.
    pub open spec fn item_of(&self, entries: Entries, idx: (Seq<Seq<u8>>, Seq<u8>)) -> Result<
        Option<(Seq<u8>, Seq<u8>)>,
        StoreError,
    > {
        let key = entry_key(name_bytes(self.idx_namespace@), idx);
        if !entries.contains_key(key) {
            Ok(None)
        } else {
            match unique_ref_value(entries[key]) {
                Some(pair) => Ok(Some(pair)),
                None => Err(StoreError::Deserialize),
            }
        }
    }

    /// The bytes of an index key below the namespace of the index.
    pub fn index_key(&self, k: IndexKey) -> (key: Vec<u8>)
        requires
            segments_fit(key_view(k).0),
        ensures
            key@ == joined(key_view(k)),
    {
        joined_key(&k)
    }

    /// The entries under the leading segments `p` of the index keys.
    pub fn prefix(&self, p: &[&[u8]]) -> (prefix: Prefix)
        requires
            self.wf(),
            segments_fit(slices_view(p@)),
        ensures
            prefix.wf(),
            prefix.kind == EntryKind::Unique,
            prefix.storage_prefix@ == namespaces_prefix(
                seq![name_bytes(self.idx_namespace@)] + slices_view(p@),
            ),
    {
        let no_name: Vec<u8> = Vec::new();
        Prefix::with_kind(namespace_bytes(&self.idx_namespace), p, no_name.as_slice(), EntryKind::Unique)
    }

    /// The entries under the segments `p`, where `p` is short of the
    /// leading segments of an index key.
    pub fn sub_prefix(&self, p: &[&[u8]]) -> (prefix: Prefix)
        requires
            self.wf(),
            segments_fit(slices_view(p@)),
        ensures
            prefix.wf(),
            prefix.kind == EntryKind::Unique,
            prefix.storage_prefix@ == namespaces_prefix(
                seq![name_bytes(self.idx_namespace@)] + slices_view(p@),
            ),
    {
        let no_name: Vec<u8> = Vec::new();
        Prefix::with_kind(namespace_bytes(&self.idx_namespace), p, no_name.as_slice(), EntryKind::Unique)
    }

    /// What the index is as an `Index`, spelled out. A caller that holds
    /// an index with a key function of its own learns from this when the
    /// index can be used and which entry it keeps.
    pub proof fn as_index(self, pk: Seq<u8>, record: Seq<u8>)
        ensures
            self.wf() == (name_bytes(self.idx_namespace@).len() <= MAX_SEGMENT_LEN && unique_fn_ok(
                self.idx_fn,
            )),
            self.entry(pk, record) == Some(
                unique_entry(
                    name_bytes(self.idx_namespace@),
                    self.key_of(record),
                    pk,
                    record,
                    !self.overwrite,
                ),
            ),
    {
    }

    /// The primary key and the record that stand under the index key `idx`.
    pub fn item(&self, store: &MemoryStorage, idx: IndexKey) -> (r: Result<
        Option<(Vec<u8>, Vec<u8>)>,
        StoreError,
    >)
        requires
            self.wf(),
            segments_fit(key_view(idx).0),
        ensures
            match self.item_of(contents(*store), key_view(idx)) {
                Ok(found) => r matches Ok(pair) && pair_view(pair) == found,
                Err(e) => r == Err::<Option<(Vec<u8>, Vec<u8>)>, StoreError>(e),
            },
    {
        let key = index_entry_key(namespace_bytes(&self.idx_namespace), &idx);
        match store_get(store, key.as_slice()) {
            None => Ok(None),
            Some(bytes) => match decode_unique_ref(bytes.as_slice()) {
                Some(pair) => Ok(Some(pair)),
                None => Err(StoreError::Deserialize),
            },
        }
    }
}

impl<F: Fn(&[u8]) -> IndexKey> Index for UniqueIndexCow<F> {
    /// The namespace fits its length prefix, and the key function can be
    /// called on every record, is pure and gives segments that fit.
    open spec fn wf(&self) -> bool {
        &&& name_bytes(self.idx_namespace@).len() <= MAX_SEGMENT_LEN
        &&& unique_fn_ok(self.idx_fn)
    }

    open spec fn entry(&self, pk: Seq<u8>, record: Seq<u8>) -> Option<IndexEntry> {
        Some(
            unique_entry(
                name_bytes(self.idx_namespace@),
                self.key_of(record),
                pk,
                record,
                !self.overwrite,
            ),
        )
    }

    fn save(&self, store: &mut MemoryStorage, pk: &[u8], data: &[u8]) -> (r: Result<(), StoreError>) {
        let idx = derive_unique_key(&self.idx_fn, data);
        save_unique_entry(store, namespace_bytes(&self.idx_namespace), &idx, pk, data, !self.overwrite)
    }

    fn remove(&self, store: &mut MemoryStorage, pk: &[u8], old_data: &[u8]) -> (r: Result<
        (),
        StoreError,
    >) {
        let idx = derive_unique_key(&self.idx_fn, old_data);
        remove_entry(store, namespace_bytes(&self.idx_namespace), &idx);
        Ok(())
    }
}

} // verus!
