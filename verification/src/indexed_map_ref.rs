//! A table with its indexes, both held by reference: every write to the
//! table goes through the indexes too.

use vstd::prelude::*;
use cosmwasm_std::MemoryStorage;
use crate::codec::{
    copy_bytes, name_bytes, namespaces_prefix, segments_fit, slices_view, MAX_SEGMENT_LEN,
};
use crate::error::StoreError;
use crate::helpers::{primary_key, table_key};
use crate::index::{is_pk, is_record, removed_all, saved_all, IndexList};
use crate::item::{load_view, loaded, may_loaded, record_view};
use crate::prefix::{EntryKind, Prefix};
use crate::store::{contents, store_get, store_remove, store_set, Entries};

verus! {

/// The store after the record of `pk` has gone from `old` to `new` in the
/// table of `pk_namespace` with the indexes `index`, and the failure of an
/// index that stopped the change half way, if one did.
///
/// The entries of the old record leave the indexes; then the entries of the
/// new record enter them and the record enters the table, or, without a new
/// record, the table drops the key. After a failure the indexes that came
/// before the failing one are changed, the others and the table are not.
pub open spec fn replaced<I: IndexList>(
    index: I,
    pk_namespace: Seq<u8>,
    entries: Entries,
    pk: Seq<u8>,
    new: Option<Seq<u8>>,
    old: Option<Seq<u8>>,
) -> (Entries, Option<StoreError>) {
    let after = cleared(index, entries, pk, old);
    match new {
        Some(record) => {
            let (indexed, failure) = saved_all(after, index.plan(pk, record), pk);
            match failure {
                None => (indexed.insert(primary_key(pk_namespace, pk), record), None),
                Some(e) => (indexed, Some(e)),
            }
        },
        None => (after.remove(primary_key(pk_namespace, pk)), None),
    }
}

/// The store after the entries of the old record of `pk`, if there was
/// one, have left the indexes.
pub open spec fn cleared<I: IndexList>(
    index: I,
    entries: Entries,
    pk: Seq<u8>,
    old: Option<Seq<u8>>,
) -> Entries {
    match old {
        Some(record) => removed_all(entries, index.plan(pk, record)),
        None => entries,
    }
}

/// The bytes behind an optional borrowed record.
pub open spec fn slice_view(record: Option<&[u8]>) -> Option<Seq<u8>> {
    match record {
        Some(bytes) => Some(bytes@),
        None => None,
    }
}

/// A table and its indexes, by reference.
pub struct IndexedMapRef<'a, I> {
    /// The namespace of the table.
    pub pk_namespace: &'a str,
    /// The indexes of the table.
    pub idx: &'a I,
}

impl<'a, I> IndexedMapRef<'a, I> {
    /// The table of `pk_namespace` with the indexes `indexes`.
    pub fn new(pk_namespace: &'a str, indexes: &'a I) -> (map: Self)
        ensures
            map.pk_namespace@ == pk_namespace@,
            map.idx == indexes,
    {
        Self { pk_namespace, idx: indexes }
    }
}

impl<'a, I: IndexList> IndexedMapRef<'a, I> {
    /// The namespace fits its length prefix and the indexes can be used.
    pub open spec fn wf(&self) -> bool {
        &&& name_bytes(self.pk_namespace@).len() <= MAX_SEGMENT_LEN
        &&& self.idx.wf()
    }

    /// The key of the store under which the table keeps `k`.
    pub open spec fn storage_key(&self, k: Seq<u8>) -> Seq<u8> {
        primary_key(name_bytes(self.pk_namespace@), k)
    }

    /// The record that the table holds for `k`, if any.
    pub open spec fn current(&self, entries: Entries, k: Seq<u8>) -> Option<Seq<u8>> {
        may_loaded(entries, self.storage_key(k))
    }

    /// The store after the record of `k` has gone from `old` to `new`.
    pub open spec fn replaced(
        &self,
        entries: Entries,
        k: Seq<u8>,
        new: Option<Seq<u8>>,
        old: Option<Seq<u8>>,
    ) -> (Entries, Option<StoreError>) {
        replaced(*self.idx, name_bytes(self.pk_namespace@), entries, k, new, old)
    }

    /// The key of the store under which the table keeps `k`.
    pub fn key(&self, k: &[u8]) -> (key: Vec<u8>)
        requires
            self.wf(),
        ensures
            key@ == self.storage_key(k@),
    {
        table_key(self.pk_namespace.as_bytes(), k)
    }

    /// Stores `data` under `key` and brings the indexes in line: the
    /// entries of the record that was there leave, those of `data` enter.
    pub fn save(&self, store: &mut MemoryStorage, key: &[u8], data: &[u8]) -> (r: Result<(), StoreError>)
        requires
            self.wf(),
            is_pk(key@),
            is_record(data@),
        ensures
            contents(*final(store)) == self.replaced(
                contents(*old(store)),
                key@,
                Some(data@),
                self.current(contents(*old(store)), key@),
            ).0,
            match self.replaced(
                contents(*old(store)),
                key@,
                Some(data@),
                self.current(contents(*old(store)), key@),
            ).1 {
                None => r is Ok,
                Some(e) => r == Err::<(), StoreError>(e),
            },
            r is Ok ==> loaded(contents(*final(store)), self.storage_key(key@)) == Ok::<
                Seq<u8>,
                StoreError,
            >(data@),
    {
        let old_data = match self.may_load(store, key) {
            Ok(found) => found,
            Err(e) => {
                return Err(e);
            },
        };
        match &old_data {
            Some(record) => self.replace(store, key, Some(data), Some(record.as_slice())),
            None => self.replace(store, key, Some(data), None),
        }
    }

    /// Drops the record under `key` and its entries in the indexes.
    pub fn remove(&self, store: &mut MemoryStorage, key: &[u8]) -> (r: Result<(), StoreError>)
        requires
            self.wf(),
            is_pk(key@),
        ensures
            r is Ok,
            contents(*final(store)) == self.replaced(
                contents(*old(store)),
                key@,
                None,
                self.current(contents(*old(store)), key@),
            ).0,
    {
        let old_data = match self.may_load(store, key) {
            Ok(found) => found,
            Err(e) => {
                return Err(e);
            },
        };
        match &old_data {
            Some(record) => self.replace(store, key, None, Some(record.as_slice())),
            None => self.replace(store, key, None, None),
        }
    }

    /// Takes the record of `key` from `old_data` to `data`: removes the
    /// entries of `old_data` from every index, in order; then saves the
    /// entries of `data` in every index and `data` in the table, or,
    /// without `data`, drops `key` from the table. Stops at the first index
    /// that fails, and leaves what was done until then.
    pub fn replace(
        &self,
        store: &mut MemoryStorage,
        key: &[u8],
        data: Option<&[u8]>,
        old_data: Option<&[u8]>,
    ) -> (r: Result<(), StoreError>)
        requires
            self.wf(),
            is_pk(key@),
            data matches Some(record) ==> is_record(record@),
        ensures
            contents(*final(store)) == self.replaced(
                contents(*old(store)),
                key@,
                slice_view(data),
                slice_view(old_data),
            ).0,
            match self.replaced(contents(*old(store)), key@, slice_view(data), slice_view(old_data)).1 {
                None => r is Ok,
                Some(e) => r == Err::<(), StoreError>(e),
            },
    {
        if let Some(old_record) = old_data {
            match self.idx.remove_all(store, key, old_record) {
                Ok(()) => {},
                Err(e) => {
                    return Err(e);
                },
            }
        }
        let full_key = self.key(key);
        if let Some(updated) = data {
            match self.idx.save_all(store, key, updated) {
                Ok(()) => {},
                Err(e) => {
                    return Err(e);
                },
            }
            store_set(store, full_key.as_slice(), updated);
        } else {
            store_remove(store, full_key.as_slice());
        }
        Ok(())
    }

    /// Loads the record under `key`, if any, lets `action` make the new
    /// record of it, and takes the table and the indexes from the one to
    /// the other. Where `action` fails, its error comes back and the store
    /// stays as it is.
    pub fn update<A, E>(&self, store: &mut MemoryStorage, key: &[u8], action: A) -> (r: Result<
        Vec<u8>,
        E,
    >) where A: FnOnce(Option<Vec<u8>>) -> Result<Vec<u8>, E>, E: From<StoreError>
        requires
            self.wf(),
            is_pk(key@),
            forall|input: Option<Vec<u8>>| call_requires(action, (input,)),
            forall|input: Option<Vec<u8>>, output: Vec<u8>|
                call_ensures(action, (input,), Ok::<Vec<u8>, E>(output)) ==> is_record(output@),
        ensures
            exists|input: Option<Vec<u8>>, outcome: Result<Vec<u8>, E>|
                record_view(input) == self.current(contents(*old(store)), key@)
                    && #[trigger] call_ensures(action, (input,), outcome) && match outcome {
                    Err(_) => r == outcome && contents(*final(store)) == contents(*old(store)),
                    Ok(output) => {
                        let (next, failure) = self.replaced(
                            contents(*old(store)),
                            key@,
                            Some(output@),
                            record_view(input),
                        );
                        contents(*final(store)) == next && match failure {
                            None => r == outcome,
                            Some(e) => (r matches Err(failed) && call_ensures(E::from, (e,), failed)),
                        }
                    },
                },
            (forall|input: Option<Vec<u8>>, outcome: Result<Vec<u8>, E>|
                call_ensures(action, (input,), outcome) ==> outcome is Err) ==> contents(*final(store))
                == contents(*old(store)),
    {
        let input = match self.may_load(store, key) {
            Ok(found) => found,
            Err(e) => {
                return Err(E::from(e));
            },
        };
        let old_val: Option<Vec<u8>> = match &input {
            Some(record) => Some(copy_bytes(record.as_slice())),
            None => None,
        };
        let ghost given = input;
        let outcome = action(input);
        match outcome {
            Err(e) => {
                let r = Err(e);
                assert(call_ensures(action, (given,), r));
                r
            },
            Ok(output) => {
                let ghost made: Result<Vec<u8>, E> = Ok(output);
                assert(call_ensures(action, (given,), made));
                let replaced = match &old_val {
                    Some(record) => self.replace(
                        store,
                        key,
                        Some(output.as_slice()),
                        Some(record.as_slice()),
                    ),
                    None => self.replace(store, key, Some(output.as_slice()), None),
                };
                match replaced {
                    Ok(()) => Ok(output),
                    Err(e) => Err(E::from(e)),
                }
            },
        }
    }

    /// The record under `key`; it is an error if there is none.
    pub fn load(&self, store: &MemoryStorage, key: &[u8]) -> (r: Result<Vec<u8>, StoreError>)
        requires
            self.wf(),
        ensures
            load_view(r) == loaded(contents(*store), self.storage_key(key@)),
    {
        let full_key = self.key(key);
        match store_get(store, full_key.as_slice()) {
            Some(data) => Ok(data),
            None => Err(StoreError::NotFound),
        }
    }

    /// The record under `key`, if there is one.
    pub fn may_load(&self, store: &MemoryStorage, key: &[u8]) -> (r: Result<Option<Vec<u8>>, StoreError>)
        requires
            self.wf(),
        ensures
            r matches Ok(found) && record_view(found) == self.current(contents(*store), key@),
    {
        let full_key = self.key(key);
        Ok(store_get(store, full_key.as_slice()))
    }

    /// The records of the table whose keys lie under each segment of `p`.
    pub fn prefix(&self, p: &[&[u8]]) -> (prefix: Prefix)
        requires
            self.wf(),
            segments_fit(slices_view(p@)),
        ensures
            prefix.wf(),
            prefix.kind == EntryKind::Direct,
            prefix.storage_prefix@ == namespaces_prefix(
                seq![name_bytes(self.pk_namespace@)] + slices_view(p@),
            ),
    {
        Prefix::new(self.pk_namespace.as_bytes(), p)
    }

    /// The records of the table whose keys lie under each segment of `p`,
    /// where `p` is short of the full prefix of a key.
    pub fn sub_prefix(&self, p: &[&[u8]]) -> (prefix: Prefix)
        requires
            self.wf(),
            segments_fit(slices_view(p@)),
        ensures
            prefix.wf(),
            prefix.kind == EntryKind::Direct,
            prefix.storage_prefix@ == namespaces_prefix(
                seq![name_bytes(self.pk_namespace@)] + slices_view(p@),
            ),
    {
        Prefix::new(self.pk_namespace.as_bytes(), p)
    }
}

} // verus!
