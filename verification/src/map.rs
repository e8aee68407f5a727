//! A table of records under primary keys.

use vstd::prelude::*;
use cosmwasm_std::MemoryStorage;
use crate::codec::{
    name_bytes, namespace_bytes, namespaces_prefix, segments_fit, slices_view, MAX_SEGMENT_LEN,
};
use crate::error::StoreError;
use crate::helpers::{primary_key, table_key};
use crate::index::is_record;
use crate::item::{load_view, loaded, may_loaded, record_view};
use crate::prefix::{EntryKind, Prefix};
use crate::store::{contents, store_get, store_remove, store_set};

verus! {

/// A table: records under primary keys, within one namespace.
#[derive(Debug, Clone)]
pub struct MapCow {
    /// The namespace that sets the table's keys apart from all others.
    pub namespace: String,
}

impl MapCow {
    /// A table under a namespace that the table owns.
    pub fn new_owned(namespace: String) -> (map: Self)
        ensures
            map.namespace == namespace,
    {
        Self { namespace }
    }

    /// A table under a namespace given by reference.
    pub fn new_ref(namespace: &str) -> (map: Self)
        ensures
            map.namespace@ == namespace@,
    {
        Self { namespace: namespace.to_owned() }
    }

    /// The namespace fits its length prefix.
    pub open spec fn wf(&self) -> bool {
        name_bytes(self.namespace@).len() <= MAX_SEGMENT_LEN
    }

    /// The key of the store under which the table keeps `k`.
    pub open spec fn storage_key(&self, k: Seq<u8>) -> Seq<u8> {
        primary_key(name_bytes(self.namespace@), k)
    }

    /// The namespace of the table.
    pub fn namespace(&self) -> (name: &str)
        ensures
            name@ == self.namespace@,
    {
        self.namespace.as_str()
    }

    /// The records whose keys lie under each segment of `p`.
    pub fn prefix(&self, p: &[&[u8]]) -> (prefix: Prefix)
        requires
            self.wf(),
            segments_fit(slices_view(p@)),
        ensures
            prefix.wf(),
            prefix.kind == EntryKind::Direct,
            prefix.storage_prefix@ == namespaces_prefix(
                seq![name_bytes(self.namespace@)] + slices_view(p@),
            ),
    {
        Prefix::new(namespace_bytes(&self.namespace), p)
    }

    /// The records whose keys lie under each segment of `p`, where `p` is
    /// short of the full prefix of a key.
    pub fn sub_prefix(&self, p: &[&[u8]]) -> (prefix: Prefix)
        requires
            self.wf(),
            segments_fit(slices_view(p@)),
        ensures
            prefix.wf(),
            prefix.kind == EntryKind::Direct,
            prefix.storage_prefix@ == namespaces_prefix(
                seq![name_bytes(self.namespace@)] + slices_view(p@),
            ),
    {
        Prefix::new(namespace_bytes(&self.namespace), p)
    }

    /// Stores `data` under `k`, in place of what was there.
    pub fn save(&self, store: &mut MemoryStorage, k: &[u8], data: &[u8]) -> (r: Result<(), StoreError>)
        requires
            self.wf(),
            is_record(data@),
        ensures
            r is Ok,
            contents(*final(store)) == contents(*old(store)).insert(self.storage_key(k@), data@),
            loaded(contents(*final(store)), self.storage_key(k@)) == Ok::<Seq<u8>, StoreError>(data@),
    {
        let key = table_key(namespace_bytes(&self.namespace), k);
        store_set(store, key.as_slice(), data);
        Ok(())
    }

    /// Drops the record under `k`.
    pub fn remove(&self, store: &mut MemoryStorage, k: &[u8])
        requires
            self.wf(),
        ensures
            contents(*final(store)) == contents(*old(store)).remove(self.storage_key(k@)),
    {
        let key = table_key(namespace_bytes(&self.namespace), k);
        store_remove(store, key.as_slice());
    }

    /// The record under `k`; it is an error if there is none.
    pub fn load(&self, store: &MemoryStorage, k: &[u8]) -> (r: Result<Vec<u8>, StoreError>)
        requires
            self.wf(),
        ensures
            load_view(r) == loaded(contents(*store), self.storage_key(k@)),
    {
        let key = table_key(namespace_bytes(&self.namespace), k);
        match store_get(store, key.as_slice()) {
            Some(data) => Ok(data),
            None => Err(StoreError::NotFound),
        }
    }

    /// The record under `k`, if there is one.
    pub fn may_load(&self, store: &MemoryStorage, k: &[u8]) -> (r: Result<Option<Vec<u8>>, StoreError>)
        requires
            self.wf(),
        ensures
            r matches Ok(found) && record_view(found) == may_loaded(
                contents(*store),
                self.storage_key(k@),
            ),
    {
        let key = table_key(namespace_bytes(&self.namespace), k);
        Ok(store_get(store, key.as_slice()))
    }

    /// Whether there is a record under `k`.
    pub fn has(&self, store: &MemoryStorage, k: &[u8]) -> (found: bool)
        requires
            self.wf(),
        ensures
            found == contents(*store).contains_key(self.storage_key(k@)),
    {
        let key = table_key(namespace_bytes(&self.namespace), k);
        store_get(store, key.as_slice()).is_some()
    }

    /// Loads the record under `k`, if any, lets `action` make the new
    /// record of it, and stores that. Where `action` fails, the store stays
    /// as it is.
    pub fn update<A, E>(&self, store: &mut MemoryStorage, k: &[u8], action: A) -> (r: Result<
        Vec<u8>,
        E,
    >) where A: FnOnce(Option<Vec<u8>>) -> Result<Vec<u8>, E>, E: From<StoreError>
        requires
            self.wf(),
            forall|input: Option<Vec<u8>>| call_requires(action, (input,)),
            forall|input: Option<Vec<u8>>, output: Vec<u8>|
                call_ensures(action, (input,), Ok::<Vec<u8>, E>(output)) ==> is_record(output@),
        ensures
            exists|input: Option<Vec<u8>>, outcome: Result<Vec<u8>, E>|
                record_view(input) == may_loaded(contents(*old(store)), self.storage_key(k@))
                    && #[trigger] call_ensures(action, (input,), outcome) && r == outcome && contents(
                    *final(store),
                ) == match outcome {
                    Ok(output) => contents(*old(store)).insert(self.storage_key(k@), output@),
                    Err(_) => contents(*old(store)),
                },
            (forall|input: Option<Vec<u8>>, outcome: Result<Vec<u8>, E>|
                call_ensures(action, (input,), outcome) ==> outcome is Err) ==> contents(*final(store))
                == contents(*old(store)),
    {
        let key = table_key(namespace_bytes(&self.namespace), k);
        let input = store_get(store, key.as_slice());
        let ghost given = input;
        let outcome = action(input);
        match outcome {
            Ok(output) => {
                store_set(store, key.as_slice(), output.as_slice());
                let r = Ok(output);
                assert(call_ensures(action, (given,), r));
                r
            },
            Err(e) => {
                let r = Err(e);
                assert(call_ensures(action, (given,), r));
                r
            },
        }
    }
}

} // verus!
