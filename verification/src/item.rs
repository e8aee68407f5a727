//! A single record under a namespace of its own.

use vstd::prelude::*;
use cosmwasm_std::MemoryStorage;
use crate::codec::{name_bytes, namespace_bytes};
use crate::error::StoreError;
use crate::index::is_record;
use crate::store::{contents, store_get, store_remove, store_set, Entries};

verus! {

/// One record, stored under the bytes of its namespace.
#[derive(Debug, Clone)]
pub struct ItemCow {
    /// The key of the record in the store.
    pub namespace: String,
}

/// The record that the store holds under `key`, or that there is none.
pub open spec fn loaded(entries: Entries, key: Seq<u8>) -> Result<Seq<u8>, StoreError> {
    if entries.contains_key(key) {
        Ok(entries[key])
    } else {
        Err(StoreError::NotFound)
    }
}

/// The record that the store holds under `key`, if any.
pub open spec fn may_loaded(entries: Entries, key: Seq<u8>) -> Option<Seq<u8>> {
    if entries.contains_key(key) {
        Some(entries[key])
    } else {
        None
    }
}

/// The bytes behind an optional record.
pub open spec fn record_view(record: Option<Vec<u8>>) -> Option<Seq<u8>> {
    match record {
        Some(bytes) => Some(bytes@),
        None => None,
    }
}

/// The bytes behind the result of a load.
pub open spec fn load_view(r: Result<Vec<u8>, StoreError>) -> Result<Seq<u8>, StoreError> {
    match r {
        Ok(bytes) => Ok(bytes@),
        Err(e) => Err(e),
    }
}

impl ItemCow {
    /// An item under a namespace that the item owns.
    pub fn new_owned(namespace: String) -> (item: Self)
        ensures
            item.namespace == namespace,
    {
        Self { namespace }
    }

    /// An item under a namespace given by reference.
    pub fn new_ref(namespace: &str) -> (item: Self)
        ensures
            item.namespace@ == namespace@,
    {
        Self { namespace: namespace.to_owned() }
    }

    /// The key of the record in the store.
    pub open spec fn storage_key(&self) -> Seq<u8> {
        name_bytes(self.namespace@)
    }

    /// The namespace of the item.
    pub fn namespace(&self) -> (name: &str)
        ensures
            name@ == self.namespace@,
    {
        self.namespace.as_str()
    }

    /// Stores `data` in place of what was there.
    pub fn save(&self, store: &mut MemoryStorage, data: &[u8]) -> (r: Result<(), StoreError>)
        requires
            is_record(data@),
        ensures
            r is Ok,
            contents(*final(store)) == contents(*old(store)).insert(self.storage_key(), data@),
            loaded(contents(*final(store)), self.storage_key()) == Ok::<Seq<u8>, StoreError>(data@),
    {
        store_set(store, namespace_bytes(&self.namespace), data);
        Ok(())
    }

    /// Drops the record.
    pub fn remove(&self, store: &mut MemoryStorage)
        ensures
            contents(*final(store)) == contents(*old(store)).remove(self.storage_key()),
    {
        store_remove(store, namespace_bytes(&self.namespace));
    }

    /// The record; it is an error if there is none.
    pub fn load(&self, store: &MemoryStorage) -> (r: Result<Vec<u8>, StoreError>)
        ensures
            load_view(r) == loaded(contents(*store), self.storage_key()),
    {
        match store_get(store, namespace_bytes(&self.namespace)) {
            Some(data) => Ok(data),
            None => Err(StoreError::NotFound),
        }
    }

    /// The record, if there is one.
    pub fn may_load(&self, store: &MemoryStorage) -> (r: Result<Option<Vec<u8>>, StoreError>)
        ensures
            r matches Ok(found) && record_view(found) == may_loaded(contents(*store), self.storage_key()),
    {
        Ok(store_get(store, namespace_bytes(&self.namespace)))
    }

    /// Loads the record, lets `action` make the new record of it, and
    /// stores that. Without a record, or where `action` fails, the store
    /// stays as it is.
    pub fn update<A, E>(&self, store: &mut MemoryStorage, action: A) -> (r: Result<Vec<u8>, E>) where
        A: FnOnce(Vec<u8>) -> Result<Vec<u8>, E>,
        E: From<StoreError>,

        requires
            forall|input: Vec<u8>| call_requires(action, (input,)),
            forall|input: Vec<u8>, output: Vec<u8>|
                call_ensures(action, (input,), Ok::<Vec<u8>, E>(output)) ==> is_record(output@),
        ensures
            match may_loaded(contents(*old(store)), self.storage_key()) {
                None => contents(*final(store)) == contents(*old(store)) && (r matches Err(e)
                    && call_ensures(E::from, (StoreError::NotFound,), e)),
                Some(current) => exists|input: Vec<u8>, outcome: Result<Vec<u8>, E>|
                    input@ == current && #[trigger] call_ensures(action, (input,), outcome) && r
                        == outcome && contents(*final(store)) == match outcome {
                        Ok(output) => contents(*old(store)).insert(self.storage_key(), output@),
                        Err(_) => contents(*old(store)),
                    },
            },
            (forall|input: Vec<u8>, outcome: Result<Vec<u8>, E>|
                call_ensures(action, (input,), outcome) ==> outcome is Err) ==> contents(*final(store))
                == contents(*old(store)),
    {
        let input = match self.load(store) {
            Ok(input) => input,
            Err(e) => {
                return Err(E::from(e));
            },
        };
        let ghost given = input;
        let outcome = action(input);
        match outcome {
            Ok(output) => {
                store_set(store, namespace_bytes(&self.namespace), output.as_slice());
                let r = Ok(output);
                assert(call_ensures(action, (given,), r));
                r
            },
            Err(e) => {
                let r = Err(e);
                assert(call_ensures(action, (given,), r));
                r
            },
        }
    }
}

} // verus!
