//! What an index is to the table that owns it, and lists of indexes.

use vstd::prelude::*;
use cosmwasm_std::MemoryStorage;
use crate::codec::{
    be32, composite_key, encode_u32, joined, joined_key, key_view, same_bytes, segments_fit,
    IndexKey, MAX_SEGMENT_LEN,
};
use crate::error::StoreError;
use crate::helpers::{decode_unique_ref, encode_unique_ref, table_key, unique_ref, unique_ref_value};
use crate::store::{contents, store_get, store_remove, store_set, Entries};

verus! {

/// The entry that an index keeps in the store for one record.
pub struct IndexEntry {
    /// The full key of the entry.
    pub key: Seq<u8>,
    /// What the index stores under the key.
    pub value: Seq<u8>,
    /// Whether the key may belong to one primary key only, so that the
    /// entry is refused while the key belongs to another.
    pub unique: bool,
}

/// A record as the store accepts it: the store refuses empty values.
pub open spec fn is_record(data: Seq<u8>) -> bool {
    data.len() > 0
}

/// A primary key whose length an index can store in four bytes.
pub open spec fn is_pk(pk: Seq<u8>) -> bool {
    pk.len() <= u32::MAX
}

/// The store after an index has saved its entry for the record of `pk`.
/// An entry of a unique index that rejects collisions is refused while its
/// key belongs to another primary key, or holds what no unique index wrote.
pub open spec fn saved(entries: Entries, entry: Option<IndexEntry>, pk: Seq<u8>) -> Result<
    Entries,
    StoreError,
> {
    match entry {
        None => Ok(entries),
        Some(e) => if e.unique && entries.contains_key(e.key) {
            match unique_ref_value(entries[e.key]) {
                Some(owner) => if owner.0 == pk {
                    Ok(entries.insert(e.key, e.value))
                } else {
                    Err(StoreError::DuplicateKey)
                },
                None => Err(StoreError::Deserialize),
            }
        } else {
            Ok(entries.insert(e.key, e.value))
        },
    }
}

/// The store after an index has removed its entry for a record.
pub open spec fn removed(entries: Entries, entry: Option<IndexEntry>) -> Entries {
    match entry {
        None => entries,
        Some(e) => entries.remove(e.key),
    }
}

/// The store after the indexes have saved their entries one after the
/// other, and the failure that stopped them, if one did: the entries before
/// the failing one are saved, it and those behind it are not.
pub open spec fn saved_all(entries: Entries, plan: Seq<Option<IndexEntry>>, pk: Seq<u8>) -> (
    Entries,
    Option<StoreError>,
)
    decreases plan.len(),
{
    if plan.len() == 0 {
        (entries, None)
    } else {
        match saved(entries, plan[0], pk) {
            Ok(next) => saved_all(next, plan.skip(1), pk),
            Err(e) => (entries, Some(e)),
        }
    }
}

/// The store after the indexes have removed their entries one after the other.
pub open spec fn removed_all(entries: Entries, plan: Seq<Option<IndexEntry>>) -> Entries
    decreases plan.len(),
{
    if plan.len() == 0 {
        entries
    } else {
        removed_all(removed(entries, plan[0]), plan.skip(1))
    }
}

/// The key of the store under which the index of `idx_namespace` keeps the
/// index key `key`.
pub open spec fn entry_key(idx_namespace: Seq<u8>, key: (Seq<Seq<u8>>, Seq<u8>)) -> Seq<u8> {
    composite_key(seq![idx_namespace], joined(key))
}

/// The entry of a multi-index: under the index key, which ends in the
/// primary key, the length of the primary key.
pub open spec fn multi_entry(idx_namespace: Seq<u8>, key: (Seq<Seq<u8>>, Seq<u8>), pk: Seq<u8>) -> IndexEntry {
    IndexEntry { key: entry_key(idx_namespace, key), value: be32(pk.len()), unique: false }
}

/// The entry of a unique index: under the index key, the primary key and
/// a copy of the record. Where the index rejects collisions, the key may
/// belong to one primary key only.
pub open spec fn unique_entry(
    idx_namespace: Seq<u8>,
    key: (Seq<Seq<u8>>, Seq<u8>),
    pk: Seq<u8>,
    record: Seq<u8>,
    reject: bool,
) -> IndexEntry {
    IndexEntry { key: entry_key(idx_namespace, key), value: unique_ref(pk, record), unique: reject }
}

/// The key of the store for an index key.
pub fn index_entry_key(idx_namespace: &[u8], idx: &IndexKey) -> (key: Vec<u8>)
    requires
        idx_namespace@.len() <= MAX_SEGMENT_LEN,
        segments_fit(key_view(*idx).0),
    ensures
        key@ == entry_key(idx_namespace@, key_view(*idx)),
{
    let below = joined_key(idx);
    table_key(idx_namespace, below.as_slice())
}

/// Writes the entry of a multi-index for the index key `idx` of `pk`.
pub fn save_multi_entry(store: &mut MemoryStorage, idx_namespace: &[u8], idx: &IndexKey, pk: &[u8])
    requires
        idx_namespace@.len() <= MAX_SEGMENT_LEN,
        segments_fit(key_view(*idx).0),
        is_pk(pk@),
    ensures
        Ok::<Entries, StoreError>(contents(*final(store))) == saved(
            contents(*old(store)),
            Some(multi_entry(idx_namespace@, key_view(*idx), pk@)),
            pk@,
        ),
{
    let key = index_entry_key(idx_namespace, idx);
    let value = encode_u32(pk.len() as u32);
    store_set(store, key.as_slice(), value.as_slice());
}

/// Writes the entry of a unique index for the index key `idx` of `pk`.
/// Where the index rejects collisions, the entry is refused while the key
/// belongs to another primary key; else it takes the place of what was
/// there.
pub fn save_unique_entry(
    store: &mut MemoryStorage,
    idx_namespace: &[u8],
    idx: &IndexKey,
    pk: &[u8],
    data: &[u8],
    reject: bool,
) -> (r: Result<(), StoreError>)
    requires
        idx_namespace@.len() <= MAX_SEGMENT_LEN,
        segments_fit(key_view(*idx).0),
        is_pk(pk@),
    ensures
        match saved(
            contents(*old(store)),
            Some(unique_entry(idx_namespace@, key_view(*idx), pk@, data@, reject)),
            pk@,
        ) {
            Ok(next) => r is Ok && contents(*final(store)) == next,
            Err(e) => r == Err::<(), StoreError>(e) && contents(*final(store)) == contents(*old(store)),
        },
{
    let key = index_entry_key(idx_namespace, idx);
    if reject {
        if let Some(existing) = store_get(store, key.as_slice()) {
            match decode_unique_ref(existing.as_slice()) {
                None => {
                    return Err(StoreError::Deserialize);
                },
                Some(owner) => {
                    if !same_bytes(owner.0.as_slice(), pk) {
                        return Err(StoreError::DuplicateKey);
                    }
                },
            }
        }
    }
    let value = encode_unique_ref(pk, data);
    store_set(store, key.as_slice(), value.as_slice());
    Ok(())
}

/// Drops the entry under the index key `idx`.
pub fn remove_entry(store: &mut MemoryStorage, idx_namespace: &[u8], idx: &IndexKey)
    requires
        idx_namespace@.len() <= MAX_SEGMENT_LEN,
        segments_fit(key_view(*idx).0),
    ensures
        contents(*final(store)) == contents(*old(store)).remove(
            entry_key(idx_namespace@, key_view(*idx)),
        ),
{
    let key = index_entry_key(idx_namespace, idx);
    store_remove(store, key.as_slice());
}

/// An index of a table: it keeps at most one entry for each record.
pub trait Index {
    /// The index can be used.
    spec fn wf(&self) -> bool;

    /// The entry that the index keeps for `record` under `pk`; none where
    /// the index leaves the record out.
    spec fn entry(&self, pk: Seq<u8>, record: Seq<u8>) -> Option<IndexEntry>;

    /// Saves the entry for the new record of `pk`.
    fn save(&self, store: &mut MemoryStorage, pk: &[u8], data: &[u8]) -> (r: Result<(), StoreError>)
        requires
            self.wf(),
            is_pk(pk@),
            is_record(data@),
        ensures
            match saved(contents(*old(store)), self.entry(pk@, data@), pk@) {
                Ok(next) => r is Ok && contents(*final(store)) == next,
                Err(e) => r == Err::<(), StoreError>(e) && contents(*final(store)) == contents(
                    *old(store),
                ),
            },
    ;

    /// Removes the entry for the old record of `pk`.
    fn remove(&self, store: &mut MemoryStorage, pk: &[u8], old_data: &[u8]) -> (r: Result<
        (),
        StoreError,
    >)
        requires
            self.wf(),
            is_pk(pk@),
        ensures
            r is Ok,
            contents(*final(store)) == removed(contents(*old(store)), self.entry(pk@, old_data@)),
    ;
}

/// The indexes of a table, in the order in which they were registered.
pub trait IndexList {
    /// Every index of the list can be used.
    spec fn wf(&self) -> bool;

    /// The entries that the indexes keep for `record` under `pk`, in order.
    spec fn plan(&self, pk: Seq<u8>, record: Seq<u8>) -> Seq<Option<IndexEntry>>;

    /// Saves the entries of all indexes for the new record of `pk`, in
    /// order, and stops at the first index that fails.
    fn save_all(&self, store: &mut MemoryStorage, pk: &[u8], data: &[u8]) -> (r: Result<
        (),
        StoreError,
    >)
        requires
            self.wf(),
            is_pk(pk@),
            is_record(data@),
        ensures
            contents(*final(store)) == saved_all(contents(*old(store)), self.plan(pk@, data@), pk@).0,
            match saved_all(contents(*old(store)), self.plan(pk@, data@), pk@).1 {
                None => r is Ok,
                Some(e) => r == Err::<(), StoreError>(e),
            },
    ;

    /// Removes the entries of all indexes for the old record of `pk`, in order.
    fn remove_all(&self, store: &mut MemoryStorage, pk: &[u8], old_data: &[u8]) -> (r: Result<
        (),
        StoreError,
    >)
        requires
            self.wf(),
            is_pk(pk@),
        ensures
            r is Ok,
            contents(*final(store)) == removed_all(contents(*old(store)), self.plan(pk@, old_data@)),
    ;
}

/// What a list with an index in front is as an `IndexList`, spelled out.
/// A caller that holds a list of indexes with functions of its own learns
/// from this when the list can be used and which entries it plans.
pub proof fn as_index_list<A: Index, L: IndexList>(list: (A, L), pk: Seq<u8>, record: Seq<u8>)
    ensures
        list.wf() == (list.0.wf() && list.1.wf()),
        list.plan(pk, record) == seq![list.0.entry(pk, record)] + list.1.plan(pk, record),
{
}

/// A table without indexes.
impl IndexList for () {
    open spec fn wf(&self) -> bool {
        true
    }

    open spec fn plan(&self, pk: Seq<u8>, record: Seq<u8>) -> Seq<Option<IndexEntry>> {
        Seq::empty()
    }

    fn save_all(&self, store: &mut MemoryStorage, pk: &[u8], data: &[u8]) -> (r: Result<
        (),
        StoreError,
    >) {
        Ok(())
    }

    fn remove_all(&self, store: &mut MemoryStorage, pk: &[u8], old_data: &[u8]) -> (r: Result<
        (),
        StoreError,
    >) {
        Ok(())
    }
}

/// An index in front of a list of indexes.
impl<A: Index, L: IndexList> IndexList for (A, L) {
    open spec fn wf(&self) -> bool {
        self.0.wf() && self.1.wf()
    }

    open spec fn plan(&self, pk: Seq<u8>, record: Seq<u8>) -> Seq<Option<IndexEntry>> {
        seq![self.0.entry(pk, record)] + self.1.plan(pk, record)
    }

    fn save_all(&self, store: &mut MemoryStorage, pk: &[u8], data: &[u8]) -> (r: Result<
        (),
        StoreError,
    >) {
        proof {
            assert(self.plan(pk@, data@).skip(1) =~= self.1.plan(pk@, data@));
        }
        match self.0.save(store, pk, data) {
            Ok(()) => self.1.save_all(store, pk, data),
            Err(e) => Err(e),
        }
    }

    fn remove_all(&self, store: &mut MemoryStorage, pk: &[u8], old_data: &[u8]) -> (r: Result<
        (),
        StoreError,
    >) {
        proof {
            assert(self.plan(pk@, old_data@).skip(1) =~= self.1.plan(pk@, old_data@));
        }
        match self.0.remove(store, pk, old_data) {
            Ok(()) => self.1.remove_all(store, pk, old_data),
            Err(e) => Err(e),
        }
    }
}

} // verus!
