//! From an index entry back to the primary key and the record.

use vstd::prelude::*;
use cosmwasm_std::MemoryStorage;
use crate::codec::{
    be32, be32_value, bytes_from, composite_key, copy_bytes, decode_u32, encode_u32,
    lemma_be32_round_trip, namespaces_with_key, slices_view, MAX_SEGMENT_LEN,
};
use crate::error::StoreError;
use crate::key_fn::{recover_fn_ok, recovered, recovers};
use crate::store::{contents, store_get, Entries};

verus! {

/// The key under which the table of `pk_namespace` keeps the record of `pk`.
pub open spec fn primary_key(pk_namespace: Seq<u8>, pk: Seq<u8>) -> Seq<u8> {
    composite_key(seq![pk_namespace], pk)
}

/// The key of the store under which the table of `namespace` keeps `k`.
pub fn table_key(namespace: &[u8], k: &[u8]) -> (key: Vec<u8>)
    requires
        namespace@.len() <= MAX_SEGMENT_LEN,
    ensures
        key@ == primary_key(namespace@, k@),
{
    let namespaces: [&[u8]; 1] = [namespace];
    assert(slices_view(namespaces@) =~= seq![namespace@]);
    namespaces_with_key(&namespaces, k)
}

/// A primary key with its record, or the failure to get them.
pub type Loaded = Result<(Seq<u8>, Seq<u8>), StoreError>;

/// The byte strings behind a scanned item.
pub open spec fn item_view(item: Result<(Vec<u8>, Vec<u8>), StoreError>) -> Loaded {
    match item {
        Ok(pair) => Ok((pair.0@, pair.1@)),
        Err(e) => Err(e),
    }
}

/// The end of an index key that its stored length marks as the primary key;
/// none where the value is no length or reaches beyond the key.
pub open spec fn embedded_pk(kv: (Seq<u8>, Seq<u8>)) -> Option<Seq<u8>> {
    match be32_value(kv.1) {
        Some(n) => if n <= kv.0.len() {
            Some(kv.0.subrange(kv.0.len() - n, kv.0.len() as int))
        } else {
            None
        },
        None => None,
    }
}

/// The record of `pk` in the table of `pk_namespace`, with `pk`; a missing
/// record means that index and table have come apart.
pub open spec fn load_by_pk(entries: Entries, pk_namespace: Seq<u8>, pk: Seq<u8>) -> Loaded {
    if entries.contains_key(primary_key(pk_namespace, pk)) {
        Ok((pk, entries[primary_key(pk_namespace, pk)]))
    } else {
        Err(StoreError::Corruption)
    }
}

/// What an entry of a multi-index leads to: the primary key at the end of
/// its key, and the record that the table holds for it.
pub open spec fn multi_kv(entries: Entries, pk_namespace: Seq<u8>, kv: (Seq<u8>, Seq<u8>)) -> Loaded {
    match embedded_pk(kv) {
        Some(pk) => load_by_pk(entries, pk_namespace, pk),
        None => Err(StoreError::Deserialize),
    }
}

/// Cuts the embedded primary key off the end of an index key.
pub fn split_pk(kv: &(Vec<u8>, Vec<u8>)) -> (r: Option<Vec<u8>>)
    ensures
        match r {
            Some(pk) => embedded_pk((kv.0@, kv.1@)) == Some(pk@),
            None => embedded_pk((kv.0@, kv.1@)) is None,
        },
{
    match decode_u32(kv.1.as_slice()) {
        None => None,
        Some(pk_len) => {
            if pk_len as usize > kv.0.len() {
                None
            } else {
                let offset: usize = kv.0.len() - pk_len as usize;
                Some(bytes_from(kv.0.as_slice(), offset))
            }
        },
    }
}

/// Loads the record of a recovered primary key from the table.
pub fn load_recovered(store: &MemoryStorage, pk_namespace: &[u8], pk: Vec<u8>) -> (r: Result<
    (Vec<u8>, Vec<u8>),
    StoreError,
>)
    requires
        pk_namespace@.len() <= MAX_SEGMENT_LEN,
    ensures
        item_view(r) == load_by_pk(contents(*store), pk_namespace@, pk@),
{
    let full_key = table_key(pk_namespace, pk.as_slice());
    match store_get(store, full_key.as_slice()) {
        Some(v) => Ok((pk, v)),
        None => Err(StoreError::Corruption),
    }
}

/// Recovers the primary key from the end of an index key and loads its
/// record from the table.
pub fn deserialize_multi_kv(store: &MemoryStorage, pk_namespace: &[u8], kv: (Vec<u8>, Vec<u8>)) -> (r:
    Result<(Vec<u8>, Vec<u8>), StoreError>)
    requires
        pk_namespace@.len() <= MAX_SEGMENT_LEN,
    ensures
        item_view(r) == multi_kv(contents(*store), pk_namespace@, (kv.0@, kv.1@)),
{
    match split_pk(&kv) {
        None => Err(StoreError::Deserialize),
        Some(pk) => load_recovered(store, pk_namespace, pk),
    }
}

/// Like `deserialize_multi_kv`, but the end of the index key goes through
/// `pk_fn` to become the primary key: for each outcome of `pk_fn`, the
/// result is what the table holds for it.
pub fn deserialize_multi_kv_custom_pk<G: Fn(Vec<u8>) -> Vec<u8>>(
    store: &MemoryStorage,
    pk_namespace: &[u8],
    kv: (Vec<u8>, Vec<u8>),
    pk_fn: &G,
) -> (r: Result<(Vec<u8>, Vec<u8>), StoreError>)
    requires
        pk_namespace@.len() <= MAX_SEGMENT_LEN,
        forall|end: Vec<u8>| call_requires(pk_fn, (end,)),
    ensures
        match embedded_pk((kv.0@, kv.1@)) {
            Some(end_bytes) => exists|end: Vec<u8>, pk: Vec<u8>|
                end@ == end_bytes && #[trigger] call_ensures(pk_fn, (end,), pk) && item_view(r)
                    == load_by_pk(contents(*store), pk_namespace@, pk@),
            None => r == Err::<(Vec<u8>, Vec<u8>), StoreError>(StoreError::Deserialize),
        },
{
    match split_pk(&kv) {
        None => Err(StoreError::Deserialize),
        Some(end) => {
            let ghost arg = end;
            let pk = pk_fn(end);
            let ghost recovered = pk;
            let r = load_recovered(store, pk_namespace, pk);
            assert(call_ensures(pk_fn, (arg,), recovered));
            r
        },
    }
}

/// What an entry of a multi-index with a recovery function leads to: the
/// end of its key goes through the function to become the primary key.
pub open spec fn custom_kv<G: Fn(Vec<u8>) -> Vec<u8>>(
    entries: Entries,
    pk_namespace: Seq<u8>,
    kv: (Seq<u8>, Seq<u8>),
    pk_fn: G,
) -> Loaded {
    match embedded_pk(kv) {
        Some(end) => load_by_pk(entries, pk_namespace, recovered(pk_fn, end)),
        None => Err(StoreError::Deserialize),
    }
}

/// With a pure recovery function, what `deserialize_multi_kv_custom_pk`
/// returns is a function of the entry and the store.
pub fn deserialize_custom_kv<G: Fn(Vec<u8>) -> Vec<u8>>(
    store: &MemoryStorage,
    pk_namespace: &[u8],
    kv: (Vec<u8>, Vec<u8>),
    pk_fn: &G,
) -> (r: Result<(Vec<u8>, Vec<u8>), StoreError>)
    requires
        pk_namespace@.len() <= MAX_SEGMENT_LEN,
        recover_fn_ok(*pk_fn),
    ensures
        item_view(r) == custom_kv(contents(*store), pk_namespace@, (kv.0@, kv.1@), *pk_fn),
{
    let ghost entry = (kv.0@, kv.1@);
    let r = deserialize_multi_kv_custom_pk(store, pk_namespace, kv, pk_fn);
    proof {
        if let Some(end_bytes) = embedded_pk(entry) {
            let (end, pk) = choose|end: Vec<u8>, pk: Vec<u8>|
                end@ == end_bytes && #[trigger] call_ensures(pk_fn, (end,), pk) && item_view(r)
                    == load_by_pk(contents(*store), pk_namespace@, pk@);
            assert(call_ensures(*pk_fn, (end,), pk));
            assert(recovers(*pk_fn, end_bytes, pk@));
        }
    }
    r
}

/// What a unique index stores under a derived key: the primary key behind
/// its length, then the record.
pub open spec fn unique_ref(pk: Seq<u8>, record: Seq<u8>) -> Seq<u8> {
    be32(pk.len()) + pk + record
}

/// The primary key and the record that a unique index stored; none where
/// the bytes are not of that form.
pub open spec fn unique_ref_value(bytes: Seq<u8>) -> Option<(Seq<u8>, Seq<u8>)> {
    if bytes.len() < 4 {
        None
    } else {
        match be32_value(bytes.subrange(0, 4)) {
            Some(n) => if 4 + n <= bytes.len() {
                Some((bytes.subrange(4, 4 + n as int), bytes.subrange(4 + n as int, bytes.len() as int)))
            } else {
                None
            },
            None => None,
        }
    }
}

/// What was stored for a primary key and a record is read back as them.
pub proof fn lemma_unique_ref_round_trip(pk: Seq<u8>, record: Seq<u8>)
    requires
        pk.len() <= u32::MAX,
    ensures
        unique_ref_value(unique_ref(pk, record)) == Some((pk, record)),
{
    let bytes = unique_ref(pk, record);
    lemma_be32_round_trip(pk.len());
    assert(bytes.subrange(0, 4) =~= be32(pk.len()));
    assert(bytes.subrange(4, 4 + pk.len() as int) =~= pk);
    assert(bytes.subrange(4 + pk.len() as int, bytes.len() as int) =~= record);
}

/// Frames a primary key and a record for a unique index.
pub fn encode_unique_ref(pk: &[u8], data: &[u8]) -> (out: Vec<u8>)
    requires
        pk@.len() <= u32::MAX,
    ensures
        out@ == unique_ref(pk@, data@),
{
    let mut out = encode_u32(pk.len() as u32);
    out.extend_from_slice(pk);
    out.extend_from_slice(data);
    out
}

/// Reads back the primary key and the record that a unique index stored.
pub fn decode_unique_ref(bytes: &[u8]) -> (r: Option<(Vec<u8>, Vec<u8>)>)
    ensures
        match r {
            Some(pair) => unique_ref_value(bytes@) == Some((pair.0@, pair.1@)),
            None => unique_ref_value(bytes@) is None,
        },
{
    if bytes.len() < 4 {
        return None;
    }
    match decode_u32(vstd::slice::slice_subrange(bytes, 0, 4)) {
        None => None,
        Some(n) => {
            if n as u64 > (bytes.len() - 4) as u64 {
                None
            } else {
                let end: usize = 4 + n as usize;
                let pk = copy_bytes(vstd::slice::slice_subrange(bytes, 4, end));
                let record = bytes_from(bytes, end);
                Some((pk, record))
            }
        },
    }
}

/// What an entry of a unique index leads to: the primary key and the record
/// that it holds itself.
pub open spec fn unique_kv(kv: (Seq<u8>, Seq<u8>)) -> Loaded {
    match unique_ref_value(kv.1) {
        Some(pair) => Ok(pair),
        None => Err(StoreError::Deserialize),
    }
}

/// Reads the primary key and the record out of an entry of a unique index.
pub fn deserialize_unique_kv(kv: (Vec<u8>, Vec<u8>)) -> (r: Result<(Vec<u8>, Vec<u8>), StoreError>)
    ensures
        item_view(r) == unique_kv((kv.0@, kv.1@)),
{
    match decode_unique_ref(kv.1.as_slice()) {
        Some(pair) => Ok(pair),
        None => Err(StoreError::Deserialize),
    }
}

} // verus!
