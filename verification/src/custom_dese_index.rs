//! A multi-index whose keys end in a transformed primary key.

use vstd::prelude::*;
use cosmwasm_std::MemoryStorage;
use crate::codec::{
    copy_bytes, joined, joined_key, key_view, name_bytes, namespace_bytes, namespaces_prefix,
    segments_fit, slices_view, storage_prefix, IndexKey, MAX_SEGMENT_LEN,
};
use crate::error::StoreError;
use crate::index::{multi_entry, remove_entry, save_multi_entry, Index, IndexEntry};
use crate::key_fn::{derive_multi_key, multi_fn_ok, multi_key, recover_fn_ok};
use crate::prefix::CustomPrefix;

verus! {

/// A multi-index with a function of its own to recover the primary key
/// from the end of an index key. The key function may then transform the
/// primary key before it puts it at the end of the index key, as long as it
/// keeps the length.
#[derive(Clone)]
pub struct CustomDeseMultiIndex<F, G> {
    /// The namespace of the index.
    pub idx_namespace: String,
    /// The namespace of the table that the index belongs to.
    pub pk_namespace: String,
    /// Makes the index key of a record and its primary key.
    pub idx_fn: F,
    /// Makes the primary key of the end of an index key; without it, the
    /// end of the index key is the primary key.
    pub dese_fn: Option<G>,
}

/// The recovery function by reference.
pub fn dese_ref<G>(dese_fn: &Option<G>) -> (r: Option<&G>)
    ensures
        match r {
            Some(g) => *dese_fn == Some(*g),
            None => *dese_fn is None,
        },
{
    match dese_fn {
        Some(g) => Some(g),
        None => None,
    }
}

/// The entries of the index of `idx_namespace` under the segments `p`.
pub fn custom_prefix<'a, G: Fn(Vec<u8>) -> Vec<u8>>(
    idx_namespace: &[u8],
    p: &[&[u8]],
    pk_namespace: &[u8],
    dese_fn: &'a Option<G>,
) -> (prefix: CustomPrefix<'a, G>)
    requires
        idx_namespace@.len() <= MAX_SEGMENT_LEN,
        pk_namespace@.len() <= MAX_SEGMENT_LEN,
        segments_fit(slices_view(p@)),
        *dese_fn matches Some(g) ==> recover_fn_ok(g),
    ensures
        prefix.wf(),
        prefix.pk_name@ == pk_namespace@,
        prefix.storage_prefix@ == namespaces_prefix(seq![idx_namespace@] + slices_view(p@)),
        match prefix.dese_fn {
            Some(g) => *dese_fn == Some(*g),
            None => *dese_fn is None,
        },
{
    CustomPrefix {
        storage_prefix: storage_prefix(idx_namespace, p),
        pk_name: copy_bytes(pk_namespace),
        dese_fn: dese_ref(dese_fn),
    }
}

impl<F, G> CustomDeseMultiIndex<F, G> {
    /// An index under namespaces given by reference.
    pub fn new_ref(idx_fn: F, dese_fn: Option<G>, pk_namespace: &str, idx_namespace: &str) -> (index:
        Self)
        ensures
            index.idx_fn == idx_fn,
            index.dese_fn == dese_fn,
            index.pk_namespace@ == pk_namespace@,
            index.idx_namespace@ == idx_namespace@,
    {
        Self {
            idx_fn,
            dese_fn,
            idx_namespace: idx_namespace.to_owned(),
            pk_namespace: pk_namespace.to_owned(),
        }
    }

    /// An index under namespaces that the index owns.
    pub fn new_owned(idx_fn: F, dese_fn: Option<G>, pk_namespace: String, idx_namespace: String) -> (index:
        Self)
        ensures
            index.idx_fn == idx_fn,
            index.dese_fn == dese_fn,
            index.pk_namespace == pk_namespace,
            index.idx_namespace == idx_namespace,
    {
        Self { idx_fn, dese_fn, idx_namespace, pk_namespace }
    }

    /// The namespace of the table that the index belongs to.
    pub fn pk_namespace(&self) -> (name: &str)
        ensures
            name@ == self.pk_namespace@,
    {
        self.pk_namespace.as_str()
    }

    /// The namespace of the index.
    pub fn idx_namespace(&self) -> (name: &str)
        ensures
            name@ == self.idx_namespace@,
    {
        self.idx_namespace.as_str()
    }
}

impl<F: Fn(&[u8], Vec<u8>) -> IndexKey, G: Fn(Vec<u8>) -> Vec<u8>> CustomDeseMultiIndex<F, G> {
    /// The index key of `record` under `pk`.
    pub open spec fn key_of(&self, pk: Seq<u8>, record: Seq<u8>) -> (Seq<Seq<u8>>, Seq<u8>) {
        multi_key(self.idx_fn, record, pk)
    }

    /// The entries under the leading segments `p` of the index keys.
    pub fn prefix(&self, p: &[&[u8]]) -> (prefix: CustomPrefix<'_, G>)
        requires
            self.wf(),
            segments_fit(slices_view(p@)),
        ensures
            prefix.wf(),
            prefix.pk_name@ == name_bytes(self.pk_namespace@),
            prefix.storage_prefix@ == namespaces_prefix(
                seq![name_bytes(self.idx_namespace@)] + slices_view(p@),
            ),
            match prefix.dese_fn {
                Some(g) => self.dese_fn == Some(*g),
                None => self.dese_fn is None,
            },
    {
        custom_prefix(
            namespace_bytes(&self.idx_namespace),
            p,
            namespace_bytes(&self.pk_namespace),
            &self.dese_fn,
        )
    }

    /// The entries under the segments `p`, where `p` is short of the
    /// leading segments of an index key.
    pub fn sub_prefix(&self, p: &[&[u8]]) -> (prefix: CustomPrefix<'_, G>)
        requires
            self.wf(),
            segments_fit(slices_view(p@)),
        ensures
            prefix.wf(),
            prefix.pk_name@ == name_bytes(self.pk_namespace@),
            prefix.storage_prefix@ == namespaces_prefix(
                seq![name_bytes(self.idx_namespace@)] + slices_view(p@),
            ),
            match prefix.dese_fn {
                Some(g) => self.dese_fn == Some(*g),
                None => self.dese_fn is None,
            },
    {
        custom_prefix(
            namespace_bytes(&self.idx_namespace),
            p,
            namespace_bytes(&self.pk_namespace),
            &self.dese_fn,
        )
    }

    /// The bytes of an index key below the namespace of the index.
    pub fn index_key(&self, k: IndexKey) -> (key: Vec<u8>)
        requires
            segments_fit(key_view(k).0),
        ensures
            key@ == joined(key_view(k)),
    {
        joined_key(&k)
    }

    /// What the index is as an `Index`, spelled out. A caller that holds
    /// an index with functions of its own learns from this when the index
    /// can be used and which entry it keeps.
    pub proof fn as_index(self, pk: Seq<u8>, record: Seq<u8>)
        ensures
            self.wf() == (name_bytes(self.pk_namespace@).len() <= MAX_SEGMENT_LEN && name_bytes(
                self.idx_namespace@,
            ).len() <= MAX_SEGMENT_LEN && multi_fn_ok(self.idx_fn) && (self.dese_fn matches Some(g)
                ==> recover_fn_ok(g))),
            self.entry(pk, record) == Some(
                multi_entry(name_bytes(self.idx_namespace@), self.key_of(pk, record), pk),
            ),
    {
    }
}

impl<F: Fn(&[u8], Vec<u8>) -> IndexKey, G: Fn(Vec<u8>) -> Vec<u8>> Index for CustomDeseMultiIndex<
    F,
    G,
> {
    /// The namespaces fit their length prefix; the key function can be
    /// called on every record, is pure and gives segments that fit; the
    /// recovery function, where there is one, can be called on every end of
    /// a key and is pure.
    open spec fn wf(&self) -> bool {
        &&& name_bytes(self.pk_namespace@).len() <= MAX_SEGMENT_LEN
        &&& name_bytes(self.idx_namespace@).len() <= MAX_SEGMENT_LEN
        &&& multi_fn_ok(self.idx_fn)
        &&& self.dese_fn matches Some(g) ==> recover_fn_ok(g)
    }

    open spec fn entry(&self, pk: Seq<u8>, record: Seq<u8>) -> Option<IndexEntry> {
        Some(multi_entry(name_bytes(self.idx_namespace@), self.key_of(pk, record), pk))
    }

    fn save(&self, store: &mut MemoryStorage, pk: &[u8], data: &[u8]) -> (r: Result<(), StoreError>) {
        let idx = derive_multi_key(&self.idx_fn, data, pk);
        save_multi_entry(store, namespace_bytes(&self.idx_namespace), &idx, pk);
        Ok(())
    }

    fn remove(&self, store: &mut MemoryStorage, pk: &[u8], old_data: &[u8]) -> (r: Result<
        (),
        StoreError,
    >) {
        let idx = derive_multi_key(&self.idx_fn, old_data, pk);
        remove_entry(store, namespace_bytes(&self.idx_namespace), &idx);
        Ok(())
    }
}

} // verus!
