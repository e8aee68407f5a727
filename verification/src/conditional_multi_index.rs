//! A multi-index that takes in only the records that a predicate accepts.

use vstd::prelude::*;
use cosmwasm_std::MemoryStorage;
use crate::codec::{
    joined, joined_key, key_view, name_bytes, namespace_bytes, namespaces_prefix, segments_fit,
    slices_view, IndexKey, MAX_SEGMENT_LEN,
};
use crate::custom_dese_index::custom_prefix;
use crate::error::StoreError;
use crate::index::{multi_entry, remove_entry, save_multi_entry, Index, IndexEntry};
use crate::key_fn::{
    cond_fn_ok, derive_multi_key, included, is_included, multi_fn_ok, multi_key, recover_fn_ok,
};
use crate::prefix::CustomPrefix;

verus! {

/// A multi-index behind a predicate: a record has an entry only if the
/// predicate accepts it. The answer of the predicate must stay the same for
/// a record as long as the record is in the table; otherwise the index
/// comes apart from the table.
#[derive(Clone)]
pub struct ConditionalMultiIndex<F, C, G> {
    /// The namespace of the index.
    pub idx_namespace: String,
    /// The namespace of the table that the index belongs to.
    pub pk_namespace: String,
    /// Makes the index key of a record and its primary key.
    pub idx_fn: F,
    /// Says whether the index takes the record in.
    pub cond_fn: C,
    /// Makes the primary key of the end of an index key; without it, the
    /// end of the index key is the primary key.
    pub dese_fn: Option<G>,
}

impl<F, C, G> ConditionalMultiIndex<F, C, G> {
    /// An index under namespaces given by reference. Only the records for
    /// which `cond_fn` answers `true` enter the index.
    pub fn new_ref(
        idx_fn: F,
        cond_fn: C,
        dese_fn: Option<G>,
        pk_namespace: &str,
        idx_namespace: &str,
    ) -> (index: Self)
        ensures
            index.idx_fn == idx_fn,
            index.cond_fn == cond_fn,
            index.dese_fn == dese_fn,
            index.pk_namespace@ == pk_namespace@,
            index.idx_namespace@ == idx_namespace@,
    {
        Self {
            idx_fn,
            cond_fn,
            dese_fn,
            idx_namespace: idx_namespace.to_owned(),
            pk_namespace: pk_namespace.to_owned(),
        }
    }

    /// An index under namespaces that the index owns. Only the records for
    /// which `cond_fn` answers `true` enter the index.
    pub fn new_owned(
        idx_fn: F,
        cond_fn: C,
        dese_fn: Option<G>,
        pk_namespace: String,
        idx_namespace: String,
    ) -> (index: Self)
        ensures
            index.idx_fn == idx_fn,
            index.cond_fn == cond_fn,
            index.dese_fn == dese_fn,
            index.pk_namespace == pk_namespace,
            index.idx_namespace == idx_namespace,
    {
        Self { idx_fn, cond_fn, dese_fn, idx_namespace, pk_namespace }
    }

    /// The namespace of the table that the index belongs to.
    pub fn pk_namespace(&self) -> (name: &str)
        ensures
            name@ == self.pk_namespace@,
    {
        self.pk_namespace.as_str()
    }

    /// The namespace of the index.
    pub fn idx_namespace(&self) -> (name: &str)
        ensures
            name@ == self.idx_namespace@,
    {
        self.idx_namespace.as_str()
    }
}

impl<
    F: Fn(&[u8], Vec<u8>) -> IndexKey,
    C: Fn(&[u8]) -> bool,
    G: Fn(Vec<u8>) -> Vec<u8>,
> ConditionalMultiIndex<F, C, G> {
    /// The index key of `record` under `pk`.
    pub open spec fn key_of(&self, pk: Seq<u8>, record: Seq<u8>) -> (Seq<Seq<u8>>, Seq<u8>) {
        multi_key(self.idx_fn, record, pk)
    }

    /// The index takes `record` in.
    pub open spec fn includes(&self, record: Seq<u8>) -> bool {
        included(self.cond_fn, record)
    }

    /// The entries under the leading segments `p` of the index keys.
    pub fn prefix(&self, p: &[&[u8]]) -> (prefix: CustomPrefix<'_, G>)
        requires
            self.wf(),
            segments_fit(slices_view(p@)),
        ensures
            prefix.wf(),
            prefix.pk_name@ == name_bytes(self.pk_namespace@),
            prefix.storage_prefix@ == namespaces_prefix(
                seq![name_bytes(self.idx_namespace@)] + slices_view(p@),
            ),
            match prefix.dese_fn {
                Some(g) => self.dese_fn == Some(*g),
                None => self.dese_fn is None,
            },
    {
        custom_prefix(
            namespace_bytes(&self.idx_namespace),
            p,
            namespace_bytes(&self.pk_namespace),
            &self.dese_fn,
        )
    }

    /// The entries under the segments `p`, where `p` is short of the
    /// leading segments of an index key.
    pub fn sub_prefix(&self, p: &[&[u8]]) -> (prefix: CustomPrefix<'_, G>)
        requires
            self.wf(),
            segments_fit(slices_view(p@)),
        ensures
            prefix.wf(),
            prefix.pk_name@ == name_bytes(self.pk_namespace@),
            prefix.storage_prefix@ == namespaces_prefix(
                seq![name_bytes(self.idx_namespace@)] + slices_view(p@),
            ),
            match prefix.dese_fn {
                Some(g) => self.dese_fn == Some(*g),
                None => self.dese_fn is None,
            },
    {
        custom_prefix(
            namespace_bytes(&self.idx_namespace),
            p,
            namespace_bytes(&self.pk_namespace),
            &self.dese_fn,
        )
    }

    /// The bytes of an index key below the namespace of the index.
    pub fn index_key(&self, k: IndexKey) -> (key: Vec<u8>)
        requires
            segments_fit(key_view(k).0),
        ensures
            key@ == joined(key_view(k)),
    {
        joined_key(&k)
    }

    /// What the index is as an `Index`, spelled out. A caller that holds
    /// an index with functions of its own learns from this when the index
    /// can be used and which entry it keeps.
    pub proof fn as_index(self, pk: Seq<u8>, record: Seq<u8>)
        ensures
            self.wf() == (name_bytes(self.pk_namespace@).len() <= MAX_SEGMENT_LEN && name_bytes(
                self.idx_namespace@,
            ).len() <= MAX_SEGMENT_LEN && multi_fn_ok(self.idx_fn) && cond_fn_ok(self.cond_fn) && (
            self.dese_fn matches Some(g) ==> recover_fn_ok(g))),
            self.entry(pk, record) == if self.includes(record) {
                Some(multi_entry(name_bytes(self.idx_namespace@), self.key_of(pk, record), pk))
            } else {
                None
            },
    {
    }
}

impl<
    F: Fn(&[u8], Vec<u8>) -> IndexKey,
    C: Fn(&[u8]) -> bool,
    G: Fn(Vec<u8>) -> Vec<u8>,
> Index for ConditionalMultiIndex<F, C, G> {
    /// The namespaces fit their length prefix; the key function and the
    /// predicate can be called on every record and are pure; the key
    /// function gives segments that fit; the recovery function, where there
    /// is one, can be called on every end of a key and is pure.
    open spec fn wf(&self) -> bool {
        &&& name_bytes(self.pk_namespace@).len() <= MAX_SEGMENT_LEN
        &&& name_bytes(self.idx_namespace@).len() <= MAX_SEGMENT_LEN
        &&& multi_fn_ok(self.idx_fn)
        &&& cond_fn_ok(self.cond_fn)
        &&& self.dese_fn matches Some(g) ==> recover_fn_ok(g)
    }

    open spec fn entry(&self, pk: Seq<u8>, record: Seq<u8>) -> Option<IndexEntry> {
        if self.includes(record) {
            Some(multi_entry(name_bytes(self.idx_namespace@), self.key_of(pk, record), pk))
        } else {
            None
        }
    }

    fn save(&self, store: &mut MemoryStorage, pk: &[u8], data: &[u8]) -> (r: Result<(), StoreError>) {
        if is_included(&self.cond_fn, data) {
            let idx = derive_multi_key(&self.idx_fn, data, pk);
            save_multi_entry(store, namespace_bytes(&self.idx_namespace), &idx, pk);
        }
        Ok(())
    }

    fn remove(&self, store: &mut MemoryStorage, pk: &[u8], old_data: &[u8]) -> (r: Result<
        (),
        StoreError,
    >) {
        if is_included(&self.cond_fn, old_data) {
            let idx = derive_multi_key(&self.idx_fn, old_data, pk);
            remove_entry(store, namespace_bytes(&self.idx_namespace), &idx);
        }
        Ok(())
    }
}

} // verus!
