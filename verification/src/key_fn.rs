//! The functions that a table's owner hands to its indexes, and what the
//! indexes take them to compute.
//!
//! An index runs such a function whenever it needs the key of a record, so
//! the function has to be pure: on the same bytes it hands out the same
//! bytes. Under that condition each function has a mathematical function
//! beside it, over which the contracts of the indexes are stated.

use vstd::prelude::*;
use crate::codec::{copy_bytes, key_view, segments_fit, IndexKey};

verus! {

/// The key function of a multi-index may return `key` for these bytes.
pub open spec fn multi_derives<F: Fn(&[u8], Vec<u8>) -> IndexKey>(
    f: F,
    record: Seq<u8>,
    pk: Seq<u8>,
    key: (Seq<Seq<u8>>, Seq<u8>),
) -> bool {
    exists|r: &[u8], p: Vec<u8>, k: IndexKey| #[trigger]
        call_ensures(f, (r, p), k) && r@ == record && p@ == pk && key_view(k) == key
}

/// The key function of a multi-index can be called on every record and
/// primary key, is pure, and gives leading segments that fit their length
/// prefix.
pub open spec fn multi_fn_ok<F: Fn(&[u8], Vec<u8>) -> IndexKey>(f: F) -> bool {
    &&& forall|r: &[u8], p: Vec<u8>| #[trigger] call_requires(f, (r, p))
    &&& forall|r: &[u8], p: Vec<u8>, k: IndexKey| #[trigger]
        call_ensures(f, (r, p), k) ==> segments_fit(key_view(k).0)
    &&& forall|
        record: Seq<u8>,
        pk: Seq<u8>,
        k1: (Seq<Seq<u8>>, Seq<u8>),
        k2: (Seq<Seq<u8>>, Seq<u8>),
    | #[trigger]
        multi_derives(f, record, pk, k1) && #[trigger] multi_derives(f, record, pk, k2) ==> k1 == k2
}

/// The index key that the key function of a multi-index gives a record.
pub open spec fn multi_key<F: Fn(&[u8], Vec<u8>) -> IndexKey>(f: F, record: Seq<u8>, pk: Seq<u8>) -> (
    Seq<Seq<u8>>,
    Seq<u8>,
) {
    choose|key: (Seq<Seq<u8>>, Seq<u8>)| multi_derives(f, record, pk, key)
}

/// Runs the key function of a multi-index.
pub fn derive_multi_key<F: Fn(&[u8], Vec<u8>) -> IndexKey>(f: &F, record: &[u8], pk: &[u8]) -> (k:
    IndexKey)
    requires
        multi_fn_ok(*f),
    ensures
        key_view(k) == multi_key(*f, record@, pk@),
        segments_fit(key_view(k).0),
{
    let p = copy_bytes(pk);
    let k = f(record, p);
    proof {
        assert(call_ensures(*f, (record, p), k));
        assert(multi_derives(*f, record@, pk@, key_view(k)));
    }
    k
}

/// The key function of a unique index may return `key` for these bytes.
pub open spec fn unique_derives<F: Fn(&[u8]) -> IndexKey>(
    f: F,
    record: Seq<u8>,
    key: (Seq<Seq<u8>>, Seq<u8>),
) -> bool {
    exists|r: &[u8], k: IndexKey| #[trigger] call_ensures(f, (r,), k) && r@ == record && key_view(k) == key
}

/// The key function of a unique index can be called on every record, is
/// pure, and gives leading segments that fit their length prefix.
pub open spec fn unique_fn_ok<F: Fn(&[u8]) -> IndexKey>(f: F) -> bool {
    &&& forall|r: &[u8]| #[trigger] call_requires(f, (r,))
    &&& forall|r: &[u8], k: IndexKey| #[trigger] call_ensures(f, (r,), k) ==> segments_fit(key_view(k).0)
    &&& forall|record: Seq<u8>, k1: (Seq<Seq<u8>>, Seq<u8>), k2: (Seq<Seq<u8>>, Seq<u8>)| #[trigger]
        unique_derives(f, record, k1) && #[trigger] unique_derives(f, record, k2) ==> k1 == k2
}

/// The index key that the key function of a unique index gives a record.
pub open spec fn unique_key<F: Fn(&[u8]) -> IndexKey>(f: F, record: Seq<u8>) -> (Seq<Seq<u8>>, Seq<u8>) {
    choose|key: (Seq<Seq<u8>>, Seq<u8>)| unique_derives(f, record, key)
}

/// Runs the key function of a unique index.
pub fn derive_unique_key<F: Fn(&[u8]) -> IndexKey>(f: &F, record: &[u8]) -> (k: IndexKey)
    requires
        unique_fn_ok(*f),
    ensures
        key_view(k) == unique_key(*f, record@),
        segments_fit(key_view(k).0),
{
    let k = f(record);
    proof {
        assert(call_ensures(*f, (record,), k));
        assert(unique_derives(*f, record@, key_view(k)));
    }
    k
}

/// The predicate of a conditional index may answer `answer` for these bytes.
pub open spec fn cond_answers<C: Fn(&[u8]) -> bool>(c: C, record: Seq<u8>, answer: bool) -> bool {
    exists|r: &[u8]| #[trigger] call_ensures(c, (r,), answer) && r@ == record
}

/// The predicate of a conditional index can be called on every record and
/// is pure.
pub open spec fn cond_fn_ok<C: Fn(&[u8]) -> bool>(c: C) -> bool {
    &&& forall|r: &[u8]| #[trigger] call_requires(c, (r,))
    &&& forall|record: Seq<u8>| !(#[trigger] cond_answers(c, record, true) && cond_answers(c, record, false))
}

/// The predicate of a conditional index takes the record in.
pub open spec fn included<C: Fn(&[u8]) -> bool>(c: C, record: Seq<u8>) -> bool {
    cond_answers(c, record, true)
}

/// Runs the predicate of a conditional index.
pub fn is_included<C: Fn(&[u8]) -> bool>(c: &C, record: &[u8]) -> (b: bool)
    requires
        cond_fn_ok(*c),
    ensures
        b == included(*c, record@),
{
    let b = c(record);
    proof {
        assert(call_ensures(*c, (record,), b));
        assert(cond_answers(*c, record@, b));
    }
    b
}

/// The recovery function of an index may return `pk` for the end of a key.
pub open spec fn recovers<G: Fn(Vec<u8>) -> Vec<u8>>(g: G, end: Seq<u8>, pk: Seq<u8>) -> bool {
    exists|e: Vec<u8>, p: Vec<u8>| #[trigger] call_ensures(g, (e,), p) && e@ == end && p@ == pk
}

/// The recovery function of an index can be called on every end of a key
/// and is pure.
pub open spec fn recover_fn_ok<G: Fn(Vec<u8>) -> Vec<u8>>(g: G) -> bool {
    &&& forall|e: Vec<u8>| #[trigger] call_requires(g, (e,))
    &&& forall|end: Seq<u8>, p1: Seq<u8>, p2: Seq<u8>| #[trigger]
        recovers(g, end, p1) && #[trigger] recovers(g, end, p2) ==> p1 == p2
}

/// The primary key that the recovery function makes of the end of a key.
pub open spec fn recovered<G: Fn(Vec<u8>) -> Vec<u8>>(g: G, end: Seq<u8>) -> Seq<u8> {
    choose|pk: Seq<u8>| recovers(g, end, pk)
}

} // verus!
