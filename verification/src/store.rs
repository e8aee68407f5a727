//! The host's key-value store, as this library sees it.

use vstd::prelude::*;
use cosmwasm_std::MemoryStorage;
use cosmwasm_std::Storage;
use crate::byte_order::{lex_le, lex_lt};

verus! {

/// What a store holds: values under keys, both byte strings.
pub type Entries = Map<Seq<u8>, Seq<u8>>;

/// The direction of a scan.
#[derive(Clone, Copy, Debug, PartialEq, Eq, Structural)]
pub enum Order {
    /// From the least key up.
    Ascending,
    /// From the greatest key down.
    Descending,
}

/// `MemoryStorage` of `cosmwasm_std`: the store of the host, kept in
/// memory. Nothing of its inside is known here; what it holds goes by the
/// name `contents`.
#[verifier::external_type_specification]
#[verifier::external_body]
pub struct ExMemoryStorage(MemoryStorage);

/// The entries that a store holds: for each key that was set and not
/// removed since, the value that was last set under it.
pub uninterp spec fn contents(store: MemoryStorage) -> Entries;

/// The byte string behind an optional slice.
pub open spec fn limit_view(limit: Option<&[u8]>) -> Option<Seq<u8>> {
    match limit {
        Some(bytes) => Some(bytes@),
        None => None,
    }
}

/// The byte strings behind a list of key-value pairs.
pub open spec fn pairs_view(pairs: Seq<(Vec<u8>, Vec<u8>)>) -> Seq<(Seq<u8>, Seq<u8>)> {
    Seq::new(pairs.len(), |i: int| (pairs[i].0@, pairs[i].1@))
}

/// `key` is at or after `start` and before `end`, as far as they are given.
pub open spec fn within(key: Seq<u8>, start: Option<Seq<u8>>, end: Option<Seq<u8>>) -> bool {
    &&& start matches Some(s) ==> lex_le(s, key)
    &&& end matches Some(e) ==> lex_lt(key, e)
}

/// In a scan of the given direction, `a` is handed out before `b`.
pub open spec fn comes_before(order: Order, a: Seq<u8>, b: Seq<u8>) -> bool {
    match order {
        Order::Ascending => lex_lt(a, b),
        Order::Descending => lex_lt(b, a),
    }
}

/// `found` is the scan of `entries` from `start` up to but without `end`:
/// each pair is an entry in the range, every entry in the range is among
/// them, and they stand in the order of their keys.
pub open spec fn is_range_scan(
    entries: Entries,
    start: Option<Seq<u8>>,
    end: Option<Seq<u8>>,
    order: Order,
    found: Seq<(Seq<u8>, Seq<u8>)>,
) -> bool {
    &&& forall|i: int|
        0 <= i < found.len() ==> entries.contains_key((#[trigger] found[i]).0) && entries[found[i].0]
            == found[i].1 && within(found[i].0, start, end)
    &&& forall|key: Seq<u8>|
        #[trigger] entries.contains_key(key) && within(key, start, end) ==> exists|i: int|
            0 <= i < found.len() && (#[trigger] found[i]).0 == key
    &&& forall|i: int, j: int|
        0 <= i < j < found.len() ==> comes_before(order, (#[trigger] found[i]).0, (#[trigger] found[j]).0)
}

/// `Storage::get` of `MemoryStorage`: the value under `key`, if there is one.
#[verifier::external_body]
pub(crate) fn store_get(store: &MemoryStorage, key: &[u8]) -> (r: Option<Vec<u8>>)
    ensures
        match r {
            Some(v) => contents(*store).contains_key(key@) && contents(*store)[key@] == v@,
            None => !contents(*store).contains_key(key@),
        },
{
    store.get(key)
}

/// `Storage::set` of `MemoryStorage`: puts `value` under `key`, in place of
/// what was there. The store refuses an empty value.
#[verifier::external_body]
pub(crate) fn store_set(store: &mut MemoryStorage, key: &[u8], value: &[u8])
    requires
        value@.len() > 0,
    ensures
        contents(*final(store)) == contents(*old(store)).insert(key@, value@),
{
    store.set(key, value)
}

/// `Storage::remove` of `MemoryStorage`: drops the entry under `key`, if
/// there is one.
#[verifier::external_body]
pub(crate) fn store_remove(store: &mut MemoryStorage, key: &[u8])
    ensures
        contents(*final(store)) == contents(*old(store)).remove(key@),
{
    store.remove(key)
}

/// `Storage::range` of `MemoryStorage`, collected: the entries whose keys
/// are at or after `start` and before `end`, in lexicographic order of the
/// keys, upwards or downwards.
#[verifier::external_body]
pub(crate) fn store_range(
    store: &MemoryStorage,
    start: Option<&[u8]>,
    end: Option<&[u8]>,
    order: Order,
) -> (r: Vec<(Vec<u8>, Vec<u8>)>)
    ensures
        is_range_scan(contents(*store), limit_view(start), limit_view(end), order, pairs_view(r@)),
{
    let direction = match order {
        Order::Ascending => cosmwasm_std::Order::Ascending,
        Order::Descending => cosmwasm_std::Order::Descending,
    };
    store.range(start, end, direction).collect()
}

} // verus!
