//! What a list of index entries does to the store when it is saved or removed.

use vstd::prelude::*;
use crate::index::{removed, removed_all, saved, saved_all, IndexEntry};
use crate::store::Entries;

verus! {

/// No two entries of the plan share a key, and none has the key `apart`.
pub open spec fn separate_keys(plan: Seq<Option<IndexEntry>>, apart: Seq<u8>) -> bool {
    &&& forall|i: int, j: int|
        0 <= i < j < plan.len() && plan[i] is Some && plan[j] is Some ==> (#[trigger] plan[i])->0.key
            != (#[trigger] plan[j])->0.key
    &&& forall|i: int| 0 <= i < plan.len() && plan[i] is Some ==> (#[trigger] plan[i])->0.key != apart
}

/// `key` is the key of an entry of the plan.
pub open spec fn plans_key(plan: Seq<Option<IndexEntry>>, key: Seq<u8>) -> bool {
    exists|i: int| 0 <= i < plan.len() && (#[trigger] plan[i]) is Some && plan[i]->0.key == key
}

/// A plan without an entry of a unique index that rejects collisions is
/// saved without a failure.
pub proof fn lemma_saved_all_is_not_refused(entries: Entries, plan: Seq<Option<IndexEntry>>, pk: Seq<u8>)
    requires
        forall|i: int| 0 <= i < plan.len() && (#[trigger] plan[i]) is Some ==> !plan[i]->0.unique,
    ensures
        saved_all(entries, plan, pk).1 is None,
    decreases plan.len(),
{
    if plan.len() > 0 {
        let first = saved(entries, plan[0], pk)->Ok_0;
        let rest = plan.skip(1);
        assert forall|i: int| 0 <= i < rest.len() && (#[trigger] rest[i]) is Some implies !rest[i]->0.unique by {
            assert(rest[i] == plan[i + 1]);
        }
        lemma_saved_all_is_not_refused(first, rest, pk);
    }
}

/// Saving the entries of a plan puts each of them into the store and leaves
/// every other key as it was.
pub proof fn lemma_saved_all(entries: Entries, plan: Seq<Option<IndexEntry>>, pk: Seq<u8>, apart: Seq<u8>)
    requires
        separate_keys(plan, apart),
        saved_all(entries, plan, pk).1 is None,
    ensures
        forall|i: int|
            0 <= i < plan.len() && (#[trigger] plan[i]) is Some ==> saved_all(entries, plan, pk).0.contains_key(
                plan[i]->0.key,
            ) && saved_all(entries, plan, pk).0[plan[i]->0.key] == plan[i]->0.value,
        forall|key: Seq<u8>|
            !plans_key(plan, key) ==> (#[trigger] saved_all(entries, plan, pk).0.contains_key(key))
                == entries.contains_key(key) && saved_all(entries, plan, pk).0[key] == entries[key],
    decreases plan.len(),
{
    if plan.len() > 0 {
        let first = saved(entries, plan[0], pk)->Ok_0;
        let rest = plan.skip(1);
        let last = saved_all(entries, plan, pk).0;
        assert forall|i: int| 0 <= i < rest.len() implies #[trigger] rest[i] == plan[i + 1] by {}
        assert(separate_keys(rest, apart)) by {
            assert forall|i: int, j: int|
                0 <= i < j < rest.len() && rest[i] is Some && rest[j] is Some implies (#[trigger] rest[i])->0.key
                != (#[trigger] rest[j])->0.key by {
                assert(rest[i] == plan[i + 1] && rest[j] == plan[j + 1]);
            }
            assert forall|i: int| 0 <= i < rest.len() && rest[i] is Some implies (#[trigger] rest[i])->0.key
                != apart by {
                assert(rest[i] == plan[i + 1]);
            }
        }
        lemma_saved_all(first, rest, pk, apart);
        assert forall|i: int| 0 <= i < plan.len() && (#[trigger] plan[i]) is Some implies last.contains_key(
            plan[i]->0.key,
        ) && last[plan[i]->0.key] == plan[i]->0.value by {
            if i == 0 {
                let key = plan[0]->0.key;
                if plans_key(rest, key) {
                    let j = choose|j: int|
                        0 <= j < rest.len() && (#[trigger] rest[j]) is Some && rest[j]->0.key == key;
                    assert(rest[j] == plan[j + 1]);
                    assert(false);
                }
                assert(last.contains_key(key) == first.contains_key(key));
            } else {
                assert(rest[i - 1] == plan[i]);
            }
        }
        assert forall|key: Seq<u8>| !plans_key(plan, key) implies (#[trigger] last.contains_key(key))
            == entries.contains_key(key) && last[key] == entries[key] by {
            if plans_key(rest, key) {
                let j = choose|j: int|
                    0 <= j < rest.len() && (#[trigger] rest[j]) is Some && rest[j]->0.key == key;
                assert(rest[j] == plan[j + 1]);
                assert(plans_key(plan, key));
            }
            assert(last.contains_key(key) == first.contains_key(key));
            if plan[0] is Some {
                assert(plan[0]->0.key != key);
            }
        }
    }
}

/// After the entries of a plan have been saved, a key of the plan holds the
/// value of one of the plan's entries for it, and every other key holds
/// what it held.
pub proof fn lemma_saved_all_at(entries: Entries, plan: Seq<Option<IndexEntry>>, pk: Seq<u8>, key: Seq<u8>)
    requires
        saved_all(entries, plan, pk).1 is None,
    ensures
        plans_key(plan, key) ==> saved_all(entries, plan, pk).0.contains_key(key) && exists|i: int|
            0 <= i < plan.len() && (#[trigger] plan[i]) is Some && plan[i]->0.key == key && saved_all(
                entries,
                plan,
                pk,
            ).0[key] == plan[i]->0.value,
        !plans_key(plan, key) ==> saved_all(entries, plan, pk).0.contains_key(key)
            == entries.contains_key(key) && saved_all(entries, plan, pk).0[key] == entries[key],
    decreases plan.len(),
{
    if plan.len() > 0 {
        let first = saved(entries, plan[0], pk)->Ok_0;
        let rest = plan.skip(1);
        let last = saved_all(entries, plan, pk).0;
        lemma_saved_all_at(first, rest, pk, key);
        assert(last == saved_all(first, rest, pk).0);
        if plans_key(rest, key) {
            let i = choose|i: int|
                0 <= i < rest.len() && (#[trigger] rest[i]) is Some && rest[i]->0.key == key && last[key]
                    == rest[i]->0.value;
            assert(rest[i] == plan[i + 1]);
            assert(plan[i + 1] is Some && plan[i + 1]->0.key == key && last[key] == plan[i + 1]->0.value);
        } else if plans_key(plan, key) {
            let i = choose|i: int| 0 <= i < plan.len() && (#[trigger] plan[i]) is Some && plan[i]->0.key == key;
            if i > 0 {
                assert(rest[i - 1] == plan[i]);
                assert(plans_key(rest, key));
            }
            assert(plan[0] is Some && plan[0]->0.key == key && last[key] == plan[0]->0.value);
        } else {
            if plan[0] is Some {
                assert(plan[0]->0.key != key);
            }
        }
    }
}

/// Removing the entries of a plan takes each of them out of the store and
/// leaves every other key as it was.
pub proof fn lemma_removed_all(entries: Entries, plan: Seq<Option<IndexEntry>>)
    ensures
        forall|i: int|
            0 <= i < plan.len() && (#[trigger] plan[i]) is Some ==> !removed_all(entries, plan).contains_key(
                plan[i]->0.key,
            ),
        forall|key: Seq<u8>|
            (#[trigger] removed_all(entries, plan).contains_key(key)) ==> entries.contains_key(key)
                && removed_all(entries, plan)[key] == entries[key],
        forall|key: Seq<u8>|
            !plans_key(plan, key) && entries.contains_key(key) ==> #[trigger] removed_all(
                entries,
                plan,
            ).contains_key(key),
    decreases plan.len(),
{
    if plan.len() > 0 {
        let first = removed(entries, plan[0]);
        let rest = plan.skip(1);
        let last = removed_all(entries, plan);
        lemma_removed_all(first, rest);
        assert(last == removed_all(first, rest));
        assert forall|i: int| 0 <= i < plan.len() && (#[trigger] plan[i]) is Some implies !last.contains_key(
            plan[i]->0.key,
        ) by {
            if i > 0 {
                assert(rest[i - 1] == plan[i]);
            } else if last.contains_key(plan[0]->0.key) {
                assert(first.contains_key(plan[0]->0.key));
            }
        }
        assert forall|key: Seq<u8>| (#[trigger] last.contains_key(key)) implies entries.contains_key(key)
            && last[key] == entries[key] by {
            assert(first.contains_key(key));
        }
        assert forall|key: Seq<u8>|
            !plans_key(plan, key) && entries.contains_key(key) implies #[trigger] last.contains_key(key) by {
            if plans_key(rest, key) {
                let j = choose|j: int|
                    0 <= j < rest.len() && (#[trigger] rest[j]) is Some && rest[j]->0.key == key;
                assert(rest[j] == plan[j + 1]);
                assert(plans_key(plan, key));
            }
            if plan[0] is Some {
                assert(plan[0]->0.key != key);
            }
            assert(first.contains_key(key));
        }
    }
}

} // verus!
