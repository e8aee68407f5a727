//! The order of byte strings under which the store hands out its keys.

use vstd::prelude::*;

verus! {

/// `a` and `b` agree on their first `i` bytes, and there `a` ends while `b`
/// goes on, or `a` has the smaller byte.
pub open spec fn differs_at(a: Seq<u8>, b: Seq<u8>, i: int) -> bool {
    &&& 0 <= i <= a.len()
    &&& i <= b.len()
    &&& a.subrange(0, i) == b.subrange(0, i)
    &&& if i == a.len() {
        i < b.len()
    } else {
        i < b.len() && a[i] < b[i]
    }
}

/// `a` comes strictly before `b` in lexicographic byte order.
pub open spec fn lex_lt(a: Seq<u8>, b: Seq<u8>) -> bool {
    exists|i: int| differs_at(a, b, i)
}

/// `a` comes before `b` in lexicographic byte order, or is `b`.
pub open spec fn lex_le(a: Seq<u8>, b: Seq<u8>) -> bool {
    a == b || lex_lt(a, b)
}

/// `key` starts with `prefix`.
pub open spec fn has_prefix(key: Seq<u8>, prefix: Seq<u8>) -> bool {
    prefix.len() <= key.len() && key.subrange(0, prefix.len() as int) == prefix
}

/// Two byte strings that agree up to `i` agree up to any `j` before it.
proof fn lemma_agree_shorter(a: Seq<u8>, b: Seq<u8>, i: int, j: int)
    requires
        0 <= j <= i <= a.len(),
        i <= b.len(),
        a.subrange(0, i) == b.subrange(0, i),
    ensures
        a.subrange(0, j) == b.subrange(0, j),
        j < i ==> a[j] == b[j],
{
    assert(a.subrange(0, j) =~= a.subrange(0, i).subrange(0, j));
    assert(b.subrange(0, j) =~= b.subrange(0, i).subrange(0, j));
    if j < i {
        assert(a[j] == a.subrange(0, i)[j]);
        assert(b[j] == b.subrange(0, i)[j]);
    }
}

/// No byte string comes before itself.
pub proof fn lemma_lex_lt_irreflexive(a: Seq<u8>)
    ensures
        !lex_lt(a, a),
{
}

/// Of two byte strings at most one comes before the other.
pub proof fn lemma_lex_lt_asymmetric(a: Seq<u8>, b: Seq<u8>)
    ensures
        !(lex_lt(a, b) && lex_lt(b, a)),
{
    if lex_lt(a, b) && lex_lt(b, a) {
        let i = choose|i: int| differs_at(a, b, i);
        let j = choose|j: int| differs_at(b, a, j);
        if i < j {
            lemma_agree_shorter(b, a, j, i);
        } else if j < i {
            lemma_agree_shorter(a, b, i, j);
        }
    }
}

/// The order is transitive.
pub proof fn lemma_lex_lt_transitive(a: Seq<u8>, b: Seq<u8>, c: Seq<u8>)
    requires
        lex_lt(a, b),
        lex_lt(b, c),
    ensures
        lex_lt(a, c),
{
    let i = choose|i: int| differs_at(a, b, i);
    let j = choose|j: int| differs_at(b, c, j);
    if i <= j {
        lemma_agree_shorter(b, c, j, i);
        assert(differs_at(a, c, i));
    } else {
        lemma_agree_shorter(a, b, i, j);
        assert(differs_at(a, c, j));
    }
}

/// The order stays transitive where one or both steps may be an equality.
pub proof fn lemma_lex_le_transitive(a: Seq<u8>, b: Seq<u8>, c: Seq<u8>)
    requires
        lex_le(a, b),
        lex_le(b, c),
    ensures
        lex_le(a, c),
        lex_lt(a, b) || lex_lt(b, c) ==> lex_lt(a, c),
{
    if a != b && b != c {
        lemma_lex_lt_transitive(a, b, c);
    }
}

/// Any two byte strings are equal or ordered one way.
pub proof fn lemma_lex_total(a: Seq<u8>, b: Seq<u8>)
    ensures
        a == b || lex_lt(a, b) || lex_lt(b, a),
{
    assert(a.subrange(0, 0) =~= b.subrange(0, 0));
    lemma_lex_total_from(a, b, 0);
}

proof fn lemma_lex_total_from(a: Seq<u8>, b: Seq<u8>, i: int)
    requires
        0 <= i <= a.len(),
        i <= b.len(),
        a.subrange(0, i) == b.subrange(0, i),
    ensures
        a == b || lex_lt(a, b) || lex_lt(b, a),
    decreases a.len() - i,
{
    if i == a.len() {
        if i == b.len() {
            assert(a =~= a.subrange(0, i));
            assert(b =~= b.subrange(0, i));
        } else {
            assert(differs_at(a, b, i));
        }
    } else if i == b.len() {
        assert(differs_at(b, a, i));
    } else if a[i] < b[i] {
        assert(differs_at(a, b, i));
    } else if b[i] < a[i] {
        assert(differs_at(b, a, i));
    } else {
        assert(a.subrange(0, i + 1) =~= a.subrange(0, i).push(a[i]));
        assert(b.subrange(0, i + 1) =~= b.subrange(0, i).push(b[i]));
        lemma_lex_total_from(a, b, i + 1);
    }
}

/// What follows a common prefix is equal where the whole is.
pub proof fn lemma_same_behind_prefix(p: Seq<u8>, a: Seq<u8>, b: Seq<u8>)
    ensures
        (p + a == p + b) == (a == b),
{
    if p + a == p + b {
        assert(a =~= (p + a).subrange(p.len() as int, (p + a).len() as int));
        assert(b =~= (p + b).subrange(p.len() as int, (p + b).len() as int));
    }
}

/// A byte string behind a prefix starts with that prefix.
pub proof fn lemma_has_prefix(p: Seq<u8>, a: Seq<u8>)
    ensures
        has_prefix(p + a, p),
        (p + a).subrange(p.len() as int, (p + a).len() as int) == a,
{
    assert((p + a).subrange(0, p.len() as int) =~= p);
    assert((p + a).subrange(p.len() as int, (p + a).len() as int) =~= a);
}

/// A key that starts with a prefix is that prefix and the rest of the key.
pub proof fn lemma_prefix_split(key: Seq<u8>, p: Seq<u8>)
    requires
        has_prefix(key, p),
    ensures
        key == p + key.subrange(p.len() as int, key.len() as int),
{
    assert(key =~= key.subrange(0, p.len() as int) + key.subrange(p.len() as int, key.len() as int));
}

/// A common prefix does not change the order of what follows it.
pub proof fn lemma_lex_lt_behind_prefix(p: Seq<u8>, a: Seq<u8>, b: Seq<u8>)
    ensures
        lex_lt(p + a, p + b) == lex_lt(a, b),
{
    let n = p.len() as int;
    if lex_lt(a, b) {
        let i = choose|i: int| differs_at(a, b, i);
        assert((p + a).subrange(0, n + i) =~= p + a.subrange(0, i));
        assert((p + b).subrange(0, n + i) =~= p + b.subrange(0, i));
        assert(differs_at(p + a, p + b, n + i));
    }
    if lex_lt(p + a, p + b) {
        let i = choose|i: int| differs_at(p + a, p + b, i);
        if i < n {
            assert((p + a)[i] == p[i]);
            assert((p + b)[i] == p[i]);
        } else {
            let j = i - n;
            assert(a.subrange(0, j) =~= (p + a).subrange(0, i).subrange(n, i));
            assert(b.subrange(0, j) =~= (p + b).subrange(0, i).subrange(n, i));
            if j < a.len() && j < b.len() {
                assert((p + a)[i] == a[j]);
                assert((p + b)[i] == b[j]);
            }
            assert(differs_at(a, b, j));
        }
    }
}

/// `a` and `b` part ways: they agree on their first `i` bytes and differ in
/// the byte after them.
pub open spec fn part_ways_at(a: Seq<u8>, b: Seq<u8>, i: int) -> bool {
    &&& 0 <= i < a.len()
    &&& i < b.len()
    &&& a.subrange(0, i) == b.subrange(0, i)
    &&& a[i] != b[i]
}

/// `a` and `b` part ways somewhere: neither is the start of the other.
pub open spec fn part_ways(a: Seq<u8>, b: Seq<u8>) -> bool {
    exists|i: int| part_ways_at(a, b, i)
}

/// Byte strings that part ways go on doing so, whatever follows them.
pub proof fn lemma_part_ways_extend(a: Seq<u8>, b: Seq<u8>, x: Seq<u8>, y: Seq<u8>)
    requires
        part_ways(a, b),
    ensures
        part_ways(a + x, b + y),
{
    let i = choose|i: int| part_ways_at(a, b, i);
    assert((a + x).subrange(0, i) =~= a.subrange(0, i));
    assert((b + y).subrange(0, i) =~= b.subrange(0, i));
    assert(part_ways_at(a + x, b + y, i));
}

/// Byte strings that part ways do so behind a common prefix too.
pub proof fn lemma_part_ways_behind(p: Seq<u8>, a: Seq<u8>, b: Seq<u8>)
    requires
        part_ways(a, b),
    ensures
        part_ways(p + a, p + b),
{
    let i = choose|i: int| part_ways_at(a, b, i);
    let n = p.len() as int;
    assert((p + a).subrange(0, n + i) =~= p + a.subrange(0, i));
    assert((p + b).subrange(0, n + i) =~= p + b.subrange(0, i));
    assert(part_ways_at(p + a, p + b, n + i));
}

/// Byte strings that part ways are ordered by the byte in which they
/// differ: neither starts with the other, and what follows them does not
/// count.
pub proof fn lemma_part_ways_order(a: Seq<u8>, b: Seq<u8>, x: Seq<u8>, y: Seq<u8>)
    requires
        part_ways(a, b),
    ensures
        lex_lt(a + x, b + y) == lex_lt(a, b),
        a + x != b + y,
        !has_prefix(a + x, b),
{
    let i = choose|i: int| part_ways_at(a, b, i);
    assert((a + x).subrange(0, i) =~= a.subrange(0, i));
    assert((b + y).subrange(0, i) =~= b.subrange(0, i));
    assert((a + x)[i] == a[i]);
    assert((b + y)[i] == b[i]);
    if a[i] < b[i] {
        assert(differs_at(a, b, i));
        assert(differs_at(a + x, b + y, i));
    } else {
        assert(differs_at(b, a, i));
        assert(differs_at(b + y, a + x, i));
        lemma_lex_lt_asymmetric(a, b);
        lemma_lex_lt_asymmetric(a + x, b + y);
    }
    if has_prefix(a + x, b) {
        assert((a + x).subrange(0, b.len() as int)[i] == b[i]);
    }
}

/// Two different byte strings of one length part ways.
pub proof fn lemma_same_len_part_ways(a: Seq<u8>, b: Seq<u8>)
    requires
        a.len() == b.len(),
        a != b,
    ensures
        part_ways(a, b),
{
    lemma_lex_total(a, b);
    if lex_lt(a, b) {
        let i = choose|i: int| differs_at(a, b, i);
        assert(part_ways_at(a, b, i));
    } else {
        let i = choose|i: int| differs_at(b, a, i);
        assert(part_ways_at(a, b, i));
    }
}

/// How many bytes of `prefix` are left when the trailing bytes 255 are dropped.
pub open spec fn trimmed_len(prefix: Seq<u8>) -> nat
    decreases prefix.len(),
{
    if prefix.len() == 0 {
        0
    } else if prefix.last() == 255 {
        trimmed_len(prefix.drop_last())
    } else {
        prefix.len()
    }
}

/// The least byte string that comes after every key that starts with
/// `prefix`; none when `prefix` is empty or all its bytes are 255.
pub open spec fn prefix_upper_bound(prefix: Seq<u8>) -> Option<Seq<u8>> {
    let n = trimmed_len(prefix) as int;
    if n == 0 {
        None
    } else {
        Some(prefix.subrange(0, n - 1).push((prefix[n - 1] + 1) as u8))
    }
}

/// `key` lies in the range that `prefix` and its upper bound span.
pub open spec fn in_prefix_range(key: Seq<u8>, prefix: Seq<u8>) -> bool {
    &&& lex_le(prefix, key)
    &&& match prefix_upper_bound(prefix) {
        Some(bound) => lex_lt(key, bound),
        None => true,
    }
}

proof fn lemma_trimmed_len(prefix: Seq<u8>)
    ensures
        trimmed_len(prefix) <= prefix.len(),
        trimmed_len(prefix) > 0 ==> prefix[trimmed_len(prefix) - 1] != 255,
        forall|i: int| trimmed_len(prefix) <= i < prefix.len() ==> prefix[i] == 255,
    decreases prefix.len(),
{
    if prefix.len() > 0 && prefix.last() == 255 {
        let shorter = prefix.drop_last();
        lemma_trimmed_len(shorter);
        assert forall|i: int| trimmed_len(prefix) <= i < prefix.len() implies prefix[i] == 255 by {
            if i < shorter.len() {
                assert(shorter[i] == prefix[i]);
            }
        }
    }
}

/// The keys that start with `prefix` are those from `prefix` on and before
/// its upper bound.
pub proof fn lemma_prefix_range(key: Seq<u8>, prefix: Seq<u8>)
    ensures
        has_prefix(key, prefix) == in_prefix_range(key, prefix),
{
    let n = prefix.len() as int;
    let t = trimmed_len(prefix) as int;
    lemma_trimmed_len(prefix);
    if has_prefix(key, prefix) {
        if key != prefix {
            if key.len() == n {
                assert(key =~= key.subrange(0, n));
            }
            assert(prefix.subrange(0, n) =~= prefix);
            assert(differs_at(prefix, key, n));
        }
        if t > 0 {
            let bound = prefix_upper_bound(prefix).unwrap();
            lemma_agree_shorter(key, prefix, n, t - 1);
            assert(prefix.subrange(0, n) =~= prefix);
            assert(key.subrange(0, t - 1) =~= bound.subrange(0, t - 1));
            assert(key[t - 1] == key.subrange(0, n)[t - 1]);
            assert(differs_at(key, bound, t - 1));
        }
    }
    if in_prefix_range(key, prefix) && key != prefix {
        let i = choose|i: int| differs_at(prefix, key, i);
        if i < n {
            // the keys part at byte i, where the key has the larger byte
            if t == 0 {
                assert(prefix[i] == 255);
            } else {
                let bound = prefix_upper_bound(prefix).unwrap();
                let j = choose|j: int| differs_at(key, bound, j);
                assert(bound.len() == t);
                if i >= t {
                    assert(prefix[i] == 255);
                } else if j < i {
                    lemma_agree_shorter(prefix, key, i, j);
                    assert(bound[j] == prefix[j]);
                    assert(false);
                } else if i < j {
                    lemma_agree_shorter(key, bound, j, i);
                    if i < t - 1 {
                        assert(bound[i] == prefix[i]);
                    }
                    assert(false);
                } else {
                    if i < t - 1 {
                        assert(bound[i] == prefix[i]);
                    }
                    assert(false);
                }
            }
        } else {
            assert(prefix.subrange(0, n) =~= prefix);
        }
    }
    if key == prefix {
        assert(key.subrange(0, n) =~= prefix);
    }
}

/// Strictly after `limit` is the same as from `limit` with a zero byte on.
pub proof fn lemma_lex_lt_as_le(limit: Seq<u8>, key: Seq<u8>)
    ensures
        lex_lt(limit, key) == lex_le(limit.push(0), key),
{
    let n = limit.len() as int;
    let next = limit.push(0);
    if lex_lt(limit, key) {
        let i = choose|i: int| differs_at(limit, key, i);
        if i == n {
            assert(next.subrange(0, n) =~= limit.subrange(0, n));
            if key[n] == 0 {
                assert(next.subrange(0, n + 1) =~= next.subrange(0, n).push(0));
                assert(key.subrange(0, n + 1) =~= key.subrange(0, n).push(0));
                if key.len() == n + 1 {
                    assert(key =~= key.subrange(0, n + 1));
                    assert(next =~= next.subrange(0, n + 1));
                } else {
                    assert(differs_at(next, key, n + 1));
                }
            } else {
                assert(differs_at(next, key, n));
            }
        } else {
            assert(next.subrange(0, i) =~= limit.subrange(0, i));
            assert(differs_at(next, key, i));
        }
    }
    if lex_le(next, key) {
        if next == key {
            assert(limit.subrange(0, n) =~= key.subrange(0, n));
            assert(differs_at(limit, key, n));
        } else {
            let i = choose|i: int| differs_at(next, key, i);
            if i <= n {
                assert(limit.subrange(0, i) =~= next.subrange(0, i));
                if i == n {
                    assert(differs_at(limit, key, n));
                } else {
                    assert(differs_at(limit, key, i));
                }
            } else {
                lemma_agree_shorter(next, key, i, n);
                assert(limit.subrange(0, n) =~= next.subrange(0, n));
                assert(differs_at(limit, key, n));
            }
        }
    }
}

/// Up to and with `limit` is the same as before `limit` with a zero byte on.
pub proof fn lemma_lex_le_as_lt(key: Seq<u8>, limit: Seq<u8>)
    ensures
        lex_le(key, limit) == lex_lt(key, limit.push(0)),
{
    lemma_lex_lt_as_le(limit, key);
    lemma_lex_total(key, limit);
    lemma_lex_total(key, limit.push(0));
    lemma_lex_lt_asymmetric(key, limit);
    lemma_lex_lt_asymmetric(key, limit.push(0));
    lemma_lex_lt_irreflexive(key);
}

} // verus!
