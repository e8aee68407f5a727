//! Composite keys: length-prefixed namespace segments followed by a raw key.

use vstd::prelude::*;
use crate::byte_order::{
    lemma_lex_lt_behind_prefix, lemma_part_ways_behind, lemma_part_ways_extend,
    lemma_part_ways_order, lemma_same_behind_prefix, lemma_same_len_part_ways, lex_lt, part_ways,
    part_ways_at,
};

verus! {

/// The longest segment that a two-byte length prefix can announce.
pub const MAX_SEGMENT_LEN: usize = 0xFFFF;

/// The two bytes that announce a segment of `len` bytes, big end first.
pub open spec fn length_prefix(len: nat) -> Seq<u8> {
    seq![(len / 256) as u8, (len % 256) as u8]
}

/// A segment behind its length prefix.
pub open spec fn length_prefixed(segment: Seq<u8>) -> Seq<u8> {
    length_prefix(segment.len()) + segment
}

/// All segments, each behind its length prefix, one after the other.
pub open spec fn namespaces_prefix(namespaces: Seq<Seq<u8>>) -> Seq<u8>
    decreases namespaces.len(),
{
    if namespaces.len() == 0 {
        Seq::empty()
    } else {
        namespaces_prefix(namespaces.drop_last()) + length_prefixed(namespaces.last())
    }
}

/// The composite key: the length-prefixed namespaces, then the key as it is.
pub open spec fn composite_key(namespaces: Seq<Seq<u8>>, key: Seq<u8>) -> Seq<u8> {
    namespaces_prefix(namespaces) + key
}

/// Every segment fits a two-byte length prefix.
pub open spec fn segments_fit(namespaces: Seq<Seq<u8>>) -> bool {
    forall|i: int| 0 <= i < namespaces.len() ==> (#[trigger] namespaces[i]).len() <= MAX_SEGMENT_LEN
}

/// The byte strings that a slice of byte slices stands for.
pub open spec fn slices_view(namespaces: Seq<&[u8]>) -> Seq<Seq<u8>> {
    Seq::new(namespaces.len(), |i: int| namespaces[i]@)
}

/// The byte strings that a list of owned segments stands for.
pub open spec fn segments_view(segments: Seq<Vec<u8>>) -> Seq<Seq<u8>> {
    Seq::new(segments.len(), |i: int| segments[i]@)
}

/// An index key as the index functions hand it over: the leading segments,
/// which are length-prefixed in the store, and the last one, which is not.
pub type IndexKey = (Vec<Vec<u8>>, Vec<u8>);

/// The byte strings that an index key stands for.
pub open spec fn key_view(key: IndexKey) -> (Seq<Seq<u8>>, Seq<u8>) {
    (segments_view(key.0@), key.1@)
}

/// The bytes of an index key below its namespace.
pub open spec fn joined(key: (Seq<Seq<u8>>, Seq<u8>)) -> Seq<u8> {
    composite_key(key.0, key.1)
}

/// The bytes of a namespace that is given as text.
pub open spec fn name_bytes(name: Seq<char>) -> Seq<u8> {
    vstd::utf8::encode_utf8(name)
}

/// The four bytes of a length, big end first.
pub open spec fn be32(n: nat) -> Seq<u8> {
    seq![
        (n / 0x100_0000) as u8,
        ((n / 0x1_0000) % 256) as u8,
        ((n / 0x100) % 256) as u8,
        (n % 256) as u8,
    ]
}

/// The length that four bytes spell, big end first; none for any other
/// number of bytes.
pub open spec fn be32_value(bytes: Seq<u8>) -> Option<nat> {
    if bytes.len() == 4 {
        Some((bytes[0] * 0x100_0000 + bytes[1] * 0x1_0000 + bytes[2] * 0x100 + bytes[3]) as nat)
    } else {
        None
    }
}

/// The eight bytes of a number, big end first.
pub open spec fn be64(n: nat) -> Seq<u8> {
    seq![
        (n / 0x100_0000_0000_0000) as u8,
        ((n / 0x1_0000_0000_0000) % 256) as u8,
        ((n / 0x100_0000_0000) % 256) as u8,
        ((n / 0x1_0000_0000) % 256) as u8,
        ((n / 0x100_0000) % 256) as u8,
        ((n / 0x1_0000) % 256) as u8,
        ((n / 0x100) % 256) as u8,
        (n % 256) as u8,
    ]
}

/// The order in which two index keys of as many segments stand: by their
/// leading segments where these differ, else by their last segments.
pub open spec fn key_before(a: (Seq<Seq<u8>>, Seq<u8>), b: (Seq<Seq<u8>>, Seq<u8>)) -> bool {
    if a.0 == b.0 {
        lex_lt(a.1, b.1)
    } else {
        lex_lt(namespaces_prefix(a.0), namespaces_prefix(b.0))
    }
}

/// Encodes the length of a namespace as two bytes, big end first.
pub fn encode_length(namespace: &[u8]) -> (r: [u8; 2])
    requires
        namespace@.len() <= MAX_SEGMENT_LEN,
    ensures
        r@ == length_prefix(namespace@.len()),
{
    let n: usize = namespace.len();
    let r: [u8; 2] = [(n / 256) as u8, (n % 256) as u8];
    assert(r@ =~= length_prefix(namespace@.len()));
    r
}

/// Builds the composite key of `key` under the given namespaces.
pub fn namespaces_with_key(namespaces: &[&[u8]], key: &[u8]) -> (out: Vec<u8>)
    requires
        segments_fit(slices_view(namespaces@)),
    ensures
        out@ == composite_key(slices_view(namespaces@), key@),
{
    let mut out: Vec<u8> = Vec::new();
    let mut i: usize = 0;
    while i < namespaces.len()
        invariant
            i <= namespaces.len(),
            segments_fit(slices_view(namespaces@)),
            out@ == namespaces_prefix(slices_view(namespaces@).take(i as int)),
        decreases namespaces.len() - i,
    {
        let namespace: &[u8] = namespaces[i];
        assert(namespace@ == slices_view(namespaces@)[i as int]);
        let len_bytes = encode_length(namespace);
        out.extend_from_slice(&len_bytes);
        out.extend_from_slice(namespace);
        proof {
            let all = slices_view(namespaces@);
            assert(all.take(i + 1).drop_last() =~= all.take(i as int));
            assert(all.take(i + 1).last() == all[i as int]);
        }
        i += 1;
    }
    assert(slices_view(namespaces@).take(i as int) =~= slices_view(namespaces@));
    out.extend_from_slice(key);
    out
}

/// The segments as borrowed slices.
pub fn segments_as_slices(segments: &Vec<Vec<u8>>) -> (out: Vec<&[u8]>)
    ensures
        slices_view(out@) == segments_view(segments@),
{
    let mut out: Vec<&[u8]> = Vec::new();
    let mut i: usize = 0;
    while i < segments.len()
        invariant
            i <= segments.len(),
            out@.len() == i,
            forall|j: int| 0 <= j < i ==> (#[trigger] out@[j])@ == segments@[j]@,
        decreases segments.len() - i,
    {
        out.push(segments[i].as_slice());
        i += 1;
    }
    assert(slices_view(out@) =~= segments_view(segments@));
    out
}

/// The bytes of an index key below its namespace: the leading segments
/// behind their length prefixes, then the last segment.
pub fn joined_key(key: &IndexKey) -> (out: Vec<u8>)
    requires
        segments_fit(key_view(*key).0),
    ensures
        out@ == joined(key_view(*key)),
{
    let leading = segments_as_slices(&key.0);
    namespaces_with_key(leading.as_slice(), key.1.as_slice())
}

/// The prefix that all keys share which lie under `top_name` and then under
/// each of `sub_names`.
pub fn storage_prefix(top_name: &[u8], sub_names: &[&[u8]]) -> (out: Vec<u8>)
    requires
        top_name@.len() <= MAX_SEGMENT_LEN,
        segments_fit(slices_view(sub_names@)),
    ensures
        out@ == namespaces_prefix(seq![top_name@] + slices_view(sub_names@)),
{
    let mut names: Vec<&[u8]> = Vec::new();
    names.push(top_name);
    let mut i: usize = 0;
    while i < sub_names.len()
        invariant
            i <= sub_names.len(),
            names@.len() == i + 1,
            names@[0]@ == top_name@,
            forall|j: int| 0 <= j < i ==> (#[trigger] names@[j + 1])@ == sub_names@[j]@,
        decreases sub_names.len() - i,
    {
        names.push(sub_names[i]);
        i += 1;
    }
    proof {
        let all = seq![top_name@] + slices_view(sub_names@);
        assert forall|j: int| 0 <= j < all.len() implies slices_view(names@)[j] == all[j] by {
            if j > 0 {
                assert(names@[(j - 1) + 1]@ == sub_names@[j - 1]@);
            }
        }
        assert(slices_view(names@) =~= all);
        assert forall|j: int| 0 <= j < all.len() implies (#[trigger] all[j]).len() <= MAX_SEGMENT_LEN by {
            if j > 0 {
                assert(all[j] == slices_view(sub_names@)[j - 1]);
            }
        }
    }
    let empty: Vec<u8> = Vec::new();
    let out = namespaces_with_key(names.as_slice(), empty.as_slice());
    assert(out@ =~= namespaces_prefix(seq![top_name@] + slices_view(sub_names@)));
    out
}

/// Whether a namespace is short enough for its two-byte length prefix: the
/// test to make before a table or an index is used under it.
pub fn namespace_fits(name: &str) -> (fits: bool)
    ensures
        fits == (name_bytes(name@).len() <= MAX_SEGMENT_LEN),
{
    name.as_bytes().len() <= MAX_SEGMENT_LEN
}

/// The bytes of a namespace.
pub fn namespace_bytes(name: &String) -> (bytes: &[u8])
    ensures
        bytes@ == name_bytes(name@),
{
    name.as_str().as_bytes()
}

/// A copy of `bytes`.
pub fn copy_bytes(bytes: &[u8]) -> (out: Vec<u8>)
    ensures
        out@ == bytes@,
{
    let mut out: Vec<u8> = Vec::new();
    out.extend_from_slice(bytes);
    assert(out@ =~= bytes@);
    out
}

/// Whether two byte strings are the same.
pub fn same_bytes(a: &[u8], b: &[u8]) -> (same: bool)
    ensures
        same == (a@ == b@),
{
    if a.len() != b.len() {
        return false;
    }
    let mut i: usize = 0;
    while i < a.len()
        invariant
            i <= a.len(),
            a@.len() == b@.len(),
            a@.subrange(0, i as int) == b@.subrange(0, i as int),
        decreases a.len() - i,
    {
        if a[i] != b[i] {
            return false;
        }
        assert(a@.subrange(0, i + 1) =~= a@.subrange(0, i as int).push(a@[i as int]));
        assert(b@.subrange(0, i + 1) =~= b@.subrange(0, i as int).push(b@[i as int]));
        i += 1;
    }
    assert(a@ =~= a@.subrange(0, i as int));
    assert(b@ =~= b@.subrange(0, i as int));
    true
}

/// The bytes of `bytes` from position `from` on.
pub fn bytes_from(bytes: &[u8], from: usize) -> (out: Vec<u8>)
    requires
        from <= bytes@.len(),
    ensures
        out@ == bytes@.subrange(from as int, bytes@.len() as int),
{
    let tail = vstd::slice::slice_subrange(bytes, from, bytes.len());
    copy_bytes(tail)
}

/// The length of a primary key as the four bytes that an index stores.
pub fn encode_u32(n: u32) -> (out: Vec<u8>)
    ensures
        out@ == be32(n as nat),
{
    let mut out: Vec<u8> = Vec::new();
    out.push((n / 0x100_0000) as u8);
    out.push(((n / 0x1_0000) % 256) as u8);
    out.push(((n / 0x100) % 256) as u8);
    out.push((n % 256) as u8);
    assert(out@ =~= be32(n as nat));
    out
}

/// Reads back a length from the four bytes that an index stored.
pub fn decode_u32(bytes: &[u8]) -> (r: Option<u32>)
    ensures
        match r {
            Some(n) => be32_value(bytes@) == Some(n as nat),
            None => be32_value(bytes@) is None,
        },
{
    if bytes.len() != 4 {
        return None;
    }
    let b0: u32 = bytes[0] as u32;
    let b1: u32 = bytes[1] as u32;
    let b2: u32 = bytes[2] as u32;
    let b3: u32 = bytes[3] as u32;
    Some(b0 * 0x100_0000 + b1 * 0x1_0000 + b2 * 0x100 + b3)
}

/// A number as eight bytes, big end first: the form in which a number
/// stands in a key, so that the keys are ordered as the numbers are.
pub fn encode_u64(n: u64) -> (out: Vec<u8>)
    ensures
        out@ == be64(n as nat),
{
    let mut out: Vec<u8> = Vec::new();
    out.push((n / 0x100_0000_0000_0000) as u8);
    out.push(((n / 0x1_0000_0000_0000) % 256) as u8);
    out.push(((n / 0x100_0000_0000) % 256) as u8);
    out.push(((n / 0x1_0000_0000) % 256) as u8);
    out.push(((n / 0x100_0000) % 256) as u8);
    out.push(((n / 0x1_0000) % 256) as u8);
    out.push(((n / 0x100) % 256) as u8);
    out.push((n % 256) as u8);
    assert(out@ =~= be64(n as nat));
    out
}

/// What was encoded is read back.
pub proof fn lemma_be32_round_trip(n: nat)
    requires
        n <= u32::MAX,
    ensures
        be32_value(be32(n)) == Some(n),
{
}

/// The length-prefixed form of two lists of segments, one after the other,
/// is that of the one list followed by that of the other.
pub proof fn lemma_namespaces_prefix_concat(a: Seq<Seq<u8>>, b: Seq<Seq<u8>>)
    ensures
        namespaces_prefix(a + b) == namespaces_prefix(a) + namespaces_prefix(b),
    decreases b.len(),
{
    if b.len() == 0 {
        assert(a + b =~= a);
        assert(namespaces_prefix(a) + namespaces_prefix(b) =~= namespaces_prefix(a));
    } else {
        assert((a + b).drop_last() =~= a + b.drop_last());
        assert((a + b).last() == b.last());
        lemma_namespaces_prefix_concat(a, b.drop_last());
        assert(namespaces_prefix(a + b) =~= namespaces_prefix(a) + namespaces_prefix(b));
    }
}

/// One segment in its length-prefixed form.
pub proof fn lemma_namespaces_prefix_one(segment: Seq<u8>)
    ensures
        namespaces_prefix(seq![segment]) == length_prefixed(segment),
{
    let none = seq![segment].drop_last();
    assert(none.len() == 0);
    assert(namespaces_prefix(none) =~= Seq::<u8>::empty());
    assert(seq![segment].last() == segment);
    assert(namespaces_prefix(seq![segment]) =~= length_prefixed(segment));
}

/// Two different segments part ways behind their length prefixes: no
/// length-prefixed segment is the start of another.
pub proof fn lemma_length_prefixed_part_ways(a: Seq<u8>, b: Seq<u8>)
    requires
        a != b,
        a.len() <= MAX_SEGMENT_LEN,
        b.len() <= MAX_SEGMENT_LEN,
    ensures
        part_ways(length_prefixed(a), length_prefixed(b)),
{
    let la = length_prefixed(a);
    let lb = length_prefixed(b);
    if a.len() != b.len() {
        if a.len() / 256 != b.len() / 256 {
            assert(la.subrange(0, 0) =~= lb.subrange(0, 0));
            assert(part_ways_at(la, lb, 0));
        } else {
            assert(la.subrange(0, 1) =~= lb.subrange(0, 1));
            assert(part_ways_at(la, lb, 1));
        }
    } else {
        lemma_same_len_part_ways(a, b);
        lemma_part_ways_behind(length_prefix(a.len()), a, b);
    }
}

/// Two different lists of as many segments part ways in their
/// length-prefixed form.
pub proof fn lemma_namespaces_part_ways(a: Seq<Seq<u8>>, b: Seq<Seq<u8>>)
    requires
        a.len() == b.len(),
        a != b,
        segments_fit(a),
        segments_fit(b),
    ensures
        part_ways(namespaces_prefix(a), namespaces_prefix(b)),
    decreases a.len(),
{
    if a.len() == 0 {
        assert(a =~= b);
    } else {
        let a0 = a.drop_last();
        let b0 = b.drop_last();
        if a0 == b0 {
            if a.last() == b.last() {
                assert(a =~= a0.push(a.last()));
                assert(b =~= b0.push(b.last()));
            }
            lemma_length_prefixed_part_ways(a.last(), b.last());
            lemma_part_ways_behind(
                namespaces_prefix(a0),
                length_prefixed(a.last()),
                length_prefixed(b.last()),
            );
        } else {
            assert forall|i: int| 0 <= i < a0.len() implies (#[trigger] a0[i]).len()
                <= MAX_SEGMENT_LEN by {
                assert(a0[i] == a[i]);
            }
            assert forall|i: int| 0 <= i < b0.len() implies (#[trigger] b0[i]).len()
                <= MAX_SEGMENT_LEN by {
                assert(b0[i] == b[i]);
            }
            lemma_namespaces_part_ways(a0, b0);
            lemma_part_ways_extend(
                namespaces_prefix(a0),
                namespaces_prefix(b0),
                length_prefixed(a.last()),
                length_prefixed(b.last()),
            );
        }
    }
}

/// Composite keys are ordered first by their namespaces, then by what
/// follows, and the namespaces alone decide where they differ.
pub proof fn lemma_key_order(a: (Seq<Seq<u8>>, Seq<u8>), b: (Seq<Seq<u8>>, Seq<u8>))
    requires
        a.0.len() == b.0.len(),
        segments_fit(a.0),
        segments_fit(b.0),
    ensures
        lex_lt(joined(a), joined(b)) == key_before(a, b),
        (joined(a) == joined(b)) == (a == b),
{
    if a.0 == b.0 {
        lemma_lex_lt_behind_prefix(namespaces_prefix(a.0), a.1, b.1);
        lemma_same_behind_prefix(namespaces_prefix(a.0), a.1, b.1);
    } else {
        lemma_namespaces_part_ways(a.0, b.0);
        lemma_part_ways_order(namespaces_prefix(a.0), namespaces_prefix(b.0), a.1, b.1);
    }
}

/// Segments of one width stand behind their length prefixes in the order
/// in which they stand without: keys are ordered by a derived field as
/// the field's bytes are, where the field has a fixed width.
pub proof fn law_fixed_width_order(a: Seq<u8>, b: Seq<u8>)
    requires
        a.len() == b.len(),
    ensures
        lex_lt(length_prefixed(a), length_prefixed(b)) == lex_lt(a, b),
{
    lemma_lex_lt_behind_prefix(length_prefix(a.len()), a, b);
}

} // verus!
