//! Byte layouts of the persisted keys.
//!
//! Every integer in a key is written big-endian, so that the byte order of
//! two keys of one table is the numeric order of their components. The
//! layouts are shared with every other reader of the persisted data and
//! must not change:
//!
//! | key                    | layout                                      |
//! |------------------------|---------------------------------------------|
//! | vector                 | prefix, id (16), level (8)                  |
//! | vector adjacency       | source id (16), level (8), sink id (16)     |
//! | node, edge             | id (16)                                     |
//! | graph adjacency key    | node id (16), label hash (4)                |
//! | graph adjacency value  | edge id (16), other node id (16)            |
//! | secondary index        | label hash (4), encoded value               |

use vstd::prelude::*;

verus! {

/// The `width` low-order base-256 digits of `value`, most significant first.
pub open spec fn be_bytes(value: nat, width: nat) -> Seq<u8>
    decreases width,
{
    if width == 0 {
        Seq::empty()
    } else {
        be_bytes(value / 256, (width - 1) as nat).push((value % 256) as u8)
    }
}

/// The number that `bytes` spells in base 256, most significant digit first.
pub open spec fn be_value(bytes: Seq<u8>) -> nat
    decreases bytes.len(),
{
    if bytes.len() == 0 {
        0
    } else {
        be_value(bytes.drop_last()) * 256 + bytes.last() as nat
    }
}

/// 256 to the power `n`.
pub open spec fn pow256(n: nat) -> nat
    decreases n,
{
    if n == 0 {
        1
    } else {
        256 * pow256((n - 1) as nat)
    }
}

pub proof fn lemma_be_bytes_len(value: nat, width: nat)
    ensures
        be_bytes(value, width).len() == width,
    decreases width,
{
    if width > 0 {
        lemma_be_bytes_len(value / 256, (width - 1) as nat);
    }
}

pub proof fn lemma_pow256_monotonic(a: nat, b: nat)
    requires
        a <= b,
    ensures
        0 < pow256(a) <= pow256(b),
    decreases b,
{
    if b == 0 {
    } else if a == b {
        lemma_pow256_monotonic((a - 1) as nat, (b - 1) as nat);
    } else {
        lemma_pow256_monotonic(a, (b - 1) as nat);
    }
}

pub proof fn lemma_pow256_values()
    ensures
        pow256(8) == 0x1_0000_0000_0000_0000,
        pow256(16) == 0x1_0000_0000_0000_0000_0000_0000_0000_0000,
{
    reveal_with_fuel(pow256, 17);
}

/// A sequence of `n` bytes spells a number below `256^n`.
pub proof fn lemma_be_value_bound(bytes: Seq<u8>)
    ensures
        be_value(bytes) < pow256(bytes.len()),
    decreases bytes.len(),
{
    if bytes.len() > 0 {
        lemma_be_value_bound(bytes.drop_last());
        let hi = be_value(bytes.drop_last());
        let p = pow256((bytes.len() - 1) as nat);
        assert(hi * 256 + 255 < 256 * p);
    }
}

/// Decoding undoes encoding for every number that fits the width.
pub proof fn lemma_be_value_of_bytes(value: nat, width: nat)
    requires
        value < pow256(width),
    ensures
        be_value(be_bytes(value, width)) == value,
    decreases width,
{
    if width > 0 {
        let rest = be_bytes(value / 256, (width - 1) as nat);
        assert(value / 256 < pow256((width - 1) as nat));
        lemma_be_value_of_bytes(value / 256, (width - 1) as nat);
        assert(be_bytes(value, width).drop_last() =~= rest);
        assert(value == (value / 256) * 256 + value % 256);
    }
}

/// Encoding undoes decoding.
pub proof fn lemma_be_bytes_of_value(bytes: Seq<u8>)
    ensures
        be_bytes(be_value(bytes), bytes.len()) == bytes,
    decreases bytes.len(),
{
    if bytes.len() > 0 {
        let hi = be_value(bytes.drop_last());
        let lo = bytes.last() as nat;
        lemma_be_bytes_of_value(bytes.drop_last());
        assert((hi * 256 + lo) / 256 == hi && (hi * 256 + lo) % 256 == lo);
        assert(be_bytes(be_value(bytes), bytes.len()) =~= bytes);
    }
}

/// Appends the `width` low-order bytes of `value` to `out`, most
/// significant first.
pub fn push_be(out: &mut Vec<u8>, value: u128, width: usize)
    requires
        width <= 16,
    ensures
        final(out)@ == old(out)@ + be_bytes(value as nat, width as nat),
{
    let mut digits: Vec<u8> = Vec::new();
    let mut rest: u128 = value;
    let mut i: usize = 0;
    // `digits` holds the low-order bytes found so far, least significant first.
    while i < width
        invariant
            i <= width,
            digits@.len() == i,
            be_bytes(value as nat, width as nat) == be_bytes(rest as nat, (width - i) as nat)
                + digits@.reverse(),
        decreases width - i,
    {
        let digit: u8 = (rest % 256) as u8;
        proof {
            let before = digits@;
            let after = digits@.push(digit);
            assert(after.reverse() =~= seq![digit] + before.reverse());
            assert(be_bytes(rest as nat, (width - i) as nat) + before.reverse() =~= be_bytes(
                (rest / 256) as nat,
                (width - i - 1) as nat,
            ) + after.reverse());
        }
        digits.push(digit);
        rest = rest / 256;
        i = i + 1;
    }
    let mut j: usize = width;
    while j > 0
        invariant
            j <= width,
            digits@.len() == width,
            out@ == old(out)@ + digits@.reverse().subrange(0, width - j),
        decreases j,
    {
        j = j - 1;
        proof {
            let rev = digits@.reverse();
            assert(rev.subrange(0, width - j) =~= rev.subrange(0, width - j - 1).push(
                digits@[j as int],
            ));
        }
        out.push(digits[j]);
    }
    proof {
        assert(digits@.reverse().subrange(0, width as int) =~= digits@.reverse());
        assert(be_bytes(rest as nat, 0) =~= Seq::<u8>::empty());
    }
}

/// Reads the big-endian number held in `width` bytes of `bytes` from
/// `start` on.
pub fn read_be(bytes: &[u8], start: usize, width: usize) -> (value: u128)
    requires
        width <= 16,
        start + width <= bytes@.len(),
    ensures
        value as nat == be_value(bytes@.subrange(start as int, start + width)),
{
    let total: usize = bytes.len();
    let mut value: u128 = 0;
    let mut i: usize = 0;
    while i < width
        invariant
            i <= width <= 16,
            start + width <= total == bytes@.len(),
            value as nat == be_value(bytes@.subrange(start as int, start + i)),
        decreases width - i,
    {
        let digit: u8 = bytes[start + i];
        proof {
            let prefix = bytes@.subrange(start as int, start + i);
            let next = bytes@.subrange(start as int, start + i + 1);
            assert(next.drop_last() =~= prefix);
            assert(next.last() == digit);
            lemma_be_value_bound(next);
            lemma_pow256_monotonic((i + 1) as nat, 16);
            lemma_pow256_values();
        }
        value = value * 256 + digit as u128;
        i = i + 1;
    }
    value
}

/// Whether `key` begins with `prefix`.
pub open spec fn has_prefix(key: Seq<u8>, prefix: Seq<u8>) -> bool {
    prefix.len() <= key.len() && key.subrange(0, prefix.len() as int) == prefix
}

/// Tells whether `key` begins with `prefix`.
pub fn starts_with(key: &[u8], prefix: &[u8]) -> (found: bool)
    ensures
        found == has_prefix(key@, prefix@),
{
    if prefix.len() > key.len() {
        return false;
    }
    let mut i: usize = 0;
    while i < prefix.len()
        invariant
            i <= prefix@.len() <= key@.len(),
            key@.subrange(0, i as int) == prefix@.subrange(0, i as int),
        decreases prefix@.len() - i,
    {
        if key[i] != prefix[i] {
            proof {
                assert(key@.subrange(0, prefix@.len() as int)[i as int] != prefix@[i as int]);
            }
            return false;
        }
        proof {
            assert(key@.subrange(0, i + 1) =~= key@.subrange(0, i as int).push(key@[i as int]));
            assert(prefix@.subrange(0, i + 1) =~= prefix@.subrange(0, i as int).push(
                prefix@[i as int],
            ));
        }
        i = i + 1;
    }
    proof {
        assert(prefix@.subrange(0, prefix@.len() as int) =~= prefix@);
    }
    true
}

/// The key of the copy of vector `id` at `level`.
pub open spec fn vector_key_spec(prefix: Seq<u8>, id: u128, level: usize) -> Seq<u8> {
    prefix + be_bytes(id as nat, 16) + be_bytes(level as nat, 8)
}

/// The key of the adjacency entry from `source` to `sink` at `level`;
/// without a sink, the prefix that all entries of `source` at `level` share.
pub open spec fn out_edges_key_spec(source: u128, level: usize, sink: Option<u128>) -> Seq<u8> {
    let head = be_bytes(source as nat, 16) + be_bytes(level as nat, 8);
    match sink {
        Some(sink) => head + be_bytes(sink as nat, 16),
        None => head,
    }
}

/// The identifier and level that a vector key under `prefix` names, if
/// `key` is long enough to hold them.
pub open spec fn parse_vector_key_spec(prefix: Seq<u8>, key: Seq<u8>) -> Option<(u128, usize)> {
    let at = prefix.len() as int;
    if has_prefix(key, prefix) && key.len() >= prefix.len() + 24 && be_value(
        key.subrange(at + 16, at + 24),
    ) <= usize::MAX {
        Some(
            (
                be_value(key.subrange(at, at + 16)) as u128,
                be_value(key.subrange(at + 16, at + 24)) as usize,
            ),
        )
    } else {
        None
    }
}

/// The source, level and sink that a full adjacency key names.
pub open spec fn parse_edge_key_spec(key: Seq<u8>) -> Option<(u128, usize, u128)> {
    if key.len() == 40 && be_value(key.subrange(16, 24)) <= usize::MAX {
        Some(
            (
                be_value(key.subrange(0, 16)) as u128,
                be_value(key.subrange(16, 24)) as usize,
                be_value(key.subrange(24, 40)) as u128,
            ),
        )
    } else {
        None
    }
}

/// Builds the key under which the copy of vector `id` at `level` is stored.
pub fn vector_key(prefix: &[u8], id: u128, level: usize) -> (key: Vec<u8>)
    ensures
        key@ == vector_key_spec(prefix@, id, level),
{
    let mut key: Vec<u8> = Vec::new();
    push_bytes(&mut key, prefix);
    push_be(&mut key, id, 16);
    push_be(&mut key, level as u128, 8);
    key
}

/// Builds the key of the adjacency entry from `source` to `sink` at
/// `level`, or the prefix of all entries of `source` at `level`.
pub fn out_edges_key(source: u128, level: usize, sink: Option<u128>) -> (key: Vec<u8>)
    ensures
        key@ == out_edges_key_spec(source, level, sink),
{
    let mut key: Vec<u8> = Vec::new();
    push_be(&mut key, source, 16);
    push_be(&mut key, level as u128, 8);
    if let Some(sink) = sink {
        push_be(&mut key, sink, 16);
    }
    key
}

/// Reads the identifier and the level out of a vector key. The key must
/// begin with `prefix` and hold at least 24 bytes after it; what follows
/// those is ignored.
pub fn parse_vector_key(prefix: &[u8], key: &[u8]) -> (parsed: Option<(u128, usize)>)
    ensures
        parsed == parse_vector_key_spec(prefix@, key@),
{
    if !starts_with(key, prefix) {
        return None;
    }
    let at: usize = prefix.len();
    if key.len() - at < 24 {
        return None;
    }
    let id: u128 = read_be(key, at, 16);
    let level: u128 = read_be(key, at + 16, 8);
    if level > usize::MAX as u128 {
        return None;
    }
    Some((id, level as usize))
}

/// Reads source, level and sink out of an adjacency key, which must be
/// exactly 40 bytes long.
pub fn parse_edge_key(key: &[u8]) -> (parsed: Option<(u128, usize, u128)>)
    ensures
        parsed == parse_edge_key_spec(key@),
{
    if key.len() != 40 {
        return None;
    }
    let source: u128 = read_be(key, 0, 16);
    let level: u128 = read_be(key, 16, 8);
    let sink: u128 = read_be(key, 24, 16);
    if level > usize::MAX as u128 {
        return None;
    }
    Some((source, level as usize, sink))
}

/// Parsing a vector key gives back the identifier and level it was built
/// from, whatever the prefix.
pub proof fn lemma_vector_key_round_trip(prefix: Seq<u8>, id: u128, level: usize)
    ensures
        vector_key_spec(prefix, id, level).len() == prefix.len() + 24,
        parse_vector_key_spec(prefix, vector_key_spec(prefix, id, level)) == Some((id, level)),
{
    let key = vector_key_spec(prefix, id, level);
    let at = prefix.len() as int;
    lemma_be_bytes_len(id as nat, 16);
    lemma_be_bytes_len(level as nat, 8);
    lemma_pow256_values();
    lemma_be_value_of_bytes(id as nat, 16);
    lemma_be_value_of_bytes(level as nat, 8);
    assert(key.subrange(0, at) =~= prefix);
    assert(key.subrange(at, at + 16) =~= be_bytes(id as nat, 16));
    assert(key.subrange(at + 16, at + 24) =~= be_bytes(level as nat, 8));
}

/// Parsing a full adjacency key gives back what it was built from.
pub proof fn lemma_edge_key_round_trip(source: u128, level: usize, sink: u128)
    ensures
        out_edges_key_spec(source, level, Some(sink)).len() == 40,
        out_edges_key_spec(source, level, None).len() == 24,
        has_prefix(
            out_edges_key_spec(source, level, Some(sink)),
            out_edges_key_spec(source, level, None),
        ),
        parse_edge_key_spec(out_edges_key_spec(source, level, Some(sink))) == Some(
            (source, level, sink),
        ),
{
    let key = out_edges_key_spec(source, level, Some(sink));
    lemma_be_bytes_len(source as nat, 16);
    lemma_be_bytes_len(level as nat, 8);
    lemma_be_bytes_len(sink as nat, 16);
    lemma_pow256_values();
    lemma_be_value_of_bytes(source as nat, 16);
    lemma_be_value_of_bytes(level as nat, 8);
    lemma_be_value_of_bytes(sink as nat, 16);
    assert(key.subrange(0, 16) =~= be_bytes(source as nat, 16));
    assert(key.subrange(16, 24) =~= be_bytes(level as nat, 8));
    assert(key.subrange(24, 40) =~= be_bytes(sink as nat, 16));
    assert(key.subrange(0, 24) =~= out_edges_key_spec(source, level, None));
}

/// A parsed adjacency key is the key of what was parsed: no two keys
/// parse to the same triple.
pub proof fn lemma_edge_key_of_parsed(key: Seq<u8>)
    requires
        parse_edge_key_spec(key) is Some,
    ensures
        ({
            let (source, level, sink) = parse_edge_key_spec(key)->0;
            out_edges_key_spec(source, level, Some(sink)) == key
        }),
{
    lemma_pow256_values();
    lemma_be_value_bound(key.subrange(0, 16));
    lemma_be_value_bound(key.subrange(16, 24));
    lemma_be_value_bound(key.subrange(24, 40));
    lemma_be_bytes_of_value(key.subrange(0, 16));
    lemma_be_bytes_of_value(key.subrange(16, 24));
    lemma_be_bytes_of_value(key.subrange(24, 40));
    let (source, level, sink) = parse_edge_key_spec(key)->0;
    assert(out_edges_key_spec(source, level, Some(sink)) =~= key);
}

/// The key of node or edge `id` in its table.
pub open spec fn id_key_spec(id: u128) -> Seq<u8> {
    be_bytes(id as nat, 16)
}

/// The key under which the edges of `node` with the label of hash
/// `label_hash` are listed, in either direction.
pub open spec fn adjacency_key_spec(node: u128, label_hash: Seq<u8>) -> Seq<u8> {
    be_bytes(node as nat, 16) + label_hash
}

/// The entry that lists edge `edge` under the key of one of its ends; `other`
/// is the node at the other end.
pub open spec fn adjacency_value_spec(edge: u128, other: u128) -> Seq<u8> {
    be_bytes(edge as nat, 16) + be_bytes(other as nat, 16)
}

/// The key of a secondary index entry for a value, given as the codec
/// wrote it, of a node with the label of hash `label_hash`.
pub open spec fn index_key_spec(label_hash: Seq<u8>, encoded: Seq<u8>) -> Seq<u8> {
    label_hash + encoded
}

/// Appends `bytes` to `out`.
pub fn push_bytes(out: &mut Vec<u8>, bytes: &[u8])
    ensures
        final(out)@ == old(out)@ + bytes@,
{
    let mut i: usize = 0;
    while i < bytes.len()
        invariant
            i <= bytes@.len(),
            out@ == old(out)@ + bytes@.subrange(0, i as int),
        decreases bytes@.len() - i,
    {
        proof {
            assert(bytes@.subrange(0, i + 1) =~= bytes@.subrange(0, i as int).push(bytes@[i as int]));
        }
        out.push(bytes[i]);
        i = i + 1;
    }
    proof {
        assert(bytes@.subrange(0, bytes@.len() as int) =~= bytes@);
    }
}

/// Builds the key of node or edge `id`.
pub fn id_key(id: u128) -> (key: Vec<u8>)
    ensures
        key@ == id_key_spec(id),
{
    let mut key: Vec<u8> = Vec::new();
    push_be(&mut key, id, 16);
    key
}

/// Builds the key under which the edges of `node` with one label are
/// listed.
pub fn adjacency_key(node: u128, label_hash: &[u8; 4]) -> (key: Vec<u8>)
    ensures
        key@ == adjacency_key_spec(node, label_hash@),
        key@.len() == 20,
{
    let mut key: Vec<u8> = Vec::new();
    push_be(&mut key, node, 16);
    push_bytes(&mut key, label_hash.as_slice());
    proof {
        lemma_be_bytes_len(node as nat, 16);
    }
    key
}

/// Builds the entry that lists `edge` under the key of one of its ends.
pub fn adjacency_value(edge: u128, other: u128) -> (value: Vec<u8>)
    ensures
        value@ == adjacency_value_spec(edge, other),
        value@.len() == 32,
{
    let mut value: Vec<u8> = Vec::new();
    push_be(&mut value, edge, 16);
    push_be(&mut value, other, 16);
    proof {
        lemma_be_bytes_len(edge as nat, 16);
        lemma_be_bytes_len(other as nat, 16);
    }
    value
}

/// Builds the key of a secondary index entry.
pub fn index_key(label_hash: &[u8; 4], encoded: &[u8]) -> (key: Vec<u8>)
    ensures
        key@ == index_key_spec(label_hash@, encoded@),
{
    let mut key: Vec<u8> = Vec::new();
    push_bytes(&mut key, label_hash.as_slice());
    push_bytes(&mut key, encoded);
    key
}

/// The edge and the node at its other end that an adjacency entry lists.
pub open spec fn parse_adjacency_value_spec(value: Seq<u8>) -> Option<(u128, u128)> {
    if value.len() == 32 {
        Some((be_value(value.subrange(0, 16)) as u128, be_value(value.subrange(16, 32)) as u128))
    } else {
        None
    }
}

/// Reads the edge and the node at its other end out of an adjacency
/// entry, which must be exactly 32 bytes long.
pub fn parse_adjacency_value(value: &[u8]) -> (parsed: Option<(u128, u128)>)
    ensures
        parsed == parse_adjacency_value_spec(value@),
{
    if value.len() != 32 {
        return None;
    }
    Some((read_be(value, 0, 16), read_be(value, 16, 16)))
}

/// Parsing an adjacency entry gives back the edge and the node that it
/// was built from.
pub proof fn lemma_adjacency_value_round_trip(edge: u128, other: u128)
    ensures
        parse_adjacency_value_spec(adjacency_value_spec(edge, other)) == Some((edge, other)),
{
    let value = adjacency_value_spec(edge, other);
    lemma_be_bytes_len(edge as nat, 16);
    lemma_be_bytes_len(other as nat, 16);
    lemma_pow256_values();
    lemma_be_value_of_bytes(edge as nat, 16);
    lemma_be_value_of_bytes(other as nat, 16);
    assert(value.subrange(0, 16) =~= be_bytes(edge as nat, 16));
    assert(value.subrange(16, 32) =~= be_bytes(other as nat, 16));
}

/// Whether `a` comes before `b` in the order of byte strings, for two
/// strings of one length: at the first place where they differ, `a` has
/// the lower byte. This is the order in which the store keeps its keys.
pub open spec fn bytes_lt(a: Seq<u8>, b: Seq<u8>) -> bool {
    a.len() == b.len() && exists|k: int|
        0 <= k < a.len() && a.subrange(0, k) == b.subrange(0, k) && #[trigger] a[k] < b[k]
}

/// The big-endian encodings of two numbers are ordered as the numbers.
pub proof fn lemma_be_bytes_ordered(a: nat, b: nat, width: nat)
    requires
        a < b < pow256(width),
    ensures
        bytes_lt(be_bytes(a, width), be_bytes(b, width)),
    decreases width,
{
    let x = be_bytes(a, width);
    let y = be_bytes(b, width);
    lemma_be_bytes_len(a, width);
    lemma_be_bytes_len(b, width);
    if width > 0 {
        let hx = be_bytes(a / 256, (width - 1) as nat);
        let hy = be_bytes(b / 256, (width - 1) as nat);
        lemma_be_bytes_len(a / 256, (width - 1) as nat);
        lemma_be_bytes_len(b / 256, (width - 1) as nat);
        assert(a / 256 <= b / 256 && (a / 256 == b / 256 ==> a % 256 < b % 256));
        if a / 256 < b / 256 {
            assert(b / 256 < pow256((width - 1) as nat));
            lemma_be_bytes_ordered(a / 256, b / 256, (width - 1) as nat);
            let k = choose|k: int|
                0 <= k < hx.len() && hx.subrange(0, k) == hy.subrange(0, k) && #[trigger] hx[k]
                    < hy[k];
            assert(x.subrange(0, k) =~= hx.subrange(0, k));
            assert(y.subrange(0, k) =~= hy.subrange(0, k));
            assert(x[k] < y[k]);
        } else {
            let k = (width - 1) as int;
            assert(x.subrange(0, k) =~= hx);
            assert(y.subrange(0, k) =~= hy);
            assert(x[k] < y[k]);
        }
    }
}

/// Byte strings that start alike are ordered as what follows, and byte
/// strings that start with ordered fields of one length are ordered as
/// those fields.
pub proof fn lemma_bytes_lt_concat(head: Seq<u8>, a: Seq<u8>, b: Seq<u8>, c: Seq<u8>, d: Seq<u8>)
    requires
        c.len() == d.len(),
    ensures
        bytes_lt(a, b) ==> bytes_lt(head + a + c, head + b + d),
        bytes_lt(c, d) ==> bytes_lt(head + a + c, head + a + d),
{
    if bytes_lt(a, b) {
        let k = choose|k: int|
            0 <= k < a.len() && a.subrange(0, k) == b.subrange(0, k) && #[trigger] a[k] < b[k];
        let x = head + a + c;
        let y = head + b + d;
        let at = head.len() + k;
        assert(x.subrange(0, at) =~= head + a.subrange(0, k));
        assert(y.subrange(0, at) =~= head + b.subrange(0, k));
        assert(x[at] < y[at]);
    }
    if bytes_lt(c, d) {
        let k = choose|k: int|
            0 <= k < c.len() && c.subrange(0, k) == d.subrange(0, k) && #[trigger] c[k] < d[k];
        let x = head + a + c;
        let y = head + a + d;
        let at = head.len() + a.len() + k;
        assert(x.subrange(0, at) =~= head + a + c.subrange(0, k));
        assert(y.subrange(0, at) =~= head + a + d.subrange(0, k));
        assert(x[at] < y[at]);
    }
}

/// Adjacency keys are ordered, as byte strings, as their triples of
/// source, level and sink are: writing the triples in ascending order
/// writes the keys in the order of the table.
pub proof fn lemma_edge_keys_ordered(a: (u128, usize, u128), b: (u128, usize, u128))
    requires
        a.0 < b.0 || (a.0 == b.0 && (a.1 < b.1 || (a.1 == b.1 && a.2 < b.2))),
    ensures
        bytes_lt(
            out_edges_key_spec(a.0, a.1, Some(a.2)),
            out_edges_key_spec(b.0, b.1, Some(b.2)),
        ),
{
    let none = Seq::<u8>::empty();
    let (sa, la, ka) = (be_bytes(a.0 as nat, 16), be_bytes(a.1 as nat, 8), be_bytes(a.2 as nat, 16));
    let (sb, lb, kb) = (be_bytes(b.0 as nat, 16), be_bytes(b.1 as nat, 8), be_bytes(b.2 as nat, 16));
    lemma_pow256_values();
    lemma_be_bytes_len(a.0 as nat, 16);
    lemma_be_bytes_len(a.1 as nat, 8);
    lemma_be_bytes_len(a.2 as nat, 16);
    lemma_be_bytes_len(b.0 as nat, 16);
    lemma_be_bytes_len(b.1 as nat, 8);
    lemma_be_bytes_len(b.2 as nat, 16);
    let x = out_edges_key_spec(a.0, a.1, Some(a.2));
    let y = out_edges_key_spec(b.0, b.1, Some(b.2));
    if a.0 < b.0 {
        lemma_be_bytes_ordered(a.0 as nat, b.0 as nat, 16);
        lemma_bytes_lt_concat(none, sa, sb, la + ka, lb + kb);
        assert(x =~= none + sa + (la + ka));
        assert(y =~= none + sb + (lb + kb));
    } else if a.1 < b.1 {
        lemma_be_bytes_ordered(a.1 as nat, b.1 as nat, 8);
        lemma_bytes_lt_concat(sa, la, lb, ka, kb);
    } else {
        lemma_be_bytes_ordered(a.2 as nat, b.2 as nat, 16);
        lemma_bytes_lt_concat(none, sa + la, sa + la, ka, kb);
        assert(x =~= none + (sa + la) + ka);
        assert(y =~= none + (sa + la) + kb);
    }
}

/// Vector keys under one prefix are ordered, as byte strings, as their
/// pairs of identifier and level are.
pub proof fn lemma_vector_keys_ordered(prefix: Seq<u8>, a: (u128, usize), b: (u128, usize))
    requires
        a.0 < b.0 || (a.0 == b.0 && a.1 < b.1),
    ensures
        bytes_lt(vector_key_spec(prefix, a.0, a.1), vector_key_spec(prefix, b.0, b.1)),
{
    let none = Seq::<u8>::empty();
    let (ia, la) = (be_bytes(a.0 as nat, 16), be_bytes(a.1 as nat, 8));
    let (ib, lb) = (be_bytes(b.0 as nat, 16), be_bytes(b.1 as nat, 8));
    lemma_pow256_values();
    lemma_be_bytes_len(a.0 as nat, 16);
    lemma_be_bytes_len(a.1 as nat, 8);
    lemma_be_bytes_len(b.0 as nat, 16);
    lemma_be_bytes_len(b.1 as nat, 8);
    if a.0 < b.0 {
        lemma_be_bytes_ordered(a.0 as nat, b.0 as nat, 16);
        lemma_bytes_lt_concat(prefix, ia, ib, la, lb);
    } else {
        lemma_be_bytes_ordered(a.1 as nat, b.1 as nat, 8);
        lemma_bytes_lt_concat(prefix + ia, none, none, la, lb);
        assert(vector_key_spec(prefix, a.0, a.1) =~= prefix + ia + none + la);
        assert(vector_key_spec(prefix, b.0, b.1) =~= prefix + ia + none + lb);
    }
}

} // verus!
