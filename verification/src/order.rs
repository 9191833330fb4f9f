//! Sorting and chunking of cache entries, done by `itertools`.
//!
//! A vector entry is a pair (identifier, level); an adjacency entry is a
//! triple (source, level, sink). Both are tuples of integers, ordered
//! component by component, first component first: the order in which the
//! big-endian keys built from them sort as byte strings.

use vstd::prelude::*;
use itertools::Itertools;
use std::cmp::Ordering;

verus! {

/// A vector copy or a cache entry: (identifier, level).
pub type Entry = (u128, usize);

/// A directed adjacency entry: (source, level, sink).
pub type Arc3 = (u128, usize, u128);

/// Whether `a` comes before `b` among adjacency entries, or is `b`.
pub open spec fn arc_le(a: Arc3, b: Arc3) -> bool {
    a.0 < b.0 || (a.0 == b.0 && (a.1 < b.1 || (a.1 == b.1 && a.2 <= b.2)))
}

/// Whether `a` comes strictly before `b` among adjacency entries.
pub open spec fn arc_lt(a: Arc3, b: Arc3) -> bool {
    arc_le(a, b) && a != b
}

/// Whether `arcs` is in ascending order, equal entries allowed.
pub open spec fn arcs_sorted(arcs: Seq<Arc3>) -> bool {
    forall|i: int, j: int| 0 <= i < j < arcs.len() ==> arc_le(arcs[i], arcs[j])
}

/// Whether `arcs` is in ascending order without repeats.
pub open spec fn arcs_strictly_sorted(arcs: Seq<Arc3>) -> bool {
    forall|i: int, j: int| 0 <= i < j < arcs.len() ==> arc_lt(arcs[i], arcs[j])
}

/// Whether the identifiers of `entries` never decrease.
pub open spec fn ids_sorted(entries: Seq<Entry>) -> bool {
    forall|i: int, j: int| 0 <= i < j < entries.len() ==> entries[i].0 <= entries[j].0
}

/// The entries of `entries` that belong to vector `id`, in their order.
pub open spec fn copies_of(entries: Seq<Entry>, id: u128) -> Seq<Entry> {
    entries.filter(|e: Entry| e.0 == id)
}

/// `items` cut into runs of `size`, the last one shorter if `items` does
/// not divide evenly; no run at all for no items.
pub open spec fn chunks_of(items: Seq<Entry>, size: nat) -> Seq<Seq<Entry>>
    decreases items.len(),
{
    if items.len() == 0 || size == 0 {
        Seq::empty()
    } else if items.len() <= size {
        seq![items]
    } else {
        seq![items.take(size as int)] + chunks_of(items.skip(size as int), size)
    }
}

/// The runs that `chunks` holds.
pub open spec fn chunk_views(chunks: Seq<Vec<Entry>>) -> Seq<Seq<Entry>> {
    Seq::new(chunks.len(), |i: int| chunks[i]@)
}

/// Orders two entries by identifier alone.
pub fn compare_ids(a: &Entry, b: &Entry) -> (order: Ordering)
    ensures
        a.0 < b.0 ==> order == Ordering::Less,
        a.0 == b.0 ==> order == Ordering::Equal,
        a.0 > b.0 ==> order == Ordering::Greater,
{
    if a.0 < b.0 {
        Ordering::Less
    } else if a.0 == b.0 {
        Ordering::Equal
    } else {
        Ordering::Greater
    }
}

/// Calls `Itertools::sorted_by` with [`compare_ids`]. The crate sorts with
/// the stable `slice::sort_by`, so the result holds the same entries with
/// identifiers ascending, and the copies of one vector in the order in
/// which they came.
#[verifier::external_body]
pub(crate) fn sorted_by_id(entries: Vec<Entry>) -> (sorted: Vec<Entry>)
    ensures
        sorted@.to_multiset() == entries@.to_multiset(),
        ids_sorted(sorted@),
        forall|id: u128| #[trigger] copies_of(sorted@, id) == copies_of(entries@, id),
{
    entries.into_iter().sorted_by(compare_ids).collect()
}

/// Calls `Itertools::sorted`, which sorts with `slice::sort` by the order
/// of the tuples: the result holds the same adjacency entries, ascending.
#[verifier::external_body]
pub(crate) fn sorted_arcs(arcs: Vec<Arc3>) -> (sorted: Vec<Arc3>)
    ensures
        sorted@.to_multiset() == arcs@.to_multiset(),
        arcs_sorted(sorted@),
{
    arcs.into_iter().sorted().collect()
}

/// Calls `Itertools::chunks` and collects each chunk: runs of `size`
/// entries in the order given, the last one shorter if need be. The crate
/// panics on a size of 0.
#[verifier::external_body]
pub(crate) fn in_chunks(entries: Vec<Entry>, size: usize) -> (chunks: Vec<Vec<Entry>>)
    requires
        size > 0,
    ensures
        chunk_views(chunks@) == chunks_of(entries@, size as nat),
{
    entries.into_iter().chunks(size).into_iter().map(|chunk| chunk.collect()).collect()
}

/// Every run of a chunking is non-empty and at most `size` long, all but
/// the last are exactly `size` long, and the runs in a row are the items.
pub proof fn lemma_chunks_of(items: Seq<Entry>, size: nat)
    requires
        size > 0,
    ensures
        chunks_of(items, size).flatten() == items,
        forall|i: int|
            0 <= i < chunks_of(items, size).len() ==> 0 < (#[trigger] chunks_of(
                items,
                size,
            )[i]).len() <= size,
        forall|i: int|
            0 <= i < chunks_of(items, size).len() - 1 ==> (#[trigger] chunks_of(
                items,
                size,
            )[i]).len() == size,
        chunks_of(items, size).len() * size >= items.len(),
        items.len() > 0 ==> (chunks_of(items, size).len() - 1) * size < items.len(),
        items.len() == 0 ==> chunks_of(items, size).len() == 0,
    decreases items.len(),
{
    let chunks = chunks_of(items, size);
    if items.len() == 0 {
        assert(chunks.flatten() =~= items);
    } else if items.len() <= size {
        assert(chunks =~= seq![items]);
        assert(chunks.flatten() =~= items) by {
            assert(chunks.drop_first() =~= Seq::<Seq<Entry>>::empty());
            assert(chunks.drop_first().flatten() =~= Seq::<Entry>::empty());
            assert(chunks.flatten() == chunks.first() + chunks.drop_first().flatten());
        }
        assert((chunks.len() - 1) * size == 0) by (nonlinear_arith)
            requires
                chunks.len() == 1,
        ;
        assert(chunks.len() * size == size) by (nonlinear_arith)
            requires
                chunks.len() == 1,
        ;
    } else {
        let head = items.take(size as int);
        let tail = items.skip(size as int);
        let rest = chunks_of(tail, size);
        lemma_chunks_of(tail, size);
        assert(chunks.drop_first() =~= rest);
        assert(chunks.first() == head);
        assert(chunks.flatten() == head + rest.flatten());
        assert(head + tail =~= items);
        assert forall|i: int| 0 <= i < chunks.len() implies 0 < (#[trigger] chunks[i]).len()
            <= size by {
            if i > 0 {
                assert(chunks[i] == rest[i - 1]);
            }
        }
        assert forall|i: int| 0 <= i < chunks.len() - 1 implies (#[trigger] chunks[i]).len()
            == size by {
            if i > 0 {
                assert(chunks[i] == rest[i - 1]);
            }
        }
        assert(chunks.len() == rest.len() + 1);
        assert(chunks.len() * size == rest.len() * size + size) by (nonlinear_arith)
            requires
                chunks.len() == rest.len() + 1,
        ;
        assert((chunks.len() - 1) * size == (rest.len() - 1) * size + size) by (nonlinear_arith)
            requires
                chunks.len() == rest.len() + 1,
        ;
    }
}

/// Every member of a run of a chunking is one of the items.
pub proof fn lemma_chunk_members(items: Seq<Entry>, size: nat)
    requires
        size > 0,
    ensures
        forall|r: int, i: int|
            0 <= r < chunks_of(items, size).len() && 0 <= i < chunks_of(items, size)[r].len()
                ==> items.contains(#[trigger] chunks_of(items, size)[r][i]),
    decreases items.len(),
{
    let chunks = chunks_of(items, size);
    if items.len() == 0 {
    } else if items.len() <= size {
        assert forall|r: int, i: int| 0 <= r < chunks.len() && 0 <= i < chunks[r].len() implies items.contains(
         #[trigger] chunks[r][i]) by {
            assert(items[i] == chunks[r][i]);
        }
    } else {
        let tail = items.skip(size as int);
        let rest = chunks_of(tail, size);
        lemma_chunk_members(tail, size);
        assert forall|r: int, i: int| 0 <= r < chunks.len() && 0 <= i < chunks[r].len() implies items.contains(
         #[trigger] chunks[r][i]) by {
            if r == 0 {
                assert(items[i] == chunks[r][i]);
            } else {
                assert(chunks[r] == rest[r - 1]);
                assert(tail.contains(rest[r - 1][i]));
                let at = choose|at: int| 0 <= at < tail.len() && tail[at] == rest[r - 1][i];
                assert(items[at + size] == chunks[r][i]);
            }
        }
    }
}

/// Two sequences that hold the same items the same number of times have
/// the same members and the same length, and repeat an item together or
/// not at all.
pub proof fn lemma_same_members<T>(a: Seq<T>, b: Seq<T>)
    requires
        a.to_multiset() == b.to_multiset(),
    ensures
        forall|x: T| a.contains(x) <==> b.contains(x),
        a.to_set() == b.to_set(),
        a.no_duplicates() ==> b.no_duplicates(),
        a.len() == b.len(),
{
    a.to_multiset_ensures();
    b.to_multiset_ensures();
    assert forall|x: T| a.contains(x) <==> b.contains(x) by {
        assert(a.contains(x) <==> a.to_multiset().count(x) > 0);
        assert(b.contains(x) <==> b.to_multiset().count(x) > 0);
    }
    if a.no_duplicates() {
        a.lemma_multiset_has_no_duplicates();
        b.lemma_multiset_has_no_duplicates_conv();
    }
    assert(a.to_set() =~= b.to_set());
}

/// Drops the repeats from an ascending list of adjacency entries.
pub fn dedup_sorted(arcs: Vec<Arc3>) -> (unique: Vec<Arc3>)
    requires
        arcs_sorted(arcs@),
    ensures
        arcs_strictly_sorted(unique@),
        unique@.to_set() == arcs@.to_set(),
{
    let mut unique: Vec<Arc3> = Vec::new();
    let mut i: usize = 0;
    while i < arcs.len()
        invariant
            i <= arcs@.len(),
            arcs_sorted(arcs@),
            arcs_strictly_sorted(unique@),
            unique@.to_set() == arcs@.subrange(0, i as int).to_set(),
            i > 0 ==> unique@.len() > 0 && unique@.last() == arcs@[i - 1],
            i == 0 ==> unique@.len() == 0,
        decreases arcs@.len() - i,
    {
        let arc: Arc3 = arcs[i];
        let ghost seen = arcs@.subrange(0, i as int);
        proof {
            assert(arcs@.subrange(0, i + 1) =~= seen.push(arc));
            lemma_to_set_push(seen, arc);
        }
        let repeat: bool = if unique.len() == 0 {
            false
        } else {
            let last: Arc3 = unique[unique.len() - 1];
            last.0 == arc.0 && last.1 == arc.1 && last.2 == arc.2
        };
        if !repeat {
            proof {
                let before = unique@;
                let after = unique@.push(arc);
                lemma_to_set_push(before, arc);
                assert forall|a: int, b: int| 0 <= a < b < after.len() implies arc_lt(
                    after[a],
                    after[b],
                ) by {
                    if b == before.len() {
                        // Everything kept so far is an earlier entry of `arcs`.
                        assert(before.to_set().contains(before[a]));
                        assert(seen.to_set().contains(before[a]));
                        let at = choose|at: int| 0 <= at < seen.len() && seen[at] == before[a];
                        assert(arc_le(arcs@[at], arcs@[i as int]));
                        assert(arc_le(arcs@[i - 1], arcs@[i as int]));
                        if a < before.len() - 1 {
                            assert(arc_lt(before[a], before[before.len() - 1]));
                        }
                    } else {
                        assert(arc_lt(before[a], before[b]));
                    }
                }
            }
            unique.push(arc);
        } else {
            proof {
                assert(unique@.to_set().contains(arc)) by {
                    assert(unique@[unique@.len() - 1] == arc);
                }
                assert(unique@.to_set().insert(arc) =~= unique@.to_set());
            }
        }
        i = i + 1;
    }
    proof {
        assert(arcs@.subrange(0, arcs@.len() as int) =~= arcs@);
    }
    unique
}

/// The set of a sequence with one more element is the set of the sequence
/// with that element added.
pub proof fn lemma_to_set_push<T>(s: Seq<T>, x: T)
    ensures
        s.push(x).to_set() == s.to_set().insert(x),
{
    let after = s.push(x);
    assert forall|y: T| after.to_set().contains(y) implies s.to_set().insert(x).contains(y) by {
        let j = choose|j: int| 0 <= j < after.len() && after[j] == y;
        if j < s.len() {
            assert(s[j] == y);
        }
    }
    assert forall|y: T| s.to_set().insert(x).contains(y) implies after.to_set().contains(y) by {
        if y == x {
            assert(after[s.len() as int] == y);
        } else {
            let j = choose|j: int| 0 <= j < s.len() && s[j] == y;
            assert(after[j] == y);
        }
    }
    assert(after.to_set() =~= s.to_set().insert(x));
}

} // verus!
