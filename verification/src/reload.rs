//! Loading what a commit wrote gives the cache back.
//!
//! A commit writes every cached vector copy under its key and, for every
//! cache entry, the adjacency keys of its neighbours in both directions.
//! A preload reads the two tables back. The laws here say when the cache
//! that a preload builds from these writes is the cache that was
//! committed: the vector copies have to be filed under their own
//! identifier and level, the neighbour sets have to be symmetric, and
//! every neighbour has to have a copy at its level. A neighbour set
//! that is empty leaves no trace in the store.

use vstd::prelude::*;
use vstd::seq_lib::seq_to_set_distributes_over_add;
use crate::adjacency::{has_edge, symmetric, Graph};
use crate::commit::{
    edge_runs, edges_planned, vector_runs, vectors_planned, write_arcs, write_entries, EdgeChunk,
    EdgeWrite, VectorWrite,
};
use crate::keys::{
    lemma_edge_key_round_trip, lemma_vector_key_round_trip, out_edges_key_spec, vector_key_spec,
};
use crate::order::{lemma_to_set_push, Arc3, Entry};
use crate::table::directed_arcs;
use crate::vec_txn::{preloaded_neighbors, preloaded_vectors, well_keyed, StoredVector};
use crate::vector::HVectorView;

verus! {

/// Whether `stored` is what a commit of `vectors` under `prefix` writes
/// for the entries `entries`, one vector for each entry in turn: the key
/// of the entry and the cached copy.
pub open spec fn written_vectors(
    stored: Seq<StoredVector>,
    prefix: Seq<u8>,
    vectors: Map<Entry, HVectorView>,
    entries: Seq<Entry>,
) -> bool {
    &&& stored.len() == entries.len()
    &&& forall|i: int|
        0 <= i < entries.len() ==> {
            &&& vectors.contains_key(#[trigger] entries[i])
            &&& stored[i].key@ == vector_key_spec(prefix, entries[i].0, entries[i].1)
            &&& stored[i].vector@ == vectors[entries[i]]
        }
}

/// Whether `keys` are the keys of the adjacency entries `arcs`, one for
/// each in turn.
pub open spec fn written_arcs(keys: Seq<Vec<u8>>, arcs: Seq<Arc3>) -> bool {
    &&& keys.len() == arcs.len()
    &&& forall|i: int|
        0 <= i < arcs.len() ==> (#[trigger] keys[i])@ == out_edges_key_spec(
            arcs[i].0,
            arcs[i].1,
            Some(arcs[i].2),
        )
}

/// Loading the first `n` of the written vectors files exactly the copies
/// of the first `n` entries.
proof fn lemma_vectors_loaded_so_far(
    stored: Seq<StoredVector>,
    prefix: Seq<u8>,
    vectors: Map<Entry, HVectorView>,
    entries: Seq<Entry>,
    n: int,
)
    requires
        well_keyed(vectors),
        written_vectors(stored, prefix, vectors, entries),
        0 <= n <= entries.len(),
    ensures
        preloaded_vectors(prefix, stored.take(n)) == vectors.restrict(entries.take(n).to_set()),
    decreases n,
{
    let loaded = preloaded_vectors(prefix, stored.take(n));
    let want = vectors.restrict(entries.take(n).to_set());
    if n == 0 {
        assert(entries.take(0).to_set() =~= Set::<Entry>::empty());
        assert(loaded =~= want);
    } else {
        lemma_vectors_loaded_so_far(stored, prefix, vectors, entries, n - 1);
        let e = entries[n - 1];
        assert(stored.take(n).drop_last() =~= stored.take(n - 1));
        assert(stored.take(n).last() == stored[n - 1]);
        assert(entries.take(n) =~= entries.take(n - 1).push(e));
        lemma_to_set_push(entries.take(n - 1), e);
        lemma_vector_key_round_trip(prefix, e.0, e.1);
        assert(vectors.contains_key(e));
        assert((HVectorView { id: e.0, level: e.1, ..vectors[e] }) == vectors[e]);
        assert(loaded =~= want);
    }
}

/// Loading the vectors that a commit wrote gives the vector copies of
/// the committed cache back, if each of them was filed under its own
/// identifier and level and each entry was written.
pub proof fn lemma_preload_of_written_vectors(
    stored: Seq<StoredVector>,
    prefix: Seq<u8>,
    vectors: Map<Entry, HVectorView>,
    entries: Seq<Entry>,
)
    requires
        well_keyed(vectors),
        written_vectors(stored, prefix, vectors, entries),
        entries.to_set() == vectors.dom(),
    ensures
        preloaded_vectors(prefix, stored) == vectors,
{
    lemma_vectors_loaded_so_far(stored, prefix, vectors, entries, entries.len() as int);
    assert(stored.take(stored.len() as int) =~= stored);
    assert(entries.take(entries.len() as int) =~= entries);
    assert(vectors.restrict(vectors.dom()) =~= vectors);
}

/// Loading the first `n` of the written adjacency keys gives exactly the
/// edges of the first `n` adjacency entries whose sink has a copy.
proof fn lemma_arcs_loaded_so_far(
    keys: Seq<Vec<u8>>,
    arcs: Seq<Arc3>,
    vectors: Map<Entry, HVectorView>,
    n: int,
)
    requires
        written_arcs(keys, arcs),
        0 <= n <= arcs.len(),
    ensures
        forall|a: u128, l: usize, b: u128| #[trigger]
            has_edge(preloaded_neighbors(vectors, keys.take(n)), a, l, b) <==> arcs.take(
                n,
            ).contains((a, l, b)) && vectors.contains_key((b, l)),
    decreases n,
{
    let loaded = preloaded_neighbors(vectors, keys.take(n));
    if n == 0 {
        assert forall|a: u128, l: usize, b: u128| #[trigger]
            has_edge(loaded, a, l, b) <==> arcs.take(0).contains((a, l, b)) && vectors.contains_key(
                (b, l),
            ) by {}
    } else {
        lemma_arcs_loaded_so_far(keys, arcs, vectors, n - 1);
        let earlier = preloaded_neighbors(vectors, keys.take(n - 1));
        let arc = arcs[n - 1];
        assert(keys.take(n).drop_last() =~= keys.take(n - 1));
        assert(keys.take(n).last() == keys[n - 1]);
        assert(arcs.take(n) =~= arcs.take(n - 1).push(arc));
        lemma_edge_key_round_trip(arc.0, arc.1, arc.2);
        assert forall|a: u128, l: usize, b: u128| #[trigger]
            has_edge(loaded, a, l, b) <==> arcs.take(n).contains((a, l, b)) && vectors.contains_key(
                (b, l),
            ) by {
            assert(has_edge(earlier, a, l, b) <==> arcs.take(n - 1).contains((a, l, b))
                && vectors.contains_key((b, l)));
            let before = arcs.take(n - 1);
            let now = arcs.take(n);
            if before.contains((a, l, b)) {
                let k = choose|k: int| 0 <= k < before.len() && before[k] == (a, l, b);
                assert(now[k] == (a, l, b));
            }
            if now.contains((a, l, b)) {
                let k = choose|k: int| 0 <= k < now.len() && now[k] == (a, l, b);
                if k < n - 1 {
                    assert(before[k] == (a, l, b));
                }
            }
            if (a, l, b) == arc {
                assert(now[n - 1] == arc);
            }
        }
    }
}

/// Loading the adjacency keys that a commit wrote gives the edges of the
/// committed cache back, if that cache was symmetric, every neighbour
/// has a copy at its level, and the keys of every cache entry were
/// written.
pub proof fn lemma_preload_of_written_edges(
    keys: Seq<Vec<u8>>,
    arcs: Seq<Arc3>,
    g: Graph,
    vectors: Map<Entry, HVectorView>,
)
    requires
        symmetric(g),
        forall|a: u128, l: usize, b: u128| #[trigger]
            has_edge(g, a, l, b) ==> vectors.contains_key((b, l)),
        written_arcs(keys, arcs),
        arcs.to_set() == directed_arcs(g, g.dom()),
    ensures
        forall|a: u128, l: usize, b: u128| #[trigger]
            has_edge(preloaded_neighbors(vectors, keys), a, l, b) <==> has_edge(g, a, l, b),
        symmetric(preloaded_neighbors(vectors, keys)),
{
    let loaded = preloaded_neighbors(vectors, keys);
    lemma_arcs_loaded_so_far(keys, arcs, vectors, arcs.len() as int);
    assert(keys.take(keys.len() as int) =~= keys);
    assert(arcs.take(arcs.len() as int) =~= arcs);
    assert forall|a: u128, l: usize, b: u128| #[trigger]
        has_edge(loaded, a, l, b) <==> has_edge(g, a, l, b) by {
        assert(has_edge(loaded, a, l, b) <==> arcs.contains((a, l, b)) && vectors.contains_key(
            (b, l),
        ));
        assert(arcs.contains((a, l, b)) <==> arcs.to_set().contains((a, l, b)));
        assert(arcs.to_set().contains((a, l, b)) <==> directed_arcs(g, g.dom()).contains((a, l, b)));
        if has_edge(g, a, l, b) {
            assert(g.dom().contains((a, l)));
            assert(b != a);
        }
        if directed_arcs(g, g.dom()).contains((a, l, b)) {
            if !has_edge(g, a, l, b) {
                assert(has_edge(g, b, l, a));
            }
        }
    }
    assert forall|a: u128, l: usize, b: u128| #[trigger] has_edge(loaded, a, l, b) implies b != a
        && has_edge(loaded, b, l, a) by {
        assert(has_edge(g, a, l, b));
        assert(has_edge(g, b, l, a));
    }
}

/// The vector writes of `chunks` in the order in which they are written.
pub open spec fn all_vector_writes<'a>(chunks: Seq<Vec<VectorWrite<'a>>>) -> Seq<VectorWrite<'a>>
    decreases chunks.len(),
{
    if chunks.len() == 0 {
        Seq::empty()
    } else {
        all_vector_writes(chunks.drop_last()) + chunks.last()@
    }
}

/// The adjacency writes of `chunks` in the order in which they are
/// written.
pub open spec fn all_edge_writes(chunks: Seq<EdgeChunk>) -> Seq<EdgeWrite>
    decreases chunks.len(),
{
    if chunks.len() == 0 {
        Seq::empty()
    } else {
        all_edge_writes(chunks.drop_last()) + chunks.last().writes@
    }
}

/// Whether `stored` holds, for each of `writes` in turn, the key and the
/// vector that was written.
pub open spec fn stored_from(stored: Seq<StoredVector>, writes: Seq<VectorWrite>) -> bool {
    &&& stored.len() == writes.len()
    &&& forall|i: int|
        0 <= i < writes.len() ==> (#[trigger] stored[i]).key@ == writes[i].key@ && stored[i].vector@
            == writes[i].vector@
}

/// Whether `keys` holds, for each of `writes` in turn, the key that was
/// written.
pub open spec fn keys_from(keys: Seq<Vec<u8>>, writes: Seq<EdgeWrite>) -> bool {
    &&& keys.len() == writes.len()
    &&& forall|i: int| 0 <= i < writes.len() ==> (#[trigger] keys[i])@ == writes[i].key@
}

/// The writes of the chunks are for the entries of the chunks, in their
/// order, and each is the write of its entry.
proof fn lemma_all_vector_writes(
    chunks: Seq<Vec<VectorWrite>>,
    prefix: Seq<u8>,
    vectors: Map<Entry, HVectorView>,
)
    requires
        forall|c: int, i: int|
            0 <= c < chunks.len() && 0 <= i < chunks[c]@.len() ==> (#[trigger] chunks[c]@[i]).writes_from(
                prefix,
                vectors,
            ),
    ensures
        write_entries(all_vector_writes(chunks)) == vector_runs(chunks).flatten(),
        forall|i: int|
            0 <= i < all_vector_writes(chunks).len() ==> (#[trigger] all_vector_writes(
                chunks,
            )[i]).writes_from(prefix, vectors),
    decreases chunks.len(),
{
    let runs = vector_runs(chunks);
    runs.lemma_flatten_and_flatten_alt_are_equivalent();
    if chunks.len() == 0 {
        assert(write_entries(all_vector_writes(chunks)) =~= runs.flatten_alt());
    } else {
        let earlier = chunks.drop_last();
        assert forall|c: int, i: int|
            0 <= c < earlier.len() && 0 <= i < earlier[c]@.len() implies (
        #[trigger] earlier[c]@[i]).writes_from(prefix, vectors) by {
            assert(earlier[c] == chunks[c]);
        }
        lemma_all_vector_writes(earlier, prefix, vectors);
        vector_runs(earlier).lemma_flatten_and_flatten_alt_are_equivalent();
        assert(runs.drop_last() =~= vector_runs(earlier));
        assert(runs.last() == write_entries(chunks.last()@));
        let head = all_vector_writes(earlier);
        let tail = chunks.last()@;
        assert(write_entries(head + tail) =~= write_entries(head) + write_entries(tail));
        assert forall|i: int| 0 <= i < (head + tail).len() implies (#[trigger] (head + tail)[i]).writes_from(
            prefix,
            vectors,
        ) by {
            if i >= head.len() {
                assert((head + tail)[i] == chunks[chunks.len() - 1]@[i - head.len()]);
            }
        }
    }
}

/// The writes of the chunks are keyed as their adjacency entries, and
/// these are the adjacency entries of all the cache entries of the
/// chunks.
proof fn lemma_all_edge_writes(chunks: Seq<EdgeChunk>, g: Graph)
    requires
        forall|c: int| 0 <= c < chunks.len() ==> (#[trigger] chunks[c]).writes_from(g),
    ensures
        write_arcs(all_edge_writes(chunks)).to_set() == directed_arcs(
            g,
            edge_runs(chunks).flatten().to_set(),
        ),
        forall|i: int|
            0 <= i < all_edge_writes(chunks).len() ==> (#[trigger] all_edge_writes(
                chunks,
            )[i]).well_keyed(),
    decreases chunks.len(),
{
    let runs = edge_runs(chunks);
    runs.lemma_flatten_and_flatten_alt_are_equivalent();
    if chunks.len() == 0 {
        assert(write_arcs(all_edge_writes(chunks)).to_set() =~= directed_arcs(
            g,
            runs.flatten().to_set(),
        ));
    } else {
        let earlier = chunks.drop_last();
        assert forall|c: int| 0 <= c < earlier.len() implies (#[trigger] earlier[c]).writes_from(
            g,
        ) by {
            assert(earlier[c] == chunks[c]);
        }
        lemma_all_edge_writes(earlier, g);
        edge_runs(earlier).lemma_flatten_and_flatten_alt_are_equivalent();
        assert(runs.drop_last() =~= edge_runs(earlier));
        let last = chunks.last();
        assert(last.writes_from(g));
        let head = all_edge_writes(earlier);
        let tail = last.writes@;
        assert(write_arcs(head + tail) =~= write_arcs(head) + write_arcs(tail));
        seq_to_set_distributes_over_add(write_arcs(head), write_arcs(tail));
        seq_to_set_distributes_over_add(edge_runs(earlier).flatten(), last.entries@);
        assert(runs.flatten() =~= edge_runs(earlier).flatten() + last.entries@);
        assert(directed_arcs(g, edge_runs(earlier).flatten().to_set() + last.entries@.to_set())
            =~= directed_arcs(g, edge_runs(earlier).flatten().to_set()) + directed_arcs(
            g,
            last.entries@.to_set(),
        ));
        assert forall|i: int| 0 <= i < (head + tail).len() implies (#[trigger] (head + tail)[i]).well_keyed() by {
            if i >= head.len() {
                assert((head + tail)[i] == last.writes@[i - head.len()]);
            }
        }
    }
}

/// A cache that is loaded from what a commit of a cache planned to write
/// holds the vector copies of that cache, if each of them was filed
/// under its own identifier and level; and it holds the edges of that
/// cache, and is symmetric, if that cache was symmetric and every
/// neighbour in it had a copy at its level.
pub proof fn lemma_commit_then_preload(
    vector_chunks: Seq<Vec<VectorWrite>>,
    edge_chunks: Seq<EdgeChunk>,
    prefix: Seq<u8>,
    vectors: Map<Entry, HVectorView>,
    g: Graph,
    vector_chunk_size: nat,
    edge_chunk_size: nat,
    stored: Seq<StoredVector>,
    keys: Seq<Vec<u8>>,
)
    requires
        vectors_planned(vector_chunks, prefix, vectors, vector_chunk_size),
        edges_planned(edge_chunks, g, edge_chunk_size),
        stored_from(stored, all_vector_writes(vector_chunks)),
        keys_from(keys, all_edge_writes(edge_chunks)),
        well_keyed(vectors),
    ensures
        preloaded_vectors(prefix, stored) == vectors,
        symmetric(g) && (forall|a: u128, l: usize, b: u128| #[trigger]
            has_edge(g, a, l, b) ==> vectors.contains_key((b, l))) ==> symmetric(
            preloaded_neighbors(vectors, keys),
        ) && (forall|a: u128, l: usize, b: u128| #[trigger]
            has_edge(preloaded_neighbors(vectors, keys), a, l, b) <==> has_edge(g, a, l, b)),
{
    let writes = all_vector_writes(vector_chunks);
    let entries = write_entries(writes);
    lemma_all_vector_writes(vector_chunks, prefix, vectors);
    assert(written_vectors(stored, prefix, vectors, entries)) by {
        assert forall|i: int| 0 <= i < entries.len() implies vectors.contains_key(
            #[trigger] entries[i],
        ) && stored[i].key@ == vector_key_spec(prefix, entries[i].0, entries[i].1)
            && stored[i].vector@ == vectors[entries[i]] by {
            assert(writes[i].writes_from(prefix, vectors));
        }
    }
    lemma_preload_of_written_vectors(stored, prefix, vectors, entries);
    if symmetric(g) && (forall|a: u128, l: usize, b: u128| #[trigger]
        has_edge(g, a, l, b) ==> vectors.contains_key((b, l))) {
        let edge_writes = all_edge_writes(edge_chunks);
        let arcs = write_arcs(edge_writes);
        lemma_all_edge_writes(edge_chunks, g);
        assert(written_arcs(keys, arcs)) by {
            assert forall|i: int| 0 <= i < arcs.len() implies (#[trigger] keys[i])@
                == out_edges_key_spec(arcs[i].0, arcs[i].1, Some(arcs[i].2)) by {
                assert(edge_writes[i].well_keyed());
            }
        }
        lemma_preload_of_written_edges(keys, arcs, g, vectors);
    }
}

} // verus!
