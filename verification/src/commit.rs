//! What a commit of the cache writes, and in which units.
//!
//! A commit of a cache that holds the whole index replaces the persisted
//! index: the caller clears the two tables and then writes the plan built
//! here. A commit of a lazy cache, which holds only what a batch touched,
//! adds its content to the tables and clears nothing. The plan says which
//! of the two it is.
//!
//! The plan is written one store transaction per chunk, so that no single
//! transaction grows with the size of the index. Between the clearing and
//! the last chunk the persisted index is incomplete: readers have to be
//! kept out for that time, and a failure in between leaves what was
//! written so far.
//!
//! Vector copies are written by ascending identifier. The adjacency keys
//! of a chunk are written in the order of the table, each once.

use vstd::prelude::*;
use std::collections::{HashMap, HashSet};
use crate::adjacency::Graph;
use crate::keys::{
    bytes_lt, lemma_edge_keys_ordered, out_edges_key, out_edges_key_spec, vector_key,
    vector_key_spec,
};
use crate::order::{
    arcs_strictly_sorted, chunk_views, chunks_of, dedup_sorted, ids_sorted, in_chunks,
    lemma_chunk_members, lemma_chunks_of, lemma_same_members, sorted_arcs, sorted_by_id, Arc3,
    Entry,
};
use crate::table::{arcs_of, directed_arcs, entries_of, graph_of, holds, vectors_of};
use crate::vector::{HVector, HVectorView};

verus! {

/// Number of vector copies written per store transaction.
pub const VECTOR_CHUNK_SIZE: usize = 250_000;

/// Number of cache entries whose adjacency is written per store
/// transaction. Each neighbour of an entry gives two keys.
pub const EDGE_CHUNK_SIZE: usize = 1_000_000;

/// One vector copy to write: its key and the copy itself.
pub struct VectorWrite<'a> {
    pub id: u128,
    pub level: usize,
    pub key: Vec<u8>,
    pub vector: &'a HVector,
}

/// One adjacency key to write; the value stored under it is empty.
pub struct EdgeWrite {
    pub source: u128,
    pub level: usize,
    pub sink: u128,
    pub key: Vec<u8>,
}

/// The adjacency writes of one store transaction.
pub struct EdgeChunk {
    /// The cache entries that this chunk covers.
    pub entries: Vec<Entry>,
    /// Their adjacency keys, both directions, each key once, ascending.
    pub writes: Vec<EdgeWrite>,
}

/// Everything a commit writes.
pub struct CommitPlan<'a> {
    /// Whether the vector table and the adjacency table are to be cleared
    /// before the chunks are written; the entry point on record is kept.
    pub clear_first: bool,
    pub vector_chunks: Vec<Vec<VectorWrite<'a>>>,
    pub edge_chunks: Vec<EdgeChunk>,
}

/// The entries that `writes` are for, in their order.
pub open spec fn write_entries(writes: Seq<VectorWrite>) -> Seq<Entry> {
    Seq::new(writes.len(), |i: int| (writes[i].id, writes[i].level))
}

/// The entries of each chunk of vector writes.
pub open spec fn vector_runs(chunks: Seq<Vec<VectorWrite>>) -> Seq<Seq<Entry>> {
    Seq::new(chunks.len(), |c: int| write_entries(chunks[c]@))
}

/// The adjacency entries that `writes` are for, in their order.
pub open spec fn write_arcs(writes: Seq<EdgeWrite>) -> Seq<Arc3> {
    Seq::new(writes.len(), |i: int| (writes[i].source, writes[i].level, writes[i].sink))
}

/// The cache entries of each chunk of adjacency writes.
pub open spec fn edge_runs(chunks: Seq<EdgeChunk>) -> Seq<Seq<Entry>> {
    Seq::new(chunks.len(), |c: int| chunks[c].entries@)
}

impl<'a> VectorWrite<'a> {
    /// The write carries the cached copy of its entry under the key of
    /// that entry.
    pub open spec fn writes_from(
        &self,
        prefix: Seq<u8>,
        vectors: Map<Entry, HVectorView>,
    ) -> bool {
        &&& self.key@ == vector_key_spec(prefix, self.id, self.level)
        &&& vectors.contains_key((self.id, self.level))
        &&& self.vector@ == vectors[(self.id, self.level)]
    }
}

impl EdgeWrite {
    /// The key is the key of the adjacency entry.
    pub open spec fn well_keyed(&self) -> bool {
        self.key@ == out_edges_key_spec(self.source, self.level, Some(self.sink))
    }
}

impl EdgeChunk {
    /// The writes are the adjacency entries of the covered cache entries
    /// in `g`, in both directions, each once and in ascending order.
    pub open spec fn writes_from(&self, g: Graph) -> bool {
        &&& arcs_strictly_sorted(write_arcs(self.writes@))
        &&& write_arcs(self.writes@).to_set() == directed_arcs(g, self.entries@.to_set())
        &&& forall|i: int| 0 <= i < self.writes@.len() ==> (#[trigger] self.writes@[i]).well_keyed()
    }
}

/// The keys of a chunk of adjacency writes come in the order in which the
/// table keeps them, and none comes twice.
pub proof fn lemma_chunk_keys_ordered(chunk: EdgeChunk, g: Graph)
    requires
        chunk.writes_from(g),
    ensures
        forall|i: int, j: int|
            0 <= i < j < chunk.writes@.len() ==> bytes_lt(
                #[trigger] chunk.writes@[i].key@,
                #[trigger] chunk.writes@[j].key@,
            ),
{
    let arcs = write_arcs(chunk.writes@);
    assert forall|i: int, j: int| 0 <= i < j < chunk.writes@.len() implies bytes_lt(
        #[trigger] chunk.writes@[i].key@,
        #[trigger] chunk.writes@[j].key@,
    ) by {
        assert(chunk.writes@[i].well_keyed());
        assert(chunk.writes@[j].well_keyed());
        assert(crate::order::arc_lt(arcs[i], arcs[j]));
        lemma_edge_keys_ordered(arcs[i], arcs[j]);
    }
}

/// The vector chunks write every cached vector copy exactly once, by
/// ascending identifier, `size` to a chunk.
pub open spec fn vectors_planned(
    chunks: Seq<Vec<VectorWrite>>,
    prefix: Seq<u8>,
    vectors: Map<Entry, HVectorView>,
    size: nat,
) -> bool {
    let runs = vector_runs(chunks);
    &&& runs == chunks_of(runs.flatten(), size)
    &&& runs.flatten().no_duplicates()
    &&& runs.flatten().to_set() == vectors.dom()
    &&& ids_sorted(runs.flatten())
    &&& forall|c: int, i: int|
        0 <= c < chunks.len() && 0 <= i < chunks[c]@.len() ==> (#[trigger] chunks[c]@[i]).writes_from(
            prefix,
            vectors,
        )
}

/// The adjacency chunks cover every cache entry exactly once, `size` to a
/// chunk, and each writes the adjacency of the entries it covers.
pub open spec fn edges_planned(chunks: Seq<EdgeChunk>, g: Graph, size: nat) -> bool {
    let runs = edge_runs(chunks);
    &&& runs == chunks_of(runs.flatten(), size)
    &&& runs.flatten().no_duplicates()
    &&& runs.flatten().to_set() == g.dom()
    &&& forall|c: int| 0 <= c < chunks.len() ==> (#[trigger] chunks[c]).writes_from(g)
}

/// The writes for one run of vector entries.
fn vector_writes<'a>(
    table: &'a HashMap<usize, HashMap<u128, HVector>>,
    prefix: &[u8],
    run: &Vec<Entry>,
) -> (writes: Vec<VectorWrite<'a>>)
    requires
        forall|i: int| 0 <= i < run@.len() ==> holds(table@, #[trigger] run@[i]),
    ensures
        write_entries(writes@) == run@,
        forall|i: int|
            0 <= i < writes@.len() ==> (#[trigger] writes@[i]).writes_from(
                prefix@,
                vectors_of(table@),
            ),
{
    broadcast use vstd::std_specs::hash::group_hash_axioms;

    let mut writes: Vec<VectorWrite<'a>> = Vec::new();
    let mut i: usize = 0;
    while i < run.len()
        invariant
            i <= run@.len(),
            forall|k: int| 0 <= k < run@.len() ==> holds(table@, #[trigger] run@[k]),
            writes@.len() == i,
            write_entries(writes@) == run@.subrange(0, i as int),
            forall|k: int|
                0 <= k < writes@.len() ==> (#[trigger] writes@[k]).writes_from(
                    prefix@,
                    vectors_of(table@),
                ),
        decreases run@.len() - i,
    {
        let id: u128 = run[i].0;
        let level: usize = run[i].1;
        assert(holds(table@, run@[i as int]));
        let at_level = table.get(&level).unwrap();
        let vector: &'a HVector = at_level.get(&id).unwrap();
        let write = VectorWrite { id, level, key: vector_key(prefix, id, level), vector };
        proof {
            let grown = write_entries(writes@.push(write));
            let want = run@.subrange(0, i + 1);
            assert forall|k: int| 0 <= k < grown.len() implies grown[k] == want[k] by {
                if k < i {
                    assert(write_entries(writes@)[k] == run@.subrange(0, i as int)[k]);
                }
            }
            assert(grown =~= want);
        }
        writes.push(write);
        i = i + 1;
    }
    proof {
        assert(run@.subrange(0, run@.len() as int) =~= run@);
    }
    writes
}

/// Plans the vector writes of a commit of `table` in chunks of `size`.
pub(crate) fn plan_vectors<'a>(
    table: &'a HashMap<usize, HashMap<u128, HVector>>,
    prefix: &[u8],
    size: usize,
) -> (chunks: Vec<Vec<VectorWrite<'a>>>)
    requires
        size > 0,
    ensures
        vectors_planned(chunks@, prefix@, vectors_of(table@), size as nat),
{
    let entries: Vec<Entry> = entries_of(table);
    let ghost listed = entries@;
    let sorted: Vec<Entry> = sorted_by_id(entries);
    let ghost all = sorted@;
    let runs: Vec<Vec<Entry>> = in_chunks(sorted, size);
    proof {
        lemma_same_members(listed, all);
        lemma_chunks_of(all, size as nat);
        lemma_chunk_members(all, size as nat);
        assert(all.to_set() =~= vectors_of(table@).dom()) by {
            assert forall|e: Entry| all.to_set().contains(e) <==> vectors_of(
                table@,
            ).dom().contains(e) by {
                assert(all.contains(e) <==> listed.contains(e));
            }
        }
    }
    let mut chunks: Vec<Vec<VectorWrite<'a>>> = Vec::new();
    let mut c: usize = 0;
    while c < runs.len()
        invariant
            c <= runs@.len(),
            chunk_views(runs@) == chunks_of(all, size as nat),
            forall|r: int, i: int|
                0 <= r < chunks_of(all, size as nat).len() && 0 <= i < chunks_of(
                    all,
                    size as nat,
                )[r].len() ==> all.contains(#[trigger] chunks_of(all, size as nat)[r][i]),
            forall|e: Entry| all.contains(e) ==> holds(table@, e),
            chunks@.len() == c,
            vector_runs(chunks@) == chunk_views(runs@).subrange(0, c as int),
            forall|r: int, i: int|
                0 <= r < chunks@.len() && 0 <= i < chunks@[r]@.len() ==> (
                #[trigger] chunks@[r]@[i]).writes_from(prefix@, vectors_of(table@)),
        decreases runs@.len() - c,
    {
        let run: &Vec<Entry> = &runs[c];
        proof {
            assert(chunk_views(runs@)[c as int] == run@);
            assert forall|i: int| 0 <= i < run@.len() implies holds(table@, #[trigger] run@[i]) by {
                assert(all.contains(chunks_of(all, size as nat)[c as int][i]));
            }
        }
        let writes: Vec<VectorWrite<'a>> = vector_writes(table, prefix, run);
        proof {
            let grown = vector_runs(chunks@.push(writes));
            let want = chunk_views(runs@).subrange(0, c + 1);
            assert forall|k: int| 0 <= k < grown.len() implies grown[k] == want[k] by {
                if k < c {
                    assert(vector_runs(chunks@)[k] == chunk_views(runs@).subrange(0, c as int)[k]);
                }
            }
            assert(grown =~= want);
        }
        chunks.push(writes);
        c = c + 1;
    }
    proof {
        assert(chunk_views(runs@).subrange(0, runs@.len() as int) =~= chunk_views(runs@));
    }
    chunks
}

/// The writes for the adjacency entries `arcs`.
fn edge_writes(arcs: &Vec<Arc3>) -> (writes: Vec<EdgeWrite>)
    ensures
        write_arcs(writes@) == arcs@,
        forall|i: int| 0 <= i < writes@.len() ==> (#[trigger] writes@[i]).well_keyed(),
{
    let mut writes: Vec<EdgeWrite> = Vec::new();
    let mut i: usize = 0;
    while i < arcs.len()
        invariant
            i <= arcs@.len(),
            writes@.len() == i,
            write_arcs(writes@) == arcs@.subrange(0, i as int),
            forall|k: int| 0 <= k < writes@.len() ==> (#[trigger] writes@[k]).well_keyed(),
        decreases arcs@.len() - i,
    {
        let source: u128 = arcs[i].0;
        let level: usize = arcs[i].1;
        let sink: u128 = arcs[i].2;
        let write = EdgeWrite { source, level, sink, key: out_edges_key(source, level, Some(sink)) };
        proof {
            let grown = write_arcs(writes@.push(write));
            let want = arcs@.subrange(0, i + 1);
            assert forall|k: int| 0 <= k < grown.len() implies grown[k] == want[k] by {
                if k < i {
                    assert(write_arcs(writes@)[k] == arcs@.subrange(0, i as int)[k]);
                }
            }
            assert(grown =~= want);
        }
        writes.push(write);
        i = i + 1;
    }
    proof {
        assert(arcs@.subrange(0, arcs@.len() as int) =~= arcs@);
    }
    writes
}

/// The adjacency chunk that covers the cache entries `run`.
fn edge_chunk(cache: &HashMap<usize, HashMap<u128, HashSet<u128>>>, run: &Vec<Entry>) -> (chunk:
    EdgeChunk)
    ensures
        chunk.entries@ == run@,
        chunk.writes_from(graph_of(cache@)),
{
    let arcs: Vec<Arc3> = arcs_of(cache, run);
    let ghost found = arcs@;
    let sorted: Vec<Arc3> = sorted_arcs(arcs);
    proof {
        lemma_same_members(found, sorted@);
        assert(sorted@.to_set() =~= found.to_set());
    }
    let unique: Vec<Arc3> = dedup_sorted(sorted);
    let writes: Vec<EdgeWrite> = edge_writes(&unique);
    let mut entries: Vec<Entry> = Vec::new();
    let mut i: usize = 0;
    while i < run.len()
        invariant
            i <= run@.len(),
            entries@ == run@.subrange(0, i as int),
        decreases run@.len() - i,
    {
        entries.push(run[i]);
        i = i + 1;
    }
    proof {
        assert(run@.subrange(0, run@.len() as int) =~= run@);
    }
    EdgeChunk { entries, writes }
}

/// Plans the adjacency writes of a commit of `cache`, `size` cache entries
/// to a chunk.
pub(crate) fn plan_edges(cache: &HashMap<usize, HashMap<u128, HashSet<u128>>>, size: usize) -> (chunks:
    Vec<EdgeChunk>)
    requires
        size > 0,
    ensures
        edges_planned(chunks@, graph_of(cache@), size as nat),
{
    let entries: Vec<Entry> = entries_of(cache);
    let ghost all = entries@;
    let runs: Vec<Vec<Entry>> = in_chunks(entries, size);
    proof {
        lemma_chunks_of(all, size as nat);
        assert(all.to_set() =~= graph_of(cache@).dom()) by {
            assert forall|e: Entry| all.to_set().contains(e) <==> graph_of(cache@).dom().contains(
                e,
            ) by {
                assert(all.contains(e) <==> holds(cache@, e));
            }
        }
    }
    let mut chunks: Vec<EdgeChunk> = Vec::new();
    let mut c: usize = 0;
    while c < runs.len()
        invariant
            c <= runs@.len(),
            chunks@.len() == c,
            edge_runs(chunks@) == chunk_views(runs@).subrange(0, c as int),
            forall|k: int|
                0 <= k < chunks@.len() ==> (#[trigger] chunks@[k]).writes_from(graph_of(cache@)),
        decreases runs@.len() - c,
    {
        let chunk: EdgeChunk = edge_chunk(cache, &runs[c]);
        proof {
            let grown = edge_runs(chunks@.push(chunk));
            let want = chunk_views(runs@).subrange(0, c + 1);
            assert forall|k: int| 0 <= k < grown.len() implies grown[k] == want[k] by {
                if k < c {
                    assert(edge_runs(chunks@)[k] == chunk_views(runs@).subrange(0, c as int)[k]);
                }
            }
            assert(grown =~= want);
        }
        chunks.push(chunk);
        c = c + 1;
    }
    proof {
        assert(chunk_views(runs@).subrange(0, runs@.len() as int) =~= chunk_views(runs@));
    }
    chunks
}

} // verus!
