//! The transaction-scoped cache of the vector index.
//!
//! While one batch of index mutations runs, the neighbour sets it touches
//! live here and not in the store: rewiring a vector changes many sets, and
//! each change would otherwise be a write. The cache is an overlay. In lazy
//! mode a missing entry means "not read yet"; after a preload it means "no
//! neighbours". Nothing reaches the store before the commit.
//!
//! Neighbours are held by identifier, and the vectors themselves in a
//! separate table by (identifier, level).

use vstd::prelude::*;
use vstd::std_specs::hash::group_hash_axioms;
use std::collections::{HashMap, HashSet};
use crate::adjacency::{
    ids_at, lemma_with_more_neighbors_symmetric, lemma_with_neighbors_symmetric, neighbors_of,
    symmetric, with_more_neighbors, with_neighbors, Graph,
};
use crate::order::lemma_to_set_push;
use crate::commit::{
    edges_planned, plan_edges, plan_vectors, vectors_planned, CommitPlan, EDGE_CHUNK_SIZE,
    VECTOR_CHUNK_SIZE,
};
use crate::keys::{parse_edge_key, parse_edge_key_spec, parse_vector_key, parse_vector_key_spec};
use crate::order::Entry;
use crate::table::{
    add_neighbor, graph_of, has_entry, level_graph, link_all, linked, put_vector, stripped,
    to_id_list, to_id_set, unlink_all, vectors_of,
};
use crate::vector::{HVector, HVectorView};

verus! {

/// The cache of one batch of index mutations.
pub struct VecTxn {
    /// Neighbour sets, by level and then by identifier.
    cache: HashMap<usize, HashMap<u128, HashSet<u128>>>,
    /// Vector copies, by level and then by identifier.
    vectors_cache: HashMap<usize, HashMap<u128, HVector>>,
    /// Whether the whole persisted index was loaded.
    is_preloaded: bool,
}

/// The mathematical value of a [`VecTxn`].
pub struct VecTxnView {
    /// The cached neighbour sets.
    pub neighbors: Graph,
    /// The cached vector copies.
    pub vectors: Map<(u128, usize), HVectorView>,
    /// Whether the whole persisted index was loaded.
    pub is_preloaded: bool,
}

/// A vector as it was read from the store: the key it was stored under
/// and the record that the codec made of the stored value.
pub struct StoredVector {
    pub key: Vec<u8>,
    pub vector: HVector,
}

/// The vector table after the stored vectors `stored` were loaded in their
/// order. A vector whose key does not parse under `prefix` is skipped; the
/// others are filed under the identifier and level that their key names,
/// a later one replacing an earlier one of the same key.
pub open spec fn preloaded_vectors(prefix: Seq<u8>, stored: Seq<StoredVector>) -> Map<
    Entry,
    HVectorView,
>
    decreases stored.len(),
{
    if stored.len() == 0 {
        Map::empty()
    } else {
        let earlier = preloaded_vectors(prefix, stored.drop_last());
        match parse_vector_key_spec(prefix, stored.last().key@) {
            Some((id, level)) => earlier.insert(
                (id, level),
                HVectorView { id, level, ..stored.last().vector@ },
            ),
            None => earlier,
        }
    }
}

/// The neighbour sets after the adjacency keys `edge_keys` were loaded in
/// their order. A key that is not a full adjacency key is skipped, and so
/// is one whose sink is not among `vectors` at that level; each of the
/// others adds its sink to the neighbours of its source.
pub open spec fn preloaded_neighbors(vectors: Map<Entry, HVectorView>, edge_keys: Seq<Vec<u8>>) -> Graph
    decreases edge_keys.len(),
{
    if edge_keys.len() == 0 {
        Map::empty()
    } else {
        let earlier = preloaded_neighbors(vectors, edge_keys.drop_last());
        match parse_edge_key_spec(edge_keys.last()@) {
            Some((source, level, sink)) => if vectors.contains_key((sink, level)) {
                earlier.insert((source, level), neighbors_of(earlier, source, level).insert(sink))
            } else {
                earlier
            },
            None => earlier,
        }
    }
}

/// Whether every copy of `vectors` carries the identifier and the level
/// that it is filed under.
pub open spec fn well_keyed(vectors: Map<Entry, HVectorView>) -> bool {
    forall|k: Entry| #[trigger]
        vectors.contains_key(k) ==> vectors[k].id == k.0 && vectors[k].level == k.1
}

/// What a preload files is filed under its own identifier and level.
pub proof fn lemma_preloaded_well_keyed(prefix: Seq<u8>, stored: Seq<StoredVector>)
    ensures
        well_keyed(preloaded_vectors(prefix, stored)),
    decreases stored.len(),
{
    if stored.len() > 0 {
        lemma_preloaded_well_keyed(prefix, stored.drop_last());
    }
}

/// `vectors` with a copy of `vector` filed at every level up to `top`.
pub open spec fn with_copies(vectors: Map<Entry, HVectorView>, vector: HVectorView, top: usize) -> Map<
    Entry,
    HVectorView,
> {
    Map::new(
        |k: Entry| vectors.contains_key(k) || (k.0 == vector.id && k.1 <= top),
        |k: Entry|
            if k.0 == vector.id && k.1 <= top {
                vector.at_level(k.1)
            } else {
                vectors[k]
            },
    )
}

impl View for VecTxn {
    type V = VecTxnView;

    closed spec fn view(&self) -> VecTxnView {
        VecTxnView {
            neighbors: graph_of(self.cache@),
            vectors: vectors_of(self.vectors_cache@),
            is_preloaded: self.is_preloaded,
        }
    }
}

impl VecTxn {
    /// An empty cache in lazy mode.
    pub fn new() -> (txn: VecTxn)
        ensures
            txn@.neighbors == Map::<(u128, usize), Set<u128>>::empty(),
            symmetric(txn@.neighbors),
            txn@.vectors == Map::<(u128, usize), HVectorView>::empty(),
            well_keyed(txn@.vectors),
            !txn@.is_preloaded,
    {
        let txn = VecTxn {
            cache: HashMap::new(),
            vectors_cache: HashMap::new(),
            is_preloaded: false,
        };
        proof {
            assert(txn@.neighbors =~= Map::<(u128, usize), Set<u128>>::empty());
            assert(txn@.vectors =~= Map::<(u128, usize), HVectorView>::empty());
        }
        txn
    }

    /// Whether the whole persisted index was loaded into this cache, so
    /// that a missing entry means that there is none.
    pub fn is_preloaded(&self) -> (preloaded: bool)
        ensures
            preloaded == self@.is_preloaded,
    {
        self.is_preloaded
    }

    /// The cached neighbours of `id` at `level`, each once, in no
    /// particular order; `None` if the cache holds no entry for them.
    pub fn get_neighbors(&self, id: u128, level: usize) -> (found: Option<Vec<u128>>)
        ensures
            found is Some <==> self@.neighbors.contains_key((id, level)),
            found matches Some(ids) ==> {
                &&& ids@.to_set() == self@.neighbors[(id, level)]
                &&& ids@.no_duplicates()
                &&& ids@.len() == self@.neighbors[(id, level)].len()
            },
    {
        broadcast use group_hash_axioms;

        match self.cache.get(&level) {
            Some(at_level) => match at_level.get(&id) {
                Some(set) => Some(to_id_list(set)),
                None => None,
            },
            None => None,
        }
    }

    /// Tells whether the cache holds an entry for the neighbours of `id` at
    /// `level`.
    pub fn has_neighbors(&self, id: u128, level: usize) -> (found: bool)
        ensures
            found == self@.neighbors.contains_key((id, level)),
    {
        has_entry(&self.cache, id, level)
    }

    /// The number of vectors for which the cache holds an entry at
    /// `level`.
    pub fn level_size(&self, level: usize) -> (size: usize)
        ensures
            ids_at(self@.neighbors, level).finite(),
            size == ids_at(self@.neighbors, level).len(),
    {
        broadcast use group_hash_axioms;

        match self.cache.get(&level) {
            Some(at_level) => {
                proof {
                    assert(ids_at(self@.neighbors, level) =~= at_level@.dom());
                }
                at_level.len()
            },
            None => {
                proof {
                    assert(ids_at(self@.neighbors, level) =~= Set::<u128>::empty());
                }
                0
            },
        }
    }

    /// Tells whether vector `id` is cached with the mark that it is
    /// deleted. A vector that is not cached at level 0 counts as live.
    pub fn is_deleted(&self, id: u128) -> (deleted: bool)
        ensures
            deleted == (self@.vectors.contains_key((id, 0usize)) && self@.vectors[(
                id,
                0usize,
            )].is_deleted),
    {
        broadcast use group_hash_axioms;

        match self.vectors_cache.get(&0) {
            Some(at_level) => match at_level.get(&id) {
                Some(vector) => vector.is_deleted,
                None => false,
            },
            None => false,
        }
    }

    /// The dimension of the cached copy of vector `id` at `level`, if
    /// there is one.
    pub fn dimension_of(&self, id: u128, level: usize) -> (dimension: Option<usize>)
        ensures
            dimension is Some <==> self@.vectors.contains_key((id, level)),
            dimension matches Some(n) ==> n == self@.vectors[(id, level)].data.len(),
    {
        broadcast use group_hash_axioms;

        match self.vectors_cache.get(&level) {
            Some(at_level) => match at_level.get(&id) {
                Some(vector) => Some(vector.data.len()),
                None => None,
            },
            None => None,
        }
    }

    /// Replaces the cached neighbours of `id` at `level` by `neighbors`
    /// and keeps the other entries of that level in step: a vector that
    /// `id` no longer lists loses `id`, a vector that `id` newly lists
    /// gains `id`. `id` itself is never stored as its own neighbour.
    pub fn set_neighbors(&mut self, id: u128, level: usize, neighbors: &Vec<u128>)
        ensures
            final(self)@.neighbors == with_neighbors(
                old(self)@.neighbors,
                id,
                level,
                neighbors@.to_set(),
            ),
            symmetric(old(self)@.neighbors) ==> symmetric(final(self)@.neighbors),
            final(self)@.vectors == old(self)@.vectors,
            final(self)@.is_preloaded == old(self)@.is_preloaded,
    {
        broadcast use group_hash_axioms;

        let ghost before = self@.neighbors;
        let mut kept: HashSet<u128> = to_id_set(neighbors);
        kept.remove(&id);
        let mut at_level: HashMap<u128, HashSet<u128>> = match self.cache.remove(&level) {
            Some(at_level) => at_level,
            None => HashMap::new(),
        };
        let old_set: HashSet<u128> = match at_level.remove(&id) {
            Some(set) => set,
            None => HashSet::new(),
        };
        let ghost others = level_graph(at_level@);
        let ghost rest = self.cache@;
        proof {
            assert(old_set@ == neighbors_of(before, id, level));
            assert forall|k: (u128, usize)| k.1 != level implies (before.contains_key(k)
                <==> graph_of(rest).contains_key(k)) && (before.contains_key(k) ==> before[k]
                == graph_of(rest)[k]) by {}
            assert forall|x: u128| x != id implies (others.contains_key(x) <==> before.contains_key(
                (x, level),
            )) && (others.contains_key(x) ==> others[x] == before[(x, level)]) by {}
        }

        // Vectors that `id` no longer lists forget `id`; vectors that it
        // newly lists learn of it.
        let lost: Vec<u128> = to_id_list(&old_set);
        unlink_all(&mut at_level, id, &lost, &kept);
        let ghost pruned = level_graph(at_level@);
        let gained: Vec<u128> = to_id_list(&kept);
        link_all(&mut at_level, id, &gained, &old_set);
        let ghost wired = level_graph(at_level@);
        at_level.insert(id, kept);
        self.cache.insert(level, at_level);
        proof {
            let target = with_neighbors(before, id, level, neighbors@.to_set());
            let lost_set = old_set@.difference(kept@);
            let gained_set = kept@.difference(old_set@);
            let now = self@.neighbors;
            assert(self.cache@ == rest.insert(level, at_level));
            assert(level_graph(at_level@) =~= wired.insert(id, kept@));
            assert forall|k: (u128, usize)| now.contains_key(k) <==> target.contains_key(k) by {
                if k.1 == level && k.0 != id {
                    assert(now.contains_key(k) <==> wired.contains_key(k.0));
                    assert(wired.contains_key(k.0) <==> pruned.contains_key(k.0)
                        || gained_set.contains(k.0));
                    assert(pruned.contains_key(k.0) <==> others.contains_key(k.0));
                    assert(others.contains_key(k.0) <==> before.contains_key(k));
                } else if k.1 != level {
                    assert(now.contains_key(k) <==> graph_of(rest).contains_key(k));
                }
            }
            assert forall|k: (u128, usize)| now.contains_key(k) implies now[k] =~= target[k] by {
                if k.1 != level {
                    assert(now[k] == graph_of(rest)[k]);
                } else if k.0 == id {
                    assert(now[k] == kept@);
                } else {
                    assert(now[k] == level_graph(at_level@)[k.0]);
                    assert(now[k] == wired[k.0]);
                    if others.contains_key(k.0) {
                        assert(others[k.0] == before[k]);
                        assert(pruned[k.0] == if lost_set.contains(k.0) {
                            others[k.0].remove(id)
                        } else {
                            others[k.0]
                        });
                    }
                }
            }
            assert(final(self)@.neighbors =~= with_neighbors(
                before,
                id,
                level,
                neighbors@.to_set(),
            ));
            if symmetric(before) {
                lemma_with_neighbors_symmetric(before, id, level, neighbors@.to_set());
            }
        }
    }

    /// The cached copy of vector `id` at `level`, if there is one.
    pub fn vec_txn_get_vector(&self, id: u128, level: usize) -> (found: Option<HVector>)
        ensures
            found is Some <==> self@.vectors.contains_key((id, level)),
            found matches Some(vector) ==> vector@ == self@.vectors[(id, level)],
    {
        broadcast use group_hash_axioms;

        match self.vectors_cache.get(&level) {
            Some(at_level) => match at_level.get(&id) {
                Some(vector) => {
                    let copy = vector.at_level(vector.level);
                    assert(copy@ =~= vector@);
                    Some(copy)
                },
                None => None,
            },
            None => None,
        }
    }

    /// The cached copy of vector `id` at `level`, if there is one, without
    /// copying it.
    pub fn vec_txn_vector_ref(&self, id: u128, level: usize) -> (found: Option<&HVector>)
        ensures
            found is Some <==> self@.vectors.contains_key((id, level)),
            found matches Some(vector) ==> vector@ == self@.vectors[(id, level)],
    {
        broadcast use group_hash_axioms;

        match self.vectors_cache.get(&level) {
            Some(at_level) => at_level.get(&id),
            None => None,
        }
    }

    /// Caches a copy of `vector` at `level` and at every level below it:
    /// whatever lives at a level lives at all levels below.
    pub fn vec_txn_put_vector(&mut self, vector: &HVector, level: usize)
        ensures
            final(self)@.vectors == with_copies(old(self)@.vectors, vector@, level),
            well_keyed(old(self)@.vectors) ==> well_keyed(final(self)@.vectors),
            final(self)@.neighbors == old(self)@.neighbors,
            final(self)@.is_preloaded == old(self)@.is_preloaded,
    {
        self.put_copy(vector, 0);
        proof {
            assert(self@.vectors =~= with_copies(old(self)@.vectors, vector@, 0));
        }
        let mut filed: usize = 0;
        while filed < level
            invariant
                filed <= level,
                self@.vectors == with_copies(old(self)@.vectors, vector@, filed),
                self@.neighbors == old(self)@.neighbors,
                self@.is_preloaded == old(self)@.is_preloaded,
            decreases level - filed,
        {
            filed = filed + 1;
            self.put_copy(vector, filed);
            proof {
                assert(self@.vectors =~= with_copies(old(self)@.vectors, vector@, filed));
            }
        }
    }

    /// Caches a copy of `vector` at `level`, replacing the one that was
    /// there.
    fn put_copy(&mut self, vector: &HVector, level: usize)
        ensures
            final(self)@.vectors == old(self)@.vectors.insert(
                (vector@.id, level),
                vector@.at_level(level),
            ),
            final(self)@.neighbors == old(self)@.neighbors,
            final(self)@.is_preloaded == old(self)@.is_preloaded,
    {
        broadcast use group_hash_axioms;

        let mut at_level: HashMap<u128, HVector> = match self.vectors_cache.remove(&level) {
            Some(at_level) => at_level,
            None => HashMap::new(),
        };
        at_level.insert(vector.id, vector.at_level(level));
        self.vectors_cache.insert(level, at_level);
        proof {
            assert(final(self)@.vectors =~= old(self)@.vectors.insert(
                (vector@.id, level),
                vector@.at_level(level),
            ));
        }
    }

    /// Adds `neighbors` to the cached neighbours of `id` at `level`,
    /// starting from none if there is no entry yet, and puts `id` into
    /// the set of each vector that is added. `id` itself is never stored
    /// as its own neighbour.
    pub fn insert_neighbors(&mut self, id: u128, level: usize, neighbors: &Vec<u128>)
        ensures
            final(self)@.neighbors == with_more_neighbors(
                old(self)@.neighbors,
                id,
                level,
                neighbors@.to_set(),
            ),
            symmetric(old(self)@.neighbors) ==> symmetric(final(self)@.neighbors),
            final(self)@.vectors == old(self)@.vectors,
            final(self)@.is_preloaded == old(self)@.is_preloaded,
    {
        broadcast use group_hash_axioms;

        let ghost before = self@.neighbors;
        let mut added: HashSet<u128> = to_id_set(neighbors);
        added.remove(&id);
        let mut at_level: HashMap<u128, HashSet<u128>> = match self.cache.remove(&level) {
            Some(at_level) => at_level,
            None => HashMap::new(),
        };
        let mut own: HashSet<u128> = match at_level.remove(&id) {
            Some(set) => set,
            None => HashSet::new(),
        };
        let ghost others = level_graph(at_level@);
        let ghost rest = self.cache@;
        proof {
            assert(own@ == neighbors_of(before, id, level));
            assert forall|k: (u128, usize)| k.1 != level implies (before.contains_key(k)
                <==> graph_of(rest).contains_key(k)) && (before.contains_key(k) ==> before[k]
                == graph_of(rest)[k]) by {}
            assert forall|x: u128| x != id implies (others.contains_key(x) <==> before.contains_key(
                (x, level),
            )) && (others.contains_key(x) ==> others[x] == before[(x, level)]) by {}
        }
        let gained: Vec<u128> = to_id_list(&added);
        let nobody: HashSet<u128> = HashSet::new();
        link_all(&mut at_level, id, &gained, &nobody);
        let ghost wired = level_graph(at_level@);
        let mut i: usize = 0;
        while i < gained.len()
            invariant
                i <= gained@.len(),
                own@ == neighbors_of(before, id, level).union(
                    gained@.subrange(0, i as int).to_set(),
                ),
            decreases gained@.len() - i,
        {
            proof {
                let done = gained@.subrange(0, i as int);
                assert(gained@.subrange(0, i + 1) =~= done.push(gained@[i as int]));
                lemma_to_set_push(done, gained@[i as int]);
            }
            own.insert(gained[i]);
            i = i + 1;
        }
        at_level.insert(id, own);
        self.cache.insert(level, at_level);
        proof {
            let target = with_more_neighbors(before, id, level, neighbors@.to_set());
            let now = self@.neighbors;
            assert(gained@.subrange(0, gained@.len() as int) =~= gained@);
            assert(gained@.to_set().difference(nobody@) =~= added@);
            assert(self.cache@ == rest.insert(level, at_level));
            assert(level_graph(at_level@) =~= wired.insert(id, own@));
            assert forall|k: (u128, usize)| now.contains_key(k) <==> target.contains_key(k) by {
                if k.1 == level && k.0 != id {
                    assert(now.contains_key(k) <==> wired.contains_key(k.0));
                    assert(wired.contains_key(k.0) <==> others.contains_key(k.0) || added@.contains(
                        k.0,
                    ));
                    assert(others.contains_key(k.0) <==> before.contains_key(k));
                } else if k.1 != level {
                    assert(now.contains_key(k) <==> graph_of(rest).contains_key(k));
                }
            }
            assert forall|k: (u128, usize)| now.contains_key(k) implies now[k] =~= target[k] by {
                if k.1 != level {
                    assert(now[k] == graph_of(rest)[k]);
                } else if k.0 == id {
                    assert(now[k] == own@);
                } else {
                    assert(now[k] == level_graph(at_level@)[k.0]);
                    assert(now[k] == wired[k.0]);
                    if others.contains_key(k.0) {
                        assert(others[k.0] == before[k]);
                    }
                }
            }
            assert(now =~= target);
            if symmetric(before) {
                lemma_with_more_neighbors_symmetric(before, id, level, neighbors@.to_set());
            }
        }
    }

    /// A cache that holds the whole persisted index: see
    /// [`VecTxn::preload_all`].
    pub fn new_with_preload(
        vector_prefix: &[u8],
        vectors: Vec<StoredVector>,
        edge_keys: &Vec<Vec<u8>>,
    ) -> (txn: VecTxn)
        ensures
            txn@.vectors == preloaded_vectors(vector_prefix@, vectors@),
            txn@.neighbors == preloaded_neighbors(txn@.vectors, edge_keys@),
            well_keyed(txn@.vectors),
            txn@.is_preloaded,
    {
        let mut txn = VecTxn::new();
        txn.preload_all(vector_prefix, vectors, edge_keys);
        txn
    }

    /// Replaces the content of the cache by the persisted index, given as
    /// the entries of the vector table under `vector_prefix` and the keys
    /// of the adjacency table, each in the order of the table.
    pub fn preload_all(
        &mut self,
        vector_prefix: &[u8],
        vectors: Vec<StoredVector>,
        edge_keys: &Vec<Vec<u8>>,
    )
        ensures
            final(self)@.vectors == preloaded_vectors(vector_prefix@, vectors@),
            final(self)@.neighbors == preloaded_neighbors(final(self)@.vectors, edge_keys@),
            well_keyed(final(self)@.vectors),
            final(self)@.is_preloaded,
    {
        broadcast use group_hash_axioms;

        proof {
            lemma_preloaded_well_keyed(vector_prefix@, vectors@);
        }

        self.cache.clear();
        self.vectors_cache.clear();
        let ghost stored = vectors@;
        proof {
            assert(vectors_of(self.vectors_cache@) =~= preloaded_vectors(
                vector_prefix@,
                stored.take(0),
            ));
        }
        for item in it: vectors
            invariant
                it.seq() == stored,
                self.cache@ == Map::<usize, HashMap<u128, HashSet<u128>>>::empty(),
                vectors_of(self.vectors_cache@) == preloaded_vectors(
                    vector_prefix@,
                    stored.take(it.index()),
                ),
        {
            proof {
                assert(stored.take(it.index() + 1).drop_last() =~= stored.take(it.index()));
            }
            match parse_vector_key(vector_prefix, item.key.as_slice()) {
                Some((id, level)) => {
                    let vector = HVector {
                        id,
                        level,
                        is_deleted: item.vector.is_deleted,
                        data: item.vector.data,
                        properties: item.vector.properties,
                    };
                    put_vector(&mut self.vectors_cache, vector);
                },
                None => {},
            }
        }
        proof {
            assert(stored.take(stored.len() as int) =~= stored);
            assert(graph_of(self.cache@) =~= preloaded_neighbors(
                vectors_of(self.vectors_cache@),
                edge_keys@.take(0),
            ));
        }
        let mut i: usize = 0;
        while i < edge_keys.len()
            invariant
                i <= edge_keys@.len(),
                graph_of(self.cache@) == preloaded_neighbors(
                    vectors_of(self.vectors_cache@),
                    edge_keys@.take(i as int),
                ),
                vectors_of(self.vectors_cache@) == preloaded_vectors(vector_prefix@, stored),
            decreases edge_keys@.len() - i,
        {
            proof {
                assert(edge_keys@.take(i + 1).drop_last() =~= edge_keys@.take(i as int));
            }
            match parse_edge_key(edge_keys[i].as_slice()) {
                Some((source, level, sink)) => {
                    if has_entry(&self.vectors_cache, sink, level) {
                        add_neighbor(&mut self.cache, source, level, sink);
                    }
                },
                None => {},
            }
            i = i + 1;
        }
        proof {
            assert(edge_keys@.take(edge_keys@.len() as int) =~= edge_keys@);
        }
        self.is_preloaded = true;
    }

    /// Plans the writes that bring the content of the cache into the
    /// store: every vector copy under its key, by ascending identifier,
    /// and for every cache entry the adjacency keys of its neighbours in
    /// both directions. The tables are cleared first exactly if the cache
    /// holds the whole index; the writes of a lazy cache are added to what
    /// is stored.
    pub fn commit(&self, vector_prefix: &[u8]) -> (plan: CommitPlan<'_>)
        ensures
            plan.clear_first == self@.is_preloaded,
            vectors_planned(
                plan.vector_chunks@,
                vector_prefix@,
                self@.vectors,
                VECTOR_CHUNK_SIZE as nat,
            ),
            edges_planned(plan.edge_chunks@, self@.neighbors, EDGE_CHUNK_SIZE as nat),
    {
        self.commit_in_chunks(vector_prefix, VECTOR_CHUNK_SIZE, EDGE_CHUNK_SIZE)
    }

    /// [`VecTxn::commit`] with chunk sizes of the caller's choice.
    pub fn commit_in_chunks(
        &self,
        vector_prefix: &[u8],
        vector_chunk_size: usize,
        edge_chunk_size: usize,
    ) -> (plan: CommitPlan<'_>)
        requires
            vector_chunk_size > 0,
            edge_chunk_size > 0,
        ensures
            plan.clear_first == self@.is_preloaded,
            vectors_planned(
                plan.vector_chunks@,
                vector_prefix@,
                self@.vectors,
                vector_chunk_size as nat,
            ),
            edges_planned(plan.edge_chunks@, self@.neighbors, edge_chunk_size as nat),
    {
        CommitPlan {
            clear_first: self.is_preloaded,
            vector_chunks: plan_vectors(&self.vectors_cache, vector_prefix, vector_chunk_size),
            edge_chunks: plan_edges(&self.cache, edge_chunk_size),
        }
    }
}

} // verus!
