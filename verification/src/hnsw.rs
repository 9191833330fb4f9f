//! Search and insertion in the layered proximity graph.
//!
//! The graph is the one that the cache holds. Level 0 holds every vector;
//! each level above holds fewer, and a search descends through them to
//! find a good place to start at level 0. Distances come from the
//! caller, as functions from identifiers to the order key of the
//! distance.
//!
//! A search of one level is a best-first search that keeps the `ef` best
//! candidates seen. It is approximate: it finds a set of candidates that
//! no step along an edge can improve, which need not be the nearest
//! vectors of the level. What it finds is stated as exactly that.
//!
//! An insertion wires the new vector to the nearest candidates that a
//! search finds at each of its levels, and cuts every list of neighbours
//! that grows beyond `m` back to the `m` nearest. It keeps the graph
//! symmetric and within the bound `m`.

use vstd::prelude::*;
use vstd::std_specs::hash::group_hash_axioms;
use vstd::seq_lib::seq_to_set_is_finite;
use vstd::set_lib::lemma_len_subset;
use std::collections::HashSet;
use crate::adjacency::{
    bounded, bounded_but, has_edge, ids_at, lemma_cut_bounded, lemma_with_neighbors_bounded,
    lemma_with_neighbors_elsewhere, lemma_with_neighbors_symmetric, neighbors_of, same_elsewhere,
    symmetric, with_neighbors, Graph,
};
use crate::rank::{closer, ids_of, insert_ranked, names, nearest_ids, ranked, Scored};
use crate::error::VectorError;
use crate::order::Entry;
use crate::vec_txn::{well_keyed, with_copies, VecTxn};
use crate::vector::{check_lengths, HVector, HVectorView};

verus! {

/// Whether `item` carries a distance that `distance` gave for its vector.
pub open spec fn observed<F: Fn(u128) -> u64>(distance: F, item: Scored) -> bool {
    call_ensures(distance, (item.id,), item.distance)
}

/// Whether vector `id` was left out of the full list `found` for being
/// further than all of it: `found` holds `ef` candidates, and at a
/// distance that `distance` gave for it, `id` comes after the last.
pub open spec fn beaten<F: Fn(u128) -> u64>(found: Seq<Scored>, ef: usize, distance: F, id: u128) -> bool {
    &&& found.len() == ef
    &&& ef > 0 ==> exists|d: u64|
        call_ensures(distance, (id,), d) && #[trigger] closer(found.last(), Scored { distance: d, id })
}

/// Whether the search has dealt with vector `id`: it is among the
/// candidates found or was left out for being too far.
pub open spec fn accounted<F: Fn(u128) -> u64>(
    found: Seq<Scored>,
    ef: usize,
    distance: F,
    id: u128,
) -> bool {
    names(found, id) || beaten(found, ef, distance, id)
}

/// Whether the search can have come to vector `id`: it is one of the
/// entry vectors or a neighbour of some vector at `level`.
pub open spec fn within_reach(g: Graph, level: usize, entry: Seq<u128>, id: u128) -> bool {
    entry.contains(id) || exists|from: u128| #[trigger] has_edge(g, from, level, id)
}

/// What a search of `level` of `g` from the vectors `entry` with width
/// `ef` finds: at most `ef` candidates, ranked, each an entry vector or a
/// neighbour of some vector and at a distance that `distance` gave for
/// it; the entry vectors and every neighbour of a candidate found are
/// dealt with, so that no step from a candidate leads to a vector that
/// should have been among them.
pub open spec fn level_searched<F: Fn(u128) -> u64>(
    found: Seq<Scored>,
    g: Graph,
    level: usize,
    entry: Seq<u128>,
    ef: usize,
    distance: F,
) -> bool {
    &&& ranked(found)
    &&& found.len() <= ef
    &&& forall|i: int| 0 <= i < found.len() ==> observed(distance, #[trigger] found[i])
    &&& forall|i: int|
        0 <= i < found.len() ==> within_reach(g, level, entry, (#[trigger] found[i]).id)
    &&& forall|i: int| 0 <= i < entry.len() ==> accounted(found, ef, distance, #[trigger] entry[i])
    &&& forall|i: int, n: u128|
        0 <= i < found.len() && #[trigger] has_edge(g, found[i].id, level, n) ==> accounted(
            found,
            ef,
            distance,
            n,
        )
}

/// A search that did not fill its width left nothing out: it found every
/// entry vector and every neighbour of what it found, and so every vector
/// that can be reached from the entry vectors along edges. Its ranking is
/// then the exact ranking of these vectors.
pub proof fn lemma_unfilled_search_is_exhaustive<F: Fn(u128) -> u64>(
    found: Seq<Scored>,
    g: Graph,
    level: usize,
    entry: Seq<u128>,
    ef: usize,
    distance: F,
)
    requires
        level_searched(found, g, level, entry, ef, distance),
        found.len() < ef,
    ensures
        forall|i: int| 0 <= i < entry.len() ==> names(found, #[trigger] entry[i]),
        forall|i: int, n: u128|
            0 <= i < found.len() && #[trigger] has_edge(g, found[i].id, level, n) ==> names(
                found,
                n,
            ),
{
    assert forall|i: int| 0 <= i < entry.len() implies names(found, #[trigger] entry[i]) by {
        assert(accounted(found, ef, distance, entry[i]));
    }
    assert forall|i: int, n: u128|
        0 <= i < found.len() && #[trigger] has_edge(g, found[i].id, level, n) implies names(
        found,
        n,
    ) by {
        assert(accounted(found, ef, distance, n));
    }
}

/// A vector that is nearer than every other vector is found first by
/// every search that comes within one step of it: if `nearest` is an
/// entry vector or a neighbour of a candidate found, and `distance` gives
/// `least` for it and more for every other vector, then it heads what the
/// search found. A vector that was wired in is searched for in this way:
/// at distance zero from itself, it is found as soon as the search comes
/// to one of its neighbours.
pub proof fn lemma_nearest_within_a_step_is_found<F: Fn(u128) -> u64>(
    found: Seq<Scored>,
    g: Graph,
    level: usize,
    entry: Seq<u128>,
    ef: usize,
    distance: F,
    nearest: u128,
    least: u64,
)
    requires
        level_searched(found, g, level, entry, ef, distance),
        ef > 0,
        entry.contains(nearest) || exists|i: int|
            0 <= i < found.len() && #[trigger] has_edge(g, found[i].id, level, nearest),
        forall|id: u128, d: u64| #[trigger]
            call_ensures(distance, (id,), d) ==> if id == nearest {
                d == least
            } else {
                d > least
            },
    ensures
        found.len() > 0,
        found[0].id == nearest,
        found[0].distance == least,
{
    assert(accounted(found, ef, distance, nearest)) by {
        if entry.contains(nearest) {
            let i = choose|i: int| 0 <= i < entry.len() && entry[i] == nearest;
            assert(accounted(found, ef, distance, entry[i]));
        } else {
            let i = choose|i: int|
                0 <= i < found.len() && #[trigger] has_edge(g, found[i].id, level, nearest);
            assert(has_edge(g, found[i].id, level, nearest));
        }
    }
    assert(names(found, nearest)) by {
        if beaten(found, ef, distance, nearest) {
            // Only the vector itself can stand before it.
            let d = choose|d: u64|
                call_ensures(distance, (nearest,), d) && #[trigger] closer(
                    found.last(),
                    Scored { distance: d, id: nearest },
                );
            let last = found[found.len() - 1];
            assert(observed(distance, last));
            assert(call_ensures(distance, (last.id,), last.distance));
            assert(last.id == nearest);
        }
    }
    let at = choose|at: int| 0 <= at < found.len() && (#[trigger] found[at]).id == nearest;
    assert(observed(distance, found[at]));
    assert(call_ensures(distance, (found[at].id,), found[at].distance));
    if at > 0 {
        assert(closer(found[0], found[at]));
        assert(observed(distance, found[0]));
        assert(call_ensures(distance, (found[0].id,), found[0].distance));
        assert(found[0].id != found[at].id);
    }
}

/// The state of a search between two steps: `results` is ranked and at
/// most `ef` long, with observed distances; every vector seen is dealt
/// with; and a candidate that still waits to be followed has an entry in
/// the graph.
spec fn beam<F: Fn(u128) -> u64>(
    results: Seq<Scored>,
    visited: Set<u128>,
    expanded: Set<u128>,
    g: Graph,
    level: usize,
    ef: usize,
    distance: F,
) -> bool {
    &&& ranked(results)
    &&& results.len() <= ef
    &&& forall|i: int| 0 <= i < results.len() ==> observed(distance, #[trigger] results[i])
    &&& forall|i: int| 0 <= i < results.len() ==> visited.contains((#[trigger] results[i]).id)
    &&& forall|v: u128| #[trigger] visited.contains(v) ==> accounted(results, ef, distance, v)
    &&& forall|x: u128| #[trigger] expanded.contains(x) ==> visited.contains(x)
    &&& forall|i: int|
        0 <= i < results.len() && !expanded.contains((#[trigger] results[i]).id) ==> g.contains_key(
            (results[i].id, level),
        )
}

/// Whether the search can have come to each of `results`.
spec fn reached(results: Seq<Scored>, g: Graph, level: usize, entry: Seq<u128>) -> bool {
    forall|i: int| 0 <= i < results.len() ==> within_reach(g, level, entry, (#[trigger] results[i]).id)
}

/// Whether all neighbours of the vectors of `expanded`, but perhaps those
/// of `current`, were seen.
spec fn followed(expanded: Set<u128>, visited: Set<u128>, g: Graph, level: usize, current: Option<u128>) -> bool {
    forall|x: u128, n: u128|
        expanded.contains(x) && Some(x) != current && #[trigger] has_edge(g, x, level, n)
            ==> visited.contains(n)
}

/// Looks at vector `id` if it was not seen before: takes its distance
/// and files it among the results, dropping the last result if that makes
/// one too many.
fn visit<F: Fn(u128) -> u64>(
    txn: &VecTxn,
    level: usize,
    ef: usize,
    distance: &F,
    id: u128,
    results: &mut Vec<Scored>,
    visited: &mut HashSet<u128>,
    expanded: &mut HashSet<u128>,
    Ghost(current): Ghost<Option<u128>>,
    Ghost(entry): Ghost<Seq<u128>>,
)
    requires
        ef > 0,
        forall|id: u128| call_requires(*distance, (id,)),
        beam(old(results)@, old(visited)@, old(expanded)@, txn@.neighbors, level, ef, *distance),
        followed(old(expanded)@, old(visited)@, txn@.neighbors, level, current),
        reached(old(results)@, txn@.neighbors, level, entry),
        within_reach(txn@.neighbors, level, entry, id),
    ensures
        beam(final(results)@, final(visited)@, final(expanded)@, txn@.neighbors, level, ef, *distance),
        reached(final(results)@, txn@.neighbors, level, entry),
        followed(final(expanded)@, final(visited)@, txn@.neighbors, level, current),
        final(visited)@ == old(visited)@.insert(id),
        forall|x: u128| old(expanded)@.contains(x) ==> final(expanded)@.contains(x),
        forall|x: u128|
            final(expanded)@.contains(x) && !old(expanded)@.contains(x)
                ==> !txn@.neighbors.contains_key((x, level)),
{
    broadcast use group_hash_axioms;

    if visited.contains(&id) {
        proof {
            assert(visited@.insert(id) =~= visited@);
        }
        return ;
    }
    let ghost g = txn@.neighbors;
    let ghost before = results@;
    let ghost seen = visited@;
    visited.insert(id);
    let item = Scored { distance: distance(id), id };
    if !txn.has_neighbors(id, level) {
        expanded.insert(id);
    }
    proof {
        assert(!names(before, id)) by {
            if names(before, id) {
                let i = choose|i: int| 0 <= i < before.len() && (#[trigger] before[i]).id == id;
                assert(seen.contains(before[i].id));
            }
        }
    }
    let at: usize = insert_ranked(results, item);
    let ghost grown = results@;
    proof {
        assert forall|i: int| 0 <= i < grown.len() implies observed(*distance, #[trigger] grown[i])
            && visited@.contains(grown[i].id) && within_reach(g, level, entry, grown[i].id) && (
        !expanded@.contains(grown[i].id) ==> g.contains_key((grown[i].id, level))) by {
            if i < at {
                assert(grown[i] == before[i]);
            } else if i > at {
                assert(grown[i] == before[i - 1]);
            }
        }
    }
    if results.len() > ef {
        let dropped = results.pop().unwrap();
        proof {
            let kept = results@;
            assert(kept =~= grown.drop_last());
            assert(kept.len() == ef);
            assert(before.len() == ef);
            assert forall|i: int| 0 <= i < kept.len() implies kept[i] == grown[i] by {}
            assert(closer(kept.last(), dropped)) by {
                assert(closer(grown[ef - 1], grown[ef as int]));
            }
            assert forall|v: u128| #[trigger] visited@.contains(v) implies accounted(
                kept,
                ef,
                *distance,
                v,
            ) by {
                if names(grown, v) {
                    let i = choose|i: int| 0 <= i < grown.len() && (#[trigger] grown[i]).id == v;
                    if i < ef {
                        assert(kept[i].id == v);
                    } else {
                        assert(grown[i] == dropped);
                        assert(observed(*distance, grown[i]));
                        assert(Scored { distance: dropped.distance, id: v } == dropped);
                    }
                } else {
                    // It was too far before, and the last result has not moved away.
                    assert(seen.contains(v));
                    assert(beaten(before, ef, *distance, v));
                    let d = choose|d: u64|
                        call_ensures(*distance, (v,), d) && #[trigger] closer(
                            before.last(),
                            Scored { distance: d, id: v },
                        );
                    let far = Scored { distance: d, id: v };
                    if at < ef {
                        assert(grown[ef as int] == before[ef - 1]);
                        assert(closer(kept.last(), before.last()));
                    } else {
                        assert(kept.last() == before.last());
                    }
                    assert(closer(kept.last(), far));
                }
            }
        }
    } else {
        proof {
            assert forall|v: u128| #[trigger] visited@.contains(v) implies accounted(
                grown,
                ef,
                *distance,
                v,
            ) by {
                if v != id {
                    assert(seen.contains(v));
                    if !names(before, v) {
                        assert(beaten(before, ef, *distance, v));
                    }
                }
            }
        }
    }
}

/// The position of the most preferred result that was not followed yet.
fn next_to_follow(results: &Vec<Scored>, expanded: &HashSet<u128>) -> (pick: Option<usize>)
    ensures
        match pick {
            Some(at) => at < results@.len() && !expanded@.contains(results@[at as int].id),
            None => forall|i: int|
                0 <= i < results@.len() ==> expanded@.contains((#[trigger] results@[i]).id),
        },
{
    broadcast use group_hash_axioms;

    let mut at: usize = 0;
    while at < results.len()
        invariant
            at <= results@.len(),
            forall|i: int| 0 <= i < at ==> expanded@.contains((#[trigger] results@[i]).id),
        decreases results@.len() - at,
    {
        if !expanded.contains(&results[at].id) {
            return Some(at);
        }
        at = at + 1;
    }
    None
}

/// Searches `level` of the cached graph from the vectors `entry` and
/// returns the `ef` best candidates it comes to see, ranked. Starting
/// with the entry vectors, it follows the edges of the most preferred
/// candidate that it has not followed yet, for as long as there is one
/// among the `ef` best.
pub fn search_level<F: Fn(u128) -> u64>(
    txn: &VecTxn,
    level: usize,
    entry: &Vec<u128>,
    ef: usize,
    distance: &F,
) -> (found: Vec<Scored>)
    requires
        forall|id: u128| call_requires(*distance, (id,)),
    ensures
        level_searched(found@, txn@.neighbors, level, entry@, ef, *distance),
{
    broadcast use group_hash_axioms;

    let ghost g = txn@.neighbors;
    let mut results: Vec<Scored> = Vec::new();
    if ef == 0 {
        return results;
    }
    let mut visited: HashSet<u128> = HashSet::new();
    let mut expanded: HashSet<u128> = HashSet::new();
    let mut i: usize = 0;
    while i < entry.len()
        invariant
            i <= entry@.len(),
            ef > 0,
            g == txn@.neighbors,
            forall|id: u128| call_requires(*distance, (id,)),
            beam(results@, visited@, expanded@, g, level, ef, *distance),
            followed(expanded@, visited@, g, level, None),
            reached(results@, g, level, entry@),
            forall|k: int| 0 <= k < i ==> visited@.contains(#[trigger] entry@[k]),
        decreases entry@.len() - i,
    {
        visit(
            txn,
            level,
            ef,
            distance,
            entry[i],
            &mut results,
            &mut visited,
            &mut expanded,
            Ghost(None),
            Ghost(entry@),
        );
        i = i + 1;
    }
    let size: usize = txn.level_size(level);
    let mut rounds: usize = 0;
    let ghost mut worked: Set<u128> = Set::empty();
    let mut pick: Option<usize> = next_to_follow(&results, &expanded);
    while pick.is_some()
        invariant
            ef > 0,
            g == txn@.neighbors,
            forall|id: u128| call_requires(*distance, (id,)),
            beam(results@, visited@, expanded@, g, level, ef, *distance),
            followed(expanded@, visited@, g, level, None),
            reached(results@, g, level, entry@),
            forall|k: int| 0 <= k < entry@.len() ==> visited@.contains(#[trigger] entry@[k]),
            ids_at(g, level).finite(),
            size == ids_at(g, level).len(),
            worked.finite(),
            worked.len() == rounds,
            worked.subset_of(ids_at(g, level)),
            forall|w: u128| #[trigger] worked.contains(w) ==> expanded@.contains(w),
            match pick {
                Some(at) => at < results@.len() && !expanded@.contains(results@[at as int].id),
                None => forall|i: int|
                    0 <= i < results@.len() ==> expanded@.contains((#[trigger] results@[i]).id),
            },
        decreases size - rounds,
    {
        let current: u128 = results[pick.unwrap()].id;
        proof {
            assert(g.contains_key((current, level)));
            assert(ids_at(g, level).contains(current));
            assert(!worked.contains(current));
            assert(worked.insert(current).subset_of(ids_at(g, level)));
            lemma_len_subset(worked.insert(current), ids_at(g, level));
            worked = worked.insert(current);
        }
        expanded.insert(current);
        let neighbors: Vec<u128> = txn.get_neighbors(current, level).unwrap();
        let mut j: usize = 0;
        while j < neighbors.len()
            invariant
                j <= neighbors@.len(),
                ef > 0,
                g == txn@.neighbors,
                forall|id: u128| call_requires(*distance, (id,)),
                beam(results@, visited@, expanded@, g, level, ef, *distance),
                followed(expanded@, visited@, g, level, Some(current)),
                reached(results@, g, level, entry@),
                neighbors@.to_set() == g[(current, level)],
                g.contains_key((current, level)),
                forall|k: int| 0 <= k < entry@.len() ==> visited@.contains(#[trigger] entry@[k]),
                forall|k: int| 0 <= k < j ==> visited@.contains(#[trigger] neighbors@[k]),
                forall|w: u128| #[trigger] worked.contains(w) ==> expanded@.contains(w),
            decreases neighbors@.len() - j,
        {
            proof {
                assert(neighbors@.to_set().contains(neighbors@[j as int]));
                assert(has_edge(g, current, level, neighbors@[j as int]));
            }
            visit(
                txn,
                level,
                ef,
                distance,
                neighbors[j],
                &mut results,
                &mut visited,
                &mut expanded,
                Ghost(Some(current)),
                Ghost(entry@),
            );
            j = j + 1;
        }
        proof {
            assert forall|n: u128| #[trigger] has_edge(g, current, level, n) implies visited@.contains(
                n,
            ) by {
                assert(neighbors@.to_set().contains(n));
                let k = choose|k: int| 0 <= k < neighbors@.len() && neighbors@[k] == n;
                assert(visited@.contains(neighbors@[k]));
            }
        }
        rounds = rounds + 1;
        pick = next_to_follow(&results, &expanded);
    }
    results
}

/// Where a search starts: a vector and the highest level it lives at.
#[derive(Debug, Clone, Copy, PartialEq, Eq)]
pub struct EntryPoint {
    pub id: u128,
    pub level: usize,
}

/// Whether vector `id` is marked as deleted in `vectors`. A vector
/// without a copy at level 0 counts as live.
pub open spec fn marked_deleted(vectors: Map<Entry, HVectorView>, id: u128) -> bool {
    vectors.contains_key((id, 0usize)) && vectors[(id, 0usize)].is_deleted
}

/// The candidates of `found` that are not marked as deleted, in their
/// order.
pub open spec fn live(found: Seq<Scored>, vectors: Map<Entry, HVectorView>) -> Seq<Scored>
    decreases found.len(),
{
    if found.len() == 0 {
        Seq::empty()
    } else if marked_deleted(vectors, found.last().id) {
        live(found.drop_last(), vectors)
    } else {
        live(found.drop_last(), vectors).push(found.last())
    }
}

/// The first `k` of `list`, or all of it if it is shorter.
pub open spec fn first_k(list: Seq<Scored>, k: usize) -> Seq<Scored> {
    if k <= list.len() {
        list.take(k as int)
    } else {
        list
    }
}

/// Whether a descent from vector `from` at level `from_level` can
/// arrive at vector `to` at level `down_to`: at each level above
/// `down_to` the search is one of width 1 from the vector reached so far,
/// and goes on from the vector that this search prefers, if it finds one.
pub open spec fn descends<F: Fn(u128) -> u64>(
    g: Graph,
    from_level: usize,
    from: u128,
    down_to: usize,
    to: u128,
    distance: F,
) -> bool
    decreases from_level,
{
    if from_level <= down_to {
        to == from
    } else {
        exists|found: Seq<Scored>|
            #[trigger] level_searched(found, g, from_level, seq![from], 1, distance) && descends(
                g,
                (from_level - 1) as usize,
                if found.len() > 0 {
                    found[0].id
                } else {
                    from
                },
                down_to,
                to,
                distance,
            )
    }
}

/// Whether the copy of the entry vector that `vectors` holds is of
/// another dimension than `dimension`. Without an entry point, or without
/// a cached copy of the entry vector, there is nothing to compare with.
pub open spec fn dimension_differs(
    vectors: Map<Entry, HVectorView>,
    entry_point: Option<EntryPoint>,
    dimension: nat,
) -> bool {
    entry_point matches Some(start) && vectors.contains_key((start.id, start.level)) && vectors[(
        start.id,
        start.level,
    )].data.len() != dimension
}

/// Compares `dimension` with the dimension of the cached copy of the
/// entry vector: see [`dimension_differs`].
pub fn check_dimension(txn: &VecTxn, entry_point: Option<EntryPoint>, dimension: usize) -> (checked:
    Result<(), VectorError>)
    ensures
        checked is Ok <==> !dimension_differs(txn@.vectors, entry_point, dimension as nat),
        checked matches Err(error) ==> error == VectorError::InvalidVectorLength,
{
    match entry_point {
        Some(start) => match txn.dimension_of(start.id, start.level) {
            Some(cached) => check_lengths(cached, dimension),
            None => Ok(()),
        },
        None => Ok(()),
    }
}

/// What a search from `entry_point` for the `k` nearest live vectors with
/// width `ef` may return.
///
/// Without an entry point the index is empty, and so is the answer. If
/// the copy of the entry vector that the cache holds is of another
/// dimension than what is searched for, the search fails. Otherwise the
/// search descends to level 0, searches that level with width `ef`,
/// drops the vectors that are marked as deleted from what it found
/// there, and returns the first `k` of the rest.
pub open spec fn search_result<F: Fn(u128) -> u64>(
    answer: Result<Vec<Scored>, VectorError>,
    g: Graph,
    vectors: Map<Entry, HVectorView>,
    entry_point: Option<EntryPoint>,
    dimension: usize,
    k: usize,
    ef: usize,
    distance: F,
) -> bool {
    match entry_point {
        None => answer matches Ok(nearest) && nearest@.len() == 0,
        Some(start) => if dimension_differs(vectors, entry_point, dimension as nat) {
            answer == Err::<Vec<Scored>, VectorError>(VectorError::InvalidVectorLength)
        } else {
            answer matches Ok(nearest) && exists|ground: u128, found: Seq<Scored>|
                {
                    &&& descends(g, start.level, start.id, 0, ground, distance)
                    &&& #[trigger] level_searched(found, g, 0, seq![ground], ef, distance)
                    &&& nearest@ == first_k(live(found, vectors), k)
                }
        },
    }
}

/// Descends from vector `from` at level `from_level` to level `down_to`
/// and returns the vector at which the search of that level is to start.
fn descend<F: Fn(u128) -> u64>(
    txn: &VecTxn,
    from_level: usize,
    from: u128,
    down_to: usize,
    distance: &F,
) -> (to: u128)
    requires
        forall|id: u128| call_requires(*distance, (id,)),
    ensures
        descends(txn@.neighbors, from_level, from, down_to, to, *distance),
    decreases from_level,
{
    if from_level <= down_to {
        from
    } else {
        let mut entry: Vec<u128> = Vec::new();
        entry.push(from);
        let found: Vec<Scored> = search_level(txn, from_level, &entry, 1, distance);
        assert(entry@ =~= seq![from]);
        let next: u128 = if found.len() > 0 {
            found[0].id
        } else {
            from
        };
        descend(txn, from_level - 1, next, down_to, distance)
    }
}

/// Searches the cached index for the `k` nearest live vectors: see
/// [`search_result`]. `dimension` is the dimension of what is searched
/// for, and `distance` gives the distance of a vector to it.
pub fn search<F: Fn(u128) -> u64>(
    txn: &VecTxn,
    entry_point: Option<EntryPoint>,
    dimension: usize,
    k: usize,
    ef: usize,
    distance: &F,
) -> (answer: Result<Vec<Scored>, VectorError>)
    requires
        forall|id: u128| call_requires(*distance, (id,)),
    ensures
        search_result(answer, txn@.neighbors, txn@.vectors, entry_point, dimension, k, ef, *distance),
{
    let start: EntryPoint = match entry_point {
        Some(start) => start,
        None => {
            return Ok(Vec::new());
        },
    };
    match check_dimension(txn, entry_point, dimension) {
        Ok(_) => {},
        Err(error) => {
            return Err(error);
        },
    }
    let ground: u128 = descend(txn, start.level, start.id, 0, distance);
    let mut entry: Vec<u128> = Vec::new();
    entry.push(ground);
    let found: Vec<Scored> = search_level(txn, 0, &entry, ef, distance);
    assert(entry@ =~= seq![ground]);
    let nearest: Vec<Scored> = nearest_live(txn, &found, k);
    proof {
        assert(level_searched(found@, txn@.neighbors, 0, seq![ground], ef, *distance));
    }
    Ok(nearest)
}

/// The first `k` candidates of `found` that are not marked as deleted.
/// The deleted ones are dropped before the count is taken, so that they
/// do not take the place of live ones.
pub fn nearest_live(txn: &VecTxn, found: &Vec<Scored>, k: usize) -> (nearest: Vec<Scored>)
    ensures
        nearest@ == first_k(live(found@, txn@.vectors), k),
{
    let mut nearest: Vec<Scored> = Vec::new();
    let mut i: usize = 0;
    while i < found.len()
        invariant
            i <= found@.len(),
            nearest@ == first_k(live(found@.take(i as int), txn@.vectors), k),
        decreases found@.len() - i,
    {
        proof {
            assert(found@.take(i + 1).drop_last() =~= found@.take(i as int));
        }
        if nearest.len() < k && !txn.is_deleted(found[i].id) {
            nearest.push(found[i]);
        }
        i = i + 1;
    }
    proof {
        assert(found@.take(found@.len() as int) =~= found@);
    }
    nearest
}

/// Where searches start after a vector `id` with top level `top_level`
/// was inserted: at the new vector if the index was empty or the vector
/// lives higher than the old entry point, else where they started before.
pub open spec fn entry_after(entry_point: Option<EntryPoint>, id: u128, top_level: usize) -> EntryPoint {
    match entry_point {
        Some(start) if top_level <= start.level => start,
        _ => EntryPoint { id, level: top_level },
    }
}

/// Whether `after` holds at the levels above `level` what `before` holds
/// there.
pub open spec fn same_above(before: Graph, after: Graph, level: usize) -> bool {
    forall|k: Entry|
        k.1 > level ==> (before.contains_key(k) <==> #[trigger] after.contains_key(k)) && (
        before.contains_key(k) ==> after[k] == before[k])
}

/// Whether `ranking` ranks the neighbours of `id` at `level` in `g` by
/// distances to `id` that `between` gave.
pub open spec fn ranks_neighbors<P: Fn(u128, u128) -> u64>(
    ranking: Seq<Scored>,
    g: Graph,
    id: u128,
    level: usize,
    between: P,
) -> bool {
    &&& ranked(ranking)
    &&& forall|x: u128| names(ranking, x) <==> neighbors_of(g, id, level).contains(x)
    &&& forall|i: int|
        0 <= i < ranking.len() ==> call_ensures(
            between,
            (id, (#[trigger] ranking[i]).id),
            ranking[i].distance,
        )
}

/// Whether `after` is `before` with the neighbours of `id` at `level`
/// cut down to `m`: nothing changes if there are at most `m`; else the
/// `m` nearest to `id` are kept, by a ranking of the neighbours with
/// distances that `between` gave, and the others no longer list `id`.
pub open spec fn pruned<P: Fn(u128, u128) -> u64>(
    before: Graph,
    after: Graph,
    id: u128,
    level: usize,
    m: usize,
    between: P,
) -> bool {
    if neighbors_of(before, id, level).len() <= m {
        after == before
    } else {
        exists|ranking: Seq<Scored>| #[trigger]
            ranks_neighbors(ranking, before, id, level, between) && after == with_neighbors(
                before,
                id,
                level,
                ids_of(first_k(ranking, m)).to_set(),
            )
    }
}

/// Cuts the cached neighbours of `id` at `level` down to the `m` nearest
/// if there are more: see [`pruned`].
pub fn prune<P: Fn(u128, u128) -> u64>(txn: &mut VecTxn, id: u128, level: usize, m: usize, between: &P)
    requires
        forall|a: u128, b: u128| call_requires(*between, (a, b)),
    ensures
        pruned(old(txn)@.neighbors, final(txn)@.neighbors, id, level, m, *between),
        final(txn)@.vectors == old(txn)@.vectors,
        final(txn)@.is_preloaded == old(txn)@.is_preloaded,
        symmetric(old(txn)@.neighbors) ==> symmetric(final(txn)@.neighbors),
        same_elsewhere(old(txn)@.neighbors, final(txn)@.neighbors, level),
        forall|pending: Set<u128>| #[trigger]
            bounded_but(old(txn)@.neighbors, level, m, pending) ==> bounded_but(
                final(txn)@.neighbors,
                level,
                m,
                pending.remove(id),
            ),
{
    let ghost g = txn@.neighbors;
    let listed: Vec<u128> = match txn.get_neighbors(id, level) {
        Some(listed) => listed,
        None => {
            proof {
                assert(neighbors_of(g, id, level).len() == 0);
            }
            return ;
        },
    };
    if listed.len() <= m {
        return ;
    }
    let mut ranking: Vec<Scored> = Vec::new();
    let mut i: usize = 0;
    while i < listed.len()
        invariant
            i <= listed@.len(),
            listed@.no_duplicates(),
            forall|a: u128, b: u128| call_requires(*between, (a, b)),
            ranked(ranking@),
            ranking@.len() == i,
            forall|x: u128| names(ranking@, x) <==> listed@.subrange(0, i as int).contains(x),
            forall|k: int|
                0 <= k < ranking@.len() ==> call_ensures(
                    *between,
                    (id, (#[trigger] ranking@[k]).id),
                    ranking@[k].distance,
                ),
        decreases listed@.len() - i,
    {
        let neighbor: u128 = listed[i];
        let ghost seen = listed@.subrange(0, i as int);
        let ghost before = ranking@;
        proof {
            assert(!seen.contains(neighbor)) by {
                if seen.contains(neighbor) {
                    let k = choose|k: int| 0 <= k < seen.len() && seen[k] == neighbor;
                    assert(listed@[k] == listed@[i as int]);
                }
            }
            assert(listed@.subrange(0, i + 1) =~= seen.push(neighbor));
        }
        let item = Scored { distance: between(id, neighbor), id: neighbor };
        let at: usize = insert_ranked(&mut ranking, item);
        proof {
            assert forall|k: int| 0 <= k < ranking@.len() implies call_ensures(
                *between,
                (id, (#[trigger] ranking@[k]).id),
                ranking@[k].distance,
            ) by {
                if k < at {
                    assert(ranking@[k] == before[k]);
                } else if k > at {
                    assert(ranking@[k] == before[k - 1]);
                }
            }
            assert forall|x: u128| names(ranking@, x) <==> seen.push(neighbor).contains(x) by {
                if seen.push(neighbor).contains(x) {
                    let k = choose|k: int|
                        0 <= k < seen.push(neighbor).len() && seen.push(neighbor)[k] == x;
                    if k < seen.len() {
                        assert(seen[k] == x);
                    }
                }
                if seen.contains(x) {
                    let k = choose|k: int| 0 <= k < seen.len() && seen[k] == x;
                    assert(seen.push(neighbor)[k] == x);
                }
                if x == neighbor {
                    assert(seen.push(neighbor)[seen.len() as int] == x);
                }
            }
        }
        i = i + 1;
    }
    let kept: Vec<u128> = nearest_ids(&ranking, m);
    proof {
        assert(listed@.subrange(0, listed@.len() as int) =~= listed@);
        assert forall|x: u128| names(ranking@, x) <==> neighbors_of(g, id, level).contains(x) by {
            assert(listed@.contains(x) <==> listed@.to_set().contains(x));
        }
        assert(ranks_neighbors(ranking@, g, id, level, *between));
        assert(neighbors_of(g, id, level).len() > m);
        assert(kept@ =~= ids_of(first_k(ranking@, m))) by {
            if m <= ranking@.len() {
            } else {
                assert(ranking@.take(ranking@.len() as int) =~= ranking@);
            }
        }
        if symmetric(g) {
            lemma_with_neighbors_symmetric(g, id, level, kept@.to_set());
        }
        lemma_with_neighbors_elsewhere(g, id, level, kept@.to_set());
        seq_to_set_is_finite(kept@);
        kept@.lemma_cardinality_of_set();
        assert(kept@.to_set().subset_of(neighbors_of(g, id, level))) by {
            assert forall|x: u128| kept@.to_set().contains(x) implies neighbors_of(
                g,
                id,
                level,
            ).contains(x) by {
                let k = choose|k: int| 0 <= k < kept@.len() && kept@[k] == x;
                assert(kept@[k] == first_k(ranking@, m)[k].id);
                assert(first_k(ranking@, m)[k] == ranking@[k]);
                assert(names(ranking@, x));
            }
        }
        assert forall|pending: Set<u128>| #[trigger]
            bounded_but(g, level, m, pending) implies bounded_but(
            with_neighbors(g, id, level, kept@.to_set()),
            level,
            m,
            pending.remove(id),
        ) by {
            lemma_cut_bounded(g, id, level, kept@.to_set(), m, pending);
        }
    }
    txn.set_neighbors(id, level, &kept);
}

/// Whether `after` is `before` with the neighbours of each of `ids` at
/// `level` cut down to `m` in turn: see [`pruned`].
pub open spec fn pruned_in_turn<P: Fn(u128, u128) -> u64>(
    before: Graph,
    after: Graph,
    ids: Seq<u128>,
    level: usize,
    m: usize,
    between: P,
) -> bool
    decreases ids.len(),
{
    if ids.len() == 0 {
        after == before
    } else {
        exists|mid: Graph|
            pruned_in_turn(before, mid, ids.drop_last(), level, m, between) && #[trigger] pruned(
                mid,
                after,
                ids.last(),
                level,
                m,
                between,
            )
    }
}

/// Whether `after` is `before` with vector `id` wired in at `level`: the
/// level is searched from `entry` with width `ef`, by distances to the
/// new vector; the `m` most preferred candidates become the neighbours
/// of `id`, each of them taking `id` in turn; and each of them is then
/// cut down to its `m` nearest. `next` is where the level below starts:
/// at what the search found, or at `entry` if it found nothing.
pub open spec fn level_wired<D: Fn(u128) -> u64, P: Fn(u128, u128) -> u64>(
    before: Graph,
    after: Graph,
    id: u128,
    level: usize,
    entry: Seq<u128>,
    next: Seq<u128>,
    m: usize,
    ef: usize,
    distance: D,
    between: P,
) -> bool {
    exists|found: Seq<Scored>|
        {
            let chosen = ids_of(first_k(found, m));
            &&& #[trigger] level_searched(found, before, level, entry, ef, distance)
            &&& pruned_in_turn(
                with_neighbors(before, id, level, chosen.to_set()),
                after,
                chosen,
                level,
                m,
                between,
            )
            &&& next == if found.len() > 0 {
                ids_of(found)
            } else {
                entry
            }
        }
}

/// Whether `after` is `before` with vector `id` wired in at the levels
/// from `top` down to `lowest`, one after the other, the first from
/// `entry` and each of the others from where the level above led; `next`
/// is where the level below `lowest` would start. See [`level_wired`].
pub open spec fn wired_down<D: Fn(u128) -> u64, P: Fn(u128, u128) -> u64>(
    before: Graph,
    after: Graph,
    id: u128,
    top: usize,
    lowest: int,
    entry: Seq<u128>,
    next: Seq<u128>,
    m: usize,
    ef: usize,
    distance: D,
    between: P,
) -> bool
    decreases top - lowest + 1,
{
    if lowest > top || lowest < 0 {
        after == before && next == entry
    } else {
        exists|mid: Graph, mid_entry: Seq<u128>|
            wired_down(before, mid, id, top, lowest + 1, entry, mid_entry, m, ef, distance, between)
                && #[trigger] level_wired(
                mid,
                after,
                id,
                lowest as usize,
                mid_entry,
                next,
                m,
                ef,
                distance,
                between,
            )
    }
}

/// The highest level that a vector with top level `top_level` shares
/// with an index whose entry point is at `entry_level`.
pub open spec fn shared_level(top_level: usize, entry_level: usize) -> usize {
    if top_level <= entry_level {
        top_level
    } else {
        entry_level
    }
}

/// Whether `after` is `before` with vector `id` wired in by way of vector
/// `from`: the descent from the entry point `start` to the highest shared
/// level can arrive at `from`, and the vector is wired in from that level
/// down to level 0, starting from `from`; `next` is what the search of
/// level 0 led to. See [`descends`] and [`wired_down`].
pub open spec fn inserted_by_way_of<D: Fn(u128) -> u64, P: Fn(u128, u128) -> u64>(
    before: Graph,
    after: Graph,
    start: EntryPoint,
    id: u128,
    top_level: usize,
    from: u128,
    next: Seq<u128>,
    m: usize,
    ef: usize,
    distance: D,
    between: P,
) -> bool {
    let shared = shared_level(top_level, start.level);
    &&& descends(before, start.level, start.id, shared, from, distance)
    &&& wired_down(before, after, id, shared, 0, seq![from], next, m, ef, distance, between)
}

/// What an insert of a vector `id` with top level `top_level` does to
/// the neighbours: nothing if the index was empty; else the search
/// descends from the entry point to the highest level that the vector
/// shares with the index, and the vector is wired in from that level
/// down to level 0. See [`inserted_by_way_of`].
pub open spec fn inserted<D: Fn(u128) -> u64, P: Fn(u128, u128) -> u64>(
    before: Graph,
    after: Graph,
    entry_point: Option<EntryPoint>,
    id: u128,
    top_level: usize,
    m: usize,
    ef: usize,
    distance: D,
    between: P,
) -> bool {
    match entry_point {
        None => after == before,
        Some(start) => exists|from: u128, next: Seq<u128>| #[trigger]
            inserted_by_way_of(
                before,
                after,
                start,
                id,
                top_level,
                from,
                next,
                m,
                ef,
                distance,
                between,
            ),
    }
}

/// Wires vector `id` in at `level`, searching from `entry`, and returns
/// where the level below is to start: see [`level_wired`].
fn wire_level<D: Fn(u128) -> u64, P: Fn(u128, u128) -> u64>(
    txn: &mut VecTxn,
    id: u128,
    level: usize,
    entry: &Vec<u128>,
    m: usize,
    ef: usize,
    distance: &D,
    between: &P,
) -> (next: Vec<u128>)
    requires
        forall|id: u128| call_requires(*distance, (id,)),
        forall|a: u128, b: u128| call_requires(*between, (a, b)),
    ensures
        level_wired(
            old(txn)@.neighbors,
            final(txn)@.neighbors,
            id,
            level,
            entry@,
            next@,
            m,
            ef,
            *distance,
            *between,
        ),
        final(txn)@.vectors == old(txn)@.vectors,
        final(txn)@.is_preloaded == old(txn)@.is_preloaded,
        symmetric(old(txn)@.neighbors) ==> symmetric(final(txn)@.neighbors),
        same_elsewhere(old(txn)@.neighbors, final(txn)@.neighbors, level),
        bounded(old(txn)@.neighbors, level, m) ==> bounded(final(txn)@.neighbors, level, m),
{
    let ghost before = txn@.neighbors;
    let found: Vec<Scored> = search_level(txn, level, entry, ef, distance);
    let chosen: Vec<u128> = nearest_ids(&found, m);
    let ghost linked = with_neighbors(before, id, level, chosen@.to_set());
    proof {
        assert(chosen@ =~= ids_of(first_k(found@, m))) by {
            if m > found@.len() {
                assert(found@.take(found@.len() as int) =~= found@);
            }
        }
        if symmetric(before) {
            lemma_with_neighbors_symmetric(before, id, level, chosen@.to_set());
        }
        lemma_with_neighbors_elsewhere(before, id, level, chosen@.to_set());
        seq_to_set_is_finite(chosen@);
        chosen@.lemma_cardinality_of_set();
        if bounded(before, level, m) {
            lemma_with_neighbors_bounded(before, id, level, chosen@.to_set(), m);
        }
    }
    txn.set_neighbors(id, level, &chosen);
    let mut j: usize = 0;
    proof {
        assert(chosen@.subrange(0, chosen@.len() as int) =~= chosen@);
        assert(chosen@.take(0).len() == 0);
    }
    while j < chosen.len()
        invariant
            j <= chosen@.len(),
            forall|a: u128, b: u128| call_requires(*between, (a, b)),
            txn@.vectors == old(txn)@.vectors,
            txn@.is_preloaded == old(txn)@.is_preloaded,
            symmetric(before) ==> symmetric(txn@.neighbors),
            same_elsewhere(before, txn@.neighbors, level),
            pruned_in_turn(linked, txn@.neighbors, chosen@.take(j as int), level, m, *between),
            bounded(before, level, m) ==> bounded_but(
                txn@.neighbors,
                level,
                m,
                chosen@.subrange(j as int, chosen@.len() as int).to_set(),
            ),
        decreases chosen@.len() - j,
    {
        let ghost pending = chosen@.subrange(j as int, chosen@.len() as int).to_set();
        let ghost later = chosen@.subrange(j + 1, chosen@.len() as int).to_set();
        let ghost mid = txn@.neighbors;
        prune(txn, chosen[j], level, m, between);
        proof {
            assert(chosen@.take(j + 1).drop_last() =~= chosen@.take(j as int));
            assert(chosen@.take(j + 1).last() == chosen@[j as int]);
            assert(pruned(mid, txn@.neighbors, chosen@.take(j + 1).last(), level, m, *between));
            if bounded(before, level, m) {
                assert(bounded_but(txn@.neighbors, level, m, pending.remove(chosen@[j as int])));
                assert forall|x: u128| pending.remove(chosen@[j as int]).contains(
                    x,
                ) implies later.contains(x) by {
                    let k = choose|k: int|
                        0 <= k < chosen@.len() - j && chosen@.subrange(
                            j as int,
                            chosen@.len() as int,
                        )[k] == x;
                    assert(chosen@.subrange(j + 1, chosen@.len() as int)[k - 1] == x);
                }
            }
        }
        j = j + 1;
    }
    proof {
        assert(chosen@.take(chosen@.len() as int) =~= chosen@);
        assert(chosen@.subrange(chosen@.len() as int, chosen@.len() as int).to_set()
            =~= Set::<u128>::empty());
    }
    if found.len() > 0 {
        let next: Vec<u128> = nearest_ids(&found, found.len());
        proof {
            assert(found@.take(found@.len() as int) =~= found@);
        }
        next
    } else {
        let mut next: Vec<u128> = Vec::new();
        let mut i: usize = 0;
        while i < entry.len()
            invariant
                i <= entry@.len(),
                next@ == entry@.take(i as int),
            decreases entry@.len() - i,
        {
            next.push(entry[i]);
            proof {
                assert(entry@.take(i + 1) =~= entry@.take(i as int).push(entry@[i as int]));
            }
            i = i + 1;
        }
        proof {
            assert(entry@.take(entry@.len() as int) =~= entry@);
        }
        next
    }
}

/// Inserts `vector` into the cached index with `top_level` as its
/// highest level and returns the entry point to use from now on.
///
/// If the copy of the entry vector that the cache holds is of another
/// dimension than `vector`, the insert fails and the cache stays as it
/// is. Otherwise a copy of the vector is filed at every level up to
/// `top_level`. If
/// the index is empty, that is all. Otherwise the vector is wired in at
/// every level that it shares with the entry point, from the top down:
/// the level is searched with width `ef_construction`, starting from what
/// the level above led to; the vector takes the `m` nearest candidates
/// as neighbours, each of which takes it in turn; and each of these
/// neighbours is cut down to its `m` nearest if it now has more.
///
/// `distance` gives the distance of a stored vector to the new one,
/// `between` the distance between two stored vectors.
pub fn insert<D: Fn(u128) -> u64, P: Fn(u128, u128) -> u64>(
    txn: &mut VecTxn,
    entry_point: Option<EntryPoint>,
    vector: &HVector,
    top_level: usize,
    m: usize,
    ef_construction: usize,
    distance: &D,
    between: &P,
) -> (entry: Result<EntryPoint, VectorError>)
    requires
        forall|id: u128| call_requires(*distance, (id,)),
        forall|a: u128, b: u128| call_requires(*between, (a, b)),
    ensures
        entry is Err <==> dimension_differs(old(txn)@.vectors, entry_point, vector@.data.len()),
        entry matches Err(error) ==> error == VectorError::InvalidVectorLength && final(txn)@ == old(
            txn,
        )@,
        entry matches Ok(point) ==> {
            &&& point == entry_after(entry_point, vector@.id, top_level)
            &&& final(txn)@.vectors == with_copies(old(txn)@.vectors, vector@, top_level)
            &&& inserted(
                old(txn)@.neighbors,
                final(txn)@.neighbors,
                entry_point,
                vector@.id,
                top_level,
                m,
                ef_construction,
                *distance,
                *between,
            )
        },
        final(txn)@.is_preloaded == old(txn)@.is_preloaded,
        well_keyed(old(txn)@.vectors) ==> well_keyed(final(txn)@.vectors),
        symmetric(old(txn)@.neighbors) ==> symmetric(final(txn)@.neighbors),
        entry_point matches Some(start) ==> same_above(
            old(txn)@.neighbors,
            final(txn)@.neighbors,
            start.level,
        ),
        forall|l: usize| #[trigger]
            bounded(old(txn)@.neighbors, l, m) ==> bounded(final(txn)@.neighbors, l, m),
{
    let id: u128 = vector.id;
    let ghost before = txn@.neighbors;
    match check_dimension(txn, entry_point, vector.len()) {
        Ok(_) => {},
        Err(error) => {
            return Err(error);
        },
    }
    txn.vec_txn_put_vector(vector, top_level);
    let start: EntryPoint = match entry_point {
        Some(start) => start,
        None => {
            return Ok(EntryPoint { id, level: top_level });
        },
    };
    let shared: usize = if top_level <= start.level {
        top_level
    } else {
        start.level
    };
    let from: u128 = descend(txn, start.level, start.id, shared, distance);
    let mut entry: Vec<u128> = Vec::new();
    entry.push(from);
    proof {
        assert(entry@ =~= seq![from]);
    }
    let mut level: usize = shared;
    let mut wired: bool = false;
    let ghost mut lowest: int = shared + 1;
    while !wired
        invariant
            forall|id: u128| call_requires(*distance, (id,)),
            forall|a: u128, b: u128| call_requires(*between, (a, b)),
            level <= shared <= start.level,
            !wired ==> lowest == level + 1,
            wired ==> lowest == 0,
            txn@.vectors == with_copies(old(txn)@.vectors, vector@, top_level),
            txn@.is_preloaded == old(txn)@.is_preloaded,
            wired_down(
                before,
                txn@.neighbors,
                id,
                shared,
                lowest,
                seq![from],
                entry@,
                m,
                ef_construction,
                *distance,
                *between,
            ),
            symmetric(before) ==> symmetric(txn@.neighbors),
            same_above(before, txn@.neighbors, start.level),
            forall|l: usize| #[trigger] bounded(before, l, m) ==> bounded(txn@.neighbors, l, m),
        decreases lowest,
    {
        let ghost mid = txn@.neighbors;
        let ghost mid_entry = entry@;
        let next: Vec<u128> = wire_level(
            txn,
            id,
            level,
            &entry,
            m,
            ef_construction,
            distance,
            between,
        );
        proof {
            assert(level_wired(
                mid,
                txn@.neighbors,
                id,
                level,
                mid_entry,
                next@,
                m,
                ef_construction,
                *distance,
                *between,
            ));
            let here: int = level as int;
            assert(wired_down(
                before,
                mid,
                id,
                shared,
                here + 1,
                seq![from],
                mid_entry,
                m,
                ef_construction,
                *distance,
                *between,
            ));
            assert(level_wired(
                mid,
                txn@.neighbors,
                id,
                here as usize,
                mid_entry,
                next@,
                m,
                ef_construction,
                *distance,
                *between,
            ));
            assert(wired_down(
                before,
                txn@.neighbors,
                id,
                shared,
                here,
                seq![from],
                next@,
                m,
                ef_construction,
                *distance,
                *between,
            ));
            assert forall|l: usize| #[trigger] bounded(before, l, m) implies bounded(
                txn@.neighbors,
                l,
                m,
            ) by {
                assert(bounded(mid, l, m));
            }
            lowest = level as int;
        }
        entry = next;
        if level == 0 {
            wired = true;
        } else {
            level = level - 1;
        }
    }
    proof {
        assert(descends(before, start.level, start.id, shared, from, *distance));
        assert(wired_down(
            before,
            txn@.neighbors,
            id,
            shared,
            0,
            seq![from],
            entry@,
            m,
            ef_construction,
            *distance,
            *between,
        ));
        assert(inserted_by_way_of(
            before,
            txn@.neighbors,
            start,
            id,
            top_level,
            from,
            entry@,
            m,
            ef_construction,
            *distance,
            *between,
        ));
    }
    if top_level > start.level {
        Ok(EntryPoint { id, level: top_level })
    } else {
        Ok(start)
    }
}

} // verus!
