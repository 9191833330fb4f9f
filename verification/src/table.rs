//! The two-level tables that back the cache, and what they hold.
//!
//! A table maps a level to the entries of that level, by identifier. The
//! standard hash tables are specified for integer keys, so the pair
//! (identifier, level) is looked up in two steps.

use vstd::prelude::*;
use vstd::std_specs::hash::group_hash_axioms;
use vstd::std_specs::iter::IteratorSpec;
use std::collections::{HashMap, HashSet};
use crate::adjacency::{has_edge, neighbors_of, Graph};
use crate::order::{lemma_to_set_push, Arc3, Entry};
use crate::vector::{HVector, HVectorView};

verus! {

/// The neighbour sets that a two-level table holds.
pub open spec fn graph_of(cache: Map<usize, HashMap<u128, HashSet<u128>>>) -> Graph {
    Map::new(
        |k: (u128, usize)| cache.contains_key(k.1) && cache[k.1]@.contains_key(k.0),
        |k: (u128, usize)| cache[k.1]@[k.0]@,
    )
}

/// The vector copies that a two-level table holds.
pub open spec fn vectors_of(cache: Map<usize, HashMap<u128, HVector>>) -> Map<
    (u128, usize),
    HVectorView,
> {
    Map::new(
        |k: (u128, usize)| cache.contains_key(k.1) && cache[k.1]@.contains_key(k.0),
        |k: (u128, usize)| cache[k.1]@[k.0]@,
    )
}

/// The neighbour sets of one level.
pub(crate) open spec fn level_graph(at_level: Map<u128, HashSet<u128>>) -> Map<u128, Set<u128>> {
    Map::new(|x: u128| at_level.contains_key(x), |x: u128| at_level[x]@)
}

/// `l` after `id` was taken out of the sets of `targets`.
pub(crate) open spec fn stripped(l: Map<u128, Set<u128>>, id: u128, targets: Set<u128>) -> Map<u128, Set<u128>> {
    Map::new(
        |x: u128| l.contains_key(x),
        |x: u128|
            if targets.contains(x) {
                l[x].remove(id)
            } else {
                l[x]
            },
    )
}

/// `l` after `id` was put into the sets of `targets`, missing sets being
/// created.
pub(crate) open spec fn linked(l: Map<u128, Set<u128>>, id: u128, targets: Set<u128>) -> Map<u128, Set<u128>> {
    Map::new(
        |x: u128| l.contains_key(x) || targets.contains(x),
        |x: u128|
            if targets.contains(x) {
                (if l.contains_key(x) {
                    l[x]
                } else {
                    Set::empty()
                }).insert(id)
            } else {
                l[x]
            },
    )
}

/// Takes `id` out of the set of `neighbor`, if `neighbor` has one.
fn unlink(at_level: &mut HashMap<u128, HashSet<u128>>, neighbor: u128, id: u128)
    ensures
        level_graph(final(at_level)@) == stripped(level_graph(old(at_level)@), id, set![neighbor]),
{
    broadcast use group_hash_axioms;

    match at_level.remove(&neighbor) {
        Some(mut set) => {
            set.remove(&id);
            at_level.insert(neighbor, set);
        },
        None => {},
    }
    proof {
        assert(level_graph(at_level@) =~~= stripped(level_graph(old(at_level)@), id, set![neighbor]));
    }
}

/// Puts `id` into the set of `neighbor`, which is created if it is
/// missing.
fn link(at_level: &mut HashMap<u128, HashSet<u128>>, neighbor: u128, id: u128)
    ensures
        level_graph(final(at_level)@) == linked(level_graph(old(at_level)@), id, set![neighbor]),
{
    broadcast use group_hash_axioms;

    let mut set: HashSet<u128> = match at_level.remove(&neighbor) {
        Some(set) => set,
        None => HashSet::new(),
    };
    set.insert(id);
    at_level.insert(neighbor, set);
    proof {
        assert(level_graph(at_level@) =~~= linked(level_graph(old(at_level)@), id, set![neighbor]));
    }
}

/// Takes `id` out of the sets of the vectors of `from` that are not in
/// `except`.
pub(crate) fn unlink_all(
    at_level: &mut HashMap<u128, HashSet<u128>>,
    id: u128,
    from: &Vec<u128>,
    except: &HashSet<u128>,
)
    ensures
        level_graph(final(at_level)@) == stripped(
            level_graph(old(at_level)@),
            id,
            from@.to_set().difference(except@),
        ),
{
    broadcast use group_hash_axioms;

    let ghost start = level_graph(at_level@);
    let mut i: usize = 0;
    proof {
        assert(level_graph(at_level@) =~~= stripped(
            start,
            id,
            from@.subrange(0, 0).to_set().difference(except@),
        ));
    }
    while i < from.len()
        invariant
            i <= from@.len(),
            level_graph(at_level@) == stripped(
                start,
                id,
                from@.subrange(0, i as int).to_set().difference(except@),
            ),
        decreases from@.len() - i,
    {
        let neighbor: u128 = from[i];
        let ghost done = from@.subrange(0, i as int).to_set().difference(except@);
        proof {
            assert(from@.subrange(0, i + 1) =~= from@.subrange(0, i as int).push(neighbor));
            lemma_to_set_push(from@.subrange(0, i as int), neighbor);
        }
        if !except.contains(&neighbor) {
            unlink(at_level, neighbor, id);
            proof {
                assert(stripped(stripped(start, id, done), id, set![neighbor]) =~~= stripped(
                    start,
                    id,
                    done.insert(neighbor),
                ));
                assert(from@.subrange(0, i + 1).to_set().difference(except@) =~= done.insert(
                    neighbor,
                ));
            }
        } else {
            proof {
                assert(from@.subrange(0, i + 1).to_set().difference(except@) =~= done);
            }
        }
        i = i + 1;
    }
    proof {
        assert(from@.subrange(0, from@.len() as int) =~= from@);
    }
}

/// Puts `id` into the sets of the vectors of `to` that are not in
/// `except`, creating the sets that are missing.
pub(crate) fn link_all(
    at_level: &mut HashMap<u128, HashSet<u128>>,
    id: u128,
    to: &Vec<u128>,
    except: &HashSet<u128>,
)
    ensures
        level_graph(final(at_level)@) == linked(
            level_graph(old(at_level)@),
            id,
            to@.to_set().difference(except@),
        ),
{
    broadcast use group_hash_axioms;

    let ghost start = level_graph(at_level@);
    let mut i: usize = 0;
    proof {
        assert(level_graph(at_level@) =~~= linked(
            start,
            id,
            to@.subrange(0, 0).to_set().difference(except@),
        ));
    }
    while i < to.len()
        invariant
            i <= to@.len(),
            level_graph(at_level@) == linked(
                start,
                id,
                to@.subrange(0, i as int).to_set().difference(except@),
            ),
        decreases to@.len() - i,
    {
        let neighbor: u128 = to[i];
        let ghost done = to@.subrange(0, i as int).to_set().difference(except@);
        proof {
            assert(to@.subrange(0, i + 1) =~= to@.subrange(0, i as int).push(neighbor));
            lemma_to_set_push(to@.subrange(0, i as int), neighbor);
        }
        if !except.contains(&neighbor) {
            link(at_level, neighbor, id);
            proof {
                assert(linked(linked(start, id, done), id, set![neighbor]) =~~= linked(
                    start,
                    id,
                    done.insert(neighbor),
                ));
                assert(to@.subrange(0, i + 1).to_set().difference(except@) =~= done.insert(
                    neighbor,
                ));
            }
        } else {
            proof {
                assert(to@.subrange(0, i + 1).to_set().difference(except@) =~= done);
            }
        }
        i = i + 1;
    }
    proof {
        assert(to@.subrange(0, to@.len() as int) =~= to@);
    }
}

/// The identifiers of `ids` as a set, without their order and repeats.
pub(crate) fn to_id_set(ids: &Vec<u128>) -> (set: HashSet<u128>)
    ensures
        set@ == ids@.to_set(),
{
    broadcast use group_hash_axioms;

    let mut set: HashSet<u128> = HashSet::new();
    let mut i: usize = 0;
    while i < ids.len()
        invariant
            i <= ids@.len(),
            set@ == ids@.subrange(0, i as int).to_set(),
        decreases ids@.len() - i,
    {
        proof {
            let before = ids@.subrange(0, i as int);
            assert(ids@.subrange(0, i + 1) =~= before.push(ids@[i as int]));
            lemma_to_set_push(before, ids@[i as int]);
        }
        set.insert(ids[i]);
        i = i + 1;
    }
    proof {
        assert(ids@.subrange(0, ids@.len() as int) =~= ids@);
    }
    set
}

/// The members of `set` in the order in which the table hands them out.
pub(crate) fn to_id_list(set: &HashSet<u128>) -> (ids: Vec<u128>)
    ensures
        ids@.to_set() == set@,
        ids@.no_duplicates(),
        ids@.len() == set@.len(),
{
    broadcast use group_hash_axioms;

    let mut ids: Vec<u128> = Vec::new();
    let ghost all: Seq<u128> = set.iter().remaining().unref();
    for id in it: set.iter()
        invariant
            it.seq().unref() == all,
            ids@ == all.take(it.index()),
    {
        ids.push(*id);
    }
    proof {
        assert(ids@ == all);
        assert forall|i: int, j: int| 0 <= i < all.len() && 0 <= j < all.len() && i != j implies all[i]
            != all[j] by {
            assert(set.iter().remaining()[i] != set.iter().remaining()[j]);
        }
    }
    ids
}


/// The levels of `table`, each once.
pub(crate) fn levels_of<V>(table: &HashMap<usize, V>) -> (levels: Vec<usize>)
    ensures
        levels@.to_set() == table@.dom(),
        levels@.no_duplicates(),
{
    broadcast use group_hash_axioms;

    let mut levels: Vec<usize> = Vec::new();
    let ghost all: Seq<usize> = table.keys().remaining().unref();
    for level in it: table.keys()
        invariant
            it.seq().unref() == all,
            levels@ == all.take(it.index()),
    {
        levels.push(*level);
    }
    proof {
        assert(levels@ == all);
        assert forall|i: int, j: int| 0 <= i < all.len() && 0 <= j < all.len() && i != j implies all[i]
            != all[j] by {
            assert(table.keys().remaining()[i] != table.keys().remaining()[j]);
        }
    }
    levels
}

/// The identifiers of `at_level`, each once.
pub(crate) fn ids_of<V>(at_level: &HashMap<u128, V>) -> (ids: Vec<u128>)
    ensures
        ids@.to_set() == at_level@.dom(),
        ids@.no_duplicates(),
{
    broadcast use group_hash_axioms;

    let mut ids: Vec<u128> = Vec::new();
    let ghost all: Seq<u128> = at_level.keys().remaining().unref();
    for id in it: at_level.keys()
        invariant
            it.seq().unref() == all,
            ids@ == all.take(it.index()),
    {
        ids.push(*id);
    }
    proof {
        assert(ids@ == all);
        assert forall|i: int, j: int| 0 <= i < all.len() && 0 <= j < all.len() && i != j implies all[i]
            != all[j] by {
            assert(at_level.keys().remaining()[i] != at_level.keys().remaining()[j]);
        }
    }
    ids
}

/// Whether `table` holds an entry for `e`.
pub open spec fn holds<V>(table: Map<usize, HashMap<u128, V>>, e: Entry) -> bool {
    table.contains_key(e.1) && table[e.1]@.contains_key(e.0)
}

/// The entries of `table`, each once, in the order in which the hash
/// tables hand them out.
pub(crate) fn entries_of<V>(table: &HashMap<usize, HashMap<u128, V>>) -> (entries: Vec<Entry>)
    ensures
        entries@.no_duplicates(),
        forall|e: Entry| entries@.contains(e) <==> holds(table@, e),
{
    broadcast use group_hash_axioms;

    let levels: Vec<usize> = levels_of(table);
    let mut entries: Vec<Entry> = Vec::new();
    let mut i: usize = 0;
    while i < levels.len()
        invariant
            i <= levels@.len(),
            levels@.to_set() == table@.dom(),
            levels@.no_duplicates(),
            entries@.no_duplicates(),
            forall|e: Entry|
                entries@.contains(e) <==> holds(table@, e) && levels@.subrange(0, i as int).contains(
                    e.1,
                ),
        decreases levels@.len() - i,
    {
        let level: usize = levels[i];
        let ghost before = entries@;
        let ghost done = levels@.subrange(0, i as int);
        proof {
            assert(levels@.to_set().contains(level));
            assert(!done.contains(level)) by {
                if done.contains(level) {
                    let at = choose|at: int| 0 <= at < done.len() && done[at] == level;
                    assert(levels@[at] == levels@[i as int]);
                }
            }
        }
        match table.get(&level) {
            Some(at_level) => {
                let ids: Vec<u128> = ids_of(at_level);
                let mut j: usize = 0;
                while j < ids.len()
                    invariant
                        j <= ids@.len(),
                        ids@.no_duplicates(),
                        entries@.no_duplicates(),
                        forall|e: Entry| #[trigger] before.contains(e) ==> e.1 != level,
                        forall|e: Entry|
                            entries@.contains(e) <==> before.contains(e) || (e.1 == level
                                && ids@.subrange(0, j as int).contains(e.0)),
                    decreases ids@.len() - j,
                {
                    let id: u128 = ids[j];
                    proof {
                        let seen = ids@.subrange(0, j as int);
                        let grown = entries@.push((id, level));
                        assert(ids@.subrange(0, j + 1) =~= seen.push(id));
                        assert(!seen.contains(id)) by {
                            if seen.contains(id) {
                                let at = choose|at: int| 0 <= at < seen.len() && seen[at] == id;
                                assert(ids@[at] == ids@[j as int]);
                            }
                        }
                        assert(!entries@.contains((id, level))) by {
                            let e: Entry = (id, level);
                            if before.contains(e) {
                                assert(e.1 != level);
                            }
                            assert(!(e.1 == level && seen.contains(e.0)));
                        }
                        assert(grown.no_duplicates()) by {
                            assert forall|a: int, b: int|
                                0 <= a < grown.len() && 0 <= b < grown.len() && a
                                    != b implies grown[a] != grown[b] by {
                                if a == entries@.len() {
                                    assert(entries@.contains(grown[b]));
                                } else if b == entries@.len() {
                                    assert(entries@.contains(grown[a]));
                                }
                            }
                        }
                        assert forall|e: Entry|
                            grown.contains(e) <==> before.contains(e) || (e.1 == level
                                && seen.push(id).contains(e.0)) by {
                            if grown.contains(e) {
                                let at = choose|at: int| 0 <= at < grown.len() && grown[at] == e;
                                if at < entries@.len() {
                                    assert(entries@.contains(e));
                                    if !before.contains(e) {
                                        let k = choose|k: int|
                                            0 <= k < seen.len() && seen[k] == e.0;
                                        assert(seen.push(id)[k] == e.0);
                                    }
                                } else {
                                    assert(seen.push(id)[seen.len() as int] == id);
                                }
                            }
                            if before.contains(e) {
                                assert(entries@.contains(e));
                                let at = choose|at: int|
                                    0 <= at < entries@.len() && entries@[at] == e;
                                assert(grown[at] == e);
                            }
                            if e.1 == level && seen.push(id).contains(e.0) {
                                let k = choose|k: int|
                                    0 <= k < seen.push(id).len() && seen.push(id)[k] == e.0;
                                if k < seen.len() {
                                    assert(seen.contains(e.0));
                                    assert(entries@.contains(e));
                                    let at = choose|at: int|
                                        0 <= at < entries@.len() && entries@[at] == e;
                                    assert(grown[at] == e);
                                } else {
                                    assert(grown[entries@.len() as int] == e);
                                }
                            }
                        }
                    }
                    entries.push((id, level));
                    j = j + 1;
                }
                proof {
                    assert(ids@.subrange(0, ids@.len() as int) =~= ids@);
                    assert(levels@.subrange(0, i + 1) =~= done.push(level));
                    assert forall|e: Entry|
                        entries@.contains(e) <==> holds(table@, e) && done.push(level).contains(
                            e.1,
                        ) by {
                        if e.1 == level {
                            assert(done.push(level)[done.len() as int] == level);
                            assert(ids@.contains(e.0) <==> ids@.to_set().contains(e.0));
                            assert(holds(table@, e) <==> at_level@.contains_key(e.0));
                            assert(!before.contains(e)) by {
                                if before.contains(e) {
                                    assert(e.1 != level);
                                }
                            }
                        } else {
                            assert(entries@.contains(e) <==> before.contains(e));
                            assert(before.contains(e) <==> holds(table@, e) && done.contains(e.1));
                            if done.push(level).contains(e.1) {
                                let k = choose|k: int|
                                    0 <= k < done.push(level).len() && done.push(level)[k] == e.1;
                                assert(done[k] == e.1);
                            }
                            if done.contains(e.1) {
                                let k = choose|k: int| 0 <= k < done.len() && done[k] == e.1;
                                assert(done.push(level)[k] == e.1);
                            }
                        }
                    }
                }
            },
            None => {
                proof {
                    assert(table@.dom().contains(level));
                }
            },
        }
        i = i + 1;
    }
    proof {
        assert(levels@.subrange(0, levels@.len() as int) =~= levels@);
        assert forall|e: Entry| holds(table@, e) implies levels@.contains(e.1) by {
            assert(levels@.to_set().contains(e.1));
        }
    }
    entries
}

/// The adjacency entries that `id` at `level` gives rise to when it lists
/// `listed`: one in each direction for every neighbour but `id` itself.
pub open spec fn arcs_at(id: u128, level: usize, listed: Set<u128>) -> Set<Arc3> {
    Set::new(
        |a: Arc3|
            a.1 == level && a.0 != a.2 && ((a.0 == id && listed.contains(a.2)) || (a.2 == id
                && listed.contains(a.0))),
    )
}

/// The adjacency entries that the cache entries `entries` of `g` give rise
/// to.
pub open spec fn directed_arcs(g: Graph, entries: Set<Entry>) -> Set<Arc3> {
    Set::new(
        |a: Arc3|
            a.0 != a.2 && ((entries.contains((a.0, a.1)) && has_edge(g, a.0, a.1, a.2)) || (
            entries.contains((a.2, a.1)) && has_edge(g, a.2, a.1, a.0))),
    )
}

/// Lists the adjacency entries of the cache entries `chunk`, repeats
/// included.
pub(crate) fn arcs_of(cache: &HashMap<usize, HashMap<u128, HashSet<u128>>>, chunk: &Vec<Entry>) -> (arcs:
    Vec<Arc3>)
    ensures
        arcs@.to_set() == directed_arcs(graph_of(cache@), chunk@.to_set()),
{
    broadcast use group_hash_axioms;

    let ghost g = graph_of(cache@);
    let mut arcs: Vec<Arc3> = Vec::new();
    let mut i: usize = 0;
    proof {
        assert(arcs@.to_set() =~= directed_arcs(g, chunk@.subrange(0, 0).to_set()));
    }
    while i < chunk.len()
        invariant
            i <= chunk@.len(),
            g == graph_of(cache@),
            arcs@.to_set() == directed_arcs(g, chunk@.subrange(0, i as int).to_set()),
        decreases chunk@.len() - i,
    {
        let id: u128 = chunk[i].0;
        let level: usize = chunk[i].1;
        let ghost done = chunk@.subrange(0, i as int).to_set();
        let ghost base = arcs@.to_set();
        proof {
            assert(chunk@.subrange(0, i + 1) =~= chunk@.subrange(0, i as int).push((id, level)));
            lemma_to_set_push(chunk@.subrange(0, i as int), (id, level));
            assert(directed_arcs(g, done.insert((id, level))) =~= directed_arcs(g, done).union(
                arcs_at(id, level, neighbors_of(g, id, level)),
            ));
        }
        let listed: Vec<u128> = match cache.get(&level) {
            Some(at_level) => match at_level.get(&id) {
                Some(set) => to_id_list(set),
                None => Vec::new(),
            },
            None => Vec::new(),
        };
        assert(listed@.to_set() =~= neighbors_of(g, id, level));
        let mut j: usize = 0;
        proof {
            assert(arcs_at(id, level, listed@.subrange(0, 0).to_set()) =~= Set::<Arc3>::empty());
            assert(arcs@.to_set() =~= base.union(Set::<Arc3>::empty()));
        }
        while j < listed.len()
            invariant
                j <= listed@.len(),
                arcs@.to_set() == base.union(
                    arcs_at(id, level, listed@.subrange(0, j as int).to_set()),
                ),
            decreases listed@.len() - j,
        {
            let neighbor: u128 = listed[j];
            let ghost seen = listed@.subrange(0, j as int);
            proof {
                assert(listed@.subrange(0, j + 1) =~= seen.push(neighbor));
                lemma_to_set_push(seen, neighbor);
            }
            if neighbor != id {
                proof {
                    let one = arcs@.push((id, level, neighbor));
                    lemma_to_set_push(arcs@, (id, level, neighbor));
                    lemma_to_set_push(one, (neighbor, level, id));
                    assert(arcs_at(id, level, seen.to_set().insert(neighbor)) =~= arcs_at(
                        id,
                        level,
                        seen.to_set(),
                    ).insert((id, level, neighbor)).insert((neighbor, level, id)));
                    assert(one.push((neighbor, level, id)).to_set() =~= base.union(
                        arcs_at(id, level, seen.to_set().insert(neighbor)),
                    ));
                }
                arcs.push((id, level, neighbor));
                arcs.push((neighbor, level, id));
            } else {
                proof {
                    assert(arcs_at(id, level, seen.to_set().insert(neighbor)) =~= arcs_at(
                        id,
                        level,
                        seen.to_set(),
                    ));
                }
            }
            j = j + 1;
        }
        proof {
            assert(listed@.subrange(0, listed@.len() as int) =~= listed@);
        }
        i = i + 1;
    }
    proof {
        assert(chunk@.subrange(0, chunk@.len() as int) =~= chunk@);
    }
    arcs
}

/// Stores `vector` under its own identifier and level, replacing what
/// was there.
pub(crate) fn put_vector(table: &mut HashMap<usize, HashMap<u128, HVector>>, vector: HVector)
    ensures
        vectors_of(final(table)@) == vectors_of(old(table)@).insert(
            (vector@.id, vector@.level),
            vector@,
        ),
{
    broadcast use group_hash_axioms;

    let level: usize = vector.level;
    let mut at_level: HashMap<u128, HVector> = match table.remove(&level) {
        Some(at_level) => at_level,
        None => HashMap::new(),
    };
    at_level.insert(vector.id, vector);
    table.insert(level, at_level);
    proof {
        assert(vectors_of(final(table)@) =~= vectors_of(old(table)@).insert(
            (vector@.id, vector@.level),
            vector@,
        ));
    }
}

/// Adds `sink` to the neighbours of `source` at `level`, starting from
/// none if there is no entry yet.
pub(crate) fn add_neighbor(
    cache: &mut HashMap<usize, HashMap<u128, HashSet<u128>>>,
    source: u128,
    level: usize,
    sink: u128,
)
    ensures
        graph_of(final(cache)@) == graph_of(old(cache)@).insert(
            (source, level),
            neighbors_of(graph_of(old(cache)@), source, level).insert(sink),
        ),
{
    broadcast use group_hash_axioms;

    let mut at_level: HashMap<u128, HashSet<u128>> = match cache.remove(&level) {
        Some(at_level) => at_level,
        None => HashMap::new(),
    };
    let mut set: HashSet<u128> = match at_level.remove(&source) {
        Some(set) => set,
        None => HashSet::new(),
    };
    set.insert(sink);
    at_level.insert(source, set);
    cache.insert(level, at_level);
    proof {
        assert(graph_of(final(cache)@) =~= graph_of(old(cache)@).insert(
            (source, level),
            neighbors_of(graph_of(old(cache)@), source, level).insert(sink),
        ));
    }
}

/// Tells whether `table` holds an entry for `id` at `level`.
pub(crate) fn has_entry<V>(table: &HashMap<usize, HashMap<u128, V>>, id: u128, level: usize) -> (found:
    bool)
    ensures
        found == holds(table@, (id, level)),
{
    broadcast use group_hash_axioms;

    match table.get(&level) {
        Some(at_level) => at_level.contains_key(&id),
        None => false,
    }
}

} // verus!
