//! The adjacency of the vector index as a mathematical object.
//!
//! A graph maps a vector copy, named by identifier and level, to the set of
//! its neighbours at that level. The index wants every edge to be walkable
//! in both directions; this module says what that means, what the two
//! mutations of the neighbour cache do to a graph, and that they keep it.

use vstd::prelude::*;

verus! {

/// Neighbour sets by (identifier, level).
pub type Graph = Map<(u128, usize), Set<u128>>;

/// The neighbours that `g` holds for `id` at `level`; none if it holds no
/// entry.
pub open spec fn neighbors_of(g: Graph, id: u128, level: usize) -> Set<u128> {
    if g.contains_key((id, level)) {
        g[(id, level)]
    } else {
        Set::empty()
    }
}

/// Whether `g` holds the edge from `from` to `to` at `level`.
pub open spec fn has_edge(g: Graph, from: u128, level: usize, to: u128) -> bool {
    g.contains_key((from, level)) && g[(from, level)].contains(to)
}

/// The vectors for which `g` holds an entry at `level`.
pub open spec fn ids_at(g: Graph, level: usize) -> Set<u128> {
    Set::new(|id: u128| g.contains_key((id, level)))
}

/// Every edge has its back-edge at the same level, and no vector is its
/// own neighbour.
pub open spec fn symmetric(g: Graph) -> bool {
    forall|id: u128, level: usize, n: u128| #[trigger]
        has_edge(g, id, level, n) ==> n != id && has_edge(g, n, level, id)
}

/// The graph after the neighbours of `id` at `level` were replaced by
/// `new`.
///
/// `id` itself is dropped from `new`. A neighbour that `id` gains has `id`
/// added to its own set, which is created if it was missing; a neighbour
/// that `id` loses has `id` removed from its set, if it has one. All other
/// entries stay as they are.
pub open spec fn with_neighbors(g: Graph, id: u128, level: usize, new: Set<u128>) -> Graph {
    let kept = new.remove(id);
    let old = neighbors_of(g, id, level);
    Map::new(
        |k: (u128, usize)|
            g.contains_key(k) || (k.1 == level && (k.0 == id || (kept.contains(k.0)
                && !old.contains(k.0)))),
        |k: (u128, usize)|
            if k.1 != level {
                g[k]
            } else if k.0 == id {
                kept
            } else if kept.contains(k.0) && !old.contains(k.0) {
                neighbors_of(g, k.0, level).insert(id)
            } else if old.contains(k.0) && !kept.contains(k.0) {
                g[k].remove(id)
            } else {
                g[k]
            },
    )
}

/// The graph after `more` was added to the neighbours of `id` at `level`.
///
/// `id` itself is dropped from `more`. The entry of `id` holds what it
/// held and what is added; each vector that is added has `id` put into
/// its own set, which is created if it was missing. All other entries
/// stay as they are.
pub open spec fn with_more_neighbors(g: Graph, id: u128, level: usize, more: Set<u128>) -> Graph {
    let added = more.remove(id);
    Map::new(
        |k: (u128, usize)|
            g.contains_key(k) || (k.1 == level && (k.0 == id || added.contains(k.0))),
        |k: (u128, usize)|
            if k.1 != level {
                g[k]
            } else if k.0 == id {
                neighbors_of(g, id, level).union(added)
            } else if added.contains(k.0) {
                neighbors_of(g, k.0, level).insert(id)
            } else {
                g[k]
            },
    )
}

/// The empty graph is symmetric.
pub proof fn lemma_empty_symmetric()
    ensures
        symmetric(Map::<(u128, usize), Set<u128>>::empty()),
{
}

/// After its neighbours were replaced, `id` has exactly the new ones, less
/// itself.
pub proof fn lemma_with_neighbors_own(g: Graph, id: u128, level: usize, new: Set<u128>)
    ensures
        neighbors_of(with_neighbors(g, id, level, new), id, level) == new.remove(id),
{
}

/// Replacing the neighbours of a vector keeps a symmetric graph symmetric,
/// whatever the new neighbours are.
pub proof fn lemma_with_neighbors_symmetric(g: Graph, id: u128, level: usize, new: Set<u128>)
    requires
        symmetric(g),
    ensures
        symmetric(with_neighbors(g, id, level, new)),
{
    let after = with_neighbors(g, id, level, new);
    let kept = new.remove(id);
    let old = neighbors_of(g, id, level);
    assert forall|a: u128, l: usize, b: u128| #[trigger] has_edge(after, a, l, b) implies b != a
        && has_edge(after, b, l, a) by {
        if l != level {
            assert(has_edge(g, a, l, b));
        } else if a == id {
            // b is a kept neighbour: it either gained id or already had it.
            if old.contains(b) {
                assert(has_edge(g, id, level, b));
            }
        } else if kept.contains(a) && !old.contains(a) {
            if b != id {
                assert(has_edge(g, a, level, b));
                assert(has_edge(g, b, level, a));
                assert(!has_edge(g, a, level, id)) by {
                    if has_edge(g, a, level, id) {
                        assert(has_edge(g, id, level, a));
                    }
                }
            }
        } else if old.contains(a) && !kept.contains(a) {
            assert(has_edge(g, a, level, b));
            assert(has_edge(g, b, level, a));
        } else {
            assert(has_edge(g, a, level, b));
            assert(has_edge(g, b, level, a));
            if b == id {
                assert(has_edge(g, id, level, a));
            }
        }
    }
}

/// Adding neighbours to a vector keeps a symmetric graph symmetric,
/// whatever the added neighbours are.
pub proof fn lemma_with_more_neighbors_symmetric(
    g: Graph,
    id: u128,
    level: usize,
    more: Set<u128>,
)
    requires
        symmetric(g),
    ensures
        symmetric(with_more_neighbors(g, id, level, more)),
{
    let after = with_more_neighbors(g, id, level, more);
    let added = more.remove(id);
    assert forall|a: u128, l: usize, b: u128| #[trigger] has_edge(after, a, l, b) implies b != a
        && has_edge(after, b, l, a) by {
        if l != level {
            assert(has_edge(g, a, l, b));
        } else if a == id {
            if !added.contains(b) {
                assert(has_edge(g, id, level, b));
                assert(has_edge(g, b, level, id));
            }
        } else if added.contains(a) {
            if b != id {
                assert(has_edge(g, a, level, b));
                assert(has_edge(g, b, level, a));
            }
        } else {
            assert(has_edge(g, a, level, b));
            assert(has_edge(g, b, level, a));
        }
    }
}

/// Whether the graph holds at every level but `level` what `before`
/// holds there.
pub open spec fn same_elsewhere(before: Graph, after: Graph, level: usize) -> bool {
    forall|k: (u128, usize)|
        k.1 != level ==> (before.contains_key(k) <==> #[trigger] after.contains_key(k)) && (
        before.contains_key(k) ==> after[k] == before[k])
}

/// Whether no vector has more than `m` neighbours at `level`.
pub open spec fn bounded(g: Graph, level: usize, m: usize) -> bool {
    forall|x: u128| #[trigger]
        g.contains_key((x, level)) ==> g[(x, level)].finite() && g[(x, level)].len() <= m
}

/// Whether no vector has more than `m` neighbours at `level`, but that
/// the vectors of `pending` may have one more.
pub open spec fn bounded_but(g: Graph, level: usize, m: usize, pending: Set<u128>) -> bool {
    forall|x: u128| #[trigger]
        g.contains_key((x, level)) ==> g[(x, level)].finite() && (g[(x, level)].len() <= m || (
        pending.contains(x) && g[(x, level)].len() <= m + 1))
}

/// Replacing the neighbours of a vector changes no other level.
pub proof fn lemma_with_neighbors_elsewhere(g: Graph, id: u128, level: usize, new: Set<u128>)
    ensures
        same_elsewhere(g, with_neighbors(g, id, level, new), level),
{
}

/// Giving a vector at most `m` neighbours in a graph within the bound
/// `m` leaves the graph within the bound, but that each of the new
/// neighbours may have one too many.
pub proof fn lemma_with_neighbors_bounded(g: Graph, id: u128, level: usize, new: Set<u128>, m: usize)
    requires
        bounded(g, level, m),
        new.finite(),
        new.len() <= m,
    ensures
        bounded_but(with_neighbors(g, id, level, new), level, m, new),
{
    let after = with_neighbors(g, id, level, new);
    let kept = new.remove(id);
    let old = neighbors_of(g, id, level);
    assert forall|x: u128| #[trigger] after.contains_key((x, level)) implies after[(
        x,
        level,
    )].finite() && (after[(x, level)].len() <= m || (new.contains(x) && after[(x, level)].len()
        <= m + 1)) by {
        if x == id {
            assert(after[(x, level)] == kept);
        } else if kept.contains(x) && !old.contains(x) {
            if g.contains_key((x, level)) {
                assert(g[(x, level)].finite());
            }
            assert(after[(x, level)] == neighbors_of(g, x, level).insert(id));
        } else {
            assert(g.contains_key((x, level)));
            assert(g[(x, level)].finite());
            if old.contains(x) && !kept.contains(x) {
                assert(after[(x, level)] == g[(x, level)].remove(id));
            }
        }
    }
}

/// Cutting the neighbours of a vector down to at most `m` of them brings
/// that vector within the bound `m` and adds to no other vector.
pub proof fn lemma_cut_bounded(
    g: Graph,
    id: u128,
    level: usize,
    kept: Set<u128>,
    m: usize,
    pending: Set<u128>,
)
    requires
        bounded_but(g, level, m, pending),
        kept.finite(),
        kept.len() <= m,
        kept.subset_of(neighbors_of(g, id, level)),
    ensures
        bounded_but(with_neighbors(g, id, level, kept), level, m, pending.remove(id)),
{
    let after = with_neighbors(g, id, level, kept);
    let rest = kept.remove(id);
    let old = neighbors_of(g, id, level);
    assert forall|x: u128| #[trigger] after.contains_key((x, level)) implies after[(
        x,
        level,
    )].finite() && (after[(x, level)].len() <= m || (pending.remove(id).contains(x) && after[(
        x,
        level,
    )].len() <= m + 1)) by {
        if x == id {
            assert(after[(x, level)] == rest);
        } else {
            assert(!(rest.contains(x) && !old.contains(x)));
            assert(g.contains_key((x, level)));
            assert(g[(x, level)].finite());
            if old.contains(x) && !rest.contains(x) {
                assert(after[(x, level)] == g[(x, level)].remove(id));
            } else {
                assert(after[(x, level)] == g[(x, level)]);
            }
        }
    }
}

/// One mutation of the neighbour cache.
pub enum Mutation {
    /// Replace the neighbours of `id` at `level` by `neighbors`.
    Replace { id: u128, level: usize, neighbors: Set<u128> },
    /// Add `neighbors` to those of `id` at `level`.
    Extend { id: u128, level: usize, neighbors: Set<u128> },
}

/// The graph after one mutation.
pub open spec fn apply(g: Graph, m: Mutation) -> Graph {
    match m {
        Mutation::Replace { id, level, neighbors } => with_neighbors(g, id, level, neighbors),
        Mutation::Extend { id, level, neighbors } => with_more_neighbors(g, id, level, neighbors),
    }
}

/// The graph after a sequence of mutations, first to last.
pub open spec fn apply_all(g: Graph, ms: Seq<Mutation>) -> Graph
    decreases ms.len(),
{
    if ms.len() == 0 {
        g
    } else {
        apply(apply_all(g, ms.drop_last()), ms.last())
    }
}

/// After any sequence of replacements and insertions, a cache that
/// started symmetric is symmetric: whoever lists a neighbour is listed by
/// it, and nobody lists itself.
pub proof fn lemma_mutations_keep_symmetry(g: Graph, ms: Seq<Mutation>)
    requires
        symmetric(g),
    ensures
        symmetric(apply_all(g, ms)),
    decreases ms.len(),
{
    if ms.len() > 0 {
        let before = apply_all(g, ms.drop_last());
        lemma_mutations_keep_symmetry(g, ms.drop_last());
        match ms.last() {
            Mutation::Replace { id, level, neighbors } => {
                lemma_with_neighbors_symmetric(before, id, level, neighbors);
            },
            Mutation::Extend { id, level, neighbors } => {
                lemma_with_more_neighbors_symmetric(before, id, level, neighbors);
            },
        }
    }
}

} // verus!
