//! Candidates of a search and their order.
//!
//! A distance reaches the library as an integer key that orders as the
//! distance does: the caller's kernel computes the distance, which is
//! never negative, and hands over its bit pattern. Two candidates at the
//! same distance are ordered by identifier, the lower one first, so that
//! a search gives the same answer every time.

use vstd::prelude::*;

verus! {

/// A vector with its distance to what is searched for.
#[derive(Debug, Clone, Copy, PartialEq, Eq)]
pub struct Scored {
    /// Order key of the distance.
    pub distance: u64,
    pub id: u128,
}

/// Whether `a` is to be preferred to `b`: it is nearer, or as near and of
/// lower identifier.
pub open spec fn closer(a: Scored, b: Scored) -> bool {
    a.distance < b.distance || (a.distance == b.distance && a.id < b.id)
}

/// Whether `list` runs from the most to the least preferred candidate
/// and names no vector twice.
pub open spec fn ranked(list: Seq<Scored>) -> bool {
    &&& forall|i: int, j: int| 0 <= i < j < list.len() ==> closer(list[i], list[j])
    &&& forall|i: int, j: int| 0 <= i < j < list.len() ==> list[i].id != list[j].id
}

/// Whether `list` names vector `id`.
pub open spec fn names(list: Seq<Scored>, id: u128) -> bool {
    exists|i: int| 0 <= i < list.len() && (#[trigger] list[i]).id == id
}

/// Tells whether `a` is to be preferred to `b`.
pub fn is_closer(a: &Scored, b: &Scored) -> (preferred: bool)
    ensures
        preferred == closer(*a, *b),
{
    a.distance < b.distance || (a.distance == b.distance && a.id < b.id)
}

/// Puts `item` at its place in the ranked list `list`.
pub fn insert_ranked(list: &mut Vec<Scored>, item: Scored) -> (at: usize)
    requires
        ranked(old(list)@),
        !names(old(list)@, item.id),
    ensures
        ranked(final(list)@),
        at <= old(list)@.len(),
        final(list)@ == old(list)@.insert(at as int, item),
        forall|id: u128| names(final(list)@, id) <==> id == item.id || names(old(list)@, id),
{
    let mut at: usize = 0;
    while at < list.len() && is_closer(&list[at], &item)
        invariant
            at <= list@.len(),
            list@ == old(list)@,
            forall|k: int| 0 <= k < at ==> closer(#[trigger] list@[k], item),
        decreases list@.len() - at,
    {
        at = at + 1;
    }
    proof {
        let before = list@;
        let after = before.insert(at as int, item);
        assert forall|k: int| at <= k < before.len() implies closer(item, #[trigger] before[k]) by {
            assert(!closer(before[at as int], item));
            assert(before[at as int].id != item.id) by {
                assert(!names(before, item.id));
            }
            if k > at {
                assert(closer(before[at as int], before[k]));
            }
        }
        assert forall|i: int, j: int| 0 <= i < j < after.len() implies closer(after[i], after[j])
            && after[i].id != after[j].id by {
            let a = if i < at {
                i
            } else {
                i - 1
            };
            let b = if j < at {
                j
            } else {
                j - 1
            };
            if i == at {
                assert(after[j] == before[b]);
                assert(!names(before, item.id));
            } else if j == at {
                assert(after[i] == before[a]);
                assert(!names(before, item.id));
            } else {
                assert(after[i] == before[a] && after[j] == before[b]);
            }
        }
        assert forall|id: u128| names(after, id) <==> id == item.id || names(before, id) by {
            if names(after, id) {
                let i = choose|i: int| 0 <= i < after.len() && (#[trigger] after[i]).id == id;
                if i < at {
                    assert(before[i].id == id);
                } else if i > at {
                    assert(before[i - 1].id == id);
                }
            }
            if id == item.id {
                assert(after[at as int].id == id);
            }
            if names(before, id) {
                let i = choose|i: int| 0 <= i < before.len() && (#[trigger] before[i]).id == id;
                if i < at {
                    assert(after[i].id == id);
                } else {
                    assert(after[i + 1].id == id);
                }
            }
        }
    }
    list.insert(at, item);
    at
}

/// The identifiers of the candidates `list`, in their order.
pub open spec fn ids_of(list: Seq<Scored>) -> Seq<u128> {
    Seq::new(list.len(), |i: int| list[i].id)
}

/// The `count` most preferred vectors of the ranked list `found`, or all
/// of them if there are fewer.
pub fn nearest_ids(found: &Vec<Scored>, count: usize) -> (ids: Vec<u128>)
    ensures
        ids@ == ids_of(found@.take(if count <= found@.len() {
            count as int
        } else {
            found@.len() as int
        })),
{
    let mut ids: Vec<u128> = Vec::new();
    let mut i: usize = 0;
    while i < found.len() && i < count
        invariant
            i <= found@.len(),
            i <= count,
            ids@ == ids_of(found@.take(i as int)),
        decreases found@.len() - i,
    {
        proof {
            assert(ids_of(found@.take(i + 1)) =~= ids_of(found@.take(i as int)).push(
                found@[i as int].id,
            ));
        }
        ids.push(found[i].id);
        i = i + 1;
    }
    ids
}

} // verus!
