use helix_db::commit::{CommitPlan, EDGE_CHUNK_SIZE, VECTOR_CHUNK_SIZE};
use helix_db::keys::{out_edges_key, vector_key};
use helix_db::vec_txn::{StoredVector, VecTxn};
use helix_db::vector::HVector;

fn vector_entries(plan: &CommitPlan) -> Vec<Vec<(u128, usize)>> {
    plan.vector_chunks
        .iter()
        .map(|chunk| chunk.iter().map(|write| (write.id, write.level)).collect())
        .collect()
}

#[test]
fn chunk_sizes_are_the_documented_ones() {
    assert_eq!(VECTOR_CHUNK_SIZE, 250_000);
    assert_eq!(EDGE_CHUNK_SIZE, 1_000_000);
}

#[test]
fn empty_cache_commits_nothing() {
    let txn = VecTxn::new();
    let plan = txn.commit(b"v:");
    assert!(plan.vector_chunks.is_empty());
    assert!(plan.edge_chunks.is_empty());
}

#[test]
fn vectors_are_written_by_ascending_id() {
    let mut txn = VecTxn::new();
    for id in [5u128, 1, 9, 3, 7] {
        txn.vec_txn_put_vector(&HVector::new(id, vec![id as u64]), 0);
    }
    let plan = txn.commit(b"v:");
    assert_eq!(vector_entries(&plan), vec![vec![(1, 0), (3, 0), (5, 0), (7, 0), (9, 0)]]);
    for write in &plan.vector_chunks[0] {
        assert_eq!(write.key, vector_key(b"v:", write.id, write.level));
        assert_eq!(write.vector.id, write.id);
        assert_eq!(write.vector.level, write.level);
        assert_eq!(write.vector.data, vec![write.id as u64]);
    }
}

#[test]
fn vectors_are_written_in_chunks() {
    let mut txn = VecTxn::new();
    for id in 1..=7u128 {
        txn.vec_txn_put_vector(&HVector::new(id, vec![]), 0);
    }
    let plan = txn.commit_in_chunks(b"v:", 3, 10);
    let lengths: Vec<usize> = plan.vector_chunks.iter().map(|chunk| chunk.len()).collect();
    assert_eq!(lengths, vec![3, 3, 1]);
    let flat: Vec<u128> = plan.vector_chunks.iter().flatten().map(|write| write.id).collect();
    assert_eq!(flat, vec![1, 2, 3, 4, 5, 6, 7]);
    let even = txn.commit_in_chunks(b"v:", 7, 10);
    assert_eq!(even.vector_chunks.len(), 1);
    let single = txn.commit_in_chunks(b"v:", 1, 10);
    assert_eq!(single.vector_chunks.len(), 7);
}

#[test]
fn every_level_copy_is_written_once() {
    let mut txn = VecTxn::new();
    txn.vec_txn_put_vector(&HVector::new(2, vec![]), 2);
    txn.vec_txn_put_vector(&HVector::new(1, vec![]), 1);
    let plan = txn.commit(b"v:");
    let mut entries = vector_entries(&plan).concat();
    let ids: Vec<u128> = entries.iter().map(|entry| entry.0).collect();
    assert_eq!(ids, vec![1, 1, 2, 2, 2]);
    entries.sort();
    assert_eq!(entries, vec![(1, 0), (1, 1), (2, 0), (2, 1), (2, 2)]);
}

#[test]
fn edges_are_written_in_both_directions_once() {
    let mut txn = VecTxn::new();
    txn.set_neighbors(1, 0, &vec![2, 3]);
    let plan = txn.commit_in_chunks(b"v:", 10, 10);
    assert_eq!(plan.edge_chunks.len(), 1);
    let chunk = &plan.edge_chunks[0];
    let mut entries = chunk.entries.clone();
    entries.sort();
    assert_eq!(entries, vec![(1, 0), (2, 0), (3, 0)]);
    let arcs: Vec<(u128, usize, u128)> =
        chunk.writes.iter().map(|write| (write.source, write.level, write.sink)).collect();
    assert_eq!(arcs, vec![(1, 0, 2), (1, 0, 3), (2, 0, 1), (3, 0, 1)]);
    for write in &chunk.writes {
        assert_eq!(write.key, out_edges_key(write.source, write.level, Some(write.sink)));
    }
}

#[test]
fn edge_keys_come_in_byte_order() {
    let mut txn = VecTxn::new();
    txn.set_neighbors(300, 1, &vec![2, 70000]);
    txn.set_neighbors(5, 0, &vec![300]);
    let plan = txn.commit(b"v:");
    assert_eq!(plan.edge_chunks.len(), 1);
    let keys: Vec<Vec<u8>> = plan.edge_chunks[0].writes.iter().map(|w| w.key.clone()).collect();
    let mut sorted = keys.clone();
    sorted.sort();
    sorted.dedup();
    assert_eq!(keys, sorted);
    assert_eq!(keys.len(), 6);
}

#[test]
fn a_lazy_commit_adds_and_a_preloaded_commit_replaces() {
    let mut lazy = VecTxn::new();
    lazy.set_neighbors(1, 0, &vec![2]);
    assert!(!lazy.commit(b"v:").clear_first);
    assert!(!lazy.commit_in_chunks(b"v:", 1, 1).clear_first);
    let mut whole = VecTxn::new_with_preload(b"v:", vec![], &vec![]);
    assert!(whole.commit(b"v:").clear_first);
    whole.set_neighbors(1, 0, &vec![2]);
    assert!(whole.commit_in_chunks(b"v:", 1, 1).clear_first);
}

#[test]
fn inserted_neighbours_are_written_as_edges_both_ways() {
    let mut txn = VecTxn::new();
    txn.insert_neighbors(1, 0, &vec![1, 2]);
    let plan = txn.commit(b"v:");
    let arcs: Vec<(u128, usize, u128)> = plan.edge_chunks[0]
        .writes
        .iter()
        .map(|write| (write.source, write.level, write.sink))
        .collect();
    assert_eq!(arcs, vec![(1, 0, 2), (2, 0, 1)]);
}

#[test]
fn edges_are_chunked_by_cache_entry() {
    let mut txn = VecTxn::new();
    txn.set_neighbors(1, 0, &vec![2, 3, 4]);
    let plan = txn.commit_in_chunks(b"v:", 10, 3);
    let lengths: Vec<usize> = plan.edge_chunks.iter().map(|chunk| chunk.entries.len()).collect();
    assert_eq!(lengths, vec![3, 1]);
    let mut covered: Vec<(u128, usize)> =
        plan.edge_chunks.iter().flat_map(|chunk| chunk.entries.clone()).collect();
    covered.sort();
    assert_eq!(covered, vec![(1, 0), (2, 0), (3, 0), (4, 0)]);
    let mut arcs: Vec<(u128, usize, u128)> = plan
        .edge_chunks
        .iter()
        .flat_map(|chunk| chunk.writes.iter().map(|w| (w.source, w.level, w.sink)))
        .collect();
    arcs.sort();
    arcs.dedup();
    assert_eq!(arcs, vec![(1, 0, 2), (1, 0, 3), (1, 0, 4), (2, 0, 1), (3, 0, 1), (4, 0, 1)]);
}

fn stored(prefix: &[u8], id: u128, level: usize, data: Vec<u64>) -> StoredVector {
    StoredVector { key: vector_key(prefix, id, level), vector: HVector::new(0, data) }
}

#[test]
fn preload_files_vectors_by_their_keys() {
    let vectors = vec![
        stored(b"v:", 1, 0, vec![10]),
        stored(b"v:", 2, 0, vec![20]),
        stored(b"v:", 2, 1, vec![20]),
        StoredVector { key: b"entry_point".to_vec(), vector: HVector::new(99, vec![]) },
        stored(b"w:", 3, 0, vec![30]),
    ];
    let txn = VecTxn::new_with_preload(b"v:", vectors, &vec![]);
    assert!(txn.is_preloaded());
    let first = txn.vec_txn_get_vector(1, 0).unwrap();
    assert_eq!((first.id, first.level, first.data.clone()), (1, 0, vec![10]));
    let upper = txn.vec_txn_get_vector(2, 1).unwrap();
    assert_eq!((upper.id, upper.level), (2, 1));
    assert!(txn.vec_txn_get_vector(3, 0).is_none());
    assert!(txn.vec_txn_get_vector(99, 0).is_none());
    assert!(txn.vec_txn_get_vector(0, 0).is_none());
}

#[test]
fn preload_keeps_edges_to_loaded_vectors_only() {
    let vectors = vec![stored(b"v:", 1, 0, vec![]), stored(b"v:", 2, 0, vec![])];
    let edge_keys = vec![
        out_edges_key(1, 0, Some(2)),
        out_edges_key(2, 0, Some(1)),
        out_edges_key(1, 0, Some(3)),
        out_edges_key(1, 1, Some(2)),
        out_edges_key(1, 0, None),
        vec![0u8; 41],
    ];
    let txn = VecTxn::new_with_preload(b"v:", vectors, &edge_keys);
    assert_eq!(txn.get_neighbors(1, 0).unwrap(), vec![2]);
    assert_eq!(txn.get_neighbors(2, 0).unwrap(), vec![1]);
    assert_eq!(txn.get_neighbors(1, 1), None);
    assert_eq!(txn.get_neighbors(3, 0), None);
}

#[test]
fn preload_replaces_what_was_cached() {
    let mut txn = VecTxn::new();
    txn.set_neighbors(8, 0, &vec![9]);
    txn.vec_txn_put_vector(&HVector::new(8, vec![]), 0);
    txn.preload_all(b"v:", vec![stored(b"v:", 1, 0, vec![])], &vec![]);
    assert!(txn.is_preloaded());
    assert_eq!(txn.get_neighbors(8, 0), None);
    assert!(txn.vec_txn_get_vector(8, 0).is_none());
    assert!(txn.vec_txn_get_vector(1, 0).is_some());
}

#[test]
fn commit_and_preload_round_trip() {
    let mut txn = VecTxn::new();
    for id in 1..=4u128 {
        txn.vec_txn_put_vector(&HVector::new(id, vec![id as u64, 0]), 1);
    }
    txn.set_neighbors(1, 0, &vec![2, 3]);
    txn.set_neighbors(4, 1, &vec![1]);
    let plan = txn.commit_in_chunks(b"v:", 3, 2);
    let vectors: Vec<StoredVector> = plan
        .vector_chunks
        .iter()
        .flatten()
        .map(|write| StoredVector { key: write.key.clone(), vector: write.vector.clone() })
        .collect();
    let mut edge_keys: Vec<Vec<u8>> =
        plan.edge_chunks.iter().flat_map(|c| c.writes.iter().map(|w| w.key.clone())).collect();
    edge_keys.sort();
    edge_keys.dedup();
    let reloaded = VecTxn::new_with_preload(b"v:", vectors, &edge_keys);
    for id in 1..=4u128 {
        for level in 0..=1usize {
            assert_eq!(reloaded.vec_txn_get_vector(id, level), txn.vec_txn_get_vector(id, level));
            let mut was = txn.get_neighbors(id, level).unwrap_or_default();
            let mut is = reloaded.get_neighbors(id, level).unwrap_or_default();
            was.sort();
            is.sort();
            assert_eq!(is, was);
        }
    }
}
