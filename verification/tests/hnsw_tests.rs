use helix_db::error::VectorError;
use helix_db::hnsw::{insert, nearest_live, prune, search, search_level, EntryPoint};
use helix_db::rank::{insert_ranked, is_closer, nearest_ids, Scored};
use helix_db::vec_txn::{StoredVector, VecTxn};
use helix_db::vector::HVector;
use std::cell::Cell;
use std::collections::HashMap;

fn cosine_distance(a: &[f64], b: &[f64]) -> f64 {
    let mut dot = 0.0;
    let mut mag_a = 0.0;
    let mut mag_b = 0.0;
    for i in 0..a.len() {
        dot += a[i] * b[i];
        mag_a += a[i] * a[i];
        mag_b += b[i] * b[i];
    }
    if mag_a == 0.0 || mag_b == 0.0 {
        return 2.0;
    }
    1.0 - dot / (mag_a.sqrt() * mag_b.sqrt())
}

fn key(distance: f64) -> u64 {
    if distance <= 0.0 {
        0
    } else {
        distance.to_bits()
    }
}

struct Lcg(u64);

impl Lcg {
    fn next_unit(&mut self) -> f64 {
        self.0 = self.0.wrapping_mul(6364136223846793005).wrapping_add(1442695040888963407);
        ((self.0 >> 11) as f64) / ((1u64 << 53) as f64)
    }

    fn unit_vector(&mut self, dimension: usize) -> Vec<f64> {
        loop {
            let raw: Vec<f64> = (0..dimension).map(|_| self.next_unit() * 2.0 - 1.0).collect();
            let norm = raw.iter().map(|x| x * x).sum::<f64>().sqrt();
            if norm > 1e-3 {
                return raw.iter().map(|x| x / norm).collect();
            }
        }
    }

    fn level(&mut self, m: usize) -> usize {
        let u = 1.0 - self.next_unit();
        (-u.ln() / (m as f64).ln()).floor() as usize
    }
}

fn record(id: u128, data: &[f64]) -> HVector {
    HVector::new(id, data.iter().map(|x| x.to_bits()).collect())
}

fn build(count: usize, seed: u64) -> (VecTxn, Option<EntryPoint>, HashMap<u128, Vec<f64>>) {
    let mut rng = Lcg(seed);
    let mut txn = VecTxn::new();
    let mut entry_point = None;
    let mut data: HashMap<u128, Vec<f64>> = HashMap::new();
    for i in 0..count {
        let id = (i as u128 + 1) * 10;
        let vector = rng.unit_vector(4);
        let level = rng.level(16);
        data.insert(id, vector.clone());
        let distance = |other: u128| key(cosine_distance(&vector, &data[&other]));
        let between = |a: u128, b: u128| key(cosine_distance(&data[&a], &data[&b]));
        let entry =
            insert(&mut txn, entry_point, &record(id, &vector), level, 16, 128, &distance, &between);
        entry_point = Some(entry.unwrap());
    }
    (txn, entry_point, data)
}

fn scored(distance: u64, id: u128) -> Scored {
    Scored { distance, id }
}

#[test]
fn nearer_is_preferred_and_ties_go_to_the_lower_id() {
    assert!(is_closer(&scored(1, 9), &scored(2, 1)));
    assert!(!is_closer(&scored(2, 1), &scored(1, 9)));
    assert!(is_closer(&scored(5, 1), &scored(5, 2)));
    assert!(!is_closer(&scored(5, 2), &scored(5, 1)));
    assert!(!is_closer(&scored(5, 2), &scored(5, 2)));
}

#[test]
fn ranked_insertion_keeps_the_order() {
    let mut list = Vec::new();
    for item in [scored(5, 3), scored(1, 7), scored(5, 1), scored(9, 0), scored(3, 4)] {
        insert_ranked(&mut list, item);
    }
    assert_eq!(list, vec![scored(1, 7), scored(3, 4), scored(5, 1), scored(5, 3), scored(9, 0)]);
    assert_eq!(insert_ranked(&mut list, scored(0, 99)), 0);
    assert_eq!(insert_ranked(&mut list, scored(10, 98)), 6);
}

#[test]
fn nearest_ids_takes_the_first() {
    let list = vec![scored(1, 7), scored(3, 4), scored(5, 1)];
    assert_eq!(nearest_ids(&list, 2), vec![7, 4]);
    assert_eq!(nearest_ids(&list, 3), vec![7, 4, 1]);
    assert_eq!(nearest_ids(&list, 10), vec![7, 4, 1]);
    assert_eq!(nearest_ids(&list, 0), Vec::<u128>::new());
}

#[test]
fn search_of_an_empty_index_is_empty() {
    let txn = VecTxn::new();
    let calls = Cell::new(0);
    let distance = |_id: u128| {
        calls.set(calls.get() + 1);
        0u64
    };
    assert_eq!(search(&txn, None, 4, 10, 768, &distance), Ok(vec![]));
    assert_eq!(calls.get(), 0);
}

#[test]
fn search_with_another_dimension_fails_before_it_starts() {
    let mut txn = VecTxn::new();
    txn.vec_txn_put_vector(&HVector::new(1, vec![0, 0, 0, 0]), 0);
    let calls = Cell::new(0);
    let distance = |_id: u128| {
        calls.set(calls.get() + 1);
        0u64
    };
    let entry = Some(EntryPoint { id: 1, level: 0 });
    assert_eq!(search(&txn, entry, 3, 10, 768, &distance), Err(VectorError::InvalidVectorLength));
    assert_eq!(calls.get(), 0);
    assert!(search(&txn, entry, 4, 10, 768, &distance).is_ok());
}

#[test]
fn level_search_follows_edges_to_nearer_vectors() {
    // A path 1 - 2 - 3 - 4 - 5 with distances that fall along it.
    let mut txn = VecTxn::new();
    txn.set_neighbors(1, 0, &vec![2]);
    txn.set_neighbors(2, 0, &vec![1, 3]);
    txn.set_neighbors(3, 0, &vec![2, 4]);
    txn.set_neighbors(4, 0, &vec![3, 5]);
    let distance = |id: u128| 10 - id as u64;
    let found = search_level(&txn, 0, &vec![1], 2, &distance);
    assert_eq!(found, vec![scored(5, 5), scored(6, 4)]);
    let all = search_level(&txn, 0, &vec![1], 10, &distance);
    let ids: Vec<u128> = all.iter().map(|item| item.id).collect();
    assert_eq!(ids, vec![5, 4, 3, 2, 1]);
    assert_eq!(search_level(&txn, 0, &vec![1], 0, &distance), vec![]);
}

#[test]
fn level_search_stops_at_a_local_optimum() {
    // From 1, vector 2 is worse than 1 and hides the nearer vector 3.
    let mut txn = VecTxn::new();
    txn.set_neighbors(1, 0, &vec![2]);
    txn.set_neighbors(2, 0, &vec![1, 3]);
    let distance = |id: u128| match id {
        1 => 5u64,
        2 => 9,
        _ => 1,
    };
    assert_eq!(search_level(&txn, 0, &vec![1], 1, &distance), vec![scored(5, 1)]);
    assert_eq!(search_level(&txn, 0, &vec![1], 2, &distance), vec![scored(1, 3), scored(5, 1)]);
}

#[test]
fn level_search_takes_each_distance_once() {
    let mut txn = VecTxn::new();
    txn.set_neighbors(1, 0, &vec![2, 3]);
    txn.set_neighbors(2, 0, &vec![1, 3]);
    let calls = Cell::new(0);
    let distance = |id: u128| {
        calls.set(calls.get() + 1);
        id as u64
    };
    let found = search_level(&txn, 0, &vec![1, 1, 2], 5, &distance);
    assert_eq!(found.len(), 3);
    assert_eq!(calls.get(), 3);
}

#[test]
fn deleted_vectors_are_dropped_before_the_count_is_taken() {
    let mut txn = VecTxn::new();
    let mut gone = HVector::new(2, vec![]);
    gone.is_deleted = true;
    txn.vec_txn_put_vector(&gone, 0);
    txn.vec_txn_put_vector(&HVector::new(3, vec![]), 0);
    let found = vec![scored(1, 1), scored(2, 2), scored(3, 3), scored(4, 4)];
    assert_eq!(nearest_live(&txn, &found, 2), vec![scored(1, 1), scored(3, 3)]);
    assert_eq!(nearest_live(&txn, &found, 3), vec![scored(1, 1), scored(3, 3), scored(4, 4)]);
    assert_eq!(nearest_live(&txn, &found, 9), vec![scored(1, 1), scored(3, 3), scored(4, 4)]);
    assert_eq!(nearest_live(&txn, &found, 0), vec![]);
}

#[test]
fn search_skips_deleted_vectors() {
    let mut txn = VecTxn::new();
    let mut near = HVector::new(2, vec![0]);
    near.is_deleted = true;
    txn.vec_txn_put_vector(&HVector::new(1, vec![0]), 0);
    txn.vec_txn_put_vector(&near, 0);
    txn.vec_txn_put_vector(&HVector::new(3, vec![0]), 0);
    txn.set_neighbors(1, 0, &vec![2, 3]);
    let distance = |id: u128| match id {
        2 => 0u64,
        3 => 1,
        _ => 2,
    };
    let entry = Some(EntryPoint { id: 1, level: 0 });
    assert_eq!(search(&txn, entry, 1, 1, 10, &distance), Ok(vec![scored(1, 3)]));
    assert_eq!(search(&txn, entry, 1, 5, 10, &distance), Ok(vec![scored(1, 3), scored(2, 1)]));
}

#[test]
fn prune_keeps_the_nearest_with_ties_to_the_lower_id() {
    let mut txn = VecTxn::new();
    txn.set_neighbors(1, 0, &vec![2, 3, 4, 5]);
    let between = |_a: u128, b: u128| match b {
        2 => 7u64,
        3 => 3,
        4 => 3,
        _ => 1,
    };
    prune(&mut txn, 1, 0, 5, &between);
    assert_eq!(txn.get_neighbors(1, 0).unwrap().len(), 4);
    prune(&mut txn, 1, 0, 2, &between);
    let mut kept = txn.get_neighbors(1, 0).unwrap();
    kept.sort();
    assert_eq!(kept, vec![3, 5]);
    assert_eq!(txn.get_neighbors(2, 0).unwrap(), Vec::<u128>::new());
    assert_eq!(txn.get_neighbors(4, 0).unwrap(), Vec::<u128>::new());
    assert_eq!(txn.get_neighbors(3, 0).unwrap(), vec![1]);
    prune(&mut txn, 9, 0, 0, &between);
    assert_eq!(txn.get_neighbors(9, 0), None);
}

#[test]
fn first_insert_sets_the_entry_point() {
    let mut txn = VecTxn::new();
    let distance = |_id: u128| 0u64;
    let between = |_a: u128, _b: u128| 0u64;
    let entry = insert(&mut txn, None, &HVector::new(5, vec![1]), 2, 16, 128, &distance, &between);
    assert_eq!(entry, Ok(EntryPoint { id: 5, level: 2 }));
    for level in 0..=2 {
        assert_eq!(txn.vec_txn_get_vector(5, level).unwrap().level, level);
        assert_eq!(txn.get_neighbors(5, level), None);
    }
    assert!(txn.vec_txn_get_vector(5, 3).is_none());
}

#[test]
fn insert_of_another_dimension_fails_and_changes_nothing() {
    let mut txn = VecTxn::new();
    let calls = Cell::new(0);
    let distance = |_id: u128| {
        calls.set(calls.get() + 1);
        0u64
    };
    let between = |_a: u128, _b: u128| 0u64;
    let first =
        insert(&mut txn, None, &HVector::new(1, vec![1, 2]), 0, 16, 128, &distance, &between)
            .unwrap();
    let refused =
        insert(&mut txn, Some(first), &HVector::new(2, vec![1]), 1, 16, 128, &distance, &between);
    assert_eq!(refused, Err(VectorError::InvalidVectorLength));
    assert_eq!(calls.get(), 0);
    assert!(txn.vec_txn_get_vector(2, 0).is_none());
    assert_eq!(txn.get_neighbors(1, 0), None);
    let taken =
        insert(&mut txn, Some(first), &HVector::new(2, vec![3, 4]), 0, 16, 128, &distance, &between);
    assert_eq!(taken, Ok(first));
    assert_eq!(txn.get_neighbors(1, 0).unwrap(), vec![2]);
}

#[test]
fn entry_point_moves_up_only() {
    let mut txn = VecTxn::new();
    let distance = |id: u128| id as u64;
    let between = |a: u128, b: u128| (a as u64).abs_diff(b as u64);
    let first =
        insert(&mut txn, None, &HVector::new(1, vec![1]), 1, 16, 128, &distance, &between).unwrap();
    let lower =
        insert(&mut txn, Some(first), &HVector::new(2, vec![1]), 0, 16, 128, &distance, &between)
            .unwrap();
    assert_eq!(lower, first);
    let same =
        insert(&mut txn, Some(lower), &HVector::new(3, vec![1]), 1, 16, 128, &distance, &between)
            .unwrap();
    assert_eq!(same, first);
    let higher =
        insert(&mut txn, Some(same), &HVector::new(4, vec![1]), 3, 16, 128, &distance, &between)
            .unwrap();
    assert_eq!(higher, EntryPoint { id: 4, level: 3 });
    assert_eq!(txn.get_neighbors(4, 3), None);
    assert_eq!(txn.get_neighbors(4, 2), None);
    let mut at_one = txn.get_neighbors(4, 1).unwrap();
    at_one.sort();
    assert_eq!(at_one, vec![1, 3]);
    let mut ground = txn.get_neighbors(4, 0).unwrap();
    ground.sort();
    assert_eq!(ground, vec![1, 2, 3]);
}

#[test]
fn insert_keeps_degrees_within_m() {
    let mut txn = VecTxn::new();
    let mut entry_point = None;
    for id in 1..=12u128 {
        let distance = |other: u128| (id as u64).abs_diff(other as u64);
        let between = |a: u128, b: u128| (a as u64).abs_diff(b as u64);
        let entry =
            insert(&mut txn, entry_point, &HVector::new(id, vec![]), 0, 3, 16, &distance, &between);
        entry_point = Some(entry.unwrap());
    }
    for id in 1..=12u128 {
        let neighbors = txn.get_neighbors(id, 0).unwrap();
        assert!(neighbors.len() <= 3);
        for n in neighbors {
            assert!(n != id);
            assert!(txn.get_neighbors(n, 0).unwrap().contains(&id));
        }
    }
}

#[test]
fn thousand_unit_vectors_find_themselves() {
    let (txn, entry_point, data) = build(1000, 7);
    let mut found = 0;
    for (&id, vector) in &data {
        let distance = |other: u128| key(cosine_distance(vector, &data[&other]));
        let nearest = search(&txn, entry_point, 4, 1, 768, &distance).unwrap();
        assert_eq!(nearest.len(), 1);
        if nearest[0].id == id {
            found += 1;
        }
        let at = f64::from_bits(nearest[0].distance);
        assert!(at.abs() < 1e-9);
    }
    assert_eq!(found, 1000);
}

#[test]
fn search_after_reload_matches_a_linear_scan() {
    let (built, entry_point, data) = build(600, 11);
    let plan = built.commit(b"v:");
    let vectors: Vec<StoredVector> = plan
        .vector_chunks
        .iter()
        .flatten()
        .map(|write| StoredVector { key: write.key.clone(), vector: write.vector.clone() })
        .collect();
    let edge_keys: Vec<Vec<u8>> =
        plan.edge_chunks.iter().flat_map(|c| c.writes.iter().map(|w| w.key.clone())).collect();
    let txn = VecTxn::new_with_preload(b"v:", vectors, &edge_keys);
    assert!(txn.is_preloaded());
    let mut rng = Lcg(99);
    let k = 10;
    let mut hits = 0;
    let queries = 20;
    for _ in 0..queries {
        let query = rng.unit_vector(4);
        let distance = |other: u128| key(cosine_distance(&query, &data[&other]));
        let nearest = search(&txn, entry_point, 4, k, 768, &distance).unwrap();
        assert_eq!(nearest.len(), k);
        for pair in nearest.windows(2) {
            assert!(is_closer(&pair[0], &pair[1]));
        }
        let mut exact: Vec<(u64, u128)> = data.keys().map(|&id| (distance(id), id)).collect();
        exact.sort();
        let truth: Vec<u128> = exact.iter().take(k).map(|item| item.1).collect();
        hits += nearest.iter().filter(|item| truth.contains(&item.id)).count();
    }
    assert!(hits * 10 >= queries * k * 9);
}
