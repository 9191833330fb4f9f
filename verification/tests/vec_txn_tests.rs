use helix_db::vec_txn::VecTxn;
use helix_db::vector::HVector;

fn sorted(mut ids: Vec<u128>) -> Vec<u128> {
    ids.sort();
    ids
}

#[test]
fn new_cache_is_empty() {
    let txn = VecTxn::new();
    assert!(!txn.is_preloaded());
    assert_eq!(txn.get_neighbors(1, 0), None);
    assert!(txn.vec_txn_get_vector(1, 0).is_none());
}

#[test]
fn set_neighbors_writes_back_edges() {
    let mut txn = VecTxn::new();
    txn.set_neighbors(1, 0, &vec![2, 3]);
    assert_eq!(sorted(txn.get_neighbors(1, 0).unwrap()), vec![2, 3]);
    assert_eq!(txn.get_neighbors(2, 0).unwrap(), vec![1]);
    assert_eq!(txn.get_neighbors(3, 0).unwrap(), vec![1]);
    assert_eq!(txn.get_neighbors(1, 1), None);
}

#[test]
fn set_neighbors_removes_stale_back_edges() {
    let mut txn = VecTxn::new();
    txn.set_neighbors(1, 0, &vec![2, 3]);
    txn.set_neighbors(1, 0, &vec![3, 4]);
    assert_eq!(sorted(txn.get_neighbors(1, 0).unwrap()), vec![3, 4]);
    assert_eq!(txn.get_neighbors(2, 0).unwrap(), Vec::<u128>::new());
    assert_eq!(txn.get_neighbors(3, 0).unwrap(), vec![1]);
    assert_eq!(txn.get_neighbors(4, 0).unwrap(), vec![1]);
}

#[test]
fn set_neighbors_never_stores_self() {
    let mut txn = VecTxn::new();
    txn.set_neighbors(7, 2, &vec![7, 8, 8]);
    assert_eq!(txn.get_neighbors(7, 2).unwrap(), vec![8]);
    assert_eq!(txn.get_neighbors(8, 2).unwrap(), vec![7]);
}

#[test]
fn insert_neighbors_is_a_union_with_back_edges() {
    let mut txn = VecTxn::new();
    txn.insert_neighbors(1, 0, &vec![2]);
    txn.insert_neighbors(1, 0, &vec![3, 2]);
    assert_eq!(sorted(txn.get_neighbors(1, 0).unwrap()), vec![2, 3]);
    assert_eq!(txn.get_neighbors(2, 0).unwrap(), vec![1]);
    assert_eq!(txn.get_neighbors(3, 0).unwrap(), vec![1]);
    assert_eq!(txn.get_neighbors(1, 1), None);
}

#[test]
fn insert_neighbors_never_stores_self() {
    let mut txn = VecTxn::new();
    txn.insert_neighbors(3, 0, &vec![3]);
    assert_eq!(txn.get_neighbors(3, 0).unwrap(), Vec::<u128>::new());
    txn.insert_neighbors(3, 0, &vec![3, 4, 4]);
    assert_eq!(txn.get_neighbors(3, 0).unwrap(), vec![4]);
    assert_eq!(txn.get_neighbors(4, 0).unwrap(), vec![3]);
}

#[test]
fn insert_neighbors_keeps_what_was_there() {
    let mut txn = VecTxn::new();
    txn.set_neighbors(1, 0, &vec![2]);
    txn.set_neighbors(5, 0, &vec![6]);
    txn.insert_neighbors(1, 0, &vec![5]);
    assert_eq!(sorted(txn.get_neighbors(1, 0).unwrap()), vec![2, 5]);
    assert_eq!(sorted(txn.get_neighbors(5, 0).unwrap()), vec![1, 6]);
    assert_eq!(txn.get_neighbors(2, 0).unwrap(), vec![1]);
    assert_eq!(txn.get_neighbors(6, 0).unwrap(), vec![5]);
}

#[test]
fn put_vector_files_a_copy_at_every_level_below() {
    let mut txn = VecTxn::new();
    let vector = HVector::new(9, vec![1, 2, 3]);
    txn.vec_txn_put_vector(&vector, 2);
    for level in 0..=2usize {
        let copy = txn.vec_txn_get_vector(9, level).unwrap();
        assert_eq!(copy.level, level);
        assert_eq!(copy.id, 9);
        assert_eq!(copy.data, vec![1, 2, 3]);
    }
    assert!(txn.vec_txn_get_vector(9, 3).is_none());
}

fn symmetric_at(txn: &VecTxn, ids: &[u128], level: usize) -> bool {
    for &id in ids {
        if let Some(neighbors) = txn.get_neighbors(id, level) {
            for n in neighbors {
                if n == id {
                    return false;
                }
                match txn.get_neighbors(n, level) {
                    Some(back) => {
                        if !back.contains(&id) {
                            return false;
                        }
                    }
                    None => return false,
                }
            }
        }
    }
    true
}

#[test]
fn replacements_keep_the_cache_symmetric() {
    let mut txn = VecTxn::new();
    let ids: Vec<u128> = (1..=8).collect();
    txn.set_neighbors(1, 0, &vec![2, 3, 4]);
    assert!(symmetric_at(&txn, &ids, 0));
    txn.set_neighbors(2, 0, &vec![3, 5]);
    assert!(symmetric_at(&txn, &ids, 0));
    txn.set_neighbors(3, 0, &vec![]);
    assert!(symmetric_at(&txn, &ids, 0));
    txn.set_neighbors(4, 0, &vec![4, 1, 8, 8]);
    assert!(symmetric_at(&txn, &ids, 0));
    txn.set_neighbors(5, 1, &vec![6, 7]);
    txn.set_neighbors(6, 1, &vec![7]);
    assert!(symmetric_at(&txn, &ids, 0));
    assert!(symmetric_at(&txn, &ids, 1));
    assert_eq!(sorted(txn.get_neighbors(1, 0).unwrap()), vec![4]);
    assert_eq!(txn.get_neighbors(2, 0).unwrap(), vec![5]);
    assert_eq!(sorted(txn.get_neighbors(4, 0).unwrap()), vec![1, 8]);
    assert_eq!(txn.get_neighbors(6, 1).unwrap(), vec![7]);
    assert_eq!(sorted(txn.get_neighbors(7, 1).unwrap()), vec![5, 6]);
}

#[test]
fn insertions_keep_the_cache_symmetric() {
    let mut txn = VecTxn::new();
    let ids: Vec<u128> = (1..=6).collect();
    txn.insert_neighbors(1, 0, &vec![2]);
    assert!(symmetric_at(&txn, &ids, 0));
    txn.set_neighbors(2, 0, &vec![3, 4]);
    assert!(symmetric_at(&txn, &ids, 0));
    txn.insert_neighbors(3, 0, &vec![3, 1, 5]);
    assert!(symmetric_at(&txn, &ids, 0));
    txn.insert_neighbors(6, 1, &vec![1]);
    assert!(symmetric_at(&txn, &ids, 0));
    assert!(symmetric_at(&txn, &ids, 1));
    assert_eq!(txn.get_neighbors(1, 0).unwrap(), vec![3]);
    assert_eq!(sorted(txn.get_neighbors(3, 0).unwrap()), vec![1, 2, 5]);
    assert_eq!(txn.get_neighbors(1, 1).unwrap(), vec![6]);
}

#[test]
fn levels_are_independent() {
    let mut txn = VecTxn::new();
    txn.set_neighbors(1, 0, &vec![2]);
    txn.set_neighbors(1, 1, &vec![3]);
    txn.set_neighbors(1, 0, &vec![]);
    assert_eq!(txn.get_neighbors(1, 1).unwrap(), vec![3]);
    assert_eq!(txn.get_neighbors(3, 1).unwrap(), vec![1]);
    assert_eq!(txn.get_neighbors(2, 0).unwrap(), Vec::<u128>::new());
    assert_eq!(txn.get_neighbors(3, 0), None);
}

#[test]
fn put_vector_at_ground_level_files_one_copy() {
    let mut txn = VecTxn::new();
    let mut vector = HVector::new(4, vec![7]);
    vector.is_deleted = true;
    vector.properties = Some(vec![1, 2]);
    txn.vec_txn_put_vector(&vector, 0);
    let copy = txn.vec_txn_get_vector(4, 0).unwrap();
    assert_eq!(copy, vector);
}

#[test]
fn put_vector_replaces_the_copy() {
    let mut txn = VecTxn::new();
    txn.vec_txn_put_vector(&HVector::new(4, vec![7]), 1);
    txn.vec_txn_put_vector(&HVector::new(4, vec![8, 9]), 1);
    txn.vec_txn_put_vector(&HVector::new(4, vec![5]), 0);
    assert_eq!(txn.vec_txn_get_vector(4, 0).unwrap().data, vec![5]);
    txn.vec_txn_put_vector(&HVector::new(4, vec![8, 9]), 1);
    assert_eq!(txn.vec_txn_get_vector(4, 1).unwrap().data, vec![8, 9]);
    assert_eq!(txn.vec_txn_get_vector(4, 0).unwrap().data, vec![8, 9]);
}
