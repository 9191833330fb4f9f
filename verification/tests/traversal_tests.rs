use helix_db::batch_insert::{BatchConfig, BatchResult, HelixGraphStorage, WrittenEdge};
use helix_db::error::{BatchFailure, GraphError, VectorError};
use helix_db::graph::{Edge, Node, Value};
use helix_db::keys::{adjacency_key, parse_adjacency_value};
use helix_db::traversal::{
    add_e_batch, add_n_batch, edge_batch_outcome, edge_batch_report, insert_v, node_batch_outcome,
    validate_edges, vector_outcome, TraversalValue,
};
use helix_db::vector::HVector;
use std::cell::RefCell;
use std::collections::{BTreeMap, HashSet};

fn result(successful: usize, failed: usize) -> BatchResult {
    BatchResult { successful, failed, errors: vec![], duration_ms: 0 }
}

fn all_failed(failed: usize) -> GraphError {
    GraphError::BatchInsertFailed(BatchFailure::AllFailed { failed })
}

fn edge(id: u128, from: u128, to: u128) -> Edge {
    Edge::new(id, "Follows".to_string(), [7, 7, 7, 7], from, to, None)
}

#[test]
fn node_batch_yields_the_number_written() {
    assert_eq!(node_batch_outcome(Ok(result(3, 0)), 3), Ok(TraversalValue::Count(3)));
    assert_eq!(node_batch_outcome(Ok(result(2, 1)), 3), Ok(TraversalValue::Count(2)));
    assert_eq!(node_batch_outcome(Ok(result(0, 0)), 0), Ok(TraversalValue::Count(0)));
}

#[test]
fn node_batch_that_failed_throughout_is_an_error() {
    assert_eq!(node_batch_outcome(Ok(result(0, 3)), 3), Err(all_failed(3)));
    let hard = Err(GraphError::StorageError("cannot open".to_string()));
    assert_eq!(node_batch_outcome(hard, 4), Err(all_failed(4)));
}

#[test]
fn hard_error_on_an_empty_batch_yields_zero() {
    let hard = Err(GraphError::StorageError("cannot open".to_string()));
    assert_eq!(node_batch_outcome(hard, 0), Ok(TraversalValue::Count(0)));
}

#[test]
fn edge_batch_without_valid_edges_is_an_error() {
    let expected = GraphError::BatchInsertFailed(BatchFailure::NoValidEdges { validation_errors: 2 });
    assert_eq!(edge_batch_outcome(Ok(result(0, 0)), 0, 2), Err(expected));
}

#[test]
fn edge_batch_yields() {
    assert_eq!(edge_batch_outcome(Ok(result(4, 0)), 4, 0), Ok(TraversalValue::Count(4)));
    assert_eq!(edge_batch_outcome(Ok(result(4, 0)), 4, 1), Ok(TraversalValue::Count(4)));
    assert_eq!(edge_batch_outcome(Ok(result(1, 3)), 4, 0), Ok(TraversalValue::Count(1)));
    assert_eq!(edge_batch_outcome(Ok(result(0, 4)), 4, 1), Err(all_failed(4)));
    assert_eq!(edge_batch_outcome(Ok(result(0, 0)), 4, 1), Err(all_failed(0)));
    let hard = Err(GraphError::StorageError("cannot open".to_string()));
    assert_eq!(edge_batch_outcome(hard, 4, 0), Err(all_failed(4)));
}

#[test]
fn vector_outcome_wraps_the_error_of_the_index() {
    let vector = HVector::new(1, vec![2]);
    assert_eq!(vector_outcome(Ok(vector.clone())), Ok(TraversalValue::Vector(vector)));
    assert_eq!(
        vector_outcome(Err(VectorError::InvalidVectorLength)),
        Err(GraphError::VectorError(VectorError::InvalidVectorLength))
    );
}

#[test]
fn validation_rejects_edges_with_a_missing_end() {
    let existing: HashSet<u128> = [1, 2, 3].into_iter().collect();
    let checked = validate_edges(
        vec![edge(10, 1, 2), edge(11, 9, 2), edge(12, 2, 9), edge(13, 3, 3), edge(14, 8, 9)],
        &existing,
    );
    let ids: Vec<u128> = checked.edges.iter().map(|edge| edge.id).collect();
    assert_eq!(ids, vec![10, 13]);
    assert_eq!(checked.positions, vec![0, 3]);
    assert_eq!(
        checked.validation_errors,
        vec![(1, GraphError::NodeNotFound), (2, GraphError::NodeNotFound), (4, GraphError::NodeNotFound)]
    );
}

#[test]
fn add_n_batch_yields_once() {
    let nodes = vec![
        Node::new(1, "User".to_string(), [0, 0, 0, 1], None),
        Node::new(2, "User".to_string(), [0, 0, 0, 1], None),
    ];
    let mut step = add_n_batch(nodes, |nodes: Vec<Node>| Ok(result(nodes.len(), 0)));
    assert_eq!(step.next(), Some(Ok(TraversalValue::Count(2))));
    assert_eq!(step.next(), None);
    assert_eq!(step.next(), None);
}

#[test]
fn add_n_batch_reports_a_batch_that_failed() {
    let nodes = vec![Node::new(1, "User".to_string(), [0, 0, 0, 1], None)];
    let mut step =
        add_n_batch(nodes, |_nodes: Vec<Node>| Err(GraphError::StorageError("no".to_string())));
    assert_eq!(step.next(), Some(Err(all_failed(1))));
}

#[test]
fn add_e_batch_does_not_insert_without_valid_edges() {
    let existing: HashSet<u128> = [1].into_iter().collect();
    let called = RefCell::new(false);
    let mut step = add_e_batch(vec![edge(10, 1, 2), edge(11, 3, 1)], &existing, |_edges: Vec<Edge>| {
        *called.borrow_mut() = true;
        Ok(result(0, 0))
    });
    assert_eq!(
        step.next(),
        Some(Err(GraphError::BatchInsertFailed(BatchFailure::NoValidEdges { validation_errors: 2 })))
    );
    assert_eq!(step.next(), None);
    assert!(!*called.borrow());
}

#[test]
fn one_missing_destination_among_five_edges() {
    let existing: HashSet<u128> = [1, 2, 3, 4, 5].into_iter().collect();
    let candidates =
        vec![edge(10, 1, 2), edge(11, 2, 3), edge(12, 3, 99), edge(13, 4, 5), edge(14, 5, 1)];
    let storage = HelixGraphStorage { secondary_indices: vec![], bm25: false };
    let out_edges: RefCell<BTreeMap<Vec<u8>, Vec<Vec<u8>>>> = RefCell::new(BTreeMap::new());
    let mut step = add_e_batch(candidates, &existing, |edges: Vec<Edge>| {
        let written = edges.into_iter().map(|edge| WrittenEdge { edge, outcome: Ok(()) }).collect();
        let pass = storage.insert_edges_batch(written, &existing, &BatchConfig::new(None, true))?;
        for (key, value) in &pass.out_edge_updates {
            out_edges.borrow_mut().entry(key.clone()).or_default().push(value.clone());
        }
        Ok(pass.finish(0, 0, 1))
    });
    assert_eq!(step.report().successful, 4);
    assert_eq!(step.report().failed, 1);
    assert_eq!(step.report().errors, vec![(2, GraphError::NodeNotFound)]);
    assert_eq!(step.next(), Some(Ok(TraversalValue::Count(4))));
    assert_eq!(step.next(), None);
    assert_eq!((step.report().successful, step.report().failed), (4, 1));
    let stored = out_edges.borrow();
    for (from, to) in [(1u128, 2u128), (2, 3), (4, 5), (5, 1)] {
        let listed = &stored[&adjacency_key(from, &[7, 7, 7, 7])];
        let ends: Vec<u128> =
            listed.iter().map(|value| parse_adjacency_value(value).unwrap().1).collect();
        assert_eq!(ends, vec![to]);
    }
    assert!(!stored.contains_key(&adjacency_key(3, &[7, 7, 7, 7])));
}

#[test]
fn report_lists_rejections_first_and_store_failures_by_candidate() {
    let inserted = BatchResult {
        successful: 1,
        failed: 2,
        errors: vec![
            (1, GraphError::StorageError("a".to_string())),
            (2, GraphError::StorageError("b".to_string())),
            (9, GraphError::StorageError("c".to_string())),
        ],
        duration_ms: 7,
    };
    let report = edge_batch_report(
        Some(Ok(inserted)),
        &vec![0, 3, 4],
        vec![(1, GraphError::NodeNotFound), (2, GraphError::NodeNotFound)],
    );
    assert_eq!(report.successful, 1);
    assert_eq!(report.failed, 4);
    assert_eq!(report.duration_ms, 7);
    assert_eq!(
        report.errors,
        vec![
            (1, GraphError::NodeNotFound),
            (2, GraphError::NodeNotFound),
            (3, GraphError::StorageError("a".to_string())),
            (4, GraphError::StorageError("b".to_string())),
            (9, GraphError::StorageError("c".to_string())),
        ]
    );
}

#[test]
fn report_of_a_batch_that_ended_in_an_error() {
    let hard = GraphError::StorageError("cannot open".to_string());
    let report =
        edge_batch_report(Some(Err(hard)), &vec![1, 2], vec![(0, GraphError::NodeNotFound)]);
    assert_eq!((report.successful, report.failed, report.duration_ms), (0, 3, 0));
    assert_eq!(
        report.errors,
        vec![
            (0, GraphError::NodeNotFound),
            (1, GraphError::StorageError("cannot open".to_string())),
        ]
    );
}

#[test]
fn report_without_an_insert_holds_the_rejections() {
    let report = edge_batch_report(None, &vec![], vec![(0, GraphError::NodeNotFound)]);
    assert_eq!((report.successful, report.failed), (0, 1));
    assert_eq!(report.errors, vec![(0, GraphError::NodeNotFound)]);
    let existing: HashSet<u128> = [1].into_iter().collect();
    let step = add_e_batch(vec![edge(10, 1, 2)], &existing, |_edges: Vec<Edge>| Ok(result(0, 0)));
    assert_eq!((step.report().successful, step.report().failed), (0, 1));
    assert_eq!(step.report().errors, vec![(0, GraphError::NodeNotFound)]);
}

#[test]
fn report_counts_stop_at_the_largest_number() {
    let report = edge_batch_report(
        Some(Ok(result(0, usize::MAX))),
        &vec![0],
        vec![(1, GraphError::NodeNotFound)],
    );
    assert_eq!(report.failed, usize::MAX);
}

#[test]
fn follows_edge_is_found_from_its_source() {
    let storage = HelixGraphStorage { secondary_indices: vec![], bm25: false };
    let follows_hash = [0x0f, 0x01, 0x10, 0x05];
    let likes_hash = [0x11, 0x22, 0x33, 0x44];
    let existing: HashSet<u128> = [1, 2].into_iter().collect();
    let candidates = vec![
        Edge::new(100, "Follows".to_string(), follows_hash, 1, 2, None),
        Edge::new(101, "Likes".to_string(), likes_hash, 2, 1, None),
    ];
    let checked = validate_edges(candidates, &existing);
    assert!(checked.validation_errors.is_empty());
    let written =
        checked.edges.into_iter().map(|edge| WrittenEdge { edge, outcome: Ok(()) }).collect();
    let pass =
        storage.insert_edges_batch(written, &existing, &BatchConfig::new(None, true)).unwrap();
    let mut out_edges: BTreeMap<Vec<u8>, Vec<Vec<u8>>> = BTreeMap::new();
    for (key, value) in &pass.out_edge_updates {
        out_edges.entry(key.clone()).or_default().push(value.clone());
    }
    let found: Vec<u128> = out_edges
        .get(&adjacency_key(1, &follows_hash))
        .map(|values| values.iter().map(|v| parse_adjacency_value(v).unwrap().1).collect())
        .unwrap_or_default();
    assert_eq!(found, vec![2]);
    assert!(out_edges.get(&adjacency_key(1, &likes_hash)).is_none());
    assert!(out_edges.get(&adjacency_key(2, &follows_hash)).is_none());
}

fn rendered(text: &str) -> Value {
    Value { encoded: text.as_bytes().to_vec(), text: text.to_string() }
}

#[test]
fn insert_v_appends_label_and_deletion_mark() {
    let seen: RefCell<Vec<(String, Value)>> = RefCell::new(vec![]);
    let mut step = insert_v(
        rendered("Doc"),
        rendered("false"),
        Some(vec![("title".to_string(), rendered("a"))]),
        |named: Vec<(String, Value)>| {
            *seen.borrow_mut() = named;
            Ok(HVector::new(5, vec![1]))
        },
    );
    assert_eq!(step.next(), Some(Ok(TraversalValue::Vector(HVector::new(5, vec![1])))));
    assert_eq!(step.next(), None);
    assert_eq!(
        *seen.borrow(),
        vec![
            ("title".to_string(), rendered("a")),
            ("label".to_string(), rendered("Doc")),
            ("is_deleted".to_string(), rendered("false")),
        ]
    );
}

#[test]
fn insert_v_without_fields_has_the_two_standard_ones() {
    let seen: RefCell<Vec<String>> = RefCell::new(vec![]);
    let mut step = insert_v(rendered("Doc"), rendered("false"), None, |named: Vec<(String, Value)>| {
        *seen.borrow_mut() = named.into_iter().map(|field| field.0).collect();
        Err(VectorError::InvalidVectorLength)
    });
    assert_eq!(step.next(), Some(Err(GraphError::VectorError(VectorError::InvalidVectorLength))));
    assert_eq!(*seen.borrow(), vec!["label".to_string(), "is_deleted".to_string()]);
}
