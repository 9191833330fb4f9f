use helix_db::batch_insert::{
    BatchConfig, HelixGraphStorage, IndexUpdate, WrittenEdge, WrittenNode, DEFAULT_BATCH_SIZE,
};
use helix_db::error::{BatchFailure, GraphError};
use helix_db::graph::{Edge, Node, Value};
use helix_db::keys::{adjacency_key, adjacency_value};
use std::collections::HashSet;

fn value(text: &str, encoded: &[u8]) -> Value {
    Value { encoded: encoded.to_vec(), text: text.to_string() }
}

fn user(id: u128, name: &str) -> Node {
    Node::new(
        id,
        "User".to_string(),
        [1, 2, 3, 4],
        Some(vec![
            ("username".to_string(), value(name, name.as_bytes())),
            ("age".to_string(), value("30", &[30])),
        ]),
    )
}

fn storage() -> HelixGraphStorage {
    HelixGraphStorage { secondary_indices: vec!["uuid".to_string(), "username".to_string()], bm25: true }
}

fn written(node: Node) -> WrittenNode {
    WrittenNode { node, outcome: Ok(()) }
}

fn refused(node: Node, text: &str) -> WrittenNode {
    WrittenNode { node, outcome: Err(GraphError::StorageError(text.to_string())) }
}

#[test]
fn batch_config_defaults() {
    assert_eq!(DEFAULT_BATCH_SIZE, 10_000);
    assert_eq!(BatchConfig::new(None, true), BatchConfig { batch_size: 10_000, auto_commit: true });
    assert_eq!(BatchConfig::new(Some(5), false), BatchConfig { batch_size: 5, auto_commit: false });
}

#[test]
fn a_batch_goes_on_after_a_failure_only_with_auto_commit() {
    let failed = Err(GraphError::StorageError("no".to_string()));
    assert!(BatchConfig::new(None, true).goes_on(&Ok(())));
    assert!(BatchConfig::new(None, false).goes_on(&Ok(())));
    assert!(BatchConfig::new(None, true).goes_on(&failed));
    assert!(!BatchConfig::new(None, false).goes_on(&failed));
}

#[test]
fn has_index_compares_names() {
    let storage = storage();
    assert!(storage.has_index(&"uuid".to_string()));
    assert!(storage.has_index(&"username".to_string()));
    assert!(!storage.has_index(&"user".to_string()));
    assert!(!storage.has_index(&"".to_string()));
}

#[test]
fn all_valid_nodes_are_counted_successful() {
    let nodes: Vec<WrittenNode> = (1..=5).map(|id| written(user(id, "ann"))).collect();
    let pass = storage().insert_nodes_batch(nodes, &BatchConfig::new(None, true)).unwrap();
    assert_eq!(pass.successful, 5);
    assert_eq!(pass.failed, 0);
    assert!(pass.errors.is_empty());
    let result = pass.finish(0, 0, 12);
    assert_eq!((result.successful, result.failed, result.errors.len()), (5, 0, 0));
    assert_eq!(result.duration_ms, 12);
}

#[test]
fn invalid_nodes_are_counted_and_listed() {
    let nodes = vec![
        written(user(1, "ann")),
        refused(user(2, "bob"), "key order"),
        written(user(3, "cy")),
        refused(user(4, "dee"), "map full"),
        written(user(5, "eve")),
    ];
    let result = storage()
        .insert_nodes_batch(nodes, &BatchConfig::new(None, true))
        .unwrap()
        .finish(0, 0, 0);
    assert_eq!(result.successful, 3);
    assert_eq!(result.failed, 2);
    assert_eq!(
        result.errors,
        vec![
            (1, GraphError::StorageError("key order".to_string())),
            (3, GraphError::StorageError("map full".to_string())),
        ]
    );
}

#[test]
fn fail_fast_gives_up_at_the_first_failure() {
    let nodes = vec![
        written(user(1, "ann")),
        refused(user(2, "bob"), "first"),
        refused(user(3, "cy"), "second"),
    ];
    let pass = storage().insert_nodes_batch(nodes, &BatchConfig::new(None, false));
    assert_eq!(
        pass.err(),
        Some(GraphError::BatchInsertFailed(BatchFailure::FailedAt {
            index: 1,
            cause: Box::new(GraphError::StorageError("first".to_string())),
        }))
    );
}

#[test]
fn fail_fast_without_failure_ends_as_usual() {
    let nodes = vec![written(user(1, "ann")), written(user(2, "bob"))];
    let pass = storage().insert_nodes_batch(nodes, &BatchConfig::new(None, false)).unwrap();
    assert_eq!((pass.successful, pass.failed), (2, 0));
}

#[test]
fn empty_batch_is_empty() {
    let pass = storage().insert_nodes_batch(vec![], &BatchConfig::new(None, false)).unwrap();
    assert_eq!((pass.successful, pass.failed), (0, 0));
    assert!(pass.index_updates.is_empty());
    assert!(pass.documents.is_empty());
}

#[test]
fn second_pass_holds_index_entries_of_written_nodes() {
    let nodes = vec![written(user(1, "ann")), refused(user(2, "bob"), "no"), written(user(3, "cy"))];
    let pass = storage().insert_nodes_batch(nodes, &BatchConfig::new(None, true)).unwrap();
    assert_eq!(
        pass.index_updates,
        vec![
            IndexUpdate {
                index: "username".to_string(),
                key: vec![1, 2, 3, 4, b'a', b'n', b'n'],
                node_id: 1,
            },
            IndexUpdate { index: "username".to_string(), key: vec![1, 2, 3, 4, b'c', b'y'], node_id: 3 },
        ]
    );
}

#[test]
fn second_pass_holds_documents_of_written_nodes() {
    let nodes = vec![written(user(1, "ann")), refused(user(2, "bob"), "no")];
    let pass = storage().insert_nodes_batch(nodes, &BatchConfig::new(None, true)).unwrap();
    assert_eq!(pass.documents, vec![(1, "ann 30 User".to_string())]);
}

#[test]
fn node_without_properties_has_its_label_as_document() {
    let node = Node::new(9, "Tag".to_string(), [0, 0, 0, 0], None);
    let pass = storage()
        .insert_nodes_batch(vec![written(node)], &BatchConfig::new(None, true))
        .unwrap();
    assert_eq!(pass.documents, vec![(9, "Tag".to_string())]);
    assert!(pass.index_updates.is_empty());
}

#[test]
fn no_documents_without_full_text_index() {
    let storage = HelixGraphStorage { secondary_indices: vec![], bm25: false };
    let pass = storage
        .insert_nodes_batch(vec![written(user(1, "ann"))], &BatchConfig::new(None, true))
        .unwrap();
    assert!(pass.documents.is_empty());
    assert!(pass.index_updates.is_empty());
}

#[test]
fn failures_of_the_second_pass_count_as_failed() {
    let nodes = vec![written(user(1, "ann")), refused(user(2, "bob"), "no")];
    let result = storage()
        .insert_nodes_batch(nodes, &BatchConfig::new(None, true))
        .unwrap()
        .finish(1, 1, 3);
    assert_eq!(result.successful, 1);
    assert_eq!(result.failed, 3);
    assert_eq!(result.errors.len(), 1);
}

#[test]
fn process_single_node_collects_after_a_success_only() {
    let storage = storage();
    let mut updates = Vec::new();
    let mut documents = Vec::new();
    let failed = storage.process_single_node(
        &user(1, "ann"),
        Err(GraphError::ConversionError("bad".to_string())),
        &mut updates,
        &mut documents,
    );
    assert_eq!(failed, Err(GraphError::ConversionError("bad".to_string())));
    assert!(updates.is_empty() && documents.is_empty());
    let done = storage.process_single_node(&user(1, "ann"), Ok(()), &mut updates, &mut documents);
    assert_eq!(done, Ok(()));
    assert_eq!(updates.len(), 1);
    assert_eq!(documents, vec![(1, "ann 30 User".to_string())]);
}

fn stored(ids: &[u128]) -> HashSet<u128> {
    ids.iter().copied().collect()
}

fn follows(id: u128, from: u128, to: u128) -> Edge {
    Edge::new(id, "Follows".to_string(), [9, 9, 9, 9], from, to, None)
}

#[test]
fn process_single_edge_derives_both_adjacency_entries() {
    let mut out = Vec::new();
    let mut inward = Vec::new();
    let done = storage().process_single_edge(&follows(7, 1, 2), Ok(()), &mut out, &mut inward);
    assert_eq!(done, Ok(()));
    assert_eq!(out, vec![(adjacency_key(1, &[9, 9, 9, 9]), adjacency_value(7, 2))]);
    assert_eq!(inward, vec![(adjacency_key(2, &[9, 9, 9, 9]), adjacency_value(7, 1))]);
    assert_eq!(out[0].0.len(), 20);
    assert_eq!(out[0].1.len(), 32);
}

#[test]
fn edge_batch_counts_and_derives_adjacency() {
    let edges = vec![
        WrittenEdge { edge: follows(10, 1, 2), outcome: Ok(()) },
        WrittenEdge {
            edge: follows(11, 2, 3),
            outcome: Err(GraphError::StorageError("no".to_string())),
        },
        WrittenEdge { edge: follows(12, 3, 1), outcome: Ok(()) },
    ];
    let pass = storage()
        .insert_edges_batch(edges, &stored(&[1, 2, 3]), &BatchConfig::new(None, true))
        .unwrap();
    assert_eq!((pass.successful, pass.failed), (2, 1));
    assert_eq!(pass.errors, vec![(1, GraphError::StorageError("no".to_string()))]);
    assert_eq!(
        pass.out_edge_updates,
        vec![
            (adjacency_key(1, &[9, 9, 9, 9]), adjacency_value(10, 2)),
            (adjacency_key(3, &[9, 9, 9, 9]), adjacency_value(12, 1)),
        ]
    );
    assert_eq!(
        pass.in_edge_updates,
        vec![
            (adjacency_key(2, &[9, 9, 9, 9]), adjacency_value(10, 1)),
            (adjacency_key(1, &[9, 9, 9, 9]), adjacency_value(12, 3)),
        ]
    );
    let result = pass.finish(1, 0, 5);
    assert_eq!((result.successful, result.failed), (2, 2));
}

#[test]
fn edge_batch_fail_fast() {
    let edges = vec![WrittenEdge {
        edge: follows(10, 1, 2),
        outcome: Err(GraphError::ConversionError("bad".to_string())),
    }];
    let pass = storage().insert_edges_batch(edges, &stored(&[1, 2]), &BatchConfig::new(None, false));
    assert_eq!(
        pass.err(),
        Some(GraphError::BatchInsertFailed(BatchFailure::FailedAt {
            index: 0,
            cause: Box::new(GraphError::ConversionError("bad".to_string())),
        }))
    );
}

#[test]
fn check_ends_wants_both_ends_stored() {
    let storage = storage();
    assert_eq!(storage.check_ends(&follows(7, 1, 2), &stored(&[1, 2])), Ok(()));
    assert_eq!(storage.check_ends(&follows(7, 1, 1), &stored(&[1])), Ok(()));
    assert_eq!(storage.check_ends(&follows(7, 1, 2), &stored(&[1])), Err(GraphError::NodeNotFound));
    assert_eq!(storage.check_ends(&follows(7, 1, 2), &stored(&[2])), Err(GraphError::NodeNotFound));
    assert_eq!(storage.check_ends(&follows(7, 1, 2), &stored(&[])), Err(GraphError::NodeNotFound));
}

#[test]
fn edges_with_a_missing_end_are_turned_away_by_themselves() {
    let edges = vec![
        WrittenEdge { edge: follows(10, 1, 2), outcome: Ok(()) },
        WrittenEdge { edge: follows(11, 2, 99), outcome: Ok(()) },
        WrittenEdge { edge: follows(12, 98, 1), outcome: Err(GraphError::NodeNotFound) },
        WrittenEdge {
            edge: follows(13, 2, 1),
            outcome: Err(GraphError::StorageError("no".to_string())),
        },
        WrittenEdge { edge: follows(14, 2, 1), outcome: Ok(()) },
    ];
    let pass = storage()
        .insert_edges_batch(edges, &stored(&[1, 2]), &BatchConfig::new(None, true))
        .unwrap();
    assert_eq!((pass.successful, pass.failed), (2, 3));
    assert_eq!(
        pass.errors,
        vec![
            (1, GraphError::NodeNotFound),
            (2, GraphError::NodeNotFound),
            (3, GraphError::StorageError("no".to_string())),
        ]
    );
    assert_eq!(
        pass.out_edge_updates,
        vec![
            (adjacency_key(1, &[9, 9, 9, 9]), adjacency_value(10, 2)),
            (adjacency_key(2, &[9, 9, 9, 9]), adjacency_value(14, 1)),
        ]
    );
    assert_eq!(pass.in_edge_updates.len(), 2);
    let result = pass.finish(0, 0, 0);
    assert_eq!((result.successful, result.failed, result.errors.len()), (2, 3, 3));
}

#[test]
fn a_missing_end_ends_a_fail_fast_batch() {
    let edges = vec![
        WrittenEdge { edge: follows(10, 1, 2), outcome: Ok(()) },
        WrittenEdge { edge: follows(11, 2, 99), outcome: Ok(()) },
    ];
    let pass = storage().insert_edges_batch(edges, &stored(&[1, 2]), &BatchConfig::new(None, false));
    assert_eq!(
        pass.err(),
        Some(GraphError::BatchInsertFailed(BatchFailure::FailedAt {
            index: 1,
            cause: Box::new(GraphError::NodeNotFound),
        }))
    );
}
