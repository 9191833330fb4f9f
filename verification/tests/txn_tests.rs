use helix_db::batch_insert::HelixGraphStorage;
use helix_db::batch_transaction::BatchTransaction;
use helix_db::error::GraphError;
use helix_db::txn::HelixTxn;
use std::sync::Arc;

#[derive(Debug, PartialEq)]
struct Handle {
    write: bool,
    indices: usize,
}

impl HelixTxn for Handle {
    fn new_rtxn(env: &Arc<HelixGraphStorage>) -> Result<Self, GraphError> {
        Ok(Handle { write: false, indices: env.secondary_indices.len() })
    }

    fn new_wtxn(env: &Arc<HelixGraphStorage>) -> Result<Self, GraphError> {
        if env.bm25 {
            Ok(Handle { write: true, indices: env.secondary_indices.len() })
        } else {
            Err(GraphError::StorageError("read only".to_string()))
        }
    }
}

#[test]
fn handles_are_opened_on_a_storage() {
    let storage =
        Arc::new(HelixGraphStorage { secondary_indices: vec!["uuid".to_string()], bm25: true });
    assert_eq!(Handle::new_rtxn(&storage), Ok(Handle { write: false, indices: 1 }));
    assert_eq!(Handle::new_wtxn(&storage), Ok(Handle { write: true, indices: 1 }));
    let frozen = Arc::new(HelixGraphStorage { secondary_indices: vec![], bm25: false });
    assert_eq!(Handle::new_wtxn(&frozen), Err(GraphError::StorageError("read only".to_string())));
}

#[test]
fn a_batch_holds_a_handle_of_the_storage() {
    let storage = Arc::new(HelixGraphStorage { secondary_indices: vec![], bm25: true });
    let mut batch = BatchTransaction::new(Some(1), || Handle::new_wtxn(&storage)).unwrap();
    assert!(batch.get_txn(|| Handle::new_wtxn(&storage)).unwrap().write);
    batch.increment_operations(1, |_txn: Handle| Ok(())).unwrap();
    assert_eq!(batch.stats().commit_count, 1);
    assert!(!batch.has_txn());
}
