//! How a transaction handle is obtained from a storage.

use vstd::prelude::*;
use std::sync::Arc;
use crate::batch_insert::HelixGraphStorage;
use crate::error::GraphError;

verus! {

/// A transaction handle that can be opened on a storage. The store
/// admits one writer at a time and any number of readers, each of which
/// sees the state as of the moment it was opened.
pub trait HelixTxn: Sized {
    /// Opens a read transaction.
    fn new_rtxn(env: &Arc<HelixGraphStorage>) -> Result<Self, GraphError>;

    /// Opens the write transaction; blocks while another one is open.
    fn new_wtxn(env: &Arc<HelixGraphStorage>) -> Result<Self, GraphError>;
}

} // verus!
