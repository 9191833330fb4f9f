//! Error values of the engine.
//!
//! Errors of the store and of the codec are carried as text: they are
//! observed outside this library and only passed through it.

use vstd::prelude::*;

verus! {

/// What can go wrong in the vector index.
#[derive(Debug, Clone, PartialEq, Eq)]
pub enum VectorError {
    /// Two vectors that were to be compared differ in dimension.
    InvalidVectorLength,
    /// A stored vector could not be decoded.
    InvalidVectorData,
    /// The store failed; the text is the store's own.
    StorageError(String),
}

/// Why a batch as a whole was given up.
#[derive(Debug, PartialEq, Eq)]
pub enum BatchFailure {
    /// Fail-fast was asked for and the item at `index` failed with `cause`.
    FailedAt { index: usize, cause: Box<GraphError> },
    /// No edge of the batch had both of its endpoints.
    NoValidEdges { validation_errors: usize },
    /// Every item that was tried failed.
    AllFailed { failed: usize },
}

/// What can go wrong in the graph store.
#[derive(Debug, PartialEq, Eq)]
pub enum GraphError {
    /// A node that an operation refers to does not exist.
    NodeNotFound,
    /// A batch insert was given up as a whole.
    BatchInsertFailed(BatchFailure),
    /// The store failed; the text is the store's own.
    StorageError(String),
    /// A value could not be encoded or decoded; the text is the codec's own.
    ConversionError(String),
    /// The vector index failed.
    VectorError(VectorError),
}

impl GraphError {
    /// Wraps an error of the vector index.
    pub fn from_vector_error(error: VectorError) -> (wrapped: GraphError)
        ensures
            wrapped == GraphError::VectorError(error),
    {
        GraphError::VectorError(error)
    }
}

} // verus!
