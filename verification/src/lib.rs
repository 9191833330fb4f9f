//! The core of an embedded graph and vector database.
//!
//! Two parts make it up. The first is the write path of the graph store:
//! the byte layouts of its keys ([`keys`]), a write transaction that
//! commits itself at a threshold ([`batch_transaction`]), and the rules of
//! bulk inserts of nodes and edges ([`batch_insert`], [`traversal`]). The
//! second is the vector index: the cache that holds its proximity graph
//! while a batch of mutations runs ([`vec_txn`], [`adjacency`]), what a
//! commit of that cache writes ([`commit`]) and that a preload reads it
//! back ([`reload`]), and search and insertion in the graph ([`hnsw`],
//! [`rank`]).
//!
//! The library neither reads nor writes a store and computes on no
//! floating-point number. A caller runs the writes that the library plans
//! and tells it how they ended; distances reach it as integer keys that
//! order as the distances do.

pub mod adjacency;
pub mod batch_insert;
pub mod batch_transaction;
pub mod commit;
pub mod config;
pub mod error;
pub mod graph;
pub mod hnsw;
pub mod keys;
pub mod order;
pub mod queries;
pub mod rank;
pub mod reload;
pub mod table;
pub mod traversal;
pub mod txn;
pub mod vec_txn;
pub mod vector;
