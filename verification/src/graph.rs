//! Nodes and edges as the batch writer sees them.
//!
//! The codec that turns a typed property value into bytes, the formatter
//! that turns it into text and the function that hashes a label are not
//! part of this library. A record therefore carries their results beside
//! the data: a value is held by its encoded bytes and its text, a label by
//! its name and its hash.

use vstd::prelude::*;

verus! {

/// Identifier of a node.
pub type NodeId = u128;

/// A property value, held by the bytes that the codec writes for it and
/// the text that it displays as.
#[derive(Debug, Clone, PartialEq, Eq)]
pub struct Value {
    pub encoded: Vec<u8>,
    pub text: String,
}

/// A node of the graph.
#[derive(Debug, Clone, PartialEq, Eq)]
pub struct Node {
    pub id: u128,
    pub label: String,
    /// The hash of `label` as the adjacency and index keys hold it.
    pub label_hash: [u8; 4],
    pub version: u8,
    /// The properties in the order in which they are to be read.
    pub properties: Option<Vec<(String, Value)>>,
}

/// A directed edge of the graph, from `from_node` to `to_node`.
#[derive(Debug, Clone, PartialEq, Eq)]
pub struct Edge {
    pub id: u128,
    pub label: String,
    /// The hash of `label` as the adjacency keys hold it.
    pub label_hash: [u8; 4],
    pub version: u8,
    pub from_node: u128,
    pub to_node: u128,
    pub properties: Option<Vec<(String, Value)>>,
}

impl Node {
    /// A node in its first version.
    pub fn new(
        id: u128,
        label: String,
        label_hash: [u8; 4],
        properties: Option<Vec<(String, Value)>>,
    ) -> (node: Node)
        ensures
            node == (Node { id, label, label_hash, version: 1, properties }),
    {
        Node { id, label, label_hash, version: 1, properties }
    }
}

impl Edge {
    /// An edge in its first version.
    pub fn new(
        id: u128,
        label: String,
        label_hash: [u8; 4],
        from_node: u128,
        to_node: u128,
        properties: Option<Vec<(String, Value)>>,
    ) -> (edge: Edge)
        ensures
            edge == (Edge { id, label, label_hash, version: 1, from_node, to_node, properties }),
    {
        Edge { id, label, label_hash, version: 1, from_node, to_node, properties }
    }
}

} // verus!
