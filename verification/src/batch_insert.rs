//! Bulk insertion of nodes and edges: what is written and how the
//! outcome is counted.
//!
//! A batch runs in one write transaction and in two passes. The first
//! pass writes the records themselves, in append mode; the second writes
//! what was derived from the records that went in: secondary index
//! entries and full-text documents for nodes, adjacency entries for
//! edges. The transaction is committed once, at the end.
//!
//! The writes are the caller's. This module is told how the write of each
//! record ended, decides whether the batch goes on, derives the second
//! pass from the records that were written, and draws up the result. A
//! record whose write failed is counted and reported with its position;
//! with `auto_commit` off the first such failure ends the batch, and the
//! caller has to drop the transaction without committing.
//!
//! An edge is written only if both of its ends are stored nodes. An edge
//! with a missing end is turned away before the transaction opens; it
//! fails by itself, with its position, and keeps no other edge from the
//! store.

use vstd::prelude::*;
use vstd::std_specs::hash::group_hash_axioms;
use vstd::string::StringExecFns;
use std::collections::HashSet;
use crate::error::{BatchFailure, GraphError};
use crate::graph::{Edge, Node, Value};
use crate::keys::{
    adjacency_key, adjacency_key_spec, adjacency_value, adjacency_value_spec, index_key,
    index_key_spec,
};

verus! {

/// The batch size that is used where the configuration names none.
pub const DEFAULT_BATCH_SIZE: usize = 10_000;

/// How a batch is to be run.
#[derive(Debug, Clone, Copy, PartialEq, Eq)]
pub struct BatchConfig {
    /// Number of operations after which a long-running transaction is
    /// committed.
    pub batch_size: usize,
    /// Whether a batch goes on after a record failed. The transaction is
    /// committed once at the end in either case.
    pub auto_commit: bool,
}

/// How a batch ended.
#[derive(Debug, PartialEq, Eq)]
pub struct BatchResult {
    /// Records that were written.
    pub successful: usize,
    /// Writes that failed: records, and writes of the second pass.
    pub failed: usize,
    /// The records that failed, by position in the batch, with the cause.
    pub errors: Vec<(usize, GraphError)>,
    /// Time the batch took, in milliseconds.
    pub duration_ms: u128,
}

/// The mathematical value of a [`BatchResult`].
pub struct BatchResultView {
    pub successful: usize,
    pub failed: usize,
    pub errors: Seq<(usize, GraphError)>,
    pub duration_ms: u128,
}

impl View for BatchResult {
    type V = BatchResultView;

    open spec fn view(&self) -> BatchResultView {
        BatchResultView {
            successful: self.successful,
            failed: self.failed,
            errors: self.errors@,
            duration_ms: self.duration_ms,
        }
    }
}

/// What the batch writer reads of the storage: the names of the
/// secondary indices and whether a full-text index is kept.
#[derive(Debug, Clone, PartialEq, Eq)]
pub struct HelixGraphStorage {
    pub secondary_indices: Vec<String>,
    pub bm25: bool,
}

/// A node with the outcome of its write into the node table.
pub struct WrittenNode {
    pub node: Node,
    pub outcome: Result<(), GraphError>,
}

/// An edge with the outcome of its write into the edge table.
pub struct WrittenEdge {
    pub edge: Edge,
    pub outcome: Result<(), GraphError>,
}

/// One entry to add to a secondary index.
#[derive(Debug, Clone, PartialEq, Eq)]
pub struct IndexUpdate {
    /// Name of the index, which is the name of the property.
    pub index: String,
    pub key: Vec<u8>,
    pub node_id: u128,
}

/// The mathematical value of an [`IndexUpdate`].
pub struct IndexUpdateView {
    pub index: Seq<char>,
    pub key: Seq<u8>,
    pub node_id: u128,
}

impl View for IndexUpdate {
    type V = IndexUpdateView;

    open spec fn view(&self) -> IndexUpdateView {
        IndexUpdateView { index: self.index@, key: self.key@, node_id: self.node_id }
    }
}

/// The values of `updates`.
pub open spec fn update_views(updates: Seq<IndexUpdate>) -> Seq<IndexUpdateView> {
    Seq::new(updates.len(), |i: int| updates[i]@)
}

/// The values of the full-text documents `documents`.
pub open spec fn document_views(documents: Seq<(u128, String)>) -> Seq<(u128, Seq<char>)> {
    Seq::new(documents.len(), |i: int| (documents[i].0, documents[i].1@))
}

/// The values of the key-value pairs `pairs`.
pub open spec fn pair_views(pairs: Seq<(Vec<u8>, Vec<u8>)>) -> Seq<(Seq<u8>, Seq<u8>)> {
    Seq::new(pairs.len(), |i: int| (pairs[i].0@, pairs[i].1@))
}

/// Whether a secondary index named `name` is kept.
pub open spec fn is_indexed(indices: Seq<String>, name: Seq<char>) -> bool {
    exists|i: int| 0 <= i < indices.len() && (#[trigger] indices[i])@ == name
}

/// The index entries for the properties `properties` of node `id`: one
/// for each property that has an index, in the order of the properties.
pub open spec fn index_updates_for(
    indices: Seq<String>,
    label_hash: Seq<u8>,
    id: u128,
    properties: Seq<(String, Value)>,
) -> Seq<IndexUpdateView>
    decreases properties.len(),
{
    if properties.len() == 0 {
        Seq::empty()
    } else {
        let earlier = index_updates_for(indices, label_hash, id, properties.drop_last());
        let name = properties.last().0@;
        if is_indexed(indices, name) {
            earlier.push(
                IndexUpdateView {
                    index: name,
                    key: index_key_spec(label_hash, properties.last().1.encoded@),
                    node_id: id,
                },
            )
        } else {
            earlier
        }
    }
}

/// The index entries for `node`.
pub open spec fn node_index_updates(indices: Seq<String>, node: Node) -> Seq<IndexUpdateView> {
    match node.properties {
        Some(properties) => index_updates_for(indices, node.label_hash@, node.id, properties@),
        None => Seq::empty(),
    }
}

/// The texts of the values of `properties`, each followed by a blank.
pub open spec fn values_text(properties: Seq<(String, Value)>) -> Seq<char>
    decreases properties.len(),
{
    if properties.len() == 0 {
        Seq::empty()
    } else {
        values_text(properties.drop_last()) + properties.last().1.text@ + seq![' ']
    }
}

/// The full-text document of `node`: the texts of its property values,
/// each followed by a blank, and then its label.
pub open spec fn node_document(node: Node) -> Seq<char> {
    match node.properties {
        Some(properties) => values_text(properties@) + node.label@,
        None => node.label@,
    }
}

/// The full-text documents to write for `node`: one if a full-text index
/// is kept.
pub open spec fn node_documents(bm25: bool, node: Node) -> Seq<(u128, Seq<char>)> {
    if bm25 {
        seq![(node.id, node_document(node))]
    } else {
        Seq::empty()
    }
}

/// The entry that lists `edge` among the edges that leave its source.
pub open spec fn out_edge_update(edge: Edge) -> (Seq<u8>, Seq<u8>) {
    (
        adjacency_key_spec(edge.from_node, edge.label_hash@),
        adjacency_value_spec(edge.id, edge.to_node),
    )
}

/// The entry that lists `edge` among the edges that reach its destination.
pub open spec fn in_edge_update(edge: Edge) -> (Seq<u8>, Seq<u8>) {
    (
        adjacency_key_spec(edge.to_node, edge.label_hash@),
        adjacency_value_spec(edge.id, edge.from_node),
    )
}

/// Whether both ends of `edge` are among the nodes `existing`.
pub open spec fn endpoints_exist(edge: Edge, existing: Set<u128>) -> bool {
    existing.contains(edge.from_node) && existing.contains(edge.to_node)
}

/// `edges` with each edge of which an end is missing among `existing`
/// turned away: whatever is said of its write, it fails for the missing
/// node.
pub open spec fn with_ends_checked(edges: Seq<WrittenEdge>, existing: Set<u128>) -> Seq<WrittenEdge> {
    Seq::new(
        edges.len(),
        |i: int|
            if endpoints_exist(edges[i].edge, existing) {
                edges[i]
            } else {
                WrittenEdge { edge: edges[i].edge, outcome: Err(GraphError::NodeNotFound) }
            },
    )
}

/// The outcomes of the writes of `nodes`, in their order.
pub open spec fn node_outcomes(nodes: Seq<WrittenNode>) -> Seq<Result<(), GraphError>> {
    Seq::new(nodes.len(), |i: int| nodes[i].outcome)
}

/// The outcomes of the writes of `edges`, in their order.
pub open spec fn edge_outcomes(edges: Seq<WrittenEdge>) -> Seq<Result<(), GraphError>> {
    Seq::new(edges.len(), |i: int| edges[i].outcome)
}

/// The failures among `outcomes`: position and cause, in their order.
pub open spec fn failures(outcomes: Seq<Result<(), GraphError>>) -> Seq<(usize, GraphError)>
    decreases outcomes.len(),
{
    if outcomes.len() == 0 {
        Seq::empty()
    } else {
        let earlier = failures(outcomes.drop_last());
        match outcomes.last() {
            Ok(_) => earlier,
            Err(cause) => earlier.push(((outcomes.len() - 1) as usize, cause)),
        }
    }
}

/// The number of successes among `outcomes`.
pub open spec fn successes(outcomes: Seq<Result<(), GraphError>>) -> nat
    decreases outcomes.len(),
{
    if outcomes.len() == 0 {
        0
    } else {
        successes(outcomes.drop_last()) + if outcomes.last() is Ok {
            1nat
        } else {
            0nat
        }
    }
}

/// The index entries of the second pass: those of the nodes that were
/// written, in the order of the nodes.
pub open spec fn second_pass_updates(indices: Seq<String>, nodes: Seq<WrittenNode>) -> Seq<
    IndexUpdateView,
>
    decreases nodes.len(),
{
    if nodes.len() == 0 {
        Seq::empty()
    } else {
        let earlier = second_pass_updates(indices, nodes.drop_last());
        if nodes.last().outcome is Ok {
            earlier + node_index_updates(indices, nodes.last().node)
        } else {
            earlier
        }
    }
}

/// The full-text documents of the second pass: those of the nodes that
/// were written, in the order of the nodes.
pub open spec fn second_pass_documents(bm25: bool, nodes: Seq<WrittenNode>) -> Seq<
    (u128, Seq<char>),
>
    decreases nodes.len(),
{
    if nodes.len() == 0 {
        Seq::empty()
    } else {
        let earlier = second_pass_documents(bm25, nodes.drop_last());
        if nodes.last().outcome is Ok {
            earlier + node_documents(bm25, nodes.last().node)
        } else {
            earlier
        }
    }
}

/// The entries of the second pass under the sources of the edges that
/// were written, in the order of the edges.
pub open spec fn second_pass_out_edges(edges: Seq<WrittenEdge>) -> Seq<(Seq<u8>, Seq<u8>)>
    decreases edges.len(),
{
    if edges.len() == 0 {
        Seq::empty()
    } else {
        let earlier = second_pass_out_edges(edges.drop_last());
        if edges.last().outcome is Ok {
            earlier.push(out_edge_update(edges.last().edge))
        } else {
            earlier
        }
    }
}

/// The entries of the second pass under the destinations of the edges
/// that were written, in the order of the edges.
pub open spec fn second_pass_in_edges(edges: Seq<WrittenEdge>) -> Seq<(Seq<u8>, Seq<u8>)>
    decreases edges.len(),
{
    if edges.len() == 0 {
        Seq::empty()
    } else {
        let earlier = second_pass_in_edges(edges.drop_last());
        if edges.last().outcome is Ok {
            earlier.push(in_edge_update(edges.last().edge))
        } else {
            earlier
        }
    }
}

/// Every record of a batch either was written or is among the failures:
/// with `n` records of which `k` fail, `n - k` are counted as successful
/// and `k` are reported, each with a position inside the batch.
pub proof fn lemma_every_record_counted(outcomes: Seq<Result<(), GraphError>>)
    ensures
        successes(outcomes) + failures(outcomes).len() == outcomes.len(),
        (forall|i: int| 0 <= i < outcomes.len() ==> (#[trigger] outcomes[i]) is Ok) ==> successes(
            outcomes,
        ) == outcomes.len() && failures(outcomes).len() == 0,
        forall|k: int|
            0 <= k < failures(outcomes).len() ==> (#[trigger] failures(outcomes)[k]).0
                < outcomes.len(),
    decreases outcomes.len(),
{
    if outcomes.len() > 0 {
        lemma_every_record_counted(outcomes.drop_last());
        let earlier = failures(outcomes.drop_last());
        assert forall|k: int| 0 <= k < failures(outcomes).len() implies (#[trigger] failures(
            outcomes,
        )[k]).0 < outcomes.len() by {
            if k < earlier.len() {
                assert(failures(outcomes)[k] == earlier[k]);
            }
        }
        if forall|i: int| 0 <= i < outcomes.len() ==> (#[trigger] outcomes[i]) is Ok {
            assert forall|i: int| 0 <= i < outcomes.drop_last().len() implies (
            #[trigger] outcomes.drop_last()[i]) is Ok by {
                assert(outcomes[i] is Ok);
            }
            assert(outcomes[outcomes.len() - 1] is Ok);
        }
    }
}

/// The failures among the first `k` outcomes are the first failures among
/// all of them.
pub proof fn lemma_failures_of_prefix(outcomes: Seq<Result<(), GraphError>>, k: int)
    requires
        0 <= k <= outcomes.len(),
    ensures
        failures(outcomes.take(k)).is_prefix_of(failures(outcomes)),
    decreases outcomes.len(),
{
    if k == outcomes.len() {
        assert(outcomes.take(k) =~= outcomes);
    } else {
        lemma_failures_of_prefix(outcomes.drop_last(), k);
        assert(outcomes.drop_last().take(k) =~= outcomes.take(k));
    }
}

/// What is left to do and what is known after the first pass of a batch
/// of nodes.
pub struct NodeSecondPass {
    /// Nodes that were written.
    pub successful: usize,
    /// Nodes that were not.
    pub failed: usize,
    /// The nodes that were not written, by position, with the cause.
    pub errors: Vec<(usize, GraphError)>,
    /// The secondary index entries to write.
    pub index_updates: Vec<IndexUpdate>,
    /// The full-text documents to write, by node.
    pub documents: Vec<(u128, String)>,
}

/// What is left to do and what is known after the first pass of a batch
/// of edges.
pub struct EdgeSecondPass {
    /// Edges that were written.
    pub successful: usize,
    /// Edges that were not.
    pub failed: usize,
    /// The edges that were not written, by position, with the cause.
    pub errors: Vec<(usize, GraphError)>,
    /// The entries to append under the sources.
    pub out_edge_updates: Vec<(Vec<u8>, Vec<u8>)>,
    /// The entries to append under the destinations.
    pub in_edge_updates: Vec<(Vec<u8>, Vec<u8>)>,
}

/// Whether `error` reports that a fail-fast batch with the outcomes
/// `outcomes` was given up at its first failure.
pub open spec fn gave_up_at_first_failure(
    error: GraphError,
    outcomes: Seq<Result<(), GraphError>>,
) -> bool {
    &&& failures(outcomes).len() > 0
    &&& error matches GraphError::BatchInsertFailed(BatchFailure::FailedAt { index, cause })
    &&& index == failures(outcomes)[0].0
    &&& *cause == failures(outcomes)[0].1
}

/// Draws up the result of a batch from the counts of its first pass and
/// the number of writes of its second pass that failed.
fn batch_result(
    successful: usize,
    failed: usize,
    errors: Vec<(usize, GraphError)>,
    failed_later: usize,
    duration_ms: u128,
) -> (result: BatchResult)
    requires
        failed + failed_later <= usize::MAX,
    ensures
        result.successful == successful,
        result.failed == failed + failed_later,
        result.errors == errors,
        result.duration_ms == duration_ms,
{
    BatchResult { successful, failed: failed + failed_later, errors, duration_ms }
}

impl NodeSecondPass {
    /// The result of the batch, once the second pass has run:
    /// `failed_index_updates` of the index entries and `failed_documents`
    /// of the documents could not be written, and the batch took
    /// `duration_ms` milliseconds. Each failed write of the second pass
    /// counts as one failure; the list of errors holds the nodes only.
    pub fn finish(self, failed_index_updates: usize, failed_documents: usize, duration_ms: u128) -> (result:
        BatchResult)
        requires
            self.failed + failed_index_updates + failed_documents <= usize::MAX,
        ensures
            result.successful == self.successful,
            result.failed == self.failed + failed_index_updates + failed_documents,
            result.errors == self.errors,
            result.duration_ms == duration_ms,
    {
        batch_result(
            self.successful,
            self.failed,
            self.errors,
            failed_index_updates + failed_documents,
            duration_ms,
        )
    }
}

impl EdgeSecondPass {
    /// The result of the batch, once the second pass has run:
    /// `failed_out_updates` of the entries under the sources and
    /// `failed_in_updates` of those under the destinations could not be
    /// written, and the batch took `duration_ms` milliseconds.
    pub fn finish(self, failed_out_updates: usize, failed_in_updates: usize, duration_ms: u128) -> (result:
        BatchResult)
        requires
            self.failed + failed_out_updates + failed_in_updates <= usize::MAX,
        ensures
            result.successful == self.successful,
            result.failed == self.failed + failed_out_updates + failed_in_updates,
            result.errors == self.errors,
            result.duration_ms == duration_ms,
    {
        batch_result(
            self.successful,
            self.failed,
            self.errors,
            failed_out_updates + failed_in_updates,
            duration_ms,
        )
    }
}

impl BatchConfig {
    /// The configuration with batch size `batch_size`, or
    /// [`DEFAULT_BATCH_SIZE`] where none is given.
    pub fn new(batch_size: Option<usize>, auto_commit: bool) -> (config: BatchConfig)
        ensures
            config.auto_commit == auto_commit,
            config.batch_size == match batch_size {
                Some(size) => size,
                None => DEFAULT_BATCH_SIZE,
            },
    {
        BatchConfig {
            batch_size: match batch_size {
                Some(size) => size,
                None => DEFAULT_BATCH_SIZE,
            },
            auto_commit,
        }
    }

    /// Tells whether a batch goes on to its next record after a record
    /// whose write ended in `outcome`: always after a success, and after a
    /// failure only with `auto_commit` on.
    pub fn goes_on(&self, outcome: &Result<(), GraphError>) -> (more: bool)
        ensures
            more == (*outcome is Ok || self.auto_commit),
    {
        outcome.is_ok() || self.auto_commit
    }
}

impl HelixGraphStorage {
    /// Tells whether a secondary index named `name` is kept.
    pub fn has_index(&self, name: &String) -> (found: bool)
        ensures
            found == is_indexed(self.secondary_indices@, name@),
    {
        let mut i: usize = 0;
        while i < self.secondary_indices.len()
            invariant
                i <= self.secondary_indices@.len(),
                forall|k: int| 0 <= k < i ==> (#[trigger] self.secondary_indices@[k])@ != name@,
            decreases self.secondary_indices@.len() - i,
        {
            if self.secondary_indices[i] == *name {
                return true;
            }
            i = i + 1;
        }
        false
    }

    /// Runs the bookkeeping of the first pass of a batch of nodes, given
    /// each node with the outcome of its write.
    ///
    /// With `auto_commit` on, the batch goes on after a failure: the
    /// result counts the nodes that were written and those that were
    /// not, lists the latter, and holds the second pass for the former.
    /// With `auto_commit` off, the batch is given up at the first
    /// failure, which the error names; without a failure it ends as with
    /// `auto_commit` on.
    pub fn insert_nodes_batch(&self, nodes: Vec<WrittenNode>, config: &BatchConfig) -> (pass: Result<
        NodeSecondPass,
        GraphError,
    >)
        ensures
            match pass {
                Ok(pass) => {
                    &&& config.auto_commit || failures(node_outcomes(nodes@)).len() == 0
                    &&& pass.successful == successes(node_outcomes(nodes@))
                    &&& pass.failed == failures(node_outcomes(nodes@)).len()
                    &&& pass.errors@ == failures(node_outcomes(nodes@))
                    &&& update_views(pass.index_updates@) == second_pass_updates(
                        self.secondary_indices@,
                        nodes@,
                    )
                    &&& document_views(pass.documents@) == second_pass_documents(self.bm25, nodes@)
                },
                Err(error) => !config.auto_commit && gave_up_at_first_failure(
                    error,
                    node_outcomes(nodes@),
                ),
            },
    {
        let ghost all = nodes@;
        let ghost outcomes = node_outcomes(all);
        let total: usize = nodes.len();
        let mut successful: usize = 0;
        let mut failed: usize = 0;
        let mut errors: Vec<(usize, GraphError)> = Vec::new();
        let mut index_updates: Vec<IndexUpdate> = Vec::new();
        let mut documents: Vec<(u128, String)> = Vec::new();
        let mut idx: usize = 0;
        proof {
            assert(update_views(index_updates@) =~= second_pass_updates(
                self.secondary_indices@,
                all.take(0),
            ));
            assert(document_views(documents@) =~= second_pass_documents(self.bm25, all.take(0)));
        }
        for item in it: nodes
            invariant
                it.seq() == all,
                all.len() == total,
                outcomes == node_outcomes(all),
                idx == it.index(),
                successful == successes(outcomes.take(idx as int)),
                failed == errors@.len(),
                errors@ == failures(outcomes.take(idx as int)),
                successful + failed == idx,
                !config.auto_commit ==> failed == 0,
                update_views(index_updates@) == second_pass_updates(
                    self.secondary_indices@,
                    all.take(idx as int),
                ),
                document_views(documents@) == second_pass_documents(self.bm25, all.take(idx as int)),
        {
            proof {
                assert(outcomes.take(idx + 1).drop_last() =~= outcomes.take(idx as int));
                assert(all.take(idx + 1).drop_last() =~= all.take(idx as int));
                assert(outcomes.take(idx + 1).last() == item.outcome);
                assert(all.take(idx + 1).last() == item);
            }
            let WrittenNode { node, outcome } = item;
            match self.process_single_node(&node, outcome, &mut index_updates, &mut documents) {
                Ok(_) => {
                    successful = successful + 1;
                },
                Err(cause) => {
                    if !config.auto_commit {
                        proof {
                            lemma_failures_of_prefix(outcomes, idx + 1);
                            assert(failures(outcomes.take(idx + 1))[0] == (idx, cause));
                        }
                        return Err(
                            GraphError::BatchInsertFailed(
                                BatchFailure::FailedAt { index: idx, cause: Box::new(cause) },
                            ),
                        );
                    }
                    failed = failed + 1;
                    errors.push((idx, cause));
                },
            }
            idx = idx + 1;
        }
        proof {
            assert(outcomes.take(outcomes.len() as int) =~= outcomes);
            assert(all.take(all.len() as int) =~= all);
        }
        Ok(NodeSecondPass { successful, failed, errors, index_updates, documents })
    }

    /// Tells whether `edge` may be written: it may if both of its ends are
    /// among the stored nodes `existing`, and fails for the missing node
    /// if not.
    pub fn check_ends(&self, edge: &Edge, existing: &HashSet<u128>) -> (checked: Result<(), GraphError>)
        ensures
            checked is Ok <==> endpoints_exist(*edge, existing@),
            checked matches Err(error) ==> error == GraphError::NodeNotFound,
    {
        broadcast use group_hash_axioms;

        if existing.contains(&edge.from_node) && existing.contains(&edge.to_node) {
            Ok(())
        } else {
            Err(GraphError::NodeNotFound)
        }
    }

    /// Runs the bookkeeping of the first pass of a batch of edges, given
    /// the stored nodes that are ends of the edges and each edge with the
    /// outcome of its write.
    ///
    /// An edge of which an end is not among `existing` is turned away:
    /// it counts as failed and is listed with its position and the
    /// missing node as the cause, whatever is said of its write, and
    /// nothing is derived from it. For the rest the rules are those of
    /// [`HelixGraphStorage::insert_nodes_batch`]; the second pass holds,
    /// for each edge that was written, its entry under its source and its
    /// entry under its destination.
    pub fn insert_edges_batch(
        &self,
        edges: Vec<WrittenEdge>,
        existing: &HashSet<u128>,
        config: &BatchConfig,
    ) -> (pass: Result<EdgeSecondPass, GraphError>)
        ensures
            ({
                let checked = with_ends_checked(edges@, existing@);
                match pass {
                    Ok(pass) => {
                        &&& config.auto_commit || failures(edge_outcomes(checked)).len() == 0
                        &&& pass.successful == successes(edge_outcomes(checked))
                        &&& pass.failed == failures(edge_outcomes(checked)).len()
                        &&& pass.errors@ == failures(edge_outcomes(checked))
                        &&& pair_views(pass.out_edge_updates@) == second_pass_out_edges(checked)
                        &&& pair_views(pass.in_edge_updates@) == second_pass_in_edges(checked)
                    },
                    Err(error) => !config.auto_commit && gave_up_at_first_failure(
                        error,
                        edge_outcomes(checked),
                    ),
                }
            }),
    {
        let ghost all = edges@;
        let ghost want = with_ends_checked(all, existing@);
        let mut checked: Vec<WrittenEdge> = Vec::new();
        let mut idx: usize = 0;
        let total: usize = edges.len();
        for item in it: edges
            invariant
                it.seq() == all,
                all.len() == total,
                idx == it.index(),
                want == with_ends_checked(all, existing@),
                checked@ == want.take(idx as int),
        {
            let WrittenEdge { edge, outcome } = item;
            let outcome = match self.check_ends(&edge, existing) {
                Ok(_) => outcome,
                Err(missing) => Err(missing),
            };
            let verdict = WrittenEdge { edge, outcome };
            proof {
                assert(verdict == want[idx as int]);
                assert(want.take(idx + 1) =~= want.take(idx as int).push(want[idx as int]));
            }
            checked.push(verdict);
            idx = idx + 1;
        }
        proof {
            assert(want.take(want.len() as int) =~= want);
        }
        self.account_edges(checked, config)
    }

    /// The bookkeeping of the first pass of a batch of edges whose ends
    /// were looked up.
    fn account_edges(&self, edges: Vec<WrittenEdge>, config: &BatchConfig) -> (pass: Result<
        EdgeSecondPass,
        GraphError,
    >)
        ensures
            match pass {
                Ok(pass) => {
                    &&& config.auto_commit || failures(edge_outcomes(edges@)).len() == 0
                    &&& pass.successful == successes(edge_outcomes(edges@))
                    &&& pass.failed == failures(edge_outcomes(edges@)).len()
                    &&& pass.errors@ == failures(edge_outcomes(edges@))
                    &&& pair_views(pass.out_edge_updates@) == second_pass_out_edges(edges@)
                    &&& pair_views(pass.in_edge_updates@) == second_pass_in_edges(edges@)
                },
                Err(error) => !config.auto_commit && gave_up_at_first_failure(
                    error,
                    edge_outcomes(edges@),
                ),
            },
    {
        let ghost all = edges@;
        let ghost outcomes = edge_outcomes(all);
        let total: usize = edges.len();
        let mut successful: usize = 0;
        let mut failed: usize = 0;
        let mut errors: Vec<(usize, GraphError)> = Vec::new();
        let mut out_edge_updates: Vec<(Vec<u8>, Vec<u8>)> = Vec::new();
        let mut in_edge_updates: Vec<(Vec<u8>, Vec<u8>)> = Vec::new();
        let mut idx: usize = 0;
        proof {
            assert(pair_views(out_edge_updates@) =~= second_pass_out_edges(all.take(0)));
            assert(pair_views(in_edge_updates@) =~= second_pass_in_edges(all.take(0)));
        }
        for item in it: edges
            invariant
                it.seq() == all,
                all.len() == total,
                outcomes == edge_outcomes(all),
                idx == it.index(),
                successful == successes(outcomes.take(idx as int)),
                failed == errors@.len(),
                errors@ == failures(outcomes.take(idx as int)),
                successful + failed == idx,
                !config.auto_commit ==> failed == 0,
                pair_views(out_edge_updates@) == second_pass_out_edges(all.take(idx as int)),
                pair_views(in_edge_updates@) == second_pass_in_edges(all.take(idx as int)),
        {
            proof {
                assert(outcomes.take(idx + 1).drop_last() =~= outcomes.take(idx as int));
                assert(all.take(idx + 1).drop_last() =~= all.take(idx as int));
                assert(outcomes.take(idx + 1).last() == item.outcome);
                assert(all.take(idx + 1).last() == item);
            }
            let WrittenEdge { edge, outcome } = item;
            match self.process_single_edge(
                &edge,
                outcome,
                &mut out_edge_updates,
                &mut in_edge_updates,
            ) {
                Ok(_) => {
                    successful = successful + 1;
                },
                Err(cause) => {
                    if !config.auto_commit {
                        proof {
                            lemma_failures_of_prefix(outcomes, idx + 1);
                            assert(failures(outcomes.take(idx + 1))[0] == (idx, cause));
                        }
                        return Err(
                            GraphError::BatchInsertFailed(
                                BatchFailure::FailedAt { index: idx, cause: Box::new(cause) },
                            ),
                        );
                    }
                    failed = failed + 1;
                    errors.push((idx, cause));
                },
            }
            idx = idx + 1;
        }
        proof {
            assert(outcomes.take(outcomes.len() as int) =~= outcomes);
            assert(all.take(all.len() as int) =~= all);
        }
        Ok(EdgeSecondPass { successful, failed, errors, out_edge_updates, in_edge_updates })
    }

    /// Collects what the second pass has to write for `node`, given the
    /// outcome `written` of the write of the node itself, and hands that
    /// outcome on. After a failure nothing is collected. After a success
    /// the index entries of the node are added to `secondary_index_updates`
    /// and, if a full-text index is kept, its document to `bm25_documents`.
    pub fn process_single_node(
        &self,
        node: &Node,
        written: Result<(), GraphError>,
        secondary_index_updates: &mut Vec<IndexUpdate>,
        bm25_documents: &mut Vec<(u128, String)>,
    ) -> (done: Result<(), GraphError>)
        ensures
            done == written,
            written is Err ==> {
                &&& update_views(final(secondary_index_updates)@) == update_views(
                    old(secondary_index_updates)@,
                )
                &&& document_views(final(bm25_documents)@) == document_views(old(bm25_documents)@)
            },
            written is Ok ==> {
                &&& update_views(final(secondary_index_updates)@) == update_views(
                    old(secondary_index_updates)@,
                ) + node_index_updates(self.secondary_indices@, *node)
                &&& document_views(final(bm25_documents)@) == document_views(old(bm25_documents)@)
                    + node_documents(self.bm25, *node)
            },
    {
        if written.is_err() {
            return written;
        }
        let mut text = String::new();
        proof {
            assert(update_views(secondary_index_updates@) =~= update_views(
                old(secondary_index_updates)@,
            ) + Seq::<IndexUpdateView>::empty());
        }
        match &node.properties {
            Some(properties) => {
                let mut i: usize = 0;
                while i < properties.len()
                    invariant
                        i <= properties@.len(),
                        update_views(secondary_index_updates@) == update_views(
                            old(secondary_index_updates)@,
                        ) + index_updates_for(
                            self.secondary_indices@,
                            node.label_hash@,
                            node.id,
                            properties@.subrange(0, i as int),
                        ),
                        text@ == values_text(properties@.subrange(0, i as int)),
                    decreases properties@.len() - i,
                {
                    let name: &String = &properties[i].0;
                    let value: &Value = &properties[i].1;
                    proof {
                        assert(properties@.subrange(0, i + 1).drop_last() =~= properties@.subrange(
                            0,
                            i as int,
                        ));
                        reveal_strlit(" ");
                        assert(" "@ =~= seq![' ']);
                    }
                    if self.has_index(name) {
                        let update = IndexUpdate {
                            index: name.clone(),
                            key: index_key(&node.label_hash, value.encoded.as_slice()),
                            node_id: node.id,
                        };
                        proof {
                            assert(update_views(secondary_index_updates@.push(update))
                                =~= update_views(secondary_index_updates@).push(update@));
                        }
                        secondary_index_updates.push(update);
                    }
                    text.append(value.text.as_str());
                    text.append(" ");
                    i = i + 1;
                }
                proof {
                    assert(properties@.subrange(0, properties@.len() as int) =~= properties@);
                }
            },
            None => {},
        }
        if self.bm25 {
            text.append(node.label.as_str());
            let document = (node.id, text);
            proof {
                assert(document_views(bm25_documents@.push(document)) =~= document_views(
                    bm25_documents@,
                ) + node_documents(self.bm25, *node));
            }
            bm25_documents.push(document);
        } else {
            proof {
                assert(document_views(bm25_documents@) =~= document_views(bm25_documents@)
                    + node_documents(self.bm25, *node));
            }
        }
        written
    }

    /// Collects what the second pass has to write for `edge`, given the
    /// outcome `written` of the write of the edge itself, and hands that
    /// outcome on. After a failure nothing is collected. After a success
    /// the entry under the source is added to `out_edge_updates` and the
    /// entry under the destination to `in_edge_updates`.
    pub fn process_single_edge(
        &self,
        edge: &Edge,
        written: Result<(), GraphError>,
        out_edge_updates: &mut Vec<(Vec<u8>, Vec<u8>)>,
        in_edge_updates: &mut Vec<(Vec<u8>, Vec<u8>)>,
    ) -> (done: Result<(), GraphError>)
        ensures
            done == written,
            written is Err ==> {
                &&& pair_views(final(out_edge_updates)@) == pair_views(old(out_edge_updates)@)
                &&& pair_views(final(in_edge_updates)@) == pair_views(old(in_edge_updates)@)
            },
            written is Ok ==> {
                &&& pair_views(final(out_edge_updates)@) == pair_views(
                    old(out_edge_updates)@,
                ).push(out_edge_update(*edge))
                &&& pair_views(final(in_edge_updates)@) == pair_views(old(in_edge_updates)@).push(
                    in_edge_update(*edge),
                )
            },
    {
        if written.is_err() {
            return written;
        }
        let out_update = (
            adjacency_key(edge.from_node, &edge.label_hash),
            adjacency_value(edge.id, edge.to_node),
        );
        let in_update = (
            adjacency_key(edge.to_node, &edge.label_hash),
            adjacency_value(edge.id, edge.from_node),
        );
        proof {
            assert(pair_views(out_edge_updates@.push(out_update)) =~= pair_views(
                out_edge_updates@,
            ).push(out_edge_update(*edge)));
            assert(pair_views(in_edge_updates@.push(in_update)) =~= pair_views(
                in_edge_updates@,
            ).push(in_edge_update(*edge)));
        }
        out_edge_updates.push(out_update);
        in_edge_updates.push(in_update);
        written
    }
}

} // verus!
