//! The write steps of a traversal: batches of nodes, batches of edges,
//! and single vectors.
//!
//! Each step prepares its input, hands it to the part of the engine that
//! writes, and turns the outcome into the one value that the step yields.
//! The writing part is given by the caller; what is prepared for it and
//! what is made of its answer is decided here.

use vstd::prelude::*;
use vstd::std_specs::hash::group_hash_axioms;
use vstd::string::StringExecFns;
use std::collections::HashSet;
use crate::batch_insert::{endpoints_exist, BatchResult, BatchResultView};
use crate::error::{BatchFailure, GraphError, VectorError};
use crate::graph::{Edge, Node, Value};
use crate::vector::HVector;

verus! {

/// A value that a traversal step yields.
#[derive(Debug, PartialEq, Eq)]
pub enum TraversalValue {
    /// A number of items.
    Count(usize),
    /// A vector of the index.
    Vector(HVector),
    /// Nothing.
    Empty,
}

/// What a step yields: a value or the error that ended it.
pub type Yield = Result<TraversalValue, GraphError>;

/// The one yield of a batch insert of nodes.
pub struct AddNBatchIterator {
    inner: Option<Yield>,
}

/// The one yield of a batch insert of edges, with the result of the
/// batch that it was drawn from.
pub struct AddEBatchIterator {
    inner: Option<Yield>,
    report: BatchResult,
}

/// The mathematical value of an [`AddEBatchIterator`].
pub struct AddEBatchView {
    /// What is still to be handed out.
    pub pending: Option<Yield>,
    /// The result of the batch, the edges that were turned away counted
    /// and listed with the others.
    pub report: BatchResultView,
}

/// The one yield of the insert of a vector.
pub struct InsertVIterator {
    inner: Option<Yield>,
}

impl View for AddNBatchIterator {
    type V = Option<Yield>;

    closed spec fn view(&self) -> Option<Yield> {
        self.inner
    }
}

impl View for AddEBatchIterator {
    type V = AddEBatchView;

    closed spec fn view(&self) -> AddEBatchView {
        AddEBatchView { pending: self.inner, report: self.report@ }
    }
}

impl View for InsertVIterator {
    type V = Option<Yield>;

    closed spec fn view(&self) -> Option<Yield> {
        self.inner
    }
}

impl AddNBatchIterator {
    /// Hands out the yield the first time and nothing after that.
    pub fn next(&mut self) -> (item: Option<Yield>)
        ensures
            item == old(self)@,
            final(self)@ is None,
    {
        self.inner.take()
    }
}

impl AddEBatchIterator {
    /// Hands out the yield the first time and nothing after that.
    pub fn next(&mut self) -> (item: Option<Yield>)
        ensures
            item == old(self)@.pending,
            final(self)@.pending is None,
            final(self)@.report == old(self)@.report,
    {
        self.inner.take()
    }

    /// The result of the batch: how many edges were written, how many
    /// were not, and which, by position among the candidates.
    pub fn report(&self) -> (report: &BatchResult)
        ensures
            report@ == self@.report,
    {
        &self.report
    }
}

impl InsertVIterator {
    /// Hands out the yield the first time and nothing after that.
    pub fn next(&mut self) -> (item: Option<Yield>)
        ensures
            item == old(self)@,
            final(self)@ is None,
    {
        self.inner.take()
    }
}

/// The counts of a batch of `attempted` records as the steps read them:
/// those of its result, or none written and all failed if the batch as a
/// whole ended in an error.
pub open spec fn batch_counts(inserted: Result<BatchResult, GraphError>, attempted: usize) -> (
    usize,
    usize,
) {
    match inserted {
        Ok(result) => (result.successful, result.failed),
        Err(_) => (0, attempted),
    }
}

/// What a batch insert of nodes yields: the number of nodes written, if
/// any was written or none failed; else the error that all failed.
pub open spec fn node_batch_yield(inserted: Result<BatchResult, GraphError>, attempted: usize) -> Yield {
    let (successful, failed) = batch_counts(inserted, attempted);
    if failed == 0 || successful > 0 {
        Ok(TraversalValue::Count(successful))
    } else {
        Err(GraphError::BatchInsertFailed(BatchFailure::AllFailed { failed }))
    }
}

/// What a batch insert of edges yields, `valid` of whose edges have both
/// of their ends and `rejected` do not: the error that no
/// edge was valid, if none was; else the number of edges written, if any
/// was written or nothing failed; else the error that all failed.
pub open spec fn edge_batch_yield(
    inserted: Result<BatchResult, GraphError>,
    valid: usize,
    rejected: usize,
) -> Yield {
    let (successful, failed) = batch_counts(inserted, valid);
    if valid == 0 {
        Err(GraphError::BatchInsertFailed(BatchFailure::NoValidEdges { validation_errors: rejected }))
    } else if (failed == 0 && rejected == 0) || successful > 0 {
        Ok(TraversalValue::Count(successful))
    } else {
        Err(GraphError::BatchInsertFailed(BatchFailure::AllFailed { failed }))
    }
}

/// What the insert of a vector yields: the vector, or the error of the
/// index as an error of the graph.
pub open spec fn vector_yield(inserted: Result<HVector, VectorError>) -> Yield {
    match inserted {
        Ok(vector) => Ok(TraversalValue::Vector(vector)),
        Err(error) => Err(GraphError::VectorError(error)),
    }
}

/// The edges of `candidates` whose ends both exist, in their order.
pub open spec fn valid_edges(candidates: Seq<Edge>, existing: Set<u128>) -> Seq<Edge>
    decreases candidates.len(),
{
    if candidates.len() == 0 {
        Seq::empty()
    } else {
        let earlier = valid_edges(candidates.drop_last(), existing);
        if endpoints_exist(candidates.last(), existing) {
            earlier.push(candidates.last())
        } else {
            earlier
        }
    }
}

/// The positions of the edges of `candidates` of which an end is missing,
/// each with the error that says so, in their order.
pub open spec fn rejected_edges(candidates: Seq<Edge>, existing: Set<u128>) -> Seq<
    (usize, GraphError),
>
    decreases candidates.len(),
{
    if candidates.len() == 0 {
        Seq::empty()
    } else {
        let earlier = rejected_edges(candidates.drop_last(), existing);
        if endpoints_exist(candidates.last(), existing) {
            earlier
        } else {
            earlier.push(((candidates.len() - 1) as usize, GraphError::NodeNotFound))
        }
    }
}

/// The positions among `candidates` of the edges whose ends both exist,
/// in their order.
pub open spec fn valid_positions(candidates: Seq<Edge>, existing: Set<u128>) -> Seq<usize>
    decreases candidates.len(),
{
    if candidates.len() == 0 {
        Seq::empty()
    } else {
        let earlier = valid_positions(candidates.drop_last(), existing);
        if endpoints_exist(candidates.last(), existing) {
            earlier.push((candidates.len() - 1) as usize)
        } else {
            earlier
        }
    }
}

/// `errors` with each position among the edges that were inserted turned
/// into the position of that edge among the candidates, which
/// `positions` gives. A position beyond the edges that were inserted is
/// left as it is.
pub open spec fn at_candidates(errors: Seq<(usize, GraphError)>, positions: Seq<usize>) -> Seq<
    (usize, GraphError),
> {
    Seq::new(
        errors.len(),
        |i: int|
            (
                if errors[i].0 < positions.len() {
                    positions[errors[i].0 as int]
                } else {
                    errors[i].0
                },
                errors[i].1,
            ),
    )
}

/// The result of a batch of `valid` edges as the step reads it: the
/// result that the insert returned, or none written and all failed, with
/// the error as the one cause, if the batch as a whole ended in an error;
/// and nothing at all if no insert was tried.
pub open spec fn batch_or_failed(
    inserted: Option<Result<BatchResult, GraphError>>,
    valid: usize,
) -> BatchResultView {
    match inserted {
        Some(Ok(result)) => result@,
        Some(Err(error)) => BatchResultView {
            successful: 0,
            failed: valid,
            errors: seq![(0usize, error)],
            duration_ms: 0,
        },
        None => BatchResultView { successful: 0, failed: 0, errors: Seq::empty(), duration_ms: 0 },
    }
}

/// The result of a batch of edges of which `rejected` were turned away
/// for a missing end and the others, at `positions` among the candidates,
/// were inserted with the outcome `inserted`: the edges that were turned
/// away count as failed and are listed first, and the failures of the
/// insert follow, by position among the candidates. A count that does not
/// fit the machine stops at the largest number.
pub open spec fn edge_report(
    inserted: Option<Result<BatchResult, GraphError>>,
    positions: Seq<usize>,
    rejected: Seq<(usize, GraphError)>,
) -> BatchResultView {
    let base = batch_or_failed(inserted, positions.len() as usize);
    BatchResultView {
        successful: base.successful,
        failed: if base.failed + rejected.len() <= usize::MAX {
            (base.failed + rejected.len()) as usize
        } else {
            usize::MAX
        },
        errors: rejected + at_candidates(base.errors, positions),
        duration_ms: base.duration_ms,
    }
}

/// Every candidate is either valid or rejected.
pub proof fn lemma_every_edge_checked(candidates: Seq<Edge>, existing: Set<u128>)
    ensures
        valid_edges(candidates, existing).len() + rejected_edges(candidates, existing).len()
            == candidates.len(),
    decreases candidates.len(),
{
    if candidates.len() > 0 {
        lemma_every_edge_checked(candidates.drop_last(), existing);
    }
}

/// The edges of which both ends exist, with their positions among the
/// candidates, and the positions of the others.
pub struct EdgeValidation {
    pub edges: Vec<Edge>,
    pub positions: Vec<usize>,
    pub validation_errors: Vec<(usize, GraphError)>,
}

/// The fields of a vector that is inserted with the label of value
/// `label`: the fields given, then the label, then the mark that the
/// vector is not deleted, of value `not_deleted`.
pub open spec fn vector_fields(
    fields: Option<Vec<(String, Value)>>,
    label: Value,
    not_deleted: Value,
    named: Seq<(String, Value)>,
) -> bool {
    let given = match fields {
        Some(fields) => fields@,
        None => Seq::empty(),
    };
    &&& named.len() == given.len() + 2
    &&& named.subrange(0, given.len() as int) == given
    &&& named[given.len() as int].0@ == "label"@
    &&& named[given.len() as int].1 == label
    &&& named[given.len() as int + 1].0@ == "is_deleted"@
    &&& named[given.len() as int + 1].1 == not_deleted
}

/// Turns the outcome of a batch insert of `attempted` nodes into what the
/// step yields.
pub fn node_batch_outcome(inserted: Result<BatchResult, GraphError>, attempted: usize) -> (yielded:
    Yield)
    ensures
        yielded == node_batch_yield(inserted, attempted),
{
    let (successful, failed) = match inserted {
        Ok(result) => (result.successful, result.failed),
        Err(_) => (0, attempted),
    };
    if failed == 0 || successful > 0 {
        Ok(TraversalValue::Count(successful))
    } else {
        Err(GraphError::BatchInsertFailed(BatchFailure::AllFailed { failed }))
    }
}

/// Turns the outcome of a batch insert of `valid` edges, beside which
/// `rejected` were turned away, into what the step yields. With no valid
/// edge nothing was inserted and `inserted` is not looked at.
pub fn edge_batch_outcome(
    inserted: Result<BatchResult, GraphError>,
    valid: usize,
    rejected: usize,
) -> (yielded: Yield)
    ensures
        yielded == edge_batch_yield(inserted, valid, rejected),
{
    if valid == 0 {
        return Err(
            GraphError::BatchInsertFailed(
                BatchFailure::NoValidEdges { validation_errors: rejected },
            ),
        );
    }
    let (successful, failed) = match inserted {
        Ok(result) => (result.successful, result.failed),
        Err(_) => (0, valid),
    };
    if (failed == 0 && rejected == 0) || successful > 0 {
        Ok(TraversalValue::Count(successful))
    } else {
        Err(GraphError::BatchInsertFailed(BatchFailure::AllFailed { failed }))
    }
}

/// Turns the outcome of the insert of a vector into what the step yields.
pub fn vector_outcome(inserted: Result<HVector, VectorError>) -> (yielded: Yield)
    ensures
        yielded == vector_yield(inserted),
{
    match inserted {
        Ok(vector) => Ok(TraversalValue::Vector(vector)),
        Err(error) => Err(GraphError::from_vector_error(error)),
    }
}

/// The counts of a batch of `attempted` records as the steps read them.
fn counts_of(inserted: &Result<BatchResult, GraphError>, attempted: usize) -> (counts: (usize, usize))
    ensures
        counts == batch_counts(*inserted, attempted),
{
    match inserted {
        Ok(result) => (result.successful, result.failed),
        Err(_) => (0, attempted),
    }
}

/// Draws up the result of a batch of edges: see [`edge_report`].
/// `inserted` is the outcome of the insert of the edges that have both
/// ends, or nothing if there was no such edge and no insert; `positions`
/// are the positions of these edges among the candidates; `rejected` are
/// the edges that were turned away.
pub fn edge_batch_report(
    inserted: Option<Result<BatchResult, GraphError>>,
    positions: &Vec<usize>,
    rejected: Vec<(usize, GraphError)>,
) -> (report: BatchResult)
    ensures
        report@ == edge_report(inserted, positions@, rejected@),
{
    let valid: usize = positions.len();
    let turned_away: usize = rejected.len();
    let base: BatchResult = match inserted {
        Some(Ok(result)) => result,
        Some(Err(error)) => {
            let mut errors: Vec<(usize, GraphError)> = Vec::new();
            errors.push((0, error));
            proof {
                assert(errors@ =~= seq![(0usize, error)]);
            }
            BatchResult { successful: 0, failed: valid, errors, duration_ms: 0 }
        },
        None => BatchResult { successful: 0, failed: 0, errors: Vec::new(), duration_ms: 0 },
    };
    assert(base@ == batch_or_failed(inserted, valid));
    let BatchResult { successful, failed, errors: found, duration_ms } = base;
    let ghost all = found@;
    let total: usize = found.len();
    let mut errors: Vec<(usize, GraphError)> = rejected;
    proof {
        assert(errors@ =~= rejected@ + at_candidates(all, positions@).take(0));
    }
    let mut idx: usize = 0;
    for error in it: found
        invariant
            it.seq() == all,
            all.len() == total,
            idx == it.index(),
            errors@ == rejected@ + at_candidates(all, positions@).take(idx as int),
    {
        let at: usize = if error.0 < positions.len() {
            positions[error.0]
        } else {
            error.0
        };
        proof {
            let mapped = at_candidates(all, positions@);
            assert(mapped.take(idx + 1) =~= mapped.take(idx as int).push(mapped[idx as int]));
            assert(errors@.push((at, error.1)) =~= rejected@ + mapped.take(idx + 1));
        }
        errors.push((at, error.1));
        idx = idx + 1;
    }
    proof {
        let mapped = at_candidates(all, positions@);
        assert(mapped.take(mapped.len() as int) =~= mapped);
    }
    BatchResult { successful, failed: failed.saturating_add(turned_away), errors, duration_ms }
}

/// Sorts `candidates` into the edges of which both ends are among the
/// nodes `existing` and the positions of the others. Nothing has been
/// written when this is done: an edge with a missing end never reaches
/// the store, and does not keep the others from it.
pub fn validate_edges(candidates: Vec<Edge>, existing: &HashSet<u128>) -> (checked: EdgeValidation)
    ensures
        checked.edges@ == valid_edges(candidates@, existing@),
        checked.positions@ == valid_positions(candidates@, existing@),
        checked.positions@.len() == checked.edges@.len(),
        checked.validation_errors@ == rejected_edges(candidates@, existing@),
{
    broadcast use group_hash_axioms;

    let ghost all = candidates@;
    let mut edges: Vec<Edge> = Vec::new();
    let mut positions: Vec<usize> = Vec::new();
    let mut validation_errors: Vec<(usize, GraphError)> = Vec::new();
    let mut idx: usize = 0;
    let total: usize = candidates.len();
    for edge in it: candidates
        invariant
            it.seq() == all,
            all.len() == total,
            idx == it.index(),
            edges@ == valid_edges(all.take(idx as int), existing@),
            positions@ == valid_positions(all.take(idx as int), existing@),
            positions@.len() == edges@.len(),
            validation_errors@ == rejected_edges(all.take(idx as int), existing@),
    {
        proof {
            assert(all.take(idx + 1).drop_last() =~= all.take(idx as int));
            assert(all.take(idx + 1).last() == edge);
        }
        if existing.contains(&edge.from_node) && existing.contains(&edge.to_node) {
            edges.push(edge);
            positions.push(idx);
        } else {
            validation_errors.push((idx, GraphError::NodeNotFound));
        }
        idx = idx + 1;
    }
    proof {
        assert(all.take(all.len() as int) =~= all);
    }
    EdgeValidation { edges, positions, validation_errors }
}

/// Inserts `nodes` with `insert` and yields the number of nodes written,
/// or the error that all failed: see [`node_batch_yield`].
pub fn add_n_batch<F: FnOnce(Vec<Node>) -> Result<BatchResult, GraphError>>(
    nodes: Vec<Node>,
    insert: F,
) -> (step: AddNBatchIterator)
    requires
        call_requires(insert, (nodes,)),
    ensures
        exists|inserted: Result<BatchResult, GraphError>|
            call_ensures(insert, (nodes,), inserted) && step@ == Some(
                node_batch_yield(inserted, nodes@.len() as usize),
            ),
{
    let attempted: usize = nodes.len();
    let inserted = insert(nodes);
    AddNBatchIterator { inner: Some(node_batch_outcome(inserted, attempted)) }
}

/// Looks up the ends of `candidates` among the nodes `existing`, inserts
/// the edges of which both exist with `insert`, and yields the number of
/// edges written or the error that ended the step: see
/// [`edge_batch_yield`]. If there is no such edge, `insert` is not
/// called. The step keeps the result of the batch, in which the edges
/// that were turned away are counted as failed and listed: see
/// [`edge_report`].
pub fn add_e_batch<F: FnOnce(Vec<Edge>) -> Result<BatchResult, GraphError>>(
    candidates: Vec<Edge>,
    existing: &HashSet<u128>,
    insert: F,
) -> (step: AddEBatchIterator)
    requires
        forall|edges: Vec<Edge>| call_requires(insert, (edges,)),
    ensures
        ({
            let valid = valid_edges(candidates@, existing@);
            let positions = valid_positions(candidates@, existing@);
            let rejected = rejected_edges(candidates@, existing@);
            if valid.len() == 0 {
                &&& step@.pending == Some(
                    Err::<TraversalValue, GraphError>(
                        GraphError::BatchInsertFailed(
                            BatchFailure::NoValidEdges {
                                validation_errors: rejected.len() as usize,
                            },
                        ),
                    ),
                )
                &&& step@.report == edge_report(None, positions, rejected)
            } else {
                exists|edges: Vec<Edge>, inserted: Result<BatchResult, GraphError>|
                    {
                        &&& edges@ == valid
                        &&& #[trigger] call_ensures(insert, (edges,), inserted)
                        &&& step@.pending == Some(
                            edge_batch_yield(
                                inserted,
                                valid.len() as usize,
                                rejected.len() as usize,
                            ),
                        )
                        &&& step@.report == edge_report(Some(inserted), positions, rejected)
                    }
            }
        }),
{
    let checked = validate_edges(candidates, existing);
    let EdgeValidation { edges, positions, validation_errors } = checked;
    let valid: usize = edges.len();
    let rejected: usize = validation_errors.len();
    if valid == 0 {
        return AddEBatchIterator {
            inner: Some(
                Err(
                    GraphError::BatchInsertFailed(
                        BatchFailure::NoValidEdges { validation_errors: rejected },
                    ),
                ),
            ),
            report: edge_batch_report(None, &positions, validation_errors),
        };
    }
    let inserted = insert(edges);
    let counts = counts_of(&inserted, valid);
    let yielded: Yield = if (counts.1 == 0 && rejected == 0) || counts.0 > 0 {
        Ok(TraversalValue::Count(counts.0))
    } else {
        Err(GraphError::BatchInsertFailed(BatchFailure::AllFailed { failed: counts.1 }))
    };
    let report = edge_batch_report(Some(inserted), &positions, validation_errors);
    AddEBatchIterator { inner: Some(yielded), report }
}

/// Inserts a vector with `insert`, which is handed the fields of the
/// vector: those given, then `label` under the name `label`, then
/// `not_deleted` under the name `is_deleted`. Yields the vector that
/// `insert` returns, or its error as an error of the graph.
pub fn insert_v<F: FnOnce(Vec<(String, Value)>) -> Result<HVector, VectorError>>(
    label: Value,
    not_deleted: Value,
    fields: Option<Vec<(String, Value)>>,
    insert: F,
) -> (step: InsertVIterator)
    requires
        forall|named: Vec<(String, Value)>| call_requires(insert, (named,)),
    ensures
        exists|named: Vec<(String, Value)>, inserted: Result<HVector, VectorError>|
            vector_fields(fields, label, not_deleted, named@) && call_ensures(
                insert,
                (named,),
                inserted,
            ) && step@ == Some(vector_yield(inserted)),
{
    let mut named: Vec<(String, Value)> = match fields {
        Some(fields) => fields,
        None => Vec::new(),
    };
    let ghost given = named@;
    named.push((String::from_str("label"), label));
    named.push((String::from_str("is_deleted"), not_deleted));
    proof {
        assert(named@.subrange(0, given.len() as int) =~= given);
    }
    let inserted = insert(named);
    InsertVIterator { inner: Some(vector_outcome(inserted)) }
}

} // verus!
