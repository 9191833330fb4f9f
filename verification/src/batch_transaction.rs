//! A write transaction that commits itself every so many operations.
//!
//! A long bulk write in one transaction lets the transaction grow without
//! bound; one transaction per write pays the commit each time. The manager
//! counts the operations that went into the transaction it holds and
//! commits once the count reaches its threshold. The next use opens a new
//! transaction. A commit starts the count again from zero and goes on
//! record whether or not a transaction was open, so that after a commit
//! that succeeded the count is below the threshold.
//!
//! The manager does not know the store. It holds the transaction as a
//! value of the caller's type, and the caller hands in what opens and what
//! commits one. Whatever these return, the manager's bookkeeping is the
//! one stated here.
//!
//! Dropping a manager neither commits nor warns. A caller that wants the
//! pending work kept ends with [`BatchTransaction::close`], which commits
//! it; one that wants it discarded ends with [`BatchTransaction::abort`].

use vstd::prelude::*;
use vstd::arithmetic::div_mod::{
    lemma_fundamental_div_mod, lemma_fundamental_div_mod_converse, lemma_mod_bound,
};
use std::time::Instant;
use crate::error::GraphError;

verus! {

/// The threshold that is used where the configuration names none.
pub const DEFAULT_MAX_OPERATIONS: usize = 10_000;

/// `std::time::Instant`, a reading of the monotonic clock. The library
/// stores one and hands it back to the clock; it never looks inside.
#[verifier::external_type_specification]
#[verifier::external_body]
pub struct ExInstant(std::time::Instant);

/// `Instant::now`: the current reading of the monotonic clock. Nothing is
/// claimed of it.
#[verifier::external_body]
fn now() -> Instant {
    Instant::now()
}

/// `Instant::elapsed`: the time that has passed since `start` was read.
/// Nothing is claimed of it.
#[verifier::external_body]
fn elapsed_since(start: &Instant) -> std::time::Duration {
    start.elapsed()
}

/// A write transaction of type `T` with its operation count.
pub struct BatchTransaction<T> {
    txn: Option<T>,
    operations: usize,
    max_operations: usize,
    start_time: Instant,
    commit_count: usize,
}

/// The mathematical value of a [`BatchTransaction`].
pub struct BatchTransactionView<T> {
    /// The transaction that is open, if one is.
    pub txn: Option<T>,
    /// Operations counted since the last commit.
    pub operations: nat,
    /// The count at which a commit is due.
    pub max_operations: nat,
    /// Commits that succeeded so far.
    pub commit_count: nat,
}

/// What a manager has done so far.
#[derive(Debug)]
pub struct BatchTransactionStats {
    /// Operations counted since the last commit.
    pub operations: usize,
    /// Commits that succeeded so far.
    pub commit_count: usize,
    /// Time since the manager was made.
    pub elapsed: std::time::Duration,
}

impl<T> BatchTransactionView<T> {
    /// The state after `count` more operations were counted.
    pub open spec fn counted(self, count: nat) -> Self {
        BatchTransactionView { operations: self.operations + count, ..self }
    }

    /// Whether a commit is due.
    pub open spec fn due(self) -> bool {
        self.operations >= self.max_operations
    }

    /// The state after a commit that succeeded: no transaction is open,
    /// the count starts again from zero, and one more commit is on record.
    pub open spec fn committed(self) -> Self {
        BatchTransactionView {
            txn: None,
            operations: 0,
            commit_count: self.commit_count + 1,
            ..self
        }
    }

    /// The state after the commit of the open transaction failed: the
    /// transaction is gone, the counts stay.
    pub open spec fn commit_failed(self) -> Self {
        BatchTransactionView { txn: None, ..self }
    }

    /// The state with `txn` as the open transaction.
    pub open spec fn opened(self, txn: T) -> Self {
        BatchTransactionView { txn: Some(txn), ..self }
    }
}

/// What a commit of state `before` through `commit` may end in: without
/// an open transaction it succeeds, with nothing to write; with one,
/// `commit` is called on it and decides. After a success the state is
/// [`BatchTransactionView::committed`], after a failure
/// [`BatchTransactionView::commit_failed`].
pub open spec fn commit_outcome<T, F: FnOnce(T) -> Result<(), GraphError>>(
    before: BatchTransactionView<T>,
    commit: F,
    result: Result<(), GraphError>,
    after: BatchTransactionView<T>,
) -> bool {
    match before.txn {
        None => result is Ok && after == before.committed(),
        Some(txn) => {
            &&& call_ensures(commit, (txn,), result)
            &&& result is Ok ==> after == before.committed()
            &&& result is Err ==> after == before.commit_failed()
        },
    }
}

/// Whether `commit` may return success for `txn`.
pub open spec fn may_succeed<T, F: FnOnce(T) -> Result<(), GraphError>>(commit: F, txn: T) -> bool {
    exists|result: Result<(), GraphError>| result is Ok && call_ensures(commit, (txn,), result)
}

impl<T> View for BatchTransaction<T> {
    type V = BatchTransactionView<T>;

    closed spec fn view(&self) -> BatchTransactionView<T> {
        BatchTransactionView {
            txn: self.txn,
            operations: self.operations as nat,
            max_operations: self.max_operations as nat,
            commit_count: self.commit_count as nat,
        }
    }
}

impl<T> BatchTransaction<T> {
    /// Opens a transaction with `open` and wraps it. The threshold is
    /// `max_operations`, or [`DEFAULT_MAX_OPERATIONS`] where none is given.
    pub fn new<F: FnOnce() -> Result<T, GraphError>>(max_operations: Option<usize>, open: F) -> (made:
        Result<Self, GraphError>)
        requires
            call_requires(open, ()),
        ensures
            match made {
                Ok(batch) => {
                    &&& batch@.txn is Some
                    &&& call_ensures(open, (), Ok::<T, GraphError>(batch@.txn->0))
                    &&& batch@.operations == 0
                    &&& batch@.commit_count == 0
                    &&& batch@.max_operations == match max_operations {
                        Some(limit) => limit,
                        None => DEFAULT_MAX_OPERATIONS,
                    }
                },
                Err(error) => call_ensures(open, (), Err::<T, GraphError>(error)),
            },
    {
        let max_operations: usize = match max_operations {
            Some(limit) => limit,
            None => DEFAULT_MAX_OPERATIONS,
        };
        match open() {
            Ok(txn) => Ok(
                BatchTransaction {
                    txn: Some(txn),
                    operations: 0,
                    max_operations,
                    start_time: now(),
                    commit_count: 0,
                },
            ),
            Err(error) => Err(error),
        }
    }

    /// Whether a transaction is open.
    pub fn has_txn(&self) -> (open: bool)
        ensures
            open == self@.txn is Some,
    {
        self.txn.is_some()
    }

    /// The open transaction; if none is open, one is opened with `open`
    /// first. An error of `open` is handed on and leaves the manager as it
    /// was.
    pub fn get_txn<F: FnOnce() -> Result<T, GraphError>>(&mut self, open: F) -> (got: Result<
        &mut T,
        GraphError,
    >)
        requires
            call_requires(open, ()),
        ensures
            match got {
                Ok(txn) => {
                    &&& match old(self)@.txn {
                        Some(held) => *txn == held,
                        None => call_ensures(open, (), Ok::<T, GraphError>(*txn)),
                    }
                    &&& final(self)@ == old(self)@.opened(*final(txn))
                },
                Err(error) => {
                    &&& old(self)@.txn is None
                    &&& call_ensures(open, (), Err::<T, GraphError>(error))
                    &&& final(self)@ == old(self)@
                },
            },
    {
        if self.txn.is_none() {
            match open() {
                Ok(txn) => {
                    self.txn = Some(txn);
                },
                Err(error) => {
                    return Err(error);
                },
            }
        }
        Ok(self.txn.as_mut().unwrap())
    }

    /// Counts `count` more operations and, if the threshold is reached,
    /// commits as [`BatchTransaction::commit`] does.
    pub fn increment_operations<F: FnOnce(T) -> Result<(), GraphError>>(
        &mut self,
        count: usize,
        commit: F,
    ) -> (done: Result<(), GraphError>)
        requires
            old(self)@.operations + count <= usize::MAX,
            old(self)@.commit_count < usize::MAX,
            forall|txn: T| call_requires(commit, (txn,)),
        ensures
            !old(self)@.counted(count as nat).due() ==> done is Ok && final(self)@ == old(
                self,
            )@.counted(count as nat),
            old(self)@.counted(count as nat).due() ==> commit_outcome(
                old(self)@.counted(count as nat),
                commit,
                done,
                final(self)@,
            ),
            done is Ok && old(self)@.max_operations > 0 ==> final(self)@.due() == false,
    {
        self.operations = self.operations + count;
        if self.operations >= self.max_operations {
            self.commit(commit)
        } else {
            Ok(())
        }
    }

    /// Commits the open transaction with `commit`, if one is open; with
    /// none open there is nothing to write and the commit succeeds. After
    /// a success the count starts again from zero and one more commit is
    /// on record; after a failure the error is handed on and the counts
    /// stay. Either way no transaction is open afterwards.
    pub fn commit<F: FnOnce(T) -> Result<(), GraphError>>(&mut self, commit: F) -> (done: Result<
        (),
        GraphError,
    >)
        requires
            old(self)@.commit_count < usize::MAX,
            forall|txn: T| call_requires(commit, (txn,)),
        ensures
            commit_outcome(old(self)@, commit, done, final(self)@),
    {
        let outcome = match self.txn.take() {
            Some(txn) => commit(txn),
            None => Ok(()),
        };
        if outcome.is_ok() {
            self.commit_count = self.commit_count + 1;
            self.operations = 0;
        }
        outcome
    }

    /// Ends the manager and keeps the pending work: if a transaction is
    /// open and operations were counted since the last commit, it is
    /// committed with `commit`. An open transaction without operations is
    /// dropped.
    pub fn close<F: FnOnce(T) -> Result<(), GraphError>>(self, commit: F) -> (closed: Result<
        BatchTransactionStats,
        GraphError,
    >)
        requires
            self@.commit_count < usize::MAX,
            forall|txn: T| call_requires(commit, (txn,)),
        ensures
            match self@.txn {
                Some(txn) if self@.operations > 0 => match closed {
                    Ok(stats) => {
                        &&& may_succeed(commit, txn)
                        &&& stats.operations == 0
                        &&& stats.commit_count == self@.commit_count + 1
                    },
                    Err(error) => call_ensures(commit, (txn,), Err::<(), GraphError>(error)),
                },
                _ => closed matches Ok(stats) && stats.operations == self@.operations
                    && stats.commit_count == self@.commit_count,
            },
            closed matches Ok(stats) ==> stats.operations == after_close(self@).operations
                && stats.commit_count == after_close(self@).commit_count,
    {
        let mut batch = self;
        if batch.txn.is_some() && batch.operations > 0 {
            let outcome = batch.commit(commit);
            match outcome {
                Ok(_) => {},
                Err(error) => {
                    return Err(error);
                },
            }
        }
        Ok(batch.stats())
    }

    /// Ends the manager and discards the open transaction with all that
    /// was written into it since the last commit. The result is the number
    /// of operations lost that way, if a transaction was open.
    pub fn abort(self) -> (lost: Option<usize>)
        ensures
            lost is Some <==> self@.txn is Some,
            lost matches Some(operations) ==> operations == self@.operations,
    {
        match self.txn {
            Some(_) => Some(self.operations),
            None => None,
        }
    }

    /// The counts of a manager are machine numbers.
    pub proof fn lemma_counts_fit(&self)
        ensures
            self@.operations <= usize::MAX,
            self@.max_operations <= usize::MAX,
            self@.commit_count <= usize::MAX,
    {
    }

    /// The threshold at which a commit is due.
    pub fn max_operations(&self) -> (limit: usize)
        ensures
            limit == self@.max_operations,
    {
        self.max_operations
    }

    /// The counts so far and the time since the manager was made.
    pub fn stats(&self) -> (stats: BatchTransactionStats)
        ensures
            stats.operations == self@.operations,
            stats.commit_count == self@.commit_count,
    {
        BatchTransactionStats {
            operations: self.operations,
            commit_count: self.commit_count,
            elapsed: elapsed_since(&self.start_time),
        }
    }
}

/// The state after one operation went through a manager whose commits
/// succeed: a transaction is opened if none is open, here `fresh`; the
/// operation is counted; and if the count has reached the threshold, the
/// transaction is committed.
pub open spec fn after_operation<T>(before: BatchTransactionView<T>, fresh: T) -> BatchTransactionView<
    T,
> {
    let open = if before.txn is None {
        before.opened(fresh)
    } else {
        before
    };
    if open.counted(1).due() {
        open.counted(1).committed()
    } else {
        open.counted(1)
    }
}

/// The state after as many operations as `fresh` is long, `fresh` being
/// the transactions that are at hand for opening, one per operation.
pub open spec fn after_operations<T>(start: BatchTransactionView<T>, fresh: Seq<T>) -> BatchTransactionView<
    T,
>
    decreases fresh.len(),
{
    if fresh.len() == 0 {
        start
    } else {
        after_operation(after_operations(start, fresh.drop_last()), fresh.last())
    }
}

/// A manager with threshold `max_operations` that starts without pending
/// operations and sees `n` operations, one at a time, has committed
/// `n / max_operations` times by itself and holds `n % max_operations`
/// operations that a last commit has to flush.
pub proof fn lemma_auto_commits<T>(start: BatchTransactionView<T>, fresh: Seq<T>)
    requires
        start.max_operations >= 1,
        start.operations == 0,
    ensures
        after_operations(start, fresh).max_operations == start.max_operations,
        after_operations(start, fresh).operations == fresh.len() % start.max_operations,
        after_operations(start, fresh).commit_count == start.commit_count + fresh.len()
            / start.max_operations,
    decreases fresh.len(),
{
    if fresh.len() > 0 {
        lemma_auto_commits(start, fresh.drop_last());
        let n = (fresh.len() - 1) as int;
        let max = start.max_operations as int;
        assert(fresh.drop_last().len() == n);
        lemma_next_count(n, max);
    }
}

/// Counting one more either fills the threshold, which makes one more
/// full count and leaves nothing, or leaves one more.
proof fn lemma_next_count(n: int, max: int)
    requires
        n >= 0,
        max >= 1,
    ensures
        n % max + 1 >= max ==> (n + 1) % max == 0 && (n + 1) / max == n / max + 1,
        n % max + 1 < max ==> (n + 1) % max == n % max + 1 && (n + 1) / max == n / max,
{
    let q = n / max;
    let r = n % max;
    lemma_fundamental_div_mod(n, max);
    lemma_mod_bound(n, max);
    assert(max * q == q * max) by (nonlinear_arith);
    if r + 1 >= max {
        assert((q + 1) * max + 0 == q * max + max) by (nonlinear_arith);
        lemma_fundamental_div_mod_converse(n + 1, max, q + 1, 0);
    } else {
        lemma_fundamental_div_mod_converse(n + 1, max, q, r + 1);
    }
}

/// The state after a manager was closed whose commit succeeds: pending
/// operations in an open transaction are committed, else nothing
/// changes.
pub open spec fn after_close<T>(before: BatchTransactionView<T>) -> BatchTransactionView<T> {
    if before.txn is Some && before.operations > 0 {
        before.committed()
    } else {
        before
    }
}

/// A manager with threshold `max_operations` that starts without
/// pending operations, sees `n` operations one at a time and is closed
/// then, has committed once for every full `max_operations` and once
/// more for what was left, all commits succeeding: 250 operations at a
/// threshold of 100 make three commits.
pub proof fn lemma_commits_by_close<T>(start: BatchTransactionView<T>, fresh: Seq<T>)
    requires
        start.max_operations >= 1,
        start.operations == 0,
    ensures
        after_close(after_operations(start, fresh)).operations == 0,
        after_close(after_operations(start, fresh)).commit_count == start.commit_count
            + fresh.len() / start.max_operations + if fresh.len() % start.max_operations > 0 {
            1nat
        } else {
            0nat
        },
{
    lemma_auto_commits(start, fresh);
    lemma_pending_is_open(start, fresh);
}

/// Operations that are pending after a run of operations are held by an
/// open transaction.
pub proof fn lemma_pending_is_open<T>(start: BatchTransactionView<T>, fresh: Seq<T>)
    requires
        start.operations == 0,
    ensures
        after_operations(start, fresh).operations > 0 ==> after_operations(start, fresh).txn is Some,
    decreases fresh.len(),
{
    if fresh.len() > 0 {
        lemma_pending_is_open(start, fresh.drop_last());
    }
}

} // verus!
