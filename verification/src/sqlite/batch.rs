//! An atomic batch on a SQLite connection.
//!
//! A batch that may change the store runs in one transaction: it commits once
//! every operation has succeeded, and rolls back otherwise. The steps are
//! decided here; the caller performs each and reports how it went.

use vstd::prelude::*;

use crate::adapter::BatchStart;
use crate::contract::{AtomicResult, OperationResult, ResultView};
use crate::error::{DactylError, ErrorView};
use crate::sqlite::statement;
use crate::sqlite::statement::SqliteFailure;

verus! {

/// What is to be done next.
#[derive(Debug, Clone, Copy, PartialEq, Eq, Structural)]
pub enum BatchAction {
    /// Begin the transaction: `BEGIN IMMEDIATE`.
    Begin,
    /// Execute the operation at this position.
    Execute(usize),
    /// Commit the transaction: `COMMIT`.
    Commit,
    /// Roll the transaction back: `ROLLBACK`. How it goes does not matter.
    Rollback,
    /// Nothing: the batch succeeded.
    Finished,
    /// Nothing: the batch failed.
    Failed,
}

/// A batch in progress.
pub struct Batch {
    mutating: bool,
    total: usize,
    action: BatchAction,
    results: Vec<OperationResult>,
    failure: Option<DactylError>,
}

/// What a [`Batch`] says.
#[verifier::ext_equal]
pub ghost struct BatchView {
    pub mutating: bool,
    pub total: int,
    pub action: BatchAction,
    pub results: Seq<ResultView>,
    pub failure: Option<ErrorView>,
}

/// How an action went.
pub ghost enum BatchEvent {
    /// The action succeeded.
    Done,
    /// An operation succeeded with this result.
    Result(ResultView),
    /// The action failed.
    Failed(ErrorView),
}

/// The action behind a batch's last operation.
pub open spec fn action_after_all(b: BatchView) -> BatchAction {
    if b.mutating {
        BatchAction::Commit
    } else {
        BatchAction::Finished
    }
}

/// A batch once an action went one way.
pub open spec fn after_event(b: BatchView, event: BatchEvent) -> BatchView {
    match b.action {
        BatchAction::Begin => match event {
            BatchEvent::Failed(e) => BatchView {
                action: BatchAction::Failed,
                failure: Some(e),
                ..b
            },
            _ => BatchView { action: BatchAction::Execute(0), ..b },
        },
        BatchAction::Execute(i) => match event {
            BatchEvent::Result(result) => BatchView {
                action: if i + 1 < b.total {
                    BatchAction::Execute((i + 1) as usize)
                } else {
                    action_after_all(b)
                },
                results: b.results.push(result),
                ..b
            },
            BatchEvent::Failed(e) => BatchView {
                action: if b.mutating {
                    BatchAction::Rollback
                } else {
                    BatchAction::Failed
                },
                failure: Some(e),
                ..b
            },
            BatchEvent::Done => b,
        },
        BatchAction::Commit => match event {
            BatchEvent::Failed(e) => BatchView {
                action: BatchAction::Rollback,
                failure: Some(e),
                ..b
            },
            _ => BatchView { action: BatchAction::Finished, ..b },
        },
        BatchAction::Rollback => BatchView { action: BatchAction::Failed, ..b },
        _ => b,
    }
}

/// Where a batch may stand: results come in order of the operations, and a
/// failure is known where one is reported.
pub open spec fn batch_wf(b: BatchView) -> bool {
    &&& b.total > 0
    &&& match b.action {
        BatchAction::Begin => b.mutating && b.results.len() == 0 && b.failure is None,
        BatchAction::Execute(i) => b.results.len() == i && i < b.total && b.failure is None,
        BatchAction::Commit => b.mutating && b.results.len() == b.total && b.failure is None,
        BatchAction::Rollback => b.mutating && b.failure is Some,
        BatchAction::Finished => b.results.len() == b.total && b.failure is None,
        BatchAction::Failed => b.failure is Some,
    }
}

// ---------------------------------------------------------------------------
// What the store sees
// ---------------------------------------------------------------------------

/// What the store has seen of a batch.
pub ghost struct StoreState {
    /// Whether a transaction is open.
    pub open: bool,
    /// The operations that the open transaction has applied.
    pub applied: int,
    /// The operations that have been made durable.
    pub durable: int,
}

/// What the store has seen once an action succeeded.
pub open spec fn store_after(action: BatchAction, s: StoreState) -> StoreState {
    match action {
        BatchAction::Begin => StoreState { open: true, applied: 0, ..s },
        BatchAction::Execute(_) => StoreState { applied: s.applied + 1, ..s },
        BatchAction::Commit => StoreState { open: false, durable: s.applied, ..s },
        BatchAction::Rollback => StoreState { open: false, applied: 0, ..s },
        _ => s,
    }
}

/// What holds of the store before each action of a changing batch: nothing is
/// durable until the commit, and the commit makes every operation durable.
pub open spec fn atomic(b: BatchView, s: StoreState) -> bool {
    match b.action {
        BatchAction::Begin => !s.open && s.durable == 0,
        BatchAction::Execute(i) => s.open && s.applied == i && s.durable == 0,
        BatchAction::Commit => s.open && s.applied == b.total && s.durable == 0,
        BatchAction::Rollback => s.durable == 0,
        BatchAction::Finished => !s.open && s.durable == b.total,
        BatchAction::Failed => s.durable == 0,
    }
}

/// Whether an action can go this way: an operation gives a result, and
/// nothing else does.
pub open spec fn possible(b: BatchView, event: BatchEvent) -> bool {
    event is Failed || (event is Result <==> b.action is Execute)
}

/// A batch and its store after actions that went these ways.
pub open spec fn batch_run(b: BatchView, s: StoreState, events: Seq<BatchEvent>) -> (
    BatchView,
    StoreState,
)
    decreases events.len(),
{
    if events.len() == 0 {
        (b, s)
    } else {
        batch_run(
            after_event(b, events[0]),
            if events[0] is Failed {
                s
            } else {
                store_after(b.action, s)
            },
            events.drop_first(),
        )
    }
}

/// Whether each of a number of actions can go the way it is said to.
pub open spec fn all_possible(b: BatchView, events: Seq<BatchEvent>) -> bool
    decreases events.len(),
{
    events.len() > 0 ==> possible(b, events[0]) && all_possible(
        after_event(b, events[0]),
        events.drop_first(),
    )
}

/// The results among events, in their order.
pub open spec fn results_in(events: Seq<BatchEvent>) -> Seq<ResultView>
    decreases events.len(),
{
    if events.len() == 0 {
        Seq::empty()
    } else if let BatchEvent::Result(result) = events[0] {
        seq![result] + results_in(events.drop_first())
    } else {
        results_in(events.drop_first())
    }
}

proof fn lemma_results_in_order(b: BatchView, s: StoreState, events: Seq<BatchEvent>)
    requires
        all_possible(b, events),
    ensures
        batch_run(b, s, events).0.results == b.results + results_in(events),
    decreases events.len(),
{
    if events.len() == 0 {
        assert(b.results + results_in(events) =~= b.results);
    } else {
        let rest = events.drop_first();
        let next = after_event(b, events[0]);
        let store = if events[0] is Failed {
            s
        } else {
            store_after(b.action, s)
        };
        lemma_results_in_order(next, store, rest);
        if let BatchEvent::Result(result) = events[0] {
            assert(b.results.push(result) + results_in(rest) =~= b.results + results_in(events));
        }
    }
}

/// Results keep the order of the operations: a batch's results are those that
/// its operations gave, in the order in which they gave them.
pub proof fn lemma_results_keep_their_order(
    b: BatchView,
    s: StoreState,
    events: Seq<BatchEvent>,
)
    requires
        b.results.len() == 0,
        all_possible(b, events),
    ensures
        batch_run(b, s, events).0.results == results_in(events),
{
    lemma_results_in_order(b, s, events);
    assert(b.results + results_in(events) =~= results_in(events));
}

proof fn lemma_batch_run(b: BatchView, s: StoreState, events: Seq<BatchEvent>)
    requires
        batch_wf(b),
        b.mutating,
        atomic(b, s),
        b.total <= usize::MAX,
        all_possible(b, events),
    ensures
        batch_wf(batch_run(b, s, events).0),
        atomic(batch_run(b, s, events).0, batch_run(b, s, events).1),
        batch_run(b, s, events).0.total == b.total,
    decreases events.len(),
{
    if events.len() > 0 {
        lemma_batch_run(
            after_event(b, events[0]),
            if events[0] is Failed {
                s
            } else {
                store_after(b.action, s)
            },
            events.drop_first(),
        );
    }
}

/// A batch is atomic. Whichever actions fail, a changing batch that succeeds
/// has made every operation durable, and one that fails has made none; and a
/// batch that succeeds has one result for each operation.
pub proof fn lemma_batch_is_atomic(b: BatchView, events: Seq<BatchEvent>)
    requires
        batch_wf(b),
        b.action is Begin,
        b.total <= usize::MAX,
        all_possible(b, events),
    ensures
        ({
            let start = StoreState { open: false, applied: 0, durable: 0 };
            let (end, store) = batch_run(b, start, events);
            &&& end.action is Finished ==> store.durable == b.total && end.results.len() == b.total
            &&& end.action is Failed ==> store.durable == 0 && end.failure is Some
            &&& store.durable == 0 || store.durable == b.total
        }),
{
    lemma_batch_run(b, StoreState { open: false, applied: 0, durable: 0 }, events);
}

impl Batch {
    pub closed spec fn view(self) -> BatchView {
        BatchView {
            mutating: self.mutating,
            total: self.total as int,
            action: self.action,
            results: crate::contract::result_views(self.results@),
            failure: match self.failure {
                Some(e) => Some(e@),
                None => None,
            },
        }
    }

    #[verifier::type_invariant]
    closed spec fn well_formed(self) -> bool {
        batch_wf(self@)
    }

    /// A batch of this many operations, or none where there is nothing to do.
    pub fn new(start: BatchStart, total: usize) -> (r: Option<Self>)
        ensures
            match batch_begun(start, total as int) {
                Some(v) => r is Some && r->Some_0@ == v,
                None => r is None,
            },
    {
        if total == 0 {
            return None;
        }
        let results: Vec<OperationResult> = Vec::new();
        assert(crate::contract::result_views(results@) =~= Seq::<ResultView>::empty());
        match start {
            BatchStart::Nothing => None,
            BatchStart::ReadOnly => Some(
                Batch {
                    mutating: false,
                    total,
                    action: BatchAction::Execute(0),
                    results,
                    failure: None,
                },
            ),
            BatchStart::Mutating => Some(
                Batch { mutating: true, total, action: BatchAction::Begin, results, failure: None },
            ),
        }
    }

    /// What is to be done next.
    pub fn action(&self) -> (r: BatchAction)
        ensures
            r == self@.action,
            batch_wf(self@),
    {
        proof {
            use_type_invariant(self);
        }
        self.action
    }

    /// The transaction was begun, or SQLite refused to.
    pub fn begun(self, failure: Option<SqliteFailure>) -> (r: Self)
        requires
            self@.action is Begin,
        ensures
            r@ == after_event(
                self@,
                match failure {
                    Some(f) => BatchEvent::Failed(
                        statement::failure_error("begin SQLite transaction"@, f),
                    ),
                    None => BatchEvent::Done,
                },
            ),
    {
        proof {
            use_type_invariant(&self);
        }
        match failure {
            Some(f) => Batch {
                mutating: self.mutating,
                total: self.total,
                action: BatchAction::Failed,
                results: self.results,
                failure: Some(statement::map_sqlite_failure("begin SQLite transaction", &f)),
            },
            None => Batch {
                mutating: self.mutating,
                total: self.total,
                action: BatchAction::Execute(0),
                results: self.results,
                failure: self.failure,
            },
        }
    }

    /// The operation at hand gave a result, or failed.
    pub fn executed(self, outcome: Result<OperationResult, DactylError>) -> (r: Self)
        requires
            self@.action is Execute,
        ensures
            r@ == after_event(
                self@,
                match outcome {
                    Ok(result) => BatchEvent::Result(result@),
                    Err(e) => BatchEvent::Failed(e@),
                },
            ),
    {
        proof {
            use_type_invariant(&self);
        }
        let i: usize = match self.action {
            BatchAction::Execute(i) => i,
            _ => 0,
        };
        match outcome {
            Ok(result) => {
                let ghost before = crate::contract::result_views(self.results@);
                let mut results: Vec<OperationResult> = self.results;
                results.push(result);
                assert(crate::contract::result_views(results@) =~= before.push(result@));
                Batch {
                    mutating: self.mutating,
                    total: self.total,
                    action: if i + 1 < self.total {
                        BatchAction::Execute(i + 1)
                    } else if self.mutating {
                        BatchAction::Commit
                    } else {
                        BatchAction::Finished
                    },
                    results,
                    failure: self.failure,
                }
            },
            Err(e) => Batch {
                mutating: self.mutating,
                total: self.total,
                action: if self.mutating {
                    BatchAction::Rollback
                } else {
                    BatchAction::Failed
                },
                results: self.results,
                failure: Some(e),
            },
        }
    }

    /// The transaction was committed, or SQLite refused to.
    pub fn committed(self, failure: Option<SqliteFailure>) -> (r: Self)
        requires
            self@.action is Commit,
        ensures
            r@ == after_event(
                self@,
                match failure {
                    Some(f) => BatchEvent::Failed(
                        statement::failure_error("commit SQLite transaction"@, f),
                    ),
                    None => BatchEvent::Done,
                },
            ),
    {
        proof {
            use_type_invariant(&self);
        }
        match failure {
            Some(f) => Batch {
                mutating: self.mutating,
                total: self.total,
                action: BatchAction::Rollback,
                results: self.results,
                failure: Some(statement::map_sqlite_failure("commit SQLite transaction", &f)),
            },
            None => Batch {
                mutating: self.mutating,
                total: self.total,
                action: BatchAction::Finished,
                results: self.results,
                failure: self.failure,
            },
        }
    }

    /// The transaction was rolled back, or could not be.
    pub fn rolled_back(self) -> (r: Self)
        requires
            self@.action is Rollback,
        ensures
            r@ == after_event(self@, BatchEvent::Done),
    {
        proof {
            use_type_invariant(&self);
        }
        Batch {
            mutating: self.mutating,
            total: self.total,
            action: BatchAction::Failed,
            results: self.results,
            failure: self.failure,
        }
    }

    /// The outcome of a batch that is over: the results of all operations, or
    /// the failure that ended it.
    pub fn into_outcome(self) -> (r: Result<AtomicResult, DactylError>)
        requires
            self@.action is Finished || self@.action is Failed,
        ensures
            match self@.failure {
                Some(e) => r is Err && r->Err_0@ == e,
                None => r is Ok && crate::contract::result_views(r->Ok_0.results@)
                    == self@.results,
            },
            self@.action is Finished <==> r is Ok,
            r is Ok ==> r->Ok_0.results@.len() == self@.total,
    {
        proof {
            use_type_invariant(&self);
        }
        match self.failure {
            Some(e) => Err(e),
            None => Ok(AtomicResult { results: self.results }),
        }
    }
}

/// The events of operations that all succeed.
pub open spec fn all_results(results: Seq<ResultView>) -> Seq<BatchEvent> {
    results.map_values(|r: ResultView| BatchEvent::Result(r))
}

proof fn lemma_operations_run(b: BatchView, s: StoreState, results: Seq<ResultView>)
    requires
        b.action == BatchAction::Execute(b.results.len() as usize),
        results.len() > 0,
        b.results.len() + results.len() == b.total <= usize::MAX,
    ensures
        ({
            let end = batch_run(b, s, all_results(results)).0;
            &&& end.results == b.results + results
            &&& end.mutating == b.mutating && end.total == b.total && end.failure == b.failure
            &&& b.mutating ==> end.action == BatchAction::Commit
            &&& !b.mutating ==> end.action == BatchAction::Finished
        }),
    decreases results.len(),
{
    let events = all_results(results);
    let rest = results.drop_first();
    assert(events.drop_first() =~= all_results(rest));
    let next = after_event(b, events[0]);
    let store = store_after(b.action, s);
    assert(b.results.push(results[0]) + rest =~= b.results + results);
    if rest.len() > 0 {
        lemma_operations_run(next, store, rest);
    } else {
        assert(batch_run(next, store, all_results(rest)) == (next, store));
        assert(b.results.push(results[0]) =~= b.results + results);
    }
}

/// A batch whose operations all succeed runs each once and in order, and then
/// commits if it changes the store; it ends with their results.
pub proof fn lemma_successful_batch(b: BatchView, s: StoreState, results: Seq<ResultView>)
    requires
        b.results.len() == 0,
        results.len() == b.total,
        0 < b.total <= usize::MAX,
        b.mutating <==> b.action == BatchAction::Begin,
        !b.mutating ==> b.action == BatchAction::Execute(0),
    ensures
        b.mutating ==> {
            let begun = after_event(b, BatchEvent::Done);
            let run = batch_run(begun, s, all_results(results)).0;
            let end = after_event(run, BatchEvent::Done);
            &&& begun.action == BatchAction::Execute(0)
            &&& run.action == BatchAction::Commit
            &&& end.action == BatchAction::Finished
            &&& end.results == results
        },
        !b.mutating ==> {
            let end = batch_run(b, s, all_results(results)).0;
            &&& end.action == BatchAction::Finished
            &&& end.results == results
        },
{
    let begun = after_event(b, BatchEvent::Done);
    assert(b.results + results =~= results);
    if b.mutating {
        lemma_operations_run(begun, s, results);
    } else {
        lemma_operations_run(b, s, results);
    }
}

/// A batch fails with the error of the first action that fails. One that
/// changes the store rolls back first, unless it never began.
pub proof fn lemma_failed_batch(b: BatchView, e: ErrorView, undone: BatchEvent)
    requires
        batch_wf(b),
        b.action is Begin || b.action is Execute || b.action is Commit,
    ensures
        ({
            let w = after_event(b, BatchEvent::Failed(e));
            &&& w.failure == Some(e)
            &&& w.results == b.results
            &&& b.action is Begin || !b.mutating ==> w.action is Failed
            &&& b.mutating && !(b.action is Begin) ==> w.action is Rollback && after_event(
                w,
                undone,
            ).action is Failed && after_event(w, undone).failure == Some(e)
        }),
{
}

/// A batch about to start, or none where there is nothing to do.
pub open spec fn batch_begun(start: BatchStart, total: int) -> Option<BatchView> {
    if start is Nothing || total == 0 {
        None
    } else {
        Some(
            BatchView {
                mutating: start is Mutating,
                total,
                action: if start is Mutating {
                    BatchAction::Begin
                } else {
                    BatchAction::Execute(0)
                },
                results: Seq::empty(),
                failure: None,
            },
        )
    }
}

/// How a batch begins: one that may change the store with a transaction, one
/// of reads with its first operation, and one without operations not at all.
/// Nothing has been done and nothing has failed.
pub proof fn lemma_batches_begin(start: BatchStart, total: int)
    ensures
        start is Nothing || total == 0 ==> batch_begun(start, total) is None,
        !(start is Nothing) && total != 0 ==> {
            let begun = batch_begun(start, total);
            &&& begun is Some
            &&& begun->Some_0.total == total
            &&& begun->Some_0.results.len() == 0
            &&& begun->Some_0.failure is None
            &&& start is Mutating <==> begun->Some_0.mutating
            &&& start is Mutating ==> begun->Some_0.action is Begin
            &&& start is ReadOnly ==> begun->Some_0.action == BatchAction::Execute(0)
        },
{
}

} // verus!
