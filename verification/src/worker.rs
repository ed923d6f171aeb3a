//! A worker: sequential processing of one partition of the batch.
//!
//! A worker walks its group strictly in order. For every item the surrounding
//! runtime first obtains admission from the shared limiter, then runs the
//! external task body and records its result here. Recording a failure stops
//! the worker: no later item of its group is ever offered again (fail-fast
//! within the worker), while other workers are unaffected — each owns its own
//! state.

use vstd::prelude::*;
use crate::Sample;

verus! {

/// Why a run failed.
#[derive(Clone, Debug, PartialEq, Eq)]
pub enum Failure {
    /// The external task body reported an error for a specific item; carries
    /// the item's identity and the underlying cause.
    Task { item: String, cause: String },
    /// The concurrency runtime failed to run or join a worker; treated like a
    /// task failure for propagation.
    Substrate { cause: String },
}

/// What a single worker reports to the coordinator.
#[derive(Clone, Debug, PartialEq, Eq)]
pub enum WorkerOutcome {
    Success,
    Failed(Failure),
}

/// Mathematical state of a worker.
///
/// `results` records, for each item already handed to the task body and in
/// group order, whether the task succeeded. `next` is the index of the first
/// item not yet handed out.
pub ghost struct WorkerModel {
    pub group: Seq<Sample>,
    pub next: int,
    pub failure: Option<Failure>,
    pub results: Seq<bool>,
}

impl WorkerModel {
    /// Well-formedness: exactly the first `next` items have been handed to
    /// the task body; all of them succeeded except possibly the last, and a
    /// recorded failure is exactly a failed last result.
    pub open spec fn wf(self) -> bool {
        &&& 0 <= self.next <= self.group.len()
        &&& self.results.len() == self.next
        &&& (self.failure is None ==> forall|j: int|
            0 <= j < self.results.len() ==> #[trigger] self.results[j])
        &&& (self.failure is Some ==> self.next >= 1 && !self.results[self.next - 1]
            && (forall|j: int| 0 <= j < self.next - 1 ==> #[trigger] self.results[j]))
    }

    /// The worker still has an item to hand to the task body: nothing failed
    /// yet and the group is not exhausted.
    pub open spec fn can_process(self) -> bool {
        self.failure is None && self.next < self.group.len()
    }

    /// The outcome the worker reports once it can process nothing further.
    pub open spec fn outcome(self) -> WorkerOutcome {
        match self.failure {
            Some(f) => WorkerOutcome::Failed(f),
            None => WorkerOutcome::Success,
        }
    }
}

/// A worker over one group of the batch. Its abstract state is
/// [`WorkerModel`]; the group is fixed at construction.
pub struct Worker {
    group: Vec<Sample>,
    next: usize,
    failure: Option<Failure>,
    results: Ghost<Seq<bool>>,
}

impl View for Worker {
    type V = WorkerModel;

    closed spec fn view(&self) -> WorkerModel {
        WorkerModel {
            group: self.group@,
            next: self.next as int,
            failure: self.failure,
            results: self.results@,
        }
    }
}

impl Worker {
    /// A fresh worker that owns `group` and has processed nothing.
    pub fn new(group: Vec<Sample>) -> (w: Worker)
        ensures
            w@ == (WorkerModel {
                group: group@,
                next: 0,
                failure: None::<Failure>,
                results: Seq::<bool>::empty(),
            }),
            w@.wf(),
    {
        Worker { group, next: 0, failure: None, results: Ghost(Seq::empty()) }
    }

    /// The item to hand to the task body next, in group order; `None` once
    /// the group is exhausted or a failure has been recorded. The caller must
    /// obtain limiter admission before running the task body on the item.
    pub fn next_item(&self) -> (r: Option<&Sample>)
        requires
            self@.wf(),
        ensures
            match r {
                Some(s) => self@.can_process() && *s == self@.group[self@.next],
                None => !self@.can_process(),
            },
    {
        if self.failure.is_some() {
            None
        } else if self.next < self.group.len() {
            Some(&self.group[self.next])
        } else {
            None
        }
    }

    /// Records the task body's result for the current item. On an error the
    /// worker captures the failure and stops: it can process nothing further.
    pub fn record(&mut self, result: Result<(), Failure>)
        requires
            old(self)@.wf(),
            old(self)@.can_process(),
        ensures
            final(self)@.wf(),
            final(self)@.group == old(self)@.group,
            final(self)@.next == old(self)@.next + 1,
            final(self)@.results == old(self)@.results.push(result is Ok),
            final(self)@.failure == (match result {
                Ok(()) => None::<Failure>,
                Err(f) => Some(f),
            }),
            final(self)@.can_process() <==> (result is Ok && old(self)@.next + 1
                < old(self)@.group.len()),
    {
        let len = self.group.len();
        assert(self.next < len);
        self.next = self.next + 1;
        match result {
            Ok(()) => {
                proof {
                    self.results@ = self.results@.push(true);
                }
            },
            Err(f) => {
                self.failure = Some(f);
                proof {
                    self.results@ = self.results@.push(false);
                }
            },
        }
    }

    /// The number of items in this worker's group.
    pub fn group_len(&self) -> (r: usize)
        ensures
            r as int == self@.group.len(),
    {
        self.group.len()
    }

    /// Whether a failure has already been recorded.
    pub fn has_failed(&self) -> (r: bool)
        ensures
            r == (self@.failure is Some),
    {
        self.failure.is_some()
    }

    /// The worker's report, available once it can process nothing further:
    /// the captured failure if one was recorded, success otherwise.
    pub fn outcome(self) -> (r: WorkerOutcome)
        requires
            self@.wf(),
            !self@.can_process(),
        ensures
            r == self@.outcome(),
    {
        match self.failure {
            Some(f) => WorkerOutcome::Failed(f),
            None => WorkerOutcome::Success,
        }
    }
}

/// Fail-fast within a worker: once a failure is recorded, the worker offers
/// no further item — the items handed to the task body are exactly the first
/// `next` ones of its group, every one before the failing item succeeded, and
/// the failing item is the last one ever handed out.
pub proof fn lemma_fail_fast(m: WorkerModel)
    requires
        m.wf(),
        m.failure is Some,
    ensures
        !m.can_process(),
        1 <= m.next <= m.group.len(),
        m.results.len() == m.next,
        !m.results[m.next - 1],
        forall|j: int| 0 <= j < m.next - 1 ==> #[trigger] m.results[j],
{
}

} // verus!
