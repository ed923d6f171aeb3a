//! The coordinator: fan-out of the batch to workers and fan-in of their
//! outcomes.
//!
//! The coordinator partitions the batch, hands one worker to each group, and
//! — after the runtime has driven every worker to its own completion or
//! failure, with no cross-worker cancellation — aggregates the outcomes. The
//! aggregate is success only if every worker succeeded; otherwise it is the
//! first failure in worker-index order, and the rest are discarded.

use vstd::prelude::*;
use crate::partition::{group_size, group_start, partition};
use crate::worker::{Failure, Worker, WorkerModel, WorkerOutcome};
use crate::Sample;

verus! {

/// The first failure among the outcomes, in worker-index order; `None` when
/// every worker succeeded.
pub open spec fn first_failure(s: Seq<WorkerOutcome>) -> Option<Failure>
    decreases s.len(),
{
    if s.len() == 0 {
        None
    } else {
        match s[0] {
            WorkerOutcome::Failed(f) => Some(f),
            WorkerOutcome::Success => first_failure(s.drop_first()),
        }
    }
}

/// The failure a failed outcome carries.
pub open spec fn failure_of(o: WorkerOutcome) -> Failure
    recommends
        o is Failed,
{
    match o {
        WorkerOutcome::Failed(f) => f,
        WorkerOutcome::Success => arbitrary(),
    }
}

/// When every outcome is a success, there is no first failure.
pub proof fn lemma_all_success(s: Seq<WorkerOutcome>)
    requires
        forall|j: int| 0 <= j < s.len() ==> #[trigger] s[j] is Success,
    ensures
        first_failure(s) is None,
    decreases s.len(),
{
    if s.len() > 0 {
        lemma_all_success(s.drop_first());
    }
}

/// When the outcomes before index `i` all succeeded and the one at `i`
/// failed, the first failure is exactly the one at `i`.
pub proof fn lemma_first_failure_at(s: Seq<WorkerOutcome>, i: int)
    requires
        0 <= i < s.len(),
        forall|j: int| 0 <= j < i ==> #[trigger] s[j] is Success,
        s[i] is Failed,
    ensures
        first_failure(s) == Some(failure_of(s[i])),
    decreases i,
{
    if i > 0 {
        lemma_first_failure_at(s.drop_first(), i - 1);
    }
}

/// Splits the batch into one fresh worker per group: `worker_count`
/// contiguous balanced groups, each owned by a worker that has processed
/// nothing yet.
pub fn setup_workers(batch: Vec<Sample>, worker_count: usize) -> (r: Vec<Worker>)
    requires
        worker_count >= 1,
    ensures
        r@.len() == worker_count as int,
        forall|g: int|
            0 <= g < worker_count ==> (#[trigger] r@[g])@ == (WorkerModel {
                group: batch@.subrange(
                    group_start(batch@.len() as int, worker_count as int, g),
                    group_start(batch@.len() as int, worker_count as int, g + 1),
                ),
                next: 0,
                failure: None::<Failure>,
                results: Seq::<bool>::empty(),
            }),
        forall|g: int| 0 <= g < worker_count ==> (#[trigger] r@[g])@.wf(),
{
    let ghost batch_view = batch@;
    let mut groups = partition(batch, worker_count);
    let ghost all_groups = groups@;
    let mut workers: Vec<Worker> = Vec::new();
    while groups.len() > 0
        invariant
            all_groups.len() == worker_count as int,
            workers@.len() + groups@.len() == worker_count as int,
            groups@ =~= all_groups.skip(workers@.len() as int),
            forall|g: int|
                0 <= g < worker_count ==> (#[trigger] all_groups[g])@ == batch_view.subrange(
                    group_start(batch_view.len() as int, worker_count as int, g),
                    group_start(batch_view.len() as int, worker_count as int, g + 1),
                ),
            forall|i: int|
                0 <= i < workers@.len() ==> (#[trigger] workers@[i])@ == (WorkerModel {
                    group: all_groups[i]@,
                    next: 0,
                    failure: None::<Failure>,
                    results: Seq::<bool>::empty(),
                }),
        decreases groups@.len(),
    {
        let group = groups.remove(0);
        proof {
            assert(group@ == all_groups[workers@.len() as int]@);
        }
        workers.push(Worker::new(group));
        proof {
            assert(groups@ =~= all_groups.skip(workers@.len() as int));
        }
    }
    workers
}

/// Aggregates the outcomes of all workers, one per worker in worker-index
/// order: `Ok` exactly when every worker succeeded, otherwise the first
/// failure by worker index — later failures are discarded.
#[verifier::loop_isolation(false)]
pub fn aggregate(outcomes: Vec<WorkerOutcome>) -> (r: Result<(), Failure>)
    ensures
        r == (match first_failure(outcomes@) {
            None => Ok::<(), Failure>(()),
            Some(f) => Err::<(), Failure>(f),
        }),
        (r is Ok) <==> (forall|j: int|
            0 <= j < outcomes@.len() ==> #[trigger] outcomes@[j] is Success),
{
    let ghost orig = outcomes@;
    let n = outcomes.len();
    let mut i: usize = 0;
    let mut rest = outcomes;
    while i < n
        invariant
            n as int == orig.len(),
            rest@ == orig,
            0 <= i <= n,
            forall|j: int| 0 <= j < i ==> #[trigger] orig[j] is Success,
        decreases n - i,
    {
        let failed = match &rest[i] {
            WorkerOutcome::Failed(_) => true,
            WorkerOutcome::Success => false,
        };
        if failed {
            proof {
                lemma_first_failure_at(orig, i as int);
            }
            let found = rest.remove(i);
            match found {
                WorkerOutcome::Failed(f) => {
                    return Err(f);
                },
                WorkerOutcome::Success => {
                    proof {
                        assert(false);
                    }
                },
            }
        }
        i = i + 1;
    }
    proof {
        lemma_all_success(orig);
    }
    Ok(())
}

/// Zero-length batch: with no items every group is empty, a fresh worker on
/// an empty group finishes at once — it offers nothing to the limiter or the
/// task body — and aggregating the resulting unanimous successes is an
/// immediate overall success.
pub proof fn lemma_empty_batch(n: int, m: WorkerModel, outcomes: Seq<WorkerOutcome>)
    requires
        n >= 1,
        m.wf(),
        m.group.len() == 0,
        m.next == 0,
        m.failure is None,
        forall|j: int| 0 <= j < outcomes.len() ==> #[trigger] outcomes[j] is Success,
    ensures
        forall|g: int| 0 <= g < n ==> group_size(0, n, g) == 0,
        !m.can_process(),
        m.outcome() == WorkerOutcome::Success,
        first_failure(outcomes) is None,
{
    lemma_all_success(outcomes);
}

} // verus!
