use rate_fanout::worker::{Failure, Worker, WorkerOutcome};
use rate_fanout::Sample;

fn group(names: &[&str]) -> Vec<Sample> {
    names
        .iter()
        .map(|n| Sample::new(n.to_string()))
        .collect()
}

#[test]
fn test_worker_processes_in_order() {
    let mut w = Worker::new(group(&["a", "b", "c"]));
    let mut seen = Vec::new();
    while let Some(item) = w.next_item() {
        seen.push(item.name.clone());
        w.record(Ok(()));
    }
    assert_eq!(seen, vec!["a", "b", "c"]);
    assert_eq!(w.outcome(), WorkerOutcome::Success);
}

#[test]
fn test_worker_fail_fast() {
    let mut w = Worker::new(group(&["a", "b", "c", "d", "e"]));
    let mut handed_to_task = Vec::new();
    while let Some(item) = w.next_item() {
        let name = item.name.clone();
        handed_to_task.push(name.clone());
        if name == "c" {
            w.record(Err(Failure::Task {
                item: name,
                cause: "boom".to_string(),
            }));
        } else {
            w.record(Ok(()));
        }
    }
    // Items after the failing one are never handed to the task body.
    assert_eq!(handed_to_task, vec!["a", "b", "c"]);
    assert!(w.next_item().is_none());
    assert!(w.has_failed());
    assert_eq!(
        w.outcome(),
        WorkerOutcome::Failed(Failure::Task {
            item: "c".to_string(),
            cause: "boom".to_string(),
        })
    );
}

#[test]
fn test_worker_failure_on_first_item() {
    let mut w = Worker::new(group(&["a", "b"]));
    let item = w.next_item().expect("fresh worker with items offers one");
    let name = item.name.clone();
    w.record(Err(Failure::Task {
        item: name,
        cause: "down".to_string(),
    }));
    assert!(w.next_item().is_none());
    assert_eq!(
        w.outcome(),
        WorkerOutcome::Failed(Failure::Task {
            item: "a".to_string(),
            cause: "down".to_string(),
        })
    );
}

#[test]
fn test_worker_empty_group() {
    let w = Worker::new(Vec::new());
    assert!(w.next_item().is_none());
    assert_eq!(w.group_len(), 0);
    assert_eq!(w.outcome(), WorkerOutcome::Success);
}

#[test]
fn test_worker_substrate_failure_recorded() {
    let mut w = Worker::new(group(&["a"]));
    assert!(w.next_item().is_some());
    w.record(Err(Failure::Substrate {
        cause: "worker panicked".to_string(),
    }));
    assert_eq!(
        w.outcome(),
        WorkerOutcome::Failed(Failure::Substrate {
            cause: "worker panicked".to_string(),
        })
    );
}
