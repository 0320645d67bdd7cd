use batchrun::exec::{Parallel, Sequential};
use batchrun::supervisor::{ChildPoll, ProcessStatus};

#[test]
fn sequential_stops_at_first_spawn_failure() {
    let mut run = Sequential::new();
    assert!(run.record(Some(ProcessStatus::Success)));
    assert!(!run.record(None));
    assert_eq!(run.finish(), Err(1));
}

#[test]
fn sequential_collects_statuses() {
    let mut run = Sequential::new();
    assert!(run.record(Some(ProcessStatus::Success)));
    assert!(run.record(Some(ProcessStatus::Failure(3))));
    assert_eq!(run.finish(), Ok(vec![ProcessStatus::Success, ProcessStatus::Failure(3)]));
}

#[test]
fn parallel_continues_after_spawn_failure() {
    let mut run = Parallel::new();
    assert!(run.record_spawn(false));
    assert!(run.record_spawn(true));
    assert!(run.record_spawn(true));
    assert_eq!(run.running(), 2);
    assert!(run.record_poll(ChildPoll::Running));
    assert!(!run.record_poll(ChildPoll::Exited { success: true, code: Some(0) }));
    assert!(!run.is_done());
    assert!(!run.record_poll(ChildPoll::Exited { success: false, code: Some(7) }));
    assert!(run.is_done());
    assert_eq!(run.finish(), vec![ProcessStatus::Success, ProcessStatus::Failure(7)]);
}

#[test]
fn parallel_drops_child_that_cannot_be_waited_on() {
    let mut run = Parallel::new();
    run.record_spawn(true);
    assert!(!run.record_poll(ChildPoll::WaitFailed));
    assert!(run.is_done());
    assert!(run.finish().is_empty());
}
