//! Dispatch policies of the non-interactive modes. The caller starts and
//! waits on the processes; these types decide what happens next and collect
//! the statuses.

use crate::supervisor::{classify_exit, exit_status, ChildPoll, ProcessStatus};
use vstd::prelude::*;

verus! {

/// Runs the batches one at a time, waiting for each process before the next
/// batch; the first batch whose process cannot start ends the run.
pub struct Sequential {
    statuses: Vec<ProcessStatus>,
    failed: bool,
}

impl Sequential {
    /// Statuses of the processes that ran, in batch order.
    pub closed spec fn statuses(&self) -> Seq<ProcessStatus> {
        self.statuses@
    }

    /// Whether a process failed to start.
    pub closed spec fn failed(&self) -> bool {
        self.failed
    }

    pub fn new() -> (r: Sequential)
        ensures
            r.statuses() == Seq::<ProcessStatus>::empty(),
            !r.failed(),
    {
        Sequential { statuses: Vec::new(), failed: false }
    }

    /// Records how the current batch went: the status its process ended
    /// with, or `None` when the process could not be started. Returns whether
    /// the next batch is to be dispatched.
    pub fn record(&mut self, outcome: Option<ProcessStatus>) -> (go: bool)
        requires
            !old(self).failed(),
        ensures
            go == outcome is Some,
            final(self).failed() == outcome is None,
            final(self).statuses() == match outcome {
                Some(st) => old(self).statuses().push(st),
                None => old(self).statuses(),
            },
    {
        match outcome {
            Some(st) => {
                self.statuses.push(st);
                true
            },
            None => {
                self.failed = true;
                false
            },
        }
    }

    /// The statuses of all the processes, or, when one could not be started,
    /// the index of its batch.
    pub fn finish(self) -> (r: Result<Vec<ProcessStatus>, usize>)
        ensures
            self.failed() ==> r == Err::<Vec<ProcessStatus>, usize>(self.statuses().len() as usize),
            !self.failed() ==> r is Ok && r->Ok_0@ == self.statuses(),
    {
        if self.failed {
            Err(self.statuses.len())
        } else {
            Ok(self.statuses)
        }
    }
}

/// Starts a process for every batch without waiting, then polls them all
/// until each has exited. A batch whose process cannot start is skipped and
/// the next one is dispatched.
pub struct Parallel {
    exited: Vec<ProcessStatus>,
    running: usize,
}

impl Parallel {
    /// Statuses of the processes that have exited, in the order seen.
    pub closed spec fn exited(&self) -> Seq<ProcessStatus> {
        self.exited@
    }

    /// Number of started processes that are still to be waited on.
    pub closed spec fn running_count(&self) -> nat {
        self.running as nat
    }

    pub fn new() -> (r: Parallel)
        ensures
            r.exited() == Seq::<ProcessStatus>::empty(),
            r.running_count() == 0,
    {
        Parallel { exited: Vec::new(), running: 0 }
    }

    pub fn running(&self) -> (n: usize)
        ensures
            n == self.running_count(),
    {
        self.running
    }

    /// Records whether the process of a batch started. The next batch is
    /// dispatched either way.
    pub fn record_spawn(&mut self, started: bool) -> (go: bool)
        requires
            old(self).running_count() < usize::MAX,
        ensures
            go,
            final(self).exited() == old(self).exited(),
            final(self).running_count() == old(self).running_count() + if started {
                1nat
            } else {
                0nat
            },
    {
        if started {
            self.running = self.running + 1;
        }
        true
    }

    /// Records one poll of a running process; returns whether it is to be
    /// polled again. A process that exited adds its status; one that can no
    /// longer be waited on is dropped.
    pub fn record_poll(&mut self, poll: ChildPoll) -> (again: bool)
        requires
            old(self).running_count() > 0,
        ensures
            again == poll is Running,
            final(self).running_count() == old(self).running_count() - if again {
                0int
            } else {
                1int
            },
            final(self).exited() == match poll {
                ChildPoll::Exited { success, code } => old(self).exited().push(
                    exit_status(success, code),
                ),
                _ => old(self).exited(),
            },
    {
        match poll {
            ChildPoll::Running => true,
            ChildPoll::Exited { success, code } => {
                self.exited.push(classify_exit(success, code));
                self.running = self.running - 1;
                false
            },
            ChildPoll::WaitFailed => {
                self.running = self.running - 1;
                false
            },
        }
    }

    /// Whether every started process has been accounted for.
    pub fn is_done(&self) -> (r: bool)
        ensures
            r == (self.running_count() == 0),
    {
        self.running == 0
    }

    /// The statuses of the processes that exited.
    pub fn finish(self) -> (r: Vec<ProcessStatus>)
        ensures
            r@ == self.exited(),
    {
        self.exited
    }
}

} // verus!
