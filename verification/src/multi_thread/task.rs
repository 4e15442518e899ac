//! Tasks of the multi-threaded runtime.
//!
//! A task carries a state that says who may touch its future: it is handed to
//! the worker that brings the task from `SCHEDULED` to `RUNNING`, and comes
//! back when that worker is done.

use vstd::prelude::*;

pub use crate::join_handle::JoinHandle;
pub use crate::task::TaskState;

verus! {

/// Not running, not in the ready queue.
pub const IDLE: u8 = 0;

/// In the ready queue, waiting for a worker.
pub const SCHEDULED: u8 = 1;

/// Being polled by a worker.
pub const RUNNING: u8 = 2;

/// Being polled by a worker, and woken meanwhile.
pub const NOTIFIED: u8 = 3;

/// A task that workers can poll.
#[verifier::ext_equal]
pub struct Task<F, W> {
    /// The id under which the task is scheduled.
    pub id: usize,
    /// The future, unless a worker has it.
    pub future: Option<F>,
    /// `IDLE`, `SCHEDULED`, `RUNNING` or `NOTIFIED`.
    pub state: u8,
    /// The waker that schedules the task, built once and used for every poll.
    pub waker: W,
}

impl<F, W> Task<F, W> {
    /// The state is one of the four, and a worker has the future exactly while
    /// the task is being polled.
    pub open spec fn wf(&self) -> bool {
        &&& self.state <= NOTIFIED
        &&& self.future is None <==> self.is_polled()
    }

    /// A worker is polling the task.
    pub open spec fn is_polled(&self) -> bool {
        self.state == RUNNING || self.state == NOTIFIED
    }

    /// A task that owns `future` and starts in `state`.
    pub fn new(id: usize, future: F, state: u8, waker: W) -> (task: Self)
        ensures
            task == (Task { id, future: Some(future), state, waker }),
    {
        Task { id, future: Some(future), state, waker }
    }

    /// The waker that schedules the task.
    pub fn waker(&self) -> (waker: &W)
        ensures
            *waker == self.waker,
    {
        &self.waker
    }

    /// Go from one state to another, if the task is in the first.
    pub fn compare_exchange(&mut self, from: u8, to: u8) -> (exchanged: bool)
        ensures
            exchanged == (old(self).state == from),
            *final(self) == (Task {
                state: if old(self).state == from {
                    to
                } else {
                    old(self).state
                },
                ..*old(self)
            }),
    {
        if self.state == from {
            self.state = to;
            true
        } else {
            false
        }
    }
}

} // verus!
