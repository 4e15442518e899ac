//! Waiting for the result of a spawned task.

use vstd::prelude::*;

use crate::task::{Poll, TaskState};

verus! {

/// A handle to a spawned task, which gives its result once it has completed.
pub struct JoinHandle<T, W> {
    /// What the task leaves behind.
    pub state: TaskState<T, W>,
}

/// What the handle of a task reports.
pub open spec fn join_result<T, W>(state: TaskState<T, W>) -> Poll<T> {
    match state.result {
        Some(result) => Poll::Ready(result),
        None => Poll::Pending,
    }
}

/// The state after its handle was polled: the result is taken, or else the
/// waker is kept for the task to use.
pub open spec fn after_join<T, W>(state: TaskState<T, W>, waker: W) -> TaskState<T, W> {
    match state.result {
        Some(_) => TaskState { result: None, ..state },
        None => TaskState { result: None, waker: Some(waker) },
    }
}

impl<T, W> JoinHandle<T, W> {
    /// The handle of a task that has not completed.
    pub fn new() -> (handle: Self)
        ensures
            handle.state == (TaskState::<T, W> { result: None, waker: None }),
    {
        JoinHandle { state: TaskState::new() }
    }

    /// Take the result if the task has completed, else leave the waker for the
    /// task to use.
    pub fn poll(&mut self, waker: W) -> (poll: Poll<T>)
        ensures
            poll == join_result(old(self).state),
            final(self).state == after_join(old(self).state, waker),
    {
        match self.state.result.take() {
            Some(result) => Poll::Ready(result),
            None => {
                self.state.waker = Some(waker);
                Poll::Pending
            },
        }
    }
}

/// The handle gives what the task returned.
pub proof fn law_result_reaches_handle<T, W>(state: TaskState<T, W>, result: T)
    ensures
        join_result(crate::task::after_complete(state, result)) == Poll::Ready(result),
{
}

/// Whoever is told to wait for a task is woken when it completes: the waker of
/// that poll is the one that the task finds.
pub proof fn law_waiter_is_woken<T, W>(state: TaskState<T, W>, waker: W)
    requires
        join_result(state) is Pending,
    ensures
        after_join(state, waker).waker == Some(waker),
{
}

/// A result is given once.
pub proof fn law_result_is_given_once<T, W>(state: TaskState<T, W>, waker: W)
    ensures
        join_result(after_join(state, waker)) is Pending,
{
}

/// The handle reports what the task has reported: between two polls of the handle,
/// the task can be polled any number of times while it is pending, and the handle
/// is ready exactly after it was.
pub proof fn law_handle_follows_the_task<T, W>(state: TaskState<T, W>, waker: W, polled: Poll<T>)
    requires
        state.result is None,
    ensures
        join_result(state) is Pending,
        join_result(crate::task::after_wrapped(after_join(state, waker), polled)) == polled,
        crate::task::wrapped_report(after_join(state, waker), polled).1 == if polled is Ready {
            Some(waker)
        } else {
            None::<W>
        },
{
}

/// A result is taken once, and taking it registers nobody.
pub proof fn law_result_is_taken<T, W>(state: TaskState<T, W>, waker: W)
    requires
        state.result is Some,
    ensures
        join_result(state) == Poll::Ready(state.result->0),
        after_join(state, waker).result is None,
        after_join(state, waker).waker == state.waker,
{
}

} // verus!
