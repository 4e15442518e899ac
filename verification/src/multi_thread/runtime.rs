//! The multi-threaded runtime.
//!
//! [`MultiThreadRuntime`] holds what the threads share and the workers, each at
//! its start. Whoever runs the threads takes the workers, one for each thread.

use vstd::prelude::*;

use crate::multi_thread::executor::{
    Notify, NotifyAll, SharedState, SharedView, Worker, WorkerState,
};
use crate::multi_thread::task::{Task, SCHEDULED};
use crate::multi_thread::timer::{Sleep, TimerWheel};
use crate::heap::TimerEntry;
use crate::task::TaskIds;

verus! {

/// The multi-threaded runtime.
pub struct MultiThreadRuntime<F, W> {
    shared: SharedState<F, W>,
    workers: Vec<Worker<F>>,
    ids: TaskIds,
}

/// The state of a runtime, as the contracts speak of it.
#[verifier::ext_equal]
pub struct MultiThreadView<F, W> {
    /// What the threads share.
    pub shared: SharedView<F, W>,
    /// Where each worker stands.
    pub workers: Seq<WorkerState<F>>,
    /// The id of the next task.
    pub next_id: usize,
}

impl<F, W> View for MultiThreadRuntime<F, W> {
    type V = MultiThreadView<F, W>;

    closed spec fn view(&self) -> MultiThreadView<F, W> {
        MultiThreadView {
            shared: self.shared@,
            workers: self.workers@.map_values(|worker: Worker<F>| worker@),
            next_id: self.ids@,
        }
    }
}

impl<F, W> MultiThreadRuntime<F, W> {
    /// The shared state is well-formed.
    pub closed spec fn wf(&self) -> bool {
        self.shared.wf()
    }

    /// A runtime with `num_threads` workers.
    pub fn new(num_threads: usize) -> (runtime: Self)
        requires
            num_threads > 0,
        ensures
            runtime.wf(),
            runtime@ == (MultiThreadView::<F, W> {
                shared: crate::multi_thread::schedule::initial::<F, W>(num_threads as nat).shared,
                workers: crate::multi_thread::schedule::initial::<F, W>(num_threads as nat).workers,
                next_id: 0,
            }),
            runtime@.workers.len() == num_threads,
            forall|i: int|
                0 <= i < num_threads ==> (#[trigger] runtime@.workers[i]) == WorkerState::<F>::Start,
            runtime@.shared.tasks == Map::<usize, Task<F, W>>::empty(),
            runtime@.shared.ready.len() == 0,
            runtime@.shared.active_count == 0,
            !runtime@.shared.shutdown,
            !runtime@.shared.driver_token,
    {
        let mut workers: Vec<Worker<F>> = Vec::new();
        let mut i: usize = 0;
        while i < num_threads
            invariant
                i <= num_threads,
                workers@.len() == i,
                forall|j: int| 0 <= j < i ==> (#[trigger] workers@[j])@ == WorkerState::<F>::Start,
            decreases num_threads - i,
        {
            workers.push(Worker::new());
            i = i + 1;
        }
        let runtime = MultiThreadRuntime {
            shared: SharedState::new(),
            workers,
            ids: TaskIds::new(),
        };
        assert(runtime@.workers =~= crate::multi_thread::schedule::initial::<F, W>(
            num_threads as nat,
        ).workers);
        runtime
    }

    /// The id of the next task.
    pub fn next_task_id(&mut self) -> (id: usize)
        requires
            old(self).wf(),
        ensures
            final(self).wf(),
            id == old(self)@.next_id,
            final(self)@ == (MultiThreadView {
                next_id: old(self)@.next_id.wrapping_add(1),
                ..old(self)@
            }),
    {
        self.ids.next_task_id()
    }

    /// Spawn a future onto the runtime, as the task `id` that `waker` schedules,
    /// and say whom to tell.
    pub fn spawn(&mut self, id: usize, future: F, waker: W) -> (notify: Notify)
        requires
            old(self).wf(),
        ensures
            final(self).wf(),
            notify.wake_reactor == old(self)@.shared.driver_token,
            final(self)@ == (MultiThreadView {
                shared: crate::multi_thread::executor::after_spawn(
                    old(self)@.shared,
                    (Task { id, future: Some(future), state: SCHEDULED, waker }),
                ),
                ..old(self)@
            }),
    {
        self.shared.spawn(Task::new(id, future, SCHEDULED, waker))
    }

    /// A `Sleep` that completes `duration` after `now`, on the given timers, for
    /// a timer whose state is found by `state`.
    pub fn sleep<H: Clone>(
        &self,
        timers: &mut TimerWheel<H>,
        now: u128,
        duration: u128,
        state: H,
    ) -> (sleep: Sleep<H>)
        requires
            old(timers).wf(),
            now + duration <= u128::MAX,
        ensures
            final(timers).wf(),
            final(timers).inbox() == old(timers).inbox().push(
                (TimerEntry { deadline: (now + duration) as u128, state }),
            ),
            final(timers).heap() == old(timers).heap(),
            final(timers)@ == old(timers)@.insert(
                (TimerEntry { deadline: (now + duration) as u128, state }),
            ),
            cloned(state, sleep.state),
    {
        timers.register(now + duration, state)
    }

    /// Whether some worker is the I/O driver. Its wait is for the timers that it
    /// has seen, so whoever registers a timer interrupts it.
    pub fn has_driver(&self) -> (has_driver: bool)
        ensures
            has_driver == self@.shared.driver_token,
    {
        self.shared.has_driver()
    }

    /// Tell all threads to exit. All workers that rest are to be told of it, and
    /// the wait of the I/O driver is to be interrupted.
    pub fn shutdown(&mut self) -> (notify: NotifyAll)
        requires
            old(self).wf(),
        ensures
            final(self).wf(),
            notify.wake_reactor,
            final(self)@ == (MultiThreadView {
                shared: SharedView { shutdown: true, ..old(self)@.shared },
                ..old(self)@
            }),
    {
        self.shared.shut_down()
    }

    /// Drive a future to completion, blocking: give back its result if it was
    /// left, else the thread is to wait until it is told and to try again.
    pub fn block_on<T>(&self, signal: &mut Signal<T>) -> (result: Option<T>)
        ensures
            result == old(signal)@,
            final(signal)@ == None::<T>,
    {
        signal.take()
    }

    /// What the threads share, for taking steps.
    pub fn shared_mut(&mut self) -> (shared: &mut SharedState<F, W>)
        requires
            old(self).wf(),
        ensures
            shared.wf(),
            shared@ == old(self)@.shared,
            final(self).wf() == final(shared).wf(),
            final(self)@ == (MultiThreadView { shared: final(shared)@, ..old(self)@ }),
    {
        &mut self.shared
    }

    /// The workers, for running them, one in each thread.
    pub fn take_workers(&mut self) -> (workers: Vec<Worker<F>>)
        requires
            old(self).wf(),
        ensures
            final(self).wf(),
            workers@.map_values(|worker: Worker<F>| worker@) == old(self)@.workers,
            workers@.len() == old(self)@.workers.len(),
            final(self)@ == (MultiThreadView { workers: Seq::empty(), ..old(self)@ }),
    {
        let mut workers: Vec<Worker<F>> = Vec::new();
        core::mem::swap(&mut workers, &mut self.workers);
        assert(self@.workers =~= Seq::<WorkerState<F>>::empty());
        workers
    }
}

/// Where the result of a future that a thread blocks on is left for it.
pub struct Signal<T> {
    result: Option<T>,
}

impl<T> View for Signal<T> {
    type V = Option<T>;

    /// The result, if it is there.
    closed spec fn view(&self) -> Option<T> {
        self.result
    }
}

impl<T> Signal<T> {
    /// Without a result.
    pub fn new() -> (signal: Self)
        ensures
            signal@ == None::<T>,
    {
        Signal { result: None }
    }

    /// Leave the result, for the thread that blocks to be told.
    pub fn deposit(&mut self, result: T)
        ensures
            final(self)@ == Some(result),
    {
        self.result = Some(result);
    }

    /// Take the result, if it is there.
    pub fn take(&mut self) -> (result: Option<T>)
        ensures
            result == old(self)@,
            final(self)@ == None::<T>,
    {
        self.result.take()
    }
}

} // verus!
