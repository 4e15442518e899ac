//! The shared state of the worker threads, and the steps that they take.
//!
//! A worker takes tasks from the shared ready queue and polls them. When none
//! is ready, one worker becomes the I/O driver, which fires timers and waits
//! for I/O, while the others rest. Whether a task is ready and who becomes the
//! driver is settled in one step: from then on, whoever makes a task ready finds
//! that there is a driver, and interrupts its wait.
//!
//! A task is `IDLE` until it is woken, `SCHEDULED` while it is on its way to a
//! worker, `RUNNING` while it is polled, and `NOTIFIED` once it was woken in
//! the course of a poll: it is then scheduled again after the poll.

use std::collections::{HashMap, HashSet, VecDeque};
use vstd::prelude::*;

use crate::multi_thread::task::{Task, IDLE, NOTIFIED, RUNNING, SCHEDULED};

verus! {

broadcast use vstd::std_specs::hash::group_hash_axioms;

/// A FIFO queue of task ids that holds every id at most once.
pub struct ReadyQueue {
    queue: VecDeque<usize>,
    pending: HashSet<usize>,
}

impl View for ReadyQueue {
    type V = Seq<usize>;

    /// The ids in the order in which they were put in.
    closed spec fn view(&self) -> Seq<usize> {
        self.queue@
    }
}

impl ReadyQueue {
    /// No id stands in the queue twice, and the set holds the ids in the queue.
    pub closed spec fn wf(&self) -> bool {
        &&& self.queue@.no_duplicates()
        &&& forall|id: usize| self.queue@.contains(id) <==> #[trigger] self.pending@.contains(id)
    }

    /// A queue holds no id twice.
    pub proof fn law_holds_ids_once(&self)
        requires
            self.wf(),
        ensures
            self@.no_duplicates(),
    {
    }

    /// An empty queue.
    pub fn new() -> (queue: Self)
        ensures
            queue.wf(),
            queue@ == Seq::<usize>::empty(),
    {
        ReadyQueue { queue: VecDeque::new(), pending: HashSet::new() }
    }

    /// Put a task id at the end of the queue if it is not there already.
    pub fn enqueue(&mut self, task_id: usize)
        requires
            old(self).wf(),
        ensures
            final(self).wf(),
            final(self)@ == crate::executor::enqueue(old(self)@, task_id),
    {
        let ghost before = self.queue@;
        if self.pending.insert(task_id) {
            self.queue.push_back(task_id);
            proof {
                crate::executor::lemma_push_contains(before, task_id);
            }
        }
    }

    /// Take the first task id out of the queue.
    pub fn dequeue(&mut self) -> (first: Option<usize>)
        requires
            old(self).wf(),
        ensures
            final(self).wf(),
            first == first_of(old(self)@),
            final(self)@ == rest_of(old(self)@),
    {
        let ghost before = self.queue@;
        match self.queue.pop_front() {
            Some(id) => {
                self.pending.remove(&id);
                proof {
                    assert(self.queue@ =~= before.drop_first());
                    assert forall|other: usize|
                        self.queue@.contains(other) <==> #[trigger] self.pending@.contains(other) by {
                        if self.pending@.contains(other) {
                            let i = choose|i: int| 0 <= i < before.len() && before[i] == other;
                            assert(self.queue@[i - 1] == other);
                        }
                        if self.queue@.contains(other) {
                            let i = choose|i: int|
                                0 <= i < self.queue@.len() && self.queue@[i] == other;
                            assert(before[i + 1] == other);
                        }
                    }
                }
                Some(id)
            },
            None => None,
        }
    }

    /// Whether no task id is in the queue.
    pub fn is_empty(&self) -> (empty: bool)
        ensures
            empty == (self@.len() == 0),
    {
        self.queue.len() == 0
    }
}

/// The first id of a queue.
pub open spec fn first_of(queue: Seq<usize>) -> Option<usize> {
    if queue.len() == 0 {
        None
    } else {
        Some(queue[0])
    }
}

/// The queue without its first id.
pub open spec fn rest_of(queue: Seq<usize>) -> Seq<usize> {
    if queue.len() == 0 {
        queue
    } else {
        queue.drop_first()
    }
}

/// What the threads share, as the contracts speak of it.
#[verifier::ext_equal]
pub struct SharedView<F, W> {
    /// The live tasks.
    pub tasks: Map<usize, Task<F, W>>,
    /// The ids of the tasks that are ready.
    pub ready: Seq<usize>,
    /// The number of live tasks.
    pub active_count: usize,
    /// All threads are to exit.
    pub shutdown: bool,
    /// Some worker is the I/O driver.
    pub driver_token: bool,
}

/// What the threads share.
pub struct SharedState<F, W> {
    tasks: HashMap<usize, Task<F, W>>,
    ready_queue: ReadyQueue,
    active_count: usize,
    shutdown: bool,
    driver_token: bool,
}

impl<F, W> View for SharedState<F, W> {
    type V = SharedView<F, W>;

    closed spec fn view(&self) -> SharedView<F, W> {
        SharedView {
            tasks: self.tasks@,
            ready: self.ready_queue@,
            active_count: self.active_count,
            shutdown: self.shutdown,
            driver_token: self.driver_token,
        }
    }
}

/// Whom to tell that a task is ready: one worker that rests, and the I/O driver
/// if there is one.
#[derive(Clone, Copy, Debug, PartialEq, Eq, Structural)]
pub struct Notify {
    /// Whether the wait of the I/O driver is to be interrupted.
    pub wake_reactor: bool,
}

/// Whom to tell that the runtime is shut down: all workers that rest, and the I/O
/// driver.
#[derive(Clone, Copy, Debug, PartialEq, Eq, Structural)]
pub struct NotifyAll {
    /// Whether the wait of the I/O driver is to be interrupted.
    pub wake_reactor: bool,
}

/// The shared state after a task was enqueued.
pub open spec fn after_enqueue<F, W>(shared: SharedView<F, W>, id: usize) -> SharedView<F, W> {
    SharedView { ready: crate::executor::enqueue(shared.ready, id), ..shared }
}

/// The shared state after a task was spawned.
pub open spec fn after_spawn<F, W>(
    shared: SharedView<F, W>,
    task: Task<F, W>,
) -> SharedView<F, W> {
    after_enqueue(
        SharedView {
            tasks: shared.tasks.insert(task.id, task),
            active_count: shared.active_count.wrapping_add(1),
            ..shared
        },
        task.id,
    )
}

impl<F, W> SharedState<F, W> {
    /// The ready queue is well-formed.
    pub closed spec fn wf(&self) -> bool {
        self.ready_queue.wf()
    }

    /// Shared state without tasks.
    pub fn new() -> (shared: Self)
        ensures
            shared.wf(),
            shared@ == (SharedView::<F, W> {
                tasks: Map::empty(),
                ready: Seq::empty(),
                active_count: 0,
                shutdown: false,
                driver_token: false,
            }),
    {
        SharedState {
            tasks: HashMap::new(),
            ready_queue: ReadyQueue::new(),
            active_count: 0,
            shutdown: false,
            driver_token: false,
        }
    }

    /// Enqueue a task for polling, and say whom to tell.
    pub fn enqueue_task(&mut self, task_id: usize) -> (notify: Notify)
        requires
            old(self).wf(),
        ensures
            final(self).wf(),
            final(self)@ == after_enqueue(old(self)@, task_id),
            notify.wake_reactor == old(self)@.driver_token,
    {
        self.ready_queue.enqueue(task_id);
        Notify { wake_reactor: self.driver_token }
    }

    /// Take in a new task and enqueue it for its first poll.
    pub fn spawn(&mut self, task: Task<F, W>) -> (notify: Notify)
        requires
            old(self).wf(),
        ensures
            final(self).wf(),
            final(self)@ == after_spawn(old(self)@, task),
            notify.wake_reactor == old(self)@.driver_token,
    {
        let id: usize = task.id;
        self.tasks.insert(id, task);
        self.active_count = self.active_count.wrapping_add(1);
        self.enqueue_task(id)
    }

    /// The task with a given id, if it is live.
    pub fn task(&self, id: usize) -> (task: Option<&Task<F, W>>)
        ensures
            task == if self@.tasks.contains_key(id) {
                Some(&self@.tasks[id])
            } else {
                None::<&Task<F, W>>
            },
    {
        self.tasks.get(&id)
    }

    /// The number of live tasks.
    pub fn active_count(&self) -> (count: usize)
        ensures
            count == self@.active_count,
    {
        self.active_count
    }

    /// Whether some worker is the I/O driver.
    pub fn has_driver(&self) -> (has_driver: bool)
        ensures
            has_driver == self@.driver_token,
    {
        self.driver_token
    }

    /// Tell all threads to exit, and say whom to tell: the I/O driver too.
    pub fn shut_down(&mut self) -> (notify: NotifyAll)
        requires
            old(self).wf(),
        ensures
            final(self).wf(),
            final(self)@ == (SharedView { shutdown: true, ..old(self)@ }),
            notify.wake_reactor,
    {
        self.shutdown = true;
        NotifyAll { wake_reactor: true }
    }
}

/// How long a worker rests at most before it looks for work again.
pub const REST_NANOS: u128 = 100_000_000;

/// How long the I/O driver waits when timers are pending but it is not known
/// when the next one fires.
pub const TIMERS_PENDING_NANOS: u128 = 1_000_000;

/// Where a worker stands.
pub enum WorkerState<F> {
    /// About to look whether to exit, else to take a task from the ready queue,
    /// and if there is none to become the I/O driver, unless there is one.
    Start,
    /// About to look up the task that it took.
    Lookup(usize),
    /// About to bring the task from `SCHEDULED` to `RUNNING`.
    Claim(usize),
    /// Polling the task.
    Polling(usize),
    /// About to bring the task, which is pending, from `RUNNING` to `IDLE`.
    Release(usize, F),
    /// About to bring the task, which was woken while it was polled, to
    /// `SCHEDULED`.
    Reschedule(usize, F),
    /// About to put the task into the ready queue.
    Enqueue(usize),
    /// About to remove the task, which has completed.
    Remove(usize),
    /// About to count one task less.
    CountDown,
    /// As I/O driver, about to fire timers.
    DriverTimers,
    /// As I/O driver, firing timers.
    AwaitTimers,
    /// As I/O driver, about to wait for I/O, for the given time at most.
    DriverWait(Option<u128>),
    /// As I/O driver, waiting for I/O, and about to fire timers after that.
    Waiting(Option<u128>),
    /// About to be the I/O driver no more.
    Resign,
    /// About to rest.
    Rest,
    /// Gone.
    Exited,
}

/// What a worker has to do between two steps.
pub enum WorkerAction<F> {
    /// Nothing.
    Continue,
    /// Poll the future of a task, and report with [`Worker::polled`].
    Poll(usize, F),
    /// Tell one worker that rests that a task is ready, and the I/O driver if
    /// there is one.
    Notify(Notify),
    /// Tell all workers that rest.
    NotifyAll,
    /// Fire the timers that are due, and report with
    /// [`Worker::timers_processed`].
    ProcessTimers,
    /// Wait for I/O, for the given time at most if there is one, and unless the
    /// wait is interrupted.
    PollReactor(Option<u128>),
    /// Fire the timers that are due.
    FireTimers,
    /// Rest until told otherwise, for the given time at most.
    Park(u128),
    /// Exit.
    Exit,
}

/// What came of a poll.
#[derive(Clone, Copy, Debug, PartialEq, Eq, Structural)]
pub enum PollOutcome {
    /// The task has completed.
    Ready,
    /// The task is waiting.
    Pending,
    /// The poll has panicked.
    Panicked,
}

/// The outcome of one step of a worker.
#[verifier::ext_equal]
pub struct WorkerStep<F, W> {
    /// The shared state after the step.
    pub shared: SharedView<F, W>,
    /// Where the worker stands after the step.
    pub state: WorkerState<F>,
    /// What it has to do then.
    pub action: WorkerAction<F>,
}

/// The shared state with another state, and another whereabouts of the future,
/// for the task `id`. Nothing happens if the task is gone.
pub open spec fn with_task_state<F, W>(
    shared: SharedView<F, W>,
    id: usize,
    state: u8,
    future: Option<F>,
) -> SharedView<F, W> {
    if shared.tasks.contains_key(id) {
        SharedView {
            tasks: shared.tasks.insert(id, Task { state, future, ..shared.tasks[id] }),
            ..shared
        }
    } else {
        shared
    }
}

/// The task `id` is live and in the given state.
pub open spec fn in_state<F, W>(shared: SharedView<F, W>, id: usize, state: u8) -> bool {
    shared.tasks.contains_key(id) && shared.tasks[id].state == state
}

/// One step of a worker.
pub open spec fn worker_step<F, W>(
    shared: SharedView<F, W>,
    state: WorkerState<F>,
) -> WorkerStep<F, W> {
    let go_on = WorkerAction::Continue;
    match state {
        WorkerState::Start => if shared.shutdown {
            WorkerStep { shared, state: WorkerState::Exited, action: WorkerAction::Exit }
        } else {
            match first_of(shared.ready) {
                Some(id) => WorkerStep {
                    shared: SharedView { ready: rest_of(shared.ready), ..shared },
                    state: WorkerState::Lookup(id),
                    action: go_on,
                },
                None => if shared.driver_token {
                    WorkerStep { shared, state: WorkerState::Rest, action: go_on }
                } else {
                    WorkerStep {
                        shared: SharedView { driver_token: true, ..shared },
                        state: WorkerState::DriverTimers,
                        action: go_on,
                    }
                },
            }
        },
        WorkerState::Lookup(id) => WorkerStep {
            shared,
            state: if shared.tasks.contains_key(id) {
                WorkerState::Claim(id)
            } else {
                WorkerState::Start
            },
            action: go_on,
        },
        WorkerState::Claim(id) => if in_state(shared, id, SCHEDULED)
            && shared.tasks[id].future is Some {
            WorkerStep {
                shared: with_task_state(shared, id, RUNNING, None),
                state: WorkerState::Polling(id),
                action: WorkerAction::Poll(id, shared.tasks[id].future->0),
            }
        } else {
            WorkerStep { shared, state: WorkerState::Start, action: go_on }
        },
        WorkerState::Release(id, future) => if in_state(shared, id, RUNNING) {
            WorkerStep {
                shared: with_task_state(shared, id, IDLE, Some(future)),
                state: WorkerState::Start,
                action: go_on,
            }
        } else {
            WorkerStep { shared, state: WorkerState::Reschedule(id, future), action: go_on }
        },
        WorkerState::Reschedule(id, future) => WorkerStep {
            shared: with_task_state(shared, id, SCHEDULED, Some(future)),
            state: WorkerState::Enqueue(id),
            action: go_on,
        },
        WorkerState::Enqueue(id) => WorkerStep {
            shared: after_enqueue(shared, id),
            state: WorkerState::Start,
            action: WorkerAction::Notify(Notify { wake_reactor: shared.driver_token }),
        },
        WorkerState::Remove(id) => WorkerStep {
            shared: SharedView { tasks: shared.tasks.remove(id), ..shared },
            state: WorkerState::CountDown,
            action: go_on,
        },
        WorkerState::CountDown => WorkerStep {
            shared: SharedView { active_count: shared.active_count.wrapping_sub(1), ..shared },
            state: WorkerState::Start,
            action: WorkerAction::NotifyAll,
        },
        WorkerState::DriverTimers => WorkerStep {
            shared,
            state: WorkerState::AwaitTimers,
            action: WorkerAction::ProcessTimers,
        },
        WorkerState::DriverWait(timeout) => WorkerStep {
            shared,
            state: WorkerState::Waiting(timeout),
            action: WorkerAction::PollReactor(timeout),
        },
        WorkerState::Waiting(_) => WorkerStep {
            shared,
            state: WorkerState::Resign,
            action: WorkerAction::FireTimers,
        },
        WorkerState::Resign => WorkerStep {
            shared: SharedView { driver_token: false, ..shared },
            state: WorkerState::Start,
            action: go_on,
        },
        WorkerState::Rest => if shared.ready.len() > 0 {
            WorkerStep { shared, state: WorkerState::Start, action: go_on }
        } else if shared.shutdown {
            WorkerStep { shared, state: WorkerState::Exited, action: WorkerAction::Exit }
        } else {
            WorkerStep {
                shared,
                state: WorkerState::Start,
                action: WorkerAction::Park(REST_NANOS),
            }
        },
        WorkerState::Exited => WorkerStep { shared, state, action: WorkerAction::Exit },
        WorkerState::Polling(_) | WorkerState::AwaitTimers => WorkerStep {
            shared,
            state,
            action: go_on,
        },
    }
}

/// Where a worker stands after the poll of a task: a task that is pending goes
/// back, one that has completed or panicked leaves.
pub open spec fn after_polled<F>(id: usize, future: F, outcome: PollOutcome) -> WorkerState<F> {
    match outcome {
        PollOutcome::Pending => WorkerState::Release(id, future),
        PollOutcome::Ready | PollOutcome::Panicked => WorkerState::Remove(id),
    }
}

/// How long the I/O driver waits: until the next timer fires, if that is known,
/// and until it is interrupted, if no timer is pending.
pub open spec fn drive_timeout(next: Option<u128>, has_pending: bool) -> Option<u128> {
    match next {
        Some(left) => Some(left),
        None => if has_pending {
            Some(TIMERS_PENDING_NANOS)
        } else {
            None
        },
    }
}

/// A worker thread.
pub struct Worker<F> {
    state: WorkerState<F>,
}

impl<F> View for Worker<F> {
    type V = WorkerState<F>;

    /// Where the worker stands.
    closed spec fn view(&self) -> WorkerState<F> {
        self.state
    }
}

impl<F> Worker<F> {
    /// A worker at the start.
    pub fn new() -> (worker: Self)
        ensures
            worker@ == WorkerState::<F>::Start,
    {
        Worker { state: WorkerState::Start }
    }

    /// Take one step, which touches the shared state once, and say what is to
    /// be done before the next.
    pub fn step<W>(&mut self, shared: &mut SharedState<F, W>) -> (action: WorkerAction<F>)
        requires
            old(shared).wf(),
        ensures
            final(shared).wf(),
            worker_step(old(shared)@, old(self)@) == (WorkerStep {
                shared: final(shared)@,
                state: final(self)@,
                action,
            }),
    {
        let mut state: WorkerState<F> = WorkerState::Start;
        core::mem::swap(&mut state, &mut self.state);
        match state {
            WorkerState::Start => {
                if shared.shutdown {
                    self.state = WorkerState::Exited;
                    WorkerAction::Exit
                } else {
                    self.state = match shared.ready_queue.dequeue() {
                        Some(id) => WorkerState::Lookup(id),
                        None => if shared.driver_token {
                            WorkerState::Rest
                        } else {
                            shared.driver_token = true;
                            WorkerState::DriverTimers
                        },
                    };
                    WorkerAction::Continue
                }
            },
            WorkerState::Lookup(id) => {
                self.state = if shared.tasks.contains_key(&id) {
                    WorkerState::Claim(id)
                } else {
                    WorkerState::Start
                };
                WorkerAction::Continue
            },
            WorkerState::Claim(id) => match shared.claim(id) {
                Some(future) => {
                    self.state = WorkerState::Polling(id);
                    WorkerAction::Poll(id, future)
                },
                None => WorkerAction::Continue,
            },
            WorkerState::Release(id, future) => {
                match shared.release(id, future) {
                    Some(future) => {
                        self.state = WorkerState::Reschedule(id, future);
                    },
                    None => {},
                }
                WorkerAction::Continue
            },
            WorkerState::Reschedule(id, future) => {
                shared.reschedule(id, future);
                self.state = WorkerState::Enqueue(id);
                WorkerAction::Continue
            },
            WorkerState::Enqueue(id) => WorkerAction::Notify(shared.enqueue_task(id)),
            WorkerState::Remove(id) => {
                shared.tasks.remove(&id);
                self.state = WorkerState::CountDown;
                WorkerAction::Continue
            },
            WorkerState::CountDown => {
                shared.active_count = shared.active_count.wrapping_sub(1);
                WorkerAction::NotifyAll
            },
            WorkerState::DriverTimers => {
                self.state = WorkerState::AwaitTimers;
                WorkerAction::ProcessTimers
            },
            WorkerState::DriverWait(timeout) => {
                self.state = WorkerState::Waiting(timeout);
                WorkerAction::PollReactor(timeout)
            },
            WorkerState::Waiting(_) => {
                self.state = WorkerState::Resign;
                WorkerAction::FireTimers
            },
            WorkerState::Resign => {
                shared.driver_token = false;
                WorkerAction::Continue
            },
            WorkerState::Rest => {
                if !shared.ready_queue.is_empty() {
                    WorkerAction::Continue
                } else if shared.shutdown {
                    self.state = WorkerState::Exited;
                    WorkerAction::Exit
                } else {
                    WorkerAction::Park(REST_NANOS)
                }
            },
            WorkerState::Exited => {
                self.state = WorkerState::Exited;
                WorkerAction::Exit
            },
            WorkerState::Polling(id) => {
                self.state = WorkerState::Polling(id);
                WorkerAction::Continue
            },
            WorkerState::AwaitTimers => {
                self.state = WorkerState::AwaitTimers;
                WorkerAction::Continue
            },
        }
    }

    /// Report what came of a poll, and hand the future back.
    pub fn polled(&mut self, future: F, outcome: PollOutcome)
        requires
            old(self)@ is Polling,
        ensures
            final(self)@ == after_polled(old(self)@->Polling_0, future, outcome),
    {
        match self.state {
            WorkerState::Polling(id) => {
                self.state = match outcome {
                    PollOutcome::Pending => WorkerState::Release(id, future),
                    PollOutcome::Ready => WorkerState::Remove(id),
                    PollOutcome::Panicked => WorkerState::Remove(id),
                };
            },
            _ => {},
        }
    }

    /// Report that the timers that were due have fired, when the next one fires,
    /// and whether any are pending.
    pub fn timers_processed(&mut self, next: Option<u128>, has_pending: bool)
        requires
            old(self)@ is AwaitTimers,
        ensures
            final(self)@ == WorkerState::<F>::DriverWait(drive_timeout(next, has_pending)),
    {
        let timeout: Option<u128> = match next {
            Some(left) => Some(left),
            None => if has_pending {
                Some(TIMERS_PENDING_NANOS)
            } else {
                None
            },
        };
        self.state = WorkerState::DriverWait(timeout);
    }
}

impl<F, W> SharedState<F, W> {
    /// Bring a task from `SCHEDULED` to `RUNNING` and take its future.
    fn claim(&mut self, id: usize) -> (future: Option<F>)
        requires
            old(self).wf(),
        ensures
            final(self).wf(),
            if in_state(old(self)@, id, SCHEDULED) && old(self)@.tasks[id].future is Some {
                &&& final(self)@ == with_task_state(old(self)@, id, RUNNING, None)
                &&& future == old(self)@.tasks[id].future
            } else {
                &&& final(self)@ == old(self)@
                &&& future is None
            },
    {
        match self.tasks.remove(&id) {
            Some(task) => {
                let mut task = task;
                let mut future: Option<F> = None;
                if task.future.is_some() && task.compare_exchange(SCHEDULED, RUNNING) {
                    future = task.future.take();
                }
                self.tasks.insert(id, task);
                assert(future is None ==> self@ =~= old(self)@);
                assert(future is Some ==> self@ =~= with_task_state(old(self)@, id, RUNNING, None));
                future
            },
            None => {
                assert(self@ =~= old(self)@);
                None
            },
        }
    }

    /// Bring a task from `RUNNING` to `IDLE` and give its future back. The
    /// future comes out again if the task is not `RUNNING`.
    fn release(&mut self, id: usize, future: F) -> (kept: Option<F>)
        requires
            old(self).wf(),
        ensures
            final(self).wf(),
            if in_state(old(self)@, id, RUNNING) {
                &&& final(self)@ == with_task_state(old(self)@, id, IDLE, Some(future))
                &&& kept is None
            } else {
                &&& final(self)@ == old(self)@
                &&& kept == Some(future)
            },
    {
        match self.tasks.remove(&id) {
            Some(task) => {
                let mut task = task;
                let mut kept: Option<F> = Some(future);
                if task.compare_exchange(RUNNING, IDLE) {
                    task.future = kept.take();
                }
                self.tasks.insert(id, task);
                assert(kept is Some ==> self@ =~= old(self)@);
                assert(kept is None ==> self@ =~= with_task_state(
                    old(self)@,
                    id,
                    IDLE,
                    Some(future),
                ));
                kept
            },
            None => {
                assert(self@ =~= old(self)@);
                Some(future)
            },
        }
    }

    /// Bring a task to `SCHEDULED` and give its future back.
    fn reschedule(&mut self, id: usize, future: F)
        requires
            old(self).wf(),
        ensures
            final(self).wf(),
            final(self)@ == with_task_state(old(self)@, id, SCHEDULED, Some(future)),
    {
        match self.tasks.remove(&id) {
            Some(task) => {
                let mut task = task;
                task.state = SCHEDULED;
                task.future = Some(future);
                self.tasks.insert(id, task);
                assert(self@ =~= with_task_state(old(self)@, id, SCHEDULED, Some(future)));
            },
            None => {
                assert(self@ =~= old(self)@);
            },
        }
    }
}

/// Where the use of a waker stands.
#[derive(Clone, Copy, Debug, PartialEq, Eq, Structural)]
pub enum WakeState {
    /// About to look at the state of the task.
    Load,
    /// About to bring the task from `IDLE` to `SCHEDULED`.
    Schedule,
    /// About to bring the task from `RUNNING` to `NOTIFIED`.
    Notify,
    /// About to put the task into the ready queue.
    Enqueue,
    /// Done.
    Done,
}

/// The outcome of one step of using a waker.
#[verifier::ext_equal]
pub struct WakeStep<F, W> {
    /// The shared state after the step.
    pub shared: SharedView<F, W>,
    /// Where the use of the waker stands after the step.
    pub state: WakeState,
    /// Whom to tell then.
    pub notify: Option<Notify>,
}

/// One step of using the waker of the task `id`. An exchange may fail for no
/// reason, which `spurious` says.
pub open spec fn wake_step<F, W>(
    shared: SharedView<F, W>,
    id: usize,
    state: WakeState,
    spurious: bool,
) -> WakeStep<F, W> {
    match state {
        WakeState::Load => WakeStep {
            shared,
            state: if in_state(shared, id, IDLE) {
                WakeState::Schedule
            } else if in_state(shared, id, RUNNING) {
                WakeState::Notify
            } else {
                WakeState::Done
            },
            notify: None,
        },
        WakeState::Schedule => if in_state(shared, id, IDLE) && !spurious {
            WakeStep {
                shared: with_task_state(shared, id, SCHEDULED, shared.tasks[id].future),
                state: WakeState::Enqueue,
                notify: None,
            }
        } else {
            WakeStep { shared, state: WakeState::Load, notify: None }
        },
        WakeState::Notify => if in_state(shared, id, RUNNING) && !spurious {
            WakeStep {
                shared: with_task_state(shared, id, NOTIFIED, shared.tasks[id].future),
                state: WakeState::Done,
                notify: None,
            }
        } else {
            WakeStep { shared, state: WakeState::Load, notify: None }
        },
        WakeState::Enqueue => WakeStep {
            shared: after_enqueue(shared, id),
            state: WakeState::Done,
            notify: Some(Notify { wake_reactor: shared.driver_token }),
        },
        WakeState::Done => WakeStep { shared, state, notify: None },
    }
}

/// The use of a waker: the task is scheduled if it is idle, and marked to be
/// scheduled again if it is being polled. Nothing is left to do for a task that
/// is scheduled or marked already, nor for one that is gone.
#[derive(Clone, Copy, Debug, PartialEq, Eq, Structural)]
pub struct WakeOp {
    /// The task to wake.
    pub task_id: usize,
    /// Where the use of the waker stands.
    pub state: WakeState,
}

impl WakeOp {
    /// The use of the waker of the task `task_id`, at its start.
    pub fn new(task_id: usize) -> (op: Self)
        ensures
            op == (WakeOp { task_id, state: WakeState::Load }),
    {
        WakeOp { task_id, state: WakeState::Load }
    }

    /// Whether nothing is left to do.
    pub fn is_done(&self) -> (done: bool)
        ensures
            done == (self.state is Done),
    {
        match self.state {
            WakeState::Done => true,
            _ => false,
        }
    }

    /// Take one step, which touches the shared state once, and say whom to tell.
    pub fn step<F, W>(&mut self, shared: &mut SharedState<F, W>, spurious: bool) -> (notify: Option<
        Notify,
    >)
        requires
            old(shared).wf(),
        ensures
            final(shared).wf(),
            final(self).task_id == old(self).task_id,
            wake_step(old(shared)@, old(self).task_id, old(self).state, spurious) == (WakeStep {
                shared: final(shared)@,
                state: final(self).state,
                notify,
            }),
    {
        let id: usize = self.task_id;
        match self.state {
            WakeState::Load => {
                self.state = match shared.tasks.get(&id) {
                    Some(task) => if task.state == IDLE {
                        WakeState::Schedule
                    } else if task.state == RUNNING {
                        WakeState::Notify
                    } else {
                        WakeState::Done
                    },
                    None => WakeState::Done,
                };
                None
            },
            WakeState::Schedule => {
                self.state = if !spurious && shared.exchange(id, IDLE, SCHEDULED) {
                    WakeState::Enqueue
                } else {
                    WakeState::Load
                };
                None
            },
            WakeState::Notify => {
                self.state = if !spurious && shared.exchange(id, RUNNING, NOTIFIED) {
                    WakeState::Done
                } else {
                    WakeState::Load
                };
                None
            },
            WakeState::Enqueue => {
                self.state = WakeState::Done;
                Some(shared.enqueue_task(id))
            },
            WakeState::Done => None,
        }
    }
}

impl<F, W> SharedState<F, W> {
    /// Bring a task from one state to another, if it is in the first.
    fn exchange(&mut self, id: usize, from: u8, to: u8) -> (exchanged: bool)
        requires
            old(self).wf(),
        ensures
            final(self).wf(),
            exchanged == in_state(old(self)@, id, from),
            final(self)@ == if in_state(old(self)@, id, from) {
                with_task_state(old(self)@, id, to, old(self)@.tasks[id].future)
            } else {
                old(self)@
            },
    {
        match self.tasks.remove(&id) {
            Some(task) => {
                let mut task = task;
                let exchanged: bool = task.compare_exchange(from, to);
                self.tasks.insert(id, task);
                assert(!exchanged ==> self@ =~= old(self)@);
                assert(exchanged ==> self@ =~= with_task_state(
                    old(self)@,
                    id,
                    to,
                    old(self)@.tasks[id].future,
                ));
                exchanged
            },
            None => {
                assert(self@ =~= old(self)@);
                false
            },
        }
    }
}

/// The queue is first in, first out: the id that is taken out was in front of the
/// rest, none is taken out of an empty queue only, and an id that is put in comes
/// behind those that are there.
pub proof fn law_first_in_first_out(queue: Seq<usize>, id: usize)
    ensures
        first_of(queue) is None <==> queue.len() == 0,
        first_of(queue) matches Some(first) ==> queue == seq![first] + rest_of(queue),
        queue.len() == 0 ==> rest_of(queue).len() == 0,
        crate::executor::enqueue(queue, id).contains(id),
        crate::executor::enqueue(queue, id).take(queue.len() as int) == queue,
        crate::executor::enqueue(queue, id).len() <= queue.len() + 1,
        queue.contains(id) ==> crate::executor::enqueue(queue, id) == queue,
{
    let longer = crate::executor::enqueue(queue, id);
    if queue.len() > 0 {
        assert(queue =~= seq![queue[0]] + queue.drop_first());
    }
    assert(longer.take(queue.len() as int) =~= queue);
    if !queue.contains(id) {
        assert(longer[queue.len() as int] == id);
    }
}

/// A task that is spawned is live, ready behind those that are ready, and counted;
/// nothing else changes.
pub proof fn law_spawned_task_is_ready<F, W>(shared: SharedView<F, W>, task: Task<F, W>)
    ensures
        ({
            let after = after_spawn(shared, task);
            &&& after.tasks == shared.tasks.insert(task.id, task)
            &&& after.ready.contains(task.id)
            &&& after.ready.take(shared.ready.len() as int) == shared.ready
            &&& shared.active_count < usize::MAX ==> after.active_count == shared.active_count + 1
            &&& after.shutdown == shared.shutdown
            &&& after.driver_token == shared.driver_token
        }),
{
    law_first_in_first_out(shared.ready, task.id);
}

/// A worker at its start exits if it was told to. Else it takes the task that has
/// been ready for the longest time; with none ready it becomes the I/O driver, and
/// if there is one already, it goes to rest.
pub proof fn law_what_a_worker_turns_to<F, W>(shared: SharedView<F, W>)
    ensures
        ({
            let step = worker_step(shared, WorkerState::Start);
            &&& shared.shutdown ==> {
                &&& step.state is Exited
                &&& step.action is Exit
                &&& step.shared == shared
            }
            &&& !shared.shutdown ==> step.action is Continue
            &&& !shared.shutdown && shared.ready.len() > 0 ==> {
                &&& step.state == WorkerState::<F>::Lookup(shared.ready[0])
                &&& shared.ready == seq![shared.ready[0]] + step.shared.ready
                &&& step.shared.driver_token == shared.driver_token
            }
            &&& !shared.shutdown && shared.ready.len() == 0 ==> {
                &&& step.shared.driver_token
                &&& step.shared.ready == shared.ready
                &&& step.state is DriverTimers <==> !shared.driver_token
                &&& step.state is Rest <==> shared.driver_token
            }
            &&& step.shared.tasks == shared.tasks
        }),
{
    law_first_in_first_out(shared.ready, 0);
}

/// A task that was scheduled is handed to the worker that took it: the worker finds
/// it, brings it to `RUNNING` and polls its future. A task that is gone, or that is
/// not scheduled, is not polled.
pub proof fn law_scheduled_task_is_polled<F, W>(shared: SharedView<F, W>, id: usize)
    ensures
        shared.tasks.contains_key(id) ==> worker_step(shared, WorkerState::Lookup(id)).state
            == WorkerState::<F>::Claim(id),
        !shared.tasks.contains_key(id) ==> worker_step(
            shared,
            WorkerState::Lookup(id),
        ).state is Start,
        worker_step(shared, WorkerState::Lookup(id)).shared == shared,
        worker_step(shared, WorkerState::Lookup(id)).action is Continue,
        ({
            let step = worker_step(shared, WorkerState::Claim(id));
            if shared.tasks.contains_key(id) && shared.tasks[id].state == SCHEDULED
                && shared.tasks[id].future is Some {
                &&& step.action == WorkerAction::Poll(id, shared.tasks[id].future->0)
                &&& step.state == WorkerState::<F>::Polling(id)
                &&& step.shared.tasks[id].state == RUNNING
                &&& step.shared.tasks[id].future is None
                &&& step.shared.tasks[id].waker == shared.tasks[id].waker
                &&& step.shared.tasks[id].id == shared.tasks[id].id
                &&& step.shared.tasks.dom() == shared.tasks.dom()
                &&& step.shared.ready == shared.ready
            } else {
                &&& step.shared == shared
                &&& step.state is Start
                &&& step.action is Continue
            }
        }),
{
    let step = worker_step(shared, WorkerState::Claim(id));
    assert(step.shared.tasks.dom() =~= shared.tasks.dom());
}

/// A task that is pending gets its future back. If it was not woken while it was
/// polled, it is idle one step later. If it was, it is scheduled and in the ready
/// queue three steps later, and whoever rests is told, the I/O driver too.
pub proof fn law_pending_task_goes_back<F, W>(shared: SharedView<F, W>, id: usize, future: F)
    requires
        shared.tasks.contains_key(id),
    ensures
        ({
            let one = worker_step(shared, after_polled(id, future, PollOutcome::Pending));
            let two = worker_step(one.shared, one.state);
            let three = worker_step(two.shared, two.state);
            &&& shared.tasks[id].state == RUNNING ==> {
                &&& one.state is Start
                &&& one.action is Continue
                &&& one.shared.tasks.contains_key(id)
                &&& one.shared.tasks[id].future == Some(future)
                &&& one.shared.tasks[id].state == IDLE
                &&& one.shared.ready == shared.ready
            }
            &&& shared.tasks[id].state == NOTIFIED ==> {
                &&& one.action is Continue
                &&& two.action is Continue
                &&& three.state is Start
                &&& three.action == WorkerAction::<F>::Notify(
                    Notify { wake_reactor: shared.driver_token },
                )
                &&& three.shared.tasks.contains_key(id)
                &&& three.shared.tasks[id].future == Some(future)
                &&& three.shared.tasks[id].state == SCHEDULED
                &&& three.shared.ready.contains(id)
            }
        }),
{
    law_first_in_first_out(shared.ready, id);
}

/// A task that has completed, or whose poll has panicked, is gone two steps later, it
/// is counted no more, and whoever waits for that is told.
pub proof fn law_finished_task_is_counted_out<F, W>(
    shared: SharedView<F, W>,
    id: usize,
    future: F,
    outcome: PollOutcome,
)
    requires
        !(outcome is Pending),
    ensures
        ({
            let one = worker_step(shared, after_polled(id, future, outcome));
            let two = worker_step(one.shared, one.state);
            &&& one.action is Continue
            &&& two.state is Start
            &&& two.action is NotifyAll
            &&& two.shared.tasks == shared.tasks.remove(id)
            &&& shared.active_count > 0 ==> two.shared.active_count == shared.active_count - 1
            &&& two.shared.ready == shared.ready
            &&& two.shared.driver_token == shared.driver_token
        }),
{
}

/// The I/O driver fires timers, waits for as long as it was told, fires timers again,
/// and is the driver no more: it looks for work again. Meanwhile it changes nothing
/// that is shared but the mark that there is a driver.
pub proof fn law_round_of_the_driver<F, W>(
    shared: SharedView<F, W>,
    waiting: SharedView<F, W>,
    woken: SharedView<F, W>,
    timeout: Option<u128>,
)
    ensures
        ({
            let fire = worker_step(shared, WorkerState::DriverTimers);
            let wait = worker_step(waiting, WorkerState::DriverWait(timeout));
            let fire_again = worker_step(woken, wait.state);
            let resign = worker_step(fire_again.shared, fire_again.state);
            &&& fire.state is AwaitTimers
            &&& fire.action is ProcessTimers
            &&& fire.shared == shared
            &&& wait.action == WorkerAction::<F>::PollReactor(timeout)
            &&& wait.shared == waiting
            &&& fire_again.action is FireTimers
            &&& fire_again.shared == woken
            &&& resign.state is Start
            &&& resign.action is Continue
            &&& !resign.shared.driver_token
            &&& resign.shared.tasks == woken.tasks
            &&& resign.shared.ready == woken.ready
            &&& resign.shared.active_count == woken.active_count
            &&& resign.shared.shutdown == woken.shutdown
        }),
{
}

/// The I/O driver waits exactly until the next timer fires, where that is known. With
/// timers pending otherwise it waits for a millisecond, and with none until it is
/// interrupted.
pub proof fn law_driver_waits_for_the_next_timer(next: Option<u128>, has_pending: bool)
    ensures
        next is Some ==> drive_timeout(next, has_pending) == next,
        next is None && has_pending ==> drive_timeout(next, has_pending) == Some(1_000_000u128),
        next is None && !has_pending ==> drive_timeout(next, has_pending) is None,
{
}

/// A worker that goes to rest does not rest while a task is ready, nor once it was told
/// to exit; else it rests for a tenth of a second at most, and then looks for work.
pub proof fn law_rests_only_without_work<F, W>(shared: SharedView<F, W>)
    ensures
        ({
            let step = worker_step(shared, WorkerState::Rest);
            &&& step.shared == shared
            &&& step.action is Park <==> shared.ready.len() == 0 && !shared.shutdown
            &&& step.action matches WorkerAction::Park(nanos) ==> nanos == 100_000_000
            &&& step.state is Exited <==> shared.ready.len() == 0 && shared.shutdown
            &&& step.state is Exited <==> step.action is Exit
            &&& step.state is Start <==> !(step.state is Exited)
        }),
{
}

/// A worker that is polling or firing timers takes no step by itself, and one that has
/// exited stays away.
pub proof fn law_busy_worker_takes_no_step<F, W>(shared: SharedView<F, W>, state: WorkerState<F>)
    requires
        state is Polling || state is AwaitTimers || state is Exited,
    ensures
        worker_step(shared, state).shared == shared,
        worker_step(shared, state).state == state,
        worker_step(shared, state).action is Exit <==> state is Exited,
        worker_step(shared, state).action is Continue <==> !(state is Exited),
{
}

/// A step of a worker touches only the task that it is about: the others stay as they
/// are, and stay ready where they are ready.
pub proof fn law_step_leaves_others_alone<F, W>(
    shared: SharedView<F, W>,
    state: WorkerState<F>,
    other: usize,
)
    requires
        !crate::multi_thread::schedule::holds(state, other),
        !crate::multi_thread::schedule::carries(state, other),
    ensures
        ({
            let step = worker_step(shared, state);
            &&& step.shared.tasks.contains_key(other) <==> shared.tasks.contains_key(other)
            &&& shared.tasks.contains_key(other) ==> step.shared.tasks[other]
                == shared.tasks[other]
            &&& step.shared.shutdown == shared.shutdown
            &&& shared.ready.contains(other) ==> step.shared.ready.contains(other) || step.state
                == WorkerState::<F>::Lookup(other)
            &&& step.shared.ready.contains(other) ==> shared.ready.contains(other)
            &&& step.shared.active_count != shared.active_count ==> state is CountDown
            &&& step.shared.driver_token != shared.driver_token ==> state is Start || state is Resign
        }),
{
    let step = worker_step(shared, state);
    match state {
        WorkerState::Start => {
            law_first_in_first_out(shared.ready, other);
            if step.state is Lookup {
                assert(step.shared.ready =~= shared.ready.drop_first());
                if shared.ready.contains(other) && shared.ready[0] != other {
                    let i = choose|i: int| 0 <= i < shared.ready.len() && shared.ready[i] == other;
                    assert(step.shared.ready[i - 1] == other);
                }
                if step.shared.ready.contains(other) {
                    let i = choose|i: int|
                        0 <= i < step.shared.ready.len() && step.shared.ready[i] == other;
                    assert(shared.ready[i + 1] == other);
                }
            }
        },
        WorkerState::Enqueue(id) => {
            crate::executor::lemma_push_contains(shared.ready, id);
        },
        _ => {},
    }
}

/// Waking an idle task schedules it: three steps later it is scheduled, with its
/// future, and in the ready queue, and whoever rests is told, the I/O driver too.
pub proof fn law_wake_schedules_an_idle_task<F, W>(shared: SharedView<F, W>, id: usize)
    requires
        shared.tasks.contains_key(id),
        shared.tasks[id].state == IDLE,
    ensures
        ({
            let one = wake_step(shared, id, WakeState::Load, false);
            let two = wake_step(one.shared, id, one.state, false);
            let three = wake_step(two.shared, id, two.state, false);
            &&& one.notify is None && two.notify is None
            &&& three.state is Done
            &&& three.notify == Some(Notify { wake_reactor: shared.driver_token })
            &&& three.shared.ready.contains(id)
            &&& three.shared.ready.take(shared.ready.len() as int) == shared.ready
            &&& three.shared.tasks == shared.tasks.insert(
                id,
                (Task { state: SCHEDULED, ..shared.tasks[id] }),
            )
            &&& three.shared.active_count == shared.active_count
            &&& three.shared.shutdown == shared.shutdown
            &&& three.shared.driver_token == shared.driver_token
        }),
{
    law_first_in_first_out(shared.ready, id);
}

/// Waking a task that is being polled marks it: two steps later it is notified, and
/// nothing else has changed.
pub proof fn law_wake_marks_a_running_task<F, W>(shared: SharedView<F, W>, id: usize)
    requires
        shared.tasks.contains_key(id),
        shared.tasks[id].state == RUNNING,
    ensures
        ({
            let one = wake_step(shared, id, WakeState::Load, false);
            let two = wake_step(one.shared, id, one.state, false);
            &&& one.notify is None && two.notify is None
            &&& two.state is Done
            &&& two.shared == (SharedView {
                tasks: shared.tasks.insert(id, (Task { state: NOTIFIED, ..shared.tasks[id] })),
                ..shared
            })
        }),
{
}

/// Waking a task that is scheduled or notified, or gone, changes nothing and tells
/// nobody.
pub proof fn law_wake_of_a_woken_task_does_nothing<F, W>(
    shared: SharedView<F, W>,
    id: usize,
    spurious: bool,
)
    requires
        shared.tasks.contains_key(id) ==> shared.tasks[id].state == SCHEDULED
            || shared.tasks[id].state == NOTIFIED,
    ensures
        wake_step(shared, id, WakeState::Load, spurious).state is Done,
        wake_step(shared, id, WakeState::Load, spurious).shared == shared,
        wake_step(shared, id, WakeState::Load, spurious).notify is None,
{
}

/// An exchange that fails changes nothing, and the use of the waker begins anew: where
/// it fails for no reason, and where the task is in another state by now.
pub proof fn law_failed_exchange_begins_anew<F, W>(
    shared: SharedView<F, W>,
    id: usize,
    state: WakeState,
    spurious: bool,
)
    requires
        state is Schedule || state is Notify,
        spurious || !shared.tasks.contains_key(id) || shared.tasks[id].state != if state is Schedule {
            IDLE
        } else {
            RUNNING
        },
    ensures
        wake_step(shared, id, state, spurious).state is Load,
        wake_step(shared, id, state, spurious).shared == shared,
        wake_step(shared, id, state, spurious).notify is None,
{
}

} // verus!
