//! The single-threaded runtime.
//!
//! [`Runtime`] owns the executor and gives out task ids. Driving a future to
//! completion alternates between running tasks, polling the handle of the
//! future, firing timers and waiting for I/O; [`Runtime::block_on`] decides what
//! comes next from what has happened, and the caller does it.

use vstd::prelude::*;

use crate::executor::{make_waker, Executor, ExecutorView, PollRecord};
use crate::task::{Poll, Task, TaskFuture, TaskIds, TaskState, Waker};
use crate::timer::{Sleep, TimerState, TimerWheel};

verus! {

/// How long to wait when timers are pending but it is not known when the next
/// one fires.
pub const TIMERS_PENDING_NANOS: u128 = 1_000_000;

/// How long to wait when tasks are alive and no timer is pending, so that
/// wake-ups from elsewhere are not missed.
pub const TASKS_ALIVE_NANOS: u128 = 5_000_000;

/// Where driving a future to completion stands: what was asked for last.
#[derive(Clone, Copy, Debug, PartialEq, Eq, Structural)]
pub enum Stage {
    /// To run the ready tasks.
    Run,
    /// To poll the handle, which was woken.
    Handle,
    /// To poll the handle because there are no more tasks.
    EmptyHandle,
    /// To fire timers before a wait.
    Timers,
    /// To wait for I/O.
    Wait,
    /// To fire timers after a wait.
    TimersAfterWait,
    /// To poll the handle for the last time.
    LastHandle,
    /// Nothing more.
    Finished,
}

/// What to do next.
#[derive(Clone, Copy, Debug, PartialEq, Eq, Structural)]
pub enum Action {
    /// Run one tick of the executor.
    Tick,
    /// Poll the handle of the future, after the note that it was woken has been
    /// reset if `reset_woken` says so.
    PollHandle { reset_woken: bool },
    /// Fire the timers that are due.
    ProcessTimers,
    /// Wait for I/O, for the given time at most.
    Wait(u128),
    /// Give back the value that the handle has just given.
    Return,
    /// Fail: the future is not complete, and nothing is left that could
    /// complete it.
    Fail,
}

/// What has happened.
#[derive(Clone, Copy, Debug, PartialEq, Eq, Structural)]
pub enum Happened {
    /// A tick has run; it tells whether a task was polled.
    Ticked(bool),
    /// The handle was polled; it tells whether it has given the value.
    HandlePolled(bool),
    /// Timers have fired; it tells when the next one fires and whether any are
    /// pending.
    TimersProcessed(Option<u128>, bool),
    /// The wait is over.
    Waited,
}

/// What has happened answers what was asked for.
pub open spec fn answers(stage: Stage, happened: Happened) -> bool {
    match stage {
        Stage::Run => happened is Ticked,
        Stage::Handle | Stage::EmptyHandle | Stage::LastHandle => happened is HandlePolled,
        Stage::Timers | Stage::TimersAfterWait => happened is TimersProcessed,
        Stage::Wait => happened is Waited,
        Stage::Finished => false,
    }
}

/// What the decision looks at besides what has happened.
pub struct Surroundings {
    /// The handle was woken since it was last polled.
    pub woken: bool,
    /// There are no more tasks.
    pub no_tasks: bool,
    /// No task is ready.
    pub none_ready: bool,
}

/// What comes after the handle was found not to be woken, or pending: with no
/// more tasks it is polled once more, else timers are fired.
pub open spec fn after_handle(around: Surroundings) -> (Stage, Action) {
    if around.no_tasks {
        (Stage::EmptyHandle, Action::PollHandle { reset_woken: false })
    } else {
        (Stage::Timers, Action::ProcessTimers)
    }
}

/// What comes after timers were fired: ready tasks are run at once. Else there
/// is a wait, until the next timer fires if any is pending; only if there is
/// nothing to wait for, the handle is polled for the last time.
pub open spec fn after_timers(
    next: Option<u128>,
    pending: bool,
    around: Surroundings,
) -> (Stage, Action) {
    if !around.none_ready {
        (Stage::Run, Action::Tick)
    } else if pending {
        (
            Stage::Wait,
            Action::Wait(
                match next {
                    Some(left) => left,
                    None => TIMERS_PENDING_NANOS,
                },
            ),
        )
    } else if around.no_tasks {
        (Stage::LastHandle, Action::PollHandle { reset_woken: false })
    } else {
        (Stage::Wait, Action::Wait(TASKS_ALIVE_NANOS))
    }
}

/// What comes next.
pub open spec fn decide(stage: Stage, happened: Happened, around: Surroundings) -> (
    Stage,
    Action,
) {
    match (stage, happened) {
        (Stage::Run, Happened::Ticked(polled)) => if polled {
            (Stage::Run, Action::Tick)
        } else if around.woken {
            (Stage::Handle, Action::PollHandle { reset_woken: true })
        } else {
            after_handle(around)
        },
        (Stage::Handle, Happened::HandlePolled(ready)) => if ready {
            (Stage::Finished, Action::Return)
        } else {
            after_handle(around)
        },
        (Stage::EmptyHandle, Happened::HandlePolled(ready)) => if ready {
            (Stage::Finished, Action::Return)
        } else {
            (Stage::Timers, Action::ProcessTimers)
        },
        (Stage::Timers, Happened::TimersProcessed(next, pending)) => after_timers(
            next,
            pending,
            around,
        ),
        (Stage::Wait, Happened::Waited) => (Stage::TimersAfterWait, Action::ProcessTimers),
        (Stage::TimersAfterWait, Happened::TimersProcessed(_, _)) => (Stage::Run, Action::Tick),
        (Stage::LastHandle, Happened::HandlePolled(ready)) => if ready {
            (Stage::Finished, Action::Return)
        } else {
            (Stage::Finished, Action::Fail)
        },
        _ => (Stage::Finished, Action::Fail),
    }
}

/// A future that is driven to completion.
pub struct BlockOn {
    stage: Stage,
}

impl View for BlockOn {
    type V = Stage;

    /// What was asked for last.
    closed spec fn view(&self) -> Stage {
        self.stage
    }
}

impl BlockOn {
    /// Begin: the ready tasks are run first.
    pub fn new() -> (begun: (Self, Action))
        ensures
            begun.0@ == Stage::Run,
            begun.1 == Action::Tick,
    {
        (BlockOn { stage: Stage::Run }, Action::Tick)
    }
}

/// The single-threaded runtime.
pub struct Runtime<F> {
    executor: Executor<F>,
    ids: TaskIds,
}

/// The state of a runtime, as the contracts speak of it.
#[verifier::ext_equal]
pub struct RuntimeView<F> {
    /// The executor.
    pub executor: ExecutorView<F>,
    /// The id of the next task.
    pub next_id: usize,
}

impl<F> View for Runtime<F> {
    type V = RuntimeView<F>;

    closed spec fn view(&self) -> RuntimeView<F> {
        RuntimeView { executor: self.executor@, next_id: self.ids@ }
    }
}

impl<F> Runtime<F> {
    /// The executor is well-formed.
    pub closed spec fn wf(&self) -> bool {
        self.executor.wf()
    }

    /// What a decision sees of the runtime.
    pub open spec fn surroundings(&self, woken: bool) -> Surroundings {
        Surroundings {
            woken,
            no_tasks: self@.executor.tasks.len() == 0,
            none_ready: self@.executor.ready.len() == 0,
        }
    }

    /// A decision sees what is there: whether any task is ready, and whether any is
    /// alive.
    pub proof fn law_sees_what_is_there(&self, woken: bool)
        requires
            self@.executor.tasks.dom().finite(),
        ensures
            self.surroundings(woken).woken == woken,
            self.surroundings(woken).none_ready <==> forall|id: usize|
                !(#[trigger] self@.executor.ready.contains(id)),
            self.surroundings(woken).no_tasks <==> forall|id: usize|
                !(#[trigger] self@.executor.tasks.contains_key(id)),
    {
        let ready = self@.executor.ready;
        let tasks = self@.executor.tasks;
        if ready.len() > 0 {
            assert(ready.contains(ready[0]));
        }
        if tasks.len() > 0 {
            assert(tasks.contains_key(tasks.dom().choose()));
        }
        assert forall|id: usize| #[trigger] tasks.contains_key(id) implies tasks.len() > 0 by {
            assert(tasks.dom().remove(id).len() == tasks.dom().len() - 1);
        }
    }

    /// A runtime without tasks.
    pub fn new() -> (runtime: Self)
        ensures
            runtime.wf(),
            runtime@ == (RuntimeView::<F> {
                executor: ExecutorView { tasks: Map::empty(), ready: Seq::empty() },
                next_id: 0,
            }),
    {
        Runtime { executor: Executor::new(), ids: TaskIds::new() }
    }

    /// Spawn a future onto the runtime, and return the id of its task.
    pub fn spawn(&mut self, future: F) -> (id: usize)
        requires
            old(self).wf(),
        ensures
            final(self).wf(),
            id == old(self)@.next_id,
            final(self)@ == (RuntimeView {
                executor: ExecutorView {
                    tasks: old(self)@.executor.tasks.insert(
                        id,
                        (Task { future, id, waker: Waker { task_id: id } }),
                    ),
                    ready: crate::executor::enqueue(old(self)@.executor.ready, id),
                },
                next_id: old(self)@.next_id.wrapping_add(1),
            }),
    {
        let id: usize = self.ids.next_task_id();
        let task = Task::new(id, future, make_waker(id));
        self.executor.spawn(task);
        id
    }

    /// Make the task that `waker` schedules ready.
    pub fn wake(&mut self, waker: Waker)
        requires
            old(self).wf(),
        ensures
            final(self).wf(),
            final(self)@ == (RuntimeView {
                executor: ExecutorView {
                    ready: crate::executor::enqueue(old(self)@.executor.ready, waker.task_id),
                    ..old(self)@.executor
                },
                ..old(self)@
            }),
    {
        self.executor.wake(waker);
    }

    /// A `Sleep` that completes `duration` after `now`, on the given timers.
    pub fn sleep<W>(&self, timers: &mut TimerWheel<W>, now: u128, duration: u128) -> (sleep: Sleep)
        requires
            old(timers).wf(),
            now + duration <= u128::MAX,
        ensures
            final(timers).wf(),
            !old(timers)@.contains_key(sleep.id()),
            final(timers)@ == old(timers)@.insert(
                sleep.id(),
                (TimerState {
                    deadline: (now + duration) as u128,
                    completed: false,
                    waker: None,
                    held: true,
                }),
            ),
    {
        timers.register(now + duration)
    }

    /// Drive a future to completion: decide what comes next, from what was asked
    /// for last and what has happened. `woken` says whether the handle of the
    /// future was woken since it was last polled.
    pub fn block_on(&self, driven: &mut BlockOn, happened: Happened, woken: bool) -> (action: Action)
        requires
            answers(old(driven)@, happened),
        ensures
            (final(driven)@, action) == decide(old(driven)@, happened, self.surroundings(woken)),
            happened is TimersProcessed && self@.executor.ready.len() > 0 ==> action is Tick,
            action is Wait ==> self@.executor.ready.len() == 0,
            action is Return <==> happened == Happened::HandlePolled(true),
            action is Fail ==> old(driven)@ is LastHandle,
            final(driven)@ is LastHandle ==> self@.executor.tasks.len() == 0,
    {
        let no_tasks: bool = self.executor.is_empty();
        let none_ready: bool = self.executor.is_idle();
        let (stage, action) = match happened {
            Happened::Ticked(polled) => if polled {
                (Stage::Run, Action::Tick)
            } else if woken {
                (Stage::Handle, Action::PollHandle { reset_woken: true })
            } else if no_tasks {
                (Stage::EmptyHandle, Action::PollHandle { reset_woken: false })
            } else {
                (Stage::Timers, Action::ProcessTimers)
            },
            Happened::HandlePolled(ready) => if ready {
                (Stage::Finished, Action::Return)
            } else if driven.stage == Stage::LastHandle {
                (Stage::Finished, Action::Fail)
            } else if driven.stage == Stage::Handle && no_tasks {
                (Stage::EmptyHandle, Action::PollHandle { reset_woken: false })
            } else {
                (Stage::Timers, Action::ProcessTimers)
            },
            Happened::TimersProcessed(next, pending) => if driven.stage == Stage::TimersAfterWait
                || !none_ready {
                (Stage::Run, Action::Tick)
            } else if pending {
                (Stage::Wait, Action::Wait(next.unwrap_or(TIMERS_PENDING_NANOS)))
            } else if no_tasks {
                (Stage::LastHandle, Action::PollHandle { reset_woken: false })
            } else {
                (Stage::Wait, Action::Wait(TASKS_ALIVE_NANOS))
            },
            Happened::Waited => (Stage::TimersAfterWait, Action::ProcessTimers),
        };
        driven.stage = stage;
        action
    }
}

impl<F: TaskFuture> Runtime<F> {
    /// Run one tick of the executor.
    ///
    /// Returns `true` if at least one task was polled.
    pub fn tick(&mut self) -> (polled: bool)
        requires
            old(self).wf(),
        ensures
            final(self).wf(),
            polled == exists|id: usize| #[trigger]
                old(self)@.executor.ready.contains(id)
                    && old(self)@.executor.tasks.contains_key(id),
            final(self)@.next_id == old(self)@.next_id,
            crate::executor::poll_batch(
                (ExecutorView { ready: Seq::empty(), ..old(self)@.executor }),
                old(self)@.executor.ready,
                final(self)@.executor,
            ),
    {
        self.executor.tick()
    }
}

/// A value is returned only when the handle has just given it, and whenever it
/// has.
pub proof fn law_returns_what_the_handle_gave(
    stage: Stage,
    happened: Happened,
    around: Surroundings,
)
    requires
        answers(stage, happened),
    ensures
        decide(stage, happened, around).1 is Return <==> happened == Happened::HandlePolled(true),
{
}

/// There is no wait while a task is ready.
pub proof fn law_no_wait_while_ready(stage: Stage, happened: Happened, around: Surroundings)
    requires
        answers(stage, happened),
        decide(stage, happened, around).1 is Wait,
    ensures
        around.none_ready,
{
}

/// A wait is never longer than until the next timer.
pub proof fn law_wait_ends_with_next_timer(next: u128, around: Surroundings)
    ensures
        decide(Stage::Timers, Happened::TimersProcessed(Some(next), true), around).1 matches Action::Wait(
            timeout,
        ) ==> timeout == next,
{
}

/// Driving a future fails only when the handle is pending and there is nothing
/// left to do: the handle is polled for the last time only when no task is left
/// and no timer is pending.
pub proof fn law_fails_only_when_stuck(stage: Stage, happened: Happened, around: Surroundings)
    requires
        answers(stage, happened),
    ensures
        decide(stage, happened, around).1 is Fail ==> stage is LastHandle && happened
            == Happened::HandlePolled(false),
        decide(stage, happened, around).0 is LastHandle ==> around.no_tasks && around.none_ready && (
        happened matches Happened::TimersProcessed(_, pending) && !pending),
{
}

/// A handle that was woken is polled as soon as no task is ready.
pub proof fn law_woken_handle_is_polled(around: Surroundings)
    requires
        around.woken,
    ensures
        decide(Stage::Run, Happened::Ticked(false), around) == (
            Stage::Handle,
            Action::PollHandle { reset_woken: true },
        ),
{
}

/// As long as it is not finished, something is asked for that is answered.
pub proof fn law_asks_for_what_is_answered(
    stage: Stage,
    happened: Happened,
    around: Surroundings,
)
    requires
        answers(stage, happened),
    ensures
        ({
            let (next, action) = decide(stage, happened, around);
            match action {
                Action::Tick => next is Run,
                Action::PollHandle { reset_woken } => {
                    &&& next is Handle || next is EmptyHandle || next is LastHandle
                    &&& reset_woken == (next is Handle)
                },
                Action::ProcessTimers => next is Timers || next is TimersAfterWait,
                Action::Wait(_) => next is Wait,
                Action::Return | Action::Fail => next is Finished,
            }
        }),
{
}

/// A future that completes is given back: the handle was left with the flag's
/// waker, so that completing the future sets the flag; with the flag set the
/// handle is polled as soon as no task is ready, it gives the result of the
/// future, and that is returned.
pub proof fn law_block_on_returns_the_result<T, W>(
    state: TaskState<T, W>,
    flag: W,
    result: T,
    around: Surroundings,
)
    requires
        crate::join_handle::join_result(state) is Pending,
        around.woken,
    ensures
        ({
            let waiting = crate::join_handle::after_join(state, flag);
            let complete = crate::task::after_complete(waiting, result);
            &&& waiting.waker == Some(flag)
            &&& decide(Stage::Run, Happened::Ticked(false), around) == (
                Stage::Handle,
                Action::PollHandle { reset_woken: true },
            )
            &&& crate::join_handle::join_result(complete) == Poll::Ready(result)
            &&& decide(Stage::Handle, Happened::HandlePolled(true), around).1 is Return
        }),
{
}

/// A whole run of driving a future, the root, to completion. The waker that the
/// handle of the root is polled with sets a flag, and is written `()`.
#[verifier::ext_equal]
pub struct Run<F, T> {
    /// The executor.
    pub executor: ExecutorView<F>,
    /// What the root leaves behind for its handle.
    pub state: TaskState<T, ()>,
    /// The flag: the handle was woken since it was last polled.
    pub woken: bool,
    /// What the future that is driven has reported, once it was ready.
    pub stored: Option<T>,
    /// What was asked for last.
    pub stage: Stage,
    /// What the caller was told to do last.
    pub action: Action,
    /// What the handle has given.
    pub given: Option<T>,
}

/// Something that happens in a run.
pub enum RunEvent<F, T> {
    /// A tick of the executor, with the records of its polls, and what the future
    /// that is driven reports if the root is polled in its course.
    Tick(Seq<PollRecord<F>>, Poll<T>),
    /// The waker of a task is used.
    Wake(usize),
    /// What was asked for is done, and what comes next is decided.
    Decide(Happened),
}

/// A tick polls the root, which is the task `root`.
pub open spec fn polls_root<F, T>(root: usize, run: Run<F, T>) -> bool {
    run.executor.ready.contains(root) && run.executor.tasks.contains_key(root)
}

/// A run at its start: the root was spawned, its handle is to be polled once, and
/// the ready tasks are run first.
pub open spec fn fresh_run<F, T>(executor: ExecutorView<F>) -> Run<F, T> {
    Run {
        executor,
        state: TaskState { result: None, waker: None },
        woken: true,
        stored: None,
        stage: Stage::Run,
        action: Action::Tick,
        given: None,
    }
}

/// What a decision sees of a run.
pub open spec fn run_surroundings<F, T>(run: Run<F, T>) -> Surroundings {
    Surroundings {
        woken: run.woken,
        no_tasks: run.executor.tasks.len() == 0,
        none_ready: run.executor.ready.len() == 0,
    }
}

/// The run after the handle was polled, if that was asked for.
pub open spec fn after_asked<F, T>(run: Run<F, T>) -> Run<F, T> {
    match run.action {
        Action::PollHandle { reset_woken } => Run {
            woken: run.woken && !reset_woken,
            state: crate::join_handle::after_join(run.state, ()),
            given: match crate::join_handle::join_result(run.state) {
                Poll::Ready(result) => Some(result),
                Poll::Pending => run.given,
            },
            ..run
        },
        _ => run,
    }
}

/// The event can happen. The records of a tick can be those of its polls, and what
/// the root reported there is what the wrapping of its future reports. What has
/// happened answers what was asked for, and a poll of the handle gives what was
/// stored.
pub open spec fn run_possible<F: TaskFuture, T>(
    root: usize,
    run: Run<F, T>,
    event: RunEvent<F, T>,
) -> bool {
    match event {
        RunEvent::Tick(records, polled) => {
            let start = crate::executor::drained(run.executor);
            &&& crate::executor::all_recorded(start, run.executor.ready, records)
            &&& polls_root(root, run) ==> (crate::executor::reported_ready(
                start,
                run.executor.ready,
                records,
            ).contains(root) <==> crate::task::wrapped_report(run.state, polled).0 is Ready)
        },
        RunEvent::Wake(_) => true,
        RunEvent::Decide(happened) => {
            &&& answers(run.stage, happened)
            &&& happened matches Happened::HandlePolled(ready) ==> ready == (
            crate::join_handle::join_result(run.state) is Ready)
        },
    }
}

/// The run after an event.
pub open spec fn after_run_event<F, T>(
    root: usize,
    run: Run<F, T>,
    event: RunEvent<F, T>,
) -> Run<F, T> {
    match event {
        RunEvent::Tick(records, polled) => {
            let executor = crate::executor::after_records(
                crate::executor::drained(run.executor),
                run.executor.ready,
                records,
            );
            if polls_root(root, run) {
                Run {
                    executor,
                    state: crate::task::after_wrapped(run.state, polled),
                    woken: run.woken || crate::task::wrapped_report(run.state, polled).1 is Some,
                    stored: match polled {
                        Poll::Ready(result) => Some(result),
                        Poll::Pending => run.stored,
                    },
                    ..run
                }
            } else {
                Run { executor, ..run }
            }
        },
        RunEvent::Wake(id) => Run {
            executor: ExecutorView {
                ready: crate::executor::enqueue(run.executor.ready, id),
                ..run.executor
            },
            ..run
        },
        RunEvent::Decide(happened) => {
            let done = after_asked(run);
            let (stage, action) = decide(run.stage, happened, run_surroundings(done));
            Run { stage, action, ..done }
        },
    }
}

/// The run after a history of events.
pub open spec fn after_run<F, T>(
    root: usize,
    executor: ExecutorView<F>,
    events: Seq<RunEvent<F, T>>,
) -> Run<F, T>
    decreases events.len(),
{
    if events.len() == 0 {
        fresh_run(executor)
    } else {
        after_run_event(root, after_run(root, executor, events.drop_last()), events.last())
    }
}

/// Each event of the history could happen when it did.
pub open spec fn all_run_possible<F: TaskFuture, T>(
    root: usize,
    executor: ExecutorView<F>,
    events: Seq<RunEvent<F, T>>,
) -> bool
    decreases events.len(),
{
    events.len() > 0 ==> all_run_possible(root, executor, events.drop_last()) && run_possible(
        root,
        after_run(root, executor, events.drop_last()),
        events.last(),
    )
}

/// What holds of a run at all times.
spec fn run_consistent<F, T>(root: usize, run: Run<F, T>) -> bool {
    &&& run.executor.tasks.dom().finite()
    &&& run.stored is None <==> run.executor.tasks.contains_key(root)
    &&& run.given is None ==> run.state.result == run.stored
    &&& run.given is Some ==> run.given == run.stored && run.stage is Finished
    &&& run.stage is LastHandle ==> run.stored is Some
    &&& run.stage is Finished <==> run.action is Return || run.action is Fail
    &&& run.stage is Finished ==> run.action is Return && run.given is Some
    &&& run.action is PollHandle <==> run.stage is Handle || run.stage is EmptyHandle || run.stage
        is LastHandle
    &&& run.given is None ==> run.woken || (run.stored is None && run.state.waker is Some)
}

/// A run is consistent after every history of events.
proof fn lemma_run_consistent<F: TaskFuture, T>(
    root: usize,
    executor: ExecutorView<F>,
    events: Seq<RunEvent<F, T>>,
)
    requires
        executor.tasks.dom().finite(),
        executor.tasks.contains_key(root),
        all_run_possible(root, executor, events),
    ensures
        run_consistent(root, after_run(root, executor, events)),
    decreases events.len(),
{
    if events.len() > 0 {
        lemma_run_consistent(root, executor, events.drop_last());
        let before = after_run(root, executor, events.drop_last());
        match events.last() {
            RunEvent::Tick(records, _) => {
                let start = crate::executor::drained(before.executor);
                crate::executor::lemma_records_take_out(start, before.executor.ready, records);
            },
            RunEvent::Wake(_) => {},
            RunEvent::Decide(_) => {
                let tasks = before.executor.tasks.dom();
                if before.stored is None {
                    assert(tasks.contains(root));
                    assert(tasks.remove(root).len() == tasks.len() - 1);
                }
            },
        }
    }
}

/// A future that is driven to completion gives its result, whatever else happens:
/// driving it never fails, it ends only after the future has reported its result,
/// and what is returned is that result. From the moment the result was stored, the
/// flag is set until the handle has given it.
pub proof fn law_run_returns_the_result<F: TaskFuture, T>(
    root: usize,
    executor: ExecutorView<F>,
    events: Seq<RunEvent<F, T>>,
)
    requires
        executor.tasks.dom().finite(),
        executor.tasks.contains_key(root),
        all_run_possible(root, executor, events),
    ensures
        !(after_run(root, executor, events).action is Fail),
        after_run(root, executor, events).stage is Finished ==> {
            &&& after_run(root, executor, events).action is Return
            &&& after_run(root, executor, events).stored is Some
            &&& after_run(root, executor, events).given == after_run(root, executor, events).stored
        },
        after_run(root, executor, events).stored is Some && after_run(root, executor, events).given is None
            ==> after_run(root, executor, events).woken,
{
    lemma_run_consistent(root, executor, events);
}

/// Whenever timers were fired and a task is ready, the ready tasks are run next.
pub proof fn law_ready_tasks_are_run_after_timers(
    stage: Stage,
    next: Option<u128>,
    pending: bool,
    around: Surroundings,
)
    requires
        answers(stage, Happened::TimersProcessed(next, pending)),
        !around.none_ready,
    ensures
        decide(stage, Happened::TimersProcessed(next, pending), around).1 == Action::Tick,
{
}

/// Ready tasks are run soon, wherever driving the future stands: after at most four
/// answers a tick is asked for, or the value is returned before that. Each answer
/// can come with other surroundings, as long as a task is ready. The one exception
/// is the last poll of the handle, after which driving the future ends.
pub proof fn law_ready_tasks_are_run_soon(
    stage: Stage,
    first: (Happened, Surroundings),
    second: (Happened, Surroundings),
    third: (Happened, Surroundings),
    fourth: (Happened, Surroundings),
)
    requires
        !(stage is LastHandle),
        answers(stage, first.0),
        !first.1.none_ready,
        !second.1.none_ready,
        !third.1.none_ready,
        !fourth.1.none_ready,
    ensures
        ({
            let one = decide(stage, first.0, first.1);
            let two = decide(one.0, second.0, second.1);
            let three = decide(two.0, third.0, third.1);
            let four = decide(three.0, fourth.0, fourth.1);
            ||| one.1 is Tick || one.1 is Return
            ||| answers(one.0, second.0) ==> {
                ||| two.1 is Tick || two.1 is Return
                ||| answers(two.0, third.0) ==> {
                    ||| three.1 is Tick || three.1 is Return
                    ||| answers(three.0, fourth.0) ==> four.1 is Tick || four.1 is Return
                }
            }
        }),
{
}

/// Driving a future never goes round in circles without running tasks: after at most
/// four answers a tick or a wait is asked for, or it ends, or the handle is polled for
/// the last time.
pub proof fn law_runs_waits_or_ends_soon(
    stage: Stage,
    first: (Happened, Surroundings),
    second: (Happened, Surroundings),
    third: (Happened, Surroundings),
    fourth: (Happened, Surroundings),
)
    requires
        answers(stage, first.0),
    ensures
        ({
            let one = decide(stage, first.0, first.1);
            let two = decide(one.0, second.0, second.1);
            let three = decide(two.0, third.0, third.1);
            let four = decide(three.0, fourth.0, fourth.1);
            ||| one.1 is Tick || one.1 is Wait || one.0 is Finished
            ||| answers(one.0, second.0) ==> {
                ||| two.1 is Tick || two.1 is Wait || two.0 is Finished
                ||| answers(two.0, third.0) ==> {
                    ||| three.1 is Tick || three.1 is Wait || three.0 is Finished
                    ||| answers(three.0, fourth.0) ==> four.1 is Tick || four.1 is Wait || four.0 is Finished
                        || four.0 is LastHandle
                }
            }
        }),
{
}

/// Tasks are run for as long as any is polled: after a tick that polled one comes
/// another tick.
pub proof fn law_ticks_while_tasks_are_polled(around: Surroundings)
    ensures
        decide(Stage::Run, Happened::Ticked(true), around).1 == Action::Tick,
        !(decide(Stage::Run, Happened::Ticked(false), around).1 is Tick),
{
}

/// A wait comes only right after timers were fired, when no task is ready and there
/// is something to wait for, and it always comes then. With a timer pending it lasts
/// until the next one fires, or for one millisecond where that is not known; with
/// tasks alive alone it lasts for five milliseconds.
pub proof fn law_waits_for_timers_or_tasks(
    stage: Stage,
    happened: Happened,
    around: Surroundings,
)
    requires
        answers(stage, happened),
    ensures
        decide(stage, happened, around).1 is Wait <==> {
            &&& stage is Timers
            &&& around.none_ready
            &&& happened->TimersProcessed_1 || !around.no_tasks
        },
        decide(stage, happened, around).1 matches Action::Wait(nanos) ==> {
            &&& happened matches Happened::TimersProcessed(Some(left), true) ==> nanos == left
            &&& happened matches Happened::TimersProcessed(None, true) ==> nanos == 1_000_000
            &&& happened matches Happened::TimersProcessed(_, false) ==> nanos == 5_000_000
        },
{
}

/// After a wait the timers that came due meanwhile are fired, and then tasks are run.
pub proof fn law_timers_fire_after_a_wait(
    around: Surroundings,
    next: Option<u128>,
    pending: bool,
    later: Surroundings,
)
    ensures
        ({
            let (stage, action) = decide(Stage::Wait, Happened::Waited, around);
            &&& action is ProcessTimers
            &&& decide(stage, Happened::TimersProcessed(next, pending), later).1 is Tick
        }),
{
}

/// The handle is polled when it was woken, or when no task is left, and not else;
/// the note that it was woken is reset exactly where it was set. So a pending handle
/// with tasks left is not polled again before it is woken.
pub proof fn law_when_the_handle_is_polled(
    stage: Stage,
    happened: Happened,
    around: Surroundings,
)
    requires
        answers(stage, happened),
    ensures
        decide(stage, happened, around).1 is PollHandle ==> around.woken || around.no_tasks,
        decide(stage, happened, around).1 matches Action::PollHandle { reset_woken } ==> (
        reset_woken ==> around.woken),
        happened == Happened::Ticked(false) && (around.woken || around.no_tasks) ==> decide(
            stage,
            happened,
            around,
        ).1 is PollHandle,
        stage is Handle && happened == Happened::HandlePolled(false) && around.no_tasks ==> decide(
            stage,
            happened,
            around,
        ).1 is PollHandle,
{
}

/// Timers are fired before anything is waited for: a pending handle, or one that was
/// not woken, is followed by firing the timers, where tasks are left.
pub proof fn law_timers_fire_before_a_wait(
    stage: Stage,
    happened: Happened,
    around: Surroundings,
)
    requires
        answers(stage, happened),
        !around.no_tasks,
    ensures
        happened == Happened::Ticked(false) && !around.woken ==> decide(
            stage,
            happened,
            around,
        ).1 is ProcessTimers,
        happened == Happened::HandlePolled(false) && !(stage is LastHandle) ==> decide(
            stage,
            happened,
            around,
        ).1 is ProcessTimers,
{
}

} // verus!
