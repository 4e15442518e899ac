//! What holds of the worker threads, however their steps are interleaved.
//!
//! The threads are modelled as a [`System`]: what they share, where each worker
//! stands, and which wakers are being used. Events change it one at a time, in
//! any order that the steps allow.

use vstd::prelude::*;

use crate::multi_thread::executor::{
    Notify, PollOutcome, SharedView, WakeOp, WakeState, WorkerAction, WorkerState,
};
use crate::multi_thread::task::{Task, IDLE, NOTIFIED, RUNNING, SCHEDULED};

verus! {

/// The worker threads and all that they share.
#[verifier::ext_equal]
pub struct System<F, W> {
    /// What the threads share.
    pub shared: SharedView<F, W>,
    /// Where each worker stands.
    pub workers: Seq<WorkerState<F>>,
    /// The uses of wakers, those that are done included.
    pub wakes: Seq<WakeOp>,
    /// Since the last I/O driver was elected, somebody was told to interrupt its
    /// wait.
    pub interrupted: bool,
    /// The deadlines of the timers that no I/O driver has seen yet.
    pub inbox: Set<u128>,
    /// The deadlines of the timers that an I/O driver has seen and not fired.
    pub heap: Set<u128>,
    /// When the last I/O driver that was elected has fired timers before its wait,
    /// if it has.
    pub looked: Option<u128>,
}

/// Something that happens in the system.
pub enum SystemEvent<F, W> {
    /// A worker takes a step.
    Step(int),
    /// A worker has polled a task.
    Polled(int, F, PollOutcome),
    /// The I/O driver, which has fired timers, knows how long to wait.
    TimersProcessed(int, Option<u128>, bool),
    /// Somebody starts to use the waker of a task.
    Wake(usize),
    /// A use of a waker takes a step; its exchange may fail for no reason.
    WakeStep(int, bool),
    /// A task is spawned.
    Spawn(Task<F, W>),
    /// The runtime is shut down.
    ShutDown,
    /// A timer with a deadline is registered, and whoever does so interrupts the
    /// wait of the I/O driver, if there is one.
    RegisterTimer(u128),
    /// The I/O driver fires the timers that are due at a time, before its wait.
    ProcessTimers(int, u128),
    /// The I/O driver fires the timers that are due at a time, after its wait.
    FireTimers(int, u128),
}

/// The system as it starts, with `count` workers.
pub open spec fn initial<F, W>(count: nat) -> System<F, W> {
    System {
        shared: SharedView {
            tasks: Map::empty(),
            ready: Seq::empty(),
            active_count: 0,
            shutdown: false,
            driver_token: false,
        },
        workers: Seq::new(count, |i: int| WorkerState::Start),
        wakes: Seq::empty(),
        interrupted: false,
        inbox: Set::empty(),
        heap: Set::empty(),
        looked: None,
    }
}

/// The deadlines of the timers that are not due at `now`.
pub open spec fn not_due(inbox: Set<u128>, heap: Set<u128>, now: u128) -> Set<u128> {
    heap.union(inbox).filter(|deadline: u128| deadline > now)
}

/// The time from `now` until the first deadline, if there is one.
pub open spec fn is_next_timeout(heap: Set<u128>, now: u128, next: Option<u128>) -> bool {
    match next {
        Some(left) => {
            &&& exists|deadline: u128| #[trigger] heap.contains(deadline) && deadline == now + left
            &&& forall|deadline: u128| #[trigger] heap.contains(deadline) ==> deadline >= now + left
        },
        None => forall|deadline: u128| !(#[trigger] heap.contains(deadline)),
    }
}

/// The number of workers that are about to count one task less.
pub open spec fn counting_down<F>(workers: Seq<WorkerState<F>>) -> nat
    decreases workers.len(),
{
    if workers.len() == 0 {
        0
    } else {
        counting_down(workers.drop_last()) + if workers.last() is CountDown {
            1nat
        } else {
            0nat
        }
    }
}

/// The event can happen. A task that is spawned has an id of its own and starts
/// as scheduled, and there are not more tasks than can be counted.
pub open spec fn possible<F, W>(system: System<F, W>, event: SystemEvent<F, W>) -> bool {
    match event {
        SystemEvent::Step(i) => 0 <= i < system.workers.len(),
        SystemEvent::Polled(i, _, _) => 0 <= i < system.workers.len()
            && system.workers[i] is Polling,
        SystemEvent::TimersProcessed(i, next, _) => {
            &&& 0 <= i < system.workers.len()
            &&& system.workers[i] is AwaitTimers
            &&& system.looked matches Some(now) && is_next_timeout(system.heap, now, next)
        },
        SystemEvent::Wake(_) => true,
        SystemEvent::WakeStep(k, _) => 0 <= k < system.wakes.len(),
        SystemEvent::Spawn(task) => {
            &&& system.shared.tasks.len() + counting_down(system.workers) < usize::MAX
            &&& !system.shared.tasks.contains_key(task.id)
            &&& task.state == SCHEDULED
            &&& task.future is Some
        },
        SystemEvent::ShutDown => true,
        SystemEvent::RegisterTimer(_) => true,
        SystemEvent::ProcessTimers(i, _) => 0 <= i < system.workers.len()
            && system.workers[i] is AwaitTimers,
        SystemEvent::FireTimers(i, _) => 0 <= i < system.workers.len()
            && system.workers[i] is Resign,
    }
}

/// The next step of a worker makes it the I/O driver.
pub open spec fn elects<F, W>(system: System<F, W>, i: int) -> bool {
    &&& system.workers[i] is Start
    &&& !system.shared.shutdown
    &&& system.shared.ready.len() == 0
    &&& !system.shared.driver_token
}

/// The system after an event.
pub open spec fn after<F, W>(system: System<F, W>, event: SystemEvent<F, W>) -> System<F, W> {
    match event {
        SystemEvent::Step(i) => {
            let step = crate::multi_thread::executor::worker_step(
                system.shared,
                system.workers[i],
            );
            System {
                shared: step.shared,
                workers: system.workers.update(i, step.state),
                interrupted: match step.action {
                    WorkerAction::Notify(notify) => system.interrupted || notify.wake_reactor,
                    _ => system.interrupted && !elects(system, i),
                },
                looked: if elects(system, i) {
                    None
                } else {
                    system.looked
                },
                ..system
            }
        },
        SystemEvent::Polled(i, future, outcome) => System {
            workers: system.workers.update(
                i,
                crate::multi_thread::executor::after_polled(
                    system.workers[i]->Polling_0,
                    future,
                    outcome,
                ),
            ),
            ..system
        },
        SystemEvent::TimersProcessed(i, next, has_pending) => System {
            workers: system.workers.update(
                i,
                WorkerState::DriverWait(
                    crate::multi_thread::executor::drive_timeout(next, has_pending),
                ),
            ),
            ..system
        },
        SystemEvent::Wake(id) => System {
            wakes: system.wakes.push(WakeOp { task_id: id, state: WakeState::Load }),
            ..system
        },
        SystemEvent::WakeStep(k, spurious) => {
            let op = system.wakes[k];
            let step = crate::multi_thread::executor::wake_step(
                system.shared,
                op.task_id,
                op.state,
                spurious,
            );
            System {
                shared: step.shared,
                wakes: system.wakes.update(k, WakeOp { state: step.state, ..op }),
                interrupted: match step.notify {
                    Some(notify) => system.interrupted || notify.wake_reactor,
                    None => system.interrupted,
                },
                ..system
            }
        },
        SystemEvent::Spawn(task) => System {
            shared: crate::multi_thread::executor::after_spawn(system.shared, task),
            interrupted: system.interrupted || system.shared.driver_token,
            ..system
        },
        SystemEvent::ShutDown => System {
            shared: SharedView { shutdown: true, ..system.shared },
            interrupted: true,
            ..system
        },
        SystemEvent::RegisterTimer(deadline) => System {
            inbox: system.inbox.insert(deadline),
            interrupted: system.interrupted || system.shared.driver_token,
            ..system
        },
        SystemEvent::ProcessTimers(_, now) => System {
            inbox: Set::empty(),
            heap: not_due(system.inbox, system.heap, now),
            looked: Some(now),
            ..system
        },
        SystemEvent::FireTimers(_, now) => System {
            inbox: Set::empty(),
            heap: not_due(system.inbox, system.heap, now),
            ..system
        },
    }
}

/// The system after a history of events.
pub open spec fn after_all<F, W>(count: nat, events: Seq<SystemEvent<F, W>>) -> System<F, W>
    decreases events.len(),
{
    if events.len() == 0 {
        initial(count)
    } else {
        after(after_all(count, events.drop_last()), events.last())
    }
}

/// Each event of the history could happen when it did.
pub open spec fn all_possible<F, W>(count: nat, events: Seq<SystemEvent<F, W>>) -> bool
    decreases events.len(),
{
    events.len() > 0 ==> all_possible(count, events.drop_last()) && possible(
        after_all(count, events.drop_last()),
        events.last(),
    )
}

/// The worker is polling the task, or has polled it and not let go of it yet.
pub open spec fn holds<F>(worker: WorkerState<F>, id: usize) -> bool {
    match worker {
        WorkerState::Polling(held) => held == id,
        WorkerState::Release(held, _) => held == id,
        WorkerState::Reschedule(held, _) => held == id,
        WorkerState::Remove(held) => held == id,
        _ => false,
    }
}

/// The worker is about to put the task into the ready queue, or has taken it
/// out and is about to claim it.
pub open spec fn carries<F>(worker: WorkerState<F>, id: usize) -> bool {
    match worker {
        WorkerState::Lookup(carried) => carried == id,
        WorkerState::Claim(carried) => carried == id,
        WorkerState::Enqueue(carried) => carried == id,
        _ => false,
    }
}

/// The worker is the I/O driver.
pub open spec fn drives<F>(worker: WorkerState<F>) -> bool {
    worker is DriverTimers || worker is AwaitTimers || worker is DriverWait || worker is Waiting
        || worker is Resign
}

/// The use of the waker is about to put the task into the ready queue.
pub open spec fn enqueues(op: WakeOp, id: usize) -> bool {
    op.task_id == id && op.state is Enqueue
}

/// The task is on its way to a worker: it is in the ready queue, or some thread
/// is about to put it there, or some worker has taken it out to claim it.
pub open spec fn on_its_way<F, W>(system: System<F, W>, id: usize) -> bool {
    ||| system.shared.ready.contains(id)
    ||| exists|i: int| 0 <= i < system.workers.len() && #[trigger] carries(system.workers[i], id)
    ||| exists|k: int| 0 <= k < system.wakes.len() && #[trigger] enqueues(system.wakes[k], id)
}

/// The tasks are kept under their ids, and a worker has the future of a task
/// exactly while it is polled.
pub open spec fn tasks_wf<F, W>(system: System<F, W>) -> bool {
    forall|id: usize| #[trigger]
        system.shared.tasks.contains_key(id) ==> system.shared.tasks[id].wf()
            && system.shared.tasks[id].id == id
}

/// A task is held exactly while it is polled, by one worker only.
pub open spec fn polled_by_one<F, W>(system: System<F, W>) -> bool {
    &&& forall|i: int, id: usize|
        0 <= i < system.workers.len() && #[trigger] holds(system.workers[i], id)
            ==> system.shared.tasks.contains_key(id) && system.shared.tasks[id].is_polled()
    &&& forall|id: usize| #[trigger]
        system.shared.tasks.contains_key(id) && system.shared.tasks[id].is_polled() ==> exists|
            i: int,
        |
            0 <= i < system.workers.len() && #[trigger] holds(system.workers[i], id)
    &&& forall|i: int, j: int, id: usize|
        0 <= i < system.workers.len() && 0 <= j < system.workers.len() && #[trigger] holds(
            system.workers[i],
            id,
        ) && #[trigger] holds(system.workers[j], id) ==> i == j
}

/// A worker that is about to schedule a task again finds it notified.
pub open spec fn rescheduled_is_notified<F, W>(system: System<F, W>) -> bool {
    forall|i: int|
        0 <= i < system.workers.len() && (#[trigger] system.workers[i]) is Reschedule
            ==> crate::multi_thread::executor::in_state(
            system.shared,
            system.workers[i]->Reschedule_0,
            NOTIFIED,
        )
}

/// Every scheduled task is on its way to a worker.
pub open spec fn scheduled_is_on_its_way<F, W>(system: System<F, W>) -> bool {
    forall|id: usize| #[trigger]
        system.shared.tasks.contains_key(id) && system.shared.tasks[id].state == SCHEDULED
            ==> on_its_way(system, id)
}

/// The token says whether there is an I/O driver, and there is one at most.
pub open spec fn one_driver<F, W>(system: System<F, W>) -> bool {
    &&& forall|i: int|
        0 <= i < system.workers.len() && drives(#[trigger] system.workers[i])
            ==> system.shared.driver_token
    &&& system.shared.driver_token ==> exists|i: int|
        0 <= i < system.workers.len() && drives(#[trigger] system.workers[i])
    &&& forall|i: int, j: int|
        0 <= i < system.workers.len() && 0 <= j < system.workers.len() && drives(
            #[trigger] system.workers[i],
        ) && drives(#[trigger] system.workers[j]) ==> i == j
}

/// The tasks are counted: those that are live, and those that have left and are
/// about to be counted down.
pub open spec fn tasks_are_counted<F, W>(system: System<F, W>) -> bool {
    &&& system.shared.tasks.dom().finite()
    &&& system.shared.active_count == system.shared.tasks.len() + counting_down(system.workers)
}

/// When tasks are ready or the runtime is shut down, the wait of the I/O driver, if
/// there is one, was interrupted.
pub open spec fn driver_is_interrupted<F, W>(system: System<F, W>) -> bool {
    system.shared.driver_token && (system.shared.ready.len() > 0 || system.shared.shutdown)
        ==> system.interrupted
}

/// A wait that is begun at `now` ends before any of the deadlines has passed.
pub open spec fn ends_in_time(heap: Set<u128>, now: u128, timeout: Option<u128>) -> bool {
    forall|deadline: u128| #[trigger]
        heap.contains(deadline) ==> (timeout matches Some(left) && now + left <= deadline)
}

/// The wait of an I/O driver is for no longer than the timers allow that it has
/// seen, and it is interrupted for those that it has not.
pub open spec fn driver_minds_timers<F, W>(system: System<F, W>) -> bool {
    &&& forall|i: int|
        0 <= i < system.workers.len() && (#[trigger] system.workers[i]) is DriverTimers
            ==> system.looked is None
    &&& forall|i: int|
        0 <= i < system.workers.len() && ((#[trigger] system.workers[i]) is DriverWait
            || system.workers[i] is Waiting || system.workers[i] is AwaitTimers
            && system.looked is Some) ==> {
            &&& system.looked is Some
            &&& system.inbox == Set::<u128>::empty() || system.interrupted
            &&& forall|deadline: u128| #[trigger]
                system.heap.contains(deadline) ==> deadline > system.looked->0
        }
    &&& forall|i: int|
        0 <= i < system.workers.len() ==> (match #[trigger] system.workers[i] {
            WorkerState::DriverWait(timeout) => ends_in_time(
                system.heap,
                system.looked->0,
                timeout,
            ),
            WorkerState::Waiting(timeout) => ends_in_time(system.heap, system.looked->0, timeout),
            _ => true,
        })
}

/// What holds of the system at all times.
pub open spec fn consistent<F, W>(system: System<F, W>) -> bool {
    &&& tasks_wf(system)
    &&& polled_by_one(system)
    &&& rescheduled_is_notified(system)
    &&& scheduled_is_on_its_way(system)
    &&& one_driver(system)
    &&& tasks_are_counted(system)
    &&& driver_is_interrupted(system)
    &&& driver_minds_timers(system)
    &&& system.shared.ready.no_duplicates()
}

/// The invariant holds at the start.
proof fn lemma_initial<F, W>(count: nat)
    ensures
        consistent(initial::<F, W>(count)),
{
    lemma_none_counting_down(initial::<F, W>(count).workers);
}

/// Without a worker that is about to count there are none.
proof fn lemma_none_counting_down<F>(workers: Seq<WorkerState<F>>)
    requires
        forall|i: int| 0 <= i < workers.len() ==> !((#[trigger] workers[i]) is CountDown),
    ensures
        counting_down(workers) == 0,
    decreases workers.len(),
{
    if workers.len() > 0 {
        assert forall|i: int| 0 <= i < workers.drop_last().len() implies !((
        #[trigger] workers.drop_last()[i]) is CountDown) by {
            assert(workers.drop_last()[i] == workers[i]);
        }
        lemma_none_counting_down(workers.drop_last());
    }
}

/// How a move of one worker changes the number of those about to count.
proof fn lemma_counting_down<F>(workers: Seq<WorkerState<F>>, i: int, state: WorkerState<F>)
    requires
        0 <= i < workers.len(),
    ensures
        counting_down(workers.update(i, state)) == counting_down(workers) - (if workers[i] is CountDown {
            1int
        } else {
            0int
        }) + (if state is CountDown {
            1int
        } else {
            0int
        }),
    decreases workers.len(),
{
    if i == workers.len() - 1 {
        assert(workers.update(i, state).drop_last() =~= workers.drop_last());
    } else {
        lemma_counting_down(workers.drop_last(), i, state);
        assert(workers.update(i, state).drop_last() =~= workers.drop_last().update(i, state));
    }
}

/// A task on its way stays so if the ready queue, the workers and the uses of
/// wakers that have it still do, or it is on its way otherwise.
proof fn lemma_stays_on_its_way<F, W>(system: System<F, W>, next: System<F, W>, id: usize)
    requires
        on_its_way(system, id),
        system.shared.ready.contains(id) ==> on_its_way(next, id),
        next.workers.len() == system.workers.len(),
        next.wakes.len() >= system.wakes.len(),
        forall|j: int|
            0 <= j < system.workers.len() && #[trigger] carries(system.workers[j], id) ==> carries(
                next.workers[j],
                id,
            ) || on_its_way(next, id),
        forall|k: int|
            0 <= k < system.wakes.len() && #[trigger] enqueues(system.wakes[k], id) ==> enqueues(
                next.wakes[k],
                id,
            ) || on_its_way(next, id),
    ensures
        on_its_way(next, id),
{
    if exists|j: int| 0 <= j < system.workers.len() && #[trigger] carries(system.workers[j], id) {
        let j = choose|j: int|
            0 <= j < system.workers.len() && #[trigger] carries(system.workers[j], id);
        if !on_its_way(next, id) {
            assert(carries(next.workers[j], id));
        }
    } else if exists|k: int|
        0 <= k < system.wakes.len() && #[trigger] enqueues(system.wakes[k], id) {
        let k = choose|k: int|
            0 <= k < system.wakes.len() && #[trigger] enqueues(system.wakes[k], id);
        if !on_its_way(next, id) {
            assert(enqueues(next.wakes[k], id));
        }
    }
}

/// A task that is polled is still held by somebody if whoever held it still does.
proof fn lemma_still_held<F, W>(system: System<F, W>, next: System<F, W>, id: usize)
    requires
        polled_by_one(system),
        system.shared.tasks.contains_key(id),
        system.shared.tasks[id].is_polled(),
        next.workers.len() == system.workers.len(),
        forall|j: int|
            0 <= j < system.workers.len() && #[trigger] holds(system.workers[j], id) ==> holds(
                next.workers[j],
                id,
            ),
    ensures
        exists|j: int| 0 <= j < next.workers.len() && #[trigger] holds(next.workers[j], id),
{
    let j = choose|j: int|
        0 <= j < system.workers.len() && #[trigger] holds(system.workers[j], id);
    assert(holds(next.workers[j], id));
}

/// What is in the ready queue is still there after a task was put in.
proof fn lemma_enqueue_keeps(ready: Seq<usize>, added: usize)
    ensures
        crate::executor::enqueue(ready, added).contains(added),
        forall|id: usize| #[trigger]
            ready.contains(id) ==> crate::executor::enqueue(ready, added).contains(id),
{
    crate::executor::lemma_push_contains(ready, added);
}

/// After a step of a worker, every task is still polled by one worker at most.
proof fn lemma_step_polled<F, W>(system: System<F, W>, i: int)
    requires
        consistent(system),
        0 <= i < system.workers.len(),
    ensures
        polled_by_one(after(system, SystemEvent::Step(i))),
{
    let next = after(system, SystemEvent::<F, W>::Step(i));
    assert forall|j: int, id: usize|
        0 <= j < next.workers.len() && #[trigger] holds(next.workers[j], id) implies next.shared.tasks.contains_key(
        id,
    ) && next.shared.tasks[id].is_polled() by {
        if j != i {
            assert(holds(system.workers[j], id));
            assert(!holds(system.workers[i], id));
        } else {
            assert(holds(system.workers[i], id) || system.workers[i] == WorkerState::<F>::Claim(id));
        }
    }
    assert forall|id: usize| #[trigger]
        next.shared.tasks.contains_key(id) && next.shared.tasks[id].is_polled() implies exists|
        j: int,
    |
        0 <= j < next.workers.len() && #[trigger] holds(next.workers[j], id) by {
        if system.shared.tasks[id].is_polled() {
            lemma_still_held(system, next, id);
        } else {
            assert(holds(next.workers[i], id));
        }
    }
    assert forall|j: int, k: int, id: usize|
        0 <= j < next.workers.len() && 0 <= k < next.workers.len() && #[trigger] holds(
            next.workers[j],
            id,
        ) && #[trigger] holds(next.workers[k], id) implies j == k by {
        if j != i {
            assert(holds(system.workers[j], id));
        }
        if k != i {
            assert(holds(system.workers[k], id));
        }
        assert(holds(system.workers[i], id) || !holds(next.workers[i], id) || system.workers[i]
            == WorkerState::<F>::Claim(id));
    }
}

/// After a step of a worker, the I/O driver still minds the timers.
proof fn lemma_step_timers<F, W>(system: System<F, W>, i: int)
    requires
        consistent(system),
        0 <= i < system.workers.len(),
    ensures
        driver_minds_timers(after(system, SystemEvent::Step(i))),
{
    let next = after(system, SystemEvent::<F, W>::Step(i));
    assert(forall|j: int|
        0 <= j < next.workers.len() && j != i ==> #[trigger] next.workers[j] == system.workers[j]);
    if elects(system, i) {
        assert(forall|j: int|
            0 <= j < system.workers.len() ==> !drives(#[trigger] system.workers[j]));
    }
}

/// A step of a worker keeps the invariant.
proof fn lemma_step<F, W>(system: System<F, W>, i: int)
    requires
        consistent(system),
        0 <= i < system.workers.len(),
    ensures
        consistent(after(system, SystemEvent::Step(i))),
{
    let next = after(system, SystemEvent::<F, W>::Step(i));
    lemma_step_polled(system, i);
    lemma_step_counted(system, i);
    lemma_step_timers(system, i);
    assert forall|j: int|
        0 <= j < next.workers.len() && (#[trigger] next.workers[j]) is Reschedule implies crate::multi_thread::executor::in_state(
        next.shared,
        next.workers[j]->Reschedule_0,
        NOTIFIED,
    ) by {
        let id = next.workers[j]->Reschedule_0;
        assert(holds(next.workers[j], id));
        if j != i {
            assert(holds(system.workers[j], id));
            assert(system.workers[j] is Reschedule);
            assert(!holds(system.workers[i], id));
        } else {
            assert(system.workers[i] is Release);
            assert(holds(system.workers[i], id));
        }
    }
    assert forall|id: usize| #[trigger]
        next.shared.tasks.contains_key(id) && next.shared.tasks[id].state
            == SCHEDULED implies on_its_way(next, id) by {
        assert(system.shared.tasks.contains_key(id));
        if system.shared.tasks[id].state == SCHEDULED {
            if system.shared.ready.contains(id) {
                lemma_ready_moves(system, i, id);
            }
            if carries(system.workers[i], id) {
                lemma_carried_moves(system, i, id);
            }
            lemma_stays_on_its_way(system, next, id);
        } else {
            assert(carries(next.workers[i], id));
        }
    }
    assert(one_driver(next)) by {
        if next.shared.driver_token {
            if system.shared.driver_token {
                let j = choose|j: int|
                    0 <= j < system.workers.len() && drives(#[trigger] system.workers[j]);
                assert(drives(next.workers[j]));
            } else {
                assert(drives(next.workers[i]));
            }
        }
        assert(forall|j: int|
            0 <= j < next.workers.len() && j != i ==> #[trigger] next.workers[j]
                == system.workers[j]);
        assert(drives(next.workers[i]) ==> drives(system.workers[i])
            || !system.shared.driver_token);
        assert(drives(system.workers[i]) && !drives(next.workers[i]) ==> !next.shared.driver_token);
    }
}

/// A scheduled task in the ready queue is still on its way after a step of a
/// worker.
proof fn lemma_ready_moves<F, W>(system: System<F, W>, i: int, id: usize)
    requires
        0 <= i < system.workers.len(),
        system.shared.ready.contains(id),
    ensures
        on_its_way(after(system, SystemEvent::Step(i)), id),
{
    let next = after(system, SystemEvent::<F, W>::Step(i));
    let ready = system.shared.ready;
    let at = choose|at: int| 0 <= at < ready.len() && ready[at] == id;
    match system.workers[i] {
        WorkerState::Start if !system.shared.shutdown => {
            if at == 0 {
                assert(carries(next.workers[i], id));
            } else {
                assert(next.shared.ready[at - 1] == id);
            }
        },
        WorkerState::Enqueue(other) => {
            lemma_enqueue_keeps(ready, other);
        },
        _ => {
            assert(next.shared.ready == ready);
        },
    }
}

/// A scheduled task that a worker carries is still on its way after a step of
/// that worker.
proof fn lemma_carried_moves<F, W>(system: System<F, W>, i: int, id: usize)
    requires
        consistent(system),
        0 <= i < system.workers.len(),
        carries(system.workers[i], id),
        system.shared.tasks.contains_key(id),
        after(system, SystemEvent::Step(i)).shared.tasks[id].state == SCHEDULED,
    ensures
        on_its_way(after(system, SystemEvent::Step(i)), id),
{
    let next = after(system, SystemEvent::<F, W>::Step(i));
    match system.workers[i] {
        WorkerState::Lookup(_) => {
            assert(carries(next.workers[i], id));
        },
        WorkerState::Enqueue(_) => {
            lemma_enqueue_keeps(system.shared.ready, id);
        },
        _ => {},
    }
}

/// After a step of a worker, the tasks are still counted and the ready queue
/// holds no task twice.
proof fn lemma_step_counted<F, W>(system: System<F, W>, i: int)
    requires
        consistent(system),
        0 <= i < system.workers.len(),
    ensures
        tasks_are_counted(after(system, SystemEvent::Step(i))),
        after(system, SystemEvent::Step(i)).shared.ready.no_duplicates(),
{
    let next = after(system, SystemEvent::<F, W>::Step(i));
    lemma_counting_down(system.workers, i, next.workers[i]);
    match system.workers[i] {
        WorkerState::Claim(id) | WorkerState::Release(id, _) | WorkerState::Reschedule(id, _) => {
            if system.shared.tasks.contains_key(id) {
                assert(next.shared.tasks.dom() =~= system.shared.tasks.dom());
            }
        },
        WorkerState::Remove(id) => {
            assert(holds(system.workers[i], id));
            assert(next.shared.tasks.dom() =~= system.shared.tasks.dom().remove(id));
        },
        WorkerState::CountDown => {
            assert(counting_down(system.workers) >= 1);
        },
        _ => {},
    }
}

/// A step in the use of a waker keeps the invariant.
proof fn lemma_wake_step<F, W>(system: System<F, W>, k: int, spurious: bool)
    requires
        consistent(system),
        0 <= k < system.wakes.len(),
    ensures
        consistent(after(system, SystemEvent::WakeStep(k, spurious))),
{
    let next = after(system, SystemEvent::<F, W>::WakeStep(k, spurious));
    let op = system.wakes[k];
    assert(next.workers == system.workers);
    assert(next.shared.tasks.dom() =~= system.shared.tasks.dom());
    assert forall|id: usize| #[trigger]
        next.shared.tasks.contains_key(id) && next.shared.tasks[id].state
            == SCHEDULED implies on_its_way(next, id) by {
        assert(system.shared.tasks.contains_key(id));
        if system.shared.tasks[id].state == SCHEDULED {
            lemma_enqueue_keeps(system.shared.ready, op.task_id);
            lemma_stays_on_its_way(system, next, id);
        } else {
            assert(enqueues(next.wakes[k], id));
        }
    }
    assert(polled_by_one(next)) by {
        assert forall|id: usize| #[trigger]
            next.shared.tasks.contains_key(id) && next.shared.tasks[id].is_polled() implies exists|
            j: int,
        |
            0 <= j < next.workers.len() && #[trigger] holds(next.workers[j], id) by {
            lemma_still_held(system, next, id);
        }
    }
}

/// Every event keeps the invariant.
proof fn lemma_event<F, W>(system: System<F, W>, event: SystemEvent<F, W>)
    requires
        consistent(system),
        possible(system, event),
    ensures
        consistent(after(system, event)),
{
    let next = after(system, event);
    match event {
        SystemEvent::Step(i) => {
            lemma_step(system, i);
        },
        SystemEvent::WakeStep(k, spurious) => {
            lemma_wake_step(system, k, spurious);
        },
        SystemEvent::Polled(i, future, outcome) => {
            lemma_counting_down(system.workers, i, next.workers[i]);
            assert(forall|j: int, id: usize|
                0 <= j < next.workers.len() ==> (#[trigger] holds(next.workers[j], id) <==> holds(
                    system.workers[j],
                    id,
                )));
            assert(forall|j: int, id: usize|
                0 <= j < next.workers.len() ==> (#[trigger] carries(next.workers[j], id)
                    <==> carries(system.workers[j], id)));
            lemma_others_unmoved(system, next, i);
        },
        SystemEvent::TimersProcessed(i, _, _) => {
            lemma_counting_down(system.workers, i, next.workers[i]);
            assert(forall|j: int, id: usize|
                0 <= j < next.workers.len() ==> (#[trigger] holds(next.workers[j], id) <==> holds(
                    system.workers[j],
                    id,
                )));
            assert(forall|j: int, id: usize|
                0 <= j < next.workers.len() ==> (#[trigger] carries(next.workers[j], id)
                    <==> carries(system.workers[j], id)));
            lemma_others_unmoved(system, next, i);
        },
        SystemEvent::Wake(_) => {
            assert forall|id: usize| on_its_way(system, id) implies #[trigger] on_its_way(
                next,
                id,
            ) by {
                lemma_stays_on_its_way(system, next, id);
            }
        },
        SystemEvent::Spawn(task) => {
            lemma_spawn(system, task);
        },
        SystemEvent::ShutDown | SystemEvent::RegisterTimer(_) => {
            lemma_nobody_moved(system, next);
        },
        SystemEvent::ProcessTimers(i, now) | SystemEvent::FireTimers(i, now) => {
            assert(drives(system.workers[i]));
            assert(forall|j: int|
                0 <= j < system.workers.len() && drives(#[trigger] system.workers[j]) ==> j == i);
            lemma_nobody_moved(system, next);
        },
    }
}

/// The invariant is kept where no worker and no waker moves and the tasks and the
/// ready queue are left alone.
proof fn lemma_nobody_moved<F, W>(system: System<F, W>, next: System<F, W>)
    requires
        consistent(system),
        next.workers == system.workers,
        next.wakes == system.wakes,
        next.shared == (SharedView { shutdown: next.shared.shutdown, ..system.shared }),
        driver_is_interrupted(next),
        driver_minds_timers(next),
    ensures
        consistent(next),
{
    assert forall|id: usize| on_its_way(system, id) implies #[trigger] on_its_way(next, id) by {
        lemma_stays_on_its_way(system, next, id);
    }
    assert forall|id: usize| #[trigger]
        next.shared.tasks.contains_key(id) && next.shared.tasks[id].is_polled() implies exists|
        j: int,
    |
        0 <= j < next.workers.len() && #[trigger] holds(next.workers[j], id) by {
        lemma_still_held(system, next, id);
    }
}

/// The invariant is kept where a worker moves on without touching anything
/// shared, still holding what it held and driving if it drove.
proof fn lemma_others_unmoved<F, W>(system: System<F, W>, next: System<F, W>, i: int)
    requires
        consistent(system),
        0 <= i < system.workers.len(),
        next == (System { workers: system.workers.update(i, next.workers[i]), ..system }),
        next.workers.len() == system.workers.len(),
        !(next.workers[i] is Reschedule),
        drives(next.workers[i]) == drives(system.workers[i]),
        driver_minds_timers(next),
        forall|j: int, id: usize|
            0 <= j < next.workers.len() ==> (#[trigger] holds(next.workers[j], id) <==> holds(
                system.workers[j],
                id,
            )),
        forall|j: int, id: usize|
            0 <= j < next.workers.len() ==> (#[trigger] carries(next.workers[j], id) <==> carries(
                system.workers[j],
                id,
            )),
        counting_down(next.workers) == counting_down(system.workers),
    ensures
        consistent(next),
{
    assert forall|id: usize| on_its_way(system, id) implies #[trigger] on_its_way(next, id) by {
        lemma_stays_on_its_way(system, next, id);
    }
    assert(polled_by_one(next)) by {
        assert forall|id: usize| #[trigger]
            next.shared.tasks.contains_key(id) && next.shared.tasks[id].is_polled() implies exists|
            j: int,
        |
            0 <= j < next.workers.len() && #[trigger] holds(next.workers[j], id) by {
            lemma_still_held(system, next, id);
        }
        assert forall|j: int, k: int, id: usize|
            0 <= j < next.workers.len() && 0 <= k < next.workers.len() && #[trigger] holds(
                next.workers[j],
                id,
            ) && #[trigger] holds(next.workers[k], id) implies j == k by {
            assert(holds(system.workers[j], id));
            assert(holds(system.workers[k], id));
        }
        assert forall|j: int, id: usize|
            0 <= j < next.workers.len() && #[trigger] holds(
                next.workers[j],
                id,
            ) implies next.shared.tasks.contains_key(id) && next.shared.tasks[id].is_polled() by {
            assert(holds(system.workers[j], id));
        }
    }
    assert(one_driver(next)) by {
        assert(forall|j: int|
            0 <= j < next.workers.len() ==> (drives(#[trigger] next.workers[j]) == drives(
                system.workers[j],
            )));
        if next.shared.driver_token {
            let j = choose|j: int|
                0 <= j < system.workers.len() && drives(#[trigger] system.workers[j]);
            assert(drives(next.workers[j]));
        }
    }
}

/// Spawning a task keeps the invariant.
proof fn lemma_spawn<F, W>(system: System<F, W>, task: Task<F, W>)
    requires
        consistent(system),
        possible(system, SystemEvent::Spawn(task)),
    ensures
        consistent(after(system, SystemEvent::Spawn(task))),
{
    let next = after(system, SystemEvent::Spawn(task));
    assert(next.shared.tasks.dom() =~= system.shared.tasks.dom().insert(task.id));
    assert forall|id: usize| #[trigger]
        next.shared.tasks.contains_key(id) && next.shared.tasks[id].state
            == SCHEDULED implies on_its_way(next, id) by {
        lemma_enqueue_keeps(system.shared.ready, task.id);
        if id != task.id {
            assert(system.shared.tasks.contains_key(id));
            lemma_stays_on_its_way(system, next, id);
        }
    }
    assert(polled_by_one(next)) by {
        assert forall|id: usize| #[trigger]
            next.shared.tasks.contains_key(id) && next.shared.tasks[id].is_polled() implies exists|
            j: int,
        |
            0 <= j < next.workers.len() && #[trigger] holds(next.workers[j], id) by {
            lemma_still_held(system, next, id);
        }
    }
}

/// However the steps of the threads are interleaved, the invariant holds.
pub proof fn law_always_consistent<F, W>(count: nat, events: Seq<SystemEvent<F, W>>)
    requires
        all_possible(count, events),
    ensures
        consistent(after_all(count, events)),
    decreases events.len(),
{
    if events.len() == 0 {
        lemma_initial::<F, W>(count);
    } else {
        law_always_consistent(count, events.drop_last());
        lemma_event(after_all(count, events.drop_last()), events.last());
    }
}

/// No two workers ever have the future of one task.
pub proof fn law_exclusive_access<F, W>(
    count: nat,
    events: Seq<SystemEvent<F, W>>,
    i: int,
    j: int,
    id: usize,
)
    requires
        all_possible(count, events),
        0 <= i < after_all(count, events).workers.len(),
        0 <= j < after_all(count, events).workers.len(),
        holds(after_all(count, events).workers[i], id),
        holds(after_all(count, events).workers[j], id),
    ensures
        i == j,
{
    law_always_consistent(count, events);
}

/// No wake-up is lost: a task that was woken is on its way to a worker, or it
/// is in the hands of one that will find it notified.
pub proof fn law_no_lost_wake_up<F, W>(
    count: nat,
    events: Seq<SystemEvent<F, W>>,
    id: usize,
)
    requires
        all_possible(count, events),
        after_all(count, events).shared.tasks.contains_key(id),
    ensures
        after_all(count, events).shared.tasks[id].state == SCHEDULED ==> on_its_way(
            after_all(count, events),
            id,
        ),
        after_all(count, events).shared.tasks[id].state == NOTIFIED ==> exists|i: int|
            0 <= i < after_all(count, events).workers.len() && #[trigger] holds(
                after_all(count, events).workers[i],
                id,
            ),
{
    law_always_consistent(count, events);
}

/// Using a waker takes effect: whenever it is done with the state of a live
/// task, the task is scheduled or notified.
pub proof fn law_wake_takes_effect<F, W>(
    shared: SharedView<F, W>,
    op: WakeOp,
    spurious: bool,
)
    requires
        shared.tasks.contains_key(op.task_id),
        shared.tasks[op.task_id].wf(),
        op.state is Load || op.state is Schedule || op.state is Notify,
    ensures
        ({
            let step = crate::multi_thread::executor::wake_step(
                shared,
                op.task_id,
                op.state,
                spurious,
            );
            step.state is Done || step.state is Enqueue ==> {
                ||| step.shared.tasks[op.task_id].state == SCHEDULED
                ||| step.shared.tasks[op.task_id].state == NOTIFIED
            }
        }),
{
}

/// The shared state after a worker has taken some steps.
pub open spec fn worker_steps<F, W>(
    shared: SharedView<F, W>,
    state: WorkerState<F>,
    count: nat,
) -> (SharedView<F, W>, WorkerState<F>)
    decreases count,
{
    if count == 0 {
        (shared, state)
    } else {
        let (shared, state) = worker_steps(shared, state, (count - 1) as nat);
        let step = crate::multi_thread::executor::worker_step(shared, state);
        (step.shared, step.state)
    }
}

/// A task that was woken while it was polled, and is pending, is scheduled
/// again, with its future back in place.
pub proof fn law_notified_is_scheduled_again<F, W>(
    shared: SharedView<F, W>,
    id: usize,
    future: F,
)
    requires
        crate::multi_thread::executor::in_state(shared, id, NOTIFIED),
    ensures
        ({
            let after = worker_steps(shared, WorkerState::Release(id, future), 3).0;
            &&& crate::multi_thread::executor::in_state(after, id, SCHEDULED)
            &&& after.tasks[id].future == Some(future)
            &&& after.ready.contains(id)
        }),
{
    reveal_with_fuel(worker_steps, 4);
    let after = worker_steps(shared, WorkerState::Release(id, future), 3).0;
    if !shared.ready.contains(id) {
        assert(after.ready[shared.ready.len() as int] == id);
    }
}

/// A task that was not woken while it was polled, and is pending, is idle, with
/// its future back in place.
pub proof fn law_pending_is_idle<F, W>(shared: SharedView<F, W>, id: usize, future: F)
    requires
        crate::multi_thread::executor::in_state(shared, id, RUNNING),
    ensures
        worker_steps(shared, WorkerState::Release(id, future), 1).0 == (SharedView {
            tasks: shared.tasks.insert(
                id,
                (Task { state: IDLE, future: Some(future), ..shared.tasks[id] }),
            ),
            ..shared
        }),
{
    reveal_with_fuel(worker_steps, 2);
}

/// A worker polls the task that has been ready for longest.
pub proof fn law_first_ready_is_polled<F, W>(shared: SharedView<F, W>)
    requires
        !shared.shutdown,
        shared.ready.len() > 0,
        crate::multi_thread::executor::in_state(shared, shared.ready[0], SCHEDULED),
        shared.tasks[shared.ready[0]].future is Some,
    ensures
        worker_steps(shared, WorkerState::Start, 3).1 == WorkerState::<F>::Polling(shared.ready[0]),
        crate::multi_thread::executor::worker_step(
            worker_steps(shared, WorkerState::Start, 2).0,
            worker_steps(shared, WorkerState::<F>::Start, 2).1,
        ).action == WorkerAction::Poll(
            shared.ready[0],
            shared.tasks[shared.ready[0]].future->0,
        ),
{
    reveal_with_fuel(worker_steps, 4);
}

/// A task that has completed or panicked is gone, and the use of its waker does
/// nothing.
pub proof fn law_completed_is_gone<F, W>(
    shared: SharedView<F, W>,
    id: usize,
    future: F,
    outcome: PollOutcome,
    spurious: bool,
)
    requires
        !(outcome is Pending),
    ensures
        ({
            let after = worker_steps(
                shared,
                crate::multi_thread::executor::after_polled(id, future, outcome),
                1,
            ).0;
            &&& after.tasks == shared.tasks.remove(id)
            &&& crate::multi_thread::executor::wake_step(after, id, WakeState::Load, spurious)
                == (crate::multi_thread::executor::WakeStep {
                shared: after,
                state: WakeState::Done,
                notify: None::<Notify>,
            })
        }),
{
    reveal_with_fuel(worker_steps, 2);
}

/// There is one I/O driver at most.
pub proof fn law_one_io_driver<F, W>(
    count: nat,
    events: Seq<SystemEvent<F, W>>,
    i: int,
    j: int,
)
    requires
        all_possible(count, events),
        0 <= i < after_all(count, events).workers.len(),
        0 <= j < after_all(count, events).workers.len(),
        drives(after_all(count, events).workers[i]),
        drives(after_all(count, events).workers[j]),
    ensures
        i == j,
        after_all(count, events).shared.driver_token,
{
    law_always_consistent(count, events);
}

/// While there is an I/O driver, whoever puts a task into the ready queue is told
/// to interrupt its wait.
pub proof fn law_driver_is_told<F, W>(
    count: nat,
    events: Seq<SystemEvent<F, W>>,
    driver: int,
    i: int,
    k: int,
    spurious: bool,
)
    requires
        all_possible(count, events),
        0 <= driver < after_all(count, events).workers.len(),
        drives(after_all(count, events).workers[driver]),
    ensures
        after_all(count, events).shared.driver_token,
        0 <= i < after_all(count, events).workers.len() && after_all(count, events).workers[i]
            is Enqueue ==> crate::multi_thread::executor::worker_step(
            after_all(count, events).shared,
            after_all(count, events).workers[i],
        ).action == WorkerAction::<F>::Notify(Notify { wake_reactor: true }),
        0 <= k < after_all(count, events).wakes.len() && after_all(count, events).wakes[k].state
            is Enqueue ==> crate::multi_thread::executor::wake_step(
            after_all(count, events).shared,
            after_all(count, events).wakes[k].task_id,
            after_all(count, events).wakes[k].state,
            spurious,
        ).notify == Some(Notify { wake_reactor: true }),
{
    law_always_consistent(count, events);
}

/// The I/O driver does not sleep through a task that is ready: while it waits
/// with a task in the ready queue, its wait was interrupted.
pub proof fn law_driver_wakes_for_ready_tasks<F, W>(
    count: nat,
    events: Seq<SystemEvent<F, W>>,
    i: int,
    timeout: Option<u128>,
)
    requires
        all_possible(count, events),
        0 <= i < after_all(count, events).workers.len(),
        after_all(count, events).workers[i] == WorkerState::<F>::Waiting(timeout),
        after_all(count, events).shared.ready.len() > 0,
    ensures
        after_all(count, events).interrupted,
{
    law_always_consistent(count, events);
}

/// The I/O driver does not sleep through a shutdown: while it waits after one, its
/// wait was interrupted.
pub proof fn law_driver_wakes_for_shutdown<F, W>(
    count: nat,
    events: Seq<SystemEvent<F, W>>,
    i: int,
    timeout: Option<u128>,
)
    requires
        all_possible(count, events),
        0 <= i < after_all(count, events).workers.len(),
        after_all(count, events).workers[i] == WorkerState::<F>::Waiting(timeout),
        after_all(count, events).shared.shutdown,
    ensures
        after_all(count, events).interrupted,
{
    law_always_consistent(count, events);
}

/// The I/O driver does not sleep past a timer: its wait is for no longer than
/// until the first deadline that it saw when it looked, and it was interrupted if
/// a timer was registered since.
pub proof fn law_driver_wakes_for_timers<F, W>(
    count: nat,
    events: Seq<SystemEvent<F, W>>,
    i: int,
    timeout: Option<u128>,
    deadline: u128,
)
    requires
        all_possible(count, events),
        0 <= i < after_all(count, events).workers.len(),
        after_all(count, events).workers[i] == WorkerState::<F>::Waiting(timeout),
    ensures
        after_all(count, events).looked is Some,
        after_all(count, events).heap.contains(deadline) ==> (timeout matches Some(left)
            && after_all(count, events).looked->0 + left <= deadline),
        after_all(count, events).inbox.contains(deadline) ==> after_all(count, events).interrupted,
{
    law_always_consistent(count, events);
}

/// When no worker is about to count, the count is the number of live tasks.
pub proof fn law_active_count<F, W>(count: nat, events: Seq<SystemEvent<F, W>>)
    requires
        all_possible(count, events),
        forall|i: int|
            0 <= i < after_all(count, events).workers.len() ==> !((#[trigger] after_all(
                count,
                events,
            ).workers[i]) is CountDown),
    ensures
        after_all(count, events).shared.active_count == after_all(
            count,
            events,
        ).shared.tasks.len(),
{
    law_always_consistent(count, events);
    lemma_none_counting_down(after_all(count, events).workers);
}

/// A worker that looks whether to exit after the runtime was shut down exits,
/// and so does one that is about to rest without anything to do.
pub proof fn law_shutdown_ends_workers<F, W>(shared: SharedView<F, W>)
    requires
        shared.shutdown,
    ensures
        crate::multi_thread::executor::worker_step(shared, WorkerState::<F>::Start).action
            is Exit,
        shared.ready.len() == 0 ==> crate::multi_thread::executor::worker_step(
            shared,
            WorkerState::<F>::Rest,
        ).action is Exit,
{
}

/// How many moves a worker has left at most, once the runtime was shut down.
pub open spec fn moves_left<F>(worker: WorkerState<F>) -> nat {
    match worker {
        WorkerState::Exited => 0,
        WorkerState::Start => 1,
        WorkerState::Rest | WorkerState::Enqueue(_) | WorkerState::CountDown
        | WorkerState::Resign => 2,
        WorkerState::Reschedule(_, _) | WorkerState::Remove(_) | WorkerState::Waiting(_) => 3,
        WorkerState::Release(_, _) | WorkerState::DriverWait(_) => 4,
        WorkerState::Polling(_) | WorkerState::AwaitTimers => 5,
        WorkerState::Claim(_) | WorkerState::DriverTimers => 6,
        WorkerState::Lookup(_) => 7,
    }
}

/// The event is a move of the worker: a step, except where it has exited or has to
/// do something first, or the report that it has done so.
pub open spec fn moves<F, W>(system: System<F, W>, event: SystemEvent<F, W>, i: int) -> bool {
    match event {
        SystemEvent::Step(j) => j == i && !(system.workers[i] is Exited) && !(
        system.workers[i] is Polling) && !(system.workers[i] is AwaitTimers),
        SystemEvent::Polled(j, _, _) => j == i,
        SystemEvent::TimersProcessed(j, _, _) => j == i,
        _ => false,
    }
}

/// Every worker exits after the runtime was shut down: each of its moves leaves it
/// fewer, it has seven at most, nothing that others do leaves it more, and when it
/// has none left it has exited. The runtime stays shut down.
pub proof fn law_workers_exit_after_shutdown<F, W>(
    system: System<F, W>,
    event: SystemEvent<F, W>,
    i: int,
)
    requires
        system.shared.shutdown,
        possible(system, event),
        0 <= i < system.workers.len(),
    ensures
        after(system, event).shared.shutdown,
        moves(system, event, i) ==> moves_left(after(system, event).workers[i]) < moves_left(
            system.workers[i],
        ),
        !moves(system, event, i) ==> after(system, event).workers[i] == system.workers[i],
        moves_left(system.workers[i]) <= 7,
        moves_left(system.workers[i]) == 0 <==> system.workers[i] is Exited,
{
}

/// A system that starts with `count` workers has `count` of them, each at its start,
/// with no task, nobody driving and nobody told to exit.
pub proof fn law_starts_with_all_workers<F, W>(count: nat)
    ensures
        initial::<F, W>(count).workers.len() == count,
        forall|i: int|
            0 <= i < count ==> (#[trigger] initial::<F, W>(count).workers[i]) == WorkerState::<
                F,
            >::Start,
        initial::<F, W>(count).shared.tasks.dom() == Set::<usize>::empty(),
        initial::<F, W>(count).shared.ready.len() == 0,
        initial::<F, W>(count).shared.active_count == 0,
        !initial::<F, W>(count).shared.shutdown,
        !initial::<F, W>(count).shared.driver_token,
{
}

/// No worker is ever lost or made up: whatever happens, there are as many as there
/// were at the start.
pub proof fn law_worker_count<F, W>(count: nat, events: Seq<SystemEvent<F, W>>)
    requires
        all_possible(count, events),
    ensures
        after_all(count, events).workers.len() == count,
    decreases events.len(),
{
    if events.len() > 0 {
        law_worker_count(count, events.drop_last());
    }
}

/// What happens to one worker leaves the others where they are, and what is no step
/// of a worker leaves all of them.
pub proof fn law_workers_move_alone<F, W>(system: System<F, W>, event: SystemEvent<F, W>, other: int)
    requires
        possible(system, event),
        0 <= other < system.workers.len(),
        match event {
            SystemEvent::Step(i) | SystemEvent::Polled(i, _, _) | SystemEvent::TimersProcessed(
                i,
                _,
                _,
            ) => i != other,
            _ => true,
        },
    ensures
        after(system, event).workers[other] == system.workers[other],
{
}

} // verus!
