//! The task executor of the single-threaded runtime.
//!
//! The executor keeps all live tasks and a queue of those that are ready. In
//! each tick it takes the queue as it stands and polls every task in it once.
//! Tasks that are ready leave; tasks that are pending stay and are polled again
//! after their waker was used.

use std::collections::{HashMap, HashSet, VecDeque};
use vstd::prelude::*;

use crate::task::{Context, Poll, Task, TaskFuture, Waker, YieldNow};

verus! {

broadcast use vstd::std_specs::hash::group_hash_axioms;

/// The queue after `id` was put into it: it goes to the end, unless it is
/// there already.
pub open spec fn enqueue(queue: Seq<usize>, id: usize) -> Seq<usize> {
    if queue.contains(id) {
        queue
    } else {
        queue.push(id)
    }
}

/// The queue after all of `ids` were put into it, in order.
pub open spec fn enqueue_all(queue: Seq<usize>, ids: Seq<usize>) -> Seq<usize>
    decreases ids.len(),
{
    if ids.len() == 0 {
        queue
    } else {
        enqueue(enqueue_all(queue, ids.drop_last()), ids.last())
    }
}

/// A FIFO queue of task ids that holds every id at most once.
pub struct ReadyQueue {
    queue: VecDeque<usize>,
    set: HashSet<usize>,
}

impl View for ReadyQueue {
    type V = Seq<usize>;

    /// The ids in the order in which they were put in.
    closed spec fn view(&self) -> Seq<usize> {
        self.queue@
    }
}

impl ReadyQueue {
    /// No id stands in the queue twice, and the set holds the ids in the queue.
    pub closed spec fn wf(&self) -> bool {
        &&& self.queue@.no_duplicates()
        &&& forall|id: usize| self.queue@.contains(id) <==> #[trigger] self.set@.contains(id)
    }

    /// A queue holds no id twice.
    pub proof fn law_holds_ids_once(&self)
        requires
            self.wf(),
        ensures
            self@.no_duplicates(),
    {
    }

    /// An empty queue.
    pub fn new() -> (queue: Self)
        ensures
            queue.wf(),
            queue@ == Seq::<usize>::empty(),
    {
        ReadyQueue { queue: VecDeque::new(), set: HashSet::new() }
    }

    /// Put a task id into the queue if it is not there already.
    pub fn push(&mut self, task_id: usize)
        requires
            old(self).wf(),
        ensures
            final(self).wf(),
            final(self)@ == enqueue(old(self)@, task_id),
    {
        let ghost before = self.queue@;
        if self.set.insert(task_id) {
            self.queue.push_back(task_id);
            proof {
                lemma_push_contains(before, task_id);
            }
        }
    }

    /// Take all task ids out.
    pub fn drain(&mut self) -> (ids: Vec<usize>)
        requires
            old(self).wf(),
        ensures
            final(self).wf(),
            final(self)@ == Seq::<usize>::empty(),
            ids@ == old(self)@,
    {
        self.set.clear();
        let ghost before = self.queue@;
        let mut ids: Vec<usize> = Vec::new();
        loop
            invariant
                ids@ + self.queue@ == before,
                self.set@ == Set::<usize>::empty(),
            ensures
                self.queue@.len() == 0,
            decreases self.queue@.len(),
        {
            match self.queue.pop_front() {
                Some(id) => {
                    ids.push(id);
                },
                None => {
                    break;
                },
            }
        }
        ids
    }

    /// Whether no task id is in the queue.
    pub fn is_empty(&self) -> (empty: bool)
        ensures
            empty == (self@.len() == 0),
    {
        self.queue.len() == 0
    }
}

/// What a sequence contains after a push.
pub(crate) proof fn lemma_push_contains(s: Seq<usize>, x: usize)
    ensures
        forall|y: usize| #[trigger] s.push(x).contains(y) <==> s.contains(y) || y == x,
{
    assert forall|y: usize| #[trigger] s.push(x).contains(y) <==> s.contains(y) || y == x by {
        if s.contains(y) {
            let i = choose|i: int| 0 <= i < s.len() && s[i] == y;
            assert(s.push(x)[i] == y);
        }
        if y == x {
            assert(s.push(x)[s.len() as int] == y);
        }
    }
}

/// The waker that schedules the task `task_id`.
pub fn make_waker(task_id: usize) -> (waker: Waker)
    ensures
        waker.task_id == task_id,
{
    Waker { task_id }
}

impl Waker {
    /// Use the waker: put its task into the queue.
    pub fn wake(self, queue: &mut ReadyQueue)
        requires
            old(queue).wf(),
        ensures
            final(queue).wf(),
            final(queue)@ == enqueue(old(queue)@, self.task_id),
    {
        queue.push(self.task_id);
    }

    /// Use the waker without giving it up.
    pub fn wake_by_ref(&self, queue: &mut ReadyQueue)
        requires
            old(queue).wf(),
        ensures
            final(queue).wf(),
            final(queue)@ == enqueue(old(queue)@, self.task_id),
    {
        queue.push(self.task_id);
    }
}

/// The tasks of an executor and the queue of those that are ready.
#[verifier::ext_equal]
pub struct ExecutorView<F> {
    /// The live tasks.
    pub tasks: Map<usize, Task<F>>,
    /// The ids of the tasks that are ready, in the order in which they became so.
    pub ready: Seq<usize>,
}

/// The executor after a poll of the task `id`: a task that is ready leaves, a
/// pending one is kept as the poll left it, and the tasks that were woken in
/// the course of the poll become ready.
pub open spec fn after_poll<F>(
    state: ExecutorView<F>,
    id: usize,
    task: Task<F>,
    woken: Seq<usize>,
    poll: Poll<()>,
) -> ExecutorView<F> {
    ExecutorView {
        tasks: match poll {
            Poll::Ready(_) => state.tasks.remove(id),
            Poll::Pending => state.tasks.insert(id, task),
        },
        ready: enqueue_all(state.ready, woken),
    }
}

/// A poll of the task `id` can take the executor from `state` to `next`: the
/// future is handed the waker of its task and a context in which nothing was
/// woken yet. An id without a task is passed over.
pub open spec fn poll_one<F: TaskFuture>(
    state: ExecutorView<F>,
    id: usize,
    next: ExecutorView<F>,
) -> bool {
    if state.tasks.contains_key(id) {
        exists|cx: Context, future: F, cx_after: Context, poll: Poll<()>|
            {
                &&& cx.own_waker() == state.tasks[id].waker
                &&& cx.woken() == Seq::<usize>::empty()
                &&& #[trigger] F::polled(state.tasks[id].future, cx, future, cx_after, poll)
                &&& next == after_poll(
                    state,
                    id,
                    (Task { future, ..state.tasks[id] }),
                    cx_after.woken(),
                    poll,
                )
            }
    } else {
        next == state
    }
}

/// Polling the tasks of `batch`, one after the other, can take the executor
/// from `state` to `next`.
pub open spec fn poll_batch<F: TaskFuture>(
    state: ExecutorView<F>,
    batch: Seq<usize>,
    next: ExecutorView<F>,
) -> bool
    decreases batch.len(),
{
    if batch.len() == 0 {
        next == state
    } else {
        exists|before: ExecutorView<F>|
            poll_batch(state, batch.drop_last(), before) && #[trigger] poll_one(
                before,
                batch.last(),
                next,
            )
    }
}

/// A batch can grow by one task at its end.
proof fn lemma_batch_push<F: TaskFuture>(
    state: ExecutorView<F>,
    batch: Seq<usize>,
    before: ExecutorView<F>,
    id: usize,
    next: ExecutorView<F>,
)
    requires
        poll_batch(state, batch, before),
        poll_one(before, id, next),
    ensures
        poll_batch(state, batch.push(id), next),
{
    let longer = batch.push(id);
    assert(longer.drop_last() =~= batch);
    assert(poll_batch(state, longer.drop_last(), before) && poll_one(before, longer.last(), next));
}

/// The executor that drives tasks to completion.
pub struct Executor<F> {
    /// All live tasks, keyed by id.
    tasks: HashMap<usize, Task<F>>,
    /// The tasks that are ready to be polled.
    ready_queue: ReadyQueue,
}

impl<F> View for Executor<F> {
    type V = ExecutorView<F>;

    /// The live tasks, and the queue of those that are ready.
    closed spec fn view(&self) -> ExecutorView<F> {
        ExecutorView { tasks: self.tasks@, ready: self.ready_queue@ }
    }
}

impl<F> Executor<F> {
    /// The ready queue is well-formed, and every task is kept under its id and
    /// has a waker that schedules it.
    pub closed spec fn wf(&self) -> bool {
        &&& self.ready_queue.wf()
        &&& forall|id: usize| #[trigger]
            self.tasks@.contains_key(id) ==> self.tasks@[id].id == id
                && self.tasks@[id].waker.task_id == id
    }

    /// No task is queued twice, and every task is kept under its id and has a
    /// waker that schedules it.
    pub proof fn law_queues_tasks_once(&self)
        requires
            self.wf(),
        ensures
            self@.ready.no_duplicates(),
            forall|id: usize| #[trigger]
                self@.tasks.contains_key(id) ==> self@.tasks[id].id == id
                    && self@.tasks[id].waker.task_id == id,
    {
    }

    /// An executor without tasks.
    pub fn new() -> (executor: Self)
        ensures
            executor.wf(),
            executor@ == (ExecutorView::<F> { tasks: Map::empty(), ready: Seq::empty() }),
    {
        Executor { tasks: HashMap::new(), ready_queue: ReadyQueue::new() }
    }

    /// Submit a task, whose waker schedules it. It will be polled in the next
    /// tick.
    pub fn spawn(&mut self, task: Task<F>)
        requires
            old(self).wf(),
            task.waker.task_id == task.id,
        ensures
            final(self).wf(),
            final(self)@ == (ExecutorView {
                tasks: old(self)@.tasks.insert(task.id, task),
                ready: enqueue(old(self)@.ready, task.id),
            }),
    {
        let id: usize = task.id;
        self.tasks.insert(id, task);
        self.ready_queue.push(id);
    }

    /// Make the task that `waker` schedules ready.
    pub fn wake(&mut self, waker: Waker)
        requires
            old(self).wf(),
        ensures
            final(self).wf(),
            final(self)@ == (ExecutorView {
                ready: enqueue(old(self)@.ready, waker.task_id),
                ..old(self)@
            }),
    {
        waker.wake(&mut self.ready_queue);
    }

    /// Whether there are no more tasks.
    pub fn is_empty(&self) -> (empty: bool)
        ensures
            empty == (self@.tasks.len() == 0),
    {
        self.tasks.is_empty()
    }

    /// Whether no task is ready.
    pub fn is_idle(&self) -> (idle: bool)
        ensures
            idle == (self@.ready.len() == 0),
    {
        self.ready_queue.is_empty()
    }

    /// Take note of a poll: `task` is what the poll of the task `id` left,
    /// `woken` the tasks that were woken meanwhile, and `poll` what the future
    /// reported.
    pub fn finish_poll(&mut self, id: usize, task: Task<F>, woken: Vec<usize>, poll: Poll<()>)
        requires
            old(self).wf(),
            task.id == id,
            task.waker.task_id == id,
        ensures
            final(self).wf(),
            final(self)@ == after_poll(old(self)@, id, task, woken@, poll),
            forall|k: int|
                0 <= k < woken@.len() ==> final(self)@.ready.contains(#[trigger] woken@[k]),
    {
        match poll {
            Poll::Ready(_) => {
                self.tasks.remove(&id);
            },
            Poll::Pending => {
                self.tasks.insert(id, task);
            },
        }
        let ghost before = self.ready_queue@;
        let mut i: usize = 0;
        while i < woken.len()
            invariant
                i <= woken@.len(),
                self.ready_queue.wf(),
                self.ready_queue@ == enqueue_all(before, woken@.take(i as int)),
                self.tasks@ == after_poll(old(self)@, id, task, woken@, poll).tasks,
            decreases woken@.len() - i,
        {
            self.ready_queue.push(woken[i]);
            i = i + 1;
            proof {
                assert(woken@.take(i as int).drop_last() =~= woken@.take(i - 1));
            }
        }
        assert(woken@.take(i as int) =~= woken@);
        proof {
            law_woken_are_ready(before, woken@);
        }
    }
}

impl<F: TaskFuture> Executor<F> {
    /// Run one tick: poll every ready task once, in the order in which the
    /// tasks became ready.
    ///
    /// Returns `true` if at least one task was polled.
    pub fn tick(&mut self) -> (polled: bool)
        requires
            old(self).wf(),
        ensures
            final(self).wf(),
            polled == exists|id: usize| #[trigger]
                old(self)@.ready.contains(id) && old(self)@.tasks.contains_key(id),
            poll_batch(
                (ExecutorView { ready: Seq::empty(), ..old(self)@ }),
                old(self)@.ready,
                final(self)@,
            ),
    {
        let ready: Vec<usize> = self.ready_queue.drain();
        let ghost start = self@;
        let mut polled: bool = false;
        let mut i: usize = 0;
        while i < ready.len()
            invariant
                i <= ready@.len(),
                self.wf(),
                ready@.no_duplicates(),
                poll_batch(start, ready@.take(i as int), self@),
                polled == exists|k: int|
                    0 <= k < i && start.tasks.contains_key(#[trigger] ready@[k]),
            decreases ready@.len() - i,
        {
            let id: usize = ready[i];
            let ghost before = self@;
            proof {
                let earlier = ready@.take(i as int);
                assert(!earlier.contains(id)) by {
                    if earlier.contains(id) {
                        let k = choose|k: int| 0 <= k < earlier.len() && earlier[k] == id;
                        assert(ready@[k] == ready@[i as int]);
                    }
                }
                law_tick_polls_only_the_ready(start, earlier, before);
            }
            match self.tasks.remove(&id) {
                Some(task) => {
                    let mut task = task;
                    polled = true;
                    let mut cx = Context::from_waker(*task.waker());
                    let ghost cx_before = cx;
                    let poll = task.poll(&mut cx);
                    let ghost cx_after = cx;
                    let ghost task_after = task;
                    let woken: Vec<usize> = cx.into_woken();
                    self.finish_poll(id, task, woken, poll);
                    proof {
                        assert(task_after == Task { future: task_after.future, ..before.tasks[id] });
                        assert(F::polled(
                            before.tasks[id].future,
                            cx_before,
                            task_after.future,
                            cx_after,
                            poll,
                        ));
                        assert(self@ =~= after_poll(before, id, task_after, cx_after.woken(), poll));
                    }
                },
                None => {
                    assert(self@ =~= before);
                },
            }
            proof {
                lemma_batch_push(start, ready@.take(i as int), before, id, self@);
                assert(ready@.take(i as int).push(id) =~= ready@.take(i + 1));
            }
            i = i + 1;
        }
        proof {
            assert(ready@.take(i as int) =~= ready@);
            if polled {
                let k = choose|k: int|
                    0 <= k < i && start.tasks.contains_key(#[trigger] ready@[k]);
                assert(old(self)@.ready.contains(ready@[k]));
            }
        }
        polled
    }
}

/// What is put into the queue is in it, behind what was there before and in no
/// case twice.
pub proof fn law_woken_are_ready(queue: Seq<usize>, ids: Seq<usize>)
    requires
        queue.no_duplicates(),
    ensures
        forall|id: usize| #[trigger]
            enqueue_all(queue, ids).contains(id) <==> queue.contains(id) || ids.contains(id),
        enqueue_all(queue, ids).no_duplicates(),
        enqueue_all(queue, ids).len() >= queue.len(),
        enqueue_all(queue, ids).take(queue.len() as int) == queue,
    decreases ids.len(),
{
    let after = enqueue_all(queue, ids);
    if ids.len() == 0 {
        assert(after.take(queue.len() as int) =~= queue);
    } else {
        let earlier = ids.drop_last();
        law_woken_are_ready(queue, earlier);
        let before = enqueue_all(queue, earlier);
        lemma_push_contains(before, ids.last());
        lemma_push_contains(earlier, ids.last());
        assert(ids =~= earlier.push(ids.last()));
        assert(after.take(queue.len() as int) =~= before.take(queue.len() as int));
    }
}

/// A waker that is used makes its task ready, however often it is used.
pub proof fn law_wake_makes_ready(queue: Seq<usize>, id: usize)
    ensures
        enqueue(queue, id).contains(id),
        enqueue(enqueue(queue, id), id) == enqueue(queue, id),
{
    lemma_push_contains(queue, id);
}

/// A tick touches only the tasks that were ready: any other is as it was. No
/// task appears, and those that stay keep their id and waker.
pub proof fn law_tick_polls_only_the_ready<F: TaskFuture>(
    state: ExecutorView<F>,
    batch: Seq<usize>,
    next: ExecutorView<F>,
)
    requires
        poll_batch(state, batch, next),
    ensures
        forall|id: usize| #[trigger]
            next.tasks.contains_key(id) ==> {
                &&& state.tasks.contains_key(id)
                &&& next.tasks[id].id == state.tasks[id].id
                &&& next.tasks[id].waker == state.tasks[id].waker
            },
        forall|id: usize|
            !batch.contains(id) && #[trigger] state.tasks.contains_key(id) ==> {
                &&& next.tasks.contains_key(id)
                &&& next.tasks[id] == state.tasks[id]
            },
    decreases batch.len(),
{
    if batch.len() > 0 {
        let earlier = batch.drop_last();
        let before = choose|before: ExecutorView<F>|
            poll_batch(state, earlier, before) && #[trigger] poll_one(before, batch.last(), next);
        law_tick_polls_only_the_ready(state, earlier, before);
        assert(batch =~= earlier.push(batch.last()));
        lemma_push_contains(earlier, batch.last());
    }
}

/// A tick loses no task that became ready in its course: what is ready after it
/// begins with what was ready when it began to poll.
pub proof fn law_tick_keeps_the_ready<F: TaskFuture>(
    state: ExecutorView<F>,
    batch: Seq<usize>,
    next: ExecutorView<F>,
)
    requires
        poll_batch(state, batch, next),
        state.ready.no_duplicates(),
    ensures
        next.ready.no_duplicates(),
        state.ready.len() <= next.ready.len(),
        next.ready.take(state.ready.len() as int) == state.ready,
    decreases batch.len(),
{
    if batch.len() == 0 {
        assert(next.ready.take(state.ready.len() as int) =~= state.ready);
    } else {
        let earlier = batch.drop_last();
        let before = choose|before: ExecutorView<F>|
            poll_batch(state, earlier, before) && #[trigger] poll_one(before, batch.last(), next);
        law_tick_keeps_the_ready(state, earlier, before);
        let id = batch.last();
        if before.tasks.contains_key(id) {
            let record = lemma_poll_has_record(before, id, next);
            law_woken_are_ready(before.ready, record.cx_after.woken());
            assert(next.ready.take(state.ready.len() as int) =~= next.ready.take(
                before.ready.len() as int,
            ).take(state.ready.len() as int));
        }
    }
}

/// The executor after some ticks, each from the state that the one before left.
pub open spec fn ticks<F: TaskFuture>(
    state: ExecutorView<F>,
    count: nat,
    next: ExecutorView<F>,
) -> bool
    decreases count,
{
    if count == 0 {
        next == state
    } else {
        exists|after: ExecutorView<F>| #[trigger]
            poll_batch((ExecutorView { ready: Seq::empty(), ..state }), state.ready, after)
                && ticks(after, (count - 1) as nat, next)
    }
}

/// A task that is pending and wakes itself is polled again in the next tick, and
/// one that is ready leaves: a task that yields `yields` times is there for as
/// many ticks, ready again after each, and gone after one more.
pub proof fn law_yielding_task_completes(
    state: ExecutorView<YieldNow>,
    id: usize,
    count: nat,
    next: ExecutorView<YieldNow>,
)
    requires
        state.tasks.contains_key(id),
        state.tasks.dom() == set![id],
        state.tasks[id].waker.task_id == id,
        state.ready == seq![id],
        ticks(state, count, next),
        count <= state.tasks[id].future.left + 1,
    ensures
        count <= state.tasks[id].future.left ==> {
            &&& next.tasks.dom() == set![id]
            &&& next.tasks[id].future.left == state.tasks[id].future.left - count
            &&& next.ready == seq![id]
        },
        count == state.tasks[id].future.left + 1 ==> {
            &&& next.tasks == Map::<usize, Task<YieldNow>>::empty()
            &&& next.ready == Seq::<usize>::empty()
        },
    decreases count,
{
    if count > 0 {
        let start = ExecutorView { ready: Seq::empty(), ..state };
        let after = choose|after: ExecutorView<YieldNow>| #[trigger]
            poll_batch(start, state.ready, after) && ticks(after, (count - 1) as nat, next);
        let before = choose|before: ExecutorView<YieldNow>|
            poll_batch(start, state.ready.drop_last(), before) && #[trigger] poll_one(
                before,
                state.ready.last(),
                after,
            );
        assert(before == start);
        let future = state.tasks[id].future;
        if future.left == 0 {
            assert(after.tasks =~= Map::<usize, Task<YieldNow>>::empty());
            assert(enqueue_all(start.ready, Seq::empty()) =~= Seq::<usize>::empty());
            assert(after.ready =~= Seq::<usize>::empty());
            assert(count == 1);
        } else {
            let woken = Seq::<usize>::empty().push(id);
            assert(woken.drop_last() =~= Seq::<usize>::empty());
            assert(enqueue_all(start.ready, Seq::empty()) == start.ready);
            assert(enqueue_all(start.ready, woken) =~= seq![id]);
            assert(after.ready =~= seq![id]);
            assert(after.tasks.dom() =~= set![id]);
            law_yielding_task_completes(after, id, (count - 1) as nat, next);
        }
    }
}

/// What a poll of a task was given and what it did.
pub struct PollRecord<F> {
    /// The context as the poll was given it.
    pub cx: Context,
    /// The future as the poll left it.
    pub future: F,
    /// The context as the poll left it.
    pub cx_after: Context,
    /// What the poll reported.
    pub poll: Poll<()>,
}

/// The record can be that of a poll of the task `id`; of an id without a task
/// nothing is polled, and any record will do.
pub open spec fn recorded<F: TaskFuture>(
    state: ExecutorView<F>,
    id: usize,
    record: PollRecord<F>,
) -> bool {
    state.tasks.contains_key(id) ==> {
        &&& record.cx.own_waker() == state.tasks[id].waker
        &&& record.cx.woken() == Seq::<usize>::empty()
        &&& F::polled(
            state.tasks[id].future,
            record.cx,
            record.future,
            record.cx_after,
            record.poll,
        )
    }
}

/// The executor after the poll that the record tells of.
pub open spec fn after_record<F>(
    state: ExecutorView<F>,
    id: usize,
    record: PollRecord<F>,
) -> ExecutorView<F> {
    if state.tasks.contains_key(id) {
        after_poll(
            state,
            id,
            Task { future: record.future, ..state.tasks[id] },
            record.cx_after.woken(),
            record.poll,
        )
    } else {
        state
    }
}

/// The executor after the polls of a tick that the records tell of.
pub open spec fn after_records<F>(
    state: ExecutorView<F>,
    batch: Seq<usize>,
    records: Seq<PollRecord<F>>,
) -> ExecutorView<F>
    decreases batch.len(),
{
    if batch.len() == 0 {
        state
    } else {
        after_record(
            after_records(state, batch.drop_last(), records.drop_last()),
            batch.last(),
            records.last(),
        )
    }
}

/// The records can be those of the polls of a tick.
pub open spec fn all_recorded<F: TaskFuture>(
    state: ExecutorView<F>,
    batch: Seq<usize>,
    records: Seq<PollRecord<F>>,
) -> bool
    decreases batch.len(),
{
    &&& records.len() == batch.len()
    &&& batch.len() > 0 ==> all_recorded(state, batch.drop_last(), records.drop_last())
        && recorded(
        after_records(state, batch.drop_last(), records.drop_last()),
        batch.last(),
        records.last(),
    )
}

/// The tasks that were polled in a tick and reported that they are ready.
pub open spec fn reported_ready<F>(
    state: ExecutorView<F>,
    batch: Seq<usize>,
    records: Seq<PollRecord<F>>,
) -> Set<usize>
    decreases batch.len(),
{
    if batch.len() == 0 {
        Set::empty()
    } else {
        let earlier = reported_ready(state, batch.drop_last(), records.drop_last());
        let before = after_records(state, batch.drop_last(), records.drop_last());
        if before.tasks.contains_key(batch.last()) && records.last().poll is Ready {
            earlier.insert(batch.last())
        } else {
            earlier
        }
    }
}

/// Every poll has a record.
proof fn lemma_poll_has_record<F: TaskFuture>(
    state: ExecutorView<F>,
    id: usize,
    next: ExecutorView<F>,
) -> (record: PollRecord<F>)
    requires
        poll_one(state, id, next),
    ensures
        recorded(state, id, record),
        after_record(state, id, record) == next,
{
    if state.tasks.contains_key(id) {
        let (cx, future, cx_after, poll) = choose|
            cx: Context,
            future: F,
            cx_after: Context,
            poll: Poll<()>,
        |
            {
                &&& cx.own_waker() == state.tasks[id].waker
                &&& cx.woken() == Seq::<usize>::empty()
                &&& #[trigger] F::polled(state.tasks[id].future, cx, future, cx_after, poll)
                &&& next == after_poll(
                    state,
                    id,
                    (Task { future, ..state.tasks[id] }),
                    cx_after.woken(),
                    poll,
                )
            };
        PollRecord { cx, future, cx_after, poll }
    } else {
        arbitrary()
    }
}

/// Every tick has records: what a tick does is what the records of its polls tell.
pub proof fn law_tick_has_records<F: TaskFuture>(
    state: ExecutorView<F>,
    batch: Seq<usize>,
    next: ExecutorView<F>,
) -> (records: Seq<PollRecord<F>>)
    requires
        poll_batch(state, batch, next),
    ensures
        all_recorded(state, batch, records),
        after_records(state, batch, records) == next,
    decreases batch.len(),
{
    if batch.len() == 0 {
        Seq::empty()
    } else {
        let id = batch.last();
        let before = choose|before: ExecutorView<F>|
            poll_batch(state, batch.drop_last(), before) && #[trigger] poll_one(before, id, next);
        let earlier = law_tick_has_records(state, batch.drop_last(), before);
        let record = lemma_poll_has_record(before, id, next);
        let records = earlier.push(record);
        assert(records.drop_last() =~= earlier);
        records
    }
}

/// Something that happens to an executor.
pub enum ExecutorEvent<F> {
    /// A task is spawned.
    Spawn(Task<F>),
    /// The waker of a task is used.
    Wake(usize),
    /// A tick, with the records of its polls.
    Tick(Seq<PollRecord<F>>),
}

/// The executor as a tick begins to poll.
pub open spec fn drained<F>(state: ExecutorView<F>) -> ExecutorView<F> {
    ExecutorView { ready: Seq::empty(), ..state }
}

/// The executor after a history of events.
pub open spec fn after_executor_events<F>(events: Seq<ExecutorEvent<F>>) -> ExecutorView<F>
    decreases events.len(),
{
    if events.len() == 0 {
        ExecutorView { tasks: Map::empty(), ready: Seq::empty() }
    } else {
        let before = after_executor_events(events.drop_last());
        match events.last() {
            ExecutorEvent::Spawn(task) => ExecutorView {
                tasks: before.tasks.insert(task.id, task),
                ready: enqueue(before.ready, task.id),
            },
            ExecutorEvent::Wake(id) => ExecutorView { ready: enqueue(before.ready, id), ..before },
            ExecutorEvent::Tick(records) => after_records(drained(before), before.ready, records),
        }
    }
}

/// The tasks that were spawned.
pub open spec fn spawned<F>(events: Seq<ExecutorEvent<F>>) -> Set<usize>
    decreases events.len(),
{
    if events.len() == 0 {
        Set::empty()
    } else {
        let earlier = spawned(events.drop_last());
        match events.last() {
            ExecutorEvent::Spawn(task) => earlier.insert(task.id),
            _ => earlier,
        }
    }
}

/// The tasks that were polled by a tick and reported that they are ready.
pub open spec fn completed<F>(events: Seq<ExecutorEvent<F>>) -> Set<usize>
    decreases events.len(),
{
    if events.len() == 0 {
        Set::empty()
    } else {
        let earlier = completed(events.drop_last());
        let before = after_executor_events(events.drop_last());
        match events.last() {
            ExecutorEvent::Tick(records) => earlier.union(
                reported_ready(drained(before), before.ready, records),
            ),
            _ => earlier,
        }
    }
}

/// Each event of the history could happen when it did: every task that is spawned
/// has an id of its own, and the records of a tick can be those of its polls.
pub open spec fn all_executor_possible<F: TaskFuture>(events: Seq<ExecutorEvent<F>>) -> bool
    decreases events.len(),
{
    events.len() > 0 ==> {
        let before = after_executor_events(events.drop_last());
        &&& all_executor_possible(events.drop_last())
        &&& match events.last() {
            ExecutorEvent::Spawn(task) => !spawned(events.drop_last()).contains(task.id),
            ExecutorEvent::Wake(_) => true,
            ExecutorEvent::Tick(records) => all_recorded(drained(before), before.ready, records),
        }
    }
}

/// A tick takes out exactly the tasks that report that they are ready, which are
/// some of those that were in the ready queue.
pub(crate) proof fn lemma_records_take_out<F>(
    state: ExecutorView<F>,
    batch: Seq<usize>,
    records: Seq<PollRecord<F>>,
)
    ensures
        after_records(state, batch, records).tasks.dom() == state.tasks.dom().difference(
            reported_ready(state, batch, records),
        ),
        reported_ready(state, batch, records).subset_of(state.tasks.dom()),
        forall|id: usize| #[trigger]
            reported_ready(state, batch, records).contains(id) ==> batch.contains(id),
    decreases batch.len(),
{
    let after = after_records(state, batch, records);
    let gone = reported_ready(state, batch, records);
    if batch.len() > 0 {
        lemma_records_take_out(state, batch.drop_last(), records.drop_last());
        lemma_push_contains(batch.drop_last(), batch.last());
        assert(batch =~= batch.drop_last().push(batch.last()));
    }
    assert(after.tasks.dom() =~= state.tasks.dom().difference(gone));
}

/// The live tasks are those that were spawned and have not reported that they are
/// ready.
pub proof fn law_live_tasks<F: TaskFuture>(events: Seq<ExecutorEvent<F>>)
    requires
        all_executor_possible(events),
    ensures
        after_executor_events(events).tasks.dom() == spawned(events).difference(completed(events)),
        completed(events).subset_of(spawned(events)),
        spawned(events).finite(),
    decreases events.len(),
{
    if events.len() > 0 {
        let earlier = events.drop_last();
        let before = after_executor_events(earlier);
        law_live_tasks(earlier);
        if let ExecutorEvent::Tick(records) = events.last() {
            lemma_records_take_out(drained(before), before.ready, records);
        }
    }
    assert(after_executor_events(events).tasks.dom() =~= spawned(events).difference(
        completed(events),
    ));
}

/// The executor is empty exactly when every task that was spawned has reported to
/// a tick that it is ready: a pending task keeps it from being empty though nothing
/// is in the ready queue, and what is left in the ready queue does not.
pub proof fn law_empty_when_all_completed<F: TaskFuture>(events: Seq<ExecutorEvent<F>>)
    requires
        all_executor_possible(events),
    ensures
        after_executor_events(events).tasks.len() == 0 <==> forall|id: usize| #[trigger]
            spawned(events).contains(id) ==> completed(events).contains(id),
{
    law_live_tasks(events);
    let live = after_executor_events(events).tasks.dom();
    if live.len() == 0 {
        assert forall|id: usize| #[trigger] spawned(events).contains(id) implies completed(
            events,
        ).contains(id) by {
            if !completed(events).contains(id) {
                assert(live.contains(id));
                assert(live.remove(id).len() == live.len() - 1);
            }
        }
    }
    if forall|id: usize| #[trigger]
        spawned(events).contains(id) ==> completed(events).contains(id) {
        assert(live =~= Set::<usize>::empty());
    }
}

/// What is put into the queue later comes behind what is put in earlier.
pub proof fn law_woken_in_order(queue: Seq<usize>, ids: Seq<usize>, count: int)
    requires
        queue.no_duplicates(),
        0 <= count <= ids.len(),
    ensures
        enqueue_all(queue, ids.take(count)).len() <= enqueue_all(queue, ids).len(),
        enqueue_all(queue, ids).take(enqueue_all(queue, ids.take(count)).len() as int)
            == enqueue_all(queue, ids.take(count)),
    decreases ids.len(),
{
    let all = enqueue_all(queue, ids);
    if count == ids.len() {
        assert(ids.take(count) =~= ids);
        assert(all.take(all.len() as int) =~= all);
    } else {
        let earlier = ids.drop_last();
        assert(earlier.take(count) =~= ids.take(count));
        law_woken_in_order(queue, earlier, count);
        let some = enqueue_all(queue, ids.take(count));
        let before = enqueue_all(queue, earlier);
        assert(all.take(some.len() as int) =~= before.take(some.len() as int));
    }
}

/// A poll of one task leaves every other as it was, and takes none out of the ready
/// queue.
pub proof fn law_poll_leaves_others_alone<F>(
    state: ExecutorView<F>,
    id: usize,
    task: Task<F>,
    woken: Seq<usize>,
    poll: Poll<()>,
    other: usize,
)
    requires
        other != id,
        state.ready.no_duplicates(),
    ensures
        after_poll(state, id, task, woken, poll).tasks.contains_key(other)
            <==> state.tasks.contains_key(other),
        state.tasks.contains_key(other) ==> after_poll(state, id, task, woken, poll).tasks[other]
            == state.tasks[other],
        after_poll(state, id, task, woken, poll).tasks.contains_key(id) <==> poll is Pending,
        poll is Pending ==> after_poll(state, id, task, woken, poll).tasks[id] == task,
        forall|k: int|
            0 <= k < woken.len() ==> after_poll(state, id, task, woken, poll).ready.contains(
                #[trigger] woken[k],
            ),
        forall|ready: usize| #[trigger]
            state.ready.contains(ready) ==> after_poll(
                state,
                id,
                task,
                woken,
                poll,
            ).ready.contains(ready),
        after_poll(state, id, task, woken, poll).ready.len() <= state.ready.len() + woken.len(),
{
    law_woken_are_ready(state.ready, woken);
    lemma_enqueue_all_len(state.ready, woken);
}

/// The queue grows by no more than what is put in.
proof fn lemma_enqueue_all_len(queue: Seq<usize>, ids: Seq<usize>)
    ensures
        enqueue_all(queue, ids).len() <= queue.len() + ids.len(),
    decreases ids.len(),
{
    if ids.len() > 0 {
        lemma_enqueue_all_len(queue, ids.drop_last());
    }
}

/// A tick polls every task that was ready, once, with its own waker: as its future
/// stood when the tick began. A task that reports that it is ready is gone, one
/// that is pending is kept as its poll left it, and no wake-up is lost: every task
/// that was woken in the course of the poll is ready after the tick.
pub proof fn law_every_ready_task_is_polled<F: TaskFuture>(
    state: ExecutorView<F>,
    batch: Seq<usize>,
    next: ExecutorView<F>,
    id: usize,
)
    requires
        poll_batch(state, batch, next),
        batch.no_duplicates(),
        batch.contains(id),
        state.tasks.contains_key(id),
        state.ready.no_duplicates(),
    ensures
        exists|cx: Context, future: F, cx_after: Context, poll: Poll<()>|
            {
                &&& cx.own_waker() == state.tasks[id].waker
                &&& cx.woken() == Seq::<usize>::empty()
                &&& #[trigger] F::polled(state.tasks[id].future, cx, future, cx_after, poll)
                &&& poll is Ready ==> !next.tasks.contains_key(id)
                &&& poll is Pending ==> next.tasks.contains_key(id) && next.tasks[id].future
                    == future
                &&& forall|k: int|
                    0 <= k < cx_after.woken().len() ==> next.ready.contains(
                        #[trigger] cx_after.woken()[k],
                    )
            },
    decreases batch.len(),
{
    let earlier = batch.drop_last();
    let last = batch.last();
    let before = choose|before: ExecutorView<F>|
        poll_batch(state, earlier, before) && #[trigger] poll_one(before, last, next);
    law_tick_polls_only_the_ready(state, earlier, before);
    law_tick_keeps_the_ready(state, earlier, before);
    let record = lemma_poll_has_record(before, last, next);
    if before.tasks.contains_key(last) {
        law_woken_are_ready(before.ready, record.cx_after.woken());
    }
    if id == last {
        assert(!earlier.contains(id)) by {
            if earlier.contains(id) {
                let k = choose|k: int| 0 <= k < earlier.len() && earlier[k] == id;
                assert(batch[k] == batch[batch.len() - 1]);
            }
        }
        assert(F::polled(
            state.tasks[id].future,
            record.cx,
            record.future,
            record.cx_after,
            record.poll,
        ));
    } else {
        let k = choose|k: int| 0 <= k < batch.len() && batch[k] == id;
        assert(earlier[k] == id);
        law_every_ready_task_is_polled(state, earlier, before, id);
        let (cx, future, cx_after, poll) = choose|
            cx: Context,
            future: F,
            cx_after: Context,
            poll: Poll<()>,
        |
            {
                &&& cx.own_waker() == state.tasks[id].waker
                &&& cx.woken() == Seq::<usize>::empty()
                &&& #[trigger] F::polled(state.tasks[id].future, cx, future, cx_after, poll)
                &&& poll is Ready ==> !before.tasks.contains_key(id)
                &&& poll is Pending ==> before.tasks.contains_key(id) && before.tasks[id].future
                    == future
                &&& forall|k: int|
                    0 <= k < cx_after.woken().len() ==> before.ready.contains(
                        #[trigger] cx_after.woken()[k],
                    )
            };
        assert(F::polled(state.tasks[id].future, cx, future, cx_after, poll));
    }
}

/// A tick polls in the order in which tasks became ready: it can be cut anywhere
/// into a tick of the first and a tick of the rest.
pub proof fn law_tick_polls_in_order<F: TaskFuture>(
    state: ExecutorView<F>,
    batch: Seq<usize>,
    next: ExecutorView<F>,
    count: int,
) -> (between: ExecutorView<F>)
    requires
        poll_batch(state, batch, next),
        0 <= count <= batch.len(),
    ensures
        poll_batch(state, batch.take(count), between),
        poll_batch(between, batch.skip(count), next),
    decreases batch.len(),
{
    if count == batch.len() {
        assert(batch.take(count) =~= batch);
        assert(batch.skip(count).len() == 0);
        next
    } else {
        let earlier = batch.drop_last();
        let before = choose|before: ExecutorView<F>|
            poll_batch(state, earlier, before) && #[trigger] poll_one(before, batch.last(), next);
        let between = law_tick_polls_in_order(state, earlier, before, count);
        assert(earlier.take(count) =~= batch.take(count));
        lemma_batch_push(between, earlier.skip(count), before, batch.last(), next);
        assert(earlier.skip(count).push(batch.last()) =~= batch.skip(count));
        between
    }
}

/// No wake-up in a tick is lost: every task that any poll of the tick woke is in the ready
/// queue after the tick. What was woken by then stands in front, in the same order, of
/// what later polls of the tick wake.
pub proof fn law_no_wake_up_is_lost<F: TaskFuture>(
    state: ExecutorView<F>,
    batch: Seq<usize>,
    records: Seq<PollRecord<F>>,
    i: int,
)
    requires
        records.len() == batch.len(),
        0 <= i < batch.len(),
        state.ready.no_duplicates(),
    ensures
        ({
            let before = after_records(state, batch.take(i), records.take(i));
            let then = after_records(state, batch.take(i + 1), records.take(i + 1));
            let after = after_records(state, batch, records);
            &&& before.tasks.contains_key(batch[i]) ==> forall|k: int|
                0 <= k < records[i].cx_after.woken().len() ==> after.ready.contains(
                    #[trigger] records[i].cx_after.woken()[k],
                )
            &&& then.ready.len() <= after.ready.len()
            &&& after.ready.take(then.ready.len() as int) == then.ready
            &&& before.ready.len() <= then.ready.len()
            &&& then.ready.take(before.ready.len() as int) == before.ready
            &&& after.ready.no_duplicates()
        }),
    decreases batch.len(),
{
    let before = after_records(state, batch.take(i), records.take(i));
    let then = after_records(state, batch.take(i + 1), records.take(i + 1));
    let after = after_records(state, batch, records);
    let earlier = batch.drop_last();
    let told = records.drop_last();
    if i == batch.len() - 1 {
        assert(batch.take(i) =~= earlier);
        assert(records.take(i) =~= told);
        assert(batch.take(i + 1) =~= batch);
        assert(records.take(i + 1) =~= records);
        if i > 0 {
            law_no_wake_up_is_lost(state, earlier, told, i - 1);
        }
        if before.tasks.contains_key(batch[i]) {
            law_woken_are_ready(before.ready, records[i].cx_after.woken());
        }
        assert(after.ready.take(then.ready.len() as int) =~= then.ready);
        assert(then.ready.take(before.ready.len() as int) =~= before.ready);
    } else {
        law_no_wake_up_is_lost(state, earlier, told, i);
        assert(earlier.take(i) =~= batch.take(i));
        assert(told.take(i) =~= records.take(i));
        assert(earlier.take(i + 1) =~= batch.take(i + 1));
        assert(told.take(i + 1) =~= records.take(i + 1));
        let shorter = after_records(state, earlier, told);
        if shorter.tasks.contains_key(batch.last()) {
            law_woken_are_ready(shorter.ready, records.last().cx_after.woken());
        }
        assert(after.ready.take(then.ready.len() as int) =~= shorter.ready.take(
            then.ready.len() as int,
        ));
    }
}

} // verus!
