//! Tasks of the single-threaded runtime.
//!
//! A [`Task`] owns a future together with the id under which it is scheduled
//! and the waker that schedules it. What a task leaves for the one who waits
//! for it stands in a [`TaskState`].

use vstd::prelude::*;

verus! {

/// What a poll reports: the value, or that it is not there yet.
#[derive(Debug, PartialEq, Eq)]
pub enum Poll<T> {
    /// The value is there.
    Ready(T),
    /// The value is not there yet. The waker that was handed over will be
    /// used once it is worth polling again.
    Pending,
}

/// Schedules the task with a given id.
#[derive(Clone, Copy, Debug, PartialEq, Eq, Structural)]
pub struct Waker {
    /// The task that waking schedules.
    pub task_id: usize,
}

/// What a future gets along with a poll: the waker of its task, and a place
/// to use wakers, its own and those of other tasks.
pub struct Context {
    waker: Waker,
    woken: Vec<usize>,
}

impl Context {
    /// The waker of the task that is polled.
    pub closed spec fn own_waker(&self) -> Waker {
        self.waker
    }

    /// The tasks that were woken in the course of the poll, in order.
    pub closed spec fn woken(&self) -> Seq<usize> {
        self.woken@
    }

    /// The context for polling the task that `waker` schedules.
    pub fn from_waker(waker: Waker) -> (cx: Self)
        ensures
            cx.own_waker() == waker,
            cx.woken() == Seq::<usize>::empty(),
    {
        Context { waker, woken: Vec::new() }
    }

    /// The waker of the task that is polled.
    pub fn waker(&self) -> (waker: Waker)
        ensures
            waker == self.own_waker(),
    {
        self.waker
    }

    /// Use a waker: the task that it schedules becomes ready.
    pub fn wake(&mut self, waker: Waker)
        ensures
            final(self).own_waker() == old(self).own_waker(),
            final(self).woken() == old(self).woken().push(waker.task_id),
    {
        self.woken.push(waker.task_id);
    }

    /// The tasks that were woken, taken out of the context.
    pub(crate) fn into_woken(self) -> (woken: Vec<usize>)
        ensures
            woken@ == self.woken(),
    {
        self.woken
    }
}

/// A future as the executor sees it: something to poll until it is ready.
///
/// What a poll does is up to the implementor, who says so in `polled`.
pub trait TaskFuture: Sized {
    /// A poll can take the future `before` and the context `cx` to `after` and
    /// `cx_after` and report `poll`. Unless the implementor says more, it can do
    /// anything.
    open spec fn polled(
        before: Self,
        cx: Context,
        after: Self,
        cx_after: Context,
        poll: Poll<()>,
    ) -> bool {
        true
    }

    /// Poll the future.
    fn poll(&mut self, cx: &mut Context) -> (poll: Poll<()>)
        ensures
            Self::polled(*old(self), *old(cx), *final(self), *final(cx), poll),
    ;
}

/// A future that yields some times and then completes.
#[derive(Clone, Copy, Debug, PartialEq, Eq, Structural)]
pub struct YieldNow {
    /// How often it still yields.
    pub left: usize,
}

impl TaskFuture for YieldNow {
    /// While it yields it wakes its own task and is pending.
    open spec fn polled(
        before: Self,
        cx: Context,
        after: Self,
        cx_after: Context,
        poll: Poll<()>,
    ) -> bool {
        if before.left == 0 {
            &&& after == before
            &&& cx_after == cx
            &&& poll == Poll::Ready(())
        } else {
            &&& after.left == before.left - 1
            &&& cx_after.own_waker() == cx.own_waker()
            &&& cx_after.woken() == cx.woken().push(cx.own_waker().task_id)
            &&& poll == Poll::<()>::Pending
        }
    }

    fn poll(&mut self, cx: &mut Context) -> (poll: Poll<()>) {
        if self.left == 0 {
            Poll::Ready(())
        } else {
            self.left = self.left - 1;
            cx.wake(cx.waker());
            Poll::Pending
        }
    }
}

/// What a task leaves behind for its join handle.
#[verifier::ext_equal]
pub struct TaskState<T, W> {
    /// The result of the task, once it has completed.
    pub result: Option<T>,
    /// The waker of the one who waits for the result.
    pub waker: Option<W>,
}

/// The state after the task has completed with `result`.
pub open spec fn after_complete<T, W>(state: TaskState<T, W>, result: T) -> TaskState<T, W> {
    TaskState { result: Some(result), waker: None }
}

impl<T, W> TaskState<T, W> {
    /// The state of a task that has not completed and nobody waits for.
    pub fn new() -> (state: Self)
        ensures
            state == (TaskState::<T, W> { result: None, waker: None }),
    {
        TaskState { result: None, waker: None }
    }

    /// Store the result of the task. The waker of the one who waits for it,
    /// if there is one, comes out for the caller to use.
    pub fn complete(&mut self, result: T) -> (waiting: Option<W>)
        ensures
            waiting == old(self).waker,
            *final(self) == after_complete(*old(self), result),
    {
        self.result = Some(result);
        self.waker.take()
    }
}

/// What the future of a spawned task reports to the executor, from what the future
/// that was spawned reports, and whom it wakes: it is ready when that is, and then
/// the one who waits for the result is woken.
pub open spec fn wrapped_report<T, W>(state: TaskState<T, W>, polled: Poll<T>) -> (
    Poll<()>,
    Option<W>,
) {
    match polled {
        Poll::Ready(_) => (Poll::Ready(()), state.waker),
        Poll::Pending => (Poll::Pending, None),
    }
}

/// The state after a poll of the future of a spawned task: the result is stored
/// when it is there.
pub open spec fn after_wrapped<T, W>(state: TaskState<T, W>, polled: Poll<T>) -> TaskState<T, W> {
    match polled {
        Poll::Ready(result) => after_complete(state, result),
        Poll::Pending => state,
    }
}

/// Poll the future of a spawned task, from what the future that was spawned
/// reports: when that is ready, the result is stored before the task reports that
/// it is ready, and the waker of the one who waits for it comes out.
pub fn wrapped<T, W>(state: &mut TaskState<T, W>, polled: Poll<T>) -> (report: (Poll<()>, Option<W>))
    ensures
        report == wrapped_report(*old(state), polled),
        *final(state) == after_wrapped(*old(state), polled),
{
    match polled {
        Poll::Ready(result) => {
            let waiting = state.complete(result);
            (Poll::Ready(()), waiting)
        },
        Poll::Pending => (Poll::Pending, None),
    }
}

/// A spawned task that the executor can poll.
pub struct Task<F> {
    /// The future to be driven to completion.
    pub future: F,
    /// The id under which the task is scheduled.
    pub id: usize,
    /// The waker that schedules the task, built once and used for every poll.
    pub waker: Waker,
}

impl<F> Task<F> {
    /// A task that owns `future`.
    pub fn new(id: usize, future: F, waker: Waker) -> (task: Self)
        ensures
            task == (Task { future, id, waker }),
    {
        Task { future, id, waker }
    }

    /// The waker that schedules the task.
    pub fn waker(&self) -> (waker: &Waker)
        ensures
            *waker == self.waker,
    {
        &self.waker
    }
}

impl<F: TaskFuture> Task<F> {
    /// Poll the future of the task.
    pub fn poll(&mut self, cx: &mut Context) -> (poll: Poll<()>)
        ensures
            F::polled(old(self).future, *old(cx), final(self).future, *final(cx), poll),
            final(self).id == old(self).id,
            final(self).waker == old(self).waker,
    {
        self.future.poll(cx)
    }
}

/// Gives out task ids, one after the other.
pub struct TaskIds {
    next: usize,
}

impl View for TaskIds {
    type V = usize;

    /// The id that comes next.
    closed spec fn view(&self) -> usize {
        self.next
    }
}

impl TaskIds {
    /// The first id is zero.
    pub fn new() -> (ids: Self)
        ensures
            ids@ == 0,
    {
        TaskIds { next: 0 }
    }

    /// The next id. After the last one they start over.
    pub fn next_task_id(&mut self) -> (id: usize)
        ensures
            id == old(self)@,
            final(self)@ == old(self)@.wrapping_add(1),
    {
        let id: usize = self.next;
        self.next = id.wrapping_add(1);
        id
    }
}

/// What comes after `count` more ids were given out.
pub open spec fn id_after(next: usize, count: nat) -> usize
    decreases count,
{
    if count == 0 {
        next
    } else {
        id_after(next, (count - 1) as nat).wrapping_add(1)
    }
}

/// What comes after some ids, as a number.
proof fn lemma_id_after(next: usize, count: nat)
    ensures
        id_after(next, count) == (next + count) % (usize::MAX + 1),
    decreases count,
{
    let size = usize::MAX + 1;
    if count > 0 {
        lemma_id_after(next, (count - 1) as nat);
        let before = next + count - 1;
        assert((before + 1) % size == if before % size == size - 1 {
            0
        } else {
            before % size + 1
        }) by (nonlinear_arith)
            requires
                size > 1,
                before >= 0,
        ;
    } else {
        assert((next as int) % size == next) by (nonlinear_arith)
            requires
                0 <= next < size,
        ;
    }
}

/// Ids that are given out within one round are distinct.
pub proof fn law_ids_are_distinct(next: usize, i: nat, j: nat)
    requires
        i < j,
        j - i <= usize::MAX,
    ensures
        id_after(next, i) != id_after(next, j),
{
    lemma_id_after(next, i);
    lemma_id_after(next, j);
    let size = usize::MAX + 1;
    let a = next + i;
    let b = next + j;
    if a % size == b % size {
        vstd::arithmetic::div_mod::lemma_mod_equivalence(b, a, size);
        vstd::arithmetic::div_mod::lemma_small_mod((b - a) as nat, size as nat);
    }
}

/// A waker is used once: when a task completes, the waker of the one who waits
/// leaves the state.
pub proof fn law_waiter_leaves_with_the_result<T, W>(state: TaskState<T, W>, result: T)
    ensures
        after_complete(state, result).waker is None,
        after_complete(state, result).result == Some(result),
{
}

/// A task ends with its future, and not before: it reports that it is ready exactly
/// when the future does, and then the result is there for the handle. Whoever waits
/// is woken exactly then, and goes on waiting otherwise.
pub proof fn law_task_ends_with_its_future<T, W>(state: TaskState<T, W>, polled: Poll<T>)
    requires
        state.result is None,
    ensures
        wrapped_report(state, polled).0 is Ready <==> polled is Ready,
        polled is Ready ==> after_wrapped(state, polled).result == Some(polled->Ready_0),
        polled is Pending ==> after_wrapped(state, polled).result is None,
        state.waker is None ==> wrapped_report(state, polled).1 is None && after_wrapped(
            state,
            polled,
        ).waker is None,
        state.waker is Some ==> {
            let woken = wrapped_report(state, polled).1;
            let left = after_wrapped(state, polled).waker;
            &&& polled is Ready ==> woken == state.waker && left is None
            &&& polled is Pending ==> woken is None && left == state.waker
        },
{
}

/// A future that yields is pending as often as it yields: with each poll it yields once
/// less and wakes its own task, once, and no other. At the end it is ready and wakes
/// nobody.
pub proof fn law_yield_wakes_its_own_task(
    before: YieldNow,
    cx: Context,
    after: YieldNow,
    cx_after: Context,
    poll: Poll<()>,
)
    requires
        YieldNow::polled(before, cx, after, cx_after, poll),
    ensures
        poll is Pending <==> before.left > 0,
        poll is Pending ==> {
            &&& after.left + 1 == before.left
            &&& cx_after.woken() == cx.woken() + seq![cx.own_waker().task_id]
        },
        poll is Ready ==> cx_after.woken() == cx.woken(),
{
    if poll is Pending {
        assert(cx_after.woken() =~= cx.woken() + seq![cx.own_waker().task_id]);
    }
}

} // verus!
