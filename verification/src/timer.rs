//! Timers of the single-threaded runtime.
//!
//! The wheel keeps the state of every timer in a slot of its own and the
//! pending ones in a heap as well. A [`Sleep`] names its slot. A slot is freed
//! once its timer has fired and its `Sleep` is gone, whichever comes last.

use vstd::prelude::*;

use crate::heap::{TimerEntry, TimerHeap};
use crate::task::Poll;

verus! {

/// The state of a single timer.
#[verifier::ext_equal]
pub struct TimerState<W> {
    /// When the timer fires, in nanoseconds.
    pub deadline: u128,
    /// Whether the timer has fired.
    pub completed: bool,
    /// The waker of the task that sleeps on the timer.
    pub waker: Option<W>,
    /// Whether the timer's `Sleep` is still around.
    pub held: bool,
}

/// The timer wheel that tracks all pending timers.
pub struct TimerWheel<W> {
    heap: TimerHeap<usize>,
    slots: Vec<Option<TimerState<W>>>,
    free: Vec<usize>,
}

/// A future that completes once its timer has fired.
pub struct Sleep {
    id: usize,
}

impl Sleep {
    /// The timer that this future waits for.
    pub closed spec fn id(&self) -> usize {
        self.id
    }
}

/// The timer is pending and its deadline is not after `now`.
pub open spec fn is_due<W>(timers: Map<usize, TimerState<W>>, now: u128, id: usize) -> bool {
    timers.contains_key(id) && !timers[id].completed && timers[id].deadline <= now
}

/// The timers that are due at `now`.
pub open spec fn due<W>(timers: Map<usize, TimerState<W>>, now: u128) -> Set<usize> {
    Set::new(|id: usize| is_due(timers, now, id))
}

/// The timers after those in `ids` have fired: they are completed and have
/// given up their wakers, and those without a `Sleep` are gone.
pub open spec fn fire<W>(timers: Map<usize, TimerState<W>>, ids: Set<usize>) -> Map<
    usize,
    TimerState<W>,
> {
    Map::new(
        |id: usize| timers.contains_key(id) && (ids.contains(id) ==> timers[id].held),
        |id: usize|
            if ids.contains(id) {
                TimerState { completed: true, waker: None, ..timers[id] }
            } else {
                timers[id]
            },
    )
}

/// The wakers stored with the timers `order`, in that order.
pub open spec fn stored_wakers<W>(timers: Map<usize, TimerState<W>>, order: Seq<usize>) -> Seq<W>
    decreases order.len(),
{
    if order.len() == 0 {
        Seq::empty()
    } else {
        let rest = stored_wakers(timers, order.drop_last());
        match timers[order.last()].waker {
            Some(waker) => rest.push(waker),
            None => rest,
        }
    }
}

/// `order` lists the timers that are due at `now`, each once, none of them
/// before one with an earlier deadline.
pub open spec fn in_firing_order<W>(
    timers: Map<usize, TimerState<W>>,
    now: u128,
    order: Seq<usize>,
) -> bool {
    &&& order.no_duplicates()
    &&& forall|id: usize| order.contains(id) <==> #[trigger] is_due(timers, now, id)
    &&& forall|i: int, j: int|
        0 <= i <= j < order.len() ==> timers[#[trigger] order[i]].deadline <= timers[
        #[trigger] order[j]].deadline
}

/// The timers after the timer `id` was registered.
pub open spec fn after_register<W>(
    timers: Map<usize, TimerState<W>>,
    id: usize,
    deadline: u128,
) -> Map<usize, TimerState<W>> {
    timers.insert(id, TimerState { deadline, completed: false, waker: None, held: true })
}

/// The timers after the `Sleep` of the timer `id` was given up.
pub open spec fn after_release<W>(timers: Map<usize, TimerState<W>>, id: usize) -> Map<
    usize,
    TimerState<W>,
> {
    if timers[id].completed {
        timers.remove(id)
    } else {
        timers.insert(id, TimerState { held: false, ..timers[id] })
    }
}

/// The timers after the `Sleep` of the timer `id` was polled with `waker`.
pub open spec fn after_sleep_poll<W>(
    timers: Map<usize, TimerState<W>>,
    id: usize,
    waker: W,
) -> Map<usize, TimerState<W>> {
    if timers[id].completed {
        timers
    } else {
        timers.insert(id, TimerState { waker: Some(waker), ..timers[id] })
    }
}

/// The time from `now` until the first pending timer, if there is one.
pub open spec fn is_next_timeout<W>(
    timers: Map<usize, TimerState<W>>,
    now: u128,
    next: Option<u128>,
) -> bool {
    match next {
        Some(left) => {
            &&& exists|id: usize| #[trigger]
                timers.contains_key(id) && !timers[id].completed && timers[id].deadline == now
                    + left
            &&& forall|id: usize| #[trigger]
                timers.contains_key(id) && !timers[id].completed ==> timers[id].deadline >= now
                    + left
        },
        None => forall|id: usize| #[trigger] timers.contains_key(id) ==> timers[id].completed,
    }
}

impl<W> View for TimerWheel<W> {
    type V = Map<usize, TimerState<W>>;

    /// The timers that have not fired, and those whose `Sleep` is around.
    closed spec fn view(&self) -> Map<usize, TimerState<W>> {
        Map::new(
            |id: usize| id < self.slots@.len() && self.slots@[id as int] is Some,
            |id: usize| self.slots@[id as int]->0,
        )
    }
}

impl<W> TimerWheel<W> {
    /// The heap holds exactly the timers that are not completed, and the free
    /// slots are free.
    pub closed spec fn wf(&self) -> bool {
        &&& self.heap.wf()
        &&& forall|e: TimerEntry<usize>| #[trigger]
            self.heap@.contains(e) ==> {
                &&& self.heap@.count(e) == 1
                &&& self@.contains_key(e.state)
                &&& !self@[e.state].completed
                &&& self@[e.state].deadline == e.deadline
            }
        &&& forall|id: usize| #[trigger]
            self@.contains_key(id) && !self@[id].completed ==> self.heap@.contains(
                TimerEntry { deadline: self@[id].deadline, state: id },
            )
        &&& forall|id: usize| #[trigger]
            self@.contains_key(id) && self@[id].completed ==> self@[id].held && self@[id].waker is None
        &&& self.free@.no_duplicates()
        &&& forall|i: int|
            0 <= i < self.free@.len() ==> (#[trigger] self.free@[i]) < self.slots@.len()
                && self.slots@[self.free@[i] as int] is None
    }

    /// A wheel without timers.
    pub fn new() -> (wheel: Self)
        ensures
            wheel.wf(),
            wheel@ == Map::<usize, TimerState<W>>::empty(),
    {
        let wheel = TimerWheel { heap: TimerHeap::new(), slots: Vec::new(), free: Vec::new() };
        assert(wheel@ =~= Map::<usize, TimerState<W>>::empty());
        wheel
    }

    /// Register a new timer and return a `Sleep` for it.
    pub fn register(&mut self, deadline: u128) -> (sleep: Sleep)
        requires
            old(self).wf(),
        ensures
            final(self).wf(),
            !old(self)@.contains_key(sleep.id()),
            final(self)@ == after_register(old(self)@, sleep.id(), deadline),
    {
        let state = TimerState { deadline, completed: false, waker: None, held: true };
        let ghost before = self@;
        let id: usize = match self.free.pop() {
            Some(id) => {
                self.slots[id] = Some(state);
                id
            },
            None => {
                let id: usize = self.slots.len();
                self.slots.push(Some(state));
                id
            },
        };
        assert(self@ =~= before.insert(id, state));
        let ghost heap = self.heap@;
        let ghost entry = TimerEntry { deadline, state: id };
        self.heap.push(TimerEntry { deadline, state: id });
        proof {
            assert(!heap.contains(entry));
            assert forall|e: TimerEntry<usize>| #[trigger] self.heap@.contains(e) implies {
                &&& self.heap@.count(e) == 1
                &&& self@.contains_key(e.state)
                &&& !self@[e.state].completed
                &&& self@[e.state].deadline == e.deadline
            } by {
                if e != entry {
                    assert(heap.contains(e));
                }
            }
            assert forall|other: usize| #[trigger]
                self@.contains_key(other) && !self@[other].completed implies self.heap@.contains(
                (TimerEntry { deadline: self@[other].deadline, state: other }),
            ) by {
                if other != id {
                    assert(heap.contains(TimerEntry { deadline: before[other].deadline, state: other }));
                }
            }
        }
        Sleep { id }
    }

    /// Fire a timer that is due, the earliest of them.
    fn fire_first(&mut self, now: u128) -> (fired: Option<(usize, Option<W>)>)
        requires
            old(self).wf(),
        ensures
            final(self).wf(),
            match fired {
                Some((id, waker)) => {
                    &&& is_due(old(self)@, now, id)
                    &&& forall|other: usize| #[trigger]
                        old(self)@.contains_key(other) && !old(self)@[other].completed ==> old(
                            self,
                        )@[id].deadline <= old(self)@[other].deadline
                    &&& waker == old(self)@[id].waker
                    &&& final(self)@ == fire(old(self)@, set![id])
                    &&& final(self).heap@.len() < old(self).heap@.len()
                },
                None => {
                    &&& final(self)@ == old(self)@
                    &&& final(self).heap@ == old(self).heap@
                    &&& forall|id: usize| !(#[trigger] is_due(old(self)@, now, id))
                },
            },
    {
        let ghost before = self@;
        let ghost heap = self.heap@;
        match self.heap.peek() {
            Some(entry) => {
                if entry.deadline > now {
                    proof {
                        assert forall|id: usize| !(#[trigger] is_due(before, now, id)) by {
                            if is_due(before, now, id) {
                                let e = TimerEntry { deadline: before[id].deadline, state: id };
                                assert(heap.contains(e));
                                assert(entry.deadline <= e.deadline);
                            }
                        }
                    }
                    return None;
                }
            },
            None => {
                proof {
                    assert forall|id: usize| !(#[trigger] is_due(before, now, id)) by {
                        if is_due(before, now, id) {
                            assert(heap.contains(
                                TimerEntry { deadline: before[id].deadline, state: id },
                            ));
                        }
                    }
                }
                return None;
            },
        }
        let popped = self.heap.pop();
        match popped {
            Some(entry) => {
                let id: usize = entry.state;
                assert(heap.contains(entry));
                assert(self@ =~= before);
                let mut waker: Option<W> = None;
                match self.slots[id].take() {
                    Some(state) => {
                        waker = state.waker;
                        if state.held {
                            self.slots[id] = Some(
                                TimerState {
                                    deadline: state.deadline,
                                    completed: true,
                                    waker: None,
                                    held: true,
                                },
                            );
                        } else {
                            self.free.push(id);
                        }
                    },
                    None => {},
                }
                proof {
                    assert(self@ =~= fire(before, set![id]));
                    assert forall|other: usize| #[trigger]
                        before.contains_key(other) && !before[other].completed implies before[id].deadline
                        <= before[other].deadline by {
                        let e = TimerEntry { deadline: before[other].deadline, state: other };
                        assert(heap.contains(e));
                        assert(entry.deadline <= e.deadline);
                    }
                    assert forall|e: TimerEntry<usize>| #[trigger] self.heap@.contains(e) implies {
                        &&& self.heap@.count(e) == 1
                        &&& self@.contains_key(e.state)
                        &&& !self@[e.state].completed
                        &&& self@[e.state].deadline == e.deadline
                    } by {
                        assert(heap.contains(e));
                        assert(e != entry);
                        assert(e.state != id);
                    }
                    assert forall|other: usize| #[trigger]
                        self@.contains_key(other)
                            && !self@[other].completed implies self.heap@.contains(
                        (TimerEntry { deadline: self@[other].deadline, state: other }),
                    ) by {
                        let e = TimerEntry { deadline: before[other].deadline, state: other };
                        assert(heap.contains(e));
                    }
                }
                Some((id, waker))
            },
            None => None,
        }
    }

    /// Fire all timers whose deadline has passed at `now`.
    ///
    /// The wakers that were stored with them come out for the caller to use,
    /// and beside them the time until the next timer fires, or `None` if no
    /// timer is pending.
    pub fn process(&mut self, now: u128) -> (fired: (Vec<W>, Option<u128>))
        requires
            old(self).wf(),
        ensures
            final(self).wf(),
            final(self)@ == fire(old(self)@, due(old(self)@, now)),
            exists|order: Seq<usize>| #[trigger]
                in_firing_order(old(self)@, now, order) && fired.0@ == stored_wakers(
                    old(self)@,
                    order,
                ),
            is_next_timeout(final(self)@, now, fired.1),
    {
        let ghost before = self@;
        let mut wakers: Vec<W> = Vec::new();
        let ghost mut order: Seq<usize> = Seq::empty();
        proof {
            assert(self@ =~= fire(before, order.to_set()));
        }
        loop
            invariant
                self.wf(),
                order.no_duplicates(),
                forall|id: usize| order.contains(id) ==> #[trigger] is_due(before, now, id),
                self@ == fire(before, order.to_set()),
                forall|i: int, j: int|
                    0 <= i <= j < order.len() ==> before[#[trigger] order[i]].deadline <= before[
                    #[trigger] order[j]].deadline,
                forall|i: int, id: usize|
                    0 <= i < order.len() && #[trigger] self@.contains_key(id)
                        && !self@[id].completed ==> before[#[trigger] order[i]].deadline
                        <= self@[id].deadline,
                wakers@ == stored_wakers(before, order),
            ensures
                forall|id: usize| !(#[trigger] is_due(self@, now, id)),
            decreases self.heap@.len(),
        {
            let ghost current = self@;
            match self.fire_first(now) {
                Some((id, waker)) => {
                    let ghost longer = order.push(id);
                    proof {
                        assert(!order.to_set().contains(id));
                        assert(longer.drop_last() =~= order);
                        order.lemma_push_to_set_commute(id);
                        assert(self@ =~= fire(before, longer.to_set()));
                        assert forall|other: usize| longer.contains(other) implies #[trigger] is_due(
                            before,
                            now,
                            other,
                        ) by {
                            if other != id {
                                assert(order.contains(other));
                            }
                        }
                        assert forall|i: int, other: usize|
                            0 <= i < longer.len() && #[trigger] self@.contains_key(other)
                                && !self@[other].completed implies before[#[trigger] longer[i]].deadline
                            <= self@[other].deadline by {
                            assert(current.contains_key(other) && !current[other].completed);
                            assert(current.contains_key(id) && !current[id].completed);
                        }
                        order = longer;
                    }
                    match waker {
                        Some(waker) => wakers.push(waker),
                        None => {},
                    }
                },
                None => {
                    break;
                },
            }
        }
        proof {
            assert forall|id: usize| order.contains(id) <==> #[trigger] is_due(before, now, id) by {
                if is_due(before, now, id) && !order.contains(id) {
                    assert(is_due(self@, now, id));
                }
            }
            assert(order.to_set() =~= due(before, now));
            assert(in_firing_order(before, now, order));
        }
        let next: Option<u128> = match self.heap.peek() {
            Some(entry) => {
                proof {
                    assert(self@.contains_key(entry.state));
                    assert(!is_due(self@, now, entry.state));
                    assert forall|id: usize| #[trigger]
                        self@.contains_key(id) && !self@[id].completed implies self@[id].deadline
                        >= entry.deadline by {
                        let e = TimerEntry { deadline: self@[id].deadline, state: id };
                        assert(self.heap@.contains(e));
                        assert(entry.deadline <= e.deadline);
                    }
                }
                Some(entry.deadline - now)
            },
            None => None,
        };
        proof {
            if next is None {
                assert forall|id: usize| #[trigger] self@.contains_key(id) implies self@[id].completed by {
                    if !self@[id].completed {
                        assert(self.heap@.contains(
                            TimerEntry { deadline: self@[id].deadline, state: id },
                        ));
                    }
                }
            }
        }
        (wakers, next)
    }

    /// Whether timers are pending.
    pub fn has_pending(&self) -> (pending: bool)
        requires
            self.wf(),
        ensures
            pending == exists|id: usize| #[trigger] self@.contains_key(id) && !self@[id].completed,
    {
        let pending: bool = !self.heap.is_empty();
        proof {
            if pending {
                let e = self.heap@.choose();
                assert(self.heap@.contains(e));
                assert(self@.contains_key(e.state));
            } else {
                assert forall|id: usize| #[trigger] self@.contains_key(id) implies self@[id].completed by {
                    if !self@[id].completed {
                        assert(self.heap@.contains(
                            TimerEntry { deadline: self@[id].deadline, state: id },
                        ));
                    }
                }
            }
        }
        pending
    }

    /// Give up a `Sleep`.
    ///
    /// A timer that is still pending stays so and fires in its time; one that
    /// has fired leaves its slot.
    pub fn release(&mut self, sleep: Sleep)
        requires
            old(self).wf(),
            old(self)@.contains_key(sleep.id()),
        ensures
            final(self).wf(),
            final(self)@ == after_release(old(self)@, sleep.id()),
    {
        let ghost before = self@;
        let id: usize = sleep.id;
        match self.slots[id].take() {
            Some(state) => {
                if state.completed {
                    self.free.push(id);
                    assert(self@ =~= before.remove(id));
                } else {
                    self.slots[id] = Some(
                        TimerState {
                            deadline: state.deadline,
                            completed: false,
                            waker: state.waker,
                            held: false,
                        },
                    );
                    assert(self@ =~= before.insert(
                        id,
                        (TimerState { held: false, ..before[id] }),
                    ));
                }
            },
            None => {},
        }
    }
}

impl Sleep {
    /// Poll the timer: ready once it has fired, else the waker is stored in
    /// place of the one before, to be used when it fires.
    pub fn poll<W>(&mut self, wheel: &mut TimerWheel<W>, waker: W) -> (poll: Poll<()>)
        requires
            old(wheel).wf(),
            old(wheel)@.contains_key(old(self).id()),
        ensures
            final(wheel).wf(),
            final(self).id() == old(self).id(),
            poll is Ready <==> old(wheel)@[old(self).id()].completed,
            final(wheel)@ == after_sleep_poll(old(wheel)@, old(self).id(), waker),
    {
        let ghost before = wheel@;
        let id: usize = self.id;
        match wheel.slots[id].take() {
            Some(state) => {
                if state.completed {
                    wheel.slots[id] = Some(state);
                    assert(wheel@ =~= before);
                    Poll::Ready(())
                } else {
                    wheel.slots[id] = Some(
                        TimerState {
                            deadline: state.deadline,
                            completed: false,
                            waker: Some(waker),
                            held: state.held,
                        },
                    );
                    assert(wheel@ =~= before.insert(
                        id,
                        (TimerState { waker: Some(waker), ..before[id] }),
                    ));
                    Poll::Pending
                }
            },
            None => Poll::Pending,
        }
    }
}

/// No timer fires early, and none is late: after the timers that are due at
/// `now` have fired, a timer that was pending is completed exactly if its
/// deadline is not after `now`.
pub proof fn law_fires_in_time<W>(timers: Map<usize, TimerState<W>>, now: u128, id: usize)
    requires
        timers.contains_key(id),
        timers[id].held,
        !timers[id].completed,
    ensures
        fire(timers, due(timers, now)).contains_key(id),
        fire(timers, due(timers, now))[id].completed <==> timers[id].deadline <= now,
        fire(timers, due(timers, now))[id].deadline == timers[id].deadline,
{
}

/// A timer that is not due keeps its waker.
pub proof fn law_pending_timer_is_untouched<W>(
    timers: Map<usize, TimerState<W>>,
    now: u128,
    id: usize,
)
    requires
        timers.contains_key(id),
        timers[id].deadline > now,
    ensures
        fire(timers, due(timers, now)).contains_key(id),
        fire(timers, due(timers, now))[id] == timers[id],
{
}

/// The waker stored with a timer is among those stored with a list that has it.
proof fn lemma_stored_waker<W>(timers: Map<usize, TimerState<W>>, order: Seq<usize>, id: usize)
    requires
        order.contains(id),
        timers[id].waker is Some,
    ensures
        stored_wakers(timers, order).contains(timers[id].waker->0),
    decreases order.len(),
{
    let wakers = stored_wakers(timers, order);
    let at = choose|at: int| 0 <= at < order.len() && order[at] == id;
    let earlier = stored_wakers(timers, order.drop_last());
    if at == order.len() - 1 {
        assert(wakers.last() == timers[id].waker->0);
    } else {
        assert(order.drop_last()[at] == id);
        lemma_stored_waker(timers, order.drop_last(), id);
        let i = choose|i: int| 0 <= i < earlier.len() && earlier[i] == timers[id].waker->0;
        assert(wakers[i] == timers[id].waker->0);
    }
}

/// Whoever sleeps is woken: the waker of a timer that is due is among those that
/// come out when timers are fired.
pub proof fn law_sleeper_is_woken<W>(
    timers: Map<usize, TimerState<W>>,
    now: u128,
    order: Seq<usize>,
    id: usize,
)
    requires
        in_firing_order(timers, now, order),
        is_due(timers, now, id),
        timers[id].waker is Some,
    ensures
        stored_wakers(timers, order).contains(timers[id].waker->0),
{
    lemma_stored_waker(timers, order, id);
}

/// A sleep completes: a task that polled it and has to wait is woken, with the
/// waker of that poll, when timers are fired at its deadline or later, and then
/// finds it completed.
pub proof fn law_sleep_completes<W>(
    timers: Map<usize, TimerState<W>>,
    id: usize,
    waker: W,
    now: u128,
    order: Seq<usize>,
)
    requires
        timers.contains_key(id),
        timers[id].held,
        !timers[id].completed,
        timers[id].deadline <= now,
        in_firing_order(after_sleep_poll(timers, id, waker), now, order),
    ensures
        ({
            let waiting = after_sleep_poll(timers, id, waker);
            &&& stored_wakers(waiting, order).contains(waker)
            &&& fire(waiting, due(waiting, now)).contains_key(id)
            &&& fire(waiting, due(waiting, now))[id].completed
        }),
{
    let waiting = after_sleep_poll(timers, id, waker);
    assert(is_due(waiting, now, id));
    law_sleeper_is_woken(waiting, now, order, id);
}

/// A timer fires once: after those that are due have fired, none is due.
pub proof fn law_fires_once<W>(timers: Map<usize, TimerState<W>>, now: u128, id: usize)
    ensures
        !is_due(fire(timers, due(timers, now)), now, id),
{
}

/// The time until the next timer is exact: no timer is due before it has passed,
/// and one is due when it has.
pub proof fn law_next_timeout_is_exact<W>(
    timers: Map<usize, TimerState<W>>,
    now: u128,
    left: u128,
    later: u128,
)
    requires
        is_next_timeout(timers, now, Some(left)),
    ensures
        later < now + left ==> forall|id: usize| !(#[trigger] is_due(timers, later, id)),
        later >= now + left ==> exists|id: usize| #[trigger] is_due(timers, later, id),
{
    if later >= now + left {
        let id = choose|id: usize| #[trigger]
            timers.contains_key(id) && !timers[id].completed && timers[id].deadline == now + left;
        assert(is_due(timers, later, id));
    }
}

/// Something that happens to the timers.
pub enum TimerEvent<W> {
    /// A timer is registered.
    Register(usize, u128),
    /// The `Sleep` of a timer is polled.
    Poll(usize, W),
    /// The timers that are due at a time are fired.
    Process(u128),
    /// The `Sleep` of a timer is given up.
    Release(usize),
}

/// The timers after an event.
pub open spec fn after_timer_event<W>(
    timers: Map<usize, TimerState<W>>,
    event: TimerEvent<W>,
) -> Map<usize, TimerState<W>> {
    match event {
        TimerEvent::Register(id, deadline) => after_register(timers, id, deadline),
        TimerEvent::Poll(id, waker) => after_sleep_poll(timers, id, waker),
        TimerEvent::Process(now) => fire(timers, due(timers, now)),
        TimerEvent::Release(id) => after_release(timers, id),
    }
}

/// The timers after a history of events.
pub open spec fn after_timer_events<W>(
    timers: Map<usize, TimerState<W>>,
    events: Seq<TimerEvent<W>>,
) -> Map<usize, TimerState<W>>
    decreases events.len(),
{
    if events.len() == 0 {
        timers
    } else {
        after_timer_event(after_timer_events(timers, events.drop_last()), events.last())
    }
}

/// Each event of the history could happen when it did, and the `Sleep` of the timer
/// `kept` was not given up.
pub open spec fn all_timer_possible<W>(
    timers: Map<usize, TimerState<W>>,
    kept: usize,
    events: Seq<TimerEvent<W>>,
) -> bool
    decreases events.len(),
{
    events.len() > 0 ==> {
        let before = after_timer_events(timers, events.drop_last());
        &&& all_timer_possible(timers, kept, events.drop_last())
        &&& match events.last() {
            TimerEvent::Register(id, _) => !before.contains_key(id),
            TimerEvent::Poll(id, _) => before.contains_key(id),
            TimerEvent::Process(_) => true,
            TimerEvent::Release(id) => before.contains_key(id) && id != kept,
        }
    }
}

/// Timers were fired at `deadline` or later.
pub open spec fn was_processed<W>(events: Seq<TimerEvent<W>>, deadline: u128) -> bool
    decreases events.len(),
{
    events.len() > 0 && (was_processed(events.drop_last(), deadline) || (
    events.last() matches TimerEvent::Process(now) && now >= deadline))
}

/// The waker of the last poll of the `Sleep` of the timer `id`.
pub open spec fn last_poll<W>(events: Seq<TimerEvent<W>>, id: usize) -> Option<W>
    decreases events.len(),
{
    if events.len() == 0 {
        None
    } else {
        match events.last() {
            TimerEvent::Poll(polled, waker) if polled == id => Some(waker),
            _ => last_poll(events.drop_last(), id),
        }
    }
}

/// A sleep over its whole life: from its registration on it is completed exactly if
/// timers were fired at its deadline or later, whatever the time is now, and until
/// then the waker of its last poll is stored.
pub proof fn law_sleep_over_its_life<W>(
    timers: Map<usize, TimerState<W>>,
    id: usize,
    deadline: u128,
    events: Seq<TimerEvent<W>>,
)
    requires
        !timers.contains_key(id),
        all_timer_possible(after_register(timers, id, deadline), id, events),
    ensures
        ({
            let after = after_timer_events(after_register(timers, id, deadline), events);
            &&& after.contains_key(id)
            &&& after[id].held
            &&& after[id].deadline == deadline
            &&& after[id].completed <==> was_processed(events, deadline)
            &&& after[id].waker == if after[id].completed {
                None
            } else {
                last_poll(events, id)
            }
        }),
    decreases events.len(),
{
    if events.len() > 0 {
        law_sleep_over_its_life(timers, id, deadline, events.drop_last());
    }
}

/// A sleep that is completed stays so.
pub proof fn law_completed_sleep_stays<W>(
    events: Seq<TimerEvent<W>>,
    deadline: u128,
    count: int,
)
    requires
        0 <= count <= events.len(),
        was_processed(events.take(count), deadline),
    ensures
        was_processed(events, deadline),
    decreases events.len(),
{
    if count == events.len() {
        assert(events.take(count) =~= events);
    } else {
        assert(events.drop_last().take(count) =~= events.take(count));
        law_completed_sleep_stays(events.drop_last(), deadline, count);
    }
}

/// The wakers stored with two lists of timers, one after the other.
proof fn lemma_stored_wakers_concat<W>(
    timers: Map<usize, TimerState<W>>,
    a: Seq<usize>,
    b: Seq<usize>,
)
    ensures
        stored_wakers(timers, a + b) == stored_wakers(timers, a) + stored_wakers(timers, b),
    decreases b.len(),
{
    if b.len() == 0 {
        assert(a + b =~= a);
        assert(stored_wakers(timers, a) + stored_wakers(timers, b) =~= stored_wakers(timers, a));
    } else {
        lemma_stored_wakers_concat(timers, a, b.drop_last());
        assert((a + b).drop_last() =~= a + b.drop_last());
        assert(stored_wakers(timers, a + b) =~= stored_wakers(timers, a) + stored_wakers(
            timers,
            b,
        ));
    }
}

/// Over the whole life of a sleep its timer gives out a waker once, when timers are
/// fired for the first time at its deadline or later: the waker of its last poll,
/// between those that timers before and after it give out, and not those of
/// earlier polls. At any other time its timer is not among those that fire.
pub proof fn law_last_waker_comes_out_once<W>(
    timers: Map<usize, TimerState<W>>,
    id: usize,
    deadline: u128,
    events: Seq<TimerEvent<W>>,
    now: u128,
    order: Seq<usize>,
)
    requires
        !timers.contains_key(id),
        all_timer_possible(after_register(timers, id, deadline), id, events),
        in_firing_order(
            after_timer_events(after_register(timers, id, deadline), events),
            now,
            order,
        ),
    ensures
        ({
            let current = after_timer_events(after_register(timers, id, deadline), events);
            if deadline <= now && !was_processed(events, deadline) {
                exists|at: int|
                    {
                        &&& 0 <= at < order.len()
                        &&& #[trigger] order[at] == id
                        &&& !order.take(at).contains(id)
                        &&& !order.skip(at + 1).contains(id)
                        &&& stored_wakers(current, order) == stored_wakers(current, order.take(at))
                            + match last_poll(events, id) {
                            Some(waker) => seq![waker],
                            None => Seq::empty(),
                        } + stored_wakers(current, order.skip(at + 1))
                    }
            } else {
                !order.contains(id)
            }
        }),
{
    let current = after_timer_events(after_register(timers, id, deadline), events);
    law_sleep_over_its_life(timers, id, deadline, events);
    if deadline <= now && !was_processed(events, deadline) {
        assert(is_due(current, now, id));
        let at = choose|at: int| 0 <= at < order.len() && order[at] == id;
        let (before, behind) = (order.take(at), order.skip(at + 1));
        assert(order[at] == id);
        assert(!before.contains(id)) by {
            if before.contains(id) {
                let i = choose|i: int| 0 <= i < before.len() && before[i] == id;
                assert(order[i] == order[at]);
            }
        }
        assert(!behind.contains(id)) by {
            if behind.contains(id) {
                let i = choose|i: int| 0 <= i < behind.len() && behind[i] == id;
                assert(order[at + 1 + i] == order[at]);
            }
        }
        assert(order =~= before + (seq![id] + behind));
        lemma_stored_wakers_concat(current, before, seq![id] + behind);
        lemma_stored_wakers_concat(current, seq![id], behind);
        assert(seq![id].drop_last() =~= Seq::<usize>::empty());
        assert(stored_wakers(current, Seq::<usize>::empty()) =~= Seq::<W>::empty());
        let own = match last_poll(events, id) {
            Some(waker) => seq![waker],
            None => Seq::empty(),
        };
        assert(stored_wakers(current, seq![id]) =~= own);
        assert(stored_wakers(current, order) =~= stored_wakers(current, before) + own
            + stored_wakers(current, behind));
    } else {
        assert(!is_due(current, now, id));
    }
}

/// Timers fire in the order of their deadlines: of two that are due, the one with the
/// earlier deadline comes first. All that are due fire, once, and no other.
pub proof fn law_fires_in_order<W>(
    timers: Map<usize, TimerState<W>>,
    now: u128,
    order: Seq<usize>,
    i: int,
    j: int,
)
    requires
        in_firing_order(timers, now, order),
        0 <= i < order.len(),
        0 <= j < order.len(),
    ensures
        timers[order[i]].deadline < timers[order[j]].deadline ==> i < j,
        i != j ==> order[i] != order[j],
        timers.contains_key(order[i]),
        !timers[order[i]].completed,
        timers[order[i]].deadline <= now,
        forall|id: usize| #[trigger]
            timers.contains_key(id) && !timers[id].completed && timers[id].deadline <= now
                ==> order.contains(id),
{
    assert(order.contains(order[i]));
    assert(is_due(timers, now, order[i]));
    assert forall|id: usize| #[trigger]
        timers.contains_key(id) && !timers[id].completed && timers[id].deadline
            <= now implies order.contains(id) by {
        assert(is_due(timers, now, id));
    }
}

/// Only sleepers are woken: a waker that comes out was stored with one of the timers
/// that fire, and not more wakers come out than timers fire.
pub proof fn law_only_sleepers_are_woken<W>(
    timers: Map<usize, TimerState<W>>,
    order: Seq<usize>,
    k: int,
)
    requires
        0 <= k < stored_wakers(timers, order).len(),
    ensures
        stored_wakers(timers, order).len() <= order.len(),
        exists|i: int|
            0 <= i < order.len() && timers[#[trigger] order[i]].waker == Some(
                stored_wakers(timers, order)[k],
            ),
    decreases order.len(),
{
    let wakers = stored_wakers(timers, order);
    let earlier = order.drop_last();
    let before = stored_wakers(timers, earlier);
    if k < before.len() {
        law_only_sleepers_are_woken(timers, earlier, k);
        let i = choose|i: int|
            0 <= i < earlier.len() && timers[#[trigger] earlier[i]].waker == Some(before[k]);
        assert(timers[order[i]].waker == Some(wakers[k]));
    } else {
        assert(timers[order[order.len() - 1]].waker == Some(wakers[k]));
        if before.len() > 0 {
            law_only_sleepers_are_woken(timers, earlier, 0);
        }
    }
}

/// Firing timers touches only those that are due: any other stays as it is, one that
/// was given up is gone once it has fired, and none comes up.
pub proof fn law_firing_leaves_others_alone<W>(
    timers: Map<usize, TimerState<W>>,
    now: u128,
    id: usize,
)
    ensures
        ({
            let after = fire(timers, due(timers, now));
            &&& !timers.contains_key(id) ==> !after.contains_key(id)
            &&& timers.contains_key(id) && (timers[id].completed || timers[id].deadline > now)
                ==> after.contains_key(id) && after[id] == timers[id]
            &&& timers.contains_key(id) && !timers[id].completed && timers[id].deadline <= now ==> {
                &&& after.contains_key(id) <==> timers[id].held
                &&& timers[id].held ==> after[id].completed && after[id].waker is None
                    && after[id].held && after[id].deadline == timers[id].deadline
            }
        }),
{
}

/// Where no next timer is reported, none is pending: none ever comes due.
pub proof fn law_no_timeout_without_timers<W>(
    timers: Map<usize, TimerState<W>>,
    now: u128,
    later: u128,
    id: usize,
)
    requires
        is_next_timeout(timers, now, None),
    ensures
        !is_due(timers, later, id),
        timers.contains_key(id) ==> timers[id].completed,
{
}

/// A timer that is registered is pending until its deadline, with nobody sleeping on it
/// yet; the others stay as they are.
pub proof fn law_registered_timer_is_pending<W>(
    timers: Map<usize, TimerState<W>>,
    id: usize,
    deadline: u128,
    now: u128,
    other: usize,
)
    requires
        other != id,
    ensures
        ({
            let after = after_register(timers, id, deadline);
            &&& is_due(after, now, id) <==> deadline <= now
            &&& after.contains_key(id)
            &&& !after[id].completed
            &&& after[id].waker is None
            &&& after[id].held
            &&& after.contains_key(other) <==> timers.contains_key(other)
            &&& timers.contains_key(other) ==> after[other] == timers[other]
        }),
{
}

/// Giving up a sleep cancels nothing: a pending timer is due when it would have been,
/// and its waker still comes out; one that has fired is gone. The others stay as they
/// are.
pub proof fn law_given_up_sleep_still_fires<W>(
    timers: Map<usize, TimerState<W>>,
    id: usize,
    now: u128,
    other: usize,
)
    requires
        timers.contains_key(id),
        other != id,
    ensures
        ({
            let after = after_release(timers, id);
            &&& is_due(after, now, id) <==> is_due(timers, now, id)
            &&& timers[id].completed <==> !after.contains_key(id)
            &&& after.contains_key(id) ==> after[id].waker == timers[id].waker && !after[id].held
                && after[id].deadline == timers[id].deadline
            &&& after.contains_key(other) <==> timers.contains_key(other)
            &&& timers.contains_key(other) ==> after[other] == timers[other]
        }),
{
}

/// A poll stores its waker with a pending timer, in place of the one before, and changes
/// nothing else.
pub proof fn law_poll_stores_the_waker<W>(
    timers: Map<usize, TimerState<W>>,
    id: usize,
    waker: W,
    other: usize,
)
    requires
        timers.contains_key(id),
        other != id,
    ensures
        ({
            let after = after_sleep_poll(timers, id, waker);
            &&& after.contains_key(id)
            &&& !timers[id].completed ==> after[id].waker == Some(waker)
            &&& timers[id].completed ==> after[id].waker == timers[id].waker
            &&& after[id].completed == timers[id].completed
            &&& after[id].deadline == timers[id].deadline
            &&& after[id].held == timers[id].held
            &&& after.contains_key(other) <==> timers.contains_key(other)
            &&& timers.contains_key(other) ==> after[other] == timers[other]
        }),
{
}

} // verus!
