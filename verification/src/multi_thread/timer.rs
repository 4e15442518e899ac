//! Timers of the multi-threaded runtime.
//!
//! Any thread can register a timer: it goes to an inbox, which the I/O driver
//! empties into the heap before it fires what is due. The state of a timer is
//! shared by the task that sleeps and the driver that fires it: a flag, and an
//! [`AtomicWaker`] for the waker. What the two do with it is cut into steps,
//! each of which touches the state once.

use vstd::multiset::Multiset;
use vstd::prelude::*;

use crate::heap::{TimerEntry, TimerHeap};
use crate::task::Poll;

verus! {

/// No waker is stored.
pub const WAKER_EMPTY: u8 = 0;

/// A waker is stored.
pub const WAKER_STORED: u8 = 1;

/// Some thread has the cell to itself.
pub const WAKER_WAKING: u8 = 2;

/// A cell for at most one waker, which a thread gets to itself by an exchange
/// of its state.
#[verifier::ext_equal]
pub struct AtomicWaker<W> {
    /// `WAKER_EMPTY`, `WAKER_STORED` or `WAKER_WAKING`.
    pub state: u8,
    /// The waker.
    pub waker: Option<W>,
}

impl<W> AtomicWaker<W> {
    /// An empty cell.
    pub fn new() -> (cell: Self)
        ensures
            cell == (AtomicWaker::<W> { state: WAKER_EMPTY, waker: None }),
    {
        AtomicWaker { state: WAKER_EMPTY, waker: None }
    }

    /// Go from one state to another, if the cell is in the first. The exchange
    /// may fail for no reason, which `spurious` says.
    fn compare_exchange_weak(&mut self, from: u8, to: u8, spurious: bool) -> (exchanged: bool)
        ensures
            exchanged == (old(self).state == from && !spurious),
            final(self).waker == old(self).waker,
            final(self).state == if old(self).state == from && !spurious {
                to
            } else {
                old(self).state
            },
    {
        if self.state == from && !spurious {
            self.state = to;
            true
        } else {
            false
        }
    }
}

/// Where the storing of a waker stands.
pub enum RegisterState<W> {
    /// About to get hold of the empty cell.
    Claim(W),
    /// About to get hold of the cell, which has a waker, to replace it.
    Replace(W),
    /// About to put the waker in.
    Store(W),
    /// About to let go of the cell.
    Publish,
    /// Done.
    Done,
}

/// One step of storing a waker.
pub open spec fn register_step<W>(
    cell: AtomicWaker<W>,
    state: RegisterState<W>,
    spurious: bool,
) -> (AtomicWaker<W>, RegisterState<W>) {
    match state {
        RegisterState::Claim(waker) => if cell.state == WAKER_EMPTY && !spurious {
            (AtomicWaker { state: WAKER_WAKING, ..cell }, RegisterState::Store(waker))
        } else if cell.state == WAKER_STORED {
            (cell, RegisterState::Replace(waker))
        } else {
            (cell, RegisterState::Claim(waker))
        },
        RegisterState::Replace(waker) => if cell.state == WAKER_STORED && !spurious {
            (AtomicWaker { state: WAKER_WAKING, ..cell }, RegisterState::Store(waker))
        } else {
            (cell, RegisterState::Claim(waker))
        },
        RegisterState::Store(waker) => (
            AtomicWaker { waker: Some(waker), ..cell },
            RegisterState::Publish,
        ),
        RegisterState::Publish => (
            AtomicWaker { state: WAKER_STORED, ..cell },
            RegisterState::Done,
        ),
        RegisterState::Done => (cell, RegisterState::Done),
    }
}

/// Where the taking of a waker stands.
pub enum TakeState<W> {
    /// About to get hold of the cell, if it has a waker.
    Claim,
    /// About to take the waker out.
    Take,
    /// About to let go of the cell.
    Clear(Option<W>),
    /// Done, with the waker to use.
    Done(Option<W>),
}

/// One step of taking a waker.
pub open spec fn take_step<W>(cell: AtomicWaker<W>, state: TakeState<W>, spurious: bool) -> (
    AtomicWaker<W>,
    TakeState<W>,
) {
    match state {
        TakeState::Claim => if cell.state == WAKER_STORED && !spurious {
            (AtomicWaker { state: WAKER_WAKING, ..cell }, TakeState::Take)
        } else if cell.state == WAKER_EMPTY {
            (cell, TakeState::Done(None))
        } else {
            (cell, TakeState::Claim)
        },
        TakeState::Take => (AtomicWaker { waker: None, ..cell }, TakeState::Clear(cell.waker)),
        TakeState::Clear(waker) => (
            AtomicWaker { state: WAKER_EMPTY, ..cell },
            TakeState::Done(waker),
        ),
        TakeState::Done(waker) => (cell, TakeState::Done(waker)),
    }
}

impl<W> AtomicWaker<W> {
    /// Take one step of storing a waker.
    ///
    /// A thread that finds the cell in the hands of another tries again.
    pub fn register(&mut self, state: RegisterState<W>, spurious: bool) -> (next: RegisterState<W>)
        ensures
            (*final(self), next) == register_step(*old(self), state, spurious),
    {
        match state {
            RegisterState::Claim(waker) => {
                if self.compare_exchange_weak(WAKER_EMPTY, WAKER_WAKING, spurious) {
                    RegisterState::Store(waker)
                } else if self.state == WAKER_STORED {
                    RegisterState::Replace(waker)
                } else {
                    RegisterState::Claim(waker)
                }
            },
            RegisterState::Replace(waker) => {
                if self.compare_exchange_weak(WAKER_STORED, WAKER_WAKING, spurious) {
                    RegisterState::Store(waker)
                } else {
                    RegisterState::Claim(waker)
                }
            },
            RegisterState::Store(waker) => {
                self.waker = Some(waker);
                RegisterState::Publish
            },
            RegisterState::Publish => {
                self.state = WAKER_STORED;
                RegisterState::Done
            },
            RegisterState::Done => RegisterState::Done,
        }
    }

    /// Take one step of taking the waker out, for the caller to use.
    ///
    /// A thread that finds the cell in the hands of another tries again.
    pub fn wake(&mut self, state: TakeState<W>, spurious: bool) -> (next: TakeState<W>)
        ensures
            (*final(self), next) == take_step(*old(self), state, spurious),
    {
        match state {
            TakeState::Claim => {
                if self.compare_exchange_weak(WAKER_STORED, WAKER_WAKING, spurious) {
                    TakeState::Take
                } else if self.state == WAKER_EMPTY {
                    TakeState::Done(None)
                } else {
                    TakeState::Claim
                }
            },
            TakeState::Take => TakeState::Clear(self.waker.take()),
            TakeState::Clear(waker) => {
                self.state = WAKER_EMPTY;
                TakeState::Done(waker)
            },
            TakeState::Done(waker) => TakeState::Done(waker),
        }
    }
}

/// The state of a single timer.
#[verifier::ext_equal]
pub struct TimerState<W> {
    /// Whether the timer has fired.
    pub completed: bool,
    /// The waker of the task that sleeps on the timer.
    pub waker: AtomicWaker<W>,
}

impl<W> TimerState<W> {
    /// The state of a timer that has not fired.
    pub fn new() -> (timer: Self)
        ensures
            timer == (TimerState::<W> {
                completed: false,
                waker: AtomicWaker { state: WAKER_EMPTY, waker: None },
            }),
    {
        TimerState { completed: false, waker: AtomicWaker::new() }
    }
}

/// Where the poll of a sleep stands.
pub enum SleepState<W> {
    /// About to look whether the timer has fired.
    Check(W),
    /// Storing the waker.
    Register(RegisterState<W>),
    /// About to look again whether the timer has fired.
    Recheck,
    /// Done.
    Done(Poll<()>),
}

/// What a poll reports, from whether the timer has fired.
pub open spec fn fired_or_pending(completed: bool) -> Poll<()> {
    if completed {
        Poll::Ready(())
    } else {
        Poll::Pending
    }
}

/// One step of polling a sleep.
pub open spec fn sleep_step<W>(timer: TimerState<W>, state: SleepState<W>, spurious: bool) -> (
    TimerState<W>,
    SleepState<W>,
) {
    match state {
        SleepState::Check(waker) => (
            timer,
            if timer.completed {
                SleepState::Done(Poll::Ready(()))
            } else {
                SleepState::Register(RegisterState::Claim(waker))
            },
        ),
        SleepState::Register(register) => {
            let (cell, next) = register_step(timer.waker, register, spurious);
            (
                TimerState { waker: cell, ..timer },
                if next is Done {
                    SleepState::Recheck
                } else {
                    SleepState::Register(next)
                },
            )
        },
        SleepState::Recheck => (timer, SleepState::Done(fired_or_pending(timer.completed))),
        SleepState::Done(poll) => (timer, SleepState::Done(poll)),
    }
}

/// Where the firing of a timer stands.
pub enum FireState<W> {
    /// About to mark the timer as fired.
    Complete,
    /// Taking the waker.
    Wake(TakeState<W>),
}

/// One step of firing a timer.
pub open spec fn fire_step<W>(timer: TimerState<W>, state: FireState<W>, spurious: bool) -> (
    TimerState<W>,
    FireState<W>,
) {
    match state {
        FireState::Complete => (
            TimerState { completed: true, ..timer },
            FireState::Wake(TakeState::Claim),
        ),
        FireState::Wake(take) => {
            let (cell, next) = take_step(timer.waker, take, spurious);
            (TimerState { waker: cell, ..timer }, FireState::Wake(next))
        },
    }
}

impl<W> TimerState<W> {
    /// Take one step of firing the timer. Once it is done, the waker that was
    /// stored is there for the caller to use.
    pub fn fire(&mut self, state: FireState<W>, spurious: bool) -> (next: FireState<W>)
        ensures
            (*final(self), next) == fire_step(*old(self), state, spurious),
    {
        match state {
            FireState::Complete => {
                self.completed = true;
                FireState::Wake(TakeState::Claim)
            },
            FireState::Wake(take) => FireState::Wake(self.waker.wake(take, spurious)),
        }
    }
}

/// A future that completes once its timer has fired.
pub struct Sleep<H> {
    /// The handle to the timer's state.
    pub state: H,
}

impl<H> Sleep<H> {
    /// Take one step of polling the timer whose state is `timer`.
    ///
    /// The timer is looked at again after the waker was stored: it may have
    /// fired meanwhile, and then nobody uses the waker.
    pub fn poll<W>(&mut self, timer: &mut TimerState<W>, state: SleepState<W>, spurious: bool) -> (next:
        SleepState<W>)
        ensures
            (*final(timer), next) == sleep_step(*old(timer), state, spurious),
            final(self).state == old(self).state,
    {
        match state {
            SleepState::Check(waker) => {
                if timer.completed {
                    SleepState::Done(Poll::Ready(()))
                } else {
                    SleepState::Register(RegisterState::Claim(waker))
                }
            },
            SleepState::Register(register) => {
                match timer.waker.register(register, spurious) {
                    RegisterState::Done => SleepState::Recheck,
                    next => SleepState::Register(next),
                }
            },
            SleepState::Recheck => {
                if timer.completed {
                    SleepState::Done(Poll::Ready(()))
                } else {
                    SleepState::Done(Poll::Pending)
                }
            },
            SleepState::Done(poll) => SleepState::Done(poll),
        }
    }
}

/// The timers that are pending: in the inbox, or in the heap already.
pub struct TimerWheel<H> {
    inbox: Vec<TimerEntry<H>>,
    heap: TimerHeap<H>,
}

impl<H> View for TimerWheel<H> {
    type V = Multiset<TimerEntry<H>>;

    /// The pending timers.
    open spec fn view(&self) -> Multiset<TimerEntry<H>> {
        self.heap().add(self.inbox().to_multiset())
    }
}

/// The timers with a deadline that is not after `now`.
pub open spec fn due<H>(pending: Multiset<TimerEntry<H>>, now: u128) -> Multiset<TimerEntry<H>> {
    pending.filter(|e: TimerEntry<H>| e.deadline <= now)
}

/// The timers with a deadline after `now`.
pub open spec fn not_due<H>(pending: Multiset<TimerEntry<H>>, now: u128) -> Multiset<
    TimerEntry<H>,
> {
    pending.filter(|e: TimerEntry<H>| e.deadline > now)
}

/// `order` lists the timers that are due, none of them before one with an
/// earlier deadline.
pub open spec fn in_firing_order<H>(
    pending: Multiset<TimerEntry<H>>,
    now: u128,
    order: Seq<TimerEntry<H>>,
) -> bool {
    &&& order.to_multiset() == due(pending, now)
    &&& forall|i: int, j: int|
        0 <= i <= j < order.len() ==> (#[trigger] order[i]).deadline <= (
        #[trigger] order[j]).deadline
}

/// The handles of some timers.
pub open spec fn handles<H>(entries: Seq<TimerEntry<H>>) -> Seq<H> {
    entries.map_values(|e: TimerEntry<H>| e.state)
}

/// The time from `now` until the first pending timer, if there is one.
pub open spec fn is_next_timeout<H>(
    pending: Multiset<TimerEntry<H>>,
    now: u128,
    next: Option<u128>,
) -> bool {
    match next {
        Some(left) => {
            &&& exists|e: TimerEntry<H>| #[trigger] pending.contains(e) && e.deadline == now + left
            &&& forall|e: TimerEntry<H>| #[trigger] pending.contains(e) ==> e.deadline >= now + left
        },
        None => pending.len() == 0,
    }
}

impl<H> TimerWheel<H> {
    /// The timers that were registered since the inbox was last emptied.
    pub closed spec fn inbox(&self) -> Seq<TimerEntry<H>> {
        self.inbox@
    }

    /// The timers that are in the heap already.
    pub closed spec fn heap(&self) -> Multiset<TimerEntry<H>> {
        self.heap@
    }

    /// The heap is in order.
    pub closed spec fn wf(&self) -> bool {
        self.heap.wf()
    }

    /// A wheel without timers.
    pub fn new() -> (wheel: Self)
        ensures
            wheel.wf(),
            wheel.inbox() == Seq::<TimerEntry<H>>::empty(),
            wheel.heap() == Multiset::<TimerEntry<H>>::empty(),
            wheel@ == Multiset::<TimerEntry<H>>::empty(),
    {
        let wheel = TimerWheel { inbox: Vec::new(), heap: TimerHeap::new() };
        proof {
            wheel.inbox@.to_multiset_ensures();
            assert(wheel@ =~= Multiset::<TimerEntry<H>>::empty());
        }
        wheel
    }

    /// Register a new timer, whose state is found by `state`, and return a
    /// `Sleep` for it. The timer goes to the inbox; the heap is not touched.
    pub fn register(&mut self, deadline: u128, state: H) -> (sleep: Sleep<H>) where H: Clone
        requires
            old(self).wf(),
        ensures
            final(self).wf(),
            final(self).inbox() == old(self).inbox().push(TimerEntry { deadline, state }),
            final(self).heap() == old(self).heap(),
            final(self)@ == old(self)@.insert(TimerEntry { deadline, state }),
            cloned(state, sleep.state),
    {
        let ghost before = self.inbox@;
        let sleep = Sleep { state: state.clone() };
        self.inbox.push(TimerEntry { deadline, state });
        proof {
            before.to_multiset_ensures();
            assert(self@ =~= old(self)@.insert(TimerEntry { deadline, state }));
        }
        sleep
    }

    /// Whether timers are pending.
    pub fn has_pending(&self) -> (pending: bool)
        ensures
            pending == (self@.len() > 0),
    {
        proof {
            self.inbox@.to_multiset_ensures();
        }
        !self.heap.is_empty() || !self.inbox.is_empty()
    }

    /// Put the timers of the inbox into the heap.
    fn drain_inbox(&mut self)
        requires
            old(self).wf(),
        ensures
            final(self).wf(),
            final(self)@ == old(self)@,
            final(self).heap@ == final(self)@,
            final(self).inbox@.len() == 0,
    {
        loop
            invariant
                self.wf(),
                self@ == old(self)@,
            ensures
                self.inbox@.len() == 0,
            decreases self.inbox@.len(),
        {
            let ghost before = *self;
            match self.inbox.pop() {
                Some(entry) => {
                    self.heap.push(entry);
                    proof {
                        self.inbox@.to_multiset_ensures();
                        assert(before.inbox@ =~= self.inbox@.push(entry));
                        assert(self@ =~= before@);
                    }
                },
                None => {
                    break;
                },
            }
        }
        proof {
            self.inbox@.to_multiset_ensures();
            assert(self.heap@ =~= self@);
        }
    }

    /// Take out all timers whose deadline has passed at `now`, for the caller to
    /// fire.
    ///
    /// Beside their handles comes the time until the next timer fires, or `None`
    /// if no timer is pending.
    pub fn process(&mut self, now: u128) -> (fired: (Vec<H>, Option<u128>))
        requires
            old(self).wf(),
        ensures
            final(self).wf(),
            final(self).inbox() == Seq::<TimerEntry<H>>::empty(),
            final(self)@ == not_due(old(self)@, now),
            exists|order: Seq<TimerEntry<H>>| #[trigger]
                in_firing_order(old(self)@, now, order) && fired.0@ == handles(order),
            is_next_timeout(final(self)@, now, fired.1),
    {
        self.drain_inbox();
        let ghost all = self@;
        let mut fired: Vec<H> = Vec::new();
        let ghost mut order: Seq<TimerEntry<H>> = Seq::empty();
        let mut next: Option<u128> = None;
        proof {
            order.to_multiset_ensures();
            assert(self.heap@.add(order.to_multiset()) =~= all);
            assert(fired@ =~= handles(order));
        }
        loop
            invariant_except_break
                next is None,
            invariant
                self.wf(),
                self.inbox@.len() == 0,
                self.heap@.add(order.to_multiset()) == all,
                fired@ == handles(order),
                forall|i: int| 0 <= i < order.len() ==> (#[trigger] order[i]).deadline <= now,
                forall|i: int, j: int|
                    0 <= i <= j < order.len() ==> (#[trigger] order[i]).deadline <= (
                    #[trigger] order[j]).deadline,
                forall|i: int, e: TimerEntry<H>|
                    0 <= i < order.len() && #[trigger] self.heap@.contains(e) ==> (
                    #[trigger] order[i]).deadline <= e.deadline,
            ensures
                forall|e: TimerEntry<H>| #[trigger] self.heap@.contains(e) ==> e.deadline > now,
                is_next_timeout(self.heap@, now, next),
            decreases self.heap@.len(),
        {
            match self.heap.peek() {
                Some(entry) => {
                    if entry.deadline > now {
                        next = Some(entry.deadline - now);
                        assert(self.heap@.contains(*entry));
                        break;
                    }
                },
                None => {
                    break;
                },
            }
            let ghost heap = self.heap@;
            match self.heap.pop() {
                Some(entry) => {
                    proof {
                        let longer = order.push(entry);
                        order.to_multiset_ensures();
                        assert(self.heap@.add(longer.to_multiset()) =~= all);
                        assert(handles(longer) =~= handles(order).push(entry.state));
                        assert forall|i: int, e: TimerEntry<H>|
                            0 <= i < longer.len() && #[trigger] self.heap@.contains(e) implies (
                        #[trigger] longer[i]).deadline <= e.deadline by {
                            assert(heap.contains(e));
                        }
                        assert(heap.contains(entry));
                        order = longer;
                    }
                    fired.push(entry.state);
                },
                None => {},
            }
        }
        proof {
            self.inbox@.to_multiset_ensures();
            order.to_multiset_ensures();
            assert(self@ =~= self.heap@);
            assert forall|e: TimerEntry<H>| order.to_multiset().count(e) > 0 implies e.deadline
                <= now by {
                assert(order.to_multiset().contains(e));
                assert(order.contains(e));
            }
            assert forall|e: TimerEntry<H>| self.heap@.count(e) > 0 implies e.deadline > now by {
                assert(self.heap@.contains(e));
            }
            assert(self@ =~= not_due(all, now));
            assert(order.to_multiset() =~= due(all, now));
            assert(in_firing_order(all, now, order));
        }
        (fired, next)
    }
}

/// Some thread has the cell to itself: it stores a waker.
pub open spec fn storing<W>(state: RegisterState<W>) -> bool {
    state is Store || state is Publish
}

/// Some thread has the cell to itself: it takes the waker.
pub open spec fn taking<W>(state: TakeState<W>) -> bool {
    state is Take || state is Clear
}

/// A cell and the threads at work on it.
#[verifier::ext_equal]
pub struct CellSystem<W> {
    /// The cell.
    pub cell: AtomicWaker<W>,
    /// The threads that store a waker.
    pub registers: Seq<RegisterState<W>>,
    /// The threads that take the waker.
    pub takes: Seq<TakeState<W>>,
}

/// The number of threads among `registers` that have the cell to themselves.
pub open spec fn storing_count<W>(registers: Seq<RegisterState<W>>) -> nat
    decreases registers.len(),
{
    if registers.len() == 0 {
        0
    } else {
        storing_count(registers.drop_last()) + if storing(registers.last()) {
            1nat
        } else {
            0nat
        }
    }
}

/// The number of threads among `takes` that have the cell to themselves.
pub open spec fn taking_count<W>(takes: Seq<TakeState<W>>) -> nat
    decreases takes.len(),
{
    if takes.len() == 0 {
        0
    } else {
        taking_count(takes.drop_last()) + if taking(takes.last()) {
            1nat
        } else {
            0nat
        }
    }
}

/// What holds of a cell at all times: one thread has it to itself exactly while
/// its state says so, and otherwise the state tells whether there is a waker.
pub open spec fn cell_consistent<W>(system: CellSystem<W>) -> bool {
    &&& system.cell.state <= WAKER_WAKING
    &&& storing_count(system.registers) + taking_count(system.takes) == if system.cell.state
        == WAKER_WAKING {
        1nat
    } else {
        0nat
    }
    &&& system.cell.state == WAKER_STORED ==> system.cell.waker is Some
    &&& system.cell.state == WAKER_EMPTY ==> system.cell.waker is None
    &&& forall|i: int|
        0 <= i < system.registers.len() && (#[trigger] system.registers[i]) is Publish
            ==> system.cell.waker is Some
    &&& forall|i: int|
        0 <= i < system.takes.len() && (#[trigger] system.takes[i]) is Take
            ==> system.cell.waker is Some
    &&& forall|i: int|
        0 <= i < system.takes.len() && (#[trigger] system.takes[i]) is Clear
            ==> system.cell.waker is None && system.takes[i]->Clear_0 is Some
}

/// The system after a step of one of the threads that store a waker.
pub open spec fn after_register<W>(system: CellSystem<W>, i: int, spurious: bool) -> CellSystem<
    W,
> {
    let (cell, next) = register_step(system.cell, system.registers[i], spurious);
    CellSystem { cell, registers: system.registers.update(i, next), ..system }
}

/// The system after a step of one of the threads that take the waker.
pub open spec fn after_taking<W>(system: CellSystem<W>, i: int, spurious: bool) -> CellSystem<W> {
    let (cell, next) = take_step(system.cell, system.takes[i], spurious);
    CellSystem { cell, takes: system.takes.update(i, next), ..system }
}

/// How a move of one thread changes the number of those that store.
proof fn lemma_storing_count<W>(
    registers: Seq<RegisterState<W>>,
    i: int,
    state: RegisterState<W>,
)
    requires
        0 <= i < registers.len(),
    ensures
        storing_count(registers.update(i, state)) == storing_count(registers) - (if storing(
            registers[i],
        ) {
            1int
        } else {
            0int
        }) + (if storing(state) {
            1int
        } else {
            0int
        }),
        storing(registers[i]) ==> storing_count(registers) >= 1,
    decreases registers.len(),
{
    if i == registers.len() - 1 {
        assert(registers.update(i, state).drop_last() =~= registers.drop_last());
    } else {
        lemma_storing_count(registers.drop_last(), i, state);
        assert(registers.update(i, state).drop_last() =~= registers.drop_last().update(i, state));
    }
}

/// How a move of one thread changes the number of those that take.
proof fn lemma_taking_count<W>(takes: Seq<TakeState<W>>, i: int, state: TakeState<W>)
    requires
        0 <= i < takes.len(),
    ensures
        taking_count(takes.update(i, state)) == taking_count(takes) - (if taking(takes[i]) {
            1int
        } else {
            0int
        }) + (if taking(state) {
            1int
        } else {
            0int
        }),
        taking(takes[i]) ==> taking_count(takes) >= 1,
    decreases takes.len(),
{
    if i == takes.len() - 1 {
        assert(takes.update(i, state).drop_last() =~= takes.drop_last());
    } else {
        lemma_taking_count(takes.drop_last(), i, state);
        assert(takes.update(i, state).drop_last() =~= takes.drop_last().update(i, state));
    }
}

/// Two threads that store are counted twice.
proof fn lemma_two_storing<W>(registers: Seq<RegisterState<W>>, i: int, j: int)
    requires
        0 <= i < registers.len(),
        0 <= j < registers.len(),
        i != j,
        storing(registers[i]),
        storing(registers[j]),
    ensures
        storing_count(registers) >= 2,
{
    let without = registers.update(i, RegisterState::Done);
    lemma_storing_count(registers, i, RegisterState::Done);
    lemma_storing_count(without, j, RegisterState::Done);
}

/// Two threads that take are counted twice.
proof fn lemma_two_taking<W>(takes: Seq<TakeState<W>>, i: int, j: int)
    requires
        0 <= i < takes.len(),
        0 <= j < takes.len(),
        i != j,
        taking(takes[i]),
        taking(takes[j]),
    ensures
        taking_count(takes) >= 2,
{
    let without = takes.update(i, TakeState::Claim);
    lemma_taking_count(takes, i, TakeState::Claim);
    lemma_taking_count(without, j, TakeState::Claim);
}

/// However the steps of the threads are interleaved, a step of one that stores
/// a waker keeps the cell consistent.
proof fn lemma_register_keeps_cell<W>(system: CellSystem<W>, i: int, spurious: bool)
    requires
        cell_consistent(system),
        0 <= i < system.registers.len(),
    ensures
        cell_consistent(after_register(system, i, spurious)),
{
    let next = after_register(system, i, spurious);
    lemma_storing_count(system.registers, i, next.registers[i]);
    assert forall|j: int|
        0 <= j < next.registers.len() && (
        #[trigger] next.registers[j]) is Publish implies next.cell.waker is Some by {
        if j != i && storing(system.registers[i]) {
            lemma_two_storing(system.registers, i, j);
        }
    }
    assert forall|j: int|
        0 <= j < next.takes.len() && (
        #[trigger] next.takes[j]) is Take implies next.cell.waker is Some by {
        lemma_taking_count(system.takes, j, TakeState::Claim);
    }
    assert forall|j: int|
        0 <= j < next.takes.len() && (
        #[trigger] next.takes[j]) is Clear implies next.cell.waker is None
        && next.takes[j]->Clear_0 is Some by {
        lemma_taking_count(system.takes, j, TakeState::Claim);
    }
}

/// However the steps of the threads are interleaved, a step of one that takes
/// the waker keeps the cell consistent.
proof fn lemma_wake_keeps_cell<W>(system: CellSystem<W>, i: int, spurious: bool)
    requires
        cell_consistent(system),
        0 <= i < system.takes.len(),
    ensures
        cell_consistent(after_taking(system, i, spurious)),
{
    let next = after_taking(system, i, spurious);
    lemma_taking_count(system.takes, i, next.takes[i]);
    assert forall|j: int|
        0 <= j < next.registers.len() && (
        #[trigger] next.registers[j]) is Publish implies next.cell.waker is Some by {
        lemma_storing_count(system.registers, j, RegisterState::Done);
    }
    assert forall|j: int|
        0 <= j < next.takes.len() && (
        #[trigger] next.takes[j]) is Take implies next.cell.waker is Some by {
        if j != i && taking(system.takes[i]) {
            lemma_two_taking(system.takes, i, j);
        }
    }
    assert forall|j: int|
        0 <= j < next.takes.len() && (
        #[trigger] next.takes[j]) is Clear implies next.cell.waker is None
        && next.takes[j]->Clear_0 is Some by {
        if j != i && taking(system.takes[i]) {
            lemma_two_taking(system.takes, i, j);
        }
    }
}

/// Something that happens to a cell.
pub enum CellEvent<W> {
    /// A thread starts to store a waker.
    Register(W),
    /// A thread starts to take the waker.
    Wake,
    /// A thread that stores a waker takes a step.
    RegisterStep(int, bool),
    /// A thread that takes the waker takes a step.
    WakeStep(int, bool),
}

/// The event can happen: only threads that exist take steps.
pub open spec fn cell_possible<W>(system: CellSystem<W>, event: CellEvent<W>) -> bool {
    match event {
        CellEvent::RegisterStep(i, _) => 0 <= i < system.registers.len(),
        CellEvent::WakeStep(i, _) => 0 <= i < system.takes.len(),
        _ => true,
    }
}

/// The cell after an event.
pub open spec fn after_cell_event<W>(system: CellSystem<W>, event: CellEvent<W>) -> CellSystem<W> {
    match event {
        CellEvent::Register(waker) => CellSystem {
            registers: system.registers.push(RegisterState::Claim(waker)),
            ..system
        },
        CellEvent::Wake => CellSystem { takes: system.takes.push(TakeState::Claim), ..system },
        CellEvent::RegisterStep(i, spurious) => after_register(system, i, spurious),
        CellEvent::WakeStep(i, spurious) => after_taking(system, i, spurious),
    }
}

/// The cell after a history of events.
pub open spec fn after_cell_events<W>(events: Seq<CellEvent<W>>) -> CellSystem<W>
    decreases events.len(),
{
    if events.len() == 0 {
        CellSystem {
            cell: AtomicWaker { state: WAKER_EMPTY, waker: None },
            registers: Seq::empty(),
            takes: Seq::empty(),
        }
    } else {
        after_cell_event(after_cell_events(events.drop_last()), events.last())
    }
}

/// Each event of the history could happen when it did.
pub open spec fn all_cell_possible<W>(events: Seq<CellEvent<W>>) -> bool
    decreases events.len(),
{
    events.len() > 0 ==> all_cell_possible(events.drop_last()) && cell_possible(
        after_cell_events(events.drop_last()),
        events.last(),
    )
}

/// However the steps of any number of threads are interleaved, the cell is
/// consistent.
pub proof fn law_cell_always_consistent<W>(events: Seq<CellEvent<W>>)
    requires
        all_cell_possible(events),
    ensures
        cell_consistent(after_cell_events(events)),
    decreases events.len(),
{
    if events.len() > 0 {
        let before = after_cell_events(events.drop_last());
        let next = after_cell_events(events);
        law_cell_always_consistent(events.drop_last());
        match events.last() {
            CellEvent::Register(_) => {
                assert(next.registers.drop_last() =~= before.registers);
                assert forall|i: int|
                    0 <= i < next.registers.len() && (
                    #[trigger] next.registers[i]) is Publish implies next.cell.waker is Some by {
                    assert(before.registers[i] is Publish);
                }
            },
            CellEvent::Wake => {
                assert(next.takes.drop_last() =~= before.takes);
                assert forall|i: int|
                    0 <= i < next.takes.len() && (
                    #[trigger] next.takes[i]) is Take implies next.cell.waker is Some by {
                    assert(before.takes[i] is Take);
                }
                assert forall|i: int|
                    0 <= i < next.takes.len() && (
                    #[trigger] next.takes[i]) is Clear implies next.cell.waker is None
                    && next.takes[i]->Clear_0 is Some by {
                    assert(before.takes[i] is Clear);
                }
            },
            CellEvent::RegisterStep(i, spurious) => {
                lemma_register_keeps_cell(before, i, spurious);
            },
            CellEvent::WakeStep(i, spurious) => {
                lemma_wake_keeps_cell(before, i, spurious);
            },
        }
    }
}

/// Only one thread ever has the cell to itself.
pub proof fn law_cell_is_exclusive<W>(events: Seq<CellEvent<W>>, i: int, j: int)
    requires
        all_cell_possible(events),
    ensures
        ({
            let system = after_cell_events(events);
            &&& 0 <= i < system.registers.len() && 0 <= j < system.registers.len() && storing(
                system.registers[i],
            ) && storing(system.registers[j]) ==> i == j
            &&& 0 <= i < system.takes.len() && 0 <= j < system.takes.len() && taking(
                system.takes[i],
            ) && taking(system.takes[j]) ==> i == j
            &&& !(0 <= i < system.registers.len() && 0 <= j < system.takes.len() && storing(
                system.registers[i],
            ) && taking(system.takes[j]))
        }),
{
    law_cell_always_consistent(events);
    lemma_cell_is_exclusive(after_cell_events(events), i, j);
}

/// Only one thread has a consistent cell to itself.
proof fn lemma_cell_is_exclusive<W>(system: CellSystem<W>, i: int, j: int)
    requires
        cell_consistent(system),
    ensures
        0 <= i < system.registers.len() && 0 <= j < system.registers.len() && storing(
            system.registers[i],
        ) && storing(system.registers[j]) ==> i == j,
        0 <= i < system.takes.len() && 0 <= j < system.takes.len() && taking(system.takes[i])
            && taking(system.takes[j]) ==> i == j,
        !(0 <= i < system.registers.len() && 0 <= j < system.takes.len() && storing(
            system.registers[i],
        ) && taking(system.takes[j])),
{
    if 0 <= i < system.registers.len() {
        lemma_storing_count(system.registers, i, RegisterState::Done);
    }
    if 0 <= j < system.takes.len() {
        lemma_taking_count(system.takes, j, TakeState::Claim);
    }
    if 0 <= i < system.registers.len() && 0 <= j < system.registers.len() && i != j && storing(
        system.registers[i],
    ) && storing(system.registers[j]) {
        lemma_two_storing(system.registers, i, j);
    }
    if 0 <= i < system.takes.len() && 0 <= j < system.takes.len() && i != j && taking(
        system.takes[i],
    ) && taking(system.takes[j]) {
        lemma_two_taking(system.takes, i, j);
    }
}

/// A timer, the task that polls its sleep with `waker`, and the I/O driver that
/// fires it.
#[verifier::ext_equal]
pub struct SleepSystem<W> {
    /// The timer.
    pub timer: TimerState<W>,
    /// The waker of the task.
    pub waker: W,
    /// Where the poll stands.
    pub sleep: SleepState<W>,
    /// Where the firing stands.
    pub fire: FireState<W>,
}

/// A step in the life of a timer.
pub enum SleepEvent<W> {
    /// The task, whose poll is done, polls again with a waker.
    Poll(W),
    /// The task takes a step of its poll.
    Sleep(bool),
    /// The driver takes a step of firing the timer.
    Fire(bool),
}

/// A timer that was just registered, and a task that is about to poll it.
pub open spec fn fresh_sleep<W>(waker: W) -> SleepSystem<W> {
    SleepSystem {
        timer: TimerState {
            completed: false,
            waker: AtomicWaker { state: WAKER_EMPTY, waker: None },
        },
        waker,
        sleep: SleepState::Check(waker),
        fire: FireState::Complete,
    }
}

/// The event can happen: only a poll that is done is followed by another.
pub open spec fn sleep_possible<W>(system: SleepSystem<W>, event: SleepEvent<W>) -> bool {
    event is Poll ==> system.sleep is Done
}

/// The timer after a step.
pub open spec fn after_sleep_event<W>(
    system: SleepSystem<W>,
    event: SleepEvent<W>,
) -> SleepSystem<W> {
    match event {
        SleepEvent::Poll(waker) => SleepSystem {
            waker,
            sleep: SleepState::Check(waker),
            ..system
        },
        SleepEvent::Sleep(spurious) => {
            let (timer, sleep) = sleep_step(system.timer, system.sleep, spurious);
            SleepSystem { timer, sleep, ..system }
        },
        SleepEvent::Fire(spurious) => {
            let (timer, fire) = fire_step(system.timer, system.fire, spurious);
            SleepSystem { timer, fire, ..system }
        },
    }
}

/// The timer after a history of steps.
pub open spec fn after_sleep_events<W>(waker: W, events: Seq<SleepEvent<W>>) -> SleepSystem<W>
    decreases events.len(),
{
    if events.len() == 0 {
        fresh_sleep(waker)
    } else {
        after_sleep_event(after_sleep_events(waker, events.drop_last()), events.last())
    }
}

/// Each step of the history could happen when it did.
pub open spec fn all_sleep_possible<W>(waker: W, events: Seq<SleepEvent<W>>) -> bool
    decreases events.len(),
{
    events.len() > 0 ==> all_sleep_possible(waker, events.drop_last()) && sleep_possible(
        after_sleep_events(waker, events.drop_last()),
        events.last(),
    )
}

/// What holds of a timer at all times.
spec fn sleep_consistent<W>(system: SleepSystem<W>) -> bool {
    let cell = system.timer.waker;
    let sleeper_has_it = match system.sleep {
        SleepState::Register(register) => storing(register),
        _ => false,
    };
    let driver_has_it = match system.fire {
        FireState::Wake(take) => taking(take),
        _ => false,
    };
    &&& cell.state <= WAKER_WAKING
    &&& (cell.state == WAKER_WAKING) == (sleeper_has_it || driver_has_it)
    &&& !(sleeper_has_it && driver_has_it)
    &&& system.timer.completed == !(system.fire is Complete)
    &&& cell.state == WAKER_STORED ==> cell.waker is Some
    &&& cell.state == WAKER_EMPTY ==> cell.waker is None
    &&& system.fire matches FireState::Wake(TakeState::Clear(_)) ==> cell.waker is None
    &&& match system.sleep {
        SleepState::Check(waker) => waker == system.waker,
        SleepState::Register(register) => match register {
            RegisterState::Claim(waker) => waker == system.waker,
            RegisterState::Replace(waker) => waker == system.waker,
            RegisterState::Store(waker) => waker == system.waker,
            RegisterState::Publish => cell.waker == Some(system.waker),
            RegisterState::Done => false,
        },
        SleepState::Recheck => system.fire is Complete ==> cell.state == WAKER_STORED && cell.waker
            == Some(system.waker),
        SleepState::Done(Poll::Ready(_)) => system.timer.completed,
        SleepState::Done(Poll::Pending) => match system.fire {
            FireState::Complete => cell.state == WAKER_STORED && cell.waker == Some(system.waker),
            FireState::Wake(TakeState::Claim) => cell.state == WAKER_STORED && cell.waker == Some(
                system.waker,
            ),
            FireState::Wake(TakeState::Take) => cell.waker == Some(system.waker),
            FireState::Wake(TakeState::Clear(waker)) => waker == Some(system.waker),
            FireState::Wake(TakeState::Done(waker)) => waker == Some(system.waker),
        },
    }
}

/// A timer is consistent after every history of steps.
proof fn lemma_sleep_consistent<W>(waker: W, events: Seq<SleepEvent<W>>)
    requires
        all_sleep_possible(waker, events),
    ensures
        sleep_consistent(after_sleep_events(waker, events)),
    decreases events.len(),
{
    if events.len() > 0 {
        lemma_sleep_consistent(waker, events.drop_last());
    }
}

/// A sleep never completes before its timer has fired.
pub proof fn law_sleep_is_not_early<W>(waker: W, events: Seq<SleepEvent<W>>)
    requires
        all_sleep_possible(waker, events),
        after_sleep_events(waker, events).sleep == SleepState::<W>::Done(Poll::Ready(())),
    ensures
        after_sleep_events(waker, events).timer.completed,
        !(after_sleep_events(waker, events).fire is Complete),
{
    lemma_sleep_consistent(waker, events);
}

/// No sleep is missed, however the steps of the task and of the driver are
/// interleaved: when the task is told that its sleep is pending and the driver
/// is done with firing the timer, the driver has taken the waker of that very
/// poll.
pub proof fn law_sleep_is_woken<W>(waker: W, events: Seq<SleepEvent<W>>)
    requires
        all_sleep_possible(waker, events),
        after_sleep_events(waker, events).sleep == SleepState::<W>::Done(Poll::Pending),
        after_sleep_events(waker, events).fire matches FireState::Wake(take) && take is Done,
    ensures
        after_sleep_events(waker, events).fire == FireState::Wake(
            TakeState::Done(Some(after_sleep_events(waker, events).waker)),
        ),
{
    lemma_sleep_consistent(waker, events);
}

/// No timer is lost and none fires twice: those that are due and those that are
/// not, taken together, are those that were pending.
pub proof fn law_due_or_pending<H>(pending: Multiset<TimerEntry<H>>, now: u128)
    ensures
        due(pending, now).add(not_due(pending, now)) == pending,
        forall|e: TimerEntry<H>| #[trigger] due(pending, now).contains(e) ==> e.deadline <= now,
        forall|e: TimerEntry<H>| #[trigger] not_due(pending, now).contains(e) ==> e.deadline > now,
{
    assert(due(pending, now).add(not_due(pending, now)) =~= pending);
}

/// Every timer that is due comes out to be fired.
pub proof fn law_due_comes_out<H>(
    pending: Multiset<TimerEntry<H>>,
    now: u128,
    order: Seq<TimerEntry<H>>,
    entry: TimerEntry<H>,
)
    requires
        in_firing_order(pending, now, order),
        pending.contains(entry),
        entry.deadline <= now,
    ensures
        handles(order).contains(entry.state),
{
    order.to_multiset_ensures();
    assert(order.to_multiset().contains(entry));
    let i = choose|i: int| 0 <= i < order.len() && order[i] == entry;
    assert(handles(order)[i] == entry.state);
}

/// Something that happens to the pending timers.
pub enum WheelEvent<H> {
    /// A timer is registered.
    Register(TimerEntry<H>),
    /// The timers that are due at a time are taken out.
    Process(u128),
}

/// The pending timers after a history of events.
pub open spec fn after_wheel_events<H>(
    pending: Multiset<TimerEntry<H>>,
    events: Seq<WheelEvent<H>>,
) -> Multiset<TimerEntry<H>>
    decreases events.len(),
{
    if events.len() == 0 {
        pending
    } else {
        let before = after_wheel_events(pending, events.drop_last());
        match events.last() {
            WheelEvent::Register(entry) => before.insert(entry),
            WheelEvent::Process(now) => not_due(before, now),
        }
    }
}

/// Timers were taken out at `deadline` or later.
pub open spec fn was_processed<H>(events: Seq<WheelEvent<H>>, deadline: u128) -> bool
    decreases events.len(),
{
    events.len() > 0 && (was_processed(events.drop_last(), deadline) || (
    events.last() matches WheelEvent::Process(now) && now >= deadline))
}

/// A timer over its whole life: from its registration on it is pending until timers
/// are taken out at its deadline or later for the first time, and then it comes out
/// to be fired, once.
pub proof fn law_timer_comes_out_once<H>(
    pending: Multiset<TimerEntry<H>>,
    entry: TimerEntry<H>,
    events: Seq<WheelEvent<H>>,
    now: u128,
)
    requires
        pending.count(entry) == 0,
        forall|i: int|
            0 <= i < events.len() ==> #[trigger] events[i] != WheelEvent::Register(entry),
    ensures
        ({
            let current = after_wheel_events(pending.insert(entry), events);
            let taken = was_processed(events, entry.deadline);
            &&& current.count(entry) == if taken {
                0nat
            } else {
                1nat
            }
            &&& due(current, now).count(entry) == if entry.deadline <= now && !taken {
                1nat
            } else {
                0nat
            }
        }),
    decreases events.len(),
{
    if events.len() > 0 {
        let earlier = events.drop_last();
        assert forall|i: int| 0 <= i < earlier.len() implies #[trigger] earlier[i]
            != WheelEvent::Register(entry) by {
            assert(earlier[i] == events[i]);
        }
        assert(events[events.len() - 1] != WheelEvent::Register(entry));
        law_timer_comes_out_once(pending, entry, earlier, now);
    }
}

/// The driver has begun to fire the timer.
pub open spec fn was_fired<W>(events: Seq<SleepEvent<W>>) -> bool
    decreases events.len(),
{
    events.len() > 0 && (was_fired(events.drop_last()) || events.last() is Fire)
}

/// A sleep is completed exactly if its timer was fired, and from then on a poll
/// reports at its first look that it is ready.
pub proof fn law_sleep_is_ready_once_fired<W>(
    waker: W,
    events: Seq<SleepEvent<W>>,
    again: W,
    spurious: bool,
)
    requires
        all_sleep_possible(waker, events),
    ensures
        after_sleep_events(waker, events).timer.completed <==> was_fired(events),
        was_fired(events) ==> after_sleep_event(
            after_sleep_event(after_sleep_events(waker, events), SleepEvent::Poll(again)),
            SleepEvent::Sleep(spurious),
        ).sleep == SleepState::<W>::Done(Poll::Ready(())),
    decreases events.len(),
{
    if events.len() > 0 {
        law_sleep_is_ready_once_fired(waker, events.drop_last(), again, spurious);
        lemma_sleep_consistent(waker, events.drop_last());
    }
}

/// Firing a timer gives out a waker once: when it is done, nothing that happens
/// later changes what it gave.
pub proof fn law_firing_is_done_once<W>(system: SleepSystem<W>, event: SleepEvent<W>)
    requires
        system.fire matches FireState::Wake(take) && take is Done,
    ensures
        after_sleep_event(system, event).fire == system.fire,
{
}

/// Storing a waker comes to an end, where the exchanges succeed: three steps into an empty
/// cell, four where a waker is stored already. Then the waker is in the cell, in place
/// of the one before.
pub proof fn law_storing_a_waker_ends<W>(cell: AtomicWaker<W>, waker: W)
    requires
        cell.state == WAKER_EMPTY || cell.state == WAKER_STORED,
    ensures
        ({
            let one = register_step(cell, RegisterState::Claim(waker), false);
            let two = register_step(one.0, one.1, false);
            let three = register_step(two.0, two.1, false);
            let four = register_step(three.0, three.1, false);
            let stored = AtomicWaker { state: WAKER_STORED, waker: Some(waker) };
            &&& cell.state == WAKER_EMPTY ==> three == (stored, RegisterState::<W>::Done)
            &&& four == (stored, RegisterState::<W>::Done)
        }),
{
}

/// Taking a waker comes to an end, where the exchanges succeed: in one step from an empty
/// cell, which gives none, and in three from one with a waker, which gives that waker
/// and leaves the cell empty.
pub proof fn law_taking_a_waker_ends<W>(cell: AtomicWaker<W>)
    requires
        cell.state == WAKER_EMPTY || cell.state == WAKER_STORED,
    ensures
        ({
            let one = take_step(cell, TakeState::Claim, false);
            let two = take_step(one.0, one.1, false);
            let three = take_step(two.0, two.1, false);
            &&& cell.state == WAKER_EMPTY ==> one == (cell, TakeState::<W>::Done(None))
            &&& cell.state == WAKER_STORED ==> three == (
                AtomicWaker::<W> { state: WAKER_EMPTY, waker: None },
                TakeState::Done(cell.waker),
            )
        }),
{
}

/// While another thread has the cell, and where an exchange fails for no reason, the cell is
/// left alone and nothing is given up: whoever stores a waker still has it, and whoever
/// takes one tries again.
pub proof fn law_busy_cell_is_left_alone<W>(cell: AtomicWaker<W>, waker: W, spurious: bool)
    requires
        cell.state == WAKER_WAKING || spurious,
    ensures
        register_step(cell, RegisterState::Claim(waker), spurious).0 == cell,
        register_step(cell, RegisterState::Replace(waker), spurious) == (
            cell,
            RegisterState::Claim(waker),
        ),
        register_step(cell, RegisterState::Claim(waker), spurious).1 == if cell.state
            == WAKER_STORED {
            RegisterState::Replace(waker)
        } else {
            RegisterState::Claim(waker)
        },
        take_step(cell, TakeState::Claim, spurious).0 == cell,
        take_step(cell, TakeState::Claim, spurious).1 == if cell.state == WAKER_EMPTY {
            TakeState::<W>::Done(None)
        } else {
            TakeState::<W>::Claim
        },
{
}

/// A poll of a sleep comes to an end, where the exchanges succeed. With the timer fired it
/// is ready at the first look. Else the waker is stored, and after that look the poll
/// reports whether the timer has fired meanwhile.
pub proof fn law_poll_of_a_sleep_ends<W>(timer: TimerState<W>, waker: W, fired: bool)
    requires
        timer.waker.state == WAKER_EMPTY,
    ensures
        timer.completed ==> sleep_step(timer, SleepState::Check(waker), false) == (
            timer,
            SleepState::<W>::Done(Poll::Ready(())),
        ),
        !timer.completed ==> {
            let one = sleep_step(timer, SleepState::Check(waker), false);
            let two = sleep_step(one.0, one.1, false);
            let three = sleep_step(two.0, two.1, false);
            let four = sleep_step(three.0, three.1, false);
            let five = sleep_step((TimerState { completed: fired, ..four.0 }), four.1, false);
            &&& four.0 == (TimerState {
                completed: false,
                waker: AtomicWaker { state: WAKER_STORED, waker: Some(waker) },
            })
            &&& fired ==> five.1 == SleepState::<W>::Done(Poll::Ready(()))
            &&& !fired ==> five.1 == SleepState::<W>::Done(Poll::Pending)
        },
{
}

/// Firing a timer marks it first and then takes the waker, if one is stored: four steps, or
/// two where none is, if the exchanges succeed.
pub proof fn law_firing_a_timer_ends<W>(timer: TimerState<W>)
    requires
        timer.waker.state == WAKER_EMPTY || timer.waker.state == WAKER_STORED,
    ensures
        ({
            let one = fire_step(timer, FireState::Complete, false);
            let two = fire_step(one.0, one.1, false);
            let three = fire_step(two.0, two.1, false);
            let four = fire_step(three.0, three.1, false);
            &&& one.0 == (TimerState { completed: true, ..timer })
            &&& timer.waker.state == WAKER_EMPTY ==> two == (
                one.0,
                FireState::<W>::Wake(TakeState::Done(None)),
            )
            &&& timer.waker.state == WAKER_STORED ==> four == (
                (TimerState {
                    completed: true,
                    waker: AtomicWaker::<W> { state: WAKER_EMPTY, waker: None },
                }),
                FireState::Wake(TakeState::Done(timer.waker.waker)),
            )
        }),
{
}

/// Timers come out in the order of their deadlines, one handle for each that is due, and
/// none that is not.
pub proof fn law_comes_out_in_order<H>(
    pending: Multiset<TimerEntry<H>>,
    now: u128,
    order: Seq<TimerEntry<H>>,
    i: int,
    j: int,
)
    requires
        in_firing_order(pending, now, order),
        0 <= i < order.len(),
        0 <= j < order.len(),
    ensures
        order[i].deadline < order[j].deadline ==> i < j,
        pending.contains(order[i]),
        order[i].deadline <= now,
        handles(order).len() == order.len(),
        handles(order)[i] == order[i].state,
        forall|e: TimerEntry<H>|
            e.deadline <= now ==> #[trigger] order.to_multiset().count(e) == pending.count(e),
{
    order.to_multiset_ensures();
    assert(order.contains(order[i]));
    assert(order.to_multiset().contains(order[i]));
}

/// The time until the next timer is exact: no timer is due before it has passed, one is due
/// when it has, and where none is reported, none ever comes due.
pub proof fn law_next_timeout_is_exact<H>(
    pending: Multiset<TimerEntry<H>>,
    now: u128,
    next: Option<u128>,
    later: u128,
)
    requires
        is_next_timeout(pending, now, next),
    ensures
        next matches Some(left) && later >= now + left ==> exists|e: TimerEntry<H>| #[trigger]
            pending.contains(e) && e.deadline <= later,
        next matches Some(left) && later < now + left ==> forall|e: TimerEntry<H>| #[trigger]
            pending.contains(e) ==> e.deadline > later,
        next is None ==> forall|e: TimerEntry<H>| !(#[trigger] pending.contains(e)),
{
    if next is None {
        assert forall|e: TimerEntry<H>| !(#[trigger] pending.contains(e)) by {
            if pending.contains(e) {
                assert(pending.remove(e).len() == pending.len() - 1);
            }
        }
    }
}

} // verus!
