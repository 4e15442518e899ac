//! The I/O reactor: which file descriptors are watched, and whom to wake.
//!
//! The reactor keeps the wakers of the tasks that wait for a file descriptor
//! and decides what the kernel is asked to watch. It does no system call
//! itself: a call of `epoll_ctl` that is due comes out as a [`Ctl`], and what
//! `epoll_wait` reports goes in as [`Event`]s.
//!
//! File descriptors are watched edge-triggered and one event at a time: after
//! an event the kernel watches the descriptor no more until it is armed again.

use std::collections::HashMap;
use vstd::prelude::*;

verus! {

broadcast use vstd::std_specs::hash::group_hash_axioms;

/// The event of a readable file descriptor.
pub const READABLE: u32 = 0x1;

/// The event of a writable file descriptor.
pub const WRITABLE: u32 = 0x4;

/// The event of an error.
pub const ERROR: u32 = 0x8;

/// The event of a peer that has hung up.
pub const HANG_UP: u32 = 0x10;

/// The flag for one event at a time.
pub const ONE_SHOT: u32 = 0x4000_0000;

/// The flag for edge-triggered events.
pub const EDGE: u32 = 0x8000_0000;

/// The operation that adds a file descriptor to those watched.
pub const CTL_ADD: i32 = 1;

/// The operation that stops watching a file descriptor.
pub const CTL_DEL: i32 = 2;

/// The operation that changes what is watched of a file descriptor.
pub const CTL_MOD: i32 = 3;

/// `libc::EPOLLIN`, as an event mask, is `READABLE`.
#[verifier::external_body]
fn epollin() -> (mask: u32)
    ensures
        mask == READABLE,
{
    libc::EPOLLIN as u32
}

/// `libc::EPOLLOUT`, as an event mask, is `WRITABLE`.
#[verifier::external_body]
fn epollout() -> (mask: u32)
    ensures
        mask == WRITABLE,
{
    libc::EPOLLOUT as u32
}

/// `libc::EPOLLERR`, as an event mask, is `ERROR`.
#[verifier::external_body]
fn epollerr() -> (mask: u32)
    ensures
        mask == ERROR,
{
    libc::EPOLLERR as u32
}

/// `libc::EPOLLHUP`, as an event mask, is `HANG_UP`.
#[verifier::external_body]
fn epollhup() -> (mask: u32)
    ensures
        mask == HANG_UP,
{
    libc::EPOLLHUP as u32
}

/// `libc::EPOLLONESHOT`, as an event mask, is `ONE_SHOT`.
#[verifier::external_body]
fn epolloneshot() -> (mask: u32)
    ensures
        mask == ONE_SHOT,
{
    libc::EPOLLONESHOT as u32
}

/// `libc::EPOLLET`, as an event mask, is `EDGE`.
#[verifier::external_body]
fn epollet() -> (mask: u32)
    ensures
        mask == EDGE,
{
    libc::EPOLLET as u32
}

/// `libc::EPOLL_CTL_ADD` is `CTL_ADD`.
#[verifier::external_body]
fn epoll_ctl_add() -> (op: i32)
    ensures
        op == CTL_ADD,
{
    libc::EPOLL_CTL_ADD
}

/// `libc::EPOLL_CTL_DEL` is `CTL_DEL`.
#[verifier::external_body]
fn epoll_ctl_del() -> (op: i32)
    ensures
        op == CTL_DEL,
{
    libc::EPOLL_CTL_DEL
}

/// `libc::EPOLL_CTL_MOD` is `CTL_MOD`.
#[verifier::external_body]
fn epoll_ctl_mod() -> (op: i32)
    ensures
        op == CTL_MOD,
{
    libc::EPOLL_CTL_MOD
}

/// A call of `epoll_ctl` that is due.
#[derive(Clone, Copy, Debug, PartialEq, Eq, Structural)]
pub struct Ctl {
    /// The operation.
    pub op: i32,
    /// The file descriptor.
    pub fd: i32,
    /// The events to watch.
    pub events: u32,
    /// What the kernel hands back with each event.
    pub data: u64,
}

/// An event as `epoll_wait` reports it.
#[derive(Clone, Copy, Debug, PartialEq, Eq, Structural)]
pub struct Event {
    /// What happened.
    pub events: u32,
    /// What was given along when the file descriptor was added.
    pub data: u64,
}

/// Who waits for a file descriptor, and for what.
#[verifier::ext_equal]
pub struct Registration<W> {
    /// The waker of the task that waits to read.
    pub read_waker: Option<W>,
    /// The waker of the task that waits to write.
    pub write_waker: Option<W>,
}

/// The directions that somebody waits for.
pub open spec fn interest<W>(reg: Registration<W>) -> u32 {
    (if reg.read_waker is Some {
        READABLE
    } else {
        0u32
    }) | (if reg.write_waker is Some {
        WRITABLE
    } else {
        0u32
    })
}

/// What the kernel is asked to watch for a registration.
pub open spec fn armed<W>(reg: Registration<W>) -> u32 {
    interest(reg) | (EDGE | ONE_SHOT)
}

/// A registration with nobody waiting.
pub open spec fn nobody<W>() -> Registration<W> {
    Registration { read_waker: None, write_waker: None }
}

/// The waker for one direction.
pub open spec fn waker_for<W>(reg: Registration<W>, is_read: bool) -> Option<W> {
    if is_read {
        reg.read_waker
    } else {
        reg.write_waker
    }
}

/// The registration with the waker for one direction set.
pub open spec fn with_waker<W>(
    reg: Registration<W>,
    is_read: bool,
    waker: Option<W>,
) -> Registration<W> {
    if is_read {
        Registration { read_waker: waker, ..reg }
    } else {
        Registration { write_waker: waker, ..reg }
    }
}

/// The registration of a file descriptor, as far as there is one.
pub open spec fn registration_of<W>(
    regs: Map<i32, Registration<W>>,
    fd: i32,
) -> Registration<W> {
    if regs.contains_key(fd) {
        regs[fd]
    } else {
        nobody()
    }
}

/// A registration for which the kernel has not answered yet.
#[verifier::ext_equal]
pub struct Registering<W> {
    /// The file descriptor.
    pub fd: i32,
    /// Whether it is for reading.
    pub is_read: bool,
    /// Whether the file descriptor was not registered before.
    pub is_new: bool,
    /// The waker that was replaced.
    pub old_waker: Option<W>,
    /// The call of `epoll_ctl` to make.
    pub ctl: Ctl,
}

/// The registrations with a waker put in for one direction of `fd`.
pub open spec fn with_interest<W>(
    regs: Map<i32, Registration<W>>,
    fd: i32,
    is_read: bool,
    waker: W,
) -> Map<i32, Registration<W>> {
    regs.insert(fd, with_waker(registration_of(regs, fd), is_read, Some(waker)))
}

/// What is to be asked of the kernel when a waker is put in for one direction
/// of `fd`: to watch the descriptor from now on, or to watch for all that is
/// waited for now.
pub open spec fn registering<W>(
    regs: Map<i32, Registration<W>>,
    fd: i32,
    is_read: bool,
    waker: W,
) -> Registering<W> {
    Registering {
        fd,
        is_read,
        is_new: !regs.contains_key(fd),
        old_waker: waker_for(registration_of(regs, fd), is_read),
        ctl: Ctl {
            op: if regs.contains_key(fd) {
                CTL_MOD
            } else {
                CTL_ADD
            },
            fd,
            events: armed(with_interest(regs, fd, is_read, waker)[fd]),
            data: fd_to_data(fd),
        },
    }
}

/// The registrations after the kernel's answer: if it refused, the replaced
/// waker is back, and an entry that was new is gone.
pub open spec fn after_answer<W>(
    regs: Map<i32, Registration<W>>,
    asked: Registering<W>,
    accepted: bool,
) -> Map<i32, Registration<W>> {
    if accepted {
        regs
    } else if asked.is_new {
        regs.remove(asked.fd)
    } else {
        regs.insert(asked.fd, with_waker(regs[asked.fd], asked.is_read, asked.old_waker))
    }
}

/// The reactor: the file descriptors that are watched, and the one by which a
/// wait can be interrupted.
pub struct Reactor<W> {
    registrations: HashMap<i32, Registration<W>>,
    wake_fd: i32,
}

impl<W> View for Reactor<W> {
    type V = Map<i32, Registration<W>>;

    /// Who waits for which file descriptor.
    closed spec fn view(&self) -> Map<i32, Registration<W>> {
        self.registrations@
    }
}

/// What `epoll_ctl` is told about a file descriptor, so that its events can be
/// told apart.
pub open spec fn fd_to_data(fd: i32) -> u64 {
    fd as u64
}

/// The file descriptor of an event.
pub open spec fn data_to_fd(data: u64) -> i32 {
    data as i32
}

/// An event belongs to the file descriptor for which it was registered.
pub proof fn law_event_finds_its_fd(fd: i32)
    ensures
        data_to_fd(fd_to_data(fd)) == fd,
{
    assert((fd as u64) as i32 == fd) by (bit_vector);
}

impl<W> Reactor<W> {
    /// The file descriptor by which a wait can be interrupted.
    pub closed spec fn wake_fd(&self) -> i32 {
        self.wake_fd
    }

    /// A reactor that watches nothing but `wake_fd`, and the call that asks the
    /// kernel to watch it.
    ///
    /// It is watched level-triggered: a wake-up that comes before the wait is
    /// then not missed.
    pub fn new(wake_fd: i32) -> (reactor: (Self, Ctl))
        ensures
            reactor.0@ == Map::<i32, Registration<W>>::empty(),
            reactor.0.wake_fd() == wake_fd,
            reactor.1 == (Ctl {
                op: CTL_ADD,
                fd: wake_fd,
                events: READABLE,
                data: fd_to_data(wake_fd),
            }),
    {
        let ctl = Ctl {
            op: epoll_ctl_add(),
            fd: wake_fd,
            events: epollin(),
            data: wake_fd as u64,
        };
        (Reactor { registrations: HashMap::new(), wake_fd }, ctl)
    }

    /// Interrupt a wait: say what is to be written to which file descriptor.
    pub fn wake(&self) -> (write: (i32, u64))
        ensures
            write == (self.wake_fd(), 1u64),
    {
        (self.wake_fd, 1)
    }

    /// Register interest in readability of `fd`.
    pub fn register_readable(&mut self, fd: i32, waker: W) -> (asked: Registering<W>)
        ensures
            asked == registering(old(self)@, fd, true, waker),
            asked.ctl.events & 0x1 != 0,
            final(self)@ == with_interest(old(self)@, fd, true, waker),
            final(self).wake_fd() == old(self).wake_fd(),
    {
        proof {
            law_registered_is_watched_for(self@, fd, true, waker);
        }
        self.register(fd, waker, true)
    }

    /// Register interest in writability of `fd`.
    pub fn register_writable(&mut self, fd: i32, waker: W) -> (asked: Registering<W>)
        ensures
            asked == registering(old(self)@, fd, false, waker),
            asked.ctl.events & 0x4 != 0,
            final(self)@ == with_interest(old(self)@, fd, false, waker),
            final(self).wake_fd() == old(self).wake_fd(),
    {
        proof {
            law_registered_is_watched_for(self@, fd, false, waker);
        }
        self.register(fd, waker, false)
    }

    /// Put a waker in for one direction of `fd`.
    fn register(&mut self, fd: i32, waker: W, is_read: bool) -> (asked: Registering<W>)
        ensures
            asked == registering(old(self)@, fd, is_read, waker),
            final(self)@ == with_interest(old(self)@, fd, is_read, waker),
            final(self).wake_fd() == old(self).wake_fd(),
    {
        let (is_new, mut reg) = match self.registrations.remove(&fd) {
            Some(reg) => (false, reg),
            None => (true, Registration { read_waker: None, write_waker: None }),
        };
        let old_waker = if is_read {
            let old_waker = reg.read_waker.take();
            reg.read_waker = Some(waker);
            old_waker
        } else {
            let old_waker = reg.write_waker.take();
            reg.write_waker = Some(waker);
            old_waker
        };
        let events: u32 = armed_events(&reg);
        let op: i32 = if is_new {
            epoll_ctl_add()
        } else {
            epoll_ctl_mod()
        };
        self.registrations.insert(fd, reg);
        assert(self@ =~= with_interest(old(self)@, fd, is_read, waker));
        Registering {
            fd,
            is_read,
            is_new,
            old_waker,
            ctl: Ctl { op, fd, events, data: fd as u64 },
        }
    }

    /// Take note of what the kernel answered. If it refused, the registration
    /// is as it was before.
    pub fn finish_register(&mut self, asked: Registering<W>, accepted: bool)
        requires
            old(self)@.contains_key(asked.fd),
        ensures
            final(self)@ == after_answer(old(self)@, asked, accepted),
            final(self).wake_fd() == old(self).wake_fd(),
    {
        if !accepted {
            let fd: i32 = asked.fd;
            match self.registrations.remove(&fd) {
                Some(mut reg) => {
                    if !asked.is_new {
                        if asked.is_read {
                            reg.read_waker = asked.old_waker;
                        } else {
                            reg.write_waker = asked.old_waker;
                        }
                        self.registrations.insert(fd, reg);
                        assert(self@ =~= after_answer(old(self)@, asked, accepted));
                    }
                },
                None => {},
            }
        }
    }

    /// Remove all interest in `fd`. If it was registered, the kernel is to stop
    /// watching it.
    pub fn deregister(&mut self, fd: i32) -> (ctl: Option<Ctl>)
        ensures
            final(self).wake_fd() == old(self).wake_fd(),
            final(self)@ == old(self)@.remove(fd),
            ctl == if old(self)@.contains_key(fd) {
                Some(Ctl { op: CTL_DEL, fd, events: 0, data: 0 })
            } else {
                None::<Ctl>
            },
    {
        match self.registrations.remove(&fd) {
            Some(_) => Some(Ctl { op: epoll_ctl_del(), fd, events: 0, data: 0 }),
            None => {
                assert(self@ =~= old(self)@.remove(fd));
                None
            },
        }
    }
}

/// What the kernel is asked to watch for a registration.
fn armed_events<W>(reg: &Registration<W>) -> (events: u32)
    ensures
        events == armed(*reg),
{
    interest_events(reg) | (epollet() | epolloneshot())
}

/// The directions that somebody waits for.
fn interest_events<W>(reg: &Registration<W>) -> (events: u32)
    ensures
        events == interest(*reg),
{
    let mut events: u32 = 0;
    if reg.read_waker.is_some() {
        events = events | epollin();
    }
    if reg.write_waker.is_some() {
        events = events | epollout();
    }
    proof {
        assert(0u32 | 0u32 == 0u32) by (bit_vector);
        assert(0u32 | READABLE == READABLE) by (bit_vector);
        assert(READABLE | 0u32 == READABLE) by (bit_vector);
    }
    events
}

/// The milliseconds for which `epoll_wait` is asked to wait: forever without a
/// timeout, else the timeout rounded up to whole milliseconds, as far as an
/// `i32` goes.
pub open spec fn wait_millis(timeout: Option<u128>) -> int {
    match timeout {
        None => -1,
        Some(nanos) => {
            let millis = (nanos + 999_999) / 1_000_000;
            if millis <= i32::MAX {
                millis
            } else {
                i32::MAX as int
            }
        },
    }
}

/// The timeout for `epoll_wait`, from one in nanoseconds.
///
/// A timeout that is not zero does not become zero: a wait for less than a
/// millisecond would otherwise not wait at all.
pub fn timeout_millis(timeout: Option<u128>) -> (millis: i32)
    ensures
        millis == wait_millis(timeout),
{
    match timeout {
        None => -1,
        Some(nanos) => {
            let floor: u128 = nanos / 1_000_000;
            let millis: u128 = if nanos % 1_000_000 == 0 {
                floor
            } else {
                floor + 1
            };
            if millis <= 0x7fff_ffff {
                millis as i32
            } else {
                i32::MAX
            }
        },
    }
}

/// The number of events that a call of `epoll_wait` reports, from what it
/// returned: a wait that was interrupted reports none, another failure is one.
pub fn events_reported(returned: i32, interrupted: bool) -> (count: Option<usize>)
    ensures
        count == if returned >= 0 {
            Some(returned as usize)
        } else if interrupted {
            Some(0usize)
        } else {
            None::<usize>
        },
{
    if returned < 0 {
        if interrupted {
            Some(0)
        } else {
            None
        }
    } else {
        Some(returned as usize)
    }
}

/// The event is of interest to a task that waits to read, or to write. Errors
/// and hang-ups are of interest to both.
pub open spec fn concerns(events: u32, is_read: bool) -> bool {
    ||| events & (if is_read {
        READABLE
    } else {
        WRITABLE
    }) != 0
    ||| events & (ERROR | HANG_UP) != 0
}

/// The registration after an event: the wakers that the event concerns are
/// taken.
pub open spec fn after_event<W>(reg: Registration<W>, events: u32) -> Registration<W> {
    Registration {
        read_waker: if concerns(events, true) {
            None
        } else {
            reg.read_waker
        },
        write_waker: if concerns(events, false) {
            None
        } else {
            reg.write_waker
        },
    }
}

/// The wakers that an event takes: that of the reader, then that of the writer.
pub open spec fn wakers_taken<W>(reg: Registration<W>, events: u32) -> Seq<W> {
    let reader = match reg.read_waker {
        Some(waker) if concerns(events, true) => seq![waker],
        _ => Seq::empty(),
    };
    match reg.write_waker {
        Some(waker) if concerns(events, false) => reader.push(waker),
        _ => reader,
    }
}

/// What is left to do with the kernel after an event.
#[derive(Clone, Copy, Debug, PartialEq, Eq, Structural)]
pub enum IoAction {
    /// Reset the file descriptor by which the wait was interrupted.
    DrainWakeFd,
    /// Call `epoll_ctl`; whether it succeeds does not matter.
    Ctl(Ctl),
}

/// The registrations after some events, the wakers that came out, and what is
/// left to do with the kernel.
#[verifier::ext_equal]
pub struct Dispatched<W> {
    /// Who waits for which file descriptor.
    pub regs: Map<i32, Registration<W>>,
    /// The wakers to use, in order.
    pub wakers: Seq<W>,
    /// What is to be done with the kernel, in order.
    pub actions: Seq<IoAction>,
}

/// The call that arms a file descriptor again for the directions that are still
/// waited for.
pub open spec fn rearm<W>(fd: i32, reg: Registration<W>, data: u64) -> Ctl {
    Ctl { op: CTL_MOD, fd, events: armed(reg), data }
}

/// What one event does.
///
/// The event of `wake_fd` is drained, and one of a file descriptor that is not
/// registered is passed over. Any other takes the wakers that it concerns, and
/// where one is left the file descriptor is armed again.
pub open spec fn dispatch_event<W>(
    state: Dispatched<W>,
    wake_fd: i32,
    event: Event,
) -> Dispatched<W> {
    let fd = data_to_fd(event.data);
    if fd == wake_fd {
        Dispatched { actions: state.actions.push(IoAction::DrainWakeFd), ..state }
    } else if !state.regs.contains_key(fd) {
        state
    } else {
        let reg = after_event(state.regs[fd], event.events);
        Dispatched {
            regs: state.regs.insert(fd, reg),
            wakers: state.wakers + wakers_taken(state.regs[fd], event.events),
            actions: if interest(reg) == 0 {
                state.actions
            } else {
                state.actions.push(IoAction::Ctl(rearm(fd, reg, fd_to_data(fd))))
            },
        }
    }
}

/// What a sequence of events does.
pub open spec fn dispatch_events<W>(
    regs: Map<i32, Registration<W>>,
    wake_fd: i32,
    events: Seq<Event>,
) -> Dispatched<W>
    decreases events.len(),
{
    if events.len() == 0 {
        Dispatched { regs, wakers: Seq::empty(), actions: Seq::empty() }
    } else {
        dispatch_event(
            dispatch_events(regs, wake_fd, events.drop_last()),
            wake_fd,
            events.last(),
        )
    }
}

impl<W> Reactor<W> {
    /// Poll for I/O: take note of the events that a wait has reported.
    ///
    /// The wakers of the tasks that can go on come out for the caller to use,
    /// and beside them what is to be done with the kernel.
    pub fn poll(&mut self, events: &[Event]) -> (polled: (Vec<W>, Vec<IoAction>))
        ensures
            final(self).wake_fd() == old(self).wake_fd(),
            final(self)@ == dispatch_events(old(self)@, old(self).wake_fd(), events@).regs,
            polled.0@ == dispatch_events(old(self)@, old(self).wake_fd(), events@).wakers,
            polled.1@ == dispatch_events(old(self)@, old(self).wake_fd(), events@).actions,
    {
        let mut wakers: Vec<W> = Vec::new();
        let mut actions: Vec<IoAction> = Vec::new();
        let mut i: usize = 0;
        while i < events.len()
            invariant
                i <= events@.len(),
                self.wake_fd() == old(self).wake_fd(),
                (Dispatched { regs: self@, wakers: wakers@, actions: actions@ })
                    == dispatch_events(old(self)@, old(self).wake_fd(), events@.take(i as int)),
            decreases events@.len() - i,
        {
            self.dispatch_one(events[i], &mut wakers, &mut actions);
            i = i + 1;
            assert(events@.take(i as int).drop_last() =~= events@.take(i - 1));
        }
        assert(events@.take(i as int) =~= events@);
        (wakers, actions)
    }

    /// Take note of one event.
    fn dispatch_one(&mut self, event: Event, wakers: &mut Vec<W>, actions: &mut Vec<IoAction>)
        ensures
            final(self).wake_fd() == old(self).wake_fd(),
            (Dispatched {
                regs: final(self)@,
                wakers: final(wakers)@,
                actions: final(actions)@,
            }) == dispatch_event(
                (Dispatched {
                    regs: old(self)@,
                    wakers: old(wakers)@,
                    actions: old(actions)@,
                }),
                old(self).wake_fd(),
                event,
            ),
    {
        let fd: i32 = #[verifier::truncate]
        (event.data as i32);
        if fd == self.wake_fd {
            actions.push(IoAction::DrainWakeFd);
            return ;
        }
        match self.registrations.remove(&fd) {
            Some(mut reg) => {
                let ghost before = reg;
                let err_or_hup: bool = event.events & (epollerr() | epollhup()) != 0;
                if event.events & epollin() != 0 || err_or_hup {
                    match reg.read_waker.take() {
                        Some(waker) => wakers.push(waker),
                        None => {},
                    }
                }
                if event.events & epollout() != 0 || err_or_hup {
                    match reg.write_waker.take() {
                        Some(waker) => wakers.push(waker),
                        None => {},
                    }
                }
                assert(reg == after_event(before, event.events));
                assert(wakers@ =~= old(wakers)@ + wakers_taken(before, event.events));
                if interest_events(&reg) != 0 {
                    let ctl = Ctl {
                        op: epoll_ctl_mod(),
                        fd,
                        events: armed_events(&reg),
                        data: fd as u64,
                    };
                    actions.push(IoAction::Ctl(ctl));
                }
                self.registrations.insert(fd, reg);
                assert(self@ =~= old(self)@.insert(fd, reg));
            },
            None => {
                assert(self@ =~= old(self)@);
            },
        }
    }
}

/// A registration that the kernel refuses leaves no trace.
pub proof fn law_refused_registration<W>(
    regs: Map<i32, Registration<W>>,
    fd: i32,
    is_read: bool,
    waker: W,
)
    ensures
        after_answer(
            with_interest(regs, fd, is_read, waker),
            registering(regs, fd, is_read, waker),
            false,
        ) == regs,
{
    assert(after_answer(
        with_interest(regs, fd, is_read, waker),
        registering(regs, fd, is_read, waker),
        false,
    ) =~= regs);
}

/// A wait with a timeout that is not zero lasts at least a millisecond, and at
/// least as long as the timeout, unless that is more than can be asked for; it
/// is less than a millisecond longer.
pub proof fn law_wait_is_long_enough(nanos: u128)
    ensures
        nanos > 0 ==> wait_millis(Some(nanos)) >= 1,
        wait_millis(Some(nanos)) * 1_000_000 >= nanos || wait_millis(Some(nanos)) == i32::MAX,
        nanos == 0 ==> wait_millis(Some(nanos)) == 0,
        (wait_millis(Some(nanos)) - 1) * 1_000_000 < nanos,
{
}

/// An event loses no waker: each one either comes out or is kept, and it comes
/// out exactly if the event concerns its direction.
pub proof fn law_event_loses_no_waker<W>(reg: Registration<W>, events: u32, is_read: bool)
    ensures
        concerns(events, is_read) ==> waker_for(after_event(reg, events), is_read) is None,
        !concerns(events, is_read) ==> waker_for(after_event(reg, events), is_read) == waker_for(
            reg,
            is_read,
        ),
        concerns(events, is_read) && waker_for(reg, is_read) is Some ==> wakers_taken(
            reg,
            events,
        ).contains(waker_for(reg, is_read)->0),
        wakers_taken(reg, events).len() == (if concerns(events, true) && reg.read_waker is Some {
            1int
        } else {
            0int
        }) + (if concerns(events, false) && reg.write_waker is Some {
            1int
        } else {
            0int
        }),
{
    let taken = wakers_taken(reg, events);
    if concerns(events, is_read) && waker_for(reg, is_read) is Some {
        if is_read {
            assert(taken[0] == reg.read_waker->0);
        } else {
            assert(taken[taken.len() - 1] == reg.write_waker->0);
        }
    }
}

/// What the kernel watches, after a call of `epoll_ctl` that succeeded: for each
/// file descriptor that was added, the events. No events are watched of one
/// that is not armed.
pub open spec fn kernel_after_ctl(kernel: Map<i32, u32>, ctl: Ctl) -> Map<i32, u32> {
    if ctl.op == CTL_DEL {
        kernel.remove(ctl.fd)
    } else {
        kernel.insert(ctl.fd, ctl.events)
    }
}

/// What the kernel watches after the actions that follow a wait.
pub open spec fn kernel_after_actions(kernel: Map<i32, u32>, actions: Seq<IoAction>) -> Map<
    i32,
    u32,
>
    decreases actions.len(),
{
    if actions.len() == 0 {
        kernel
    } else {
        let before = kernel_after_actions(kernel, actions.drop_last());
        match actions.last() {
            IoAction::DrainWakeFd => before,
            IoAction::Ctl(ctl) => kernel_after_ctl(before, ctl),
        }
    }
}

/// Some event is about `fd`.
pub open spec fn reports(events: Seq<Event>, fd: i32) -> bool {
    exists|i: int| 0 <= i < events.len() && data_to_fd((#[trigger] events[i]).data) == fd
}

/// What the kernel watches after it has reported events: a file descriptor that
/// is watched for one event at a time is not armed any more.
pub open spec fn kernel_after_wait(kernel: Map<i32, u32>, events: Seq<Event>) -> Map<i32, u32> {
    Map::new(
        |fd: i32| kernel.contains_key(fd),
        |fd: i32|
            if reports(events, fd) && kernel[fd] & ONE_SHOT != 0 {
                0u32
            } else {
                kernel[fd]
            },
    )
}

/// The kernel knows every registered file descriptor and watches it for all
/// that is waited for.
pub open spec fn watched<W>(regs: Map<i32, Registration<W>>, kernel: Map<i32, u32>) -> bool {
    forall|fd: i32| #[trigger]
        regs.contains_key(fd) ==> kernel.contains_key(fd) && (interest(regs[fd]) != 0 ==> kernel[fd]
            == armed(regs[fd]))
}

/// Registering keeps the kernel watching for all that is waited for.
pub proof fn law_registering_is_watched<W>(
    regs: Map<i32, Registration<W>>,
    kernel: Map<i32, u32>,
    fd: i32,
    is_read: bool,
    waker: W,
)
    requires
        watched(regs, kernel),
    ensures
        watched(
            with_interest(regs, fd, is_read, waker),
            kernel_after_ctl(kernel, registering(regs, fd, is_read, waker).ctl),
        ),
{
}

/// Deregistering keeps the kernel watching for all that is waited for.
pub proof fn law_deregistering_is_watched<W>(
    regs: Map<i32, Registration<W>>,
    kernel: Map<i32, u32>,
    fd: i32,
)
    requires
        watched(regs, kernel),
    ensures
        watched(
            regs.remove(fd),
            kernel_after_ctl(kernel, (Ctl { op: CTL_DEL, fd, events: 0, data: 0 })),
        ),
{
}

/// As far as the events reach, every file descriptor that is waited for is
/// watched again; `disarmed` are those that were not to begin with.
proof fn lemma_rearmed<W>(
    regs: Map<i32, Registration<W>>,
    kernel: Map<i32, u32>,
    disarmed: Set<i32>,
    wake_fd: i32,
    events: Seq<Event>,
)
    requires
        !regs.contains_key(wake_fd),
        forall|fd: i32| #[trigger]
            regs.contains_key(fd) ==> kernel.contains_key(fd) && (interest(regs[fd]) != 0
                && !disarmed.contains(fd) ==> kernel[fd] == armed(regs[fd])),
    ensures
        ({
            let after = dispatch_events(regs, wake_fd, events);
            let kernel_after = kernel_after_actions(kernel, after.actions);
            &&& forall|fd: i32| #[trigger] after.regs.contains_key(fd) <==> regs.contains_key(fd)
            &&& forall|fd: i32| #[trigger]
                after.regs.contains_key(fd) ==> kernel_after.contains_key(fd) && (interest(
                    after.regs[fd],
                ) != 0 && (!disarmed.contains(fd) || reports(events, fd)) ==> kernel_after[fd]
                    == armed(after.regs[fd]))
        }),
    decreases events.len(),
{
    if events.len() > 0 {
        let earlier = events.drop_last();
        lemma_rearmed(regs, kernel, disarmed, wake_fd, earlier);
        let before = dispatch_events(regs, wake_fd, earlier);
        let after = dispatch_events(regs, wake_fd, events);
        let at = data_to_fd(events.last().data);
        if after.actions.len() > before.actions.len() {
            assert(after.actions.drop_last() =~= before.actions);
        }
        assert forall|fd: i32| #[trigger] after.regs.contains_key(fd) implies (
        kernel_after_actions(kernel, after.actions).contains_key(fd) && (interest(after.regs[fd])
            != 0 && (!disarmed.contains(fd) || reports(events, fd)) ==> kernel_after_actions(
            kernel,
            after.actions,
        )[fd] == armed(after.regs[fd]))) by {
            assert(before.regs.contains_key(fd));
            if fd != at && reports(events, fd) {
                let i = choose|i: int|
                    0 <= i < events.len() && data_to_fd((#[trigger] events[i]).data) == fd;
                assert(earlier[i] == events[i]);
                assert(reports(earlier, fd));
            }
        }
    }
}

/// No waker is left behind by events that come one at a time: after a poll the
/// kernel again watches for all that is still waited for, also in the other
/// direction of a file descriptor of which only one was reported.
pub proof fn law_no_waker_is_stranded<W>(
    regs: Map<i32, Registration<W>>,
    kernel: Map<i32, u32>,
    wake_fd: i32,
    events: Seq<Event>,
)
    requires
        watched(regs, kernel),
        !regs.contains_key(wake_fd),
    ensures
        watched(
            dispatch_events(regs, wake_fd, events).regs,
            kernel_after_actions(
                kernel_after_wait(kernel, events),
                dispatch_events(regs, wake_fd, events).actions,
            ),
        ),
{
    let disarmed = Set::new(|fd: i32| reports(events, fd));
    lemma_rearmed(regs, kernel_after_wait(kernel, events), disarmed, wake_fd, events);
}

/// The actions that follow events leave alone what the kernel watches of the
/// file descriptor by which a wait can be interrupted, and reset it exactly if
/// it was reported.
proof fn lemma_wake_fd_actions<W>(
    regs: Map<i32, Registration<W>>,
    kernel: Map<i32, u32>,
    wake_fd: i32,
    events: Seq<Event>,
)
    requires
        kernel.contains_key(wake_fd),
    ensures
        ({
            let actions = dispatch_events(regs, wake_fd, events).actions;
            &&& kernel_after_actions(kernel, actions).contains_key(wake_fd)
            &&& kernel_after_actions(kernel, actions)[wake_fd] == kernel[wake_fd]
            &&& actions.contains(IoAction::DrainWakeFd) <==> reports(events, wake_fd)
        }),
    decreases events.len(),
{
    let after = dispatch_events(regs, wake_fd, events);
    if events.len() > 0 {
        let earlier = events.drop_last();
        lemma_wake_fd_actions(regs, kernel, wake_fd, earlier);
        let before = dispatch_events(regs, wake_fd, earlier);
        let at = data_to_fd(events.last().data);
        if after.actions.len() > before.actions.len() {
            assert(after.actions.drop_last() =~= before.actions);
        }
        if reports(earlier, wake_fd) {
            let i = choose|i: int|
                0 <= i < earlier.len() && data_to_fd((#[trigger] earlier[i]).data) == wake_fd;
            assert(data_to_fd(events[i].data) == wake_fd);
        }
        if reports(events, wake_fd) && at != wake_fd {
            let i = choose|i: int|
                0 <= i < events.len() && data_to_fd((#[trigger] events[i]).data) == wake_fd;
            assert(data_to_fd(earlier[i].data) == wake_fd);
        }
        if at == wake_fd {
            assert(data_to_fd(events[events.len() - 1].data) == wake_fd);
            assert(after.actions.last() == IoAction::DrainWakeFd);
        }
        if before.actions.contains(IoAction::DrainWakeFd) {
            let i = choose|i: int|
                0 <= i < before.actions.len() && before.actions[i] == IoAction::DrainWakeFd;
            assert(after.actions[i] == IoAction::DrainWakeFd);
        }
        if after.actions.contains(IoAction::DrainWakeFd) && at != wake_fd {
            let i = choose|i: int|
                0 <= i < after.actions.len() && after.actions[i] == IoAction::DrainWakeFd;
            assert(before.actions[i] == IoAction::DrainWakeFd);
        }
    }
}

/// No interruption of a wait is missed: the kernel watches the file descriptor
/// for it before and after every poll, however often it was reported, and it is
/// reset exactly when it was.
pub proof fn law_wake_up_stays_watched<W>(
    regs: Map<i32, Registration<W>>,
    kernel: Map<i32, u32>,
    wake_fd: i32,
    events: Seq<Event>,
)
    requires
        kernel.contains_key(wake_fd),
        kernel[wake_fd] == READABLE,
    ensures
        ({
            let actions = dispatch_events(regs, wake_fd, events).actions;
            let after = kernel_after_actions(kernel_after_wait(kernel, events), actions);
            &&& after.contains_key(wake_fd)
            &&& after[wake_fd] == READABLE
            &&& actions.contains(IoAction::DrainWakeFd) <==> reports(events, wake_fd)
        }),
{
    assert(READABLE & ONE_SHOT == 0) by (bit_vector);
    lemma_wake_fd_actions(regs, kernel_after_wait(kernel, events), wake_fd, events);
}

/// Events of other file descriptors change nothing about who waits for one.
pub proof fn law_events_are_local<W>(
    regs: Map<i32, Registration<W>>,
    wake_fd: i32,
    events: Seq<Event>,
    fd: i32,
)
    requires
        regs.contains_key(fd),
        !reports(events, fd),
    ensures
        dispatch_events(regs, wake_fd, events).regs.contains_key(fd),
        dispatch_events(regs, wake_fd, events).regs[fd] == regs[fd],
    decreases events.len(),
{
    if events.len() > 0 {
        let earlier = events.drop_last();
        assert(data_to_fd(events[events.len() - 1].data) != fd);
        assert forall|i: int| 0 <= i < earlier.len() implies data_to_fd(
            (#[trigger] earlier[i]).data,
        ) != fd by {
            assert(events[i] == earlier[i]);
        }
        law_events_are_local(regs, wake_fd, earlier, fd);
    }
}

/// A reactor and what the kernel watches for it.
#[verifier::ext_equal]
pub struct Watching<W> {
    /// Who waits for which file descriptor.
    pub regs: Map<i32, Registration<W>>,
    /// What the kernel watches.
    pub kernel: Map<i32, u32>,
}

/// Something that happens to a reactor.
pub enum ReactorEvent<W> {
    /// A waker is registered for a direction of a file descriptor; the last part
    /// says whether the kernel accepts.
    Register(i32, bool, W, bool),
    /// A file descriptor is deregistered.
    Deregister(i32),
    /// A wait has reported events.
    Poll(Seq<Event>),
}

/// A reactor that was just created.
pub open spec fn fresh_reactor<W>(wake_fd: i32) -> Watching<W> {
    Watching {
        regs: Map::empty(),
        kernel: kernel_after_ctl(
            Map::empty(),
            Ctl { op: CTL_ADD, fd: wake_fd, events: READABLE, data: fd_to_data(wake_fd) },
        ),
    }
}

/// The event leaves alone the file descriptor by which a wait can be interrupted.
pub open spec fn spares<W>(wake_fd: i32, event: ReactorEvent<W>) -> bool {
    match event {
        ReactorEvent::Register(fd, _, _, _) => fd != wake_fd,
        ReactorEvent::Deregister(fd) => fd != wake_fd,
        ReactorEvent::Poll(_) => true,
    }
}

/// The reactor after an event; calls of `epoll_ctl` other than those for a
/// registration are taken to succeed.
pub open spec fn after_reactor_event<W>(
    wake_fd: i32,
    system: Watching<W>,
    event: ReactorEvent<W>,
) -> Watching<W> {
    match event {
        ReactorEvent::Register(fd, is_read, waker, accepted) => {
            let asked = registering(system.regs, fd, is_read, waker);
            Watching {
                regs: after_answer(
                    with_interest(system.regs, fd, is_read, waker),
                    asked,
                    accepted,
                ),
                kernel: if accepted {
                    kernel_after_ctl(system.kernel, asked.ctl)
                } else {
                    system.kernel
                },
            }
        },
        ReactorEvent::Deregister(fd) => Watching {
            regs: system.regs.remove(fd),
            kernel: if system.regs.contains_key(fd) {
                kernel_after_ctl(system.kernel, Ctl { op: CTL_DEL, fd, events: 0, data: 0 })
            } else {
                system.kernel
            },
        },
        ReactorEvent::Poll(events) => Watching {
            regs: dispatch_events(system.regs, wake_fd, events).regs,
            kernel: kernel_after_actions(
                kernel_after_wait(system.kernel, events),
                dispatch_events(system.regs, wake_fd, events).actions,
            ),
        },
    }
}

/// The reactor after a history of events.
pub open spec fn after_reactor_events<W>(wake_fd: i32, events: Seq<ReactorEvent<W>>) -> Watching<W>
    decreases events.len(),
{
    if events.len() == 0 {
        fresh_reactor(wake_fd)
    } else {
        after_reactor_event(
            wake_fd,
            after_reactor_events(wake_fd, events.drop_last()),
            events.last(),
        )
    }
}

/// In the whole life of a reactor the kernel watches every file descriptor for all
/// that is waited for, and the one by which a wait can be interrupted.
pub proof fn law_always_watched<W>(wake_fd: i32, events: Seq<ReactorEvent<W>>)
    requires
        forall|i: int| 0 <= i < events.len() ==> spares(wake_fd, #[trigger] events[i]),
    ensures
        ({
            let system = after_reactor_events(wake_fd, events);
            &&& watched(system.regs, system.kernel)
            &&& !system.regs.contains_key(wake_fd)
            &&& system.kernel.contains_key(wake_fd)
            &&& system.kernel[wake_fd] == READABLE
        }),
    decreases events.len(),
{
    if events.len() > 0 {
        let earlier = events.drop_last();
        assert forall|i: int| 0 <= i < earlier.len() implies spares(
            wake_fd,
            #[trigger] earlier[i],
        ) by {
            assert(earlier[i] == events[i]);
        }
        law_always_watched(wake_fd, earlier);
        let before = after_reactor_events(wake_fd, earlier);
        assert(spares(wake_fd, events[events.len() - 1]));
        match events.last() {
            ReactorEvent::Register(fd, is_read, waker, accepted) => {
                if accepted {
                    law_registering_is_watched(before.regs, before.kernel, fd, is_read, waker);
                } else {
                    law_refused_registration(before.regs, fd, is_read, waker);
                }
            },
            ReactorEvent::Deregister(fd) => {
                law_deregistering_is_watched(before.regs, before.kernel, fd);
            },
            ReactorEvent::Poll(reported) => {
                law_no_waker_is_stranded(before.regs, before.kernel, wake_fd, reported);
                law_wake_up_stays_watched(before.regs, before.kernel, wake_fd, reported);
                let disarmed = Set::new(|fd: i32| reports(reported, fd));
                lemma_rearmed(
                    before.regs,
                    kernel_after_wait(before.kernel, reported),
                    disarmed,
                    wake_fd,
                    reported,
                );
            },
        }
    }
}

/// The bits of what is watched, where `reader` and `writer` are the bits of the two
/// directions, or nothing.
proof fn lemma_mask_bits(reader: u32, writer: u32)
    by (bit_vector)
    requires
        reader == 0 || reader == 0x1,
        writer == 0 || writer == 0x4,
    ensures
        ((reader | writer) | (0x8000_0000u32 | 0x4000_0000u32)) & 0x1 != 0 <==> reader != 0,
        ((reader | writer) | (0x8000_0000u32 | 0x4000_0000u32)) & 0x4 != 0 <==> writer != 0,
        ((reader | writer) | (0x8000_0000u32 | 0x4000_0000u32)) & 0x8000_0000 != 0,
        ((reader | writer) | (0x8000_0000u32 | 0x4000_0000u32)) & 0x4000_0000 != 0,
        ((reader | writer) | (0x8000_0000u32 | 0x4000_0000u32)) & 0x3fff_fffa == 0,
        reader | writer == 0 <==> reader == 0 && writer == 0,
{
}

/// A file descriptor is watched for exactly what is waited for: for `EPOLLIN` if
/// somebody waits to read, for `EPOLLOUT` if somebody waits to write, always with
/// `EPOLLET` and `EPOLLONESHOT`, and for nothing else.
pub proof fn law_watched_for_who_waits<W>(reg: Registration<W>)
    ensures
        armed(reg) & 0x1 != 0 <==> reg.read_waker is Some,
        armed(reg) & 0x4 != 0 <==> reg.write_waker is Some,
        armed(reg) & 0x8000_0000 != 0,
        armed(reg) & 0x4000_0000 != 0,
        armed(reg) & 0x3fff_fffa == 0,
        interest(reg) == 0 <==> reg.read_waker is None && reg.write_waker is None,
{
    let reader: u32 = if reg.read_waker is Some {
        0x1
    } else {
        0
    };
    let writer: u32 = if reg.write_waker is Some {
        0x4
    } else {
        0
    };
    lemma_mask_bits(reader, writer);
}

/// Who registers is waited for: the waker is kept for its direction, the other
/// direction and all other file descriptors stay as they were, and the kernel is
/// asked to watch the descriptor for that direction, and for the other exactly if
/// somebody waits for it.
pub proof fn law_registered_is_watched_for<W>(
    regs: Map<i32, Registration<W>>,
    fd: i32,
    is_read: bool,
    waker: W,
)
    ensures
        ({
            let after = with_interest(regs, fd, is_read, waker);
            let asked = registering(regs, fd, is_read, waker);
            let (reader, writer) = if regs.contains_key(fd) {
                (regs[fd].read_waker, regs[fd].write_waker)
            } else {
                (None, None)
            };
            &&& after.dom() == regs.dom().insert(fd)
            &&& forall|other: i32|
                other != fd && #[trigger] regs.contains_key(other) ==> after[other] == regs[other]
            &&& is_read ==> {
                &&& after[fd].read_waker == Some(waker)
                &&& after[fd].write_waker == writer
                &&& asked.ctl.events & 0x1 != 0
                &&& asked.ctl.events & 0x4 != 0 <==> writer is Some
            }
            &&& !is_read ==> {
                &&& after[fd].read_waker == reader
                &&& after[fd].write_waker == Some(waker)
                &&& asked.ctl.events & 0x1 != 0 <==> reader is Some
                &&& asked.ctl.events & 0x4 != 0
            }
            &&& asked.ctl.fd == fd
            &&& data_to_fd(asked.ctl.data) == fd
        }),
{
    law_watched_for_who_waits(with_interest(regs, fd, is_read, waker)[fd]);
    law_event_finds_its_fd(fd);
}

/// The kernel grants a call of `epoll_ctl`: it adds only a file descriptor that it
/// does not know (else the call fails with `EEXIST`), and changes or stops watching
/// only one that it knows (else with `ENOENT`). The operations are `EPOLL_CTL_ADD`,
/// `EPOLL_CTL_DEL` and `EPOLL_CTL_MOD`.
pub open spec fn kernel_grants(kernel: Map<i32, u32>, ctl: Ctl) -> bool {
    ||| ctl.op == 1 && !kernel.contains_key(ctl.fd)
    ||| (ctl.op == 2 || ctl.op == 3) && kernel.contains_key(ctl.fd)
}

/// The kernel is never asked for what it cannot grant, where it knows exactly the
/// file descriptors that are registered: the first time it is asked to add one,
/// later to change what it watches.
pub proof fn law_asks_what_the_kernel_grants<W>(
    regs: Map<i32, Registration<W>>,
    kernel: Map<i32, u32>,
    fd: i32,
    is_read: bool,
    waker: W,
)
    requires
        regs.contains_key(fd) <==> kernel.contains_key(fd),
    ensures
        kernel_grants(kernel, registering(regs, fd, is_read, waker).ctl),
        registering(regs, fd, is_read, waker).ctl.op != 2,
        regs.contains_key(fd) ==> {
            &&& kernel_grants(kernel, (Ctl { op: CTL_DEL, fd, events: 0, data: 0 }))
            &&& kernel_grants(kernel, rearm(fd, regs[fd], fd_to_data(fd)))
        },
{
}

/// What the bits of an event say.
proof fn lemma_event_bits(events: u32)
    by (bit_vector)
    ensures
        events & 0x1 != 0 || events & (0x8u32 | 0x10u32) != 0 <==> events & 0x19 != 0,
        events & 0x4 != 0 || events & (0x8u32 | 0x10u32) != 0 <==> events & 0x1c != 0,
{
}

/// An event wakes whom it concerns. With `EPOLLIN`, `EPOLLERR` or `EPOLLHUP` it takes
/// the waker of the reader, with `EPOLLOUT`, `EPOLLERR` or `EPOLLHUP` that of the
/// writer; the reader is woken first. Whoever is not concerned goes on waiting, and
/// then the kernel is asked to watch the file descriptor for just that.
pub proof fn law_event_wakes_whom_it_concerns<W>(
    state: Dispatched<W>,
    wake_fd: i32,
    event: Event,
)
    requires
        state.regs.contains_key(data_to_fd(event.data)),
        data_to_fd(event.data) != wake_fd,
    ensures
        ({
            let fd = data_to_fd(event.data);
            let after = dispatch_event(state, wake_fd, event);
            let for_reader = event.events & 0x19 != 0;
            let for_writer = event.events & 0x1c != 0;
            let (reader, writer) = (state.regs[fd].read_waker, state.regs[fd].write_waker);
            &&& after.regs.dom() == state.regs.dom()
            &&& forall|other: i32|
                other != fd && #[trigger] state.regs.contains_key(other) ==> after.regs[other]
                    == state.regs[other]
            &&& after.regs[fd].read_waker == if for_reader {
                None
            } else {
                reader
            }
            &&& after.regs[fd].write_waker == if for_writer {
                None
            } else {
                writer
            }
            &&& after.wakers == state.wakers + (if for_reader && reader is Some {
                seq![reader->0]
            } else {
                Seq::empty()
            }) + (if for_writer && writer is Some {
                seq![writer->0]
            } else {
                Seq::empty()
            })
            &&& if after.regs[fd].read_waker is None && after.regs[fd].write_waker is None {
                after.actions == state.actions
            } else {
                &&& after.actions.len() == state.actions.len() + 1
                &&& after.actions.drop_last() == state.actions
                &&& after.actions.last() matches IoAction::Ctl(ctl) && {
                    &&& ctl.op == 3
                    &&& ctl.fd == fd
                    &&& data_to_fd(ctl.data) == fd
                    &&& ctl.events & 0x1 != 0 <==> after.regs[fd].read_waker is Some
                    &&& ctl.events & 0x4 != 0 <==> after.regs[fd].write_waker is Some
                    &&& ctl.events & 0x8000_0000 != 0
                    &&& ctl.events & 0x4000_0000 != 0
                }
            }
        }),
{
    let fd = data_to_fd(event.data);
    let after = dispatch_event(state, wake_fd, event);
    lemma_event_bits(event.events);
    law_watched_for_who_waits(after.regs[fd]);
    law_event_finds_its_fd(fd);
    assert(concerns(event.events, true) == (event.events & 0x19 != 0));
    assert(concerns(event.events, false) == (event.events & 0x1c != 0));
    if after.actions.len() > state.actions.len() {
        assert(after.actions.drop_last() =~= state.actions);
    }
    assert(after.regs.dom() =~= state.regs.dom());
}

/// An event of the file descriptor by which a wait is interrupted wakes nobody and
/// has it reset; one of a file descriptor that is not registered does nothing.
pub proof fn law_other_events_wake_nobody<W>(state: Dispatched<W>, wake_fd: i32, event: Event)
    requires
        data_to_fd(event.data) == wake_fd || !state.regs.contains_key(data_to_fd(event.data)),
    ensures
        dispatch_event(state, wake_fd, event).regs == state.regs,
        dispatch_event(state, wake_fd, event).wakers == state.wakers,
        dispatch_event(state, wake_fd, event).actions == state.actions + (if data_to_fd(event.data)
            == wake_fd {
            seq![IoAction::DrainWakeFd]
        } else {
            Seq::empty()
        }),
{
    let after = dispatch_event(state, wake_fd, event).actions;
    assert(after =~= state.actions + (if data_to_fd(event.data) == wake_fd {
        seq![IoAction::DrainWakeFd]
    } else {
        Seq::empty()
    }));
}

/// Events are handled one after another and none is left out: two batches do what
/// one batch does that holds the events of both.
pub proof fn law_batches_of_events_add_up<W>(
    regs: Map<i32, Registration<W>>,
    wake_fd: i32,
    first: Seq<Event>,
    second: Seq<Event>,
)
    ensures
        ({
            let one = dispatch_events(regs, wake_fd, first);
            let two = dispatch_events(one.regs, wake_fd, second);
            dispatch_events(regs, wake_fd, first + second) == (Dispatched {
                regs: two.regs,
                wakers: one.wakers + two.wakers,
                actions: one.actions + two.actions,
            })
        }),
    decreases second.len(),
{
    let one = dispatch_events(regs, wake_fd, first);
    let two = dispatch_events(one.regs, wake_fd, second);
    if second.len() == 0 {
        assert(first + second =~= first);
    } else {
        let earlier = second.drop_last();
        law_batches_of_events_add_up(regs, wake_fd, first, earlier);
        assert((first + second).drop_last() =~= first + earlier);
        assert((first + second).last() == second.last());
    }
    assert(dispatch_events(regs, wake_fd, first + second).wakers =~= one.wakers + two.wakers);
    assert(dispatch_events(regs, wake_fd, first + second).actions =~= one.actions + two.actions);
}

/// A batch of one event does what the event does; an empty one does nothing.
pub proof fn law_batch_of_one<W>(regs: Map<i32, Registration<W>>, wake_fd: i32, event: Event)
    ensures
        dispatch_events(regs, wake_fd, seq![event]) == dispatch_event(
            (Dispatched { regs, wakers: Seq::empty(), actions: Seq::empty() }),
            wake_fd,
            event,
        ),
        dispatch_events(regs, wake_fd, Seq::empty()) == (Dispatched {
            regs,
            wakers: Seq::empty(),
            actions: Seq::empty(),
        }),
{
    assert(seq![event].drop_last() =~= Seq::empty());
    assert(dispatch_events(regs, wake_fd, seq![event].drop_last()) == (Dispatched {
        regs,
        wakers: Seq::empty(),
        actions: Seq::empty(),
    }));
}

/// The kernel's answer counts: a registration that it accepts stays, and one that it
/// refuses is undone.
pub proof fn law_answer_counts<W>(
    regs: Map<i32, Registration<W>>,
    fd: i32,
    is_read: bool,
    waker: W,
    accepted: bool,
)
    ensures
        after_answer(
            with_interest(regs, fd, is_read, waker),
            registering(regs, fd, is_read, waker),
            accepted,
        ) == if accepted {
            with_interest(regs, fd, is_read, waker)
        } else {
            regs
        },
{
    law_refused_registration(regs, fd, is_read, waker);
}

/// Without a timeout a wait lasts until something happens, and a longer timeout
/// never makes a shorter wait.
pub proof fn law_longer_timeout_waits_longer(shorter: u128, longer: u128)
    requires
        shorter <= longer,
    ensures
        wait_millis(None) == -1,
        0 <= wait_millis(Some(shorter)) <= wait_millis(Some(longer)) <= 0x7fff_ffff,
{
}

} // verus!
