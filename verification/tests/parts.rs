//! The parts of the runtime, each on its own.

use std::cell::Cell;
use std::collections::HashMap;

use mini_async_runtime::channel::unbounded;
use mini_async_runtime::executor::{make_waker, Executor, ReadyQueue};
use mini_async_runtime::heap::{TimerEntry, TimerHeap};
use mini_async_runtime::join_handle::JoinHandle;
use mini_async_runtime::net::{
    registered, set_nonblocking, with_flag, Attempt, IoPoll, TcpListener, TcpStream,
};
use mini_async_runtime::reactor::{
    events_reported, timeout_millis, Ctl, Event, IoAction, Reactor, CTL_ADD, CTL_DEL, CTL_MOD,
    EDGE, ERROR, HANG_UP, ONE_SHOT, READABLE, WRITABLE,
};
use mini_async_runtime::task::{
    wrapped, Context, Poll, Task, TaskFuture, TaskIds, TaskState, Waker, YieldNow,
};
use mini_async_runtime::timer::TimerWheel;
use mini_async_runtime::workload::weighted_sum;

const MILLI: u128 = 1_000_000;

// ---- Reactor ----

/// One end of a pair of sockets, and what is watched.
struct Kernel {
    watched: HashMap<i32, (u32, u64)>,
    readable: bool,
    drained: Cell<usize>,
}

impl Kernel {
    fn new(ctl: Ctl) -> Kernel {
        let mut kernel =
            Kernel { watched: HashMap::new(), readable: false, drained: Cell::new(0) };
        kernel.ctl(ctl);
        kernel
    }

    fn ctl(&mut self, ctl: Ctl) {
        if ctl.op == CTL_DEL {
            self.watched.remove(&ctl.fd);
        } else {
            self.watched.insert(ctl.fd, (ctl.events, ctl.data));
        }
    }

    fn wait(&mut self, fd: i32) -> Vec<Event> {
        let ready = if self.readable { READABLE | WRITABLE } else { WRITABLE };
        let (mask, data) = self.watched[&fd];
        let happened: u32 = ready & mask;
        if happened == 0 {
            return vec![];
        }
        if mask & ONE_SHOT != 0 {
            self.watched.insert(fd, (0, data));
        }
        vec![Event { events: happened, data }]
    }

    /// Wait for the socket and hand what happened to the reactor.
    fn poll(&mut self, reactor: &mut Reactor<&'static str>, fd: i32) -> Vec<&'static str> {
        let events = self.wait(fd);
        let (wakers, actions) = reactor.poll(&events);
        for action in actions {
            match action {
                IoAction::Ctl(ctl) => self.ctl(ctl),
                IoAction::DrainWakeFd => self.drained.set(self.drained.get() + 1),
            }
        }
        wakers
    }
}

#[test]
fn rearm_other_direction_when_only_one_event_fires() {
    let fd_a: i32 = 8;
    let (mut reactor, ctl) = Reactor::new(3);
    let mut kernel = Kernel::new(ctl);

    let asked = reactor.register_readable(fd_a, "read");
    kernel.ctl(asked.ctl);
    reactor.finish_register(asked, true);
    let asked = reactor.register_writable(fd_a, "write");
    kernel.ctl(asked.ctl);
    reactor.finish_register(asked, true);

    // A fresh socket is writable, not readable.
    assert_eq!(timeout_millis(Some(100 * MILLI)), 100);
    let woken = kernel.poll(&mut reactor, fd_a);
    assert_eq!(woken, vec!["write"], "writable side should fire");
    assert!(!woken.contains(&"read"), "no data yet — read shouldn't fire");

    kernel.readable = true;

    // The read waker must still be armed.
    assert_eq!(timeout_millis(Some(200 * MILLI)), 200);
    let woken = kernel.poll(&mut reactor, fd_a);
    assert_eq!(woken, vec!["read"], "rearm regression: read waker stranded by oneshot");

    let ctl = reactor.deregister(fd_a);
    assert_eq!(ctl, Some(Ctl { op: CTL_DEL, fd: fd_a, events: 0, data: 0 }));
    kernel.ctl(ctl.unwrap());
    assert!(!kernel.watched.contains_key(&fd_a));
}

#[test]
fn submillisecond_timeout_does_not_busy_spin() {
    let mut elapsed: u128 = 0;
    for _ in 0..10 {
        elapsed += timeout_millis(Some(500_000)) as u128 * MILLI;
    }
    assert!(elapsed >= 5 * MILLI, "sub-ms timeout regressed to busy-spin: {elapsed:?}");
    assert_eq!(elapsed, 10 * MILLI);
}

#[test]
fn timeouts_are_rounded_up() {
    assert_eq!(timeout_millis(None), -1);
    assert_eq!(timeout_millis(Some(0)), 0);
    assert_eq!(timeout_millis(Some(1)), 1);
    assert_eq!(timeout_millis(Some(MILLI)), 1);
    assert_eq!(timeout_millis(Some(MILLI + 1)), 2);
    assert_eq!(timeout_millis(Some(u128::MAX)), i32::MAX);
    assert_eq!(timeout_millis(Some(2_147_483_647 * MILLI)), i32::MAX);
    assert_eq!(timeout_millis(Some(2_147_483_646 * MILLI)), i32::MAX - 1);
}

#[test]
fn interrupted_wait_reports_nothing() {
    assert_eq!(events_reported(3, false), Some(3));
    assert_eq!(events_reported(0, true), Some(0));
    assert_eq!(events_reported(-1, true), Some(0));
    assert_eq!(events_reported(-1, false), None);
}

#[test]
fn constants_are_those_of_the_system() {
    let (mut reactor, ctl) = Reactor::new(3);
    let add = Ctl {
        op: libc::EPOLL_CTL_ADD,
        fd: 3,
        events: libc::EPOLLIN as u32,
        data: 3,
    };
    assert_eq!(ctl, add);
    let flags: u32 = (libc::EPOLLET | libc::EPOLLONESHOT) as u32;
    let read = reactor.register_readable(9, 'r');
    let expected = Ctl {
        op: libc::EPOLL_CTL_ADD,
        fd: 9,
        events: libc::EPOLLIN as u32 | flags,
        data: 9,
    };
    assert_eq!(read.ctl, expected);
    reactor.finish_register(read, true);
    let write = reactor.register_writable(9, 'w');
    let expected = Ctl {
        op: libc::EPOLL_CTL_MOD,
        fd: 9,
        events: (libc::EPOLLIN | libc::EPOLLOUT) as u32 | flags,
        data: 9,
    };
    assert_eq!(write.ctl, expected);
    reactor.finish_register(write, true);
    let hung_up = Event { events: libc::EPOLLHUP as u32, data: 9 };
    assert_eq!(reactor.poll(&[hung_up]), (vec!['r', 'w'], vec![]));
    let del = reactor.deregister(9);
    assert_eq!(del, Some(Ctl { op: libc::EPOLL_CTL_DEL, fd: 9, events: 0, data: 0 }));
    assert_eq!(
        (READABLE, WRITABLE, ERROR, HANG_UP, CTL_ADD, CTL_DEL, CTL_MOD),
        (0x1, 0x4, 0x8, 0x10, 1, 2, 3)
    );
    assert_eq!(flags, EDGE | ONE_SHOT);
}

#[test]
fn errors_wake_both_directions() {
    let (mut reactor, _) = Reactor::new(3);
    let asked = reactor.register_readable(-5, 'r');
    reactor.finish_register(asked, true);
    let asked = reactor.register_writable(-5, 'w');
    let data = asked.ctl.data;
    assert_eq!(data, (-5i32) as u64);
    reactor.finish_register(asked, true);
    let (wakers, actions) = reactor.poll(&[Event { events: libc::EPOLLERR as u32, data }]);
    assert_eq!((wakers, actions), (vec!['r', 'w'], vec![]));
    // Nobody waits any more, but the descriptor is still known.
    assert_eq!(reactor.poll(&[Event { events: READABLE, data }]), (vec![], vec![]));
    assert_eq!(reactor.register_readable(-5, 'x').ctl.op, CTL_MOD);
}

#[test]
fn refused_registration_leaves_no_trace() {
    let (mut reactor, _) = Reactor::new(3);
    let asked = reactor.register_readable(7, 'a');
    assert!(asked.is_new);
    reactor.finish_register(asked, false);
    assert_eq!(reactor.deregister(7), None);

    let asked = reactor.register_readable(7, 'a');
    reactor.finish_register(asked, true);
    let asked = reactor.register_readable(7, 'b');
    assert_eq!(asked.old_waker, Some('a'));
    reactor.finish_register(asked, false);
    let event = Event { events: READABLE, data: 7 };
    assert_eq!(reactor.poll(&[event]), (vec!['a'], vec![]));
}

#[test]
fn wake_up_is_drained_and_unknown_events_are_passed_over() {
    let (mut reactor, ctl) = Reactor::<char>::new(3);
    assert_eq!(ctl.events & ONE_SHOT, 0);
    assert_eq!(reactor.wake(), (3, 1));
    let events = [
        Event { events: READABLE, data: 3 },
        Event { events: READABLE, data: 99 },
        Event { events: READABLE, data: 3 },
    ];
    let drains = vec![IoAction::DrainWakeFd, IoAction::DrainWakeFd];
    assert_eq!(reactor.poll(&events), (vec![], drains));
}

#[test]
fn events_of_one_descriptor_leave_another_alone() {
    let (mut reactor, _) = Reactor::new(3);
    for (fd, waker) in [(7, 'a'), (8, 'b')] {
        let asked = reactor.register_readable(fd, waker);
        reactor.finish_register(asked, true);
    }
    assert_eq!(reactor.poll(&[Event { events: READABLE, data: 7 }]), (vec!['a'], vec![]));
    assert_eq!(reactor.poll(&[Event { events: READABLE, data: 8 }]), (vec!['b'], vec![]));
}

// ---- Networking ----

#[test]
fn nonblocking_flag_is_added() {
    assert_eq!(set_nonblocking(-1), None);
    assert_eq!(set_nonblocking(2), Some(2 | libc::O_NONBLOCK));
    assert_eq!(set_nonblocking(2 | libc::O_NONBLOCK), Some(2 | libc::O_NONBLOCK));
    assert_eq!(with_flag(0b101, 0b010), Some(0b111));
    assert_eq!(with_flag(-3, 0b010), None);
}

#[test]
fn operations_complete_or_register() {
    let (mut reactor, _) = Reactor::new(3);
    let mut stream = TcpStream::new(5);
    let done = stream.async_read().poll::<usize, char, char>(Attempt::Done(4), &mut reactor, 'w');
    assert!(matches!(done, IoPoll::Ready(Ok(4))));
    let failed =
        stream.async_write().poll::<usize, char, char>(Attempt::Failed('e'), &mut reactor, 'w');
    assert!(matches!(failed, IoPoll::Ready(Err('e'))));

    let blocked =
        stream.async_write().poll::<usize, char, char>(Attempt::WouldBlock, &mut reactor, 'w');
    match blocked {
        IoPoll::Register(asked) => {
            assert_eq!((asked.fd, asked.is_read), (5, false));
            assert_eq!(registered::<usize, char, char>(&mut reactor, asked, Ok(())), Poll::Pending);
        }
        IoPoll::Ready(_) => panic!("the write would block"),
    }
    let blocked =
        stream.async_read().poll::<usize, char, char>(Attempt::WouldBlock, &mut reactor, 'r');
    match blocked {
        IoPoll::Register(asked) => {
            assert_eq!((asked.fd, asked.is_read), (5, true));
            let refused = registered::<usize, char, char>(&mut reactor, asked, Err('x'));
            assert_eq!(refused, Poll::Ready(Err('x')));
        }
        IoPoll::Ready(_) => panic!("the read would block"),
    }
    assert_eq!(reactor.poll(&[Event { events: WRITABLE, data: 5 }]), (vec!['w'], vec![]));
    assert!(stream.close(&mut reactor).is_some());
}

#[test]
fn listener_waits_until_it_is_readable() {
    let (mut reactor, _) = Reactor::new(3);
    let listener = TcpListener::new(6);
    let blocked = listener.accept().poll::<i32, char, char>(Attempt::WouldBlock, &mut reactor, 'a');
    match blocked {
        IoPoll::Register(asked) => {
            assert_eq!((asked.fd, asked.is_read), (6, true));
            assert_eq!(registered::<i32, char, char>(&mut reactor, asked, Ok(())), Poll::Pending);
        }
        IoPoll::Ready(_) => panic!("the accept would block"),
    }
    assert!(listener.accept().accepted(11, "peer", Ok::<(), char>(())).is_ok());
    assert_eq!(listener.accept().accepted(11, "peer", Err('e')).err(), Some('e'));
    let ctl = listener.close(&mut reactor);
    assert_eq!(ctl.map(|ctl| (ctl.op, ctl.fd)), Some((CTL_DEL, 6)));
}

// ---- Channel ----

#[test]
fn values_come_out_in_order() {
    let (mut inner, tx, mut rx) = unbounded::<u32, char>();
    assert_eq!(rx.try_recv(&mut inner), None);
    for value in [3, 1, 2] {
        assert_eq!(tx.send(&mut inner, value), Ok(None));
    }
    assert_eq!(rx.try_recv(&mut inner), Some(3));
    assert_eq!(rx.recv().poll(&mut inner, 'w'), Poll::Ready(Some(1)));
    assert_eq!(rx.try_recv(&mut inner), Some(2));
}

#[test]
fn send_fails_without_a_receiver() {
    let (mut inner, tx, rx) = unbounded::<u32, char>();
    rx.close(&mut inner);
    assert_eq!(tx.send(&mut inner, 9), Err(9));
}

#[test]
fn channel_ends_with_its_last_sender() {
    let (mut inner, tx, mut rx) = unbounded::<u32, char>();
    let other = tx.clone(&mut inner);
    assert_eq!(rx.recv().poll(&mut inner, 'w'), Poll::Pending);
    assert_eq!(tx.close(&mut inner), None);
    assert_eq!(other.send(&mut inner, 1), Ok(Some('w')));
    assert_eq!(rx.recv().poll(&mut inner, 'x'), Poll::Ready(Some(1)));
    assert_eq!(rx.recv().poll(&mut inner, 'y'), Poll::Pending);
    assert_eq!(other.close(&mut inner), Some('y'));
    assert_eq!(rx.recv().poll(&mut inner, 'z'), Poll::Ready(None));
}

// ---- Timers ----

#[test]
fn heap_gives_the_earliest_deadline_first() {
    let mut heap = TimerHeap::new();
    assert!(heap.is_empty());
    let deadlines: Vec<u128> = (0..50).map(|i| (i * 37) % 50).collect();
    for deadline in &deadlines {
        heap.push(TimerEntry { deadline: *deadline, state: *deadline as usize });
    }
    for expected in 0..50u128 {
        assert_eq!(heap.peek().map(|entry| entry.deadline), Some(expected));
        let entry = heap.pop().unwrap();
        assert_eq!((entry.deadline, entry.state), (expected, expected as usize));
    }
    assert!(heap.pop().is_none());
}

#[test]
fn timers_fire_in_time() {
    let mut timers = TimerWheel::new();
    assert!(!timers.has_pending());
    let mut late = timers.register(60);
    let mut early = timers.register(30);
    assert!(timers.has_pending());
    assert_eq!(late.poll(&mut timers, 'l'), Poll::Pending);
    assert_eq!(early.poll(&mut timers, 'x'), Poll::Pending);
    assert_eq!(early.poll(&mut timers, 'e'), Poll::Pending);
    assert_eq!(timers.process(29), (vec![], Some(1)));
    assert_eq!(timers.process(30), (vec!['e'], Some(30)));
    assert_eq!(timers.process(30), (vec![], Some(30)));
    assert_eq!(early.poll(&mut timers, 'e'), Poll::Ready(()));
    assert_eq!(late.poll(&mut timers, 'm'), Poll::Pending);
    assert_eq!(timers.process(100), (vec!['m'], None));
    assert!(!timers.has_pending());
    assert_eq!(late.poll(&mut timers, 'l'), Poll::Ready(()));
    timers.release(early);
    timers.release(late);
}

#[test]
fn only_the_last_waker_of_a_sleep_comes_out_and_once() {
    let mut timers = TimerWheel::new();
    let mut sleep = timers.register(10);
    for waker in ['a', 'b', 'c'] {
        assert_eq!(sleep.poll(&mut timers, waker), Poll::Pending);
        assert_eq!(timers.process(9), (vec![], Some(1)));
    }
    assert_eq!(timers.process(11), (vec!['c'], None));
    for waker in ['d', 'e'] {
        assert_eq!(sleep.poll(&mut timers, waker), Poll::Ready(()));
        assert_eq!(timers.process(12), (vec![], None));
    }
}

#[test]
fn deadline_in_the_past_needs_timers_to_be_fired() {
    let mut timers = TimerWheel::new();
    assert_eq!(timers.process(50), (vec![], None));
    let mut sleep = timers.register(10);
    assert!(timers.has_pending());
    assert_eq!(sleep.poll(&mut timers, 'a'), Poll::Pending);
    assert_eq!(timers.process(50), (vec!['a'], None));
    assert_eq!(sleep.poll(&mut timers, 'b'), Poll::Ready(()));
}

#[test]
fn wakers_come_out_in_the_order_of_deadlines() {
    let mut timers = TimerWheel::new();
    let mut sleeps = Vec::new();
    for (deadline, waker) in [(3, 'c'), (1, 'a'), (2, 'b')] {
        let mut sleep = timers.register(deadline);
        assert_eq!(sleep.poll(&mut timers, waker), Poll::Pending);
        sleeps.push(sleep);
    }
    assert_eq!(timers.process(5), (vec!['a', 'b', 'c'], None));
}

#[test]
fn abandoned_timer_still_fires_and_its_slot_is_used_again() {
    let mut timers = TimerWheel::new();
    let mut sleep = timers.register(10);
    assert_eq!(sleep.poll(&mut timers, 'a'), Poll::Pending);
    timers.release(sleep);
    assert!(timers.has_pending());
    assert_eq!(timers.process(10), (vec!['a'], None));
    let mut again = timers.register(20);
    assert_eq!(again.poll(&mut timers, 'b'), Poll::Pending);
    assert_eq!(timers.process(20), (vec!['b'], None));
    assert_eq!(again.poll(&mut timers, 'b'), Poll::Ready(()));
}

// ---- Executor ----

#[test]
fn ready_queue_holds_every_id_once() {
    let mut queue = ReadyQueue::new();
    assert!(queue.is_empty());
    for id in [4, 2, 4, 9, 2] {
        queue.push(id);
    }
    make_waker(1).wake_by_ref(&mut queue);
    make_waker(1).wake(&mut queue);
    assert_eq!(queue.drain(), vec![4, 2, 9, 1]);
    assert!(queue.is_empty());
    queue.push(4);
    assert_eq!(queue.drain(), vec![4]);
}

#[test]
fn yielding_task_is_polled_until_it_completes() {
    let mut executor = Executor::new();
    executor.spawn(Task::new(3, YieldNow { left: 2 }, make_waker(3)));
    for _ in 0..3 {
        assert!(!executor.is_empty());
        assert!(executor.tick());
    }
    assert!(executor.is_empty());
    assert!(!executor.tick());
    // A waker that outlives its task finds nothing to do.
    executor.wake(make_waker(3));
    assert!(!executor.is_idle());
    assert!(!executor.tick());
    assert!(executor.is_idle());
    assert!(executor.is_empty());
}

/// A future that waits for another task to wake it, or wakes a task.
enum Meeting {
    Wait(bool),
    Wake(usize),
}

impl TaskFuture for Meeting {
    fn poll(&mut self, cx: &mut Context) -> Poll<()> {
        match self {
            Meeting::Wait(met) => {
                if *met {
                    return Poll::Ready(());
                }
                *met = true;
                Poll::Pending
            }
            Meeting::Wake(task_id) => {
                cx.wake(Waker { task_id: *task_id });
                Poll::Ready(())
            }
        }
    }
}

#[test]
fn pending_task_waits_for_its_waker() {
    let mut executor = Executor::new();
    executor.spawn(Task::new(0, Meeting::Wait(false), make_waker(0)));
    assert!(executor.tick());
    assert!(executor.is_idle());
    assert!(!executor.tick());
    assert!(!executor.is_empty());
    executor.spawn(Task::new(1, Meeting::Wake(0), make_waker(1)));
    assert!(executor.tick());
    assert!(!executor.is_idle());
    assert!(executor.tick());
    assert!(executor.is_empty());
}

#[test]
fn tick_that_polls_nothing_says_so() {
    let mut executor = Executor::new();
    executor.spawn(Task::new(7, Meeting::Wake(7), make_waker(7)));
    // The task wakes itself and completes, so its id is queued without a task.
    assert!(executor.tick());
    assert!(executor.is_empty());
    assert!(!executor.is_idle());
    assert!(!executor.tick());
    assert!(executor.is_idle());
}

#[test]
fn empty_once_every_task_has_completed() {
    let mut executor = Executor::new();
    assert!(executor.is_empty());
    executor.spawn(Task::new(0, YieldNow { left: 0 }, make_waker(0)));
    executor.spawn(Task::new(1, YieldNow { left: 1 }, make_waker(1)));
    assert!(executor.tick());
    assert!(!executor.is_empty());
    executor.spawn(Task::new(2, YieldNow { left: 2 }, make_waker(2)));
    for _ in 0..2 {
        assert!(executor.tick());
        assert!(!executor.is_empty());
    }
    assert!(executor.tick());
    assert!(executor.is_empty());
}

#[test]
fn finished_poll_is_noted() {
    let mut executor = Executor::new();
    let task = Task::new(5, YieldNow { left: 9 }, make_waker(5));
    executor.finish_poll(5, task, vec![5, 6, 5], Poll::Pending);
    assert!(!executor.is_empty());
    assert!(!executor.is_idle());
    let task = Task::new(5, YieldNow { left: 9 }, make_waker(5));
    executor.finish_poll(5, task, vec![], Poll::Ready(()));
    assert!(executor.is_empty());
}

#[test]
fn task_keeps_its_id_and_waker() {
    let mut task = Task::new(8, YieldNow { left: 1 }, make_waker(8));
    let mut cx = Context::from_waker(*task.waker());
    assert_eq!(task.poll(&mut cx), Poll::Pending);
    assert_eq!(task.poll(&mut cx), Poll::Ready(()));
    assert_eq!((task.id, *task.waker()), (8, Waker { task_id: 8 }));
}

#[test]
fn task_ids_count_up() {
    let mut ids = TaskIds::new();
    let given: Vec<usize> = (0..4).map(|_| ids.next_task_id()).collect();
    assert_eq!(given, vec![0, 1, 2, 3]);
}

// ---- Join handle ----

#[test]
fn handle_gives_the_result_once() {
    let mut handle = JoinHandle::<u32, char>::new();
    assert_eq!(handle.poll('a'), Poll::Pending);
    assert_eq!(handle.poll('b'), Poll::Pending);
    assert_eq!(handle.state.complete(42), Some('b'));
    assert_eq!(handle.poll('c'), Poll::Ready(42));
    assert_eq!(handle.poll('d'), Poll::Pending);
}

#[test]
fn result_is_stored_before_the_task_is_ready() {
    let mut handle = JoinHandle::<u32, char>::new();
    assert_eq!(handle.poll('a'), Poll::Pending);
    assert_eq!(wrapped(&mut handle.state, Poll::Pending), (Poll::Pending, None));
    assert_eq!((handle.state.result, handle.state.waker), (None, Some('a')));
    assert_eq!(wrapped(&mut handle.state, Poll::Ready(7)), (Poll::Ready(()), Some('a')));
    assert_eq!(handle.poll('b'), Poll::Ready(7));
}

#[test]
fn nobody_is_woken_where_nobody_waits() {
    let mut state = TaskState::<u32, char>::new();
    assert_eq!(state.complete(1), None);
    assert_eq!(state.result, Some(1));
}

// ---- Workload ----

#[test]
fn weighted_sums_wrap() {
    assert_eq!(weighted_sum(0, 7), 0);
    assert_eq!(weighted_sum(5, 1), 10);
    assert_eq!(weighted_sum(1_000_000, 1), 499_999_500_000);
    assert_eq!(weighted_sum(1_000_000, 4), 1_999_998_000_000);
    assert_eq!(weighted_sum(3, u64::MAX), u64::MAX - 2);
}
