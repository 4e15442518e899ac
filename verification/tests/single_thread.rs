//! The single-threaded runtime, driven with real futures, a clock that only
//! waits move, and sockets that live in memory.

use std::cell::{Cell, RefCell};
use std::collections::{HashMap, VecDeque};
use std::future::Future;
use std::pin::Pin;
use std::rc::Rc;
use std::sync::{Arc, Mutex};

use mini_async_runtime::channel;
use mini_async_runtime::join_handle::JoinHandle;
use mini_async_runtime::net::{self, Attempt, IoPoll};
use mini_async_runtime::reactor::{
    timeout_millis, Ctl, Event, IoAction, Reactor, CTL_DEL, ONE_SHOT, READABLE, WRITABLE,
};
use mini_async_runtime::runtime::{Action, BlockOn, Happened};
use mini_async_runtime::task::{wrapped, Context, Poll, TaskFuture, Waker};
use mini_async_runtime::timer::{Sleep, TimerWheel};
use mini_async_runtime::Runtime;

const MILLI: u128 = 1_000_000;

/// Notes the id of a task that is woken.
struct IdWaker {
    id: usize,
    woken: Arc<Mutex<Vec<usize>>>,
}

impl std::task::Wake for IdWaker {
    fn wake(self: Arc<Self>) {
        self.woken.lock().unwrap().push(self.id);
    }
}

/// Notes that it was woken.
struct FlagWaker(Mutex<bool>);

impl std::task::Wake for FlagWaker {
    fn wake(self: Arc<Self>) {
        *self.0.lock().unwrap() = true;
    }
}

/// Any future, as a task.
struct Boxed {
    future: Pin<Box<dyn Future<Output = ()>>>,
    woken: Arc<Mutex<Vec<usize>>>,
}

impl TaskFuture for Boxed {
    fn poll(&mut self, cx: &mut Context) -> Poll<()> {
        let waker = std::task::Waker::from(Arc::new(IdWaker {
            id: cx.waker().task_id,
            woken: self.woken.clone(),
        }));
        let polled = self.future.as_mut().poll(&mut std::task::Context::from_waker(&waker));
        for task_id in self.woken.lock().unwrap().drain(..) {
            cx.wake(Waker { task_id });
        }
        match polled {
            std::task::Poll::Ready(()) => Poll::Ready(()),
            std::task::Poll::Pending => Poll::Pending,
        }
    }
}

/// Poll a future, and give it up once it is ready.
fn poll_once<F: Future>(
    future: &mut Option<Pin<Box<F>>>,
    cx: &mut std::task::Context<'_>,
) -> Poll<F::Output> {
    match future.as_mut().map(|future| future.as_mut().poll(cx)) {
        Some(std::task::Poll::Ready(result)) => {
            *future = None;
            Poll::Ready(result)
        }
        _ => Poll::Pending,
    }
}

/// Sockets in memory, and which of them are watched.
struct Kernel {
    watched: HashMap<i32, (u32, u64)>,
    peers: HashMap<i32, i32>,
    incoming: HashMap<i32, VecDeque<u8>>,
    backlog: VecDeque<i32>,
    next_fd: i32,
}

const LISTENER_FD: i32 = 10;

impl Kernel {
    fn ctl(&mut self, ctl: Ctl) {
        if ctl.op == CTL_DEL {
            self.watched.remove(&ctl.fd);
        } else {
            self.watched.insert(ctl.fd, (ctl.events, ctl.data));
        }
    }

    fn ready(&self, fd: i32) -> u32 {
        let mut events: u32 = 0;
        if fd == LISTENER_FD {
            if !self.backlog.is_empty() {
                events |= READABLE;
            }
        } else if let Some(bytes) = self.incoming.get(&fd) {
            if !bytes.is_empty() {
                events |= READABLE;
            }
            events |= WRITABLE;
        }
        events
    }

    fn wait(&mut self) -> Vec<Event> {
        let mut events = Vec::new();
        let fds: Vec<i32> = self.watched.keys().copied().collect();
        for fd in fds {
            let (mask, data) = self.watched[&fd];
            let happened: u32 = self.ready(fd) & mask;
            if happened != 0 {
                events.push(Event { events: happened, data });
                if mask & ONE_SHOT != 0 {
                    self.watched.insert(fd, (0, data));
                }
            }
        }
        events
    }

    fn connect(&mut self) -> i32 {
        let (client, server) = (self.next_fd, self.next_fd + 1);
        self.next_fd += 2;
        self.peers.insert(client, server);
        self.peers.insert(server, client);
        self.incoming.insert(client, VecDeque::new());
        self.incoming.insert(server, VecDeque::new());
        self.backlog.push_back(server);
        client
    }
}

/// What the tasks of a runtime share.
struct World {
    timers: RefCell<TimerWheel<std::task::Waker>>,
    reactor: RefCell<Reactor<std::task::Waker>>,
    kernel: RefCell<Kernel>,
    now: Cell<u128>,
}

struct Rt {
    runtime: Runtime<Boxed>,
    woken: Arc<Mutex<Vec<usize>>>,
    world: Rc<World>,
}

/// The handle of a task, shared with the task.
struct Join<T> {
    handle: Rc<RefCell<JoinHandle<T, std::task::Waker>>>,
}

impl<T> Future for Join<T> {
    type Output = T;

    fn poll(self: Pin<&mut Self>, cx: &mut std::task::Context<'_>) -> std::task::Poll<T> {
        match self.handle.borrow_mut().poll(cx.waker().clone()) {
            Poll::Ready(value) => std::task::Poll::Ready(value),
            Poll::Pending => std::task::Poll::Pending,
        }
    }
}

impl Rt {
    fn new() -> Rt {
        let (reactor, ctl) = Reactor::new(3);
        let mut kernel = Kernel {
            watched: HashMap::new(),
            peers: HashMap::new(),
            incoming: HashMap::new(),
            backlog: VecDeque::new(),
            next_fd: 20,
        };
        kernel.ctl(ctl);
        Rt {
            runtime: Runtime::new(),
            woken: Arc::new(Mutex::new(Vec::new())),
            world: Rc::new(World {
                timers: RefCell::new(TimerWheel::new()),
                reactor: RefCell::new(reactor),
                kernel: RefCell::new(kernel),
                now: Cell::new(0),
            }),
        }
    }

    fn spawn<T: 'static>(&mut self, future: impl Future<Output = T> + 'static) -> Join<T> {
        let handle = Rc::new(RefCell::new(JoinHandle::<T, std::task::Waker>::new()));
        let state = handle.clone();
        let mut future = Some(Box::pin(future));
        let future = Box::pin(std::future::poll_fn(move |cx| {
            let polled = poll_once(&mut future, cx);
            let (report, waiting) = wrapped(&mut state.borrow_mut().state, polled);
            if let Some(waker) = waiting {
                waker.wake();
            }
            match report {
                Poll::Ready(()) => std::task::Poll::Ready(()),
                Poll::Pending => std::task::Poll::Pending,
            }
        }));
        self.runtime.spawn(Boxed { future, woken: self.woken.clone() });
        Join { handle }
    }

    fn use_wakers(&mut self, wakers: Vec<std::task::Waker>) {
        for waker in wakers {
            waker.wake();
        }
        let woken: Vec<usize> = self.woken.lock().unwrap().drain(..).collect();
        for task_id in woken {
            self.runtime.wake(Waker { task_id });
        }
    }

    fn process_timers(&mut self) -> (Option<u128>, bool) {
        let (wakers, next) = self.world.timers.borrow_mut().process(self.world.now.get());
        let pending = self.world.timers.borrow().has_pending();
        self.use_wakers(wakers);
        (next, pending)
    }

    fn wait(&mut self, timeout: u128) {
        let mut events = self.world.kernel.borrow_mut().wait();
        if events.is_empty() {
            let millis = timeout_millis(Some(timeout));
            self.world.now.set(self.world.now.get() + millis as u128 * MILLI);
            events = self.world.kernel.borrow_mut().wait();
        }
        let (wakers, actions) = self.world.reactor.borrow_mut().poll(&events);
        for action in actions {
            if let IoAction::Ctl(ctl) = action {
                self.world.kernel.borrow_mut().ctl(ctl);
            }
        }
        self.use_wakers(wakers);
    }

    /// Drive the future; `None` if it cannot complete.
    fn try_block_on<T: 'static>(&mut self, future: impl Future<Output = T> + 'static) -> Option<T> {
        let handle = self.spawn(future).handle;
        let flag = Arc::new(FlagWaker(Mutex::new(true)));
        let (mut driven, mut action) = BlockOn::new();
        let mut value = None;
        loop {
            let happened = match action {
                Action::Tick => {
                    let polled = self.runtime.tick();
                    self.use_wakers(vec![]);
                    Happened::Ticked(polled)
                }
                Action::PollHandle { reset_woken } => {
                    if reset_woken {
                        *flag.0.lock().unwrap() = false;
                    }
                    match handle.borrow_mut().poll(std::task::Waker::from(flag.clone())) {
                        Poll::Ready(result) => value = Some(result),
                        Poll::Pending => {}
                    }
                    Happened::HandlePolled(value.is_some())
                }
                Action::ProcessTimers => {
                    let (next, pending) = self.process_timers();
                    Happened::TimersProcessed(next, pending)
                }
                Action::Wait(timeout) => {
                    self.wait(timeout);
                    Happened::Waited
                }
                Action::Return => return value,
                Action::Fail => return None,
            };
            let woken = *flag.0.lock().unwrap();
            action = self.runtime.block_on(&mut driven, happened, woken);
        }
    }

    fn block_on<T: 'static>(&mut self, future: impl Future<Output = T> + 'static) -> T {
        self.try_block_on(future).unwrap()
    }
}

/// A sleep on the timers of a world.
struct Sleeping {
    sleep: Option<Sleep>,
    world: Rc<World>,
}

fn sleep(world: &Rc<World>, duration: u128) -> Sleeping {
    let deadline = world.now.get() + duration;
    let sleep = world.timers.borrow_mut().register(deadline);
    Sleeping { sleep: Some(sleep), world: world.clone() }
}

impl Future for Sleeping {
    type Output = ();

    fn poll(mut self: Pin<&mut Self>, cx: &mut std::task::Context<'_>) -> std::task::Poll<()> {
        let world = self.world.clone();
        let mut timers = world.timers.borrow_mut();
        match self.sleep.as_mut().unwrap().poll(&mut timers, cx.waker().clone()) {
            Poll::Ready(()) => std::task::Poll::Ready(()),
            Poll::Pending => std::task::Poll::Pending,
        }
    }
}

impl Drop for Sleeping {
    fn drop(&mut self) {
        self.world.timers.borrow_mut().release(self.sleep.take().unwrap());
    }
}

type SharedInner<T> = Rc<RefCell<channel::Inner<T, std::task::Waker>>>;

/// A sender that is given up when it is dropped.
struct Tx<T> {
    inner: SharedInner<T>,
    sender: Option<channel::Sender<T>>,
}

impl<T> Tx<T> {
    fn send(&self, value: T) -> Result<(), T> {
        let sent = self.sender.as_ref().unwrap().send(&mut *self.inner.borrow_mut(), value)?;
        if let Some(waker) = sent {
            waker.wake();
        }
        Ok(())
    }
}

impl<T> Clone for Tx<T> {
    fn clone(&self) -> Self {
        let sender = self.sender.as_ref().unwrap().clone(&mut *self.inner.borrow_mut());
        Tx { inner: self.inner.clone(), sender: Some(sender) }
    }
}

impl<T> Drop for Tx<T> {
    fn drop(&mut self) {
        let waiting = self.sender.take().unwrap().close(&mut *self.inner.borrow_mut());
        if let Some(waker) = waiting {
            waker.wake();
        }
    }
}

struct Rx<T> {
    inner: SharedInner<T>,
    receiver: channel::Receiver<T>,
}

impl<T> Rx<T> {
    async fn recv(&mut self) -> Option<T> {
        std::future::poll_fn(|cx| {
            let polled = self.receiver.recv().poll(&mut *self.inner.borrow_mut(), cx.waker().clone());
            match polled {
                Poll::Ready(value) => std::task::Poll::Ready(value),
                Poll::Pending => std::task::Poll::Pending,
            }
        })
        .await
    }
}

fn unbounded<T>() -> (Tx<T>, Rx<T>) {
    let (inner, sender, receiver) = channel::unbounded();
    let inner = Rc::new(RefCell::new(inner));
    (Tx { inner: inner.clone(), sender: Some(sender) }, Rx { inner, receiver })
}

/// A future that yields once and then completes.
struct YieldNow(bool);

impl Future for YieldNow {
    type Output = ();

    fn poll(mut self: Pin<&mut Self>, cx: &mut std::task::Context<'_>) -> std::task::Poll<()> {
        if self.0 {
            std::task::Poll::Ready(())
        } else {
            self.0 = true;
            cx.waker().wake_by_ref();
            std::task::Poll::Pending
        }
    }
}

type Io<T> = Result<T, String>;

/// Do what a poll of an I/O operation asks for.
fn finish<T>(world: &World, poll: IoPoll<T, String, std::task::Waker>) -> std::task::Poll<Io<T>> {
    match poll {
        IoPoll::Ready(result) => std::task::Poll::Ready(result),
        IoPoll::Register(asked) => {
            world.kernel.borrow_mut().ctl(asked.ctl);
            let answered = net::registered(&mut *world.reactor.borrow_mut(), asked, Ok(()));
            match answered {
                Poll::Ready(result) => std::task::Poll::Ready(result),
                Poll::Pending => std::task::Poll::Pending,
            }
        }
    }
}

struct Listener {
    inner: net::TcpListener,
    world: Rc<World>,
}

impl Listener {
    async fn accept(&self) -> Io<Stream> {
        let fd = std::future::poll_fn(|cx| {
            let attempt = match self.world.kernel.borrow_mut().backlog.pop_front() {
                Some(fd) => Attempt::Done(fd),
                None => Attempt::WouldBlock,
            };
            let polled = self.inner.accept().poll(
                attempt,
                &mut *self.world.reactor.borrow_mut(),
                cx.waker().clone(),
            );
            finish(&self.world, polled)
        })
        .await?;
        let (inner, _addr) = self.inner.accept().accepted(fd, "127.0.0.1", Ok::<(), String>(()))?;
        Ok(Stream { inner, fd, world: self.world.clone() })
    }
}

struct Stream {
    inner: net::TcpStream,
    fd: i32,
    world: Rc<World>,
}

impl Stream {
    async fn read(&mut self, buf: &mut [u8]) -> Io<usize> {
        let fd = self.fd;
        let world = self.world.clone();
        std::future::poll_fn(|cx| {
            let mut read: usize = 0;
            {
                let mut kernel = world.kernel.borrow_mut();
                let incoming = kernel.incoming.get_mut(&fd).unwrap();
                while read < buf.len() && !incoming.is_empty() {
                    buf[read] = incoming.pop_front().unwrap();
                    read += 1;
                }
            }
            let attempt = if read > 0 { Attempt::Done(read) } else { Attempt::WouldBlock };
            let polled = self.inner.async_read().poll(
                attempt,
                &mut *world.reactor.borrow_mut(),
                cx.waker().clone(),
            );
            finish(&world, polled)
        })
        .await
    }

    async fn write(&mut self, buf: &[u8]) -> Io<usize> {
        let fd = self.fd;
        let world = self.world.clone();
        std::future::poll_fn(|cx| {
            {
                let mut kernel = world.kernel.borrow_mut();
                let peer = kernel.peers[&fd];
                kernel.incoming.get_mut(&peer).unwrap().extend(buf.iter().copied());
            }
            let polled = self.inner.async_write().poll(
                Attempt::Done(buf.len()),
                &mut *world.reactor.borrow_mut(),
                cx.waker().clone(),
            );
            finish(&world, polled)
        })
        .await
    }
}

// ---- Basic executor tests ----

#[test]
fn test_block_on_simple() {
    let mut rt = Rt::new();
    let val = rt.block_on(async { 42 });
    assert_eq!(val, 42);
}

#[test]
fn test_block_on_with_spawn() {
    let mut rt = Rt::new();
    let handle = rt.spawn(async { 10 + 20 });
    let val = rt.block_on(handle);
    assert_eq!(val, 30);
}

#[test]
fn test_multiple_spawns() {
    let mut rt = Rt::new();
    let h1 = rt.spawn(async { 1 });
    let h2 = rt.spawn(async { 2 });
    let h3 = rt.spawn(async { 3 });

    let sum = rt.block_on(async {
        let a = h1.await;
        let b = h2.await;
        let c = h3.await;
        a + b + c
    });
    assert_eq!(sum, 6);
}

#[test]
fn test_spawn_returns_string() {
    let mut rt = Rt::new();
    let handle = rt.spawn(async { String::from("hello async") });
    let val = rt.block_on(handle);
    assert_eq!(val, "hello async");
}

// ---- Timer tests ----

#[test]
fn test_sleep_completes() {
    let mut rt = Rt::new();
    let world = rt.world.clone();

    let start = rt.world.now.get();
    rt.block_on(async move {
        let sleeping = sleep(&world, 50 * MILLI);
        sleeping.await;
    });
    let elapsed = rt.world.now.get() - start;
    assert!(elapsed >= 40 * MILLI, "sleep completed too early: {:?}", elapsed);
    assert_eq!(elapsed, 50 * MILLI);
}

#[test]
fn test_multiple_timers() {
    let mut rt = Rt::new();
    let world1 = rt.world.clone();
    let world2 = rt.world.clone();

    let h1 = rt.spawn(async move {
        sleep(&world1, 30 * MILLI).await;
        1
    });

    let h2 = rt.spawn(async move {
        sleep(&world2, 60 * MILLI).await;
        2
    });

    let sum = rt.block_on(async { h1.await + h2.await });
    assert_eq!(sum, 3);
    assert_eq!(rt.world.now.get(), 60 * MILLI);
}

#[test]
fn runtime_sleep_counts_from_now() {
    let rt = Rt::new();
    rt.world.now.set(7 * MILLI);
    let mut timers = TimerWheel::<u8>::new();
    let mut sleeping = rt.runtime.sleep(&mut timers, 7 * MILLI, 100 * MILLI);
    assert_eq!(timers.process(106 * MILLI), (vec![], Some(MILLI)));
    assert_eq!(sleeping.poll(&mut timers, 5), Poll::Pending);
    assert_eq!(timers.process(107 * MILLI), (vec![5], None));
    assert_eq!(sleeping.poll(&mut timers, 5), Poll::Ready(()));
}

// ---- Channel tests ----

#[test]
fn test_channel_basic() {
    let mut rt = Rt::new();
    let (tx, mut rx) = unbounded::<i32>();

    let sender = rt.spawn(async move {
        tx.send(42).unwrap();
    });

    let val = rt.block_on(async move {
        sender.await;
        rx.recv().await.unwrap()
    });
    assert_eq!(val, 42);
}

#[test]
fn test_channel_multiple_messages() {
    let mut rt = Rt::new();
    let (tx, mut rx) = unbounded();

    let sender = rt.spawn(async move {
        for i in 0..5 {
            tx.send(i).unwrap();
        }
    });

    let result = rt.block_on(async move {
        sender.await;
        let mut values = Vec::new();
        while let Some(v) = rx.recv().await {
            values.push(v);
            if values.len() == 5 {
                break;
            }
        }
        values
    });
    assert_eq!(result, vec![0, 1, 2, 3, 4]);
}

#[test]
fn test_channel_sender_drop_closes() {
    let mut rt = Rt::new();
    let (tx, mut rx) = unbounded::<i32>();

    let sender = rt.spawn(async move {
        tx.send(1).unwrap();
        tx.send(2).unwrap();
        // tx is dropped here
    });

    let result = rt.block_on(async move {
        sender.await;
        let mut values = Vec::new();
        while let Some(v) = rx.recv().await {
            values.push(v);
        }
        values
    });
    assert_eq!(result, vec![1, 2]);
}

#[test]
fn test_channel_clone_sender() {
    let mut rt = Rt::new();
    let (tx1, mut rx) = unbounded();
    let tx2 = tx1.clone();

    let s1 = rt.spawn(async move {
        tx1.send(1).unwrap();
    });
    let s2 = rt.spawn(async move {
        tx2.send(2).unwrap();
    });

    let result = rt.block_on(async move {
        s1.await;
        s2.await;
        let mut values = Vec::new();
        // Both senders are dropped, channel should close.
        while let Some(v) = rx.recv().await {
            values.push(v);
        }
        values.sort();
        values
    });
    assert_eq!(result, vec![1, 2]);
}

#[test]
fn waiting_receiver_is_woken_by_a_later_send() {
    let mut rt = Rt::new();
    let (tx, mut rx) = unbounded();
    let world = rt.world.clone();
    let receiver = rt.spawn(async move { rx.recv().await });
    let _sender = rt.spawn(async move {
        sleep(&world, 20 * MILLI).await;
        tx.send(5).unwrap();
    });
    assert_eq!(rt.block_on(receiver), Some(5));
    assert_eq!(rt.world.now.get(), 20 * MILLI);
}

// ---- TCP networking tests ----

#[test]
fn test_tcp_echo() {
    let mut rt = Rt::new();
    let world = rt.world.clone();

    let listener = Listener { inner: net::TcpListener::new(LISTENER_FD), world: world.clone() };

    // Server task: accept one connection, read data, echo it back.
    let server = rt.spawn(async move {
        let mut stream = listener.accept().await.unwrap();
        let mut buf = [0u8; 128];
        let n = stream.read(&mut buf).await.unwrap();
        let _ = stream.write(&buf[..n]).await.unwrap();
    });

    // Client task: connect, send data, read echo.
    let client = rt.spawn(async move {
        let fd = world.kernel.borrow_mut().connect();
        let mut stream = Stream { inner: net::TcpStream::new(fd), fd, world };
        let msg = b"hello runtime!";
        stream.write(msg).await.unwrap();
        let mut buf = [0u8; 128];
        let n = stream.read(&mut buf).await.unwrap();
        String::from_utf8_lossy(&buf[..n]).to_string()
    });

    rt.block_on(server);
    let result = rt.block_on(client);
    assert_eq!(result, "hello runtime!");
}

// ---- Yield / cooperation test ----

#[test]
fn test_yield_now() {
    let mut rt = Rt::new();
    let (tx, mut rx) = unbounded();

    // Task A sends a value, then yields, then sends another.
    let h = rt.spawn(async move {
        tx.send(1).unwrap();
        YieldNow(false).await;
        tx.send(2).unwrap();
    });

    let result = rt.block_on(async move {
        h.await;
        let mut out = Vec::new();
        while let Some(v) = rx.recv().await {
            out.push(v);
        }
        out
    });
    assert_eq!(result, vec![1, 2]);
}

// ---- Decisions of block_on ----

#[test]
fn handle_is_polled_before_timers() {
    let runtime: Runtime<Boxed> = Runtime::new();
    let (mut driven, first) = BlockOn::new();
    assert_eq!(first, Action::Tick);
    let woken = runtime.block_on(&mut driven, Happened::Ticked(false), true);
    assert_eq!(woken, Action::PollHandle { reset_woken: true });
    let empty = runtime.block_on(&mut driven, Happened::HandlePolled(false), false);
    assert_eq!(empty, Action::PollHandle { reset_woken: false });
    let timers = runtime.block_on(&mut driven, Happened::HandlePolled(false), false);
    assert_eq!(timers, Action::ProcessTimers);
}

#[test]
fn wait_lasts_until_the_next_timer() {
    let runtime: Runtime<Boxed> = Runtime::new();
    for (next, timeout) in [(Some(250), 250), (None, MILLI)] {
        let (mut driven, _) = BlockOn::new();
        runtime.block_on(&mut driven, Happened::Ticked(false), false);
        runtime.block_on(&mut driven, Happened::HandlePolled(false), false);
        let wait = runtime.block_on(&mut driven, Happened::TimersProcessed(next, true), false);
        assert_eq!(wait, Action::Wait(timeout));
        let timers = runtime.block_on(&mut driven, Happened::Waited, false);
        assert_eq!(timers, Action::ProcessTimers);
        let tick = runtime.block_on(&mut driven, Happened::TimersProcessed(None, false), false);
        assert_eq!(tick, Action::Tick);
    }
}

#[test]
fn fails_when_nothing_is_left() {
    let runtime: Runtime<Boxed> = Runtime::new();
    let (mut driven, _) = BlockOn::new();
    runtime.block_on(&mut driven, Happened::Ticked(false), false);
    runtime.block_on(&mut driven, Happened::HandlePolled(false), false);
    let last = runtime.block_on(&mut driven, Happened::TimersProcessed(None, false), false);
    assert_eq!(last, Action::PollHandle { reset_woken: false });
    let fail = runtime.block_on(&mut driven, Happened::HandlePolled(false), false);
    assert_eq!(fail, Action::Fail);
}

#[test]
fn waits_shortly_while_tasks_are_alive() {
    let mut rt = Rt::new();
    let _pending = rt.spawn(std::future::pending::<()>());
    assert!(rt.runtime.tick());
    let (mut driven, _) = BlockOn::new();
    let timers = rt.runtime.block_on(&mut driven, Happened::Ticked(false), false);
    assert_eq!(timers, Action::ProcessTimers);
    let wait = rt.runtime.block_on(&mut driven, Happened::TimersProcessed(None, false), false);
    assert_eq!(wait, Action::Wait(5 * MILLI));
}

#[test]
fn value_is_returned_once_the_handle_gives_it() {
    let runtime: Runtime<Boxed> = Runtime::new();
    let (mut driven, _) = BlockOn::new();
    runtime.block_on(&mut driven, Happened::Ticked(false), true);
    let done = runtime.block_on(&mut driven, Happened::HandlePolled(true), false);
    assert_eq!(done, Action::Return);
}

#[test]
fn ids_are_given_in_order() {
    let mut rt = Rt::new();
    let woken = rt.woken.clone();
    let first = rt.runtime.spawn(Boxed { future: Box::pin(async {}), woken: woken.clone() });
    let second = rt.runtime.spawn(Boxed { future: Box::pin(async {}), woken });
    assert_eq!((first, second), (0, 1));
}
