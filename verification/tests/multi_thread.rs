//! The multi-threaded runtime, with the workers taking their steps in turn, a
//! clock that only waits move, and sockets that live in memory.

use std::collections::{HashMap, VecDeque};
use std::future::Future;
use std::pin::Pin;
use std::sync::{Arc, Mutex};

use mini_async_runtime::multi_thread::executor::{
    Notify, NotifyAll, PollOutcome, ReadyQueue, SharedState, WakeOp, Worker, WorkerAction,
};
use mini_async_runtime::multi_thread::net::{self, Attempt, IoPoll};
use mini_async_runtime::multi_thread::runtime::Signal;
use mini_async_runtime::multi_thread::task::{Task, IDLE, NOTIFIED, RUNNING, SCHEDULED};
use mini_async_runtime::multi_thread::timer::{
    AtomicWaker, FireState, RegisterState, Sleep, SleepState, TakeState, TimerState, TimerWheel,
    WAKER_EMPTY, WAKER_STORED, WAKER_WAKING,
};
use mini_async_runtime::multi_thread::{JoinHandle, MultiThreadRuntime};
use mini_async_runtime::reactor::{
    timeout_millis, Ctl, Event, IoAction, Reactor, CTL_DEL, ONE_SHOT, READABLE, WRITABLE,
};
use mini_async_runtime::task::{wrapped, Poll};

const MILLI: u128 = 1_000_000;
const LISTENER_FD: i32 = 10;

struct IdWaker {
    id: usize,
    woken: Arc<Mutex<Vec<usize>>>,
}

impl std::task::Wake for IdWaker {
    fn wake(self: Arc<Self>) {
        self.woken.lock().unwrap().push(self.id);
    }
}

type BoxFuture = Pin<Box<dyn Future<Output = ()> + Send>>;
type Timer = Arc<Mutex<TimerState<std::task::Waker>>>;

/// Poll a future, and give it up once it is ready.
fn poll_once<F: Future>(
    future: &mut Option<Pin<Box<F>>>,
    cx: &mut std::task::Context<'_>,
) -> Poll<F::Output> {
    match future.as_mut().map(|future| future.as_mut().poll(cx)) {
        Some(std::task::Poll::Ready(result)) => {
            *future = None;
            Poll::Ready(result)
        }
        _ => Poll::Pending,
    }
}

/// Sockets in memory, and which of them are watched.
struct Kernel {
    watched: HashMap<i32, (u32, u64)>,
    peers: HashMap<i32, i32>,
    incoming: HashMap<i32, VecDeque<u8>>,
    backlog: VecDeque<i32>,
    next_fd: i32,
}

impl Kernel {
    fn ctl(&mut self, ctl: Ctl) {
        if ctl.op == CTL_DEL {
            self.watched.remove(&ctl.fd);
        } else {
            self.watched.insert(ctl.fd, (ctl.events, ctl.data));
        }
    }

    fn ready(&self, fd: i32) -> u32 {
        let mut events: u32 = 0;
        if fd == LISTENER_FD {
            if !self.backlog.is_empty() {
                events |= READABLE;
            }
        } else if let Some(bytes) = self.incoming.get(&fd) {
            if !bytes.is_empty() {
                events |= READABLE;
            }
            events |= WRITABLE;
        }
        events
    }

    fn wait(&mut self) -> Vec<Event> {
        let mut events = Vec::new();
        let fds: Vec<i32> = self.watched.keys().copied().collect();
        for fd in fds {
            let (mask, data) = self.watched[&fd];
            let happened: u32 = self.ready(fd) & mask;
            if happened != 0 {
                events.push(Event { events: happened, data });
                if mask & ONE_SHOT != 0 {
                    self.watched.insert(fd, (0, data));
                }
            }
        }
        events
    }

    fn connect(&mut self) -> i32 {
        let (client, server) = (self.next_fd, self.next_fd + 1);
        self.next_fd += 2;
        self.peers.insert(client, server);
        self.peers.insert(server, client);
        self.incoming.insert(client, VecDeque::new());
        self.incoming.insert(server, VecDeque::new());
        self.backlog.push_back(server);
        client
    }
}

/// What the tasks share.
struct World {
    reactor: Mutex<Reactor<std::task::Waker>>,
    kernel: Mutex<Kernel>,
}

struct Rt {
    runtime: MultiThreadRuntime<BoxFuture, std::task::Waker>,
    workers: Vec<Worker<BoxFuture>>,
    timers: TimerWheel<Timer>,
    world: Arc<World>,
    woken: Arc<Mutex<Vec<usize>>>,
    now: u128,
    panicked: Vec<usize>,
}

struct Join<T> {
    handle: Arc<Mutex<JoinHandle<T, std::task::Waker>>>,
}

impl<T> Future for Join<T> {
    type Output = T;

    fn poll(self: Pin<&mut Self>, cx: &mut std::task::Context<'_>) -> std::task::Poll<T> {
        match self.handle.lock().unwrap().poll(cx.waker().clone()) {
            Poll::Ready(value) => std::task::Poll::Ready(value),
            Poll::Pending => std::task::Poll::Pending,
        }
    }
}

/// Fire a timer, without interference.
fn fire(timer: &Timer) -> Option<std::task::Waker> {
    let mut state = FireState::Complete;
    loop {
        state = timer.lock().unwrap().fire(state, false);
        if let FireState::Wake(TakeState::Done(waker)) = state {
            return waker;
        }
    }
}

struct Sleeping {
    sleep: Sleep<Timer>,
}

impl Future for Sleeping {
    type Output = ();

    fn poll(mut self: Pin<&mut Self>, cx: &mut std::task::Context<'_>) -> std::task::Poll<()> {
        let timer = self.sleep.state.clone();
        let mut state = SleepState::Check(cx.waker().clone());
        loop {
            state = self.sleep.poll(&mut timer.lock().unwrap(), state, false);
            match state {
                SleepState::Done(Poll::Ready(())) => return std::task::Poll::Ready(()),
                SleepState::Done(Poll::Pending) => return std::task::Poll::Pending,
                _ => {}
            }
        }
    }
}

impl Rt {
    fn new(num_threads: usize) -> Rt {
        let (reactor, ctl) = Reactor::new(3);
        let mut kernel = Kernel {
            watched: HashMap::new(),
            peers: HashMap::new(),
            incoming: HashMap::new(),
            backlog: VecDeque::new(),
            next_fd: 20,
        };
        kernel.ctl(ctl);
        let mut runtime = MultiThreadRuntime::new(num_threads);
        let workers = runtime.take_workers();
        Rt {
            runtime,
            workers,
            timers: TimerWheel::new(),
            world: Arc::new(World { reactor: Mutex::new(reactor), kernel: Mutex::new(kernel) }),
            woken: Arc::new(Mutex::new(Vec::new())),
            now: 0,
            panicked: Vec::new(),
        }
    }

    fn submit(&mut self, future: BoxFuture) {
        let id = self.runtime.next_task_id();
        let waker = std::task::Waker::from(Arc::new(IdWaker { id, woken: self.woken.clone() }));
        self.runtime.spawn(id, future, waker);
    }

    fn spawn<T: Send + 'static>(
        &mut self,
        future: impl Future<Output = T> + Send + 'static,
    ) -> Join<T> {
        let handle = Arc::new(Mutex::new(JoinHandle::<T, std::task::Waker>::new()));
        let state = handle.clone();
        let mut future = Some(Box::pin(future));
        self.submit(Box::pin(std::future::poll_fn(move |cx| {
            let polled = poll_once(&mut future, cx);
            let (report, waiting) = wrapped(&mut state.lock().unwrap().state, polled);
            if let Some(waker) = waiting {
                waker.wake();
            }
            match report {
                Poll::Ready(()) => std::task::Poll::Ready(()),
                Poll::Pending => std::task::Poll::Pending,
            }
        })));
        Join { handle }
    }

    fn sleep(&mut self, duration: u128) -> Sleeping {
        let state = Arc::new(Mutex::new(TimerState::new()));
        let sleep = self.runtime.sleep(&mut self.timers, self.now, duration, state);
        Sleeping { sleep }
    }

    fn process_timers(&mut self) -> (Option<u128>, bool) {
        let (fired, next) = self.timers.process(self.now);
        for timer in fired {
            if let Some(waker) = fire(&timer) {
                waker.wake();
            }
        }
        (next, self.timers.has_pending())
    }

    fn poll_reactor(&mut self, timeout: Option<u128>) {
        let mut events = self.world.kernel.lock().unwrap().wait();
        let millis = timeout_millis(timeout);
        if events.is_empty() && millis > 0 {
            self.now += millis as u128 * MILLI;
            events = self.world.kernel.lock().unwrap().wait();
        }
        let (wakers, actions) = self.world.reactor.lock().unwrap().poll(&events);
        for action in actions {
            if let IoAction::Ctl(ctl) = action {
                self.world.kernel.lock().unwrap().ctl(ctl);
            }
        }
        for waker in wakers {
            waker.wake();
        }
    }

    /// Let each worker take a step and do what it asks for.
    fn round(&mut self) {
        for i in 0..self.workers.len() {
            let action = self.workers[i].step(self.runtime.shared_mut());
            match action {
                WorkerAction::Poll(id, mut future) => {
                    let waker = std::task::Waker::from(Arc::new(IdWaker {
                        id,
                        woken: self.woken.clone(),
                    }));
                    let mut cx = std::task::Context::from_waker(&waker);
                    let outcome = if self.panicked.contains(&id) {
                        PollOutcome::Panicked
                    } else if future.as_mut().poll(&mut cx).is_ready() {
                        PollOutcome::Ready
                    } else {
                        PollOutcome::Pending
                    };
                    self.workers[i].polled(future, outcome);
                }
                WorkerAction::ProcessTimers => {
                    let (next, pending) = self.process_timers();
                    self.workers[i].timers_processed(next, pending);
                }
                WorkerAction::PollReactor(timeout) => self.poll_reactor(timeout),
                WorkerAction::FireTimers => {
                    self.process_timers();
                }
                WorkerAction::Continue
                | WorkerAction::Notify(_)
                | WorkerAction::NotifyAll
                | WorkerAction::Park(_)
                | WorkerAction::Exit => {}
            }
            let woken: Vec<usize> = self.woken.lock().unwrap().drain(..).collect();
            for id in woken {
                let mut op = WakeOp::new(id);
                while !op.is_done() {
                    op.step(self.runtime.shared_mut(), false);
                }
            }
        }
    }

    fn block_on<T: Send + 'static>(
        &mut self,
        future: impl Future<Output = T> + Send + 'static,
    ) -> T {
        let signal = Arc::new(Mutex::new(Signal::new()));
        let left = signal.clone();
        self.submit(Box::pin(async move {
            let result = future.await;
            left.lock().unwrap().deposit(result);
        }));
        loop {
            if let Some(result) = self.runtime.block_on(&mut *signal.lock().unwrap()) {
                return result;
            }
            self.round();
        }
    }
}

type Io<T> = Result<T, String>;

fn finish<T>(world: &World, poll: IoPoll<T, String, std::task::Waker>) -> std::task::Poll<Io<T>> {
    match poll {
        IoPoll::Ready(result) => std::task::Poll::Ready(result),
        IoPoll::Register(asked) => {
            world.kernel.lock().unwrap().ctl(asked.ctl);
            match net::registered(&mut *world.reactor.lock().unwrap(), asked, Ok(())) {
                Poll::Ready(result) => std::task::Poll::Ready(result),
                Poll::Pending => std::task::Poll::Pending,
            }
        }
    }
}

struct Stream {
    inner: net::TcpStream,
    fd: i32,
    world: Arc<World>,
}

impl Stream {
    async fn read(&mut self, buf: &mut [u8]) -> Io<usize> {
        let fd = self.fd;
        let world = self.world.clone();
        std::future::poll_fn(|cx| {
            let mut read: usize = 0;
            {
                let mut kernel = world.kernel.lock().unwrap();
                let incoming = kernel.incoming.get_mut(&fd).unwrap();
                while read < buf.len() && !incoming.is_empty() {
                    buf[read] = incoming.pop_front().unwrap();
                    read += 1;
                }
            }
            let attempt = if read > 0 { Attempt::Done(read) } else { Attempt::WouldBlock };
            let polled = self.inner.async_read().poll(
                attempt,
                &mut *world.reactor.lock().unwrap(),
                cx.waker().clone(),
            );
            finish(&world, polled)
        })
        .await
    }

    async fn write(&mut self, buf: &[u8]) -> Io<usize> {
        let fd = self.fd;
        let world = self.world.clone();
        std::future::poll_fn(|cx| {
            {
                let mut kernel = world.kernel.lock().unwrap();
                let peer = kernel.peers[&fd];
                kernel.incoming.get_mut(&peer).unwrap().extend(buf.iter().copied());
            }
            let polled = self.inner.async_write().poll(
                Attempt::Done(buf.len()),
                &mut *world.reactor.lock().unwrap(),
                cx.waker().clone(),
            );
            finish(&world, polled)
        })
        .await
    }
}

async fn accept(listener: &net::TcpListener, world: &Arc<World>) -> Io<Stream> {
    let fd = std::future::poll_fn(|cx| {
        let attempt = match world.kernel.lock().unwrap().backlog.pop_front() {
            Some(fd) => Attempt::Done(fd),
            None => Attempt::WouldBlock,
        };
        let polled = listener.accept().poll(
            attempt,
            &mut *world.reactor.lock().unwrap(),
            cx.waker().clone(),
        );
        finish(world, polled)
    })
    .await?;
    let (inner, _addr) = listener.accept().accepted(fd, "127.0.0.1", Ok::<(), String>(()))?;
    Ok(Stream { inner, fd, world: world.clone() })
}

#[test]
fn test_mt_block_on_simple() {
    let mut rt = Rt::new(2);
    let val = rt.block_on(async { 42 });
    assert_eq!(val, 42);
}

#[test]
fn test_mt_spawn_and_join() {
    let mut rt = Rt::new(2);
    let h1 = rt.spawn(async { 1 });
    let h2 = rt.spawn(async { 2 });
    let h3 = rt.spawn(async { 3 });

    let sum = rt.block_on(async { h1.await + h2.await + h3.await });
    assert_eq!(sum, 6);
}

#[test]
fn test_mt_spawn_returns_string() {
    let mut rt = Rt::new(2);
    let h = rt.spawn(async { String::from("hello mt") });
    let val = rt.block_on(h);
    assert_eq!(val, "hello mt");
}

#[test]
fn test_mt_sleep() {
    let mut rt = Rt::new(2);
    let sleep = rt.sleep(50 * MILLI);

    let start = rt.now;
    rt.block_on(sleep);
    let elapsed = rt.now - start;
    assert!(elapsed >= 40 * MILLI, "sleep too early: {elapsed:?}");
}

#[test]
fn test_mt_multiple_timers() {
    let mut rt = Rt::new(2);
    let s1 = rt.sleep(30 * MILLI);
    let s2 = rt.sleep(60 * MILLI);

    let h1 = rt.spawn(async move {
        s1.await;
        1
    });
    let h2 = rt.spawn(async move {
        s2.await;
        2
    });

    let sum = rt.block_on(async { h1.await + h2.await });
    assert_eq!(sum, 3);
    assert!(rt.now >= 60 * MILLI);
}

#[test]
fn test_mt_parallel_tasks() {
    let mut rt = Rt::new(4);
    let mut handles = Vec::new();
    for i in 0..8 {
        handles.push(rt.spawn(async move { i * i }));
    }

    let sum: i32 = rt.block_on(async {
        let mut total = 0;
        for h in handles {
            total += h.await;
        }
        total
    });
    // 0 + 1 + 4 + 9 + 16 + 25 + 36 + 49 = 140
    assert_eq!(sum, 140);
}

#[test]
fn test_mt_tcp_echo() {
    let mut rt = Rt::new(2);
    let listener = net::TcpListener::new(LISTENER_FD);
    let world = rt.world.clone();
    let server_world = world.clone();

    let server = rt.spawn(async move {
        let mut stream = accept(&listener, &server_world).await.unwrap();
        let mut buf = [0u8; 128];
        let n = stream.read(&mut buf).await.unwrap();
        let _ = stream.write(&buf[..n]).await.unwrap();
    });

    let fd = world.kernel.lock().unwrap().connect();
    let mut client_stream = Stream { inner: net::TcpStream::new(fd), fd, world };
    let client = rt.spawn(async move {
        client_stream.write(b"echo MT").await.unwrap();
        let mut buf = [0u8; 128];
        let n = client_stream.read(&mut buf).await.unwrap();
        String::from_utf8_lossy(&buf[..n]).to_string()
    });

    rt.block_on(server);
    let result = rt.block_on(client);
    assert_eq!(result, "echo MT");
}

#[test]
fn task_that_panics_leaves_the_others_alone() {
    let mut rt = Rt::new(2);
    let _lost = rt.spawn(async { 1 });
    rt.panicked.push(0);
    assert_eq!(rt.block_on(async { 2 }), 2);
}

#[test]
fn workers_exit_after_shutdown() {
    let mut rt = Rt::new(3);
    assert_eq!(rt.block_on(async { 1 }), 1);
    assert!(rt.runtime.shutdown().wake_reactor);
    for _ in 0..20 {
        rt.round();
    }
    for worker in rt.workers.iter_mut() {
        assert!(matches!(worker.step(rt.runtime.shared_mut()), WorkerAction::Exit));
    }
}

#[test]
fn ready_queue_keeps_order_without_duplicates() {
    let mut queue = ReadyQueue::new();
    assert!(queue.is_empty());
    for id in [4, 2, 4, 9, 2] {
        queue.enqueue(id);
    }
    assert!(!queue.is_empty());
    assert_eq!(queue.dequeue(), Some(4));
    queue.enqueue(4);
    assert_eq!(queue.dequeue(), Some(2));
    assert_eq!(queue.dequeue(), Some(9));
    assert_eq!(queue.dequeue(), Some(4));
    assert_eq!(queue.dequeue(), None);
}

#[test]
fn task_states_change_by_exchange() {
    let mut task = Task::new(5, "future", SCHEDULED, 'w');
    assert_eq!((task.id, task.future, *task.waker()), (5, Some("future"), 'w'));
    assert!(!task.compare_exchange(IDLE, SCHEDULED));
    assert_eq!(task.state, SCHEDULED);
    assert!(task.compare_exchange(SCHEDULED, RUNNING));
    assert_eq!(task.state, RUNNING);
    assert!(task.compare_exchange(RUNNING, NOTIFIED));
    assert_eq!(task.state, NOTIFIED);
}

fn wake(shared: &mut SharedState<&'static str, char>, id: usize) -> Option<Notify> {
    let mut told = None;
    let mut op = WakeOp::new(id);
    while !op.is_done() {
        if let Some(notify) = op.step(shared, false) {
            told = Some(notify);
        }
    }
    told
}

/// Step until the worker has something to do.
fn next_action(
    worker: &mut Worker<&'static str>,
    shared: &mut SharedState<&'static str, char>,
) -> WorkerAction<&'static str> {
    loop {
        match worker.step(shared) {
            WorkerAction::Continue => {}
            action => return action,
        }
    }
}

#[test]
fn wake_during_poll_schedules_again() {
    let mut shared = SharedState::new();
    shared.spawn(Task::new(7, "future", SCHEDULED, 'w'));
    let mut worker = Worker::new();
    assert!(matches!(next_action(&mut worker, &mut shared), WorkerAction::Poll(7, "future")));
    // The first wake-up marks the task, the second finds it marked.
    assert_eq!(wake(&mut shared, 7), None);
    assert_eq!(wake(&mut shared, 7), None);
    worker.polled("future", PollOutcome::Pending);
    assert!(matches!(
        next_action(&mut worker, &mut shared),
        WorkerAction::Notify(Notify { wake_reactor: false })
    ));
    assert!(matches!(next_action(&mut worker, &mut shared), WorkerAction::Poll(7, "future")));
}

#[test]
fn idle_task_is_scheduled_once_when_woken() {
    let mut shared = SharedState::new();
    shared.spawn(Task::new(7, "future", SCHEDULED, 'w'));
    let mut worker = Worker::new();
    next_action(&mut worker, &mut shared);
    worker.polled("future", PollOutcome::Pending);
    assert!(matches!(next_action(&mut worker, &mut shared), WorkerAction::ProcessTimers));
    // The worker drives I/O now, so its wait is to be interrupted.
    assert_eq!(wake(&mut shared, 7), Some(Notify { wake_reactor: true }));
    assert_eq!(wake(&mut shared, 7), None);
    let mut other = Worker::new();
    assert!(matches!(next_action(&mut other, &mut shared), WorkerAction::Poll(7, "future")));
}

#[test]
fn spurious_failure_is_tried_again() {
    let mut shared = SharedState::new();
    shared.spawn(Task::new(1, "future", IDLE, 'w'));
    let mut op = WakeOp::new(1);
    assert_eq!(op.step(&mut shared, false), None);
    assert_eq!(op.step(&mut shared, true), None);
    assert!(!op.is_done());
    assert_eq!(op.step(&mut shared, false), None);
    assert_eq!(op.step(&mut shared, false), None);
    assert_eq!(op.step(&mut shared, false), Some(Notify { wake_reactor: false }));
    assert!(op.is_done());
}

#[test]
fn completed_task_is_not_woken() {
    let mut shared = SharedState::new();
    shared.spawn(Task::new(7, "future", SCHEDULED, 'w'));
    let mut worker = Worker::new();
    next_action(&mut worker, &mut shared);
    worker.polled("future", PollOutcome::Ready);
    assert!(matches!(next_action(&mut worker, &mut shared), WorkerAction::NotifyAll));
    assert_eq!(wake(&mut shared, 7), None);
    assert!(matches!(next_action(&mut worker, &mut shared), WorkerAction::ProcessTimers));
}

#[test]
fn one_worker_drives_and_the_others_rest() {
    let mut shared: SharedState<&'static str, char> = SharedState::new();
    let mut first = Worker::new();
    let mut second = Worker::new();
    assert!(matches!(next_action(&mut first, &mut shared), WorkerAction::ProcessTimers));
    assert!(matches!(next_action(&mut second, &mut shared), WorkerAction::Park(100_000_000)));
    first.timers_processed(None, false);
    assert!(matches!(next_action(&mut first, &mut shared), WorkerAction::PollReactor(None)));
    assert!(matches!(next_action(&mut first, &mut shared), WorkerAction::FireTimers));
    // The first resigns, and whoever comes next drives.
    assert!(matches!(first.step(&mut shared), WorkerAction::Continue));
    assert!(matches!(next_action(&mut second, &mut shared), WorkerAction::ProcessTimers));
    second.timers_processed(None, true);
    assert!(matches!(next_action(&mut second, &mut shared), WorkerAction::PollReactor(Some(1_000_000))));
}

#[test]
fn driver_waits_until_the_next_timer() {
    let mut shared: SharedState<&'static str, char> = SharedState::new();
    let mut worker = Worker::new();
    next_action(&mut worker, &mut shared);
    worker.timers_processed(Some(77), true);
    assert!(matches!(next_action(&mut worker, &mut shared), WorkerAction::PollReactor(Some(77))));
}

#[test]
fn no_worker_drives_while_a_task_is_ready() {
    let mut shared = SharedState::new();
    let mut worker = Worker::new();
    let told = shared.spawn(Task::new(7, "future", SCHEDULED, 'w'));
    assert_eq!(told, Notify { wake_reactor: false });
    assert!(matches!(next_action(&mut worker, &mut shared), WorkerAction::Poll(7, "future")));
    worker.polled("future", PollOutcome::Pending);
    assert!(matches!(next_action(&mut worker, &mut shared), WorkerAction::ProcessTimers));
    // Now that there is a driver, it is told of a task that becomes ready, and
    // waits for as long as the timers say.
    let told = shared.spawn(Task::new(8, "other", SCHEDULED, 'w'));
    assert_eq!(told, Notify { wake_reactor: true });
    worker.timers_processed(Some(9), true);
    assert!(matches!(next_action(&mut worker, &mut shared), WorkerAction::PollReactor(Some(9))));
    assert!(matches!(next_action(&mut worker, &mut shared), WorkerAction::FireTimers));
    assert!(matches!(next_action(&mut worker, &mut shared), WorkerAction::Poll(8, "other")));
}

#[test]
fn whoever_registers_a_timer_sees_the_driver() {
    let mut runtime: MultiThreadRuntime<&'static str, char> = MultiThreadRuntime::new(1);
    let mut timers = TimerWheel::new();
    runtime.sleep(&mut timers, 5, 10, 'a');
    assert!(!runtime.has_driver());
    let mut worker = Worker::new();
    assert!(matches!(next_action(&mut worker, runtime.shared_mut()), WorkerAction::ProcessTimers));
    runtime.sleep(&mut timers, 5, 20, 'b');
    assert!(runtime.has_driver());
    assert_eq!(timers.process(15), (vec!['a'], Some(10)));
}

#[test]
fn only_one_worker_gets_a_task() {
    let mut shared = SharedState::new();
    shared.spawn(Task::new(7, "future", SCHEDULED, 'w'));
    let mut first = Worker::new();
    let mut second = Worker::new();
    // Both set out, and the first takes the task out of the queue.
    assert!(matches!(first.step(&mut shared), WorkerAction::Continue));
    assert!(matches!(second.step(&mut shared), WorkerAction::Continue));
    assert!(matches!(next_action(&mut first, &mut shared), WorkerAction::Poll(7, "future")));
    assert!(matches!(next_action(&mut second, &mut shared), WorkerAction::ProcessTimers));
    // Even if the id is queued once more, the task is not given out again.
    shared.enqueue_task(7);
    let mut third = Worker::new();
    assert!(matches!(next_action(&mut third, &mut shared), WorkerAction::Park(_)));
    assert!(shared.task(7).unwrap().future.is_none());
}

#[test]
fn live_tasks_are_counted() {
    let mut shared = SharedState::new();
    for id in [4, 5] {
        shared.spawn(Task::new(id, "future", SCHEDULED, 'w'));
    }
    assert_eq!(shared.active_count(), 2);
    let mut worker = Worker::new();
    for (outcome, left) in [(PollOutcome::Panicked, 1), (PollOutcome::Ready, 0)] {
        next_action(&mut worker, &mut shared);
        worker.polled("future", outcome);
        assert!(matches!(next_action(&mut worker, &mut shared), WorkerAction::NotifyAll));
        assert_eq!(shared.active_count(), left);
    }
}

#[test]
fn live_tasks_are_found() {
    let mut shared = SharedState::new();
    assert!(!shared.has_driver());
    shared.spawn(Task::new(7, "future", SCHEDULED, 'w'));
    assert_eq!(shared.task(7).map(|task| *task.waker()), Some('w'));
    assert!(shared.task(8).is_none());
}

#[test]
fn resting_worker_sees_the_shutdown() {
    let mut shared: SharedState<&'static str, char> = SharedState::new();
    let mut driver = Worker::new();
    next_action(&mut driver, &mut shared);
    let mut worker = Worker::new();
    assert!(matches!(worker.step(&mut shared), WorkerAction::Continue));
    assert_eq!(shared.shut_down(), NotifyAll { wake_reactor: true });
    assert!(matches!(worker.step(&mut shared), WorkerAction::Exit));
}

#[test]
fn every_worker_exits_after_the_shutdown() {
    // One worker drives, one polls, one has taken a task, and one rests.
    let mut shared = SharedState::new();
    let mut workers: Vec<Worker<&'static str>> = (0..4).map(|_| Worker::new()).collect();
    assert!(matches!(next_action(&mut workers[0], &mut shared), WorkerAction::ProcessTimers));
    for id in [1, 2] {
        shared.spawn(Task::new(id, "future", SCHEDULED, 'w'));
    }
    assert!(matches!(next_action(&mut workers[1], &mut shared), WorkerAction::Poll(1, "future")));
    for worker in &mut workers[2..] {
        assert!(matches!(worker.step(&mut shared), WorkerAction::Continue));
    }
    shared.shut_down();
    workers[0].timers_processed(None, false);
    workers[1].polled("future", PollOutcome::Pending);
    for worker in &mut workers {
        let mut moves = 0;
        worker_exits(worker, &mut shared, &mut moves);
        assert!(moves <= 7);
    }
}

/// Move the worker until it exits, doing what it asks for.
fn worker_exits(
    worker: &mut Worker<&'static str>,
    shared: &mut SharedState<&'static str, char>,
    moves: &mut usize,
) {
    let mut asked = worker.step(shared);
    for _ in 0..20 {
        *moves += 1;
        match asked {
            WorkerAction::Exit => return,
            WorkerAction::Poll(_, future) => worker.polled(future, PollOutcome::Pending),
            WorkerAction::ProcessTimers => worker.timers_processed(None, false),
            _ => {}
        }
        asked = worker.step(shared);
    }
    panic!("the worker does not exit");
}

#[test]
fn cell_stores_replaces_and_gives_its_waker() {
    let mut cell = AtomicWaker::new();
    assert!(matches!(cell.wake(TakeState::Claim, false), TakeState::Done(None)));
    for waker in ['a', 'b'] {
        let mut state = RegisterState::Claim(waker);
        while !matches!(state, RegisterState::Done) {
            state = cell.register(state, false);
        }
        assert_eq!((cell.state, cell.waker), (WAKER_STORED, Some(waker)));
    }
    let mut state = TakeState::Claim;
    while !matches!(state, TakeState::Done(_)) {
        state = cell.wake(state, false);
    }
    assert!(matches!(state, TakeState::Done(Some('b'))));
    assert_eq!((cell.state, cell.waker), (WAKER_EMPTY, None));
}

#[test]
fn cell_in_other_hands_is_tried_again() {
    let mut cell = AtomicWaker::new();
    let stored = cell.register(RegisterState::Claim('a'), false);
    assert!(matches!(stored, RegisterState::Store('a')));
    assert_eq!(cell.state, WAKER_WAKING);
    assert!(matches!(cell.wake(TakeState::Claim, false), TakeState::Claim));
    assert!(matches!(
        cell.register(RegisterState::Claim('b'), false),
        RegisterState::Claim('b')
    ));
}

#[test]
fn timer_that_fires_while_the_waker_is_stored_is_noticed() {
    let mut timer = TimerState::new();
    let mut sleep = Sleep { state: 0u8 };
    let mut state = SleepState::Check('w');
    // The sleeper looks, then stores its waker; the timer fires in between.
    state = sleep.poll(&mut timer, state, false);
    let fire = timer.fire(FireState::Complete, false);
    let fire = timer.fire(fire, false);
    assert!(matches!(fire, FireState::Wake(TakeState::Done(None))));
    while !matches!(state, SleepState::Done(_)) {
        state = sleep.poll(&mut timer, state, false);
    }
    assert!(matches!(state, SleepState::Done(Poll::Ready(()))));
}

#[test]
fn sleeper_that_is_pending_is_woken() {
    let mut timer = TimerState::new();
    let mut sleep = Sleep { state: 0u8 };
    let mut state = SleepState::Check('w');
    while !matches!(state, SleepState::Done(_)) {
        state = sleep.poll(&mut timer, state, false);
    }
    assert!(matches!(state, SleepState::Done(Poll::Pending)));
    let mut fire = FireState::Complete;
    while !matches!(fire, FireState::Wake(TakeState::Done(_))) {
        fire = timer.fire(fire, false);
    }
    assert!(matches!(fire, FireState::Wake(TakeState::Done(Some('w')))));
}

#[test]
fn timers_come_out_when_they_are_due() {
    let mut timers = TimerWheel::new();
    assert!(!timers.has_pending());
    for (deadline, handle) in [(30, 'c'), (10, 'a'), (20, 'b')] {
        assert_eq!(timers.register(deadline, handle).state, handle);
    }
    assert!(timers.has_pending());
    assert_eq!(timers.process(9), (vec![], Some(1)));
    assert_eq!(timers.process(20), (vec!['a', 'b'], Some(10)));
    assert_eq!(timers.process(20), (vec![], Some(10)));
    timers.register(25, 'd');
    assert_eq!(timers.process(30), (vec!['d', 'c'], None));
    assert!(!timers.has_pending());
}

#[test]
fn signal_gives_its_result_once() {
    let mut signal = Signal::new();
    assert_eq!(signal.take(), None);
    signal.deposit(3);
    assert_eq!(signal.take(), Some(3));
    assert_eq!(signal.take(), None);
}
