# mini-async-runtime

The core of a minimal async runtime, written and proved in Verus, and a program
that runs it.

- `src/` is the library. It decides and keeps track: which tasks are ready
  (`executor`, `multi_thread::executor`), which timers are pending (`timer`,
  `multi_thread::timer`, both over `heap`), who waits for which file descriptor
  (`reactor`, `net`), what is in a channel (`channel`), what a join handle gives
  (`task`, `join_handle`), and what comes next when a future is driven to
  completion (`runtime`, `multi_thread::runtime`). It makes no system call and
  starts no thread.
- `app/` does the outside work: it polls futures, calls `epoll`, reads the clock
  and runs the worker threads.
- `tests/` runs the library with real futures on a simulated clock and kernel.

What an operation does is stated in the contract of its function, over the views
of the types. What holds of the library as a whole is stated by the public proof
functions whose names begin with `law_`, for instance:

- everything sent into a channel comes out once and in order (`channel`);
- a timer never fires early, and whoever sleeps on it is woken (`timer`,
  `multi_thread::timer`);
- no waker is stranded by events that are reported one at a time (`reactor`);
- however the steps of the worker threads are interleaved, no two of them have
  the future of one task, no wake-up is lost, and there is one I/O driver at most
  (`multi_thread::schedule`).

Wakers are opaque to most of the library: where one is to be used, it comes out
for the caller to use. Times are nanoseconds, given by the caller.
