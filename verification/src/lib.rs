//! The core of a minimal async runtime.
//!
//! Two runtimes share their parts: a single-threaded one ([`Runtime`]) and one
//! with a pool of worker threads ([`multi_thread`]). The library holds what they
//! decide and keep track of: which tasks are ready, which timers are pending,
//! who waits for which file descriptor, what is in a channel. It makes no system
//! call and starts no thread; where something outside is to be done, it says so
//! and is told what came of it.

pub mod channel;
pub mod executor;
pub mod heap;
pub mod join_handle;
pub mod multi_thread;
pub mod net;
pub mod reactor;
pub mod runtime;
pub mod task;
pub mod timer;
pub mod workload;

pub use join_handle::JoinHandle;
pub use runtime::Runtime;
