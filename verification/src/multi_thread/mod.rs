//! The multi-threaded runtime.
//!
//! Worker threads take tasks from a shared queue and poll them. Everything
//! that the threads share stands in [`executor::SharedState`], and what a
//! thread does is cut into steps, each of which touches the shared state once.
//! Whoever runs the threads takes the steps under a lock and does the outside
//! work between them: polls futures, waits for I/O, sleeps.

pub mod executor;
pub mod runtime;
pub mod schedule;
pub mod task;
pub mod timer;

pub use crate::net;
pub use runtime::MultiThreadRuntime;
pub use task::JoinHandle;
