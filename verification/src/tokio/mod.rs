//! Asynchronous building blocks: buffers, locks, channels, timers, tasks.

pub mod io;
pub mod laws;
pub mod net;
pub mod poll;
pub mod process;
pub mod runtime;
pub mod signal;
pub mod sync;
pub mod task;
pub mod time;
