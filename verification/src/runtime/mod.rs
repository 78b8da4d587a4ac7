//! The host runtime: executor, streams, reactor, events, resources.

pub mod executor;
pub mod history;
pub mod laws;
pub mod sync;
pub mod wait;
pub mod streams;
pub mod events;
pub mod resources;
pub mod reactor;
pub mod process;
pub mod fd;
pub mod join;
pub mod sleep;
pub mod types;
