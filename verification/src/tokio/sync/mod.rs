//! Ways for tasks to talk to each other and to wait for each other.
//!
//! What the two sides of a primitive share is a value of its own, which every operation takes; an
//! operation that wakes someone hands back who.

use vstd::prelude::*;

pub mod mpsc;
pub mod mutex;
pub mod notify;
pub mod oneshot;
pub mod rwlock;
pub mod semaphore;
pub mod watch;

verus! {

} // verus!
