//! A runtime as others know it: everything runs on the one executor there is.

use vstd::prelude::*;
use crate::runtime::executor;
use crate::runtime::executor::{Executor, PluginIds, MAX_SLOTS};
use crate::runtime::join;
use crate::runtime::join::{BlockAction, BlockEvent};
use crate::runtime::wait;
use crate::tokio::poll::IoError;
use crate::tokio::task;
use crate::tokio::task::JoinHandle;

verus! {

/// The runtime.
#[derive(Clone, Copy, PartialEq, Eq, Structural, Debug)]
pub struct Runtime;

/// Makes a runtime; whatever it is told, it makes the same one.
#[derive(Clone, Copy, PartialEq, Eq, Structural, Debug)]
pub struct Builder;

/// A handle to the runtime.
#[derive(Clone, Copy, PartialEq, Eq, Structural, Debug)]
pub struct Handle;

/// The runtime is entered while this is there.
pub struct EnterGuard<'a> {
    pub handle: &'a Handle,
}

/// No runtime is there.
#[derive(Clone, Copy, PartialEq, Eq, Structural, Debug)]
pub struct TryCurrentError;

impl Runtime {
    /// Blocks on a future, step by step.
    pub fn block_on<P, W>(&self, ex: &Executor<P, W>, drove: &mut bool, ev: BlockEvent, now: u64) -> (r: BlockAction)
        ensures
            match ev {
                BlockEvent::Start => r == BlockAction::PollRoot && !*final(drove),
                BlockEvent::Reacted => r == BlockAction::PollRoot && !*final(drove),
                BlockEvent::Polled(ready) => r == (if ready {
                    BlockAction::Return
                } else {
                    BlockAction::Drive
                }) && !*final(drove),
                BlockEvent::Drove(true) => r == BlockAction::Drive && *final(drove),
                BlockEvent::Drove(false) => if *old(drove) {
                    r == BlockAction::PollRoot && !*final(drove)
                } else {
                    &&& !*final(drove)
                    &&& r matches BlockAction::React(ms)
                    &&& exists|next: Option<u64>|
                        #[trigger] executor::is_next_deadline(ex@.timers, now, next) && ms == wait::react_millis(next)
                },
            },
    {
        join::block_on(ex, drove, ev, now)
    }

    pub fn handle(&self) -> (r: Handle)
        ensures
            r == Handle,
    {
        Handle
    }

    /// Spawns a task on behalf of the current plugin.
    pub fn spawn<P, W>(&self, ex: &mut Executor<P, W>, ids: &PluginIds, payload: P) -> (r: JoinHandle)
        requires
            old(ex)@.wf(),
            old(ex)@.free.len() > 0 || old(ex)@.slots.len() < MAX_SLOTS,
        ensures
            final(ex)@.wf(),
            ({
                let (v, id, gen) = executor::allocated(old(ex)@);
                &&& r.inner == (join::JoinHandle { id, gen, taken: false })
                &&& final(ex)@ == executor::spawned(v, id, payload, ids.current)
                &&& final(ex)@.has(id)
            }),
    {
        task::spawn(ex, ids, payload)
    }
}

impl Builder {
    pub fn new_current_thread() -> (r: Self)
        ensures
            r == Builder,
    {
        Builder
    }

    pub fn new_multi_thread() -> (r: Self)
        ensures
            r == Builder,
    {
        Builder
    }

    pub fn enable_all(&mut self) -> (r: &mut Self)
        ensures
            *r == *old(self),
            *final(self) == *final(r),
    {
        self
    }

    pub fn enable_io(&mut self) -> (r: &mut Self)
        ensures
            *r == *old(self),
            *final(self) == *final(r),
    {
        self
    }

    pub fn enable_time(&mut self) -> (r: &mut Self)
        ensures
            *r == *old(self),
            *final(self) == *final(r),
    {
        self
    }

    /// The number of threads is of no account.
    pub fn worker_threads(&mut self, n: usize) -> (r: &mut Self)
        ensures
            *r == *old(self),
            *final(self) == *final(r),
    {
        self
    }

    /// Never fails.
    pub fn build(&self) -> (r: Result<Runtime, IoError>)
        ensures
            r == Ok::<Runtime, IoError>(Runtime),
    {
        Ok(Runtime)
    }
}

impl Handle {
    pub fn current() -> (r: Self)
        ensures
            r == Handle,
    {
        Handle
    }

    /// Never fails: there always is a runtime.
    pub fn try_current() -> (r: Result<Self, TryCurrentError>)
        ensures
            r == Ok::<Handle, TryCurrentError>(Handle),
    {
        Ok(Handle)
    }

    /// Spawns a task on behalf of the current plugin.
    pub fn spawn<P, W>(&self, ex: &mut Executor<P, W>, ids: &PluginIds, payload: P) -> (r: JoinHandle)
        requires
            old(ex)@.wf(),
            old(ex)@.free.len() > 0 || old(ex)@.slots.len() < MAX_SLOTS,
        ensures
            final(ex)@.wf(),
            ({
                let (v, id, gen) = executor::allocated(old(ex)@);
                &&& r.inner == (join::JoinHandle { id, gen, taken: false })
                &&& final(ex)@ == executor::spawned(v, id, payload, ids.current)
                &&& final(ex)@.has(id)
            }),
    {
        task::spawn(ex, ids, payload)
    }

    /// Blocks on a future, step by step.
    pub fn block_on<P, W>(&self, ex: &Executor<P, W>, drove: &mut bool, ev: BlockEvent, now: u64) -> (r: BlockAction)
        ensures
            match ev {
                BlockEvent::Start => r == BlockAction::PollRoot && !*final(drove),
                BlockEvent::Reacted => r == BlockAction::PollRoot && !*final(drove),
                BlockEvent::Polled(ready) => r == (if ready {
                    BlockAction::Return
                } else {
                    BlockAction::Drive
                }) && !*final(drove),
                BlockEvent::Drove(true) => r == BlockAction::Drive && *final(drove),
                BlockEvent::Drove(false) => if *old(drove) {
                    r == BlockAction::PollRoot && !*final(drove)
                } else {
                    &&& !*final(drove)
                    &&& r matches BlockAction::React(ms)
                    &&& exists|next: Option<u64>|
                        #[trigger] executor::is_next_deadline(ex@.timers, now, next) && ms == wait::react_millis(next)
                },
            },
    {
        join::block_on(ex, drove, ev, now)
    }

    /// Enters the runtime.
    pub fn enter(&self) -> (r: EnterGuard<'_>)
        ensures
            *r.handle == *self,
    {
        EnterGuard { handle: self }
    }
}

} // verus!
