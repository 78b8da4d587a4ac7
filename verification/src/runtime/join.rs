//! Spawning tasks, and waiting for them.

use vstd::prelude::*;
use crate::runtime::executor;
use crate::runtime::executor::{
    alloc_raw, cancel_task, commit_spawn, current_plugin_id, detach_or_cleanup, drive_cycle, is_task_finished,
    next_timer_deadline, pack_task_id, set_join_waker, slot_state, take_result, unpack_task_id, Cleanup, DriveAction, DriveEvent,
    ExecState, Executor, PluginIds, PollOutcome, TaskSlot, MAX_SLOTS, STATE_CANCELLED, STATE_COMPLETE, STATE_EMPTY,
};
use crate::runtime::wait;
use crate::tokio::poll::Poll;

verus! {

/// A spawned task: its slot and generation. `taken` once there is nothing to wait for any more.
pub struct JoinHandle {
    pub id: u32,
    pub gen: u32,
    pub taken: bool,
}

/// Spawns a task on behalf of the current plugin. It is ready to run, last in the queue.
pub fn spawn<P, W>(ex: &mut Executor<P, W>, ids: &PluginIds, payload: P) -> (r: JoinHandle)
    requires
        old(ex)@.wf(),
        old(ex)@.free.len() > 0 || old(ex)@.slots.len() < MAX_SLOTS,
    ensures
        final(ex)@.wf(),
        ({
            let (v, id, gen) = executor::allocated(old(ex)@);
            &&& r == (JoinHandle { id, gen, taken: false })
            &&& final(ex)@ == executor::spawned(v, id, payload, ids.current)
            &&& final(ex)@.has(id)
            &&& final(ex)@.slots.len() >= old(ex)@.slots.len()
        }),
{
    let plugin_id: u64 = current_plugin_id(ids);
    let (id, gen) = alloc_raw(ex);
    commit_spawn(ex, id, payload, plugin_id);
    JoinHandle { id, gen, taken: false }
}

/// What waiting for a task comes to.
pub open spec fn joined<P, W>(v: ExecState<P, W>, h: JoinHandle) -> Poll<Option<P>> {
    if !v.has(h.id) || v.slot(h.id).generation != h.gen {
        Poll::Ready(None)
    } else if v.slot(h.id).state == STATE_COMPLETE {
        Poll::Ready(v.slot(h.id).storage)
    } else if v.slot(h.id).state == STATE_CANCELLED || v.slot(h.id).state == STATE_EMPTY {
        Poll::Ready(None)
    } else {
        Poll::Pending
    }
}

impl JoinHandle {
    /// The task's id as one word.
    pub fn task_id(&self) -> (r: u64)
        ensures
            r == executor::task_word(self.gen, self.id),
    {
        pack_task_id(self.gen, self.id)
    }

    /// Cancels the task, unless there is nothing left of it.
    pub fn cancel<P, W>(&mut self, ex: &mut Executor<P, W>) -> (r: Option<Cleanup<P>>)
        requires
            old(ex)@.wf(),
            old(ex)@.has(old(self).id),
        ensures
            final(ex)@.wf(),
            *final(self) == (JoinHandle { taken: true, ..*old(self) }),
            old(self).taken ==> r is None && final(ex)@ == old(ex)@,
            !old(self).taken ==> {
                &&& final(ex)@ == executor::cancel_begun(old(ex)@, old(self).id, old(self).gen)
                &&& r is Some <==> old(ex)@.slot(old(self).id).generation == old(self).gen && executor::live(
                    old(ex)@.slot(old(self).id),
                )
                &&& r matches Some(c) ==> c == executor::cleanup_of(old(self).id, old(ex)@.slot(old(self).id))
            },
    {
        if !self.taken {
            let r = cancel_task(ex, self.id, self.gen);
            self.taken = true;
            r
        } else {
            None
        }
    }

    /// Cancels the task.
    pub fn abort<P, W>(&self, ex: &mut Executor<P, W>) -> (r: Option<Cleanup<P>>)
        requires
            old(ex)@.wf(),
            old(ex)@.has(self.id),
        ensures
            final(ex)@.wf(),
            final(ex)@ == executor::cancel_begun(old(ex)@, self.id, self.gen),
            r is Some <==> old(ex)@.slot(self.id).generation == self.gen && executor::live(old(ex)@.slot(self.id)),
            r matches Some(c) ==> c == executor::cleanup_of(self.id, old(ex)@.slot(self.id)),
    {
        cancel_task(ex, self.id, self.gen)
    }

    /// Is the task over?
    pub fn is_finished<P, W>(&self, ex: &Executor<P, W>) -> (r: bool)
        ensures
            r == executor::finished(ex@, self.id, self.gen),
    {
        is_task_finished(ex, self.id, self.gen)
    }

    /// Waits for the task: its result, or `None` if it was cancelled or its slot has been reused.
    pub fn poll<P, W>(&mut self, ex: &mut Executor<P, W>, waker: W) -> (r: Poll<Option<P>>)
        requires
            old(ex)@.wf(),
            old(ex)@.has(old(self).id),
        ensures
            final(ex)@.wf(),
            r == joined(old(ex)@, *old(self)),
            *final(self) == (JoinHandle { taken: old(self).taken || r is Ready, ..*old(self) }),
            r is Pending ==> final(ex)@ == old(ex)@.put(
                old(self).id,
                TaskSlot { join_waker: Some(waker), ..old(ex)@.slot(old(self).id) },
            ),
            r is Ready ==> final(ex)@ == wait::result_taken(old(ex)@, old(self).id, old(self).gen),
    {
        let (state, gen) = slot_state(ex, self.id);
        if gen != self.gen {
            self.taken = true;
            return Poll::Ready(None);
        }
        if state == STATE_COMPLETE {
            let result = take_result(ex, self.id);
            self.taken = true;
            Poll::Ready(result)
        } else if state == STATE_CANCELLED || state == STATE_EMPTY {
            self.taken = true;
            Poll::Ready(None)
        } else {
            set_join_waker(ex, self.id, waker);
            Poll::Pending
        }
    }

    /// The handle goes. A task that still runs will clean up after itself.
    pub fn release<P, W>(self, ex: &mut Executor<P, W>) -> (r: Option<Cleanup<P>>)
        requires
            old(ex)@.wf(),
        ensures
            final(ex)@.wf(),
            self.taken ==> r is None && final(ex)@ == old(ex)@,
            !self.taken ==> final(ex)@ == executor::detached(old(ex)@, self.id, self.gen) && (r is Some <==> wait::holds_result(
                old(ex)@,
                self.id,
                self.gen,
            )) && (r matches Some(c) ==> c == executor::cleanup_of(self.id, old(ex)@.slot(self.id))),
    {
        if !self.taken {
            detach_or_cleanup(ex, self.id, self.gen)
        } else {
            None
        }
    }
}

/// Cancels a task by its packed id: 1 if it was asked for, 0 for the id 0, which is no task.
pub fn tau_task_abort<P, W>(ex: &mut Executor<P, W>, packed_id: u64) -> (r: (u8, Option<Cleanup<P>>))
    requires
        old(ex)@.wf(),
        packed_id != 0 ==> old(ex)@.has(wait::slot_of(packed_id)),
    ensures
        final(ex)@.wf(),
        packed_id == 0 ==> r.0 == 0 && r.1 is None && final(ex)@ == old(ex)@,
        packed_id != 0 ==> {
            let id = wait::slot_of(packed_id);
            let gen = wait::gen_of(packed_id);
            &&& r.0 == 1
            &&& final(ex)@ == executor::cancel_begun(old(ex)@, id, gen)
            &&& r.1 is Some <==> old(ex)@.slot(id).generation == gen && executor::live(old(ex)@.slot(id))
            &&& r.1 matches Some(c) ==> c == executor::cleanup_of(id, old(ex)@.slot(id))
        },
{
    if packed_id == 0 {
        return (0, None);
    }
    let (gen, id) = unpack_task_id(packed_id);
    let c = cancel_task(ex, id, gen);
    (1, c)
}

/// Is the task of a packed id over? 1 if it is. The id 0 is no task, and over.
pub fn tau_task_is_finished<P, W>(ex: &Executor<P, W>, packed_id: u64) -> (r: u8)
    ensures
        r == if packed_id == 0 || executor::finished(ex@, wait::slot_of(packed_id), wait::gen_of(packed_id)) {
            1u8
        } else {
            0u8
        },
{
    if packed_id == 0 {
        return 1;
    }
    let (gen, id) = unpack_task_id(packed_id);
    if is_task_finished(ex, id, gen) {
        1
    } else {
        0
    }
}

/// Gives the executor its first slots.
pub fn init<P, W>(ex: &mut Executor<P, W>) -> (r: Result<(), i32>)
    requires
        old(ex)@.wf(),
        old(ex)@.slots.len() == 0,
    ensures
        r is Ok,
        final(ex)@.wf(),
        final(ex)@.slots == Seq::new(256, |i: int| executor::empty_slot::<P, W>()),
        final(ex)@.free == Seq::new(256, |i: int| (255 - i) as u32),
        final(ex)@.ready.len() == 0,
        final(ex)@.hot is None,
        final(ex)@.timers.len() == 0,
        final(ex)@.remote == old(ex)@.remote,
        final(ex)@.next_handle == old(ex)@.next_handle,
{
    ex.init();
    Ok(())
}

/// A drive of the executor: what the cycle under way has done, and the number of tasks that have
/// completed.
pub struct DriveRun {
    pub did_work: bool,
    pub completed: u32,
}

impl DriveRun {
    pub fn new() -> (r: Self)
        ensures
            !r.did_work,
            r.completed == 0,
    {
        DriveRun { did_work: false, completed: 0 }
    }
}

/// What comes next in a drive.
pub enum DriveTurn<P, W> {
    /// This has to be done.
    Do(DriveAction<P, W>),
    /// The cycle is over and found work: another one begins.
    Again,
    /// The drive is over; so many tasks have completed.
    Over(u32),
}

/// Has a task completed?
pub open spec fn completes<P>(ev: DriveEvent<P>) -> bool {
    ev matches DriveEvent::Polled(_, PollOutcome::Ready(_))
}

/// Drives the executor, step by step: one drive cycle after the other as long as they find work. The
/// number of tasks that completed is the result.
///
/// Starts with `Begin`, as each cycle does, and ends with `Over`.
pub fn drive<P, W>(ex: &mut Executor<P, W>, run: &mut DriveRun, ev: DriveEvent<P>) -> (r: DriveTurn<P, W>)
    requires
        old(ex)@.wf(),
        executor::expected(old(ex)@, ev),
        executor::taken_in(old(ex)@, ev).runnable(),
        completes(ev) ==> old(run).completed < u32::MAX,
    ensures
        final(ex)@.wf(),
        ({
            let d = executor::driven(old(ex)@, old(run).did_work, ev);
            &&& final(ex)@ == d.state
            &&& final(run).did_work == d.did_work
            &&& final(run).completed == old(run).completed + (if completes(ev) {
                1int
            } else {
                0int
            })
            &&& match d.step {
                executor::DriveStep::Done(true) => r is Again,
                executor::DriveStep::Done(false) => r == DriveTurn::<P, W>::Over(final(run).completed),
                _ => r matches DriveTurn::Do(action) && action@ == d.step,
            }
        }),
{
    if let DriveEvent::Polled(_, PollOutcome::Ready(_)) = &ev {
        run.completed = run.completed + 1;
    }
    match drive_cycle(ex, &mut run.did_work, ev) {
        DriveAction::Done(true) => DriveTurn::Again,
        DriveAction::Done(false) => DriveTurn::Over(run.completed),
        action => DriveTurn::Do(action),
    }
}

/// What a drive counts is a task that completed: it was not over before, and it is now.
pub proof fn what_is_counted_has_completed<P, W>(v: ExecState<P, W>, ev: DriveEvent<P>)
    requires
        executor::expected(v, ev),
        completes(ev),
    ensures
        ({
            let id = ev->Polled_0;
            let gen = v.slot(id).generation;
            &&& !executor::finished(v, id, gen)
            &&& executor::finished(executor::taken_in(v, ev), id, gen)
            &&& forall|i: u32|
                i != id && v.has(i) ==> #[trigger] executor::taken_in(v, ev).slot(i) == v.slot(i)
        }),
{
}

// ---------------------------------------------------------------------------
// Blocking on a future
// ---------------------------------------------------------------------------

/// What whoever blocks on a future is told of.
#[derive(Clone, Copy, PartialEq, Eq, Structural)]
pub enum BlockEvent {
    Start,
    /// The future has been polled. Is it ready?
    Polled(bool),
    /// A drive cycle has run. Did it find work?
    Drove(bool),
    /// The reactor has been polled.
    Reacted,
}

/// What whoever blocks on a future has to do.
#[derive(Clone, Copy, PartialEq, Eq, Structural)]
pub enum BlockAction {
    PollRoot,
    Drive,
    /// Poll the reactor, for at most so many milliseconds.
    React(u64),
    /// The future is ready.
    Return,
}

/// Blocks on a future, step by step.
///
/// The future is polled, then the executor is driven until it finds no work. If it found some, the
/// future is polled again at once; else the reactor is polled first, for 10 ms at most and no
/// longer than until the next timer. `drove` is the memory of whoever blocks.
pub fn block_on<P, W>(ex: &Executor<P, W>, drove: &mut bool, ev: BlockEvent, now: u64) -> (r: BlockAction)
    ensures
        match ev {
            BlockEvent::Start => r == BlockAction::PollRoot && !*final(drove),
            BlockEvent::Reacted => r == BlockAction::PollRoot && !*final(drove),
            BlockEvent::Polled(ready) => r == (if ready {
                BlockAction::Return
            } else {
                BlockAction::Drive
            }) && !*final(drove),
            BlockEvent::Drove(true) => r == BlockAction::Drive && *final(drove),
            BlockEvent::Drove(false) => if *old(drove) {
                r == BlockAction::PollRoot && !*final(drove)
            } else {
                &&& !*final(drove)
                &&& r matches BlockAction::React(ms)
                &&& exists|next: Option<u64>|
                    #[trigger] executor::is_next_deadline(ex@.timers, now, next) && ms == wait::react_millis(next)
            },
        },
{
    let before: bool = *drove;
    *drove = false;
    match ev {
        BlockEvent::Start => BlockAction::PollRoot,
        BlockEvent::Reacted => BlockAction::PollRoot,
        BlockEvent::Polled(ready) => if ready {
            BlockAction::Return
        } else {
            BlockAction::Drive
        },
        BlockEvent::Drove(worked) => if worked {
            *drove = true;
            BlockAction::Drive
        } else if before {
            BlockAction::PollRoot
        } else {
            let next = next_timer_deadline(ex, now);
            let millis: u64 = match next {
                None => 10,
                Some(d) => if d < 10_000_000 {
                    d / 1_000_000
                } else {
                    10
                },
            };
            BlockAction::React(millis)
        },
    }
}

/// A task that runs to its end is joined once: its result comes out, and then there is nothing
/// left to wait for.
pub proof fn a_result_is_taken_once<P, W>(v: ExecState<P, W>, h: JoinHandle)
    requires
        v.wf(),
        wait::holds_result(v, h.id, h.gen),
    ensures
        joined(v, h) == Poll::Ready(v.slot(h.id).storage),
        joined(wait::result_taken(v, h.id, h.gen), h) == Poll::Ready(None::<P>),
{
}

} // verus!
