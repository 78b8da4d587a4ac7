//! Waiting for a task, and clearing an executor.

use std::collections::VecDeque;
use vstd::prelude::*;
use crate::runtime::executor;
use crate::runtime::executor::{
    clear_current_plugin, detach_or_cleanup, is_task_finished, next_timer_deadline, unpack_task_id, Cleanup, Executor, ExecState,
    PluginIds, TaskSlot, STATE_CANCELLED, STATE_COMPLETE, STATE_EMPTY,
};

verus! {

/// What the waiter is told of.
pub enum WaitEvent {
    Start,
    /// A drive cycle has run. Did it find work?
    Drove(bool),
    /// The reactor has been polled.
    Reacted,
}

/// What the waiter has to do.
pub enum WaitAction<P> {
    /// Run a drive cycle.
    Drive,
    /// Poll the reactor, for at most so many milliseconds.
    React(u64),
    /// The task is over. What is left of it has to be dropped.
    Return(Option<Cleanup<P>>),
}

/// The longest time for which the reactor is polled: 10 ms, less if a timer is due before.
pub open spec fn react_millis(next: Option<u64>) -> int {
    match next {
        None => 10,
        Some(d) => if d < 10_000_000 {
            d as int / 1_000_000
        } else {
            10
        },
    }
}

/// The generation of a packed task id.
pub open spec fn gen_of(packed_id: u64) -> u32 {
    (packed_id / 0x1_0000_0000) as u32
}

/// The slot of a packed task id.
pub open spec fn slot_of(packed_id: u64) -> u32 {
    (packed_id % 0x1_0000_0000) as u32
}

/// Is there a result of the task that nobody has taken?
pub open spec fn holds_result<P, W>(v: ExecState<P, W>, id: u32, gen: u32) -> bool {
    v.has(id) && v.slot(id).generation == gen && v.slot(id).state == STATE_COMPLETE
}

/// The executor once the result has been taken out, if there is one.
pub open spec fn result_taken<P, W>(v: ExecState<P, W>, id: u32, gen: u32) -> ExecState<P, W> {
    if holds_result(v, id, gen) {
        executor::freed(v, id)
    } else {
        v
    }
}

/// What a step of waiting for a task comes to.
pub open spec fn waited<P, W>(
    v: ExecState<P, W>,
    after: ExecState<P, W>,
    packed_id: u64,
    drove: bool,
    drove_after: bool,
    ev: WaitEvent,
    now: u64,
    r: WaitAction<P>,
) -> bool {
    let id = slot_of(packed_id);
    let gen = gen_of(packed_id);
    if packed_id == 0 {
        r == WaitAction::<P>::Return(None) && after == v && drove_after == drove
    } else if ev == WaitEvent::Drove(false) && !drove {
        &&& after == v
        &&& drove_after == drove
        &&& r matches WaitAction::React(ms)
        &&& exists|next: Option<u64>|
            #[trigger] executor::is_next_deadline(v.timers, now, next) && ms == react_millis(next)
    } else if executor::finished(v, id, gen) {
        &&& after == result_taken(v, id, gen)
        &&& drove_after == drove
        &&& r == WaitAction::Return(
            if holds_result(v, id, gen) {
                Some(executor::cleanup_of(id, v.slot(id)))
            } else {
                None
            },
        )
    } else {
        &&& after == v
        &&& r is Drive
        &&& drove_after == (ev == WaitEvent::Drove(true))
    }
}

/// Drives the executor until the task of a packed id is over, step by step.
///
/// Starts with `Start` and ends with `Return`; an id of 0 is no task, and over at once. While
/// the task runs, drive cycles follow each other as long as they find work; after one that
/// finds none, with none before it that did, the reactor is polled. `drove` is the waiter's
/// own memory.
pub fn wait_for_task<P, W>(ex: &mut Executor<P, W>, packed_id: u64, drove: &mut bool, ev: WaitEvent, now: u64) -> (r: WaitAction<P>)
    requires
        old(ex)@.wf(),
    ensures
        final(ex)@.wf(),
        waited(old(ex)@, final(ex)@, packed_id, *old(drove), *final(drove), ev, now, r),
{
    if packed_id == 0 {
        return WaitAction::Return(None);
    }
    let found_work: bool = match ev {
        WaitEvent::Drove(worked) => {
            if !worked && !*drove {
                let next = next_timer_deadline(ex, now);
                let millis: u64 = match next {
                    None => 10,
                    Some(d) => if d < 10_000_000 {
                        d / 1_000_000
                    } else {
                        10
                    },
                };
                return WaitAction::React(millis);
            }
            worked
        },
        _ => false,
    };
    let (gen, slot_id) = unpack_task_id(packed_id);
    if is_task_finished(ex, slot_id, gen) {
        // Nobody joins the task any more: what it left behind is handed out.
        let cleanup = detach_or_cleanup(ex, slot_id, gen);
        return WaitAction::Return(cleanup);
    }
    *drove = found_work;
    WaitAction::Drive
}

/// Waits for a task by its packed id, step by step.
pub fn tau_block_on<P, W>(ex: &mut Executor<P, W>, packed_id: u64, drove: &mut bool, ev: WaitEvent, now: u64) -> (r: WaitAction<P>)
    requires
        old(ex)@.wf(),
    ensures
        final(ex)@.wf(),
        waited(old(ex)@, final(ex)@, packed_id, *old(drove), *final(drove), ev, now, r),
{
    wait_for_task(ex, packed_id, drove, ev, now)
}

// ---------------------------------------------------------------------------
// Clearing an executor
// ---------------------------------------------------------------------------

/// The slots with all tasks cancelled.
pub open spec fn all_cancelled<P, W>(slots: Seq<TaskSlot<P, W>>) -> Seq<TaskSlot<P, W>> {
    Seq::new(
        slots.len(),
        |i: int|
            if executor::live(slots[i]) {
                TaskSlot { state: STATE_CANCELLED, storage: None, ..slots[i] }
            } else {
                slots[i]
            },
    )
}

/// What has to be dropped of the slots below `n`, in the order of the slots.
pub open spec fn live_payloads<P, W>(slots: Seq<TaskSlot<P, W>>, n: int) -> Seq<Cleanup<P>>
    decreases n,
{
    if n <= 0 {
        Seq::empty()
    } else if executor::live(slots[n - 1]) {
        live_payloads(slots, n - 1).push(executor::cleanup_of((n - 1) as u32, slots[n - 1]))
    } else {
        live_payloads(slots, n - 1)
    }
}

/// Cancels every task of an executor, and hands out what has to be dropped. `reset_finish` then
/// brings the executor back to its start.
pub fn reset<P, W>(ex: &mut Executor<P, W>) -> (r: Vec<Cleanup<P>>)
    requires
        old(ex)@.wf(),
    ensures
        final(ex)@ == (ExecState { slots: all_cancelled(old(ex)@.slots), ..old(ex)@ }),
        final(ex)@.wf(),
        r@ == live_payloads(old(ex)@.slots, old(ex)@.slots.len() as int),
{
    let ghost v = ex@;
    let total: usize = ex.slots.len();
    let mut result: Vec<Cleanup<P>> = Vec::new();
    let mut i: usize = 0;
    while i < total
        invariant
            i <= total == v.slots.len(),
            total <= executor::MAX_SLOTS,
            ex@ == (ExecState { slots: ex@.slots, ..v }),
            ex@.slots.len() == v.slots.len(),
            forall|j: int| 0 <= j < i ==> #[trigger] ex@.slots[j] == all_cancelled(v.slots)[j],
            forall|j: int| i <= j < total ==> #[trigger] ex@.slots[j] == v.slots[j],
            result@ == live_payloads(v.slots, i as int),
        decreases total - i,
    {
        let ghost before = ex@.slots;
        let id: u32 = i as u32;
        let state: u8 = ex.slot(id).state;
        if state != STATE_EMPTY && state != STATE_CANCELLED {
            let plugin_id: u64 = ex.slot(id).plugin_id;
            let slot = ex.slot_mut(id);
            slot.state = STATE_CANCELLED;
            let payload = slot.storage.take();
            result.push(Cleanup { id, plugin_id, complete: state == STATE_COMPLETE, payload });
            assert(ex@.slots == before.update(
                i as int,
                TaskSlot { state: STATE_CANCELLED, storage: None, ..before[i as int] },
            ));
        }
        i = i + 1;
    }
    proof {
        assert(ex@.slots =~= all_cancelled(v.slots));
        assert forall|k: int| 0 <= k < ex@.free.len() implies ex@.has(#[trigger] ex@.free[k]) && ex@.slot(ex@.free[k]).state
            == STATE_EMPTY by {
            assert(v.free[k] == ex@.free[k]);
        }
    }
    result
}

/// A slot that is empty again; only its generation stays, so that stale ids are told apart.
pub open spec fn cleared<P, W>(slot: TaskSlot<P, W>) -> TaskSlot<P, W> {
    TaskSlot {
        storage: None,
        generation: slot.generation,
        state: STATE_EMPTY,
        detached: false,
        plugin_id: 0,
        join_waker: None,
    }
}

/// An executor that is back at its start.
pub open spec fn restarted<P, W>(v: ExecState<P, W>) -> ExecState<P, W> {
    ExecState {
        slots: v.slots.map_values(|s: TaskSlot<P, W>| cleared(s)),
        ready: Seq::empty(),
        remote: Seq::empty(),
        free: Seq::new(v.slots.len(), |i: int| (v.slots.len() - 1 - i) as u32),
        hot: None,
        timers: Seq::empty(),
        next_handle: 1,
    }
}

/// Brings an executor back to its start: every slot is empty and free, the lowest to be used
/// first; no task is queued; no timer is left; no plugin runs.
pub fn reset_finish<P, W>(ex: &mut Executor<P, W>, ids: &mut PluginIds)
    requires
        old(ex)@.wf(),
    ensures
        *final(ids) == (PluginIds { current: 0, ..*old(ids) }),
        final(ex)@.wf(),
        final(ex)@ == restarted(old(ex)@),
{
    let ghost v = ex@;
    let total: usize = ex.slots.len();
    let mut i: usize = 0;
    while i < total
        invariant
            i <= total == v.slots.len(),
            total <= executor::MAX_SLOTS,
            ex@.slots.len() == v.slots.len(),
            forall|j: int| 0 <= j < i ==> #[trigger] ex@.slots[j] == cleared(v.slots[j]),
            forall|j: int| i <= j < total ==> #[trigger] ex@.slots[j] == v.slots[j],
        decreases total - i,
    {
        let ghost before = ex@.slots;
        let slot = ex.slot_mut(i as u32);
        slot.state = STATE_EMPTY;
        slot.storage = None;
        slot.detached = false;
        slot.plugin_id = 0;
        slot.join_waker = None;
        assert(ex@.slots == before.update(i as int, cleared(before[i as int])));
        i = i + 1;
    }
    assert(ex@.slots =~= v.slots.map_values(|s: TaskSlot<P, W>| cleared(s)));
    let ghost slots = ex@.slots;
    ex.free = Vec::new();
    let mut k: usize = total;
    while k > 0
        invariant
            k <= total == v.slots.len(),
            total <= executor::MAX_SLOTS,
            ex@.slots == slots,
            ex@.free == Seq::new((total - k) as nat, |i: int| (total - 1 - i) as u32),
        decreases k,
    {
        k = k - 1;
        ex.free.push(k as u32);
        assert(ex@.free =~= Seq::new((total - k) as nat, |i: int| (total - 1 - i) as u32));
    }
    ex.ready = VecDeque::new();
    ex.hot_slot = None;
    loop
        invariant
            ex@.slots == slots,
            ex@.free == Seq::new(total as nat, |i: int| (total - 1 - i) as u32),
            ex@.ready.len() == 0,
            ex@.hot is None,
        ensures
            ex@.slots == slots,
            ex@.free == Seq::new(total as nat, |i: int| (total - 1 - i) as u32),
            ex@.ready.len() == 0,
            ex@.hot is None,
            ex@.remote.len() == 0,
        decreases ex@.remote.len(),
    {
        if ex.remote.pop().is_none() {
            break;
        }
    }
    ex.timers = Vec::new();
    ex.next_timer_handle = 1;
    clear_current_plugin(ids);
    proof {
        let w = restarted(v);
        assert(ex@.free =~= w.free);
        assert(ex@.ready =~= w.ready);
        assert(ex@.remote =~= w.remote);
        assert(ex@.timers =~= w.timers);
    }
}

/// No task outlives a reset: every id from before it counts as over, and the next task gets an id
/// that none of those from before is mistaken for.
pub proof fn no_task_outlives_a_reset<P, W>(before: ExecState<P, W>, after: ExecState<P, W>, id: u32, gen: u32)
    requires
        after.wf(),
        after.slots == before.slots.map_values(|s: TaskSlot<P, W>| cleared(s)),
    ensures
        executor::finished(after, id, gen),
        ({
            let (_, next_id, next_gen) = executor::allocated(after);
            before.has(next_id) ==> next_gen != before.slot(next_id).generation
        }),
{
}

} // verus!
