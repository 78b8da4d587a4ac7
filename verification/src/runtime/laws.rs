//! What holds of the executor as a whole: wakes, the order of polling, joining, unloading.

use vstd::prelude::*;
use crate::runtime::events;
use crate::runtime::events::{Call, Subscription};
use crate::runtime::executor;
use crate::runtime::executor::{
    Cleanup, DriveEvent, DriveStep, ExecState, PollOutcome, TaskSlot, TimerEntry, MAX_SLOTS, STATE_CANCELLED,
    STATE_COMPLETE, STATE_EMPTY, STATE_PENDING, STATE_READY,
};
use crate::runtime::join;
use crate::runtime::join::JoinHandle;
use crate::runtime::resources;
use crate::runtime::resources::ResourceEntry;
use crate::runtime::streams::StreamModel;
use crate::runtime::wait;
use crate::runtime::wait::{WaitAction, WaitEvent};
use crate::tokio::poll::Poll;

verus! {

// ---------------------------------------------------------------------------
// Wakes
// ---------------------------------------------------------------------------

/// Does `x` come in `s`, and `y` not before it?
pub open spec fn comes_first(s: Seq<u32>, x: u32, y: u32) -> bool {
    exists|m: int| 0 <= m < s.len() && #[trigger] s[m] == x && forall|n: int| 0 <= n <= m ==> s[n] != y
}

/// Is this the id of a task that waits to be woken?
pub open spec fn waits<P, W>(v: ExecState<P, W>, id: u32) -> bool {
    id < v.slots.len() && v.slots[id as int].state == STATE_PENDING
}

/// No remote wake is lost, however many tasks are queued already: every task that waits, and whose
/// id other threads have put into the remote queue, is ready and queued once the queue is taken in.
/// All other tasks stay as they are.
pub proof fn no_remote_wake_is_lost<P, W>(v: ExecState<P, W>)
    ensures
        ({
            let w = executor::drained(v);
            &&& w.remote.len() == 0
            &&& w.slots.len() == v.slots.len()
            &&& forall|id: u32|
                waits(v, id) && v.remote.contains(id) ==> (#[trigger] w.slots[id as int]) == (TaskSlot {
                    state: STATE_READY,
                    ..v.slots[id as int]
                }) && w.ready.contains(id)
            &&& forall|id: u32|
                id < v.slots.len() && !(waits(v, id) && v.remote.contains(id)) ==> #[trigger] w.slots[id as int]
                    == v.slots[id as int]
            &&& w.hot == v.hot
            &&& w.free == v.free
            &&& w.timers == v.timers
            &&& w.next_handle == v.next_handle
        }),
    decreases v.remote.len(),
{
    if v.remote.len() > 0 {
        let r = v.remote[0];
        let rest = v.remote.drop_first();
        let v1 = executor::remote_woken(ExecState { remote: rest, ..v }, r);
        let w = executor::drained(v);
        no_remote_wake_is_lost(v1);
        remote_wakes_keep_their_order(v);
        assert(v.remote.contains(r));
        assert forall|id: u32| waits(v, id) && v.remote.contains(id) implies (#[trigger] w.slots[id as int]) == (TaskSlot {
            state: STATE_READY,
            ..v.slots[id as int]
        }) by {
            let k = choose|k: int| 0 <= k < v.remote.len() && v.remote[k] == id;
            if id != r {
                assert(rest[k - 1] == id);
                assert(waits(v1, id) && v1.remote.contains(id));
            } else {
                assert(!waits(v1, id));
            }
        }
        assert forall|id: u32|
            id < v.slots.len() && !(waits(v, id) && v.remote.contains(id)) implies #[trigger] w.slots[id as int]
            == v.slots[id as int] by {
            if rest.contains(id) {
                let k = choose|k: int| 0 <= k < rest.len() && rest[k] == id;
                assert(v.remote[k + 1] == id);
            }
            assert(!(waits(v1, id) && v1.remote.contains(id)));
        }
    }
}

/// Remote wakes are served in the order in which they came, behind what is queued already, and a
/// task that is woken more than once is queued once.
pub proof fn remote_wakes_keep_their_order<P, W>(v: ExecState<P, W>)
    ensures
        ({
            let w = executor::drained(v);
            let n = v.ready.len() as int;
            &&& n <= w.ready.len()
            &&& w.ready.take(n) == v.ready
            &&& forall|k: int| n <= k < w.ready.len() ==> waits(v, #[trigger] w.ready[k]) && v.remote.contains(w.ready[k])
            &&& forall|id: u32| waits(v, id) && #[trigger] v.remote.contains(id) ==> w.ready.skip(n).contains(id)
            &&& forall|i: int, j: int|
                n <= i < j < w.ready.len() ==> #[trigger] w.ready[i] != #[trigger] w.ready[j] && comes_first(
                    v.remote,
                    w.ready[i],
                    w.ready[j],
                )
            &&& forall|id: u32| waits(v, id) && #[trigger] v.remote.contains(id) ==> w.ready.contains(id)
        }),
    decreases v.remote.len(),
{
    let w = executor::drained(v);
    let n = v.ready.len() as int;
    if v.remote.len() == 0 {
        assert(w.ready.take(n) =~= v.ready);
    } else {
        let r = v.remote[0];
        let rest = v.remote.drop_first();
        let v1 = executor::remote_woken(ExecState { remote: rest, ..v }, r);
        let n1 = v1.ready.len() as int;
        remote_wakes_keep_their_order(v1);
        assert(v.remote.contains(r));
        assert(w.ready.take(n) =~= v.ready) by {
            assert forall|k: int| 0 <= k < n implies w.ready[k] == v.ready[k] by {
                assert(w.ready.take(n1)[k] == w.ready[k]);
            }
        }
        if waits(v, r) {
            assert(w.ready.take(n1)[n] == w.ready[n]);
            assert(w.ready[n] == r);
        }
        assert forall|k: int| n <= k < w.ready.len() implies waits(v, #[trigger] w.ready[k]) && v.remote.contains(
            w.ready[k],
        ) by {
            if k >= n1 {
                assert(waits(v1, w.ready[k]) && rest.contains(w.ready[k]));
                let m = choose|m: int| 0 <= m < rest.len() && rest[m] == w.ready[k];
                assert(v.remote[m + 1] == w.ready[k]);
            }
        }
        assert forall|id: u32| waits(v, id) && #[trigger] v.remote.contains(id) implies w.ready.skip(n).contains(id)
            && w.ready.contains(id) by {
            if id == r {
                assert(w.ready.skip(n)[0] == r);
                assert(w.ready[n] == r);
            } else {
                let m = choose|m: int| 0 <= m < v.remote.len() && v.remote[m] == id;
                assert(rest[m - 1] == id);
                assert(rest.contains(id));
                assert(waits(v1, id));
                let k = choose|k: int| 0 <= k < w.ready.skip(n1).len() && w.ready.skip(n1)[k] == id;
                assert(w.ready[n1 + k] == id);
                assert(w.ready.skip(n)[n1 - n + k] == id);
            }
        }
        assert forall|i: int, j: int| n <= i < j < w.ready.len() implies #[trigger] w.ready[i] != #[trigger] w.ready[j]
            && comes_first(v.remote, w.ready[i], w.ready[j]) by {
            assert(j >= n1);
            assert(waits(v1, w.ready[j]) && waits(v, w.ready[j]));
            assert(w.ready[j] != r);
            if i < n1 {
                assert(v.remote[0] == w.ready[i]);
            } else {
                assert(comes_first(rest, w.ready[i], w.ready[j]));
                let m = choose|m: int|
                    0 <= m < rest.len() && #[trigger] rest[m] == w.ready[i] && forall|l: int| 0 <= l <= m ==> rest[l] != w.ready[j];
                assert(v.remote[m + 1] == w.ready[i]);
                assert forall|l: int| 0 <= l <= m + 1 implies v.remote[l] != w.ready[j] by {
                    if l > 0 {
                        assert(rest[l - 1] == v.remote[l]);
                    }
                }
            }
        }
    }
}

/// A task that waits, and is woken on the executor's own thread, is the next to be polled; the one
/// that was to be the next before goes behind all others. Waking any other task changes nothing.
pub proof fn who_is_woken_is_polled_next<P, W>(v: ExecState<P, W>, id: u32)
    requires
        id < v.slots.len(),
    ensures
        ({
            let w = executor::woken(v, id);
            &&& !waits(v, id) ==> w == v
            &&& waits(v, id) ==> {
                &&& executor::pick(w).1 == Some(id)
                &&& w.slots == v.slots.update(id as int, TaskSlot { state: STATE_READY, ..v.slots[id as int] })
                &&& v.hot is None ==> w.ready == v.ready
                &&& v.hot matches Some(h) ==> w.ready == v.ready + seq![h]
                &&& w.remote == v.remote && w.free == v.free && w.timers == v.timers && w.next_handle == v.next_handle
            }
        }),
{
    if v.hot is Some {
        assert(v.ready.push(v.hot->0) =~= v.ready + seq![v.hot->0]);
    }
}

// ---------------------------------------------------------------------------
// Polling
// ---------------------------------------------------------------------------

proof fn lemma_queue_in_order<P, W>(v: ExecState<P, W>)
    ensures
        ({
            let (w, next) = executor::pick_queued(v);
            match next {
                None => w == (ExecState { ready: Seq::empty(), ..v }) && forall|j: int|
                    0 <= j < v.ready.len() ==> v.slots[#[trigger] v.ready[j] as int].state != STATE_READY,
                Some(id) => exists|k: int|
                    0 <= k < v.ready.len() && #[trigger] v.ready[k] == id && first_ready(v, k) && w == after_poll_of(
                        ExecState { ready: v.ready.skip(k + 1), ..v },
                        id,
                    ),
            }
        }),
    decreases v.ready.len(),
{
    if v.ready.len() == 0 {
        assert(v.ready =~= Seq::empty());
    } else {
        let rest = ExecState { ready: v.ready.drop_first(), ..v };
        if v.slots[v.ready[0] as int].state == STATE_READY {
            assert(v.ready.skip(1) =~= v.ready.drop_first());
            assert(v.ready[0] == executor::pick_queued(v).1->0 && first_ready(v, 0));
        } else {
            lemma_queue_in_order(rest);
            match executor::pick_queued(rest).1 {
                None => {
                    assert forall|j: int| 0 <= j < v.ready.len() implies v.slots[#[trigger] v.ready[j] as int].state
                        != STATE_READY by {
                        if j > 0 {
                            assert(rest.ready[j - 1] == v.ready[j]);
                        }
                    }
                },
                Some(id) => {
                    let k = choose|k: int|
                        0 <= k < rest.ready.len() && #[trigger] rest.ready[k] == id && first_ready(rest, k)
                            && executor::pick_queued(rest).0 == after_poll_of(
                            ExecState { ready: rest.ready.skip(k + 1), ..rest },
                            id,
                        );
                    assert(v.ready[k + 1] == id);
                    assert(rest.ready.skip(k + 1) =~= v.ready.skip(k + 2));
                    assert forall|j: int| 0 <= j < k + 1 implies v.slots[#[trigger] v.ready[j] as int].state != STATE_READY by {
                        if j > 0 {
                            assert(rest.ready[j - 1] == v.ready[j]);
                        }
                    }
                    assert(first_ready(v, k + 1));
                },
            }
        }
    }
}

/// Is the task at place `k` of the queue ready, and none before it?
pub open spec fn first_ready<P, W>(v: ExecState<P, W>, k: int) -> bool {
    &&& v.slots[v.ready[k] as int].state == STATE_READY
    &&& forall|j: int| 0 <= j < k ==> v.slots[#[trigger] v.ready[j] as int].state != STATE_READY
}

/// The executor while a task is polled: the task waits, and its payload is out. Nothing else is
/// touched.
pub open spec fn after_poll_of<P, W>(v: ExecState<P, W>, id: u32) -> ExecState<P, W> {
    ExecState {
        slots: v.slots.update(id as int, TaskSlot { state: STATE_PENDING, storage: None, ..v.slots[id as int] }),
        ..v
    }
}

/// Tasks are polled in the order in which they became ready: the hot one if it is ready, else the
/// first of the queue that is ready. What stands behind it stays queued, in order.
pub proof fn tasks_are_polled_in_order<P, W>(v: ExecState<P, W>)
    requires
        v.wf(),
    ensures
        ({
            let hot_is_ready = v.hot is Some && v.slots[v.hot->0 as int].state == STATE_READY;
            let (w, next) = executor::pick(v);
            &&& hot_is_ready ==> next == v.hot && w == after_poll_of(ExecState { hot: None, ..v }, v.hot->0)
            &&& !hot_is_ready && next is Some ==> exists|k: int|
                0 <= k < v.ready.len() && Some(#[trigger] v.ready[k]) == next && first_ready(v, k) && w == after_poll_of(
                    ExecState { hot: None, ready: v.ready.skip(k + 1), ..v },
                    v.ready[k],
                )
            &&& next is None ==> {
                &&& w == (ExecState { hot: None, ready: Seq::empty(), ..v })
                &&& forall|i: int| 0 <= i < v.slots.len() ==> (#[trigger] v.slots[i]).state != STATE_READY
            }
        }),
{
    let cold = ExecState { hot: None, ..v };
    if !(v.hot is Some && v.slots[v.hot->0 as int].state == STATE_READY) {
        lemma_queue_in_order(cold);
        executor::every_ready_task_is_picked(v);
        match executor::pick(v).1 {
            Some(id) => {
                let k = choose|k: int|
                    0 <= k < cold.ready.len() && #[trigger] cold.ready[k] == id && first_ready(cold, k)
                        && executor::pick_queued(cold).0 == after_poll_of(
                        ExecState { ready: cold.ready.skip(k + 1), ..cold },
                        id,
                    );
                assert(v.ready[k] == id);
                assert forall|j: int| 0 <= j < k implies v.slots[#[trigger] v.ready[j] as int].state != STATE_READY by {
                    assert(cold.ready[j] == v.ready[j]);
                }
                assert(first_ready(v, k));
            },
            None => {},
        }
    }
}

/// What the driver is told to do next, where neither a waker nor a result has to be seen to: to poll
/// a task that is ready, with the payload and the plugin of its slot, or that the cycle is over, and
/// then no task is ready.
pub open spec fn goes_on<P, W>(w: ExecState<P, W>, did_work: bool, d: executor::Driven<P, W>) -> bool {
    match d.step {
        DriveStep::Poll(id, plugin_id, payload) => {
            &&& d.did_work
            &&& id < w.slots.len()
            &&& w.slots[id as int].state == STATE_READY
            &&& w.slots[id as int].plugin_id == plugin_id
            &&& w.slots[id as int].storage is Some ==> w.slots[id as int].storage == Some(payload)
            &&& d.state.slots == w.slots.update(
                id as int,
                TaskSlot { state: STATE_PENDING, storage: None, ..w.slots[id as int] },
            )
        },
        DriveStep::Done(b) => {
            &&& b == did_work
            &&& d.did_work == did_work
            &&& d.state.slots == w.slots
            &&& forall|i: int| 0 <= i < w.slots.len() ==> (#[trigger] w.slots[i]).state != STATE_READY
        },
        _ => false,
    }
}

/// A cycle goes on until no task is ready: every step but those that hand out wakers or a result
/// polls a task that is ready, or ends the cycle when there is none.
pub proof fn a_cycle_ends_when_nothing_is_ready<P, W>(v: ExecState<P, W>, did_work: bool, ev: DriveEvent<P>)
    requires
        executor::taken_in(v, ev).wf(),
    ensures
        ({
            let d = executor::driven(v, did_work, ev);
            let w = executor::taken_in(v, ev);
            &&& ev is Woken ==> w == v && goes_on(w, did_work, d)
            &&& ev is Dropped ==> goes_on(w, did_work, d)
            &&& ev matches DriveEvent::Polled(id, PollOutcome::Pending(p)) ==> goes_on(w, did_work, d)
            &&& d.step is Done ==> forall|i: int| 0 <= i < w.slots.len() ==> (#[trigger] w.slots[i]).state != STATE_READY
        }),
{
    let w = executor::taken_in(v, ev);
    tasks_are_polled_in_order(w);
    executor::every_ready_task_is_picked(w);
}

/// A cycle starts by taking in the remote wakes and by waking whoever waits for a timer that is due;
/// there was work if there was either. Only timers that are due go.
pub proof fn a_cycle_starts_with_the_wakes<P, W>(v: ExecState<P, W>, did_work: bool, now: u64)
    requires
        executor::taken_in(v, DriveEvent::Begin(now)).wf(),
    ensures
        ({
            let d = executor::driven(v, did_work, DriveEvent::Begin(now));
            let w = executor::taken_in(v, DriveEvent::Begin(now));
            let due = v.timers.filter(|t: TimerEntry<W>| t.deadline <= now).map_values(|t: TimerEntry<W>| t.waker);
            let worked = v.remote.len() > 0 || due.len() > 0;
            &&& w == (ExecState { timers: v.timers.filter(|t: TimerEntry<W>| t.deadline > now), ..executor::drained(v) })
            &&& due.len() > 0 ==> d.step == DriveStep::<P, W>::Wake(due) && d.state == w && d.did_work
            &&& due.len() == 0 ==> goes_on(w, worked, d)
        }),
{
    let w = executor::taken_in(v, DriveEvent::Begin(now));
    no_remote_wake_is_lost(v);
    timers_are_told_apart(v.timers, now);
    tasks_are_polled_in_order(w);
    executor::every_ready_task_is_picked(w);
}

/// Of the timers, those whose time has come fire, in their order, and all others stay, in theirs.
pub proof fn timers_are_told_apart<W>(t: Seq<TimerEntry<W>>, now: u64)
    ensures
        executor::due_wakers(t, now) == t.filter(|e: TimerEntry<W>| e.deadline <= now).map_values(|e: TimerEntry<W>| e.waker),
        executor::pending_timers(t, now) == t.filter(|e: TimerEntry<W>| e.deadline > now),
    decreases t.len(),
{
    reveal(Seq::filter);
    let due = |e: TimerEntry<W>| e.deadline <= now;
    let of = |e: TimerEntry<W>| e.waker;
    if t.len() > 0 {
        timers_are_told_apart(t.drop_last(), now);
        if t.last().deadline <= now {
            assert(t.filter(due) == t.drop_last().filter(due).push(t.last()));
            assert(t.filter(due).map_values(of) =~= t.drop_last().filter(due).map_values(of).push(t.last().waker));
        }
    } else {
        assert(t.filter(due).map_values(of) =~= Seq::<W>::empty());
    }
}

// ---------------------------------------------------------------------------
// Joining
// ---------------------------------------------------------------------------

/// Whoever joins a task is woken when it completes, whatever else is queued: the join waker leaves
/// its slot on completion only by being handed out to be woken, and the result stays in the slot.
pub proof fn who_joins_is_woken<P, W>(v: ExecState<P, W>, did_work: bool, id: u32, result: P, waker: W)
    requires
        id < v.slots.len(),
        !v.slots[id as int].detached,
        v.slots[id as int].join_waker == Some(waker),
    ensures
        ({
            let d = executor::driven(v, did_work, DriveEvent::Polled(id, PollOutcome::Ready(result)));
            &&& d.step == DriveStep::<P, W>::WakeJoin(waker)
            &&& d.did_work == did_work
            &&& d.state == (ExecState {
                slots: v.slots.update(
                    id as int,
                    TaskSlot { state: STATE_COMPLETE, storage: Some(result), join_waker: None, ..v.slots[id as int] },
                ),
                ..v
            })
        }),
{
}

/// A task that completes keeps its result for whoever may still join it; the others are not
/// touched, and the cycle goes on.
pub proof fn results_wait_for_who_joins<P, W>(v: ExecState<P, W>, did_work: bool, id: u32, result: P)
    requires
        id < v.slots.len(),
        !v.slots[id as int].detached,
        executor::taken_in(v, DriveEvent::Polled(id, PollOutcome::Ready(result))).wf(),
    ensures
        ({
            let ev = DriveEvent::Polled(id, PollOutcome::Ready(result));
            let d = executor::driven(v, did_work, ev);
            let w = executor::taken_in(v, ev);
            &&& w == (ExecState {
                slots: v.slots.update(
                    id as int,
                    TaskSlot { state: STATE_COMPLETE, storage: Some(result), join_waker: None, ..v.slots[id as int] },
                ),
                ..v
            })
            &&& v.slots[id as int].join_waker is None ==> goes_on(w, did_work, d)
            &&& d.state.slots[id as int] == w.slots[id as int]
        }),
{
    let w = executor::taken_in(v, DriveEvent::Polled(id, PollOutcome::Ready(result)));
    tasks_are_polled_in_order(w);
    executor::every_ready_task_is_picked(w);
}

/// The result of a task that nobody joins any more is handed out to be dropped, and its slot can be
/// freed then.
pub proof fn results_nobody_takes_are_dropped<P, W>(v: ExecState<P, W>, did_work: bool, id: u32, result: P)
    requires
        id < v.slots.len(),
        v.slots[id as int].detached,
    ensures
        ({
            let d = executor::driven(v, did_work, DriveEvent::Polled(id, PollOutcome::Ready(result)));
            &&& d.step == DriveStep::<P, W>::DropResult(id, v.slots[id as int].plugin_id, result)
            &&& d.did_work == did_work
            &&& d.state == (ExecState {
                slots: v.slots.update(
                    id as int,
                    TaskSlot { state: STATE_CANCELLED, storage: None, join_waker: None, ..v.slots[id as int] },
                ),
                ..v
            })
            &&& executor::taken_in(d.state, DriveEvent::Dropped(id)) == (ExecState {
                slots: d.state.slots.update(
                    id as int,
                    TaskSlot { state: STATE_EMPTY, ..d.state.slots[id as int] },
                ),
                free: v.free + seq![id],
                ..v
            })
        }),
{
    assert(v.free.push(id) =~= v.free + seq![id]);
}

/// A task that is not done keeps its payload, and stays ready if it was woken while it was polled.
pub proof fn unfinished_tasks_keep_their_payload<P, W>(v: ExecState<P, W>, id: u32, payload: P)
    requires
        id < v.slots.len(),
    ensures
        executor::taken_in(v, DriveEvent::Polled(id, PollOutcome::Pending(payload))) == (ExecState {
            slots: v.slots.update(id as int, TaskSlot { storage: Some(payload), ..v.slots[id as int] }),
            ..v
        }),
{
}

// ---------------------------------------------------------------------------
// Spawning
// ---------------------------------------------------------------------------

/// A spawned task lives in a slot that was free, under a generation that the slot did not have
/// before; it is ready, behind all others, and nobody joins it yet. No other task is touched.
pub proof fn spawned_tasks_are_queued<P, W>(v: ExecState<P, W>, payload: P, plugin_id: u64)
    requires
        v.wf(),
        v.free.len() > 0 || v.slots.len() < MAX_SLOTS,
    ensures
        ({
            let (given, id, gen) = executor::allocated(v);
            let w = executor::spawned(given, id, payload, plugin_id);
            &&& v.free.len() > 0 ==> id == v.free.last() && w.free == v.free.drop_last() && w.slots.len() == v.slots.len()
                && v.slots[id as int].state == STATE_EMPTY && gen == v.slots[id as int].generation.wrapping_add(1)
            &&& v.free.len() == 0 ==> id == v.slots.len() && w.slots.len() == v.slots.len() + 256 && gen == 1
            &&& id < w.slots.len()
            &&& w.slots[id as int] == (TaskSlot::<P, W> {
                storage: Some(payload),
                generation: gen,
                state: STATE_READY,
                detached: false,
                plugin_id,
                join_waker: None,
            })
            &&& w.ready == v.ready + seq![id]
            &&& forall|i: int| 0 <= i < v.slots.len() && i != id ==> #[trigger] w.slots[i] == v.slots[i]
            &&& v.free.len() == 0 ==> forall|i: int|
                v.slots.len() < i < w.slots.len() ==> (#[trigger] w.slots[i]).state == STATE_EMPTY && w.free.contains(i as u32)
            &&& !w.free.contains(id)
            &&& w.hot == v.hot && w.remote == v.remote && w.timers == v.timers && w.next_handle == v.next_handle
        }),
{
    let (given, id, gen) = executor::allocated(v);
    let w = executor::spawned(given, id, payload, plugin_id);
    assert(given.ready.push(id) =~= v.ready + seq![id]);
    if v.free.len() > 0 {
        assert(v.has(v.free[v.free.len() - 1]));
        if w.free.contains(id) {
            let k = choose|k: int| 0 <= k < w.free.len() && w.free[k] == id;
            assert(v.free[k] != v.free[v.free.len() - 1]);
        }
    } else {
        assert forall|i: int| v.slots.len() < i < w.slots.len() implies (#[trigger] w.slots[i]).state == STATE_EMPTY
            && w.free.contains(i as u32) by {
            assert(w.free[id + 255 - i] == i as u32);
        }
    }
}

// ---------------------------------------------------------------------------
// Unloading a plugin
// ---------------------------------------------------------------------------

/// Does the slot hold a task of this plugin, running or complete?
pub open spec fn holds_task_of<P, W>(slot: TaskSlot<P, W>, plugin_id: u64) -> bool {
    &&& slot.plugin_id == plugin_id
    &&& slot.state != STATE_EMPTY
    &&& slot.state != STATE_CANCELLED
}

/// Is this what has to be dropped of slot `i`?
pub open spec fn is_rest_of<P, W>(c: Cleanup<P>, slots: Seq<TaskSlot<P, W>>, i: int) -> bool {
    &&& c.id == i
    &&& c.plugin_id == slots[i].plugin_id
    &&& c.payload == slots[i].storage
    &&& c.complete == (slots[i].state == STATE_COMPLETE)
}

proof fn lemma_rests<P, W>(slots: Seq<TaskSlot<P, W>>, plugin_id: u64, n: int)
    requires
        0 <= n <= slots.len() <= MAX_SLOTS,
    ensures
        ({
            let r = executor::doomed_payloads(slots, plugin_id, n);
            &&& forall|i: int|
                0 <= i < n && holds_task_of(#[trigger] slots[i], plugin_id) ==> exists|k: int|
                    0 <= k < r.len() && is_rest_of(#[trigger] r[k], slots, i)
            &&& forall|k: int|
                0 <= k < r.len() ==> (#[trigger] r[k]).id < n && holds_task_of(slots[r[k].id as int], plugin_id) && is_rest_of(
                    r[k],
                    slots,
                    r[k].id as int,
                )
            &&& forall|j: int, k: int| 0 <= j < k < r.len() ==> (#[trigger] r[j]).id < (#[trigger] r[k]).id
        }),
    decreases n,
{
    if n > 0 {
        lemma_rests(slots, plugin_id, n - 1);
        let r = executor::doomed_payloads(slots, plugin_id, n);
        let before = executor::doomed_payloads(slots, plugin_id, n - 1);
        assert forall|i: int| 0 <= i < n && holds_task_of(#[trigger] slots[i], plugin_id) implies exists|k: int|
            0 <= k < r.len() && is_rest_of(#[trigger] r[k], slots, i) by {
            if i < n - 1 {
                let k = choose|k: int| 0 <= k < before.len() && is_rest_of(#[trigger] before[k], slots, i);
                assert(is_rest_of(r[k], slots, i));
            } else {
                assert(is_rest_of(r[r.len() - 1], slots, i));
            }
        }
    }
}

/// Of every task of a plugin that is unloaded, running or complete, exactly one payload is handed
/// out to be dropped, in the order of the slots; and of nothing else.
pub proof fn every_dropped_task_is_handed_out<P, W>(v: ExecState<P, W>, plugin_id: u64)
    requires
        v.wf(),
    ensures
        ({
            let r = executor::doomed_payloads(v.slots, plugin_id, v.slots.len() as int);
            &&& forall|i: int|
                0 <= i < v.slots.len() && holds_task_of(#[trigger] v.slots[i], plugin_id) ==> exists|k: int|
                    0 <= k < r.len() && is_rest_of(#[trigger] r[k], v.slots, i)
            &&& forall|k: int|
                0 <= k < r.len() ==> (#[trigger] r[k]).id < v.slots.len() && holds_task_of(
                    v.slots[r[k].id as int],
                    plugin_id,
                ) && is_rest_of(r[k], v.slots, r[k].id as int)
            &&& forall|j: int, k: int| 0 <= j < k < r.len() ==> (#[trigger] r[j]).id < (#[trigger] r[k]).id
        }),
{
    lemma_rests(v.slots, plugin_id, v.slots.len() as int);
}

/// The ids of what was handed out.
pub open spec fn ids_of<P>(r: Seq<Cleanup<P>>) -> Seq<u32> {
    r.map_values(|c: Cleanup<P>| c.id)
}

proof fn lemma_freed_slots<P, W>(v: ExecState<P, W>, ids: Seq<u32>)
    requires
        v.slots.len() <= MAX_SLOTS,
        forall|k: int| 0 <= k < ids.len() ==> #[trigger] ids[k] < v.slots.len(),
    ensures
        ({
            let w = executor::all_freed(v, ids);
            &&& w.free == v.free + ids
            &&& w.slots.len() == v.slots.len()
            &&& forall|i: int|
                0 <= i < v.slots.len() && ids.contains(i as u32) ==> (#[trigger] w.slots[i]) == (TaskSlot {
                    storage: None,
                    state: STATE_EMPTY,
                    join_waker: None,
                    ..v.slots[i]
                })
            &&& forall|i: int| 0 <= i < v.slots.len() && !ids.contains(i as u32) ==> #[trigger] w.slots[i] == v.slots[i]
            &&& w.ready == v.ready && w.hot == v.hot && w.remote == v.remote && w.timers == v.timers && w.next_handle
                == v.next_handle
        }),
    decreases ids.len(),
{
    if ids.len() == 0 {
        assert(v.free + ids =~= v.free);
    } else {
        let d = ids.drop_last();
        let x = ids.last();
        assert(x == ids[ids.len() - 1]);
        assert forall|k: int| 0 <= k < d.len() implies #[trigger] d[k] < v.slots.len() by {
            assert(d[k] == ids[k]);
        }
        lemma_freed_slots(v, d);
        let m = executor::all_freed(v, d);
        let w = executor::all_freed(v, ids);
        assert(w.free =~= v.free + ids);
        assert forall|i: int| 0 <= i < v.slots.len() implies #[trigger] ids.contains(i as u32) == (d.contains(i as u32) || i == x) by {
            if ids.contains(i as u32) {
                let k = choose|k: int| 0 <= k < ids.len() && ids[k] == i as u32;
                if k < d.len() {
                    assert(d[k] == i as u32);
                }
            }
            if d.contains(i as u32) {
                let k = choose|k: int| 0 <= k < d.len() && d[k] == i as u32;
                assert(ids[k] == i as u32);
            }
        }
    }
}

/// Unloading a plugin leaves nothing of it behind: once the payloads that were handed out are
/// dropped, every slot that held one of its tasks is empty and free, each once; no task of it is
/// queued; and the tasks of other plugins are as they were, queued as before.
pub proof fn unloading_frees_every_slot<P, W>(v: ExecState<P, W>, plugin_id: u64)
    requires
        v.wf(),
    ensures
        ({
            let r = executor::doomed_payloads(v.slots, plugin_id, v.slots.len() as int);
            let mid = executor::plugin_purged(v, plugin_id);
            let w = executor::plugin_gone(mid, ids_of(r));
            &&& mid.slots.len() == v.slots.len() == w.slots.len()
            &&& forall|i: int|
                0 <= i < v.slots.len() && holds_task_of(#[trigger] v.slots[i], plugin_id) ==> mid.slots[i] == (TaskSlot {
                    storage: None,
                    state: STATE_CANCELLED,
                    join_waker: None,
                    ..v.slots[i]
                })
            &&& forall|i: int|
                0 <= i < v.slots.len() && holds_task_of(#[trigger] v.slots[i], plugin_id) ==> w.slots[i].state == STATE_EMPTY
                    && w.slots[i].storage is None && w.slots[i].join_waker is None && w.free.skip(
                    v.free.len() as int,
                ).contains(i as u32)
            &&& forall|i: int|
                0 <= i < v.slots.len() && !holds_task_of(#[trigger] v.slots[i], plugin_id) ==> mid.slots[i] == v.slots[i]
                    && w.slots[i] == v.slots[i]
            &&& w.free == v.free + ids_of(r)
            &&& mid.free == v.free
            &&& mid.ready == v.ready.filter(|id: u32| !holds_task_of(v.slots[id as int], plugin_id))
            &&& w.ready == mid.ready
            &&& v.hot is None ==> mid.hot is None
            &&& v.hot matches Some(h) ==> mid.hot == if v.slots[h as int].plugin_id == plugin_id {
                None
            } else {
                v.hot
            }
            &&& w.hot == mid.hot
            &&& mid.timers == v.timers
            &&& w.timers == if r.len() > 0 {
                Seq::empty()
            } else {
                v.timers
            }
            &&& w.remote == v.remote && w.next_handle == v.next_handle
        }),
{
    let r = executor::doomed_payloads(v.slots, plugin_id, v.slots.len() as int);
    let mid = executor::plugin_purged(v, plugin_id);
    let ids = ids_of(r);
    let w = executor::plugin_gone(mid, ids);
    lemma_rests(v.slots, plugin_id, v.slots.len() as int);
    assert forall|k: int| 0 <= k < ids.len() implies #[trigger] ids[k] < mid.slots.len() by {
        assert(r[k].id < v.slots.len());
    }
    lemma_freed_slots(mid, ids);
    lemma_queue_filtered(v.ready, v.slots, plugin_id);
    assert forall|i: int| 0 <= i < v.slots.len() && holds_task_of(#[trigger] v.slots[i], plugin_id) implies w.slots[i].state
        == STATE_EMPTY && w.slots[i].storage is None && w.slots[i].join_waker is None && w.free.skip(
        v.free.len() as int,
    ).contains(i as u32) by {
        let k = choose|k: int| 0 <= k < r.len() && is_rest_of(#[trigger] r[k], v.slots, i);
        assert(ids[k] == i as u32);
        assert(ids.contains(i as u32));
        assert(w.free.skip(v.free.len() as int)[k] == i as u32);
    }
    assert forall|i: int| 0 <= i < v.slots.len() && !holds_task_of(#[trigger] v.slots[i], plugin_id) implies mid.slots[i]
        == v.slots[i] && w.slots[i] == v.slots[i] by {
        if ids.contains(i as u32) {
            let k = choose|k: int| 0 <= k < ids.len() && ids[k] == i as u32;
            assert(holds_task_of(v.slots[r[k].id as int], plugin_id));
        }
    }
    assert(r.len() == 0 ==> w.free =~= v.free + ids);
}

proof fn lemma_queue_filtered<P, W>(ready: Seq<u32>, slots: Seq<TaskSlot<P, W>>, plugin_id: u64)
    requires
        slots.len() <= MAX_SLOTS,
        forall|k: int| 0 <= k < ready.len() ==> #[trigger] ready[k] < slots.len(),
    ensures
        executor::queue_purged(ready, slots, plugin_id) == ready.filter(
            |id: u32| !holds_task_of(slots[id as int], plugin_id),
        ),
    decreases ready.len(),
{
    reveal(Seq::filter);
    if ready.len() > 0 {
        let d = ready.drop_last();
        assert forall|k: int| 0 <= k < d.len() implies #[trigger] d[k] < slots.len() by {
            assert(d[k] == ready[k]);
        }
        lemma_queue_filtered(d, slots, plugin_id);
        assert(ready[ready.len() - 1] < slots.len());
    }
}

// ---------------------------------------------------------------------------
// Lifecycle of a task
// ---------------------------------------------------------------------------

/// Does the task of this generation still run?
pub open spec fn still_runs<P, W>(v: ExecState<P, W>, id: u32, gen: u32) -> bool {
    &&& id < v.slots.len()
    &&& v.slots[id as int].generation == gen
    &&& v.slots[id as int].state != STATE_EMPTY
    &&& v.slots[id as int].state != STATE_COMPLETE
    &&& v.slots[id as int].state != STATE_CANCELLED
}

/// Has the task of this generation a result that nobody has taken?
pub open spec fn result_is_there<P, W>(v: ExecState<P, W>, id: u32, gen: u32) -> bool {
    &&& id < v.slots.len()
    &&& v.slots[id as int].generation == gen
    &&& v.slots[id as int].state == STATE_COMPLETE
}

/// The executor with a slot empty and on the free list.
pub open spec fn slot_given_back<P, W>(v: ExecState<P, W>, id: u32) -> ExecState<P, W> {
    ExecState {
        slots: v.slots.update(
            id as int,
            TaskSlot { storage: None, state: STATE_EMPTY, join_waker: None, ..v.slots[id as int] },
        ),
        free: v.free + seq![id],
        ..v
    }
}

/// A task is over unless it still runs: an id of no slot, one whose slot was given to another task, and
/// one whose task completed or was cancelled, all count as over.
pub proof fn a_task_is_over_or_runs<P, W>(v: ExecState<P, W>, id: u32, gen: u32)
    ensures
        executor::finished(v, id, gen) <==> !still_runs(v, id, gen),
{
}

proof fn lemma_without_filter(s: Seq<u32>, id: u32)
    ensures
        executor::without(s, id) == s.filter(|x: u32| x != id),
    decreases s.len(),
{
    reveal(Seq::filter);
    if s.len() > 0 {
        lemma_without_filter(s.drop_last(), id);
    }
}

/// Cancelling a running task takes its payload and its join waker out, and the task out of the queue;
/// a complete one leaves a free slot at once. Nothing else is touched.
pub proof fn cancelling_touches_one_task<P, W>(v: ExecState<P, W>, id: u32, gen: u32)
    requires
        id < v.slots.len(),
    ensures
        ({
            let w = executor::cancel_begun(v, id, gen);
            let queue = v.ready.filter(|x: u32| x != id);
            &&& still_runs(v, id, gen) ==> w == (ExecState {
                slots: v.slots.update(
                    id as int,
                    TaskSlot { storage: None, state: STATE_CANCELLED, join_waker: None, ..v.slots[id as int] },
                ),
                ready: queue,
                ..v
            })
            &&& result_is_there(v, id, gen) ==> w == (ExecState { ready: queue, ..slot_given_back(v, id) })
            &&& !still_runs(v, id, gen) && !result_is_there(v, id, gen) ==> w == v
        }),
{
    lemma_without_filter(v.ready, id);
    assert(v.free.push(id) =~= v.free + seq![id]);
}

/// The slot of a cancelled task is free once its future has been dropped, unless it was given to
/// another task meanwhile.
pub proof fn cancelling_ends_with_a_free_slot<P, W>(v: ExecState<P, W>, id: u32, gen: u32)
    requires
        id < v.slots.len(),
    ensures
        executor::cancel_ended(v, id, gen) == if v.slots[id as int].state == STATE_CANCELLED && v.slots[id as int].generation
            == gen {
            slot_given_back(v, id)
        } else {
            v
        },
{
    assert(v.free.push(id) =~= v.free + seq![id]);
}

/// A task that nobody joins any more runs on, without a join waker, and is marked; if it was complete,
/// its slot is free. Nothing else is touched.
pub proof fn detaching_touches_one_task<P, W>(v: ExecState<P, W>, id: u32, gen: u32)
    ensures
        ({
            let w = executor::detached(v, id, gen);
            &&& result_is_there(v, id, gen) ==> w == slot_given_back(v, id)
            &&& still_runs(v, id, gen) && (v.slots[id as int].state == STATE_PENDING || v.slots[id as int].state == STATE_READY)
                ==> w == (ExecState {
                slots: v.slots.update(id as int, TaskSlot { detached: true, join_waker: None, ..v.slots[id as int] }),
                ..v
            })
            &&& !still_runs(v, id, gen) && !result_is_there(v, id, gen) ==> w == v
        }),
{
    assert(v.free.push(id) =~= v.free + seq![id]);
}

/// What is handed out of a task's slot is its payload, with the plugin it belongs to and whether it is
/// a result.
pub proof fn what_is_left_of_a_task<P, W>(v: ExecState<P, W>, id: u32)
    requires
        id < v.slots.len(),
    ensures
        is_rest_of(executor::cleanup_of(id, v.slots[id as int]), v.slots, id as int),
        executor::live(v.slots[id as int]) <==> v.slots[id as int].state != STATE_EMPTY && v.slots[id as int].state
            != STATE_CANCELLED,
{
}

/// Joining a task gives its result once it is complete; it gives nothing for a task that was cancelled,
/// or whose slot has gone to another; and it waits only while the task runs.
pub proof fn joining_gives_the_result<P, W>(v: ExecState<P, W>, h: JoinHandle)
    ensures
        result_is_there(v, h.id, h.gen) ==> join::joined(v, h) == Poll::Ready(v.slots[h.id as int].storage),
        still_runs(v, h.id, h.gen) <==> join::joined(v, h) is Pending,
        !still_runs(v, h.id, h.gen) && !result_is_there(v, h.id, h.gen) ==> join::joined(v, h) == Poll::Ready(None::<P>),
        wait::result_taken(v, h.id, h.gen) == if result_is_there(v, h.id, h.gen) {
            slot_given_back(v, h.id)
        } else {
            v
        },
        wait::holds_result(v, h.id, h.gen) <==> result_is_there(v, h.id, h.gen),
{
    assert(v.free.push(h.id) =~= v.free + seq![h.id]);
}

/// From spawning to joining: a task that is spawned, picked, polled to its end and then joined gives
/// the very result of that poll, and wakes the one who waited for it.
pub proof fn a_task_runs_from_spawn_to_join<P, W>(
    v: ExecState<P, W>,
    payload: P,
    plugin_id: u64,
    waker: W,
    result: P,
    did_work: bool,
)
    requires
        v.wf(),
        v.free.len() > 0 || v.slots.len() < MAX_SLOTS,
    ensures
        ({
            let (given, id, gen) = executor::allocated(v);
            let h = JoinHandle { id, gen, taken: false };
            let w = executor::spawned(given, id, payload, plugin_id);
            let waiting = w.put(id, TaskSlot { join_waker: Some(waker), ..w.slot(id) });
            let d = executor::driven(waiting, did_work, DriveEvent::Polled(id, PollOutcome::Ready(result)));
            &&& join::joined(w, h) is Pending
            &&& d.step == DriveStep::<P, W>::WakeJoin(waker)
            &&& join::joined(d.state, h) == Poll::Ready(Some(result))
            &&& join::joined(wait::result_taken(d.state, id, gen), h) == Poll::Ready(None::<P>)
            &&& wait::result_taken(d.state, id, gen).free.last() == id
        }),
{
    spawned_tasks_are_queued(v, payload, plugin_id);
}

// ---------------------------------------------------------------------------
// Waiting
// ---------------------------------------------------------------------------

/// The reactor is polled for 10 ms at most, and never beyond the next timer by a millisecond or more;
/// nor for less than that.
pub proof fn the_reactor_is_left_in_time(d: u64)
    ensures
        wait::react_millis(None) == 10,
        wait::react_millis(Some(d)) <= 10,
        wait::react_millis(Some(d)) * 1_000_000 <= d,
        wait::react_millis(Some(d)) < 10 ==> d < (wait::react_millis(Some(d)) + 1) * 1_000_000,
{
}

/// Waiting for a task ends when the task is over, and only then; what it left behind is handed out then,
/// and its slot is free. Before that, the executor is driven, or the reactor polled after a cycle
/// that found no work; the executor is not touched.
pub proof fn waiting_ends_with_the_task<P, W>(
    v: ExecState<P, W>,
    after: ExecState<P, W>,
    packed_id: u64,
    drove: bool,
    drove_after: bool,
    ev: WaitEvent,
    now: u64,
    r: WaitAction<P>,
)
    requires
        wait::waited(v, after, packed_id, drove, drove_after, ev, now, r),
    ensures
        ({
            let id = (packed_id % 0x1_0000_0000) as u32;
            let gen = (packed_id / 0x1_0000_0000) as u32;
            let idle = ev == WaitEvent::Drove(false) && !drove;
            &&& packed_id == 0 ==> r == WaitAction::<P>::Return(None) && after == v
            &&& packed_id != 0 && idle ==> r is React && after == v && r->React_0 <= 10
            &&& packed_id != 0 && !idle && still_runs(v, id, gen) ==> r is Drive && after == v && drove_after == (ev
                == WaitEvent::Drove(true))
            &&& packed_id != 0 && !idle && !still_runs(v, id, gen) ==> r is Return
            &&& packed_id != 0 && !idle && result_is_there(v, id, gen) ==> {
                &&& r->Return_0 is Some
                &&& is_rest_of(r->Return_0->0, v.slots, id as int)
                &&& after == slot_given_back(v, id)
            }
            &&& packed_id != 0 && !idle && !still_runs(v, id, gen) && !result_is_there(v, id, gen) ==> r == WaitAction::<
                P,
            >::Return(None) && after == v
        }),
{
    let id = (packed_id % 0x1_0000_0000) as u32;
    assert(v.free.push(id) =~= v.free + seq![id]);
    if packed_id != 0 && ev == WaitEvent::Drove(false) && !drove {
        let next = choose|next: Option<u64>|
            #[trigger] executor::is_next_deadline(v.timers, now, next) && r->React_0 == wait::react_millis(next);
        if next is Some {
            the_reactor_is_left_in_time(next->0);
        }
    }
}

/// While cycles find work they follow each other; the reactor is polled only after a cycle that found
/// none, and before which none found any.
pub proof fn the_reactor_waits_for_an_idle_cycle<P, W>(
    v: ExecState<P, W>,
    after: ExecState<P, W>,
    packed_id: u64,
    drove: bool,
    drove_after: bool,
    ev: WaitEvent,
    now: u64,
    r: WaitAction<P>,
)
    requires
        wait::waited(v, after, packed_id, drove, drove_after, ev, now, r),
        packed_id != 0,
    ensures
        r is React <==> ev == WaitEvent::Drove(false) && !drove,
        r matches WaitAction::React(ms) ==> forall|i: int|
            0 <= i < v.timers.len() && (#[trigger] v.timers[i]).deadline > now ==> now + ms * 1_000_000 <= v.timers[i].deadline,
{
    if r is React {
        let ms = r->React_0;
        let next = choose|next: Option<u64>|
            #[trigger] executor::is_next_deadline(v.timers, now, next) && ms == wait::react_millis(next);
        if next is Some {
            the_reactor_is_left_in_time(next->0);
        }
    }
}

proof fn lemma_live_rests<P, W>(slots: Seq<TaskSlot<P, W>>, n: int)
    requires
        0 <= n <= slots.len() <= MAX_SLOTS,
    ensures
        ({
            let r = wait::live_payloads(slots, n);
            &&& forall|i: int|
                0 <= i < n && holds_task(#[trigger] slots[i]) ==> exists|k: int|
                    0 <= k < r.len() && is_rest_of(#[trigger] r[k], slots, i)
            &&& forall|k: int|
                0 <= k < r.len() ==> (#[trigger] r[k]).id < n && holds_task(slots[r[k].id as int]) && is_rest_of(
                    r[k],
                    slots,
                    r[k].id as int,
                )
            &&& forall|j: int, k: int| 0 <= j < k < r.len() ==> (#[trigger] r[j]).id < (#[trigger] r[k]).id
        }),
    decreases n,
{
    if n > 0 {
        lemma_live_rests(slots, n - 1);
        let r = wait::live_payloads(slots, n);
        let before = wait::live_payloads(slots, n - 1);
        assert forall|i: int| 0 <= i < n && holds_task(#[trigger] slots[i]) implies exists|k: int|
            0 <= k < r.len() && is_rest_of(#[trigger] r[k], slots, i) by {
            if i < n - 1 {
                let k = choose|k: int| 0 <= k < before.len() && is_rest_of(#[trigger] before[k], slots, i);
                assert(is_rest_of(r[k], slots, i));
            } else {
                assert(is_rest_of(r[r.len() - 1], slots, i));
            }
        }
    }
}

/// Does the slot hold a task, running or complete?
pub open spec fn holds_task<P, W>(slot: TaskSlot<P, W>) -> bool {
    slot.state != STATE_EMPTY && slot.state != STATE_CANCELLED
}

/// A reset hands out the payload of every task, exactly once each, in the order of the slots; no payload
/// is left in a slot that held a task.
pub proof fn a_reset_hands_everything_out<P, W>(v: ExecState<P, W>)
    requires
        v.wf(),
    ensures
        ({
            let r = wait::live_payloads(v.slots, v.slots.len() as int);
            let after = wait::all_cancelled(v.slots);
            &&& forall|i: int|
                0 <= i < v.slots.len() && holds_task(#[trigger] v.slots[i]) ==> exists|k: int|
                    0 <= k < r.len() && is_rest_of(#[trigger] r[k], v.slots, i)
            &&& forall|k: int|
                0 <= k < r.len() ==> (#[trigger] r[k]).id < v.slots.len() && holds_task(v.slots[r[k].id as int]) && is_rest_of(
                    r[k],
                    v.slots,
                    r[k].id as int,
                )
            &&& forall|j: int, k: int| 0 <= j < k < r.len() ==> (#[trigger] r[j]).id < (#[trigger] r[k]).id
            &&& after.len() == v.slots.len()
            &&& forall|i: int|
                0 <= i < v.slots.len() ==> (#[trigger] after[i]).generation == v.slots[i].generation && !holds_task(after[i]) && (
                holds_task(v.slots[i]) ==> after[i].state == STATE_CANCELLED && after[i].storage is None)
        }),
{
    lemma_live_rests(v.slots, v.slots.len() as int);
}

/// After a reset the executor is as it was made, but for the generations of its slots: all slots are
/// empty and free, the lowest to be given out first, nothing is queued, and no timer is left.
pub proof fn a_reset_executor_is_empty<P, W>(v: ExecState<P, W>)
    requires
        v.wf(),
    ensures
        ({
            let w = wait::restarted(v);
            &&& w.slots.len() == v.slots.len() == w.free.len()
            &&& forall|i: int|
                0 <= i < w.slots.len() ==> (#[trigger] w.slots[i]) == (TaskSlot::<P, W> {
                    storage: None,
                    generation: v.slots[i].generation,
                    state: STATE_EMPTY,
                    detached: false,
                    plugin_id: 0,
                    join_waker: None,
                })
            &&& forall|i: int| 0 <= i < w.free.len() ==> #[trigger] w.free[i] == v.slots.len() - 1 - i
            &&& w.ready.len() == 0 && w.remote.len() == 0 && w.timers.len() == 0 && w.hot is None && w.next_handle == 1
        }),
{
}

// ---------------------------------------------------------------------------
// Timers
// ---------------------------------------------------------------------------

/// A new timer gets a handle that no other has, fires at its own deadline with its own waker, and
/// touches no other timer.
pub proof fn a_new_timer_is_added<P, W>(v: ExecState<P, W>, deadline: u64, waker: W, old_handle: u64)
    requires
        v.wf(),
        v.next_handle < u64::MAX,
        forall|i: int| 0 <= i < v.timers.len() ==> (#[trigger] v.timers[i]).handle != old_handle,
    ensures
        ({
            let w = executor::timer_set(v, deadline, waker, old_handle);
            let handle = executor::timer_handle(v, old_handle);
            &&& forall|i: int| 0 <= i < v.timers.len() ==> (#[trigger] v.timers[i]).handle != handle
            &&& w == (ExecState {
                timers: v.timers + seq![TimerEntry { handle, deadline, waker }],
                next_handle: (handle + 1) as u64,
                ..v
            })
        }),
{
    let handle = executor::timer_handle(v, old_handle);
    let entry = TimerEntry { handle, deadline, waker };
    assert(!executor::has_timer(v.timers, old_handle));
    assert(v.timers.push(entry) =~= v.timers + seq![entry]);
}

/// A timer that is registered again keeps its deadline, its handle and its place, and gets the new
/// waker; the others are not touched.
pub proof fn a_known_timer_gets_a_new_waker<P, W>(v: ExecState<P, W>, deadline: u64, waker: W, i: int)
    requires
        v.wf(),
        0 <= i < v.timers.len(),
    ensures
        executor::timer_handle(v, v.timers[i].handle) == v.timers[i].handle,
        executor::timer_set(v, deadline, waker, v.timers[i].handle) == (ExecState {
            timers: v.timers.update(i, TimerEntry { waker, ..v.timers[i] }),
            ..v
        }),
{
    let handle = v.timers[i].handle;
    let w = executor::timer_set(v, deadline, waker, handle);
    assert(executor::has_timer(v.timers, handle));
    assert(w.timers =~= v.timers.update(i, TimerEntry { waker, ..v.timers[i] }));
}

/// A timer that is cancelled is gone, and the others stay, in their order; an unknown handle changes
/// nothing.
pub proof fn a_cancelled_timer_is_gone<P, W>(v: ExecState<P, W>, handle: u64)
    requires
        v.wf(),
    ensures
        executor::timer_gone(v, handle) == (ExecState {
            timers: v.timers.filter(|t: TimerEntry<W>| t.handle != handle),
            ..v
        }),
{
    let others = |t: TimerEntry<W>| t.handle != handle;
    if executor::has_timer(v.timers, handle) {
        let k = executor::timer_index(v.timers, handle);
        lemma_filter_one(v.timers, handle, k);
    } else {
        lemma_filter_none(v.timers, handle);
    }
}

proof fn lemma_filter_none<W>(t: Seq<TimerEntry<W>>, handle: u64)
    requires
        forall|i: int| 0 <= i < t.len() ==> (#[trigger] t[i]).handle != handle,
    ensures
        t.filter(|e: TimerEntry<W>| e.handle != handle) == t,
    decreases t.len(),
{
    reveal(Seq::filter);
    if t.len() > 0 {
        let d = t.drop_last();
        assert forall|i: int| 0 <= i < d.len() implies (#[trigger] d[i]).handle != handle by {
            assert(d[i] == t[i]);
        }
        lemma_filter_none(d, handle);
        assert(t[t.len() - 1].handle != handle);
        assert(d.push(t.last()) =~= t);
    }
}

proof fn lemma_filter_one<W>(t: Seq<TimerEntry<W>>, handle: u64, k: int)
    requires
        0 <= k < t.len(),
        t[k].handle == handle,
        forall|i: int, j: int| 0 <= i < j < t.len() ==> t[i].handle < t[j].handle,
    ensures
        t.filter(|e: TimerEntry<W>| e.handle != handle) == t.remove(k),
    decreases t.len(),
{
    reveal(Seq::filter);
    let d = t.drop_last();
    if k == t.len() - 1 {
        assert forall|i: int| 0 <= i < d.len() implies (#[trigger] d[i]).handle != handle by {
            assert(t[i].handle < t[k].handle);
        }
        lemma_filter_none(d, handle);
        assert(t.remove(k) =~= d);
    } else {
        lemma_filter_one(d, handle, k);
        assert(t[k].handle < t[t.len() - 1].handle);
        assert(t.remove(k) =~= d.remove(k).push(t.last()));
    }
}

// ---------------------------------------------------------------------------
// Events and resources
// ---------------------------------------------------------------------------

/// For an event on a channel, exactly the subscribers of that channel are called, each once, in the order
/// in which they subscribed, with their own plugin as the current one.
pub proof fn exactly_the_subscribers_are_called<C>(subs: Seq<Subscription<C>>, channel: Seq<char>)
    ensures
        events::calls_for(subs, channel) == subs.filter(|s: Subscription<C>| s.channel@ == channel).map_values(
            |s: Subscription<C>| Call { callback: s.callback, plugin_id: s.plugin_id },
        ),
    decreases subs.len(),
{
    reveal(Seq::filter);
    let on = |s: Subscription<C>| s.channel@ == channel;
    let call = |s: Subscription<C>| Call { callback: s.callback, plugin_id: s.plugin_id };
    if subs.len() > 0 {
        let d = subs.drop_last();
        exactly_the_subscribers_are_called(d, channel);
        if subs.last().channel@ == channel {
            assert(subs.filter(on) == d.filter(on).push(subs.last()));
            assert(subs.filter(on).map_values(call) =~= d.filter(on).map_values(call).push(call(subs.last())));
        }
    } else {
        assert(subs.filter(on).map_values(call) =~= Seq::<Call<C>>::empty());
    }
}

/// When a plugin goes, exactly its own subscriptions go, each of them handed out; the others stay, in
/// their order.
pub proof fn exactly_its_subscriptions_go<C>(subs: Seq<Subscription<C>>, plugin_id: u64)
    ensures
        events::subs_of(subs, plugin_id) == subs.filter(|s: Subscription<C>| s.plugin_id == plugin_id),
        events::subs_without(subs, plugin_id) == subs.filter(|s: Subscription<C>| s.plugin_id != plugin_id),
    decreases subs.len(),
{
    reveal(Seq::filter);
    if subs.len() > 0 {
        exactly_its_subscriptions_go(subs.drop_last(), plugin_id);
    }
}

/// When a plugin goes, exactly its own resources go, each of them handed out; the others stay, in their
/// order.
pub proof fn exactly_its_resources_go<V>(s: Seq<ResourceEntry<V>>, plugin_id: u64)
    ensures
        resources::entries_of(s, plugin_id) == s.filter(|e: ResourceEntry<V>| e.plugin_id == plugin_id),
        resources::entries_without(s, plugin_id) == s.filter(|e: ResourceEntry<V>| e.plugin_id != plugin_id),
    decreases s.len(),
{
    reveal(Seq::filter);
    if s.len() > 0 {
        exactly_its_resources_go(s.drop_last(), plugin_id);
    }
}

// ---------------------------------------------------------------------------
// Numbers and streams
// ---------------------------------------------------------------------------

/// The tasks that are counted are those that hold a slot and are not cancelled.
pub proof fn live_tasks_are_counted<P, W>(slots: Seq<TaskSlot<P, W>>)
    ensures
        executor::live_count(slots) == slots.filter(
            |s: TaskSlot<P, W>| s.state != STATE_EMPTY && s.state != STATE_CANCELLED,
        ).len(),
    decreases slots.len(),
{
    reveal(Seq::filter);
    if slots.len() > 0 {
        live_tasks_are_counted(slots.drop_last());
    }
}

/// Whoever waits at a stream waits until what it waits for has come: a receiver until there is an item or no
/// sender any more, a sender until there is room or no receiver any more. Nothing else ends a wait, and no item
/// leaves but the first, by being received.
pub proof fn waits_end_with_what_is_waited_for<T, W>(s: StreamModel<T, W>, item: T, waker: W)
    ensures
        s.pushed(item).sender_waker == s.sender_waker,
        s.pushed(item).items == s.items + seq![item],
        s.popped().receiver_waker == s.receiver_waker,
        s.items.len() > 0 ==> seq![s.items[0]] + s.popped().items == s.items,
        s.closed().sender_waker == s.sender_waker,
        s.closed().items == s.items,
        s.closed().receiver_dropped == s.receiver_dropped,
        s.dropped().receiver_waker == s.receiver_waker,
        s.dropped().items == s.items,
        s.dropped().sender_closed == s.sender_closed,
        s.polled(waker).receiver_waker == Some(waker) || s.items.len() > 0 || s.sender_closed,
        s.items.len() == 0 ==> s.polled(waker).items == s.items && s.polled(waker).sender_waker == s.sender_waker,
        s.items.len() > 0 ==> seq![s.items[0]] + s.polled(waker).items == s.items,
        s.asked(waker).sender_waker == Some(waker) || s.items.len() < s.capacity || s.receiver_dropped,
        s.asked(waker).items == s.items && s.asked(waker).receiver_waker == s.receiver_waker,
        !(s.items.len() >= s.capacity && !s.receiver_dropped) ==> s.asked(waker) == s,
{
    assert(s.items.push(item) =~= s.items + seq![item]);
    if s.items.len() > 0 {
        assert(seq![s.items[0]] + s.items.drop_first() =~= s.items);
    }
}

} // verus!
