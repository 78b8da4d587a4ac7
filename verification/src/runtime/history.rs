//! What lasts while an executor is used.

use vstd::prelude::*;
use crate::runtime::executor;
use crate::runtime::executor::{DriveEvent, ExecState, TaskSlot, MAX_SLOTS, STATE_CANCELLED, STATE_COMPLETE, STATE_EMPTY, STATE_PENDING, STATE_READY};
use crate::runtime::wait;

verus! {

/// A use of an executor.
pub enum ExecOp<P, W> {
    /// A slot is taken for a new task.
    Alloc,
    /// A task is put into such a slot, on behalf of a plugin.
    Commit(u32, P, u64),
    /// A task's payload is put back into its slot.
    Keep(u32, P),
    /// A step of a drive cycle, which has done work or not.
    Drive(bool, DriveEvent<P>),
    /// The two halves of a cancellation.
    Cancel(u32, u32),
    CancelEnd(u32, u32),
    /// Nobody waits for the task any more.
    Detach(u32, u32),
    /// The two halves of dropping a plugin's tasks.
    DropPlugin(u64),
    DropPluginEnd(Seq<u32>),
    /// The result of a task is taken.
    TakeResult(u32),
    /// The result of a task is taken, if it has one.
    Wait(u32, u32),
    /// Somebody joins a task.
    Join(u32, W),
    /// A task is woken, on the executor's own thread or from another.
    Wake(u32, bool),
    TimerSet(u64, W, u64),
    TimerGone(u64),
    /// The two halves of a reset.
    Reset,
    ResetEnd,
}

/// Can the executor be used so?
pub open spec fn possible<P, W>(v: ExecState<P, W>, op: ExecOp<P, W>) -> bool {
    &&& v.wf()
    &&& match op {
        ExecOp::Alloc => v.free.len() > 0 || v.slots.len() < MAX_SLOTS,
        ExecOp::Commit(id, _, _) => v.has(id) && v.slot(id).state == STATE_EMPTY && !v.free.contains(id),
        ExecOp::Drive(_, ev) => executor::expected(v, ev) && executor::taken_in(v, ev).runnable(),
        ExecOp::Keep(id, _) => v.has(id),
        ExecOp::Cancel(id, _) => v.has(id),
        ExecOp::CancelEnd(id, _) => v.has(id),
        ExecOp::DropPluginEnd(ids) => {
            &&& forall|i: int|
                0 <= i < ids.len() ==> v.has(#[trigger] ids[i]) && v.slot(ids[i]).state == STATE_CANCELLED
            &&& forall|i: int, j: int| 0 <= i < j < ids.len() ==> ids[i] != ids[j]
        },
        ExecOp::TakeResult(id) => v.has(id) && v.slot(id).state == STATE_COMPLETE,
        ExecOp::Join(id, _) => v.has(id),
        ExecOp::Wake(id, local) => local ==> v.has(id),
        ExecOp::TimerSet(_, _, _) => v.next_handle < u64::MAX,
        _ => true,
    }
}

/// The executor after a use.
pub open spec fn used<P, W>(v: ExecState<P, W>, op: ExecOp<P, W>) -> ExecState<P, W> {
    match op {
        ExecOp::Alloc => executor::allocated(v).0,
        ExecOp::Commit(id, payload, plugin_id) => executor::spawned(v, id, payload, plugin_id),
        ExecOp::Keep(id, payload) => executor::put_back(v, id, payload),
        ExecOp::Drive(did_work, ev) => executor::driven(v, did_work, ev).state,
        ExecOp::Cancel(id, gen) => executor::cancel_begun(v, id, gen),
        ExecOp::CancelEnd(id, gen) => executor::cancel_ended(v, id, gen),
        ExecOp::Detach(id, gen) => executor::detached(v, id, gen),
        ExecOp::DropPlugin(plugin_id) => executor::plugin_purged(v, plugin_id),
        ExecOp::DropPluginEnd(ids) => executor::plugin_gone(v, ids),
        ExecOp::TakeResult(id) => executor::freed(v, id),
        ExecOp::Wait(id, gen) => wait::result_taken(v, id, gen),
        ExecOp::Join(id, waker) => v.put(id, TaskSlot { join_waker: Some(waker), ..v.slot(id) }),
        ExecOp::Wake(id, local) => if local {
            executor::woken(v, id)
        } else {
            ExecState { remote: v.remote.push(id), ..v }
        },
        ExecOp::TimerSet(deadline, waker, old_handle) => executor::timer_set(v, deadline, waker, old_handle),
        ExecOp::TimerGone(handle) => executor::timer_gone(v, handle),
        ExecOp::Reset => ExecState { slots: wait::all_cancelled(v.slots), ..v },
        ExecOp::ResetEnd => wait::restarted(v),
    }
}

/// The executor after some uses.
pub open spec fn after<P, W>(v: ExecState<P, W>, ops: Seq<ExecOp<P, W>>) -> ExecState<P, W>
    decreases ops.len(),
{
    if ops.len() == 0 {
        v
    } else {
        used(after(v, ops.drop_last()), ops.last())
    }
}

/// Can the executor be used so, one use after the other?
pub open spec fn all_possible<P, W>(v: ExecState<P, W>, ops: Seq<ExecOp<P, W>>) -> bool
    decreases ops.len(),
{
    ops.len() == 0 || all_possible(v, ops.drop_last()) && possible(after(v, ops.drop_last()), ops.last())
}

/// Does a new task get the slot of this one?
pub open spec fn reused<P, W>(v: ExecState<P, W>, op: ExecOp<P, W>, id: u32) -> nat {
    if op is Alloc && executor::allocated(v).1 == id {
        1
    } else {
        0
    }
}

/// How many new tasks get the slot of this one.
pub open spec fn reuses<P, W>(v: ExecState<P, W>, ops: Seq<ExecOp<P, W>>, id: u32) -> nat
    decreases ops.len(),
{
    if ops.len() == 0 {
        0
    } else {
        reuses(v, ops.drop_last(), id) + reused(after(v, ops.drop_last()), ops.last(), id)
    }
}

/// Has the task of this generation been in its slot, and after it `n` others? While it is the last
/// that was, its slot is empty only if it is free.
spec fn since<P, W>(v: ExecState<P, W>, id: u32, gen: u32, n: nat) -> bool {
    &&& v.has(id)
    &&& v.slot(id).generation == (gen + n) % 0x1_0000_0000
    &&& n == 0 ==> (v.slot(id).state == STATE_EMPTY <==> v.free.contains(id))
}

spec fn runs<P, W>(slot: TaskSlot<P, W>) -> bool {
    slot.state == STATE_PENDING || slot.state == STATE_READY
}

/// Is a slot as it was, but for a task that runs? And no slot has come or gone.
spec fn kept<P, W>(v: ExecState<P, W>, w: ExecState<P, W>, id: u32) -> bool {
    &&& w.slots.len() == v.slots.len()
    &&& w.free == v.free
    &&& w.slot(id).generation == v.slot(id).generation
    &&& if runs(v.slot(id)) {
        runs(w.slot(id))
    } else {
        w.slot(id).state == v.slot(id).state
    }
}

/// Does what is queued exist?
spec fn queue_exists<P, W>(v: ExecState<P, W>) -> bool {
    &&& forall|i: int| 0 <= i < v.ready.len() ==> v.has(#[trigger] v.ready[i])
    &&& v.hot matches Some(h) ==> v.has(h)
}

proof fn lemma_drained_keeps<P, W>(v: ExecState<P, W>, id: u32)
    requires
        queue_exists(v),
        v.has(id),
    ensures
        kept(v, executor::drained(v), id),
        queue_exists(executor::drained(v)),
    decreases v.remote.len(),
{
    if v.remote.len() > 0 {
        let w = ExecState { remote: v.remote.drop_first(), ..v };
        lemma_drained_keeps(executor::remote_woken(w, v.remote[0]), id);
    }
}

proof fn lemma_pick_queued_keeps<P, W>(v: ExecState<P, W>, id: u32)
    requires
        queue_exists(v),
        v.has(id),
    ensures
        kept(v, executor::pick_queued(v).0, id),
    decreases v.ready.len(),
{
    if v.ready.len() > 0 {
        assert(v.has(v.ready[0]));
        if v.slot(v.ready[0]).state != STATE_READY {
            lemma_pick_queued_keeps(ExecState { ready: v.ready.drop_first(), ..v }, id);
        }
    }
}

proof fn lemma_pick_keeps<P, W>(v: ExecState<P, W>, id: u32)
    requires
        queue_exists(v),
        v.has(id),
    ensures
        kept(v, executor::pick(v).0, id),
{
    lemma_pick_queued_keeps(ExecState { hot: None, ..v }, id);
}

/// What a slot is taken for does not matter to the others, nor does it to its generation.
proof fn lemma_freed_since<P, W>(v: ExecState<P, W>, x: u32, id: u32, gen: u32, n: nat)
    requires
        since(v, id, gen, n),
        v.has(x),
    ensures
        since(executor::freed(v, x), id, gen, n),
        executor::freed(v, x).slots.len() == v.slots.len(),
        n == 0 && executor::finished(v, id, gen) ==> executor::finished(executor::freed(v, x), id, gen),
{
    let w = executor::freed(v, x);
    if v.free.contains(id) {
        let k = choose|k: int| 0 <= k < v.free.len() && v.free[k] == id;
        assert(w.free[k] == id);
    }
    if x == id {
        assert(w.free[v.free.len() as int] == id);
    } else if w.free.contains(id) {
        let k = choose|k: int| 0 <= k < w.free.len() && w.free[k] == id;
        assert(v.free[k] == id);
    }
}

proof fn lemma_all_freed_since<P, W>(v: ExecState<P, W>, ids: Seq<u32>, id: u32, gen: u32, n: nat)
    requires
        since(v, id, gen, n),
        forall|i: int| 0 <= i < ids.len() ==> v.has(#[trigger] ids[i]),
    ensures
        since(executor::all_freed(v, ids), id, gen, n),
        executor::all_freed(v, ids).slots.len() == v.slots.len(),
        n == 0 && executor::finished(v, id, gen) ==> executor::finished(executor::all_freed(v, ids), id, gen),
    decreases ids.len(),
{
    if ids.len() > 0 {
        let d = ids.drop_last();
        assert forall|i: int| 0 <= i < d.len() implies v.has(#[trigger] d[i]) by {
            assert(d[i] == ids[i]);
        }
        lemma_all_freed_since(v, d, id, gen, n);
        assert(v.has(ids[ids.len() - 1]));
        lemma_freed_since(executor::all_freed(v, d), ids.last(), id, gen, n);
    }
}

proof fn lemma_alloc_since<P, W>(v: ExecState<P, W>, id: u32, gen: u32, n: nat)
    requires
        v.wf(),
        v.free.len() > 0 || v.slots.len() < MAX_SLOTS,
        since(v, id, gen, n),
    ensures
        since(executor::allocated(v).0, id, gen, n + reused(v, ExecOp::Alloc, id)),
        n + reused(v, ExecOp::Alloc, id) == 0 && executor::finished(v, id, gen) ==> executor::finished(
            executor::allocated(v).0,
            id,
            gen,
        ),
{
    let (w, x, g) = executor::allocated(v);
    if v.free.len() > 0 {
        assert(v.has(v.free[v.free.len() - 1]));
        if x != id {
            if v.free.contains(id) {
                let k = choose|k: int| 0 <= k < v.free.len() && v.free[k] == id;
                assert(w.free[k] == id);
            }
            if w.free.contains(id) {
                let k = choose|k: int| 0 <= k < w.free.len() && w.free[k] == id;
                assert(v.free[k] == id);
            }
        }
    } else {
        assert(x != id);
        if w.free.contains(id) {
            let k = choose|k: int| 0 <= k < w.free.len() && w.free[k] == id;
            assert(w.free[k] == (x + 255 - k) as u32);
        }
        assert(!v.free.contains(id));
    }
}

proof fn lemma_drive_since<P, W>(v: ExecState<P, W>, did_work: bool, ev: DriveEvent<P>, id: u32, gen: u32, n: nat)
    requires
        v.wf(),
        executor::expected(v, ev),
        since(v, id, gen, n),
    ensures
        since(executor::driven(v, did_work, ev).state, id, gen, n),
        n == 0 && executor::finished(v, id, gen) ==> executor::finished(
            executor::driven(v, did_work, ev).state,
            id,
            gen,
        ),
{
    let w = executor::taken_in(v, ev);
    match ev {
        DriveEvent::Begin(now) => {
            lemma_drained_keeps(v, id);
        },
        DriveEvent::Dropped(x) => {
            lemma_freed_since(v, x, id, gen, n);
        },
        _ => {},
    }
    assert(queue_exists(w));
    assert(since(w, id, gen, n));
    lemma_pick_keeps(w, id);
}

/// One use: the task stays over, unless a new one has its slot.
proof fn lemma_used_since<P, W>(v: ExecState<P, W>, op: ExecOp<P, W>, id: u32, gen: u32, n: nat)
    requires
        possible(v, op),
        since(v, id, gen, n),
    ensures
        since(used(v, op), id, gen, n + reused(v, op, id)),
        n + reused(v, op, id) == 0 && executor::finished(v, id, gen) ==> executor::finished(used(v, op), id, gen),
{
    match op {
        ExecOp::Alloc => {
            lemma_alloc_since(v, id, gen, n);
        },
        ExecOp::Drive(did_work, ev) => {
            lemma_drive_since(v, did_work, ev, id, gen, n);
        },
        ExecOp::Cancel(x, g) => {
            lemma_freed_since(v, x, id, gen, n);
        },
        ExecOp::CancelEnd(x, g) => {
            lemma_freed_since(v, x, id, gen, n);
        },
        ExecOp::Detach(x, g) => {
            if v.has(x) {
                lemma_freed_since(v, x, id, gen, n);
            }
        },
        ExecOp::DropPluginEnd(ids) => {
            lemma_all_freed_since(v, ids, id, gen, n);
        },
        ExecOp::TakeResult(x) => {
            lemma_freed_since(v, x, id, gen, n);
        },
        ExecOp::Wait(x, g) => {
            if v.has(x) {
                lemma_freed_since(v, x, id, gen, n);
            }
        },
        ExecOp::ResetEnd => {
            let w = used(v, op);
            assert(w.free[v.slots.len() - 1 - id] == id);
        },
        _ => {},
    }
}

proof fn lemma_after_since<P, W>(v: ExecState<P, W>, ops: Seq<ExecOp<P, W>>, id: u32, gen: u32)
    requires
        since(v, id, gen, 0),
        all_possible(v, ops),
    ensures
        since(after(v, ops), id, gen, reuses(v, ops, id)),
    decreases ops.len(),
{
    if ops.len() > 0 {
        lemma_after_since(v, ops.drop_last(), id, gen);
        lemma_used_since(after(v, ops.drop_last()), ops.last(), id, gen, reuses(v, ops.drop_last(), id));
    }
}

/// A finished task stays finished: once its id counts as over, it does so whatever the executor is
/// used for, until so many other tasks have had its slot that the generation comes round again. The
/// task was put into its slot before that; how it came to its end does not matter.
pub proof fn finished_tasks_stay_finished<P, W>(v: ExecState<P, W>, ops: Seq<ExecOp<P, W>>, n: int, id: u32, gen: u32)
    requires
        v.wf(),
        v.has(id),
        v.slot(id).generation == gen,
        v.slot(id).state != STATE_EMPTY,
        all_possible(v, ops),
        0 <= n <= ops.len(),
        executor::finished(after(v, ops.take(n)), id, gen),
        reuses(v, ops, id) < 0x1_0000_0000,
    ensures
        executor::finished(after(v, ops), id, gen),
    decreases ops.len(),
{
    if n == ops.len() {
        assert(ops.take(n) =~= ops);
    } else {
        let before = ops.drop_last();
        assert(before.take(n) =~= ops.take(n));
        finished_tasks_stay_finished(v, before, n, id, gen);
        assert(since(v, id, gen, 0)) by {
            if v.free.contains(id) {
                let k = choose|k: int| 0 <= k < v.free.len() && v.free[k] == id;
                assert(v.slot(v.free[k]).state == STATE_EMPTY);
            }
        }
        lemma_after_since(v, before, id, gen);
        lemma_used_since(after(v, before), ops.last(), id, gen, reuses(v, before, id));
    }
}

} // verus!
