//! Slab-based single-threaded task executor.
//!
//! Tasks live in slots, which come in segments. A slot holds the task's payload: its future
//! while it runs, its result once it is complete. Polling, dropping of payloads and waking of
//! wakers run foreign code that may call back into the executor. The executor therefore hands
//! those out as values, and never does them itself.

use std::collections::VecDeque;
use vstd::prelude::*;
use crate::runtime::sync::RemoteQueue;

verus! {

pub const SEGMENT_SIZE: usize = 256;

pub const MAX_SEGMENTS: usize = 64;

/// `SEGMENT_SIZE * MAX_SEGMENTS`
pub const MAX_SLOTS: usize = 16384;

pub const STATE_EMPTY: u8 = 0;

pub const STATE_PENDING: u8 = 1;

pub const STATE_READY: u8 = 2;

pub const STATE_COMPLETE: u8 = 3;

pub const STATE_CANCELLED: u8 = 4;

/// A place for one task, with the payload `P` of the task and the waker `W` of whoever joins it.
pub struct TaskSlot<P, W> {
    pub storage: Option<P>,
    pub generation: u32,
    pub state: u8,
    pub detached: bool,
    pub plugin_id: u64,
    pub join_waker: Option<W>,
}

impl<P, W> TaskSlot<P, W> {
    fn new() -> (r: Self)
        ensures
            r == empty_slot::<P, W>(),
    {
        TaskSlot {
            storage: None,
            generation: 0,
            state: STATE_EMPTY,
            detached: false,
            plugin_id: 0,
            join_waker: None,
        }
    }

    /// The place of the payload.
    pub fn storage_ptr(&mut self) -> (r: &mut Option<P>)
        ensures
            *r == old(self).storage,
            *final(self) == (TaskSlot { storage: *final(r), ..*old(self) }),
    {
        &mut self.storage
    }
}

/// A slot that was never used.
pub open spec fn empty_slot<P, W>() -> TaskSlot<P, W> {
    TaskSlot {
        storage: None,
        generation: 0,
        state: STATE_EMPTY,
        detached: false,
        plugin_id: 0,
        join_waker: None,
    }
}

/// A timer: wakes `waker` once the clock has reached `deadline` (nanoseconds).
pub struct TimerEntry<W> {
    pub handle: u64,
    pub deadline: u64,
    pub waker: W,
}

/// The executor of one thread.
pub struct Executor<P, W> {
    pub slots: Vec<TaskSlot<P, W>>,
    pub ready: VecDeque<u32>,
    pub remote: RemoteQueue,
    pub free: Vec<u32>,
    pub hot_slot: Option<u32>,
    pub timers: Vec<TimerEntry<W>>,
    pub next_timer_handle: u64,
}

/// What an executor holds.
pub struct ExecState<P, W> {
    pub slots: Seq<TaskSlot<P, W>>,
    pub ready: Seq<u32>,
    pub remote: Seq<u32>,
    pub free: Seq<u32>,
    pub hot: Option<u32>,
    pub timers: Seq<TimerEntry<W>>,
    pub next_handle: u64,
}

impl<P, W> View for Executor<P, W> {
    type V = ExecState<P, W>;

    open spec fn view(&self) -> ExecState<P, W> {
        ExecState {
            slots: self.slots@,
            ready: self.ready@,
            remote: self.remote@,
            free: self.free@,
            hot: self.hot_slot,
            timers: self.timers@,
            next_handle: self.next_timer_handle,
        }
    }
}

impl<P, W> ExecState<P, W> {
    /// Is this the id of a slot?
    pub open spec fn has(self, id: u32) -> bool {
        id < self.slots.len()
    }

    pub open spec fn slot(self, id: u32) -> TaskSlot<P, W> {
        self.slots[id as int]
    }

    /// Will the task be looked at?
    pub open spec fn queued(self, id: u32) -> bool {
        self.hot == Some(id) || self.ready.contains(id)
    }

    /// Free slots are empty, and none is listed twice.
    pub open spec fn free_list_ok(self) -> bool {
        &&& forall|i: int| 0 <= i < self.free.len() ==> self.has(#[trigger] self.free[i]) && self.slot(self.free[i]).state == STATE_EMPTY
        &&& forall|i: int, j: int| 0 <= i < j < self.free.len() ==> self.free[i] != self.free[j]
    }

    /// Timers stand in the order of their handles, which have all been given out.
    pub open spec fn timers_ok(self) -> bool {
        &&& self.next_handle >= 1
        &&& forall|i: int| 0 <= i < self.timers.len() ==> 1 <= (#[trigger] self.timers[i]).handle < self.next_handle
        &&& forall|i: int, j: int| 0 <= i < j < self.timers.len() ==> self.timers[i].handle < self.timers[j].handle
    }

    /// No wake is lost: every task that is ready to run is queued.
    pub open spec fn no_lost_wake(self) -> bool {
        forall|i: int| 0 <= i < self.slots.len() && (#[trigger] self.slots[i]).state == STATE_READY ==> self.queued(i as u32)
    }

    pub open spec fn wf(self) -> bool {
        &&& self.slots.len() % 256 == 0
        &&& self.slots.len() <= MAX_SLOTS
        &&& forall|i: int| 0 <= i < self.ready.len() ==> self.has(#[trigger] self.ready[i])
        &&& self.hot matches Some(h) ==> self.has(h)
        &&& self.free_list_ok()
        &&& self.no_lost_wake()
        &&& self.timers_ok()
    }

    /// Does every task that is ready to run have its payload in place? A task that is being
    /// polled has not.
    pub open spec fn runnable(self) -> bool {
        forall|i: int| 0 <= i < self.slots.len() && (#[trigger] self.slots[i]).state == STATE_READY ==> self.slots[i].storage is Some
    }

    pub open spec fn put(self, id: u32, slot: TaskSlot<P, W>) -> Self {
        ExecState { slots: self.slots.update(id as int, slot), ..self }
    }
}

/// A slot that has become empty; its generation and its plugin's id stay.
pub open spec fn emptied<P, W>(slot: TaskSlot<P, W>) -> TaskSlot<P, W> {
    TaskSlot { storage: None, state: STATE_EMPTY, join_waker: None, ..slot }
}

/// A slot whose task was cancelled.
pub open spec fn cancelled<P, W>(slot: TaskSlot<P, W>) -> TaskSlot<P, W> {
    TaskSlot { storage: None, state: STATE_CANCELLED, join_waker: None, ..slot }
}

/// The sequence without an id.
pub open spec fn without(s: Seq<u32>, id: u32) -> Seq<u32>
    decreases s.len(),
{
    if s.len() == 0 {
        s
    } else if s.last() == id {
        without(s.drop_last(), id)
    } else {
        without(s.drop_last(), id).push(s.last())
    }
}

pub proof fn lemma_without(s: Seq<u32>, id: u32)
    ensures
        without(s, id).len() <= s.len(),
        forall|x: u32| without(s, id).contains(x) <==> s.contains(x) && x != id,
        forall|i: int| 0 <= i < without(s, id).len() ==> s.contains(#[trigger] without(s, id)[i]),
    decreases s.len(),
{
    if s.len() > 0 {
        let before = without(s.drop_last(), id);
        lemma_without(s.drop_last(), id);
        let now = without(s, id);
        assert forall|x: u32| now.contains(x) <==> s.contains(x) && x != id by {
            if s.contains(x) && x != id {
                let k = choose|k: int| 0 <= k < s.len() && s[k] == x;
                if k < s.len() - 1 {
                    assert(s.drop_last()[k] == x);
                    assert(s.drop_last().contains(x));
                    assert(before.contains(x));
                    let m = choose|m: int| 0 <= m < before.len() && before[m] == x;
                    assert(now[m] == x);
                } else {
                    assert(now[now.len() - 1] == x);
                }
            }
            if now.contains(x) {
                let k = choose|k: int| 0 <= k < now.len() && now[k] == x;
                if k < before.len() {
                    assert(before[k] == x);
                    assert(before.contains(x));
                    let m = choose|m: int| 0 <= m < s.drop_last().len() && s.drop_last()[m] == x;
                    assert(s[m] == x);
                } else {
                    assert(s[s.len() - 1] == x);
                }
            }
        }
        assert forall|i: int| 0 <= i < now.len() implies s.contains(#[trigger] now[i]) by {
            assert(now.contains(now[i]));
        }
    }
}

impl<P, W> Executor<P, W> {
    /// An executor without slots.
    pub fn new() -> (r: Self)
        ensures
            r@.slots.len() == 0,
            r@.ready.len() == 0,
            r@.remote.len() == 0,
            r@.free.len() == 0,
            r@.hot is None,
            r@.timers.len() == 0,
            r@.next_handle == 1,
            r@.wf(),
    {
        Executor {
            slots: Vec::new(),
            ready: VecDeque::new(),
            remote: RemoteQueue::new(),
            free: Vec::new(),
            hot_slot: None,
            timers: Vec::new(),
            next_timer_handle: 1,
        }
    }

    /// Gives the executor its first segment, all of it free; the lowest slot is used first.
    pub fn init(&mut self)
        requires
            old(self)@.wf(),
            old(self)@.slots.len() == 0,
        ensures
            final(self)@.wf(),
            final(self)@.slots == Seq::new(256, |i: int| empty_slot::<P, W>()),
            final(self)@.free == Seq::new(256, |i: int| (255 - i) as u32),
            final(self)@.ready.len() == 0,
            final(self)@.hot is None,
            final(self)@.timers.len() == 0,
            final(self)@.remote == old(self)@.remote,
            final(self)@.next_handle == old(self)@.next_handle,
    {
        self.ready = VecDeque::new();
        self.free = Vec::new();
        self.timers = Vec::new();
        self.hot_slot = None;
        let base: u32 = self.add_segment();
        self.free.push(base);
        proof {
            assert(self@.free =~= Seq::new(256, |i: int| (255 - i) as u32));
            assert(self@.slots =~= Seq::new(256, |i: int| empty_slot::<P, W>()));
        }
    }

    /// Adds a segment. Its first slot is returned; the others are free, the lowest to be used
    /// first.
    fn add_segment(&mut self) -> (base: u32)
        requires
            old(self)@.slots.len() % 256 == 0,
            old(self)@.slots.len() < MAX_SLOTS,
        ensures
            base == old(self)@.slots.len(),
            final(self)@ == (ExecState {
                slots: old(self)@.slots + Seq::new(256, |i: int| empty_slot::<P, W>()),
                free: old(self)@.free + Seq::new(255, |i: int| (base + 255 - i) as u32),
                ..old(self)@
            }),
    {
        let base: u32 = self.slots.len() as u32;
        let ghost old_free = self.free@;
        let ghost old_slots = self.slots@;
        let mut i: usize = 0;
        while i < SEGMENT_SIZE
            invariant
                i <= 256,
                self.slots@ == old_slots + Seq::new(i as nat, |k: int| empty_slot::<P, W>()),
                self.free@ == old_free,
                self@.ready == old(self)@.ready,
                self@.remote == old(self)@.remote,
                self@.hot == old(self)@.hot,
                self@.timers == old(self)@.timers,
                self@.next_handle == old(self)@.next_handle,
            decreases 256 - i,
        {
            self.slots.push(TaskSlot::new());
            i = i + 1;
            assert(self.slots@ =~= old_slots + Seq::new(i as nat, |k: int| empty_slot::<P, W>()));
        }
        let mut k: u32 = 255;
        while k > 0
            invariant
                k <= 255,
                base <= 16384,
                self.slots@ == old_slots + Seq::new(256, |k: int| empty_slot::<P, W>()),
                self.free@ == old_free + Seq::new((255 - k) as nat, |j: int| (base + 255 - j) as u32),
                self@.ready == old(self)@.ready,
                self@.remote == old(self)@.remote,
                self@.hot == old(self)@.hot,
                self@.timers == old(self)@.timers,
                self@.next_handle == old(self)@.next_handle,
            decreases k,
        {
            self.free.push(base + k);
            k = k - 1;
            assert(self.free@ =~= old_free + Seq::new((255 - k) as nat, |j: int| (base + 255 - j) as u32));
        }
        base
    }

    /// The slot of an id.
    pub fn slot(&self, id: u32) -> (r: &TaskSlot<P, W>)
        requires
            self@.has(id),
        ensures
            *r == self@.slot(id),
    {
        &self.slots[id as usize]
    }

    pub fn slot_mut(&mut self, id: u32) -> (r: &mut TaskSlot<P, W>)
        requires
            old(self)@.has(id),
        ensures
            *r == old(self)@.slot(id),
            final(self)@ == old(self)@.put(id, *final(r)),
    {
        &mut self.slots[id as usize]
    }

    /// Takes a slot out of the free list, or the first one of a new segment.
    pub fn alloc_slot(&mut self) -> (id: u32)
        requires
            old(self)@.wf(),
            old(self)@.free.len() > 0 || old(self)@.slots.len() < MAX_SLOTS,
        ensures
            final(self)@.wf(),
            final(self)@.has(id),
            final(self)@.slot(id).state == STATE_EMPTY,
            !final(self)@.free.contains(id),
            old(self)@.free.len() > 0 ==> id == old(self)@.free.last() && final(self)@ == (ExecState {
                free: old(self)@.free.drop_last(),
                ..old(self)@
            }),
            old(self)@.free.len() == 0 ==> id == old(self)@.slots.len() && final(self)@ == (ExecState {
                slots: old(self)@.slots + Seq::new(256, |i: int| empty_slot::<P, W>()),
                free: Seq::new(255, |i: int| (id + 255 - i) as u32),
                ..old(self)@
            }),
    {
        if let Some(id) = self.free.pop() {
            return id;
        }
        let ghost before = self@;
        let id: u32 = self.add_segment();
        proof {
            assert(self@.free =~= Seq::new(255, |i: int| (id + 255 - i) as u32));
            assert forall|i: int| 0 <= i < self@.slots.len() && (#[trigger] self@.slots[i]).state == STATE_READY implies self@.queued(i as u32) by {
                assert(before.slots[i] == self@.slots[i]);
            }
        }
        id
    }
}

/// A change of one slot keeps the executor well-formed if a task that becomes ready is queued
/// and a free slot stays empty.
proof fn lemma_put_wf<P, W>(v: ExecState<P, W>, id: u32, slot: TaskSlot<P, W>)
    requires
        v.wf(),
        v.has(id),
        slot.state == STATE_READY ==> v.queued(id),
        slot.state != STATE_EMPTY ==> !v.free.contains(id),
    ensures
        v.put(id, slot).wf(),
{
    let w = v.put(id, slot);
    assert forall|i: int| 0 <= i < w.free.len() implies w.has(#[trigger] w.free[i]) && w.slot(w.free[i]).state == STATE_EMPTY by {
        assert(v.free[i] == w.free[i]);
        if w.free[i] == id {
            assert(v.free.contains(id));
        }
    }
}

/// A slot that is not empty is not free.
proof fn lemma_not_free<P, W>(v: ExecState<P, W>, id: u32)
    requires
        v.wf(),
        v.has(id),
        v.slot(id).state != STATE_EMPTY,
    ensures
        !v.free.contains(id),
{
    if v.free.contains(id) {
        let k = choose|k: int| 0 <= k < v.free.len() && v.free[k] == id;
        assert(v.slot(v.free[k]).state == STATE_EMPTY);
    }
}

/// The slot goes to the free list.
pub open spec fn freed<P, W>(v: ExecState<P, W>, id: u32) -> ExecState<P, W> {
    ExecState { free: v.free.push(id), ..v.put(id, emptied(v.slot(id))) }
}

proof fn lemma_freed_wf<P, W>(v: ExecState<P, W>, id: u32)
    requires
        v.wf(),
        v.has(id),
        v.slot(id).state != STATE_EMPTY,
    ensures
        freed(v, id).wf(),
{
    lemma_not_free(v, id);
    lemma_put_wf(v, id, emptied(v.slot(id)));
    let p = v.put(id, emptied(v.slot(id)));
    let w = freed(v, id);
    assert forall|i: int| 0 <= i < w.free.len() implies w.has(#[trigger] w.free[i]) && w.slot(w.free[i]).state == STATE_EMPTY by {
        if i < p.free.len() {
            assert(p.free[i] == w.free[i]);
        }
    }
    assert forall|i: int, j: int| 0 <= i < j < w.free.len() implies w.free[i] != w.free[j] by {
        assert(v.free[i] == w.free[i]);
        if j == v.free.len() {
            assert(v.free.contains(v.free[i]));
        }
    }
}

// ---------------------------------------------------------------------------
// Ids
// ---------------------------------------------------------------------------

/// The word that a waker carries: the executor above bit 48, the task below.
pub fn pack_waker_data(executor_idx: u16, task_id: u32) -> (r: u64)
    ensures
        r == waker_data(executor_idx, task_id),
{
    let r: u64 = ((executor_idx as u64) << 48) | (task_id as u64);
    assert(r == ((executor_idx as u64) << 48) | (task_id as u64));
    assert((((executor_idx as u64) << 48) | (task_id as u64)) == executor_idx as u64 * 0x1_0000_0000_0000 + task_id as u64) by (bit_vector);
    r
}

/// The executor's index times 2^48, plus the task's id.
pub open spec fn waker_data(executor_idx: u16, task_id: u32) -> int {
    executor_idx as int * 0x1_0000_0000_0000 + task_id as int
}

/// The executor and the task of a waker's word.
pub fn unpack_waker_data(data: u64) -> (r: (u16, u32))
    ensures
        r.0 == data / 0x1_0000_0000_0000,
        r.1 == data % 0x1_0000_0000,
{
    let executor_idx: u16 = (data >> 48) as u16;
    let task_id: u32 = (data & 0xFFFF_FFFF_FFFF) as u32;
    assert((data >> 48) as u16 == data / 0x1_0000_0000_0000) by (bit_vector);
    assert((data & 0xFFFF_FFFF_FFFF) as u32 == data % 0x1_0000_0000) by (bit_vector);
    (executor_idx, task_id)
}

/// A task's id to the outside: the generation above bit 32, the slot below.
pub fn pack_task_id(gen: u32, slot_id: u32) -> (r: u64)
    ensures
        r == task_word(gen, slot_id),
{
    assert((((gen as u64) << 32) | (slot_id as u64)) == gen as u64 * 0x1_0000_0000 + slot_id as u64) by (bit_vector);
    ((gen as u64) << 32) | (slot_id as u64)
}

/// The generation times 2^32, plus the slot's id.
pub open spec fn task_word(gen: u32, slot_id: u32) -> int {
    gen as int * 0x1_0000_0000 + slot_id as int
}

/// The generation and the slot of a task's id.
pub fn unpack_task_id(packed: u64) -> (r: (u32, u32))
    ensures
        r.0 == packed / 0x1_0000_0000,
        r.1 == packed % 0x1_0000_0000,
{
    assert((packed & 0xFFFF_FFFF) as u32 == packed % 0x1_0000_0000) by (bit_vector);
    assert((packed >> 32) as u32 == packed / 0x1_0000_0000) by (bit_vector);
    let slot_id: u32 = (packed & 0xFFFF_FFFF) as u32;
    let gen: u32 = (packed >> 32) as u32;
    (gen, slot_id)
}

/// Unpacking gives back what was packed, for task ids and for wakers.
pub proof fn ids_round_trip(a: u32, gen: u32, executor_idx: u16)
    ensures
        task_word(gen, a) / 0x1_0000_0000 == gen,
        task_word(gen, a) % 0x1_0000_0000 == a,
        waker_data(executor_idx, a) / 0x1_0000_0000_0000 == executor_idx,
        waker_data(executor_idx, a) % 0x1_0000_0000 == a,
        task_word(gen, a) <= u64::MAX,
        waker_data(executor_idx, a) <= u64::MAX,
{
    let g = gen as int;
    let e = executor_idx as int;
    let t = a as int;
    vstd::arithmetic::div_mod::lemma_fundamental_div_mod_converse(task_word(gen, a), 0x1_0000_0000, g, t);
    vstd::arithmetic::div_mod::lemma_fundamental_div_mod_converse(waker_data(executor_idx, a), 0x1_0000_0000_0000, e, t);
    vstd::arithmetic::div_mod::lemma_fundamental_div_mod_converse(waker_data(executor_idx, a), 0x1_0000_0000, e * 0x1_0000, t);
}

// ---------------------------------------------------------------------------
// Plugins
// ---------------------------------------------------------------------------

/// Which plugin runs now (0: none), and the next id to be given out.
pub struct PluginIds {
    pub current: u64,
    pub next: u64,
}

impl PluginIds {
    pub fn new() -> (r: Self)
        ensures
            r.current == 0,
            r.next == 1,
    {
        PluginIds { current: 0, next: 1 }
    }
}

/// Gives out a new plugin id.
pub fn allocate_plugin_id(ids: &mut PluginIds) -> (id: u64)
    ensures
        id == old(ids).next,
        final(ids).next == old(ids).next.wrapping_add(1),
        final(ids).current == old(ids).current,
{
    let id: u64 = ids.next;
    ids.next = id.wrapping_add(1);
    id
}

pub fn set_current_plugin(ids: &mut PluginIds, id: u64)
    ensures
        *final(ids) == (PluginIds { current: id, ..*old(ids) }),
{
    ids.current = id;
}

pub fn clear_current_plugin(ids: &mut PluginIds)
    ensures
        *final(ids) == (PluginIds { current: 0, ..*old(ids) }),
{
    ids.current = 0;
}

pub fn current_plugin_id(ids: &PluginIds) -> (id: u64)
    ensures
        id == ids.current,
{
    ids.current
}

/// A plugin becomes the current one, for as long as its code runs. The one that was is returned, to
/// come back with `leave`.
pub fn enter(ids: &mut PluginIds, plugin_id: u64) -> (before: u64)
    ensures
        before == old(ids).current,
        *final(ids) == entered(*old(ids), plugin_id),
{
    let before: u64 = current_plugin_id(ids);
    set_current_plugin(ids, plugin_id);
    before
}

/// The plugin that was the current one before is so again.
pub fn leave(ids: &mut PluginIds, before: u64)
    ensures
        *final(ids) == left(*old(ids), before),
{
    set_current_plugin(ids, before);
}

pub open spec fn entered(ids: PluginIds, plugin_id: u64) -> PluginIds {
    PluginIds { current: plugin_id, ..ids }
}

pub open spec fn left(ids: PluginIds, before: u64) -> PluginIds {
    PluginIds { current: before, ..ids }
}

/// Whatever a plugin's code does to the ids while it runs, the plugin that was the current one before
/// is so afterwards. The ids are as they were if that code gave out none.
pub proof fn the_current_plugin_comes_back(ids: PluginIds, plugin_id: u64, meanwhile: PluginIds)
    ensures
        entered(ids, plugin_id).current == plugin_id,
        entered(ids, plugin_id).next == ids.next,
        left(meanwhile, ids.current).current == ids.current,
        left(meanwhile, ids.current).next == meanwhile.next,
        meanwhile.next == ids.next ==> left(meanwhile, ids.current) == ids,
{
}

// ---------------------------------------------------------------------------
// Wakes
// ---------------------------------------------------------------------------

/// A wake on the executor's own thread: a pending task becomes ready and hot; the one that was
/// hot before goes to the end of the ready queue. Any other task is left as it is.
pub open spec fn woken<P, W>(v: ExecState<P, W>, id: u32) -> ExecState<P, W> {
    if v.slot(id).state == STATE_PENDING {
        ExecState {
            hot: Some(id),
            ready: match v.hot {
                Some(old_hot) => v.ready.push(old_hot),
                None => v.ready,
            },
            ..v.put(id, TaskSlot { state: STATE_READY, ..v.slot(id) })
        }
    } else {
        v
    }
}

proof fn lemma_woken_wf<P, W>(v: ExecState<P, W>, id: u32)
    requires
        v.wf(),
        v.has(id),
    ensures
        woken(v, id).wf(),
{
    if v.slot(id).state == STATE_PENDING {
        let w = woken(v, id);
        lemma_not_free(v, id);
        assert forall|i: int| 0 <= i < w.free.len() implies w.has(#[trigger] w.free[i]) && w.slot(w.free[i]).state == STATE_EMPTY by {
            assert(v.free[i] == w.free[i]);
            assert(v.free.contains(v.free[i]));
        }
        assert forall|i: int| 0 <= i < w.slots.len() && (#[trigger] w.slots[i]).state == STATE_READY implies w.queued(i as u32) by {
            if i != id as int {
                assert(v.slots[i] == w.slots[i]);
                assert(v.queued(i as u32));
                match v.hot {
                    Some(old_hot) => {
                        assert(w.ready[v.ready.len() as int] == old_hot);
                        if v.ready.contains(i as u32) {
                            let k = choose|k: int| 0 <= k < v.ready.len() && v.ready[k] == i as u32;
                            assert(w.ready[k] == i as u32);
                        }
                    },
                    None => {},
                }
            }
        }
    }
}

/// Wakes a task: on the executor's own thread (`local`) at once, from another by the remote
/// queue.
pub fn waker_wake<P, W>(ex: &mut Executor<P, W>, task_id: u32, local: bool)
    requires
        old(ex)@.wf(),
        local ==> old(ex)@.has(task_id),
    ensures
        final(ex)@.wf(),
        local ==> final(ex)@ == woken(old(ex)@, task_id),
        !local ==> final(ex)@ == (ExecState { remote: old(ex)@.remote.push(task_id), ..old(ex)@ }),
{
    if local {
        let ghost v = ex@;
        proof {
            lemma_woken_wf(v, task_id);
        }
        if ex.slot(task_id).state == STATE_PENDING {
            ex.slot_mut(task_id).state = STATE_READY;
            if let Some(old_hot) = ex.hot_slot.take() {
                ex.ready.push_back(old_hot);
            }
            ex.hot_slot = Some(task_id);
        }
    } else {
        ex.remote.push(task_id);
    }
}

/// A wake that came from another thread: a pending task becomes ready, at the end of the queue.
/// Ids of no slot, and tasks in another state, are passed over.
pub open spec fn remote_woken<P, W>(v: ExecState<P, W>, id: u32) -> ExecState<P, W> {
    if v.has(id) && v.slot(id).state == STATE_PENDING {
        ExecState { ready: v.ready.push(id), ..v.put(id, TaskSlot { state: STATE_READY, ..v.slot(id) }) }
    } else {
        v
    }
}

/// All remote wakes are taken in, the oldest first.
pub open spec fn drained<P, W>(v: ExecState<P, W>) -> ExecState<P, W>
    decreases v.remote.len(),
{
    if v.remote.len() == 0 {
        v
    } else {
        drained(remote_woken(ExecState { remote: v.remote.drop_first(), ..v }, v.remote[0]))
    }
}

proof fn lemma_remote_woken_wf<P, W>(v: ExecState<P, W>, id: u32)
    requires
        v.wf(),
    ensures
        remote_woken(v, id).wf(),
{
    if v.has(id) && v.slot(id).state == STATE_PENDING {
        let w = remote_woken(v, id);
        lemma_not_free(v, id);
        assert forall|i: int| 0 <= i < w.free.len() implies w.has(#[trigger] w.free[i]) && w.slot(w.free[i]).state == STATE_EMPTY by {
            assert(v.free[i] == w.free[i]);
            assert(v.free.contains(v.free[i]));
        }
        assert(w.ready[v.ready.len() as int] == id);
        assert forall|i: int| 0 <= i < w.slots.len() && (#[trigger] w.slots[i]).state == STATE_READY implies w.queued(i as u32) by {
            if i != id as int {
                assert(v.slots[i] == w.slots[i]);
                assert(v.queued(i as u32));
                if v.ready.contains(i as u32) {
                    let k = choose|k: int| 0 <= k < v.ready.len() && v.ready[k] == i as u32;
                    assert(w.ready[k] == i as u32);
                }
            }
        }
    }
}

/// Takes in the remote wakes. Were there any?
fn drain_remote<P, W>(ex: &mut Executor<P, W>) -> (any: bool)
    requires
        old(ex)@.wf(),
    ensures
        final(ex)@ == drained(old(ex)@),
        final(ex)@.wf(),
        any == (old(ex)@.remote.len() > 0),
{
    let ghost start = ex@;
    let mut any: bool = false;
    loop
        invariant
            ex@.wf(),
            drained(ex@) == drained(start),
            any || ex@.remote == start.remote,
            any ==> start.remote.len() > 0,
        ensures
            ex@ == drained(start),
            ex@.wf(),
            any == (start.remote.len() > 0),
        decreases ex@.remote.len(),
    {
        match ex.remote.pop() {
            None => {
                break;
            },
            Some(id) => {
                let ghost mid = ex@;
                proof {
                    lemma_remote_woken_wf(mid, id);
                }
                if (id as usize) < ex.slots.len() && ex.slot(id).state == STATE_PENDING {
                    ex.slot_mut(id).state = STATE_READY;
                    ex.ready.push_back(id);
                }
                any = true;
            },
        }
    }
    any
}

// ---------------------------------------------------------------------------
// Timers
// ---------------------------------------------------------------------------

/// The timers that are still to come at `now`.
pub open spec fn pending_timers<W>(t: Seq<TimerEntry<W>>, now: u64) -> Seq<TimerEntry<W>>
    decreases t.len(),
{
    if t.len() == 0 {
        t
    } else if t.last().deadline <= now {
        pending_timers(t.drop_last(), now)
    } else {
        pending_timers(t.drop_last(), now).push(t.last())
    }
}

/// The wakers of the timers whose time has come at `now`, in the order of their handles.
pub open spec fn due_wakers<W>(t: Seq<TimerEntry<W>>, now: u64) -> Seq<W>
    decreases t.len(),
{
    if t.len() == 0 {
        Seq::empty()
    } else if t.last().deadline <= now {
        due_wakers(t.drop_last(), now).push(t.last().waker)
    } else {
        due_wakers(t.drop_last(), now)
    }
}

/// The timers whose time has come are gone.
pub open spec fn timers_fired<P, W>(v: ExecState<P, W>, now: u64) -> ExecState<P, W> {
    ExecState { timers: pending_timers(v.timers, now), ..v }
}

proof fn lemma_pending_timers<W>(t: Seq<TimerEntry<W>>, now: u64, next: u64)
    requires
        forall|i: int| 0 <= i < t.len() ==> 1 <= (#[trigger] t[i]).handle < next,
        forall|i: int, j: int| 0 <= i < j < t.len() ==> t[i].handle < t[j].handle,
    ensures
        ({
            let p = pending_timers(t, now);
            &&& p.len() <= t.len()
            &&& forall|i: int| 0 <= i < p.len() ==> 1 <= (#[trigger] p[i]).handle < next && p[i].deadline > now
            &&& forall|i: int, j: int| 0 <= i < j < p.len() ==> p[i].handle < p[j].handle
            &&& p.len() > 0 ==> p.last().handle <= t.last().handle
        }),
    decreases t.len(),
{
    if t.len() > 0 {
        let d = t.drop_last();
        lemma_pending_timers(d, now, next);
        let q = pending_timers(d, now);
        let p = pending_timers(t, now);
        if d.len() > 0 {
            assert(d.last().handle < t.last().handle);
        }
        assert forall|i: int, j: int| 0 <= i < j < p.len() implies p[i].handle < p[j].handle by {
            if j == q.len() {
                assert(q[i].handle <= q.last().handle);
            }
        }
    }
}

/// Timers fire once, and in time: those whose time has come are taken out and their wakers handed
/// out, and all others stay as they are.
pub proof fn timers_fire_once_when_due<W>(t: Seq<TimerEntry<W>>, now: u64, i: int)
    requires
        0 <= i < t.len(),
    ensures
        t[i].deadline <= now ==> due_wakers(t, now).contains(t[i].waker),
        t[i].deadline > now ==> pending_timers(t, now).contains(t[i]),
        forall|k: int|
            0 <= k < pending_timers(t, now).len() ==> (#[trigger] pending_timers(t, now)[k]).deadline > now && t.contains(
                pending_timers(t, now)[k],
            ),
        due_wakers(t, now).len() + pending_timers(t, now).len() == t.len(),
    decreases t.len(),
{
    let d = t.drop_last();
    let p = pending_timers(t, now);
    let q = pending_timers(d, now);
    let w = due_wakers(t, now);
    let u = due_wakers(d, now);
    if d.len() > 0 {
        let j: int = if i < d.len() {
            i
        } else {
            0
        };
        timers_fire_once_when_due(d, now, j);
        if i < d.len() {
            if t[i].deadline <= now {
                let k = choose|k: int| 0 <= k < u.len() && u[k] == d[i].waker;
                assert(w[k] == t[i].waker);
            } else {
                let k = choose|k: int| 0 <= k < q.len() && q[k] == d[i];
                assert(p[k] == t[i]);
            }
        }
    }
    if i == t.len() - 1 {
        if t[i].deadline <= now {
            assert(w.last() == t[i].waker);
        } else {
            assert(p.last() == t[i]);
        }
    }
    assert forall|k: int| 0 <= k < p.len() implies (#[trigger] p[k]).deadline > now && t.contains(p[k]) by {
        if k < q.len() {
            assert(q[k] == p[k]);
            assert(d.contains(q[k]));
            let m = choose|m: int| 0 <= m < d.len() && d[m] == q[k];
            assert(t[m] == p[k]);
        } else {
            assert(t[t.len() - 1] == p[k]);
        }
    }
}

/// Takes out the timers whose time has come, and returns their wakers.
fn fire_timers<P, W>(ex: &mut Executor<P, W>, now: u64) -> (wakers: Vec<W>)
    requires
        old(ex)@.wf(),
    ensures
        final(ex)@ == timers_fired(old(ex)@, now),
        final(ex)@.wf(),
        wakers@ == due_wakers(old(ex)@.timers, now),
{
    let ghost start = ex@;
    let ghost t = start.timers;
    let n: usize = ex.timers.len();
    let mut i: usize = 0;
    let mut k: usize = 0;
    let mut wakers: Vec<W> = Vec::new();
    proof {
        assert(t.take(0) =~= Seq::empty());
        assert(t.skip(0) =~= t);
        assert(Seq::<TimerEntry<W>>::empty() + t =~= t);
    }
    while k < n
        invariant
            i <= k <= n == t.len(),
            i == pending_timers(t.take(k as int), now).len(),
            ex@.timers == pending_timers(t.take(k as int), now) + t.skip(k as int),
            wakers@ == due_wakers(t.take(k as int), now),
            ex@ == (ExecState { timers: ex@.timers, ..start }),
        decreases n - k,
    {
        let ghost kept = pending_timers(t.take(k as int), now);
        proof {
            assert(t.take(k as int + 1).drop_last() =~= t.take(k as int));
            assert(ex@.timers[i as int] == t[k as int]);
        }
        if ex.timers[i].deadline <= now {
            let entry = ex.timers.remove(i);
            wakers.push(entry.waker);
            assert(ex@.timers =~= kept + t.skip(k as int + 1));
        } else {
            i = i + 1;
            assert(ex@.timers =~= kept.push(t[k as int]) + t.skip(k as int + 1));
        }
        k = k + 1;
    }
    proof {
        assert(t.take(n as int) =~= t);
        assert(ex@.timers =~= pending_timers(t, now));
        lemma_pending_timers(t, now, start.next_handle);
    }
    wakers
}

/// The place of a timer.
fn find_timer<P, W>(ex: &Executor<P, W>, handle: u64) -> (r: Option<usize>)
    ensures
        r matches Some(i) ==> i < ex@.timers.len() && ex@.timers[i as int].handle == handle,
        r is None ==> forall|i: int| 0 <= i < ex@.timers.len() ==> (#[trigger] ex@.timers[i]).handle != handle,
{
    let mut i: usize = 0;
    while i < ex.timers.len()
        invariant
            i <= ex.timers.len(),
            forall|k: int| 0 <= k < i ==> (#[trigger] ex@.timers[k]).handle != handle,
        decreases ex.timers.len() - i,
    {
        if ex.timers[i].handle == handle {
            return Some(i);
        }
        i = i + 1;
    }
    None
}

/// Is there a timer with this handle?
pub open spec fn has_timer<W>(t: Seq<TimerEntry<W>>, handle: u64) -> bool {
    exists|i: int| 0 <= i < t.len() && (#[trigger] t[i]).handle == handle
}

/// The handle of a timer that is registered in place of `old_handle`.
pub open spec fn timer_handle<P, W>(v: ExecState<P, W>, old_handle: u64) -> u64 {
    if has_timer(v.timers, old_handle) {
        old_handle
    } else {
        v.next_handle
    }
}

/// The executor with a timer registered in place of `old_handle`.
pub open spec fn timer_set<P, W>(v: ExecState<P, W>, deadline: u64, waker: W, old_handle: u64) -> ExecState<P, W> {
    if has_timer(v.timers, old_handle) {
        ExecState {
            timers: v.timers.map_values(
                |t: TimerEntry<W>|
                    if t.handle == old_handle {
                        TimerEntry { waker, ..t }
                    } else {
                        t
                    },
            ),
            ..v
        }
    } else {
        ExecState {
            timers: v.timers.push(TimerEntry { handle: v.next_handle, deadline, waker }),
            next_handle: (v.next_handle + 1) as u64,
            ..v
        }
    }
}

/// Registers a timer, or gives the timer `old_handle` a new waker.
///
/// A known `old_handle` keeps its deadline and its handle. Otherwise a new timer is made, with
/// the next handle. Handles start at 1; 0 is never known.
pub fn timer_register<P, W>(ex: &mut Executor<P, W>, deadline: u64, waker: W, old_handle: u64) -> (handle: u64)
    requires
        old(ex)@.wf(),
        old(ex)@.next_handle < u64::MAX,
    ensures
        final(ex)@.wf(),
        handle == timer_handle(old(ex)@, old_handle),
        final(ex)@ == timer_set(old(ex)@, deadline, waker, old_handle),
{
    if old_handle != 0 {
        if let Some(i) = find_timer(ex, old_handle) {
            assert(has_timer(ex@.timers, old_handle));
            let ghost v = ex@;
            ex.timers[i].waker = waker;
            assert(ex@.timers =~= timer_set(v, deadline, waker, old_handle).timers);
            return old_handle;
        }
    }
    let handle: u64 = ex.next_timer_handle;
    ex.next_timer_handle = handle + 1;
    ex.timers.push(TimerEntry { handle, deadline, waker });
    handle
}

/// Where the timer with this handle is.
pub open spec fn timer_index<W>(t: Seq<TimerEntry<W>>, handle: u64) -> int {
    choose|i: int| 0 <= i < t.len() && (#[trigger] t[i]).handle == handle
}

/// The executor without the timer of this handle, if there is one.
pub open spec fn timer_gone<P, W>(v: ExecState<P, W>, handle: u64) -> ExecState<P, W> {
    if has_timer(v.timers, handle) {
        ExecState { timers: v.timers.remove(timer_index(v.timers, handle)), ..v }
    } else {
        v
    }
}

/// Cancels a timer; an unknown handle changes nothing.
pub fn timer_cancel<P, W>(ex: &mut Executor<P, W>, handle: u64)
    requires
        old(ex)@.wf(),
    ensures
        final(ex)@.wf(),
        final(ex)@ == timer_gone(old(ex)@, handle),
        !has_timer(final(ex)@.timers, handle),
{
    let ghost v = ex@;
    if let Some(i) = find_timer(ex, handle) {
        assert(has_timer(v.timers, handle));
        assert(timer_index(v.timers, handle) == i);
        ex.timers.remove(i);
    }
}

/// Is `r` the time until the next timer fires, of those that are still to come at `now`?
pub open spec fn is_next_deadline<W>(t: Seq<TimerEntry<W>>, now: u64, r: Option<u64>) -> bool {
    &&& r is None <==> forall|i: int| 0 <= i < t.len() ==> (#[trigger] t[i]).deadline <= now
    &&& r matches Some(d) ==> {
        &&& d > 0
        &&& exists|i: int| 0 <= i < t.len() && (#[trigger] t[i]).deadline == now + d
        &&& forall|i: int| 0 <= i < t.len() && (#[trigger] t[i]).deadline > now ==> t[i].deadline >= now + d
    }
}

/// The time until the next timer fires, of those that are still to come at `now`.
pub fn next_timer_deadline<P, W>(ex: &Executor<P, W>, now: u64) -> (r: Option<u64>)
    ensures
        is_next_deadline(ex@.timers, now, r),
{
    let mut best: Option<u64> = None;
    let mut i: usize = 0;
    while i < ex.timers.len()
        invariant
            i <= ex.timers.len(),
            best is None <==> forall|k: int| 0 <= k < i ==> (#[trigger] ex@.timers[k]).deadline <= now,
            best matches Some(d) ==> {
                &&& d > 0
                &&& exists|k: int| 0 <= k < i && (#[trigger] ex@.timers[k]).deadline == now + d
                &&& forall|k: int| 0 <= k < i && (#[trigger] ex@.timers[k]).deadline > now ==> ex@.timers[k].deadline >= now + d
            },
        decreases ex.timers.len() - i,
    {
        let deadline: u64 = ex.timers[i].deadline;
        if deadline > now {
            let d: u64 = deadline - now;
            assert(ex@.timers[i as int].deadline == now + d);
            best = match best {
                None => Some(d),
                Some(b) => if d < b {
                    Some(d)
                } else {
                    Some(b)
                },
            };
        }
        i = i + 1;
    }
    best
}

// ---------------------------------------------------------------------------
// Spawning
// ---------------------------------------------------------------------------

/// The executor with a slot given out, the slot and its new generation: the last of the free list,
/// or the first of a new segment, whose other slots are free then.
pub open spec fn allocated<P, W>(v: ExecState<P, W>) -> (ExecState<P, W>, u32, u32) {
    if v.free.len() > 0 {
        let id = v.free.last();
        let gen = v.slot(id).generation.wrapping_add(1);
        let rest = ExecState { free: v.free.drop_last(), ..v };
        (rest.put(id, TaskSlot { generation: gen, ..v.slot(id) }), id, gen)
    } else {
        let id = v.slots.len() as u32;
        let grown = ExecState {
            slots: v.slots + Seq::new(256, |i: int| empty_slot::<P, W>()),
            free: Seq::new(255, |i: int| (id + 255 - i) as u32),
            ..v
        };
        (grown.put(id, TaskSlot { generation: 1, ..empty_slot::<P, W>() }), id, 1)
    }
}

/// Takes a slot for a new task, under a new generation.
///
/// Returns the slot and the generation. The slot stays empty until `commit_spawn`.
pub fn alloc_raw<P, W>(ex: &mut Executor<P, W>) -> (r: (u32, u32))
    requires
        old(ex)@.wf(),
        old(ex)@.free.len() > 0 || old(ex)@.slots.len() < MAX_SLOTS,
    ensures
        final(ex)@.wf(),
        final(ex)@.has(r.0),
        final(ex)@.slot(r.0).state == STATE_EMPTY,
        !final(ex)@.free.contains(r.0),
        (final(ex)@, r.0, r.1) == allocated(old(ex)@),
{
    let id: u32 = ex.alloc_slot();
    let ghost v = ex@;
    let gen: u32 = ex.slot(id).generation.wrapping_add(1);
    ex.slot_mut(id).generation = gen;
    proof {
        lemma_put_wf(v, id, TaskSlot { generation: gen, ..v.slot(id) });
    }
    (id, gen)
}

/// A spawned task: its payload is in place, it is ready, and last in the queue.
pub open spec fn spawned<P, W>(v: ExecState<P, W>, id: u32, payload: P, plugin_id: u64) -> ExecState<P, W> {
    ExecState {
        ready: v.ready.push(id),
        ..v.put(
            id,
            TaskSlot {
                storage: Some(payload),
                generation: v.slot(id).generation,
                state: STATE_READY,
                detached: false,
                plugin_id,
                join_waker: None,
            },
        )
    }
}

/// Puts a task into a slot that `alloc_raw` gave out, and makes it ready.
pub fn commit_spawn<P, W>(ex: &mut Executor<P, W>, id: u32, payload: P, plugin_id: u64)
    requires
        old(ex)@.wf(),
        old(ex)@.has(id),
        old(ex)@.slot(id).state == STATE_EMPTY,
        !old(ex)@.free.contains(id),
    ensures
        final(ex)@.wf(),
        final(ex)@ == spawned(old(ex)@, id, payload, plugin_id),
{
    let ghost v = ex@;
    let slot = ex.slot_mut(id);
    slot.storage = Some(payload);
    slot.plugin_id = plugin_id;
    slot.state = STATE_READY;
    slot.join_waker = None;
    slot.detached = false;
    ex.ready.push_back(id);
    proof {
        let queue = ExecState { ready: v.ready.push(id), ..v };
        assert(queue.ready[v.ready.len() as int] == id);
        assert forall|i: int| 0 <= i < queue.slots.len() && (#[trigger] queue.slots[i]).state == STATE_READY implies queue.queued(
            i as u32,
        ) by {
            assert(v.slots[i] == queue.slots[i]);
            if v.ready.contains(i as u32) {
                let k = choose|k: int| 0 <= k < v.ready.len() && v.ready[k] == i as u32;
                assert(queue.ready[k] == i as u32);
            }
        }
        lemma_put_wf(queue, id, ex@.slot(id));
    }
}

// ---------------------------------------------------------------------------
// The drive cycle
// ---------------------------------------------------------------------------

/// A task that is to be polled, with its payload.
pub struct TaskSnapshot<P> {
    pub id: u32,
    pub plugin_id: u64,
    pub payload: P,
}

/// A slot whose task is being polled: it counts as pending, its payload is out.
pub open spec fn taken<P, W>(slot: TaskSlot<P, W>) -> TaskSlot<P, W> {
    TaskSlot { state: STATE_PENDING, storage: None, ..slot }
}

/// The first ready task of the queue; ids of tasks that are not ready are dropped on the way.
pub open spec fn pick_queued<P, W>(v: ExecState<P, W>) -> (ExecState<P, W>, Option<u32>)
    decreases v.ready.len(),
{
    if v.ready.len() == 0 {
        (v, None)
    } else {
        let id = v.ready[0];
        let rest = ExecState { ready: v.ready.drop_first(), ..v };
        if v.slot(id).state == STATE_READY {
            (rest.put(id, taken(v.slot(id))), Some(id))
        } else {
            pick_queued(rest)
        }
    }
}

/// The task to be polled next: the hot one if it is ready, else the first ready one of the
/// queue.
pub open spec fn pick<P, W>(v: ExecState<P, W>) -> (ExecState<P, W>, Option<u32>) {
    let cold = ExecState { hot: None, ..v };
    match v.hot {
        Some(id) => if v.slot(id).state == STATE_READY {
            (cold.put(id, taken(v.slot(id))), Some(id))
        } else {
            pick_queued(cold)
        },
        None => pick_queued(cold),
    }
}

/// Dropping the head of the queue keeps the executor well-formed if that task is not ready.
proof fn lemma_skip_wf<P, W>(v: ExecState<P, W>)
    requires
        v.wf(),
        v.ready.len() > 0,
        v.slot(v.ready[0]).state != STATE_READY,
    ensures
        (ExecState { ready: v.ready.drop_first(), ..v }).wf(),
{
    let w = ExecState { ready: v.ready.drop_first(), ..v };
    assert forall|i: int| 0 <= i < w.slots.len() && (#[trigger] w.slots[i]).state == STATE_READY implies w.queued(i as u32) by {
        assert(v.slots[i] == w.slots[i]);
        if v.ready.contains(i as u32) {
            let k = choose|k: int| 0 <= k < v.ready.len() && v.ready[k] == i as u32;
            assert(k > 0);
            assert(w.ready[k - 1] == i as u32);
        }
    }
}

/// Taking the head of the queue out for polling keeps the executor well-formed.
proof fn lemma_take_head_wf<P, W>(v: ExecState<P, W>)
    requires
        v.wf(),
        v.ready.len() > 0,
        v.slot(v.ready[0]).state == STATE_READY,
    ensures
        (ExecState { ready: v.ready.drop_first(), ..v }).put(v.ready[0], taken(v.slot(v.ready[0]))).wf(),
{
    let id = v.ready[0];
    lemma_not_free(v, id);
    lemma_put_wf(v, id, taken(v.slot(id)));
    let p = v.put(id, taken(v.slot(id)));
    lemma_skip_wf(p);
    assert((ExecState { ready: v.ready.drop_first(), ..v }).put(id, taken(v.slot(id))) == (ExecState {
        ready: p.ready.drop_first(),
        ..p
    }));
}

/// Takes the next task out for polling.
pub fn next_task<P, W>(ex: &mut Executor<P, W>) -> (r: Option<TaskSnapshot<P>>)
    requires
        old(ex)@.wf(),
        old(ex)@.runnable(),
    ensures
        final(ex)@.wf(),
        final(ex)@ == pick(old(ex)@).0,
        r is Some <==> pick(old(ex)@).1 is Some,
        r matches Some(t) ==> {
            &&& pick(old(ex)@).1 == Some(t.id)
            &&& old(ex)@.has(t.id)
            &&& old(ex)@.slot(t.id).state == STATE_READY
            &&& t.plugin_id == old(ex)@.slot(t.id).plugin_id
            &&& old(ex)@.slot(t.id).storage == Some(t.payload)
        },
{
    let ghost start = ex@;
    if let Some(id) = ex.hot_slot.take() {
        if ex.slot(id).state == STATE_READY {
            proof {
                lemma_not_free(start, id);
                lemma_put_wf(start, id, taken(start.slot(id)));
                assert(start.slots[id as int].storage is Some);
            }
            let plugin_id: u64 = ex.slot(id).plugin_id;
            let slot = ex.slot_mut(id);
            slot.state = STATE_PENDING;
            let payload = slot.storage.take().unwrap();
            return Some(TaskSnapshot { id, plugin_id, payload });
        }
    }
    proof {
        let cold = ExecState { hot: None, ..start };
        assert(cold.wf());
        assert(ex@ == cold);
    }
    loop
        invariant
            ex@.wf(),
            ex@ == (ExecState { ready: ex@.ready, hot: None, ..start }),
            start == old(ex)@,
            start.runnable(),
            pick_queued(ex@) == pick(start),
        decreases ex@.ready.len(),
    {
        let ghost v = ex@;
        match ex.ready.pop_front() {
            None => {
                return None;
            },
            Some(id) => {
                assert(v.has(v.ready[0]));
                assert(v.ready.subrange(1, v.ready.len() as int) =~= v.ready.drop_first());
                if ex.slot(id).state != STATE_READY {
                    proof {
                        lemma_skip_wf(v);
                    }
                } else {
                    proof {
                        lemma_take_head_wf(v);
                        assert(start.slots[id as int].storage is Some);
                    }
                    let plugin_id: u64 = ex.slot(id).plugin_id;
                    let slot = ex.slot_mut(id);
                    slot.state = STATE_PENDING;
                    let payload = slot.storage.take().unwrap();
                    return Some(TaskSnapshot { id, plugin_id, payload });
                }
            },
        }
    }
}

/// Nothing that is ready is left behind: no task is picked only if none is ready.
pub proof fn every_ready_task_is_picked<P, W>(v: ExecState<P, W>)
    requires
        v.wf(),
    ensures
        pick(v).1 is None ==> forall|i: int| 0 <= i < v.slots.len() ==> (#[trigger] v.slots[i]).state != STATE_READY,
        pick(v).1 matches Some(id) ==> v.has(id) && v.slot(id).state == STATE_READY,
{
    let cold = ExecState { hot: None, ..v };
    if !(v.hot matches Some(id) && v.slot(id).state == STATE_READY) {
        lemma_pick_queued(cold);
    }
}

proof fn lemma_pick_queued<P, W>(v: ExecState<P, W>)
    requires
        v.wf(),
        v.hot is None,
    ensures
        pick_queued(v).1 is None ==> forall|i: int| 0 <= i < v.slots.len() ==> (#[trigger] v.slots[i]).state != STATE_READY,
        pick_queued(v).1 matches Some(id) ==> v.has(id) && v.slot(id).state == STATE_READY,
    decreases v.ready.len(),
{
    if v.ready.len() > 0 {
        assert(v.has(v.ready[0]));
        if v.slot(v.ready[0]).state != STATE_READY {
            lemma_skip_wf(v);
            lemma_pick_queued(ExecState { ready: v.ready.drop_first(), ..v });
        }
    }
}

/// What a poll gave: the task is not done and keeps its payload, or it is done with a result.
pub enum PollOutcome<P> {
    Pending(P),
    Ready(P),
}

/// A finished task: its result is in place, or handed out if nobody will take it.
pub open spec fn completed<P, W>(v: ExecState<P, W>, id: u32, result: P) -> ExecState<P, W> {
    let slot = v.slot(id);
    if slot.detached {
        v.put(id, cancelled(slot))
    } else {
        v.put(id, TaskSlot { state: STATE_COMPLETE, storage: Some(result), join_waker: None, ..slot })
    }
}

/// After a poll that was not the last.
pub open spec fn put_back<P, W>(v: ExecState<P, W>, id: u32, payload: P) -> ExecState<P, W> {
    v.put(id, TaskSlot { storage: Some(payload), ..v.slot(id) })
}

/// A task's payload stays in its slot while it is polled, for whoever looks for it meanwhile.
pub fn keep_payload<P, W>(ex: &mut Executor<P, W>, id: u32, payload: P)
    requires
        old(ex)@.wf(),
        old(ex)@.has(id),
    ensures
        final(ex)@.wf(),
        final(ex)@ == put_back(old(ex)@, id, payload),
{
    let ghost v = ex@;
    proof {
        if v.slot(id).state != STATE_EMPTY {
            lemma_not_free(v, id);
        }
        if v.slot(id).state == STATE_READY {
            assert(v.slots[id as int].state == STATE_READY);
        }
        lemma_put_wf(v, id, TaskSlot { storage: Some(payload), ..v.slot(id) });
    }
    ex.slot_mut(id).storage = Some(payload);
}

/// What the driver of the executor is told of.
pub enum DriveEvent<P> {
    /// A cycle starts, at this time.
    Begin(u64),
    /// The wakers that were handed out have been woken.
    Woken,
    /// The task that was handed out has been polled.
    Polled(u32, PollOutcome<P>),
    /// The result of a detached task has been dropped.
    Dropped(u32),
}

/// What the driver of the executor has to do.
pub enum DriveAction<P, W> {
    /// Wake these.
    Wake(Vec<W>),
    /// Poll the task that is given.
    Poll(TaskSnapshot<P>),
    /// Wake whoever joins the task.
    WakeJoin(W),
    /// Drop the result of this detached task, with its plugin as the current one.
    DropResult(TaskSnapshot<P>),
    /// The cycle is over. Was there any work?
    Done(bool),
}

/// An action, as a value.
pub enum DriveStep<P, W> {
    Wake(Seq<W>),
    Poll(u32, u64, P),
    WakeJoin(W),
    DropResult(u32, u64, P),
    Done(bool),
}

impl<P, W> View for DriveAction<P, W> {
    type V = DriveStep<P, W>;

    open spec fn view(&self) -> DriveStep<P, W> {
        match self {
            DriveAction::Wake(w) => DriveStep::Wake(w@),
            DriveAction::Poll(t) => DriveStep::Poll(t.id, t.plugin_id, t.payload),
            DriveAction::WakeJoin(w) => DriveStep::WakeJoin(*w),
            DriveAction::DropResult(t) => DriveStep::DropResult(t.id, t.plugin_id, t.payload),
            DriveAction::Done(b) => DriveStep::Done(*b),
        }
    }
}

/// The executor, what the cycle has done so far, and the action that comes next.
pub struct Driven<P, W> {
    pub state: ExecState<P, W>,
    pub did_work: bool,
    pub step: DriveStep<P, W>,
}

/// The next task is polled, or the cycle is over.
pub open spec fn proceed<P, W>(v: ExecState<P, W>, did_work: bool) -> Driven<P, W> {
    match pick(v) {
        (state, Some(id)) => Driven {
            state,
            did_work: true,
            step: DriveStep::Poll(id, v.slot(id).plugin_id, v.slot(id).storage->0),
        },
        (state, None) => Driven { state, did_work, step: DriveStep::Done(did_work) },
    }
}

/// The executor once the event has been taken in, before the next task is picked.
pub open spec fn taken_in<P, W>(v: ExecState<P, W>, ev: DriveEvent<P>) -> ExecState<P, W> {
    match ev {
        DriveEvent::Begin(now) => timers_fired(drained(v), now),
        DriveEvent::Woken => v,
        DriveEvent::Polled(id, PollOutcome::Pending(p)) => put_back(v, id, p),
        DriveEvent::Polled(id, PollOutcome::Ready(p)) => completed(v, id, p),
        DriveEvent::Dropped(id) => freed(v, id),
    }
}

/// One step of a drive cycle: remote wakes, due timers, then one task after the other.
pub open spec fn driven<P, W>(v: ExecState<P, W>, did_work: bool, ev: DriveEvent<P>) -> Driven<P, W> {
    let w = taken_in(v, ev);
    match ev {
        DriveEvent::Begin(now) => {
            let due = due_wakers(v.timers, now);
            let worked = v.remote.len() > 0 || due.len() > 0;
            if due.len() > 0 {
                Driven { state: w, did_work: worked, step: DriveStep::Wake(due) }
            } else {
                proceed(w, worked)
            }
        },
        DriveEvent::Polled(id, PollOutcome::Ready(p)) => {
            if v.slot(id).detached {
                Driven {
                    state: w,
                    did_work,
                    step: DriveStep::DropResult(id, v.slot(id).plugin_id, p),
                }
            } else {
                match v.slot(id).join_waker {
                    Some(waker) => Driven { state: w, did_work, step: DriveStep::WakeJoin(waker) },
                    None => proceed(w, did_work),
                }
            }
        },
        _ => proceed(w, did_work),
    }
}

/// Is this an event that can happen now? A task that was polled still runs, a result that was
/// dropped belonged to a cancelled task.
pub open spec fn expected<P, W>(v: ExecState<P, W>, ev: DriveEvent<P>) -> bool {
    match ev {
        DriveEvent::Polled(id, _) => v.has(id) && (v.slot(id).state == STATE_PENDING || v.slot(id).state == STATE_READY),
        DriveEvent::Dropped(id) => v.has(id) && v.slot(id).state == STATE_CANCELLED,
        _ => true,
    }
}

proof fn lemma_drained_timers<P, W>(v: ExecState<P, W>)
    requires
        v.wf(),
    ensures
        drained(v).wf(),
        drained(v).timers == v.timers,
    decreases v.remote.len(),
{
    if v.remote.len() > 0 {
        let w = ExecState { remote: v.remote.drop_first(), ..v };
        lemma_remote_woken_wf(w, v.remote[0]);
        lemma_drained_timers(remote_woken(w, v.remote[0]));
    }
}

fn proceed_exec<P, W>(ex: &mut Executor<P, W>, did_work: &mut bool) -> (r: DriveAction<P, W>)
    requires
        old(ex)@.wf(),
        old(ex)@.runnable(),
    ensures
        final(ex)@.wf(),
        (Driven { state: final(ex)@, did_work: *final(did_work), step: r@ }) == proceed(old(ex)@, *old(did_work)),
{
    match next_task(ex) {
        Some(t) => {
            *did_work = true;
            DriveAction::Poll(t)
        },
        None => DriveAction::Done(*did_work),
    }
}

/// One drive cycle, step by step: drain the remote wakes, fire the due timers, poll the ready
/// tasks until none is left.
///
/// Starts with `Begin` and ends with `Done`. The driver performs each action and hands back
/// what came of it. `did_work` is the cycle's own memory.
pub fn drive_cycle<P, W>(ex: &mut Executor<P, W>, did_work: &mut bool, ev: DriveEvent<P>) -> (r: DriveAction<P, W>)
    requires
        old(ex)@.wf(),
        expected(old(ex)@, ev),
        taken_in(old(ex)@, ev).runnable(),
    ensures
        final(ex)@.wf(),
        (Driven { state: final(ex)@, did_work: *final(did_work), step: r@ }) == driven(old(ex)@, *old(did_work), ev),
{
    let ghost v = ex@;
    match ev {
        DriveEvent::Begin(now) => {
            proof {
                lemma_drained_timers(v);
            }
            let any: bool = drain_remote(ex);
            let wakers = fire_timers(ex, now);
            *did_work = any || wakers.len() > 0;
            if wakers.len() > 0 {
                DriveAction::Wake(wakers)
            } else {
                proceed_exec(ex, did_work)
            }
        },
        DriveEvent::Woken => proceed_exec(ex, did_work),
        DriveEvent::Polled(id, outcome) => {
            proof {
                lemma_not_free(v, id);
            }
            match outcome {
                PollOutcome::Pending(payload) => {
                    proof {
                        lemma_put_wf(v, id, TaskSlot { storage: Some(payload), ..v.slot(id) });
                    }
                    ex.slot_mut(id).storage = Some(payload);
                    proceed_exec(ex, did_work)
                },
                PollOutcome::Ready(result) => {
                    let plugin_id: u64 = ex.slot(id).plugin_id;
                    if ex.slot(id).detached {
                        proof {
                            lemma_put_wf(v, id, cancelled(v.slot(id)));
                        }
                        let slot = ex.slot_mut(id);
                        slot.state = STATE_CANCELLED;
                        slot.storage = None;
                        slot.join_waker = None;
                        DriveAction::DropResult(TaskSnapshot { id, plugin_id, payload: result })
                    } else {
                        proof {
                            lemma_put_wf(v, id, completed(v, id, result).slot(id));
                        }
                        let slot = ex.slot_mut(id);
                        slot.state = STATE_COMPLETE;
                        slot.storage = Some(result);
                        let waker = slot.join_waker.take();
                        assert(ex@ == completed(v, id, result));
                        match waker {
                            Some(w) => DriveAction::WakeJoin(w),
                            None => proceed_exec(ex, did_work),
                        }
                    }
                },
            }
        },
        DriveEvent::Dropped(id) => {
            proof {
                lemma_freed_wf(v, id);
            }
            free_slot(ex, id);
            proceed_exec(ex, did_work)
        },
    }
}

/// Empties a slot and puts it on the free list.
fn free_slot<P, W>(ex: &mut Executor<P, W>, id: u32)
    requires
        old(ex)@.has(id),
    ensures
        final(ex)@ == freed(old(ex)@, id),
{
    let slot = ex.slot_mut(id);
    slot.state = STATE_EMPTY;
    slot.storage = None;
    slot.join_waker = None;
    ex.free.push(id);
}

// ---------------------------------------------------------------------------
// Task lifecycle
// ---------------------------------------------------------------------------

/// A payload that has to be dropped, with its plugin as the current one: the result of a task
/// that was complete, the future of one that was not.
pub struct Cleanup<P> {
    pub id: u32,
    pub plugin_id: u64,
    pub complete: bool,
    pub payload: Option<P>,
}

pub open spec fn cleanup_of<P, W>(id: u32, slot: TaskSlot<P, W>) -> Cleanup<P> {
    Cleanup {
        id,
        plugin_id: slot.plugin_id,
        complete: slot.state == STATE_COMPLETE,
        payload: slot.storage,
    }
}

/// Does the slot hold a task: running, or with a result that nobody has taken?
pub open spec fn live<P, W>(slot: TaskSlot<P, W>) -> bool {
    slot.state != STATE_EMPTY && slot.state != STATE_CANCELLED
}

/// Is the task of this generation over? So it is if the slot is unknown or was reused.
pub open spec fn finished<P, W>(v: ExecState<P, W>, id: u32, gen: u32) -> bool {
    ||| !v.has(id)
    ||| v.slot(id).generation != gen
    ||| v.slot(id).state == STATE_COMPLETE
    ||| v.slot(id).state == STATE_CANCELLED
    ||| v.slot(id).state == STATE_EMPTY
}

/// Takes an id out of the ready queue.
fn dequeue<P, W>(ex: &mut Executor<P, W>, id: u32)
    ensures
        final(ex)@ == (ExecState { ready: without(old(ex)@.ready, id), ..old(ex)@ }),
{
    let ghost q = ex@.ready;
    let ghost start = ex@;
    let n: usize = ex.ready.len();
    let mut i: usize = 0;
    proof {
        assert(q.skip(0) =~= q);
        assert(q.take(0) =~= Seq::<u32>::empty());
        assert(q + Seq::<u32>::empty() =~= q);
    }
    while i < n
        invariant
            i <= n == q.len(),
            ex@.ready == q.skip(i as int) + without(q.take(i as int), id),
            ex@ == (ExecState { ready: ex@.ready, ..start }),
        decreases n - i,
    {
        let ghost kept = without(q.take(i as int), id);
        proof {
            assert(q.take(i as int + 1).drop_last() =~= q.take(i as int));
        }
        if let Some(x) = ex.ready.pop_front() {
            assert(x == q[i as int]);
            assert(ex@.ready =~= q.skip(i as int + 1) + kept);
            if x != id {
                ex.ready.push_back(x);
                assert(ex@.ready =~= q.skip(i as int + 1) + kept.push(x));
            }
        }
        i = i + 1;
    }
    proof {
        assert(q.take(n as int) =~= q);
        assert(ex@.ready =~= without(q, id));
    }
}

proof fn lemma_dequeue_wf<P, W>(v: ExecState<P, W>, id: u32)
    requires
        v.wf(),
        v.has(id),
        v.slot(id).state != STATE_READY,
    ensures
        (ExecState { ready: without(v.ready, id), ..v }).wf(),
{
    let w = ExecState { ready: without(v.ready, id), ..v };
    lemma_without(v.ready, id);
    assert forall|i: int| 0 <= i < w.ready.len() implies w.has(#[trigger] w.ready[i]) by {
        assert(v.ready.contains(w.ready[i]));
    }
    assert forall|i: int| 0 <= i < w.slots.len() && (#[trigger] w.slots[i]).state == STATE_READY implies w.queued(i as u32) by {
        assert(v.slots[i] == w.slots[i]);
        assert(v.queued(i as u32));
    }
}

/// The executor after the first half of a cancellation.
pub open spec fn cancel_begun<P, W>(v: ExecState<P, W>, id: u32, gen: u32) -> ExecState<P, W> {
    let slot = v.slot(id);
    if slot.generation != gen || !live(slot) {
        v
    } else if slot.state == STATE_COMPLETE {
        ExecState { ready: without(v.ready, id), ..freed(v, id) }
    } else {
        ExecState { ready: without(v.ready, id), ..v.put(id, cancelled(slot)) }
    }
}

/// Cancels a task: first half.
///
/// Hands out the payload that has to be dropped, or `None` if the id is stale or the task is
/// over already. The slot of a complete task is free at once; that of a running one once
/// `cancel_finish` says so, after the future has been dropped.
pub fn cancel_task<P, W>(ex: &mut Executor<P, W>, id: u32, gen: u32) -> (r: Option<Cleanup<P>>)
    requires
        old(ex)@.wf(),
        old(ex)@.has(id),
    ensures
        final(ex)@.wf(),
        final(ex)@ == cancel_begun(old(ex)@, id, gen),
        r is Some <==> old(ex)@.slot(id).generation == gen && live(old(ex)@.slot(id)),
        r matches Some(c) ==> c == cleanup_of(id, old(ex)@.slot(id)),
{
    let ghost v = ex@;
    if ex.slot(id).generation != gen {
        return None;
    }
    let state: u8 = ex.slot(id).state;
    if state == STATE_EMPTY || state == STATE_CANCELLED {
        return None;
    }
    let plugin_id: u64 = ex.slot(id).plugin_id;
    let payload = ex.slot_mut(id).storage.take();
    let complete: bool = state == STATE_COMPLETE;
    if complete {
        free_slot(ex, id);
        proof {
            lemma_freed_wf(v, id);
            assert(ex@.slots =~= freed(v, id).slots);
            assert(ex@ == freed(v, id));
        }
    } else {
        let slot = ex.slot_mut(id);
        slot.state = STATE_CANCELLED;
        slot.join_waker = None;
        proof {
            lemma_not_free(v, id);
            lemma_put_wf(v, id, cancelled(v.slot(id)));
            assert(ex@.slots =~= v.put(id, cancelled(v.slot(id))).slots);
            assert(ex@ == v.put(id, cancelled(v.slot(id))));
        }
    }
    proof {
        lemma_dequeue_wf(ex@, id);
    }
    dequeue(ex, id);
    Some(Cleanup { id, plugin_id, complete, payload })
}

/// Cancels a task: second half, after the future has been dropped. The slot becomes free if it
/// still is the cancelled one.
pub fn cancel_finish<P, W>(ex: &mut Executor<P, W>, id: u32, gen: u32)
    requires
        old(ex)@.wf(),
        old(ex)@.has(id),
    ensures
        final(ex)@.wf(),
        final(ex)@ == cancel_ended(old(ex)@, id, gen),
{
    let ghost v = ex@;
    if ex.slot(id).state == STATE_CANCELLED && ex.slot(id).generation == gen {
        proof {
            lemma_freed_wf(v, id);
        }
        free_slot(ex, id);
    }
}

/// The executor after the second half of a cancellation.
pub open spec fn cancel_ended<P, W>(v: ExecState<P, W>, id: u32, gen: u32) -> ExecState<P, W> {
    if v.slot(id).state == STATE_CANCELLED && v.slot(id).generation == gen {
        freed(v, id)
    } else {
        v
    }
}

/// Is a task finished: complete, cancelled, or its slot reused?
pub fn is_task_finished<P, W>(ex: &Executor<P, W>, id: u32, gen: u32) -> (r: bool)
    ensures
        r == finished(ex@, id, gen),
{
    if (id as usize) >= ex.slots.len() {
        return true;
    }
    let slot = ex.slot(id);
    if slot.generation != gen {
        return true;
    }
    slot.state == STATE_COMPLETE || slot.state == STATE_CANCELLED || slot.state == STATE_EMPTY
}

/// The executor once nobody waits for the task any more.
pub open spec fn detached<P, W>(v: ExecState<P, W>, id: u32, gen: u32) -> ExecState<P, W> {
    if !v.has(id) || v.slot(id).generation != gen {
        v
    } else if v.slot(id).state == STATE_COMPLETE {
        freed(v, id)
    } else if v.slot(id).state == STATE_PENDING || v.slot(id).state == STATE_READY {
        v.put(id, TaskSlot { detached: true, join_waker: None, ..v.slot(id) })
    } else {
        v
    }
}

/// Nobody waits for the task any more.
///
/// A running task cleans up after itself on completion. The result of a complete one is handed
/// out to be dropped, and its slot is free. A stale id changes nothing.
pub fn detach_or_cleanup<P, W>(ex: &mut Executor<P, W>, id: u32, gen: u32) -> (r: Option<Cleanup<P>>)
    requires
        old(ex)@.wf(),
    ensures
        final(ex)@.wf(),
        final(ex)@ == detached(old(ex)@, id, gen),
        r is Some <==> old(ex)@.has(id) && old(ex)@.slot(id).generation == gen && old(ex)@.slot(id).state == STATE_COMPLETE,
        r matches Some(c) ==> c == cleanup_of(id, old(ex)@.slot(id)),
{
    let ghost v = ex@;
    if (id as usize) >= ex.slots.len() {
        return None;
    }
    if ex.slot(id).generation != gen {
        return None;
    }
    let state: u8 = ex.slot(id).state;
    if state == STATE_COMPLETE {
        return Some(reclaim(ex, id));
    }
    if state == STATE_PENDING || state == STATE_READY {
        proof {
            lemma_not_free(v, id);
            lemma_put_wf(v, id, TaskSlot { detached: true, join_waker: None, ..v.slot(id) });
        }
        let slot = ex.slot_mut(id);
        slot.detached = true;
        slot.join_waker = None;
    }
    None
}

/// Takes the payload out of a slot and frees it.
fn reclaim<P, W>(ex: &mut Executor<P, W>, id: u32) -> (r: Cleanup<P>)
    requires
        old(ex)@.wf(),
        old(ex)@.has(id),
        old(ex)@.slot(id).state != STATE_EMPTY,
    ensures
        final(ex)@.wf(),
        final(ex)@ == freed(old(ex)@, id),
        r == cleanup_of(id, old(ex)@.slot(id)),
{
    let ghost v = ex@;
    proof {
        lemma_freed_wf(v, id);
    }
    let plugin_id: u64 = ex.slot(id).plugin_id;
    let complete: bool = ex.slot(id).state == STATE_COMPLETE;
    let payload = ex.slot_mut(id).storage.take();
    free_slot(ex, id);
    assert(ex@.slots =~= freed(v, id).slots);
    assert(ex@ == freed(v, id));
    Cleanup { id, plugin_id, complete, payload }
}

/// State and generation of a slot; an unknown one counts as empty.
pub fn slot_state<P, W>(ex: &Executor<P, W>, id: u32) -> (r: (u8, u32))
    ensures
        !ex@.has(id) ==> r == (STATE_EMPTY, 0u32),
        ex@.has(id) ==> r == (ex@.slot(id).state, ex@.slot(id).generation),
{
    if (id as usize) >= ex.slots.len() {
        return (STATE_EMPTY, 0);
    }
    let slot = ex.slot(id);
    (slot.state, slot.generation)
}

/// Sets the waker of whoever joins the task.
pub fn set_join_waker<P, W>(ex: &mut Executor<P, W>, id: u32, waker: W)
    requires
        old(ex)@.wf(),
        old(ex)@.has(id),
    ensures
        final(ex)@.wf(),
        final(ex)@ == old(ex)@.put(id, TaskSlot { join_waker: Some(waker), ..old(ex)@.slot(id) }),
{
    let ghost v = ex@;
    proof {
        let slot = TaskSlot { join_waker: Some(waker), ..v.slot(id) };
        if v.slot(id).state != STATE_EMPTY {
            lemma_not_free(v, id);
        }
        if v.slot(id).state == STATE_READY {
            assert(v.slots[id as int].state == STATE_READY);
        }
        lemma_put_wf(v, id, slot);
    }
    ex.slot_mut(id).join_waker = Some(waker);
}

/// Takes the result of a complete task out and frees its slot.
pub fn take_result<P, W>(ex: &mut Executor<P, W>, id: u32) -> (r: Option<P>)
    requires
        old(ex)@.wf(),
        old(ex)@.has(id),
        old(ex)@.slot(id).state == STATE_COMPLETE,
    ensures
        final(ex)@.wf(),
        final(ex)@ == freed(old(ex)@, id),
        r == old(ex)@.slot(id).storage,
{
    let c = reclaim(ex, id);
    c.payload
}

/// A running task that is cancelled, and not touched while its future is dropped, leaves a free
/// slot; its id is then stale or finished for good.
pub proof fn cancelled_task_leaves_a_free_slot<P, W>(v: ExecState<P, W>, id: u32, gen: u32)
    requires
        v.wf(),
        v.has(id),
        v.slot(id).generation == gen,
        live(v.slot(id)),
    ensures
        ({
            let w = cancel_ended(cancel_begun(v, id, gen), id, gen);
            &&& w.slot(id).state == STATE_EMPTY
            &&& w.free == v.free.push(id)
            &&& !w.ready.contains(id)
            &&& finished(w, id, gen)
            &&& forall|i: int| 0 <= i < v.slots.len() && i != id ==> #[trigger] w.slots[i] == v.slots[i]
        }),
{
    lemma_without(v.ready, id);
}

/// A stale id changes nothing: neither cancelling nor detaching touches a slot that has gone on
/// to another generation.
pub proof fn stale_ids_change_nothing<P, W>(v: ExecState<P, W>, id: u32, gen: u32)
    requires
        v.has(id),
        v.slot(id).generation != gen,
    ensures
        cancel_begun(v, id, gen) == v,
        cancel_ended(v, id, gen) == v,
        detached(v, id, gen) == v,
        finished(v, id, gen),
{
}

/// A task whose joiner has gone is cleaned up on completion: its slot ends up free.
pub proof fn detached_task_cleans_up<P, W>(v: ExecState<P, W>, id: u32, gen: u32, result: P)
    requires
        v.has(id),
        v.slot(id).generation == gen,
        v.slot(id).state == STATE_PENDING || v.slot(id).state == STATE_READY,
    ensures
        ({
            let w = completed(detached(v, id, gen), id, result);
            &&& w.slot(id).state == STATE_CANCELLED
            &&& driven(detached(v, id, gen), true, DriveEvent::Polled(id, PollOutcome::Ready(result))).step
                == DriveStep::<P, W>::DropResult(id, v.slot(id).plugin_id, result)
            &&& taken_in(w, DriveEvent::Dropped(id)).slot(id).state == STATE_EMPTY
            &&& taken_in(w, DriveEvent::Dropped(id)).free == v.free.push(id)
        }),
{
}

// ---------------------------------------------------------------------------
// Unloading a plugin
// ---------------------------------------------------------------------------

/// Has this slot to go with the plugin?
pub open spec fn doomed<P, W>(slot: TaskSlot<P, W>, plugin_id: u64) -> bool {
    slot.plugin_id == plugin_id && live(slot)
}

/// The slots with the plugin's tasks cancelled.
pub open spec fn purged<P, W>(slots: Seq<TaskSlot<P, W>>, plugin_id: u64) -> Seq<TaskSlot<P, W>> {
    Seq::new(
        slots.len(),
        |i: int|
            if doomed(slots[i], plugin_id) {
                cancelled(slots[i])
            } else {
                slots[i]
            },
    )
}

/// The queue without the plugin's tasks.
pub open spec fn queue_purged<P, W>(ready: Seq<u32>, slots: Seq<TaskSlot<P, W>>, plugin_id: u64) -> Seq<u32>
    decreases ready.len(),
{
    if ready.len() == 0 {
        ready
    } else if doomed(slots[ready.last() as int], plugin_id) {
        queue_purged(ready.drop_last(), slots, plugin_id)
    } else {
        queue_purged(ready.drop_last(), slots, plugin_id).push(ready.last())
    }
}

/// What has to be dropped of the slots below `n`, in the order of the slots.
pub open spec fn doomed_payloads<P, W>(slots: Seq<TaskSlot<P, W>>, plugin_id: u64, n: int) -> Seq<Cleanup<P>>
    decreases n,
{
    if n <= 0 {
        Seq::empty()
    } else if doomed(slots[n - 1], plugin_id) {
        doomed_payloads(slots, plugin_id, n - 1).push(cleanup_of((n - 1) as u32, slots[n - 1]))
    } else {
        doomed_payloads(slots, plugin_id, n - 1)
    }
}

/// The executor once a plugin's tasks are cancelled.
pub open spec fn plugin_purged<P, W>(v: ExecState<P, W>, plugin_id: u64) -> ExecState<P, W> {
    ExecState {
        slots: purged(v.slots, plugin_id),
        ready: queue_purged(v.ready, v.slots, plugin_id),
        hot: match v.hot {
            Some(h) => if v.slot(h).plugin_id == plugin_id {
                None
            } else {
                Some(h)
            },
            None => None,
        },
        ..v
    }
}

proof fn lemma_queue_purged<P, W>(ready: Seq<u32>, slots: Seq<TaskSlot<P, W>>, plugin_id: u64)
    ensures
        queue_purged(ready, slots, plugin_id).len() <= ready.len(),
        forall|i: int|
            0 <= i < queue_purged(ready, slots, plugin_id).len() ==> ready.contains(
                #[trigger] queue_purged(ready, slots, plugin_id)[i],
            ),
        forall|x: u32|
            ready.contains(x) && !doomed(slots[x as int], plugin_id) ==> queue_purged(ready, slots, plugin_id).contains(x),
    decreases ready.len(),
{
    if ready.len() > 0 {
        let d = ready.drop_last();
        let q = queue_purged(d, slots, plugin_id);
        let r = queue_purged(ready, slots, plugin_id);
        lemma_queue_purged(d, slots, plugin_id);
        assert forall|i: int| 0 <= i < r.len() implies ready.contains(#[trigger] r[i]) by {
            if i < q.len() {
                assert(q[i] == r[i]);
                assert(d.contains(q[i]));
                let k = choose|k: int| 0 <= k < d.len() && d[k] == q[i];
                assert(ready[k] == r[i]);
            } else {
                assert(ready[ready.len() - 1] == r[i]);
            }
        }
        assert forall|x: u32| ready.contains(x) && !doomed(slots[x as int], plugin_id) implies r.contains(x) by {
            let k = choose|k: int| 0 <= k < ready.len() && ready[k] == x;
            if k < d.len() {
                assert(d[k] == x);
                assert(d.contains(x));
                let m = choose|m: int| 0 <= m < q.len() && q[m] == x;
                assert(r[m] == x);
            } else {
                assert(r[r.len() - 1] == x);
            }
        }
    }
}

proof fn lemma_plugin_purged_wf<P, W>(v: ExecState<P, W>, plugin_id: u64)
    requires
        v.wf(),
    ensures
        plugin_purged(v, plugin_id).wf(),
{
    let w = plugin_purged(v, plugin_id);
    lemma_queue_purged(v.ready, v.slots, plugin_id);
    assert forall|i: int| 0 <= i < w.ready.len() implies w.has(#[trigger] w.ready[i]) by {
        assert(v.ready.contains(w.ready[i]));
    }
    assert forall|i: int| 0 <= i < w.free.len() implies w.has(#[trigger] w.free[i]) && w.slot(w.free[i]).state == STATE_EMPTY by {
        assert(v.free[i] == w.free[i]);
    }
    assert forall|i: int| 0 <= i < w.slots.len() && (#[trigger] w.slots[i]).state == STATE_READY implies w.queued(i as u32) by {
        assert(w.slots[i] == v.slots[i]);
        assert(v.queued(i as u32));
        assert(!doomed(v.slots[i], plugin_id));
        if v.hot == Some(i as u32) {
            assert(v.slot(i as u32).plugin_id != plugin_id);
        }
    }
}

/// Cancels all tasks of a plugin: first half.
///
/// Hands out the payloads that have to be dropped, with the plugin as the current one; there are
/// as many as tasks were cancelled. No code of the plugin is reachable from the executor's
/// slots afterwards. `finish_drop_plugin_tasks` then frees the slots.
pub fn drop_plugin_tasks<P, W>(ex: &mut Executor<P, W>, plugin_id: u64) -> (r: Vec<Cleanup<P>>)
    requires
        old(ex)@.wf(),
    ensures
        final(ex)@.wf(),
        final(ex)@ == plugin_purged(old(ex)@, plugin_id),
        r@ == doomed_payloads(old(ex)@.slots, plugin_id, old(ex)@.slots.len() as int),
{
    let ghost v = ex@;
    proof {
        lemma_plugin_purged_wf(v, plugin_id);
    }
    // The queue first, while the slots still tell which tasks have to go.
    let n: usize = ex.ready.len();
    let mut k: usize = 0;
    proof {
        assert(v.ready.skip(0) =~= v.ready);
        assert(v.ready.take(0) =~= Seq::<u32>::empty());
        assert(v.ready + Seq::<u32>::empty() =~= v.ready);
    }
    while k < n
        invariant
            v.wf(),
            k <= n == v.ready.len(),
            ex@.ready == v.ready.skip(k as int) + queue_purged(v.ready.take(k as int), v.slots, plugin_id),
            ex@ == (ExecState { ready: ex@.ready, ..v }),
        decreases n - k,
    {
        let ghost kept = queue_purged(v.ready.take(k as int), v.slots, plugin_id);
        proof {
            assert(v.ready.take(k as int + 1).drop_last() =~= v.ready.take(k as int));
            assert(v.has(v.ready[k as int]));
        }
        if let Some(x) = ex.ready.pop_front() {
            assert(x == v.ready[k as int]);
            assert(ex@.ready =~= v.ready.skip(k as int + 1) + kept);
            let slot = ex.slot(x);
            if slot.plugin_id != plugin_id || slot.state == STATE_EMPTY || slot.state == STATE_CANCELLED {
                ex.ready.push_back(x);
                assert(ex@.ready =~= v.ready.skip(k as int + 1) + kept.push(x));
            }
        }
        k = k + 1;
    }
    proof {
        assert(v.ready.take(n as int) =~= v.ready);
        assert(ex@.ready =~= queue_purged(v.ready, v.slots, plugin_id));
    }
    if let Some(hot) = ex.hot_slot {
        if ex.slot(hot).plugin_id == plugin_id {
            ex.hot_slot = None;
        }
    }
    let ghost mid = ex@;
    let total: usize = ex.slots.len();
    let mut result: Vec<Cleanup<P>> = Vec::new();
    let mut i: usize = 0;
    while i < total
        invariant
            i <= total == v.slots.len(),
            total <= MAX_SLOTS,
            ex@ == (ExecState { slots: ex@.slots, ..mid }),
            ex@.slots.len() == v.slots.len(),
            forall|j: int| 0 <= j < i ==> #[trigger] ex@.slots[j] == purged(v.slots, plugin_id)[j],
            forall|j: int| i <= j < total ==> #[trigger] ex@.slots[j] == v.slots[j],
            result@ == doomed_payloads(v.slots, plugin_id, i as int),
        decreases total - i,
    {
        let ghost before = ex@.slots;
        let id: u32 = i as u32;
        let state: u8 = ex.slot(id).state;
        if ex.slot(id).plugin_id == plugin_id && state != STATE_EMPTY && state != STATE_CANCELLED {
            let slot = ex.slot_mut(id);
            slot.state = STATE_CANCELLED;
            slot.join_waker = None;
            let payload = slot.storage.take();
            result.push(Cleanup { id, plugin_id, complete: state == STATE_COMPLETE, payload });
            assert(ex@.slots == before.update(i as int, cancelled(before[i as int])));
        }
        i = i + 1;
    }
    assert(ex@.slots =~= purged(v.slots, plugin_id));
    result
}

/// No live task of a plugin is left once its tasks were dropped, none of them is queued, and the
/// tasks of other plugins are as they were.
pub proof fn no_task_of_a_dropped_plugin_is_left<P, W>(v: ExecState<P, W>, plugin_id: u64)
    requires
        v.wf(),
    ensures
        ({
            let w = plugin_purged(v, plugin_id);
            &&& w.slots.len() == v.slots.len()
            &&& forall|i: int| 0 <= i < w.slots.len() ==> !doomed(#[trigger] w.slots[i], plugin_id)
            &&& forall|i: int|
                0 <= i < w.slots.len() && v.slots[i].plugin_id != plugin_id ==> #[trigger] w.slots[i] == v.slots[i]
        }),
{
}

/// The slots of the dropped tasks, freed one after the other.
pub open spec fn all_freed<P, W>(v: ExecState<P, W>, ids: Seq<u32>) -> ExecState<P, W>
    decreases ids.len(),
{
    if ids.len() == 0 {
        v
    } else {
        freed(all_freed(v, ids.drop_last()), ids.last())
    }
}

/// The executor once a plugin's tasks are gone for good. If there were any, all timers are gone
/// too: the tasks that are left register theirs again when they are polled.
pub open spec fn plugin_gone<P, W>(v: ExecState<P, W>, ids: Seq<u32>) -> ExecState<P, W> {
    if ids.len() > 0 {
        ExecState { timers: Seq::empty(), ..all_freed(v, ids) }
    } else {
        v
    }
}

proof fn lemma_all_freed<P, W>(v: ExecState<P, W>, ids: Seq<u32>)
    requires
        v.wf(),
        forall|i: int| 0 <= i < ids.len() ==> v.has(#[trigger] ids[i]) && v.slot(ids[i]).state == STATE_CANCELLED,
        forall|i: int, j: int| 0 <= i < j < ids.len() ==> ids[i] != ids[j],
    ensures
        all_freed(v, ids).wf(),
        all_freed(v, ids).slots.len() == v.slots.len(),
        forall|x: u32| v.has(x) && !ids.contains(x) ==> #[trigger] all_freed(v, ids).slot(x) == v.slot(x),
    decreases ids.len(),
{
    if ids.len() > 0 {
        let d = ids.drop_last();
        assert forall|i: int| 0 <= i < d.len() implies v.has(#[trigger] d[i]) && v.slot(d[i]).state == STATE_CANCELLED by {
            assert(d[i] == ids[i]);
        }
        lemma_all_freed(v, d);
        let w = all_freed(v, d);
        assert(ids[ids.len() - 1] == ids.last());
        assert(!d.contains(ids.last())) by {
            if d.contains(ids.last()) {
                let k = choose|k: int| 0 <= k < d.len() && d[k] == ids.last();
                assert(ids[k] != ids[ids.len() - 1]);
            }
        }
        assert(w.slot(ids.last()) == v.slot(ids.last()));
        lemma_freed_wf(w, ids.last());
        assert forall|x: u32| v.has(x) && !ids.contains(x) implies #[trigger] all_freed(v, ids).slot(x) == v.slot(x) by {
            assert(!d.contains(x)) by {
                if d.contains(x) {
                    let k = choose|k: int| 0 <= k < d.len() && d[k] == x;
                    assert(ids[k] == x);
                }
            }
            assert(ids.last() != x);
            assert(w.slot(x) == v.slot(x));
        }
    }
}

/// Cancels all tasks of a plugin: second half, after the payloads have been dropped.
pub fn finish_drop_plugin_tasks<P, W>(ex: &mut Executor<P, W>, ids: &Vec<u32>)
    requires
        old(ex)@.wf(),
        forall|i: int| 0 <= i < ids@.len() ==> old(ex)@.has(#[trigger] ids@[i]) && old(ex)@.slot(ids@[i]).state == STATE_CANCELLED,
        forall|i: int, j: int| 0 <= i < j < ids@.len() ==> ids@[i] != ids@[j],
    ensures
        final(ex)@.wf(),
        final(ex)@ == plugin_gone(old(ex)@, ids@),
{
    let ghost v = ex@;
    let mut i: usize = 0;
    assert(ids@.take(0) =~= Seq::<u32>::empty());
    proof {
        lemma_all_freed(v, ids@);
    }
    while i < ids.len()
        invariant
            v == old(ex)@,
            v.wf(),
            i <= ids@.len(),
            ex@ == all_freed(v, ids@.take(i as int)),
            forall|i: int| 0 <= i < ids@.len() ==> v.has(#[trigger] ids@[i]) && v.slot(ids@[i]).state == STATE_CANCELLED,
            forall|i: int, j: int| 0 <= i < j < ids@.len() ==> ids@[i] != ids@[j],
        decreases ids.len() - i,
    {
        proof {
            let d = ids@.take(i as int);
            assert forall|k: int| 0 <= k < d.len() implies v.has(#[trigger] d[k]) && v.slot(d[k]).state == STATE_CANCELLED by {
                assert(d[k] == ids@[k]);
            }
            lemma_all_freed(v, d);
            assert(ids@.take(i as int + 1).drop_last() =~= d);
        }
        free_slot(ex, ids[i]);
        i = i + 1;
    }
    assert(ids@.take(i as int) =~= ids@);
    if ids.len() > 0 {
        ex.timers = Vec::new();
        assert(ex@.timers =~= Seq::empty());
    }
}

/// The dropped tasks' slots can be freed: their ids are slots of their own, all cancelled.
pub proof fn dropped_tasks_can_be_freed<P, W>(v: ExecState<P, W>, plugin_id: u64, n: int)
    requires
        0 <= n <= v.slots.len() <= MAX_SLOTS,
    ensures
        ({
            let dropped = doomed_payloads(v.slots, plugin_id, n);
            let w = plugin_purged(v, plugin_id);
            &&& forall|i: int|
                0 <= i < dropped.len() ==> (#[trigger] dropped[i]).id < n && w.slot(dropped[i].id).state == STATE_CANCELLED
            &&& forall|i: int, j: int| 0 <= i < j < dropped.len() ==> dropped[i].id < dropped[j].id
        }),
    decreases n,
{
    if n > 0 {
        dropped_tasks_can_be_freed(v, plugin_id, n - 1);
    }
}

/// Numbers for debugging: live tasks, timers, length of the ready queue.
pub fn debug_stats<P, W>(ex: &Executor<P, W>) -> (r: (usize, usize, usize))
    ensures
        r.0 == live_count(ex@.slots),
        r.1 == ex@.timers.len(),
        r.2 == ex@.ready.len(),
{
    let mut count: usize = 0;
    let mut i: usize = 0;
    assert(ex@.slots.take(0) =~= Seq::empty());
    while i < ex.slots.len()
        invariant
            i <= ex.slots.len(),
            count <= i,
            count == live_count(ex@.slots.take(i as int)),
        decreases ex.slots.len() - i,
    {
        assert(ex@.slots.take(i as int + 1).drop_last() =~= ex@.slots.take(i as int));
        let state: u8 = ex.slots[i].state;
        if state != STATE_EMPTY && state != STATE_CANCELLED {
            count = count + 1;
        }
        i = i + 1;
    }
    assert(ex@.slots.take(i as int) =~= ex@.slots);
    (count, ex.timers.len(), ex.ready.len())
}

/// The number of slots that hold a task.
pub open spec fn live_count<P, W>(slots: Seq<TaskSlot<P, W>>) -> nat
    decreases slots.len(),
{
    if slots.len() == 0 {
        0
    } else {
        live_count(slots.drop_last()) + if live(slots.last()) {
            1nat
        } else {
            0nat
        }
    }
}

} // verus!
