//! The executor, its timers, the reactor and what is built on them.

use tau::runtime::executor::{
    alloc_raw, allocate_plugin_id, cancel_finish, cancel_task, clear_current_plugin, commit_spawn, current_plugin_id, debug_stats,
    detach_or_cleanup, drive_cycle, drop_plugin_tasks, finish_drop_plugin_tasks, is_task_finished, next_timer_deadline,
    pack_task_id, pack_waker_data, set_current_plugin, set_join_waker, slot_state, take_result, timer_cancel, timer_register,
    unpack_task_id, unpack_waker_data, waker_wake, DriveAction, DriveEvent, Executor, PluginIds, PollOutcome, MAX_SLOTS,
    STATE_CANCELLED, STATE_COMPLETE, STATE_EMPTY, STATE_PENDING, STATE_READY,
};
use tau::runtime::fd::{handle_of, tau_io_clear_ready, tau_io_deregister, tau_io_poll_ready, tau_io_register, AsyncFd};
use tau::runtime::join::{
    block_on, drive, init, spawn, tau_task_abort, tau_task_is_finished, BlockAction, BlockEvent, DriveRun, DriveTurn,
};
use tau::runtime::process::{drain_more, ensure_polling, tau_host_sigchld_subscribe, wake_sigchld_callback, SigchldState};
use tau::runtime::reactor::{IoEvent, Reactor, DIR_READ, DIR_WRITE, READABLE, WRITABLE};
use tau::runtime::sleep::SleepFuture;
use tau::runtime::sync::RemoteQueue;
use tau::runtime::types::{FfiWaker, WakerOp};
use tau::runtime::wait::{reset, reset_finish, tau_block_on, wait_for_task, WaitAction, WaitEvent};
use tau::tokio::poll::Poll;

fn executor() -> Executor<i32, u32> {
    let mut ex = Executor::new();
    ex.init();
    ex
}

/// Runs a cycle in which a task is done when its payload is positive. Returns what was polled, who
/// was woken, what was dropped, and whether there was work.
fn cycle(ex: &mut Executor<i32, u32>, now: u64) -> (Vec<u32>, Vec<u32>, Vec<i32>, bool) {
    let mut did_work = false;
    let (mut polled, mut woken, mut dropped) = (vec![], vec![], vec![]);
    let mut ev = DriveEvent::Begin(now);
    loop {
        match drive_cycle(ex, &mut did_work, ev) {
            DriveAction::Wake(w) => {
                woken.extend(w);
                ev = DriveEvent::Woken;
            },
            DriveAction::Poll(t) => {
                polled.push(t.id);
                let outcome = if t.payload > 0 { PollOutcome::Ready(t.payload) } else { PollOutcome::Pending(t.payload + 1) };
                ev = DriveEvent::Polled(t.id, outcome);
            },
            DriveAction::WakeJoin(w) => {
                woken.push(w);
                ev = DriveEvent::Woken;
            },
            DriveAction::DropResult(t) => {
                dropped.push(t.payload);
                ev = DriveEvent::Dropped(t.id);
            },
            DriveAction::Done(worked) => return (polled, woken, dropped, worked),
        }
    }
}

fn start(ex: &mut Executor<i32, u32>, payload: i32, plugin_id: u64) -> (u32, u32) {
    let (id, gen) = alloc_raw(ex);
    commit_spawn(ex, id, payload, plugin_id);
    (id, gen)
}

#[test]
fn test_executor_spawn_complete() {
    let mut ex = executor();
    let (id, _) = start(&mut ex, 42, 0);
    let (_, _, _, did_work) = cycle(&mut ex, 0);
    assert!(did_work, "should have done work");
    let (state, _) = slot_state(&ex, id);
    assert_eq!(state, 3, "should be STATE_COMPLETE");
    assert_eq!(take_result(&mut ex, id), Some(42));
    assert_eq!(slot_state(&ex, id).0, STATE_EMPTY);
}

#[test]
fn test_executor_timer() {
    let mut ex = executor();
    let now = 5_000_000_000;
    let handle = timer_register(&mut ex, now + 10_000_000, 1, 0);
    assert_ne!(handle, 0);
    let next = next_timer_deadline(&ex, now);
    assert!(next.is_some());
    assert!(next.unwrap() <= 15_000_000);
    assert_eq!(next, Some(10_000_000));
    timer_cancel(&mut ex, handle);
    assert_eq!(next_timer_deadline(&ex, now), None);
}

#[test]
fn test_plugin_id_allocation() {
    let mut ids = PluginIds::new();
    let id1 = allocate_plugin_id(&mut ids);
    let id2 = allocate_plugin_id(&mut ids);
    let id3 = allocate_plugin_id(&mut ids);
    assert_ne!(id1, id2);
    assert_ne!(id2, id3);
    assert_ne!(id1, id3);
    assert!(id2 == id1 + 1 || id2 > id1);
    assert!(id3 == id2 + 1 || id3 > id2);
    assert_eq!(id1, 1);
}

#[test]
fn test_current_plugin() {
    let mut ids = PluginIds::new();
    assert_eq!(current_plugin_id(&ids), 0);
    set_current_plugin(&mut ids, 42);
    assert_eq!(current_plugin_id(&ids), 42);
    clear_current_plugin(&mut ids);
    assert_eq!(current_plugin_id(&ids), 0);
}

#[test]
fn test_reactor_register_deregister() {
    let mut reactor: Reactor<u32> = Reactor::new();
    let watch = reactor.register(5, 0b01);
    assert!(watch.readable && !watch.writable);
    let handle = tau_io_register(&mut reactor, watch, 0b01, true);
    assert_ne!(handle, 0, "register should return non-zero handle");
    assert_eq!(tau_io_deregister(&mut reactor, handle), Some(5));
    assert_eq!(reactor.deregister(watch.token), None);
    let failed = reactor.register(6, 0b01);
    assert_eq!(tau_io_register(&mut reactor, failed, 0b01, false), 0);
}

#[test]
fn test_reactor_poll_ready_immediate() {
    let mut reactor: Reactor<u32> = Reactor::new();
    let watch = reactor.register(5, 0b01);
    let handle = tau_io_register(&mut reactor, watch, 0b01, true);
    assert_ne!(handle, 0);
    let (wakers, again) = reactor.poll(&vec![IoEvent { key: watch.token, readable: true, writable: false }]);
    assert!(wakers.is_empty());
    assert_eq!(again.len(), 1);
    let ready = tau_io_poll_ready(&mut reactor, handle, 0, 1);
    assert_eq!(ready, 1, "should be ready after data written");
    tau_io_clear_ready(&mut reactor, handle, 0);
    assert_eq!(tau_io_poll_ready(&mut reactor, handle, 0, 1), 0);
    assert_eq!(tau_io_deregister(&mut reactor, handle), Some(5));
}

#[test]
fn remote_queue_sequential() {
    let mut queue = RemoteQueue::new();
    queue.push(1);
    queue.push(2);
    assert_eq!(queue.pop(), Some(1));
    assert_eq!(queue.pop(), Some(2));
    assert_eq!(queue.pop(), None);
}

fn drain(queue: &mut RemoteQueue) -> Vec<u32> {
    let mut items = vec![];
    while let Some(v) = queue.pop() {
        items.push(v);
    }
    items.sort();
    items
}

#[test]
fn remote_queue_push_then_pop() {
    let mut queue = RemoteQueue::new();
    queue.push(42);
    queue.push(43);
    assert_eq!(drain(&mut queue), vec![42, 43]);
}

#[test]
fn remote_queue_concurrent_pushes() {
    for order in [[1, 2], [2, 1]] {
        let mut queue = RemoteQueue::new();
        queue.push(order[0]);
        queue.push(order[1]);
        assert_eq!(drain(&mut queue), vec![1, 2]);
    }
}

#[test]
fn remote_queue_push_pop_interleaved() {
    for pop_first in [true, false] {
        let mut queue = RemoteQueue::new();
        let mut first_pop = None;
        if pop_first {
            first_pop = queue.pop();
        }
        queue.push(1);
        if !pop_first {
            first_pop = queue.pop();
        }
        let remaining = drain(&mut queue);
        match first_pop {
            Some(1) => assert!(remaining.is_empty()),
            None => assert_eq!(remaining, vec![1]),
            _ => panic!("unexpected value"),
        }
    }
}

#[test]
fn mpsc_queue() {
    for order in [[1, 2], [2, 1]] {
        let mut queue = RemoteQueue::new();
        let mut done = 0;
        for v in order {
            queue.push(v);
            done += 1;
        }
        assert_eq!(done, 2);
        assert_eq!(drain(&mut queue), vec![1, 2]);
    }
}

#[test]
fn wake_with_queue() {
    let mut queue = RemoteQueue::new();
    assert!(queue.is_empty());
    queue.push(42);
    assert!(!queue.is_empty());
    assert_eq!(queue.pop(), Some(42));
}

#[test]
fn atomic_counter_unique_ids() {
    let mut ids = PluginIds::new();
    let id1 = allocate_plugin_id(&mut ids);
    let id2 = allocate_plugin_id(&mut ids);
    assert_ne!(id1, id2);
    let mut all = vec![id1, id2];
    all.sort();
    assert_eq!(all, vec![1, 2]);
    assert_eq!(ids.next, 3);
}

#[test]
fn atomic_store_load() {
    for read_first in [true, false] {
        let mut ids = PluginIds::new();
        let mut read = 0;
        if read_first {
            read = current_plugin_id(&ids);
        }
        set_current_plugin(&mut ids, 42);
        if !read_first {
            read = current_plugin_id(&ids);
        }
        assert!(read == 0 || read == 42);
        assert_eq!(read, if read_first { 0 } else { 42 });
    }
}

#[test]
fn atomic_store_restore_pattern() {
    let mut ids = PluginIds::new();
    let outer = current_plugin_id(&ids);
    set_current_plugin(&mut ids, 1);
    let inner = current_plugin_id(&ids);
    set_current_plugin(&mut ids, 2);
    set_current_plugin(&mut ids, inner);
    assert_eq!(current_plugin_id(&ids), 1);
    set_current_plugin(&mut ids, outer);
    let final_val = current_plugin_id(&ids);
    assert!(final_val == 0 || final_val == 1 || final_val == 2);
    assert_eq!(final_val, 0);
}

#[test]
fn task_state_transitions() {
    for wake_first in [true, false] {
        let mut ex = executor();
        let (id, _) = start(&mut ex, 0, 0);
        cycle(&mut ex, 0);
        assert_eq!(slot_state(&ex, id).0, STATE_PENDING);
        if wake_first {
            waker_wake(&mut ex, id, true);
            assert_eq!(slot_state(&ex, id).0, STATE_READY);
        }
        // a second wake changes nothing
        waker_wake(&mut ex, id, true);
        cycle(&mut ex, 0);
        assert_eq!(slot_state(&ex, id).0, STATE_COMPLETE);
        // nor does one that comes too late
        waker_wake(&mut ex, id, true);
        assert_eq!(slot_state(&ex, id).0, STATE_COMPLETE);
    }
}

#[test]
fn ids_round_trip() {
    assert_eq!(pack_task_id(3, 5), 0x3_0000_0005);
    assert_eq!(unpack_task_id(0x3_0000_0005), (3, 5));
    assert_eq!(pack_waker_data(2, 7), 0x2_0000_0000_0007);
    assert_eq!(unpack_waker_data(0x2_0000_0000_0007), (2, 7));
    assert_eq!(unpack_task_id(pack_task_id(u32::MAX, u32::MAX)), (u32::MAX, u32::MAX));
    assert_eq!(unpack_waker_data(pack_waker_data(u16::MAX, u32::MAX)), (u16::MAX, u32::MAX));
}

#[test]
fn every_ready_task_is_picked() {
    let mut ex = executor();
    let ids: Vec<u32> = (0..300).map(|_| start(&mut ex, 1, 0).0).collect();
    let (polled, _, _, worked) = cycle(&mut ex, 0);
    assert!(worked);
    assert_eq!(polled.len(), 300);
    for id in &ids {
        assert!(polled.contains(id));
    }
    assert!(!cycle(&mut ex, 0).3);
    assert_eq!(ids[..3], [0, 1, 2]);
    assert_eq!(MAX_SLOTS, 16384);
}

#[test]
fn the_last_to_be_woken_runs_first() {
    let mut ex = executor();
    let (a, _) = start(&mut ex, -5, 0);
    let (b, _) = start(&mut ex, -5, 0);
    cycle(&mut ex, 0);
    waker_wake(&mut ex, a, true);
    waker_wake(&mut ex, b, true);
    assert_eq!(cycle(&mut ex, 0).0, vec![b, a]);
    // wakes from other threads come in through the queue
    waker_wake(&mut ex, a, false);
    assert_eq!(slot_state(&ex, a).0, STATE_PENDING);
    assert_eq!(cycle(&mut ex, 0).0, vec![a]);
}

#[test]
fn timers_fire_when_they_are_due() {
    let mut ex = executor();
    let first = timer_register(&mut ex, 10, 1, 0);
    let second = timer_register(&mut ex, 20, 2, 0);
    assert_eq!((first, second), (1, 2));
    // a known handle gets a new waker and keeps its deadline
    assert_eq!(timer_register(&mut ex, 99, 7, first), first);
    assert_eq!(next_timer_deadline(&ex, 0), Some(10));
    assert_eq!(debug_stats(&ex), (0, 2, 0));
    assert!(cycle(&mut ex, 9).1.is_empty());
    assert_eq!(cycle(&mut ex, 10).1, vec![7]);
    assert_eq!(cycle(&mut ex, 30).1, vec![2]);
    assert_eq!(next_timer_deadline(&ex, 0), None);
    timer_cancel(&mut ex, first);
}

#[test]
fn who_joins_is_woken() {
    let mut ex = executor();
    let (id, gen) = start(&mut ex, 1, 0);
    set_join_waker(&mut ex, id, 9);
    assert!(!is_task_finished(&ex, id, gen));
    assert_eq!(cycle(&mut ex, 0).1, vec![9]);
    assert!(is_task_finished(&ex, id, gen));
}

#[test]
fn cancelled_task_leaves_a_free_slot() {
    let mut ex = executor();
    let (id, gen) = start(&mut ex, -1, 4);
    let c = cancel_task(&mut ex, id, gen).unwrap();
    assert_eq!((c.id, c.plugin_id, c.complete, c.payload), (id, 4, false, Some(-1)));
    assert_eq!(slot_state(&ex, id).0, STATE_CANCELLED);
    assert!(cancel_task(&mut ex, id, gen).is_none());
    cancel_finish(&mut ex, id, gen);
    assert_eq!(slot_state(&ex, id).0, STATE_EMPTY);
    assert!(!cycle(&mut ex, 0).3);
    let (again, next_gen) = start(&mut ex, 1, 0);
    assert_eq!(again, id);
    assert_ne!(next_gen, gen);
}

#[test]
fn stale_ids_change_nothing() {
    let mut ex = executor();
    let (id, gen) = start(&mut ex, 1, 0);
    cycle(&mut ex, 0);
    assert_eq!(take_result(&mut ex, id), Some(1));
    let (id2, gen2) = start(&mut ex, -1, 0);
    assert_eq!(id2, id);
    assert!(cancel_task(&mut ex, id, gen).is_none());
    cancel_finish(&mut ex, id, gen);
    assert!(detach_or_cleanup(&mut ex, id, gen).is_none());
    assert_eq!(slot_state(&ex, id), (STATE_READY, gen2));
    assert!(is_task_finished(&ex, id, gen));
}

#[test]
fn detached_task_cleans_up() {
    let mut ex = executor();
    let (id, gen) = start(&mut ex, 5, 0);
    assert!(detach_or_cleanup(&mut ex, id, gen).is_none());
    let (_, _, dropped, _) = cycle(&mut ex, 0);
    assert_eq!(dropped, vec![5]);
    assert_eq!(slot_state(&ex, id).0, STATE_EMPTY);
    // a result that is there already is handed out
    let (id, gen) = start(&mut ex, 6, 0);
    cycle(&mut ex, 0);
    let c = detach_or_cleanup(&mut ex, id, gen).unwrap();
    assert_eq!((c.complete, c.payload), (true, Some(6)));
}

#[test]
fn no_task_of_a_dropped_plugin_is_left() {
    let mut ex = executor();
    let (a, _) = start(&mut ex, -1, 1);
    let (b, _) = start(&mut ex, 2, 2);
    let (c, _) = start(&mut ex, -3, 1);
    let left = drop_plugin_tasks(&mut ex, 1);
    let ids: Vec<u32> = left.iter().map(|x| x.id).collect();
    assert_eq!(ids, vec![a, c]);
    finish_drop_plugin_tasks(&mut ex, &ids);
    assert_eq!(slot_state(&ex, a).0, STATE_EMPTY);
    assert_eq!(slot_state(&ex, b).0, STATE_READY);
    assert_eq!(debug_stats(&ex).0, 1);
    assert_eq!(cycle(&mut ex, 0).0, vec![b]);
}

#[test]
fn a_task_is_waited_for() {
    let mut ex = executor();
    let (id, gen) = start(&mut ex, 0, 0);
    let packed = pack_task_id(gen, id);
    let mut drove = false;
    if packed != 0 {
        assert!(matches!(wait_for_task(&mut ex, packed, &mut drove, WaitEvent::Start, 0), WaitAction::Drive));
        let worked = cycle(&mut ex, 0).3;
        assert!(matches!(wait_for_task(&mut ex, packed, &mut drove, WaitEvent::Drove(worked), 0), WaitAction::Drive));
        assert!(matches!(wait_for_task(&mut ex, packed, &mut drove, WaitEvent::Drove(false), 0), WaitAction::Drive));
        assert!(matches!(wait_for_task(&mut ex, packed, &mut drove, WaitEvent::Drove(false), 0), WaitAction::React(10)));
        timer_register(&mut ex, 3_500_000, 1, 0);
        assert!(matches!(wait_for_task(&mut ex, packed, &mut drove, WaitEvent::Drove(false), 0), WaitAction::React(3)));
        waker_wake(&mut ex, id, true);
        cycle(&mut ex, 0);
        match wait_for_task(&mut ex, packed, &mut drove, WaitEvent::Reacted, 0) {
            WaitAction::Return(Some(c)) => assert_eq!(c.payload, Some(1)),
            _ => panic!("the task is over"),
        }
    }
    assert!(matches!(wait_for_task(&mut ex, 0, &mut drove, WaitEvent::Start, 0), WaitAction::Return(None)));
    assert!(matches!(tau_block_on(&mut ex, 0, &mut drove, WaitEvent::Start, 0), WaitAction::Return(None)));
}

#[test]
fn an_executor_is_cleared() {
    let mut ex = executor();
    let (a, _) = start(&mut ex, -1, 1);
    let (b, _) = start(&mut ex, 2, 0);
    timer_register(&mut ex, 10, 1, 0);
    let left = reset(&mut ex);
    assert_eq!(left.iter().map(|c| c.id).collect::<Vec<u32>>(), vec![a, b]);
    let mut ids = PluginIds::new();
    set_current_plugin(&mut ids, 7);
    reset_finish(&mut ex, &mut ids);
    assert_eq!(current_plugin_id(&ids), 0);
    assert_eq!(debug_stats(&ex), (0, 0, 0));
    assert_eq!(slot_state(&ex, a).0, STATE_EMPTY);
    assert!(!cycle(&mut ex, 99).3);
    assert_eq!(timer_register(&mut ex, 10, 1, 0), 1);
}

#[test]
fn no_task_outlives_a_reset() {
    let mut ex = executor();
    let (a, gen) = start(&mut ex, -1, 1);
    assert!(!is_task_finished(&ex, a, gen));
    reset(&mut ex);
    reset_finish(&mut ex, &mut PluginIds::new());
    assert!(is_task_finished(&ex, a, gen));
    let (b, next) = alloc_raw(&mut ex);
    assert_eq!((a, gen.wrapping_add(1)), (b, next));
    commit_spawn(&mut ex, b, 5, 0);
    assert!(is_task_finished(&ex, a, gen));
    assert!(!is_task_finished(&ex, b, next));
}

#[test]
fn who_waits_is_woken() {
    let mut reactor: Reactor<u8> = Reactor::new();
    let w = reactor.register(3, READABLE | WRITABLE);
    reactor.registered(w.token, 3, READABLE | WRITABLE);
    assert!(!reactor.poll_ready(w.token, DIR_READ, 1));
    assert!(!reactor.poll_ready(w.token, DIR_WRITE, 2));
    let other = IoEvent { key: 77, readable: true, writable: true };
    let nothing = IoEvent { key: w.token, readable: false, writable: false };
    let read = IoEvent { key: w.token, readable: true, writable: false };
    assert_eq!(reactor.poll(&vec![other, nothing, read, read]).0, vec![1]);
    let write = IoEvent { key: w.token, readable: false, writable: true };
    assert_eq!(reactor.poll(&vec![read, write]).0, vec![2]);
}

#[test]
fn a_result_is_taken_once() {
    let mut ex = Executor::new();
    assert!(init(&mut ex).is_ok());
    let mut ids = PluginIds::new();
    set_current_plugin(&mut ids, 3);
    let mut h = spawn(&mut ex, &ids, 8);
    assert_eq!(h.poll(&mut ex, 1), Poll::Pending);
    assert!(!h.is_finished(&ex));
    assert_eq!(cycle(&mut ex, 0).1, vec![1]);
    assert!(h.is_finished(&ex));
    assert_eq!(h.poll(&mut ex, 2), Poll::Ready(Some(8)));
    assert_eq!(h.poll(&mut ex, 2), Poll::Ready(None));
    assert!(h.release(&mut ex).is_none());
}

#[test]
fn handles_cancel_their_tasks() {
    let mut ex = executor();
    let ids = PluginIds::new();
    let mut h = spawn(&mut ex, &ids, -1);
    assert_eq!(h.cancel(&mut ex).unwrap().payload, Some(-1));
    assert!(h.cancel(&mut ex).is_none());
    assert_eq!(h.poll(&mut ex, 1), Poll::Ready(None));
    let h = spawn(&mut ex, &ids, -1);
    assert_eq!(h.abort(&mut ex).unwrap().payload, Some(-1));
    assert!(h.is_finished(&ex));
    let h = spawn(&mut ex, &ids, -1);
    let (code, c) = tau_task_abort(&mut ex, h.task_id());
    if h.task_id() != 0 {
        assert_eq!((code, c.is_some()), (1, true));
    }
    assert_eq!(tau_task_is_finished(&ex, h.task_id()), 1);
    assert_eq!(tau_task_abort(&mut ex, 0).0, 0);
    assert_eq!(tau_task_is_finished(&ex, 0), 1);
    let h = spawn(&mut ex, &ids, -1);
    assert_eq!(tau_task_is_finished(&ex, h.task_id()), 0);
    assert!(h.release(&mut ex).is_none());
}

#[test]
fn completed_tasks_are_counted() {
    let mut ex = executor();
    let ids = PluginIds::new();
    let a = spawn(&mut ex, &ids, 1);
    let b = spawn(&mut ex, &ids, 2);
    let c = spawn(&mut ex, &ids, -1);
    let mut run = DriveRun::new();
    let mut ev = DriveEvent::Begin(0);
    let mut cycles = 1;
    let n = loop {
        ev = match drive(&mut ex, &mut run, ev) {
            DriveTurn::Do(DriveAction::Poll(t)) => {
                let outcome = if t.payload < 0 { PollOutcome::Pending(t.payload) } else { PollOutcome::Ready(t.payload) };
                DriveEvent::Polled(t.id, outcome)
            },
            DriveTurn::Do(_) => DriveEvent::Woken,
            DriveTurn::Again => {
                cycles += 1;
                DriveEvent::Begin(0)
            },
            DriveTurn::Over(n) => break n,
        };
    };
    assert_eq!((n, cycles), (2, 2));
    assert!(a.is_finished(&ex) && b.is_finished(&ex) && !c.is_finished(&ex));
}

#[test]
fn finished_tasks_are_so_for_good() {
    let mut ex = executor();
    let ids = PluginIds::new();
    let a = spawn(&mut ex, &ids, 1);
    assert!(!is_task_finished(&ex, a.id, a.gen));
    cancel_task(&mut ex, a.id, a.gen);
    assert!(is_task_finished(&ex, a.id, a.gen));
    cancel_finish(&mut ex, a.id, a.gen);
    assert!(is_task_finished(&ex, a.id, a.gen));
    let b = spawn(&mut ex, &ids, 2);
    assert_eq!(b.id, a.id);
    assert!(is_task_finished(&ex, a.id, a.gen));
    assert!(!is_task_finished(&ex, b.id, b.gen));
}

#[test]
fn blocking_takes_turns() {
    let ex = executor();
    let mut drove = false;
    assert!(block_on(&ex, &mut drove, BlockEvent::Start, 0) == BlockAction::PollRoot);
    assert!(block_on(&ex, &mut drove, BlockEvent::Polled(false), 0) == BlockAction::Drive);
    assert!(block_on(&ex, &mut drove, BlockEvent::Drove(true), 0) == BlockAction::Drive);
    assert!(block_on(&ex, &mut drove, BlockEvent::Drove(false), 0) == BlockAction::PollRoot);
    assert!(block_on(&ex, &mut drove, BlockEvent::Polled(false), 0) == BlockAction::Drive);
    assert!(block_on(&ex, &mut drove, BlockEvent::Drove(false), 0) == BlockAction::React(10));
    assert!(block_on(&ex, &mut drove, BlockEvent::Reacted, 0) == BlockAction::PollRoot);
    assert!(block_on(&ex, &mut drove, BlockEvent::Polled(true), 0) == BlockAction::Return);
}

#[test]
fn sleeping_takes_a_timer() {
    let mut ex = executor();
    let mut s = SleepFuture::new(100, 50);
    assert_eq!(s.poll(&mut ex, 100, 1), Poll::Pending);
    assert_eq!(s.poll(&mut ex, 120, 2), Poll::Pending);
    assert_eq!(debug_stats(&ex).1, 1);
    assert_eq!(cycle(&mut ex, 150).1, vec![2]);
    assert_eq!(s.poll(&mut ex, 150, 3), Poll::Ready(()));
    let mut s = SleepFuture::new(150, 50);
    assert_eq!(s.poll(&mut ex, 150, 4), Poll::Pending);
    s.release(&mut ex);
    assert_eq!(debug_stats(&ex).1, 0);
}

#[test]
fn wakers_are_used_up_once() {
    let owned = FfiWaker { data: 1, wake_fn: Some(2), clone_fn: Some(3), drop_fn: Some(4) };
    let c = owned.calls(WakerOp::Clone);
    assert_eq!((c.clone, c.wake, c.drop), (Some(3), None, None));
    let c = owned.calls(WakerOp::Wake);
    assert_eq!((c.clone, c.wake, c.drop), (None, Some(2), None));
    let c = owned.calls(WakerOp::WakeByRef);
    assert_eq!((c.clone, c.wake, c.drop), (Some(3), Some(2), None));
    let c = owned.calls(WakerOp::Drop);
    assert_eq!((c.clone, c.wake, c.drop), (None, None, Some(4)));
    let c = FfiWaker::null().wake();
    assert_eq!((c.clone, c.wake, c.drop), (None, None, None));
}

#[test]
fn readiness_is_seen() {
    let mut reactor: Reactor<u32> = Reactor::new();
    let watch = AsyncFd::new(&mut reactor, 7);
    assert!(watch.readable && watch.writable);
    let fd = AsyncFd::watched(&mut reactor, 7, READABLE | WRITABLE, watch.token);
    assert_eq!((fd.as_raw_fd(), fd.handle()), (7, 1));
    assert_eq!(fd.poll_read_ready(&mut reactor, 1), Poll::Pending);
    assert_eq!(fd.poll_write_ready(&mut reactor, 2), Poll::Pending);
    let ev = IoEvent { key: watch.token, readable: true, writable: false };
    let (wakers, again) = reactor.poll(&vec![ev]);
    assert_eq!(wakers, vec![1]);
    assert_eq!((again[0].fd, again[0].token, again[0].readable, again[0].writable), (7, 1, true, true));
    assert_eq!(fd.poll_read_ready(&mut reactor, 1), Poll::Ready(Ok(())));
    assert_eq!(fd.readable().poll(&mut reactor, 1), Poll::Ready(Ok(())));
    assert_eq!(fd.writable().poll(&mut reactor, 2), Poll::Pending);
    assert_eq!(fd.poll_write_ready(&mut reactor, 2), Poll::Pending);
    // events of unknown tokens are passed over
    let (wakers, again) = reactor.poll(&vec![IoEvent { key: 99, readable: true, writable: true }]);
    assert!(wakers.is_empty() && again.is_empty());
    assert_eq!(fd.release(&mut reactor), Some(7));
    assert!(reactor.poll_ready(1, DIR_WRITE, 5));
    assert_eq!(handle_of(0), None);
    assert_eq!(handle_of(4), Some(4));
}

#[test]
fn clearing_is_seen() {
    let mut reactor: Reactor<u32> = Reactor::new();
    let watch = AsyncFd::with_interest(&mut reactor, 7, WRITABLE);
    assert!(!watch.readable && watch.writable);
    let fd = AsyncFd::watched(&mut reactor, 7, WRITABLE, watch.token);
    reactor.poll(&vec![IoEvent { key: watch.token, readable: true, writable: true }]);
    fd.clear_read_ready(&mut reactor);
    assert!(!reactor.poll_ready(watch.token, DIR_READ, 1));
    assert!(reactor.poll_ready(watch.token, DIR_WRITE, 1));
    fd.clear_write_ready(&mut reactor);
    assert_eq!(fd.poll_write_ready(&mut reactor, 2), Poll::Pending);
}

#[test]
fn children_that_exit_wake_all_who_wait() {
    let mut state = SigchldState::new();
    let mut reactor: Reactor<u32> = Reactor::new();
    let w = reactor.register(3, READABLE);
    reactor.registered(w.token, 3, READABLE);
    assert!(!ensure_polling(&mut reactor, w.token, 0));
    state.subscribe(1);
    assert!(!tau_host_sigchld_subscribe(&mut state, &mut reactor, w.token, 2, 0));
    let (wakers, _) = reactor.poll(&vec![IoEvent { key: w.token, readable: true, writable: false }]);
    assert_eq!(wakers, vec![0]);
    assert!(drain_more(1) && !drain_more(0) && !drain_more(-1));
    assert_eq!(wake_sigchld_callback(&mut state, &mut reactor, w.token, 9), vec![1, 2]);
    assert!(state.notify().is_empty());
    // the next change is noticed too
    let (wakers, _) = reactor.poll(&vec![IoEvent { key: w.token, readable: true, writable: false }]);
    assert_eq!(wakers, vec![9]);
    assert!(tau_host_sigchld_subscribe(&mut state, &mut reactor, w.token, 3, 9));
}

#[test]
fn timers_fire_once_when_due() {
    let mut ex = executor();
    timer_register(&mut ex, 10, 1, 0);
    timer_register(&mut ex, 30, 2, 0);
    timer_register(&mut ex, 20, 3, 0);
    assert!(cycle(&mut ex, 9).1.is_empty());
    assert_eq!(cycle(&mut ex, 20).1, vec![1, 3]);
    assert!(cycle(&mut ex, 20).1.is_empty());
    assert_eq!(cycle(&mut ex, u64::MAX).1, vec![2]);
    assert_eq!(debug_stats(&ex).1, 0);
}
