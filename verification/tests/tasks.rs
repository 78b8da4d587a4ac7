//! Tasks, time and the runtime as others know it; events and resources.

use tau::event::{emit_raw, emit_str, event_text, subscribe_raw, subscribe_str};
use tau::runtime::events::{drop_plugin_events, tau_event_emit, tau_event_subscribe, tau_event_unsubscribe, EventBus};
use tau::runtime::executor::{debug_stats, drive_cycle, set_current_plugin, DriveAction, DriveEvent, Executor, PluginIds, PollOutcome};
use tau::runtime::join::{BlockAction, BlockEvent};
use tau::runtime::resources::{
    drop_plugin_resources, resource_exists, tau_resource_get, tau_resource_put, tau_resource_take, Resources,
};
use tau::runtime::streams::{
    tau_stream_close, tau_stream_create, tau_stream_drop, tau_stream_poll_flush, tau_stream_poll_next, tau_stream_push, Streams,
    FLUSH_CLOSED, FLUSH_PENDING, FLUSH_SPACE, NEXT_DONE, NEXT_PENDING, NEXT_READY, PUSH_CLOSED, PUSH_FULL, PUSH_OK,
};
use tau::stream::channel::{channel, PushResult};
use tau::tokio::poll::Poll;
use tau::tokio::runtime::{Builder, Handle};
use tau::tokio::signal::{ctrl_c, signal, SignalKind};
use tau::tokio::task::{spawn, yield_now, BlockingState, JoinSet};
use tau::tokio::time::{interval, interval_at, sleep, sleep_until, timeout, timeout_at, Elapsed, MissedTickBehavior};

fn executor() -> Executor<i32, u32> {
    let mut ex = Executor::new();
    ex.init();
    ex
}

/// Runs a cycle in which a task is done when its payload is positive. Returns who was woken.
fn cycle(ex: &mut Executor<i32, u32>, now: u64) -> Vec<u32> {
    let mut did_work = false;
    let mut woken = vec![];
    let mut ev = DriveEvent::Begin(now);
    loop {
        ev = match drive_cycle(ex, &mut did_work, ev) {
            DriveAction::Wake(w) => {
                woken.extend(w);
                DriveEvent::Woken
            },
            DriveAction::Poll(t) => {
                let outcome = if t.payload > 0 { PollOutcome::Ready(t.payload) } else { PollOutcome::Pending(t.payload) };
                DriveEvent::Polled(t.id, outcome)
            },
            DriveAction::WakeJoin(w) => {
                woken.push(w);
                DriveEvent::Woken
            },
            DriveAction::DropResult(t) => DriveEvent::Dropped(t.id),
            DriveAction::Done(_) => return woken,
        };
    }
}

#[test]
fn tasks_give_a_result_or_were_cancelled() {
    let mut ex = executor();
    let ids = PluginIds::new();
    let mut h = spawn(&mut ex, &ids, 4);
    assert!(matches!(h.poll(&mut ex, 1), Poll::Pending));
    assert_eq!(cycle(&mut ex, 0), vec![1]);
    assert!(h.is_finished(&ex));
    assert!(matches!(h.poll(&mut ex, 1), Poll::Ready(Ok(4))));
    let mut h = spawn(&mut ex, &ids, -1);
    let a = h.abort_handle();
    assert!(!a.is_finished(&ex));
    assert_eq!(a.abort(&mut ex).unwrap().payload, Some(-1));
    assert!(a.is_finished(&ex));
    assert!(h.abort(&mut ex).is_none());
    assert!(matches!(h.poll(&mut ex, 1), Poll::Ready(Err(e)) if e.is_cancelled()));
}

#[test]
fn sets_are_joined_one_by_one() {
    let mut ex = executor();
    let ids = PluginIds::new();
    let mut set = JoinSet::new();
    assert!(set.is_empty());
    assert!(matches!(set.join_next(&mut ex, 1), Poll::Ready(None)));
    set.spawn(&mut ex, &ids, -1);
    set.spawn(&mut ex, &ids, 7);
    assert_eq!(set.len(), 2);
    assert!(matches!(set.join_next(&mut ex, 1), Poll::Pending));
    assert_eq!(cycle(&mut ex, 0), vec![1]);
    assert!(matches!(set.join_next(&mut ex, 1), Poll::Ready(Some(Ok(7)))));
    assert_eq!(set.len(), 1);
    assert!(matches!(set.join_next(&mut ex, 1), Poll::Pending));
}

#[test]
fn every_task_of_a_set_gets_a_clone_of_the_waker() {
    let mut ex: Executor<i32, String> = Executor::new();
    ex.init();
    let ids = PluginIds::new();
    let mut set = JoinSet::new();
    set.spawn(&mut ex, &ids, 1);
    set.spawn(&mut ex, &ids, 2);
    assert!(matches!(set.join_next(&mut ex, "w".to_string()), Poll::Pending));
    for id in 0..2 {
        assert_eq!(ex.slot(id).join_waker.as_deref(), Some("w"));
    }
}

#[test]
fn aborted_tasks_are_over() {
    let mut ex = executor();
    let ids = PluginIds::new();
    let mut set = JoinSet::new();
    for v in [-1, -2] {
        set.spawn(&mut ex, &ids, v);
    }
    let gone: Vec<Option<i32>> = set.abort_all(&mut ex).into_iter().map(|c| c.payload).collect();
    assert_eq!(gone, vec![Some(-1), Some(-2)]);
    assert_eq!(set.len(), 2);
    assert!(matches!(set.join_next(&mut ex, 1), Poll::Ready(Some(Err(e))) if e.is_cancelled()));
    assert!(set.shutdown(&mut ex).is_empty());
    assert!(set.is_empty());
    set.spawn(&mut ex, &ids, 5);
    set.spawn(&mut ex, &ids, -5);
    cycle(&mut ex, 0);
    let left: Vec<Option<i32>> = set.detach_all(&mut ex).into_iter().map(|c| c.payload).collect();
    assert_eq!(left, vec![Some(5)]);
    assert!(set.is_empty());
}

#[test]
fn yielding_takes_one_turn() {
    let mut y = yield_now();
    assert_eq!(y.poll(), (Poll::Pending, true));
    assert_eq!(y.poll(), (Poll::Ready(()), false));
}

#[test]
fn threads_hand_their_result_over() {
    let mut s: BlockingState<i32, u8> = BlockingState::new();
    assert_eq!(s.poll(3), Poll::Pending);
    assert_eq!(s.finish(8), Some(3));
    assert_eq!(s.poll(3), Poll::Ready(8));
    let mut s: BlockingState<i32, u8> = BlockingState::new();
    assert_eq!(s.finish(9), None);
    assert_eq!(s.poll(3), Poll::Ready(9));
}

#[test]
fn sleeping_until_a_deadline() {
    let mut ex = executor();
    let mut s = sleep(100, 20);
    assert_eq!(s.deadline(), 120);
    assert!(!s.is_elapsed(119) && s.is_elapsed(120));
    assert_eq!(s.poll(&mut ex, 100, 1), Poll::Pending);
    s.reset(&mut ex, 100, 150);
    assert_eq!(debug_stats(&ex).1, 0);
    assert_eq!(s.poll(&mut ex, 120, 1), Poll::Pending);
    assert_eq!(cycle(&mut ex, 150), vec![1]);
    assert_eq!(s.poll(&mut ex, 150, 1), Poll::Ready(()));
    let mut past = sleep_until(100, 50);
    assert_eq!(past.deadline(), 50);
    assert_eq!(past.poll(&mut ex, 100, 1), Poll::Ready(()));
}

#[test]
fn what_is_late_has_elapsed() {
    let mut ex = executor();
    let mut t = timeout(0, 10, "value");
    assert_eq!(t.poll::<i32, i32, u32>(Poll::Pending, &mut ex, 5, 1), Poll::Pending);
    assert_eq!(t.poll(Poll::Ready(3), &mut ex, 20, 1), Poll::Ready(Ok(3)));
    assert_eq!(t.poll::<i32, i32, u32>(Poll::Pending, &mut ex, 10, 1), Poll::Ready(Err(Elapsed)));
    assert_eq!(*t.get_ref(), "value");
    *t.get_mut() = "other";
    assert_eq!(t.into_inner(), "other");
    let mut t = timeout_at(7, 3, ());
    assert_eq!(t.poll::<i32, i32, u32>(Poll::Pending, &mut ex, 7, 1), Poll::Ready(Err(Elapsed)));
}

#[test]
fn ticks_come_every_period() {
    let mut ex = executor();
    let mut i = interval(0, 10);
    assert_eq!(i.period(), 10);
    assert_eq!(i.poll_tick(&mut ex, 5, 1), Poll::Pending);
    assert_eq!(i.poll_tick(&mut ex, 12, 1), Poll::Ready(12));
    assert_eq!(debug_stats(&ex).1, 0);
    assert_eq!(i.poll_tick(&mut ex, 21, 1), Poll::Pending);
    i.reset(&mut ex, 21);
    assert_eq!(i.poll_tick(&mut ex, 30, 1), Poll::Pending);
    i.set_missed_tick_behavior(MissedTickBehavior);
    assert_eq!(i.poll_tick(&mut ex, 31, 1), Poll::Ready(31));
    let mut j = interval_at(5, 0, 10);
    assert_eq!(j.poll_tick(&mut ex, 5, 1), Poll::Ready(5));
}

#[test]
fn there_is_one_runtime() {
    let mut b = Builder::new_multi_thread();
    let rt = b.worker_threads(4).enable_all().enable_io().enable_time().build().ok().unwrap();
    assert!(Builder::new_current_thread().build().is_ok());
    let mut ex = executor();
    let ids = PluginIds::new();
    let h = rt.spawn(&mut ex, &ids, 1);
    let g = rt.handle().spawn(&mut ex, &ids, 2);
    assert_ne!(h.inner.id, g.inner.id);
    let mut drove = false;
    assert!(rt.block_on(&ex, &mut drove, BlockEvent::Start, 0) == BlockAction::PollRoot);
    assert!(Handle::current().block_on(&ex, &mut drove, BlockEvent::Polled(true), 0) == BlockAction::Return);
    assert!(Handle::try_current().is_ok());
    let handle = Handle::current();
    assert!(*handle.enter().handle == handle);
}

#[test]
fn signals_never_come() {
    assert_eq!(ctrl_c().poll(), Poll::Pending);
    assert_eq!(signal(SignalKind::terminate()).ok().unwrap().poll(), Poll::Pending);
    let kinds = [
        SignalKind::hangup(),
        SignalKind::interrupt(),
        SignalKind::quit(),
        SignalKind::user_defined1(),
        SignalKind::user_defined2(),
        SignalKind::terminate(),
        SignalKind::from_raw(28),
    ];
    let numbers: Vec<i32> = kinds.iter().map(|k| k.0).collect();
    assert_eq!(numbers, vec![1, 2, 3, 10, 12, 15, 28]);
}

#[test]
fn who_subscribes_is_called() {
    let mut bus: EventBus<u8> = EventBus::new();
    let a = tau_event_subscribe(&mut bus, "x", 1, 1);
    let b = tau_event_subscribe(&mut bus, "y", 2, 1);
    let c = tau_event_subscribe(&mut bus, "x", 3, 2);
    assert_eq!((a, b, c), (1, 2, 3));
    let calls = |bus: &EventBus<u8>, ch: &str| tau_event_emit(bus, ch).iter().map(|c| c.callback).collect::<Vec<u8>>();
    assert_eq!(calls(&bus, "x"), vec![1, 3]);
    assert!(calls(&bus, "z").is_empty());
    assert_eq!(tau_event_unsubscribe(&mut bus, a).unwrap().callback, 1);
    assert!(tau_event_unsubscribe(&mut bus, a).is_none());
    assert_eq!(calls(&bus, "x"), vec![3]);
}

#[test]
fn dropped_plugin_is_not_called() {
    let mut bus: EventBus<u8> = EventBus::new();
    tau_event_subscribe(&mut bus, "x", 1, 1);
    tau_event_subscribe(&mut bus, "x", 2, 2);
    tau_event_subscribe(&mut bus, "y", 3, 1);
    let gone: Vec<u8> = drop_plugin_events(&mut bus, 1).iter().map(|s| s.callback).collect();
    assert_eq!(gone, vec![1, 3]);
    assert_eq!(tau_event_emit(&bus, "x").len(), 1);
    assert!(tau_event_emit(&bus, "y").is_empty());
}

#[test]
fn text_arrives_as_it_was_sent() {
    let mut bus: EventBus<u8> = EventBus::new();
    let mut ids = PluginIds::new();
    set_current_plugin(&mut ids, 4);
    let s = subscribe_str(&mut bus, &ids, "c", 1);
    subscribe_raw(&mut bus, &ids, "c", 2);
    assert_eq!(bus.subs[0].plugin_id, 4);
    let e = emit_str(&bus, "c", "häß");
    assert_eq!(e.calls.len(), 2);
    assert_eq!(event_text(e.data), "häß");
    let e = emit_raw(&bus, "c", &[0xFF, 0xFE]);
    assert_eq!(e.data, vec![0xFF, 0xFE]);
    assert_eq!(event_text(e.data), "<invalid utf8>");
    assert_eq!(s.release(&mut bus).unwrap().callback, 1);
    assert_eq!(emit_str(&bus, "c", "").calls.len(), 1);
    assert!(tau::event::Subscription { handle: 0 }.release(&mut bus).is_none());
}

#[test]
fn what_is_put_is_got() {
    let mut t: Resources<i32> = Resources::new();
    assert_eq!(tau_resource_put(&mut t, "a", 1, 10, 1), None);
    assert_eq!(tau_resource_put(&mut t, "b", 2, 20, 2), None);
    assert_eq!(tau_resource_get(&t, "a", 10), Some(&1));
    assert_eq!(tau_resource_get(&t, "a", 11), None);
    assert_eq!(tau_resource_get(&t, "c", 10), None);
    assert_eq!(tau_resource_put(&mut t, "a", 3, 11, 1), Some(1));
    assert_eq!(tau_resource_take(&mut t, "a", 10), None);
    assert_eq!(tau_resource_take(&mut t, "a", 11), Some(3));
    assert!(!resource_exists(&t, "a") && resource_exists(&t, "b"));
}

#[test]
fn no_resource_of_a_dropped_plugin_is_left() {
    let mut t: Resources<i32> = Resources::new();
    tau_resource_put(&mut t, "a", 1, 10, 1);
    tau_resource_put(&mut t, "b", 2, 20, 2);
    tau_resource_put(&mut t, "c", 3, 10, 1);
    let gone: Vec<i32> = drop_plugin_resources(&mut t, 1).iter().map(|e| e.value).collect();
    assert_eq!(gone, vec![1, 3]);
    assert!(!resource_exists(&t, "a") && resource_exists(&t, "b") && !resource_exists(&t, "c"));
}

#[test]
fn items_keep_their_order() {
    let mut all: Streams<i32, u8> = Streams::new();
    let h = tau_stream_create(&mut all, 2);
    assert_eq!(tau_stream_poll_next(&mut all, h, 1).code, NEXT_PENDING);
    let p = tau_stream_push(&mut all, h, 10);
    assert_eq!((p.code, p.rejected, p.wake), (PUSH_OK, None, Some(1)));
    assert_eq!(tau_stream_push(&mut all, h, 11).code, PUSH_OK);
    let p = tau_stream_push(&mut all, h, 12);
    assert_eq!((p.code, p.rejected, p.wake), (PUSH_FULL, Some(12), None));
    assert_eq!(tau_stream_poll_flush(&mut all, h, 2), FLUSH_PENDING);
    let n = tau_stream_poll_next(&mut all, h, 1);
    assert_eq!((n.code, n.item, n.wake), (NEXT_READY, Some(10), Some(2)));
    assert_eq!(tau_stream_poll_flush(&mut all, h, 2), FLUSH_SPACE);
    assert_eq!(tau_stream_push(&mut all, h, 12).code, PUSH_OK);
    assert!(tau_stream_close(&mut all, h).dropped.is_empty());
    assert_eq!(tau_stream_poll_next(&mut all, h, 1).item, Some(11));
    assert_eq!(tau_stream_poll_next(&mut all, h, 1).item, Some(12));
    assert_eq!(tau_stream_poll_next(&mut all, h, 1).code, NEXT_DONE);
    assert!(tau_stream_drop(&mut all, h).dropped.is_empty());
    assert_eq!(tau_stream_poll_next(&mut all, h, 1).code, NEXT_DONE);
    assert_eq!(tau_stream_push(&mut all, h, 1).code, PUSH_CLOSED);
}

#[test]
fn a_receiver_that_goes_closes_the_stream() {
    let mut all: Streams<i32, u8> = Streams::new();
    // a stream holds at least one item
    let h = tau_stream_create(&mut all, 0);
    assert_eq!(tau_stream_push(&mut all, h, 1).code, PUSH_OK);
    assert_eq!(tau_stream_poll_flush(&mut all, h, 5), FLUSH_PENDING);
    let e = tau_stream_drop(&mut all, h);
    assert_eq!((e.wake, e.dropped), (Some(5), vec![]));
    assert_eq!(tau_stream_push(&mut all, h, 2).code, PUSH_CLOSED);
    assert_eq!(tau_stream_poll_flush(&mut all, h, 5), FLUSH_CLOSED);
    assert_eq!(tau_stream_close(&mut all, h).dropped, vec![1]);
    assert_eq!(tau_stream_poll_flush(&mut all, h, 5), FLUSH_CLOSED);
}

#[test]
fn senders_and_receivers_share_a_stream() {
    let mut all: Streams<i32, u8> = Streams::new();
    let (tx, mut rx) = channel(&mut all, 1);
    assert_eq!(rx.poll_next(&mut all, 1), (Poll::Pending, None));
    assert!(matches!(tx.push(&mut all, 1), (Ok(()), Some(1))));
    assert!(matches!(tx.push(&mut all, 2), (Err((PushResult::Full, 2)), None)));
    let mut waiting = match tx.send(&mut all, 2) {
        (Err(f), None) => f,
        _ => panic!("there is no room"),
    };
    assert_eq!(waiting.poll(&mut all, 3), (Poll::Pending, None));
    assert_eq!(rx.poll_next(&mut all, 1), (Poll::Ready(Some(1)), Some(3)));
    assert_eq!(waiting.poll(&mut all, 3), (Poll::Ready(true), None));
    assert_eq!(rx.poll_next(&mut all, 1), (Poll::Ready(Some(2)), None));
    assert!(matches!(tx.send(&mut all, 3), (Ok(true), None)));
    let mut late = match tx.send(&mut all, 4) {
        (Err(f), None) => f,
        _ => panic!("there is no room"),
    };
    assert!(rx.release(&mut all).dropped.is_empty());
    assert_eq!(late.poll(&mut all, 5), (Poll::Ready(false), None));
    assert!(matches!(tx.push(&mut all, 5), (Err((PushResult::Closed, 5)), None)));
    assert!(matches!(tx.send(&mut all, 5), (Ok(false), None)));
    assert_eq!(tx.close(&mut all).dropped, vec![3]);
}
