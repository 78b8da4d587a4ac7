//! Values that keep their plugin loaded.

use std::sync::atomic::{AtomicUsize, Ordering};
use std::sync::Arc;
use tau::guard::{after_release, plugin_guard, GuardSlot, PluginArc, PluginBinary, PluginBox, PluginFn, PluginGuard};

fn host_guard() -> PluginGuard {
    PluginGuard::host()
}

#[test]
fn guard_ref_count() {
    let g = host_guard();
    assert_eq!(g.ref_count(), 1);
    let g2 = g.clone();
    assert_eq!(g.ref_count(), 2);
    drop(g2);
    assert_eq!(g.ref_count(), 1);
}

#[test]
fn host_guard_no_drop_fn() {
    let g = host_guard();
    assert_eq!(g.inner.unload(), None);
    drop(g);
}

#[test]
fn plugin_box_deref() {
    let b = PluginBox::new(Box::new(42u32), host_guard());
    assert_eq!(*b, 42);
}

#[test]
fn plugin_box_deref_mut() {
    let mut b = PluginBox::new(Box::new(42u32), host_guard());
    *b.as_mut() = 99;
    assert_eq!(*b, 99);
}

trait Greet: Send + Sync {
    fn greet(&self) -> &str;
}

struct Hello;

impl Greet for Hello {
    fn greet(&self) -> &str {
        "hello"
    }
}

#[test]
fn plugin_box_trait_object() {
    let b: PluginBox<dyn Greet> = PluginBox::new(Box::new(Hello), host_guard());
    assert_eq!(b.greet(), "hello");
}

#[test]
fn plugin_arc_clone_shares_data() {
    let a = PluginArc::from_value(42u32, host_guard());
    let b = a.clone();
    assert_eq!(*a, 42);
    assert_eq!(*b, 42);
}

#[test]
fn plugin_arc_trait_object() {
    let a: PluginArc<dyn Greet> = PluginArc::new(Arc::new(Hello), host_guard());
    let b = a.clone();
    assert_eq!(a.greet(), "hello");
    assert_eq!(b.greet(), "hello");
}

fn double(x: i32) -> i32 {
    x * 2
}

fn noop() {}

#[test]
fn plugin_fn_call() {
    let f = PluginFn::new(double as fn(i32) -> i32, host_guard());
    assert_eq!(f.call1(21), 42);
}

#[test]
fn plugin_fn_clone_shares_guard() {
    let f = PluginFn::new(noop as fn(), host_guard());
    let before = f.guard().ref_count();
    let g = f.clone();
    assert_eq!(f.guard().ref_count(), before + 1);
    drop(g);
    assert_eq!(f.guard().ref_count(), before);
}

#[test]
fn plugin_box_fn_once_no_args() {
    let called = Arc::new(AtomicUsize::new(0));
    let c = called.clone();
    let f = PluginBox::new(
        Box::new(move || {
            c.fetch_add(1, Ordering::SeqCst);
            42u32
        }),
        host_guard(),
    );
    assert_eq!(f.call_once(), (42, None));
    assert_eq!(called.load(Ordering::SeqCst), 1);
}

#[test]
fn plugin_box_fn_once_with_arg() {
    let f = PluginBox::new(Box::new(|s: String| s.len()), host_guard());
    assert_eq!(f.call_once1("hello".to_string()), (5, None));
}

#[test]
fn plugin_box_fn_mut_no_args() {
    let mut counter = 0u32;
    let mut f = PluginBox::new(
        Box::new(move || {
            counter += 1;
            counter
        }),
        host_guard(),
    );
    assert_eq!(f.call_mut(), 1);
    assert_eq!(f.call_mut(), 2);
    assert_eq!(f.call_mut(), 3);
}

#[test]
fn plugin_box_fn_mut_with_arg() {
    let mut sum = 0i64;
    let mut f = PluginBox::new(
        Box::new(move |x: i64| {
            sum += x;
            sum
        }),
        host_guard(),
    );
    assert_eq!(f.call_mut1(10), 10);
    assert_eq!(f.call_mut1(20), 30);
}

#[test]
fn plugin_box_fn_no_args() {
    let f = PluginBox::new(Box::new(|| "hello"), host_guard());
    assert_eq!(f.call(), "hello");
    assert_eq!(f.call(), "hello");
}

#[test]
fn plugin_box_fn_with_arg() {
    let f = PluginBox::new(Box::new(|a: i32, b: i32| a + b), host_guard());
    assert_eq!(f.call2(3, 4), 7);
    assert_eq!(f.call2(10, 20), 30);
}

#[test]
fn plugin_arc_fn_shared_call() {
    let f = PluginArc::new(Arc::new(|x: i32| x * 3), host_guard());
    let g = f.clone();
    assert_eq!(f.call1(7), 21);
    assert_eq!(g.call1(7), 21);
}

#[test]
fn boxed_closures_of_any_kind_can_be_called() {
    let f: PluginBox<Box<dyn Fn(i32, i32) -> i32>> = PluginBox::new(Box::new(Box::new(|a, b| a * b)), host_guard());
    assert_eq!(f.call2(6, 7), 42);
    let g: PluginBox<Box<dyn FnOnce(u8, u8, u8) -> u8>> = PluginBox::new(Box::new(Box::new(|a, b, c| a + b + c)), host_guard());
    assert_eq!(g.call_once3(1, 2, 3), (6, None));
    let h = PluginFn::new(|a: u8, b: u8, c: u8, d: u8| a * 1 + b * 2 + c * 3 + d * 4, host_guard());
    assert_eq!(h.call4(1, 1, 1, 1), 10);
}

#[test]
fn a_plugin_has_a_guard_once_it_is_initialized() {
    let empty = GuardSlot { guard: None };
    assert!(PluginGuard::try_current(&empty).is_none());
    let slot = GuardSlot { guard: Some(PluginGuard::new(0x1234, 7, 5)) };
    assert_eq!(PluginGuard::try_current(&slot).unwrap().plugin_id(), 5);
    assert_eq!(plugin_guard(&slot).plugin_id(), 5);
    let value = PluginBox::current(3u8, &slot);
    assert_eq!(*value, 3);
    assert_eq!(value.guard().plugin_id(), 5);
    assert_eq!(slot.guard.as_ref().unwrap().ref_count(), 2);
    let shared = PluginArc::arc_current(Arc::new(4u8), &slot);
    assert_eq!(*shared, 4);
    assert_eq!(slot.guard.as_ref().unwrap().ref_count(), 3);
    drop(value);
    drop(shared);
    assert_eq!(slot.guard.as_ref().unwrap().ref_count(), 1);
}

#[test]
fn the_last_one_unloads_the_plugin() {
    let binary = PluginBinary { handle: 0x1234, drop_fn: Some(99), plugin_id: 1 };
    assert_eq!(binary.unload(), Some((99, 0x1234)));
}

/// The function that a mock plugin is unloaded by.
const MOCK_CLOSE: u64 = 0x99;

fn mock_guard() -> PluginGuard {
    PluginGuard::new(0x1234, MOCK_CLOSE, 1)
}

#[test]
fn guard_calls_drop_fn_on_last_drop() {
    let g = mock_guard();
    let g2 = g.clone();
    // still one clone alive
    assert_eq!(g.release(), None);
    // both gone
    assert_eq!(g2.release(), Some((MOCK_CLOSE, 0x1234)));
    assert_eq!(host_guard().release(), None);
}

#[test]
fn plugin_box_keeps_plugin_alive() {
    let guard = mock_guard();
    let b = PluginBox::new(Box::new(42), guard.clone());
    // the box still holds a clone
    assert_eq!(guard.release(), None);
    assert_eq!(b.release(), Some((MOCK_CLOSE, 0x1234)));
}

#[test]
fn plugin_fn_keeps_plugin_alive() {
    fn noop() {}
    let guard = mock_guard();
    let f = PluginFn::new(noop as fn(), guard.clone());
    assert_eq!(guard.release(), None);
    assert_eq!(f.release(), Some((MOCK_CLOSE, 0x1234)));
}

#[test]
fn plugin_arc_keeps_plugin_alive() {
    let a = PluginArc::from_value(7u8, mock_guard());
    let b = a.clone();
    assert_eq!(a.release(), None);
    assert_eq!(b.release(), Some((MOCK_CLOSE, 0x1234)));
}

#[test]
fn fn_once_guard_alive_during_call() {
    let guard = mock_guard();
    let seen = guard.clone();
    let f = PluginBox::new(
        // during the call there is the guard of the box besides this one
        Box::new(move || {
            let alive = seen.ref_count() == 2;
            (alive, seen.release())
        }),
        guard.clone(),
    );
    assert_eq!(guard.release(), None);
    let ((was_alive, too_early), unload) = f.call_once();
    assert!(was_alive, "plugin should be alive during the call");
    assert_eq!(too_early, None);
    // the box is gone, and with it the last guard
    assert_eq!(unload, Some((MOCK_CLOSE, 0x1234)));
}

#[test]
fn only_the_last_unloads() {
    assert_eq!(after_release(None), None);
    assert_eq!(after_release(Some(PluginBinary { handle: 5, drop_fn: Some(6), plugin_id: 7 })), Some((6, 5)));
    assert_eq!(after_release(Some(PluginBinary { handle: 5, drop_fn: None, plugin_id: 7 })), None);
}
