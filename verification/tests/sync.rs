//! Channels, locks and the like.

use tau::tokio::poll::Poll;
use tau::tokio::sync::mpsc;
use tau::tokio::sync::mpsc::{SendError, TryRecvError, TrySendError};
use tau::tokio::sync::mutex::Mutex;
use tau::tokio::sync::notify::Notify;
use tau::tokio::sync::oneshot;
use tau::tokio::sync::rwlock::RwLock;
use tau::tokio::sync::semaphore::{Semaphore, TryAcquireError};
use tau::tokio::sync::watch;

#[test]
fn values_keep_their_order() {
    let (tx, mut rx, mut ch) = mpsc::channel::<i32, u8>(2);
    // the size of a channel is no limit
    for v in 1..=3 {
        assert!(matches!(tx.send(&mut ch, v), (Ok(()), None)));
    }
    assert_eq!(rx.try_recv(&mut ch), Ok(1));
    assert!(matches!(tx.try_send(&mut ch, 4), (Ok(()), None)));
    assert_eq!(rx.poll_recv(&mut ch, 0), Poll::Ready(Some(2)));
    assert_eq!(rx.try_recv(&mut ch), Ok(3));
    assert_eq!(rx.try_recv(&mut ch), Ok(4));
    assert_eq!(rx.try_recv(&mut ch), Err(TryRecvError::Empty));
}

#[test]
fn no_wake_up_is_lost() {
    let (tx, mut rx, mut ch) = mpsc::channel::<i32, u8>(1);
    assert_eq!(rx.poll_recv(&mut ch, 7), Poll::Pending);
    assert!(matches!(tx.send(&mut ch, 1), (Ok(()), Some(7))));
    assert!(matches!(tx.send(&mut ch, 2), (Ok(()), None)));
    assert_eq!(rx.poll_recv(&mut ch, 8), Poll::Ready(Some(1)));
    assert_eq!(rx.poll_recv(&mut ch, 8), Poll::Ready(Some(2)));
    assert_eq!(rx.poll_recv(&mut ch, 9), Poll::Pending);
    let other = tx.duplicate(&mut ch);
    assert_eq!(tx.release(&mut ch), None);
    assert_eq!(other.release(&mut ch), Some(9));
    assert_eq!(rx.poll_recv(&mut ch, 9), Poll::Ready(None));
    assert_eq!(rx.try_recv(&mut ch), Err(TryRecvError::Disconnected));
}

#[test]
fn closing_keeps_what_was_sent() {
    let (tx, mut rx, mut ch) = mpsc::channel::<i32, u8>(1);
    assert!(tx.send(&mut ch, 1).0.is_ok());
    rx.close(&mut ch);
    assert!(tx.is_closed(&ch));
    assert!(matches!(tx.send(&mut ch, 2), (Err(SendError(2)), None)));
    assert!(matches!(tx.try_send(&mut ch, 3), (Err(TrySendError::Closed(3)), None)));
    assert!(tx.reserve(&ch).is_err());
    assert!(tx.reserve_owned(&mut ch).0.is_err());
    assert_eq!(rx.poll_recv(&mut ch, 0), Poll::Ready(Some(1)));
    assert_eq!(rx.poll_recv(&mut ch, 0), Poll::Ready(None));
    rx.release(&mut ch);
}

#[test]
fn permits_send_one_value() {
    let (tx, mut rx, mut ch) = mpsc::channel::<i32, u8>(1);
    assert_eq!(rx.poll_recv(&mut ch, 5), Poll::Pending);
    let permit = tx.reserve(&ch).ok().unwrap();
    assert_eq!(permit.send(&mut ch, 1), Some(5));
    let owned = match tx.reserve_owned(&mut ch) {
        (Ok(p), None) => p,
        _ => panic!("the channel is open"),
    };
    let (tx, wake) = owned.send(&mut ch, 2);
    assert_eq!(wake, None);
    let owned = tx.reserve_owned(&mut ch).0.ok().unwrap();
    let tx = owned.release();
    assert!(!tx.is_closed(&ch));
    assert_eq!(rx.try_recv(&mut ch), Ok(1));
    assert_eq!(rx.try_recv(&mut ch), Ok(2));
    assert_eq!(rx.try_recv(&mut ch), Err(TryRecvError::Empty));
}

#[test]
fn unbounded_channels_work_alike() {
    let (tx, mut rx, mut ch) = mpsc::unbounded_channel::<i32, u8>();
    let other = tx.duplicate(&mut ch);
    assert_eq!(rx.poll_recv(&mut ch, 1), Poll::Pending);
    assert!(matches!(other.send(&mut ch, 5), (Ok(()), Some(1))));
    assert_eq!(rx.try_recv(&mut ch), Ok(5));
    assert_eq!(other.release(&mut ch), None);
    assert_eq!(tx.release(&mut ch), None);
    assert_eq!(rx.poll_recv(&mut ch, 1), Poll::Ready(None));
    let (tx, mut rx, mut ch) = mpsc::unbounded_channel::<i32, u8>();
    rx.close(&mut ch);
    assert!(tx.is_closed(&ch));
    assert!(matches!(tx.send(&mut ch, 5), (Err(SendError(5)), None)));
    rx.release(&mut ch);
}

#[test]
fn the_value_is_received_once() {
    let (tx, mut rx, mut ch) = oneshot::channel::<i32, u8>();
    assert_eq!(rx.poll(&mut ch, 1), Poll::Pending);
    assert!(matches!(tx.send(&mut ch, 9), (Ok(()), Some(1))));
    assert_eq!(rx.poll(&mut ch, 1), Poll::Ready(Ok(9)));
    assert_eq!(rx.poll(&mut ch, 1), Poll::Ready(Err(oneshot::RecvError)));
    let (tx, mut rx, mut ch) = oneshot::channel::<i32, u8>();
    assert_eq!(rx.poll(&mut ch, 2), Poll::Pending);
    assert_eq!(tx.release(&mut ch), Some(2));
    assert_eq!(rx.poll(&mut ch, 2), Poll::Ready(Err(oneshot::RecvError)));
}

#[test]
fn a_sender_learns_that_nobody_receives() {
    let (mut tx, rx, mut ch) = oneshot::channel::<i32, u8>();
    assert!(!tx.is_closed(&ch));
    assert_eq!(tx.poll_closed(&mut ch, 3), Poll::Pending);
    assert_eq!(rx.release(&mut ch), Some(3));
    assert!(tx.is_closed(&ch));
    assert_eq!(tx.poll_closed(&mut ch, 4), Poll::Ready(()));
}

#[test]
fn those_who_wait_are_notified() {
    let mut n = Notify::new();
    let (mut a, mut b, mut c) = (n.notified(), n.notified(), n.notified());
    assert_eq!(a.poll(&mut n, 1), Poll::Pending);
    assert_eq!(b.poll(&mut n, 2), Poll::Pending);
    assert_eq!(n.notify_one(), Some(2));
    assert_eq!(a.poll(&mut n, 1), Poll::Pending);
    assert_eq!(b.poll(&mut n, 2), Poll::Ready(()));
    assert_eq!(c.poll(&mut n, 3), Poll::Pending);
    assert_eq!(n.notify_waiters(), vec![1, 3]);
    assert_eq!(a.poll(&mut n, 1), Poll::Ready(()));
    assert_eq!(c.poll(&mut n, 3), Poll::Ready(()));
    // a notification that nobody waits for is kept for the next
    assert_eq!(n.notify_one(), None);
    let mut d = n.notified();
    assert_eq!(d.poll(&mut n, 4), Poll::Ready(()));
    let mut e = n.notified();
    assert_eq!(e.poll(&mut n, 5), Poll::Pending);
    assert_eq!(n.notify_waiters(), vec![5]);
    assert!(n.notify_waiters().is_empty());
    assert_eq!(n.notified().poll(&mut n, 6), Poll::Ready(()));
}

#[test]
fn one_at_a_time() {
    let mut m: Mutex<i32, u8> = Mutex::new(1);
    let mut g = m.try_lock().ok().unwrap();
    assert!(m.try_lock().is_err());
    *g.get_mut(&mut m) = 5;
    let mut waiting = m.lock();
    assert!(matches!(waiting.poll(&mut m, 7), Poll::Pending));
    assert_eq!(g.release(&mut m), Some(7));
    let g = match waiting.poll(&mut m, 7) {
        Poll::Ready(g) => g,
        Poll::Pending => panic!("nobody holds the lock"),
    };
    assert_eq!(*g.get(&m), 5);
    assert_eq!(g.release(&mut m), None);
    *m.get_mut() += 1;
    assert_eq!(m.into_inner(), 6);
}

#[test]
fn writers_are_alone() {
    let mut l: RwLock<i32, u8> = RwLock::new(1);
    let a = l.try_read().ok().unwrap();
    let mut read = l.read();
    let b = match read.poll(&mut l, 1) {
        Poll::Ready(g) => g,
        Poll::Pending => panic!("readers share the lock"),
    };
    assert!(l.try_write().is_err());
    let mut write = l.write();
    assert!(matches!(write.poll(&mut l, 2), Poll::Pending));
    assert_eq!((*a.get(&l), *b.get(&l)), (1, 1));
    assert!(a.release(&mut l).is_empty());
    assert_eq!(b.release(&mut l), vec![2]);
    let mut w = match write.poll(&mut l, 2) {
        Poll::Ready(g) => g,
        Poll::Pending => panic!("nobody holds the lock"),
    };
    *w.get_mut(&mut l) = 8;
    assert_eq!(*w.get(&l), 8);
    assert!(l.try_read().is_err());
    assert!(matches!(read.poll(&mut l, 3), Poll::Pending));
    assert_eq!(w.release(&mut l), vec![3]);
    *l.get_mut() += 1;
    assert_eq!(l.into_inner(), 9);
}

#[test]
fn permits_are_kept() {
    let mut s: Semaphore<u8> = Semaphore::new(3);
    let a = match s.acquire() {
        Poll::Ready(Ok(p)) => p,
        _ => panic!("permits are left"),
    };
    assert_eq!(s.available_permits(), 2);
    let b = s.try_acquire_many_owned(2).ok().unwrap();
    assert_eq!(s.available_permits(), 0);
    assert!(matches!(s.acquire(), Poll::Pending));
    assert!(matches!(s.acquire_owned(), Poll::Pending));
    assert!(matches!(s.acquire_many_owned(1), Poll::Pending));
    assert!(matches!(s.try_acquire(), Err(TryAcquireError::NoPermits)));
    assert!(matches!(s.try_acquire_owned(), Err(TryAcquireError::NoPermits)));
    assert!(matches!(s.try_acquire_many_owned(1), Err(TryAcquireError::NoPermits)));
    b.release(&mut s);
    a.release(&mut s);
    assert_eq!(s.available_permits(), 3);
    s.add_permits(2);
    assert_eq!(s.available_permits(), 5);
    assert!(s.close().is_empty());
    assert!(!s.is_closed());
    assert!(s.try_acquire().is_ok());
}

#[test]
fn a_new_value_is_seen() {
    let (tx, mut rx, mut ch) = watch::channel::<i32, u8>(1);
    assert_eq!(*rx.borrow(&ch).value, 1);
    // the first receiver has not seen the value that the channel starts with
    assert_eq!(rx.has_changed(&ch), Ok(true));
    assert_eq!(rx.changed(&mut ch, 4), Poll::Ready(Ok(())));
    assert_eq!(rx.changed(&mut ch, 4), Poll::Pending);
    let mut other = tx.subscribe(&mut ch);
    let third = rx.duplicate(&mut ch);
    assert_eq!(tx.receiver_count(&ch), 3);
    let (sent, wake) = tx.send(&mut ch, 2);
    assert!(sent.is_ok());
    assert_eq!(wake, vec![4]);
    assert_eq!(rx.has_changed(&ch), Ok(true));
    assert_eq!(rx.changed(&mut ch, 4), Poll::Ready(Ok(())));
    assert_eq!(rx.has_changed(&ch), Ok(false));
    assert_eq!(*other.borrow_and_update(&ch).value, 2);
    assert_eq!(other.has_changed(&ch), Ok(false));
    assert_eq!(third.has_changed(&ch), Ok(true));
    third.release(&mut ch);
    assert_eq!(tx.receiver_count(&ch), 2);
    assert_eq!(tx.send_replace(&mut ch, 3).0, 2);
    assert_eq!(*tx.borrow(&ch).value, 3);
    assert!(!tx.is_closed());
    // a value that came before the sender went still counts
    assert!(tx.release(&mut ch).is_empty());
    assert_eq!(rx.has_changed(&ch), Err(watch::RecvError));
    assert_eq!(rx.changed(&mut ch, 5), Poll::Ready(Ok(())));
    assert_eq!(rx.changed(&mut ch, 5), Poll::Ready(Err(watch::RecvError)));
}
