//! Bounded channels whose receiving side is a stream.

use vstd::prelude::*;
use crate::runtime::streams;
use crate::runtime::streams::{
    tau_stream_close, tau_stream_create, tau_stream_drop, tau_stream_poll_flush, tau_stream_poll_next, tau_stream_push, Ended,
    StreamModel, Streams, FLUSH_CLOSED, FLUSH_PENDING, NEXT_PENDING, NEXT_READY, PUSH_FULL, PUSH_OK,
};
use crate::tokio::poll::Poll;

verus! {

/// The side that sends.
pub struct StreamSender {
    pub handle: u64,
}

/// The side that receives.
pub struct StreamReceiver {
    pub handle: u64,
}

/// What came of a push.
#[derive(Clone, Copy, PartialEq, Eq, Structural, Debug)]
pub enum PushResult {
    /// The item was taken.
    Accepted,
    /// There is no room.
    Full,
    /// The receiver is gone.
    Closed,
}

/// Makes a channel for `capacity` items, one at least.
pub fn channel<T, W>(all: &mut Streams<T, W>, capacity: u32) -> (r: (StreamSender, StreamReceiver))
    requires
        old(all).wf(),
        old(all).next_handle() < u64::MAX,
    ensures
        final(all).wf(),
        r.0.handle == old(all).next_handle(),
        r.1.handle == old(all).next_handle(),
        final(all).next_handle() == old(all).next_handle() + 1,
        final(all).at() == old(all).at().insert(
            r.0.handle,
            streams::fresh_stream::<T, W>(
                if capacity == 0 {
                    1
                } else {
                    capacity as nat
                },
            ),
        ),
{
    let handle: u64 = tau_stream_create(all, capacity);
    (StreamSender { handle }, StreamReceiver { handle })
}

impl StreamSender {
    /// Pushes an item if there is room and a receiver; else it comes back with the reason. Who
    /// waits for it is to be woken.
    pub fn push<T, W>(&self, all: &mut Streams<T, W>, value: T) -> (r: (Result<(), (PushResult, T)>, Option<W>))
        requires
            old(all).wf(),
        ensures
            final(all).wf(),
            final(all).next_handle() == old(all).next_handle(),
            ({
                let at = old(all).at();
                let s = at[self.handle];
                if !at.dom().contains(self.handle) || s.receiver_dropped {
                    &&& r == (Err::<(), (PushResult, T)>((PushResult::Closed, value)), None::<W>)
                    &&& final(all).at() == at
                } else if s.items.len() >= s.capacity {
                    &&& r == (Err::<(), (PushResult, T)>((PushResult::Full, value)), None::<W>)
                    &&& final(all).at() == at
                } else {
                    &&& r == (Ok::<(), (PushResult, T)>(()), s.receiver_waker)
                    &&& final(all).at() == at.insert(
                        self.handle,
                        StreamModel { items: s.items.push(value), receiver_waker: None, ..s },
                    )
                }
            }),
    {
        let pushed = tau_stream_push(all, self.handle, value);
        match pushed.rejected {
            None => (Ok(()), pushed.wake),
            Some(v) => if pushed.code == PUSH_FULL {
                (Err((PushResult::Full, v)), None)
            } else {
                (Err((PushResult::Closed, v)), None)
            },
        }
    }

    /// Sends an item, waiting for room. It is sent at once if there is.
    pub fn send<T, W>(&self, all: &mut Streams<T, W>, value: T) -> (r: (Result<bool, SendFuture<T>>, Option<W>))
        requires
            old(all).wf(),
        ensures
            final(all).wf(),
            final(all).next_handle() == old(all).next_handle(),
            ({
                let at = old(all).at();
                let s = at[self.handle];
                if !at.dom().contains(self.handle) || s.receiver_dropped {
                    r == (Ok::<bool, SendFuture<T>>(false), None::<W>) && final(all).at() == at
                } else if s.items.len() >= s.capacity {
                    &&& r == (Err::<bool, SendFuture<T>>(SendFuture { handle: self.handle, value: Some(value) }), None::<W>)
                    &&& final(all).at() == at
                } else {
                    &&& r == (Ok::<bool, SendFuture<T>>(true), s.receiver_waker)
                    &&& final(all).at() == at.insert(
                        self.handle,
                        StreamModel { items: s.items.push(value), receiver_waker: None, ..s },
                    )
                }
            }),
    {
        match self.push(all, value) {
            (Ok(()), wake) => (Ok(true), wake),
            (Err((PushResult::Full, v)), wake) => (Err(SendFuture { handle: self.handle, value: Some(v) }), wake),
            (Err(_), wake) => (Ok(false), wake),
        }
    }

    /// Nothing more will come. What was pushed can still be received.
    pub fn close<T, W>(self, all: &mut Streams<T, W>) -> (r: Ended<T, W>)
        requires
            old(all).wf(),
        ensures
            final(all).wf(),
            final(all).next_handle() == old(all).next_handle(),
            ({
                let at = old(all).at();
                let s = at[self.handle];
                if !at.dom().contains(self.handle) {
                    final(all).at() == at && r.wake is None && r.dropped@.len() == 0
                } else if s.receiver_dropped {
                    final(all).at() == at.remove(self.handle) && r.wake == s.receiver_waker && r.dropped@ == s.items
                } else {
                    &&& r.wake == s.receiver_waker
                    &&& r.dropped@.len() == 0
                    &&& final(all).at() == at.insert(
                        self.handle,
                        StreamModel { sender_closed: true, receiver_waker: None, ..s },
                    )
                }
            }),
    {
        tau_stream_close(all, self.handle)
    }
}

/// An item that waits for room.
pub struct SendFuture<T> {
    pub handle: u64,
    pub value: Option<T>,
}

impl<T> SendFuture<T> {
    /// Sends the item once there is room: true if it was sent, false if the receiver is gone.
    pub fn poll<W>(&mut self, all: &mut Streams<T, W>, waker: W) -> (r: (Poll<bool>, Option<W>))
        requires
            old(all).wf(),
            old(self).value is Some,
        ensures
            final(all).wf(),
            final(all).next_handle() == old(all).next_handle(),
            final(self).handle == old(self).handle,
            ({
                let at = old(all).at();
                let s = at[old(self).handle];
                if !at.dom().contains(old(self).handle) || s.receiver_dropped {
                    r == (Poll::Ready(false), None::<W>) && final(all).at() == at && final(self).value == old(self).value
                } else if s.items.len() < s.capacity {
                    &&& r == (Poll::Ready(true), s.receiver_waker)
                    &&& final(self).value is None
                    &&& final(all).at() == at.insert(
                        old(self).handle,
                        StreamModel { items: s.items.push(old(self).value->0), receiver_waker: None, ..s },
                    )
                } else {
                    &&& r == (Poll::<bool>::Pending, None::<W>)
                    &&& final(self).value == old(self).value
                    &&& final(all).at() == at.insert(old(self).handle, StreamModel { sender_waker: Some(waker), ..s })
                }
            }),
    {
        let status: u8 = tau_stream_poll_flush(all, self.handle, waker);
        if status == FLUSH_PENDING {
            return (Poll::Pending, None);
        }
        if status == FLUSH_CLOSED {
            return (Poll::Ready(false), None);
        }
        match self.value.take() {
            Some(v) => {
                let pushed = tau_stream_push(all, self.handle, v);
                (Poll::Ready(pushed.code == PUSH_OK), pushed.wake)
            },
            None => (Poll::Pending, None),
        }
    }
}

impl StreamReceiver {
    /// The next item; none when all has been received and the sender is gone. A sender that waits
    /// for room is to be woken.
    pub fn poll_next<T, W>(&mut self, all: &mut Streams<T, W>, waker: W) -> (r: (Poll<Option<T>>, Option<W>))
        requires
            old(all).wf(),
        ensures
            final(all).wf(),
            final(all).next_handle() == old(all).next_handle(),
            final(self).handle == old(self).handle,
            ({
                let at = old(all).at();
                let s = at[old(self).handle];
                if !at.dom().contains(old(self).handle) {
                    r == (Poll::Ready(None::<T>), None::<W>) && final(all).at() == at
                } else if s.items.len() > 0 {
                    &&& r == (Poll::Ready(Some(s.items[0])), s.sender_waker)
                    &&& final(all).at() == at.insert(
                        old(self).handle,
                        StreamModel { items: s.items.drop_first(), sender_waker: None, ..s },
                    )
                } else if s.sender_closed {
                    r == (Poll::Ready(None::<T>), None::<W>) && final(all).at() == at
                } else {
                    &&& r == (Poll::<Option<T>>::Pending, None::<W>)
                    &&& final(all).at() == at.insert(old(self).handle, StreamModel { receiver_waker: Some(waker), ..s })
                }
            }),
    {
        let polled = tau_stream_poll_next(all, self.handle, waker);
        if polled.code == NEXT_PENDING {
            (Poll::Pending, polled.wake)
        } else if polled.code == NEXT_READY {
            (Poll::Ready(polled.item), polled.wake)
        } else {
            (Poll::Ready(None), polled.wake)
        }
    }

    /// The receiver goes; what has not been received goes with it once the sender is gone too.
    pub fn release<T, W>(self, all: &mut Streams<T, W>) -> (r: Ended<T, W>)
        requires
            old(all).wf(),
        ensures
            final(all).wf(),
            final(all).next_handle() == old(all).next_handle(),
            ({
                let at = old(all).at();
                let s = at[self.handle];
                if !at.dom().contains(self.handle) {
                    final(all).at() == at && r.wake is None && r.dropped@.len() == 0
                } else if s.sender_closed {
                    final(all).at() == at.remove(self.handle) && r.wake == s.sender_waker && r.dropped@ == s.items
                } else {
                    &&& r.wake == s.sender_waker
                    &&& r.dropped@.len() == 0
                    &&& final(all).at() == at.insert(
                        self.handle,
                        StreamModel { receiver_dropped: true, sender_waker: None, ..s },
                    )
                }
            }),
    {
        tau_stream_drop(all, self.handle)
    }
}

} // verus!
