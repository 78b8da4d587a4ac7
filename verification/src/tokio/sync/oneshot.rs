//! A channel for a single value.

use vstd::prelude::*;
use crate::tokio::poll::Poll;

verus! {

/// What the two sides of a channel share.
#[verifier::ext_equal]
pub struct Inner<T, W> {
    pub value: Option<T>,
    /// Who waits for the value.
    pub waker: Option<W>,
    pub sender_alive: bool,
    pub receiver_alive: bool,
    /// Who waits for the receiver to go.
    pub closed_waker: Option<W>,
}

impl<T, W> Inner<T, W> {
    /// A receiver that waits has nothing to receive and someone to wait for; a sender that waits
    /// for the receiver to go waits for one that is there.
    pub open spec fn wf(self) -> bool {
        &&& self.waker is Some ==> self.value is None && self.sender_alive
        &&& self.closed_waker is Some ==> self.receiver_alive
    }

    /// The value has been sent, and the sender is gone.
    pub open spec fn sent(self, value: T) -> Self {
        Inner { value: Some(value), waker: None, sender_alive: false, ..self }
    }

    /// The sender is gone without a value.
    pub open spec fn given_up(self) -> Self {
        Inner { waker: None, sender_alive: false, ..self }
    }

    /// What the receiver gets, and what is left.
    pub open spec fn polled(self, waker: W) -> (Self, Poll<Result<T, RecvError>>) {
        match self.value {
            Some(v) => (Inner { value: None, ..self }, Poll::Ready(Ok(v))),
            None => if !self.sender_alive {
                (self, Poll::Ready(Err(RecvError)))
            } else {
                (Inner { waker: Some(waker), ..self }, Poll::Pending)
            },
        }
    }
}

/// The side that sends.
pub struct Sender;

/// The side that receives.
pub struct Receiver;

/// The sender is gone, and no value came.
#[derive(PartialEq, Eq, Structural, Clone, Copy, Debug)]
pub struct RecvError;

/// Makes a channel.
pub fn channel<T, W>() -> (r: (Sender, Receiver, Inner<T, W>))
    ensures
        r.2 == (Inner::<T, W> {
            value: None,
            waker: None,
            sender_alive: true,
            receiver_alive: true,
            closed_waker: None,
        }),
        r.2.wf(),
{
    (
        Sender,
        Receiver,
        Inner { value: None, waker: None, sender_alive: true, receiver_alive: true, closed_waker: None },
    )
}

impl Sender {
    /// Sends the value; the sender goes with it. Who waits for it is to be woken.
    pub fn send<T, W>(self, ch: &mut Inner<T, W>, value: T) -> (r: (Result<(), T>, Option<W>))
        requires
            old(ch).wf(),
        ensures
            final(ch).wf(),
            r.0 == Ok::<(), T>(()),
            r.1 == old(ch).waker,
            *final(ch) == old(ch).sent(value),
    {
        ch.value = Some(value);
        let wake = ch.waker.take();
        ch.sender_alive = false;
        (Ok(()), wake)
    }

    /// Is the receiver gone?
    pub fn is_closed<T, W>(&self, ch: &Inner<T, W>) -> (r: bool)
        ensures
            r == !ch.receiver_alive,
    {
        !ch.receiver_alive
    }

    /// Waits for the receiver to go.
    pub fn poll_closed<T, W>(&mut self, ch: &mut Inner<T, W>, waker: W) -> (r: Poll<()>)
        requires
            old(ch).wf(),
        ensures
            final(ch).wf(),
            !old(ch).receiver_alive ==> r is Ready && *final(ch) == *old(ch),
            old(ch).receiver_alive ==> r is Pending && *final(ch) == (Inner { closed_waker: Some(waker), ..*old(ch) }),
    {
        if !ch.receiver_alive {
            Poll::Ready(())
        } else {
            ch.closed_waker = Some(waker);
            Poll::Pending
        }
    }

    /// The sender goes without a value. Who waits for one is to be woken.
    pub fn release<T, W>(self, ch: &mut Inner<T, W>) -> (wake: Option<W>)
        requires
            old(ch).wf(),
        ensures
            final(ch).wf(),
            wake == old(ch).waker,
            *final(ch) == old(ch).given_up(),
    {
        ch.sender_alive = false;
        ch.waker.take()
    }
}

impl Receiver {
    /// Takes the value, or waits for it; it will not come if the sender is gone.
    pub fn poll<T, W>(&mut self, ch: &mut Inner<T, W>, waker: W) -> (r: Poll<Result<T, RecvError>>)
        requires
            old(ch).wf(),
        ensures
            final(ch).wf(),
            (*final(ch), r) == old(ch).polled(waker),
    {
        match ch.value.take() {
            Some(v) => Poll::Ready(Ok(v)),
            None => if !ch.sender_alive {
                Poll::Ready(Err(RecvError))
            } else {
                ch.waker = Some(waker);
                Poll::Pending
            },
        }
    }

    /// The receiver goes. Who waits for that is to be woken.
    pub fn release<T, W>(self, ch: &mut Inner<T, W>) -> (wake: Option<W>)
        requires
            old(ch).wf(),
        ensures
            final(ch).wf(),
            wake == old(ch).closed_waker,
            *final(ch) == (Inner { receiver_alive: false, closed_waker: None, ..*old(ch) }),
    {
        ch.receiver_alive = false;
        ch.closed_waker.take()
    }
}

/// The value that is sent is received, once; a receiver that waited for it is woken by it. If the
/// sender goes without one, the receiver learns that none will come.
pub proof fn the_value_is_received_once<T, W>(ch: Inner<T, W>, value: T, waker: W, again: W)
    requires
        ch.value is None,
        ch.sender_alive,
    ensures
        ch.polled(waker).1 is Pending,
        ch.polled(waker).0.waker == Some(waker),
        ch.sent(value).polled(waker).1 == Poll::Ready(Ok::<T, RecvError>(value)),
        ch.polled(waker).0.sent(value).polled(again).1 == Poll::Ready(Ok::<T, RecvError>(value)),
        ch.sent(value).polled(waker).0.polled(again).1 == Poll::Ready(Err::<T, RecvError>(RecvError)),
        ch.given_up().polled(waker).1 == Poll::Ready(Err::<T, RecvError>(RecvError)),
{
}

} // verus!
