//! A channel with many senders and one receiver.

use std::collections::VecDeque;
use vstd::prelude::*;
use crate::tokio::poll::Poll;

verus! {

/// What the two sides of a channel share.
pub struct Channel<T, W> {
    queue: VecDeque<T>,
    capacity: usize,
    receiver_waker: Option<W>,
    sender_count: usize,
    receiver_alive: bool,
}

/// What a channel holds: the values on their way, the size it was made with, who is woken when
/// one comes, how many senders there are, and whether the receiver takes more.
#[verifier::ext_equal]
pub struct ChannelView<T, W> {
    pub queue: Seq<T>,
    pub capacity: nat,
    pub waiting: Option<W>,
    pub senders: nat,
    pub open: bool,
}

impl<T, W> ChannelView<T, W> {
    /// A receiver that waits has nothing to receive and someone to wait for: there is no wake-up
    /// that has been lost.
    pub open spec fn wf(self) -> bool {
        self.waiting is Some ==> self.queue.len() == 0 && self.senders > 0
    }

    /// A value is put behind the others, and the receiver need not wait any more.
    pub open spec fn pushed(self, value: T) -> Self {
        ChannelView { queue: self.queue.push(value), waiting: None, ..self }
    }

    /// The first value is taken.
    pub open spec fn popped(self) -> Self {
        ChannelView { queue: self.queue.skip(1), ..self }
    }

    pub open spec fn closed(self) -> Self {
        ChannelView { open: false, ..self }
    }
}

impl<T, W> View for Channel<T, W> {
    type V = ChannelView<T, W>;

    closed spec fn view(&self) -> ChannelView<T, W> {
        ChannelView {
            queue: self.queue@,
            capacity: self.capacity as nat,
            waiting: self.receiver_waker,
            senders: self.sender_count as nat,
            open: self.receiver_alive,
        }
    }
}

impl<T, W> Channel<T, W> {
    fn new(capacity: usize) -> (r: Self)
        ensures
            r@ == (ChannelView::<T, W> { queue: Seq::<T>::empty(), capacity: capacity as nat, waiting: None, senders: 1, open: true }),
    {
        Channel { queue: VecDeque::new(), capacity, receiver_waker: None, sender_count: 1, receiver_alive: true }
    }

    fn push(&mut self, value: T) -> (wake: Option<W>)
        ensures
            wake == old(self)@.waiting,
            final(self)@ == old(self)@.pushed(value),
    {
        self.queue.push_back(value);
        self.receiver_waker.take()
    }

    fn pop(&mut self) -> (r: Option<T>)
        ensures
            old(self)@.queue.len() == 0 ==> r is None && final(self)@ == old(self)@,
            old(self)@.queue.len() > 0 ==> r == Some(old(self)@.queue[0]) && final(self)@ == old(self)@.popped(),
    {
        let ghost before = self.queue@;
        let r = self.queue.pop_front();
        assert(before.len() > 0 ==> self.queue@ =~= before.skip(1));
        r
    }

    fn no_senders(&self) -> (r: bool)
        ensures
            r == (self@.senders == 0),
    {
        self.sender_count == 0
    }

    fn is_open(&self) -> (r: bool)
        ensures
            r == self@.open,
    {
        self.receiver_alive
    }

    fn wait(&mut self, waker: W)
        ensures
            final(self)@ == (ChannelView { waiting: Some(waker), ..old(self)@ }),
    {
        self.receiver_waker = Some(waker);
    }

    fn close(&mut self)
        ensures
            final(self)@ == old(self)@.closed(),
    {
        self.receiver_alive = false;
    }

    fn add_sender(&mut self)
        requires
            old(self)@.senders < usize::MAX,
        ensures
            final(self)@ == (ChannelView { senders: old(self)@.senders + 1, ..old(self)@ }),
    {
        self.sender_count = self.sender_count + 1;
    }

    fn remove_sender(&mut self) -> (wake: Option<W>)
        requires
            old(self)@.senders > 0,
        ensures
            final(self)@ == dropped_sender(old(self)@),
            wake == if old(self)@.senders == 1 {
                old(self)@.waiting
            } else {
                None
            },
    {
        self.sender_count = self.sender_count - 1;
        if self.sender_count == 0 {
            self.receiver_waker.take()
        } else {
            None
        }
    }
}

/// One sender fewer; with the last one goes the reason to wait.
pub open spec fn dropped_sender<T, W>(ch: ChannelView<T, W>) -> ChannelView<T, W> {
    ChannelView {
        senders: (ch.senders - 1) as nat,
        waiting: if ch.senders == 1 {
            None
        } else {
            ch.waiting
        },
        ..ch
    }
}

/// A value that could not be sent.
pub struct SendError<T>(pub T);

/// Why a value could not be sent.
pub enum TrySendError<T> {
    Full(T),
    Closed(T),
}

/// Why there is nothing to receive.
#[derive(PartialEq, Eq, Structural, Clone, Copy, Debug)]
pub enum TryRecvError {
    /// Nothing is there now.
    Empty,
    /// Nothing will ever come.
    Disconnected,
}

/// What a send comes to: the value is behind the others if the receiver takes more.
pub open spec fn sent<T, W>(before: ChannelView<T, W>, after: ChannelView<T, W>, value: T, wake: Option<W>) -> bool {
    if before.open {
        after == before.pushed(value) && wake == before.waiting
    } else {
        after == before && wake is None
    }
}

/// What looking for a value comes to.
pub open spec fn received<T, W>(before: ChannelView<T, W>, after: ChannelView<T, W>, r: Result<T, TryRecvError>) -> bool {
    if before.queue.len() > 0 {
        r == Ok::<T, TryRecvError>(before.queue[0]) && after == before.popped()
    } else {
        &&& after == before
        &&& r == Err::<T, TryRecvError>(
            if before.senders == 0 {
                TryRecvError::Disconnected
            } else {
                TryRecvError::Empty
            },
        )
    }
}

/// What waiting for a value comes to.
pub open spec fn awaited<T, W>(before: ChannelView<T, W>, after: ChannelView<T, W>, waker: W, r: Poll<Option<T>>) -> bool {
    if before.queue.len() > 0 {
        r == Poll::Ready(Some(before.queue[0])) && after == before.popped()
    } else if before.senders == 0 {
        r == Poll::Ready(None::<T>) && after == before
    } else {
        r == Poll::<Option<T>>::Pending && after == (ChannelView { waiting: Some(waker), ..before })
    }
}

fn take_now<T, W>(ch: &mut Channel<T, W>) -> (r: Result<T, TryRecvError>)
    ensures
        received(old(ch)@, final(ch)@, r),
{
    match ch.pop() {
        Some(v) => Ok(v),
        None => if ch.no_senders() {
            Err(TryRecvError::Disconnected)
        } else {
            Err(TryRecvError::Empty)
        },
    }
}

fn take_or_wait<T, W>(ch: &mut Channel<T, W>, waker: W) -> (r: Poll<Option<T>>)
    ensures
        awaited(old(ch)@, final(ch)@, waker, r),
{
    match ch.pop() {
        Some(v) => Poll::Ready(Some(v)),
        None => if ch.no_senders() {
            Poll::Ready(None)
        } else {
            ch.wait(waker);
            Poll::Pending
        },
    }
}

// ---------------------------------------------------------------------------
// Bounded
// ---------------------------------------------------------------------------

/// A sender.
pub struct Sender;

/// The receiver.
pub struct Receiver;

/// Makes a channel with one sender.
pub fn channel<T, W>(buffer: usize) -> (r: (Sender, Receiver, Channel<T, W>))
    ensures
        r.2@ == (ChannelView::<T, W> { queue: Seq::<T>::empty(), capacity: buffer as nat, waiting: None, senders: 1, open: true }),
{
    (Sender, Receiver, Channel::new(buffer))
}

impl Sender {
    /// Sends a value. It fails, and gives the value back, if the receiver takes no more.
    pub fn send<T, W>(&self, ch: &mut Channel<T, W>, value: T) -> (r: (Result<(), SendError<T>>, Option<W>))
        ensures
            sent(old(ch)@, final(ch)@, value, r.1),
            r.0 == if old(ch)@.open {
                Ok::<(), SendError<T>>(())
            } else {
                Err(SendError(value))
            },
    {
        if !ch.is_open() {
            return (Err(SendError(value)), None);
        }
        let wake = ch.push(value);
        (Ok(()), wake)
    }

    /// Sends a value. It fails, and gives the value back, if the receiver takes no more.
    pub fn try_send<T, W>(&self, ch: &mut Channel<T, W>, value: T) -> (r: (Result<(), TrySendError<T>>, Option<W>))
        ensures
            sent(old(ch)@, final(ch)@, value, r.1),
            r.0 == if old(ch)@.open {
                Ok::<(), TrySendError<T>>(())
            } else {
                Err(TrySendError::Closed(value))
            },
    {
        if !ch.is_open() {
            return (Err(TrySendError::Closed(value)), None);
        }
        let wake = ch.push(value);
        (Ok(()), wake)
    }

    /// Does the receiver take no more?
    pub fn is_closed<T, W>(&self, ch: &Channel<T, W>) -> (r: bool)
        ensures
            r == !ch@.open,
    {
        !ch.is_open()
    }

    /// A permit to send, which the sender becomes. There is none if the receiver takes no more;
    /// the sender is gone then.
    pub fn reserve_owned<T, W>(self, ch: &mut Channel<T, W>) -> (r: (Result<OwnedPermit, SendError<()>>, Option<W>))
        requires
            old(ch)@.senders > 0,
        ensures
            old(ch)@.open ==> r.0 is Ok && r.1 is None && final(ch)@ == old(ch)@,
            !old(ch)@.open ==> r.0 is Err && final(ch)@ == dropped_sender(old(ch)@) && r.1 == if old(ch)@.senders == 1 {
                old(ch)@.waiting
            } else {
                None
            },
    {
        if !ch.is_open() {
            let wake = ch.remove_sender();
            return (Err(SendError(())), wake);
        }
        (Ok(OwnedPermit { sender: self }), None)
    }

    /// A permit to send. There is none if the receiver takes no more.
    pub fn reserve<'a, T, W>(&'a self, ch: &Channel<T, W>) -> (r: Result<Permit<'a>, SendError<()>>)
        ensures
            r is Ok <==> ch@.open,
    {
        if !ch.is_open() {
            return Err(SendError(()));
        }
        Ok(Permit { sender: self })
    }

    /// Another sender.
    pub fn duplicate<T, W>(&self, ch: &mut Channel<T, W>) -> (r: Sender)
        requires
            old(ch)@.senders < usize::MAX,
        ensures
            final(ch)@ == (ChannelView { senders: old(ch)@.senders + 1, ..old(ch)@ }),
    {
        ch.add_sender();
        Sender
    }

    /// The sender goes. With the last one, a receiver that waits is woken.
    pub fn release<T, W>(self, ch: &mut Channel<T, W>) -> (wake: Option<W>)
        requires
            old(ch)@.senders > 0,
        ensures
            final(ch)@ == dropped_sender(old(ch)@),
            wake == if old(ch)@.senders == 1 {
                old(ch)@.waiting
            } else {
                None
            },
    {
        ch.remove_sender()
    }
}

/// A permit to send one value.
pub struct Permit<'a> {
    pub sender: &'a Sender,
}

impl<'a> Permit<'a> {
    /// Sends the value, whether the receiver takes it or not.
    pub fn send<T, W>(self, ch: &mut Channel<T, W>, value: T) -> (wake: Option<W>)
        ensures
            wake == old(ch)@.waiting,
            final(ch)@ == old(ch)@.pushed(value),
    {
        ch.push(value)
    }
}

/// A permit to send one value, which holds the sender.
pub struct OwnedPermit {
    pub sender: Sender,
}

impl OwnedPermit {
    /// Sends the value, whether the receiver takes it or not, and gives the sender back.
    pub fn send<T, W>(self, ch: &mut Channel<T, W>, value: T) -> (r: (Sender, Option<W>))
        ensures
            r.0 == self.sender,
            r.1 == old(ch)@.waiting,
            final(ch)@ == old(ch)@.pushed(value),
    {
        let wake = ch.push(value);
        (self.sender, wake)
    }

    /// Gives the sender back; nothing is sent.
    pub fn release(self) -> (r: Sender)
        ensures
            r == self.sender,
    {
        self.sender
    }
}

impl Receiver {
    /// Takes the first value, if there is one.
    pub fn try_recv<T, W>(&mut self, ch: &mut Channel<T, W>) -> (r: Result<T, TryRecvError>)
        ensures
            received(old(ch)@, final(ch)@, r),
    {
        take_now(ch)
    }

    /// Takes no more; what is on its way can still be received.
    pub fn close<T, W>(&mut self, ch: &mut Channel<T, W>)
        ensures
            final(ch)@ == old(ch)@.closed(),
    {
        ch.close();
    }

    /// Takes the first value, or waits for one. There is none any more when all senders are gone.
    pub fn poll_recv<T, W>(&mut self, ch: &mut Channel<T, W>, waker: W) -> (r: Poll<Option<T>>)
        ensures
            awaited(old(ch)@, final(ch)@, waker, r),
    {
        take_or_wait(ch, waker)
    }

    /// The receiver goes.
    pub fn release<T, W>(self, ch: &mut Channel<T, W>)
        ensures
            final(ch)@ == old(ch)@.closed(),
    {
        ch.close();
    }
}

// ---------------------------------------------------------------------------
// Unbounded
// ---------------------------------------------------------------------------

/// A sender of an unbounded channel.
pub struct UnboundedSender;

/// The receiver of an unbounded channel.
pub struct UnboundedReceiver;

/// Makes an unbounded channel with one sender.
pub fn unbounded_channel<T, W>() -> (r: (UnboundedSender, UnboundedReceiver, Channel<T, W>))
    ensures
        r.2@ == (ChannelView::<T, W> { queue: Seq::<T>::empty(), capacity: usize::MAX as nat, waiting: None, senders: 1, open: true }),
{
    (UnboundedSender, UnboundedReceiver, Channel::new(usize::MAX))
}

impl UnboundedSender {
    /// Sends a value. It fails, and gives the value back, if the receiver takes no more.
    pub fn send<T, W>(&self, ch: &mut Channel<T, W>, value: T) -> (r: (Result<(), SendError<T>>, Option<W>))
        ensures
            sent(old(ch)@, final(ch)@, value, r.1),
            r.0 == if old(ch)@.open {
                Ok::<(), SendError<T>>(())
            } else {
                Err(SendError(value))
            },
    {
        if !ch.is_open() {
            return (Err(SendError(value)), None);
        }
        let wake = ch.push(value);
        (Ok(()), wake)
    }

    /// Does the receiver take no more?
    pub fn is_closed<T, W>(&self, ch: &Channel<T, W>) -> (r: bool)
        ensures
            r == !ch@.open,
    {
        !ch.is_open()
    }

    /// Another sender.
    pub fn duplicate<T, W>(&self, ch: &mut Channel<T, W>) -> (r: UnboundedSender)
        requires
            old(ch)@.senders < usize::MAX,
        ensures
            final(ch)@ == (ChannelView { senders: old(ch)@.senders + 1, ..old(ch)@ }),
    {
        ch.add_sender();
        UnboundedSender
    }

    /// The sender goes. With the last one, a receiver that waits is woken.
    pub fn release<T, W>(self, ch: &mut Channel<T, W>) -> (wake: Option<W>)
        requires
            old(ch)@.senders > 0,
        ensures
            final(ch)@ == dropped_sender(old(ch)@),
            wake == if old(ch)@.senders == 1 {
                old(ch)@.waiting
            } else {
                None
            },
    {
        ch.remove_sender()
    }
}

impl UnboundedReceiver {
    /// Takes no more; what is on its way can still be received.
    pub fn close<T, W>(&mut self, ch: &mut Channel<T, W>)
        ensures
            final(ch)@ == old(ch)@.closed(),
    {
        ch.close();
    }

    /// Takes the first value, if there is one.
    pub fn try_recv<T, W>(&mut self, ch: &mut Channel<T, W>) -> (r: Result<T, TryRecvError>)
        ensures
            received(old(ch)@, final(ch)@, r),
    {
        take_now(ch)
    }

    /// Takes the first value, or waits for one. There is none any more when all senders are gone.
    pub fn poll_recv<T, W>(&mut self, ch: &mut Channel<T, W>, waker: W) -> (r: Poll<Option<T>>)
        ensures
            awaited(old(ch)@, final(ch)@, waker, r),
    {
        take_or_wait(ch, waker)
    }

    /// The receiver goes.
    pub fn release<T, W>(self, ch: &mut Channel<T, W>)
        ensures
            final(ch)@ == old(ch)@.closed(),
    {
        ch.close();
    }
}

// ---------------------------------------------------------------------------
// Laws
// ---------------------------------------------------------------------------

/// One use of a channel.
pub enum ChannelOp<T, W> {
    Send(T),
    /// A send by a permit, which the receiver can no longer refuse.
    SendReserved(T),
    TryRecv,
    PollRecv(W),
    Close,
    AddSender,
    DropSender,
}

/// A channel after some uses of it, the values that it took meanwhile, and those that came out.
pub open spec fn used<T, W>(ch: ChannelView<T, W>, ops: Seq<ChannelOp<T, W>>) -> (ChannelView<T, W>, Seq<T>, Seq<T>)
    decreases ops.len(),
{
    if ops.len() == 0 {
        (ch, Seq::empty(), Seq::empty())
    } else {
        let (now, went_in, came_out) = used(ch, ops.drop_last());
        match ops.last() {
            ChannelOp::Send(value) => if now.open {
                (now.pushed(value), went_in.push(value), came_out)
            } else {
                (now, went_in, came_out)
            },
            ChannelOp::SendReserved(value) => (now.pushed(value), went_in.push(value), came_out),
            ChannelOp::TryRecv => if now.queue.len() > 0 {
                (now.popped(), went_in, came_out.push(now.queue[0]))
            } else {
                (now, went_in, came_out)
            },
            ChannelOp::PollRecv(waker) => if now.queue.len() > 0 {
                (now.popped(), went_in, came_out.push(now.queue[0]))
            } else if now.senders == 0 {
                (now, went_in, came_out)
            } else {
                (ChannelView { waiting: Some(waker), ..now }, went_in, came_out)
            },
            ChannelOp::Close => (now.closed(), went_in, came_out),
            ChannelOp::AddSender => (ChannelView { senders: now.senders + 1, ..now }, went_in, came_out),
            ChannelOp::DropSender => if now.senders > 0 {
                (dropped_sender(now), went_in, came_out)
            } else {
                (now, went_in, came_out)
            },
        }
    }
}

/// Values come out in the order in which they went in, however senders and the receiver take turns:
/// nothing is lost, added or reordered.
pub proof fn values_keep_their_order<T, W>(ch: ChannelView<T, W>, ops: Seq<ChannelOp<T, W>>)
    ensures
        ({
            let (now, went_in, came_out) = used(ch, ops);
            ch.queue + went_in == came_out + now.queue
        }),
    decreases ops.len(),
{
    let (now, went_in, came_out) = used(ch, ops);
    if ops.len() == 0 {
        assert(ch.queue + went_in =~= came_out + now.queue);
    } else {
        values_keep_their_order(ch, ops.drop_last());
        let (now0, in0, out0) = used(ch, ops.drop_last());
        match ops.last() {
            ChannelOp::Send(value) | ChannelOp::SendReserved(value) => {
                assert(ch.queue + in0.push(value) =~= (ch.queue + in0).push(value));
                assert(out0 + now0.queue.push(value) =~= (out0 + now0.queue).push(value));
            },
            ChannelOp::TryRecv | ChannelOp::PollRecv(_) => {
                assert(came_out + now.queue =~= out0 + now0.queue);
            },
            _ => {},
        }
    }
}

/// No wake-up is lost: a receiver that waits has a reason to, whatever is done to the channel. When
/// the reason goes, so does the waker: it has been handed out to be woken.
pub proof fn no_wake_up_is_lost<T, W>(ch: ChannelView<T, W>, ops: Seq<ChannelOp<T, W>>)
    requires
        ch.wf(),
    ensures
        used(ch, ops).0.wf(),
    decreases ops.len(),
{
    if ops.len() > 0 {
        no_wake_up_is_lost(ch, ops.drop_last());
    }
}

/// What was sent before the receiver closed can still be received.
pub proof fn closing_keeps_what_was_sent<T, W>(ch: ChannelView<T, W>)
    ensures
        ch.closed().queue == ch.queue,
        ch.closed().senders == ch.senders,
{
}

} // verus!
