//! A channel that keeps only the latest value.

use vstd::prelude::*;
use crate::tokio::poll::Poll;

verus! {

/// What the two sides of a channel share. `version` counts the values that were sent.
pub struct Watch<T, W> {
    value: T,
    version: u64,
    waiters: Vec<W>,
    closed: bool,
    receivers: usize,
}

/// What a channel holds: the latest value and its version, who waits for another, whether the
/// sender is gone, and the number of receivers.
#[verifier::ext_equal]
pub struct WatchView<T, W> {
    pub value: T,
    pub version: u64,
    pub waiters: Seq<W>,
    pub closed: bool,
    pub receivers: nat,
}

impl<T, W> View for Watch<T, W> {
    type V = WatchView<T, W>;

    closed spec fn view(&self) -> WatchView<T, W> {
        WatchView {
            value: self.value,
            version: self.version,
            waiters: self.waiters@,
            closed: self.closed,
            receivers: self.receivers as nat,
        }
    }
}

impl<T, W> WatchView<T, W> {
    /// Another value has come; nobody need wait any more.
    pub open spec fn replaced(self, value: T) -> Self {
        WatchView { value, version: (self.version + 1) as u64, waiters: Seq::empty(), ..self }
    }
}

/// The side that sends.
pub struct Sender;

/// A side that receives; it has seen the value of this version.
pub struct Receiver {
    pub seen_version: u64,
}

/// The latest value.
pub struct Ref<'a, T> {
    pub value: &'a T,
}

/// The sender is gone.
#[derive(PartialEq, Eq, Structural, Clone, Copy, Debug)]
pub struct RecvError;

/// A value that could not be sent.
pub struct SendError<T>(pub T);

/// Makes a channel that holds `init`, which its receiver has not seen.
pub fn channel<T, W>(init: T) -> (r: (Sender, Receiver, Watch<T, W>))
    ensures
        r.1.seen_version == 0,
        r.2@ == (WatchView { value: init, version: 1, waiters: Seq::<W>::empty(), closed: false, receivers: 1 }),
{
    (
        Sender,
        Receiver { seen_version: 0 },
        Watch { value: init, version: 1, waiters: Vec::new(), closed: false, receivers: 1 },
    )
}

impl<T, W> Watch<T, W> {
    fn put(&mut self, value: T) -> (r: (T, Vec<W>))
        requires
            old(self)@.version < u64::MAX,
        ensures
            r.0 == old(self)@.value,
            r.1@ == old(self)@.waiters,
            final(self)@ == old(self)@.replaced(value),
    {
        let mut value = value;
        std::mem::swap(&mut self.value, &mut value);
        self.version = self.version + 1;
        let wake = self.drain();
        (value, wake)
    }

    fn drain(&mut self) -> (wake: Vec<W>)
        ensures
            wake@ == old(self)@.waiters,
            final(self)@ == (WatchView { waiters: Seq::<W>::empty(), ..old(self)@ }),
    {
        let mut wake: Vec<W> = Vec::new();
        std::mem::swap(&mut wake, &mut self.waiters);
        wake
    }
}

impl Sender {
    /// Replaces the value. All who wait are to be woken.
    pub fn send<T, W>(&self, ch: &mut Watch<T, W>, value: T) -> (r: (Result<(), SendError<T>>, Vec<W>))
        requires
            old(ch)@.version < u64::MAX,
        ensures
            r.0 == Ok::<(), SendError<T>>(()),
            r.1@ == old(ch)@.waiters,
            final(ch)@ == old(ch)@.replaced(value),
    {
        let (_, wake) = ch.put(value);
        (Ok(()), wake)
    }

    /// Replaces the value and gives the one before it back. All who wait are to be woken.
    pub fn send_replace<T, W>(&self, ch: &mut Watch<T, W>, value: T) -> (r: (T, Vec<W>))
        requires
            old(ch)@.version < u64::MAX,
        ensures
            r.0 == old(ch)@.value,
            r.1@ == old(ch)@.waiters,
            final(ch)@ == old(ch)@.replaced(value),
    {
        ch.put(value)
    }

    /// The latest value.
    pub fn borrow<'a, T, W>(&self, ch: &'a Watch<T, W>) -> (r: Ref<'a, T>)
        ensures
            *r.value == ch@.value,
    {
        Ref { value: &ch.value }
    }

    /// Another receiver, which has seen the latest value.
    pub fn subscribe<T, W>(&self, ch: &mut Watch<T, W>) -> (r: Receiver)
        requires
            old(ch)@.receivers < usize::MAX,
        ensures
            r.seen_version == old(ch)@.version,
            final(ch)@ == (WatchView { receivers: old(ch)@.receivers + 1, ..old(ch)@ }),
    {
        ch.receivers = ch.receivers + 1;
        Receiver { seen_version: ch.version }
    }

    /// A channel never counts as closed to its sender.
    pub fn is_closed(&self) -> (r: bool)
        ensures
            !r,
    {
        false
    }

    pub fn receiver_count<T, W>(&self, ch: &Watch<T, W>) -> (r: usize)
        ensures
            r == ch@.receivers,
    {
        ch.receivers
    }

    /// The sender goes. All who wait are to be woken.
    pub fn release<T, W>(self, ch: &mut Watch<T, W>) -> (wake: Vec<W>)
        ensures
            wake@ == old(ch)@.waiters,
            final(ch)@ == (WatchView { closed: true, waiters: Seq::<W>::empty(), ..old(ch)@ }),
    {
        ch.closed = true;
        ch.drain()
    }
}

impl Receiver {
    /// The latest value; it does not count as seen.
    pub fn borrow<'a, T, W>(&self, ch: &'a Watch<T, W>) -> (r: Ref<'a, T>)
        ensures
            *r.value == ch@.value,
    {
        Ref { value: &ch.value }
    }

    /// The latest value, which counts as seen.
    pub fn borrow_and_update<'a, T, W>(&mut self, ch: &'a Watch<T, W>) -> (r: Ref<'a, T>)
        ensures
            *r.value == ch@.value,
            final(self).seen_version == ch@.version,
    {
        self.seen_version = ch.version;
        Ref { value: &ch.value }
    }

    /// Waits for a value that it has not seen. A value that came before the sender went still
    /// counts.
    pub fn changed<T, W>(&mut self, ch: &mut Watch<T, W>, waker: W) -> (r: Poll<Result<(), RecvError>>)
        ensures
            if old(ch)@.version != old(self).seen_version {
                &&& r is Ready && r->Ready_0 is Ok
                &&& final(self).seen_version == old(ch)@.version
                &&& final(ch)@ == old(ch)@
            } else {
                &&& final(self).seen_version == old(self).seen_version
                &&& if old(ch)@.closed {
                    r is Ready && r->Ready_0 is Err && final(ch)@ == old(ch)@
                } else {
                    r is Pending && final(ch)@ == (WatchView { waiters: old(ch)@.waiters.push(waker), ..old(ch)@ })
                }
            },
    {
        if ch.version != self.seen_version {
            self.seen_version = ch.version;
            Poll::Ready(Ok(()))
        } else if ch.closed {
            Poll::Ready(Err(RecvError))
        } else {
            ch.waiters.push(waker);
            Poll::Pending
        }
    }

    /// Is there a value that it has not seen? An error if the sender is gone.
    pub fn has_changed<T, W>(&self, ch: &Watch<T, W>) -> (r: Result<bool, RecvError>)
        ensures
            r == if ch@.closed {
                Err::<bool, RecvError>(RecvError)
            } else {
                Ok(ch@.version != self.seen_version)
            },
    {
        if ch.closed {
            return Err(RecvError);
        }
        Ok(ch.version != self.seen_version)
    }

    /// Another receiver, which has seen what this one has.
    pub fn duplicate<T, W>(&self, ch: &mut Watch<T, W>) -> (r: Receiver)
        requires
            old(ch)@.receivers < usize::MAX,
        ensures
            r.seen_version == self.seen_version,
            final(ch)@ == (WatchView { receivers: old(ch)@.receivers + 1, ..old(ch)@ }),
    {
        ch.receivers = ch.receivers + 1;
        Receiver { seen_version: self.seen_version }
    }

    /// The receiver goes.
    pub fn release<T, W>(self, ch: &mut Watch<T, W>)
        requires
            old(ch)@.receivers > 0,
        ensures
            final(ch)@ == (WatchView { receivers: (old(ch)@.receivers - 1) as nat, ..old(ch)@ }),
    {
        ch.receivers = ch.receivers - 1;
    }
}

/// Every receiver sees that a value has come: none can have seen a version that is not there yet.
/// It is the latest value that it then finds.
pub proof fn a_new_value_is_seen<T, W>(ch: WatchView<T, W>, value: T, seen_version: u64)
    requires
        seen_version <= ch.version,
        ch.version < u64::MAX,
    ensures
        ch.replaced(value).version != seen_version,
        ch.replaced(value).value == value,
        ch.replaced(value).waiters.len() == 0,
        seen_version <= ch.replaced(value).version,
{
}

} // verus!
