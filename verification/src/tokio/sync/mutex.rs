//! A lock that tasks wait for.

use vstd::prelude::*;
use crate::tokio::poll::Poll;

verus! {

/// A value that one at a time may use. `waiters` are those who wait for it.
pub struct Mutex<T, W> {
    locked: bool,
    waiters: Vec<W>,
    data: T,
}

/// What a lock holds: is it held, who waits, and the value.
#[verifier::ext_equal]
pub struct MutexView<T, W> {
    pub locked: bool,
    pub waiters: Seq<W>,
    pub data: T,
}

impl<T, W> View for Mutex<T, W> {
    type V = MutexView<T, W>;

    closed spec fn view(&self) -> MutexView<T, W> {
        MutexView { locked: self.locked, waiters: self.waiters@, data: self.data }
    }
}

impl<T, W> MutexView<T, W> {
    pub open spec fn acquired(self) -> Self {
        MutexView { locked: true, ..self }
    }

    /// One more waits for the lock.
    pub open spec fn waited(self, waker: W) -> Self {
        MutexView { waiters: self.waiters.push(waker), ..self }
    }

    /// The lock is free again; the one that came last need not wait any more.
    pub open spec fn released(self) -> Self {
        MutexView {
            locked: false,
            waiters: if self.waiters.len() > 0 {
                self.waiters.drop_last()
            } else {
                self.waiters
            },
            ..self
        }
    }
}

/// Someone who wants the lock.
pub struct MutexLockFuture;

/// The right to use the value.
pub struct MutexGuard {
    held: bool,
}

/// The lock is held.
#[derive(PartialEq, Eq, Structural, Clone, Copy, Debug)]
pub struct TryLockError;

impl<T, W> Mutex<T, W> {
    /// A free lock.
    pub fn new(value: T) -> (r: Self)
        ensures
            r@ == (MutexView { locked: false, waiters: Seq::<W>::empty(), data: value }),
    {
        Mutex { locked: false, waiters: Vec::new(), data: value }
    }

    pub fn into_inner(self) -> (r: T)
        ensures
            r == self@.data,
    {
        self.data
    }

    /// Someone who wants the lock.
    pub fn lock(&self) -> (r: MutexLockFuture)
        ensures
            r == MutexLockFuture,
    {
        MutexLockFuture
    }

    /// Takes the lock if it is free.
    pub fn try_lock(&mut self) -> (r: Result<MutexGuard, TryLockError>)
        ensures
            r is Ok <==> !old(self)@.locked,
            final(self)@ == if old(self)@.locked {
                old(self)@
            } else {
                old(self)@.acquired()
            },
    {
        if !self.locked {
            self.locked = true;
            Ok(MutexGuard { held: true })
        } else {
            Err(TryLockError)
        }
    }

    /// The value, for who owns the lock itself.
    pub fn get_mut(&mut self) -> (r: &mut T)
        ensures
            *r == old(self)@.data,
            final(self)@ == (MutexView { data: *final(r), ..old(self)@ }),
    {
        &mut self.data
    }

    fn unlock(&mut self) -> (wake: Option<W>)
        ensures
            final(self)@ == old(self)@.released(),
            wake == if old(self)@.waiters.len() > 0 {
                Some(old(self)@.waiters.last())
            } else {
                None
            },
    {
        self.locked = false;
        let ghost before = self.waiters@;
        let wake = self.waiters.pop();
        assert(before.len() > 0 ==> self.waiters@ =~= before.drop_last());
        wake
    }
}

impl MutexLockFuture {
    /// Takes the lock if it is free, or waits for it.
    pub fn poll<T, W>(&mut self, mutex: &mut Mutex<T, W>, waker: W) -> (r: Poll<MutexGuard>)
        ensures
            r is Ready <==> !old(mutex)@.locked,
            final(mutex)@ == if old(mutex)@.locked {
                old(mutex)@.waited(waker)
            } else {
                old(mutex)@.acquired()
            },
    {
        match mutex.try_lock() {
            Ok(guard) => Poll::Ready(guard),
            Err(_) => {
                mutex.waiters.push(waker);
                Poll::Pending
            },
        }
    }
}

impl MutexGuard {
    /// The value.
    pub fn get<'a, T, W>(&self, mutex: &'a Mutex<T, W>) -> (r: &'a T)
        requires
            mutex@.locked,
        ensures
            *r == mutex@.data,
    {
        &mutex.data
    }

    /// The value, to change it.
    pub fn get_mut<'a, T, W>(&mut self, mutex: &'a mut Mutex<T, W>) -> (r: &'a mut T)
        requires
            old(mutex)@.locked,
        ensures
            *r == old(mutex)@.data,
            final(mutex)@ == (MutexView { data: *final(r), ..old(mutex)@ }),
    {
        &mut mutex.data
    }

    /// Gives the lock back. One who waits is to be woken.
    pub fn release<T, W>(self, mutex: &mut Mutex<T, W>) -> (wake: Option<W>)
        requires
            old(mutex)@.locked,
        ensures
            final(mutex)@ == old(mutex)@.released(),
            wake == if old(mutex)@.waiters.len() > 0 {
                Some(old(mutex)@.waiters.last())
            } else {
                None
            },
    {
        mutex.unlock()
    }
}

/// One use of a lock.
pub enum MutexOp<W> {
    TryLock,
    Poll(W),
    /// One who holds the lock gives it back.
    Release,
}

/// A lock after some uses of it, and how many hold it.
pub open spec fn used<T, W>(m: MutexView<T, W>, ops: Seq<MutexOp<W>>) -> (MutexView<T, W>, nat)
    decreases ops.len(),
{
    if ops.len() == 0 {
        (m, 0)
    } else {
        let (now, holders) = used(m, ops.drop_last());
        match ops.last() {
            MutexOp::TryLock => if now.locked {
                (now, holders)
            } else {
                (now.acquired(), holders + 1)
            },
            MutexOp::Poll(waker) => if now.locked {
                (now.waited(waker), holders)
            } else {
                (now.acquired(), holders + 1)
            },
            MutexOp::Release => if holders > 0 {
                (now.released(), (holders - 1) as nat)
            } else {
                (now, holders)
            },
        }
    }
}

/// Only one holds the lock, however it is asked for and given back; and whether one does is what
/// the lock says. Neither changes the value.
pub proof fn one_at_a_time<T, W>(m: MutexView<T, W>, ops: Seq<MutexOp<W>>)
    requires
        !m.locked,
    ensures
        ({
            let (now, holders) = used(m, ops);
            &&& holders == if now.locked {
                1nat
            } else {
                0nat
            }
            &&& now.data == m.data
        }),
    decreases ops.len(),
{
    if ops.len() > 0 {
        one_at_a_time(m, ops.drop_last());
    }
}

} // verus!
