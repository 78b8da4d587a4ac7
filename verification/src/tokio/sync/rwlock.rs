//! A lock that many readers or one writer hold.

use vstd::prelude::*;
use crate::tokio::poll::Poll;

verus! {

/// The state of a lock that a writer holds. Any other state is the number of readers.
pub const WRITE_LOCKED: usize = usize::MAX;

/// A value that many may read or one may write.
pub struct RwLock<T, W> {
    state: usize,
    waiters: Vec<W>,
    data: T,
}

/// Who holds a lock.
pub enum Hold {
    /// So many readers; none if it is free.
    Readers(nat),
    /// A writer.
    Writer,
}

/// What a lock holds: who holds it, who waits, and the value.
#[verifier::ext_equal]
pub struct RwLockView<T, W> {
    pub hold: Hold,
    pub waiters: Seq<W>,
    pub data: T,
}

impl<T, W> View for RwLock<T, W> {
    type V = RwLockView<T, W>;

    closed spec fn view(&self) -> RwLockView<T, W> {
        RwLockView {
            hold: if self.state == WRITE_LOCKED {
                Hold::Writer
            } else {
                Hold::Readers(self.state as nat)
            },
            waiters: self.waiters@,
            data: self.data,
        }
    }
}

impl<T, W> RwLockView<T, W> {
    pub open spec fn free(self) -> bool {
        self.hold == Hold::Readers(0)
    }

    /// One more reader fits.
    pub open spec fn room(self) -> bool {
        self.hold is Readers ==> self.hold->Readers_0 + 1 < WRITE_LOCKED
    }

    pub open spec fn read_acquired(self) -> Self {
        RwLockView { hold: Hold::Readers(self.hold->Readers_0 + 1), ..self }
    }

    pub open spec fn write_acquired(self) -> Self {
        RwLockView { hold: Hold::Writer, ..self }
    }

    pub open spec fn waited(self, waker: W) -> Self {
        RwLockView { waiters: self.waiters.push(waker), ..self }
    }

    /// One reader fewer; with the last one, nobody need wait any more.
    pub open spec fn read_released(self) -> Self {
        RwLockView {
            hold: Hold::Readers((self.hold->Readers_0 - 1) as nat),
            waiters: if self.hold->Readers_0 == 1 {
                Seq::empty()
            } else {
                self.waiters
            },
            ..self
        }
    }

    /// The lock is free; nobody need wait any more.
    pub open spec fn write_released(self) -> Self {
        RwLockView { hold: Hold::Readers(0), waiters: Seq::empty(), ..self }
    }
}

/// Someone who wants to read.
pub struct RwLockReadFuture;

/// Someone who wants to write.
pub struct RwLockWriteFuture;

/// The right to read the value.
pub struct RwLockReadGuard {
    held: bool,
}

/// The right to change the value.
pub struct RwLockWriteGuard {
    held: bool,
}

/// The lock is held.
#[derive(PartialEq, Eq, Structural, Clone, Copy, Debug)]
pub struct TryLockError;

impl<T, W> RwLock<T, W> {
    /// A free lock.
    pub fn new(value: T) -> (r: Self)
        ensures
            r@ == (RwLockView { hold: Hold::Readers(0), waiters: Seq::<W>::empty(), data: value }),
    {
        RwLock { state: 0, waiters: Vec::new(), data: value }
    }

    pub fn into_inner(self) -> (r: T)
        ensures
            r == self@.data,
    {
        self.data
    }

    /// Someone who wants to read.
    pub fn read(&self) -> (r: RwLockReadFuture)
        ensures
            r == RwLockReadFuture,
    {
        RwLockReadFuture
    }

    /// Someone who wants to write.
    pub fn write(&self) -> (r: RwLockWriteFuture)
        ensures
            r == RwLockWriteFuture,
    {
        RwLockWriteFuture
    }

    /// Takes the lock to read unless a writer holds it.
    pub fn try_read(&mut self) -> (r: Result<RwLockReadGuard, TryLockError>)
        requires
            old(self)@.room(),
        ensures
            r is Ok <==> !(old(self)@.hold is Writer),
            final(self)@ == if old(self)@.hold is Writer {
                old(self)@
            } else {
                old(self)@.read_acquired()
            },
    {
        if self.state == WRITE_LOCKED {
            return Err(TryLockError);
        }
        self.state = self.state + 1;
        Ok(RwLockReadGuard { held: true })
    }

    /// Takes the lock to write if it is free.
    pub fn try_write(&mut self) -> (r: Result<RwLockWriteGuard, TryLockError>)
        ensures
            r is Ok <==> old(self)@.free(),
            final(self)@ == if old(self)@.free() {
                old(self)@.write_acquired()
            } else {
                old(self)@
            },
    {
        if self.state == 0 {
            self.state = WRITE_LOCKED;
            Ok(RwLockWriteGuard { held: true })
        } else {
            Err(TryLockError)
        }
    }

    /// The value, for who owns the lock itself.
    pub fn get_mut(&mut self) -> (r: &mut T)
        ensures
            *r == old(self)@.data,
            final(self)@ == (RwLockView { data: *final(r), ..old(self)@ }),
    {
        &mut self.data
    }

    fn wake_waiters(&mut self) -> (wake: Vec<W>)
        ensures
            wake@ == old(self)@.waiters,
            final(self)@ == (RwLockView { waiters: Seq::<W>::empty(), ..old(self)@ }),
    {
        let mut wake: Vec<W> = Vec::new();
        std::mem::swap(&mut wake, &mut self.waiters);
        wake
    }
}

impl RwLockReadFuture {
    /// Takes the lock to read, or waits while a writer holds it.
    pub fn poll<T, W>(&mut self, lock: &mut RwLock<T, W>, waker: W) -> (r: Poll<RwLockReadGuard>)
        requires
            old(lock)@.room(),
        ensures
            r is Ready <==> !(old(lock)@.hold is Writer),
            final(lock)@ == if old(lock)@.hold is Writer {
                old(lock)@.waited(waker)
            } else {
                old(lock)@.read_acquired()
            },
    {
        match lock.try_read() {
            Ok(guard) => Poll::Ready(guard),
            Err(_) => {
                lock.waiters.push(waker);
                Poll::Pending
            },
        }
    }
}

impl RwLockWriteFuture {
    /// Takes the lock to write, or waits until it is free.
    pub fn poll<T, W>(&mut self, lock: &mut RwLock<T, W>, waker: W) -> (r: Poll<RwLockWriteGuard>)
        ensures
            r is Ready <==> old(lock)@.free(),
            final(lock)@ == if old(lock)@.free() {
                old(lock)@.write_acquired()
            } else {
                old(lock)@.waited(waker)
            },
    {
        match lock.try_write() {
            Ok(guard) => Poll::Ready(guard),
            Err(_) => {
                lock.waiters.push(waker);
                Poll::Pending
            },
        }
    }
}

impl RwLockReadGuard {
    /// The value.
    pub fn get<'a, T, W>(&self, lock: &'a RwLock<T, W>) -> (r: &'a T)
        requires
            lock@.hold is Readers,
            !lock@.free(),
        ensures
            *r == lock@.data,
    {
        &lock.data
    }

    /// Gives the lock back. With the last reader, all who wait are to be woken.
    pub fn release<T, W>(self, lock: &mut RwLock<T, W>) -> (wake: Vec<W>)
        requires
            old(lock)@.hold is Readers,
            !old(lock)@.free(),
        ensures
            final(lock)@ == old(lock)@.read_released(),
            wake@ == if old(lock)@.hold == Hold::Readers(1) {
                old(lock)@.waiters
            } else {
                Seq::empty()
            },
    {
        let prev: usize = lock.state;
        lock.state = prev - 1;
        if prev == 1 {
            lock.wake_waiters()
        } else {
            Vec::new()
        }
    }
}

impl RwLockWriteGuard {
    /// The value.
    pub fn get<'a, T, W>(&self, lock: &'a RwLock<T, W>) -> (r: &'a T)
        requires
            lock@.hold is Writer,
        ensures
            *r == lock@.data,
    {
        &lock.data
    }

    /// The value, to change it.
    pub fn get_mut<'a, T, W>(&mut self, lock: &'a mut RwLock<T, W>) -> (r: &'a mut T)
        requires
            old(lock)@.hold is Writer,
        ensures
            *r == old(lock)@.data,
            final(lock)@ == (RwLockView { data: *final(r), ..old(lock)@ }),
    {
        &mut lock.data
    }

    /// Gives the lock back. All who wait are to be woken.
    pub fn release<T, W>(self, lock: &mut RwLock<T, W>) -> (wake: Vec<W>)
        requires
            old(lock)@.hold is Writer,
        ensures
            final(lock)@ == old(lock)@.write_released(),
            wake@ == old(lock)@.waiters,
    {
        lock.state = 0;
        lock.wake_waiters()
    }
}

/// One use of a lock; only those who hold it give it back.
pub enum RwLockOp {
    Read,
    Write,
    ReleaseRead,
    ReleaseWrite,
}

/// A lock after some uses of it, how many read, and how many write.
pub open spec fn used<T, W>(l: RwLockView<T, W>, ops: Seq<RwLockOp>) -> (RwLockView<T, W>, nat, nat)
    decreases ops.len(),
{
    if ops.len() == 0 {
        (l, 0, 0)
    } else {
        let (now, readers, writers) = used(l, ops.drop_last());
        match ops.last() {
            RwLockOp::Read => if now.hold is Writer {
                (now, readers, writers)
            } else {
                (now.read_acquired(), readers + 1, writers)
            },
            RwLockOp::Write => if now.free() {
                (now.write_acquired(), readers, writers + 1)
            } else {
                (now, readers, writers)
            },
            RwLockOp::ReleaseRead => if readers > 0 {
                (now.read_released(), (readers - 1) as nat, writers)
            } else {
                (now, readers, writers)
            },
            RwLockOp::ReleaseWrite => if writers > 0 {
                (now.write_released(), readers, (writers - 1) as nat)
            } else {
                (now, readers, writers)
            },
        }
    }
}

/// A writer is alone: there is never more than one, and none while anybody reads. The lock says who
/// holds it. Neither asking for it nor giving it back changes the value.
pub proof fn writers_are_alone<T, W>(l: RwLockView<T, W>, ops: Seq<RwLockOp>)
    requires
        l.free(),
    ensures
        ({
            let (now, readers, writers) = used(l, ops);
            &&& writers == 0 ==> now.hold == Hold::Readers(readers)
            &&& writers > 0 ==> writers == 1 && readers == 0 && now.hold is Writer
            &&& now.data == l.data
        }),
    decreases ops.len(),
{
    if ops.len() > 0 {
        writers_are_alone(l, ops.drop_last());
    }
}

} // verus!
