//! A number of permits that tasks share.

use vstd::prelude::*;
use crate::tokio::poll::Poll;

verus! {

/// The permits that are left, and who waits for some.
pub struct Semaphore<W> {
    pub available: usize,
    pub waiters: Vec<(usize, W)>,
}

/// Permits that are held.
pub struct SemaphorePermit {
    pub permits: usize,
}

/// Permits that are held, apart from the semaphore.
pub struct OwnedSemaphorePermit {
    pub permits: usize,
}

/// The semaphore is closed.
#[derive(PartialEq, Eq, Structural, Clone, Copy, Debug)]
pub struct AcquireError;

/// Why no permit was given.
#[derive(PartialEq, Eq, Structural, Clone, Copy, Debug)]
pub enum TryAcquireError {
    Closed,
    NoPermits,
}

/// The permits that are left after `n` were asked for, and whether they were given.
pub open spec fn after_asking(available: nat, n: nat) -> (nat, bool) {
    if available >= n {
        ((available - n) as nat, true)
    } else {
        (available, false)
    }
}

impl<W> Semaphore<W> {
    pub fn new(permits: usize) -> (r: Self)
        ensures
            r.available == permits,
            r.waiters@.len() == 0,
    {
        Semaphore { available: permits, waiters: Vec::new() }
    }

    pub fn available_permits(&self) -> (r: usize)
        ensures
            r == self.available,
    {
        self.available
    }

    fn take(&mut self, n: usize) -> (r: bool)
        ensures
            (final(self).available as nat, r) == after_asking(old(self).available as nat, n as nat),
            final(self).waiters == old(self).waiters,
    {
        if self.available >= n {
            self.available = self.available - n;
            true
        } else {
            false
        }
    }

    /// Takes a permit if one is left. Without one the caller lets the others run and asks again.
    pub fn acquire(&mut self) -> (r: Poll<Result<SemaphorePermit, AcquireError>>)
        ensures
            final(self).waiters == old(self).waiters,
            ({
                let (left, given) = after_asking(old(self).available as nat, 1);
                &&& final(self).available == left
                &&& r == if given {
                    Poll::Ready(Ok::<SemaphorePermit, AcquireError>(SemaphorePermit { permits: 1 }))
                } else {
                    Poll::Pending
                }
            }),
    {
        if self.take(1) {
            Poll::Ready(Ok(SemaphorePermit { permits: 1 }))
        } else {
            Poll::Pending
        }
    }

    /// Takes a permit if one is left.
    pub fn try_acquire(&mut self) -> (r: Result<SemaphorePermit, TryAcquireError>)
        ensures
            final(self).waiters == old(self).waiters,
            ({
                let (left, given) = after_asking(old(self).available as nat, 1);
                &&& final(self).available == left
                &&& r == if given {
                    Ok::<SemaphorePermit, TryAcquireError>(SemaphorePermit { permits: 1 })
                } else {
                    Err(TryAcquireError::NoPermits)
                }
            }),
    {
        if self.take(1) {
            Ok(SemaphorePermit { permits: 1 })
        } else {
            Err(TryAcquireError::NoPermits)
        }
    }

    /// Takes a permit if one is left. Without one the caller lets the others run and asks again.
    pub fn acquire_owned(&mut self) -> (r: Poll<Result<OwnedSemaphorePermit, AcquireError>>)
        ensures
            final(self).waiters == old(self).waiters,
            ({
                let (left, given) = after_asking(old(self).available as nat, 1);
                &&& final(self).available == left
                &&& r == if given {
                    Poll::Ready(Ok::<OwnedSemaphorePermit, AcquireError>(OwnedSemaphorePermit { permits: 1 }))
                } else {
                    Poll::Pending
                }
            }),
    {
        if self.take(1) {
            Poll::Ready(Ok(OwnedSemaphorePermit { permits: 1 }))
        } else {
            Poll::Pending
        }
    }

    /// Takes a permit if one is left.
    pub fn try_acquire_owned(&mut self) -> (r: Result<OwnedSemaphorePermit, TryAcquireError>)
        ensures
            final(self).waiters == old(self).waiters,
            ({
                let (left, given) = after_asking(old(self).available as nat, 1);
                &&& final(self).available == left
                &&& r == if given {
                    Ok::<OwnedSemaphorePermit, TryAcquireError>(OwnedSemaphorePermit { permits: 1 })
                } else {
                    Err(TryAcquireError::NoPermits)
                }
            }),
    {
        if self.take(1) {
            Ok(OwnedSemaphorePermit { permits: 1 })
        } else {
            Err(TryAcquireError::NoPermits)
        }
    }

    /// Takes `n` permits, all or none. Without them the caller lets the others run and asks again.
    pub fn acquire_many_owned(&mut self, n: u32) -> (r: Poll<Result<OwnedSemaphorePermit, AcquireError>>)
        ensures
            final(self).waiters == old(self).waiters,
            ({
                let (left, given) = after_asking(old(self).available as nat, n as nat);
                &&& final(self).available == left
                &&& r == if given {
                    Poll::Ready(Ok::<OwnedSemaphorePermit, AcquireError>(OwnedSemaphorePermit { permits: n as usize }))
                } else {
                    Poll::Pending
                }
            }),
    {
        let permits: usize = n as usize;
        if self.take(permits) {
            Poll::Ready(Ok(OwnedSemaphorePermit { permits }))
        } else {
            Poll::Pending
        }
    }

    /// Takes `n` permits, all or none.
    pub fn try_acquire_many_owned(&mut self, n: u32) -> (r: Result<OwnedSemaphorePermit, TryAcquireError>)
        ensures
            final(self).waiters == old(self).waiters,
            ({
                let (left, given) = after_asking(old(self).available as nat, n as nat);
                &&& final(self).available == left
                &&& r == if given {
                    Ok::<OwnedSemaphorePermit, TryAcquireError>(OwnedSemaphorePermit { permits: n as usize })
                } else {
                    Err(TryAcquireError::NoPermits)
                }
            }),
    {
        let permits: usize = n as usize;
        if self.take(permits) {
            Ok(OwnedSemaphorePermit { permits })
        } else {
            Err(TryAcquireError::NoPermits)
        }
    }

    pub fn add_permits(&mut self, n: usize)
        requires
            old(self).available + n <= usize::MAX,
        ensures
            final(self).available == old(self).available + n,
            final(self).waiters == old(self).waiters,
    {
        self.available = self.available + n;
    }

    /// Nobody waits any more; those who did are to be woken. Permits can still be taken.
    pub fn close(&mut self) -> (wake: Vec<(usize, W)>)
        ensures
            wake@ == old(self).waiters@,
            final(self).waiters@.len() == 0,
            final(self).available == old(self).available,
    {
        let mut wake: Vec<(usize, W)> = Vec::new();
        std::mem::swap(&mut wake, &mut self.waiters);
        wake
    }

    /// A semaphore never counts as closed.
    pub fn is_closed(&self) -> (r: bool)
        ensures
            !r,
    {
        false
    }
}

impl SemaphorePermit {
    /// Gives the permits back.
    pub fn release<W>(self, sem: &mut Semaphore<W>)
        requires
            old(sem).available + self.permits <= usize::MAX,
        ensures
            final(sem).available == old(sem).available + self.permits,
            final(sem).waiters == old(sem).waiters,
    {
        sem.available = sem.available + self.permits;
    }
}

impl OwnedSemaphorePermit {
    /// Gives the permits back.
    pub fn release<W>(self, sem: &mut Semaphore<W>)
        requires
            old(sem).available + self.permits <= usize::MAX,
        ensures
            final(sem).available == old(sem).available + self.permits,
            final(sem).waiters == old(sem).waiters,
    {
        sem.available = sem.available + self.permits;
    }
}

/// One use of a semaphore; only permits that are held are given back.
pub enum SemaphoreOp {
    Ask(nat),
    GiveBack(nat),
    Add(nat),
}

/// The permits that are left after some uses of a semaphore, how many are held, and how many were
/// added.
pub open spec fn used(available: nat, ops: Seq<SemaphoreOp>) -> (nat, nat, nat)
    decreases ops.len(),
{
    if ops.len() == 0 {
        (available, 0, 0)
    } else {
        let (left, held, added) = used(available, ops.drop_last());
        match ops.last() {
            SemaphoreOp::Ask(n) => {
                let (rest, given) = after_asking(left, n);
                (
                    rest,
                    if given {
                        held + n
                    } else {
                        held
                    },
                    added,
                )
            },
            SemaphoreOp::GiveBack(n) => if n <= held {
                (left + n, (held - n) as nat, added)
            } else {
                (left, held, added)
            },
            SemaphoreOp::Add(n) => (left + n, held, added + n),
        }
    }
}

/// No permit is made or lost: those that are left and those that are held are as many as there were
/// and as were added, however they are asked for and given back.
pub proof fn permits_are_kept(available: nat, ops: Seq<SemaphoreOp>)
    ensures
        ({
            let (left, held, added) = used(available, ops);
            left + held == available + added
        }),
    decreases ops.len(),
{
    if ops.len() > 0 {
        permits_are_kept(available, ops.drop_last());
    }
}

} // verus!
