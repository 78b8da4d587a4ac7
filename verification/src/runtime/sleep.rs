//! Sleeping until a deadline. Times are nanoseconds.

use vstd::prelude::*;
use crate::runtime::executor;
use crate::runtime::executor::{timer_cancel, timer_register, Executor};
use crate::tokio::poll::Poll;

verus! {

/// Sleeps until `deadline`. `handle` is that of its timer, 0 without one.
pub struct SleepFuture {
    pub deadline: u64,
    pub handle: u64,
}

impl SleepFuture {
    pub fn new(now: u64, duration: u64) -> (r: Self)
        requires
            now + duration <= u64::MAX,
        ensures
            r.deadline == now + duration,
            r.handle == 0,
    {
        SleepFuture { deadline: now + duration, handle: 0 }
    }

    /// Ready once the deadline has come. Until then its timer is set, and wakes this waker.
    pub fn poll<P, W>(&mut self, ex: &mut Executor<P, W>, now: u64, waker: W) -> (r: Poll<()>)
        requires
            old(ex)@.wf(),
            old(ex)@.next_handle < u64::MAX,
        ensures
            final(ex)@.wf(),
            final(self).deadline == old(self).deadline,
            r is Ready <==> now >= old(self).deadline,
            r is Ready ==> final(ex)@ == old(ex)@ && final(self).handle == old(self).handle,
            r is Pending ==> {
                &&& final(self).handle != 0
                &&& final(self).handle == executor::timer_handle(old(ex)@, old(self).handle)
                &&& final(ex)@ == executor::timer_set(old(ex)@, old(self).deadline, waker, old(self).handle)
            },
    {
        if now >= self.deadline {
            return Poll::Ready(());
        }
        let old_handle: u64 = self.handle;
        self.handle = timer_register(ex, self.deadline, waker, old_handle);
        Poll::Pending
    }

    /// The sleep is given up: its timer goes.
    pub fn release<P, W>(self, ex: &mut Executor<P, W>)
        requires
            old(ex)@.wf(),
        ensures
            final(ex)@.wf(),
            final(ex)@ == executor::timer_gone(old(ex)@, self.handle),
    {
        if self.handle != 0 {
            timer_cancel(ex, self.handle);
        }
    }
}

} // verus!
