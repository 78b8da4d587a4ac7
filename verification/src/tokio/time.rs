//! Sleeping, deadlines and ticks. Times are nanoseconds; who calls says what time it is.

use vstd::prelude::*;
use crate::runtime::executor;
use crate::runtime::executor::Executor;
use crate::runtime::sleep::SleepFuture;
use crate::tokio::poll::Poll;

verus! {

/// Sleeps until a deadline.
pub struct Sleep {
    pub inner: SleepFuture,
    pub deadline: u64,
}

/// The later of two times.
pub open spec fn later(a: u64, b: u64) -> u64 {
    if a < b {
        b
    } else {
        a
    }
}

/// Sleeps for a while.
pub fn sleep(now: u64, duration: u64) -> (r: Sleep)
    requires
        now + duration <= u64::MAX,
    ensures
        r.deadline == now + duration,
        r.inner.deadline == now + duration,
        r.inner.handle == 0,
{
    Sleep { inner: SleepFuture::new(now, duration), deadline: now + duration }
}

/// Sleeps until a deadline; one that has passed has come.
pub fn sleep_until(now: u64, deadline: u64) -> (r: Sleep)
    ensures
        r.deadline == deadline,
        r.inner.deadline == later(now, deadline),
        r.inner.handle == 0,
{
    let duration: u64 = if deadline > now {
        deadline - now
    } else {
        0
    };
    Sleep { inner: SleepFuture::new(now, duration), deadline }
}

impl Sleep {
    pub fn deadline(&self) -> (r: u64)
        ensures
            r == self.deadline,
    {
        self.deadline
    }

    /// Has the deadline come?
    pub fn is_elapsed(&self, now: u64) -> (r: bool)
        ensures
            r == (now >= self.deadline),
    {
        now >= self.deadline
    }

    /// Sleeps until another deadline; the timer of the one before goes.
    pub fn reset<P, W>(&mut self, ex: &mut Executor<P, W>, now: u64, deadline: u64)
        requires
            old(ex)@.wf(),
        ensures
            final(ex)@.wf(),
            final(self).deadline == deadline,
            final(self).inner.deadline == later(now, deadline),
            final(self).inner.handle == 0,
            final(ex)@ == executor::timer_gone(old(ex)@, old(self).inner.handle),
    {
        let mut next = sleep_until(now, deadline);
        std::mem::swap(self, &mut next);
        next.inner.release(ex);
    }

    /// Ready once the deadline has come; until then the waker is woken by a timer.
    pub fn poll<P, W>(&mut self, ex: &mut Executor<P, W>, now: u64, waker: W) -> (r: Poll<()>)
        requires
            old(ex)@.wf(),
            old(ex)@.next_handle < u64::MAX,
        ensures
            final(ex)@.wf(),
            final(self).deadline == old(self).deadline,
            final(self).inner.deadline == old(self).inner.deadline,
            r is Ready <==> now >= old(self).inner.deadline,
            r is Ready ==> final(ex)@ == old(ex)@ && final(self).inner.handle == old(self).inner.handle,
            r is Pending ==> {
                &&& final(self).inner.handle != 0
                &&& final(self).inner.handle == executor::timer_handle(old(ex)@, old(self).inner.handle)
                &&& final(ex)@ == executor::timer_set(old(ex)@, old(self).inner.deadline, waker, old(self).inner.handle)
            },
    {
        self.inner.poll(ex, now, waker)
    }
}

// ---------------------------------------------------------------------------
// Timeouts
// ---------------------------------------------------------------------------

/// The deadline came first.
#[derive(Clone, Copy, PartialEq, Eq, Structural, Debug)]
pub struct Elapsed;

/// Something that is waited for until a deadline.
pub struct Timeout<T> {
    pub value: T,
    pub delay: Sleep,
}

impl<T> Timeout<T> {
    pub fn into_inner(self) -> (r: T)
        ensures
            r == self.value,
    {
        self.value
    }

    pub fn get_ref(&self) -> (r: &T)
        ensures
            *r == self.value,
    {
        &self.value
    }

    pub fn get_mut(&mut self) -> (r: &mut T)
        ensures
            *r == old(self).value,
            *final(self) == (Timeout { value: *final(r), ..*old(self) }),
    {
        &mut self.value
    }

    /// `polled` is what polling the value came to. If it is ready, so is this, whatever the time;
    /// else the deadline decides.
    pub fn poll<V, P, W>(&mut self, polled: Poll<V>, ex: &mut Executor<P, W>, now: u64, waker: W) -> (r: Poll<
        Result<V, Elapsed>,
    >)
        requires
            old(ex)@.wf(),
            old(ex)@.next_handle < u64::MAX,
        ensures
            final(ex)@.wf(),
            final(self).value == old(self).value,
            final(self).delay.deadline == old(self).delay.deadline,
            final(self).delay.inner.deadline == old(self).delay.inner.deadline,
            r == match polled {
                Poll::Ready(v) => Poll::Ready(Ok::<V, Elapsed>(v)),
                Poll::Pending => if now >= old(self).delay.inner.deadline {
                    Poll::Ready(Err(Elapsed))
                } else {
                    Poll::Pending
                },
            },
            r is Ready ==> final(ex)@ == old(ex)@ && final(self).delay.inner.handle == old(self).delay.inner.handle,
            r is Pending ==> {
                let old_handle = old(self).delay.inner.handle;
                &&& final(self).delay.inner.handle == executor::timer_handle(old(ex)@, old_handle)
                &&& final(ex)@ == executor::timer_set(old(ex)@, old(self).delay.inner.deadline, waker, old_handle)
            },
    {
        match polled {
            Poll::Ready(v) => Poll::Ready(Ok(v)),
            Poll::Pending => match self.delay.poll(ex, now, waker) {
                Poll::Ready(()) => Poll::Ready(Err(Elapsed)),
                Poll::Pending => Poll::Pending,
            },
        }
    }
}

/// Waits for something for a while.
pub fn timeout<T>(now: u64, duration: u64, value: T) -> (r: Timeout<T>)
    requires
        now + duration <= u64::MAX,
    ensures
        r.value == value,
        r.delay.deadline == now + duration,
        r.delay.inner.deadline == now + duration,
        r.delay.inner.handle == 0,
{
    Timeout { value, delay: sleep_until(now, now + duration) }
}

/// Waits for something until a deadline.
pub fn timeout_at<T>(now: u64, deadline: u64, value: T) -> (r: Timeout<T>)
    ensures
        r.value == value,
        r.delay.deadline == deadline,
        r.delay.inner.deadline == later(now, deadline),
        r.delay.inner.handle == 0,
{
    Timeout { value, delay: sleep_until(now, deadline) }
}

// ---------------------------------------------------------------------------
// Ticks
// ---------------------------------------------------------------------------

/// Ticks again and again.
pub struct Interval {
    pub delay: Sleep,
    pub period: u64,
}

/// What is done about ticks that were missed.
pub struct MissedTickBehavior;

/// Ticks every `period`, first after one.
pub fn interval(now: u64, period: u64) -> (r: Interval)
    requires
        now + period <= u64::MAX,
    ensures
        r.period == period,
        r.delay.deadline == now + period,
        r.delay.inner.deadline == now + period,
        r.delay.inner.handle == 0,
{
    interval_at(now, now + period, period)
}

/// Ticks at `start`, and every `period` after a tick.
pub fn interval_at(now: u64, start: u64, period: u64) -> (r: Interval)
    ensures
        r.period == period,
        r.delay.deadline == start,
        r.delay.inner.deadline == later(now, start),
        r.delay.inner.handle == 0,
{
    Interval { delay: sleep_until(now, start), period }
}

impl Interval {
    pub fn period(&self) -> (r: u64)
        ensures
            r == self.period,
    {
        self.period
    }

    /// The next tick is one period from now; the timer of the one before goes.
    pub fn reset<P, W>(&mut self, ex: &mut Executor<P, W>, now: u64)
        requires
            old(ex)@.wf(),
            now + old(self).period <= u64::MAX,
        ensures
            final(ex)@.wf(),
            final(self).period == old(self).period,
            final(self).delay.deadline == now + old(self).period,
            final(self).delay.inner.deadline == now + old(self).period,
            final(self).delay.inner.handle == 0,
            final(ex)@ == executor::timer_gone(old(ex)@, old(self).delay.inner.handle),
    {
        let mut next = sleep(now, self.period);
        std::mem::swap(&mut self.delay, &mut next);
        next.inner.release(ex);
    }

    /// The time of a tick that has come, after which the next one is a period away; until then the
    /// waker is woken by a timer.
    pub fn poll_tick<P, W>(&mut self, ex: &mut Executor<P, W>, now: u64, waker: W) -> (r: Poll<u64>)
        requires
            old(ex)@.wf(),
            old(ex)@.next_handle < u64::MAX,
            now + old(self).period <= u64::MAX,
        ensures
            final(ex)@.wf(),
            final(self).period == old(self).period,
            r == if now >= old(self).delay.inner.deadline {
                Poll::Ready(now)
            } else {
                Poll::Pending
            },
            r is Ready ==> {
                &&& final(self).delay.deadline == now + old(self).period
                &&& final(self).delay.inner.deadline == now + old(self).period
                &&& final(self).delay.inner.handle == 0
                &&& final(ex)@ == executor::timer_gone(old(ex)@, old(self).delay.inner.handle)
            },
            r is Pending ==> {
                &&& final(self).delay.deadline == old(self).delay.deadline
                &&& final(self).delay.inner.deadline == old(self).delay.inner.deadline
                &&& final(self).delay.inner.handle == executor::timer_handle(old(ex)@, old(self).delay.inner.handle)
                &&& final(ex)@ == executor::timer_set(
                    old(ex)@,
                    old(self).delay.inner.deadline,
                    waker,
                    old(self).delay.inner.handle,
                )
            },
    {
        match self.delay.poll(ex, now, waker) {
            Poll::Ready(()) => {
                self.reset(ex, now);
                Poll::Ready(now)
            },
            Poll::Pending => Poll::Pending,
        }
    }

    /// Ticks that were missed are not made up for, whatever is asked.
    pub fn set_missed_tick_behavior(&mut self, behavior: MissedTickBehavior)
        ensures
            *final(self) == *old(self),
    {
    }
}

} // verus!
