//! A value that may have to be waited for.

use vstd::prelude::*;
use crate::tokio::poll::Poll;

verus! {

/// Comes to a value, once.
pub trait Future<W: Clone> {
    type Output;

    /// Can it still be polled?
    open spec fn alive(&self) -> bool {
        true
    }

    /// What it has answered, each time that it was polled: every implementation says what.
    open spec fn answers(&self) -> Seq<Poll<Self::Output>> {
        Seq::empty()
    }

    fn poll(&mut self, waker: W) -> (r: Poll<Self::Output>)
        requires
            old(self).alive(),
        ensures
            r is Pending ==> final(self).alive(),
            final(self).answers() == old(self).answers().push(r),
    ;
}

/// A value that is there already. What it has answered stands in `out`, for the proofs alone.
pub struct Ready<T> {
    pub value: Option<T>,
    pub out: Ghost<Seq<Poll<T>>>,
}

pub fn ready<T>(value: T) -> (r: Ready<T>)
    ensures
        r.value == Some(value),
        r.out@ == Seq::<Poll<T>>::empty(),
{
    Ready { value: Some(value), out: Ghost(Seq::empty()) }
}

impl<T, W: Clone> Future<W> for Ready<T> {
    type Output = T;

    open spec fn alive(&self) -> bool {
        self.value is Some
    }

    open spec fn answers(&self) -> Seq<Poll<T>> {
        self.out@
    }

    fn poll(&mut self, waker: W) -> (r: Poll<T>)
        ensures
            r == Poll::Ready(old(self).value->0),
            final(self).value is None,
    {
        let r = match self.value.take() {
            Some(v) => Poll::Ready(v),
            None => Poll::Pending,
        };
        proof {
            self.out@ = self.out@.push(r);
        }
        r
    }
}

} // verus!
