//! Subscribers to the exit of child processes.

use vstd::prelude::*;
use crate::runtime::reactor::{IoState, Reactor, DIR_READ, READABLE};

verus! {

/// Who waits for a child process to change.
pub struct SigchldState<W> {
    pub subscribers: Vec<W>,
}

impl<W> SigchldState<W> {
    pub fn new() -> (r: Self)
        ensures
            r.subscribers@.len() == 0,
    {
        SigchldState { subscribers: Vec::new() }
    }

    /// Waits for the next change.
    pub fn subscribe(&mut self, waker: W)
        ensures
            final(self).subscribers@ == old(self).subscribers@.push(waker),
    {
        self.subscribers.push(waker);
    }

    /// A child has changed: all subscribers are to be woken, in order, and none is left.
    pub fn notify(&mut self) -> (r: Vec<W>)
        ensures
            r@ == old(self).subscribers@,
            final(self).subscribers@.len() == 0,
    {
        let mut all: Vec<W> = Vec::new();
        std::mem::swap(&mut all, &mut self.subscribers);
        all
    }
}

/// Does reading the pipe that tells of children go on? A read of nothing, or one that failed, is
/// the last.
pub fn drain_more(read: i64) -> (r: bool)
    ensures
        r == (read > 0),
{
    read > 0
}

/// Waits for the pipe that tells of children. True if it has something already.
pub fn ensure_polling<W>(reactor: &mut Reactor<W>, token: usize, waker: W) -> (r: bool)
    requires
        old(reactor).wf(),
    ensures
        final(reactor).wf(),
        final(reactor).next() == old(reactor).next(),
        ({
            let at = old(reactor).at();
            &&& r == (!at.dom().contains(token) || at[token].readiness & READABLE != 0)
            &&& final(reactor).at() == if r {
                at
            } else {
                at.insert(token, IoState { read_waker: Some(waker), ..at[token] })
            }
        }),
{
    reactor.poll_ready(token, DIR_READ, waker)
}

/// The pipe that tells of children has something, and has been read: it does not count as ready any
/// more, and `waker` waits for it again, so that the next change is noticed too. All subscribers
/// are to be woken, and none is left.
pub fn wake_sigchld_callback<W>(state: &mut SigchldState<W>, reactor: &mut Reactor<W>, token: usize, waker: W) -> (r: Vec<W>)
    requires
        old(reactor).wf(),
        old(reactor).at().dom().contains(token),
    ensures
        final(reactor).wf(),
        final(reactor).next() == old(reactor).next(),
        final(reactor).at() == old(reactor).at().insert(
            token,
            IoState {
                readiness: old(reactor).at()[token].readiness & !READABLE,
                read_waker: Some(waker),
                ..old(reactor).at()[token]
            },
        ),
        r@ == old(state).subscribers@,
        final(state).subscribers@.len() == 0,
{
    let ghost at = reactor.at();
    reactor.clear_ready(token, DIR_READ);
    let all = state.notify();
    proof {
        let readiness = at[token].readiness;
        assert((readiness & !1u8) & 1u8 == 0) by (bit_vector);
    }
    let again: bool = ensure_polling(reactor, token, waker);
    assert(!again);
    assert(reactor.at() =~= at.insert(
        token,
        IoState { readiness: at[token].readiness & !READABLE, read_waker: Some(waker), ..at[token] },
    ));
    all
}

/// Subscribes to changes of children. True if the pipe that tells of them has something already:
/// it is to be read then, and `wake_sigchld_callback` called.
pub fn tau_host_sigchld_subscribe<W>(
    state: &mut SigchldState<W>,
    reactor: &mut Reactor<W>,
    token: usize,
    subscriber: W,
    waker: W,
) -> (r: bool)
    requires
        old(reactor).wf(),
    ensures
        final(state).subscribers@ == old(state).subscribers@.push(subscriber),
        final(reactor).wf(),
        final(reactor).next() == old(reactor).next(),
        ({
            let at = old(reactor).at();
            &&& r == (!at.dom().contains(token) || at[token].readiness & READABLE != 0)
            &&& final(reactor).at() == if r {
                at
            } else {
                at.insert(token, IoState { read_waker: Some(waker), ..at[token] })
            }
        }),
{
    state.subscribe(subscriber);
    ensure_polling(reactor, token, waker)
}

} // verus!
