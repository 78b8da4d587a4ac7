//! Child processes: what is done with one, and what waiting for it comes to.

use vstd::prelude::*;
use crate::runtime::process::ensure_polling;
use crate::runtime::reactor;
use crate::runtime::reactor::{IoState, Reactor, DIR_READ, READABLE};
use crate::tokio::poll::{IoError, Poll};

verus! {

/// What asking for a child's exit came to.
#[derive(Clone, Copy, PartialEq, Eq, Structural, Debug)]
pub enum TryWait {
    Exited(i32),
    Running,
    Failed(i32),
}

/// A child: the id of its process, whether it was seen to exit, and what becomes of it when nobody
/// holds it any more.
#[derive(Clone, Copy)]
pub struct Child {
    pub pid: u32,
    pub exited: bool,
    pub kill_on_drop: bool,
}

/// A child that has been asked for its exit.
pub open spec fn asked(child: Child, seen: TryWait) -> Child {
    Child { exited: child.exited || seen is Exited, ..child }
}

/// What follows when a child has been asked for its exit.
#[derive(Clone, Copy, PartialEq, Eq, Structural, Debug)]
pub enum WaitStep {
    /// It has exited with this status.
    Exited(i32),
    Fail(i32),
    /// Some child has changed: read the pipe that tells of it, and ask again.
    Again,
    /// Nothing has changed.
    Wait,
}

impl Child {
    /// A child that has just been started.
    pub fn new(pid: u32, kill_on_drop: bool) -> (r: Self)
        ensures
            r == (Child { pid, exited: false, kill_on_drop }),
    {
        Child { pid, exited: false, kill_on_drop }
    }

    /// The id of its process; none once it was seen to exit.
    pub fn id(&self) -> (r: Option<u32>)
        ensures
            r == if self.exited {
                None
            } else {
                Some(self.pid)
            },
    {
        if self.exited {
            None
        } else {
            Some(self.pid)
        }
    }

    /// The child has been asked for its exit: its status, if it has one.
    pub fn try_wait(&mut self, seen: TryWait) -> (r: Result<Option<i32>, IoError>)
        ensures
            *final(self) == asked(*old(self), seen),
            r == match seen {
                TryWait::Exited(status) => Ok::<Option<i32>, IoError>(Some(status)),
                TryWait::Running => Ok(None),
                TryWait::Failed(code) => Err(IoError::Os(code)),
            },
    {
        match seen {
            TryWait::Exited(status) => {
                self.exited = true;
                Ok(Some(status))
            },
            TryWait::Running => Ok(None),
            TryWait::Failed(code) => Err(IoError::Os(code)),
        }
    }

    /// The child has been asked for its exit before anybody waits: its status, or that it is waited
    /// for.
    pub fn wait(&mut self, first: TryWait) -> (r: Poll<Result<i32, IoError>>)
        ensures
            *final(self) == asked(*old(self), first),
            r == match first {
                TryWait::Exited(status) => Poll::Ready(Ok::<i32, IoError>(status)),
                TryWait::Running => Poll::Pending,
                TryWait::Failed(code) => Poll::Ready(Err(IoError::Os(code))),
            },
    {
        match self.try_wait(first) {
            Ok(Some(status)) => Poll::Ready(Ok(status)),
            Ok(None) => Poll::Pending,
            Err(e) => Poll::Ready(Err(e)),
        }
    }

    /// Nobody holds the child any more. True if it is to be killed.
    pub fn release(self) -> (r: bool)
        ensures
            r == self.kill_on_drop,
    {
        self.kill_on_drop
    }
}

/// Waits for a child.
pub struct WaitFuture;

impl WaitFuture {
    /// The child has been asked for its exit. If it runs, the pipe that tells of children is looked
    /// at: with something in it the child is asked again, else the waker is kept.
    pub fn poll<W>(
        &mut self,
        child: &mut Child,
        first: TryWait,
        reactor: &mut Reactor<W>,
        token: usize,
        waker: W,
    ) -> (r: WaitStep)
        requires
            old(reactor).wf(),
        ensures
            *final(child) == asked(*old(child), first),
            final(reactor).wf(),
            final(reactor).next() == old(reactor).next(),
            ({
                let at = old(reactor).at();
                match first {
                    TryWait::Exited(status) => r == WaitStep::Exited(status) && final(reactor).at() == at,
                    TryWait::Failed(code) => r == WaitStep::Fail(code) && final(reactor).at() == at,
                    TryWait::Running => if !at.dom().contains(token) {
                        r == WaitStep::Again && final(reactor).at() == at
                    } else if at[token].readiness & READABLE != 0 {
                        r == WaitStep::Again && final(reactor).at() == at.insert(
                            token,
                            IoState { readiness: at[token].readiness & !READABLE, ..at[token] },
                        )
                    } else {
                        r == WaitStep::Wait && final(reactor).at() == at.insert(
                            token,
                            IoState { read_waker: Some(waker), ..at[token] },
                        )
                    },
                }
            }),
    {
        let known = child.try_wait(first);
        match first {
            TryWait::Exited(status) => WaitStep::Exited(status),
            TryWait::Failed(code) => WaitStep::Fail(code),
            TryWait::Running => if ensure_polling(reactor, token, waker) {
                reactor.clear_ready(token, DIR_READ);
                WaitStep::Again
            } else {
                WaitStep::Wait
            },
        }
    }

    /// The child has been asked again, after some child has changed. If it was another one, the
    /// waker is kept, so that the next change is noticed too.
    pub fn poll_again<W>(
        &mut self,
        child: &mut Child,
        second: TryWait,
        reactor: &mut Reactor<W>,
        token: usize,
        waker: W,
    ) -> (r: Poll<Result<i32, IoError>>)
        requires
            old(reactor).wf(),
            old(reactor).at().dom().contains(token),
            old(reactor).at()[token].readiness & READABLE == 0,
        ensures
            *final(child) == asked(*old(child), second),
            final(reactor).wf(),
            final(reactor).next() == old(reactor).next(),
            r == match second {
                TryWait::Exited(status) => Poll::Ready(Ok::<i32, IoError>(status)),
                TryWait::Running => Poll::Pending,
                TryWait::Failed(code) => Poll::Ready(Err(IoError::Os(code))),
            },
            final(reactor).at() == if second == TryWait::Running {
                let s = old(reactor).at()[token];
                old(reactor).at().insert(token, IoState { read_waker: Some(waker), ..s })
            } else {
                old(reactor).at()
            },
    {
        let known = child.wait(second);
        if let TryWait::Running = second {
            let changed: bool = ensure_polling(reactor, token, waker);
        }
        known
    }
}

/// What is done to get all that a child writes, and its status.
#[derive(Clone, Copy, PartialEq, Eq, Structural, Debug)]
pub enum OutputStep {
    /// Close what the child reads from, so that it does not wait for input.
    CloseStdin,
    ReadStdout,
    ReadStderr,
    Wait,
    Return,
    Fail(i32),
}

/// What follows a step; `error` is the code if it failed. Closing never fails.
pub fn wait_with_output(step: OutputStep, error: Option<i32>) -> (r: OutputStep)
    ensures
        r == match (step, error) {
            (OutputStep::CloseStdin, _) => OutputStep::ReadStdout,
            (OutputStep::Return, _) => OutputStep::Return,
            (OutputStep::Fail(code), _) => OutputStep::Fail(code),
            (_, Some(code)) => OutputStep::Fail(code),
            (OutputStep::ReadStdout, None) => OutputStep::ReadStderr,
            (OutputStep::ReadStderr, None) => OutputStep::Wait,
            (OutputStep::Wait, None) => OutputStep::Return,
        },
{
    match (step, error) {
        (OutputStep::CloseStdin, _) => OutputStep::ReadStdout,
        (OutputStep::Return, _) => OutputStep::Return,
        (OutputStep::Fail(code), _) => OutputStep::Fail(code),
        (_, Some(code)) => OutputStep::Fail(code),
        (OutputStep::ReadStdout, None) => OutputStep::ReadStderr,
        (OutputStep::ReadStderr, None) => OutputStep::Wait,
        (OutputStep::Wait, None) => OutputStep::Return,
    }
}

/// Whoever waits for a child is woken by the next change of any child: after a poll that found the
/// child running, the first time or again, an event of the pipe that tells of children wakes them.
pub proof fn who_waits_for_a_child_is_woken<W>(at: Map<usize, IoState<W>>, token: usize, waker: W, evs: Seq<reactor::IoEvent>, i: int)
    requires
        at.dom().contains(token),
        0 <= i < evs.len(),
        evs[i].key == token,
        evs[i].readable,
    ensures
        reactor::woken_by_all(at.insert(token, IoState { read_waker: Some(waker), ..at[token] }), evs).contains(waker),
{
    let kept = at.insert(token, IoState { read_waker: Some(waker), ..at[token] });
    reactor::who_waits_is_woken(kept, evs, i, DIR_READ, waker);
}

} // verus!
