//! Signals. None is ever delivered: whoever waits for one goes on waiting.

use vstd::prelude::*;
use crate::tokio::poll::{IoError, Poll};

verus! {

/// Waits for an interrupt from the keyboard.
#[derive(Clone, Copy, PartialEq, Eq, Structural, Debug)]
pub struct CtrlC;

pub fn ctrl_c() -> (r: CtrlC)
    ensures
        r == CtrlC,
{
    CtrlC
}

impl CtrlC {
    pub fn poll(&mut self) -> (r: Poll<Result<(), IoError>>)
        ensures
            r is Pending,
    {
        Poll::Pending
    }
}

/// A signal by its number.
#[derive(Clone, Copy, PartialEq, Eq, Structural, Debug)]
pub struct SignalKind(pub i32);

impl SignalKind {
    pub fn from_raw(signum: i32) -> (r: Self)
        ensures
            r == SignalKind(signum),
    {
        SignalKind(signum)
    }

    /// SIGTERM.
    pub fn terminate() -> (r: Self)
        ensures
            r == SignalKind(15),
    {
        SignalKind(15)
    }

    /// SIGHUP.
    pub fn hangup() -> (r: Self)
        ensures
            r == SignalKind(1),
    {
        SignalKind(1)
    }

    /// SIGINT.
    pub fn interrupt() -> (r: Self)
        ensures
            r == SignalKind(2),
    {
        SignalKind(2)
    }

    /// SIGQUIT.
    pub fn quit() -> (r: Self)
        ensures
            r == SignalKind(3),
    {
        SignalKind(3)
    }

    /// SIGUSR1.
    pub fn user_defined1() -> (r: Self)
        ensures
            r == SignalKind(10),
    {
        SignalKind(10)
    }

    /// SIGUSR2.
    pub fn user_defined2() -> (r: Self)
        ensures
            r == SignalKind(12),
    {
        SignalKind(12)
    }
}

/// Waits for signals of a kind.
#[derive(Clone, Copy, PartialEq, Eq, Structural, Debug)]
pub struct Signal;

/// Never fails.
pub fn signal(kind: SignalKind) -> (r: Result<Signal, IoError>)
    ensures
        r == Ok::<Signal, IoError>(Signal),
{
    Ok(Signal)
}

impl Signal {
    pub fn poll(&mut self) -> (r: Poll<Option<()>>)
        ensures
            r is Pending,
    {
        Poll::Pending
    }
}

} // verus!
