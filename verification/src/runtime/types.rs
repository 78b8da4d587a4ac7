//! What crosses the border between a plugin and its host.

use vstd::prelude::*;

verus! {

/// The outcome of a poll.
#[derive(Clone, Copy, PartialEq, Eq, Structural, Debug)]
pub enum FfiPoll {
    Ready,
    Pending,
}

/// A waker as a word and the addresses of the functions that work on it. An owned word has both
/// `clone_fn` and `drop_fn`: it stands for an allocation that is used up exactly once. A word
/// that is not owned has neither.
#[derive(Clone, Copy)]
pub struct FfiWaker {
    pub data: u64,
    pub wake_fn: Option<u64>,
    pub clone_fn: Option<u64>,
    pub drop_fn: Option<u64>,
}

/// What is done with a waker.
#[derive(Clone, Copy, PartialEq, Eq, Structural, Debug)]
pub enum WakerOp {
    /// Another one is made of it.
    Clone,
    /// It wakes, and is gone.
    Wake,
    /// It wakes, and stays.
    WakeByRef,
    /// It goes without waking.
    Drop,
}

/// The calls that an operation makes, in this order: `clone_fn` on the word; `wake_fn` on the
/// word, or on what `clone_fn` gave if that was called; `drop_fn` on the word.
#[derive(Clone, Copy)]
pub struct WakerCalls {
    pub clone: Option<u64>,
    pub wake: Option<u64>,
    pub drop: Option<u64>,
}

impl FfiWaker {
    /// A waker that does nothing.
    pub fn null() -> (r: Self)
        ensures
            r == (FfiWaker { data: 0, wake_fn: None, clone_fn: None, drop_fn: None }),
    {
        FfiWaker { data: 0, wake_fn: None, clone_fn: None, drop_fn: None }
    }

    pub open spec fn owned(self) -> bool {
        self.wake_fn is Some && self.clone_fn is Some && self.drop_fn is Some
    }

    pub open spec fn not_owned(self) -> bool {
        self.clone_fn is None && self.drop_fn is None
    }

    /// The calls that an operation makes.
    pub open spec fn calls_for(self, op: WakerOp) -> WakerCalls {
        match op {
            WakerOp::Clone => WakerCalls { clone: self.clone_fn, wake: None, drop: None },
            WakerOp::Wake => WakerCalls { clone: None, wake: self.wake_fn, drop: None },
            WakerOp::WakeByRef => WakerCalls { clone: self.clone_fn, wake: self.wake_fn, drop: None },
            WakerOp::Drop => WakerCalls { clone: None, wake: None, drop: self.drop_fn },
        }
    }

    /// The calls that an operation makes.
    pub fn calls(&self, op: WakerOp) -> (r: WakerCalls)
        ensures
            r == self.calls_for(op),
    {
        match op {
            WakerOp::Clone => WakerCalls { clone: self.clone_fn, wake: None, drop: None },
            WakerOp::Wake => self.wake(),
            WakerOp::WakeByRef => WakerCalls { clone: self.clone_fn, wake: self.wake_fn, drop: None },
            WakerOp::Drop => WakerCalls { clone: None, wake: None, drop: self.drop_fn },
        }
    }

    /// Wakes; an owned word is used up.
    pub fn wake(&self) -> (r: WakerCalls)
        ensures
            r == self.calls_for(WakerOp::Wake),
    {
        WakerCalls { clone: None, wake: self.wake_fn, drop: None }
    }
}

/// How many allocations an operation adds to those that are alive: a clone makes one, a wake or a
/// drop uses one up.
pub open spec fn balance(c: WakerCalls) -> int {
    (if c.clone is Some { 1int } else { 0int }) - (if c.wake is Some { 1int } else { 0int }) - (if c.drop is Some {
        1int
    } else {
        0int
    })
}

/// An owned waker neither leaks nor is freed twice: a clone adds one allocation, waking and dropping
/// a waker use up the one it has, and waking by reference leaves things as they are. For a word
/// that is not owned nothing is ever cloned or dropped.
pub proof fn wakers_are_used_up_once(w: FfiWaker)
    ensures
        w.owned() ==> {
            &&& balance(w.calls_for(WakerOp::Clone)) == 1
            &&& balance(w.calls_for(WakerOp::Wake)) == -1
            &&& balance(w.calls_for(WakerOp::WakeByRef)) == 0
            &&& balance(w.calls_for(WakerOp::Drop)) == -1
        },
        w.not_owned() ==> forall|op: WakerOp|
            (#[trigger] w.calls_for(op)).clone is None && w.calls_for(op).drop is None,
{
}

} // verus!
