//! The outcome of asking for something that may not be there yet.

use vstd::prelude::*;

verus! {

/// Ready with a value, or not yet.
#[derive(PartialEq, Eq, Debug)]
pub enum Poll<T> {
    Ready(T),
    Pending,
}

/// What can go wrong in reading and writing.
#[derive(Clone, Copy, PartialEq, Eq, Structural, Debug)]
pub enum IoError {
    /// A writer took nothing.
    WriteZero,
    /// The other side is gone.
    BrokenPipe,
    /// The bytes are not what they should be.
    InvalidData,
    /// The operating system reported this code.
    Os(i32),
}

} // verus!
