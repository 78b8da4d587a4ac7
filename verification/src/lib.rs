use vstd::prelude::*;

pub mod event;
pub mod guard;
pub mod host;
pub mod runtime;
pub mod stream;
pub mod text;
pub mod tokio;
pub mod tui;
pub mod words;

verus! {

} // verus!
