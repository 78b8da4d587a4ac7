//! The host program: compiling, finding and driving plugins.

pub mod capture;
pub mod course;
pub mod compiler;
pub mod discover;
pub mod laws;
pub mod modes;
pub mod plugin;
pub mod reload;
pub mod runs;
pub mod script;
pub mod session;
pub mod single;
pub mod standalone;
