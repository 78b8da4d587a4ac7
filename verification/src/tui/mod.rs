//! Terminal text: escape codes, visible width, wrapping, components.

pub mod ansi;
pub mod component;
pub mod laws;
pub mod terminal;
pub mod utils;
pub mod wrap;
