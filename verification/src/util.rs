//! Helpers that depend on nothing else.

pub mod fs;
pub mod time;
