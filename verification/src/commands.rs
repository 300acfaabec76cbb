//! The commands of the program.

pub mod config;
pub mod new;
pub mod replay;
pub mod session;
pub mod watch;
