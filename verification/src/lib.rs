//! Sessions, snapshots and replay of a working tree.

use vstd::prelude::*;

pub mod cli_util;
pub mod command_error;
pub mod commands;
pub mod config;
pub mod diff;
pub mod error;
pub mod file_snap;
pub mod ignore;
pub mod lockfile;
pub mod model;
pub mod order;
pub mod path;
pub mod paths;
pub mod session;
pub mod snap;
pub mod store;
pub mod text;
pub mod tree_diff;
pub mod tui;
pub mod ui;
pub mod ulid;
pub mod util;
pub mod warnings;
pub mod watcher;
