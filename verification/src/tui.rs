//! The terminal interface: its state, what keys do to it, and what is shown. Drawing
//! on a terminal is left to the caller.

pub mod code_review;
pub mod diff_view;
pub mod file_view;
pub mod highlight;
pub mod input;
pub mod layout;
pub mod live;
pub mod replay_view;
pub mod session_list;
pub mod snap_list;
pub mod theme;
