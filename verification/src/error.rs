//! The error type of the engine.

use crate::text;
use crate::ulid::SessionId;
use vstd::prelude::*;

verus! {

/// Everything that can go wrong in the engine. The payload of `Io`, `Json` and
/// `Toml` is the message of the underlying failure.
#[derive(Debug)]
pub enum GrsError {
    NotInitialized,
    AlreadyInitialized,
    Io(String),
    Json(String),
    Toml(String),
    Ignore(String),
    Config(String),
    NotFound(String),
    AmbiguousId(String),
    UnsupportedVersion(u32),
    NameInUse(String),
    SessionOpen(SessionId),
    AlreadyRunning(String),
    InvalidName(String),
}

impl GrsError {
    /// The words shown to the user.
    pub open spec fn text(self) -> Seq<char> {
        match self {
            GrsError::NotInitialized => "no .grs/ repository found here"@,
            GrsError::AlreadyInitialized => "grs is already initialized in this directory"@,
            GrsError::Io(m) => "io error: "@ + m@,
            GrsError::Json(m) => "json error: "@ + m@,
            GrsError::Toml(m) => "toml error: "@ + m@,
            GrsError::Ignore(m) => "ignore error: "@ + m@,
            GrsError::Config(m) => "config error: "@ + m@,
            GrsError::NotFound(m) => "not found: "@ + m@,
            GrsError::AmbiguousId(m) => "ambiguous id \""@ + m@ + "\" matched multiple sessions"@,
            GrsError::UnsupportedVersion(n) => "storage version "@ + text::decimal(n as nat)
                + " not supported by this grs build"@,
            GrsError::NameInUse(m) => "session name \""@ + m@ + "\" is already in use"@,
            GrsError::SessionOpen(id) => "session "@ + id.text()
                + " is open; close it (e.g. quit the TUI) before deleting"@,
            GrsError::AlreadyRunning(m) => "a TUI is already running for this project (lock: "@ + m@
                + ")"@,
            GrsError::InvalidName(m) => "invalid session name: "@ + m@,
        }
    }

    /// The words shown to the user.
    pub fn message(&self) -> (r: String)
        ensures
            r@ == self.text(),
    {
        match self {
            GrsError::NotInitialized => "no .grs/ repository found here".to_owned(),
            GrsError::AlreadyInitialized => "grs is already initialized in this directory".to_owned(),
            GrsError::Io(m) => text::concat("io error: ", m.as_str()),
            GrsError::Json(m) => text::concat("json error: ", m.as_str()),
            GrsError::Toml(m) => text::concat("toml error: ", m.as_str()),
            GrsError::Ignore(m) => text::concat("ignore error: ", m.as_str()),
            GrsError::Config(m) => text::concat("config error: ", m.as_str()),
            GrsError::NotFound(m) => text::concat("not found: ", m.as_str()),
            GrsError::AmbiguousId(m) => text::concat3(
                "ambiguous id \"",
                m.as_str(),
                "\" matched multiple sessions",
            ),
            GrsError::UnsupportedVersion(n) => text::concat3(
                "storage version ",
                text::decimal_of(*n as u64).as_str(),
                " not supported by this grs build",
            ),
            GrsError::NameInUse(m) => text::concat3(
                "session name \"",
                m.as_str(),
                "\" is already in use",
            ),
            GrsError::SessionOpen(id) => text::concat3(
                "session ",
                id.as_str().as_str(),
                " is open; close it (e.g. quit the TUI) before deleting",
            ),
            GrsError::AlreadyRunning(m) => text::concat3(
                "a TUI is already running for this project (lock: ",
                m.as_str(),
                ")",
            ),
            GrsError::InvalidName(m) => text::concat("invalid session name: ", m.as_str()),
        }
    }
}

} // verus!
