//! `grs replay`: which session is replayed.

use crate::command_error;
use crate::command_error::CommandError;
use crate::error::GrsError;
use crate::model::SessionMeta;
use crate::session;
use crate::session::{Resolution, StoredSession};
use crate::store;
use crate::store::RepoStore;
use vstd::prelude::*;

verus! {

/// Which session to replay: a name or an id, or the current session.
#[derive(Debug)]
pub struct ReplayArgs {
    pub session: Option<String>,
}

/// Whether `g` says why the current session cannot be had.
pub open spec fn no_current(store: RepoStore, g: GrsError) -> bool {
    match store.head_id() {
        Some(id) => session::no_session(store.sessions.record(id), id, g),
        None => if store::head_broken(store.head@) {
            store::head_error(store.head@, g)
        } else {
            g is NotFound && g->NotFound_0@ == "HEAD is missing; just run `grs` to open the TUI"@
        },
    }
}

/// The session to replay.
pub fn replay_session(store: &RepoStore, args: &ReplayArgs) -> (r: Result<SessionMeta, CommandError>)
    ensures
        match args.session {
            Some(q) => match r {
                Ok(m) => store.sessions.resolution(q@) == Resolution::Found(m),
                Err(e) => exists|g: GrsError| #[trigger]
                    store.sessions.unresolved(q@, g) && e@ == command_error::told(g),
            },
            None => match r {
                Ok(m) => store.head_id() is Some && store.sessions.record(store.head_id()->0)
                    == StoredSession::Present(m),
                Err(e) => exists|g: GrsError| #[trigger]
                    no_current(*store, g) && e@ == command_error::told(g),
            },
        },
{
    match &args.session {
        Some(q) => match store.sessions.resolve(q.as_str()) {
            Ok(m) => Ok(m),
            Err(g) => {
                assert(store.sessions.unresolved(q@, g));
                Err(CommandError::from_grs(&g))
            },
        },
        None => match store.current_session() {
            Ok(m) => Ok(m.copy()),
            Err(g) => {
                assert(no_current(*store, g));
                Err(CommandError::from_grs(&g))
            },
        },
    }
}

} // verus!
