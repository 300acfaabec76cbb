//! `grs new`: ends the open session and starts another.

use crate::command_error;
use crate::command_error::CommandError;
use crate::error::GrsError;
use crate::model::SessionMeta;
use crate::snap::WorkFile;
use crate::store;
use crate::store::RepoStore;
use crate::text;
use crate::tui::session_list;
use crate::util::time::Millis;
use vstd::prelude::*;

verus! {

/// The name of the new session.
#[derive(Debug)]
pub struct NewArgs {
    pub name: String,
}

/// What is said of a new session.
pub open spec fn announced(s: SessionMeta) -> Seq<char> {
    "new session \""@ + s.name@ + "\" ("@ + session_list::short(s.id) + ")"@
}

/// Ends the open session at `now`, starts one with the given name over `tree`, and says so.
pub fn cmd_new(store: &mut RepoStore, args: &NewArgs, tree: &Vec<WorkFile>, now: Millis) -> (r:
    Result<String, CommandError>)
    requires
        tree@.len() <= u32::MAX,
    ensures
        match r {
            Ok(t) => exists|s: SessionMeta| #[trigger]
                store::rotates(*old(store), *final(store), args.name, tree@, now, Ok(s)) && t@
                    == announced(s) && final(store).head_id() == Some(s.id),
            Err(e) => exists|g: GrsError| #[trigger]
                store::rotates(*old(store), *final(store), args.name, tree@, now, Err(g)) && e@
                    == command_error::told(g),
        },
{
    let ghost before = *store;
    match store.rotate_open_session(args.name.clone(), tree, now) {
        Ok(s) => {
            assert(store::rotates(before, *store, args.name, tree@, now, Ok(s)));
            let mut t = text::concat3("new session \"", s.name.as_str(), "\" (");
            t.append(session_list::short_id(&s.id).as_str());
            t.append(")");
            Ok(t)
        },
        Err(g) => {
            assert(store::rotates(before, *store, args.name, tree@, now, Err(g)));
            Err(CommandError::from_grs(&g))
        },
    }
}

/// A new session is announced with its name and the beginning of its id.
pub proof fn law_new_session_is_announced(s: SessionMeta)
    ensures
        announced(s) == "new session \""@ + s.name@ + "\" ("@ + text::first_chars(s.id.text(), 10)
            + ")"@,
{
}

} // verus!
