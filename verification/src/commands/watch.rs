//! `grs watch`: runs the watcher without an interface.

use crate::command_error;
use crate::command_error::CommandError;
use crate::error::GrsError;
use crate::model::SessionMeta;
use crate::path;
use crate::path::{FsPath, PathModel};
use crate::session;
use crate::snap;
use crate::snap::WorkFile;
use crate::store;
use crate::store::{Disk, GrsEntry, RepoStore};
use crate::text;
use crate::tui::live;
use crate::ulid::SessionId;
use crate::util::time::Millis;
use vstd::prelude::*;

verus! {

/// The options of the command.
#[derive(Debug)]
pub struct WatchArgs {
    /// The project to watch.
    pub root: Option<FsPath>,
    /// Do not initialize a project that is not there.
    pub no_init: bool,
    /// The name of the session to start where none is open.
    pub session_name: Option<String>,
}

/// The project to watch: the one given, or the one that was found, or the working
/// directory.
pub fn watch_root(args: &WatchArgs, found: Option<&FsPath>, cwd: &FsPath) -> (r: FsPath)
    ensures
        r@ == match args.root {
            Some(p) => p@,
            None => match found {
                Some(p) => p@,
                None => cwd@,
            },
        },
{
    match &args.root {
        Some(p) => p.copy(),
        None => match found {
            Some(p) => p.copy(),
            None => cwd.copy(),
        },
    }
}

/// The name of a session that is started: the one given, or that of the directory.
pub open spec fn name_for(given: Option<Seq<char>>, root: PathModel) -> Seq<char> {
    match given {
        Some(n) => n,
        None => match path::file_name_of(root) {
            Some(n) => n,
            None => "watch"@,
        },
    }
}

/// The name of a session that is started: the one given, or that of the directory.
pub fn session_name(args: &WatchArgs, root: &FsPath) -> (r: String)
    ensures
        r@ == name_for(text::opt_view(args.session_name), root@),
{
    match &args.session_name {
        Some(n) => n.clone(),
        None => match root.file_name() {
            Some(n) => n,
            None => "watch".to_owned(),
        },
    }
}

/// What is said of an error while the project is opened.
pub open spec fn open_error(no_init: bool, root: PathModel, g: GrsError) -> command_error::ErrorModel {
    if no_init && g is NotInitialized {
        command_error::user_hinted(
            "no .grs/ at "@ + root.text(),
            "drop --no-init to auto-initialize, or run `grs` once first."@,
        )
    } else {
        command_error::told(g)
    }
}

/// What initializing a project gives, with a first session of this name.
pub open spec fn inits_named(
    root: PathModel,
    disk: Disk,
    name: Seq<char>,
    tree: Seq<WorkFile>,
    now: Millis,
    r: Result<RepoStore, GrsError>,
) -> bool {
    exists|n: String| n@ == name && #[trigger] store::inits(root, disk, n, tree, now, r)
}

/// What opening the project comes to.
pub open spec fn project_opened(
    args: WatchArgs,
    root: PathModel,
    disk: Disk,
    tree: Seq<WorkFile>,
    now: Millis,
    r: Result<RepoStore, CommandError>,
) -> bool {
    match r {
        Ok(s) => if disk.grs == GrsEntry::Directory || args.no_init {
            store::opens(root, disk, Ok(s))
        } else {
            inits_named(
                root,
                disk,
                name_for(text::opt_view(args.session_name), root),
                tree,
                now,
                Ok(s),
            )
        },
        Err(e) => exists|g: GrsError|
            e@ == #[trigger] open_error(args.no_init, root, g) && (if disk.grs == GrsEntry::Directory
                || args.no_init {
                store::opens(root, disk, Err(g))
            } else {
                inits_named(
                    root,
                    disk,
                    name_for(text::opt_view(args.session_name), root),
                    tree,
                    now,
                    Err(g),
                )
            }),
    }
}

/// Opens the project at `root`, where `disk` was found. It is initialized if need be,
/// unless that was ruled out.
pub fn open_project(
    args: &WatchArgs,
    root: &FsPath,
    disk: Disk,
    tree: &Vec<WorkFile>,
    now: Millis,
) -> (r: Result<RepoStore, CommandError>)
    requires
        tree@.len() <= u32::MAX,
    ensures
        project_opened(*args, root@, disk, tree@, now, r),
{
    if args.no_init {
        match RepoStore::open(root, disk) {
            Ok(s) => Ok(s),
            Err(g) => {
                assert(store::opens(root@, disk, Err(g)));
                let ghost said = open_error(args.no_init, root@, g);
                match g {
                    GrsError::NotInitialized => {
                        let e = CommandError::user_error(
                            text::concat("no .grs/ at ", root.text().as_str()),
                        ).hinted(
                            "drop --no-init to auto-initialize, or run `grs` once first.".to_owned(),
                        );
                        assert(e@ =~= said);
                        Err(e)
                    },
                    _ => Err(CommandError::from_grs(&g)),
                }
            },
        }
    } else {
        let name = session_name(args, root);
        let ghost named = name;
        let opened = RepoStore::open_or_init(root, disk, name, tree, now);
        assert(disk.grs != GrsEntry::Directory ==> inits_named(root@, disk, named@, tree@, now, opened)) by {
            if disk.grs != GrsEntry::Directory {
                assert(store::inits(root@, disk, named, tree@, now, opened));
            }
        }
        match opened {
            Ok(s) => Ok(s),
            Err(g) => {
                let ghost said = open_error(args.no_init, root@, g);
                Err(CommandError::from_grs(&g))
            },
        }
    }
}

/// Whether `HEAD` is missing, or points at a session whose record can be had.
pub open spec fn head_sound(store: RepoStore) -> bool {
    !store::head_broken(store.head@) && (store.head_id() matches Some(id)
        ==> store.sessions.record(id) is Present)
}

/// What making sure of an open session does.
pub open spec fn ensured(
    before: RepoStore,
    after: RepoStore,
    args: WatchArgs,
    root: PathModel,
    tree: Seq<WorkFile>,
    now: Millis,
    r: Result<Option<SessionMeta>, CommandError>,
) -> bool {
    match r {
        Ok(None) => before.open_at_head() is Some && after == before,
        Ok(Some(s)) => before.open_at_head() is None && head_sound(before)
            && exists|name: String|
            name@ == name_for(text::opt_view(args.session_name), root) && #[trigger]
                store::opens_first(before, after, name, tree, now, Ok(s)),
        Err(e) => before.open_at_head() is None && exists|g: GrsError|
            e@ == #[trigger] command_error::told(g) && if head_sound(before) {
                exists|name: String|
                    name@ == name_for(text::opt_view(args.session_name), root) && #[trigger]
                        store::opens_first(before, after, name, tree, now, Err(g))
            } else {
                &&& after == before
                &&& match before.head_id() {
                    Some(id) => session::no_session(before.sessions.record(id), id, g),
                    None => store::head_error(before.head@, g),
                }
            },
    }
}

/// Makes sure that a session is open: where none is, one is started with the given name, or
/// that of the directory. Says which one was started.
pub fn ensure_session(
    store: &mut RepoStore,
    args: &WatchArgs,
    root: &FsPath,
    tree: &Vec<WorkFile>,
    now: Millis,
) -> (r: Result<Option<SessionMeta>, CommandError>)
    requires
        forall|id: SessionId| #[trigger] old(store).snaps.next_number(id) <= u32::MAX,
        snap::captured_bytes(old(store).ignore, tree@, tree@.len() as int) <= u64::MAX,
    ensures
        ensured(*old(store), *final(store), *args, root@, tree@, now, r),
{
    match live::open_session(store) {
        Ok(Some(_)) => Ok(None),
        Ok(None) => {
            let name = session_name(args, root);
            match store.open_first_session(name, tree, now) {
                Ok(s) => Ok(Some(s)),
                Err(g) => {
                    let ghost said = command_error::told(g);
                    Err(CommandError::from_grs(&g))
                },
            }
        },
        Err(g) => {
            let ghost said = command_error::told(g);
            Err(CommandError::from_grs(&g))
        },
    }
}

/// What is said when the watcher starts.
pub open spec fn watching(root: PathModel, id: Option<SessionId>) -> Seq<char> {
    "watching "@ + root.text() + " (session "@ + (match id {
        Some(id) => text::first_chars(id.text(), 8),
        None => Seq::empty(),
    }) + ") — press Ctrl+C to stop"@
}

/// What is said when the watcher starts.
pub fn status_text(store: &RepoStore) -> (r: Result<String, CommandError>)
    ensures
        match r {
            Ok(t) => !store::head_broken(store.head@) && t@ == watching(
                store.root@,
                store.head_id(),
            ),
            Err(e) => exists|g: GrsError| #[trigger]
                store::head_error(store.head@, g) && e@ == command_error::told(g),
        },
{
    let id = match store.current_session_id() {
        Ok(id) => id,
        Err(g) => {
            assert(store::head_error(store.head@, g));
            return Err(CommandError::from_grs(&g));
        },
    };
    let mut t = text::concat3("watching ", store.root.text().as_str(), " (session ");
    if let Some(id) = id {
        t.append(text::shorten(id.as_str().as_str(), 8).as_str());
    }
    t.append(") — press Ctrl+C to stop");
    assert(t@ =~= watching(store.root@, store.head_id()));
    Ok(t)
}

/// A session is named as asked for, or else after the directory of the project.
pub proof fn law_session_is_named_after_the_project(given: Seq<char>, root: PathModel, dir: Seq<char>)
    requires
        dir != "."@,
        dir != ".."@,
    ensures
        name_for(Some(given), root) == given,
        name_for(None, root.child(dir)) == dir,
{
    assert(root.parts.push(dir).last() == dir);
}

/// What is said at the start names the project and the session.
pub proof fn law_start_names_the_project(root: PathModel, id: SessionId)
    ensures
        watching(root, Some(id)) == "watching "@ + root.text() + " (session "@ + text::first_chars(
            id.text(),
            8,
        ) + ") — press Ctrl+C to stop"@,
{
}

/// Where initializing was ruled out and there is no project, the user is told where and what to
/// do; every other error is told as it is.
pub proof fn law_missing_project_is_told_with_its_place(root: PathModel, g: GrsError)
    ensures
        open_error(true, root, GrsError::NotInitialized).error == "no .grs/ at "@ + root.text(),
        open_error(true, root, GrsError::NotInitialized).hints.len() == 1,
        open_error(false, root, g) == command_error::told(g),
        !(g is NotInitialized) ==> open_error(true, root, g) == command_error::told(g),
{
}

/// Where a session is open nothing happens. Where none is, and `HEAD` is sound, one is started
/// with the name asked for or that of the directory, and the tree is its first snap. A broken
/// `HEAD` is an error, and then nothing happens either.
pub proof fn law_watching_needs_an_open_session(
    before: RepoStore,
    after: RepoStore,
    args: WatchArgs,
    root: PathModel,
    tree: Seq<WorkFile>,
    now: Millis,
    r: Result<Option<SessionMeta>, CommandError>,
)
    requires
        before.sessions.wf(),
        before.sessions.unique_names(),
        ensured(before, after, args, root, tree, now, r),
    ensures
        before.open_at_head() is Some <==> r == Ok::<Option<SessionMeta>, CommandError>(None),
        before.open_at_head() is Some ==> after == before,
        !head_sound(before) ==> r is Err && after == before,
        r matches Ok(Some(s)) ==> s.name@ == name_for(text::opt_view(args.session_name), root)
            && after.head_id() == Some(s.id) && s.ended_at is None && s.started_at == now,
{
    if let Ok(Some(s)) = r {
        let name = choose|name: String|
            name@ == name_for(text::opt_view(args.session_name), root) && #[trigger]
                store::opens_first(before, after, name, tree, now, Ok(s));
        store::law_first_session_captures_the_tree(before, after, name, tree, now, s);
    }
}

/// A project that is there is opened. One that is not is initialized, with a session of the name
/// asked for or that of the directory, unless that was ruled out: then it is an error.
pub proof fn law_project_is_opened_or_initialized(
    args: WatchArgs,
    root: PathModel,
    disk: Disk,
    tree: Seq<WorkFile>,
    now: Millis,
    r: Result<RepoStore, CommandError>,
)
    requires
        project_opened(args, root, disk, tree, now, r),
    ensures
        disk.grs == GrsEntry::Directory ==> (r matches Ok(s) ==> s.head@ == disk.head@
            && s.sessions.entries@ == disk.sessions@),
        disk.grs != GrsEntry::Directory && args.no_init ==> r is Err,
        disk.grs == GrsEntry::File ==> r is Err,
        disk.grs == GrsEntry::Absent && !args.no_init ==> (r matches Ok(s) ==> (
        s.open_at_head() matches Some(m) && m.name@ == name_for(
            text::opt_view(args.session_name),
            root,
        ))),
{
    if disk.grs == GrsEntry::Absent && !args.no_init {
        if let Ok(s) = r {
            let n = choose|n: String|
                n@ == name_for(text::opt_view(args.session_name), root) && #[trigger] store::inits(
                    root,
                    disk,
                    n,
                    tree,
                    now,
                    Ok(s),
                );
            store::law_init_opens_a_session(root, disk, n, tree, now, s);
        }
    }
}

} // verus!
