//! A whole project: its configuration, its sessions, their snaps, and which session
//! is open.

use crate::config;
use crate::config::{Config, ConfigLayer};
use crate::diff;
use crate::error::GrsError;
use crate::file_snap;
use crate::file_snap::{FileSnap, SnapModel};
use crate::ignore::{IgnoreFile, IgnoreMatcher, DEFAULT_GRSIGNORE};
use crate::model::{SessionMeta, SnapMeta};
use crate::order;
use crate::path::{FsPath, PathModel};
use crate::paths;
use crate::paths::GrsPaths;
use crate::session;
use crate::session::{SessionEntry, SessionStore, StoredSession};
use crate::snap;
use crate::snap::{SnapStore, StoredSnap, WorkFile};
use crate::text;
use crate::ulid;
use crate::ulid::SessionId;
use crate::util::fs;
use crate::util::fs::FileContent;
use crate::util::time;
use crate::util::time::Millis;
use vstd::prelude::*;

verus! {

/// What stands under the name `.grs` in a directory.
#[derive(Clone, Copy, Debug, PartialEq, Eq, Structural)]
pub enum GrsEntry {
    Absent,
    /// Something that is no directory.
    File,
    Directory,
}

/// What was found on disk at a project root.
#[derive(Debug)]
pub struct Disk {
    /// What `.grs` is there.
    pub grs: GrsEntry,
    /// What the user's configuration sets.
    pub user: ConfigLayer,
    /// The text of the project's configuration file, empty where it is missing.
    pub config_text: String,
    /// What a TOML parser made of it.
    pub config: Result<ConfigLayer, String>,
    /// The text of `HEAD`, empty where it is missing.
    pub head: String,
    pub sessions: Vec<SessionEntry>,
    pub snaps: Vec<StoredSnap>,
    pub file_snaps: Vec<FileSnap>,
    pub ignore_files: Vec<IgnoreFile>,
}

/// A project.
#[derive(Debug)]
pub struct RepoStore {
    pub root: FsPath,
    pub paths: GrsPaths,
    pub config: Config,
    /// The text of `HEAD`.
    pub head: String,
    pub sessions: SessionStore,
    pub snaps: SnapStore,
    pub ignore: IgnoreMatcher,
}

/// The id in the text of `HEAD`.
pub open spec fn head_in(head: Seq<char>) -> Option<SessionId> {
    if text::trim(head).len() == 0 {
        None
    } else {
        session::id_in(text::trim(head))
    }
}

/// Whether the text of `HEAD` is neither empty nor an id.
pub open spec fn head_broken(head: Seq<char>) -> bool {
    text::trim(head).len() > 0 && session::id_in(text::trim(head)) is None
}

/// Whether `e` says that the text of `HEAD` is no id.
pub open spec fn head_error(head: Seq<char>, e: GrsError) -> bool {
    &&& head_broken(head)
    &&& e is NotFound
    &&& e->NotFound_0@ == "invalid session id \""@ + text::trim(head) + "\": "@ + ulid::ulid_fault(
        text::trim(head),
    )->0
}

/// The text of `HEAD` for a session.
pub open spec fn head_text(id: SessionId) -> Seq<char> {
    id.text() + "\n"@
}

proof fn lemma_symbol_is_no_space(d: int)
    requires
        0 <= d < 32,
    ensures
        !text::space(ulid::symbol(d)),
{
}

proof fn lemma_symbols_are_no_space(v: nat, n: nat)
    ensures
        forall|i: int| 0 <= i < ulid::base32(v, n).len() ==> !text::space(#[trigger] ulid::base32(v, n)[i]),
    decreases n,
{
    if n > 0 {
        lemma_symbols_are_no_space(v / 32, (n - 1) as nat);
        lemma_symbol_is_no_space((v % 32) as int);
        let rest = ulid::base32(v / 32, (n - 1) as nat);
        let s = ulid::base32(v, n);
        assert forall|i: int| 0 <= i < s.len() implies !text::space(#[trigger] s[i]) by {
            if i < rest.len() {
                assert(s[i] == rest[i]);
            }
        }
    }
}

/// What is written into `HEAD` for a session is read back as that session.
pub proof fn law_head_round_trip(id: SessionId)
    ensures
        head_in(head_text(id)) == Some(id),
        !head_broken(head_text(id)),
{
    let t = id.text();
    let h = head_text(id);
    reveal_strlit("\n");
    ulid::lemma_text_len(id);
    ulid::law_round_trip(id);
    lemma_symbols_are_no_space(id.0 as nat, 26);
    assert(h[0] == t[0]);
    assert(!text::space(t[0]));
    assert(text::trim_start(h) == h);
    assert(h.last() == '\n');
    assert(h.drop_last() =~= t);
    assert(t.last() == t[25]);
    assert(!text::space(t[25]));
    assert(text::trim_end(t) == t);
    assert(text::trim_end(h) == t);
}

/// The files that are never captured one by one.
pub open spec fn skipped(path: Seq<char>) -> bool {
    path == ".grsignore"@ || path == ".gitignore"@
}

/// Whether a file is captured when a session starts: it is part of the project, is not
/// one of the ignore files, does not look binary, and could be read or is gone.
pub open spec fn starts_with_file(ignore: IgnoreMatcher, w: WorkFile) -> bool {
    &&& snap::belongs(ignore, w)
    &&& !skipped(snap::relative(ignore, w))
    &&& !(w.content is Read && fs::looks_binary(w.content->Read_0@))
    &&& fs::content_text(w.content) is Some
}

/// The snaps with those of the first `k` files of a tree, numbered from 0, and how many
/// these are.
pub open spec fn with_initial(
    snaps: Seq<(SessionId, SnapModel)>,
    ignore: IgnoreMatcher,
    tree: Seq<WorkFile>,
    id: SessionId,
    now: Millis,
    k: int,
) -> (Seq<(SessionId, SnapModel)>, int)
    decreases k,
{
    if k <= 0 {
        (snaps, 0)
    } else {
        let (rest, n) = with_initial(snaps, ignore, tree, id, now, k - 1);
        let w = tree[k - 1];
        if starts_with_file(ignore, w) {
            let content = fs::content_text(w.content)->0;
            let ops = diff::line_ops(Seq::empty(), content);
            (
                file_snap::with_snap(
                    rest,
                    id,
                    file_snap::built(
                        n as u32,
                        snap::relative(ignore, w),
                        content,
                        diff::added(ops),
                        diff::removed(ops),
                        None,
                        None,
                        now,
                    ),
                ),
                n + 1,
            )
        } else {
            (rest, n)
        }
    }
}

impl RepoStore {
    /// Whether all parts speak of the same root.
    pub open spec fn wf(self) -> bool {
        &&& self.paths.wf()
        &&& self.paths.root@ == self.root@
        &&& self.sessions.paths.wf()
        &&& self.sessions.paths.root@ == self.root@
        &&& self.snaps.paths.wf()
        &&& self.snaps.paths.root@ == self.root@
        &&& self.ignore.root@ == self.root@
        &&& self.ignore.extra_patterns@ == self.config.watcher.ignore_extra@
    }

    /// Whether two values differ at most in their sessions and snaps and in `HEAD`.
    pub open spec fn same_project(self, other: RepoStore) -> bool {
        &&& self.root == other.root
        &&& self.paths == other.paths
        &&& self.config == other.config
        &&& self.ignore == other.ignore
    }

    /// The open session, by `HEAD`.
    pub open spec fn head_id(self) -> Option<SessionId> {
        head_in(self.head@)
    }

    /// How many snaps of single files a session has, and of how many files.
    pub open spec fn counts(self, id: SessionId) -> (u32, u32) {
        let all = self.snaps.file_view();
        (
            file_snap::snaps_of(all, id, all.len() as int) as usize as u32,
            file_snap::files_of(all, id, all.len() as int).len() as usize as u32,
        )
    }

    /// Opens the project at `root`, given what was found there.
    pub fn open(root: &FsPath, disk: Disk) -> (r: Result<RepoStore, GrsError>)
        ensures
            opens(root@, disk, r),
    {
        if disk.grs != GrsEntry::Directory {
            return Err(GrsError::NotInitialized);
        }
        let repo = match ConfigLayer::load_repo(root, disk.config_text.as_str(), disk.config) {
            Ok(c) => c,
            Err(e) => {
                return Err(e);
            },
        };
        let ghost merged_from = repo;
        let config = Config::of_layers(disk.user, repo);
        let ignore = IgnoreMatcher::new(root, &config.watcher.ignore_extra, disk.ignore_files);
        let r = RepoStore {
            root: root.copy(),
            paths: GrsPaths::new(root),
            config,
            head: disk.head,
            sessions: SessionStore::new(GrsPaths::new(root), disk.sessions),
            snaps: SnapStore::new(GrsPaths::new(root), disk.snaps, disk.file_snaps),
            ignore,
        };
        assert(crate::config::loads(
            crate::config::repo_config_path(root@),
            disk.config_text@,
            disk.config,
            Ok(merged_from),
        ));
        Ok(r)
    }

    /// Opens the project whose root is the closest directory at or above `start` with a
    /// `.grs` directory. `repos` are the directories that have one, and `disk` is what
    /// was found at that root.
    pub fn open_from(start: &FsPath, repos: &Vec<FsPath>, disk: Disk) -> (r: Result<
        RepoStore,
        GrsError,
    >)
        ensures
            match paths::nearest(start@, paths::models(repos@)) {
                Some(root) => opens(root, disk, r),
                None => r is Err && r->Err_0 is NotInitialized,
            },
    {
        match paths::find_grs_root(start, repos) {
            Ok(root) => RepoStore::open(&root, disk),
            Err(e) => Err(e),
        }
    }

    /// Opens the project at `root`, or initializes it where there is none.
    pub fn open_or_init(root: &FsPath, disk: Disk, name: String, tree: &Vec<WorkFile>, now: Millis) -> (r:
        Result<RepoStore, GrsError>)
        requires
            tree@.len() <= u32::MAX,
        ensures
            if disk.grs == GrsEntry::Directory {
                opens(root@, disk, r)
            } else {
                inits(root@, disk, name, tree@, now, r)
            },
    {
        if disk.grs == GrsEntry::Directory {
            RepoStore::open(root, disk)
        } else {
            RepoStore::init(root, disk, name, tree, now)
        }
    }

    /// Initializes a project at `root`: default configuration and ignore file, a first
    /// open session with the given name, and `HEAD` on it. The first session is filled
    /// under the default configuration; the user's counts from there on.
    pub fn init(root: &FsPath, disk: Disk, name: String, tree: &Vec<WorkFile>, now: Millis) -> (r:
        Result<RepoStore, GrsError>)
        requires
            tree@.len() <= u32::MAX,
        ensures
            inits(root@, disk, name, tree@, now, r),
    {
        if disk.grs != GrsEntry::Absent {
            return Err(GrsError::AlreadyInitialized);
        }
        let mut ignore_files = disk.ignore_files;
        let ghost given = ignore_files@;
        ignore_files.insert(
            0,
            IgnoreFile { dir: root.copy(), text: DEFAULT_GRSIGNORE.to_owned() },
        );
        let config = Config::default();
        let ignore = IgnoreMatcher::new(root, &config.watcher.ignore_extra, ignore_files);
        let sessions: Vec<SessionEntry> = Vec::new();
        let snaps: Vec<StoredSnap> = Vec::new();
        let file_snaps: Vec<FileSnap> = Vec::new();
        let mut store = RepoStore {
            root: root.copy(),
            paths: GrsPaths::new(root),
            config,
            head: String::new(),
            sessions: SessionStore::new(GrsPaths::new(root), sessions),
            snaps: SnapStore::new(GrsPaths::new(root), snaps, file_snaps),
            ignore,
        };
        let ghost empty = store;
        assert(store.ignore.ignore_files@.skip(1) =~= given);
        match store.start_session(name, tree, now) {
            Ok(s) => {
                assert(is_empty_project(empty, root@, disk));
                assert(starts(empty, store, name, tree@, now, Ok(s)));
                let ghost after = store;
                store.config = Config::of_layers(disk.user, ConfigLayer::default());
                store.ignore.extra_patterns = text::copy_all(&store.config.watcher.ignore_extra);
                assert(configured(after, store, disk.user));
                Ok(store)
            },
            Err(e) => {
                assert(is_empty_project(empty, root@, disk));
                assert(starts(empty, store, name, tree@, now, Err(e)));
                Err(e)
            },
        }
    }

    /// The root of the project.
    pub fn root(&self) -> (r: &FsPath)
        ensures
            *r == self.root,
    {
        &self.root
    }

    /// The well-known paths of the project.
    pub fn paths(&self) -> (r: &GrsPaths)
        ensures
            *r == self.paths,
    {
        &self.paths
    }

    /// The configuration in force.
    pub fn config(&self) -> (r: &Config)
        ensures
            *r == self.config,
    {
        &self.config
    }

    /// The sessions.
    pub fn sessions(&self) -> (r: &SessionStore)
        ensures
            *r == self.sessions,
    {
        &self.sessions
    }

    /// The snaps.
    pub fn snaps(&self) -> (r: &SnapStore)
        ensures
            *r == self.snaps,
    {
        &self.snaps
    }

    /// What is left out of snaps.
    pub fn ignore_matcher(&self) -> (r: &IgnoreMatcher)
        ensures
            *r == self.ignore,
    {
        &self.ignore
    }

    /// The open session by `HEAD`, if there is one.
    pub fn head(&self) -> (r: Result<Option<SessionId>, GrsError>)
        ensures
            match r {
                Ok(id) => !head_broken(self.head@) && id == self.head_id(),
                Err(e) => head_error(self.head@, e),
            },
    {
        let trimmed = text::trimmed(self.head.as_str());
        if text::chars_of(trimmed.as_str()).len() == 0 {
            return Ok(None);
        }
        match SessionId::parse(trimmed.as_str()) {
            Ok(id) => Ok(Some(id)),
            Err(e) => Err(e),
        }
    }

    /// The same as `head`.
    pub fn current_session_id(&self) -> (r: Result<Option<SessionId>, GrsError>)
        ensures
            match r {
                Ok(id) => !head_broken(self.head@) && id == self.head_id(),
                Err(e) => head_error(self.head@, e),
            },
    {
        self.head()
    }

    /// Points `HEAD` at a session.
    pub fn set_head(&mut self, id: &SessionId)
        ensures
            final(self).same_project(*old(self)),
            final(self).sessions == old(self).sessions,
            final(self).snaps == old(self).snaps,
            final(self).head@ == head_text(*id),
            final(self).head_id() == Some(*id),
            !head_broken(final(self).head@),
    {
        self.head = text::concat(id.as_str().as_str(), "\n");
        proof {
            law_head_round_trip(*id);
        }
    }

    /// The session that `HEAD` points at.
    pub fn current_session(&self) -> (r: Result<&SessionMeta, GrsError>)
        ensures
            match r {
                Ok(m) => self.head_id() is Some && self.sessions.record(self.head_id()->0)
                    == StoredSession::Present(*m),
                Err(e) => match self.head_id() {
                    Some(id) => session::no_session(self.sessions.record(id), id, e),
                    None => if head_broken(self.head@) {
                        head_error(self.head@, e)
                    } else {
                        e is NotFound && e->NotFound_0@
                            == "HEAD is missing; just run `grs` to open the TUI"@
                    },
                },
            },
    {
        match self.head() {
            Ok(Some(id)) => self.sessions.get(&id),
            Ok(None) => Err(
                GrsError::NotFound("HEAD is missing; just run `grs` to open the TUI".to_owned()),
            ),
            Err(e) => Err(e),
        }
    }

    /// Ends the session that `HEAD` points at, where it is open. A `HEAD` that holds no id,
    /// or points nowhere or at a session that has ended, is let be.
    fn close_head(&mut self, now: Millis) -> (r: Result<(), GrsError>)
        ensures
            final(self).same_project(*old(self)),
            final(self).snaps == old(self).snaps,
            final(self).head == old(self).head,
            match r {
                Ok(_) => closes(*old(self), final(self).sessions, now),
                Err(e) => close_fails(*old(self), e) && final(self).sessions == old(
                    self,
                ).sessions,
            },
    {
        if let Ok(Some(id)) = self.head() {
            let open = match self.sessions.get(&id) {
                Ok(m) => m.is_open(),
                Err(_) => false,
            };
            if open {
                let (snap_count, file_count) = self.snaps.count_files(&id);
                return match self.sessions.finalize_counted(&id, now, snap_count, file_count) {
                    Ok(_) => Ok(()),
                    Err(e) => Err(e),
                };
            }
        }
        Ok(())
    }

    /// Creates an open session, points `HEAD` at it and captures the files of the
    /// project one by one.
    fn start_session(&mut self, name: String, tree: &Vec<WorkFile>, now: Millis) -> (r: Result<
        SessionMeta,
        GrsError,
    >)
        requires
            tree@.len() <= u32::MAX,
        ensures
            starts(*old(self), *final(self), name, tree@, now, r),
    {
        let ghost before = *self;
        match self.sessions.create_new(name, now) {
            Ok(s) => {
                self.set_head(&s.id);
                let ghost mid = *self;
                let done = self.capture_initial_state(&s.id, tree, now);
                assert(session::creates(before.sessions, mid.sessions, name, now, Ok(s)));
                assert(initial(mid, *self, s.id, tree@, now, done));
                Ok(s)
            },
            Err(e) => Err(e),
        }
    }

    /// Ends the open session, where there is one, and starts a new one with the given
    /// name. Nothing of the old session but its end and its counts changes. A `HEAD` that is
    /// missing or broken, or points at a session that has ended, is left behind.
    pub fn rotate_open_session(&mut self, name: String, tree: &Vec<WorkFile>, now: Millis) -> (r:
        Result<SessionMeta, GrsError>)
        requires
            tree@.len() <= u32::MAX,
        ensures
            rotates(*old(self), *final(self), name, tree@, now, r),
            r is Ok ==> final(self).head_id() == Some(r->Ok_0.id),
    {
        let ghost before = *self;
        match self.close_head(now) {
            Ok(_) => {
                let ghost mid = *self;
                let r = self.start_session(name, tree, now);
                assert(closes(before, mid.sessions, now));
                assert(starts(mid, *self, name, tree@, now, r));
                proof {
                    if r is Ok {
                        law_head_round_trip(r->Ok_0.id);
                    }
                }
                r
            },
            Err(e) => Err(e),
        }
    }

    /// Starts a session and captures the whole tree as its first snap.
    pub fn open_first_session(&mut self, name: String, tree: &Vec<WorkFile>, now: Millis) -> (r:
        Result<SessionMeta, GrsError>)
        requires
            forall|id: SessionId| #[trigger] old(self).snaps.next_number(id) <= u32::MAX,
            snap::captured_bytes(old(self).ignore, tree@, tree@.len() as int) <= u64::MAX,
        ensures
            opens_first(*old(self), *final(self), name, tree@, now, r),
    {
        let ghost before = *self;
        match self.sessions.create_new(name, now) {
            Ok(s) => {
                self.set_head(&s.id);
                let ghost mid = *self;
                let m = self.snaps.capture(&s.id, &self.ignore, tree, now);
                assert(session::creates(before.sessions, mid.sessions, name, now, Ok(s)));
                assert(snap::took(mid.snaps, self.snaps, s.id, mid.ignore, tree@, now, m));
                let recorded = self.sessions.update_snap_count(&s.id, m.n);
                assert(session::creates(before.sessions, mid.sessions, name, now, Ok(s)));
                assert(snap::took(before.snaps, self.snaps, s.id, before.ignore, tree@, now, m));
                match recorded {
                    Ok(_) => Ok(s),
                    Err(e) => Err(e),
                }
            },
            Err(e) => Err(e),
        }
    }

    /// Captures the text files of the project one by one, as the start of a session.
    pub fn capture_initial_state(&mut self, id: &SessionId, tree: &Vec<WorkFile>, now: Millis) -> (r:
        Result<(), GrsError>)
        requires
            tree@.len() <= u32::MAX,
        ensures
            initial(*old(self), *final(self), *id, tree@, now, r),
    {
        let mut seq: u32 = 0;
        let mut i: usize = 0;
        let ghost all = self.snaps.file_view();
        while i < tree.len()
            invariant
                i <= tree.len(),
                tree@.len() <= u32::MAX,
                self.same_project(*old(self)),
                self.sessions == old(self).sessions,
                self.head == old(self).head,
                self.snaps.paths == old(self).snaps.paths,
                self.snaps.snaps == old(self).snaps.snaps,
                all == old(self).snaps.file_view(),
                seq <= i,
                with_initial(all, self.ignore, tree@, *id, now, i as int) == (
                    self.snaps.file_view(),
                    seq as int,
                ),
            decreases tree.len() - i,
        {
            let w = &tree[i];
            let rel = paths::relativize(&self.ignore.root, &w.path);
            let n: usize = text::chars_of(rel.as_str()).len();
            if n > 0 && self.ignore.is_kept(&w.path) && !text::same(rel.as_str(), ".grsignore")
                && !text::same(rel.as_str(), ".gitignore") && !fs::is_binary_file(&w.content) {
                if let Some(content) = fs::read_content_or_binary_placeholder(&w.content) {
                    let none = String::new();
                    assert(none@ =~= Seq::empty());
                    let d = diff::line_diff(none.as_str(), content.as_str());
                    let s = SnapStore::build_snap(seq, rel, content, d, None, now);
                    self.snaps.write(id, s);
                    seq = seq + 1;
                }
            }
            i += 1;
        }
        self.update_session_counts(id)
    }

    /// Records how many snaps of single files a session has, and of how many files.
    pub fn update_session_counts(&mut self, id: &SessionId) -> (r: Result<(), GrsError>)
        ensures
            final(self).same_project(*old(self)),
            final(self).snaps == old(self).snaps,
            final(self).head == old(self).head,
            recounts(*old(self), final(self).sessions, *id, r),
    {
        let (snap_count, file_count) = self.snaps.count_files(id);
        let mut s = match self.sessions.get(id) {
            Ok(m) => m.copy(),
            Err(e) => {
                return Err(e);
            },
        };
        s.snap_count = snap_count;
        s.file_count = file_count;
        self.sessions.write_meta(&s)
    }

    /// Deletes a session with all its snaps. An open session is refused.
    pub fn delete_session(&mut self, id: &SessionId) -> (r: Result<(), GrsError>)
        ensures
            deletes(*old(self), *final(self), *id, r),
    {
        let open = match self.sessions.get(id) {
            Ok(m) => m.is_open(),
            Err(_) => {
                return Err(
                    GrsError::NotFound(text::concat("session ", id.as_str().as_str())),
                );
            },
        };
        if open {
            return Err(GrsError::SessionOpen(*id));
        }
        let name = id.as_str();
        let mut kept: Vec<SessionEntry> = Vec::new();
        let ghost all = self.sessions.entries@;
        let ghost keep = |e: SessionEntry| e.folder@ != id.text();
        let ghost mut done: int = 0;
        assert(all.take(0) =~= Seq::empty());
        assert(all.skip(0) =~= all);
        assert(kept@ =~= all.take(0).filter(keep)) by {
            reveal(Seq::filter);
        }
        while self.sessions.entries.len() > 0
            invariant
                0 <= done <= all.len(),
                self.same_project(*old(self)),
                self.head == old(self).head,
                self.snaps == old(self).snaps,
                self.sessions.paths == old(self).sessions.paths,
                name@ == id.text(),
                keep == (|e: SessionEntry| e.folder@ != id.text()),
                self.sessions.entries@ == all.skip(done),
                kept@ == all.take(done).filter(keep),
            decreases self.sessions.entries.len(),
        {
            let e = self.sessions.entries.remove(0);
            assert(e == all[done]);
            assert(self.sessions.entries@ =~= all.skip(done + 1));
            assert(all.take(done + 1).drop_last() =~= all.take(done));
            if !text::same(e.folder.as_str(), name.as_str()) {
                kept.push(e);
            }
            proof {
                reveal(Seq::filter);
                assert(kept@ == all.take(done + 1).filter(keep));
                done = done + 1;
            }
        }
        assert(all.take(done) =~= all);
        self.sessions.entries = kept;
        self.snaps.forget(id);
        Ok(())
    }
}

impl SnapStore {
    /// Drops all snaps of a session.
    fn forget(&mut self, id: &SessionId)
        ensures
            final(self).paths == old(self).paths,
            final(self).snaps@ == old(self).snaps@.filter(|s: StoredSnap| s.session != *id),
            final(self).file_snaps@ == old(self).file_snaps@.filter(|s: FileSnap| s.session != *id),
    {
        let ghost keep = |s: StoredSnap| s.session != *id;
        let ghost all = self.snaps@;
        let mut kept: Vec<StoredSnap> = Vec::new();
        let ghost mut done: int = 0;
        assert(all.take(0) =~= Seq::empty());
        assert(all.skip(0) =~= all);
        assert(kept@ =~= all.take(0).filter(keep)) by {
            reveal(Seq::filter);
        }
        while self.snaps.len() > 0
            invariant
                0 <= done <= all.len(),
                self.paths == old(self).paths,
                self.file_snaps == old(self).file_snaps,
                keep == (|s: StoredSnap| s.session != *id),
                self.snaps@ == all.skip(done),
                kept@ == all.take(done).filter(keep),
            decreases self.snaps.len(),
        {
            let s = self.snaps.remove(0);
            assert(s == all[done]);
            assert(self.snaps@ =~= all.skip(done + 1));
            assert(all.take(done + 1).drop_last() =~= all.take(done));
            if s.session != *id {
                kept.push(s);
            }
            proof {
                reveal(Seq::filter);
                assert(kept@ == all.take(done + 1).filter(keep));
                done = done + 1;
            }
        }
        assert(all.take(done) =~= all);
        self.snaps = kept;
        let ghost keep2 = |s: FileSnap| s.session != *id;
        let ghost all2 = self.file_snaps@;
        let mut kept2: Vec<FileSnap> = Vec::new();
        let ghost mut done2: int = 0;
        assert(all2.take(0) =~= Seq::empty());
        assert(all2.skip(0) =~= all2);
        assert(kept2@ =~= all2.take(0).filter(keep2)) by {
            reveal(Seq::filter);
        }
        while self.file_snaps.len() > 0
            invariant
                0 <= done2 <= all2.len(),
                self.paths == old(self).paths,
                self.snaps@ == all.filter(keep),
                keep2 == (|s: FileSnap| s.session != *id),
                self.file_snaps@ == all2.skip(done2),
                kept2@ == all2.take(done2).filter(keep2),
            decreases self.file_snaps.len(),
        {
            let s = self.file_snaps.remove(0);
            assert(s == all2[done2]);
            assert(self.file_snaps@ =~= all2.skip(done2 + 1));
            assert(all2.take(done2 + 1).drop_last() =~= all2.take(done2));
            if s.session != *id {
                kept2.push(s);
            }
            proof {
                reveal(Seq::filter);
                assert(kept2@ == all2.take(done2 + 1).filter(keep2));
                done2 = done2 + 1;
            }
        }
        assert(all2.take(done2) =~= all2);
        self.file_snaps = kept2;
    }
}

/// What opening a project gives.
pub open spec fn opens(root: PathModel, disk: Disk, r: Result<RepoStore, GrsError>) -> bool {
    if disk.grs != GrsEntry::Directory {
        r is Err && r->Err_0 is NotInitialized
    } else {
        match r {
            Ok(store) => {
                &&& store.wf()
                &&& store.root@ == root
                &&& store.head == disk.head
                &&& store.sessions.entries == disk.sessions
                &&& store.snaps.snaps == disk.snaps
                &&& store.snaps.file_snaps == disk.file_snaps
                &&& store.ignore.ignore_files == disk.ignore_files
                &&& exists|repo: ConfigLayer| #[trigger]
                    crate::config::loads(
                        crate::config::repo_config_path(root),
                        disk.config_text@,
                        disk.config,
                        Ok(repo),
                    ) && config::in_force(disk.user, repo, store.config)
            },
            Err(e) => crate::config::loads(
                crate::config::repo_config_path(root),
                disk.config_text@,
                disk.config,
                Err(e),
            ),
        }
    }
}

/// Whether a project has nothing yet but its ignore file: no session, no snap, no
/// `HEAD`, and the default configuration.
pub open spec fn is_empty_project(store: RepoStore, root: PathModel, disk: Disk) -> bool {
    &&& store.wf()
    &&& store.root@ == root
    &&& store.config.is_default()
    &&& store.head@.len() == 0
    &&& store.sessions.entries@.len() == 0
    &&& store.snaps.snaps@.len() == 0
    &&& store.snaps.file_snaps@.len() == 0
    &&& store.ignore.ignore_files@.len() == disk.ignore_files@.len() + 1
    &&& store.ignore.ignore_files@.skip(1) == disk.ignore_files@
    &&& store.ignore.ignore_files@[0].dir@ == root
    &&& store.ignore.ignore_files@[0].text@ == DEFAULT_GRSIGNORE@
}

/// Whether a project differs from what it was in its configuration alone, which is now that
/// of the user.
pub open spec fn configured(before: RepoStore, after: RepoStore, user: ConfigLayer) -> bool {
    &&& config::in_force(user, config::nothing_set(), after.config)
    &&& after.ignore.root == before.ignore.root
    &&& after.ignore.ignore_files == before.ignore.ignore_files
    &&& after.ignore.extra_patterns@ == after.config.watcher.ignore_extra@
    &&& after == (RepoStore { config: after.config, ignore: after.ignore, ..before })
}

/// What initializing a project does: from nothing, a first session is started, and the
/// user's configuration is taken. Where there is something named `.grs`, it is refused.
pub open spec fn inits(
    root: PathModel,
    disk: Disk,
    name: String,
    tree: Seq<WorkFile>,
    now: Millis,
    r: Result<RepoStore, GrsError>,
) -> bool {
    if disk.grs != GrsEntry::Absent {
        r is Err && r->Err_0 is AlreadyInitialized
    } else {
        exists|empty: RepoStore, after: RepoStore, s: Result<SessionMeta, GrsError>|
            is_empty_project(empty, root, disk) && #[trigger] starts(
                empty,
                after,
                name,
                tree,
                now,
                s,
            ) && match s {
                Ok(_) => r is Ok && configured(after, r->Ok_0, disk.user),
                Err(e) => r == Err::<RepoStore, GrsError>(e),
            }
    }
}

/// The record of a session that ends now, with its snaps and files counted anew.
pub open spec fn ended(before: RepoStore, m: SessionMeta, now: Millis) -> SessionMeta {
    SessionMeta {
        ended_at: Some(now),
        snap_count: before.counts(before.head_id()->0).0,
        file_count: before.counts(before.head_id()->0).1,
        ..m
    }
}

/// What ending the session of `HEAD` does: where `HEAD` points at an open session, that
/// session ends now with its numbers of snaps and files; otherwise nothing, also where `HEAD`
/// holds no id.
pub open spec fn closes(before: RepoStore, after: SessionStore, now: Millis) -> bool {
    match before.open_at_head() {
        Some(m) => session::updates(
            before.sessions,
            after,
            ended(before, m, now),
            Ok(ended(before, m, now)),
        ),
        None => after == before.sessions,
    }
}

/// When the session of `HEAD` cannot be ended: its record lies in no directory of its own.
pub open spec fn close_fails(before: RepoStore, e: GrsError) -> bool {
    before.open_at_head() is Some && before.sessions.slot(before.open_at_head()->0.id, 0) is None
        && session::no_directory(before.open_at_head()->0.id, e)
}

impl RepoStore {
    /// The record of the session that `HEAD` points at, where that session is open.
    pub open spec fn open_at_head(self) -> Option<SessionMeta> {
        match self.head_id() {
            Some(id) => match self.sessions.record(id) {
                StoredSession::Present(m) => if m.open_now() {
                    Some(m)
                } else {
                    None
                },
                _ => None,
            },
            None => None,
        }
    }
}

/// What starting a session does: it is created, `HEAD` points at it, and the files of
/// the project are captured one by one. A name that is refused changes nothing.
pub open spec fn starts(
    before: RepoStore,
    after: RepoStore,
    name: String,
    tree: Seq<WorkFile>,
    now: Millis,
    r: Result<SessionMeta, GrsError>,
) -> bool {
    match r {
        Ok(s) => exists|mid: RepoStore, done: Result<(), GrsError>|
            mid.same_project(before) && mid.snaps == before.snaps && mid.head@ == head_text(s.id)
                && session::creates(before.sessions, mid.sessions, name, now, r)
                && #[trigger] initial(mid, after, s.id, tree, now, done),
        Err(e) => after == before && session::creates(
            before.sessions,
            before.sessions,
            name,
            now,
            r,
        ),
    }
}

/// What capturing the files one by one does.
pub open spec fn initial(
    before: RepoStore,
    after: RepoStore,
    id: SessionId,
    tree: Seq<WorkFile>,
    now: Millis,
    r: Result<(), GrsError>,
) -> bool {
    &&& after.same_project(before)
    &&& after.head == before.head
    &&& after.snaps.paths == before.snaps.paths
    &&& after.snaps.snaps == before.snaps.snaps
    &&& after.snaps.file_view() == with_initial(
        before.snaps.file_view(),
        before.ignore,
        tree,
        id,
        now,
        tree.len() as int,
    ).0
    &&& recounted(before.sessions, after.sessions, id, after.counts(id), r)
}

/// What recording the number of snaps and files does.
pub open spec fn recounts(
    before: RepoStore,
    after: SessionStore,
    id: SessionId,
    r: Result<(), GrsError>,
) -> bool {
    recounted(before.sessions, after, id, before.counts(id), r)
}

/// What recording these numbers of snaps and files does.
pub open spec fn recounted(
    before: SessionStore,
    after: SessionStore,
    id: SessionId,
    counts: (u32, u32),
    r: Result<(), GrsError>,
) -> bool {
    match before.record(id) {
        StoredSession::Present(m) => {
            let m2 = SessionMeta { snap_count: counts.0, file_count: counts.1, ..m };
            session::updates(
                before,
                after,
                m2,
                match r {
                    Ok(_) => Ok(m2),
                    Err(e) => Err(e),
                },
            )
        },
        missing => r is Err && session::no_session(missing, id, r->Err_0) && after == before,
    }
}

/// What rotating does: the open session ends, then a new one starts. Where the new one
/// is refused, the old one has still ended.
pub open spec fn rotates(
    before: RepoStore,
    after: RepoStore,
    name: String,
    tree: Seq<WorkFile>,
    now: Millis,
    r: Result<SessionMeta, GrsError>,
) -> bool {
    ||| r is Err && after == before && close_fails(before, r->Err_0)
    ||| exists|mid: RepoStore|
        mid.same_project(before) && mid.snaps == before.snaps && mid.head == before.head && closes(
            before,
            mid.sessions,
            now,
        ) && #[trigger] starts(mid, after, name, tree, now, r)
}

/// What opening a first session does: it is created, `HEAD` points at it, the tree is
/// captured as its next snap, and the number of that snap is recorded.
pub open spec fn opens_first(
    before: RepoStore,
    after: RepoStore,
    name: String,
    tree: Seq<WorkFile>,
    now: Millis,
    r: Result<SessionMeta, GrsError>,
) -> bool {
    ||| r is Err && after == before && session::creates(
        before.sessions,
        before.sessions,
        name,
        now,
        r,
    )
    ||| exists|mid: SessionStore, s: SessionMeta, m: SnapMeta|
        {
            &&& #[trigger] session::creates(before.sessions, mid, name, now, Ok(s))
            &&& #[trigger] snap::took(
                before.snaps,
                after.snaps,
                s.id,
                before.ignore,
                tree,
                now,
                m,
            )
            &&& after.same_project(before)
            &&& after.head@ == head_text(s.id)
            &&& match mid.record(s.id) {
                StoredSession::Present(x) => session::updates(
                    mid,
                    after.sessions,
                    SessionMeta { snap_count: m.n, ..x },
                    match r {
                        Ok(_) => Ok(SessionMeta { snap_count: m.n, ..x }),
                        Err(e) => Err(e),
                    },
                ),
                missing => r is Err && session::no_session(missing, s.id, r->Err_0) && after.sessions
                    == mid,
            }
            &&& r is Ok ==> r->Ok_0 == s
        }
}

/// What deleting a session does: its directory and its snaps go, and nothing else. A
/// session that cannot be read is not found, and an open one is refused.
pub open spec fn deletes(
    before: RepoStore,
    after: RepoStore,
    id: SessionId,
    r: Result<(), GrsError>,
) -> bool {
    match before.sessions.record(id) {
        StoredSession::Present(m) => if m.open_now() {
            r == Err::<(), GrsError>(GrsError::SessionOpen(id)) && after == before
        } else {
            &&& r is Ok
            &&& after.same_project(before)
            &&& after.head == before.head
            &&& after.sessions.paths == before.sessions.paths
            &&& after.sessions.entries@ == before.sessions.entries@.filter(
                |e: SessionEntry| e.folder@ != id.text(),
            )
            &&& after.snaps.paths == before.snaps.paths
            &&& after.snaps.snaps@ == before.snaps.snaps@.filter(|s: StoredSnap| s.session != id)
            &&& after.snaps.file_snaps@ == before.snaps.file_snaps@.filter(
                |s: FileSnap| s.session != id,
            )
        },
        _ => r is Err && r->Err_0 is NotFound && r->Err_0->NotFound_0@ == "session "@ + id.text()
            && after == before,
    }
}

/// Stores a snap of a single file in a session and records the new counts. `given` is
/// the earlier content to compare with; without it, that of the last snap of the file
/// in the session is taken. Gives the number of the snap.
pub fn write_file_snap(
    store: &mut RepoStore,
    id: &SessionId,
    file_path: &str,
    content: &str,
    given: Option<&str>,
    now: Millis,
) -> (r: Result<u32, GrsError>)
    requires
        file_snap::following_seq(old(store).snaps.file_view(), *id) <= u32::MAX,
    ensures
        final(store).same_project(*old(store)),
        final(store).head == old(store).head,
        final(store).snaps.snaps == old(store).snaps.snaps,
        final(store).snaps.file_view() == old(store).snaps.file_view().push(
            (
                *id,
                file_snap::next_snap(
                    old(store).snaps.file_view(),
                    *id,
                    file_path@,
                    content@,
                    match given {
                        Some(p) => Some(p@),
                        None => None,
                    },
                    now,
                ),
            ),
        ),
        r is Ok ==> r->Ok_0 == file_snap::following_seq(old(store).snaps.file_view(), *id),
        recounted(
            old(store).sessions,
            final(store).sessions,
            *id,
            final(store).counts(*id),
            match r {
                Ok(_) => Ok(()),
                Err(e) => Err(e),
            },
        ),
{
    let seq: u32 = store.snaps.write_next(id, file_path, content, given, now);
    match store.update_session_counts(id) {
        Ok(_) => Ok(seq),
        Err(e) => Err(e),
    }
}

/// Records how many snaps of single files a session has, and of how many files.
pub fn update_session_counts(store: &mut RepoStore, id: &SessionId) -> (r: Result<(), GrsError>)
    ensures
        final(store).same_project(*old(store)),
        final(store).snaps == old(store).snaps,
        final(store).head == old(store).head,
        recounts(*old(store), final(store).sessions, *id, r),
{
    store.update_session_counts(id)
}

/// How many snaps of single files a session has, and of how many files.
pub fn recompute_counts(store: &RepoStore, id: &SessionId) -> (r: (u32, u32))
    ensures
        r == store.counts(*id),
{
    store.snaps.count_files(id)
}

/// Captures the text files of the project one by one, as the start of a session.
pub fn capture_initial_state(
    store: &mut RepoStore,
    id: &SessionId,
    tree: &Vec<WorkFile>,
    now: Millis,
) -> (r: Result<(), GrsError>)
    requires
        tree@.len() <= u32::MAX,
    ensures
        initial(*old(store), *final(store), *id, tree@, now, r),
{
    store.capture_initial_state(id, tree, now)
}

/// The present time.
pub fn fresh_now() -> (r: Millis)
    ensures
        0 <= r,
        time::in_calendar(r),
{
    time::now_ms()
}

/// Starting a session leaves `HEAD` on a session that is open and has the given name,
/// and leaves all other sessions as they were.
pub proof fn law_started_session_is_open(
    before: RepoStore,
    after: RepoStore,
    name: String,
    tree: Seq<WorkFile>,
    now: Millis,
    s: SessionMeta,
    other: SessionId,
)
    requires
        before.sessions.wf(),
        before.sessions.unique_names(),
        starts(before, after, name, tree, now, Ok(s)),
    ensures
        after.sessions.wf(),
        after.sessions.unique_names(),
        after.head_id() == Some(s.id),
        after.open_at_head() is Some,
        after.open_at_head()->0.name == name,
        after.open_at_head()->0.id == s.id,
        after.open_at_head()->0.snap_count == after.counts(s.id).0,
        after.open_at_head()->0.file_count == after.counts(s.id).1,
        other != s.id ==> after.sessions.record(other) == before.sessions.record(other),
{
    let (mid, done) = choose|mid: RepoStore, done: Result<(), GrsError>|
        mid.same_project(before) && mid.snaps == before.snaps && mid.head@ == head_text(s.id)
            && session::creates(before.sessions, mid.sessions, name, now, Ok(s)) && #[trigger] initial(
            mid,
            after,
            s.id,
            tree,
            now,
            done,
        );
    session::law_create_keeps_names_unique(
        before.sessions,
        mid.sessions,
        name,
        now,
        Ok(s),
        other,
    );
    law_head_round_trip(s.id);
    let counts = after.counts(s.id);
    let m2 = SessionMeta { snap_count: counts.0, file_count: counts.1, ..s };
    session::lemma_recorded_has_slot(mid.sessions, s.id, s);
    session::law_update_keeps_names_unique(
        mid.sessions,
        after.sessions,
        s.id,
        s,
        m2,
        other,
    );
}

/// Rotating leaves `HEAD` on a new open session, and the session that was open before
/// has ended now with its snaps and files counted anew. Other sessions do not change, and
/// none does where `HEAD` was missing, broken or on a session that had ended. The new id is
/// taken to be fresh, as ids made of the time and a random number are.
pub proof fn law_rotate(
    before: RepoStore,
    after: RepoStore,
    name: String,
    tree: Seq<WorkFile>,
    now: Millis,
    s: SessionMeta,
    other: SessionId,
)
    requires
        before.sessions.wf(),
        before.sessions.unique_names(),
        rotates(before, after, name, tree, now, Ok(s)),
        before.sessions.record(s.id) is Missing,
    ensures
        after.sessions.wf(),
        after.sessions.unique_names(),
        after.head_id() == Some(s.id),
        after.open_at_head() is Some,
        after.open_at_head()->0.name == name,
        match before.open_at_head() {
            Some(m) => after.sessions.record(before.head_id()->0) == StoredSession::Present(
                ended(before, m, now),
            ),
            None => true,
        },
        other != s.id && (before.open_at_head() is None || Some(other) != before.head_id())
            ==> after.sessions.record(other) == before.sessions.record(other),
{
    let mid = choose|mid: RepoStore|
        mid.same_project(before) && mid.snaps == before.snaps && mid.head == before.head && closes(
            before,
            mid.sessions,
            now,
        ) && #[trigger] starts(mid, after, name, tree, now, Ok(s));
    if let Some(m) = before.open_at_head() {
        let id = before.head_id()->0;
        let m2 = ended(before, m, now);
        session::law_update_keeps_names_unique(before.sessions, mid.sessions, id, m, m2, other);
        session::law_update_keeps_names_unique(before.sessions, mid.sessions, id, m, m2, id);
        law_started_session_is_open(mid, after, name, tree, now, s, id);
    }
    law_started_session_is_open(mid, after, name, tree, now, s, other);
}

/// Rotating keeps the records in order, whether it succeeds or not: no two sessions share a
/// name, and a session that has ended stays so unless the new one took its id.
pub proof fn law_rotation_keeps_sessions(
    before: RepoStore,
    after: RepoStore,
    name: String,
    tree: Seq<WorkFile>,
    now: Millis,
    r: Result<SessionMeta, GrsError>,
    other: SessionId,
)
    requires
        before.sessions.wf(),
        before.sessions.unique_names(),
        rotates(before, after, name, tree, now, r),
    ensures
        after.sessions.wf(),
        after.sessions.unique_names(),
        before.sessions.record(other) is Present && (r is Ok ==> other != r->Ok_0.id) ==> {
            &&& after.sessions.record(other) is Present
            &&& !before.sessions.record(other)->Present_0.open_now()
                ==> after.sessions.record(other) == before.sessions.record(other)
        },
{
    if !(r is Err && after == before && close_fails(before, r->Err_0)) {
        let mid = choose|mid: RepoStore|
            mid.same_project(before) && mid.snaps == before.snaps && mid.head == before.head
                && closes(before, mid.sessions, now) && #[trigger] starts(
                mid,
                after,
                name,
                tree,
                now,
                r,
            );
        if let Some(m) = before.open_at_head() {
            let id = before.head_id()->0;
            let m2 = ended(before, m, now);
            session::lemma_recorded_has_slot(before.sessions, id, m);
            session::law_update_keeps_names_unique(before.sessions, mid.sessions, id, m, m2, other);
        }
        if let Ok(s) = r {
            law_started_session_is_open(mid, after, name, tree, now, s, other);
        }
    }
}

/// Rotating succeeds with every name that is not blank and not in use, whatever `HEAD` holds.
pub proof fn law_rotation_succeeds(
    before: RepoStore,
    after: RepoStore,
    name: String,
    tree: Seq<WorkFile>,
    now: Millis,
    r: Result<SessionMeta, GrsError>,
)
    requires
        before.sessions.wf(),
        before.sessions.unique_names(),
        rotates(before, after, name, tree, now, r),
        text::trim(name@).len() > 0,
        !before.sessions.taken(name@),
    ensures
        r is Ok,
{
    if let Some(m) = before.open_at_head() {
        session::lemma_recorded_has_slot(before.sessions, before.head_id()->0, m);
    }
    if r is Err {
        let mid = choose|mid: RepoStore|
            mid.same_project(before) && mid.snaps == before.snaps && mid.head == before.head
                && closes(before, mid.sessions, now) && #[trigger] starts(
                mid,
                after,
                name,
                tree,
                now,
                r,
            );
        if let Some(m) = before.open_at_head() {
            session::lemma_update_keeps_taken(
                before.sessions,
                mid.sessions,
                before.head_id()->0,
                m,
                ended(before, m, now),
                name@,
            );
        }
    }
}

/// A project that was just initialized has `HEAD` on an open session with the given
/// name.
pub proof fn law_init_opens_a_session(
    root: PathModel,
    disk: Disk,
    name: String,
    tree: Seq<WorkFile>,
    now: Millis,
    store: RepoStore,
)
    requires
        inits(root, disk, name, tree, now, Ok(store)),
    ensures
        store.wf(),
        store.root@ == root,
        store.sessions.wf(),
        store.sessions.unique_names(),
        store.open_at_head() is Some,
        store.open_at_head()->0.name == name,
{
    let (empty, after, r) = choose|
        empty: RepoStore,
        after: RepoStore,
        s: Result<SessionMeta, GrsError>,
    |
        is_empty_project(empty, root, disk) && #[trigger] starts(
            empty,
            after,
            name,
            tree,
            now,
            s,
        ) && match s {
            Ok(_) => configured(after, store, disk.user),
            Err(e) => Ok::<RepoStore, GrsError>(store) == Err::<RepoStore, GrsError>(e),
        };
    let s = r->Ok_0;
    law_started_session_is_open(empty, after, name, tree, now, s, s.id);
    let (mid, done) = choose|mid: RepoStore, done: Result<(), GrsError>|
        mid.same_project(empty) && mid.snaps == empty.snaps && mid.head@ == head_text(s.id)
            && session::creates(empty.sessions, mid.sessions, name, now, Ok(s)) && #[trigger] initial(
            mid,
            after,
            s.id,
            tree,
            now,
            done,
        );
}

/// Deleting takes the session and its snaps away and leaves all others. An open session is
/// never deleted, so a `HEAD` that points at an open session still does.
pub proof fn law_delete(
    before: RepoStore,
    after: RepoStore,
    id: SessionId,
    r: Result<(), GrsError>,
    other: SessionId,
)
    requires
        before.sessions.wf(),
        deletes(before, after, id, r),
    ensures
        after.sessions.wf(),
        before.sessions.unique_names() ==> after.sessions.unique_names(),
        r is Ok ==> after.sessions.record(id) is Missing,
        r is Ok ==> forall|i: int|
            0 <= i < after.sessions.all().len() ==> (#[trigger] after.sessions.all()[i]).id != id,
        r is Ok ==> forall|i: int|
            0 <= i < after.snaps.snaps@.len() ==> (#[trigger] after.snaps.snaps@[i]).session != id,
        other != id ==> after.sessions.record(other) == before.sessions.record(other),
        before.open_at_head() is Some ==> after.open_at_head() == before.open_at_head(),
{
    if r is Ok {
        session::law_dropping_leaves_the_others(before.sessions, after.sessions, id, other);
        assert forall|i: int| 0 <= i < after.sessions.all().len() implies (
        #[trigger] after.sessions.all()[i]).id != id by {
            assert(after.sessions.all().contains(after.sessions.all()[i]));
            session::law_listing_is_complete(after.sessions, after.sessions.all()[i]);
        }
        assert forall|i: int| 0 <= i < after.snaps.snaps@.len() implies (
        #[trigger] after.snaps.snaps@[i]).session != id by {
            order::lemma_filter_holds(before.snaps.snaps@, |s: StoredSnap| s.session != id, i);
        }
        if let Some(h) = before.head_id() {
            session::law_dropping_leaves_the_others(before.sessions, after.sessions, id, h);
        }
    }
}

/// Each snap of a single file gets the number after the last one, and adds one to the
/// count of its session.
pub proof fn law_file_snaps_count_up(
    snaps: Seq<(SessionId, SnapModel)>,
    id: SessionId,
    m: SnapModel,
)
    requires
        m.seq == file_snap::following_seq(snaps, id),
    ensures
        file_snap::following_seq(snaps.push((id, m)), id) == m.seq + 1,
        file_snap::snaps_of(snaps.push((id, m)), id, snaps.len() as int + 1) == file_snap::snaps_of(
            snaps,
            id,
            snaps.len() as int,
        ) + 1,
{
    let after = snaps.push((id, m));
    lemma_last_seq_prefix(snaps, after, id, snaps.len() as int);
    lemma_snaps_of_prefix(snaps, after, id, snaps.len() as int);
}

proof fn lemma_last_seq_prefix(
    a: Seq<(SessionId, SnapModel)>,
    b: Seq<(SessionId, SnapModel)>,
    id: SessionId,
    k: int,
)
    requires
        0 <= k <= a.len(),
        k <= b.len(),
        forall|i: int| 0 <= i < k ==> #[trigger] a[i] == b[i],
    ensures
        file_snap::last_seq(a, id, None, k) == file_snap::last_seq(b, id, None, k),
    decreases k,
{
    if k > 0 {
        lemma_last_seq_prefix(a, b, id, k - 1);
        assert(a[k - 1] == b[k - 1]);
    }
}

proof fn lemma_snaps_of_prefix(
    a: Seq<(SessionId, SnapModel)>,
    b: Seq<(SessionId, SnapModel)>,
    id: SessionId,
    k: int,
)
    requires
        0 <= k <= a.len(),
        k <= b.len(),
        forall|i: int| 0 <= i < k ==> #[trigger] a[i] == b[i],
    ensures
        file_snap::snaps_of(a, id, k) == file_snap::snaps_of(b, id, k),
    decreases k,
{
    if k > 0 {
        lemma_snaps_of_prefix(a, b, id, k - 1);
        assert(a[k - 1] == b[k - 1]);
    }
}

/// Whether a file is a text file of the project that a session starts from: it is kept, lies
/// below the root, is no ignore file, and its bytes are UTF-8 without a zero near the start.
pub open spec fn is_text_of_the_project(ignore: IgnoreMatcher, w: WorkFile) -> bool {
    let path = paths::relative_text(ignore.root@, w.path@);
    &&& ignore.keeps(w.path@)
    &&& path.len() > 0
    &&& path != ".grsignore"@
    &&& path != ".gitignore"@
    &&& w.content is Read
    &&& vstd::utf8::valid_utf8(w.content->Read_0@)
    &&& forall|i: int| 0 <= i < w.content->Read_0@.len() && i < 8192 ==> #[trigger] w.content->Read_0@[i] != 0
}

/// Whether a snap is the start of a file: its path, its text as a whole, all its lines added
/// and none removed, and no snap before it.
pub open spec fn is_start_of(
    m: SnapModel,
    ignore: IgnoreMatcher,
    w: WorkFile,
    now: Millis,
) -> bool {
    &&& m.version == 1
    &&& m.timestamp == now
    &&& m.file_path == paths::relative_text(ignore.root@, w.path@)
    &&& w.content is Read && vstd::utf8::valid_utf8(w.content->Read_0@) ==> m.content
        == vstd::utf8::decode_utf8(w.content->Read_0@)
    &&& w.content is Missing ==> m.content.len() == 0
    &&& m.added_lines == diff::added(diff::line_ops(Seq::empty(), m.content))
    &&& m.removed_lines == diff::removed(diff::line_ops(Seq::empty(), m.content))
    &&& m.prev_seq is None
    &&& m.diff_prev_seq is None
}

proof fn lemma_with_initial(
    snaps: Seq<(SessionId, SnapModel)>,
    ignore: IgnoreMatcher,
    tree: Seq<WorkFile>,
    id: SessionId,
    now: Millis,
    k: int,
)
    requires
        0 <= k <= tree.len() <= u32::MAX,
        forall|i: int| 0 <= i < snaps.len() ==> (#[trigger] snaps[i]).0 != id,
    ensures
        ({
            let (all, n) = with_initial(snaps, ignore, tree, id, now, k);
            &&& 0 <= n <= k
            &&& all.len() == snaps.len() + n
            &&& forall|i: int| 0 <= i < snaps.len() ==> #[trigger] all[i] == snaps[i]
            &&& forall|j: int|
                snaps.len() <= j < all.len() ==> (#[trigger] all[j]).0 == id && all[j].1.seq == j
                    - snaps.len()
        }),
    decreases k,
{
    if k > 0 {
        lemma_with_initial(snaps, ignore, tree, id, now, k - 1);
        let (rest, n) = with_initial(snaps, ignore, tree, id, now, k - 1);
        if starts_with_file(ignore, tree[k - 1]) {
            lemma_number_is_free(snaps, rest, id, n);
        }
    }
}

proof fn lemma_number_is_free(
    snaps: Seq<(SessionId, SnapModel)>,
    rest: Seq<(SessionId, SnapModel)>,
    id: SessionId,
    n: int,
)
    requires
        0 <= n <= u32::MAX,
        rest.len() == snaps.len() + n,
        forall|i: int| 0 <= i < snaps.len() ==> (#[trigger] snaps[i]).0 != id,
        forall|i: int| 0 <= i < snaps.len() ==> #[trigger] rest[i] == snaps[i],
        forall|j: int|
            snaps.len() <= j < rest.len() ==> (#[trigger] rest[j]).0 == id && rest[j].1.seq == j
                - snaps.len(),
    ensures
        file_snap::seq_slot(rest, id, n as u32, 0) is None,
{
    file_snap::lemma_seq_slot(rest, id, n as u32, 0);
    if let Some(i) = file_snap::seq_slot(rest, id, n as u32, 0) {
        if i < snaps.len() {
            assert(rest[i] == snaps[i]);
            assert(snaps[i].0 != id);
        } else {
            assert(rest[i].1.seq == i - snaps.len());
        }
    }
}

/// One more file of a tree adds a snap that is its start, or nothing.
proof fn lemma_with_initial_step(
    snaps: Seq<(SessionId, SnapModel)>,
    ignore: IgnoreMatcher,
    tree: Seq<WorkFile>,
    id: SessionId,
    now: Millis,
    k: int,
)
    requires
        0 < k <= tree.len() <= u32::MAX,
        forall|i: int| 0 <= i < snaps.len() ==> (#[trigger] snaps[i]).0 != id,
    ensures
        ({
            let rest = with_initial(snaps, ignore, tree, id, now, k - 1).0;
            let all = with_initial(snaps, ignore, tree, id, now, k).0;
            if starts_with_file(ignore, tree[k - 1]) {
                &&& all == rest.push(all.last())
                &&& all.len() == rest.len() + 1
                &&& is_start_of(all.last().1, ignore, tree[k - 1], now)
            } else {
                all == rest
            }
        }),
{
    lemma_with_initial(snaps, ignore, tree, id, now, k - 1);
    let (rest, n) = with_initial(snaps, ignore, tree, id, now, k - 1);
    if starts_with_file(ignore, tree[k - 1]) {
        lemma_number_is_free(snaps, rest, id, n);
    }
}

proof fn lemma_initial_has_each_file(
    snaps: Seq<(SessionId, SnapModel)>,
    ignore: IgnoreMatcher,
    tree: Seq<WorkFile>,
    id: SessionId,
    now: Millis,
    k: int,
    i: int,
)
    requires
        0 <= i < k <= tree.len() <= u32::MAX,
        forall|i: int| 0 <= i < snaps.len() ==> (#[trigger] snaps[i]).0 != id,
        starts_with_file(ignore, tree[i]),
    ensures
        ({
            let all = with_initial(snaps, ignore, tree, id, now, k).0;
            exists|j: int|
                snaps.len() <= j < all.len() && is_start_of(
                    (#[trigger] all[j]).1,
                    ignore,
                    tree[i],
                    now,
                )
        }),
    decreases k,
{
    lemma_with_initial_step(snaps, ignore, tree, id, now, k);
    lemma_with_initial(snaps, ignore, tree, id, now, k - 1);
    let rest = with_initial(snaps, ignore, tree, id, now, k - 1).0;
    let all = with_initial(snaps, ignore, tree, id, now, k).0;
    if i == k - 1 {
        assert(all[all.len() - 1] == all.last());
    } else {
        lemma_initial_has_each_file(snaps, ignore, tree, id, now, k - 1, i);
        let j = choose|j: int|
            snaps.len() <= j < rest.len() && is_start_of(
                (#[trigger] rest[j]).1,
                ignore,
                tree[i],
                now,
            );
        assert(all[j] == rest[j]);
    }
}

proof fn lemma_initial_has_no_other(
    snaps: Seq<(SessionId, SnapModel)>,
    ignore: IgnoreMatcher,
    tree: Seq<WorkFile>,
    id: SessionId,
    now: Millis,
    k: int,
    j: int,
)
    requires
        0 <= k <= tree.len() <= u32::MAX,
        forall|i: int| 0 <= i < snaps.len() ==> (#[trigger] snaps[i]).0 != id,
        snaps.len() <= j < with_initial(snaps, ignore, tree, id, now, k).0.len(),
    ensures
        exists|i: int|
            0 <= i < k && starts_with_file(ignore, #[trigger] tree[i]) && is_start_of(
                with_initial(snaps, ignore, tree, id, now, k).0[j].1,
                ignore,
                tree[i],
                now,
            ),
    decreases k,
{
    if k > 0 {
        lemma_with_initial_step(snaps, ignore, tree, id, now, k);
        let rest = with_initial(snaps, ignore, tree, id, now, k - 1).0;
        let all = with_initial(snaps, ignore, tree, id, now, k).0;
        if j < rest.len() {
            lemma_initial_has_no_other(snaps, ignore, tree, id, now, k - 1, j);
            assert(all[j] == rest[j]);
            let i = choose|i: int|
                0 <= i < k - 1 && starts_with_file(ignore, #[trigger] tree[i]) && is_start_of(
                    rest[j].1,
                    ignore,
                    tree[i],
                    now,
                );
            assert(starts_with_file(ignore, tree[i]));
        } else {
            assert(all[j] == all.last());
            assert(starts_with_file(ignore, tree[k - 1]));
        }
    }
}

/// A session starts from the text files of the project. For each of them it holds a snap with
/// the file's relative path and its whole text; these snaps come behind all that were there,
/// which stay, and are numbered from 0. Each of them is the start of a file of the tree that is
/// kept and is no ignore file. The id is taken to be fresh, as ids made of the time and a
/// random number are.
pub proof fn law_session_starts_from_the_files(
    before: RepoStore,
    after: RepoStore,
    name: String,
    tree: Seq<WorkFile>,
    now: Millis,
    s: SessionMeta,
)
    requires
        tree.len() <= u32::MAX,
        starts(before, after, name, tree, now, Ok(s)),
        forall|i: int|
            0 <= i < before.snaps.file_view().len() ==> (#[trigger] before.snaps.file_view()[i]).0
                != s.id,
    ensures
        ({
            let was = before.snaps.file_view();
            let all = after.snaps.file_view();
            let ignore = before.ignore;
            &&& after.snaps.snaps == before.snaps.snaps
            &&& all.len() >= was.len()
            &&& forall|i: int| 0 <= i < was.len() ==> #[trigger] all[i] == was[i]
            &&& forall|j: int|
                was.len() <= j < all.len() ==> (#[trigger] all[j]).0 == s.id && all[j].1.seq == j
                    - was.len()
            &&& forall|i: int|
                0 <= i < tree.len() && is_text_of_the_project(ignore, #[trigger] tree[i])
                    ==> exists|j: int|
                    was.len() <= j < all.len() && is_start_of(
                        (#[trigger] all[j]).1,
                        ignore,
                        tree[i],
                        now,
                    )
            &&& forall|j: int|
                was.len() <= j < all.len() ==> exists|i: int|
                    0 <= i < tree.len() && ignore.keeps((#[trigger] tree[i]).path@)
                        && !(tree[i].content is Unreadable) && is_start_of(
                        (#[trigger] all[j]).1,
                        ignore,
                        tree[i],
                        now,
                    ) && all[j].1.file_path.len() > 0 && all[j].1.file_path != ".grsignore"@
                        && all[j].1.file_path != ".gitignore"@ && (tree[i].content is Read
                        ==> forall|b: int|
                        0 <= b < tree[i].content->Read_0@.len() && b < 8192
                            ==> #[trigger] tree[i].content->Read_0@[b] != 0)
        }),
{
    let was = before.snaps.file_view();
    let all = after.snaps.file_view();
    let ignore = before.ignore;
    lemma_with_initial(was, ignore, tree, s.id, now, tree.len() as int);
    assert forall|i: int|
        0 <= i < tree.len() && is_text_of_the_project(ignore, #[trigger] tree[i]) implies exists|
        j: int,
    |
        was.len() <= j < all.len() && is_start_of((#[trigger] all[j]).1, ignore, tree[i], now) by {
        assert(starts_with_file(ignore, tree[i]));
        lemma_initial_has_each_file(was, ignore, tree, s.id, now, tree.len() as int, i);
    }
    assert forall|j: int| was.len() <= j < all.len() implies exists|i: int|
        0 <= i < tree.len() && ignore.keeps((#[trigger] tree[i]).path@)
            && !(tree[i].content is Unreadable) && is_start_of(
            (#[trigger] all[j]).1,
            ignore,
            tree[i],
            now,
        ) && all[j].1.file_path.len() > 0 && all[j].1.file_path != ".grsignore"@
            && all[j].1.file_path != ".gitignore"@ && (tree[i].content is Read ==> forall|b: int|
            0 <= b < tree[i].content->Read_0@.len() && b < 8192
                ==> #[trigger] tree[i].content->Read_0@[b] != 0) by {
        lemma_initial_has_no_other(was, ignore, tree, s.id, now, tree.len() as int, j);
        let i = choose|i: int|
            0 <= i < tree.len() && starts_with_file(ignore, #[trigger] tree[i]) && is_start_of(
                all[j].1,
                ignore,
                tree[i],
                now,
            );
        assert(starts_with_file(ignore, tree[i]));
        assert(ignore.keeps(tree[i].path@));
    }
}

/// How many snaps of single files a store has for a session.
pub open spec fn number_of_snaps(store: RepoStore, id: SessionId) -> nat {
    store.snaps.file_view().filter(file_snap::of_session(id)).len()
}

/// The files that a store has snaps of for a session.
pub open spec fn snapped_files(store: RepoStore, id: SessionId) -> Set<Seq<char>> {
    Set::new(
        |p: Seq<char>|
            exists|i: int|
                0 <= i < store.snaps.file_view().len() && (
                #[trigger] store.snaps.file_view()[i]).0 == id
                    && store.snaps.file_view()[i].1.file_path == p,
    )
}

/// The counts of a session are the number of its snaps and of the different files that they
/// are of.
pub proof fn law_counts_count_snaps_and_files(store: RepoStore, id: SessionId)
    ensures
        store.counts(id).0 == number_of_snaps(store, id) as usize as u32,
        store.counts(id).1 == snapped_files(store, id).len() as usize as u32,
{
    let all = store.snaps.file_view();
    let n = all.len() as int;
    file_snap::law_snaps_are_counted(all, id, n);
    file_snap::law_files_are_those_of_the_snaps(all, id, n);
    assert(all.take(n) =~= all);
    assert(file_snap::files_of(all, id, n) =~= snapped_files(store, id));
}

/// Rotating ends the session that was open: it ended now, with the number of its snaps and of
/// the files that they are of. Its name, its id and its start stay. The new session started
/// now, is open, has another name, and its counts are those of the snaps it starts with.
pub proof fn law_rotation_ends_one_session_and_starts_another(
    before: RepoStore,
    after: RepoStore,
    name: String,
    tree: Seq<WorkFile>,
    now: Millis,
    s: SessionMeta,
    m: SessionMeta,
)
    requires
        before.sessions.wf(),
        before.sessions.unique_names(),
        rotates(before, after, name, tree, now, Ok(s)),
        before.sessions.record(s.id) is Missing,
        before.head_id() is Some,
        before.sessions.record(before.head_id()->0) == StoredSession::Present(m),
        m.ended_at is None,
    ensures
        after.sessions.record(m.id) matches StoredSession::Present(x) && x.id == m.id && x.name
            == m.name && x.slug == m.slug && x.started_at == m.started_at && x.version == m.version
            && x.ended_at == Some(now) && x.snap_count == number_of_snaps(before, m.id) as usize as u32
            && x.file_count == snapped_files(before, m.id).len() as usize as u32,
        after.head_id() == Some(s.id),
        s.id != m.id,
        s.name@ != m.name@,
        after.sessions.record(s.id) matches StoredSession::Present(y) && y.id == s.id && y.name
            == name && y.started_at == now && y.ended_at is None && y.snap_count == number_of_snaps(
            after,
            s.id,
        ) as usize as u32 && y.file_count == snapped_files(after, s.id).len() as usize as u32,
{
    let id = before.head_id()->0;
    law_rotate(before, after, name, tree, now, s, id);
    law_counts_count_snaps_and_files(before, id);
    law_counts_count_snaps_and_files(after, s.id);
    let mid = choose|mid: RepoStore|
        mid.same_project(before) && mid.snaps == before.snaps && mid.head == before.head && closes(
            before,
            mid.sessions,
            now,
        ) && #[trigger] starts(mid, after, name, tree, now, Ok(s));
    let m2 = ended(before, m, now);
    session::law_update_keeps_names_unique(before.sessions, mid.sessions, id, m, m2, id);
    session::law_update_keeps_names_unique(before.sessions, mid.sessions, id, m, m2, s.id);
    law_started_session_says(mid, after, name, tree, now, s);
    let (third, done) = choose|third: RepoStore, done: Result<(), GrsError>|
        third.same_project(mid) && third.snaps == mid.snaps && third.head@ == head_text(s.id)
            && session::creates(mid.sessions, third.sessions, name, now, Ok(s)) && #[trigger] initial(
            third,
            after,
            s.id,
            tree,
            now,
            done,
        );
    session::law_listing_is_complete(mid.sessions, m2);
    let w = choose|w: int| 0 <= w < mid.sessions.all().len() && mid.sessions.all()[w] == m2;
    if m.name@ == name@ {
        assert(session::is_named(mid.sessions.all()[w], name@));
    }
}

/// Ending the session of `HEAD` keeps the records in order.
pub proof fn lemma_closed_keeps(before: RepoStore, mid: RepoStore, now: Millis)
    requires
        before.sessions.wf(),
        before.sessions.unique_names(),
        closes(before, mid.sessions, now),
    ensures
        mid.sessions.wf(),
        mid.sessions.unique_names(),
{
    if let Some(m) = before.open_at_head() {
        let id = before.head_id()->0;
        session::lemma_recorded_has_slot(before.sessions, id, m);
        session::law_update_keeps_names_unique(
            before.sessions,
            mid.sessions,
            id,
            m,
            ended(before, m, now),
            id,
        );
    }
}

/// The record of a session that was just started: the name given, started now, open, with the
/// counts of the snaps that it starts with.
pub proof fn law_started_session_says(
    before: RepoStore,
    after: RepoStore,
    name: String,
    tree: Seq<WorkFile>,
    now: Millis,
    s: SessionMeta,
)
    requires
        before.sessions.wf(),
        before.sessions.unique_names(),
        starts(before, after, name, tree, now, Ok(s)),
    ensures
        s.name == name,
        s.started_at == now,
        s.ended_at is None,
        after.head_id() == Some(s.id),
        after.sessions.record(s.id) matches StoredSession::Present(y) && y.id == s.id && y.name
            == name && y.slug == s.slug && y.started_at == now && y.ended_at is None && y.snap_count
            == number_of_snaps(after, s.id) as usize as u32 && y.file_count == snapped_files(
            after,
            s.id,
        ).len() as usize as u32,
{
    let (mid, done) = choose|mid: RepoStore, done: Result<(), GrsError>|
        mid.same_project(before) && mid.snaps == before.snaps && mid.head@ == head_text(s.id)
            && session::creates(before.sessions, mid.sessions, name, now, Ok(s)) && #[trigger] initial(
            mid,
            after,
            s.id,
            tree,
            now,
            done,
        );
    session::law_create_keeps_names_unique(
        before.sessions,
        mid.sessions,
        name,
        now,
        Ok(s),
        s.id,
    );
    law_head_round_trip(s.id);
    law_counts_count_snaps_and_files(after, s.id);
    let counts = after.counts(s.id);
    let m2 = SessionMeta { snap_count: counts.0, file_count: counts.1, ..s };
    session::lemma_recorded_has_slot(mid.sessions, s.id, s);
    session::law_update_keeps_names_unique(mid.sessions, after.sessions, s.id, s, m2, s.id);
}

/// A project that is opened has what was found on disk: its `HEAD`, its sessions, its snaps and
/// its ignore files, and the settings of its own file on top of the user's.
pub proof fn law_opened_project_has_what_is_on_disk(root: PathModel, disk: Disk, store: RepoStore)
    requires
        opens(root, disk, Ok(store)),
    ensures
        disk.grs == GrsEntry::Directory,
        store.root@ == root,
        store.head@ == disk.head@,
        store.sessions.entries@ == disk.sessions@,
        store.snaps.snaps@ == disk.snaps@,
        store.snaps.file_snaps@ == disk.file_snaps@,
        store.ignore.ignore_files@ == disk.ignore_files@,
        store.ignore.root@ == root,
        store.ignore.extra_patterns@ == store.config.watcher.ignore_extra@,
        text::trim(disk.config_text@).len() > 0 ==> disk.config is Ok && config::in_force(
            disk.user,
            disk.config->Ok_0,
            store.config,
        ),
        text::trim(disk.config_text@).len() == 0 ==> config::in_force(
            disk.user,
            config::nothing_set(),
            store.config,
        ),
{
}

/// Opening fails only where there is no directory, or where the file with the settings cannot be
/// parsed.
pub proof fn law_opening_fails_for_a_reason(root: PathModel, disk: Disk, e: GrsError)
    requires
        opens(root, disk, Err(e)),
    ensures
        disk.grs != GrsEntry::Directory ==> e is NotInitialized,
        disk.grs == GrsEntry::Directory ==> disk.config is Err && e is Config,
{
}

/// A project that was just initialized holds the default ignore file in front of those that were
/// found, the user's settings, no snap of a tree, and the text files that were there as the start
/// of its only session.
pub proof fn law_init_starts_from_the_files(
    root: PathModel,
    disk: Disk,
    name: String,
    tree: Seq<WorkFile>,
    now: Millis,
    store: RepoStore,
    i: int,
)
    requires
        tree.len() <= u32::MAX,
        inits(root, disk, name, tree, now, Ok(store)),
    ensures
        disk.grs == GrsEntry::Absent,
        config::in_force(disk.user, config::nothing_set(), store.config),
        store.ignore.root@ == root,
        store.ignore.ignore_files@.len() == disk.ignore_files@.len() + 1,
        store.ignore.ignore_files@[0].dir@ == root,
        store.ignore.ignore_files@[0].text@ == DEFAULT_GRSIGNORE@,
        store.snaps.snaps@.len() == 0,
        store.open_at_head() matches Some(m) && m.name == name && m.started_at == now,
        exists|ignore: IgnoreMatcher| #[trigger]
            plain_rules(ignore, store.ignore) && (0 <= i < tree.len() && is_text_of_the_project(
                ignore,
                tree[i],
            ) ==> exists|j: int|
                0 <= j < store.snaps.file_view().len() && (
                #[trigger] store.snaps.file_view()[j]).0 == store.head_id()->0 && is_start_of(
                    store.snaps.file_view()[j].1,
                    ignore,
                    tree[i],
                    now,
                )),
{
    let (empty, after, r) = choose|
        empty: RepoStore,
        after: RepoStore,
        s: Result<SessionMeta, GrsError>,
    |
        is_empty_project(empty, root, disk) && #[trigger] starts(
            empty,
            after,
            name,
            tree,
            now,
            s,
        ) && match s {
            Ok(_) => configured(after, store, disk.user),
            Err(e) => Ok::<RepoStore, GrsError>(store) == Err::<RepoStore, GrsError>(e),
        };
    let s = r->Ok_0;
    assert(empty.snaps.file_view().len() == 0);
    law_session_starts_from_the_files(empty, after, name, tree, now, s);
    law_started_session_says(empty, after, name, tree, now, s);
    let (mid, done) = choose|mid: RepoStore, done: Result<(), GrsError>|
        mid.same_project(empty) && mid.snaps == empty.snaps && mid.head@ == head_text(s.id)
            && session::creates(empty.sessions, mid.sessions, name, now, Ok(s)) && #[trigger] initial(
            mid,
            after,
            s.id,
            tree,
            now,
            done,
        );
    assert(after.ignore == empty.ignore);
    assert(plain_rules(empty.ignore, store.ignore));
}

/// Whether rules are those of a project without the patterns of its configuration.
pub open spec fn plain_rules(plain: IgnoreMatcher, full: IgnoreMatcher) -> bool {
    &&& plain.root@ == full.root@
    &&& plain.ignore_files@ == full.ignore_files@
    &&& plain.extra_patterns@.len() == 0
}

/// Deleting a session takes its snaps away, of trees and of files, and leaves all others as they
/// are and in their order. `HEAD` and the settings stay.
pub proof fn law_delete_takes_only_the_snaps_of_the_session(
    before: RepoStore,
    after: RepoStore,
    id: SessionId,
)
    requires
        deletes(before, after, id, Ok(())),
    ensures
        after.head == before.head,
        after.config == before.config,
        forall|x: StoredSnap|
            after.snaps.snaps@.contains(x) <==> #[trigger] before.snaps.snaps@.contains(x)
                && x.session != id,
        forall|x: FileSnap|
            after.snaps.file_snaps@.contains(x) <==> #[trigger] before.snaps.file_snaps@.contains(x)
                && x.session != id,
{
    let keep = |s: StoredSnap| s.session != id;
    let stay = |s: FileSnap| s.session != id;
    assert forall|x: StoredSnap|
        after.snaps.snaps@.contains(x) <==> #[trigger] before.snaps.snaps@.contains(x) && x.session
            != id by {
        if after.snaps.snaps@.contains(x) {
            let i = choose|i: int| 0 <= i < after.snaps.snaps@.len() && after.snaps.snaps@[i] == x;
            order::lemma_filter_holds(before.snaps.snaps@, keep, i);
        }
        if before.snaps.snaps@.contains(x) && x.session != id {
            order::lemma_filter_keeps(before.snaps.snaps@, keep, x);
        }
    }
    assert forall|x: FileSnap|
        after.snaps.file_snaps@.contains(x) <==> #[trigger] before.snaps.file_snaps@.contains(x)
            && x.session != id by {
        if after.snaps.file_snaps@.contains(x) {
            let i = choose|i: int|
                0 <= i < after.snaps.file_snaps@.len() && after.snaps.file_snaps@[i] == x;
            order::lemma_filter_holds(before.snaps.file_snaps@, stay, i);
        }
        if before.snaps.file_snaps@.contains(x) && x.session != id {
            order::lemma_filter_keeps(before.snaps.file_snaps@, stay, x);
        }
    }
}

/// A session that has ended and is recorded can be deleted; an open one is refused with its id,
/// and one that is not recorded is not found.
pub proof fn law_what_can_be_deleted(
    before: RepoStore,
    after: RepoStore,
    id: SessionId,
    r: Result<(), GrsError>,
)
    requires
        deletes(before, after, id, r),
    ensures
        match before.sessions.record(id) {
            StoredSession::Present(m) => if m.ended_at is Some {
                r is Ok
            } else {
                r == Err::<(), GrsError>(GrsError::SessionOpen(id))
            },
            _ => r is Err && r->Err_0 is NotFound,
        },
        r is Err ==> after == before,
{
}

/// A first session captures the whole tree as its next snap: it is open, `HEAD` is on it, and its
/// record says the number of that snap.
pub proof fn law_first_session_captures_the_tree(
    before: RepoStore,
    after: RepoStore,
    name: String,
    tree: Seq<WorkFile>,
    now: Millis,
    s: SessionMeta,
)
    requires
        before.sessions.wf(),
        before.sessions.unique_names(),
        opens_first(before, after, name, tree, now, Ok(s)),
    ensures
        after.head_id() == Some(s.id),
        after.ignore == before.ignore,
        exists|m: SnapMeta| #[trigger]
            snap::took(before.snaps, after.snaps, s.id, before.ignore, tree, now, m)
                && after.sessions.record(s.id) == StoredSession::Present(
                SessionMeta { snap_count: m.n, ..s },
            ),
        s.name == name,
        s.ended_at is None,
        s.started_at == now,
{
    let (sessions, m) = choose|sessions: SessionStore, m: SnapMeta|
        {
            &&& #[trigger] session::creates(before.sessions, sessions, name, now, Ok(s))
            &&& #[trigger] snap::took(
                before.snaps,
                after.snaps,
                s.id,
                before.ignore,
                tree,
                now,
                m,
            )
            &&& after.same_project(before)
            &&& after.head@ == head_text(s.id)
            &&& sessions.record(s.id) is Present
            &&& session::updates(
                sessions,
                after.sessions,
                SessionMeta { snap_count: m.n, ..sessions.record(s.id)->Present_0 },
                Ok(SessionMeta { snap_count: m.n, ..sessions.record(s.id)->Present_0 }),
            )
        };
    session::law_create_keeps_names_unique(before.sessions, sessions, name, now, Ok(s), s.id);
    law_head_round_trip(s.id);
    session::law_update_keeps_names_unique(
        sessions,
        after.sessions,
        s.id,
        s,
        SessionMeta { snap_count: m.n, ..s },
        s.id,
    );
}

/// The text of `HEAD` is read without the white space around it. It names no session where
/// nothing is left.
pub proof fn law_head_is_read_without_blanks(head: Seq<char>)
    ensures
        (forall|i: int| 0 <= i < head.len() ==> text::space(#[trigger] head[i])) ==> head_in(
            head,
        ) is None && !head_broken(head),
        head_broken(head) ==> head_in(head) is None,
        text::trim(head).len() > 0 ==> head_in(head) == session::id_in(text::trim(head)),
{
    text::law_trim_takes_white_space_from_the_ends(head);
    let (a, b) = choose|a: int, b: int|
        0 <= a <= b <= head.len() && text::trim(head) == #[trigger] head.subrange(a, b) && (
        forall|i: int| 0 <= i < head.len() && !(a <= i < b) ==> text::space(#[trigger] head[i]))
            && (a < b ==> !text::space(head[a]) && !text::space(head[b - 1]));
    if a < b {
        assert(!text::space(head[a]));
    }
}

/// Counting a session anew writes both numbers into its record, and changes nothing else.
pub proof fn law_counting_writes_both_numbers(
    before: SessionStore,
    after: SessionStore,
    id: SessionId,
    counts: (u32, u32),
    r: Result<(), GrsError>,
    m: SessionMeta,
    other: SessionId,
)
    requires
        before.wf(),
        before.unique_names(),
        before.record(id) == StoredSession::Present(m),
        recounted(before, after, id, counts, r),
    ensures
        r is Ok,
        after.record(id) matches StoredSession::Present(x) && x.snap_count == counts.0
            && x.file_count == counts.1 && x.name == m.name && x.id == m.id && x.started_at
            == m.started_at && x.ended_at == m.ended_at,
        other != id ==> after.record(other) == before.record(other),
{
    let x = SessionMeta { snap_count: counts.0, file_count: counts.1, ..m };
    session::lemma_recorded_has_slot(before, id, m);
    session::law_update_keeps_names_unique(before, after, id, m, x, other);
    session::law_update_keeps_names_unique(before, after, id, m, x, id);
}

/// The current session is the one that `HEAD` names, where it is recorded; it is open exactly if
/// it has not ended.
pub proof fn law_current_session_is_at_head(store: RepoStore, m: SessionMeta)
    requires
        store.head_id() is Some,
        store.sessions.record(store.head_id()->0) == StoredSession::Present(m),
    ensures
        m.ended_at is None ==> store.open_at_head() == Some(m),
        m.ended_at is Some ==> store.open_at_head() is None,
{
}

} // verus!
