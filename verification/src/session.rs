//! The sessions of a project.
//!
//! Sessions carry names of the user's choice, unique within the project. Each lies in
//! a directory of its own that is named after its id and does not move when the
//! session is renamed.

use crate::error::GrsError;
use crate::model::SessionMeta;
use crate::order;
use crate::order::Ranked;
use crate::path::FsPath;
use crate::paths;
use crate::paths::GrsPaths;
use crate::text;
use crate::ulid;
use crate::ulid::SessionId;
use crate::util::time;
use crate::util::time::Millis;
use vstd::prelude::*;

verus! {

/// The record of a session as it was found on disk.
#[derive(Debug)]
pub enum StoredSession {
    Present(SessionMeta),
    /// There is no such file.
    Missing,
    /// The file could not be read, for this reason.
    Unreadable(String),
    /// The file holds no record, for this reason.
    Malformed(String),
}

/// One directory among the sessions.
#[derive(Debug)]
pub struct SessionEntry {
    /// The name of the directory.
    pub folder: String,
    pub meta: StoredSession,
}

/// The sessions of a project.
#[derive(Debug)]
pub struct SessionStore {
    pub paths: GrsPaths,
    pub entries: Vec<SessionEntry>,
}

impl Ranked for SessionMeta {
    open spec fn before(self, other: SessionMeta) -> bool {
        self.started_at > other.started_at
    }

    fn comes_before(&self, other: &SessionMeta) -> (r: bool) {
        self.started_at > other.started_at
    }
}

/// What a name or an id, or the beginning of one, stands for.
pub enum Resolution {
    Found(SessionMeta),
    Ambiguous,
    Nothing,
}

/// Whether a text is the beginning of a session's name or id, but not its name.
pub open spec fn begins(s: SessionMeta, q: Seq<char>) -> bool {
    s.name@ != q && (text::has_prefix(s.name@, q) || text::has_prefix(s.id.text(), q))
}

/// Whether a text is the name of a session.
pub open spec fn is_named(s: SessionMeta, q: Seq<char>) -> bool {
    s.name@ == q
}

/// The id that a text spells out.
pub open spec fn id_in(q: Seq<char>) -> Option<SessionId> {
    if ulid::ulid_fault(q) is None {
        Some(SessionId((ulid::base32_number(q) % ulid::two_pow_128()) as u128))
    } else {
        None
    }
}

/// Whether `e` is what to say of a session whose record cannot be had.
pub open spec fn no_session(meta: StoredSession, id: SessionId, e: GrsError) -> bool {
    match meta {
        StoredSession::Present(_) => false,
        StoredSession::Missing => e is NotFound && e->NotFound_0@ == "session "@ + id.text()
            + " has no meta.toml"@,
        StoredSession::Unreadable(m) => e == GrsError::Io(m),
        StoredSession::Malformed(m) => e == GrsError::Toml(m),
    }
}

impl SessionStore {
    /// The first directory from `k` on that is named after the id.
    pub open spec fn slot(self, id: SessionId, k: int) -> Option<int>
        decreases self.entries@.len() - k,
    {
        if k >= self.entries@.len() {
            None
        } else if self.entries@[k].folder@ == id.text() {
            Some(k)
        } else {
            self.slot(id, k + 1)
        }
    }

    /// The record of a session.
    pub open spec fn record(self, id: SessionId) -> StoredSession {
        match self.slot(id, 0) {
            Some(i) => self.entries@[i].meta,
            None => StoredSession::Missing,
        }
    }

    /// The sessions that the first `k` directories name, in the order found. A
    /// directory counts if its name holds an id and the record of that id can be had.
    pub open spec fn found(self, k: int) -> Seq<SessionMeta>
        decreases k,
    {
        if k <= 0 {
            Seq::empty()
        } else {
            match paths::folder_id(self.entries@[k - 1].folder@) {
                Some(id) => match self.record(id) {
                    StoredSession::Present(m) => self.found(k - 1).push(m),
                    _ => self.found(k - 1),
                },
                None => self.found(k - 1),
            }
        }
    }

    /// All sessions, the newest first.
    pub open spec fn all(self) -> Seq<SessionMeta> {
        order::sorted_by(self.found(self.entries@.len() as int), order::rank::<SessionMeta>())
    }

    /// Whether a session has this name.
    pub open spec fn taken(self, name: Seq<char>) -> bool {
        exists|i: int| 0 <= i < self.all().len() && is_named(#[trigger] self.all()[i], name)
    }

    /// What a name or an id, or the beginning of one, stands for: a whole id comes
    /// first, then a whole name, then the beginning of either.
    pub open spec fn resolution(self, q: Seq<char>) -> Resolution {
        let named = self.all().filter(|s: SessionMeta| is_named(s, q));
        let begun = self.all().filter(|s: SessionMeta| begins(s, q));
        if id_in(q) is Some && self.record(id_in(q)->0) is Present {
            Resolution::Found(self.record(id_in(q)->0)->Present_0)
        } else if named.len() > 1 {
            Resolution::Ambiguous
        } else if named.len() == 1 {
            Resolution::Found(named[0])
        } else if begun.len() > 1 {
            Resolution::Ambiguous
        } else if begun.len() == 1 {
            Resolution::Found(begun[0])
        } else {
            Resolution::Nothing
        }
    }

    /// Whether `e` is what to say of a text that does not stand for one session.
    pub open spec fn unresolved(self, q: Seq<char>, e: GrsError) -> bool {
        match self.resolution(q) {
            Resolution::Found(_) => false,
            Resolution::Ambiguous => e is AmbiguousId && e->AmbiguousId_0@ == q,
            Resolution::Nothing => e is NotFound && e->NotFound_0@ == "no session matching \""@ + q
                + "\""@,
        }
    }

    /// Whether one store came from another by writing the record of a session into
    /// the directory named after its id, and nothing else.
    pub open spec fn wrote(self, after: SessionStore, m: SessionMeta) -> bool {
        &&& after.paths == self.paths
        &&& self.slot(m.id, 0) is Some
        &&& after.entries@.len() == self.entries@.len()
        &&& forall|i: int|
            0 <= i < self.entries@.len() && i != self.slot(m.id, 0)->0 ==> #[trigger] after.entries@[i]
                == self.entries@[i]
        &&& after.entries@[self.slot(m.id, 0)->0].folder == self.entries@[self.slot(
            m.id,
            0,
        )->0].folder
        &&& after.entries@[self.slot(m.id, 0)->0].meta == StoredSession::Present(m)
    }

    /// Whether one store came from another by adding a session.
    pub open spec fn added(self, after: SessionStore, m: SessionMeta) -> bool {
        if self.slot(m.id, 0) is Some {
            self.wrote(after, m)
        } else {
            &&& after.paths == self.paths
            &&& after.entries@.len() == self.entries@.len() + 1
            &&& after.entries@.drop_last() == self.entries@
            &&& after.entries@.last().folder@ == m.id.text()
            &&& after.entries@.last().meta == StoredSession::Present(m)
        }
    }

    /// A store of the sessions that were found on disk.
    pub fn new(paths: GrsPaths, entries: Vec<SessionEntry>) -> (r: SessionStore)
        ensures
            r.paths == paths,
            r.entries == entries,
    {
        SessionStore { paths, entries }
    }

    fn find(&self, id: &SessionId) -> (r: Option<usize>)
        ensures
            match r {
                Some(i) => i < self.entries@.len() && self.slot(*id, 0) == Some(i as int),
                None => self.slot(*id, 0) is None,
            },
    {
        let name = id.as_str();
        let mut i: usize = 0;
        while i < self.entries.len()
            invariant
                i <= self.entries.len(),
                name@ == id.text(),
                self.slot(*id, 0) == self.slot(*id, i as int),
            decreases self.entries.len() - i,
        {
            if text::same(self.entries[i].folder.as_str(), name.as_str()) {
                return Some(i);
            }
            i += 1;
        }
        None
    }

    /// The record of a session.
    pub fn get(&self, id: &SessionId) -> (r: Result<&SessionMeta, GrsError>)
        ensures
            match r {
                Ok(m) => self.record(*id) == StoredSession::Present(*m),
                Err(e) => no_session(self.record(*id), *id, e),
            },
    {
        match self.find(id) {
            Some(i) => match &self.entries[i].meta {
                StoredSession::Present(m) => Ok(m),
                StoredSession::Missing => Err(missing_session(id)),
                StoredSession::Unreadable(m) => Err(GrsError::Io(m.clone())),
                StoredSession::Malformed(m) => Err(GrsError::Toml(m.clone())),
            },
            None => Err(missing_session(id)),
        }
    }

    /// All sessions, the newest first.
    pub fn list(&self) -> (r: Vec<SessionMeta>)
        ensures
            r@ == self.all(),
    {
        let mut out: Vec<SessionMeta> = Vec::new();
        let mut i: usize = 0;
        while i < self.entries.len()
            invariant
                i <= self.entries.len(),
                out@ =~= self.found(i as int),
            decreases self.entries.len() - i,
        {
            if let Some(id) = paths::parse_session_folder(self.entries[i].folder.as_str()) {
                if let Ok(m) = self.get(&id) {
                    out.push(m.copy());
                }
            }
            i += 1;
        }
        order::sort(out)
    }

    /// The one session that a name or an id, or the beginning of one, stands for.
    pub fn resolve(&self, name_or_id: &str) -> (r: Result<SessionMeta, GrsError>)
        ensures
            match r {
                Ok(m) => self.resolution(name_or_id@) == Resolution::Found(m),
                Err(e) => self.unresolved(name_or_id@, e),
            },
    {
        if let Ok(id) = SessionId::parse(name_or_id) {
            if let Ok(m) = self.get(&id) {
                return Ok(m.copy());
            }
        }
        let all = self.list();
        let mut named: Vec<SessionMeta> = Vec::new();
        let mut begun: Vec<SessionMeta> = Vec::new();
        let ghost is = |s: SessionMeta| is_named(s, name_or_id@);
        let ghost bs = |s: SessionMeta| begins(s, name_or_id@);
        let mut i: usize = 0;
        assert(all@.take(0) =~= Seq::empty());
        proof {
            reveal(Seq::filter);
        }
        assert(named@ =~= all@.take(0).filter(is));
        assert(begun@ =~= all@.take(0).filter(bs));
        while i < all.len()
            invariant
                i <= all.len(),
                is == (|s: SessionMeta| is_named(s, name_or_id@)),
                bs == (|s: SessionMeta| begins(s, name_or_id@)),
                named@ == all@.take(i as int).filter(is),
                begun@ == all@.take(i as int).filter(bs),
            decreases all.len() - i,
        {
            let s = &all[i];
            assert(all@.take(i + 1).drop_last() =~= all@.take(i as int));
            if text::same(s.name.as_str(), name_or_id) {
                named.push(s.copy());
            } else if text::starts_with(s.name.as_str(), name_or_id) || text::starts_with(
                s.id.as_str().as_str(),
                name_or_id,
            ) {
                begun.push(s.copy());
            }
            proof {
                reveal(Seq::filter);
                assert(named@ == all@.take(i + 1).filter(is));
                assert(begun@ == all@.take(i + 1).filter(bs));
            }
            i += 1;
        }
        assert(all@.take(i as int) =~= all@);
        if named.len() > 1 {
            return Err(GrsError::AmbiguousId(name_or_id.to_owned()));
        }
        if named.len() == 1 {
            return Ok(named.remove(0));
        }
        if begun.len() == 0 {
            return Err(
                GrsError::NotFound(text::concat3("no session matching \"", name_or_id, "\"")),
            );
        }
        if begun.len() == 1 {
            return Ok(begun.remove(0));
        }
        Err(GrsError::AmbiguousId(name_or_id.to_owned()))
    }

    /// Whether a session already has this name.
    pub fn name_taken(&self, name: &str) -> (r: bool)
        ensures
            r == self.taken(name@),
    {
        let all = self.list();
        let mut i: usize = 0;
        while i < all.len()
            invariant
                i <= all.len(),
                all@ == self.all(),
                forall|k: int| 0 <= k < i ==> !is_named(#[trigger] self.all()[k], name@),
            decreases all.len() - i,
        {
            if text::same(all[i].name.as_str(), name) {
                assert(is_named(self.all()[i as int], name@));
                return true;
            }
            i += 1;
        }
        false
    }

    /// Opens a session with a fresh id. The name must hold more than white space and
    /// must not be in use.
    pub fn create_new(&mut self, name: String, started_at: Millis) -> (r: Result<
        SessionMeta,
        GrsError,
    >)
        ensures
            creates(*old(self), *final(self), name, started_at, r),
    {
        let id = SessionId::new();
        self.create_with_id(name, started_at, id)
    }

    /// Opens a session with the given id. The name must hold more than white space and
    /// must not be in use.
    pub fn create_with_id(&mut self, name: String, started_at: Millis, id: SessionId) -> (r: Result<
        SessionMeta,
        GrsError,
    >)
        ensures
            creates(*old(self), *final(self), name, started_at, r),
            r is Ok ==> r->Ok_0.id == id,
    {
        let trimmed = text::trimmed(name.as_str());
        if text::chars_of(trimmed.as_str()).len() == 0 {
            return Err(GrsError::InvalidName(name));
        }
        if self.name_taken(name.as_str()) {
            return Err(GrsError::NameInUse(name));
        }
        let slug = paths::slugify(name.as_str());
        let session = SessionMeta::new_open(name, id, slug, started_at);
        match self.find(&id) {
            Some(i) => {
                self.put(i, session.copy());
            },
            None => {
                let ghost before = self.entries@;
                self.entries.push(
                    SessionEntry {
                        folder: id.as_str(),
                        meta: StoredSession::Present(session.copy()),
                    },
                );
                assert(self.entries@.drop_last() =~= before);
            },
        }
        Ok(session)
    }

    fn put(&mut self, i: usize, session: SessionMeta)
        requires
            i < old(self).entries@.len(),
            old(self).slot(session.id, 0) == Some(i as int),
        ensures
            old(self).wrote(*final(self), session),
    {
        let folder = self.entries[i].folder.clone();
        self.entries.set(i, SessionEntry { folder, meta: StoredSession::Present(session) });
    }

    /// Writes the record of a session into its directory.
    pub fn write_meta(&mut self, session: &SessionMeta) -> (r: Result<(), GrsError>)
        ensures
            match r {
                Ok(_) => old(self).wrote(*final(self), *session),
                Err(e) => old(self).slot(session.id, 0) is None && *final(self) == *old(self)
                    && no_directory(session.id, e),
            },
    {
        match self.find(&session.id) {
            Some(i) => {
                self.put(i, session.copy());
                Ok(())
            },
            None => Err(
                GrsError::Io(
                    text::concat3("session ", session.id.as_str().as_str(), " has no directory"),
                ),
            ),
        }
    }

    /// Renames a session. Its id, its slug and its directory stay.
    pub fn rename(&mut self, name_or_id: &str, new_name: String) -> (r: Result<
        SessionMeta,
        GrsError,
    >)
        ensures
            renames(*old(self), *final(self), name_or_id@, new_name, r),
    {
        let trimmed = text::trimmed(new_name.as_str());
        if text::chars_of(trimmed.as_str()).len() == 0 {
            return Err(GrsError::InvalidName(new_name));
        }
        let mut session = match self.resolve(name_or_id) {
            Ok(s) => s,
            Err(e) => {
                return Err(e);
            },
        };
        if text::same(session.name.as_str(), new_name.as_str()) {
            return Ok(session);
        }
        if self.name_taken(new_name.as_str()) {
            return Err(GrsError::NameInUse(new_name));
        }
        session.name = new_name;
        match self.write_meta(&session) {
            Ok(_) => Ok(session),
            Err(e) => Err(e),
        }
    }

    /// Ends a session and records how many snaps it has.
    pub fn finalize(&mut self, id: &SessionId, ended_at: Millis, snap_count: u32) -> (r: Result<
        SessionMeta,
        GrsError,
    >)
        ensures
            match old(self).record(*id) {
                StoredSession::Present(m) => updates(
                    *old(self),
                    *final(self),
                    SessionMeta { ended_at: Some(ended_at), snap_count, ..m },
                    r,
                ),
                missing => r is Err && no_session(missing, *id, r->Err_0) && *final(self) == *old(
                    self,
                ),
            },
    {
        let mut session = match self.get(id) {
            Ok(s) => s.copy(),
            Err(e) => {
                return Err(e);
            },
        };
        session.ended_at = Some(ended_at);
        session.snap_count = snap_count;
        match self.write_meta(&session) {
            Ok(_) => Ok(session),
            Err(e) => Err(e),
        }
    }

    /// Ends a session and records how many snaps it has, and of how many files.
    pub(crate) fn finalize_counted(
        &mut self,
        id: &SessionId,
        ended_at: Millis,
        snap_count: u32,
        file_count: u32,
    ) -> (r: Result<SessionMeta, GrsError>)
        ensures
            match old(self).record(*id) {
                StoredSession::Present(m) => updates(
                    *old(self),
                    *final(self),
                    SessionMeta { ended_at: Some(ended_at), snap_count, file_count, ..m },
                    r,
                ),
                missing => r is Err && no_session(missing, *id, r->Err_0) && *final(self) == *old(
                    self,
                ),
            },
    {
        let mut session = match self.get(id) {
            Ok(s) => s.copy(),
            Err(e) => {
                return Err(e);
            },
        };
        session.ended_at = Some(ended_at);
        session.snap_count = snap_count;
        session.file_count = file_count;
        match self.write_meta(&session) {
            Ok(_) => Ok(session),
            Err(e) => Err(e),
        }
    }

    /// Records how many snaps a session has.
    pub fn update_snap_count(&mut self, id: &SessionId, snap_count: u32) -> (r: Result<(), GrsError>)
        ensures
            match old(self).record(*id) {
                StoredSession::Present(m) => updates(
                    *old(self),
                    *final(self),
                    SessionMeta { snap_count, ..m },
                    match r {
                        Ok(_) => Ok(SessionMeta { snap_count, ..m }),
                        Err(e) => Err(e),
                    },
                ),
                missing => r is Err && no_session(missing, *id, r->Err_0) && *final(self) == *old(
                    self,
                ),
            },
    {
        let mut session = match self.get(id) {
            Ok(s) => s.copy(),
            Err(e) => {
                return Err(e);
            },
        };
        session.snap_count = snap_count;
        self.write_meta(&session)
    }

    /// Where the directory of a session lies.
    pub fn session_dir(&self, id: &SessionId) -> (r: FsPath)
        ensures
            r@ == self.paths.sessions_dir@.child(id.text()),
    {
        self.paths.session_dir(id)
    }
}

/// Whether `e` is what to say where a session has no directory to write to.
pub open spec fn no_directory(id: SessionId, e: GrsError) -> bool {
    e is Io && e->Io_0@ == "session "@ + id.text() + " has no directory"@
}

fn missing_session(id: &SessionId) -> (r: GrsError)
    ensures
        no_session(StoredSession::Missing, *id, r),
{
    GrsError::NotFound(text::concat3("session ", id.as_str().as_str(), " has no meta.toml"))
}

/// What creating a session does. A name of white space is refused, then a name in
/// use; otherwise there is one more session, open, with the slug of its name.
pub open spec fn creates(
    before: SessionStore,
    after: SessionStore,
    name: String,
    started_at: Millis,
    r: Result<SessionMeta, GrsError>,
) -> bool {
    if text::trim(name@).len() == 0 {
        r == Err::<SessionMeta, GrsError>(GrsError::InvalidName(name)) && after == before
    } else if before.taken(name@) {
        r == Err::<SessionMeta, GrsError>(GrsError::NameInUse(name)) && after == before
    } else {
        &&& r is Ok
        &&& r->Ok_0.version == crate::model::STORAGE_VERSION
        &&& r->Ok_0.name == name
        &&& r->Ok_0.slug@ == paths::slug(name@)
        &&& r->Ok_0.started_at == started_at
        &&& r->Ok_0.open_now()
        &&& r->Ok_0.snap_count == 0
        &&& r->Ok_0.file_count == 0
        &&& before.added(after, r->Ok_0)
    }
}

/// What writing a changed record does.
pub open spec fn updates(
    before: SessionStore,
    after: SessionStore,
    m: SessionMeta,
    r: Result<SessionMeta, GrsError>,
) -> bool {
    if before.slot(m.id, 0) is Some {
        r == Ok::<SessionMeta, GrsError>(m) && before.wrote(after, m)
    } else {
        r is Err && no_directory(m.id, r->Err_0) && after == before
    }
}

/// What renaming a session does. A name of white space is refused; then the session
/// must be found; a session that has the name keeps it; a name in use is refused;
/// otherwise the name changes and nothing else of the session.
pub open spec fn renames(
    before: SessionStore,
    after: SessionStore,
    q: Seq<char>,
    new_name: String,
    r: Result<SessionMeta, GrsError>,
) -> bool {
    if text::trim(new_name@).len() == 0 {
        r == Err::<SessionMeta, GrsError>(GrsError::InvalidName(new_name)) && after == before
    } else {
        match before.resolution(q) {
            Resolution::Found(m) => if m.name@ == new_name@ {
                r == Ok::<SessionMeta, GrsError>(m) && after == before
            } else if before.taken(new_name@) {
                r == Err::<SessionMeta, GrsError>(GrsError::NameInUse(new_name)) && after == before
            } else {
                updates(before, after, SessionMeta { name: new_name, ..m }, r)
            },
            _ => r is Err && before.unresolved(q, r->Err_0) && after == before,
        }
    }
}

/// The present time, for a session that starts now.
pub fn fresh_started_at() -> (r: Millis)
    ensures
        0 <= r,
        time::in_calendar(r),
{
    time::now_ms()
}

impl SessionStore {
    /// Whether directories and records agree: no two directories have the same name,
    /// a name that holds an id is just that id, and a record lies in the directory
    /// named after its id.
    pub open spec fn wf(self) -> bool {
        &&& forall|i: int, j: int|
            0 <= i < j < self.entries@.len() ==> (#[trigger] self.entries@[i]).folder@ != (
            #[trigger] self.entries@[j]).folder@
        &&& forall|i: int|
            0 <= i < self.entries@.len() ==> match paths::folder_id(
                (#[trigger] self.entries@[i]).folder@,
            ) {
                Some(id) => self.entries@[i].folder@ == id.text(),
                None => true,
            }
        &&& forall|i: int|
            0 <= i < self.entries@.len() ==> match (#[trigger] self.entries@[i]).meta {
                StoredSession::Present(m) => self.entries@[i].folder@ == m.id.text(),
                _ => true,
            }
    }

    /// Whether no two sessions have the same name.
    pub open spec fn unique_names(self) -> bool {
        forall|i: int, j: int|
            0 <= i < j < self.entries@.len() && (#[trigger] self.entries@[i]).meta is Present && (
            #[trigger] self.entries@[j]).meta is Present ==> self.entries@[i].meta->Present_0.name@
                != self.entries@[j].meta->Present_0.name@
    }
}

proof fn lemma_slot(s: SessionStore, id: SessionId, k: int, i: int)
    requires
        s.wf(),
        0 <= k <= i < s.entries@.len(),
        s.entries@[i].folder@ == id.text(),
    ensures
        s.slot(id, k) == Some(i),
    decreases i - k,
{
    if k < i {
        assert(s.entries@[k].folder@ != s.entries@[i].folder@);
        lemma_slot(s, id, k + 1, i);
    }
}

proof fn lemma_slot_found(s: SessionStore, id: SessionId, k: int)
    requires
        0 <= k,
    ensures
        match s.slot(id, k) {
            Some(i) => k <= i < s.entries@.len() && s.entries@[i].folder@ == id.text(),
            None => forall|i: int|
                k <= i < s.entries@.len() ==> (#[trigger] s.entries@[i]).folder@ != id.text(),
        },
    decreases s.entries@.len() - k,
{
    if k < s.entries@.len() && s.entries@[k].folder@ != id.text() {
        lemma_slot_found(s, id, k + 1);
    }
}

/// Under `wf` the listing holds exactly the records.
proof fn lemma_found_iff(s: SessionStore, k: int, m: SessionMeta)
    requires
        s.wf(),
        0 <= k <= s.entries@.len(),
    ensures
        s.found(k).contains(m) <==> exists|i: int|
            0 <= i < k && (#[trigger] s.entries@[i]).meta == StoredSession::Present(m),
    decreases k,
{
    if k > 0 {
        lemma_found_iff(s, k - 1, m);
        let e = s.entries@[k - 1];
        let rest = s.found(k - 1);
        let now = s.found(k);
        match paths::folder_id(e.folder@) {
            Some(id) => {
                lemma_slot(s, id, 0, k - 1);
            },
            None => {
                if let StoredSession::Present(x) = e.meta {
                    ulid::law_round_trip(x.id);
                    ulid::lemma_text_len(x.id);
                }
            },
        }
        if e.meta is Present {
            let x = e.meta->Present_0;
            ulid::law_round_trip(x.id);
            ulid::lemma_text_len(x.id);
            assert(now == rest.push(x));
            if now.contains(m) {
                let w = choose|w: int| 0 <= w < now.len() && now[w] == m;
                if w < rest.len() {
                    assert(rest[w] == m);
                    assert(rest.contains(m));
                } else {
                    assert(s.entries@[k - 1].meta == StoredSession::Present(m));
                }
            }
            if exists|i: int|
                0 <= i < k && (#[trigger] s.entries@[i]).meta == StoredSession::Present(m) {
                let i = choose|i: int|
                    0 <= i < k && (#[trigger] s.entries@[i]).meta == StoredSession::Present(m);
                if i < k - 1 {
                    assert(rest.contains(m));
                    let w = choose|w: int| 0 <= w < rest.len() && rest[w] == m;
                    assert(now[w] == m);
                } else {
                    assert(now[now.len() - 1] == m);
                }
            }
        } else {
            assert(now == rest);
        }
    }
}

/// The listing of all sessions holds exactly the records that can be had.
pub proof fn law_listing_is_complete(s: SessionStore, m: SessionMeta)
    requires
        s.wf(),
    ensures
        s.all().contains(m) <==> s.record(m.id) == StoredSession::Present(m),
{
    let n = s.entries@.len() as int;
    order::lemma_sorted_contains(s.found(n), order::rank::<SessionMeta>(), m);
    lemma_found_iff(s, n, m);
    if s.all().contains(m) {
        let i = choose|i: int|
            0 <= i < n && (#[trigger] s.entries@[i]).meta == StoredSession::Present(m);
        lemma_slot(s, m.id, 0, i);
    }
    if s.record(m.id) == StoredSession::Present(m) {
        lemma_slot_found(s, m.id, 0);
        assert(s.entries@[s.slot(m.id, 0)->0].meta == StoredSession::Present(m));
    }
}

/// The listing of all sessions starts with the newest.
pub proof fn law_listing_is_newest_first(s: SessionStore)
    ensures
        forall|i: int, j: int|
            0 <= i < j < s.all().len() ==> (#[trigger] s.all()[i]).started_at >= (
            #[trigger] s.all()[j]).started_at,
{
    let before = order::rank::<SessionMeta>();
    assert forall|a: SessionMeta, b: SessionMeta| #[trigger] before(a, b) implies !before(b, a) by {}
    assert forall|a: SessionMeta, b: SessionMeta, c: SessionMeta|
        !(#[trigger] before(b, a)) && !(#[trigger] before(c, b)) implies !before(c, a) by {}
    order::law_sorted(s.found(s.entries@.len() as int), before);
    let all = s.all();
    assert forall|i: int, j: int| 0 <= i < j < all.len() implies (#[trigger] all[i]).started_at >= (
    #[trigger] all[j]).started_at by {
        assert(!before(all[j], all[i]));
    }
}

/// A name is in use exactly if some record carries it.
proof fn lemma_taken(s: SessionStore, name: Seq<char>)
    requires
        s.wf(),
    ensures
        s.taken(name) <==> exists|i: int|
            0 <= i < s.entries@.len() && (#[trigger] s.entries@[i]).meta is Present
                && s.entries@[i].meta->Present_0.name@ == name,
{
    let n = s.entries@.len() as int;
    let all = s.all();
    if s.taken(name) {
        let i = choose|i: int| 0 <= i < s.all().len() && is_named(#[trigger] s.all()[i], name);
        let m = all[i];
        assert(all.contains(m));
        order::lemma_sorted_contains(s.found(n), order::rank::<SessionMeta>(), m);
        lemma_found_iff(s, n, m);
    }
    if exists|i: int|
        0 <= i < s.entries@.len() && (#[trigger] s.entries@[i]).meta is Present
            && s.entries@[i].meta->Present_0.name@ == name {
        let i = choose|i: int|
            0 <= i < s.entries@.len() && (#[trigger] s.entries@[i]).meta is Present
                && s.entries@[i].meta->Present_0.name@ == name;
        let m = s.entries@[i].meta->Present_0;
        assert(s.entries@[i].meta == StoredSession::Present(m));
        order::lemma_sorted_contains(s.found(n), order::rank::<SessionMeta>(), m);
        lemma_found_iff(s, n, m);
        let w = choose|w: int| 0 <= w < all.len() && all[w] == m;
        assert(is_named(s.all()[w], name));
    }
}

/// Writing a record under its id makes it the record of that id, and leaves the
/// records of all other ids.
proof fn lemma_wrote(before: SessionStore, after: SessionStore, m: SessionMeta, other: SessionId)
    requires
        before.wf(),
        before.wrote(after, m),
    ensures
        after.wf(),
        after.record(m.id) == StoredSession::Present(m),
        other != m.id ==> after.record(other) == before.record(other),
{
    let i = before.slot(m.id, 0)->0;
    lemma_slot_found(before, m.id, 0);
    assert forall|k: int| 0 <= k < after.entries@.len() implies (
    #[trigger] after.entries@[k]).folder == before.entries@[k].folder by {
        if k != i {
            assert(after.entries@[k] == before.entries@[k]);
        }
    }
    assert forall|a: int, b: int| 0 <= a < b < after.entries@.len() implies (
    #[trigger] after.entries@[a]).folder@ != (#[trigger] after.entries@[b]).folder@ by {
        assert(before.entries@[a].folder@ != before.entries@[b].folder@);
    }
    assert forall|k: int| 0 <= k < after.entries@.len() implies match paths::folder_id(
        (#[trigger] after.entries@[k]).folder@,
    ) {
        Some(id) => after.entries@[k].folder@ == id.text(),
        None => true,
    } by {
        assert(before.entries@[k].folder@ == after.entries@[k].folder@);
    }
    assert forall|k: int| 0 <= k < after.entries@.len() implies match (
    #[trigger] after.entries@[k]).meta {
        StoredSession::Present(x) => after.entries@[k].folder@ == x.id.text(),
        _ => true,
    } by {
        if k != i {
            assert(after.entries@[k] == before.entries@[k]);
        }
    }
    lemma_slot(after, m.id, 0, i);
    if other != m.id {
        if other.text() == m.id.text() {
            ulid::law_text_is_injective(other, m.id);
        }
        lemma_slot_found(before, other, 0);
        lemma_slot_found(after, other, 0);
        if let Some(k) = before.slot(other, 0) {
            assert(after.entries@[k].folder@ == other.text());
            lemma_slot(after, other, 0, k);
        } else if let Some(k) = after.slot(other, 0) {
            assert(before.entries@[k].folder@ == other.text());
        }
    }
}

/// Creating a session keeps the store in order and the names unique. The new session
/// can be read back under its id, and no other session changes.
pub proof fn law_create_keeps_names_unique(
    before: SessionStore,
    after: SessionStore,
    name: String,
    started_at: Millis,
    r: Result<SessionMeta, GrsError>,
    other: SessionId,
)
    requires
        before.wf(),
        before.unique_names(),
        creates(before, after, name, started_at, r),
    ensures
        after.wf(),
        after.unique_names(),
        r is Ok ==> after.record(r->Ok_0.id) == StoredSession::Present(r->Ok_0),
        r is Ok && other != r->Ok_0.id ==> after.record(other) == before.record(other),
{
    if r is Ok {
        let m = r->Ok_0;
        lemma_taken(before, name@);
        if before.slot(m.id, 0) is Some {
            lemma_wrote(before, after, m, other);
            let i = before.slot(m.id, 0)->0;
            assert forall|a: int, b: int|
                0 <= a < b < after.entries@.len() && (#[trigger] after.entries@[a]).meta is Present
                    && (#[trigger] after.entries@[b]).meta is Present implies after.entries@[a].meta->Present_0.name@
                != after.entries@[b].meta->Present_0.name@ by {
                if a != i {
                    assert(after.entries@[a] == before.entries@[a]);
                }
                if b != i {
                    assert(after.entries@[b] == before.entries@[b]);
                }
            }
        } else {
            let n = before.entries@.len() as int;
            lemma_slot_found(before, m.id, 0);
            ulid::law_round_trip(m.id);
            ulid::lemma_text_len(m.id);
            assert forall|k: int| 0 <= k < n implies #[trigger] after.entries@[k]
                == before.entries@[k] by {
                assert(after.entries@.drop_last()[k] == before.entries@[k]);
            }
            assert(after.entries@[n] == after.entries@.last());
            assert forall|a: int, b: int| 0 <= a < b < after.entries@.len() implies (
            #[trigger] after.entries@[a]).folder@ != (#[trigger] after.entries@[b]).folder@ by {
                if b < n {
                    assert(before.entries@[a].folder@ != before.entries@[b].folder@);
                }
            }
            assert forall|a: int, b: int|
                0 <= a < b < after.entries@.len() && (#[trigger] after.entries@[a]).meta is Present
                    && (#[trigger] after.entries@[b]).meta is Present implies after.entries@[a].meta->Present_0.name@
                != after.entries@[b].meta->Present_0.name@ by {
                assert(after.entries@[a] == before.entries@[a]);
                if b < n {
                    assert(after.entries@[b] == before.entries@[b]);
                }
            }
            lemma_slot(after, m.id, 0, n);
            if other != m.id {
                if other.text() == m.id.text() {
                    ulid::law_text_is_injective(other, m.id);
                }
                lemma_slot_found(before, other, 0);
                lemma_slot_found(after, other, 0);
                if let Some(k) = before.slot(other, 0) {
                    assert(after.entries@[k].folder@ == other.text());
                    lemma_slot(after, other, 0, k);
                } else if let Some(k) = after.slot(other, 0) {
                    assert(before.entries@[k].folder@ == other.text());
                }
            }
        }
    }
}

/// Renaming keeps the store in order and the names unique. The session keeps its id
/// and its slug, is read back with the new name, and no other session changes.
pub proof fn law_rename_keeps_names_unique(
    before: SessionStore,
    after: SessionStore,
    q: Seq<char>,
    new_name: String,
    r: Result<SessionMeta, GrsError>,
    other: SessionId,
)
    requires
        before.wf(),
        before.unique_names(),
        renames(before, after, q, new_name, r),
    ensures
        after.wf(),
        after.unique_names(),
        r is Ok ==> {
            let m = before.resolution(q)->Found_0;
            &&& before.resolution(q) is Found
            &&& r->Ok_0.id == m.id
            &&& r->Ok_0.slug == m.slug
            &&& r->Ok_0.name@ == new_name@
            &&& after.record(m.id) == StoredSession::Present(r->Ok_0)
            &&& other != m.id ==> after.record(other) == before.record(other)
        },
{
    if r is Ok {
        let m = before.resolution(q)->Found_0;
        lemma_resolution_is_recorded(before, q);
        if m.name@ != new_name@ {
            let m2 = SessionMeta { name: new_name, ..m };
            lemma_taken(before, new_name@);
            lemma_wrote(before, after, m2, other);
            let i = before.slot(m.id, 0)->0;
            assert forall|a: int, b: int|
                0 <= a < b < after.entries@.len() && (#[trigger] after.entries@[a]).meta is Present
                    && (#[trigger] after.entries@[b]).meta is Present implies after.entries@[a].meta->Present_0.name@
                != after.entries@[b].meta->Present_0.name@ by {
                if a != i {
                    assert(after.entries@[a] == before.entries@[a]);
                }
                if b != i {
                    assert(after.entries@[b] == before.entries@[b]);
                }
            }
        }
    }
}

/// What a text resolves to is the record of a session.
proof fn lemma_resolution_is_recorded(s: SessionStore, q: Seq<char>)
    requires
        s.wf(),
        s.resolution(q) is Found,
    ensures
        s.record(s.resolution(q)->Found_0.id) == StoredSession::Present(s.resolution(q)->Found_0),
{
    let m = s.resolution(q)->Found_0;
    let is = |x: SessionMeta| is_named(x, q);
    let bs = |x: SessionMeta| begins(x, q);
    if id_in(q) is Some && s.record(id_in(q)->0) is Present {
        let id = id_in(q)->0;
        lemma_slot_found(s, id, 0);
        let i = s.slot(id, 0)->0;
        lemma_slot(s, m.id, 0, i);
    } else if s.all().filter(is).len() == 1 {
        order::lemma_filter_holds(s.all(), is, 0);
        law_listing_is_complete(s, m);
    } else {
        order::lemma_filter_holds(s.all(), bs, 0);
        law_listing_is_complete(s, m);
    }
}

/// A record that can be had lies in the directory named after its id.
pub proof fn lemma_recorded_has_slot(s: SessionStore, id: SessionId, m: SessionMeta)
    requires
        s.wf(),
        s.record(id) == StoredSession::Present(m),
    ensures
        m.id == id,
        s.slot(id, 0) is Some,
{
    lemma_slot_found(s, id, 0);
    assert(s.entries@[s.slot(id, 0)->0].folder@ == m.id.text());
    ulid::law_text_is_injective(id, m.id);
}

/// Rewriting the record of a session under the same name leaves the same names in use.
pub proof fn lemma_update_keeps_taken(
    before: SessionStore,
    after: SessionStore,
    id: SessionId,
    m: SessionMeta,
    m2: SessionMeta,
    name: Seq<char>,
)
    requires
        before.wf(),
        before.unique_names(),
        before.record(id) == StoredSession::Present(m),
        m2.id == m.id,
        m2.name@ == m.name@,
        updates(before, after, m2, Ok(m2)),
    ensures
        after.taken(name) == before.taken(name),
{
    law_update_keeps_names_unique(before, after, id, m, m2, id);
    lemma_taken(before, name);
    lemma_taken(after, name);
    lemma_slot_found(before, id, 0);
    let i = before.slot(m2.id, 0)->0;
    assert(before.entries@[i].meta == StoredSession::Present(m));
    assert(after.entries@[i].meta == StoredSession::Present(m2));
    if before.taken(name) {
        let k = choose|k: int|
            0 <= k < before.entries@.len() && (#[trigger] before.entries@[k]).meta is Present
                && before.entries@[k].meta->Present_0.name@ == name;
        assert(k != i ==> after.entries@[k] == before.entries@[k]);
        assert(after.entries@[k].meta is Present);
    }
    if after.taken(name) {
        let k = choose|k: int|
            0 <= k < after.entries@.len() && (#[trigger] after.entries@[k]).meta is Present
                && after.entries@[k].meta->Present_0.name@ == name;
        assert(k != i ==> after.entries@[k] == before.entries@[k]);
        assert(before.entries@[k].meta is Present);
    }
}

/// Rewriting the record of a session under the same name keeps the store in order and
/// the names unique. The record is read back, and no other session changes.
pub proof fn law_update_keeps_names_unique(
    before: SessionStore,
    after: SessionStore,
    id: SessionId,
    m: SessionMeta,
    m2: SessionMeta,
    other: SessionId,
)
    requires
        before.wf(),
        before.unique_names(),
        before.record(id) == StoredSession::Present(m),
        m2.id == m.id,
        m2.name@ == m.name@,
        updates(before, after, m2, Ok(m2)),
    ensures
        m.id == id,
        after.wf(),
        after.unique_names(),
        after.record(id) == StoredSession::Present(m2),
        other != id ==> after.record(other) == before.record(other),
{
    lemma_slot_found(before, id, 0);
    let i = before.slot(id, 0)->0;
    assert(before.entries@[i].folder@ == m.id.text());
    ulid::law_text_is_injective(id, m.id);
    lemma_wrote(before, after, m2, other);
    assert forall|a: int, b: int|
        0 <= a < b < after.entries@.len() && (#[trigger] after.entries@[a]).meta is Present && (
        #[trigger] after.entries@[b]).meta is Present implies after.entries@[a].meta->Present_0.name@
        != after.entries@[b].meta->Present_0.name@ by {
        assert(before.entries@[a].meta is Present) by {
            if a != i {
                assert(after.entries@[a] == before.entries@[a]);
            }
        }
        assert(before.entries@[b].meta is Present) by {
            if b != i {
                assert(after.entries@[b] == before.entries@[b]);
            }
        }
        assert(before.entries@[a].meta->Present_0.name@ != before.entries@[b].meta->Present_0.name@);
        if a != i {
            assert(after.entries@[a] == before.entries@[a]);
        }
        if b != i {
            assert(after.entries@[b] == before.entries@[b]);
        }
    }
}

/// Ending a session closes it and changes nothing else of it but the number of snaps.
pub proof fn law_finalize_closes(
    before: SessionStore,
    after: SessionStore,
    id: SessionId,
    m: SessionMeta,
    ended_at: Millis,
    snap_count: u32,
)
    requires
        before.wf(),
        before.unique_names(),
        before.record(id) == StoredSession::Present(m),
        updates(
            before,
            after,
            SessionMeta { ended_at: Some(ended_at), snap_count, ..m },
            Ok(SessionMeta { ended_at: Some(ended_at), snap_count, ..m }),
        ),
    ensures
        after.record(id) == StoredSession::Present(
            SessionMeta { ended_at: Some(ended_at), snap_count, ..m },
        ),
        !after.record(id)->Present_0.open_now(),
{
    let m2 = SessionMeta { ended_at: Some(ended_at), snap_count, ..m };
    law_update_keeps_names_unique(before, after, id, m, m2, id);
}

/// Dropping the directory of one session leaves the records of all others.
pub proof fn law_dropping_leaves_the_others(
    before: SessionStore,
    after: SessionStore,
    id: SessionId,
    other: SessionId,
)
    requires
        before.wf(),
        after.entries@ == before.entries@.filter(|e: SessionEntry| e.folder@ != id.text()),
    ensures
        after.wf(),
        before.unique_names() ==> after.unique_names(),
        after.record(id) is Missing,
        other != id ==> after.record(other) == before.record(other),
{
    let keep = |e: SessionEntry| e.folder@ != id.text();
    if before.unique_names() {
        assert forall|i: int, j: int|
            0 <= i < j < after.entries@.len() && (#[trigger] after.entries@[i]).meta is Present && (
            #[trigger] after.entries@[j]).meta is Present implies after.entries@[i].meta->Present_0.name@
            != after.entries@[j].meta->Present_0.name@ by {
            order::lemma_filter_places(before.entries@, keep, i, j);
        }
    }
    assert forall|i: int, j: int| 0 <= i < j < after.entries@.len() implies (
    #[trigger] after.entries@[i]).folder@ != (#[trigger] after.entries@[j]).folder@ by {
        order::lemma_filter_places(before.entries@, keep, i, j);
    }
    assert forall|i: int| 0 <= i < after.entries@.len() implies before.entries@.contains(
        #[trigger] after.entries@[i],
    ) by {
        order::lemma_filter_holds(before.entries@, keep, i);
    }
    lemma_slot_found(after, id, 0);
    if let Some(i) = after.slot(id, 0) {
        order::lemma_filter_holds(before.entries@, keep, i);
    }
    if other != id {
        if other.text() == id.text() {
            ulid::law_text_is_injective(other, id);
        }
        lemma_slot_found(before, other, 0);
        lemma_slot_found(after, other, 0);
        if let Some(i) = before.slot(other, 0) {
            let e = before.entries@[i];
            assert(before.entries@.contains(e));
            order::lemma_filter_keeps(before.entries@, keep, e);
            let w = choose|w: int| 0 <= w < after.entries@.len() && after.entries@[w] == e;
            assert(after.entries@[w].folder@ == other.text());
            let k = after.slot(other, 0)->0;
            order::lemma_filter_holds(before.entries@, keep, k);
            let j = choose|j: int|
                0 <= j < before.entries@.len() && before.entries@[j] == after.entries@[k];
            if j < i {
                assert(before.entries@[j].folder@ != before.entries@[i].folder@);
            } else if i < j {
                assert(before.entries@[i].folder@ != before.entries@[j].folder@);
            }
        } else if let Some(k) = after.slot(other, 0) {
            order::lemma_filter_holds(before.entries@, keep, k);
            let j = choose|j: int|
                0 <= j < before.entries@.len() && before.entries@[j] == after.entries@[k];
            assert(before.entries@[j].folder@ == other.text());
        }
    }
}

/// The whole id of a session stands for that session.
pub proof fn law_whole_id_resolves(s: SessionStore, id: SessionId, m: SessionMeta)
    requires
        s.record(id) == StoredSession::Present(m),
    ensures
        s.resolution(id.text()) == Resolution::Found(m),
{
    ulid::law_round_trip(id);
}

/// The whole name of a session stands for that session, unless the name spells out
/// the id of a session.
pub proof fn law_whole_name_resolves(s: SessionStore, m: SessionMeta)
    requires
        s.wf(),
        s.unique_names(),
        s.record(m.id) == StoredSession::Present(m),
        !(id_in(m.name@) is Some && s.record(id_in(m.name@)->0) is Present),
    ensures
        s.resolution(m.name@) == Resolution::Found(m),
{
    let n = s.entries@.len() as int;
    let is = |x: SessionMeta| is_named(x, m.name@);
    lemma_found_named(s, m, n);
    lemma_slot_found(s, m.id, 0);
    assert(s.entries@[s.slot(m.id, 0)->0].meta == StoredSession::Present(m));
    lemma_sorted_filter_one(s.found(n), is, m);
}

/// Among the first `k` directories the session with a given name is found at most
/// once.
proof fn lemma_found_named(s: SessionStore, m: SessionMeta, k: int)
    requires
        s.wf(),
        s.unique_names(),
        s.record(m.id) == StoredSession::Present(m),
        0 <= k <= s.entries@.len(),
    ensures
        s.found(k).filter(|x: SessionMeta| is_named(x, m.name@)) == (if s.slot(m.id, 0)->0 < k {
            seq![m]
        } else {
            Seq::empty()
        }),
    decreases k,
{
    reveal(Seq::filter);
    let i = s.slot(m.id, 0)->0;
    lemma_slot_found(s, m.id, 0);
    if k > 0 {
        lemma_found_named(s, m, k - 1);
        let e = s.entries@[k - 1];
        if let StoredSession::Present(x) = e.meta {
            ulid::law_round_trip(x.id);
            ulid::lemma_text_len(x.id);
            lemma_slot(s, x.id, 0, k - 1);
            assert(s.found(k) == s.found(k - 1).push(x));
            assert(s.found(k).drop_last() =~= s.found(k - 1));
            if k - 1 < i {
                assert(s.entries@[k - 1].meta->Present_0.name@ != s.entries@[i].meta->Present_0.name@);
            } else if i < k - 1 {
                assert(s.entries@[i].meta->Present_0.name@ != s.entries@[k - 1].meta->Present_0.name@);
            }
        } else {
            if let Some(id) = paths::folder_id(e.folder@) {
                lemma_slot(s, id, 0, k - 1);
            }
            assert(s.found(k) == s.found(k - 1));
        }
    }
    assert(s.found(k).filter(|x: SessionMeta| is_named(x, m.name@)) =~= (if i < k {
        seq![m]
    } else {
        Seq::empty()
    }));
}

/// Sorting does not change which single item a filter keeps.
proof fn lemma_sorted_filter_one(s: Seq<SessionMeta>, keep: spec_fn(SessionMeta) -> bool, m: SessionMeta)
    requires
        s.filter(keep) == seq![m],
    ensures
        order::sorted_by(s, order::rank::<SessionMeta>()).filter(keep) == seq![m],
{
    let t = order::sorted_by(s, order::rank::<SessionMeta>());
    order::law_sorted(s, order::rank::<SessionMeta>());
    lemma_filter_multiset(s, keep);
    lemma_filter_multiset(t, keep);
    broadcast use vstd::seq_lib::group_to_multiset_ensures;

    assert(t.filter(keep).to_multiset() =~= seq![m].to_multiset());
    assert(t.filter(keep).len() == 1) by {
        assert(t.filter(keep).to_multiset().len() == seq![m].to_multiset().len());
    }
    assert(t.filter(keep).to_multiset().contains(t.filter(keep)[0])) by {
        assert(t.filter(keep).contains(t.filter(keep)[0]));
    }
    assert(seq![m].contains(t.filter(keep)[0]));
    assert(t.filter(keep) =~= seq![m]);
}

proof fn lemma_filter_multiset(s: Seq<SessionMeta>, keep: spec_fn(SessionMeta) -> bool)
    ensures
        s.filter(keep).to_multiset() == s.to_multiset().filter(keep),
    decreases s.len(),
{
    broadcast use vstd::seq_lib::group_to_multiset_ensures;

    reveal(Seq::filter);
    if s.len() > 0 {
        let d = s.drop_last();
        lemma_filter_multiset(d, keep);
        assert(s =~= d.push(s.last()));
        assert(s.filter(keep).to_multiset() =~= s.to_multiset().filter(keep));
    } else {
        assert(s.filter(keep).to_multiset() =~= s.to_multiset().filter(keep));
    }
}

/// Whether a session is recorded.
pub open spec fn is_recorded(s: SessionStore, m: SessionMeta) -> bool {
    s.record(m.id) == StoredSession::Present(m)
}

proof fn lemma_all_is_recorded(s: SessionStore, i: int)
    requires
        s.wf(),
        0 <= i < s.all().len(),
    ensures
        is_recorded(s, s.all()[i]),
{
    assert(s.all().contains(s.all()[i]));
    law_listing_is_complete(s, s.all()[i]);
}

proof fn lemma_recorded_is_listed(s: SessionStore, m: SessionMeta) -> (i: int)
    requires
        s.wf(),
        is_recorded(s, m),
    ensures
        0 <= i < s.all().len(),
        s.all()[i] == m,
{
    law_listing_is_complete(s, m);
    choose|i: int| 0 <= i < s.all().len() && s.all()[i] == m
}

/// A session is created exactly if its name is not blank and no recorded session has it. It is
/// open, starts at the given time, has the name as it was given, and counts nothing yet.
/// Otherwise nothing changes, and the error says which of the two it was.
pub proof fn law_creation_needs_a_free_name(
    before: SessionStore,
    after: SessionStore,
    name: String,
    started_at: Millis,
    r: Result<SessionMeta, GrsError>,
)
    requires
        before.wf(),
        before.unique_names(),
        creates(before, after, name, started_at, r),
    ensures
        ({
            let blank = forall|i: int| 0 <= i < name@.len() ==> text::space(#[trigger] name@[i]);
            let used = exists|m: SessionMeta| #[trigger] is_recorded(before, m) && m.name@ == name@;
            &&& r is Ok <==> !blank && !used
            &&& blank ==> r == Err::<SessionMeta, GrsError>(GrsError::InvalidName(name))
            &&& !blank && used ==> r == Err::<SessionMeta, GrsError>(GrsError::NameInUse(name))
            &&& r is Err ==> after == before
            &&& r matches Ok(m) ==> m.name == name && m.started_at == started_at && m.ended_at is None
                && m.snap_count == 0 && m.file_count == 0 && m.version == 1 && m.slug@
                == paths::slug(name@) && is_recorded(after, m)
        }),
{
    let blank = forall|i: int| 0 <= i < name@.len() ==> text::space(#[trigger] name@[i]);
    text::law_trim_takes_white_space_from_the_ends(name@);
    let (a, b) = choose|a: int, b: int|
        0 <= a <= b <= name@.len() && text::trim(name@) == #[trigger] name@.subrange(a, b) && (
        forall|i: int| 0 <= i < name@.len() && !(a <= i < b) ==> text::space(#[trigger] name@[i]))
            && (a < b ==> !text::space(name@[a]) && !text::space(name@[b - 1]));
    if blank && a < b {
        assert(text::space(name@[a]));
    }
    if text::trim(name@).len() == 0 {
        assert(a == b);
    }
    assert(blank == (text::trim(name@).len() == 0));
    if exists|m: SessionMeta| #[trigger] is_recorded(before, m) && m.name@ == name@ {
        let m = choose|m: SessionMeta| #[trigger] is_recorded(before, m) && m.name@ == name@;
        let i = lemma_recorded_is_listed(before, m);
        assert(is_named(before.all()[i], name@));
        assert(before.taken(name@));
    }
    if before.taken(name@) {
        let i = choose|i: int|
            0 <= i < before.all().len() && is_named(#[trigger] before.all()[i], name@);
        lemma_all_is_recorded(before, i);
    }
    law_create_keeps_names_unique(before, after, name, started_at, r, SessionId(0));
}

/// Whether a text begins the name or the id of a session.
pub open spec fn answers_to(m: SessionMeta, q: Seq<char>) -> bool {
    (q.len() <= m.name@.len() && m.name@.take(q.len() as int) == q) || (q.len() <= m.id.text().len()
        && m.id.text().take(q.len() as int) == q)
}

/// A text that is no whole id of a session stands for the one session that has it as its name;
/// or else for the one session whose name or id begins with it. It stands for nothing where
/// there is none, and is ambiguous where there are several.
pub proof fn law_text_stands_for_the_one_that_answers(s: SessionStore, q: Seq<char>)
    requires
        s.wf(),
        s.unique_names(),
        !(id_in(q) is Some && s.record(id_in(q)->0) is Present),
    ensures
        match s.resolution(q) {
            Resolution::Found(m) => is_recorded(s, m) && (m.name@ == q || (answers_to(m, q)
                && forall|x: SessionMeta| #[trigger]
                is_recorded(s, x) && answers_to(x, q) ==> x == m)),
            Resolution::Ambiguous => exists|x: SessionMeta, y: SessionMeta|
                x.id != y.id && #[trigger] is_recorded(s, x) && #[trigger] is_recorded(s, y)
                    && answers_to(x, q) && answers_to(y, q) && forall|z: SessionMeta| #[trigger]
                    is_recorded(s, z) ==> z.name@ != q,
            Resolution::Nothing => forall|x: SessionMeta| #[trigger]
                is_recorded(s, x) ==> !answers_to(x, q),
        },
{
    let all = s.all();
    let is = |m: SessionMeta| is_named(m, q);
    let bs = |m: SessionMeta| begins(m, q);
    let named = all.filter(is);
    let begun = all.filter(bs);
    assert forall|x: SessionMeta| #[trigger] is_recorded(s, x) && x.name@ == q implies named.contains(
        x,
    ) by {
        let i = lemma_recorded_is_listed(s, x);
        assert(all.contains(x));
        order::lemma_filter_keeps(all, is, x);
    }
    assert forall|x: SessionMeta| #[trigger] is_recorded(s, x) && x.name@ != q && answers_to(
        x,
        q,
    ) implies begun.contains(x) by {
        let i = lemma_recorded_is_listed(s, x);
        assert(all.contains(x));
        order::lemma_filter_keeps(all, bs, x);
    }
    assert forall|i: int| 0 <= i < named.len() implies is_recorded(s, #[trigger] named[i])
        && named[i].name@ == q by {
        order::lemma_filter_holds(all, is, i);
        let w = choose|w: int| 0 <= w < all.len() && all[w] == named[i];
        lemma_all_is_recorded(s, w);
    }
    assert forall|i: int| 0 <= i < begun.len() implies is_recorded(s, #[trigger] begun[i])
        && answers_to(begun[i], q) && begun[i].name@ != q by {
        order::lemma_filter_holds(all, bs, i);
        let w = choose|w: int| 0 <= w < all.len() && all[w] == begun[i];
        lemma_all_is_recorded(s, w);
    }
    if named.len() > 1 {
        assert(is_recorded(s, named[0]) && is_recorded(s, named[1]));
        lemma_same_name(s, named[0], named[1]);
        lemma_listed_once(s);
        order::lemma_filter_places(all, is, 0, 1);
    } else if named.len() == 1 {
        assert(is_recorded(s, named[0]));
    } else if begun.len() > 1 {
        lemma_listed_once(s);
        order::lemma_filter_places(all, bs, 0, 1);
        let (a, b) = choose|a: int, b: int|
            0 <= a < b < all.len() && #[trigger] all[a] == begun[0] && #[trigger] all[b] == begun[1];
        assert(all[a].id != all[b].id);
        assert(is_recorded(s, begun[0]) && is_recorded(s, begun[1]));
    } else if begun.len() == 1 {
        assert(is_recorded(s, begun[0]));
        assert forall|x: SessionMeta| #[trigger] is_recorded(s, x) && answers_to(x, q) implies x
            == begun[0] by {
            if x.name@ != q {
                let w = choose|w: int| 0 <= w < begun.len() && begun[w] == x;
                assert(w == 0);
            }
        }
    } else {
        assert forall|x: SessionMeta| #[trigger] is_recorded(s, x) implies !answers_to(x, q) by {
            if x.name@ == q {
                assert(named.contains(x));
            } else if answers_to(x, q) {
                assert(begun.contains(x));
            }
        }
    }
}

proof fn lemma_same_name(s: SessionStore, x: SessionMeta, y: SessionMeta)
    requires
        s.wf(),
        s.unique_names(),
        is_recorded(s, x),
        is_recorded(s, y),
        x.name@ == y.name@,
    ensures
        x == y,
{
    lemma_slot_found(s, x.id, 0);
    lemma_slot_found(s, y.id, 0);
    let i = s.slot(x.id, 0)->0;
    let j = s.slot(y.id, 0)->0;
    if i < j {
        assert(s.entries@[i].meta->Present_0.name@ != s.entries@[j].meta->Present_0.name@);
    } else if j < i {
        assert(s.entries@[j].meta->Present_0.name@ != s.entries@[i].meta->Present_0.name@);
    }
}

/// Each session is listed once.
proof fn lemma_listed_once(s: SessionStore)
    requires
        s.wf(),
    ensures
        forall|a: int, b: int|
            0 <= a < b < s.all().len() ==> (#[trigger] s.all()[a]).id != (#[trigger] s.all()[b]).id,
{
    let n = s.entries@.len() as int;
    lemma_found_once(s, n);
    let raw = s.found(n);
    let all = s.all();
    order::law_sorted(raw, order::rank::<SessionMeta>());
    raw.lemma_multiset_has_no_duplicates();
    all.lemma_multiset_has_no_duplicates_conv();
    assert forall|a: int, b: int| 0 <= a < b < all.len() implies (#[trigger] all[a]).id != (
    #[trigger] all[b]).id by {
        lemma_all_is_recorded(s, a);
        lemma_all_is_recorded(s, b);
        assert(all[a] != all[b]);
    }
}

proof fn lemma_found_once(s: SessionStore, k: int)
    requires
        s.wf(),
        0 <= k <= s.entries@.len(),
    ensures
        s.found(k).no_duplicates(),
    decreases k,
{
    if k > 0 {
        lemma_found_once(s, k - 1);
        let e = s.entries@[k - 1];
        if let Some(id) = paths::folder_id(e.folder@) {
            if let StoredSession::Present(m) = s.record(id) {
                lemma_slot(s, id, 0, k - 1);
                lemma_found_iff(s, k - 1, m);
                let rest = s.found(k - 1);
                if rest.contains(m) {
                    let i = choose|i: int|
                        0 <= i < k - 1 && (#[trigger] s.entries@[i]).meta == StoredSession::Present(
                            m,
                        );
                    assert(s.entries@[i].folder@ == m.id.text());
                    assert(s.entries@[k - 1].folder@ == m.id.text());
                    assert(s.entries@[i].folder@ != s.entries@[k - 1].folder@);
                }
                let now = rest.push(m);
                assert forall|a: int, b: int| 0 <= a < now.len() && 0 <= b < now.len() && a
                    != b implies now[a] != now[b] by {
                    if a == rest.len() {
                        assert(rest.contains(rest[b]));
                    } else if b == rest.len() {
                        assert(rest.contains(rest[a]));
                    }
                }
            }
        }
    }
}

/// All sessions are listed, each once, and each as it is recorded.
pub proof fn law_each_session_is_listed_once(s: SessionStore, m: SessionMeta)
    requires
        s.wf(),
    ensures
        is_recorded(s, m) <==> exists|i: int| 0 <= i < s.all().len() && #[trigger] s.all()[i] == m,
        forall|a: int, b: int|
            0 <= a < b < s.all().len() ==> (#[trigger] s.all()[a]).id != (#[trigger] s.all()[b]).id,
{
    lemma_listed_once(s);
    law_listing_is_complete(s, m);
    if exists|i: int| 0 <= i < s.all().len() && #[trigger] s.all()[i] == m {
        let i = choose|i: int| 0 <= i < s.all().len() && #[trigger] s.all()[i] == m;
        assert(s.all().contains(m));
    }
}

/// Renaming gives the session that was meant the new name and keeps all else of it. It is
/// refused where the name is blank or another session has it, and then nothing changes.
pub proof fn law_rename_changes_only_the_name(
    before: SessionStore,
    after: SessionStore,
    q: Seq<char>,
    new_name: String,
    r: Result<SessionMeta, GrsError>,
    m: SessionMeta,
)
    requires
        before.wf(),
        before.unique_names(),
        before.resolution(q) == Resolution::Found(m),
        renames(before, after, q, new_name, r),
    ensures
        ({
            let blank = forall|i: int|
                0 <= i < new_name@.len() ==> text::space(#[trigger] new_name@[i]);
            let used = exists|x: SessionMeta| #[trigger]
                is_recorded(before, x) && x.name@ == new_name@ && x.id != m.id;
            &&& r is Ok <==> !blank && !used
            &&& blank ==> r == Err::<SessionMeta, GrsError>(GrsError::InvalidName(new_name))
            &&& !blank && used ==> r == Err::<SessionMeta, GrsError>(GrsError::NameInUse(new_name))
            &&& r is Err ==> after == before
            &&& r matches Ok(x) ==> is_recorded(after, x) && x.name@ == new_name@ && x.id == m.id
                && x.slug == m.slug && x.started_at == m.started_at && x.ended_at == m.ended_at
                && x.snap_count == m.snap_count && x.file_count == m.file_count && x.version
                == m.version
        }),
{
    let blank = forall|i: int| 0 <= i < new_name@.len() ==> text::space(#[trigger] new_name@[i]);
    let name = new_name;
    text::law_trim_takes_white_space_from_the_ends(name@);
    let (a, b) = choose|a: int, b: int|
        0 <= a <= b <= name@.len() && text::trim(name@) == #[trigger] name@.subrange(a, b) && (
        forall|i: int| 0 <= i < name@.len() && !(a <= i < b) ==> text::space(#[trigger] name@[i]))
            && (a < b ==> !text::space(name@[a]) && !text::space(name@[b - 1]));
    if blank && a < b {
        assert(text::space(name@[a]));
    }
    assert(blank == (text::trim(name@).len() == 0));
    lemma_resolution_is_recorded(before, q);
    assert(is_recorded(before, m));
    if before.taken(name@) {
        let i = choose|i: int|
            0 <= i < before.all().len() && is_named(#[trigger] before.all()[i], name@);
        lemma_all_is_recorded(before, i);
        let x = before.all()[i];
        if m.name@ != name@ {
            assert(is_recorded(before, x) && x.name@ == name@);
            if x.id == m.id {
                assert(x == m);
            }
        }
    }
    if exists|x: SessionMeta| #[trigger]
        is_recorded(before, x) && x.name@ == new_name@ && x.id != m.id {
        let x = choose|x: SessionMeta| #[trigger]
            is_recorded(before, x) && x.name@ == new_name@ && x.id != m.id;
        let i = lemma_recorded_is_listed(before, x);
        assert(is_named(before.all()[i], name@));
        if m.name@ == new_name@ {
            lemma_same_name(before, x, m);
        }
    }
    lemma_recorded_has_slot(before, m.id, m);
    law_rename_keeps_names_unique(before, after, q, new_name, r, m.id);
}

} // verus!
