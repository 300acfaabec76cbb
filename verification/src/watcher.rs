//! The file watcher: which events make a snap, and what a snap does.
//!
//! A snap is taken when a file of the project was written and closed, or created. It is
//! skipped when the tree is what the last snap recorded, so that the several events of
//! one save make one snap. There is no waiting for quiet.

use crate::error::GrsError;
use crate::ignore::IgnoreMatcher;
use crate::model::{SessionMeta, SnapMeta};
use crate::path::{FsPath, PathModel};
use crate::paths;
use crate::session;
use crate::session::{SessionStore, StoredSession};
use crate::snap;
use crate::snap::WorkFile;
use crate::store;
use crate::store::{Disk, RepoStore};
use crate::ulid::SessionId;
use crate::util::time::Millis;
use vstd::prelude::*;

verus! {

/// How a file was accessed.
#[derive(Clone, Copy, Debug, PartialEq, Eq, Structural)]
pub enum AccessMode {
    Any,
    Execute,
    Read,
    Write,
    Other,
}

/// What kind of access was seen.
#[derive(Clone, Copy, Debug, PartialEq, Eq, Structural)]
pub enum AccessKind {
    Any,
    Read,
    Open(AccessMode),
    Close(AccessMode),
    Other,
}

/// What was created.
#[derive(Clone, Copy, Debug, PartialEq, Eq, Structural)]
pub enum CreateKind {
    Any,
    File,
    Folder,
    Other,
}

/// What happened to a file.
#[derive(Clone, Copy, Debug, PartialEq, Eq, Structural)]
pub enum EventKind {
    Any,
    Access(AccessKind),
    Create(CreateKind),
    Modify,
    Remove,
    Other,
}

/// One event of the file system.
#[derive(Debug)]
pub struct FsEvent {
    pub kind: EventKind,
    pub paths: Vec<FsPath>,
}

/// Why the watcher stopped.
#[derive(Clone, Copy, Debug, PartialEq, Eq, Structural)]
pub enum StopReason {
    StopRequested,
    Disconnected,
}

/// What reaches the watcher.
#[derive(Debug)]
pub enum WatchInput {
    /// Someone asked it to stop.
    Stop,
    /// An event, with the files of the project as they are then.
    Event { event: FsEvent, tree: Vec<WorkFile>, now: Millis },
    /// The notifier reported a fault.
    Fault,
    /// Nothing came for a while.
    Timeout,
    /// The notifier is gone.
    Disconnected,
}

/// Whether a kind of event ends a save: a file was closed after writing, or created.
pub open spec fn ends_save(kind: EventKind) -> bool {
    kind == EventKind::Access(AccessKind::Close(AccessMode::Write)) || kind == EventKind::Create(
        CreateKind::File,
    )
}

/// Whether a path belongs to the project: it lies under the root and is not ignored.
pub open spec fn watched(ignore: IgnoreMatcher, p: PathModel) -> bool {
    p.under(ignore.root@) && !ignore.ignored(p)
}

/// Whether an event makes a snap: it ends a save of a file of the project.
pub open spec fn triggers(ignore: IgnoreMatcher, e: FsEvent) -> bool {
    ends_save(e.kind) && exists|i: int| 0 <= i < e.paths@.len() && watched(ignore, (#[trigger] e.paths@[i])@)
}

/// Whether a path belongs to the project.
pub fn is_watched_path(p: &FsPath, ignore: &IgnoreMatcher) -> (r: bool)
    ensures
        r == watched(*ignore, p@),
{
    p.is_under(&ignore.root) && !ignore.is_ignored(p)
}

/// Whether an event makes a snap.
pub fn is_save_trigger(event: &FsEvent, ignore: &IgnoreMatcher) -> (r: bool)
    ensures
        r == triggers(*ignore, *event),
{
    let ends = match event.kind {
        EventKind::Access(AccessKind::Close(AccessMode::Write)) => true,
        EventKind::Create(CreateKind::File) => true,
        _ => false,
    };
    if !ends {
        return false;
    }
    let mut i: usize = 0;
    while i < event.paths.len()
        invariant
            i <= event.paths.len(),
            ends_save(event.kind),
            forall|k: int| 0 <= k < i ==> !watched(*ignore, (#[trigger] event.paths@[k])@),
        decreases event.paths.len() - i,
    {
        if is_watched_path(&event.paths[i], ignore) {
            assert(watched(*ignore, event.paths@[i as int]@));
            return true;
        }
        i += 1;
    }
    false
}

/// What recording the number of a snap in its session does.
pub open spec fn numbered(before: SessionStore, after: SessionStore, id: SessionId, n: u32) -> bool {
    match before.record(id) {
        StoredSession::Present(x) => if before.slot(x.id, 0) is Some {
            before.wrote(after, SessionMeta { snap_count: n, ..x })
        } else {
            after == before
        },
        _ => after == before,
    }
}

/// What a save does to the project: nothing where the tree is what the last snap
/// recorded or that record cannot be had; otherwise the tree is captured and the number
/// of the snap is recorded in the session.
pub open spec fn saved(
    before: RepoStore,
    after: RepoStore,
    id: SessionId,
    tree: Seq<WorkFile>,
    now: Millis,
) -> bool {
    if before.snaps.is_due(id, before.ignore, tree) == Some(true) {
        &&& after.same_project(before)
        &&& after.head == before.head
        &&& exists|m: SnapMeta| #[trigger]
            snap::took(before.snaps, after.snaps, id, before.ignore, tree, now, m) && numbered(
                before.sessions,
                after.sessions,
                id,
                m.n,
            )
    } else {
        after == before
    }
}

/// Whether the next snap of a session can be numbered and the bytes of a tree counted.
pub open spec fn can_capture(store: RepoStore, id: SessionId, tree: Seq<WorkFile>) -> bool {
    store.snaps.next_number(id) <= u32::MAX && snap::captured_bytes(
        store.ignore,
        tree,
        tree.len() as int,
    ) <= u64::MAX
}

/// What a save reports: a fault where the last record cannot be had, or where the session's
/// record is not there to hold the number of the new snap.
pub open spec fn save_reported(
    before: RepoStore,
    id: SessionId,
    tree: Seq<WorkFile>,
    r: Result<(), GrsError>,
) -> bool {
    match before.snaps.is_due(id, before.ignore, tree) {
        None => {
            let last = before.snaps.highest(id)->0;
            &&& r is Err
            &&& snap::no_record(
                before.snaps.meta_of(id, last),
                before.snaps.session_path(id).child(paths::snap_dir_name(last)),
                r->Err_0,
            )
        },
        Some(false) => r is Ok,
        Some(true) => match before.sessions.record(id) {
            StoredSession::Present(x) => if before.sessions.slot(x.id, 0) is Some {
                r is Ok
            } else {
                r is Err && session::no_directory(x.id, r->Err_0)
            },
            missing => r is Err && session::no_session(missing, id, r->Err_0),
        },
    }
}

/// Takes a snap of a session where the tree has changed, and records its number.
pub fn capture_if_changed(store: &mut RepoStore, id: &SessionId, tree: &Vec<WorkFile>, now: Millis) -> (r:
    Result<(), GrsError>)
    requires
        can_capture(*old(store), *id, tree@),
    ensures
        saved(*old(store), *final(store), *id, tree@, now),
        save_reported(*old(store), *id, tree@, r),
{
    let ghost before = *store;
    match store.snaps.capture_if_changed(id, &store.ignore, tree, now) {
        Ok(Some(m)) => {
            let r = store.sessions.update_snap_count(id, m.n);
            assert(snap::took(before.snaps, store.snaps, *id, before.ignore, tree@, now, m));
            r
        },
        Ok(None) => Ok(()),
        Err(e) => Err(e),
    }
}

/// The watcher of a project.
#[derive(Debug)]
pub struct Watcher {
    pub store: RepoStore,
}

/// What one input does.
pub open spec fn stepped(
    before: RepoStore,
    after: RepoStore,
    id: SessionId,
    input: WatchInput,
    r: Option<StopReason>,
) -> bool {
    match input {
        WatchInput::Stop => r == Some(StopReason::StopRequested) && after == before,
        WatchInput::Disconnected => r == Some(StopReason::Disconnected) && after == before,
        WatchInput::Fault => r is None && after == before,
        WatchInput::Timeout => r is None && after == before,
        WatchInput::Event { event, tree, now } => r is None && if triggers(before.ignore, event) {
            saved(before, after, id, tree@, now)
        } else {
            after == before
        },
    }
}

/// Whether the watcher stops at an input.
pub open spec fn stops(input: WatchInput) -> bool {
    input is Stop || input is Disconnected
}

/// Whether the bytes of an input's tree can be counted.
pub open spec fn input_fits(input: WatchInput) -> bool {
    input is Event ==> snap::tree_bytes(
        input->Event_tree@,
        input->Event_tree@.len() as int,
    ) <= u64::MAX
}

impl Watcher {
    /// A watcher for a project.
    pub fn new(store: RepoStore) -> (r: Watcher)
        ensures
            r.store == store,
    {
        Watcher { store }
    }

    /// The session that snaps go to: the one that `HEAD` names. Without one there is
    /// nothing to watch for.
    pub fn session(&self) -> (r: Result<SessionId, GrsError>)
        ensures
            match r {
                Ok(id) => self.store.head_id() == Some(id),
                Err(e) => self.store.head_id() is None && if store::head_broken(self.store.head@) {
                    store::head_error(self.store.head@, e)
                } else {
                    e is NotFound && e->NotFound_0@ == "no open session"@
                },
            },
    {
        match self.store.current_session_id() {
            Ok(Some(id)) => Ok(id),
            Ok(None) => Err(GrsError::NotFound("no open session".to_owned())),
            Err(e) => Err(e),
        }
    }

    /// Takes one input. Gives the reason where the watcher is to stop.
    pub fn step(&mut self, id: &SessionId, input: &WatchInput) -> (r: Option<StopReason>)
        requires
            input_fits(*input),
            old(self).store.snaps.next_number(*id) <= u32::MAX,
        ensures
            stepped(old(self).store, final(self).store, *id, *input, r),
    {
        match input {
            WatchInput::Stop => Some(StopReason::StopRequested),
            WatchInput::Disconnected => Some(StopReason::Disconnected),
            WatchInput::Fault => None,
            WatchInput::Timeout => None,
            WatchInput::Event { event, tree, now } => {
                if is_save_trigger(event, &self.store.ignore) {
                    proof {
                        snap::lemma_captured_is_part(
                            self.store.ignore,
                            tree@,
                            tree@.len() as int,
                        );
                    }
                    let _done = capture_if_changed(&mut self.store, id, tree, *now);
                }
                None
            },
        }
    }

    /// Takes inputs until one of them stops the watcher, or there are no more.
    pub fn run(&mut self, inputs: &Vec<WatchInput>) -> (r: Result<StopReason, GrsError>)
        requires
            forall|i: int|
                0 <= i < inputs@.len() ==> input_fits(#[trigger] inputs@[i]),
            old(self).store.head_id() matches Some(id) ==> old(self).store.snaps.next_number(id)
                + inputs@.len() <= u32::MAX,
        ensures
            match r {
                Ok(reason) => exists|states: Seq<RepoStore>, id: SessionId|
                    old(self).store.head_id() == Some(id) && #[trigger] ran(
                        states,
                        id,
                        inputs@,
                        reason,
                    ) && states.first() == old(self).store && states.last() == final(self).store,
                Err(e) => *final(self) == *old(self) && old(self).store.head_id() is None
                    && if store::head_broken(old(self).store.head@) {
                    store::head_error(old(self).store.head@, e)
                } else {
                    e is NotFound && e->NotFound_0@ == "no open session"@
                },
            },
    {
        let id = match self.session() {
            Ok(id) => id,
            Err(e) => {
                return Err(e);
            },
        };
        let ghost mut states: Seq<RepoStore> = seq![self.store];
        let mut i: usize = 0;
        while i < inputs.len()
            invariant
                i <= inputs.len(),
                old(self).store.head_id() == Some(id),
                states.len() == i + 1,
                states.first() == old(self).store,
                states.last() == self.store,
                self.store.ignore == old(self).store.ignore,
                forall|k: int|
                    0 <= k < inputs@.len() ==> input_fits(#[trigger] inputs@[k]),
                self.store.snaps.next_number(id) + (inputs@.len() - i) <= u32::MAX,
                forall|k: int| 0 <= k < i ==> #[trigger] went_on(states, id, inputs@, k),
            decreases inputs.len() - i,
        {
            let ghost before = self.store;
            let r = self.step(&id, &inputs[i]);
            proof {
                let next = states.push(self.store);
                assert forall|k: int| 0 <= k < i implies #[trigger] went_on(
                    next,
                    id,
                    inputs@,
                    k,
                ) by {
                    assert(went_on(states, id, inputs@, k));
                    assert(next[k] == states[k] && next[k + 1] == states[k + 1]);
                }
                assert(next[i as int] == before && next[i + 1] == self.store);
                assert(stepped(next[i as int], next[i + 1], id, inputs@[i as int], r));
                lemma_step_numbers(before, self.store, id, inputs@[i as int], r);
                if r is None {
                    assert(went_on(next, id, inputs@, i as int));
                }
                states = next;
            }
            if let Some(reason) = r {
                assert(ran(states, id, inputs@, reason));
                return Ok(reason);
            }
            i += 1;
        }
        assert(inputs@.len() > 0 ==> went_on(states, id, inputs@, inputs@.len() - 1));
        assert(ran(states, id, inputs@, StopReason::Disconnected));
        Ok(StopReason::Disconnected)
    }
}

/// Whether a watcher went through these states: one input after the other, up to the
/// first that stops it, or through all of them, which counts as being disconnected.
pub open spec fn ran(
    states: Seq<RepoStore>,
    id: SessionId,
    inputs: Seq<WatchInput>,
    reason: StopReason,
) -> bool {
    &&& 1 <= states.len() <= inputs.len() + 1
    &&& forall|k: int| 0 <= k < states.len() - 2 ==> #[trigger] went_on(states, id, inputs, k)
    &&& if states.len() >= 2 && stops(inputs[states.len() - 2]) {
        stepped(
            states[states.len() - 2],
            states.last(),
            id,
            inputs[states.len() - 2],
            Some(reason),
        )
    } else {
        &&& states.len() == inputs.len() + 1
        &&& reason == StopReason::Disconnected
        &&& states.len() >= 2 ==> went_on(states, id, inputs, states.len() - 2)
    }
}

/// Whether input `k` led from one state to the next without stopping the watcher.
pub open spec fn went_on(
    states: Seq<RepoStore>,
    id: SessionId,
    inputs: Seq<WatchInput>,
    k: int,
) -> bool {
    !stops(inputs[k]) && stepped(states[k], states[k + 1], id, inputs[k], None)
}

/// One input uses up at most one number, and never changes what is ignored.
proof fn lemma_step_numbers(
    before: RepoStore,
    after: RepoStore,
    id: SessionId,
    input: WatchInput,
    r: Option<StopReason>,
)
    requires
        stepped(before, after, id, input, r),
    ensures
        after.ignore == before.ignore,
        after.snaps.next_number(id) <= before.snaps.next_number(id) + 1,
        stops(input) <==> r is Some,
{
    if let WatchInput::Event { event, tree, now } = input {
        if triggers(before.ignore, event) && before.snaps.is_due(id, before.ignore, tree@)
            == Some(true) {
            let m = choose|m: SnapMeta| #[trigger]
                snap::took(before.snaps, after.snaps, id, before.ignore, tree@, now, m);
            snap::law_capture_appends(
                before.snaps,
                after.snaps,
                id,
                before.ignore,
                tree@,
                now,
                m,
                id,
            );
        }
    }
}

/// The several events of one save make one snap: once a tree was captured, a further
/// save of the same tree changes nothing. This is said of trees whose files could all be
/// read and have different relative paths.
pub proof fn law_burst_makes_one_snap(
    before: RepoStore,
    middle: RepoStore,
    after: RepoStore,
    id: SessionId,
    tree: Seq<WorkFile>,
    first: Millis,
    second: Millis,
)
    requires
        saved(before, middle, id, tree, first),
        saved(middle, after, id, tree, second),
        snap::clean_tree(before.ignore, tree),
    ensures
        after == middle,
        middle.snaps.entries(id).len() <= before.snaps.entries(id).len() + 1,
{
    if before.snaps.is_due(id, before.ignore, tree) == Some(true) {
        let m = choose|m: SnapMeta| #[trigger]
            snap::took(before.snaps, middle.snaps, id, before.ignore, tree, first, m);
        snap::law_capture_appends(
            before.snaps,
            middle.snaps,
            id,
            before.ignore,
            tree,
            first,
            m,
            id,
        );
        snap::law_captured_tree_is_unchanged(
            before.snaps,
            middle.snaps,
            id,
            before.ignore,
            tree,
            first,
            m,
        );
    }
}

/// What happens to files that are ignored or lie elsewhere changes nothing, and neither
/// does what happens below the directory of the library itself.
pub proof fn law_edits_outside_the_project_change_nothing(
    before: RepoStore,
    after: RepoStore,
    id: SessionId,
    event: FsEvent,
    tree: Vec<WorkFile>,
    now: Millis,
    r: Option<StopReason>,
)
    requires
        stepped(before, after, id, WatchInput::Event { event, tree, now }, r),
        forall|i: int|
            0 <= i < event.paths@.len() ==> !watched(before.ignore, (#[trigger] event.paths@[i])@)
                || event.paths@[i]@.under(before.ignore.root@.child(".grs"@)),
    ensures
        after == before,
        r is None,
{
    assert forall|i: int| 0 <= i < event.paths@.len() implies !watched(
        before.ignore,
        (#[trigger] event.paths@[i])@,
    ) by {
        if event.paths@[i]@.under(before.ignore.root@.child(".grs"@)) {
            crate::ignore::law_grs_is_ignored(before.ignore, event.paths@[i]@);
        }
    }
}

/// Opens the project around `start` and runs its watcher over the inputs.
pub fn run_for(start: &FsPath, repos: &Vec<FsPath>, disk: Disk, inputs: &Vec<WatchInput>) -> (r:
    Result<(Watcher, Result<StopReason, GrsError>), GrsError>)
    requires
        forall|i: int| 0 <= i < inputs@.len() ==> input_fits(#[trigger] inputs@[i]),
        snap::numbers_below(disk.snaps@, u32::MAX - inputs@.len()),
        inputs@.len() < u32::MAX,
    ensures
        match paths::nearest(start@, paths::models(repos@)) {
            None => r is Err && r->Err_0 is NotInitialized,
            Some(root) => match r {
                Err(e) => store::opens(root, disk, Err(e)),
                Ok((w, result)) => exists|opened: RepoStore| #[trigger]
                    store::opens(root, disk, Ok(opened)) && match result {
                        Ok(reason) => exists|states: Seq<RepoStore>, id: SessionId|
                            opened.head_id() == Some(id) && #[trigger] ran(
                                states,
                                id,
                                inputs@,
                                reason,
                            ) && states.first() == opened && states.last() == w.store,
                        Err(e) => w.store == opened && opened.head_id() is None,
                    },
            },
        },
{
    match RepoStore::open_from(start, repos, disk) {
        Ok(s) => {
            let ghost opened = s;
            proof {
                if let Some(id) = s.head_id() {
                    snap::lemma_next_number_bounded(s.snaps, id, u32::MAX - inputs@.len());
                }
            }
            let mut w = Watcher::new(s);
            let result = w.run(inputs);
            assert(store::opens(
                paths::nearest(start@, paths::models(repos@))->0,
                disk,
                Ok(opened),
            ));
            Ok((w, result))
        },
        Err(e) => Err(e),
    }
}

/// A file of the project that was written and closed, or created, makes a snap where one is due:
/// the session has one more, with the next number, of the tree as it is, and the session's record
/// says that number. Nothing else of the project changes.
pub proof fn law_save_makes_a_snap(
    before: RepoStore,
    after: RepoStore,
    id: SessionId,
    event: FsEvent,
    tree: Vec<WorkFile>,
    now: Millis,
    r: Option<StopReason>,
    i: int,
    x: SessionMeta,
)
    requires
        before.sessions.wf(),
        before.sessions.unique_names(),
        before.sessions.record(id) == StoredSession::Present(x),
        stepped(before, after, id, WatchInput::Event { event, tree, now }, r),
        event.kind == EventKind::Access(AccessKind::Close(AccessMode::Write)) || event.kind
            == EventKind::Create(CreateKind::File),
        0 <= i < event.paths@.len(),
        event.paths@[i]@.under(before.ignore.root@),
        !before.ignore.ignored(event.paths@[i]@),
        before.snaps.is_due(id, before.ignore, tree@) == Some(true),
        before.snaps.next_number(id) <= u32::MAX,
    ensures
        r is None,
        after.head == before.head,
        after.config == before.config,
        exists|m: SnapMeta| #[trigger]
            snap::took(before.snaps, after.snaps, id, before.ignore, tree@, now, m),
        after.snaps.entries(id).len() == before.snaps.entries(id).len() + 1,
        after.sessions.record(id) == StoredSession::Present(
            SessionMeta { snap_count: before.snaps.next_number(id) as u32, ..x },
        ),
{
    assert(watched(before.ignore, event.paths@[i]@));
    assert(triggers(before.ignore, event));
    let m = choose|m: SnapMeta| #[trigger]
        snap::took(before.snaps, after.snaps, id, before.ignore, tree@, now, m) && numbered(
            before.sessions,
            after.sessions,
            id,
            m.n,
        );
    snap::law_capture_appends(
        before.snaps,
        after.snaps,
        id,
        before.ignore,
        tree@,
        now,
        m,
        id,
    );
    session::lemma_recorded_has_slot(before.sessions, id, x);
    let y = SessionMeta { snap_count: m.n, ..x };
    assert(session::updates(before.sessions, after.sessions, y, Ok(y)));
    session::law_update_keeps_names_unique(before.sessions, after.sessions, id, x, y, id);
}

/// Other events make no snap, and neither do faults and pauses. The watcher goes on.
pub proof fn law_other_inputs_change_nothing(
    before: RepoStore,
    after: RepoStore,
    id: SessionId,
    input: WatchInput,
    r: Option<StopReason>,
)
    requires
        stepped(before, after, id, input, r),
        match input {
            WatchInput::Event { event, .. } => event.kind != EventKind::Access(
                AccessKind::Close(AccessMode::Write),
            ) && event.kind != EventKind::Create(CreateKind::File),
            WatchInput::Fault => true,
            WatchInput::Timeout => true,
            _ => false,
        },
    ensures
        after == before,
        r is None,
{
}

/// A tree that is what the last snap recorded makes no snap.
pub proof fn law_unchanged_tree_makes_no_snap(
    before: RepoStore,
    after: RepoStore,
    id: SessionId,
    event: FsEvent,
    tree: Vec<WorkFile>,
    now: Millis,
    r: Option<StopReason>,
)
    requires
        stepped(before, after, id, WatchInput::Event { event, tree, now }, r),
        before.snaps.is_due(id, before.ignore, tree@) != Some(true),
    ensures
        after == before,
        r is None,
{
}

/// The watcher stops when it is asked to, or when the notifier is gone, and says which. Nothing
/// changes then.
pub proof fn law_watcher_stops_when_told(
    before: RepoStore,
    after: RepoStore,
    id: SessionId,
    input: WatchInput,
    r: Option<StopReason>,
)
    requires
        stepped(before, after, id, input, r),
    ensures
        r == (match input {
            WatchInput::Stop => Some(StopReason::StopRequested),
            WatchInput::Disconnected => Some(StopReason::Disconnected),
            _ => None,
        }),
        r is Some ==> after == before,
{
}

/// The watcher takes its inputs in their order up to the first one that stops it, and gives that
/// one's reason; those behind it are not looked at.
pub proof fn law_watcher_runs_up_to_the_first_stop(
    states: Seq<RepoStore>,
    id: SessionId,
    inputs: Seq<WatchInput>,
    reason: StopReason,
    k: int,
)
    requires
        ran(states, id, inputs, reason),
        0 <= k < inputs.len(),
        inputs[k] is Stop || inputs[k] is Disconnected,
        forall|j: int|
            0 <= j < k ==> !((#[trigger] inputs[j]) is Stop) && !(inputs[j] is Disconnected),
    ensures
        states.len() == k + 2,
        states.last() == states[k],
        inputs[k] is Stop ==> reason == StopReason::StopRequested,
        inputs[k] is Disconnected ==> reason == StopReason::Disconnected,
        forall|j: int|
            0 <= j < k ==> stepped(states[j], states[j + 1], id, #[trigger] inputs[j], None),
{
    let n = states.len() as int;
    if n >= 2 && stops(inputs[n - 2]) {
        if n - 2 > k {
            assert(went_on(states, id, inputs, k));
        }
        assert(n - 2 == k);
    } else {
        assert(n == inputs.len() + 1);
        if k < n - 2 {
            assert(went_on(states, id, inputs, k));
        } else {
            assert(went_on(states, id, inputs, n - 2));
        }
    }
    assert forall|j: int| 0 <= j < k implies stepped(
        states[j],
        states[j + 1],
        id,
        #[trigger] inputs[j],
        None,
    ) by {
        assert(went_on(states, id, inputs, j));
    }
}

/// A save reports a fault where the last record cannot be had, or where the session has no record
/// to hold the number of the new snap; otherwise it reports none.
pub proof fn law_save_reports_faults(
    before: RepoStore,
    id: SessionId,
    tree: Seq<WorkFile>,
    r: Result<(), GrsError>,
)
    requires
        before.sessions.wf(),
        save_reported(before, id, tree, r),
    ensures
        before.snaps.is_due(id, before.ignore, tree) is None ==> r is Err,
        before.snaps.is_due(id, before.ignore, tree) == Some(false) ==> r is Ok,
        before.snaps.is_due(id, before.ignore, tree) == Some(true) ==> (r is Ok
            <==> before.sessions.record(id) is Present),
{
    if let StoredSession::Present(x) = before.sessions.record(id) {
        session::lemma_recorded_has_slot(before.sessions, id, x);
    }
}

} // verus!
