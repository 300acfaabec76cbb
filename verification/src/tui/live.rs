//! The two-pane view: the snaps of a session on the left, what changed in the chosen one
//! on the right. Live it follows a session while it is captured; as a viewer it shows a
//! session that has ended.

use crate::error::GrsError;
use crate::model::SessionMeta;
use crate::path;
use crate::path::FsPath;
use crate::session;
use crate::session::{SessionStore, StoredSession};
use crate::snap;
use crate::snap::SnapStore;
use crate::store;
use crate::store::RepoStore;
use crate::text;
use crate::tui::diff_view;
use crate::tui::diff_view::DiffViewState;
use crate::tui::input;
use crate::tui::input::{Key, KeyCode};
use crate::tui::snap_list;
use crate::tui::snap_list::SnapListState;
use crate::tui::theme;
use crate::tui::theme::{Color, Line, LineModel, Span, Style, Theme};
use crate::ulid::SessionId;
use crate::util::time::Millis;
use vstd::prelude::*;

verus! {

/// What the watcher tells the view.
#[derive(Clone, Copy, Debug, PartialEq, Eq, Structural)]
pub enum WatchEvent {
    SnapCaptured { n: u32 },
}

/// What a key asks the view to do.
#[derive(Clone, Copy, Debug, PartialEq, Eq, Structural)]
pub enum LiveKeyResult {
    Continue,
    Quit,
}

/// Whether a key leaves the view.
pub open spec fn quits(key: Key) -> bool {
    input::is_interrupt(key) || key.code == KeyCode::Char('q') || key.code == KeyCode::Esc
}

/// Whether a key moves the cursor.
pub open spec fn moves(key: Key) -> bool {
    match key.code {
        KeyCode::Char('j')
        | KeyCode::Down
        | KeyCode::Char('k')
        | KeyCode::Up
        | KeyCode::Char('g')
        | KeyCode::Char('G') => !quits(key),
        _ => false,
    }
}

/// Where a key takes the cursor of a list of `n` entries.
pub open spec fn cursor_after(key: Key, cursor: usize, n: nat) -> int {
    if !moves(key) {
        cursor as int
    } else {
        match key.code {
            KeyCode::Char('j') | KeyCode::Down => if cursor + 1 < n {
                cursor + 1
            } else {
                cursor as int
            },
            KeyCode::Char('k') | KeyCode::Up => if cursor > 0 {
                cursor - 1
            } else {
                0
            },
            KeyCode::Char('g') => 0,
            _ => snap_list::last_place(n),
        }
    }
}

/// The snaps of a session are numbered from 1, and the lines of any two of them in a row
/// can be counted.
pub open spec fn can_be_listed(snaps: SnapStore, id: SessionId) -> bool {
    &&& forall|i: int|
        0 <= i < snaps.entries(id).len() ==> (#[trigger] snaps.entries(id)[i]).n >= 1
    &&& forall|n: u32| n >= 1 ==> #[trigger] diff_view::pair_countable(snaps, id, n)
}

/// All snaps of a session can be compared with the ones before them.
pub open spec fn all_comparable(snaps: SnapStore, id: SessionId) -> bool {
    forall|i: int|
        0 <= i < snaps.entries(id).len() ==> snap_list::comparable(
            snaps,
            id,
            (#[trigger] snaps.entries(id)[i]).n,
        )
}

/// `list` shows the snaps of a session, with the cursor on the last.
pub open spec fn lists(snaps: SnapStore, id: SessionId, list: SnapListState) -> bool {
    let all = snaps.entries(id);
    &&& snap::entry_models(list.entries@) == all
    &&& list.cursor == snap_list::last_place(all.len())
    &&& list.diffs@ == snap_list::counts_of(snaps, id, all, all.len() as int)
}

/// What loading the list again makes of it: where the snaps cannot be compared, it stays.
pub open spec fn reloads(
    snaps: SnapStore,
    id: SessionId,
    before: SnapListState,
    after: SnapListState,
) -> bool {
    if all_comparable(snaps, id) {
        lists(snaps, id, after)
    } else {
        after == before
    }
}

fn quits_on(key: Key) -> (r: bool)
    ensures
        r == quits(key),
{
    if key.control && key.code == KeyCode::Char('c') {
        return true;
    }
    match key.code {
        KeyCode::Char('q') | KeyCode::Esc => true,
        _ => false,
    }
}

/// Moves the cursor of a list, and says whether the key does that.
fn move_cursor(list: &mut SnapListState, key: Key) -> (r: bool)
    requires
        old(list).wf(),
        !quits(key),
    ensures
        r == moves(key),
        final(list).wf(),
        final(list).entries == old(list).entries,
        final(list).diffs == old(list).diffs,
        final(list).cursor == cursor_after(key, old(list).cursor, old(list).entries@.len()),
{
    match key.code {
        KeyCode::Char('j') | KeyCode::Down => {
            list.cursor_down();
            true
        },
        KeyCode::Char('k') | KeyCode::Up => {
            list.cursor_up();
            true
        },
        KeyCode::Char('g') => {
            list.cursor_to_top();
            true
        },
        KeyCode::Char('G') => {
            list.cursor_to_bottom();
            true
        },
        _ => false,
    }
}

/// The state of the live view.
#[derive(Debug)]
pub struct LiveTui {
    pub store: RepoStore,
    pub session: SessionMeta,
    pub snap_list: SnapListState,
    pub diff_view: DiffViewState,
    /// Whether something changed since the last drawing.
    pub needs_redraw: bool,
}

/// A list whose cursor is on an entry, with entries numbered from 1.
pub open spec fn good_list(list: SnapListState) -> bool {
    list.wf() && forall|i: int|
        0 <= i < list.entries@.len() ==> (#[trigger] list.entries@[i]).n >= 1
}

proof fn lemma_listed(snaps: SnapStore, id: SessionId, list: SnapListState)
    requires
        can_be_listed(snaps, id),
        snap::entry_models(list.entries@) == snaps.entries(id),
        list.wf(),
    ensures
        good_list(list),
{
    assert(snap::entry_models(list.entries@).len() == list.entries@.len());
    assert forall|i: int| 0 <= i < list.entries@.len() implies (#[trigger] list.entries@[i]).n
        >= 1 by {
        assert(snap::entry_models(list.entries@)[i] == list.entries@[i]@);
        assert(snaps.entries(id)[i].n >= 1);
    }
}

/// What is on the right: nothing new where the list is empty or the snap is shown already.
pub open spec fn follows_cursor(
    snaps: SnapStore,
    id: SessionId,
    list: SnapListState,
    before: DiffViewState,
    after: DiffViewState,
    again: bool,
) -> bool {
    if list.cursor >= list.entries@.len() {
        after == before
    } else {
        let n = list.entries@[list.cursor as int].n;
        if !again && before.current_snap_n == Some(n) {
            after == before
        } else {
            &&& after.current_snap_n == Some(n)
            &&& after.scroll == 0
            &&& if n == 1 {
                after.lines@.len() == 0
            } else if snap_list::comparable(snaps, id, n) {
                theme::line_models(after.lines@) == diff_view::snap_rows(snaps, id, n)
            } else {
                after.lines == before.lines
            }
        }
    }
}

fn show_cursor(
    store: &RepoStore,
    session: &SessionMeta,
    list: &SnapListState,
    view: &mut DiffViewState,
    again: bool,
)
    requires
        can_be_listed(store.snaps, session.id),
        good_list(*list),
    ensures
        follows_cursor(store.snaps, session.id, *list, *old(view), *final(view), again),
{
    if list.cursor < list.entries.len() {
        let entry = &list.entries[list.cursor];
        let shown = match view.current_snap_n {
            Some(n) => n == entry.n,
            None => false,
        };
        if again || !shown {
            let _ = view.load(store, session, entry);
        }
    }
}

/// What a key does to the live view.
pub open spec fn live_step(before: LiveTui, after: LiveTui, key: Key, r: LiveKeyResult) -> bool {
    &&& r == if quits(key) {
        LiveKeyResult::Quit
    } else {
        LiveKeyResult::Continue
    }
    &&& if !quits(key) && key.code == KeyCode::Char('r') {
        after.needs_redraw && reloads(
            before.store.snaps,
            before.session.id,
            before.snap_list,
            after.snap_list,
        )
    } else {
        &&& after.needs_redraw == (before.needs_redraw || moves(key))
        &&& after.snap_list.entries == before.snap_list.entries
        &&& after.snap_list.diffs == before.snap_list.diffs
        &&& after.snap_list.cursor == cursor_after(
            key,
            before.snap_list.cursor,
            before.snap_list.entries@.len(),
        )
    }
}

impl LiveTui {
    /// The list can be loaded again at any time.
    pub open spec fn wf(self) -> bool {
        can_be_listed(self.store.snaps, self.session.id) && good_list(self.snap_list)
    }

    /// The live view of a session, with the cursor on its last snap.
    pub fn new(store: RepoStore, session: SessionMeta) -> (r: Result<LiveTui, GrsError>)
        requires
            can_be_listed(store.snaps, session.id),
        ensures
            match r {
                Ok(t) => t.wf() && t.store == store && t.session == session && lists(
                    store.snaps,
                    session.id,
                    t.snap_list,
                ) && t.diff_view.current_snap_n is None && t.diff_view.lines@.len() == 0
                    && t.diff_view.scroll == 0 && t.needs_redraw && all_comparable(
                    store.snaps,
                    session.id,
                ),
                Err(e) => exists|i: int| #[trigger]
                    snap_list::first_fault(store.snaps, session.id, i, e),
            },
    {
        match SnapListState::load(&store, &session) {
            Ok(list) => {
                proof {
                    lemma_listed(store.snaps, session.id, list);
                }
                Ok(
                    LiveTui {
                        store,
                        session,
                        snap_list: list,
                        diff_view: DiffViewState::new(),
                        needs_redraw: true,
                    },
                )
            },
            Err(e) => Err(e),
        }
    }

    fn reload(&mut self)
        requires
            old(self).wf(),
        ensures
            final(self).wf(),
            final(self).store == old(self).store,
            final(self).session == old(self).session,
            final(self).diff_view == old(self).diff_view,
            final(self).needs_redraw,
            reloads(
                old(self).store.snaps,
                old(self).session.id,
                old(self).snap_list,
                final(self).snap_list,
            ),
    {
        match SnapListState::load(&self.store, &self.session) {
            Ok(list) => {
                proof {
                    lemma_listed(self.store.snaps, self.session.id, list);
                }
                self.snap_list = list;
            },
            Err(e) => {
                assert(exists|i: int| #[trigger]
                    snap_list::first_fault(self.store.snaps, self.session.id, i, e));
            },
        }
        self.needs_redraw = true;
    }

    /// Takes word from the watcher: the list is loaded again from `store`, the project as
    /// it is now.
    pub fn on_watch_event(&mut self, event: WatchEvent, store: RepoStore)
        requires
            old(self).wf(),
            can_be_listed(store.snaps, old(self).session.id),
        ensures
            final(self).wf(),
            final(self).store == store,
            final(self).session == old(self).session,
            final(self).diff_view == old(self).diff_view,
            final(self).needs_redraw,
            reloads(
                store.snaps,
                old(self).session.id,
                old(self).snap_list,
                final(self).snap_list,
            ),
    {
        match event {
            WatchEvent::SnapCaptured { n: _ } => {
                self.store = store;
                self.reload();
            },
        }
    }

    /// Makes ready for drawing: shows the snap under the cursor on the right, unless it is
    /// shown already.
    pub fn prepare(&mut self)
        requires
            old(self).wf(),
        ensures
            final(self).wf(),
            final(self).store == old(self).store,
            final(self).session == old(self).session,
            final(self).snap_list == old(self).snap_list,
            !final(self).needs_redraw,
            if old(self).needs_redraw {
                follows_cursor(
                    old(self).store.snaps,
                    old(self).session.id,
                    old(self).snap_list,
                    old(self).diff_view,
                    final(self).diff_view,
                    false,
                )
            } else {
                final(self).diff_view == old(self).diff_view
            },
    {
        if self.needs_redraw {
            show_cursor(&self.store, &self.session, &self.snap_list, &mut self.diff_view, false);
            self.needs_redraw = false;
        }
    }

    /// Takes a key.
    pub fn handle_live_key(&mut self, key: Key) -> (r: LiveKeyResult)
        requires
            old(self).wf(),
        ensures
            final(self).wf(),
            final(self).store == old(self).store,
            final(self).session == old(self).session,
            final(self).diff_view == old(self).diff_view,
            live_step(*old(self), *final(self), key, r),
    {
        if quits_on(key) {
            return LiveKeyResult::Quit;
        }
        if key.code == KeyCode::Char('r') {
            self.reload();
        } else if move_cursor(&mut self.snap_list, key) {
            self.needs_redraw = true;
        }
        LiveKeyResult::Continue
    }

    /// The top line.
    pub fn status_bar(&self) -> (r: Line)
        ensures
            r@ == bar(
                " grs — session: "@ + self.session.name@ + " "@,
                "  j/k snap   g/G top/bottom   r refresh   q quit "@,
            ),
    {
        bar_line(
            text::concat3(" grs — session: ", self.session.name.as_str(), " "),
            "  j/k snap   g/G top/bottom   r refresh   q quit ",
        )
    }
}

/// The top line: a title and a hint.
pub open spec fn bar(title: Seq<char>, hint: Seq<char>) -> LineModel {
    LineModel {
        spans: seq![
            theme::span_of(title, theme::bold_style(Color::Cyan)),
            theme::span_of(hint, theme::fg_style(Color::Gray)),
        ],
        style: theme::bg_style(Color::DarkGray),
    }
}

fn bar_line(title: String, hint: &str) -> (r: Line)
    ensures
        r@ == bar(title@, hint@),
{
    let t = Theme::default();
    let mut spans: Vec<Span> = Vec::new();
    spans.push(Span::styled(title, t.status_title()));
    spans.push(Span::of(hint, t.status_hint()));
    let r = Line { spans, style: t.status_bar() };
    assert(r@ =~= bar(title@, hint@));
    r
}

/// What is on the right when a session is opened: the snap under the cursor, if any.
pub open spec fn shows_first(
    snaps: SnapStore,
    id: SessionId,
    list: SnapListState,
    view: DiffViewState,
) -> bool {
    &&& view.scroll == 0
    &&& if list.cursor < list.entries@.len() {
        let n = list.entries@[list.cursor as int].n;
        &&& view.current_snap_n == Some(n)
        &&& if n == 1 {
            view.lines@.len() == 0
        } else {
            theme::line_models(view.lines@) == diff_view::snap_rows(snaps, id, n)
        }
    } else {
        view.current_snap_n is None && view.lines@.len() == 0
    }
}

/// A session that has ended, shown without a watcher.
#[derive(Debug)]
pub struct Viewer {
    pub store: RepoStore,
    pub session: SessionMeta,
    pub snap_list: SnapListState,
    pub diff_view: DiffViewState,
}

impl Viewer {
    /// The list was loaded from the store.
    pub open spec fn wf(self) -> bool {
        can_be_listed(self.store.snaps, self.session.id) && good_list(self.snap_list)
    }

    /// Opens a session, with its last snap shown.
    pub fn open(store: RepoStore, session: SessionMeta) -> (r: Result<Viewer, GrsError>)
        requires
            can_be_listed(store.snaps, session.id),
        ensures
            match r {
                Ok(v) => {
                    &&& v.wf()
                    &&& v.store == store
                    &&& v.session == session
                    &&& lists(store.snaps, session.id, v.snap_list)
                    &&& all_comparable(store.snaps, session.id)
                    &&& shows_first(store.snaps, session.id, v.snap_list, v.diff_view)
                },
                Err(e) => exists|i: int| #[trigger]
                    snap_list::first_fault(store.snaps, session.id, i, e),
            },
    {
        let list = match SnapListState::load(&store, &session) {
            Ok(list) => list,
            Err(e) => {
                return Err(e);
            },
        };
        proof {
            lemma_listed(store.snaps, session.id, list);
        }
        let mut view = DiffViewState::new();
        show_cursor(&store, &session, &list, &mut view, true);
        if list.cursor < list.entries.len() {
            assert(store.snaps.entries(session.id)[list.cursor as int]
                == list.entries@[list.cursor as int]@);
        }
        Ok(Viewer { store, session, snap_list: list, diff_view: view })
    }

    /// Takes a key. Nothing of the project changes.
    pub fn handle_key(&mut self, key: Key) -> (r: LiveKeyResult)
        requires
            old(self).wf(),
        ensures
            final(self).wf(),
            final(self).store == old(self).store,
            final(self).session == old(self).session,
            final(self).snap_list.entries == old(self).snap_list.entries,
            final(self).snap_list.diffs == old(self).snap_list.diffs,
            final(self).snap_list.cursor == cursor_after(
                key,
                old(self).snap_list.cursor,
                old(self).snap_list.entries@.len(),
            ),
            if quits(key) {
                r == LiveKeyResult::Quit && final(self).diff_view == old(self).diff_view
            } else {
                r == LiveKeyResult::Continue && follows_cursor(
                    old(self).store.snaps,
                    old(self).session.id,
                    final(self).snap_list,
                    old(self).diff_view,
                    final(self).diff_view,
                    true,
                )
            },
    {
        if quits_on(key) {
            return LiveKeyResult::Quit;
        }
        let _ = move_cursor(&mut self.snap_list, key);
        show_cursor(&self.store, &self.session, &self.snap_list, &mut self.diff_view, true);
        LiveKeyResult::Continue
    }

    /// The top line.
    pub fn status_bar(&self) -> (r: Line)
        ensures
            r@ == bar(
                " grs — viewing: "@ + self.session.name@ + "   (read-only) "@,
                "  j/k snap   q back "@,
            ),
    {
        bar_line(
            text::concat3(" grs — viewing: ", self.session.name.as_str(), "   (read-only) "),
            "  j/k snap   q back ",
        )
    }
}

/// What a look at the number of snaps gives: the number to remember, and word for the view
/// where it changed.
pub fn observe(last: u32, n: u32) -> (r: (u32, Option<WatchEvent>))
    ensures
        r.0 == n,
        r.1 == if n != last {
            Some(WatchEvent::SnapCaptured { n })
        } else {
            None
        },
{
    if n != last {
        (n, Some(WatchEvent::SnapCaptured { n }))
    } else {
        (last, None)
    }
}

/// The session that `HEAD` points at, where it is open.
pub fn open_session(store: &RepoStore) -> (r: Result<Option<SessionMeta>, GrsError>)
    ensures
        match r {
            Ok(Some(m)) => store.head_id() is Some && store.sessions.record(store.head_id()->0)
                == StoredSession::Present(m) && m.open_now(),
            Ok(None) => !store::head_broken(store.head@) && (store.head_id() matches Some(id)
                ==> store.sessions.record(id) is Present && !store.sessions.record(
                id,
            )->Present_0.open_now()),
            Err(e) => match store.head_id() {
                Some(id) => session::no_session(store.sessions.record(id), id, e),
                None => store::head_error(store.head@, e),
            },
        },
{
    match store.head() {
        Ok(Some(id)) => match store.sessions.get(&id) {
            Ok(m) => if m.is_open() {
                Ok(Some(m.copy()))
            } else {
                Ok(None)
            },
            Err(e) => Err(e),
        },
        Ok(None) => Ok(None),
        Err(e) => Err(e),
    }
}

/// What ending a session at `now` does: its record says so, with the number of its snaps.
pub open spec fn ends(
    before: RepoStore,
    after: SessionStore,
    id: SessionId,
    now: Millis,
    r: Result<SessionMeta, GrsError>,
) -> bool {
    match before.sessions.record(id) {
        StoredSession::Present(m) => session::updates(
            before.sessions,
            after,
            SessionMeta {
                ended_at: Some(now),
                snap_count: before.snaps.entries(id).len() as usize as u32,
                ..m
            },
            r,
        ),
        missing => {
            &&& r is Err
            &&& session::no_session(missing, id, r->Err_0)
            &&& after == before.sessions
        },
    }
}

/// Ends a session at `now`, with the number of its snaps.
pub fn finalize_session(store: &mut RepoStore, id: &SessionId, now: Millis) -> (r: Result<
    SessionMeta,
    GrsError,
>)
    ensures
        final(store).same_project(*old(store)),
        final(store).snaps == old(store).snaps,
        final(store).head == old(store).head,
        ends(*old(store), final(store).sessions, *id, now, r),
{
    let n: u32 = store.snaps.count(id);
    store.sessions.finalize(id, now, n)
}

/// What a key of the prompt for a name comes to.
#[derive(Debug)]
pub enum PromptStep {
    /// More keys are awaited.
    Typing,
    Cancelled,
    /// The name that was given.
    Named(String),
}

/// The prompt for the name of a first session.
#[derive(Debug)]
pub struct NamePrompt {
    pub input: String,
}

/// What is typed after a key, where the prompt goes on.
pub open spec fn input_after(typed: Seq<char>, key: Key) -> Seq<char> {
    match key.code {
        KeyCode::Backspace => text::without_last(typed),
        KeyCode::Char(c) => if key.control {
            typed
        } else {
            typed.push(c)
        },
        _ => typed,
    }
}

/// Whether a key gives up on the prompt.
pub open spec fn cancels(key: Key) -> bool {
    input::is_interrupt(key) || key.code == KeyCode::Esc
}

/// Whether a key gives the name: Enter, where something but blanks was typed.
pub open spec fn confirms(typed: Seq<char>, key: Key) -> bool {
    !cancels(key) && key.code == KeyCode::Enter && text::trim(typed).len() > 0
}

/// What a key does to the prompt: what is typed after it, and what comes of it.
pub open spec fn prompt_step(
    typed: Seq<char>,
    key: Key,
    after: Seq<char>,
    r: PromptStep,
) -> bool {
    if cancels(key) {
        r is Cancelled && after == typed
    } else if confirms(typed, key) {
        r is Named && r->Named_0@ == text::trim(typed) && after == typed
    } else {
        r is Typing && after == input_after(typed, key)
    }
}

impl NamePrompt {
    /// A prompt with nothing typed.
    pub fn new() -> (r: NamePrompt)
        ensures
            r.input@.len() == 0,
    {
        NamePrompt { input: String::new() }
    }

    /// Takes a key.
    pub fn feed(&mut self, key: Key) -> (r: PromptStep)
        ensures
            prompt_step(old(self).input@, key, final(self).input@, r),
            !(r is Typing) ==> final(self).input == old(self).input,
    {
        if key.control && key.code == KeyCode::Char('c') {
            return PromptStep::Cancelled;
        }
        match key.code {
            KeyCode::Esc => PromptStep::Cancelled,
            KeyCode::Enter => {
                let name = text::trimmed(self.input.as_str());
                if text::chars_of(name.as_str()).len() == 0 {
                    PromptStep::Typing
                } else {
                    PromptStep::Named(name)
                }
            },
            KeyCode::Backspace => {
                self.input = text::drop_last_char(self.input.as_str());
                PromptStep::Typing
            },
            KeyCode::Char(c) => {
                if !key.control {
                    self.input.push(c);
                }
                PromptStep::Typing
            },
            _ => PromptStep::Typing,
        }
    }

    /// The lines of the prompt, for a project at `root`.
    pub fn lines(&self, root: &FsPath) -> (r: Vec<Line>)
        ensures
            theme::line_models(r@) == prompt_rows(self.input@, path::file_name_of(root@)),
    {
        let ghost want = prompt_rows(self.input@, path::file_name_of(root@));
        let t = Theme::default();
        let project = match root.file_name() {
            Some(n) => n,
            None => "(unknown)".to_owned(),
        };
        let mut first: Vec<Span> = Vec::new();
        first.push(Span::styled(text::concat("project: ", project.as_str()), t.muted()));
        assert(theme::span_models(first@) =~= want[0].spans);
        let mut field: Vec<Span> = Vec::new();
        field.push(Span::of("> ", t.normal()));
        field.push(Span::styled(self.input.clone(), Style::bold(Color::Yellow)));
        field.push(Span::of("_", t.muted()));
        assert(theme::span_models(field@) =~= want[2].spans);
        let mut last: Vec<Span> = Vec::new();
        last.push(Span::of("enter to start, esc to cancel", t.muted()));
        assert(theme::span_models(last@) =~= want[4].spans);
        let none1: Vec<Span> = Vec::new();
        let none2: Vec<Span> = Vec::new();
        assert(theme::span_models(none1@) =~= want[1].spans);
        assert(theme::span_models(none2@) =~= want[3].spans);
        let mut r: Vec<Line> = Vec::new();
        r.push(Line::of(first));
        r.push(Line::of(none1));
        r.push(Line::of(field));
        r.push(Line::of(none2));
        r.push(Line::of(last));
        assert(theme::line_models(r@) =~= want);
        r
    }
}

/// The lines of the prompt.
pub open spec fn prompt_rows(typed: Seq<char>, project: Option<Seq<char>>) -> Seq<LineModel> {
    let muted = theme::fg_style(Color::DarkGray);
    let blank = LineModel { spans: Seq::empty(), style: theme::no_style() };
    seq![
        LineModel {
            spans: seq![
                theme::span_of(
                    "project: "@ + (match project {
                        Some(n) => n,
                        None => "(unknown)"@,
                    }),
                    muted,
                ),
            ],
            style: theme::no_style(),
        },
        blank,
        LineModel {
            spans: seq![
                theme::span_of("> "@, theme::no_style()),
                theme::span_of(typed, theme::bold_style(Color::Yellow)),
                theme::span_of("_"@, muted),
            ],
            style: theme::no_style(),
        },
        blank,
        LineModel {
            spans: seq![theme::span_of("enter to start, esc to cancel"@, muted)],
            style: theme::no_style(),
        },
    ]
}

/// What is typed after several keys.
pub open spec fn input_after_all(start: Seq<char>, keys: Seq<Key>) -> Seq<char>
    decreases keys.len(),
{
    if keys.len() == 0 {
        start
    } else {
        input_after(input_after_all(start, keys.drop_last()), keys.last())
    }
}

/// What is typed into the prompt is what it holds, letter for letter, and none of it ends
/// the prompt.
pub proof fn law_prompt_holds_what_is_typed(start: Seq<char>, keys: Seq<Key>)
    requires
        forall|i: int|
            0 <= i < keys.len() ==> (#[trigger] keys[i]).code is Char && !keys[i].control,
    ensures
        input_after_all(start, keys) == start + input::typed(keys),
        forall|i: int|
            0 <= i < keys.len() ==> !cancels(#[trigger] keys[i]) && !confirms(start, keys[i]),
    decreases keys.len(),
{
    if keys.len() == 0 {
        assert(start + input::typed(keys) =~= start);
    } else {
        let d = keys.drop_last();
        assert forall|i: int| 0 <= i < d.len() implies (#[trigger] d[i]).code is Char
            && !d[i].control by {
            assert(d[i] == keys[i]);
        }
        law_prompt_holds_what_is_typed(start, d);
        assert((start + input::typed(d)).push(keys.last().code->Char_0) =~= start + input::typed(
            keys,
        ));
    }
}

/// From any place, so many steps down reach the last entry, and so many up the first.
pub proof fn law_cursor_reaches_both_ends(cursor: usize, n: nat, k: nat)
    requires
        n <= usize::MAX,
        cursor < n,
    ensures
        steps(Key { code: KeyCode::Char('j'), control: false }, cursor as int, n, k) == if cursor + k
            < n {
            cursor + k
        } else {
            n - 1
        },
        steps(Key { code: KeyCode::Char('k'), control: false }, cursor as int, n, k) == if cursor > k {
            cursor - k
        } else {
            0
        },
    decreases k,
{
    if k > 0 {
        law_cursor_reaches_both_ends(cursor, n, (k - 1) as nat);
    }
}

/// Where a key takes the cursor when pressed `k` times.
pub open spec fn steps(key: Key, cursor: int, n: nat, k: nat) -> int
    decreases k,
{
    if k == 0 {
        cursor
    } else {
        cursor_after(key, steps(key, cursor, n, (k - 1) as nat) as usize, n)
    }
}

/// `q`, Esc and Ctrl-C leave the view, and no other key does.
pub proof fn law_keys_that_leave(key: Key)
    ensures
        quits(key) <==> key.code == KeyCode::Char('q') || key.code == KeyCode::Esc || (key.code
            == KeyCode::Char('c') && key.control),
{
}

/// `g` goes to the first snap and `G` to the last. Keys that neither step nor jump leave the
/// cursor where it is.
pub proof fn law_cursor_jumps(key: Key, cursor: usize, n: nat)
    ensures
        key.code == KeyCode::Char('g') ==> cursor_after(key, cursor, n) == 0,
        key.code == KeyCode::Char('G') && n > 0 ==> cursor_after(key, cursor, n) == n - 1,
        key.code == KeyCode::Down ==> cursor_after(key, cursor, n) == (if cursor + 1 < n {
            cursor + 1
        } else {
            cursor as int
        }),
        key.code == KeyCode::Up ==> cursor_after(key, cursor, n) == (if cursor > 0 {
            cursor - 1
        } else {
            0
        }),
        !(key.code matches KeyCode::Char(_)) && key.code != KeyCode::Down && key.code != KeyCode::Up
            ==> cursor_after(key, cursor, n) == cursor,
{
}

/// What is on the right follows the cursor: it is the snap under it, from its top where it was
/// not shown before, and its lines are those of the changes since the snap before it.
pub proof fn law_right_side_follows_the_cursor(
    snaps: SnapStore,
    id: SessionId,
    list: SnapListState,
    before: DiffViewState,
    after: DiffViewState,
    again: bool,
)
    requires
        follows_cursor(snaps, id, list, before, after, again),
        list.cursor < list.entries@.len(),
    ensures
        after.current_snap_n == Some(list.entries@[list.cursor as int].n),
        before.current_snap_n != after.current_snap_n ==> after.scroll == 0,
        before.current_snap_n != after.current_snap_n || again ==> {
            let n = list.entries@[list.cursor as int].n;
            &&& n == 1 ==> after.lines@.len() == 0
            &&& n > 1 && snaps.meta_of(id, (n - 1) as u32) is Present && snaps.meta_of(id, n) is Present
                ==> theme::line_models(after.lines@) == diff_view::snap_rows(snaps, id, n)
        },
{
}

/// A list that was loaded shows every snap of the session, with the cursor on the last.
pub proof fn law_list_shows_every_snap(snaps: SnapStore, id: SessionId, list: SnapListState)
    requires
        lists(snaps, id, list),
    ensures
        list.entries@.len() == snaps.entries(id).len(),
        forall|i: int|
            0 <= i < list.entries@.len() ==> (#[trigger] list.entries@[i])@ == snaps.entries(id)[i],
        list.entries@.len() > 0 ==> list.cursor == list.entries@.len() - 1,
{
    assert(snap::entry_models(list.entries@).len() == list.entries@.len());
    assert forall|i: int| 0 <= i < list.entries@.len() implies (#[trigger] list.entries@[i])@
        == snaps.entries(id)[i] by {
        assert(snap::entry_models(list.entries@)[i] == list.entries@[i]@);
    }
}

/// The prompt gives the name that was typed, without blanks at its ends, on Enter; it takes the
/// last character back on Backspace, and gives up on Esc and on Ctrl-C.
pub proof fn law_prompt_keys(typed: Seq<char>, c: char)
    ensures
        ({
            let enter = Key { code: KeyCode::Enter, control: false };
            let back = Key { code: KeyCode::Backspace, control: false };
            &&& confirms(typed, enter) <==> exists|i: int|
                0 <= i < typed.len() && !text::space(#[trigger] typed[i])
            &&& !cancels(enter) && !cancels(back)
            &&& input_after(typed, enter) == typed
            &&& input_after(typed.push(c), back) == typed
            &&& cancels(Key { code: KeyCode::Esc, control: false })
            &&& cancels(Key { code: KeyCode::Char('c'), control: true })
            &&& !cancels(Key { code: KeyCode::Char(c), control: false })
        }),
{
    text::law_taking_the_last_back(typed, c);
    text::law_trim_takes_white_space_from_the_ends(typed);
    let (a, b) = choose|a: int, b: int|
        0 <= a <= b <= typed.len() && text::trim(typed) == #[trigger] typed.subrange(a, b) && (
        forall|i: int| 0 <= i < typed.len() && !(a <= i < b) ==> text::space(#[trigger] typed[i]))
            && (a < b ==> !text::space(typed[a]) && !text::space(typed[b - 1]));
    if a < b {
        assert(!text::space(typed[a]));
    }
}

/// What comes of a key of the prompt: the name on Enter, without the blanks around it; nothing on
/// Enter where nothing but blanks was typed; giving up on Esc; and otherwise the prompt goes on.
pub proof fn law_prompt_gives_the_name(typed: Seq<char>, key: Key, after: Seq<char>, r: PromptStep)
    requires
        prompt_step(typed, key, after, r),
    ensures
        r is Named <==> key.code == KeyCode::Enter && text::trim(typed).len() > 0,
        r is Named ==> r->Named_0@ == text::trim(typed),
        r is Cancelled <==> key.code == KeyCode::Esc || (key.control && key.code == KeyCode::Char(
            'c',
        )),
        !(r is Typing) ==> after == typed,
        key.code matches KeyCode::Char(c) ==> !key.control ==> after == typed.push(c),
{
}

/// The lines of the two views name the session, and the prompt shows what was typed so far and
/// the project it is for.
pub proof fn law_lines_show_names(title: Seq<char>, hint: Seq<char>, typed: Seq<char>, project: Seq<char>)
    ensures
        bar(title, hint).spans[0].text == title,
        bar(title, hint).spans[1].text == hint,
        prompt_rows(typed, Some(project))[0].spans[0].text == "project: "@ + project,
        prompt_rows(typed, Some(project))[2].spans[1].text == typed,
{
}

/// A session that is ended says when, and how many snaps it has; all else of it stays, and so do
/// all other sessions.
pub proof fn law_ended_session_says_when(
    before: RepoStore,
    after: SessionStore,
    id: SessionId,
    now: Millis,
    r: Result<SessionMeta, GrsError>,
    m: SessionMeta,
    other: SessionId,
)
    requires
        before.sessions.wf(),
        before.sessions.unique_names(),
        before.sessions.record(id) == StoredSession::Present(m),
        ends(before, after, id, now, r),
    ensures
        r is Ok,
        after.record(id) matches StoredSession::Present(x) && x.ended_at == Some(now) && x.snap_count
            == before.snaps.count_of(id) && x.name == m.name && x.id == m.id && x.started_at
            == m.started_at && x.file_count == m.file_count && x.slug == m.slug,
        other != id ==> after.record(other) == before.sessions.record(other),
{
    let x = SessionMeta {
        ended_at: Some(now),
        snap_count: before.snaps.entries(id).len() as usize as u32,
        ..m
    };
    session::lemma_recorded_has_slot(before.sessions, id, m);
    session::law_update_keeps_names_unique(before.sessions, after, id, m, x, other);
    session::law_update_keeps_names_unique(before.sessions, after, id, m, x, id);
}

/// A key of the live view leaves it, loads the list again, moves the cursor, or does nothing.
/// What moves is drawn again.
pub proof fn law_live_keys(before: LiveTui, after: LiveTui, key: Key, r: LiveKeyResult)
    requires
        live_step(before, after, key, r),
    ensures
        r == LiveKeyResult::Quit <==> key.code == KeyCode::Char('q') || key.code == KeyCode::Esc || (
        key.control && key.code == KeyCode::Char('c')),
        key.code == KeyCode::Char('r') ==> after.needs_redraw && (all_comparable(
            before.store.snaps,
            before.session.id,
        ) ==> lists(before.store.snaps, before.session.id, after.snap_list)),
        key.code == KeyCode::Down ==> after.needs_redraw && after.snap_list.cursor == (
        if before.snap_list.cursor + 1 < before.snap_list.entries@.len() {
            before.snap_list.cursor + 1
        } else {
            before.snap_list.cursor as int
        }),
        key.code == KeyCode::Enter ==> after.snap_list.cursor == before.snap_list.cursor
            && after.needs_redraw == before.needs_redraw,
{
}

/// A session that is opened is shown with its last snap: the changes since the one before it, or
/// nothing where it is the first.
pub proof fn law_opened_session_shows_its_last_snap(
    snaps: SnapStore,
    id: SessionId,
    list: SnapListState,
    view: DiffViewState,
)
    requires
        lists(snaps, id, list),
        shows_first(snaps, id, list, view),
    ensures
        view.scroll == 0,
        snaps.entries(id).len() > 0 ==> view.current_snap_n == Some(snaps.entries(id).last().n) && (
        snaps.entries(id).last().n > 1 ==> theme::line_models(view.lines@) == diff_view::snap_rows(
            snaps,
            id,
            snaps.entries(id).last().n,
        )),
        snaps.entries(id).len() == 0 ==> view.current_snap_n is None && view.lines@.len() == 0,
{
    law_list_shows_every_snap(snaps, id, list);
    if snaps.entries(id).len() > 0 {
        assert(list.entries@[list.cursor as int]@ == snaps.entries(id).last());
    }
}

} // verus!
