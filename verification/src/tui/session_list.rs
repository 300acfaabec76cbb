//! The list of sessions: the first screen of the interface.
//!
//! The newest session comes first. There is a cursor, a filter by the beginning of the
//! id, a prompt for the name of a new session, a deletion that must be confirmed, and a
//! help text.

use crate::error::GrsError;
use crate::model::SessionMeta;
use crate::order;
use crate::session;
use crate::snap::WorkFile;
use crate::store;
use crate::store::RepoStore;
use crate::text;
use crate::tui::input::KeyAction;
use crate::tui::theme;
use crate::tui::theme::{Color, Line, LineModel, Palette, Span, SpanModel, Style};
use crate::ulid::SessionId;
use crate::util::time;
use crate::util::time::Millis;
use vstd::prelude::*;

verus! {

/// What the list asks the interface to do.
#[derive(Debug)]
pub enum ListCmd {
    Stay,
    Quit,
    /// Show this session in the review.
    OpenCodeReview(SessionMeta),
}

/// The state of the list.
#[derive(Debug)]
pub struct SessionListState {
    pub store: RepoStore,
    pub sessions: Vec<SessionMeta>,
    /// The row that the cursor is on, among the visible ones.
    pub cursor: Option<usize>,
    /// The beginning of the ids to show; empty for all.
    pub filter: String,
    /// The session whose deletion must be confirmed.
    pub pending_delete: Option<SessionId>,
    pub help_open: bool,
    /// The last message.
    pub toast: Option<String>,
    /// Whether the name of a new session is being asked for.
    pub new_session_prompt: bool,
    pub name_buf: String,
    /// What was wrong with the last name.
    pub name_error: Option<String>,
    /// Whether the new session is shown at once.
    pub new_and_open_on_confirm: bool,
}

/// The state of the list, its texts as characters and without the store.
#[verifier::ext_equal]
pub struct ListModel {
    pub sessions: Seq<SessionMeta>,
    pub cursor: Option<usize>,
    pub filter: Seq<char>,
    pub pending_delete: Option<SessionId>,
    pub help_open: bool,
    pub toast: Option<Seq<char>>,
    pub prompt: bool,
    pub name_buf: Seq<char>,
    pub name_error: Option<Seq<char>>,
    pub and_open: bool,
}

/// The sessions whose id begins with the filter.
pub open spec fn visible_of(sessions: Seq<SessionMeta>, filter: Seq<char>) -> Seq<SessionMeta> {
    sessions.filter(|s: SessionMeta| text::has_prefix(s.id.text(), filter))
}

/// The first row from `k` on that shows a session.
pub open spec fn row_of(rows: Seq<SessionMeta>, id: SessionId, k: int) -> Option<usize>
    decreases rows.len() - k,
{
    if k >= rows.len() {
        None
    } else if rows[k].id == id {
        Some(k as usize)
    } else {
        row_of(rows, id, k + 1)
    }
}

/// The beginning of an id that is shown.
pub open spec fn short(id: SessionId) -> Seq<char> {
    text::first_chars(id.text(), 10)
}

/// The beginning of an id that is shown.
pub fn short_id(id: &SessionId) -> (r: String)
    ensures
        r@ == short(*id),
{
    text::shorten(id.as_str().as_str(), 10)
}

impl ListModel {
    /// The rows that are shown.
    pub open spec fn rows(self) -> Seq<SessionMeta> {
        visible_of(self.sessions, self.filter)
    }

    /// The session under the cursor.
    pub open spec fn chosen(self) -> Option<SessionMeta> {
        match self.cursor {
            Some(i) => if i < self.rows().len() {
                Some(self.rows()[i as int])
            } else {
                None
            },
            None => None,
        }
    }

    /// With the cursor on the first row, where there is one.
    pub open spec fn at_first(self) -> ListModel {
        ListModel {
            cursor: if self.rows().len() == 0 {
                None
            } else {
                Some(0)
            },
            ..self
        }
    }

    /// With the sessions listed anew. The cursor stays on its session where that is still
    /// shown, and goes to the first row otherwise.
    pub open spec fn refreshed(self, all: Seq<SessionMeta>) -> ListModel {
        let now = ListModel { sessions: all, ..self };
        let row = match self.chosen() {
            Some(s) => row_of(now.rows(), s.id, 0),
            None => None,
        };
        match row {
            Some(_) => ListModel { cursor: row, ..now },
            None => now.at_first(),
        }
    }

    /// With this message.
    pub open spec fn says(self, toast: Seq<char>) -> ListModel {
        ListModel { toast: Some(toast), ..self }
    }

    /// After deleting a session was tried.
    pub open spec fn after_delete(
        self,
        id: SessionId,
        r: Result<(), GrsError>,
        all: Seq<SessionMeta>,
    ) -> ListModel {
        let done = ListModel { pending_delete: None, ..self };
        match r {
            Ok(_) => done.says("deleted "@ + short(id)).refreshed(all),
            Err(e) => match e {
                GrsError::SessionOpen(_) => done.says("session is open"@),
                _ => done.says("delete failed: "@ + e.text()),
            },
        }
    }

    /// After creating a session was tried.
    pub open spec fn after_create(
        self,
        r: Result<SessionMeta, GrsError>,
        all: Seq<SessionMeta>,
    ) -> (ListModel, ListCmd) {
        let done = ListModel {
            prompt: false,
            name_buf: Seq::empty(),
            and_open: false,
            ..self
        };
        match r {
            Ok(s) => {
                let listed = done.refreshed(all);
                let row = row_of(listed.rows(), s.id, 0);
                let placed = ListModel {
                    cursor: if row is Some {
                        row
                    } else {
                        listed.cursor
                    },
                    ..listed
                };
                (
                    placed.says("new session "@ + short(s.id)),
                    if self.and_open {
                        ListCmd::OpenCodeReview(s)
                    } else {
                        ListCmd::Stay
                    },
                )
            },
            Err(e) => (ListModel { name_error: Some(e.text()), ..done }, ListCmd::Stay),
        }
    }

    /// What a key does while the name of a new session is asked for, short of creating
    /// the session.
    pub open spec fn prompted(self, action: KeyAction) -> (ListModel, ListCmd) {
        let next = match action {
            KeyAction::CancelFilter | KeyAction::Quit | KeyAction::Back => ListModel {
                prompt: false,
                name_buf: Seq::empty(),
                name_error: None,
                and_open: false,
                ..self
            },
            KeyAction::ConfirmFilter | KeyAction::Enter => ListModel {
                name_error: Some("name cannot be empty"@),
                ..self
            },
            KeyAction::FilterBackspace => ListModel {
                name_buf: text::without_last(self.name_buf),
                name_error: None,
                ..self
            },
            KeyAction::FilterChar(c) => ListModel {
                name_buf: self.name_buf.push(c),
                name_error: None,
                ..self
            },
            _ => self,
        };
        (next, ListCmd::Stay)
    }

    /// What a key does in the list, short of deleting, creating and listing anew. Any
    /// key but the one for deleting takes back a deletion that was not confirmed.
    pub open spec fn acted(self, action: KeyAction) -> (ListModel, ListCmd) {
        let m = if action == KeyAction::Delete {
            self
        } else {
            ListModel { pending_delete: None, ..self }
        };
        match action {
            KeyAction::Down => (
                if m.rows().len() == 0 {
                    m
                } else {
                    let i: int = match m.cursor {
                        Some(i) => i as int,
                        None => 0,
                    };
                    let last = m.rows().len() - 1;
                    ListModel {
                        cursor: Some(
                            if i + 1 < last {
                                (i + 1) as usize
                            } else {
                                last as usize
                            },
                        ),
                        ..m
                    }
                },
                ListCmd::Stay,
            ),
            KeyAction::Up => (
                if m.rows().len() == 0 {
                    m
                } else {
                    ListModel {
                        cursor: Some(
                            match m.cursor {
                                Some(i) => if i > 0 {
                                    (i - 1) as usize
                                } else {
                                    0
                                },
                                None => 0,
                            },
                        ),
                        ..m
                    }
                },
                ListCmd::Stay,
            ),
            KeyAction::Enter => (
                m,
                match m.chosen() {
                    Some(s) => ListCmd::OpenCodeReview(s),
                    None => ListCmd::Stay,
                },
            ),
            KeyAction::NewSession | KeyAction::NewSessionAndOpen => (
                ListModel {
                    prompt: true,
                    name_buf: Seq::empty(),
                    name_error: None,
                    toast: None,
                    and_open: action == KeyAction::NewSessionAndOpen,
                    ..m
                },
                ListCmd::Stay,
            ),
            KeyAction::Delete => (
                match m.chosen() {
                    None => m,
                    Some(s) => if s.open_now() {
                        m.says(
                            short(s.id)
                                + " is open; run `grs new` (or press n) to close it first"@,
                        )
                    } else {
                        ListModel { pending_delete: Some(s.id), ..m }.says(
                            "press d again to delete "@ + short(s.id),
                        )
                    },
                },
                ListCmd::Stay,
            ),
            KeyAction::Filter => (
                ListModel { filter: Seq::empty(), ..m }.says(
                    "filter: (type to filter by id prefix)"@,
                ),
                ListCmd::Stay,
            ),
            KeyAction::FilterChar(c) => (
                ListModel { filter: m.filter.push(c), ..m }.at_first(),
                ListCmd::Stay,
            ),
            KeyAction::FilterBackspace => (
                ListModel { filter: text::without_last(m.filter), ..m }.at_first(),
                ListCmd::Stay,
            ),
            KeyAction::ConfirmFilter => (ListModel { toast: None, ..m }, ListCmd::Stay),
            KeyAction::CancelFilter => (
                ListModel { filter: Seq::empty(), toast: None, ..m }.at_first(),
                ListCmd::Stay,
            ),
            KeyAction::Help => (ListModel { help_open: !m.help_open, ..m }, ListCmd::Stay),
            KeyAction::Quit | KeyAction::Back => (m, ListCmd::Quit),
            _ => (m, ListCmd::Stay),
        }
    }

    /// Whether a key confirms a deletion.
    pub open spec fn confirms_delete(self, action: KeyAction) -> bool {
        &&& !self.prompt
        &&& action == KeyAction::Delete
        &&& self.chosen() is Some
        &&& !self.chosen()->0.open_now()
        &&& self.pending_delete == Some(self.chosen()->0.id)
    }

    /// Whether a key confirms the name of a new session.
    pub open spec fn confirms_name(self, action: KeyAction) -> bool {
        &&& self.prompt
        &&& (action == KeyAction::ConfirmFilter || action == KeyAction::Enter)
        &&& text::trim(self.name_buf).len() > 0
    }
}

/// What a key does to the whole state.
pub open spec fn list_step(
    before: SessionListState,
    after: SessionListState,
    action: KeyAction,
    tree: Seq<WorkFile>,
    now: Millis,
    r: ListCmd,
) -> bool {
    let m = before.model();
    if m.confirms_name(action) {
        exists|name: String, made: Result<SessionMeta, GrsError>|
            name@ == text::trim(m.name_buf) && #[trigger] store::rotates(
                before.store,
                after.store,
                name,
                tree,
                now,
                made,
            ) && (after.model(), r) == m.after_create(made, after.store.sessions.all())
    } else if m.prompt {
        after.store == before.store && (after.model(), r) == m.prompted(action)
    } else if m.confirms_delete(action) {
        exists|done: Result<(), GrsError>| #[trigger]
            store::deletes(before.store, after.store, m.chosen()->0.id, done) && after.model()
                == m.after_delete(m.chosen()->0.id, done, after.store.sessions.all()) && r
                == ListCmd::Stay
    } else if action == KeyAction::Refresh {
        &&& after.store == before.store
        &&& after.model() == ListModel { pending_delete: None, ..m }.refreshed(
            before.store.sessions.all(),
        ).says("refreshed"@)
        &&& r == ListCmd::Stay
    } else {
        after.store == before.store && (after.model(), r) == m.acted(action)
    }
}

impl SessionListState {
    /// The state, its texts as characters and without the store.
    pub open spec fn model(self) -> ListModel {
        ListModel {
            sessions: self.sessions@,
            cursor: self.cursor,
            filter: self.filter@,
            pending_delete: self.pending_delete,
            help_open: self.help_open,
            toast: text::opt_view(self.toast),
            prompt: self.new_session_prompt,
            name_buf: self.name_buf@,
            name_error: text::opt_view(self.name_error),
            and_open: self.new_and_open_on_confirm,
        }
    }

    /// The list of a project's sessions, with the cursor on the first.
    pub fn load(store: RepoStore) -> (r: SessionListState)
        ensures
            r.store == store,
            r.model() == (ListModel {
                sessions: store.sessions.all(),
                cursor: if store.sessions.all().len() == 0 {
                    None
                } else {
                    Some(0)
                },
                filter: Seq::empty(),
                pending_delete: None,
                help_open: false,
                toast: None,
                prompt: false,
                name_buf: Seq::empty(),
                name_error: None,
                and_open: false,
            }),
    {
        let sessions = store.sessions.list();
        let cursor: Option<usize> = if sessions.len() == 0 {
            None
        } else {
            Some(0)
        };
        let r = SessionListState {
            store,
            sessions,
            cursor,
            filter: String::new(),
            pending_delete: None,
            help_open: false,
            toast: None,
            new_session_prompt: false,
            name_buf: String::new(),
            name_error: None,
            new_and_open_on_confirm: false,
        };
        assert(r.filter@ =~= Seq::empty());
        assert(r.name_buf@ =~= Seq::empty());
        r
    }

    /// The sessions that are shown, in order.
    pub fn visible(&self) -> (r: Vec<SessionMeta>)
        ensures
            r@ == self.model().rows(),
    {
        let mut r: Vec<SessionMeta> = Vec::new();
        let mut i: usize = 0;
        let ghost keep = |s: SessionMeta| text::has_prefix(s.id.text(), self.filter@);
        let ghost all = self.sessions@;
        assert(all.take(0) =~= Seq::empty());
        assert(r@ =~= all.take(0).filter(keep)) by {
            reveal(Seq::filter);
        }
        while i < self.sessions.len()
            invariant
                i <= self.sessions.len(),
                all == self.sessions@,
                keep == (|s: SessionMeta| text::has_prefix(s.id.text(), self.filter@)),
                r@ == all.take(i as int).filter(keep),
            decreases self.sessions.len() - i,
        {
            assert(all.take(i + 1).drop_last() =~= all.take(i as int));
            let s = &self.sessions[i];
            if text::starts_with(s.id.as_str().as_str(), self.filter.as_str()) {
                r.push(s.copy());
            }
            proof {
                reveal(Seq::filter);
                assert(r@ == all.take(i + 1).filter(keep));
            }
            i += 1;
        }
        assert(all.take(i as int) =~= all);
        r
    }

    /// The session under the cursor.
    pub fn selected(&self) -> (r: Option<SessionMeta>)
        ensures
            r == self.model().chosen(),
    {
        match self.cursor {
            Some(i) => {
                let rows = self.visible();
                if i < rows.len() {
                    Some(rows[i].copy())
                } else {
                    None
                }
            },
            None => None,
        }
    }

    fn to_first(&mut self)
        ensures
            final(self).model() == old(self).model().at_first(),
            final(self).store == old(self).store,
    {
        let rows = self.visible();
        self.cursor = if rows.len() == 0 {
            None
        } else {
            Some(0)
        };
    }

    /// Lists the sessions anew. The cursor stays on its session where that is still
    /// shown.
    pub fn refresh(&mut self)
        ensures
            final(self).model() == old(self).model().refreshed(old(self).store.sessions.all()),
            final(self).store == old(self).store,
    {
        let held = self.selected();
        self.sessions = self.store.sessions.list();
        let rows = self.visible();
        let row = match held {
            Some(s) => find_row(&rows, &s.id),
            None => None,
        };
        match row {
            Some(_) => {
                self.cursor = row;
            },
            None => {
                self.to_first();
            },
        }
    }

    fn say(&mut self, toast: String)
        ensures
            final(self).model() == old(self).model().says(toast@),
            final(self).store == old(self).store,
    {
        self.toast = Some(toast);
    }

    /// Takes a key. `tree` and `now` are the files of the project and the time, in case a
    /// session is started.
    pub fn on_action(&mut self, action: KeyAction, tree: &Vec<WorkFile>, now: Millis) -> (r: ListCmd)
        requires
            tree@.len() <= u32::MAX,
        ensures
            list_step(*old(self), *final(self), action, tree@, now, r),
    {
        if self.new_session_prompt {
            return self.handle_name_prompt(action, tree, now);
        }
        let is_delete = match action {
            KeyAction::Delete => true,
            _ => false,
        };
        if !is_delete {
            self.pending_delete = None;
        }
        match action {
            KeyAction::Down => {
                let n: usize = self.visible().len();
                if n > 0 {
                    let i: usize = match self.cursor {
                        Some(i) => i,
                        None => 0,
                    };
                    let next: usize = if i < n - 1 {
                        i + 1
                    } else {
                        n - 1
                    };
                    self.cursor = Some(next);
                }
                ListCmd::Stay
            },
            KeyAction::Up => {
                let n: usize = self.visible().len();
                if n > 0 {
                    let i: usize = match self.cursor {
                        Some(i) => i,
                        None => 0,
                    };
                    let next: usize = if i > 0 {
                        i - 1
                    } else {
                        0
                    };
                    self.cursor = Some(next);
                }
                ListCmd::Stay
            },
            KeyAction::Enter => match self.selected() {
                Some(s) => ListCmd::OpenCodeReview(s),
                None => ListCmd::Stay,
            },
            KeyAction::NewSession | KeyAction::NewSessionAndOpen => {
                self.new_session_prompt = true;
                self.name_buf = String::new();
                assert(self.name_buf@ =~= Seq::empty());
                self.name_error = None;
                self.toast = None;
                self.new_and_open_on_confirm = match action {
                    KeyAction::NewSessionAndOpen => true,
                    _ => false,
                };
                ListCmd::Stay
            },
            KeyAction::Delete => {
                self.handle_delete();
                ListCmd::Stay
            },
            KeyAction::Filter => {
                self.filter = String::new();
                assert(self.filter@ =~= Seq::empty());
                self.say("filter: (type to filter by id prefix)".to_owned());
                ListCmd::Stay
            },
            KeyAction::FilterChar(c) => {
                self.filter.push(c);
                self.to_first();
                ListCmd::Stay
            },
            KeyAction::FilterBackspace => {
                self.filter = text::drop_last_char(self.filter.as_str());
                self.to_first();
                ListCmd::Stay
            },
            KeyAction::ConfirmFilter => {
                self.toast = None;
                ListCmd::Stay
            },
            KeyAction::CancelFilter => {
                self.filter = String::new();
                assert(self.filter@ =~= Seq::empty());
                self.toast = None;
                self.to_first();
                ListCmd::Stay
            },
            KeyAction::Refresh => {
                self.refresh();
                self.say("refreshed".to_owned());
                ListCmd::Stay
            },
            KeyAction::Help => {
                self.help_open = !self.help_open;
                ListCmd::Stay
            },
            KeyAction::Quit | KeyAction::Back => ListCmd::Quit,
            _ => ListCmd::Stay,
        }
    }

    /// Takes the key for deleting: the first press asks, the second one deletes.
    fn handle_delete(&mut self)
        requires
            !old(self).new_session_prompt,
        ensures
            forall|tree: Seq<WorkFile>, now: Millis| #[trigger]
                list_step(*old(self), *final(self), KeyAction::Delete, tree, now, ListCmd::Stay),
    {
        let session = match self.selected() {
            Some(s) => s,
            None => {
                return ;
            },
        };
        if session.is_open() {
            self.say(
                text::concat(
                    short_id(&session.id).as_str(),
                    " is open; run `grs new` (or press n) to close it first",
                ),
            );
            return ;
        }
        let confirmed = match self.pending_delete {
            Some(id) => id == session.id,
            None => false,
        };
        if !confirmed {
            self.pending_delete = Some(session.id);
            self.say(
                text::concat("press d again to delete ", short_id(&session.id).as_str()),
            );
            return ;
        }
        let ghost before = *self;
        let done = self.store.delete_session(&session.id);
        self.pending_delete = None;
        assert(store::deletes(before.store, self.store, session.id, done));
        match &done {
            Ok(_) => {
                self.say(text::concat("deleted ", short_id(&session.id).as_str()));
                self.refresh();
            },
            Err(e) => match e {
                GrsError::SessionOpen(_) => {
                    self.say("session is open".to_owned());
                },
                _ => {
                    self.say(text::concat("delete failed: ", e.message().as_str()));
                },
            },
        }
    }

    /// Takes a key while the name of a new session is asked for.
    fn handle_name_prompt(&mut self, action: KeyAction, tree: &Vec<WorkFile>, now: Millis) -> (r:
        ListCmd)
        requires
            old(self).new_session_prompt,
            tree@.len() <= u32::MAX,
        ensures
            list_step(*old(self), *final(self), action, tree@, now, r),
    {
        match action {
            KeyAction::CancelFilter | KeyAction::Quit | KeyAction::Back => {
                self.new_session_prompt = false;
                self.name_buf = String::new();
                assert(self.name_buf@ =~= Seq::empty());
                self.name_error = None;
                self.new_and_open_on_confirm = false;
                ListCmd::Stay
            },
            KeyAction::ConfirmFilter | KeyAction::Enter => {
                let name = text::trimmed(self.name_buf.as_str());
                if text::chars_of(name.as_str()).len() == 0 {
                    self.name_error = Some("name cannot be empty".to_owned());
                    return ListCmd::Stay;
                }
                let ghost before = *self;
                let ghost given = name;
                let made = self.store.rotate_open_session(name, tree, now);
                assert(store::rotates(before.store, self.store, given, tree@, now, made));
                self.new_session_prompt = false;
                self.name_buf = String::new();
                assert(self.name_buf@ =~= Seq::empty());
                let and_open = self.new_and_open_on_confirm;
                self.new_and_open_on_confirm = false;
                match made {
                    Ok(s) => {
                        self.refresh();
                        let rows = self.visible();
                        if let Some(i) = find_row(&rows, &s.id) {
                            self.cursor = Some(i);
                        }
                        self.say(text::concat("new session ", short_id(&s.id).as_str()));
                        if and_open {
                            ListCmd::OpenCodeReview(s)
                        } else {
                            ListCmd::Stay
                        }
                    },
                    Err(e) => {
                        self.name_error = Some(e.message());
                        ListCmd::Stay
                    },
                }
            },
            KeyAction::FilterBackspace => {
                self.name_buf = text::drop_last_char(self.name_buf.as_str());
                self.name_error = None;
                ListCmd::Stay
            },
            KeyAction::FilterChar(c) => {
                self.name_buf.push(c);
                self.name_error = None;
                ListCmd::Stay
            },
            _ => ListCmd::Stay,
        }
    }
}

fn find_row(rows: &Vec<SessionMeta>, id: &SessionId) -> (r: Option<usize>)
    ensures
        r == row_of(rows@, *id, 0),
        r matches Some(i) ==> i < rows@.len(),
{
    let mut i: usize = 0;
    while i < rows.len()
        invariant
            i <= rows.len(),
            row_of(rows@, *id, 0) == row_of(rows@, *id, i as int),
        decreases rows.len() - i,
    {
        if rows[i].id == *id {
            return Some(i);
        }
        i += 1;
    }
    None
}

proof fn lemma_row_of(rows: Seq<SessionMeta>, id: SessionId, k: int)
    requires
        0 <= k,
        rows.len() <= usize::MAX,
    ensures
        row_of(rows, id, k) matches Some(i) ==> k <= i < rows.len() && rows[i as int].id == id,
    decreases rows.len() - k,
{
    if k < rows.len() && rows[k].id != id {
        lemma_row_of(rows, id, k + 1);
    }
}

/// Whether the cursor, where there is one, is on a row.
pub open spec fn cursor_on_a_row(m: ListModel) -> bool {
    m.cursor matches Some(i) ==> i < m.rows().len()
}

/// Whether no list is longer than memory allows.
pub open spec fn list_fits(sessions: Seq<SessionMeta>) -> bool {
    sessions.len() <= usize::MAX
}

proof fn lemma_rows_len(s: Seq<SessionMeta>, keep: spec_fn(SessionMeta) -> bool)
    ensures
        s.filter(keep).len() <= s.len(),
    decreases s.len(),
{
    reveal(Seq::filter);
    if s.len() > 0 {
        lemma_rows_len(s.drop_last(), keep);
    }
}

proof fn lemma_refreshed_cursor(m: ListModel, all: Seq<SessionMeta>)
    requires
        list_fits(all),
    ensures
        cursor_on_a_row(m.refreshed(all)),
{
    let now = ListModel { sessions: all, ..m };
    lemma_rows_len(all, |s: SessionMeta| text::has_prefix(s.id.text(), m.filter));
    if let Some(s) = m.chosen() {
        lemma_row_of(now.rows(), s.id, 0);
    }
}

/// A cursor that is on a row stays on a row, whatever key is pressed.
pub proof fn law_cursor_stays_on_a_row(
    before: SessionListState,
    after: SessionListState,
    action: KeyAction,
    tree: Seq<WorkFile>,
    now: Millis,
    r: ListCmd,
)
    requires
        list_step(before, after, action, tree, now, r),
        cursor_on_a_row(before.model()),
        list_fits(before.sessions@),
        list_fits(before.store.sessions.all()),
        list_fits(after.store.sessions.all()),
    ensures
        cursor_on_a_row(after.model()),
{
    let m = before.model();
    lemma_rows_len(m.sessions, |s: SessionMeta| text::has_prefix(s.id.text(), m.filter));
    if m.confirms_name(action) {
        let (name, made) = choose|name: String, made: Result<SessionMeta, GrsError>|
            name@ == text::trim(m.name_buf) && #[trigger] store::rotates(
                before.store,
                after.store,
                name,
                tree,
                now,
                made,
            ) && (after.model(), r) == m.after_create(made, after.store.sessions.all());
        let done = ListModel { prompt: false, name_buf: Seq::empty(), and_open: false, ..m };
        let all = after.store.sessions.all();
        lemma_refreshed_cursor(done, all);
        if let Ok(s) = made {
            let listed = done.refreshed(all);
            lemma_rows_len(all, |s: SessionMeta| text::has_prefix(s.id.text(), m.filter));
            lemma_row_of(listed.rows(), s.id, 0);
        }
    } else if m.prompt {
    } else if m.confirms_delete(action) {
        let id = m.chosen()->0.id;
        let all = after.store.sessions.all();
        let done = ListModel { pending_delete: None, ..m };
        lemma_refreshed_cursor(done.says("deleted "@ + short(id)), all);
    } else if action == KeyAction::Refresh {
        lemma_refreshed_cursor(
            ListModel { pending_delete: None, ..m },
            before.store.sessions.all(),
        );
    } else if action == KeyAction::Filter || action == KeyAction::CancelFilter {
        lemma_no_filter(m.sessions);
    }
}

/// Without a filter every session is shown.
pub proof fn lemma_no_filter(sessions: Seq<SessionMeta>)
    ensures
        visible_of(sessions, Seq::empty()) == sessions,
    decreases sessions.len(),
{
    reveal(Seq::filter);
    if sessions.len() > 0 {
        lemma_no_filter(sessions.drop_last());
        let t = sessions.last().id.text();
        assert(t.take(0) =~= Seq::<char>::empty());
        assert(sessions =~= sessions.drop_last().push(sessions.last()));
    } else {
        assert(visible_of(sessions, Seq::empty()) =~= sessions);
    }
}

/// Nothing is deleted and nothing created without being confirmed: only the second
/// press on the same session deletes, and only a name that is not empty creates.
pub proof fn law_store_changes_only_when_confirmed(
    before: SessionListState,
    after: SessionListState,
    action: KeyAction,
    tree: Seq<WorkFile>,
    now: Millis,
    r: ListCmd,
)
    requires
        list_step(before, after, action, tree, now, r),
        !before.model().confirms_delete(action),
        !before.model().confirms_name(action),
    ensures
        after.store == before.store,
{
}

/// A session that is open is never deleted from the list.
pub proof fn law_open_session_is_not_deleted(
    before: SessionListState,
    after: SessionListState,
    tree: Seq<WorkFile>,
    now: Millis,
    r: ListCmd,
)
    requires
        list_step(before, after, KeyAction::Delete, tree, now, r),
        !before.new_session_prompt,
        before.model().chosen() is Some,
        before.model().chosen()->0.open_now(),
    ensures
        after.store == before.store,
        after.pending_delete == before.pending_delete,
{
}

/// The first press of the key for deleting removes nothing. On an open session it says that
/// the session is open; on one that has ended it marks the session and asks for a second
/// press.
pub proof fn law_first_delete_asks(
    before: SessionListState,
    after: SessionListState,
    tree: Seq<WorkFile>,
    now: Millis,
    r: ListCmd,
    s: SessionMeta,
)
    requires
        list_step(before, after, KeyAction::Delete, tree, now, r),
        !before.new_session_prompt,
        before.model().chosen() == Some(s),
        before.pending_delete != Some(s.id),
    ensures
        r == ListCmd::Stay,
        after.store == before.store,
        after.sessions@ == before.sessions@,
        after.model().chosen() == Some(s),
        s.open_now() ==> after.pending_delete == before.pending_delete && after.model().toast
            == Some(short(s.id) + " is open; run `grs new` (or press n) to close it first"@),
        !s.open_now() ==> after.pending_delete == Some(s.id) && after.model().toast == Some(
            "press d again to delete "@ + short(s.id),
        ),
{
    assert(after.model().rows() == before.model().rows());
}

/// Whether the store has every session that is listed, and has ended those that are listed
/// as ended.
pub open spec fn rows_known(list: SessionListState) -> bool {
    forall|i: int|
        0 <= i < list.sessions@.len() ==> is_known(list.store, #[trigger] list.sessions@[i])
}

/// Whether a store has a session, and has ended it where it is said to have ended.
pub open spec fn is_known(store: RepoStore, s: SessionMeta) -> bool {
    &&& store.sessions.record(s.id) is Present
    &&& !s.open_now() ==> !store.sessions.record(s.id)->Present_0.open_now()
}

/// A listing of all that the store has is known to the store. So is a list that was just
/// loaded.
pub proof fn law_listed_is_known(list: SessionListState)
    requires
        list.store.sessions.wf(),
        list.sessions@ == list.store.sessions.all(),
    ensures
        rows_known(list),
{
    assert forall|i: int| 0 <= i < list.sessions@.len() implies is_known(
        list.store,
        #[trigger] list.sessions@[i],
    ) by {
        assert(list.store.sessions.all().contains(list.sessions@[i]));
        session::law_listing_is_complete(list.store.sessions, list.sessions@[i]);
    }
}

/// No key makes the list show a session that the store does not have, or show one as ended
/// that has not.
pub proof fn law_rows_stay_known(
    before: SessionListState,
    after: SessionListState,
    action: KeyAction,
    tree: Seq<WorkFile>,
    now: Millis,
    r: ListCmd,
)
    requires
        before.store.sessions.wf(),
        before.store.sessions.unique_names(),
        rows_known(before),
        list_step(before, after, action, tree, now, r),
    ensures
        after.store.sessions.wf(),
        after.store.sessions.unique_names(),
        rows_known(after),
{
    let m = before.model();
    assert(m.sessions == before.sessions@ && after.model().sessions == after.sessions@);
    if m.confirms_name(action) {
        let (name, made) = choose|name: String, made: Result<SessionMeta, GrsError>|
            name@ == text::trim(m.name_buf) && #[trigger] store::rotates(
                before.store,
                after.store,
                name,
                tree,
                now,
                made,
            ) && (after.model(), r) == m.after_create(made, after.store.sessions.all());
        store::law_rotation_keeps_sessions(
            before.store,
            after.store,
            name,
            tree,
            now,
            made,
            SessionId(0),
        );
        if made is Ok {
            law_listed_is_known(after);
        } else {
            assert forall|i: int| 0 <= i < after.sessions@.len() implies is_known(
                after.store,
                #[trigger] after.sessions@[i],
            ) by {
                assert(is_known(before.store, before.sessions@[i]));
                store::law_rotation_keeps_sessions(
                    before.store,
                    after.store,
                    name,
                    tree,
                    now,
                    made,
                    before.sessions@[i].id,
                );
            }
        }
    } else if m.prompt {
    } else if m.confirms_delete(action) {
        let id = m.chosen()->0.id;
        let done = choose|done: Result<(), GrsError>| #[trigger]
            store::deletes(before.store, after.store, id, done) && after.model()
                == m.after_delete(id, done, after.store.sessions.all());
        store::law_delete(before.store, after.store, id, done, id);
        if done is Ok {
            law_listed_is_known(after);
        }
    } else if action == KeyAction::Refresh {
        law_listed_is_known(after);
    }
}

proof fn lemma_chosen_is_known(list: SessionListState, s: SessionMeta)
    requires
        rows_known(list),
        list.model().chosen() == Some(s),
    ensures
        is_known(list.store, s),
{
    let keep = |x: SessionMeta| text::has_prefix(x.id.text(), list.filter@);
    let i = list.cursor->0 as int;
    order::lemma_filter_holds(list.sessions@, keep, i);
    let w = choose|w: int| 0 <= w < list.sessions@.len() && list.sessions@[w] == s;
    assert(is_known(list.store, list.sessions@[w]));
}

/// The second press on the same session that has ended removes it from the store and from
/// the list, and takes the mark back. Other sessions stay.
pub proof fn law_second_delete_removes(
    before: SessionListState,
    after: SessionListState,
    tree: Seq<WorkFile>,
    now: Millis,
    r: ListCmd,
    s: SessionMeta,
    other: SessionId,
)
    requires
        before.store.sessions.wf(),
        rows_known(before),
        list_step(before, after, KeyAction::Delete, tree, now, r),
        !before.new_session_prompt,
        before.model().chosen() == Some(s),
        !s.open_now(),
        before.pending_delete == Some(s.id),
    ensures
        r == ListCmd::Stay,
        after.store.sessions.record(s.id) is Missing,
        forall|i: int| 0 <= i < after.sessions@.len() ==> (#[trigger] after.sessions@[i]).id != s.id,
        after.pending_delete is None,
        after.model().toast == Some("deleted "@ + short(s.id)),
        other != s.id ==> after.store.sessions.record(other) == before.store.sessions.record(other),
{
    lemma_chosen_is_known(before, s);
    let done = choose|done: Result<(), GrsError>| #[trigger]
        store::deletes(before.store, after.store, s.id, done) && after.model()
            == before.model().after_delete(s.id, done, after.store.sessions.all());
    store::law_delete(before.store, after.store, s.id, done, other);
}

/// A session goes on two presses in a row, the first of which leaves the store as it is.
pub proof fn law_two_deletes_remove(
    before: SessionListState,
    marked: SessionListState,
    after: SessionListState,
    trees: (Seq<WorkFile>, Seq<WorkFile>),
    times: (Millis, Millis),
    answers: (ListCmd, ListCmd),
    s: SessionMeta,
)
    requires
        before.store.sessions.wf(),
        rows_known(before),
        list_step(before, marked, KeyAction::Delete, trees.0, times.0, answers.0),
        list_step(marked, after, KeyAction::Delete, trees.1, times.1, answers.1),
        !before.new_session_prompt,
        before.model().chosen() == Some(s),
        !s.open_now(),
        before.pending_delete != Some(s.id),
    ensures
        answers == (ListCmd::Stay, ListCmd::Stay),
        marked.store == before.store,
        marked.pending_delete == Some(s.id),
        after.store.sessions.record(s.id) is Missing,
        forall|i: int| 0 <= i < after.sessions@.len() ==> (#[trigger] after.sessions@[i]).id != s.id,
        after.pending_delete is None,
{
    law_first_delete_asks(before, marked, trees.0, times.0, answers.0, s);
    assert(marked.model().prompt == before.model().prompt);
    law_second_delete_removes(marked, after, trees.1, times.1, answers.1, s, s.id);
}

/// No session is marked for deletion while the name of a new one is asked for, and every
/// key but the one for deleting takes the mark back.
pub proof fn law_other_keys_take_the_mark_back(
    before: SessionListState,
    after: SessionListState,
    action: KeyAction,
    tree: Seq<WorkFile>,
    now: Millis,
    r: ListCmd,
)
    requires
        list_step(before, after, action, tree, now, r),
        before.new_session_prompt ==> before.pending_delete is None,
    ensures
        after.new_session_prompt ==> after.pending_delete is None,
        action != KeyAction::Delete ==> after.pending_delete is None,
{
    assert(before.model().prompt == before.new_session_prompt);
    assert(before.model().pending_delete == before.pending_delete);
    assert(after.model().prompt == after.new_session_prompt);
    assert(after.model().pending_delete == after.pending_delete);
}

/// With another key between two presses of the key for deleting, nothing is removed.
pub proof fn law_interrupted_delete_removes_nothing(
    before: SessionListState,
    first: SessionListState,
    between: SessionListState,
    after: SessionListState,
    action: KeyAction,
    trees: (Seq<WorkFile>, Seq<WorkFile>, Seq<WorkFile>),
    times: (Millis, Millis, Millis),
    answers: (ListCmd, ListCmd, ListCmd),
)
    requires
        !before.new_session_prompt,
        !before.model().confirms_delete(KeyAction::Delete),
        list_step(before, first, KeyAction::Delete, trees.0, times.0, answers.0),
        action != KeyAction::Delete,
        list_step(first, between, action, trees.1, times.1, answers.1),
        list_step(between, after, KeyAction::Delete, trees.2, times.2, answers.2),
    ensures
        between.pending_delete is None,
        after.store == before.store,
{
    assert(first.model().prompt == before.model().prompt);
    law_other_keys_take_the_mark_back(
        first,
        between,
        action,
        trees.1,
        times.1,
        answers.1,
    );
}

/// The name of a key in a line of hints.
pub open spec fn key(t: Seq<char>) -> SpanModel {
    theme::span_of(t, theme::fg_style(theme::accent()))
}

/// Plain text in a line of hints.
pub open spec fn plain(t: Seq<char>) -> SpanModel {
    theme::span_of(t, theme::no_style())
}

/// What the keys of the list do, in short.
pub open spec fn list_hints() -> Seq<SpanModel> {
    seq![
        key("j/k"@),
        plain(" move  "@),
        key("Enter"@),
        plain(" open  "@),
        key("n/N"@),
        plain(" new  "@),
        key("d"@),
        plain(" del  "@),
        key("/"@),
        plain(" filter  "@),
        key("r"@),
        plain(" refresh  "@),
        key("?"@),
        plain(" help  "@),
        key("q"@),
        plain(" quit"@),
    ]
}

fn list_hint_spans() -> (r: Vec<Span>)
    ensures
        theme::span_models(r@) == list_hints(),
{
    let mut spans: Vec<Span> = Vec::new();
    spans.push(Span::of("j/k", Style::fg(Palette::accent())));
    spans.push(Span::of(" move  ", Style::plain()));
    spans.push(Span::of("Enter", Style::fg(Palette::accent())));
    spans.push(Span::of(" open  ", Style::plain()));
    spans.push(Span::of("n/N", Style::fg(Palette::accent())));
    spans.push(Span::of(" new  ", Style::plain()));
    spans.push(Span::of("d", Style::fg(Palette::accent())));
    spans.push(Span::of(" del  ", Style::plain()));
    spans.push(Span::of("/", Style::fg(Palette::accent())));
    spans.push(Span::of(" filter  ", Style::plain()));
    spans.push(Span::of("r", Style::fg(Palette::accent())));
    spans.push(Span::of(" refresh  ", Style::plain()));
    spans.push(Span::of("?", Style::fg(Palette::accent())));
    spans.push(Span::of(" help  ", Style::plain()));
    spans.push(Span::of("q", Style::fg(Palette::accent())));
    spans.push(Span::of(" quit", Style::plain()));
    assert(theme::span_models(spans@) =~= list_hints());
    spans
}

/// The bottom line: the last message with the hints, or the filter, or the hints alone.
pub open spec fn status_of(m: ListModel) -> LineModel {
    let bar = Style {
        fg: Some(
            if m.toast is Some && m.pending_delete is Some {
                theme::warning()
            } else {
                theme::status_fg()
            },
        ),
        bg: Some(theme::status_bg()),
        bold: false,
    };
    LineModel {
        spans: if m.toast is Some {
            seq![key(m.toast->0), plain("    "@)] + list_hints()
        } else if m.filter.len() > 0 {
            seq![
                key(" /"@),
                plain(m.filter),
                key("_"@),
                plain("    "@),
                key("Esc"@),
                plain(" clear"@),
            ]
        } else {
            list_hints()
        },
        style: bar,
    }
}

/// The lines that ask for the name of a new session.
pub open spec fn prompt_of(m: ListModel) -> Seq<LineModel> {
    let bold = theme::bold_style(theme::accent());
    let none = theme::no_style();
    seq![
        LineModel { spans: seq![theme::span_of("new session name"@, bold)], style: none },
        LineModel { spans: seq![], style: none },
        LineModel {
            spans: seq![
                theme::span_of("> "@, theme::fg_style(theme::status_fg())),
                theme::span_of(m.name_buf, bold),
                theme::span_of("_"@, theme::fg_style(theme::muted_color())),
            ],
            style: none,
        },
        LineModel { spans: seq![], style: none },
        LineModel {
            spans: seq![
                match m.name_error {
                    Some(e) => theme::span_of(e, theme::fg_style(Color::Red)),
                    None => theme::span_of(
                        "enter to create, esc to cancel"@,
                        theme::fg_style(theme::muted_color()),
                    ),
                },
            ],
            style: none,
        },
    ]
}

/// The two lines of a session: its name, then the beginning of its id, whether it is
/// open, how many snaps it has and when it started.
pub open spec fn row_lines_of(s: SessionMeta, started: Seq<char>) -> Seq<LineModel> {
    let status = if s.open_now() {
        "open  "@
    } else {
        "closed"@
    };
    let none = theme::no_style();
    seq![
        LineModel {
            spans: seq![theme::span_of(s.name@, Style { fg: None, bg: None, bold: true })],
            style: none,
        },
        LineModel {
            spans: seq![
                theme::span_of(
                    short(s.id) + "  "@ + status + "  "@ + text::pad_left(
                        text::decimal(s.snap_count as nat),
                        ' ',
                        3,
                    ) + " snaps  "@ + started,
                    theme::fg_style(theme::muted_color()),
                ),
            ],
            style: none,
        },
    ]
}

/// The two lines of a session, given when it started in words.
pub fn row_lines(s: &SessionMeta, started: &str) -> (r: Vec<Line>)
    ensures
        theme::line_models(r@) == row_lines_of(*s, started@),
{
    let mut top: Vec<Span> = Vec::new();
    top.push(Span::styled(s.name.clone(), Style { fg: None, bg: None, bold: true }));
    let status = if s.is_open() {
        "open  "
    } else {
        "closed"
    };
    let mut t = text::concat3(short_id(&s.id).as_str(), "  ", status);
    t.append("  ");
    t.append(
        text::padded_left(text::decimal_of(s.snap_count as u64).as_str(), ' ', 3).as_str(),
    );
    t.append(" snaps  ");
    t.append(started);
    let mut bottom: Vec<Span> = Vec::new();
    bottom.push(Span::styled(t, Style::fg(Palette::muted())));
    let mut r: Vec<Line> = Vec::new();
    assert(theme::span_models(top@) =~= row_lines_of(*s, started@)[0].spans);
    assert(theme::span_models(bottom@) =~= row_lines_of(*s, started@)[1].spans);
    r.push(Line::of(top));
    r.push(Line::of(bottom));
    assert(theme::line_models(r@) =~= row_lines_of(*s, started@));
    r
}

/// Whether the clocks of a place can be ahead of UTC by so many seconds at a time: by less
/// than a day either way, and for times of the calendar only.
pub open spec fn offset_at(ms: i64, offset: Option<i32>) -> bool {
    match offset {
        Some(o) => time::in_calendar(ms) && -86400 < o < 86400,
        None => !time::in_calendar(ms),
    }
}

/// `chrono::TimeZone::timestamp_millis_opt` of `chrono::Local` and
/// `FixedOffset::local_minus_utc`: by how many seconds the machine's time zone is ahead of
/// UTC at a time. There is an answer exactly for times of the calendar, and it is less than
/// a day. Which one it is depends on the zone and is left open.
#[verifier::external_body]
fn local_offset(ms: i64) -> (r: Option<i32>)
    ensures
        offset_at(ms, r),
{
    chrono::TimeZone::timestamp_millis_opt(&chrono::Local, ms).single().map(
        |t| t.offset().local_minus_utc(),
    )
}

/// What chrono prints for the day and minute of a time, where clocks are so many seconds
/// ahead of UTC; `None` where the time is outside its calendar or the offset a day or more.
pub uninterp spec fn minute(ms: i64, offset: i32) -> Option<Seq<char>>;

/// `chrono::FixedOffset::east_opt`, `chrono::TimeZone::timestamp_millis_opt` and
/// `DateTime::format` with day and minute: a function of the two numbers. There is a text
/// exactly for times of the calendar and offsets of less than a day.
#[verifier::external_body]
fn minute_text(ms: i64, offset: i32) -> (r: Option<String>)
    ensures
        text::opt_view(r) == minute(ms, offset),
        r is Some <==> offset_at(ms, Some(offset)),
{
    chrono::FixedOffset::east_opt(offset).and_then(
        |zone| chrono::TimeZone::timestamp_millis_opt(&zone, ms).single(),
    ).map(|t| t.format("%Y-%m-%d %H:%M").to_string())
}

/// A time in words, or its number where it has none.
pub fn words_or_millis(words: Option<String>, ms: i64) -> (r: String)
    ensures
        r@ == match words {
            Some(t) => t@,
            None => text::signed_decimal(ms as int),
        },
{
    match words {
        Some(t) => t,
        None => text::signed_decimal_of(ms),
    }
}

/// When a session started, by clocks that are so many seconds ahead of UTC: day and minute,
/// or the number where there are none.
pub open spec fn started_words(ms: i64, offset: Option<i32>) -> Seq<char> {
    match offset {
        Some(o) => match minute(ms, o) {
            Some(t) => t,
            None => text::signed_decimal(ms as int),
        },
        None => text::signed_decimal(ms as int),
    }
}

/// When a session started, by clocks that are so many seconds ahead of UTC.
pub fn started_at_offset(ms: i64, offset: Option<i32>) -> (r: String)
    ensures
        r@ == started_words(ms, offset),
        offset_at(ms, offset) ==> (offset matches Some(o) ==> minute(ms, o) == Some(r@)),
{
    match offset {
        Some(o) => words_or_millis(minute_text(ms, o), ms),
        None => words_or_millis(None, ms),
    }
}

/// When a session started, in local time: day and minute by the clocks of the machine's
/// time zone, and the number itself where the time is outside the calendar.
pub fn format_started(ms: i64) -> (r: String)
    ensures
        if time::in_calendar(ms) {
            exists|o: i32| offset_at(ms, Some(o)) && #[trigger] minute(ms, o) == Some(r@)
        } else {
            r@ == text::signed_decimal(ms as int)
        },
{
    let offset = local_offset(ms);
    let r = started_at_offset(ms, offset);
    assert(offset matches Some(o) ==> minute(ms, o) == Some(r@));
    r
}

/// The keys of the list, explained.
pub const LIST_HELP: &'static str =
    "Session list keys\n\n  j / k         move down / up\n  Enter         open the selected session in the code review\n  n             create a new session, return to the list\n  N             create a new session, open it immediately\n  d             delete the selected closed session (press d again to confirm)\n  /             start an id-prefix filter (Esc to clear)\n  r             refresh the list from disk\n  ?             toggle this help\n  q / Esc       quit the TUI\n\nIn the code review view: j/k scroll, J/K 10-line jump,\ngg/G top/bottom of the current snap, n/N next/prev change,\nh/l prev/next snap, tab next file, q / Esc back to the list.\n";

impl SessionListState {
    /// The bottom line.
    pub fn status_line(&self) -> (r: Line)
        ensures
            r@ == status_of(self.model()),
    {
        let warn = self.toast.is_some() && self.pending_delete.is_some();
        let style = Style {
            fg: Some(
                if warn {
                    Palette::warning()
                } else {
                    Palette::status_fg()
                },
            ),
            bg: Some(Palette::status_bg()),
            bold: false,
        };
        let mut spans: Vec<Span> = Vec::new();
        let ghost want = status_of(self.model()).spans;
        if let Some(toast) = &self.toast {
            spans.push(Span::styled(toast.clone(), Style::fg(Palette::accent())));
            spans.push(Span::of("    ", Style::plain()));
            let ghost head = spans@;
            let mut hints = list_hint_spans();
            let ghost tail = hints@;
            spans.append(&mut hints);
            assert(theme::span_models(spans@) =~= theme::span_models(head) + theme::span_models(tail));
            assert(theme::span_models(head) =~= seq![key(toast@), plain("    "@)]);
        } else if text::chars_of(self.filter.as_str()).len() > 0 {
            spans.push(Span::of(" /", Style::fg(Palette::accent())));
            spans.push(Span::styled(self.filter.clone(), Style::plain()));
            spans.push(Span::of("_", Style::fg(Palette::accent())));
            spans.push(Span::of("    ", Style::plain()));
            spans.push(Span::of("Esc", Style::fg(Palette::accent())));
            spans.push(Span::of(" clear", Style::plain()));
            assert(theme::span_models(spans@) =~= want);
        } else {
            spans = list_hint_spans();
        }
        assert(theme::span_models(spans@) =~= want);
        Line { spans, style }
    }

    /// The lines that ask for the name of a new session.
    pub fn prompt_lines(&self) -> (r: Vec<Line>)
        ensures
            theme::line_models(r@) == prompt_of(self.model()),
    {
        let bold = Style::bold(Palette::accent());
        let ghost want = prompt_of(self.model());
        let mut title: Vec<Span> = Vec::new();
        title.push(Span::of("new session name", bold));
        assert(theme::span_models(title@) =~= want[0].spans);
        let mut field: Vec<Span> = Vec::new();
        field.push(Span::of("> ", Style::fg(Palette::status_fg())));
        field.push(Span::styled(self.name_buf.clone(), bold));
        field.push(Span::of("_", Style::fg(Palette::muted())));
        assert(theme::span_models(field@) =~= want[2].spans);
        let mut last: Vec<Span> = Vec::new();
        match &self.name_error {
            Some(e) => {
                last.push(Span::styled(e.clone(), Style::fg(Color::Red)));
            },
            None => {
                last.push(
                    Span::of("enter to create, esc to cancel", Style::fg(Palette::muted())),
                );
            },
        }
        assert(theme::span_models(last@) =~= want[4].spans);
        let none1: Vec<Span> = Vec::new();
        let none2: Vec<Span> = Vec::new();
        assert(theme::span_models(none1@) =~= want[1].spans);
        assert(theme::span_models(none2@) =~= want[3].spans);
        let mut r: Vec<Line> = Vec::new();
        r.push(Line::of(title));
        r.push(Line::of(none1));
        r.push(Line::of(field));
        r.push(Line::of(none2));
        r.push(Line::of(last));
        assert(theme::line_models(r@) =~= want);
        r
    }

    /// What to show in place of rows where there are none.
    pub fn empty_message(&self) -> (r: &'static str)
        ensures
            r@ == if self.sessions@.len() == 0 {
                "(no sessions yet — make a save in your editor to start one)"@
            } else {
                "(no sessions match the filter)"@
            },
    {
        if self.sessions.len() == 0 {
            "(no sessions yet — make a save in your editor to start one)"
        } else {
            "(no sessions match the filter)"
        }
    }
}

/// The rows are the listed sessions whose id begins with the filter, in the order of the list.
/// Without a filter they are all of them.
pub proof fn law_filter_shows_what_begins_with_it(m: ListModel, s: SessionMeta, i: int, j: int)
    ensures
        m.rows().contains(s) <==> m.sessions.contains(s) && m.filter.len() <= s.id.text().len()
            && s.id.text().take(m.filter.len() as int) == m.filter,
        m.filter.len() == 0 ==> m.rows() == m.sessions,
        0 <= i < j < m.rows().len() ==> exists|a: int, b: int|
            0 <= a < b < m.sessions.len() && #[trigger] m.sessions[a] == m.rows()[i]
                && #[trigger] m.sessions[b] == m.rows()[j],
{
    let keep = |x: SessionMeta| text::has_prefix(x.id.text(), m.filter);
    if m.rows().contains(s) {
        let i = choose|i: int| 0 <= i < m.rows().len() && m.rows()[i] == s;
        order::lemma_filter_holds(m.sessions, keep, i);
    }
    if m.sessions.contains(s) && keep(s) {
        order::lemma_filter_keeps(m.sessions, keep, s);
    }
    if m.filter.len() == 0 {
        assert(m.filter =~= Seq::empty());
        lemma_no_filter(m.sessions);
    }
    if 0 <= i < j < m.rows().len() {
        order::lemma_filter_places(m.sessions, keep, i, j);
    }
}

/// The cursor goes one row down or up, and stays on the last or the first row at the ends. Enter
/// opens the session under it.
pub proof fn law_cursor_moves_by_one(m: ListModel, i: usize)
    requires
        m.cursor == Some(i),
        i < m.rows().len(),
        m.rows().len() <= usize::MAX,
    ensures
        m.acted(KeyAction::Down).0.cursor == Some(
            (if i + 1 < m.rows().len() {
                i + 1
            } else {
                i as int
            }) as usize,
        ),
        m.acted(KeyAction::Up).0.cursor == Some(
            (if i > 0 {
                i - 1
            } else {
                0
            }) as usize,
        ),
        m.acted(KeyAction::Down).0.sessions == m.sessions,
        m.acted(KeyAction::Up).0.filter == m.filter,
        m.acted(KeyAction::Enter).1 == ListCmd::OpenCodeReview(m.rows()[i as int]),
        m.acted(KeyAction::Down).1 == ListCmd::Stay,
{
}

/// What is typed into the filter is what the filter holds; Backspace takes the last character
/// back; a cancelled filter is empty. Each time the cursor goes to the first row.
pub proof fn law_filter_holds_what_is_typed(m: ListModel, c: char)
    ensures
        ({
            let typed = m.acted(KeyAction::FilterChar(c)).0;
            let back = typed.acted(KeyAction::FilterBackspace).0;
            let off = m.acted(KeyAction::CancelFilter).0;
            &&& typed.filter == m.filter.push(c)
            &&& typed.cursor == (if typed.rows().len() == 0 {
                None::<usize>
            } else {
                Some(0usize)
            })
            &&& back.filter == m.filter
            &&& off.filter.len() == 0
            &&& m.acted(KeyAction::ConfirmFilter).0.filter == m.filter
            &&& m.acted(KeyAction::Filter).0.filter.len() == 0
            &&& typed.sessions == m.sessions && off.sessions == m.sessions
        }),
{
    text::law_taking_the_last_back(m.filter, c);
}

/// The help turns on and off, and the keys for leaving leave.
pub proof fn law_help_and_leaving(m: ListModel)
    ensures
        m.acted(KeyAction::Help).0.help_open == !m.help_open,
        m.acted(KeyAction::Help).1 == ListCmd::Stay,
        m.acted(KeyAction::Quit).1 == ListCmd::Quit,
        m.acted(KeyAction::Back).1 == ListCmd::Quit,
        m.acted(KeyAction::Nothing).1 == ListCmd::Stay,
        m.acted(KeyAction::Nothing).0.sessions == m.sessions,
{
}

/// The keys for a new session ask for its name, from nothing. What is typed is what the name
/// holds. Giving up closes the prompt and changes nothing else of the list.
pub proof fn law_name_is_asked_for(m: ListModel, c: char)
    ensures
        ({
            let asked = m.acted(KeyAction::NewSession).0;
            let both = m.acted(KeyAction::NewSessionAndOpen).0;
            &&& asked.prompt && asked.name_buf.len() == 0 && !asked.and_open
            &&& both.prompt && both.name_buf.len() == 0 && both.and_open
            &&& asked.sessions == m.sessions && asked.cursor == m.cursor && asked.filter == m.filter
            &&& m.prompted(KeyAction::FilterChar(c)).0.name_buf == m.name_buf.push(c)
            &&& m.prompted(KeyAction::FilterChar(c)).0.prompt == m.prompt
            &&& m.prompted(KeyAction::FilterChar(c)).0.prompted(
                KeyAction::FilterBackspace,
            ).0.name_buf == m.name_buf
            &&& !m.prompted(KeyAction::CancelFilter).0.prompt
            &&& m.prompted(KeyAction::CancelFilter).0.sessions == m.sessions
            &&& m.prompted(KeyAction::CancelFilter).0.cursor == m.cursor
            &&& m.confirms_name(KeyAction::Enter) <==> m.prompt && exists|i: int|
                0 <= i < m.name_buf.len() && !text::space(#[trigger] m.name_buf[i])
        }),
{
    text::law_taking_the_last_back(m.name_buf, c);
    let typed = m.name_buf;
    text::law_trim_takes_white_space_from_the_ends(typed);
    let (a, b) = choose|a: int, b: int|
        0 <= a <= b <= typed.len() && text::trim(typed) == #[trigger] typed.subrange(a, b) && (
        forall|i: int| 0 <= i < typed.len() && !(a <= i < b) ==> text::space(#[trigger] typed[i]))
            && (a < b ==> !text::space(typed[a]) && !text::space(typed[b - 1]));
    if a < b {
        assert(!text::space(typed[a]));
    }
}

/// A name that was given makes a session where the store takes it: the prompt closes, the new
/// session is listed and under the cursor, and is opened where that was asked for. Otherwise
/// the prompt closes too, and what was wrong is said.
pub proof fn law_named_session_is_made(
    before: SessionListState,
    after: SessionListState,
    tree: Seq<WorkFile>,
    now: Millis,
    r: ListCmd,
)
    requires
        before.store.sessions.wf(),
        before.store.sessions.unique_names(),
        before.new_session_prompt,
        text::trim(before.name_buf@).len() > 0,
        list_step(before, after, KeyAction::Enter, tree, now, r),
    ensures
        !after.new_session_prompt,
        after.name_buf@.len() == 0,
        exists|name: String, made: Result<SessionMeta, GrsError>|
            name@ == text::trim(before.name_buf@) && #[trigger] store::rotates(
                before.store,
                after.store,
                name,
                tree,
                now,
                made,
            ) && match made {
                Ok(s) => {
                    &&& after.store.head_id() == Some(s.id)
                    &&& after.sessions@ == after.store.sessions.all()
                    &&& r == (if before.new_and_open_on_confirm {
                        ListCmd::OpenCodeReview(s)
                    } else {
                        ListCmd::Stay
                    })
                    &&& after.filter@.len() == 0 && after.sessions@.len() <= usize::MAX ==> (
                    after.model().chosen() matches Some(x) && x.id == s.id)
                },
                Err(e) => after.name_error is Some && after.name_error->0@ == e.text() && r
                    == ListCmd::Stay,
            },
{
    let m = before.model();
    let (name, made) = choose|name: String, made: Result<SessionMeta, GrsError>|
        name@ == text::trim(m.name_buf) && #[trigger] store::rotates(
            before.store,
            after.store,
            name,
            tree,
            now,
            made,
        ) && (after.model(), r) == m.after_create(made, after.store.sessions.all());
    assert(after.model().prompt == after.new_session_prompt);
    assert(after.model().name_buf == after.name_buf@);
    assert(after.model().sessions == after.sessions@);
    if let Ok(s) = made {
        store::law_rotation_keeps_sessions(
            before.store,
            after.store,
            name,
            tree,
            now,
            made,
            s.id,
        );
        let mid = choose|mid: RepoStore|
            mid.same_project(before.store) && mid.snaps == before.store.snaps && mid.head
                == before.store.head && store::closes(before.store, mid.sessions, now)
                && #[trigger] store::starts(mid, after.store, name, tree, now, Ok(s));
        store::lemma_closed_keeps(before.store, mid, now);
        store::law_started_session_says(mid, after.store, name, tree, now, s);
        let y = after.store.sessions.record(s.id)->Present_0;
        let all = after.store.sessions.all();
        session::law_listing_is_complete(after.store.sessions, y);
        let w = choose|w: int| 0 <= w < all.len() && all[w] == y;
        if after.filter@.len() == 0 && all.len() <= usize::MAX {
            assert(after.filter@ =~= Seq::empty());
            lemma_no_filter(all);
            assert(after.model().rows() == all);
            lemma_row_found(all, s.id, 0, w);
            lemma_row_of(all, s.id, 0);
        }
    }
}

proof fn lemma_row_found(rows: Seq<SessionMeta>, id: SessionId, k: int, w: int)
    requires
        0 <= k <= w < rows.len(),
        rows[w].id == id,
    ensures
        row_of(rows, id, k) is Some,
    decreases rows.len() - k,
{
    if rows[k].id != id {
        lemma_row_found(rows, id, k + 1, w);
    }
}

/// A session is listed with its name, the beginning of its id, whether it is open, the number of
/// its snaps, and when it started.
pub proof fn law_row_says_what_the_session_is(s: SessionMeta, started: Seq<char>)
    ensures
        ({
            let rows = row_lines_of(s, started);
            let t = rows[1].spans[0].text;
            &&& rows.len() == 2
            &&& rows[0].spans[0].text == s.name@
            &&& t == text::first_chars(s.id.text(), 10) + "  "@ + (if s.ended_at is None {
                "open  "@
            } else {
                "closed"@
            }) + "  "@ + text::pad_left(text::decimal(s.snap_count as nat), ' ', 3) + " snaps  "@
                + started
        }),
{
}

/// The bottom line shows the last message, or else the filter, and warns where a deletion waits
/// to be confirmed. The prompt shows the name as typed so far, and what was wrong with the last
/// one.
pub proof fn law_bottom_line_shows_the_message(m: ListModel)
    ensures
        m.toast matches Some(t) ==> status_of(m).spans[0].text == t,
        m.toast is None && m.filter.len() > 0 ==> status_of(m).spans[1].text == m.filter,
        m.toast is Some && m.pending_delete is Some ==> status_of(m).style.fg == Some(
            Color::Yellow,
        ),
        m.pending_delete is None ==> status_of(m).style.fg == Some(Color::Gray),
        prompt_of(m)[2].spans[1].text == m.name_buf,
        m.name_error matches Some(e) ==> prompt_of(m)[4].spans[0].text == e,
{
}

/// A refresh lists what the store has; the cursor stays on its session where that is still
/// listed, and goes to the first row otherwise. The store stays.
pub proof fn law_refresh_lists_the_store(
    before: SessionListState,
    after: SessionListState,
    tree: Seq<WorkFile>,
    now: Millis,
    r: ListCmd,
    s: SessionMeta,
    i: int,
)
    requires
        !before.new_session_prompt,
        list_step(before, after, KeyAction::Refresh, tree, now, r),
        before.store.sessions.all().len() <= usize::MAX,
    ensures
        after.store == before.store,
        r == ListCmd::Stay,
        after.sessions@ == before.store.sessions.all(),
        after.filter@ == before.filter@,
        before.model().chosen() == Some(s) && 0 <= i < after.model().rows().len()
            && after.model().rows()[i].id == s.id ==> (after.model().chosen() matches Some(x)
            && x.id == s.id),
{
    let m = before.model();
    let all = before.store.sessions.all();
    assert(after.model().sessions == after.sessions@);
    assert(after.model().filter == after.filter@);
    let now_rows = visible_of(all, m.filter);
    lemma_rows_len(all, |x: SessionMeta| text::has_prefix(x.id.text(), m.filter));
    assert(after.model().rows() == now_rows);
    if m.chosen() == Some(s) && 0 <= i < now_rows.len() && now_rows[i].id == s.id {
        let plain = ListModel { pending_delete: None, ..m };
        assert(plain.rows() == m.rows());
        lemma_row_found(now_rows, s.id, 0, i);
        lemma_row_of(now_rows, s.id, 0);
    }
}

/// The time of a start is what the clocks of the place show, or its number where there is none.
pub proof fn law_start_in_words(ms: i64, offset: i32, t: Seq<char>)
    ensures
        minute(ms, offset) == Some(t) ==> started_words(ms, Some(offset)) == t,
        started_words(ms, None) == text::signed_decimal(ms as int),
        minute(ms, offset) is None ==> started_words(ms, Some(offset)) == text::signed_decimal(
            ms as int,
        ),
{
}

} // verus!
