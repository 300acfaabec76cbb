//! The replay of a session: its snaps of single files in the order in which they were
//! taken, one after the other, by hand or by the clock.

use crate::file_snap;
use crate::file_snap::{Snap, SnapModel};
use crate::model::SessionMeta;
use crate::order;
use crate::order::Ranked;
use crate::store::RepoStore;
use crate::text;
use crate::tui::code_review;
use crate::tui::file_view::FileViewState;
use crate::tui::highlight;
use crate::tui::highlight::HighlightEngine;
use crate::tui::input;
use crate::tui::input::{Key, KeyAction, KeyCode, KeyOutcome, VimParser};
use crate::tui::session_list;
use crate::tui::theme;
use crate::tui::theme::{Line, LineModel, Palette, Span, SpanModel, Style};
use crate::ulid::SessionId;
use vstd::prelude::*;

verus! {

/// The shortest time between two snaps, in milliseconds.
pub const MIN_SPEED_MS: u64 = 50;

/// The longest time between two snaps, in milliseconds.
pub const MAX_SPEED_MS: u64 = 5000;

/// The time between two snaps at the start, in milliseconds.
pub const START_SPEED_MS: u64 = 600;

/// By how much one key makes the replay faster or slower, in milliseconds.
pub const SPEED_STEP_MS: u64 = 100;

/// What the replay asks the interface to do.
#[derive(Clone, Copy, Debug, PartialEq, Eq, Structural)]
pub enum ReplayOutcome {
    Stay,
    Quit,
}

/// Earlier snaps come first. Of two taken in the same millisecond, the one with the lower
/// number does.
impl Ranked for Snap {
    open spec fn before(self, other: Snap) -> bool {
        by_time()(self@, other@)
    }

    fn comes_before(&self, other: &Snap) -> (r: bool) {
        self.timestamp < other.timestamp || (self.timestamp == other.timestamp && self.seq
            < other.seq)
    }
}

/// The order of a replay: by time, then by number.
pub open spec fn by_time() -> spec_fn(SnapModel, SnapModel) -> bool {
    |a: SnapModel, b: SnapModel|
        a.timestamp < b.timestamp || (a.timestamp == b.timestamp && a.seq < b.seq)
}

/// A session's snaps in the order of the replay.
pub open spec fn in_time(snaps: Seq<(SessionId, SnapModel)>, id: SessionId) -> Seq<SnapModel> {
    order::sorted_by(file_snap::session_snaps(snaps, id, snaps.len() as int), by_time())
}

/// The files of the first `k` snaps, in the order of their first snaps.
pub open spec fn files_in(entries: Seq<SnapModel>, k: int) -> Seq<Seq<char>>
    decreases k,
{
    if k <= 0 {
        Seq::empty()
    } else {
        let before = files_in(entries, k - 1);
        if before.contains(entries[k - 1].file_path) {
            before
        } else {
            before.push(entries[k - 1].file_path)
        }
    }
}

/// The places of the first snaps of the files of the first `k` snaps.
pub open spec fn firsts_in(entries: Seq<SnapModel>, k: int) -> Seq<int>
    decreases k,
{
    if k <= 0 {
        Seq::empty()
    } else if files_in(entries, k - 1).contains(entries[k - 1].file_path) {
        firsts_in(entries, k - 1)
    } else {
        firsts_in(entries, k - 1).push(k - 1)
    }
}

/// The first snap with a number, from place `k` on.
pub open spec fn entry_numbered(entries: Seq<SnapModel>, seq: Option<u32>, k: int) -> Option<SnapModel>
    decreases entries.len() - k,
{
    if seq is None || k >= entries.len() {
        None
    } else if entries[k].seq == seq->0 {
        Some(entries[k])
    } else {
        entry_numbered(entries, seq, k + 1)
    }
}

/// Numbers as integers.
pub open spec fn as_ints(v: Seq<usize>) -> Seq<int> {
    Seq::new(v.len(), |i: int| v[i] as int)
}

/// The state of the replay.
#[derive(Debug)]
pub struct ReplayState {
    pub store: RepoStore,
    pub session: SessionMeta,
    /// The snaps of the session in the order in which they were taken.
    pub entries: Vec<Snap>,
    /// The place in `entries` of the snap that is shown.
    pub cur_snap_idx: usize,
    /// The files, in the order of their first snaps.
    pub files: Vec<String>,
    pub cur_file_idx: usize,
    pub current_snap: Option<Snap>,
    /// The snap of the same file before the one that is shown.
    pub prev_snap: Option<Snap>,
    /// For each file the place of its first snap.
    pub file_first_idx: Vec<usize>,
    pub file_view: FileViewState,
    pub playing: bool,
    pub speed_ms: u64,
    /// When the replay last went on by itself, in milliseconds of a steady clock.
    pub last_tick: u64,
    pub side_by_side: bool,
    /// The number of the snap that was shown last.
    pub last_loaded_seq: Option<u32>,
}

/// The state of the replay, without the store and the session.
#[verifier::ext_equal]
pub struct ReplayModel {
    pub entries: Seq<SnapModel>,
    pub cur: int,
    pub files: Seq<Seq<char>>,
    pub firsts: Seq<int>,
    pub cur_file: int,
    pub current: Option<SnapModel>,
    pub prev: Option<SnapModel>,
    pub view: Seq<LineModel>,
    pub scroll: u16,
    pub playing: bool,
    pub speed_ms: u64,
    pub last_tick: u64,
    pub side_by_side: bool,
    pub shown: Option<u32>,
}

impl ReplayModel {
    /// The cursor is on a snap, or at the start where there is none, and the speed is
    /// within its limits.
    pub open spec fn wf(self) -> bool {
        &&& 0 <= self.cur
        &&& self.cur < self.entries.len() || self.cur == 0
        &&& 0 <= self.cur_file < usize::MAX
        &&& MIN_SPEED_MS <= self.speed_ms <= MAX_SPEED_MS
        &&& self.firsts.len() == self.files.len() <= usize::MAX
        &&& forall|i: int|
            0 <= i < self.firsts.len() ==> 0 <= #[trigger] self.firsts[i] < self.entries.len()
    }

    /// With the snap under the cursor shown. The view goes to its top where another snap
    /// was shown before.
    pub open spec fn reloaded(self) -> ReplayModel {
        if self.cur < self.entries.len() {
            let snap = self.entries[self.cur];
            ReplayModel {
                current: Some(snap),
                prev: entry_numbered(self.entries, snap.prev_seq, 0),
                scroll: if self.shown == Some(snap.seq) {
                    self.scroll
                } else {
                    0
                },
                shown: Some(snap.seq),
                ..self
            }
        } else {
            ReplayModel { current: None, prev: None, view: Seq::empty(), shown: None, ..self }
        }
    }

    /// With the cursor on another snap.
    pub open spec fn went_to(self, i: int) -> ReplayModel {
        ReplayModel { cur: i, ..self }.reloaded()
    }

    /// With the snaps listed anew.
    pub open spec fn relisted(self, all: Seq<SnapModel>) -> ReplayModel {
        ReplayModel {
            entries: all,
            files: files_in(all, all.len() as int),
            firsts: firsts_in(all, all.len() as int),
            cur: if self.cur < all.len() {
                self.cur
            } else if all.len() == 0 {
                0
            } else {
                all.len() - 1
            },
            ..self
        }
    }

    /// After the snaps were listed anew at `now`. Where new ones came while the last one was
    /// playing, the time to the next snap starts over.
    pub open spec fn refreshed(self, all: Seq<SnapModel>, now: u64) -> ReplayModel {
        let m = self.relisted(all);
        ReplayModel {
            last_tick: if self.playing && 0 < self.entries.len() < all.len() && m.cur + 1
                >= self.entries.len() {
                now
            } else {
                self.last_tick
            },
            ..m
        }.reloaded()
    }

    /// After the clock came to `now`, and whether the replay went on.
    pub open spec fn ticked(self, now: u64) -> (ReplayModel, bool) {
        if !self.playing || now - self.last_tick < self.speed_ms {
            (self, false)
        } else if self.cur + 1 < self.entries.len() {
            (ReplayModel { last_tick: now, ..self }.went_to(self.cur + 1), true)
        } else {
            (ReplayModel { last_tick: now, playing: false, ..self }, false)
        }
    }

    /// What a key does at `now`; `all` are the snaps as they are then.
    pub open spec fn acted(self, action: KeyAction, all: Seq<SnapModel>, now: u64) -> ReplayModel {
        match action {
            KeyAction::StepFwd | KeyAction::NextSnap => if self.cur + 1 < self.entries.len() {
                self.went_to(self.cur + 1)
            } else {
                ReplayModel { playing: false, ..self }
            },
            KeyAction::StepBack | KeyAction::PrevSnap => if self.cur > 0 {
                self.went_to(self.cur - 1)
            } else {
                self
            },
            KeyAction::Down => ReplayModel { scroll: code_review::moved(self.scroll, 1), ..self },
            KeyAction::Up => ReplayModel { scroll: code_review::moved(self.scroll, -1), ..self },
            KeyAction::JumpDown10 => ReplayModel {
                scroll: code_review::moved(self.scroll, 10),
                ..self
            },
            KeyAction::JumpUp10 => ReplayModel {
                scroll: code_review::moved(self.scroll, -10),
                ..self
            },
            KeyAction::GotoFirst => ReplayModel { scroll: 0, ..self },
            KeyAction::GotoLast => ReplayModel { scroll: u16::MAX, ..self },
            KeyAction::PlayPause => if self.entries.len() == 0 {
                self
            } else if self.playing {
                ReplayModel { playing: false, ..self }
            } else {
                let m = ReplayModel { playing: true, last_tick: now, ..self };
                if self.cur + 1 >= self.entries.len() {
                    m.went_to(0)
                } else {
                    m
                }
            },
            KeyAction::Faster => ReplayModel {
                speed_ms: if self.speed_ms > MIN_SPEED_MS + SPEED_STEP_MS {
                    (self.speed_ms - SPEED_STEP_MS) as u64
                } else {
                    MIN_SPEED_MS
                },
                ..self
            },
            KeyAction::Slower => ReplayModel {
                speed_ms: if self.speed_ms + SPEED_STEP_MS < MAX_SPEED_MS {
                    (self.speed_ms + SPEED_STEP_MS) as u64
                } else {
                    MAX_SPEED_MS
                },
                ..self
            },
            KeyAction::GotoSnap(n) => if 1 <= n <= self.entries.len() {
                self.went_to(n - 1)
            } else {
                self
            },
            KeyAction::TabFile => if self.files.len() == 0 {
                self
            } else {
                let f = (self.cur_file + 1) % (self.files.len() as int);
                ReplayModel { cur_file: f, ..self }.went_to(self.firsts[f])
            },
            KeyAction::Refresh => self.refreshed(all, now),
            KeyAction::SideBySide => ReplayModel { side_by_side: !self.side_by_side, ..self },
            _ => self,
        }
    }
}

/// What a key means in the replay alone.
pub open spec fn replay_meaning(code: KeyCode) -> Option<KeyAction> {
    match code {
        KeyCode::Char(' ') => Some(KeyAction::PlayPause),
        KeyCode::Char('+') => Some(KeyAction::Faster),
        KeyCode::Char('-') => Some(KeyAction::Slower),
        KeyCode::Char('s') => Some(KeyAction::SideBySide),
        KeyCode::Char('h') | KeyCode::Left => Some(KeyAction::StepBack),
        KeyCode::Char('l') | KeyCode::Right => Some(KeyAction::StepFwd),
        _ => None,
    }
}

/// What a key that comes at `now` does in the replay: what it means there alone, or else what
/// it means everywhere.
pub fn replay_action(parser: &mut VimParser, key: Key, now: u64) -> (r: KeyAction)
    ensures
        match replay_meaning(key.code) {
            Some(a) => r == a && *final(parser) == *old(parser),
            None => {
                let (state, outcome) = input::fed(
                    input::in_time(old(parser).state@, old(parser).last_key, now),
                    key,
                );
                &&& final(parser).state@ == state
                &&& final(parser).last_key == now
                &&& r == match outcome {
                    input::OutcomeModel::Action(a) => a,
                    _ => KeyAction::Nothing,
                }
            },
        },
{
    match key.code {
        KeyCode::Char(' ') => KeyAction::PlayPause,
        KeyCode::Char('+') => KeyAction::Faster,
        KeyCode::Char('-') => KeyAction::Slower,
        KeyCode::Char('s') => KeyAction::SideBySide,
        KeyCode::Char('h') | KeyCode::Left => KeyAction::StepBack,
        KeyCode::Char('l') | KeyCode::Right => KeyAction::StepFwd,
        _ => match parser.feed_at(key, now) {
            KeyOutcome::Action(a) => a,
            _ => KeyAction::Nothing,
        },
    }
}

/// Whether a key leaves the replay.
pub open spec fn outcome(action: KeyAction) -> ReplayOutcome {
    if action == KeyAction::Quit || action == KeyAction::Back {
        ReplayOutcome::Quit
    } else {
        ReplayOutcome::Stay
    }
}

/// Whether a key means something in the replay.
pub open spec fn handled(action: KeyAction) -> bool {
    match action {
        KeyAction::StepFwd
        | KeyAction::NextSnap
        | KeyAction::StepBack
        | KeyAction::PrevSnap
        | KeyAction::Down
        | KeyAction::Up
        | KeyAction::JumpDown10
        | KeyAction::JumpUp10
        | KeyAction::GotoFirst
        | KeyAction::GotoLast
        | KeyAction::PlayPause
        | KeyAction::Faster
        | KeyAction::Slower
        | KeyAction::GotoSnap(_)
        | KeyAction::TabFile
        | KeyAction::Refresh
        | KeyAction::SideBySide
        | KeyAction::Quit
        | KeyAction::Back => true,
        _ => false,
    }
}

/// Whether a snap that may be missing says this.
pub open spec fn snap_view(s: Option<Snap>) -> Option<SnapModel> {
    match s {
        Some(s) => Some(s@),
        None => None,
    }
}

fn find_entry(entries: &Vec<Snap>, seq: Option<u32>) -> (r: Option<Snap>)
    ensures
        snap_view(r) == entry_numbered(file_snap::snap_models(entries@), seq, 0),
{
    let want: u32 = match seq {
        Some(n) => n,
        None => {
            return None;
        },
    };
    let ghost all = file_snap::snap_models(entries@);
    let mut i: usize = 0;
    while i < entries.len()
        invariant
            i <= entries.len(),
            seq == Some(want),
            all == file_snap::snap_models(entries@),
            entry_numbered(all, seq, 0) == entry_numbered(all, seq, i as int),
        decreases entries.len() - i,
    {
        assert(all[i as int] == entries@[i as int]@);
        if entries[i].seq == want {
            return Some(entries[i].copy());
        }
        i += 1;
    }
    None
}

impl ReplayState {
    /// The state, without the store and the session.
    pub open spec fn model(self) -> ReplayModel {
        ReplayModel {
            entries: file_snap::snap_models(self.entries@),
            cur: self.cur_snap_idx as int,
            files: text::views(self.files@),
            firsts: as_ints(self.file_first_idx@),
            cur_file: self.cur_file_idx as int,
            current: snap_view(self.current_snap),
            prev: snap_view(self.prev_snap),
            view: theme::line_models(self.file_view.lines@),
            scroll: self.file_view.scroll,
            playing: self.playing,
            speed_ms: self.speed_ms,
            last_tick: self.last_tick,
            side_by_side: self.side_by_side,
            shown: self.last_loaded_seq,
        }
    }

    /// See `ReplayModel::wf`.
    pub open spec fn wf(self) -> bool {
        self.model().wf()
    }

    /// The session's snaps in the order of the replay, as the store has them.
    pub open spec fn stored(self) -> Seq<SnapModel> {
        in_time(self.store.snaps.file_view(), self.session.id)
    }

    /// The replay of a session, on its first snap.
    pub fn load(store: RepoStore, session: SessionMeta, now: u64) -> (r: ReplayState)
        ensures
            r.store == store,
            r.session == session,
            r.wf(),
            r.model() == (ReplayModel {
                entries: Seq::empty(),
                cur: 0,
                files: Seq::empty(),
                firsts: Seq::empty(),
                cur_file: 0,
                current: None,
                prev: None,
                view: Seq::empty(),
                scroll: 0,
                playing: false,
                speed_ms: START_SPEED_MS,
                last_tick: now,
                side_by_side: false,
                shown: None,
            }).relisted(in_time(store.snaps.file_view(), session.id)).reloaded(),
    {
        let mut s = ReplayState {
            store,
            session,
            entries: Vec::new(),
            cur_snap_idx: 0,
            files: Vec::new(),
            cur_file_idx: 0,
            current_snap: None,
            prev_snap: None,
            file_first_idx: Vec::new(),
            file_view: FileViewState::default(),
            playing: false,
            speed_ms: START_SPEED_MS,
            last_tick: now,
            side_by_side: false,
            last_loaded_seq: None,
        };
        assert(s.model().entries =~= Seq::empty());
        assert(s.model().files =~= Seq::empty());
        assert(s.model().firsts =~= Seq::empty());
        assert(s.model().view =~= Seq::empty());
        s.relist();
        s.refresh_current();
        s
    }

    fn relist(&mut self)
        ensures
            final(self).store == old(self).store,
            final(self).session == old(self).session,
            final(self).model() == old(self).model().relisted(old(self).stored()),
            old(self).wf() ==> final(self).wf(),
    {
        let listed = self.store.snaps.file_list(&self.session.id);
        proof {
            order::lemma_sorted_map(
                listed@,
                |s: Snap| s@,
                order::rank::<Snap>(),
                by_time(),
            );
        }
        let entries = order::sort(listed);
        let ghost all = file_snap::snap_models(entries@);
        assert(all == self.stored());
        let mut files: Vec<String> = Vec::new();
        let mut firsts: Vec<usize> = Vec::new();
        let mut i: usize = 0;
        assert(text::views(files@) =~= files_in(all, 0));
        assert(as_ints(firsts@) =~= firsts_in(all, 0));
        while i < entries.len()
            invariant
                i <= entries.len(),
                all == file_snap::snap_models(entries@),
                text::views(files@) == files_in(all, i as int),
                as_ints(firsts@) == firsts_in(all, i as int),
                firsts@.len() == files@.len(),
                forall|k: int| 0 <= k < firsts@.len() ==> #[trigger] firsts@[k] < i,
            decreases entries.len() - i,
        {
            let p = entries[i].file_path.as_str();
            assert(all[i as int].file_path == p@);
            if !file_snap::holds_text(&files, p) {
                let ghost fs = files@;
                let ghost ns = firsts@;
                files.push(entries[i].file_path.clone());
                firsts.push(i);
                assert(text::views(files@) =~= text::views(fs).push(p@));
                assert(as_ints(firsts@) =~= as_ints(ns).push(i as int));
            }
            i += 1;
        }
        let n: usize = entries.len();
        let kinds: usize = files.len();
        self.entries = entries;
        self.files = files;
        self.file_first_idx = firsts;
        if self.cur_snap_idx >= n {
            self.cur_snap_idx = if n == 0 {
                0
            } else {
                n - 1
            };
        }
        assert(text::views(self.files@).len() == kinds);
        assert forall|k: int| 0 <= k < self.model().firsts.len() implies 0
            <= #[trigger] self.model().firsts[k] < self.model().entries.len() by {
            assert(self.file_first_idx@[k] < n);
        }
    }

    /// Lists the snaps anew, at `now`.
    pub fn refresh(&mut self, now: u64)
        requires
            old(self).wf(),
        ensures
            final(self).store == old(self).store,
            final(self).session == old(self).session,
            final(self).wf(),
            final(self).model() == old(self).model().refreshed(old(self).stored(), now),
    {
        let before: usize = self.entries.len();
        self.relist();
        let n: usize = self.entries.len();
        if self.playing && before > 0 && n > before && self.cur_snap_idx >= before - 1 {
            self.last_tick = now;
        }
        self.refresh_current();
    }

    /// The file of the snap that is shown.
    pub fn current_file(&self) -> (r: Option<&str>)
        ensures
            match r {
                Some(p) => self.model().current is Some && p@ == self.model().current->0.file_path,
                None => self.model().current is None,
            },
    {
        match &self.current_snap {
            Some(s) => Some(s.file_path.as_str()),
            None => None,
        }
    }

    /// Shows the snap under the cursor. The view goes to its top where another snap was
    /// shown before.
    pub fn refresh_current(&mut self)
        ensures
            final(self).store == old(self).store,
            final(self).session == old(self).session,
            final(self).model() == old(self).model().reloaded(),
            old(self).wf() ==> final(self).wf(),
    {
        if self.cur_snap_idx >= self.entries.len() {
            self.current_snap = None;
            self.prev_snap = None;
            self.file_view.lines = Vec::new();
            assert(self.model().view =~= Seq::empty());
            self.last_loaded_seq = None;
            return;
        }
        let snap = self.entries[self.cur_snap_idx].copy();
        assert(self.model().entries[self.cur_snap_idx as int] == snap@);
        self.prev_snap = find_entry(&self.entries, snap.prev_seq);
        let same = match self.last_loaded_seq {
            Some(n) => n == snap.seq,
            None => false,
        };
        if !same {
            self.file_view.scroll = 0;
        }
        self.last_loaded_seq = Some(snap.seq);
        self.current_snap = Some(snap);
    }

    /// Goes on by itself where it is time to, and says whether it did.
    pub fn tick(&mut self, now: u64) -> (r: bool)
        requires
            old(self).wf(),
        ensures
            final(self).store == old(self).store,
            final(self).session == old(self).session,
            final(self).wf(),
            (final(self).model(), r) == old(self).model().ticked(now),
    {
        if !self.playing {
            return false;
        }
        if now.saturating_sub(self.last_tick) < self.speed_ms {
            return false;
        }
        self.last_tick = now;
        let n: usize = self.entries.len();
        if n > 0 && self.cur_snap_idx < n - 1 {
            self.cur_snap_idx = self.cur_snap_idx + 1;
            self.refresh_current();
            true
        } else {
            self.playing = false;
            false
        }
    }

    /// Takes a key at `now`.
    pub fn on_action(&mut self, action: KeyAction, parser: &mut VimParser, now: u64) -> (r:
        ReplayOutcome)
        requires
            old(self).wf(),
        ensures
            final(self).store == old(self).store,
            final(self).session == old(self).session,
            final(self).wf(),
            final(self).model() == old(self).model().acted(action, old(self).stored(), now),
            r == outcome(action),
            if handled(action) {
                final(parser).state@ == input::StateModel::Idle && final(parser).last_key == old(
                    parser,
                ).last_key
            } else {
                *final(parser) == *old(parser)
            },
    {
        let n: usize = self.entries.len();
        match action {
            KeyAction::StepFwd | KeyAction::NextSnap => {
                parser.reset();
                if n > 0 && self.cur_snap_idx < n - 1 {
                    self.cur_snap_idx = self.cur_snap_idx + 1;
                    self.refresh_current();
                } else {
                    self.playing = false;
                }
            },
            KeyAction::StepBack | KeyAction::PrevSnap => {
                parser.reset();
                if self.cur_snap_idx > 0 {
                    self.cur_snap_idx = self.cur_snap_idx - 1;
                    self.refresh_current();
                }
            },
            KeyAction::Down => {
                parser.reset();
                self.file_view.scroll = self.file_view.scroll.saturating_add(1);
            },
            KeyAction::Up => {
                parser.reset();
                self.file_view.scroll = self.file_view.scroll.saturating_sub(1);
            },
            KeyAction::JumpDown10 => {
                parser.reset();
                self.file_view.scroll = self.file_view.scroll.saturating_add(10);
            },
            KeyAction::JumpUp10 => {
                parser.reset();
                self.file_view.scroll = self.file_view.scroll.saturating_sub(10);
            },
            KeyAction::GotoFirst => {
                parser.reset();
                self.file_view.scroll = 0;
            },
            KeyAction::GotoLast => {
                parser.reset();
                self.file_view.scroll = u16::MAX;
            },
            KeyAction::PlayPause => {
                parser.reset();
                if n > 0 {
                    self.playing = !self.playing;
                    if self.playing {
                        self.last_tick = now;
                        if self.cur_snap_idx >= n - 1 {
                            self.cur_snap_idx = 0;
                            self.refresh_current();
                        }
                    }
                }
            },
            KeyAction::Faster => {
                parser.reset();
                let s: u64 = self.speed_ms.saturating_sub(SPEED_STEP_MS);
                self.speed_ms = if s > MIN_SPEED_MS {
                    s
                } else {
                    MIN_SPEED_MS
                };
            },
            KeyAction::Slower => {
                parser.reset();
                let s: u64 = self.speed_ms + SPEED_STEP_MS;
                self.speed_ms = if s < MAX_SPEED_MS {
                    s
                } else {
                    MAX_SPEED_MS
                };
            },
            KeyAction::GotoSnap(k) => {
                parser.reset();
                if k >= 1 && k <= n {
                    self.cur_snap_idx = k - 1;
                    self.refresh_current();
                }
            },
            KeyAction::TabFile => {
                parser.reset();
                if self.files.len() > 0 {
                    let f: usize = (self.cur_file_idx + 1) % self.files.len();
                    self.cur_file_idx = f;
                    assert(self.model().firsts[f as int] == self.file_first_idx@[f as int]);
                    self.cur_snap_idx = self.file_first_idx[f];
                    self.refresh_current();
                }
            },
            KeyAction::Refresh => {
                parser.reset();
                self.refresh(now);
            },
            KeyAction::SideBySide => {
                parser.reset();
                self.side_by_side = !self.side_by_side;
            },
            KeyAction::Quit | KeyAction::Back => {
                parser.reset();
                return ReplayOutcome::Quit;
            },
            _ => {},
        }
        ReplayOutcome::Stay
    }
}

/// A replay shows all snaps of its session, earlier ones first.
pub proof fn law_replay_goes_by_time(snaps: Seq<(SessionId, SnapModel)>, id: SessionId)
    ensures
        in_time(snaps, id).to_multiset() == file_snap::session_snaps(
            snaps,
            id,
            snaps.len() as int,
        ).to_multiset(),
        forall|i: int, j: int|
            0 <= i < j < in_time(snaps, id).len() ==> (#[trigger] in_time(snaps, id)[i]).timestamp <= (
            #[trigger] in_time(snaps, id)[j]).timestamp,
{
    let all = file_snap::session_snaps(snaps, id, snaps.len() as int);
    order::law_sorted(all, by_time());
    let r = in_time(snaps, id);
    assert forall|i: int, j: int| 0 <= i < j < r.len() implies (#[trigger] r[i]).timestamp <= (
    #[trigger] r[j]).timestamp by {
        assert(!by_time()(r[j], r[i]));
    }
}

/// Each file of a replay stands in the list of files once, with the place of its first
/// snap.
pub proof fn law_files_have_their_first_snaps(entries: Seq<SnapModel>, k: int)
    requires
        0 <= k <= entries.len(),
    ensures
        ({
            let files = files_in(entries, k);
            let firsts = firsts_in(entries, k);
            &&& firsts.len() == files.len() <= k
            &&& forall|i: int|
                0 <= i < k ==> files.contains((#[trigger] entries[i]).file_path)
            &&& forall|f: int|
                0 <= f < files.len() ==> 0 <= #[trigger] firsts[f] < k
                    && entries[firsts[f]].file_path == files[f] && forall|i: int|
                    0 <= i < firsts[f] ==> (#[trigger] entries[i]).file_path != files[f]
            &&& forall|f: int, g: int| 0 <= f < g < files.len() ==> files[f] != files[g]
        }),
    decreases k,
{
    if k > 0 {
        law_files_have_their_first_snaps(entries, k - 1);
        let files = files_in(entries, k - 1);
        let p = entries[k - 1].file_path;
        if files.contains(p) {
        } else {
            let more = files_in(entries, k);
            assert(more == files.push(p));
            assert(more[files.len() as int] == p);
            assert forall|i: int| 0 <= i < k implies more.contains(
                (#[trigger] entries[i]).file_path,
            ) by {
                if i < k - 1 {
                    assert(files.contains(entries[i].file_path));
                    let w = choose|w: int|
                        0 <= w < files.len() && files[w] == entries[i].file_path;
                    assert(more[w] == entries[i].file_path);
                }
            }
        }
    }
}

/// The cursor is on a snap whatever is pressed, and the speed stays within its limits.
pub proof fn law_replay_stays_in_bounds(
    m: ReplayModel,
    action: KeyAction,
    all: Seq<SnapModel>,
    now: u64,
)
    requires
        m.wf(),
        all.len() <= usize::MAX,
    ensures
        m.acted(action, all, now).wf(),
        m.ticked(now).0.wf(),
        m.refreshed(all, now).wf(),
{
    law_files_have_their_first_snaps(all, all.len() as int);
    let r = m.relisted(all);
    assert(r.firsts == firsts_in(all, all.len() as int));
    assert(forall|i: int| 0 <= i < r.firsts.len() ==> 0 <= #[trigger] r.firsts[i] < all.len());
    if action == KeyAction::TabFile && m.files.len() > 0 {
        let f = (m.cur_file + 1) % (m.files.len() as int);
        assert(0 <= f < m.files.len());
        assert(0 <= m.firsts[f] < m.entries.len());
    }
}

/// A refresh that finds the same snap under the cursor leaves the view where it is.
pub proof fn law_refresh_keeps_the_view(m: ReplayModel, all: Seq<SnapModel>, now: u64)
    requires
        m.wf(),
        m.cur < all.len(),
        m.shown == Some(all[m.cur].seq),
    ensures
        m.refreshed(all, now).scroll == m.scroll,
        m.refreshed(all, now).cur == m.cur,
        m.refreshed(all, now).view == m.view,
{
}

/// The state after `n` turns of the clock, each a full interval after the one before.
pub open spec fn played(m: ReplayModel, n: nat) -> ReplayModel
    decreases n,
{
    if n == 0 {
        m
    } else {
        let before = played(m, (n - 1) as nat);
        before.ticked((before.last_tick + before.speed_ms) as u64).0
    }
}

/// A replay that is left alone goes to the last snap, one snap for each interval, and
/// stops there.
pub proof fn law_replay_plays_to_the_end(m: ReplayModel, n: nat)
    requires
        m.wf(),
        m.playing,
        m.entries.len() > 0,
        n <= m.entries.len() - m.cur,
        m.last_tick + n * m.speed_ms <= u64::MAX,
    ensures
        played(m, n).entries == m.entries,
        played(m, n).speed_ms == m.speed_ms,
        played(m, n).last_tick == m.last_tick + n * m.speed_ms,
        n < m.entries.len() - m.cur ==> played(m, n).cur == m.cur + n && played(m, n).playing,
        n == m.entries.len() - m.cur ==> played(m, n).cur == m.entries.len() - 1 && !played(
            m,
            n,
        ).playing,
    decreases n,
{
    if n > 0 {
        let k = (n - 1) as nat;
        assert(n * m.speed_ms == k * m.speed_ms + m.speed_ms) by (nonlinear_arith)
            requires
                n == k + 1,
        ;
        law_replay_plays_to_the_end(m, k);
        let before = played(m, k);
        let now = (before.last_tick + before.speed_ms) as u64;
        assert(now - before.last_tick == before.speed_ms);
        assert(played(m, n) == before.ticked(now).0);
    } else {
        assert(n * m.speed_ms == 0) by (nonlinear_arith)
            requires
                n == 0,
        ;
    }
}

/// A pause keeps the snap until the replay goes on.
pub proof fn law_pause_holds(m: ReplayModel, now: u64)
    requires
        !m.playing,
    ensures
        m.ticked(now) == (m, false),
{
}

/// The rows of a snap: its changes since the snap of the same file before it, with numbers.
pub open spec fn rows_of(entries: Seq<SnapModel>, engine: HighlightEngine, snap: SnapModel) -> Seq<
    LineModel,
> {
    engine.rendered(
        match entry_numbered(entries, snap.prev_seq, 0) {
            Some(p) => p.content,
            None => Seq::empty(),
        },
        snap.content,
        snap.file_path,
        true,
    )
}

impl ReplayState {
    /// The rows of a snap of the replay: its changes since the snap of the same file before.
    pub fn snap_lines(&self, engine: &mut HighlightEngine, snap: &Snap) -> (r: Vec<Line>)
        requires
            old(engine).wf(),
        ensures
            theme::line_models(r@) == rows_of(self.model().entries, *old(engine), snap@),
            highlight::looked_up(*old(engine), *final(engine), snap.file_path@),
            final(engine).wf(),
    {
        let before = match find_entry(&self.entries, snap.prev_seq) {
            Some(p) => p.content,
            None => {
                let t = String::new();
                assert(t@ =~= Seq::empty());
                t
            },
        };
        highlight::render_snap(
            engine,
            before.as_str(),
            snap.content.as_str(),
            snap.file_path.as_str(),
            true,
        )
    }

    /// The top line.
    pub fn scrubber_line(&self) -> (r: Line)
        requires
            self.wf(),
            self.cur_snap_idx < usize::MAX,
        ensures
            r@ == scrubber(self.session.id, self.model()),
    {
        let mut head = text::concat(" replay ", session_list::short_id(&self.session.id).as_str());
        head.append(" ");
        let mut file = String::new();
        match self.current_file() {
            Some(p) => file.append(p),
            None => file.append("?"),
        }
        file.append("  ");
        let mut place = text::concat3(
            "step ",
            text::decimal_of((self.cur_snap_idx + 1) as u64).as_str(),
            "/",
        );
        place.append(text::decimal_of(self.entries.len() as u64).as_str());
        place.append("  ");
        if self.playing {
            place.append("▶");
        } else {
            place.append("⏸");
        }
        place.append(" ");
        place.append(text::decimal_of(self.speed_ms).as_str());
        place.append("ms  tab ");
        place.append(text::decimal_of((self.cur_file_idx + 1) as u64).as_str());
        place.append("/");
        place.append(text::decimal_of(self.files.len() as u64).as_str());
        let ghost want = scrubber(self.session.id, self.model());
        assert(place@ =~= want.spans[2].text);
        assert(file@ =~= want.spans[1].text);
        let mut spans: Vec<Span> = Vec::new();
        spans.push(Span::styled(head, Style::bold(Palette::accent())));
        spans.push(Span::styled(file, Style::plain()));
        spans.push(Span::styled(place, Style::fg(Palette::status_fg())));
        let r = Line { spans, style: Style::bg(Palette::scrubber_bg()) };
        assert(r@ =~= want);
        r
    }

    /// The bottom line.
    pub fn status_line(&self) -> (r: Line)
        ensures
            r@ == (LineModel {
                spans: replay_hints(self.side_by_side),
                style: Style {
                    fg: Some(theme::status_fg()),
                    bg: Some(theme::status_bg()),
                    bold: false,
                },
            }),
    {
        let accent = Style::fg(Palette::accent());
        let split = if self.side_by_side {
            " split:on  "
        } else {
            " split:off  "
        };
        let mut spans: Vec<Span> = Vec::new();
        spans.push(Span::of("j/k", accent));
        spans.push(Span::of(" scroll  ", Style::plain()));
        spans.push(Span::of("h/l", accent));
        spans.push(Span::of(" step  ", Style::plain()));
        spans.push(Span::of("space", accent));
        spans.push(Span::of(" play  ", Style::plain()));
        spans.push(Span::of("+/-", accent));
        spans.push(Span::of(" speed  ", Style::plain()));
        spans.push(Span::of("gg/G", accent));
        spans.push(Span::of(" jump  ", Style::plain()));
        spans.push(Span::of(":N", accent));
        spans.push(Span::of(" goto  ", Style::plain()));
        spans.push(Span::of("tab", accent));
        spans.push(Span::of(" file  ", Style::plain()));
        spans.push(Span::of("s", accent));
        spans.push(Span::of(split, Style::plain()));
        spans.push(Span::of("q", accent));
        spans.push(Span::of(" quit", Style::plain()));
        assert(theme::span_models(spans@) =~= replay_hints(self.side_by_side));
        Line {
            spans,
            style: Style {
                fg: Some(Palette::status_fg()),
                bg: Some(Palette::status_bg()),
                bold: false,
            },
        }
    }
}

/// The top line: the session, the file, the place among the snaps, the speed, and the
/// place among the files.
pub open spec fn scrubber(id: SessionId, m: ReplayModel) -> LineModel {
    LineModel {
        spans: seq![
            theme::span_of(
                " replay "@ + session_list::short(id) + " "@,
                theme::bold_style(theme::accent()),
            ),
            theme::span_of(
                (match m.current {
                    Some(s) => s.file_path,
                    None => "?"@,
                }) + "  "@,
                theme::no_style(),
            ),
            theme::span_of(
                "step "@ + text::decimal((m.cur + 1) as nat) + "/"@ + text::decimal(m.entries.len())
                    + "  "@ + (if m.playing {
                    "▶"@
                } else {
                    "⏸"@
                }) + " "@ + text::decimal(m.speed_ms as nat) + "ms  tab "@ + text::decimal(
                    (m.cur_file + 1) as nat,
                ) + "/"@ + text::decimal(m.files.len()),
                theme::fg_style(theme::status_fg()),
            ),
        ],
        style: theme::bg_style(theme::scrubber_bg()),
    }
}

/// What the keys of the replay do, in short.
pub open spec fn replay_hints(side_by_side: bool) -> Seq<SpanModel> {
    seq![
        session_list::key("j/k"@),
        session_list::plain(" scroll  "@),
        session_list::key("h/l"@),
        session_list::plain(" step  "@),
        session_list::key("space"@),
        session_list::plain(" play  "@),
        session_list::key("+/-"@),
        session_list::plain(" speed  "@),
        session_list::key("gg/G"@),
        session_list::plain(" jump  "@),
        session_list::key(":N"@),
        session_list::plain(" goto  "@),
        session_list::key("tab"@),
        session_list::plain(" file  "@),
        session_list::key("s"@),
        session_list::plain(
            if side_by_side {
                " split:on  "@
            } else {
                " split:off  "@
            },
        ),
        session_list::key("q"@),
        session_list::plain(" quit"@),
    ]
}

/// A line that shows nothing.
pub open spec fn blank() -> LineModel {
    LineModel { spans: Seq::empty(), style: theme::no_style() }
}

/// Adds empty lines until there are `n`.
pub fn pad_lines(lines: Vec<Line>, n: usize) -> (r: Vec<Line>)
    ensures
        r@.len() == (if lines@.len() < n {
            n as int
        } else {
            lines@.len() as int
        }),
        r@.take(lines@.len() as int) == lines@,
        forall|i: int| lines@.len() <= i < r@.len() ==> (#[trigger] r@[i])@ == blank(),
{
    let mut r = lines;
    assert(r@.take(lines@.len() as int) =~= lines@);
    while r.len() < n
        invariant
            lines@.len() <= r@.len(),
            r@.len() <= n || r@.len() == lines@.len(),
            r@.take(lines@.len() as int) == lines@,
            forall|i: int| lines@.len() <= i < r@.len() ==> (#[trigger] r@[i])@ == blank(),
        decreases n - r.len(),
    {
        let spans: Vec<Span> = Vec::new();
        assert(theme::span_models(spans@) =~= Seq::empty());
        let ghost before = r@;
        r.push(Line::of(spans));
        assert(r@.take(lines@.len() as int) =~= before.take(lines@.len() as int));
    }
    r
}

/// Whether the snap under the cursor is the one that is shown, together with the snap that it
/// names as the one before it.
pub open spec fn shows_the_cursor(m: ReplayModel) -> bool {
    if m.cur < m.entries.len() {
        &&& m.current == Some(m.entries[m.cur])
        &&& m.shown == Some(m.entries[m.cur].seq)
        &&& match m.prev {
            Some(p) => m.entries[m.cur].prev_seq == Some(p.seq) && m.entries.contains(p),
            None => m.entries[m.cur].prev_seq matches Some(n) ==> forall|i: int|
                0 <= i < m.entries.len() ==> (#[trigger] m.entries[i]).seq != n,
        }
    } else {
        m.current is None && m.prev is None && m.shown is None
    }
}

proof fn lemma_entry_numbered(entries: Seq<SnapModel>, seq: Option<u32>, k: int)
    requires
        0 <= k <= entries.len(),
    ensures
        match entry_numbered(entries, seq, k) {
            Some(p) => seq == Some(p.seq) && entries.contains(p),
            None => seq matches Some(n) ==> forall|i: int|
                k <= i < entries.len() ==> (#[trigger] entries[i]).seq != n,
        },
    decreases entries.len() - k,
{
    if seq is Some && k < entries.len() {
        if entries[k].seq == seq->0 {
            assert(entries.contains(entries[k]));
        } else {
            lemma_entry_numbered(entries, seq, k + 1);
        }
    }
}

proof fn lemma_reloaded_shows(m: ReplayModel)
    requires
        0 <= m.cur,
    ensures
        shows_the_cursor(m.reloaded()),
{
    if m.cur < m.entries.len() {
        lemma_entry_numbered(m.entries, m.entries[m.cur].prev_seq, 0);
    }
}

/// The snap that is shown is the one under the cursor, whatever is pressed and however often
/// the clock turns.
pub proof fn law_replay_shows_the_cursor(
    m: ReplayModel,
    action: KeyAction,
    all: Seq<SnapModel>,
    now: u64,
)
    requires
        m.wf(),
        shows_the_cursor(m),
    ensures
        shows_the_cursor(m.acted(action, all, now)),
        shows_the_cursor(m.ticked(now).0),
        shows_the_cursor(m.refreshed(all, now)),
{
    if m.cur + 1 < m.entries.len() {
        lemma_reloaded_shows(ReplayModel { cur: m.cur + 1, ..m });
        lemma_reloaded_shows(ReplayModel { cur: m.cur + 1, last_tick: now, ..m });
    }
    if m.cur > 0 {
        lemma_reloaded_shows(ReplayModel { cur: m.cur - 1, ..m });
    }
    lemma_reloaded_shows(ReplayModel { cur: 0, playing: true, last_tick: now, ..m });
    if let KeyAction::GotoSnap(n) = action {
        if 1 <= n <= m.entries.len() {
            lemma_reloaded_shows(ReplayModel { cur: n - 1, ..m });
        }
    }
    if m.files.len() > 0 {
        let f = (m.cur_file + 1) % (m.files.len() as int);
        assert(0 <= m.firsts[f] < m.entries.len());
        lemma_reloaded_shows(ReplayModel { cur_file: f, cur: m.firsts[f], ..m });
    }
    let r = m.relisted(all);
    lemma_reloaded_shows(r);
    lemma_reloaded_shows(ReplayModel { last_tick: now, ..r });
}

/// The key for playing and pausing turns playing round, where there are snaps. A pause changes
/// nothing else. Going on counts from now, and from the first snap where the last one is shown.
pub proof fn law_play_pause_turns_round(m: ReplayModel, all: Seq<SnapModel>, now: u64)
    requires
        m.wf(),
    ensures
        ({
            let r = m.acted(KeyAction::PlayPause, all, now);
            &&& m.entries.len() == 0 ==> r == m
            &&& m.entries.len() > 0 ==> r.playing == !m.playing
            &&& m.entries.len() > 0 && m.playing ==> r == (ReplayModel { playing: false, ..m })
            &&& m.entries.len() > 0 && !m.playing ==> r.last_tick == now && r.cur == (if m.cur
                == m.entries.len() - 1 {
                0
            } else {
                m.cur
            })
            &&& r.entries == m.entries && r.files == m.files && r.cur_file == m.cur_file
                && r.speed_ms == m.speed_ms && r.side_by_side == m.side_by_side
        }),
{
}

/// A replay that was paused stays on its snap until it is told to go on: pausing, and any turns
/// of the clock behind it, leave the cursor where it is.
pub proof fn law_paused_replay_stays(m: ReplayModel, all: Seq<SnapModel>, now: u64, later: u64)
    requires
        m.wf(),
        m.playing,
        m.entries.len() > 0,
    ensures
        ({
            let paused = m.acted(KeyAction::PlayPause, all, now);
            paused.ticked(later) == (paused, false) && paused.cur == m.cur
        }),
{
}

/// A replay that plays goes on by one snap when an interval has passed, and not before; on the
/// last snap it stops.
pub proof fn law_clock_moves_the_replay(m: ReplayModel, now: u64)
    requires
        m.wf(),
        m.playing,
    ensures
        ({
            let (r, moved) = m.ticked(now);
            &&& now - m.last_tick < m.speed_ms ==> r == m && !moved
            &&& now - m.last_tick >= m.speed_ms ==> r.last_tick == now && moved == (m.cur + 1
                < m.entries.len()) && r.playing == moved && r.cur == (if moved {
                m.cur + 1
            } else {
                m.cur
            })
            &&& r.entries == m.entries && r.speed_ms == m.speed_ms && r.cur_file == m.cur_file
        }),
{
}

/// A step goes to the next snap or to the one before, where there is one. A step back undoes a
/// step forward. A step beyond the last snap stops the replay.
pub proof fn law_steps_move_by_one(m: ReplayModel, all: Seq<SnapModel>, now: u64)
    requires
        m.wf(),
    ensures
        ({
            let fwd = m.acted(KeyAction::StepFwd, all, now);
            let back = m.acted(KeyAction::StepBack, all, now);
            &&& m.acted(KeyAction::NextSnap, all, now) == fwd
            &&& m.acted(KeyAction::PrevSnap, all, now) == back
            &&& m.cur + 1 < m.entries.len() ==> fwd.cur == m.cur + 1 && fwd.playing == m.playing
                && fwd.acted(KeyAction::StepBack, all, now).cur == m.cur
            &&& m.cur + 1 >= m.entries.len() ==> fwd == (ReplayModel { playing: false, ..m })
            &&& back.cur == (if m.cur > 0 {
                m.cur - 1
            } else {
                0
            })
            &&& fwd.entries == m.entries && back.entries == m.entries && back.playing == m.playing
        }),
{
}

/// Going to another snap shows it from its top; staying on the same one leaves the view.
pub proof fn law_another_snap_is_shown_from_its_top(m: ReplayModel, all: Seq<SnapModel>, now: u64)
    requires
        m.wf(),
        m.cur + 1 < m.entries.len(),
        m.shown != Some(m.entries[m.cur + 1].seq),
    ensures
        m.acted(KeyAction::StepFwd, all, now).scroll == 0,
        m.acted(KeyAction::SideBySide, all, now).scroll == m.scroll,
        m.acted(KeyAction::Faster, all, now).scroll == m.scroll,
{
}

/// The keys for scrolling move the view by one line or by ten, within its limits, or to an end,
/// and change nothing else.
pub proof fn law_scrolling_moves_the_view(m: ReplayModel, all: Seq<SnapModel>, now: u64)
    ensures
        m.acted(KeyAction::Down, all, now) == (ReplayModel {
            scroll: (if m.scroll < 65535 {
                m.scroll + 1
            } else {
                65535
            }) as u16,
            ..m
        }),
        m.acted(KeyAction::Up, all, now) == (ReplayModel {
            scroll: (if m.scroll > 0 {
                m.scroll - 1
            } else {
                0
            }) as u16,
            ..m
        }),
        m.acted(KeyAction::JumpDown10, all, now) == (ReplayModel {
            scroll: (if m.scroll < 65525 {
                m.scroll + 10
            } else {
                65535
            }) as u16,
            ..m
        }),
        m.acted(KeyAction::JumpUp10, all, now) == (ReplayModel {
            scroll: (if m.scroll > 10 {
                m.scroll - 10
            } else {
                0
            }) as u16,
            ..m
        }),
        m.acted(KeyAction::GotoFirst, all, now) == (ReplayModel { scroll: 0, ..m }),
        m.acted(KeyAction::GotoLast, all, now) == (ReplayModel { scroll: 65535, ..m }),
{
}

/// A number goes to the snap with that number, counted from 1, and nowhere where there is none.
pub proof fn law_number_goes_to_its_snap(m: ReplayModel, all: Seq<SnapModel>, now: u64, n: usize)
    requires
        m.wf(),
    ensures
        ({
            let r = m.acted(KeyAction::GotoSnap(n), all, now);
            &&& 1 <= n <= m.entries.len() ==> r.cur == n - 1 && r.current == Some(m.entries[n - 1])
            &&& !(1 <= n <= m.entries.len()) ==> r == m
            &&& r.playing == m.playing && r.entries == m.entries
        }),
{
}

/// The key for files goes to the first snap of the next file, and from the last file to the
/// first one.
pub proof fn law_next_file_is_shown_from_its_first_snap(m: ReplayModel, all: Seq<SnapModel>, now: u64)
    requires
        m.wf(),
        m.files == files_in(m.entries, m.entries.len() as int),
        m.firsts == firsts_in(m.entries, m.entries.len() as int),
        m.files.len() > 0,
        m.cur_file < m.files.len(),
    ensures
        ({
            let r = m.acted(KeyAction::TabFile, all, now);
            &&& r.cur_file == (if m.cur_file + 1 == m.files.len() {
                0
            } else {
                m.cur_file + 1
            })
            &&& 0 <= r.cur < m.entries.len()
            &&& m.entries[r.cur].file_path == m.files[r.cur_file]
            &&& forall|i: int|
                0 <= i < r.cur ==> (#[trigger] m.entries[i]).file_path != m.files[r.cur_file]
            &&& r.entries == m.entries && r.playing == m.playing
        }),
{
    law_files_have_their_first_snaps(m.entries, m.entries.len() as int);
    let f = (m.cur_file + 1) % (m.files.len() as int);
    if m.cur_file + 1 == m.files.len() {
        assert(f == 0) by (nonlinear_arith)
            requires
                m.cur_file + 1 == m.files.len(),
                f == (m.cur_file + 1) % (m.files.len() as int),
                m.files.len() > 0,
        ;
    } else {
        assert(f == m.cur_file + 1) by (nonlinear_arith)
            requires
                0 <= m.cur_file + 1 < m.files.len(),
                f == (m.cur_file + 1) % (m.files.len() as int),
        ;
    }
    assert(0 <= m.firsts[f] < m.entries.len());
}

/// Faster shortens the interval and slower lengthens it, by the same step, up to the limits.
/// Neither moves the replay.
pub proof fn law_speed_changes_by_steps(m: ReplayModel, all: Seq<SnapModel>, now: u64)
    requires
        m.wf(),
    ensures
        ({
            let fast = m.acted(KeyAction::Faster, all, now);
            let slow = m.acted(KeyAction::Slower, all, now);
            &&& fast == (ReplayModel { speed_ms: fast.speed_ms, ..m })
            &&& slow == (ReplayModel { speed_ms: slow.speed_ms, ..m })
            &&& fast.speed_ms < m.speed_ms || m.speed_ms == MIN_SPEED_MS == fast.speed_ms
            &&& slow.speed_ms > m.speed_ms || m.speed_ms == MAX_SPEED_MS == slow.speed_ms
            &&& fast.speed_ms > MIN_SPEED_MS ==> m.speed_ms - fast.speed_ms == SPEED_STEP_MS
            &&& slow.speed_ms < MAX_SPEED_MS ==> slow.speed_ms - m.speed_ms == SPEED_STEP_MS
            &&& slow.speed_ms < MAX_SPEED_MS && slow.speed_ms > MIN_SPEED_MS + SPEED_STEP_MS
                ==> slow.acted(KeyAction::Faster, all, now).speed_ms == m.speed_ms
        }),
{
}

/// The key for two columns turns them on and off, and changes nothing else.
pub proof fn law_side_by_side_turns_round(m: ReplayModel, all: Seq<SnapModel>, now: u64)
    ensures
        m.acted(KeyAction::SideBySide, all, now) == (ReplayModel {
            side_by_side: !m.side_by_side,
            ..m
        }),
        m.acted(KeyAction::SideBySide, all, now).acted(KeyAction::SideBySide, all, now) == m,
{
}

/// A refresh lists the snaps as they are. The cursor stays where it is, or goes to the last
/// snap where there are fewer.
pub proof fn law_refresh_lists_the_snaps(m: ReplayModel, all: Seq<SnapModel>, now: u64)
    requires
        m.wf(),
    ensures
        ({
            let r = m.refreshed(all, now);
            &&& m.acted(KeyAction::Refresh, all, now) == r
            &&& r.entries == all
            &&& r.cur == (if m.cur < all.len() {
                m.cur
            } else if all.len() > 0 {
                all.len() - 1
            } else {
                0
            })
            &&& r.playing == m.playing && r.speed_ms == m.speed_ms && r.side_by_side
                == m.side_by_side
            &&& r.last_tick == m.last_tick || r.last_tick == now
        }),
{
}

/// A replay shows all snaps of the session and no other, each as often as it is stored; of two
/// taken at the same time the one with the lower number comes first.
pub proof fn law_replay_has_all_snaps(snaps: Seq<(SessionId, SnapModel)>, id: SessionId)
    ensures
        in_time(snaps, id).to_multiset() == snaps.filter(file_snap::of_session(id)).map_values(
            |s: (SessionId, SnapModel)| s.1,
        ).to_multiset(),
        forall|i: int, j: int|
            0 <= i < j < in_time(snaps, id).len() ==> (#[trigger] in_time(snaps, id)[i]).timestamp
                < (#[trigger] in_time(snaps, id)[j]).timestamp || (in_time(snaps, id)[i].timestamp
                == in_time(snaps, id)[j].timestamp && in_time(snaps, id)[i].seq <= in_time(
                snaps,
                id,
            )[j].seq),
{
    let n = snaps.len() as int;
    let all = file_snap::session_snaps(snaps, id, n);
    file_snap::law_session_snaps_are_all(snaps, id, n);
    assert(snaps.take(n) =~= snaps);
    order::law_sorted(all, by_time());
    let r = in_time(snaps, id);
    assert forall|i: int, j: int| 0 <= i < j < r.len() implies (#[trigger] r[i]).timestamp < (
    #[trigger] r[j]).timestamp || (r[i].timestamp == r[j].timestamp && r[i].seq <= r[j].seq) by {
        assert(!by_time()(r[j], r[i]));
    }
}

/// A replay starts on the first snap, paused, with one column.
pub proof fn law_replay_starts_on_the_first_snap(m: ReplayModel, all: Seq<SnapModel>)
    requires
        m.cur == 0,
        !m.playing,
    ensures
        ({
            let r = m.relisted(all).reloaded();
            &&& r.entries == all
            &&& r.cur == 0
            &&& !r.playing
            &&& all.len() > 0 ==> r.current == Some(all[0])
            &&& all.len() == 0 ==> r.current is None
        }),
{
}

/// The top line says how the id of the session begins, which file is shown, which snap of how
/// many, counted from 1, whether the replay plays, and at which speed.
pub proof fn law_top_line_says_the_place(id: SessionId, m: ReplayModel)
    ensures
        ({
            let spans = scrubber(id, m).spans;
            &&& spans[0].text == " replay "@ + text::first_chars(id.text(), 10) + " "@
            &&& m.current matches Some(s) ==> spans[1].text == s.file_path + "  "@
            &&& text::has_prefix(
                spans[2].text,
                "step "@ + text::decimal((m.cur + 1) as nat) + "/"@ + text::decimal(m.entries.len())
                    + "  "@ + (if m.playing {
                    "▶"@
                } else {
                    "⏸"@
                }) + " "@ + text::decimal(m.speed_ms as nat) + "ms"@,
            )
        }),
{
    let start = "step "@ + text::decimal((m.cur + 1) as nat) + "/"@ + text::decimal(m.entries.len())
        + "  "@ + (if m.playing {
        "▶"@
    } else {
        "⏸"@
    }) + " "@ + text::decimal(m.speed_ms as nat);
    let rest = text::decimal((m.cur_file + 1) as nat) + "/"@ + text::decimal(m.files.len());
    reveal_strlit("ms  tab ");
    reveal_strlit("ms");
    let t = scrubber(id, m).spans[2].text;
    assert(t =~= start + "ms  tab "@ + rest);
    let want = start + "ms"@;
    assert(t.take(want.len() as int) =~= want);
}

/// The keys of the replay alone: the blank plays and pauses, plus and minus change the speed, `s`
/// the columns, and `h` and `l` step. All others mean what they mean everywhere.
pub proof fn law_keys_of_the_replay(c: char)
    ensures
        replay_meaning(KeyCode::Char(' ')) == Some(KeyAction::PlayPause),
        replay_meaning(KeyCode::Char('+')) == Some(KeyAction::Faster),
        replay_meaning(KeyCode::Char('-')) == Some(KeyAction::Slower),
        replay_meaning(KeyCode::Char('s')) == Some(KeyAction::SideBySide),
        replay_meaning(KeyCode::Char('h')) == Some(KeyAction::StepBack),
        replay_meaning(KeyCode::Left) == Some(KeyAction::StepBack),
        replay_meaning(KeyCode::Char('l')) == Some(KeyAction::StepFwd),
        replay_meaning(KeyCode::Right) == Some(KeyAction::StepFwd),
        c != ' ' && c != '+' && c != '-' && c != 's' && c != 'h' && c != 'l' ==> replay_meaning(
            KeyCode::Char(c),
        ) is None,
        replay_meaning(KeyCode::Enter) is None,
        replay_meaning(KeyCode::Esc) is None,
        replay_meaning(KeyCode::Tab) is None,
{
}

/// The keys for leaving and going back leave the replay, and no other does.
pub proof fn law_keys_that_leave_the_replay(action: KeyAction)
    ensures
        outcome(action) == ReplayOutcome::Quit <==> action == KeyAction::Quit || action
            == KeyAction::Back,
{
}

/// A snap is shown as the diff of its content against that of the snap it names as the one before,
/// in the colours of its file; against nothing where it names none.
pub proof fn law_snap_is_shown_against_the_one_before(
    entries: Seq<SnapModel>,
    engine: HighlightEngine,
    snap: SnapModel,
    j: int,
)
    requires
        forall|a: int, b: int|
            0 <= a < b < entries.len() ==> (#[trigger] entries[a]).seq != (#[trigger] entries[b]).seq,
    ensures
        snap.prev_seq is None ==> rows_of(entries, engine, snap) == engine.rendered(
            Seq::empty(),
            snap.content,
            snap.file_path,
            true,
        ),
        0 <= j < entries.len() && snap.prev_seq == Some(entries[j].seq) ==> rows_of(
            entries,
            engine,
            snap,
        ) == engine.rendered(entries[j].content, snap.content, snap.file_path, true),
{
    if 0 <= j < entries.len() && snap.prev_seq == Some(entries[j].seq) {
        lemma_entry_numbered(entries, snap.prev_seq, 0);
        assert(entries[j].seq == snap.prev_seq->0);
        let p = entry_numbered(entries, snap.prev_seq, 0)->0;
        let w = choose|w: int| 0 <= w < entries.len() && entries[w] == p;
        assert(w == j);
    }
}

/// A refresh starts the interval over exactly if the replay plays, stands on what was its last
/// snap, and new snaps came.
pub proof fn law_refresh_starts_the_interval_over(m: ReplayModel, all: Seq<SnapModel>, now: u64)
    requires
        m.wf(),
        m.entries.len() > 0,
        now != m.last_tick,
    ensures
        m.refreshed(all, now).last_tick == now <==> m.playing && m.entries.len() < all.len() && m.cur
            == m.entries.len() - 1,
{
}

} // verus!
