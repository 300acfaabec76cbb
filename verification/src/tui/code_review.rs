//! The review of a session: its snaps one by one, each as the changes of one file since
//! the snap of that file before.
//!
//! The review opens on the latest snap. From there it goes back and forth between snaps,
//! scrolls within one, and jumps from change to change.

use crate::diff;
use crate::diff::{ChangeModel, ChangeTag, LineChange};
use crate::file_snap;
use crate::file_snap::SnapModel;
use crate::model::SessionMeta;
use crate::order;
use crate::order::Ranked;
use crate::snap::SnapStore;
use crate::store::RepoStore;
use crate::text;
use crate::tui::file_view::FileViewState;
use crate::tui::highlight;
use crate::tui::input::{KeyAction, VimParser};
use crate::tui::session_list;
use crate::tui::theme;
use crate::tui::theme::{Color, Line, LineModel, Palette, Span, SpanModel, Style};
use crate::ulid::SessionId;
use vstd::prelude::*;

verus! {

/// What the review asks the interface to do.
#[derive(Clone, Copy, Debug, PartialEq, Eq, Structural)]
pub enum CodeReviewCmd {
    Stay,
    /// Go back to the list of sessions.
    Pop,
}

/// What happened to the file of a snap.
#[derive(Debug)]
pub enum SnapBody {
    /// Nothing.
    Unchanged,
    /// The file went; this was its content.
    Removed(Option<String>),
    /// The file is not text, and so many bytes long.
    Binary(u64),
    /// The file has this content, and had the other one before.
    Edited(String, Option<String>),
}

/// A snap as the review shows it.
#[derive(Debug)]
pub struct SnapPage {
    pub n: u32,
    pub file_path: String,
    pub body: SnapBody,
}

/// A text that may be missing, as characters.
pub open spec fn or_empty(t: Option<String>) -> Seq<char> {
    match t {
        Some(s) => s@,
        None => Seq::empty(),
    }
}

/// The style of lines of a file that went.
pub open spec fn gone_style() -> Style {
    Style { fg: Some(Color::LightRed), bg: Some(theme::removed_bg()), bold: false }
}

/// The first `k` lines of a file that went, with their numbers from 1 on.
pub open spec fn gone_rows(lines: Seq<Seq<char>>, k: int) -> Seq<LineModel>
    decreases k,
{
    if k <= 0 {
        Seq::empty()
    } else {
        gone_rows(lines, k - 1).push(
            one_span(
                text::pad_left(text::decimal(k as nat), ' ', 4) + " - "@ + lines[k - 1],
                gone_style(),
            ),
        )
    }
}

/// A line of a single span.
pub open spec fn one_span(t: Seq<char>, style: Style) -> LineModel {
    LineModel { spans: seq![theme::span_of(t, style)], style: theme::no_style() }
}

/// A line of a diff: its number, its sign and its text, on the background of its kind.
pub open spec fn unified_row(c: ChangeModel) -> LineModel {
    let style = match highlight::change_bg(c.tag) {
        Some(bg) => theme::bg_style(bg),
        None => theme::no_style(),
    };
    LineModel {
        spans: seq![
            theme::span_of(
                text::pad_left(text::decimal(highlight::change_number(c)), ' ', 4) + " "@
                    + highlight::change_sign(c.tag) + " "@,
                style,
            ),
            theme::span_of(diff::without_feeds(c.value), style),
        ],
        style,
    }
}

/// The first `k` lines of a diff.
pub open spec fn unified_rows(changes: Seq<ChangeModel>, k: int) -> Seq<LineModel>
    decreases k,
{
    if k <= 0 {
        Seq::empty()
    } else {
        unified_rows(changes, k - 1).push(unified_row(changes[k - 1]))
    }
}

/// The rows of a diff between two texts.
pub open spec fn unified(prev: Seq<char>, cur: Seq<char>) -> Seq<LineModel> {
    let changes = diff::text_changes(prev, cur);
    unified_rows(changes, changes.len() as int)
}

/// The rows of a snap.
pub open spec fn stream(body: SnapBody) -> Seq<LineModel> {
    match body {
        SnapBody::Unchanged => seq![
            one_span("(no change)"@, theme::fg_style(theme::muted_color())),
        ],
        SnapBody::Removed(prev) => {
            let lines = text::lines(or_empty(prev));
            gone_rows(lines, lines.len() as int)
        },
        SnapBody::Binary(size) => seq![
            one_span(
                "(binary file, "@ + text::decimal(size as nat) + " bytes)"@,
                theme::fg_style(theme::muted_color()),
            ),
        ],
        SnapBody::Edited(content, prev) => unified(or_empty(prev), content@),
    }
}

fn single(t: String, style: Style) -> (r: Line)
    ensures
        r@ == one_span(t@, style),
{
    let mut spans: Vec<Span> = Vec::new();
    spans.push(Span::styled(t, style));
    let r = Line::of(spans);
    assert(r@ =~= one_span(t@, style));
    r
}

/// A line of a diff as a row.
pub fn unified_line(c: &LineChange) -> (r: Line)
    requires
        c.old_index matches Some(i) ==> i < usize::MAX,
        c.new_index matches Some(i) ==> i < usize::MAX,
    ensures
        r@ == unified_row(c@),
{
    let at = match c.tag {
        ChangeTag::Delete => c.old_index,
        _ => c.new_index,
    };
    let n: usize = match at {
        Some(i) => i + 1,
        None => 0,
    };
    let (sign, style) = match c.tag {
        ChangeTag::Equal => (" ", Style::plain()),
        ChangeTag::Insert => ("+", Style::bg(Palette::added_bg())),
        ChangeTag::Delete => ("-", Style::bg(Palette::removed_bg())),
    };
    let mut prefix = text::concat3(
        text::padded_left(text::decimal_of(n as u64).as_str(), ' ', 4).as_str(),
        " ",
        sign,
    );
    prefix.append(" ");
    let mut spans: Vec<Span> = Vec::new();
    spans.push(Span::styled(prefix, style));
    spans.push(Span::styled(diff::drop_feeds(c.value.as_str()), style));
    let r = Line { spans, style };
    assert(r@ =~= unified_row(c@));
    r
}

/// The difference of two texts, one row for each line: added, removed or unchanged.
pub fn render_unified_diff(prev: &str, cur: &str) -> (r: Vec<Line>)
    ensures
        theme::line_models(r@) == unified(prev@, cur@),
{
    let changes = diff::all_changes(prev, cur);
    let before: usize = text::chars_of(prev).len();
    let after: usize = text::chars_of(cur).len();
    proof {
        diff::lemma_diff_lines_len(prev@);
        diff::lemma_diff_lines_len(cur@);
    }
    let ghost all = diff::change_models(changes@);
    let mut out: Vec<Line> = Vec::new();
    let mut i: usize = 0;
    assert(theme::line_models(out@) =~= Seq::empty());
    while i < changes.len()
        invariant
            i <= changes.len(),
            diff::diff_lines(prev@).len() <= before,
            diff::diff_lines(cur@).len() <= after,
            all == diff::change_models(changes@),
            forall|k: int|
                0 <= k < changes@.len() ==> ((#[trigger] changes@[k]).old_index matches Some(x) ==> x
                    < diff::diff_lines(prev@).len()) && (changes@[k].new_index matches Some(x)
                    ==> x < diff::diff_lines(cur@).len()),
            theme::line_models(out@) == unified_rows(all, i as int),
        decreases changes.len() - i,
    {
        assert(all[i as int] == changes@[i as int]@);
        let row = unified_line(&changes[i]);
        let ghost earlier = out@;
        out.push(row);
        assert(theme::line_models(out@) =~= theme::line_models(earlier).push(row@));
        i += 1;
    }
    out
}

fn render_gone(prev: &str) -> (r: Vec<Line>)
    ensures
        theme::line_models(r@) == gone_rows(text::lines(prev@), text::lines(prev@).len() as int),
{
    let lines = text::lines_of(prev);
    let ghost want = text::lines(prev@);
    let style = Style { fg: Some(Color::LightRed), bg: Some(Palette::removed_bg()), bold: false };
    let mut out: Vec<Line> = Vec::new();
    let mut i: usize = 0;
    assert(theme::line_models(out@) =~= Seq::empty());
    while i < lines.len()
        invariant
            i <= lines.len(),
            want == text::views(lines@),
            style == gone_style(),
            theme::line_models(out@) == gone_rows(want, i as int),
        decreases lines.len() - i,
    {
        let number = text::padded_left(text::decimal_of((i + 1) as u64).as_str(), ' ', 4);
        assert(want[i as int] == lines@[i as int]@);
        let row = single(text::concat3(number.as_str(), " - ", lines[i].as_str()), style);
        let ghost earlier = out@;
        out.push(row);
        assert(theme::line_models(out@) =~= theme::line_models(earlier).push(row@));
        i += 1;
    }
    assert(want.len() == lines@.len());
    out
}

/// The rows of a snap: the lines of a file that went, a note for a file that is not text,
/// and otherwise the difference to the content before. A file that was not there before
/// is all added.
pub fn render_snap_stream(body: &SnapBody) -> (r: Vec<Line>)
    ensures
        theme::line_models(r@) == stream(*body),
{
    match body {
        SnapBody::Unchanged => {
            let mut out: Vec<Line> = Vec::new();
            out.push(single("(no change)".to_owned(), Style::fg(Palette::muted())));
            assert(theme::line_models(out@) =~= stream(*body));
            out
        },
        SnapBody::Removed(prev) => match prev {
            Some(p) => render_gone(p.as_str()),
            None => {
                proof {
                    reveal_strlit("");
                }
                assert(""@ =~= Seq::<char>::empty());
                render_gone("")
            },
        },
        SnapBody::Binary(size) => {
            let mut out: Vec<Line> = Vec::new();
            out.push(
                single(
                    text::concat3(
                        "(binary file, ",
                        text::decimal_of(*size).as_str(),
                        " bytes)",
                    ),
                    Style::fg(Palette::muted()),
                ),
            );
            assert(theme::line_models(out@) =~= stream(*body));
            out
        },
        SnapBody::Edited(content, prev) => match prev {
            Some(p) => render_unified_diff(p.as_str(), content.as_str()),
            None => {
                proof {
                    reveal_strlit("");
                }
                assert(""@ =~= Seq::<char>::empty());
                render_unified_diff("", content.as_str())
            },
        },
    }
}

/// The content that a snap replaced: that of the snap of the same file before it.
pub open spec fn replaced_content(snaps: Seq<(SessionId, SnapModel)>, id: SessionId, m: SnapModel) -> Seq<
    char,
> {
    match m.prev_seq {
        Some(p) => match file_snap::seq_slot(snaps, id, p, 0) {
            Some(i) => snaps[i].1.content,
            None => Seq::empty(),
        },
        None => Seq::empty(),
    }
}

/// The file and the rows of the snap with this number.
pub open spec fn page_of(snaps: Seq<(SessionId, SnapModel)>, id: SessionId, n: u32) -> Option<
    (Seq<char>, Seq<LineModel>),
> {
    match file_snap::seq_slot(snaps, id, n, 0) {
        Some(i) => Some(
            (
                snaps[i].1.file_path,
                unified(replaced_content(snaps, id, snaps[i].1), snaps[i].1.content),
            ),
        ),
        None => None,
    }
}

/// The snap with this number, for the review.
pub fn load_page(snaps: &SnapStore, id: &SessionId, n: u32) -> (r: Option<SnapPage>)
    ensures
        match r {
            Some(p) => p.n == n && page_of(snaps.file_view(), *id, n) == Some(
                (p.file_path@, stream(p.body)),
            ),
            None => page_of(snaps.file_view(), *id, n) is None,
        },
{
    let snap = match snaps.read(id, n) {
        Ok(s) => s,
        Err(_) => {
            return None;
        },
    };
    let prev: Option<String> = match snap.prev_seq {
        Some(p) => match snaps.read(id, p) {
            Ok(s) => Some(s.content.clone()),
            Err(_) => None,
        },
        None => None,
    };
    Some(
        SnapPage {
            n,
            file_path: snap.file_path.clone(),
            body: SnapBody::Edited(snap.content.clone(), prev),
        },
    )
}

impl Ranked for u32 {
    open spec fn before(self, other: u32) -> bool {
        self < other
    }

    fn comes_before(&self, other: &u32) -> (r: bool) {
        *self < *other
    }
}

/// The numbers of snaps.
pub open spec fn numbers(snaps: Seq<SnapModel>) -> Seq<u32> {
    Seq::new(snaps.len(), |i: int| snaps[i].seq)
}

/// The numbers of a session's snaps, in order.
pub open spec fn numbers_in_order(snaps: Seq<(SessionId, SnapModel)>, id: SessionId) -> Seq<u32> {
    order::sorted_by(
        numbers(file_snap::session_snaps(snaps, id, snaps.len() as int)),
        order::rank::<u32>(),
    )
}

fn list_numbers(snaps: &SnapStore, id: &SessionId) -> (r: Vec<u32>)
    ensures
        r@ == numbers_in_order(snaps.file_view(), *id),
{
    let all = snaps.file_list(id);
    let ghost models = file_snap::snap_models(all@);
    let mut out: Vec<u32> = Vec::new();
    let mut i: usize = 0;
    while i < all.len()
        invariant
            i <= all.len(),
            models == file_snap::snap_models(all@),
            out@.len() == i,
            forall|k: int| 0 <= k < i ==> #[trigger] out@[k] == models[k].seq,
        decreases all.len() - i,
    {
        assert(models[i as int] == all@[i as int]@);
        out.push(all[i].seq);
        i += 1;
    }
    assert(out@ =~= numbers(models));
    order::sort(out)
}

/// The state of the review.
#[derive(Debug)]
pub struct CodeReviewState {
    pub store: RepoStore,
    pub session: SessionMeta,
    /// The numbers of the session's snaps, in order.
    pub entries: Vec<u32>,
    /// The place in `entries` of the snap that is shown.
    pub cur_snap_idx: usize,
    /// When the directory of the session last changed, as far as it is known.
    pub last_session_mtime: Option<i64>,
    /// The rows of the snap that is shown.
    pub cached_lines: Option<Vec<Line>>,
    /// The number of the snap that the rows are of.
    pub cached_snap_n: Option<u32>,
    /// The file that the rows are of.
    pub cached_file_path: Option<String>,
    pub file_view: FileViewState,
    pub help_open: bool,
}

/// The state of the review, without the store and the session.
#[verifier::ext_equal]
pub struct ReviewModel {
    pub entries: Seq<u32>,
    pub cur: int,
    pub mtime: Option<i64>,
    pub lines: Option<Seq<LineModel>>,
    pub shown_n: Option<u32>,
    pub shown_path: Option<Seq<char>>,
    pub view: Seq<LineModel>,
    pub scroll: u16,
    pub help_open: bool,
}

/// The place of a number in a list, from `k` on.
pub open spec fn place_of(entries: Seq<u32>, n: u32, k: int) -> Option<int>
    decreases entries.len() - k,
{
    if k >= entries.len() {
        None
    } else if entries[k] == n {
        Some(k)
    } else {
        place_of(entries, n, k + 1)
    }
}

/// Whether a row is a change.
pub open spec fn is_change(l: LineModel) -> bool {
    l.style.bg == Some(theme::added_bg()) || l.style.bg == Some(theme::removed_bg())
}

/// The first change from row `k` on.
pub open spec fn change_from(lines: Seq<LineModel>, k: int) -> Option<int>
    decreases lines.len() - k,
{
    if k >= lines.len() {
        None
    } else if is_change(lines[k]) {
        Some(k)
    } else {
        change_from(lines, k + 1)
    }
}

/// The last change before row `k`.
pub open spec fn change_before(lines: Seq<LineModel>, k: int) -> Option<int>
    decreases k,
{
    if k <= 0 {
        None
    } else if is_change(lines[k - 1]) {
        Some(k - 1)
    } else {
        change_before(lines, k - 1)
    }
}

/// Where a jump from a row to the next change, or to the one before, lands.
pub open spec fn jump(lines: Seq<LineModel>, cur: u16, forward: bool) -> u16 {
    let to = if forward {
        change_from(lines, cur + 1)
    } else {
        change_before(lines, cur as int)
    };
    match to {
        Some(i) => (i % 65536) as u16,
        None => cur,
    }
}

/// A number moved by an amount, within its limits.
pub open spec fn moved(scroll: u16, by: int) -> u16 {
    if scroll + by < 0 {
        0
    } else if scroll + by > u16::MAX {
        u16::MAX
    } else {
        (scroll + by) as u16
    }
}

/// Whether a key leaves the review.
pub open spec fn outcome(action: KeyAction) -> CodeReviewCmd {
    if action == KeyAction::Quit {
        CodeReviewCmd::Pop
    } else {
        CodeReviewCmd::Stay
    }
}

impl ReviewModel {
    /// The cursor is on a snap, or at the start where there is none.
    pub open spec fn wf(self) -> bool {
        0 <= self.cur && (self.cur < self.entries.len() || self.cur == 0)
    }

    /// The number of the snap under the cursor.
    pub open spec fn at_cursor(self) -> Option<u32> {
        if self.cur < self.entries.len() {
            Some(self.entries[self.cur])
        } else {
            None
        }
    }

    /// With the snap under the cursor shown, from its top, unless it is shown already.
    pub open spec fn reloaded(self, snaps: Seq<(SessionId, SnapModel)>, id: SessionId) -> ReviewModel {
        if self.at_cursor() == self.shown_n && self.lines is Some {
            self
        } else {
            let page = match self.at_cursor() {
                Some(n) => page_of(snaps, id, n),
                None => None,
            };
            match page {
                Some(p) => ReviewModel {
                    lines: Some(p.1),
                    shown_n: self.at_cursor(),
                    shown_path: Some(p.0),
                    view: p.1,
                    scroll: 0,
                    ..self
                },
                None => ReviewModel {
                    lines: None,
                    shown_n: None,
                    shown_path: None,
                    view: Seq::empty(),
                    ..self
                },
            }
        }
    }

    /// With the snaps listed anew: on the snap that was shown where it is still there, and
    /// otherwise on the latest.
    pub open spec fn relisted(self, all: Seq<u32>) -> ReviewModel {
        let kept = match self.shown_n {
            Some(n) => place_of(all, n, 0),
            None => None,
        };
        ReviewModel {
            entries: all,
            cur: match kept {
                Some(i) => i,
                None => if all.len() == 0 {
                    0
                } else {
                    all.len() - 1
                },
            },
            ..self
        }
    }

    /// After a look at the session's directory, which last changed at `mtime`. Where that
    /// is known and as before, nothing is read.
    pub open spec fn refreshed(
        self,
        mtime: Option<i64>,
        snaps: Seq<(SessionId, SnapModel)>,
        id: SessionId,
    ) -> ReviewModel {
        if self.mtime is Some && self.mtime == mtime {
            self
        } else {
            ReviewModel { mtime, ..self }.relisted(numbers_in_order(snaps, id)).reloaded(snaps, id)
        }
    }

    /// With the cursor on another snap.
    pub open spec fn went_to(
        self,
        i: int,
        snaps: Seq<(SessionId, SnapModel)>,
        id: SessionId,
    ) -> ReviewModel {
        ReviewModel { cur: i, ..self }.reloaded(snaps, id)
    }

    /// What a key does.
    pub open spec fn acted(
        self,
        action: KeyAction,
        mtime: Option<i64>,
        snaps: Seq<(SessionId, SnapModel)>,
        id: SessionId,
    ) -> ReviewModel {
        match action {
            KeyAction::Down => ReviewModel { scroll: moved(self.scroll, 1), ..self },
            KeyAction::Up => ReviewModel { scroll: moved(self.scroll, -1), ..self },
            KeyAction::JumpDown10 => ReviewModel { scroll: moved(self.scroll, 10), ..self },
            KeyAction::JumpUp10 => ReviewModel { scroll: moved(self.scroll, -10), ..self },
            KeyAction::GotoFirst => ReviewModel { scroll: 0, ..self },
            KeyAction::GotoLast => ReviewModel { scroll: u16::MAX, ..self },
            KeyAction::PrevSnap | KeyAction::Back => if self.cur > 0 {
                self.went_to(self.cur - 1, snaps, id)
            } else {
                self
            },
            KeyAction::NextSnap | KeyAction::Enter => if self.cur + 1 < self.entries.len() {
                self.went_to(self.cur + 1, snaps, id)
            } else {
                self
            },
            KeyAction::Refresh => self.refreshed(mtime, snaps, id),
            KeyAction::Help => ReviewModel { help_open: !self.help_open, ..self },
            KeyAction::NewSession | KeyAction::NewSessionAndOpen => match self.lines {
                Some(lines) => ReviewModel {
                    scroll: jump(lines, self.scroll, action is NewSession),
                    ..self
                },
                None => self,
            },
            _ => self,
        }
    }
}

fn find_number(entries: &Vec<u32>, n: u32) -> (r: Option<usize>)
    ensures
        match r {
            Some(i) => i < entries@.len() && place_of(entries@, n, 0) == Some(i as int),
            None => place_of(entries@, n, 0) is None,
        },
{
    let mut i: usize = 0;
    while i < entries.len()
        invariant
            i <= entries.len(),
            place_of(entries@, n, 0) == place_of(entries@, n, i as int),
        decreases entries.len() - i,
    {
        if entries[i] == n {
            return Some(i);
        }
        i += 1;
    }
    None
}

fn line_is_change(l: &Line) -> (r: bool)
    ensures
        r == is_change(l@),
{
    match l.style.bg {
        Some(c) => c == Palette::added_bg() || c == Palette::removed_bg(),
        None => false,
    }
}

/// The row of the next change, or of the one before; the same row where there is none.
pub fn jump_to_change(lines: &Vec<Line>, cur: u16, forward: bool) -> (r: u16)
    requires
        !forward ==> cur <= lines@.len(),
    ensures
        r == jump(theme::line_models(lines@), cur, forward),
{
    let ghost all = theme::line_models(lines@);
    if forward {
        let mut i: usize = cur as usize + 1;
        while i < lines.len()
            invariant
                forward,
                all == theme::line_models(lines@),
                change_from(all, cur + 1) == change_from(all, i as int),
            decreases lines.len() - i,
        {
            assert(all[i as int] == lines@[i as int]@);
            if line_is_change(&lines[i]) {
                return (i % 65536) as u16;
            }
            i += 1;
        }
    } else {
        let mut i: usize = cur as usize;
        while i > 0
            invariant
                !forward,
                i <= lines.len(),
                i <= cur,
                all == theme::line_models(lines@),
                change_before(all, cur as int) == change_before(all, i as int),
            decreases i,
        {
            assert(all[i - 1] == lines@[i - 1]@);
            if line_is_change(&lines[i - 1]) {
                return (i - 1) as u16;
            }
            i -= 1;
        }
    }
    cur
}

impl CodeReviewState {
    /// The state, without the store and the session.
    pub open spec fn model(self) -> ReviewModel {
        ReviewModel {
            entries: self.entries@,
            cur: self.cur_snap_idx as int,
            mtime: self.last_session_mtime,
            lines: match self.cached_lines {
                Some(l) => Some(theme::line_models(l@)),
                None => None,
            },
            shown_n: self.cached_snap_n,
            shown_path: text::opt_view(self.cached_file_path),
            view: theme::line_models(self.file_view.lines@),
            scroll: self.file_view.scroll,
            help_open: self.help_open,
        }
    }

    /// The cursor is on a snap, or at the start where there is none.
    pub open spec fn wf(self) -> bool {
        self.model().wf()
    }

    /// What the snaps of the project say.
    pub open spec fn snaps(self) -> Seq<(SessionId, SnapModel)> {
        self.store.snaps.file_view()
    }

    /// The review of a session, on its latest snap. `mtime` is when the directory of the
    /// session last changed.
    pub fn load(store: RepoStore, session: SessionMeta, mtime: Option<i64>) -> (r: CodeReviewState)
        ensures
            r.store == store,
            r.session == session,
            r.wf(),
            r.model() == (ReviewModel {
                entries: Seq::empty(),
                cur: 0,
                mtime: None,
                lines: None,
                shown_n: None,
                shown_path: None,
                view: Seq::empty(),
                scroll: 0,
                help_open: false,
            }).refreshed(mtime, store.snaps.file_view(), session.id),
    {
        let mut s = CodeReviewState {
            store,
            session,
            entries: Vec::new(),
            cur_snap_idx: 0,
            last_session_mtime: None,
            cached_lines: None,
            cached_snap_n: None,
            cached_file_path: None,
            file_view: FileViewState::default(),
            help_open: false,
        };
        assert(s.model().view =~= Seq::empty());
        assert(s.model().entries =~= Seq::empty());
        s.refresh(mtime);
        s
    }

    /// Lists the snaps anew, unless the directory of the session has not changed since.
    pub fn refresh(&mut self, mtime: Option<i64>)
        requires
            old(self).wf(),
        ensures
            final(self).store == old(self).store,
            final(self).session == old(self).session,
            final(self).wf(),
            final(self).model() == old(self).model().refreshed(
                mtime,
                old(self).snaps(),
                old(self).session.id,
            ),
    {
        if let (Some(prev), Some(now)) = (self.last_session_mtime, mtime) {
            if prev == now {
                return;
            }
        }
        self.last_session_mtime = mtime;
        self.entries = list_numbers(&self.store.snaps, &self.session.id);
        let kept = match self.cached_snap_n {
            Some(n) => find_number(&self.entries, n),
            None => None,
        };
        let n: usize = self.entries.len();
        self.cur_snap_idx = match kept {
            Some(i) => i,
            None => if n == 0 {
                0
            } else {
                n - 1
            },
        };
        self.refresh_current();
    }

    /// The name of the colour theme for the review.
    pub fn theme_name(&self) -> (r: String)
        ensures
            r@ == self.store.config.tui.syntax_theme@,
    {
        self.store.config.tui.syntax_theme.clone()
    }

    /// Shows the snap under the cursor, from its top, unless it is shown already.
    pub fn refresh_current(&mut self)
        ensures
            final(self).store == old(self).store,
            final(self).session == old(self).session,
            final(self).model() == old(self).model().reloaded(
                old(self).snaps(),
                old(self).session.id,
            ),
    {
        let at: Option<u32> = if self.cur_snap_idx < self.entries.len() {
            Some(self.entries[self.cur_snap_idx])
        } else {
            None
        };
        if at == self.cached_snap_n && self.cached_lines.is_some() {
            return;
        }
        let page = match at {
            Some(n) => load_page(&self.store.snaps, &self.session.id, n),
            None => None,
        };
        match page {
            Some(p) => {
                let lines = render_snap_stream(&p.body);
                self.file_view.lines = theme::copy_lines(&lines);
                self.cached_lines = Some(lines);
                self.cached_snap_n = Some(p.n);
                self.cached_file_path = Some(p.file_path);
                self.file_view.scroll = 0;
            },
            None => {
                self.cached_lines = None;
                self.cached_snap_n = None;
                self.cached_file_path = None;
                self.file_view.lines = Vec::new();
                assert(self.model().view =~= Seq::empty());
            },
        }
    }

    fn scroll_by(&mut self, down: bool, by: u16)
        ensures
            final(self).store == old(self).store,
            final(self).session == old(self).session,
            final(self).model() == (ReviewModel {
                scroll: moved(
                    old(self).file_view.scroll,
                    if down {
                        by as int
                    } else {
                        -(by as int)
                    },
                ),
                ..old(self).model()
            }),
    {
        let at: u16 = self.file_view.scroll;
        self.file_view.scroll = if down {
            at.saturating_add(by)
        } else {
            at.saturating_sub(by)
        };
    }

    /// Takes a key. `mtime` is when the directory of the session last changed.
    pub fn on_action(&mut self, action: KeyAction, _parser: &mut VimParser, mtime: Option<i64>) -> (r:
        CodeReviewCmd)
        requires
            old(self).wf(),
            action is NewSessionAndOpen && old(self).cached_lines is Some
                ==> old(self).file_view.scroll <= old(self).cached_lines->0@.len(),
        ensures
            final(self).store == old(self).store,
            final(self).session == old(self).session,
            final(self).wf(),
            *final(_parser) == *old(_parser),
            final(self).model() == old(self).model().acted(
                action,
                mtime,
                old(self).snaps(),
                old(self).session.id,
            ),
            r == outcome(action),
    {
        match action {
            KeyAction::Down => self.scroll_by(true, 1),
            KeyAction::Up => self.scroll_by(false, 1),
            KeyAction::JumpDown10 => self.scroll_by(true, 10),
            KeyAction::JumpUp10 => self.scroll_by(false, 10),
            KeyAction::GotoFirst => {
                self.file_view.scroll = 0;
            },
            KeyAction::GotoLast => {
                self.file_view.scroll = u16::MAX;
            },
            KeyAction::PrevSnap | KeyAction::Back => {
                if self.cur_snap_idx > 0 {
                    self.cur_snap_idx = self.cur_snap_idx - 1;
                    self.refresh_current();
                }
            },
            KeyAction::NextSnap | KeyAction::Enter => {
                let n: usize = self.entries.len();
                if n > 0 && self.cur_snap_idx < n - 1 {
                    self.cur_snap_idx = self.cur_snap_idx + 1;
                    self.refresh_current();
                }
            },
            KeyAction::Refresh => self.refresh(mtime),
            KeyAction::Quit => {
                return CodeReviewCmd::Pop;
            },
            KeyAction::Help => {
                self.help_open = !self.help_open;
            },
            KeyAction::NewSession | KeyAction::NewSessionAndOpen => {
                let forward = match action {
                    KeyAction::NewSession => true,
                    _ => false,
                };
                if let Some(lines) = &self.cached_lines {
                    let to: u16 = jump_to_change(lines, self.file_view.scroll, forward);
                    self.file_view.scroll = to;
                }
            },
            _ => {},
        }
        CodeReviewCmd::Stay
    }
}

/// A jump lands on a change in its direction, over no other change, or stays where it is.
pub proof fn law_jump_lands_on_a_change(lines: Seq<LineModel>, cur: u16, forward: bool)
    requires
        lines.len() <= u16::MAX,
        cur <= lines.len(),
    ensures
        ({
            let to = jump(lines, cur, forward);
            ||| forward && cur < to < lines.len() && is_change(lines[to as int]) && forall|i: int|
                cur < i < to ==> !is_change(#[trigger] lines[i])
            ||| !forward && to < cur && is_change(lines[to as int]) && forall|i: int|
                to < i < cur ==> !is_change(#[trigger] lines[i])
            ||| to == cur && forward && forall|i: int|
                cur < i < lines.len() ==> !is_change(#[trigger] lines[i])
            ||| to == cur && !forward && forall|i: int|
                0 <= i < cur ==> !is_change(#[trigger] lines[i])
        }),
{
    if forward {
        lemma_change_from(lines, cur + 1);
    } else {
        lemma_change_before(lines, cur as int);
    }
}

proof fn lemma_change_from(lines: Seq<LineModel>, k: int)
    requires
        0 <= k,
    ensures
        match change_from(lines, k) {
            Some(i) => k <= i < lines.len() && is_change(lines[i]) && forall|j: int|
                k <= j < i ==> !is_change(#[trigger] lines[j]),
            None => forall|j: int| k <= j < lines.len() ==> !is_change(#[trigger] lines[j]),
        },
    decreases lines.len() - k,
{
    if k < lines.len() && !is_change(lines[k]) {
        lemma_change_from(lines, k + 1);
    }
}

proof fn lemma_change_before(lines: Seq<LineModel>, k: int)
    requires
        0 <= k <= lines.len(),
    ensures
        match change_before(lines, k) {
            Some(i) => 0 <= i < k && is_change(lines[i]) && forall|j: int|
                i < j < k ==> !is_change(#[trigger] lines[j]),
            None => forall|j: int| 0 <= j < k ==> !is_change(#[trigger] lines[j]),
        },
    decreases k,
{
    if k > 0 && !is_change(lines[k - 1]) {
        lemma_change_before(lines, k - 1);
    }
}

/// What is shown is the snap under the cursor, where it can be read.
pub open spec fn shows_cursor(m: ReviewModel, snaps: Seq<(SessionId, SnapModel)>, id: SessionId) -> bool {
    let page = match m.at_cursor() {
        Some(n) => page_of(snaps, id, n),
        None => None,
    };
    match page {
        Some(p) => m.lines == Some(p.1) && m.view == p.1 && m.shown_path == Some(p.0) && m.shown_n
            == m.at_cursor(),
        None => m.lines is None && m.view.len() == 0 && m.shown_path is None && m.shown_n is None,
    }
}

/// What is shown is what the snap with the number shown says.
pub open spec fn shows_its_snap(m: ReviewModel, snaps: Seq<(SessionId, SnapModel)>, id: SessionId) -> bool {
    match m.lines {
        Some(lines) => m.shown_n is Some && m.shown_path is Some && page_of(snaps, id, m.shown_n->0)
            == Some((m.shown_path->0, lines)) && m.view == lines,
        None => m.view.len() == 0 && m.shown_path is None && m.shown_n is None,
    }
}

proof fn lemma_reloaded(m: ReviewModel, snaps: Seq<(SessionId, SnapModel)>, id: SessionId)
    requires
        shows_its_snap(m, snaps, id),
    ensures
        shows_cursor(m.reloaded(snaps, id), snaps, id),
        m.reloaded(snaps, id).cur == m.cur,
        m.reloaded(snaps, id).entries == m.entries,
{
}

/// Whatever is pressed, what is shown is the snap under the cursor.
pub proof fn law_review_shows_the_cursor(
    m: ReviewModel,
    action: KeyAction,
    mtime: Option<i64>,
    snaps: Seq<(SessionId, SnapModel)>,
    id: SessionId,
)
    requires
        m.wf(),
        shows_cursor(m, snaps, id),
    ensures
        shows_cursor(m.acted(action, mtime, snaps, id), snaps, id),
        m.acted(action, mtime, snaps, id).wf(),
{
    lemma_place_of(numbers_in_order(snaps, id), m.shown_n, 0);
    assert(shows_its_snap(m, snaps, id));
    lemma_reloaded(ReviewModel { cur: m.cur - 1, ..m }, snaps, id);
    lemma_reloaded(ReviewModel { cur: m.cur + 1, ..m }, snaps, id);
    lemma_reloaded(
        ReviewModel { mtime, ..m }.relisted(numbers_in_order(snaps, id)),
        snaps,
        id,
    );
}

proof fn lemma_place_of(entries: Seq<u32>, n: Option<u32>, k: int)
    requires
        0 <= k,
    ensures
        n is Some && place_of(entries, n->0, k) is Some ==> k <= place_of(entries, n->0, k)->0
            < entries.len() && entries[place_of(entries, n->0, k)->0] == n->0,
    decreases entries.len() - k,
{
    if k < entries.len() {
        lemma_place_of(entries, n, k + 1);
    }
}

/// A step to the next snap and one back show the same snap again.
pub proof fn law_step_back_undoes_step_forward(
    m: ReviewModel,
    mtime: Option<i64>,
    snaps: Seq<(SessionId, SnapModel)>,
    id: SessionId,
)
    requires
        m.wf(),
        shows_cursor(m, snaps, id),
        m.cur + 1 < m.entries.len(),
    ensures
        ({
            let back = m.acted(KeyAction::NextSnap, mtime, snaps, id).acted(
                KeyAction::PrevSnap,
                mtime,
                snaps,
                id,
            );
            back.cur == m.cur && back.lines == m.lines && back.shown_n == m.shown_n
                && back.shown_path == m.shown_path
        }),
{
}

/// A refresh keeps the place in the snap that is shown, as long as that snap is there.
pub proof fn law_refresh_keeps_the_place(
    m: ReviewModel,
    mtime: Option<i64>,
    snaps: Seq<(SessionId, SnapModel)>,
    id: SessionId,
)
    requires
        m.lines is Some,
        m.shown_n is Some,
        m.shown_n == m.at_cursor(),
        place_of(numbers_in_order(snaps, id), m.shown_n->0, 0) is Some,
    ensures
        m.refreshed(mtime, snaps, id).shown_n == m.shown_n,
        m.refreshed(mtime, snaps, id).at_cursor() == m.shown_n,
        m.refreshed(mtime, snaps, id).scroll == m.scroll,
        m.refreshed(mtime, snaps, id).lines == m.lines,
{
    lemma_place_of(numbers_in_order(snaps, id), m.shown_n, 0);
}

/// The top line: the session and the place among its snaps.
pub open spec fn scrubber(id: SessionId, at: nat, total: nat) -> Seq<char> {
    " code "@ + session_list::short(id) + (if total == 0 {
        "  (no snaps) "@
    } else {
        "  snap "@ + text::decimal(at + 1) + "/"@ + text::decimal(total) + " "@
    })
}

/// The top line for a session, at place `at` of `total` snaps.
pub fn scrubber_text(id: &SessionId, at: usize, total: usize) -> (r: String)
    requires
        at < usize::MAX,
    ensures
        r@ == scrubber(*id, at as nat, total as nat),
{
    let mut r = text::concat(" code ", session_list::short_id(id).as_str());
    if total == 0 {
        r.append("  (no snaps) ");
    } else {
        let mut place = text::concat3(
            "  snap ",
            text::decimal_of((at + 1) as u64).as_str(),
            "/",
        );
        place.append(text::decimal_of(total as u64).as_str());
        place.append(" ");
        r.append(place.as_str());
    }
    r
}

/// What the keys of the review do, in short.
pub open spec fn review_hints() -> Seq<SpanModel> {
    seq![
        session_list::key("j/k"@),
        session_list::plain(" scroll  "@),
        session_list::key("J/K"@),
        session_list::plain(" 10-line  "@),
        session_list::key("gg/G"@),
        session_list::plain(" jump  "@),
        session_list::key("h/l"@),
        session_list::plain(" snap  "@),
        session_list::key("n/N"@),
        session_list::plain(" change  "@),
        session_list::key("?"@),
        session_list::plain(" help  "@),
        session_list::key("q"@),
        session_list::plain(" back"@),
    ]
}

/// The bottom line of the review.
pub fn status_line() -> (r: Line)
    ensures
        r@ == (LineModel {
            spans: review_hints(),
            style: Style {
                fg: Some(theme::status_fg()),
                bg: Some(theme::status_bg()),
                bold: false,
            },
        }),
{
    let accent = Style::fg(Palette::accent());
    let mut spans: Vec<Span> = Vec::new();
    spans.push(Span::of("j/k", accent));
    spans.push(Span::of(" scroll  ", Style::plain()));
    spans.push(Span::of("J/K", accent));
    spans.push(Span::of(" 10-line  ", Style::plain()));
    spans.push(Span::of("gg/G", accent));
    spans.push(Span::of(" jump  ", Style::plain()));
    spans.push(Span::of("h/l", accent));
    spans.push(Span::of(" snap  ", Style::plain()));
    spans.push(Span::of("n/N", accent));
    spans.push(Span::of(" change  ", Style::plain()));
    spans.push(Span::of("?", accent));
    spans.push(Span::of(" help  ", Style::plain()));
    spans.push(Span::of("q", accent));
    spans.push(Span::of(" back", Style::plain()));
    assert(theme::span_models(spans@) =~= review_hints());
    Line {
        spans,
        style: Style { fg: Some(Palette::status_fg()), bg: Some(Palette::status_bg()), bold: false },
    }
}

impl CodeReviewState {
    /// The top line.
    pub fn scrubber_line(&self) -> (r: Line)
        requires
            self.cur_snap_idx < usize::MAX,
        ensures
            r@ == (LineModel {
                spans: seq![
                    theme::span_of(
                        scrubber(
                            self.session.id,
                            self.cur_snap_idx as nat,
                            self.entries@.len(),
                        ),
                        theme::bold_style(theme::accent()),
                    ),
                ],
                style: theme::bg_style(theme::scrubber_bg()),
            }),
    {
        let mut spans: Vec<Span> = Vec::new();
        spans.push(
            Span::styled(
                scrubber_text(&self.session.id, self.cur_snap_idx, self.entries.len()),
                Style::bold(Palette::accent()),
            ),
        );
        let r = Line { spans, style: Style::bg(Palette::scrubber_bg()) };
        assert(r@.spans =~= seq![
            theme::span_of(
                scrubber(self.session.id, self.cur_snap_idx as nat, self.entries@.len()),
                theme::bold_style(theme::accent()),
            ),
        ]);
        r
    }

    /// The title over the rows: the number of the snap and its file.
    pub fn title(&self) -> (r: String)
        ensures
            r@ == " snap "@ + text::decimal(
                match self.cached_snap_n {
                    Some(n) => n as nat,
                    None => 0,
                },
            ) + " · "@ + (match self.cached_file_path {
                Some(p) => p@,
                None => "?"@,
            }) + " "@,
    {
        let n: u32 = match self.cached_snap_n {
            Some(n) => n,
            None => 0,
        };
        let mut r = text::concat3(" snap ", text::decimal_of(n as u64).as_str(), " · ");
        match &self.cached_file_path {
            Some(p) => r.append(p.as_str()),
            None => r.append("?"),
        }
        r.append(" ");
        r
    }
}

/// What is shown in place of the rows where there are none.
pub const NO_SNAP_TEXT: &'static str = "(no snap at this position)";

/// The help text of the review.
pub const REVIEW_HELP: &'static str =
    "Code review keys\n\n  j / k         scroll one line down / up\n  J / K         10-line jump (shift + j / k)\n  gg / G        top / bottom of the current snap\n  n / N         next / prev change row\n  h / l         prev / next snap in the session\n  [ / ]         prev / next snap (alternative)\n  r             refresh from disk\n  ?             toggle this help\n  q / Esc       back to the session list\n\nEach snap shows all the changes captured at\nthat moment, in time order across files.\nUnchanged files do not appear.\n\n  Green rows = added lines.\n  Red rows   = removed lines (with the prior text).\n  Red header = the whole file was deleted.\n";

proof fn lemma_unified_rows(changes: Seq<ChangeModel>, k: int, i: int)
    requires
        0 <= k <= changes.len(),
    ensures
        unified_rows(changes, k).len() == k,
        0 <= i < k ==> unified_rows(changes, k)[i] == unified_row(changes[i]),
    decreases k,
{
    if k > 0 {
        lemma_unified_rows(changes, k - 1, i);
    }
}

/// A diff has one row for each of its lines, in order: the number of the line, counted from 1
/// in the old text where it went and in the new text otherwise, its sign, and the line itself,
/// on the background of its kind.
pub proof fn law_each_line_of_the_diff_is_shown(prev: Seq<char>, cur: Seq<char>, i: int)
    requires
        0 <= i < diff::text_changes(prev, cur).len(),
    ensures
        ({
            let c = diff::text_changes(prev, cur)[i];
            let r = unified(prev, cur)[i];
            let sign = match c.tag {
                ChangeTag::Equal => ' ',
                ChangeTag::Insert => '+',
                ChangeTag::Delete => '-',
            };
            let at = if c.tag == ChangeTag::Delete {
                c.old_index
            } else {
                c.new_index
            };
            &&& unified(prev, cur).len() == diff::text_changes(prev, cur).len()
            &&& r.spans.len() == 2
            &&& at matches Some(n) ==> r.spans[0].text == text::pad_left(
                text::decimal(n as nat + 1),
                ' ',
                4,
            ) + seq![' ', sign, ' ']
            &&& r.spans[1].text == diff::without_feeds(c.value)
            &&& c.tag == ChangeTag::Equal ==> r.style.bg is None
            &&& c.tag == ChangeTag::Insert ==> r.style.bg == Some(Color::Rgb(0, 60, 0))
            &&& c.tag == ChangeTag::Delete ==> r.style.bg == Some(Color::Rgb(70, 0, 0))
            &&& is_change(r) == (c.tag != ChangeTag::Equal)
        }),
{
    let changes = diff::text_changes(prev, cur);
    lemma_unified_rows(changes, changes.len() as int, i);
    reveal_strlit(" ");
    reveal_strlit("+");
    reveal_strlit("-");
    let c = changes[i];
    let sign = match c.tag {
        ChangeTag::Equal => ' ',
        ChangeTag::Insert => '+',
        ChangeTag::Delete => '-',
    };
    let r = unified_row(c);
    assert(r.spans[0].text =~= text::pad_left(
        text::decimal(highlight::change_number(c)),
        ' ',
        4,
    ) + seq![' ', sign, ' ']);
}

proof fn lemma_gone_rows(lines: Seq<Seq<char>>, k: int, i: int)
    requires
        0 <= k <= lines.len(),
    ensures
        gone_rows(lines, k).len() == k,
        0 <= i < k ==> gone_rows(lines, k)[i] == one_span(
            text::pad_left(text::decimal((i + 1) as nat), ' ', 4) + " - "@ + lines[i],
            gone_style(),
        ),
    decreases k,
{
    if k > 0 {
        lemma_gone_rows(lines, k - 1, i);
    }
}

/// A file that went is shown with all its lines, numbered from 1, behind a `-`; a file without
/// text with its size; an edited one as a diff against what it held before, or against nothing.
pub proof fn law_snap_shows_what_happened(
    text_before: String,
    content: String,
    size: u64,
    i: int,
)
    ensures
        ({
            let lines = text::lines(text_before@);
            let rows = stream(SnapBody::Removed(Some(text_before)));
            &&& rows.len() == lines.len()
            &&& 0 <= i < lines.len() ==> rows[i].spans.len() == 1 && rows[i].spans[0].text
                == text::pad_left(text::decimal((i + 1) as nat), ' ', 4) + " - "@ + lines[i]
            &&& stream(SnapBody::Binary(size)).len() == 1
            &&& stream(SnapBody::Binary(size))[0].spans[0].text == "(binary file, "@
                + text::decimal(size as nat) + " bytes)"@
            &&& stream(SnapBody::Unchanged).len() == 1
            &&& stream(SnapBody::Edited(content, Some(text_before))) == unified(
                text_before@,
                content@,
            )
            &&& stream(SnapBody::Edited(content, None)) == unified(Seq::empty(), content@)
        }),
{
    let lines = text::lines(text_before@);
    lemma_gone_rows(lines, lines.len() as int, i);
}

/// The review shows a snap as the diff of its content against that of the snap it names as the
/// one before, or against nothing where it names none.
pub proof fn law_page_is_the_diff_to_the_snap_before(
    snaps: Seq<(SessionId, SnapModel)>,
    id: SessionId,
    i: int,
    j: int,
)
    requires
        0 <= i < snaps.len(),
        snaps[i].0 == id,
        forall|a: int, b: int|
            0 <= a < b < snaps.len() && (#[trigger] snaps[a]).0 == id && (#[trigger] snaps[b]).0
                == id ==> snaps[a].1.seq != snaps[b].1.seq,
    ensures
        ({
            let m = snaps[i].1;
            let page = page_of(snaps, id, m.seq);
            &&& page is Some
            &&& page->Some_0.0 == m.file_path
            &&& m.prev_seq is None ==> page == Some(
                (m.file_path, unified(Seq::empty(), m.content)),
            )
            &&& 0 <= j < snaps.len() && snaps[j].0 == id && m.prev_seq == Some(snaps[j].1.seq)
                ==> page == Some((m.file_path, unified(snaps[j].1.content, m.content)))
        }),
{
    let m = snaps[i].1;
    file_snap::lemma_seq_slot(snaps, id, m.seq, 0);
    assert(file_snap::seq_slot(snaps, id, m.seq, 0) is Some);
    let w = file_snap::seq_slot(snaps, id, m.seq, 0)->0;
    assert(snaps[w].0 == id);
    assert(w == i);
    if 0 <= j < snaps.len() && snaps[j].0 == id && m.prev_seq == Some(snaps[j].1.seq) {
        file_snap::lemma_seq_slot(snaps, id, snaps[j].1.seq, 0);
        assert(file_snap::seq_slot(snaps, id, snaps[j].1.seq, 0) is Some);
        let v = file_snap::seq_slot(snaps, id, snaps[j].1.seq, 0)->0;
        assert(snaps[v].0 == id);
        assert(v == j);
    }
}

/// The review lists the numbers of the session's snaps and no other, in rising order.
pub proof fn law_review_lists_all_snaps(snaps: Seq<(SessionId, SnapModel)>, id: SessionId, n: u32)
    ensures
        numbers_in_order(snaps, id).contains(n) <==> exists|i: int|
            0 <= i < snaps.len() && (#[trigger] snaps[i]).0 == id && snaps[i].1.seq == n,
        forall|a: int, b: int|
            0 <= a < b < numbers_in_order(snaps, id).len() ==> #[trigger] numbers_in_order(
                snaps,
                id,
            )[a] <= #[trigger] numbers_in_order(snaps, id)[b],
{
    let k = snaps.len() as int;
    let mine = file_snap::session_snaps(snaps, id, k);
    let all = numbers(mine);
    let r = numbers_in_order(snaps, id);
    let keep = file_snap::of_session(id);
    file_snap::law_session_snaps_are_all(snaps, id, k);
    assert(snaps.take(k) =~= snaps);
    order::lemma_sorted_contains(all, order::rank::<u32>(), n);
    order::law_sorted(all, order::rank::<u32>());
    assert forall|a: int, b: int| 0 <= a < b < r.len() implies #[trigger] r[a] <= #[trigger] r[b] by {
        assert(!order::rank::<u32>()(r[b], r[a]));
    }
    if all.contains(n) {
        let w = choose|w: int| 0 <= w < all.len() && all[w] == n;
        order::lemma_filter_holds(snaps, keep, w);
        let i = choose|i: int| 0 <= i < snaps.len() && snaps[i] == snaps.filter(keep)[w];
        assert(snaps[i].0 == id && snaps[i].1.seq == n);
    }
    if exists|i: int| 0 <= i < snaps.len() && (#[trigger] snaps[i]).0 == id && snaps[i].1.seq == n {
        let i = choose|i: int|
            0 <= i < snaps.len() && (#[trigger] snaps[i]).0 == id && snaps[i].1.seq == n;
        assert(snaps.contains(snaps[i]));
        order::lemma_filter_keeps(snaps, keep, snaps[i]);
        let w = choose|w: int| 0 <= w < snaps.filter(keep).len() && snaps.filter(keep)[w] == snaps[i];
        assert(all[w] == n);
    }
}

/// The keys of the review: steps to the next snap and to the one before, moves of the view by
/// one line or ten and to its ends, jumps to the next change and to the one before, and the
/// help. Keys without a meaning change nothing.
pub proof fn law_review_keys(
    m: ReviewModel,
    mtime: Option<i64>,
    snaps: Seq<(SessionId, SnapModel)>,
    id: SessionId,
)
    requires
        m.wf(),
    ensures
        m.acted(KeyAction::NextSnap, mtime, snaps, id).cur == (if m.cur + 1 < m.entries.len() {
            m.cur + 1
        } else {
            m.cur
        }),
        m.acted(KeyAction::PrevSnap, mtime, snaps, id).cur == (if m.cur > 0 {
            m.cur - 1
        } else {
            0
        }),
        m.acted(KeyAction::Enter, mtime, snaps, id) == m.acted(
            KeyAction::NextSnap,
            mtime,
            snaps,
            id,
        ),
        m.acted(KeyAction::Back, mtime, snaps, id) == m.acted(
            KeyAction::PrevSnap,
            mtime,
            snaps,
            id,
        ),
        m.acted(KeyAction::Down, mtime, snaps, id) == (ReviewModel {
            scroll: (if m.scroll < 65535 {
                m.scroll + 1
            } else {
                65535
            }) as u16,
            ..m
        }),
        m.acted(KeyAction::Up, mtime, snaps, id) == (ReviewModel {
            scroll: (if m.scroll > 0 {
                m.scroll - 1
            } else {
                0
            }) as u16,
            ..m
        }),
        m.acted(KeyAction::JumpDown10, mtime, snaps, id) == (ReviewModel {
            scroll: (if m.scroll < 65525 {
                m.scroll + 10
            } else {
                65535
            }) as u16,
            ..m
        }),
        m.acted(KeyAction::JumpUp10, mtime, snaps, id) == (ReviewModel {
            scroll: (if m.scroll > 10 {
                m.scroll - 10
            } else {
                0
            }) as u16,
            ..m
        }),
        m.acted(KeyAction::GotoFirst, mtime, snaps, id) == (ReviewModel { scroll: 0, ..m }),
        m.acted(KeyAction::GotoLast, mtime, snaps, id) == (ReviewModel { scroll: 65535, ..m }),
        m.acted(KeyAction::Help, mtime, snaps, id) == (ReviewModel {
            help_open: !m.help_open,
            ..m
        }),
        m.lines matches Some(l) ==> m.acted(KeyAction::NewSession, mtime, snaps, id) == (ReviewModel {
            scroll: jump(l, m.scroll, true),
            ..m
        }) && m.acted(KeyAction::NewSessionAndOpen, mtime, snaps, id) == (ReviewModel {
            scroll: jump(l, m.scroll, false),
            ..m
        }),
        m.acted(KeyAction::Nothing, mtime, snaps, id) == m,
        m.acted(KeyAction::Delete, mtime, snaps, id) == m,
{
}

/// A refresh reads the snaps where the directory changed or its time is not known, and goes to
/// the latest snap where the one that was shown is gone. Otherwise it reads nothing.
pub proof fn law_refresh_reads_what_changed(
    m: ReviewModel,
    mtime: Option<i64>,
    snaps: Seq<(SessionId, SnapModel)>,
    id: SessionId,
)
    ensures
        ({
            let r = m.acted(KeyAction::Refresh, mtime, snaps, id);
            let all = numbers_in_order(snaps, id);
            &&& m.mtime is Some && m.mtime == mtime ==> r == m
            &&& m.mtime is None || m.mtime != mtime ==> r.mtime == mtime && r.entries == all
            &&& (m.mtime is None || m.mtime != mtime) && all.len() > 0 && (m.shown_n matches Some(n)
                ==> !all.contains(n)) ==> r.cur == all.len() - 1
        }),
{
    let all = numbers_in_order(snaps, id);
    lemma_place_of(all, m.shown_n, 0);
    if let Some(n) = m.shown_n {
        if let Some(i) = place_of(all, n, 0) {
            assert(all[i] == n);
        }
    }
}

/// The top line says how the id of the session begins, which snap is shown, counted from 1, and
/// how many there are.
pub proof fn law_top_line_says_the_place(id: SessionId, at: nat, total: nat)
    ensures
        total > 0 ==> scrubber(id, at, total) == " code "@ + text::first_chars(id.text(), 10)
            + ("  snap "@ + text::decimal(at + 1) + "/"@ + text::decimal(total) + " "@),
        total == 0 ==> scrubber(id, at, total) == " code "@ + text::first_chars(id.text(), 10)
            + "  (no snaps) "@,
{
}

/// Only the key for leaving leaves the review.
pub proof fn law_only_quitting_leaves_the_review(action: KeyAction)
    ensures
        outcome(action) == CodeReviewCmd::Pop <==> action == KeyAction::Quit,
{
}

} // verus!
