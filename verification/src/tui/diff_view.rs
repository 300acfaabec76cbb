//! The right pane of the two-pane view: what changed from one snap to the next.

use crate::diff;
use crate::error::GrsError;
use crate::model::SessionMeta;
use crate::paths;
use crate::snap;
use crate::snap::{SnapEntry, SnapStore, StoredMeta, StoredSnap};
use crate::store::RepoStore;
use crate::text;
use crate::tree_diff;
use crate::tree_diff::{Content, FileChange, SnapDiff};
use crate::tui::theme;
use crate::tui::theme::{Color, Line, LineModel, Span, SpanModel, Style, Theme};
use crate::ulid::SessionId;
use vstd::prelude::*;

verus! {

/// The style of names of files.
pub open spec fn header_style() -> Style {
    theme::bold_style(Color::Cyan)
}

/// The style of notes.
pub open spec fn note_style() -> Style {
    theme::fg_style(Color::DarkGray)
}

/// A line with its number, as added or as removed.
pub open spec fn numbered_row(added: bool, n: nat, line: Seq<char>) -> LineModel {
    LineModel {
        spans: seq![
            theme::span_of(
                (if added {
                    "  +"@
                } else {
                    "  -"@
                }) + text::pad_left(text::decimal(n), ' ', 4) + "  "@,
                theme::fg_style(
                    if added {
                        Color::LightGreen
                    } else {
                        Color::LightRed
                    },
                ),
            ),
            theme::span_of(
                line,
                theme::fg_style(
                    if added {
                        Color::Green
                    } else {
                        Color::Red
                    },
                ),
            ),
        ],
        style: theme::no_style(),
    }
}

/// The first `k` lines with their numbers from 1 on.
pub open spec fn all_rows(added: bool, lines: Seq<Seq<char>>, k: int) -> Seq<LineModel>
    decreases k,
{
    if k <= 0 {
        Seq::empty()
    } else {
        all_rows(added, lines, k - 1).push(numbered_row(added, k as nat, lines[k - 1]))
    }
}

/// The lines with the first `k` of these numbers, where there are such lines.
pub open spec fn picked_rows(added: bool, lines: Seq<Seq<char>>, numbers: Seq<usize>, k: int) -> Seq<
    LineModel,
>
    decreases k,
{
    if k <= 0 {
        Seq::empty()
    } else {
        let n = numbers[k - 1];
        let rest = picked_rows(added, lines, numbers, k - 1);
        if 1 <= n <= lines.len() {
            rest.push(numbered_row(added, n as nat, lines[n - 1]))
        } else {
            rest
        }
    }
}

/// The note on a file that was added or removed.
pub open spec fn size_note(binary: bool, size: u64) -> Seq<char> {
    if binary {
        " (binary, "@ + text::decimal(size as nat) + " bytes) "@
    } else {
        " "@
    }
}

/// The note on a file whose size changed.
pub open spec fn resize_note(old_size: u64, new_size: u64) -> Seq<char> {
    " ("@ + text::decimal(old_size as nat) + " → "@ + text::decimal(new_size as nat) + " bytes) "@
}

/// The line above a change.
pub open spec fn change_head(c: FileChange) -> LineModel {
    let h = header_style();
    let m = note_style();
    LineModel {
        spans: match c {
            FileChange::Added { path, binary, size } => seq![
                theme::span_of("─── added: "@, h),
                theme::span_of(path@, h),
                theme::span_of(size_note(binary, size), m),
            ],
            FileChange::Removed { path, binary, size } => seq![
                theme::span_of("─── removed: "@, h),
                theme::span_of(path@, h),
                theme::span_of(size_note(binary, size), m),
            ],
            FileChange::Modified { path, binary, old_size, new_size } => seq![
                theme::span_of("─── modified: "@, h),
                theme::span_of(path@, h),
                theme::span_of(resize_note(old_size, new_size), m),
            ],
            FileChange::Renamed { from, to, binary } => seq![
                theme::span_of("─── renamed: "@, h),
                theme::span_of(from@, h),
                theme::span_of(" → "@, m),
                theme::span_of(to@, h),
                theme::span_of(
                    if binary {
                        " (binary) "@
                    } else {
                        " "@
                    },
                    m,
                ),
            ],
            FileChange::RenamedAndModified { from, to, binary, old_size, new_size } => seq![
                theme::span_of("─── renamed + modified: "@, h),
                theme::span_of(from@, h),
                theme::span_of(" → "@, m),
                theme::span_of(to@, h),
                theme::span_of(resize_note(old_size, new_size), m),
            ],
        },
        style: theme::no_style(),
    }
}

/// The lines of a file that changed: those that went, then those that came.
pub open spec fn changed_rows(before: Seq<char>, after: Seq<char>) -> Seq<LineModel> {
    let ops = diff::line_ops(before, after);
    let gone = diff::removed(ops);
    let come = diff::added(ops);
    picked_rows(false, text::lines(before), gone, gone.len() as int) + picked_rows(
        true,
        text::lines(after),
        come,
        come.len() as int,
    )
}

/// The lines below the head of a change. Binary files and pure moves have none.
pub open spec fn change_body(c: FileChange, old: Seq<Content>, new: Seq<Content>) -> Seq<LineModel> {
    match c {
        FileChange::Added { path, binary, .. } => if binary {
            Seq::empty()
        } else {
            let ls = text::lines(tree_diff::text_at(new, path@));
            all_rows(true, ls, ls.len() as int)
        },
        FileChange::Removed { path, binary, .. } => if binary {
            Seq::empty()
        } else {
            let ls = text::lines(tree_diff::text_at(old, path@));
            all_rows(false, ls, ls.len() as int)
        },
        FileChange::Modified { path, binary, .. } => if binary {
            Seq::empty()
        } else {
            changed_rows(tree_diff::text_at(old, path@), tree_diff::text_at(new, path@))
        },
        FileChange::Renamed { .. } => Seq::empty(),
        FileChange::RenamedAndModified { from, to, binary, .. } => if binary {
            Seq::empty()
        } else {
            changed_rows(tree_diff::text_at(old, from@), tree_diff::text_at(new, to@))
        },
    }
}

/// The lines of the first `k` changes, one change after the other.
pub open spec fn diff_rows(
    changes: Seq<FileChange>,
    old: Seq<Content>,
    new: Seq<Content>,
    k: int,
) -> Seq<LineModel>
    decreases k,
{
    if k <= 0 {
        Seq::empty()
    } else {
        diff_rows(changes, old, new, k - 1) + seq![change_head(changes[k - 1])] + change_body(
            changes[k - 1],
            old,
            new,
        )
    }
}

fn row(added: bool, n: usize, line: &str) -> (r: Line)
    ensures
        r@ == numbered_row(added, n as nat, line@),
{
    let t = Theme;
    let digits = text::padded_left(text::decimal_of(n as u64).as_str(), ' ', 4);
    let mut spans: Vec<Span> = Vec::new();
    if added {
        spans.push(
            Span::styled(text::concat3("  +", digits.as_str(), "  "), t.added_line_no()),
        );
        spans.push(Span::of(line, t.added()));
    } else {
        spans.push(
            Span::styled(text::concat3("  -", digits.as_str(), "  "), t.removed_line_no()),
        );
        spans.push(Span::of(line, t.removed()));
    }
    assert(theme::span_models(spans@) =~= numbered_row(added, n as nat, line@).spans);
    Line::of(spans)
}

fn push_line(out: &mut Vec<Line>, line: Line)
    ensures
        theme::line_models(final(out)@) == theme::line_models(old(out)@).push(line@),
{
    let ghost before = out@;
    let ghost m = line@;
    out.push(line);
    assert(theme::line_models(out@) =~= theme::line_models(before).push(m));
}

fn push_all(out: &mut Vec<Line>, added: bool, t: &str)
    ensures
        theme::line_models(final(out)@) == theme::line_models(old(out)@) + all_rows(
            added,
            text::lines(t@),
            text::lines(t@).len() as int,
        ),
{
    let ls = text::lines_of(t);
    let ghost lines = text::lines(t@);
    assert(text::views(ls@).len() == ls@.len());
    let mut i: usize = 0;
    assert(theme::line_models(out@) + all_rows(added, lines, 0) =~= theme::line_models(out@));
    while i < ls.len()
        invariant
            i <= ls.len(),
            ls@.len() == lines.len(),
            text::views(ls@) == lines,
            theme::line_models(out@) == theme::line_models(old(out)@) + all_rows(
                added,
                lines,
                i as int,
            ),
        decreases ls.len() - i,
    {
        assert(lines[i as int] == ls@[i as int]@);
        let ghost before = theme::line_models(out@);
        let l = row(added, i + 1, ls[i].as_str());
        push_line(out, l);
        assert(before.push(l@) =~= theme::line_models(old(out)@) + all_rows(added, lines, i + 1));
        i += 1;
    }
}

fn push_picked(out: &mut Vec<Line>, added: bool, t: &str, numbers: &Vec<usize>)
    ensures
        theme::line_models(final(out)@) == theme::line_models(old(out)@) + picked_rows(
            added,
            text::lines(t@),
            numbers@,
            numbers@.len() as int,
        ),
{
    let ls = text::lines_of(t);
    let ghost lines = text::lines(t@);
    assert(text::views(ls@).len() == ls@.len());
    let mut i: usize = 0;
    assert(theme::line_models(out@) + picked_rows(added, lines, numbers@, 0)
        =~= theme::line_models(out@));
    while i < numbers.len()
        invariant
            i <= numbers.len(),
            ls@.len() == lines.len(),
            text::views(ls@) == lines,
            theme::line_models(out@) == theme::line_models(old(out)@) + picked_rows(
                added,
                lines,
                numbers@,
                i as int,
            ),
        decreases numbers.len() - i,
    {
        let n: usize = numbers[i];
        if 1 <= n && n <= ls.len() {
            assert(lines[n - 1] == ls@[n - 1]@);
            let ghost before = theme::line_models(out@);
            let l = row(added, n, ls[n - 1].as_str());
            push_line(out, l);
            assert(before.push(l@) =~= theme::line_models(old(out)@) + picked_rows(
                added,
                lines,
                numbers@,
                i + 1,
            ));
        }
        i += 1;
    }
}

fn push_changed(out: &mut Vec<Line>, before: &str, after: &str)
    ensures
        theme::line_models(final(out)@) == theme::line_models(old(out)@) + changed_rows(
            before@,
            after@,
        ),
{
    let d = diff::line_diff(before, after);
    push_picked(out, false, before, &d.removed_lines);
    push_picked(out, true, after, &d.added_lines);
    assert(theme::line_models(out@) =~= theme::line_models(old(out)@) + changed_rows(
        before@,
        after@,
    ));
}

fn size_note_of(binary: bool, size: u64) -> (r: String)
    ensures
        r@ == size_note(binary, size),
{
    if binary {
        text::concat3(" (binary, ", text::decimal_of(size).as_str(), " bytes) ")
    } else {
        " ".to_owned()
    }
}

fn resize_note_of(old_size: u64, new_size: u64) -> (r: String)
    ensures
        r@ == resize_note(old_size, new_size),
{
    let mut t = text::concat3(" (", text::decimal_of(old_size).as_str(), " → ");
    t.append(text::decimal_of(new_size).as_str());
    t.append(" bytes) ");
    t
}

fn head_line(c: &FileChange) -> (r: Line)
    ensures
        r@ == change_head(*c),
{
    let t = Theme;
    let mut spans: Vec<Span> = Vec::new();
    match c {
        FileChange::Added { path, binary, size } => {
            spans.push(Span::of("─── added: ", t.file_header()));
            spans.push(Span::styled(path.clone(), t.file_header()));
            spans.push(Span::styled(size_note_of(*binary, *size), t.muted()));
        },
        FileChange::Removed { path, binary, size } => {
            spans.push(Span::of("─── removed: ", t.file_header()));
            spans.push(Span::styled(path.clone(), t.file_header()));
            spans.push(Span::styled(size_note_of(*binary, *size), t.muted()));
        },
        FileChange::Modified { path, binary: _, old_size, new_size } => {
            spans.push(Span::of("─── modified: ", t.file_header()));
            spans.push(Span::styled(path.clone(), t.file_header()));
            spans.push(Span::styled(resize_note_of(*old_size, *new_size), t.muted()));
        },
        FileChange::Renamed { from, to, binary } => {
            spans.push(Span::of("─── renamed: ", t.file_header()));
            spans.push(Span::styled(from.clone(), t.file_header()));
            spans.push(Span::of(" → ", t.muted()));
            spans.push(Span::styled(to.clone(), t.file_header()));
            spans.push(
                if *binary {
                    Span::of(" (binary) ", t.muted())
                } else {
                    Span::of(" ", t.muted())
                },
            );
        },
        FileChange::RenamedAndModified { from, to, binary: _, old_size, new_size } => {
            spans.push(Span::of("─── renamed + modified: ", t.file_header()));
            spans.push(Span::styled(from.clone(), t.file_header()));
            spans.push(Span::of(" → ", t.muted()));
            spans.push(Span::styled(to.clone(), t.file_header()));
            spans.push(Span::styled(resize_note_of(*old_size, *new_size), t.muted()));
        },
    }
    assert(theme::span_models(spans@) =~= change_head(*c).spans);
    Line::of(spans)
}

fn push_body(out: &mut Vec<Line>, c: &FileChange, prev_tree: &Vec<Content>, cur_tree: &Vec<Content>)
    ensures
        theme::line_models(final(out)@) == theme::line_models(old(out)@) + change_body(
            *c,
            prev_tree@,
            cur_tree@,
        ),
{
    let ghost before = theme::line_models(out@);
    assert(before + Seq::<LineModel>::empty() =~= before);
    match c {
        FileChange::Added { path, binary, .. } => {
            if !*binary {
                let t = tree_diff::read_text(cur_tree, path.as_str());
                push_all(out, true, t.as_str());
            }
        },
        FileChange::Removed { path, binary, .. } => {
            if !*binary {
                let t = tree_diff::read_text(prev_tree, path.as_str());
                push_all(out, false, t.as_str());
            }
        },
        FileChange::Modified { path, binary, .. } => {
            if !*binary {
                let a = tree_diff::read_text(prev_tree, path.as_str());
                let b = tree_diff::read_text(cur_tree, path.as_str());
                push_changed(out, a.as_str(), b.as_str());
            }
        },
        FileChange::Renamed { .. } => {},
        FileChange::RenamedAndModified { from, to, binary, .. } => {
            if !*binary {
                let a = tree_diff::read_text(prev_tree, from.as_str());
                let b = tree_diff::read_text(cur_tree, to.as_str());
                push_changed(out, a.as_str(), b.as_str());
            }
        },
    }
}

/// The changes as lines: a head for each file, and below it the lines that went and came.
pub fn render_diff(changes: &Vec<FileChange>, prev_tree: &Vec<Content>, cur_tree: &Vec<Content>) -> (r:
    Vec<Line>)
    ensures
        theme::line_models(r@) == diff_rows(
            changes@,
            prev_tree@,
            cur_tree@,
            changes@.len() as int,
        ),
{
    let mut out: Vec<Line> = Vec::new();
    let mut i: usize = 0;
    assert(theme::line_models(out@) =~= Seq::empty());
    while i < changes.len()
        invariant
            i <= changes.len(),
            theme::line_models(out@) == diff_rows(changes@, prev_tree@, cur_tree@, i as int),
        decreases changes.len() - i,
    {
        let ghost before = theme::line_models(out@);
        let head = head_line(&changes[i]);
        push_line(&mut out, head);
        assert(before.push(head@) =~= before + seq![change_head(changes@[i as int])]);
        push_body(&mut out, &changes[i], prev_tree, cur_tree);
        i += 1;
    }
    out
}

/// The state of the pane.
#[derive(Debug)]
pub struct DiffViewState {
    /// The number of the snap that is shown.
    pub current_snap_n: Option<u32>,
    pub lines: Vec<Line>,
    pub scroll: usize,
}

/// Whether the lines of two consecutive snaps can be counted.
pub open spec fn pair_countable(snaps: SnapStore, id: SessionId, n: u32) -> bool {
    let prev = snaps.stored(id, (n - 1) as u32, 0);
    let cur = snaps.stored(id, n, 0);
    prev is Some && cur is Some && prev->0.meta is Present && cur->0.meta is Present
        ==> tree_diff::countable(
        prev->0.meta->Present_0.files@,
        prev->0.tree@,
        cur->0.meta->Present_0.files@,
        cur->0.tree@,
    )
}

/// What comparing snap `n` with the one before it gives: the diff where both records can
/// be had, and otherwise what to say of the first that cannot, the older one first.
pub open spec fn compared(
    snaps: SnapStore,
    id: SessionId,
    n: u32,
    r: Result<SnapDiff, GrsError>,
) -> bool {
    let before = (n - 1) as u32;
    let old = snaps.meta_of(id, before);
    let new = snaps.meta_of(id, n);
    let dir = snaps.session_path(id);
    if !(old is Present) {
        r is Err && snap::no_record(old, dir.child(paths::snap_dir_name(before)), r->Err_0)
    } else if !(new is Present) {
        r is Err && snap::no_record(new, dir.child(paths::snap_dir_name(n)), r->Err_0)
    } else {
        let old_tree = snaps.stored(id, before, 0)->0.tree@;
        let new_tree = snaps.stored(id, n, 0)->0.tree@;
        &&& r is Ok
        &&& r->Ok_0.changes@ == tree_diff::sorted_changes(
            old->Present_0.files@,
            new->Present_0.files@,
        )
        &&& r->Ok_0.added_lines == tree_diff::added_total(
            old->Present_0.files@,
            old_tree,
            new->Present_0.files@,
            new_tree,
        )
        &&& r->Ok_0.removed_lines == tree_diff::removed_total(
            old->Present_0.files@,
            old_tree,
            new->Present_0.files@,
            new_tree,
        )
    }
}

/// Compares snap `n` of a session with the one before it.
pub fn compare(snaps: &SnapStore, id: &SessionId, n: u32) -> (r: Result<SnapDiff, GrsError>)
    requires
        n >= 1,
        pair_countable(*snaps, *id, n),
    ensures
        compared(*snaps, *id, n, r),
{
    let before: u32 = n - 1;
    let old = match snaps.read_meta(id, before) {
        Ok(m) => m,
        Err(e) => {
            return Err(e);
        },
    };
    let new = match snaps.read_meta(id, n) {
        Ok(m) => m,
        Err(e) => {
            return Err(e);
        },
    };
    match (snaps.snap(id, before), snaps.snap(id, n)) {
        (Some(a), Some(b)) => Ok(tree_diff::diff_snap_meta(old, &a.tree, new, &b.tree)),
        (_, _) => Err(GrsError::NotInitialized),
    }
}

impl DiffViewState {
    /// A pane that shows nothing.
    pub fn new() -> (r: DiffViewState)
        ensures
            r.current_snap_n is None,
            r.lines@.len() == 0,
            r.scroll == 0,
    {
        DiffViewState { current_snap_n: None, lines: Vec::new(), scroll: 0 }
    }

    /// Shows a snap: what changed since the one before it. The first snap has nothing to
    /// show. Where the snaps cannot be compared, the lines stay as they were.
    pub fn load(&mut self, store: &RepoStore, session: &SessionMeta, entry: &SnapEntry) -> (r:
        Result<(), GrsError>)
        requires
            entry.n >= 1,
            pair_countable(store.snaps, session.id, entry.n),
        ensures
            final(self).current_snap_n == Some(entry.n),
            final(self).scroll == 0,
            if entry.n == 1 {
                r is Ok && final(self).lines@.len() == 0
            } else {
                match r {
                    Ok(_) => store.snaps.meta_of(session.id, (entry.n - 1) as u32) is Present
                        && store.snaps.meta_of(session.id, entry.n) is Present
                        && theme::line_models(final(self).lines@) == snap_rows(
                        store.snaps,
                        session.id,
                        entry.n,
                    ),
                    Err(e) => final(self).lines == old(self).lines && compared(
                        store.snaps,
                        session.id,
                        entry.n,
                        Err(e),
                    ),
                }
            },
    {
        self.current_snap_n = Some(entry.n);
        self.scroll = 0;
        if entry.n == 1 {
            self.lines = Vec::new();
            return Ok(());
        }
        let d = match compare(&store.snaps, &session.id, entry.n) {
            Ok(d) => d,
            Err(e) => {
                return Err(e);
            },
        };
        match (
            store.snaps.snap(&session.id, entry.n - 1),
            store.snaps.snap(&session.id, entry.n),
        ) {
            (Some(a), Some(b)) => {
                self.lines = render_diff(&d.changes, &a.tree, &b.tree);
            },
            (_, _) => {},
        }
        Ok(())
    }

    /// The title of the pane.
    pub fn title(&self) -> (r: String)
        requires
            self.current_snap_n matches Some(n) ==> n >= 1,
        ensures
            r@ == title_of(self.current_snap_n),
    {
        match self.current_snap_n {
            Some(n) => if n == 1 {
                " snap 1 · baseline ".to_owned()
            } else {
                let mut t = text::concat3(
                    " snap ",
                    text::decimal_of(n as u64).as_str(),
                    " · diff vs snap ",
                );
                t.append(text::decimal_of((n - 1) as u64).as_str());
                t.append(" ");
                t
            },
            None => " diff ".to_owned(),
        }
    }

    /// What is shown where there are no lines.
    pub fn placeholder(&self) -> (r: String)
        ensures
            r@ == if self.current_snap_n == Some(1u32) {
                BASELINE_TEXT@
            } else {
                "(no snap selected)"@
            },
    {
        match self.current_snap_n {
            Some(1) => BASELINE_TEXT.to_owned(),
            _ => "(no snap selected)".to_owned(),
        }
    }
}

/// What is shown for the first snap.
pub const BASELINE_TEXT: &'static str =
    "── Snap 1 · baseline ──\n\nProject state at session start.\nSelect snap 2+ to see changes.";

/// The title of the pane.
pub open spec fn title_of(n: Option<u32>) -> Seq<char> {
    match n {
        Some(n) => if n == 1 {
            " snap 1 · baseline "@
        } else {
            " snap "@ + text::decimal(n as nat) + " · diff vs snap "@ + text::decimal(
                (n - 1) as nat,
            ) + " "@
        },
        None => " diff "@,
    }
}

/// The lines that show what changed in snap `n`.
pub open spec fn snap_rows(snaps: SnapStore, id: SessionId, n: u32) -> Seq<LineModel> {
    let before = (n - 1) as u32;
    let changes = tree_diff::sorted_changes(
        snaps.meta_of(id, before)->Present_0.files@,
        snaps.meta_of(id, n)->Present_0.files@,
    );
    diff_rows(
        changes,
        snaps.stored(id, before, 0)->0.tree@,
        snaps.stored(id, n, 0)->0.tree@,
        changes.len() as int,
    )
}

/// The text of a row: that of its spans, one after the other.
pub open spec fn row_text(spans: Seq<SpanModel>) -> Seq<char>
    decreases spans.len(),
{
    if spans.len() == 0 {
        Seq::empty()
    } else {
        row_text(spans.drop_last()) + spans.last().text
    }
}

/// Whether a row shows line `n` behind a sign: the sign, the number in four columns, and the
/// line in green or in red.
pub open spec fn shows(r: LineModel, sign: char, n: int, line: Seq<char>, color: Color) -> bool {
    &&& row_text(r.spans) == seq![' ', ' ', sign] + text::pad_left(text::decimal(n as nat), ' ', 4)
        + seq![' ', ' '] + line
    &&& r.spans.last().text == line
    &&& r.spans.last().style.fg == Some(color)
}

proof fn lemma_row_shows(added: bool, n: nat, line: Seq<char>)
    ensures
        shows(
            numbered_row(added, n, line),
            if added {
                '+'
            } else {
                '-'
            },
            n as int,
            line,
            if added {
                Color::Green
            } else {
                Color::Red
            },
        ),
{
    reveal_strlit("  +");
    reveal_strlit("  -");
    reveal_strlit("  ");
    reveal_with_fuel(row_text, 3);
    let r = numbered_row(added, n, line);
    let sign = if added {
        '+'
    } else {
        '-'
    };
    assert(r.spans.drop_last().drop_last().len() == 0);
    assert(r.spans.drop_last().last() == r.spans[0]);
    assert(row_text(r.spans) =~= seq![' ', ' ', sign] + text::pad_left(text::decimal(n), ' ', 4)
        + seq![' ', ' '] + line);
}

proof fn lemma_all_rows(added: bool, lines: Seq<Seq<char>>, k: int, i: int)
    requires
        0 <= k <= lines.len(),
    ensures
        all_rows(added, lines, k).len() == k,
        0 <= i < k ==> all_rows(added, lines, k)[i] == numbered_row(added, (i + 1) as nat, lines[i]),
    decreases k,
{
    if k > 0 {
        lemma_all_rows(added, lines, k - 1, i);
    }
}

proof fn lemma_picked_rows(
    added: bool,
    lines: Seq<Seq<char>>,
    numbers: Seq<usize>,
    k: int,
    i: int,
)
    requires
        0 <= k <= numbers.len(),
        forall|x: int| 0 <= x < numbers.len() ==> 1 <= #[trigger] numbers[x] <= lines.len(),
    ensures
        picked_rows(added, lines, numbers, k).len() == k,
        0 <= i < k ==> picked_rows(added, lines, numbers, k)[i] == numbered_row(
            added,
            numbers[i] as nat,
            lines[numbers[i] - 1],
        ),
    decreases k,
{
    if k > 0 {
        assert(1 <= numbers[k - 1] <= lines.len());
        lemma_picked_rows(added, lines, numbers, k - 1, i);
    }
}

proof fn lemma_diff_rows_prefix(
    changes: Seq<FileChange>,
    c: FileChange,
    old: Seq<Content>,
    new: Seq<Content>,
    k: int,
)
    requires
        0 <= k <= changes.len(),
    ensures
        diff_rows(changes.push(c), old, new, k) == diff_rows(changes, old, new, k),
    decreases k,
{
    if k > 0 {
        lemma_diff_rows_prefix(changes, c, old, new, k - 1);
    }
}

/// The rows that one more change adds, and the rows before them.
pub open spec fn rows_added(
    changes: Seq<FileChange>,
    c: FileChange,
    old: Seq<Content>,
    new: Seq<Content>,
) -> Seq<LineModel> {
    diff_rows(changes.push(c), old, new, changes.len() as int + 1).skip(
        diff_rows(changes, old, new, changes.len() as int).len() as int,
    )
}

/// One more change adds its rows behind the others, which stay: first a head that names the
/// kind of change and the path, or both paths.
pub proof fn law_each_change_has_a_head(
    changes: Seq<FileChange>,
    c: FileChange,
    old: Seq<Content>,
    new: Seq<Content>,
)
    ensures
        ({
            let base = diff_rows(changes, old, new, changes.len() as int);
            let all = diff_rows(changes.push(c), old, new, changes.len() as int + 1);
            let head = rows_added(changes, c, old, new)[0];
            &&& all == base + rows_added(changes, c, old, new)
            &&& rows_added(changes, c, old, new).len() >= 1
            &&& match c {
                FileChange::Added { path, .. } => head.spans[0].text == "─── added: "@
                    && head.spans[1].text == path@,
                FileChange::Removed { path, .. } => head.spans[0].text == "─── removed: "@
                    && head.spans[1].text == path@,
                FileChange::Modified { path, old_size, new_size, .. } => head.spans[0].text
                    == "─── modified: "@ && head.spans[1].text == path@ && head.spans[2].text
                    == " ("@ + text::decimal(old_size as nat) + " → "@ + text::decimal(
                    new_size as nat,
                ) + " bytes) "@,
                FileChange::Renamed { from, to, .. } => head.spans[0].text == "─── renamed: "@
                    && head.spans[1].text == from@ && head.spans[3].text == to@,
                FileChange::RenamedAndModified { from, to, .. } => head.spans[0].text
                    == "─── renamed + modified: "@ && head.spans[1].text == from@
                    && head.spans[3].text == to@,
            }
        }),
{
    let n = changes.len() as int;
    lemma_diff_rows_prefix(changes, c, old, new, n);
    let base = diff_rows(changes, old, new, n);
    let all = diff_rows(changes.push(c), old, new, n + 1);
    assert(changes.push(c)[n] == c);
    assert(all == base + seq![change_head(c)] + change_body(c, old, new));
    assert(rows_added(changes, c, old, new) =~= seq![change_head(c)] + change_body(c, old, new));
    assert(all =~= base + rows_added(changes, c, old, new));
}

proof fn lemma_rows_added(
    changes: Seq<FileChange>,
    c: FileChange,
    old: Seq<Content>,
    new: Seq<Content>,
)
    ensures
        rows_added(changes, c, old, new) == seq![change_head(c)] + change_body(c, old, new),
{
    let n = changes.len() as int;
    lemma_diff_rows_prefix(changes, c, old, new, n);
    assert(changes.push(c)[n] == c);
    assert(rows_added(changes, c, old, new) =~= seq![change_head(c)] + change_body(c, old, new));
}

/// Below the head of a text file that was modified, every line that the line diff removes is
/// shown once behind a `-`, and then every line that it adds once behind a `+`, each with its
/// number and its text.
pub proof fn law_modified_file_shows_what_went_and_came(
    changes: Seq<FileChange>,
    path: String,
    old_size: u64,
    new_size: u64,
    old: Seq<Content>,
    new: Seq<Content>,
    i: int,
    j: int,
)
    requires
        tree_diff::stands_at(old, path@, i),
        tree_diff::stands_at(new, path@, j),
    ensures
        ({
            let c = FileChange::Modified { path, binary: false, old_size, new_size };
            let before = crate::util::fs::lossy(old[i].bytes@);
            let after = crate::util::fs::lossy(new[j].bytes@);
            let gone = diff::removed(diff::line_ops(before, after));
            let come = diff::added(diff::line_ops(before, after));
            let rows = rows_added(changes, c, old, new);
            (forall|x: int|
                0 <= x < gone.len() ==> 1 <= #[trigger] gone[x] <= text::lines(before).len()) && (
            forall|y: int|
                0 <= y < come.len() ==> 1 <= #[trigger] come[y] <= text::lines(after).len()) ==> {
                &&& rows.len() == 1 + gone.len() + come.len()
                &&& forall|x: int|
                    0 <= x < gone.len() ==> shows(
                        #[trigger] rows[1 + x],
                        '-',
                        gone[x] as int,
                        text::lines(before)[gone[x] - 1],
                        Color::Red,
                    )
                &&& forall|y: int|
                    0 <= y < come.len() ==> shows(
                        #[trigger] rows[1 + gone.len() + y],
                        '+',
                        come[y] as int,
                        text::lines(after)[come[y] - 1],
                        Color::Green,
                    )
            }
        }),
{
    let c = FileChange::Modified { path, binary: false, old_size, new_size };
    let before = crate::util::fs::lossy(old[i].bytes@);
    let after = crate::util::fs::lossy(new[j].bytes@);
    let gone = diff::removed(diff::line_ops(before, after));
    let come = diff::added(diff::line_ops(before, after));
    let rows = rows_added(changes, c, old, new);
    tree_diff::law_bytes_of_a_file(old, path@, i);
    tree_diff::law_bytes_of_a_file(new, path@, j);
    lemma_rows_added(changes, c, old, new);
    if (forall|x: int|
        0 <= x < gone.len() ==> 1 <= #[trigger] gone[x] <= text::lines(before).len()) && (forall|
        y: int,
    |
        0 <= y < come.len() ==> 1 <= #[trigger] come[y] <= text::lines(after).len()) {
        lemma_picked_rows(false, text::lines(before), gone, gone.len() as int, 0);
        lemma_picked_rows(true, text::lines(after), come, come.len() as int, 0);
        let went = picked_rows(false, text::lines(before), gone, gone.len() as int);
        let came = picked_rows(true, text::lines(after), come, come.len() as int);
        assert(change_body(c, old, new) == went + came);
        assert(rows =~= seq![change_head(c)] + (went + came));
        assert forall|x: int| 0 <= x < gone.len() implies shows(
            #[trigger] rows[1 + x],
            '-',
            gone[x] as int,
            text::lines(before)[gone[x] - 1],
            Color::Red,
        ) by {
            lemma_picked_rows(false, text::lines(before), gone, gone.len() as int, x);
            lemma_row_shows(false, gone[x] as nat, text::lines(before)[gone[x] - 1]);
            assert(rows[1 + x] == went[x]);
        }
        assert forall|y: int| 0 <= y < come.len() implies shows(
            #[trigger] rows[1 + gone.len() + y],
            '+',
            come[y] as int,
            text::lines(after)[come[y] - 1],
            Color::Green,
        ) by {
            lemma_picked_rows(true, text::lines(after), come, come.len() as int, y);
            lemma_row_shows(true, come[y] as nat, text::lines(after)[come[y] - 1]);
            assert(rows[1 + gone.len() + y] == came[y]);
        }
    }
}

/// Below the head of a text file that was added, all its lines are shown behind a `+`, with
/// their numbers from 1 on.
pub proof fn law_added_file_shows_all_its_lines(
    changes: Seq<FileChange>,
    path: String,
    size: u64,
    old: Seq<Content>,
    new: Seq<Content>,
    j: int,
)
    requires
        tree_diff::stands_at(new, path@, j),
    ensures
        ({
            let c = FileChange::Added { path, binary: false, size };
            let lines = text::lines(crate::util::fs::lossy(new[j].bytes@));
            let rows = rows_added(changes, c, old, new);
            &&& rows.len() == 1 + lines.len()
            &&& forall|x: int|
                0 <= x < lines.len() ==> shows(
                    #[trigger] rows[1 + x],
                    '+',
                    x + 1,
                    lines[x],
                    Color::Green,
                )
        }),
{
    let c = FileChange::Added { path, binary: false, size };
    let lines = text::lines(crate::util::fs::lossy(new[j].bytes@));
    let rows = rows_added(changes, c, old, new);
    tree_diff::law_bytes_of_a_file(new, path@, j);
    lemma_rows_added(changes, c, old, new);
    let body = all_rows(true, lines, lines.len() as int);
    lemma_all_rows(true, lines, lines.len() as int, 0);
    assert forall|x: int| 0 <= x < lines.len() implies shows(
        #[trigger] rows[1 + x],
        '+',
        x + 1,
        lines[x],
        Color::Green,
    ) by {
        lemma_all_rows(true, lines, lines.len() as int, x);
        lemma_row_shows(true, (x + 1) as nat, lines[x]);
        assert(rows[1 + x] == body[x]);
    }
}

/// Below the head of a text file that was removed, all its lines are shown behind a `-`, with
/// their numbers from 1 on.
pub proof fn law_removed_file_shows_all_its_lines(
    changes: Seq<FileChange>,
    path: String,
    size: u64,
    old: Seq<Content>,
    new: Seq<Content>,
    j: int,
)
    requires
        tree_diff::stands_at(old, path@, j),
    ensures
        ({
            let c = FileChange::Removed { path, binary: false, size };
            let lines = text::lines(crate::util::fs::lossy(old[j].bytes@));
            let rows = rows_added(changes, c, old, new);
            &&& rows.len() == 1 + lines.len()
            &&& forall|x: int|
                0 <= x < lines.len() ==> shows(
                    #[trigger] rows[1 + x],
                    '-',
                    x + 1,
                    lines[x],
                    Color::Red,
                )
        }),
{
    let c = FileChange::Removed { path, binary: false, size };
    let lines = text::lines(crate::util::fs::lossy(old[j].bytes@));
    let rows = rows_added(changes, c, old, new);
    tree_diff::law_bytes_of_a_file(old, path@, j);
    lemma_rows_added(changes, c, old, new);
    let body = all_rows(false, lines, lines.len() as int);
    lemma_all_rows(false, lines, lines.len() as int, 0);
    assert forall|x: int| 0 <= x < lines.len() implies shows(
        #[trigger] rows[1 + x],
        '-',
        x + 1,
        lines[x],
        Color::Red,
    ) by {
        lemma_all_rows(false, lines, lines.len() as int, x);
        lemma_row_shows(false, (x + 1) as nat, lines[x]);
        assert(rows[1 + x] == body[x]);
    }
}

/// A binary file and a file that only moved have a head and no lines.
pub proof fn law_binary_files_and_moves_have_no_lines(
    changes: Seq<FileChange>,
    c: FileChange,
    old: Seq<Content>,
    new: Seq<Content>,
)
    requires
        match c {
            FileChange::Added { binary, .. } => binary,
            FileChange::Removed { binary, .. } => binary,
            FileChange::Modified { binary, .. } => binary,
            FileChange::Renamed { .. } => true,
            FileChange::RenamedAndModified { binary, .. } => binary,
        },
    ensures
        rows_added(changes, c, old, new).len() == 1,
{
    lemma_rows_added(changes, c, old, new);
}

/// The pane shows the changes between a snap and the one before it, as rows of both trees.
pub proof fn law_snap_is_shown_against_the_one_before(
    snaps: SnapStore,
    id: SessionId,
    n: u32,
    old: StoredSnap,
    new: StoredSnap,
)
    requires
        n >= 2,
        snaps.stored(id, (n - 1) as u32, 0) == Some(old),
        snaps.stored(id, n, 0) == Some(new),
        old.meta is Present,
        new.meta is Present,
    ensures
        ({
            let changes = tree_diff::sorted_changes(
                old.meta->Present_0.files@,
                new.meta->Present_0.files@,
            );
            snap_rows(snaps, id, n) == diff_rows(
                changes,
                old.tree@,
                new.tree@,
                changes.len() as int,
            )
        }),
{
}

/// Comparing a snap with the one before it counts the lines between the two trees where both
/// records can be had, and fails where one of them cannot.
pub proof fn law_snap_is_compared_with_the_one_before(
    snaps: SnapStore,
    id: SessionId,
    n: u32,
    r: Result<SnapDiff, GrsError>,
    old: StoredSnap,
    new: StoredSnap,
)
    requires
        n >= 1,
        snaps.stored(id, (n - 1) as u32, 0) == Some(old),
        snaps.stored(id, n, 0) == Some(new),
        compared(snaps, id, n, r),
    ensures
        r is Ok <==> old.meta is Present && new.meta is Present,
        r matches Ok(d) ==> d.changes@ == tree_diff::sorted_changes(
            old.meta->Present_0.files@,
            new.meta->Present_0.files@,
        ) && d.added_lines == tree_diff::added_total(
            old.meta->Present_0.files@,
            old.tree@,
            new.meta->Present_0.files@,
            new.tree@,
        ) && d.removed_lines == tree_diff::removed_total(
            old.meta->Present_0.files@,
            old.tree@,
            new.meta->Present_0.files@,
            new.tree@,
        ),
        old.meta is Missing ==> r is Err && r->Err_0 is NotFound,
        old.meta is Present && new.meta is Missing ==> r is Err && r->Err_0 is NotFound,
{
}

/// The title says which snap is shown and that it is compared with the one before it.
pub proof fn law_title_says_which_snap(n: u32)
    ensures
        n >= 2 ==> title_of(Some(n)) == " snap "@ + text::decimal(n as nat) + " · diff vs snap "@
            + text::decimal((n - 1) as nat) + " "@,
        title_of(Some(1)) == " snap 1 · baseline "@,
{
}

} // verus!
