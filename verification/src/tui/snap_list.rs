//! The left pane of the two-pane view: the snaps of a session, with a cursor and the
//! number of lines that each one added and removed.

use crate::error::GrsError;
use crate::model::SessionMeta;
use crate::snap;
use crate::snap::{EntryModel, SnapEntry, SnapStore};
use crate::store::RepoStore;
use crate::text;
use crate::tui::diff_view;
use crate::tui::theme;
use crate::tui::theme::{Color, Line, LineModel, Span, SpanModel, Style, Theme};
use crate::ulid::SessionId;
use std::collections::HashMap;
use vstd::prelude::*;

verus! {

/// The state of the pane.
#[derive(Debug)]
pub struct SnapListState {
    pub entries: Vec<SnapEntry>,
    pub cursor: usize,
    /// The lines added and removed by each snap, by its number.
    pub diffs: HashMap<u32, (usize, usize)>,
}

/// The lines that snap `n` added and removed; the first snap counts as none.
pub open spec fn line_counts(snaps: SnapStore, id: SessionId, n: u32) -> (usize, usize) {
    if n == 1 {
        (0, 0)
    } else {
        let before = (n - 1) as u32;
        let old = snaps.meta_of(id, before)->Present_0.files@;
        let new = snaps.meta_of(id, n)->Present_0.files@;
        let old_tree = snaps.stored(id, before, 0)->0.tree@;
        let new_tree = snaps.stored(id, n, 0)->0.tree@;
        (
            crate::tree_diff::added_total(old, old_tree, new, new_tree) as usize,
            crate::tree_diff::removed_total(old, old_tree, new, new_tree) as usize,
        )
    }
}

/// Whether snap `n` can be compared with the one before it; the first snap needs not.
pub open spec fn comparable(snaps: SnapStore, id: SessionId, n: u32) -> bool {
    n == 1 || (snaps.meta_of(id, (n - 1) as u32) is Present && snaps.meta_of(id, n) is Present)
}

/// Whether entry `i` is the first that cannot be compared, and `e` says why.
pub open spec fn first_fault(snaps: SnapStore, id: SessionId, i: int, e: GrsError) -> bool {
    &&& 0 <= i < snaps.entries(id).len()
    &&& !comparable(snaps, id, snaps.entries(id)[i].n)
    &&& diff_view::compared(snaps, id, snaps.entries(id)[i].n, Err(e))
    &&& forall|j: int| 0 <= j < i ==> comparable(snaps, id, (#[trigger] snaps.entries(id)[j]).n)
}

/// The line counts of the first `k` entries.
pub open spec fn counts_of(snaps: SnapStore, id: SessionId, entries: Seq<EntryModel>, k: int) -> Map<
    u32,
    (usize, usize),
>
    decreases k,
{
    if k <= 0 {
        Map::empty()
    } else {
        counts_of(snaps, id, entries, k - 1).insert(
            entries[k - 1].n,
            line_counts(snaps, id, entries[k - 1].n),
        )
    }
}

/// The last place of a list, or 0.
pub open spec fn last_place(n: nat) -> int {
    if n == 0 {
        0
    } else {
        n - 1
    }
}

impl SnapListState {
    /// Whether the cursor is on an entry, or at 0 where there is none.
    pub open spec fn wf(self) -> bool {
        self.cursor == 0 || self.cursor < self.entries@.len()
    }

    /// The snaps of a session with their line counts, and the cursor on the last. Where a
    /// snap cannot be compared with the one before it, the first such fault is given.
    pub fn load(store: &RepoStore, session: &SessionMeta) -> (r: Result<SnapListState, GrsError>)
        requires
            forall|i: int|
                0 <= i < store.snaps.entries(session.id).len() ==> (
                #[trigger] store.snaps.entries(session.id)[i]).n >= 1
                    && diff_view::pair_countable(
                    store.snaps,
                    session.id,
                    store.snaps.entries(session.id)[i].n,
                ),
        ensures
            match r {
                Ok(s) => {
                    let all = store.snaps.entries(session.id);
                    &&& s.wf()
                    &&& snap::entry_models(s.entries@) == all
                    &&& s.cursor == last_place(all.len())
                    &&& s.diffs@ == counts_of(store.snaps, session.id, all, all.len() as int)
                    &&& forall|i: int|
                        0 <= i < all.len() ==> comparable(
                            store.snaps,
                            session.id,
                            (#[trigger] all[i]).n,
                        )
                },
                Err(e) => exists|i: int| #[trigger] first_fault(store.snaps, session.id, i, e),
            },
    {
        broadcast use vstd::std_specs::hash::group_hash_axioms;

        let entries = store.snaps.list(&session.id);
        let ghost all = store.snaps.entries(session.id);
        assert(snap::entry_models(entries@).len() == entries@.len());
        let mut diffs: HashMap<u32, (usize, usize)> = HashMap::new();
        let mut i: usize = 0;
        assert(diffs@ =~= counts_of(store.snaps, session.id, all, 0));
        while i < entries.len()
            invariant
                i <= entries.len(),
                all == store.snaps.entries(session.id),
                snap::entry_models(entries@) == all,
                all.len() == entries@.len(),
                diffs@ == counts_of(store.snaps, session.id, all, i as int),
                forall|k: int|
                    0 <= k < all.len() ==> (#[trigger] all[k]).n >= 1 && diff_view::pair_countable(
                        store.snaps,
                        session.id,
                        all[k].n,
                    ),
                forall|k: int|
                    0 <= k < i ==> comparable(store.snaps, session.id, (#[trigger] all[k]).n),
            decreases entries.len() - i,
        {
            broadcast use vstd::std_specs::hash::group_hash_axioms;

            let n: u32 = entries[i].n;
            assert(all[i as int] == entries@[i as int]@);
            if n == 1 {
                diffs.insert(n, (0, 0));
            } else {
                match diff_view::compare(&store.snaps, &session.id, n) {
                    Ok(d) => {
                        diffs.insert(n, (d.added_lines, d.removed_lines));
                    },
                    Err(e) => {
                        assert(first_fault(store.snaps, session.id, i as int, e));
                        return Err(e);
                    },
                }
            }
            assert(diffs@ =~= counts_of(store.snaps, session.id, all, i + 1));
            i += 1;
        }
        let cursor: usize = if entries.len() == 0 {
            0
        } else {
            entries.len() - 1
        };
        Ok(SnapListState { entries, cursor, diffs })
    }

    /// One entry up, where there is one.
    pub fn cursor_up(&mut self)
        ensures
            old(self).wf() ==> final(self).wf(),
            final(self).entries == old(self).entries,
            final(self).diffs == old(self).diffs,
            final(self).cursor == (if old(self).cursor > 0 {
                old(self).cursor - 1
            } else {
                0
            }),
    {
        if self.cursor > 0 {
            self.cursor = self.cursor - 1;
        }
    }

    /// One entry down, where there is one.
    pub fn cursor_down(&mut self)
        ensures
            old(self).wf() ==> final(self).wf(),
            final(self).entries == old(self).entries,
            final(self).diffs == old(self).diffs,
            final(self).cursor == (if old(self).cursor + 1 < old(self).entries@.len() {
                old(self).cursor + 1
            } else {
                old(self).cursor as int
            }),
    {
        if self.entries.len() > 0 && self.cursor < self.entries.len() - 1 {
            self.cursor = self.cursor + 1;
        }
    }

    /// To the first entry.
    pub fn cursor_to_top(&mut self)
        ensures
            final(self).wf(),
            final(self).entries == old(self).entries,
            final(self).diffs == old(self).diffs,
            final(self).cursor == 0,
    {
        self.cursor = 0;
    }

    /// To the last entry.
    pub fn cursor_to_bottom(&mut self)
        ensures
            final(self).wf(),
            final(self).entries == old(self).entries,
            final(self).diffs == old(self).diffs,
            final(self).cursor == last_place(old(self).entries@.len()),
    {
        self.cursor = if self.entries.len() == 0 {
            0
        } else {
            self.entries.len() - 1
        };
    }
}

/// What chrono prints for the hour, minute and second of a time in UTC; `None` where the
/// time is outside chrono's range.
pub uninterp spec fn clock(millis: i64) -> Option<Seq<char>>;

/// `chrono::TimeZone::timestamp_millis_opt` and `DateTime::format` with hour, minute and
/// second in UTC: a function of the number alone.
#[verifier::external_body]
fn clock_text(millis: i64) -> (r: Option<String>)
    ensures
        text::opt_view(r) == clock(millis),
{
    chrono::TimeZone::timestamp_millis_opt(&chrono::Utc, millis).single().map(
        |t| t.format("%H:%M:%S").to_string(),
    )
}

/// A time of day, or question marks where there is none.
pub fn clock_or_unknown(t: Option<String>) -> (r: String)
    ensures
        r@ == match t {
            Some(s) => s@,
            None => "??:??:??"@,
        },
{
    match t {
        Some(s) => s,
        None => "??:??:??".to_owned(),
    }
}

/// The time of day in UTC.
pub fn format_timestamp(ms: i64) -> (r: String)
    ensures
        r@ == match clock(ms) {
            Some(s) => s,
            None => "??:??:??"@,
        },
{
    clock_or_unknown(clock_text(ms))
}

/// The row of a snap: its number, its time and, where known, the lines it added and
/// removed.
pub open spec fn snap_row_of(
    selected: bool,
    n: u32,
    time: Seq<char>,
    counts: Option<(usize, usize)>,
) -> LineModel {
    let start = seq![
        theme::span_of(
            text::pad_left(text::decimal(n as nat), ' ', 4) + " "@,
            theme::fg_style(Color::Yellow),
        ),
        theme::span_of(time, theme::fg_style(Color::DarkGray)),
    ];
    LineModel {
        spans: match counts {
            Some((add, rem)) => start + seq![
                theme::span_of(
                    "  "@ + text::pad_left("+"@ + text::decimal(add as nat), ' ', 4) + " "@,
                    theme::fg_style(Color::Green),
                ),
                theme::span_of(
                    text::pad_left(text::decimal(rem as nat), ' ', 4) + " "@,
                    theme::fg_style(Color::Red),
                ),
            ],
            None => start + seq![theme::span_of("         "@, theme::no_style())],
        },
        style: if selected {
            Style { fg: None, bg: Some(Color::DarkGray), bold: true }
        } else {
            theme::no_style()
        },
    }
}

/// The row of a snap, given its time of day.
pub fn snap_row(selected: bool, n: u32, time: &str, counts: Option<(usize, usize)>) -> (r: Line)
    ensures
        r@ == snap_row_of(selected, n, time@, counts),
{
    let t = Theme;
    let mut spans: Vec<Span> = Vec::new();
    let digits = text::padded_left(text::decimal_of(n as u64).as_str(), ' ', 4);
    spans.push(Span::styled(text::concat(digits.as_str(), " "), t.snap_number()));
    spans.push(Span::of(time, t.timestamp()));
    match counts {
        Some((add, rem)) => {
            let plus = text::concat("+", text::decimal_of(add as u64).as_str());
            let a = text::padded_left(plus.as_str(), ' ', 4);
            spans.push(Span::styled(text::concat3("  ", a.as_str(), " "), t.added()));
            let b = text::padded_left(text::decimal_of(rem as u64).as_str(), ' ', 4);
            spans.push(Span::styled(text::concat(b.as_str(), " "), t.removed()));
        },
        None => {
            spans.push(Span::of("         ", t.normal()));
        },
    }
    assert(theme::span_models(spans@) =~= snap_row_of(selected, n, time@, counts).spans);
    let style = if selected {
        t.selected()
    } else {
        t.normal()
    };
    Line { spans, style }
}

impl SnapListState {
    /// The rows of the pane.
    pub fn rows(&self) -> (r: Vec<Line>)
        ensures
            r@.len() == self.entries@.len(),
            forall|i: int|
                0 <= i < r@.len() ==> (#[trigger] r@[i])@ == snap_row_of(
                    i == self.cursor,
                    self.entries@[i].n,
                    match clock(self.entries@[i].timestamp) {
                        Some(s) => s,
                        None => "??:??:??"@,
                    },
                    if self.diffs@.dom().contains(self.entries@[i].n) {
                        Some(self.diffs@[self.entries@[i].n])
                    } else {
                        None
                    },
                ),
    {
        broadcast use vstd::std_specs::hash::group_hash_axioms;

        let mut r: Vec<Line> = Vec::new();
        let mut i: usize = 0;
        while i < self.entries.len()
            invariant
                i <= self.entries.len(),
                r@.len() == i,
                forall|k: int|
                    0 <= k < i ==> (#[trigger] r@[k])@ == snap_row_of(
                        k == self.cursor,
                        self.entries@[k].n,
                        match clock(self.entries@[k].timestamp) {
                            Some(s) => s,
                            None => "??:??:??"@,
                        },
                        if self.diffs@.dom().contains(self.entries@[k].n) {
                            Some(self.diffs@[self.entries@[k].n])
                        } else {
                            None
                        },
                    ),
            decreases self.entries.len() - i,
        {
            broadcast use vstd::std_specs::hash::group_hash_axioms;

            let e = &self.entries[i];
            let counts: Option<(usize, usize)> = match self.diffs.get(&e.n) {
                Some(c) => Some(*c),
                None => None,
            };
            let time = format_timestamp(e.timestamp);
            r.push(snap_row(i == self.cursor, e.n, time.as_str(), counts));
            i += 1;
        }
        r
    }
}

proof fn lemma_counts_of(snaps: SnapStore, id: SessionId, entries: Seq<EntryModel>, k: int, i: int)
    requires
        0 <= i < k <= entries.len(),
    ensures
        counts_of(snaps, id, entries, k).dom().contains(entries[i].n),
        counts_of(snaps, id, entries, k)[entries[i].n] == line_counts(snaps, id, entries[i].n),
    decreases k,
{
    if i < k - 1 {
        lemma_counts_of(snaps, id, entries, k - 1, i);
    }
}

/// Each snap of a list is shown with the lines that were added and removed since the snap with
/// the number before it. The first snap counts nothing.
pub proof fn law_each_snap_has_its_counts(
    snaps: SnapStore,
    id: SessionId,
    entries: Seq<EntryModel>,
    i: int,
)
    requires
        0 <= i < entries.len(),
    ensures
        ({
            let n = entries[i].n;
            let counts = counts_of(snaps, id, entries, entries.len() as int);
            &&& counts.dom().contains(n)
            &&& n == 1 ==> counts[n] == (0usize, 0usize)
            &&& n > 1 ==> {
                let old = snaps.stored(id, (n - 1) as u32, 0)->0;
                let new = snaps.stored(id, n, 0)->0;
                old.meta is Present && new.meta is Present && snaps.stored(
                    id,
                    (n - 1) as u32,
                    0,
                ) is Some && snaps.stored(id, n, 0) is Some ==> counts[n].0
                    == crate::tree_diff::added_total(
                    old.meta->Present_0.files@,
                    old.tree@,
                    new.meta->Present_0.files@,
                    new.tree@,
                ) as usize && counts[n].1 == crate::tree_diff::removed_total(
                    old.meta->Present_0.files@,
                    old.tree@,
                    new.meta->Present_0.files@,
                    new.tree@,
                ) as usize
            }
        }),
{
    lemma_counts_of(snaps, id, entries, entries.len() as int, i);
}

/// The row of a snap shows its number, its time, the lines it added behind a `+`, and those it
/// removed. The row under the cursor stands out.
pub proof fn law_row_shows_number_time_and_counts(
    selected: bool,
    n: u32,
    time: Seq<char>,
    add: usize,
    rem: usize,
)
    ensures
        ({
            let r = snap_row_of(selected, n, time, Some((add, rem)));
            &&& text::trim_end(r.spans[0].text) == text::trim_end(
                text::pad_left(text::decimal(n as nat), ' ', 4) + seq![' '],
            )
            &&& r.spans[1].text == time
            &&& r.spans[2].text == seq![' ', ' '] + text::pad_left(
                seq!['+'] + text::decimal(add as nat),
                ' ',
                4,
            ) + seq![' ']
            &&& r.spans[3].text == text::pad_left(text::decimal(rem as nat), ' ', 4) + seq![' ']
            &&& r.style.bold == selected
            &&& r.style.bg is Some == selected
        }),
{
    reveal_strlit(" ");
    reveal_strlit("  ");
    reveal_strlit("+");
    let r = snap_row_of(selected, n, time, Some((add, rem)));
    assert(" "@ =~= seq![' ']);
    assert("  "@ =~= seq![' ', ' ']);
    assert("+"@ =~= seq!['+']);
}

} // verus!
