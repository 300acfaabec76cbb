//! A scrolled view of styled lines, and where the spans of a line go on the screen.

use crate::tui::theme;
use crate::tui::theme::{Color, Line, LineModel, Span, SpanModel, Style};
use vstd::prelude::*;

verus! {

/// Lines and how far they are scrolled.
#[derive(Debug)]
pub struct FileViewState {
    pub lines: Vec<Line>,
    pub scroll: u16,
}

impl Default for FileViewState {
    fn default() -> (r: FileViewState)
        ensures
            r.lines@.len() == 0,
            r.scroll == 0,
    {
        FileViewState { lines: Vec::new(), scroll: 0 }
    }
}

/// How far a view of `total` lines can be scrolled where `visible` of them fit.
pub open spec fn clamped(scroll: u16, total: u16, visible: u16) -> u16 {
    if total > visible {
        if scroll > total - visible {
            (total - visible) as u16
        } else {
            scroll
        }
    } else {
        0
    }
}

impl FileViewState {
    /// Scrolls back as far as needed for the last lines to fill the view, and to the top
    /// where all lines fit.
    pub fn clamp(&mut self, visible: u16)
        ensures
            final(self).lines == old(self).lines,
            final(self).scroll == clamped(
                old(self).scroll,
                old(self).lines@.len() as usize as u16,
                visible,
            ),
    {
        let total: u16 = self.lines.len() as u16;
        if total > visible {
            let max_scroll: u16 = total - visible;
            if self.scroll > max_scroll {
                self.scroll = max_scroll;
            }
        } else {
            self.scroll = 0;
        }
    }

    /// The lines in view: from the first to before the second number.
    pub fn in_view(&self, visible: u16) -> (r: (usize, usize))
        ensures
            r.0 <= r.1 <= self.lines@.len(),
            r.0 == (if self.scroll < self.lines@.len() {
                self.scroll as int
            } else {
                self.lines@.len() as int
            }),
            r.1 == (if self.scroll + visible < self.lines@.len() {
                self.scroll + visible
            } else {
                self.lines@.len() as int
            }),
    {
        let n: usize = self.lines.len();
        let from: usize = if (self.scroll as usize) < n {
            self.scroll as usize
        } else {
            n
        };
        let to: usize = if n - from > visible as usize {
            from + visible as usize
        } else {
            n
        };
        (from, to)
    }
}

/// After clamping, the view holds as many lines as fit, and never runs past the last line.
pub proof fn law_clamped_view_is_full(scroll: u16, total: u16, visible: u16)
    ensures
        clamped(scroll, total, visible) + visible <= total || clamped(scroll, total, visible) == 0,
        clamped(clamped(scroll, total, visible), total, visible) == clamped(scroll, total, visible),
        clamped(scroll, total, visible) <= scroll,
{
}

/// The width of a text on the screen, in cells.
pub uninterp spec fn display_width(s: Seq<char>) -> usize;

/// `unicode_width::UnicodeWidthStr::width`: the cells that a text takes, a function of the
/// text.
#[verifier::external_body]
fn width_of(s: &str) -> (r: usize)
    ensures
        r == display_width(s@),
{
    unicode_width::UnicodeWidthStr::width(s)
}

/// A text to be written at a column, cut to a number of cells.
#[derive(Debug)]
pub struct SpanWrite {
    pub x: u16,
    pub text: String,
    pub cells: usize,
    pub style: Style,
}

/// A text to be written, as characters.
#[verifier::ext_equal]
pub struct WriteModel {
    pub x: u16,
    pub text: Seq<char>,
    pub cells: usize,
    pub style: Style,
}

impl View for SpanWrite {
    type V = WriteModel;

    open spec fn view(&self) -> WriteModel {
        WriteModel { x: self.x, text: self.text@, cells: self.cells, style: self.style }
    }
}

/// What is to be written, as characters.
pub open spec fn write_models(w: Seq<SpanWrite>) -> Seq<WriteModel> {
    Seq::new(w.len(), |i: int| w[i]@)
}

/// The style of the cells of a span: where the line has a background and the span has
/// none, the background of the line.
pub open spec fn cell_style(row: Style, span: Style) -> Style {
    if row.bg is Some && (span.bg is None || span.bg == Some(Color::Reset)) {
        Style { bg: row.bg, ..span }
    } else {
        span
    }
}

/// What is written of the spans from `k` on, starting at column `x`, and the column
/// behind what fits. A span that does not fit whole is cut, and is the last.
pub open spec fn laid_out(
    spans: Seq<SpanModel>,
    widths: Seq<usize>,
    row: Style,
    k: int,
    x: u16,
    end: u16,
) -> (Seq<WriteModel>, u16)
    decreases spans.len() - k,
{
    if k >= spans.len() || x >= end {
        (Seq::empty(), x)
    } else {
        let room = (end - x) as usize;
        let style = cell_style(row, spans[k].style);
        if widths[k] <= room {
            let (rest, at) = laid_out(
                spans,
                widths,
                row,
                k + 1,
                (x + widths[k]) as u16,
                end,
            );
            (
                seq![WriteModel { x, text: spans[k].text, cells: widths[k], style }] + rest,
                at,
            )
        } else {
            (seq![WriteModel { x, text: spans[k].text, cells: room, style }], x)
        }
    }
}

/// What is to be written of a line.
#[derive(Debug)]
pub struct LineLayout {
    pub writes: Vec<SpanWrite>,
    /// The cells from here up to `fill_to` get the background of the line, where it has
    /// one.
    pub fill_from: u16,
    pub fill_to: u16,
    pub fill: Option<Color>,
}

/// The column behind the last one, or the last there is.
pub open spec fn end_of(x: u16, max_width: u16) -> u16 {
    if x + max_width > u16::MAX {
        u16::MAX
    } else {
        (x + max_width) as u16
    }
}

/// Where the spans of a line go, given their widths: side by side from column `x`, in at
/// most `max_width` cells. The rest of the row gets the background of the line.
pub fn layout_with(line: &Line, widths: &Vec<usize>, x: u16, max_width: u16) -> (r: LineLayout)
    requires
        widths@.len() == line.spans@.len(),
    ensures
        (write_models(r.writes@), r.fill_from) == laid_out(
            line@.spans,
            widths@,
            line.style,
            0,
            x,
            end_of(x, max_width),
        ),
        r.fill_to == end_of(x, max_width),
        r.fill == line.style.bg,
{
    let end: u16 = x.saturating_add(max_width);
    let mut writes: Vec<SpanWrite> = Vec::new();
    let mut at: u16 = x;
    let mut k: usize = 0;
    let ghost whole = laid_out(line@.spans, widths@, line.style, 0, x, end);
    assert(write_models(writes@) + whole.0 =~= whole.0);
    while k < line.spans.len() && at < end
        invariant
            k <= line.spans.len(),
            widths@.len() == line.spans@.len(),
            end == end_of(x, max_width),
            whole == laid_out(line@.spans, widths@, line.style, 0, x, end),
            write_models(writes@) + laid_out(
                line@.spans,
                widths@,
                line.style,
                k as int,
                at,
                end,
            ).0 == whole.0,
            laid_out(line@.spans, widths@, line.style, k as int, at, end).1 == whole.1,
        decreases line.spans.len() - k,
    {
        let span = &line.spans[k];
        let room: usize = (end - at) as usize;
        let style = match (line.style.bg, span.style.bg) {
            (Some(bg), None) | (Some(bg), Some(Color::Reset)) => Style {
                fg: span.style.fg,
                bg: Some(bg),
                bold: span.style.bold,
            },
            _ => span.style,
        };
        assert(line@.spans[k as int] == span@);
        assert(style == cell_style(line.style, span.style));
        let ghost before = writes@;
        let w: usize = widths[k];
        if w <= room {
            let s = SpanWrite { x: at, text: span.text.clone(), cells: w, style };
            writes.push(s);
            let ghost rest = laid_out(
                line@.spans,
                widths@,
                line.style,
                k + 1,
                (at + w) as u16,
                end,
            );
            assert(write_models(writes@) =~= write_models(before).push(s@));
            assert(write_models(before) + (seq![s@] + rest.0) =~= write_models(writes@) + rest.0);
            at = at + w as u16;
            k += 1;
        } else {
            let s = SpanWrite { x: at, text: span.text.clone(), cells: room, style };
            writes.push(s);
            assert(write_models(writes@) =~= write_models(before).push(s@));
            assert(write_models(before) + seq![s@] =~= write_models(writes@));
            return LineLayout { writes, fill_from: at, fill_to: end, fill: line.style.bg };
        }
    }
    assert(write_models(writes@) + Seq::<WriteModel>::empty() =~= write_models(writes@));
    LineLayout { writes, fill_from: at, fill_to: end, fill: line.style.bg }
}

/// The widths of spans on the screen.
pub open spec fn widths_of(spans: Seq<SpanModel>) -> Seq<usize> {
    Seq::new(spans.len(), |i: int| display_width(spans[i].text))
}

/// Where the spans of a line go.
pub fn layout_line(line: &Line, x: u16, max_width: u16) -> (r: LineLayout)
    ensures
        (write_models(r.writes@), r.fill_from) == laid_out(
            line@.spans,
            widths_of(line@.spans),
            line.style,
            0,
            x,
            end_of(x, max_width),
        ),
        r.fill_to == end_of(x, max_width),
        r.fill == line.style.bg,
{
    let mut widths: Vec<usize> = Vec::new();
    let mut i: usize = 0;
    while i < line.spans.len()
        invariant
            i <= line.spans.len(),
            widths@ =~= widths_of(line@.spans).take(i as int),
        decreases line.spans.len() - i,
    {
        assert(line@.spans[i as int] == line.spans@[i as int]@);
        widths.push(width_of(line.spans[i].text.as_str()));
        i += 1;
    }
    assert(widths@ =~= widths_of(line@.spans));
    layout_with(line, &widths, x, max_width)
}

/// What is written stays in the row: it starts at or behind `x`, and no write goes past
/// the end.
pub proof fn law_layout_stays_in_the_row(
    spans: Seq<SpanModel>,
    widths: Seq<usize>,
    row: Style,
    k: int,
    x: u16,
    end: u16,
)
    requires
        widths.len() == spans.len(),
        0 <= k,
        x <= end,
    ensures
        x <= laid_out(spans, widths, row, k, x, end).1 <= end,
        forall|i: int|
            0 <= i < laid_out(spans, widths, row, k, x, end).0.len() ==> x <= (
            #[trigger] laid_out(spans, widths, row, k, x, end).0[i]).x && laid_out(
                spans,
                widths,
                row,
                k,
                x,
                end,
            ).0[i].x + laid_out(spans, widths, row, k, x, end).0[i].cells <= end,
    decreases spans.len() - k,
{
    if k < spans.len() && x < end && widths[k] <= end - x {
        let next = (x + widths[k]) as u16;
        law_layout_stays_in_the_row(spans, widths, row, k + 1, next, end);
        let rest = laid_out(spans, widths, row, k + 1, next, end).0;
        let all = laid_out(spans, widths, row, k, x, end).0;
        assert forall|i: int| 0 <= i < all.len() implies x <= (#[trigger] all[i]).x && all[i].x
            + all[i].cells <= end by {
            if i > 0 {
                assert(all[i] == rest[i - 1]);
            }
        }
    }
}

/// Clamping leaves a view alone that ends at or before the last line, goes to the top where all
/// lines fit, and otherwise goes to where the last line ends the view.
pub proof fn law_clamping_goes_no_further_than_needed(scroll: u16, total: u16, visible: u16)
    ensures
        scroll + visible <= total ==> clamped(scroll, total, visible) == scroll,
        total <= visible ==> clamped(scroll, total, visible) == 0,
        visible < total && scroll + visible > total ==> clamped(scroll, total, visible) == total
            - visible,
{
}

/// The widths of the first `k` spans, together.
pub open spec fn width_up_to(widths: Seq<usize>, k: int) -> int
    decreases k,
{
    if k <= 0 {
        0
    } else {
        width_up_to(widths, k - 1) + widths[k - 1]
    }
}

proof fn lemma_width_up_to(widths: Seq<usize>, i: int, j: int)
    requires
        0 <= i <= j <= widths.len(),
    ensures
        0 <= width_up_to(widths, i) <= width_up_to(widths, j),
    decreases j,
{
    if i < j {
        lemma_width_up_to(widths, i, j - 1);
    } else if i > 0 {
        lemma_width_up_to(widths, i - 1, i - 1);
    }
}

proof fn lemma_layout_whole(
    spans: Seq<SpanModel>,
    widths: Seq<usize>,
    row: Style,
    k: int,
    x: u16,
    start: int,
    end: u16,
    i: int,
)
    requires
        widths.len() == spans.len(),
        0 <= k <= i < spans.len(),
        x == start + width_up_to(widths, k),
        start + width_up_to(widths, spans.len() as int) < end,
    ensures
        ({
            let w = laid_out(spans, widths, row, k, x, end).0;
            &&& w.len() == spans.len() - k
            &&& w[i - k].text == spans[i].text
            &&& w[i - k].x == start + width_up_to(widths, i)
            &&& w[i - k].cells == widths[i]
            &&& w[i - k].style == cell_style(row, spans[i].style)
        }),
    decreases spans.len() - k,
{
    lemma_width_up_to(widths, k + 1, spans.len() as int);
    lemma_width_up_to(widths, k, k + 1);
    let next = (x + widths[k]) as u16;
    assert(width_up_to(widths, k + 1) == width_up_to(widths, k) + widths[k]);
    let rest = laid_out(spans, widths, row, k + 1, next, end).0;
    let w = laid_out(spans, widths, row, k, x, end).0;
    if k + 1 < spans.len() {
        let j = if i > k {
            i
        } else {
            k + 1
        };
        lemma_layout_whole(spans, widths, row, k + 1, next, start, end, j);
        if i > k {
            assert(w[i - k] == rest[i - k - 1]);
        }
    }
}

/// Spans that fit into the row are all written, whole and side by side, each in its own style
/// but on the background of the row where it has none.
pub proof fn law_spans_that_fit_are_written_whole(
    spans: Seq<SpanModel>,
    widths: Seq<usize>,
    row: Style,
    x: u16,
    end: u16,
    i: int,
)
    requires
        widths.len() == spans.len(),
        0 <= i < spans.len(),
        x + width_up_to(widths, spans.len() as int) < end,
    ensures
        ({
            let w = laid_out(spans, widths, row, 0, x, end).0;
            &&& w.len() == spans.len()
            &&& w[i].text == spans[i].text
            &&& w[i].x == x + width_up_to(widths, i)
            &&& w[i].cells == widths[i]
            &&& w[i].style.fg == spans[i].style.fg
            &&& w[i].style.bold == spans[i].style.bold
            &&& spans[i].style.bg is None ==> w[i].style.bg == row.bg
            &&& spans[i].style.bg is Some && spans[i].style.bg != Some(Color::Reset)
                ==> w[i].style.bg == spans[i].style.bg
        }),
{
    lemma_layout_whole(spans, widths, row, 0, x, x as int, end, i);
}

/// A row ends its width behind its start, or at the last column.
pub proof fn law_row_ends_behind_its_width(x: u16, max_width: u16)
    ensures
        x + max_width <= 65535 ==> end_of(x, max_width) == x + max_width,
        x + max_width > 65535 ==> end_of(x, max_width) == 65535,
{
}

} // verus!
