//! Styled text: colours, spans and lines, and the styles of the interface.

use vstd::prelude::*;

verus! {

/// A colour of the terminal.
#[derive(Clone, Copy, Debug, PartialEq, Eq, Structural)]
pub enum Color {
    Reset,
    Red,
    Green,
    Yellow,
    Cyan,
    Gray,
    DarkGray,
    LightRed,
    LightGreen,
    Rgb(u8, u8, u8),
}

/// How text looks.
#[derive(Clone, Copy, Debug, PartialEq, Eq, Structural)]
pub struct Style {
    pub fg: Option<Color>,
    pub bg: Option<Color>,
    pub bold: bool,
}

/// A run of text in one style.
#[derive(Debug)]
pub struct Span {
    pub text: String,
    pub style: Style,
}

/// A line of spans. The style of the line lies under that of its spans.
#[derive(Debug)]
pub struct Line {
    pub spans: Vec<Span>,
    pub style: Style,
}

/// What a span shows.
#[verifier::ext_equal]
pub struct SpanModel {
    pub text: Seq<char>,
    pub style: Style,
}

/// What a line shows.
#[verifier::ext_equal]
pub struct LineModel {
    pub spans: Seq<SpanModel>,
    pub style: Style,
}

impl View for Span {
    type V = SpanModel;

    open spec fn view(&self) -> SpanModel {
        SpanModel { text: self.text@, style: self.style }
    }
}

/// What spans show.
pub open spec fn span_models(spans: Seq<Span>) -> Seq<SpanModel> {
    Seq::new(spans.len(), |i: int| spans[i]@)
}

impl View for Line {
    type V = LineModel;

    open spec fn view(&self) -> LineModel {
        LineModel { spans: span_models(self.spans@), style: self.style }
    }
}

/// What lines show.
pub open spec fn line_models(lines: Seq<Line>) -> Seq<LineModel> {
    Seq::new(lines.len(), |i: int| lines[i]@)
}

/// A style with nothing set.
pub open spec fn no_style() -> Style {
    Style { fg: None, bg: None, bold: false }
}

/// A style with this colour of text.
pub open spec fn fg_style(c: Color) -> Style {
    Style { fg: Some(c), bg: None, bold: false }
}

/// A style with this colour of background.
pub open spec fn bg_style(c: Color) -> Style {
    Style { fg: None, bg: Some(c), bold: false }
}

/// A style with this colour of text, in bold.
pub open spec fn bold_style(c: Color) -> Style {
    Style { fg: Some(c), bg: None, bold: true }
}

/// The text of a span in a style.
pub open spec fn span_of(text: Seq<char>, style: Style) -> SpanModel {
    SpanModel { text, style }
}

/// The background of lines that were added.
pub open spec fn added_bg() -> Color {
    Color::Rgb(0, 60, 0)
}

/// The background of lines that were removed.
pub open spec fn removed_bg() -> Color {
    Color::Rgb(70, 0, 0)
}

/// The colour of names and keys.
pub open spec fn accent() -> Color {
    Color::Cyan
}

/// The colour of what matters less.
pub open spec fn muted_color() -> Color {
    Color::DarkGray
}

/// The background of the top line.
pub open spec fn scrubber_bg() -> Color {
    Color::Rgb(30, 30, 40)
}

/// The background of the bottom line.
pub open spec fn status_bg() -> Color {
    Color::Rgb(40, 40, 50)
}

/// The colour of text in the bottom line.
pub open spec fn status_fg() -> Color {
    Color::Gray
}

/// The colour of a warning.
pub open spec fn warning() -> Color {
    Color::Yellow
}

/// The colours of the interface.
pub struct Palette;

impl Palette {
    pub fn added_bg() -> (r: Color)
        ensures
            r == added_bg(),
    {
        Color::Rgb(0, 60, 0)
    }

    pub fn removed_bg() -> (r: Color)
        ensures
            r == removed_bg(),
    {
        Color::Rgb(70, 0, 0)
    }

    pub fn accent() -> (r: Color)
        ensures
            r == accent(),
    {
        Color::Cyan
    }

    pub fn muted() -> (r: Color)
        ensures
            r == muted_color(),
    {
        Color::DarkGray
    }

    pub fn scrubber_bg() -> (r: Color)
        ensures
            r == scrubber_bg(),
    {
        Color::Rgb(30, 30, 40)
    }

    pub fn status_bg() -> (r: Color)
        ensures
            r == status_bg(),
    {
        Color::Rgb(40, 40, 50)
    }

    pub fn status_fg() -> (r: Color)
        ensures
            r == status_fg(),
    {
        Color::Gray
    }

    pub fn warning() -> (r: Color)
        ensures
            r == warning(),
    {
        Color::Yellow
    }
}

impl Style {
    /// A style with nothing set.
    pub fn plain() -> (r: Style)
        ensures
            r == no_style(),
    {
        Style { fg: None, bg: None, bold: false }
    }

    /// A style with this colour of text.
    pub fn fg(c: Color) -> (r: Style)
        ensures
            r == fg_style(c),
    {
        Style { fg: Some(c), bg: None, bold: false }
    }

    /// A style with this colour of background.
    pub fn bg(c: Color) -> (r: Style)
        ensures
            r == bg_style(c),
    {
        Style { fg: None, bg: Some(c), bold: false }
    }

    /// A style with this colour of text, in bold.
    pub fn bold(c: Color) -> (r: Style)
        ensures
            r == bold_style(c),
    {
        Style { fg: Some(c), bg: None, bold: true }
    }
}

impl Span {
    /// A run of text in a style.
    pub fn styled(text: String, style: Style) -> (r: Span)
        ensures
            r@ == span_of(text@, style),
    {
        Span { text, style }
    }

    /// A run of fixed text in a style.
    pub fn of(text: &str, style: Style) -> (r: Span)
        ensures
            r@ == span_of(text@, style),
    {
        Span { text: text.to_owned(), style }
    }

    /// A second value that shows the same.
    pub fn copy(&self) -> (r: Span)
        ensures
            r@ == self@,
    {
        Span { text: self.text.clone(), style: self.style }
    }
}

impl Line {
    /// A line of these spans, with no style of its own.
    pub fn of(spans: Vec<Span>) -> (r: Line)
        ensures
            r@ == (LineModel { spans: span_models(spans@), style: no_style() }),
    {
        Line { spans, style: Style::plain() }
    }

    /// A second value that shows the same.
    pub fn copy(&self) -> (r: Line)
        ensures
            r@ == self@,
    {
        let mut spans: Vec<Span> = Vec::new();
        let mut i: usize = 0;
        while i < self.spans.len()
            invariant
                i <= self.spans.len(),
                span_models(spans@) =~= span_models(self.spans@).take(i as int),
            decreases self.spans.len() - i,
        {
            let c = self.spans[i].copy();
            let ghost before = spans@;
            spans.push(c);
            assert(span_models(spans@) =~= span_models(before).push(c@));
            i += 1;
        }
        let r = Line { spans, style: self.style };
        assert(r@ =~= self@);
        r
    }
}

/// Copies lines.
pub fn copy_lines(lines: &Vec<Line>) -> (r: Vec<Line>)
    ensures
        line_models(r@) == line_models(lines@),
{
    let mut r: Vec<Line> = Vec::new();
    let mut i: usize = 0;
    while i < lines.len()
        invariant
            i <= lines.len(),
            line_models(r@) =~= line_models(lines@).take(i as int),
        decreases lines.len() - i,
    {
        let c = lines[i].copy();
        let ghost before = r@;
        r.push(c);
        assert(line_models(r@) =~= line_models(before).push(c@));
        i += 1;
    }
    assert(line_models(r@) =~= line_models(lines@));
    r
}

/// The styles of the two-pane view.
#[derive(Clone, Copy, Debug, PartialEq, Eq, Structural)]
pub struct Theme;

impl Default for Theme {
    fn default() -> (r: Theme)
        ensures
            r == Theme,
    {
        Theme
    }
}

impl Theme {
    pub fn normal(&self) -> (r: Style)
        ensures
            r == no_style(),
    {
        Style::plain()
    }

    pub fn muted(&self) -> (r: Style)
        ensures
            r == fg_style(Color::DarkGray),
    {
        Style::fg(Color::DarkGray)
    }

    pub fn border(&self) -> (r: Style)
        ensures
            r == fg_style(Color::DarkGray),
    {
        Style::fg(Color::DarkGray)
    }

    pub fn title(&self) -> (r: Style)
        ensures
            r == bold_style(Color::Cyan),
    {
        Style::bold(Color::Cyan)
    }

    pub fn status_bar(&self) -> (r: Style)
        ensures
            r == bg_style(Color::DarkGray),
    {
        Style::bg(Color::DarkGray)
    }

    pub fn status_title(&self) -> (r: Style)
        ensures
            r == bold_style(Color::Cyan),
    {
        Style::bold(Color::Cyan)
    }

    pub fn status_hint(&self) -> (r: Style)
        ensures
            r == fg_style(Color::Gray),
    {
        Style::fg(Color::Gray)
    }

    pub fn selected(&self) -> (r: Style)
        ensures
            r == (Style { fg: None, bg: Some(Color::DarkGray), bold: true }),
    {
        Style { fg: None, bg: Some(Color::DarkGray), bold: true }
    }

    pub fn snap_number(&self) -> (r: Style)
        ensures
            r == fg_style(Color::Yellow),
    {
        Style::fg(Color::Yellow)
    }

    pub fn timestamp(&self) -> (r: Style)
        ensures
            r == fg_style(Color::DarkGray),
    {
        Style::fg(Color::DarkGray)
    }

    pub fn added(&self) -> (r: Style)
        ensures
            r == fg_style(Color::Green),
    {
        Style::fg(Color::Green)
    }

    pub fn removed(&self) -> (r: Style)
        ensures
            r == fg_style(Color::Red),
    {
        Style::fg(Color::Red)
    }

    pub fn added_line_no(&self) -> (r: Style)
        ensures
            r == fg_style(Color::LightGreen),
    {
        Style::fg(Color::LightGreen)
    }

    pub fn removed_line_no(&self) -> (r: Style)
        ensures
            r == fg_style(Color::LightRed),
    {
        Style::fg(Color::LightRed)
    }

    pub fn file_header(&self) -> (r: Style)
        ensures
            r == bold_style(Color::Cyan),
    {
        Style::bold(Color::Cyan)
    }
}

} // verus!
