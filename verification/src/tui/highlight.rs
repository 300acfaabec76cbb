//! Syntax colours with the diff under them.
//!
//! The colour of text comes from `syntect`, the background of a row from the diff
//! between a snap and the one before it.

use crate::diff;
use crate::diff::{ChangeModel, ChangeTag, LineChange};
use crate::path;
use crate::path::FsPath;
use crate::text;
use crate::tui::theme;
use crate::tui::theme::{Color, Line, LineModel, Palette, Span, SpanModel, Style};
use vstd::prelude::*;

verus! {

/// `syntect::parsing::SyntaxSet`: the known syntaxes.
#[verifier::external_type_specification]
#[verifier::external_body]
pub struct ExSyntaxSet(syntect::parsing::SyntaxSet);

/// `syntect::parsing::SyntaxReference`: one syntax of a set.
#[verifier::external_type_specification]
#[verifier::external_body]
pub struct ExSyntaxReference(syntect::parsing::SyntaxReference);

/// `syntect::highlighting::ThemeSet`: the known colour themes.
#[verifier::external_type_specification]
#[verifier::external_body]
pub struct ExThemeSet(syntect::highlighting::ThemeSet);

/// `SyntaxSet::load_defaults_newlines`: the syntaxes that come with `syntect`. Nothing is
/// claimed of them.
#[verifier::external_body]
fn default_syntaxes() -> (r: syntect::parsing::SyntaxSet) {
    syntect::parsing::SyntaxSet::load_defaults_newlines()
}

/// `ThemeSet::load_defaults`: the themes that come with `syntect`. Nothing is claimed of
/// them.
#[verifier::external_body]
fn default_themes() -> (r: syntect::highlighting::ThemeSet) {
    syntect::highlighting::ThemeSet::load_defaults()
}

/// Whether a set has a theme under this key.
pub uninterp spec fn has_theme(set: syntect::highlighting::ThemeSet, key: Seq<char>) -> bool;

/// The first key of a set of themes.
pub uninterp spec fn first_theme(set: syntect::highlighting::ThemeSet) -> Option<Seq<char>>;

/// The name that the theme under a key gives itself.
pub uninterp spec fn theme_title(set: syntect::highlighting::ThemeSet, key: Seq<char>) -> Option<
    Seq<char>,
>;

/// The syntax of a set for files with this extension.
pub uninterp spec fn syntax_by_extension(set: syntect::parsing::SyntaxSet, ext: Seq<char>) -> Option<
    syntect::parsing::SyntaxReference,
>;

/// The syntax of a set for files that begin with this line.
pub uninterp spec fn syntax_by_first_line(set: syntect::parsing::SyntaxSet, line: Seq<char>) -> Option<
    syntect::parsing::SyntaxReference,
>;

/// The pieces of a line with the red, green and blue of their colours.
pub uninterp spec fn colored(
    syntaxes: syntect::parsing::SyntaxSet,
    themes: syntect::highlighting::ThemeSet,
    key: Seq<char>,
    syntax: syntect::parsing::SyntaxReference,
    line: Seq<char>,
) -> Seq<(u8, u8, u8, Seq<char>)>;

/// A lookup in the map `themes` of a `ThemeSet`.
#[verifier::external_body]
fn knows_theme(set: &syntect::highlighting::ThemeSet, key: &str) -> (r: bool)
    ensures
        r == has_theme(*set, key@),
{
    set.themes.contains_key(key)
}

/// The first key of the map `themes` of a `ThemeSet`. A theme stands under it.
#[verifier::external_body]
fn any_theme(set: &syntect::highlighting::ThemeSet) -> (r: Option<String>)
    ensures
        text::opt_view(r) == first_theme(*set),
        r matches Some(key) ==> has_theme(*set, key@),
{
    set.themes.keys().next().cloned()
}

/// The field `name` of the `Theme` under a key.
#[verifier::external_body]
fn title_of(set: &syntect::highlighting::ThemeSet, key: &str) -> (r: Option<String>)
    requires
        has_theme(*set, key@),
    ensures
        text::opt_view(r) == theme_title(*set, key@),
{
    set.themes[key].name.clone()
}

/// `SyntaxSet::find_syntax_by_extension`.
#[verifier::external_body]
fn find_by_extension(set: &syntect::parsing::SyntaxSet, ext: &str) -> (r: Option<
    syntect::parsing::SyntaxReference,
>)
    ensures
        r == syntax_by_extension(*set, ext@),
{
    set.find_syntax_by_extension(ext).cloned()
}

/// `SyntaxSet::find_syntax_by_first_line`.
#[verifier::external_body]
fn find_by_first_line(set: &syntect::parsing::SyntaxSet, line: &str) -> (r: Option<
    syntect::parsing::SyntaxReference,
>)
    ensures
        r == syntax_by_first_line(*set, line@),
{
    set.find_syntax_by_first_line(line).cloned()
}

/// `Clone` of a `SyntaxReference`: the same syntax.
#[verifier::external_body]
fn copy_syntax(s: &Option<syntect::parsing::SyntaxReference>) -> (r: Option<
    syntect::parsing::SyntaxReference,
>)
    ensures
        r == *s,
{
    s.clone()
}

/// Whether a syntax is one of a set: it was found there.
pub open spec fn of_set(set: syntect::parsing::SyntaxSet, s: syntect::parsing::SyntaxReference) -> bool {
    ||| exists|ext: Seq<char>| #[trigger] syntax_by_extension(set, ext) == Some(s)
    ||| exists|line: Seq<char>| #[trigger] syntax_by_first_line(set, line) == Some(s)
}

/// A piece of a line with the red, green and blue of its colour.
#[derive(Debug)]
pub struct Run {
    pub r: u8,
    pub g: u8,
    pub b: u8,
    pub text: String,
}

/// The pieces of a line, their texts as characters.
pub open spec fn run_models(runs: Seq<Run>) -> Seq<(u8, u8, u8, Seq<char>)> {
    Seq::new(runs.len(), |i: int| (runs[i].r, runs[i].g, runs[i].b, runs[i].text@))
}

/// `HighlightLines::new` and `HighlightLines::highlight_line` on a single line: its pieces
/// with their colours, none where the line cannot be parsed. A function of the syntaxes,
/// the theme, the syntax and the line. That the pieces make up the line is not claimed:
/// the iterator behind it may end early.
#[verifier::external_body]
fn color_line(
    syntaxes: &syntect::parsing::SyntaxSet,
    themes: &syntect::highlighting::ThemeSet,
    key: &str,
    syntax: &syntect::parsing::SyntaxReference,
    line: &str,
) -> (r: Vec<Run>)
    requires
        has_theme(*themes, key@),
        of_set(*syntaxes, *syntax),
    ensures
        run_models(r@) == colored(*syntaxes, *themes, key@, *syntax, line@),
{
    let mut h = syntect::easy::HighlightLines::new(syntax, &themes.themes[key]);
    let runs = h.highlight_line(line, syntaxes).unwrap_or_default();
    runs.into_iter().map(|(style, text)| Run {
        r: style.foreground.r,
        g: style.foreground.g,
        b: style.foreground.b,
        text: text.to_string(),
    }).collect()
}

/// The theme used where the wanted one is not known.
pub const FALLBACK_THEME: &'static str = "base16-eighties.dark";

/// The key of the wanted theme, or else of the fallback, or else of the first there is.
pub open spec fn pick_theme(set: syntect::highlighting::ThemeSet, name: Seq<char>) -> Option<
    Seq<char>,
> {
    if has_theme(set, name) {
        Some(name)
    } else if has_theme(set, FALLBACK_THEME@) {
        Some(FALLBACK_THEME@)
    } else {
        first_theme(set)
    }
}

/// Picks a theme of a set.
pub fn choose_theme(set: &syntect::highlighting::ThemeSet, name: &str) -> (r: Option<String>)
    ensures
        text::opt_view(r) == pick_theme(*set, name@),
        r matches Some(key) ==> has_theme(*set, key@),
{
    if knows_theme(set, name) {
        return Some(name.to_owned());
    }
    if knows_theme(set, FALLBACK_THEME) {
        return Some(FALLBACK_THEME.to_owned());
    }
    any_theme(set)
}

/// The syntaxes and the theme in use, and the syntaxes that were already looked up.
pub struct HighlightEngine {
    pub syntax_set: syntect::parsing::SyntaxSet,
    pub theme_set: syntect::highlighting::ThemeSet,
    /// The key of the theme in use.
    pub theme: String,
    /// The name that the theme gives itself, or the one that was asked for.
    pub theme_name: String,
    /// What was found for each extension.
    pub cache: Vec<(String, Option<syntect::parsing::SyntaxReference>)>,
}

/// What a cache holds for an extension, from place `k` on.
pub open spec fn cached(
    cache: Seq<(String, Option<syntect::parsing::SyntaxReference>)>,
    ext: Seq<char>,
    k: int,
) -> Option<Option<syntect::parsing::SyntaxReference>>
    decreases cache.len() - k,
{
    if k >= cache.len() {
        None
    } else if cache[k].0@ == ext {
        Some(cache[k].1)
    } else {
        cached(cache, ext, k + 1)
    }
}

/// What looking up the syntax for a path does to an engine: where nothing was found for its
/// extension yet, what was found now is kept, and nothing else changes.
pub open spec fn looked_up(before: HighlightEngine, after: HighlightEngine, p: Seq<char>) -> bool {
    &&& after.syntax_set == before.syntax_set
    &&& after.theme_set == before.theme_set
    &&& after.theme == before.theme
    &&& after.theme_name == before.theme_name
    &&& match cached(before.cache@, extension_key(p), 0) {
        Some(_) => after.cache == before.cache,
        None => {
            &&& after.cache@.len() == before.cache@.len() + 1
            &&& after.cache@.drop_last() == before.cache@
            &&& after.cache@.last().0@ == extension_key(p)
            &&& after.cache@.last().1 == before.syntax_of(p)
        },
    }
}

/// The extension of a path in lower case, or nothing.
pub open spec fn extension_key(p: Seq<char>) -> Seq<char> {
    match path::extension_of(path::path_of(p)) {
        Some(e) => text::lowered(e),
        None => Seq::empty(),
    }
}

/// The syntax for an extension, or for a first line like the path.
pub open spec fn found_syntax(set: syntect::parsing::SyntaxSet, ext: Seq<char>, p: Seq<char>) -> Option<
    syntect::parsing::SyntaxReference,
> {
    if syntax_by_extension(set, ext) is Some {
        syntax_by_extension(set, ext)
    } else {
        syntax_by_first_line(set, p)
    }
}

/// A line in spans: the pieces of a known syntax in their colours, or the whole line
/// plain.
pub open spec fn highlighted(
    syntaxes: syntect::parsing::SyntaxSet,
    themes: syntect::highlighting::ThemeSet,
    key: Seq<char>,
    syntax: Option<syntect::parsing::SyntaxReference>,
    line: Seq<char>,
) -> Seq<SpanModel> {
    match syntax {
        None => seq![theme::span_of(line, theme::no_style())],
        Some(s) => spans_of_runs(colored(syntaxes, themes, key, s, line)),
    }
}

/// Pieces as spans in their colours.
pub open spec fn spans_of_runs(runs: Seq<(u8, u8, u8, Seq<char>)>) -> Seq<SpanModel> {
    Seq::new(
        runs.len(),
        |i: int|
            theme::span_of(
                runs[i].3,
                theme::fg_style(Color::Rgb(runs[i].0, runs[i].1, runs[i].2)),
            ),
    )
}

/// Turns pieces into spans in their colours.
pub fn runs_to_spans(runs: &Vec<Run>) -> (r: Vec<Span>)
    ensures
        theme::span_models(r@) == spans_of_runs(run_models(runs@)),
{
    let mut r: Vec<Span> = Vec::new();
    let mut i: usize = 0;
    let ghost want = spans_of_runs(run_models(runs@));
    while i < runs.len()
        invariant
            i <= runs.len(),
            want == spans_of_runs(run_models(runs@)),
            r@.len() == i,
            forall|k: int| 0 <= k < i ==> (#[trigger] r@[k])@ == want[k],
        decreases runs.len() - i,
    {
        let u = &runs[i];
        r.push(Span::styled(u.text.clone(), Style::fg(Color::Rgb(u.r, u.g, u.b))));
        i += 1;
    }
    assert(theme::span_models(r@) =~= want);
    r
}

impl HighlightEngine {
    /// The theme in use is one of the known themes, and the syntaxes that were looked up
    /// are known syntaxes.
    pub open spec fn wf(&self) -> bool {
        &&& has_theme(self.theme_set, self.theme@)
        &&& forall|i: int|
            0 <= i < self.cache@.len() ==> ((#[trigger] self.cache@[i]).1 matches Some(s) ==> of_set(
                self.syntax_set,
                s,
            ))
    }

    /// An engine with the theme of this name, or else the fallback. `None` where there is
    /// no theme at all.
    pub fn new(theme_name: &str) -> (r: Option<HighlightEngine>)
        ensures
            match r {
                Some(e) => e.wf() && pick_theme(e.theme_set, theme_name@) == Some(e.theme@)
                    && e.theme_name@ == (match theme_title(e.theme_set, e.theme@) {
                    Some(t) => t,
                    None => theme_name@,
                }) && e.cache@.len() == 0,
                None => exists|set: syntect::highlighting::ThemeSet| #[trigger]
                    pick_theme(set, theme_name@) is None,
            },
    {
        let syntax_set = default_syntaxes();
        let theme_set = default_themes();
        let theme = match choose_theme(&theme_set, theme_name) {
            Some(t) => t,
            None => {
                return None;
            },
        };
        let name = match title_of(&theme_set, theme.as_str()) {
            Some(t) => t,
            None => theme_name.to_owned(),
        };
        Some(HighlightEngine { syntax_set, theme_set, theme, theme_name: name, cache: Vec::new() })
    }

    /// The syntax for a path, by its extension. What was found for an extension once is
    /// kept for all later paths with that extension.
    pub fn syntax_for(&mut self, p: &str) -> (r: Option<syntect::parsing::SyntaxReference>)
        requires
            old(self).wf(),
        ensures
            final(self).wf(),
            r matches Some(s) ==> of_set(old(self).syntax_set, s),
            r == old(self).syntax_of(p@),
            looked_up(*old(self), *final(self), p@),
    {
        let ext = match FsPath::parse(p).extension() {
            Some(e) => text::to_lowercase(e.as_str()),
            None => {
                let t = String::new();
                assert(t@ =~= Seq::empty());
                t
            },
        };
        let mut i: usize = 0;
        while i < self.cache.len()
            invariant
                i <= self.cache.len(),
                self.wf(),
                *self == *old(self),
                ext@ == extension_key(p@),
                cached(self.cache@, ext@, 0) == cached(self.cache@, ext@, i as int),
            decreases self.cache.len() - i,
        {
            if text::same(self.cache[i].0.as_str(), ext.as_str()) {
                return copy_syntax(&self.cache[i].1);
            }
            i += 1;
        }
        let found = match find_by_extension(&self.syntax_set, ext.as_str()) {
            Some(s) => Some(s),
            None => find_by_first_line(&self.syntax_set, p),
        };
        let kept = copy_syntax(&found);
        self.cache.push((ext, kept));
        assert(self.cache@.drop_last() =~= old(self).cache@);
        found
    }

    /// A line in spans, coloured where the syntax is known.
    pub fn highlight_line(&self, line: &str, syntax: &Option<syntect::parsing::SyntaxReference>) -> (r:
        Vec<Span>)
        requires
            self.wf(),
            *syntax matches Some(s) ==> of_set(self.syntax_set, s),
        ensures
            theme::span_models(r@) == highlighted(
                self.syntax_set,
                self.theme_set,
                self.theme@,
                *syntax,
                line@,
            ),
    {
        match syntax {
            None => {
                let mut r: Vec<Span> = Vec::new();
                r.push(Span::of(line, Style::plain()));
                assert(theme::span_models(r@) =~= seq![theme::span_of(line@, theme::no_style())]);
                r
            },
            Some(s) => runs_to_spans(&color_line(&self.syntax_set, &self.theme_set, self.theme.as_str(), s, line)),
        }
    }
}

/// The background of a line of a diff.
pub open spec fn change_bg(tag: ChangeTag) -> Option<Color> {
    match tag {
        ChangeTag::Equal => None,
        ChangeTag::Insert => Some(theme::added_bg()),
        ChangeTag::Delete => Some(theme::removed_bg()),
    }
}

/// The sign of a line of a diff.
pub open spec fn change_sign(tag: ChangeTag) -> Seq<char> {
    match tag {
        ChangeTag::Equal => " "@,
        ChangeTag::Insert => "+"@,
        ChangeTag::Delete => "-"@,
    }
}

/// The number of a line of a diff, counted from 1: that in the old text where the line
/// went, and that in the new text otherwise.
pub open spec fn change_number(c: ChangeModel) -> nat {
    let at = if c.tag == ChangeTag::Delete {
        c.old_index
    } else {
        c.new_index
    };
    match at {
        Some(i) => i as nat + 1,
        None => 0,
    }
}

/// The column in front of a line of a diff: its sign, its number and a bar.
pub open spec fn gutter(c: ChangeModel, width: nat) -> SpanModel {
    theme::span_of(
        change_sign(c.tag) + " "@ + text::pad_left(
            text::decimal(change_number(c)),
            ' ',
            width,
        ) + " │ "@,
        match c.tag {
            ChangeTag::Equal => theme::fg_style(theme::muted_color()),
            ChangeTag::Insert => theme::bold_style(Color::LightGreen),
            ChangeTag::Delete => theme::bold_style(Color::LightRed),
        },
    )
}

/// A line of a diff as a row: the column with its number, where that is wanted, then the
/// line, on the background of its kind.
pub open spec fn change_row(c: ChangeModel, spans: Seq<SpanModel>, width: Option<nat>) -> LineModel {
    LineModel {
        spans: match width {
            Some(w) => seq![gutter(c, w)] + spans,
            None => spans,
        },
        style: match change_bg(c.tag) {
            Some(bg) => theme::bg_style(bg),
            None => theme::no_style(),
        },
    }
}

/// How wide the numbers of two texts with so many lines can get.
pub open spec fn gutter_width(prev_lines: nat, cur_lines: nat) -> nat {
    let most = if prev_lines > cur_lines {
        prev_lines
    } else {
        cur_lines
    };
    text::decimal(
        if most > 1 {
            most
        } else {
            1
        },
    ).len()
}

/// A line of a diff as a row, given its spans.
pub fn row_with(c: &LineChange, spans: Vec<Span>, width: Option<usize>) -> (r: Line)
    requires
        c.old_index matches Some(i) ==> i < usize::MAX,
        c.new_index matches Some(i) ==> i < usize::MAX,
    ensures
        r@ == change_row(
            c@,
            theme::span_models(spans@),
            match width {
                Some(w) => Some(w as nat),
                None => None,
            },
        ),
{
    let at = match c.tag {
        ChangeTag::Delete => c.old_index,
        _ => c.new_index,
    };
    let n: usize = match at {
        Some(i) => i + 1,
        None => 0,
    };
    let (sign, style, bg) = match c.tag {
        ChangeTag::Equal => (" ", Style::fg(Palette::muted()), None),
        ChangeTag::Insert => ("+", Style::bold(Color::LightGreen), Some(Palette::added_bg())),
        ChangeTag::Delete => ("-", Style::bold(Color::LightRed), Some(Palette::removed_bg())),
    };
    let ghost body = theme::span_models(spans@);
    let all = match width {
        Some(w) => {
            let digits = text::padded_left(text::decimal_of(n as u64).as_str(), ' ', w);
            let mut t = text::concat3(sign, " ", digits.as_str());
            t.append(" │ ");
            let mut out: Vec<Span> = Vec::new();
            let g = Span::styled(t, style);
            out.push(g);
            let mut rest = spans;
            out.append(&mut rest);
            assert(theme::span_models(out@) =~= seq![gutter(c@, w as nat)] + body);
            out
        },
        None => spans,
    };
    Line {
        spans: all,
        style: match bg {
            Some(b) => Style::bg(b),
            None => Style::plain(),
        },
    }
}

/// The rows of the first `k` lines of a diff.
pub open spec fn snap_rows(
    syntaxes: syntect::parsing::SyntaxSet,
    themes: syntect::highlighting::ThemeSet,
    key: Seq<char>,
    syntax: Option<syntect::parsing::SyntaxReference>,
    changes: Seq<ChangeModel>,
    width: Option<nat>,
    k: int,
) -> Seq<LineModel>
    decreases k,
{
    if k <= 0 {
        Seq::empty()
    } else {
        snap_rows(syntaxes, themes, key, syntax, changes, width, k - 1).push(
            change_row(
                changes[k - 1],
                highlighted(syntaxes, themes, key, syntax, diff::without_feeds(changes[k - 1].value)),
                width,
            ),
        )
    }
}

impl HighlightEngine {
    /// The syntax that a path gets.
    pub open spec fn syntax_of(self, p: Seq<char>) -> Option<syntect::parsing::SyntaxReference> {
        match cached(self.cache@, extension_key(p), 0) {
            Some(s) => s,
            None => found_syntax(self.syntax_set, extension_key(p), p),
        }
    }

    /// The rows of a snap.
    pub open spec fn rendered(
        self,
        prev: Seq<char>,
        content: Seq<char>,
        p: Seq<char>,
        with_line_numbers: bool,
    ) -> Seq<LineModel> {
        let changes = diff::text_changes(prev, content);
        snap_rows(
            self.syntax_set,
            self.theme_set,
            self.theme@,
            self.syntax_of(p),
            changes,
            if with_line_numbers {
                Some(gutter_width(text::lines(prev).len(), text::lines(content).len()))
            } else {
                None
            },
            changes.len() as int,
        )
    }
}

/// A snap as rows: the diff against the content before it, line by line, in the colours of
/// the file's syntax. Lines that went show the text they had.
pub fn render_snap(
    engine: &mut HighlightEngine,
    prev_content: &str,
    content: &str,
    file_path: &str,
    with_line_numbers: bool,
) -> (r: Vec<Line>)
    requires
        old(engine).wf(),
    ensures
        theme::line_models(r@) == old(engine).rendered(
            prev_content@,
            content@,
            file_path@,
            with_line_numbers,
        ),
        looked_up(*old(engine), *final(engine), file_path@),
        final(engine).wf(),
{
    let syntax = engine.syntax_for(file_path);
    let changes = diff::all_changes(prev_content, content);
    let prev_list = text::lines_of(prev_content);
    let cur_list = text::lines_of(content);
    let prev_lines: usize = prev_list.len();
    let cur_lines: usize = cur_list.len();
    assert(text::views(prev_list@).len() == prev_lines && text::views(cur_list@).len() == cur_lines);
    let width: Option<usize> = if with_line_numbers {
        Some(number_width(prev_lines, cur_lines))
    } else {
        None
    };
    let before: usize = text::chars_of(prev_content).len();
    let after: usize = text::chars_of(content).len();
    proof {
        diff::lemma_diff_lines_len(prev_content@);
        diff::lemma_diff_lines_len(content@);
    }
    let ghost wide = match width {
        Some(w) => Some(w as nat),
        None => None,
    };
    let ghost all = diff::change_models(changes@);
    let mut out: Vec<Line> = Vec::new();
    let mut i: usize = 0;
    assert(theme::line_models(out@) =~= Seq::empty());
    let ghost looked = *engine;
    while i < changes.len()
        invariant
            i <= changes.len(),
            engine.wf(),
            *engine == looked,
            syntax matches Some(s) ==> of_set(engine.syntax_set, s),
            diff::diff_lines(prev_content@).len() <= before,
            diff::diff_lines(content@).len() <= after,
            all == diff::change_models(changes@),
            wide == (match width {
                Some(w) => Some(w as nat),
                None => None,
            }),
            forall|k: int|
                0 <= k < changes@.len() ==> ((#[trigger] changes@[k]).old_index matches Some(x) ==> x
                    < diff::diff_lines(prev_content@).len()) && (changes@[k].new_index matches Some(
                    x,
                ) ==> x < diff::diff_lines(content@).len()),
            theme::line_models(out@) == snap_rows(
                engine.syntax_set,
                engine.theme_set,
                engine.theme@,
                syntax,
                all,
                wide,
                i as int,
            ),
        decreases changes.len() - i,
    {
        let c = &changes[i];
        assert(all[i as int] == c@);
        let line = diff::drop_feeds(c.value.as_str());
        let spans = engine.highlight_line(line.as_str(), &syntax);
        let row = row_with(c, spans, width);
        let ghost earlier = out@;
        out.push(row);
        assert(theme::line_models(out@) =~= theme::line_models(earlier).push(row@));
        i += 1;
    }
    out
}

/// How wide the numbers of two texts with so many lines can get.
pub fn number_width(prev_lines: usize, cur_lines: usize) -> (r: usize)
    ensures
        r == gutter_width(prev_lines as nat, cur_lines as nat),
{
    let most: usize = if prev_lines > cur_lines {
        prev_lines
    } else {
        cur_lines
    };
    let shown: usize = if most > 1 {
        most
    } else {
        1
    };
    text::chars_of(text::decimal_of(shown as u64).as_str()).len()
}

proof fn lemma_snap_rows(
    e: HighlightEngine,
    syntax: Option<syntect::parsing::SyntaxReference>,
    changes: Seq<ChangeModel>,
    width: Option<nat>,
    k: int,
    i: int,
)
    requires
        0 <= i < k <= changes.len(),
    ensures
        snap_rows(e.syntax_set, e.theme_set, e.theme@, syntax, changes, width, k).len() == k,
        snap_rows(e.syntax_set, e.theme_set, e.theme@, syntax, changes, width, k)[i] == change_row(
            changes[i],
            highlighted(
                e.syntax_set,
                e.theme_set,
                e.theme@,
                syntax,
                diff::without_feeds(changes[i].value),
            ),
            width,
        ),
    decreases k,
{
    reveal_with_fuel(snap_rows, 2);
    if i < k - 1 {
        lemma_snap_rows(e, syntax, changes, width, k - 1, i);
    } else if k > 1 {
        lemma_snap_rows(e, syntax, changes, width, k - 1, 0);
    }
}

/// A snap has one row for each line of the diff, in order. The row begins with the sign of the
/// line, `+` where it came and `-` where it went, and its number, counted from 1 in the old text
/// where it went and in the new text otherwise; and it stands on the background of its kind.
/// The whole line follows in one piece where no syntax is known.
pub proof fn law_each_line_of_the_diff_is_a_row(
    e: HighlightEngine,
    prev: Seq<char>,
    content: Seq<char>,
    p: Seq<char>,
    i: int,
)
    requires
        0 <= i < diff::text_changes(prev, content).len(),
    ensures
        ({
            let c = diff::text_changes(prev, content)[i];
            let rows = e.rendered(prev, content, p, true);
            let plain = e.rendered(prev, content, p, false);
            let r = rows[i];
            let sign = match c.tag {
                ChangeTag::Equal => ' ',
                ChangeTag::Insert => '+',
                ChangeTag::Delete => '-',
            };
            let at = if c.tag == ChangeTag::Delete {
                c.old_index
            } else {
                c.new_index
            };
            &&& rows.len() == diff::text_changes(prev, content).len()
            &&& plain.len() == rows.len()
            &&& r.spans.len() >= 1
            &&& text::has_prefix(r.spans[0].text, seq![sign, ' '])
            &&& at matches Some(n) ==> text::has_suffix(
                r.spans[0].text,
                text::decimal(n as nat + 1) + " │ "@,
            )
            &&& plain[i].spans == r.spans.skip(1)
            &&& c.tag == ChangeTag::Equal ==> r.style.bg is None
            &&& c.tag == ChangeTag::Insert ==> r.style.bg == Some(Color::Rgb(0, 60, 0))
            &&& c.tag == ChangeTag::Delete ==> r.style.bg == Some(Color::Rgb(70, 0, 0))
            &&& e.syntax_of(p) is None ==> plain[i].spans.len() == 1 && plain[i].spans[0].text
                == diff::without_feeds(c.value)
        }),
{
    let changes = diff::text_changes(prev, content);
    let c = changes[i];
    let n = changes.len() as int;
    let wide = gutter_width(text::lines(prev).len(), text::lines(content).len());
    let syntax = e.syntax_of(p);
    lemma_snap_rows(e, syntax, changes, Some(wide), n, i);
    lemma_snap_rows(e, syntax, changes, None, n, i);
    let spans = highlighted(
        e.syntax_set,
        e.theme_set,
        e.theme@,
        syntax,
        diff::without_feeds(c.value),
    );
    let r = change_row(c, spans, Some(wide));
    assert(r.spans.skip(1) =~= spans);
    reveal_strlit(" ");
    reveal_strlit("+");
    reveal_strlit("-");
    reveal_strlit(" │ ");
    let number = text::decimal(change_number(c));
    let padded = text::pad_left(number, ' ', wide);
    text::law_padding(number, ' ', wide);
    let t = r.spans[0].text;
    let sign = match c.tag {
        ChangeTag::Equal => ' ',
        ChangeTag::Insert => '+',
        ChangeTag::Delete => '-',
    };
    assert(t == change_sign(c.tag) + " "@ + padded + " │ "@);
    assert(t.take(2) =~= seq![sign, ' ']);
    let end = number + " │ "@;
    assert(padded.skip(padded.len() - number.len()) == number);
    assert(t.skip(t.len() - end.len()) =~= padded.skip(padded.len() - number.len()) + " │ "@);
}

/// The wanted theme is used where it is known, else the fallback where that is known, and else
/// the first one there is.
pub proof fn law_wanted_theme_is_used(set: syntect::highlighting::ThemeSet, name: Seq<char>)
    ensures
        has_theme(set, name) ==> pick_theme(set, name) == Some(name),
        !has_theme(set, name) && has_theme(set, FALLBACK_THEME@) ==> pick_theme(set, name) == Some(
            FALLBACK_THEME@,
        ),
        !has_theme(set, name) && !has_theme(set, FALLBACK_THEME@) ==> pick_theme(set, name)
            == first_theme(set),
{
}

/// Files with the same extension have the same syntax once one of them was looked up, in
/// whatever case the extension is written. A syntax that the extension names comes before one
/// that the path looks like.
pub proof fn law_same_extension_same_syntax(
    before: HighlightEngine,
    after: HighlightEngine,
    p: Seq<char>,
    q: Seq<char>,
)
    requires
        looked_up(before, after, p),
        extension_key(p) == extension_key(q),
    ensures
        after.syntax_of(q) == before.syntax_of(p),
        cached(before.cache@, extension_key(p), 0) is None && syntax_by_extension(
            before.syntax_set,
            extension_key(p),
        ) is Some ==> before.syntax_of(p) == syntax_by_extension(
            before.syntax_set,
            extension_key(p),
        ),
        cached(before.cache@, extension_key(p), 0) is None && syntax_by_extension(
            before.syntax_set,
            extension_key(p),
        ) is None ==> before.syntax_of(p) == syntax_by_first_line(before.syntax_set, p),
{
    if cached(before.cache@, extension_key(p), 0) is None {
        lemma_cached_last(before.cache@, after.cache@, extension_key(p), 0);
    }
}

proof fn lemma_cached_last(
    a: Seq<(String, Option<syntect::parsing::SyntaxReference>)>,
    b: Seq<(String, Option<syntect::parsing::SyntaxReference>)>,
    ext: Seq<char>,
    k: int,
)
    requires
        0 <= k <= a.len(),
        b.len() == a.len() + 1,
        b.drop_last() == a,
        b.last().0@ == ext,
        cached(a, ext, k) is None,
    ensures
        cached(b, ext, k) == Some(b.last().1),
    decreases a.len() - k,
{
    if k < a.len() {
        assert(b.drop_last()[k] == b[k]);
        lemma_cached_last(a, b, ext, k + 1);
    }
}

/// A line of a known syntax is shown in the pieces that the highlighter gives, each in its colour.
pub proof fn law_pieces_keep_their_text_and_colour(
    syntaxes: syntect::parsing::SyntaxSet,
    themes: syntect::highlighting::ThemeSet,
    key: Seq<char>,
    s: syntect::parsing::SyntaxReference,
    line: Seq<char>,
    i: int,
)
    requires
        0 <= i < colored(syntaxes, themes, key, s, line).len(),
    ensures
        ({
            let runs = colored(syntaxes, themes, key, s, line);
            let spans = highlighted(syntaxes, themes, key, Some(s), line);
            &&& spans.len() == runs.len()
            &&& spans[i].text == runs[i].3
            &&& spans[i].style.fg == Some(Color::Rgb(runs[i].0, runs[i].1, runs[i].2))
        }),
{
}

} // verus!
