//! The interface: keys, the list of sessions, the review, the replay, the two-pane view, and
//! what they draw.

use grs::config::ConfigLayer;
use grs::diff::line_diff;
use grs::file_snap::Snap;
use grs::model::SessionMeta;
use grs::path::FsPath;
use grs::snap::{SnapStore, WorkFile};
use grs::store::{Disk, GrsEntry, RepoStore};
use grs::tui::code_review::{scrubber_text, CodeReviewCmd, CodeReviewState};
use grs::tui::diff_view::BASELINE_TEXT;
use grs::tui::file_view::{layout_line, FileViewState};
use grs::tui::highlight::{render_snap, HighlightEngine};
use grs::tui::input::{
    typing_action, Key, KeyAction, KeyCode, KeyOutcome, KeyState, VimParser,
};
use grs::tui::layout::{centered_rect, help_rect, Rect};
use grs::tui::live::{
    finalize_session, observe, open_session, LiveKeyResult, LiveTui, NamePrompt, PromptStep,
    Viewer, WatchEvent,
};
use grs::tui::replay_view::{pad_lines, replay_action, ReplayOutcome, ReplayState};
use grs::tui::session_list::{ListCmd, SessionListState};
use grs::tui::snap_list::SnapListState;
use grs::tui::theme::{Color, Line, Palette, Span, Style};
use grs::util::fs::FileContent;
use ratatui::backend::TestBackend;
use ratatui::buffer::Buffer;
use ratatui::Terminal;
use std::collections::HashMap;

const THEME: &str = "base16-eighties.dark";

fn root() -> FsPath {
    FsPath::parse("/home/x/proj")
}

fn disk() -> Disk {
    Disk {
        grs: GrsEntry::Absent,
        user: ConfigLayer::default(),
        config_text: String::new(),
        config: Ok(ConfigLayer::default()),
        head: String::new(),
        sessions: Vec::new(),
        snaps: Vec::new(),
        file_snaps: Vec::new(),
        ignore_files: Vec::new(),
    }
}

fn init() -> RepoStore {
    RepoStore::init(&root(), disk(), "init".to_string(), &Vec::new(), 10).unwrap()
}

fn no_files() -> Vec<WorkFile> {
    Vec::new()
}

fn engine() -> HighlightEngine {
    HighlightEngine::new(THEME).expect("there are themes")
}

fn built(seq: u32, path: &str, content: &str, prev: Option<u32>, now: i64) -> Snap {
    let mut diff = line_diff("", content);
    diff.prev_seq = prev;
    SnapStore::build_snap(seq, path.to_string(), content.to_string(), diff, prev, now)
}

/// A project whose open session has 4 snaps: 3 of a.py, 1 of b.py.
fn setup() -> (RepoStore, SessionMeta) {
    let mut store = init();
    let head = store.head().unwrap().unwrap();
    for (seq, path, content, prev) in [
        (0u32, "a.py", "v1\n", None),
        (1, "a.py", "v1\nv2\n", Some(0u32)),
        (2, "a.py", "v1\nv2\nv3\n", Some(1u32)),
        (3, "b.py", "x\n", None),
    ] {
        store.snaps.write(&head, built(seq, path, content, prev, 1000));
    }
    let session = SessionMeta {
        version: 1,
        name: "init".to_string(),
        id: head,
        slug: "init".to_string(),
        started_at: 0,
        ended_at: Some(0),
        snap_count: 4,
        file_count: 2,
    };
    (store, session)
}

fn replay() -> ReplayState {
    let (store, session) = setup();
    ReplayState::load(store, session, 0)
}

fn color(c: Color) -> ratatui::style::Color {
    match c {
        Color::Reset => ratatui::style::Color::Reset,
        Color::Red => ratatui::style::Color::Red,
        Color::Green => ratatui::style::Color::Green,
        Color::Yellow => ratatui::style::Color::Yellow,
        Color::Cyan => ratatui::style::Color::Cyan,
        Color::Gray => ratatui::style::Color::Gray,
        Color::DarkGray => ratatui::style::Color::DarkGray,
        Color::LightRed => ratatui::style::Color::LightRed,
        Color::LightGreen => ratatui::style::Color::LightGreen,
        Color::Rgb(r, g, b) => ratatui::style::Color::Rgb(r, g, b),
    }
}

fn style(s: Style) -> ratatui::style::Style {
    let mut r = ratatui::style::Style::default();
    if let Some(c) = s.fg {
        r = r.fg(color(c));
    }
    if let Some(c) = s.bg {
        r = r.bg(color(c));
    }
    r
}

fn put(buf: &mut Buffer, line: &Line, x: u16, y: u16, width: u16) {
    let layout = layout_line(line, x, width);
    for w in &layout.writes {
        buf.set_stringn(w.x, y, &w.text, w.cells, style(w.style));
    }
    if let Some(bg) = layout.fill {
        for x in layout.fill_from..layout.fill_to {
            buf.get_mut(x, y).set_bg(color(bg));
        }
    }
}

/// Draws a view within a border on a screen of this size.
fn draw(state: &mut FileViewState, width: u16, height: u16) -> Buffer {
    let mut terminal = Terminal::new(TestBackend::new(width, height)).unwrap();
    state.clamp(height - 2);
    let (from, to) = state.in_view(height - 2);
    terminal
        .draw(|f| {
            let buf = f.buffer_mut();
            for (i, line) in state.lines[from..to].iter().enumerate() {
                put(buf, line, 1, 1 + i as u16, width - 2);
            }
        })
        .unwrap();
    terminal.backend().buffer().clone()
}

/// Draws lines from the top of a screen.
fn screen(lines: &[Line], width: u16, height: u16) -> String {
    let mut terminal = Terminal::new(TestBackend::new(width, height)).unwrap();
    terminal
        .draw(|f| {
            let buf = f.buffer_mut();
            for (i, line) in lines.iter().enumerate().take(height as usize) {
                put(buf, line, 0, i as u16, width);
            }
        })
        .unwrap();
    let buffer = terminal.backend().buffer().clone();
    buffer.content.iter().map(|c| c.symbol().chars().next().unwrap_or(' ')).collect()
}

fn text_of(line: &Line) -> String {
    line.spans.iter().map(|s| s.text.clone()).collect()
}

fn plain(text: &str) -> Line {
    Line::of(vec![Span::of(text, Style::plain())])
}

/// The lines that a replay shows: the top line, the title and the rows.
fn replay_screen(state: &ReplayState) -> String {
    let mut engine = engine();
    let snap = state.current_snap.as_ref().unwrap();
    let top = scrubber_text(&state.session.id, state.cur_snap_idx, state.entries.len());
    let mut lines = vec![plain(&top), plain(state.current_file().unwrap())];
    lines.extend(state.snap_lines(&mut engine, snap));
    lines.push(state.scrubber_line());
    lines.push(state.status_line());
    screen(&lines, 120, 20)
}

fn k(c: char) -> Key {
    Key { code: KeyCode::Char(c), control: false }
}

#[test]
fn replay_state_loads_4_snaps_and_2_files() {
    let replay = replay();
    assert_eq!(replay.entries.len(), 4);
    assert_eq!(replay.files, vec!["a.py".to_string(), "b.py".to_string()]);
    assert_eq!(replay.cur_snap_idx, 0);
    assert_eq!(replay.current_snap.as_ref().unwrap().file_path, "a.py");
}

#[test]
fn step_forward_and_back() {
    let mut replay = replay();
    let mut parser = VimParser::new();
    replay.on_action(KeyAction::NextSnap, &mut parser, 0);
    assert_eq!(replay.cur_snap_idx, 1);
    replay.on_action(KeyAction::NextSnap, &mut parser, 0);
    assert_eq!(replay.cur_snap_idx, 2);
    replay.on_action(KeyAction::PrevSnap, &mut parser, 0);
    assert_eq!(replay.cur_snap_idx, 1);
}

#[test]
fn goto_first_and_last_are_viewport_not_snap_jumps() {
    let mut replay = replay();
    let mut parser = VimParser::new();
    replay.file_view.scroll = 5;
    replay.on_action(KeyAction::GotoFirst, &mut parser, 0);
    assert_eq!(replay.file_view.scroll, 0);
    assert_eq!(replay.cur_snap_idx, 0, "GotoFirst must not change snap index");
    replay.on_action(KeyAction::GotoLast, &mut parser, 0);
    assert_eq!(replay.cur_snap_idx, 0, "GotoLast must not change snap index");
    replay.on_action(KeyAction::NextSnap, &mut parser, 0);
    assert_eq!(replay.cur_snap_idx, 1);
    replay.on_action(KeyAction::PrevSnap, &mut parser, 0);
    assert_eq!(replay.cur_snap_idx, 0);
}

#[test]
fn tab_cycles_files() {
    let mut replay = replay();
    let mut parser = VimParser::new();
    assert_eq!(replay.current_snap.as_ref().unwrap().file_path, "a.py");
    replay.on_action(KeyAction::TabFile, &mut parser, 0);
    assert_eq!(replay.current_snap.as_ref().unwrap().file_path, "b.py");
    assert_eq!(replay.cur_file_idx, 1);
    replay.on_action(KeyAction::TabFile, &mut parser, 0);
    assert_eq!(replay.current_snap.as_ref().unwrap().file_path, "a.py");
    assert_eq!(replay.cur_file_idx, 0);
}

#[test]
fn speed_up_and_slow_down() {
    let mut replay = replay();
    let mut parser = VimParser::new();
    let initial = replay.file_view.scroll;
    replay.on_action(KeyAction::JumpDown10, &mut parser, 0);
    assert!(replay.file_view.scroll > initial);
    replay.on_action(KeyAction::JumpUp10, &mut parser, 0);
    assert_eq!(replay.file_view.scroll, initial);
}

#[test]
fn render_replay_with_test_backend() {
    let text = replay_screen(&replay());
    assert!(text.contains("code"), "should show the code header");
    assert!(text.contains("v1"), "should show snap content");
    assert!(text.contains("a.py"), "should show the file name");
}

#[test]
fn side_by_side_toggle() {
    let mut replay = replay();
    let mut parser = VimParser::new();
    assert!(!replay.side_by_side);
    replay.on_action(KeyAction::SideBySide, &mut parser, 0);
    assert!(replay.side_by_side);
    let padded = pad_lines(vec![plain("a")], 3);
    assert_eq!(padded.len(), 3);
    assert_eq!(text_of(&padded[0]), "a");
    assert_eq!(text_of(&padded[2]), "");
    assert_eq!(pad_lines(vec![plain("a"), plain("b")], 1).len(), 2);
}

#[test]
fn prev_snap_is_loaded_when_stepping() {
    let mut replay = replay();
    let mut parser = VimParser::new();
    assert!(replay.prev_snap.is_none());
    replay.on_action(KeyAction::NextSnap, &mut parser, 0);
    assert!(replay.prev_snap.is_some());
    assert_eq!(replay.prev_snap.as_ref().unwrap().file_path, "a.py");
}

#[test]
fn code_review_renders_current_snap_content() {
    let mut replay = replay();
    let mut parser = VimParser::new();
    replay.on_action(KeyAction::NextSnap, &mut parser, 0);
    let text = replay_screen(&replay);
    assert!(text.contains("code"), "should show the code header");
    assert!(text.contains("a.py"), "should show the file name");
    assert!(text.contains("v1"), "should show snap content");
}

#[test]
fn render_replay_shows_line_numbers() {
    let text = replay_screen(&replay());
    assert!(
        text.contains("1 │") || text.contains("1\u{2502}"),
        "expected a line-number gutter in the rendered output, got:\n{text:?}"
    );
}

#[test]
fn entries_are_sorted_by_time_not_seq() {
    let mut store = init();
    let head = store.head().unwrap().unwrap();
    let snap = |seq: u32, file: &str, ts: i64, prev: Option<u32>| {
        let mut s = built(seq, file, &format!("v{seq}\n"), prev, 0);
        s.timestamp = ts;
        s.timestamp_iso = format!("ts-{ts}");
        s
    };
    store.snaps.write(&head, snap(0, "a.py", 100, None));
    store.snaps.write(&head, snap(1, "b.py", 50, None));
    store.snaps.write(&head, snap(2, "a.py", 200, Some(0)));
    let session = store.sessions().get(&head).unwrap().copy();
    let replay = ReplayState::load(store, session, 0);
    let order: Vec<String> = replay.entries.iter().map(|e| e.file_path.clone()).collect();
    assert_eq!(
        order,
        vec!["b.py".to_string(), "a.py".to_string(), "a.py".to_string()],
        "entries must be ordered by capture timestamp, not seq"
    );
}

#[test]
fn periodic_refresh_does_not_reset_scroll() {
    let mut replay = replay();
    let mut parser = VimParser::new();
    replay.on_action(KeyAction::NextSnap, &mut parser, 0);
    replay.file_view.scroll = 7;
    let before = replay.file_view.scroll;
    replay.refresh(1000);
    assert_eq!(
        replay.file_view.scroll, before,
        "scroll must be preserved across a no-op refresh"
    );
    replay.on_action(KeyAction::NextSnap, &mut parser, 0);
    assert_eq!(replay.file_view.scroll, 0);
}

#[test]
fn replay_plays_by_the_clock_and_stops_at_the_end() {
    let mut replay = replay();
    let mut parser = VimParser::new();
    assert!(!replay.tick(10_000));
    replay.on_action(KeyAction::PlayPause, &mut parser, 10_000);
    assert!(!replay.tick(10_599));
    assert!(replay.tick(10_600));
    assert!(replay.tick(11_200));
    assert!(replay.tick(11_800));
    assert_eq!(replay.cur_snap_idx, 3);
    assert!(replay.playing);
    assert!(!replay.tick(12_400));
    assert!(!replay.playing);
    replay.on_action(KeyAction::PlayPause, &mut parser, 13_000);
    assert_eq!(replay.cur_snap_idx, 0, "playing starts over at the end");
    for _ in 0..10 {
        replay.on_action(KeyAction::Faster, &mut parser, 0);
    }
    assert_eq!(replay.speed_ms, 50);
    for _ in 0..100 {
        replay.on_action(KeyAction::Slower, &mut parser, 0);
    }
    assert_eq!(replay.speed_ms, 5000);
    replay.on_action(KeyAction::GotoSnap(3), &mut parser, 0);
    assert_eq!(replay.cur_snap_idx, 2);
    replay.on_action(KeyAction::GotoSnap(5), &mut parser, 0);
    assert_eq!(replay.cur_snap_idx, 2);
    assert!(matches!(replay.on_action(KeyAction::Back, &mut parser, 0), ReplayOutcome::Quit));
}

#[test]
fn session_list_loads_with_initial_session() {
    let mut list = SessionListState::load(init());
    assert_eq!(list.sessions.len(), 1);
    assert_eq!(list.cursor, Some(0));
    assert!(matches!(list.on_action(KeyAction::Quit, &no_files(), 0), ListCmd::Quit));
}

#[test]
fn session_list_cursor_moves_with_j_k() {
    let mut store = init();
    store.rotate_open_session("second".to_string(), &no_files(), 2_000_000_000_000).unwrap();
    let mut list = SessionListState::load(store);
    assert_eq!(list.sessions.len(), 2);
    assert_eq!(list.cursor, Some(0));
    assert!(matches!(list.on_action(KeyAction::Down, &no_files(), 0), ListCmd::Stay));
    assert_eq!(list.cursor, Some(1));
    assert!(matches!(list.on_action(KeyAction::Down, &no_files(), 0), ListCmd::Stay));
    assert_eq!(list.cursor, Some(1));
    assert!(matches!(list.on_action(KeyAction::Up, &no_files(), 0), ListCmd::Stay));
    assert_eq!(list.cursor, Some(0));
    assert!(matches!(list.on_action(KeyAction::Up, &no_files(), 0), ListCmd::Stay));
    assert_eq!(list.cursor, Some(0));
}

#[test]
fn session_list_enter_opens_code_review() {
    let mut list = SessionListState::load(init());
    assert_eq!(list.sessions.len(), 1);
    match list.on_action(KeyAction::Enter, &no_files(), 0) {
        ListCmd::OpenCodeReview(s) => assert!(s.is_open()),
        other => panic!("expected OpenCodeReview, got {other:?}"),
    }
}

#[test]
fn session_list_renders_to_backend() {
    let list = SessionListState::load(init());
    let mut lines = vec![plain(" sessions ")];
    for s in list.visible() {
        lines.extend(grs::tui::session_list::row_lines(&s, "2024-06-24 13:43"));
    }
    lines.push(list.status_line());
    let text = screen(&lines, 120, 12);
    assert!(text.contains("sessions"), "missing 'sessions' title");
    assert!(text.contains("move"), "status bar missing");
    let id = list.sessions[0].id.as_str();
    assert!(text.contains(&id[..10]), "session id missing");
}

/// Types a name into the prompt and confirms it.
fn enter_name(list: &mut SessionListState, name: &str, now: i64) -> ListCmd {
    for c in name.chars() {
        assert!(matches!(
            list.on_action(KeyAction::FilterChar(c), &no_files(), now),
            ListCmd::Stay
        ));
    }
    list.on_action(KeyAction::Enter, &no_files(), now)
}

#[test]
fn session_list_n_creates_new_and_returns_to_list() {
    let mut list = SessionListState::load(init());
    assert_eq!(list.sessions.len(), 1);
    let cmd = list.on_action(KeyAction::NewSession, &no_files(), 50);
    assert!(matches!(cmd, ListCmd::Stay));
    assert!(list.new_session_prompt);
    assert!(matches!(enter_name(&mut list, "second", 50), ListCmd::Stay));
    assert_eq!(list.sessions.len(), 2);
    let selected_id = list.selected().unwrap().id;
    assert!(list.sessions.iter().any(|s| s.id == selected_id && s.is_open()));
}

#[test]
#[allow(non_snake_case)]
fn session_list_N_creates_and_opens() {
    let mut list = SessionListState::load(init());
    assert!(matches!(
        list.on_action(KeyAction::NewSessionAndOpen, &no_files(), 50),
        ListCmd::Stay
    ));
    match enter_name(&mut list, "second", 50) {
        ListCmd::OpenCodeReview(s) => {
            assert!(s.is_open());
            assert_eq!(s.name, "second");
        }
        other => panic!("expected OpenCodeReview, got {other:?}"),
    }
}

#[test]
fn session_list_d_requires_confirm_and_refuses_open() {
    let store = init();
    let head = store.head().unwrap().unwrap();
    let mut list = SessionListState::load(store);
    list.on_action(KeyAction::Delete, &no_files(), 0);
    assert!(list.pending_delete.is_none());
    assert!(list.toast.as_deref().unwrap_or("").contains("open"));
    list.store
        .rotate_open_session("second".to_string(), &no_files(), 2_000_000_000_000)
        .unwrap();
    list.refresh();
    list.on_action(KeyAction::Down, &no_files(), 0);
    let first_d = list.on_action(KeyAction::Delete, &no_files(), 0);
    assert!(matches!(first_d, ListCmd::Stay));
    assert!(list.pending_delete.is_some());
    assert!(list.toast.as_deref().unwrap_or("").contains("press d again"));
    let second_d = list.on_action(KeyAction::Delete, &no_files(), 0);
    assert!(matches!(second_d, ListCmd::Stay));
    assert!(list.pending_delete.is_none());
    assert!(!list.store.sessions().list().iter().any(|s| s.id == head));
    let open_remaining = list.sessions.iter().filter(|s| s.is_open()).count();
    assert_eq!(open_remaining, 1);
}

#[test]
fn a_key_between_two_deletes_takes_the_mark_back() {
    let mut store = init();
    store.rotate_open_session("next".to_string(), &no_files(), 20).unwrap();
    let mut list = SessionListState::load(store);
    list.on_action(KeyAction::Down, &no_files(), 0);
    let closed = list.selected().unwrap();
    assert!(!closed.is_open());
    for key in [KeyAction::Down, KeyAction::Help, KeyAction::Refresh, KeyAction::ConfirmFilter] {
        list.on_action(KeyAction::Delete, &no_files(), 0);
        assert_eq!(list.pending_delete, Some(closed.id));
        assert!(list.toast.clone().unwrap().contains("press d again"));
        list.on_action(key, &no_files(), 0);
        assert!(list.pending_delete.is_none());
        assert_eq!(list.selected().unwrap().id, closed.id);
        assert_eq!(list.sessions.len(), 2);
    }
    list.on_action(KeyAction::Delete, &no_files(), 0);
    list.on_action(KeyAction::Delete, &no_files(), 0);
    assert!(list.pending_delete.is_none());
    assert_eq!(list.sessions.len(), 1);
    assert!(list.sessions.iter().all(|s| s.id != closed.id));
    assert!(list.store.sessions().get(&closed.id).is_err());
    list.on_action(KeyAction::Delete, &no_files(), 0);
    list.on_action(KeyAction::Delete, &no_files(), 0);
    assert!(list.pending_delete.is_none());
    assert!(list.toast.clone().unwrap().contains("open"));
    assert_eq!(list.sessions.len(), 1);
}

#[test]
fn a_cursor_beyond_the_snaps_still_moves() {
    let mut list = SnapListState { entries: Vec::new(), cursor: 5, diffs: HashMap::new() };
    list.cursor_down();
    assert_eq!(list.cursor, 5);
    list.cursor_up();
    assert_eq!(list.cursor, 4);
    list.cursor_to_bottom();
    assert_eq!(list.cursor, 0);
    list.cursor_up();
    assert_eq!(list.cursor, 0);
}

#[test]
fn session_list_filter_narrows_results() {
    let mut list = SessionListState::load(init());
    list.on_action(KeyAction::Filter, &no_files(), 0);
    let head_id = list.sessions[0].id.as_str();
    let last_char = head_id.chars().last().unwrap();
    list.on_action(KeyAction::FilterChar(last_char), &no_files(), 0);
    assert!(list.visible().len() <= 1);
    list.on_action(KeyAction::CancelFilter, &no_files(), 0);
    assert!(list.filter.is_empty());
    assert_eq!(list.visible().len(), list.sessions.len());
}

#[test]
fn session_list_help_toggles() {
    let mut list = SessionListState::load(init());
    assert!(!list.help_open);
    list.on_action(KeyAction::Help, &no_files(), 0);
    assert!(list.help_open);
    list.on_action(KeyAction::Help, &no_files(), 0);
    assert!(!list.help_open);
}

#[test]
fn session_list_refuses_a_bad_name() {
    let mut list = SessionListState::load(init());
    list.on_action(KeyAction::NewSession, &no_files(), 50);
    assert!(matches!(enter_name(&mut list, "  ", 50), ListCmd::Stay));
    assert_eq!(list.name_error.as_deref(), Some("name cannot be empty"));
    assert!(list.new_session_prompt);
    assert_eq!(list.prompt_lines().len(), 5);
    list.on_action(KeyAction::CancelFilter, &no_files(), 50);
    assert!(!list.new_session_prompt);
    assert_eq!(list.sessions.len(), 1);
}

/// The review of a session with two snaps of one file.
fn review() -> CodeReviewState {
    let mut store = init();
    let head = store.head().unwrap().unwrap();
    store.snaps.write(&head, built(0, "x.py", "a\nb\nc\nd\n", None, 1));
    store.snaps.write(&head, built(1, "x.py", "a\nX\nY\nd\ne\n", Some(0), 2));
    let session = store.sessions().get(&head).unwrap().copy();
    CodeReviewState::load(store, session, None)
}

#[test]
fn code_review_n_jumps_to_next_change_row() {
    let mut state = review();
    let mut parser = VimParser::new();
    draw(&mut state.file_view, 120, 20);
    state.on_action(KeyAction::NextSnap, &mut parser, None);
    draw(&mut state.file_view, 120, 20);
    let change_indices: Vec<usize> = state
        .file_view
        .lines
        .iter()
        .enumerate()
        .filter(|(_, l)| l.style.bg.is_some())
        .map(|(i, _)| i)
        .collect();
    assert!(
        change_indices.len() >= 3,
        "expected at least 3 change rows in the unified diff, got {change_indices:?}"
    );
    state.on_action(KeyAction::NewSession, &mut parser, None);
    assert_eq!(state.file_view.scroll as usize, change_indices[0]);
    for _ in 0..change_indices.len() {
        state.on_action(KeyAction::NewSession, &mut parser, None);
    }
    let last_change = *change_indices.last().unwrap() as u16;
    assert_eq!(state.file_view.scroll, last_change, "should land on the last change row");
    state.on_action(KeyAction::NewSession, &mut parser, None);
    assert_eq!(state.file_view.scroll, last_change, "n at last change must no-op");
}

#[test]
fn code_review_opens_on_the_latest_snap_and_steps_back() {
    let mut state = review();
    let mut parser = VimParser::new();
    assert_eq!(state.cur_snap_idx, 1);
    assert_eq!(state.title(), " snap 1 · x.py ");
    let rows: Vec<String> = state.file_view.lines.iter().map(text_of).collect();
    assert_eq!(
        rows,
        vec!["   1   a", "   2 - b", "   3 - c", "   2 + X", "   3 + Y", "   4   d", "   5 + e"]
    );
    state.file_view.scroll = 6;
    state.on_action(KeyAction::NewSessionAndOpen, &mut parser, None);
    assert_eq!(state.file_view.scroll, 4);
    state.on_action(KeyAction::Back, &mut parser, None);
    assert_eq!(state.cur_snap_idx, 0);
    assert_eq!(state.file_view.scroll, 0);
    assert_eq!(state.title(), " snap 0 · x.py ");
    let top = text_of(&state.scrubber_line());
    assert!(top.ends_with("  snap 1/2 "), "got {top:?}");
    state.on_action(KeyAction::Enter, &mut parser, None);
    assert_eq!(state.cur_snap_idx, 1);
    assert_eq!(
        state.on_action(KeyAction::Quit, &mut parser, None),
        CodeReviewCmd::Pop
    );
}

#[test]
fn code_review_refresh_is_skipped_while_nothing_changed() {
    let mut state = review();
    let head = state.session.id;
    state.refresh(Some(5));
    state.store.snaps.write(&head, built(2, "x.py", "z\n", Some(1), 3));
    state.refresh(Some(5));
    assert_eq!(state.entries, vec![0, 1]);
    state.refresh(Some(6));
    assert_eq!(state.entries, vec![0, 1, 2]);
    assert_eq!(state.cur_snap_idx, 1, "the snap that is shown stays");
    assert_eq!(state.theme_name(), THEME);
}

#[test]
fn render_does_not_clone_lines() {
    let mut state = FileViewState { lines: vec![plain("hello world")], scroll: 0 };
    draw(&mut state, 40, 10);
    assert_eq!(state.lines.len(), 1);
    assert_eq!(state.lines[0].spans.len(), 1);
}

fn row(buf: &Buffer, y: u16) -> String {
    (0..18).map(|x| buf.get(1 + x, y).symbol().chars().next().unwrap_or(' ')).collect()
}

#[test]
fn render_writes_spans_at_expected_positions() {
    let spans = vec![
        Span::of("ab", Style::plain()),
        Span::of("cd", Style::plain()),
        Span::of("ef", Style::plain()),
    ];
    let mut state = FileViewState { lines: vec![Line::of(spans)], scroll: 0 };
    let buf = draw(&mut state, 20, 5);
    let row = row(&buf, 1);
    assert!(
        row.starts_with("abcdef"),
        "expected the first row to start with 'abcdef', got {row:?}"
    );
}

#[test]
fn render_respects_scroll() {
    let mut state = FileViewState { lines: vec![plain("first"), plain("second")], scroll: 0 };
    state.scroll = 1;
    let buf = draw(&mut state, 20, 3);
    let row = row(&buf, 1);
    assert!(
        row.starts_with("second"),
        "expected scroll=1 to show 'second' at the top, got {row:?}"
    );
}

#[test]
fn render_clamps_scroll_past_end() {
    let mut state = FileViewState { lines: vec![plain("a"), plain("b")], scroll: 99 };
    draw(&mut state, 20, 5);
    assert!(state.scroll <= 1, "scroll should be clamped, got {}", state.scroll);
}

#[test]
fn render_truncates_overflowing_spans() {
    let mut state = FileViewState { lines: vec![plain(&"a".repeat(100))], scroll: 0 };
    let buf = draw(&mut state, 10, 3);
    assert_eq!(buf.get(8, 1).symbol(), "a");
    assert_ne!(buf.get(9, 1).symbol(), "a");
}

#[test]
fn render_applies_line_bg_to_all_cells() {
    let line_bg = Color::Rgb(0, 90, 0);
    let tinted = |text: &str| Line {
        spans: vec![Span::of(text, Style::plain())],
        style: Style::bg(line_bg),
    };
    let mut state = FileViewState { lines: vec![tinted("ab"), tinted("short")], scroll: 0 };
    let buf = draw(&mut state, 20, 4);
    for y in 1..3u16 {
        for x in 1..19u16 {
            let cell = buf.get(x, y);
            assert_eq!(
                cell.bg,
                color(line_bg),
                "row {y} cell at x={x} should have the line bg, got {:?}",
                cell.bg
            );
        }
    }
}

#[test]
fn wide_characters_take_two_cells() {
    let line = Line::of(vec![Span::of("日本", Style::plain()), Span::of("x", Style::plain())]);
    let layout = layout_line(&line, 3, 10);
    assert_eq!(layout.writes[0].cells, 4);
    assert_eq!(layout.writes[1].x, 7);
    assert_eq!(layout.fill_from, 8);
    assert_eq!(layout.fill_to, 13);
}

#[test]
fn render_snap_marks_added_lines_with_green_bg() {
    let lines =
        render_snap(&mut engine(), "alpha\nbeta\n", "alpha\nbeta\ngamma\n", "a.txt", true);
    assert_eq!(lines.len(), 3);
    assert_eq!(lines[2].style.bg, Some(Palette::added_bg()));
    assert_ne!(lines[0].style.bg, Some(Palette::added_bg()));
    assert_ne!(lines[1].style.bg, Some(Palette::added_bg()));
}

#[test]
fn render_snap_marks_removed_lines_with_red_bg_and_shows_text() {
    let lines =
        render_snap(&mut engine(), "alpha\nbeta\ngamma\n", "alpha\ngamma\n", "a.txt", true);
    assert_eq!(lines.len(), 3);
    assert_eq!(lines[1].style.bg, Some(Palette::removed_bg()));
    let text = text_of(&lines[1]);
    assert!(text.contains("beta"), "removed row should show the prior text, got {text:?}");
}

#[test]
fn render_snap_replace_emits_old_then_new() {
    let lines = render_snap(&mut engine(), "a\nb\nc\nd\n", "a\nX\nY\nd\n", "a.txt", true);
    assert_eq!(lines.len(), 6);
    for (i, expected) in [(1usize, "b"), (2usize, "c")] {
        assert_eq!(lines[i].style.bg, Some(Palette::removed_bg()));
        let text = text_of(&lines[i]);
        assert!(text.contains(expected), "row {i} should contain {expected:?}, got {text:?}");
    }
    for (i, expected) in [(3usize, "X"), (4usize, "Y")] {
        assert_eq!(lines[i].style.bg, Some(Palette::added_bg()));
        let text = text_of(&lines[i]);
        assert!(text.contains(expected), "row {i} should contain {expected:?}, got {text:?}");
    }
}

#[test]
fn render_snap_no_change_is_all_equal() {
    let lines = render_snap(&mut engine(), "a\nb\n", "a\nb\n", "a.txt", true);
    assert_eq!(lines.len(), 2);
    for l in &lines {
        assert!(l.style.bg.is_none() || l.style.bg == Some(Color::Reset));
    }
}

#[test]
fn render_snap_first_snap_of_file_renders_all_added() {
    let lines = render_snap(&mut engine(), "", "a\nb\nc\n", "a.txt", true);
    assert_eq!(lines.len(), 3);
    for l in &lines {
        assert_eq!(l.style.bg, Some(Palette::added_bg()));
    }
}

#[test]
fn render_snap_gutter_uses_plus_minus_space_signs() {
    let lines = render_snap(&mut engine(), "a\nb\n", "a\nc\n", "a.txt", true);
    let collect = |i: usize| -> String { text_of(&lines[i]) };
    assert!(
        collect(0).contains("  1 │"),
        "equal row should have '  N │' gutter, got {:?}",
        collect(0)
    );
    assert!(
        collect(1).contains("- 2 │"),
        "delete row should have '- M │' gutter, got {:?}",
        collect(1)
    );
    assert!(
        collect(2).contains("+ 2 │"),
        "insert row should have '+ N │' gutter, got {:?}",
        collect(2)
    );
}

#[test]
fn render_snap_omits_gutter_when_disabled() {
    let lines = render_snap(&mut engine(), "", "a\nb\n", "a.txt", false);
    assert_eq!(lines.len(), 2);
    for (i, l) in lines.iter().enumerate() {
        let expected = ["a", "b"][i];
        assert_eq!(text_of(l), expected);
    }
}

#[test]
fn render_snap_derives_diff_from_content() {
    let lines = render_snap(&mut engine(), "x\ny\n", "x\ny\nz\n", "a.txt", true);
    assert_eq!(lines.len(), 3);
    assert_eq!(lines[2].style.bg, Some(Palette::added_bg()));
    assert_ne!(lines[0].style.bg, Some(Palette::added_bg()));
    assert_ne!(lines[1].style.bg, Some(Palette::added_bg()));
}

#[test]
fn known_syntaxes_are_coloured_and_unknown_ones_are_plain() {
    let mut engine = engine();
    let rust = engine.syntax_for("src/main.RS");
    assert!(rust.is_some());
    let spans = engine.highlight_line("fn main() {}", &rust);
    assert!(spans.len() > 1, "expected several pieces, got {spans:?}");
    assert!(spans.iter().all(|s| s.style.fg.is_some()));
    assert_eq!(spans.iter().map(|s| s.text.clone()).collect::<String>(), "fn main() {}");
    let nothing = engine.syntax_for("README.unknown-extension");
    assert!(nothing.is_none());
    let spans = engine.highlight_line("fn main() {}", &nothing);
    assert_eq!(spans.len(), 1);
    assert!(spans[0].style.fg.is_none());
    assert_eq!(engine.cache.len(), 2);
    engine.syntax_for("lib.rs");
    assert_eq!(engine.cache.len(), 2);
}

#[test]
fn unknown_themes_fall_back() {
    let wanted = HighlightEngine::new("Solarized (dark)").unwrap();
    assert_eq!(wanted.theme, "Solarized (dark)");
    let fallback = HighlightEngine::new("no such theme").unwrap();
    assert_eq!(fallback.theme, THEME);
}

#[test]
fn gg_is_goto_first() {
    let mut p = VimParser::new();
    assert!(matches!(p.feed(k('g')), KeyOutcome::Pending(_)));
    assert!(matches!(p.feed(k('g')), KeyOutcome::Action(KeyAction::GotoFirst)));
}

#[test]
fn j_k_h_l() {
    let mut p = VimParser::new();
    assert!(matches!(p.feed(k('j')), KeyOutcome::Action(KeyAction::Down)));
    assert!(matches!(p.feed(k('k')), KeyOutcome::Action(KeyAction::Up)));
    assert!(matches!(p.feed(k('h')), KeyOutcome::Action(KeyAction::Back)));
    assert!(matches!(p.feed(k('l')), KeyOutcome::Action(KeyAction::Enter)));
}

#[test]
fn jk_caps_jump_10() {
    let mut p = VimParser::new();
    assert!(matches!(p.feed(k('J')), KeyOutcome::Action(KeyAction::JumpDown10)));
    assert!(matches!(p.feed(k('K')), KeyOutcome::Action(KeyAction::JumpUp10)));
}

#[test]
fn brackets_step_snap() {
    let mut p = VimParser::new();
    assert!(matches!(p.feed(k('[')), KeyOutcome::Action(KeyAction::PrevSnap)));
    assert!(matches!(p.feed(k(']')), KeyOutcome::Action(KeyAction::NextSnap)));
}

#[test]
fn reset_after_non_g_char() {
    let mut p = VimParser::new();
    p.feed(k('g'));
    p.feed(k('x'));
    assert!(matches!(p.state, KeyState::Idle));
}

/// A project whose open session has two whole snaps.
fn two_snaps() -> (RepoStore, SessionMeta) {
    let mut store = init();
    let s = store.open_first_session("live".to_string(), &no_files(), 20).unwrap();
    let tree = vec![WorkFile {
        path: root().join("a.txt"),
        content: FileContent::Read(b"one\ntwo\n".to_vec()),
    }];
    store.snaps.capture(&s.id, &store.ignore, &tree, 1719236589441);
    (store, s)
}

#[test]
fn live_view_follows_the_cursor() {
    let (store, session) = two_snaps();
    let mut tui = LiveTui::new(store, session).unwrap();
    assert_eq!(tui.snap_list.entries.len(), 2);
    assert_eq!(tui.snap_list.cursor, 1);
    assert!(tui.needs_redraw);
    tui.prepare();
    assert!(!tui.needs_redraw);
    assert_eq!(tui.diff_view.current_snap_n, Some(2));
    assert_eq!(tui.diff_view.title(), " snap 2 · diff vs snap 1 ");
    let shown: String = tui.diff_view.lines.iter().map(text_of).collect();
    assert!(shown.contains("a.txt"), "got {shown:?}");
    assert!(shown.contains("two"), "got {shown:?}");
    assert_eq!(tui.handle_live_key(k('k')), LiveKeyResult::Continue);
    assert_eq!(tui.snap_list.cursor, 0);
    tui.prepare();
    assert_eq!(tui.diff_view.lines.len(), 0);
    assert_eq!(tui.diff_view.placeholder(), BASELINE_TEXT);
    tui.handle_live_key(k('G'));
    assert_eq!(tui.snap_list.cursor, 1);
    tui.handle_live_key(k('g'));
    assert_eq!(tui.snap_list.cursor, 0);
    assert_eq!(tui.handle_live_key(k('q')), LiveKeyResult::Quit);
    let interrupt = Key { code: KeyCode::Char('c'), control: true };
    assert_eq!(tui.handle_live_key(interrupt), LiveKeyResult::Quit);
    assert_eq!(tui.handle_live_key(k('c')), LiveKeyResult::Continue);
    assert!(text_of(&tui.status_bar()).starts_with(" grs — session: live "));
    let rows: Vec<String> = tui.snap_list.rows().iter().map(text_of).collect();
    assert!(rows[1].contains("13:43:09"), "got {rows:?}");
}

#[test]
fn live_view_loads_again_when_a_snap_is_captured() {
    let (store, session) = two_snaps();
    let id = session.id;
    let mut tui = LiveTui::new(store, session).unwrap();
    tui.prepare();
    let (mut fresh, _) = two_snaps();
    fresh.snaps.snaps.clear();
    let tree = no_files();
    for now in 0..3 {
        fresh.snaps.capture(&id, &fresh.ignore, &tree, now);
    }
    tui.on_watch_event(WatchEvent::SnapCaptured { n: 3 }, fresh);
    assert_eq!(tui.snap_list.entries.len(), 3);
    assert_eq!(tui.snap_list.cursor, 2);
    assert!(tui.needs_redraw);
    assert_eq!(observe(2, 3), (3, Some(WatchEvent::SnapCaptured { n: 3 })));
    assert_eq!(observe(3, 3), (3, None));
}

#[test]
fn viewer_shows_a_session_without_changing_it() {
    let (store, session) = two_snaps();
    let mut v = Viewer::open(store, session).unwrap();
    assert_eq!(v.diff_view.current_snap_n, Some(2));
    assert_eq!(v.handle_key(k('k')), LiveKeyResult::Continue);
    assert_eq!(v.diff_view.current_snap_n, Some(1));
    assert_eq!(
        v.handle_key(Key { code: KeyCode::Esc, control: false }),
        LiveKeyResult::Quit
    );
    assert!(text_of(&v.status_bar()).starts_with(" grs — viewing: live   (read-only) "));
}

#[test]
fn quitting_ends_the_session_with_its_count() {
    let (mut store, session) = two_snaps();
    assert_eq!(open_session(&store).unwrap().unwrap().id, session.id);
    let ended = finalize_session(&mut store, &session.id, 99).unwrap();
    assert_eq!(ended.ended_at, Some(99));
    assert_eq!(ended.snap_count, 2);
    assert!(open_session(&store).unwrap().is_none());
}

#[test]
fn name_prompt_takes_a_name() {
    let mut p = NamePrompt::new();
    let enter = Key { code: KeyCode::Enter, control: false };
    assert!(matches!(p.feed(enter), PromptStep::Typing));
    for c in " my x".chars() {
        p.feed(k(c));
    }
    p.feed(Key { code: KeyCode::Char('v'), control: true });
    p.feed(Key { code: KeyCode::Backspace, control: false });
    let shown: Vec<String> = p.lines(&root()).iter().map(text_of).collect();
    assert_eq!(shown[0], "project: proj");
    assert_eq!(shown[2], ">  my _");
    match p.feed(enter) {
        PromptStep::Named(n) => assert_eq!(n, "my"),
        other => panic!("expected a name, got {other:?}"),
    }
    assert!(matches!(
        p.feed(Key { code: KeyCode::Esc, control: false }),
        PromptStep::Cancelled
    ));
    assert!(matches!(
        p.feed(Key { code: KeyCode::Char('c'), control: true }),
        PromptStep::Cancelled
    ));
}

#[test]
fn keys_mean_different_things_by_place() {
    let mut p = VimParser::new();
    assert_eq!(replay_action(&mut p, k(' '), 0), KeyAction::PlayPause);
    assert_eq!(replay_action(&mut p, k('h'), 0), KeyAction::StepBack);
    assert_eq!(replay_action(&mut p, k('g'), 0), KeyAction::Nothing);
    assert_eq!(replay_action(&mut p, k('g'), 0), KeyAction::GotoFirst);
    assert_eq!(replay_action(&mut p, k('q'), 0), KeyAction::Quit);
    assert_eq!(typing_action(k('q')), KeyAction::FilterChar('q'));
    assert_eq!(
        typing_action(Key { code: KeyCode::Char('c'), control: true }),
        KeyAction::CancelFilter
    );
    assert_eq!(
        typing_action(Key { code: KeyCode::Enter, control: false }),
        KeyAction::ConfirmFilter
    );
}

#[test]
fn a_number_after_a_colon_goes_to_the_snap() {
    let enter = Key { code: KeyCode::Enter, control: false };
    let mut p = VimParser::new();
    assert!(matches!(p.feed(k(':')), KeyOutcome::Pending(KeyState::PendingColon(_))));
    p.feed(k('1'));
    p.feed(k('2'));
    p.feed(k('3'));
    p.feed(Key { code: KeyCode::Backspace, control: false });
    match p.state() {
        KeyState::PendingColon(t) => assert_eq!(t, "12"),
        other => panic!("unexpected {other:?}"),
    }
    assert!(matches!(p.feed(enter), KeyOutcome::Action(KeyAction::GotoSnap(12))));
    assert!(matches!(p.state(), KeyState::Idle));
    p.feed(k(':'));
    assert!(matches!(p.feed(enter), KeyOutcome::Cleared));
    for c in ":4294967296".chars() {
        p.feed(k(c));
    }
    assert!(matches!(p.feed(enter), KeyOutcome::Cleared));
    p.feed(k(':'));
    assert!(matches!(p.feed(k('j')), KeyOutcome::Cleared));
    assert!(matches!(p.feed(k('j')), KeyOutcome::Action(KeyAction::Down)));
    p.feed(k(':'));
    let esc = Key { code: KeyCode::Esc, control: false };
    assert!(matches!(p.feed(esc), KeyOutcome::Cleared));
    assert_eq!(replay_action(&mut p, k(':'), 10), KeyAction::Nothing);
    assert_eq!(replay_action(&mut p, k('2'), 20), KeyAction::Nothing);
    assert_eq!(replay_action(&mut p, enter, 30), KeyAction::GotoSnap(2));
}

#[test]
fn sequences_are_forgotten_after_half_a_second() {
    let enter = Key { code: KeyCode::Enter, control: false };
    let mut p = VimParser::new();
    p.feed_at(k('g'), 1000);
    assert!(matches!(p.feed_at(k('g'), 1499), KeyOutcome::Action(KeyAction::GotoFirst)));
    p.feed_at(k('g'), 2000);
    assert!(matches!(p.feed_at(k('g'), 2500), KeyOutcome::Pending(KeyState::PendingG)));
    assert!(matches!(p.feed_at(k('g'), 2900), KeyOutcome::Action(KeyAction::GotoFirst)));
    p.feed_at(k(':'), 3000);
    p.feed_at(k('7'), 3400);
    assert!(matches!(p.feed_at(enter, 3800), KeyOutcome::Action(KeyAction::GotoSnap(7))));
    p.feed_at(k(':'), 4000);
    p.feed_at(k('7'), 4400);
    assert!(matches!(p.feed_at(enter, 5000), KeyOutcome::Action(KeyAction::Enter)));
    p.feed_at(k('/'), 6000);
    assert!(matches!(
        p.feed_at(k('a'), 9000),
        KeyOutcome::Action(KeyAction::FilterChar('a'))
    ));
}

#[test]
fn what_was_looked_up_is_kept() {
    let mut e = engine();
    let name = e.theme_name.clone();
    render_snap(&mut e, "", "fn main() {}\n", "a.rs", true);
    assert_eq!(e.cache.len(), 1);
    assert_eq!(e.cache[0].0, "rs");
    assert!(e.cache[0].1.is_some());
    render_snap(&mut e, "", "fn main() {}\n", "b.RS", false);
    assert_eq!(e.cache.len(), 1);
    assert_eq!(e.theme_name, name);
}

#[test]
fn popups_are_in_the_middle() {
    let area = Rect { x: 0, y: 0, width: 100, height: 27 };
    assert_eq!(
        centered_rect(60, 7, area),
        Rect { x: 20, y: 10, width: 60, height: 7 }
    );
    assert_eq!(help_rect(100, 30, 40, 18), Rect { x: 4, y: 6, width: 92, height: 18 });
    assert_eq!(help_rect(30, 10, 40, 18), Rect { x: 0, y: 2, width: 40, height: 6 });
}
