//! What holds of the library as a whole, on concrete values, and its edge cases.

use grs::config::{expand_tilde, user_config_path, Config, ConfigLayer};
use grs::diff::line_diff;
use grs::error::GrsError;
use grs::ignore::{decide, prunes_dir, IgnoreFile, IgnoreMatcher};
use grs::lockfile::{lock_contents, read_pid, LockAction, LockFile, LockGuard};
use grs::model::{SessionMeta, SnapFile, SnapMeta};
use grs::path::FsPath;
use grs::paths::{ancestors, parse_session_folder, relativize, slugify, GrsPaths};
use grs::session::{fresh_started_at, SessionEntry, SessionStore, StoredSession};
use grs::snap::{parse_snap_dir_name, SnapStore, StoredMeta, StoredSnap, WorkFile};
use grs::store::{fresh_now, write_file_snap, Disk, GrsEntry, RepoStore};
use grs::tree_diff::{diff_snap_meta, file_changes, Content, FileChange};
use grs::tui::code_review::{render_snap_stream, SnapBody};
use grs::tui::input::{Key, KeyAction, KeyCode, KeyOutcome, KeyState, VimParser};
use grs::tui::session_list::{
    format_started, started_at_offset, words_or_millis, SessionListState,
};
use grs::tui::snap_list::{clock_or_unknown, format_timestamp};
use grs::ulid::SessionId;
use grs::util::fs::{is_binary, read_content_or_binary_placeholder, FileContent};
use grs::util::time::{iso, now_ms, time_ago, FIRST_MILLIS, LAST_MILLIS};
use grs::watcher::capture_if_changed;

fn root() -> FsPath {
    FsPath::parse("/home/x/proj")
}

fn file(path: &str, content: &str) -> WorkFile {
    WorkFile {
        path: root().join_path(&FsPath::parse(path)),
        content: FileContent::Read(content.as_bytes().to_vec()),
    }
}

fn disk(grs: GrsEntry) -> Disk {
    Disk {
        grs,
        user: ConfigLayer::default(),
        config_text: String::new(),
        config: Ok(ConfigLayer::default()),
        head: String::new(),
        sessions: Vec::new(),
        snaps: Vec::new(),
        file_snaps: Vec::new(),
        ignore_files: Vec::new(),
    }
}

fn init() -> RepoStore {
    RepoStore::init(&root(), disk(GrsEntry::Absent), "init".to_string(), &Vec::new(), 10).unwrap()
}

fn sessions() -> SessionStore {
    SessionStore::new(GrsPaths::new(&root()), Vec::new())
}

fn plain_matcher() -> IgnoreMatcher {
    IgnoreMatcher::new(&root(), &Vec::new(), Vec::new())
}

#[test]
fn ids_print_and_sort_as_numbers() {
    assert_eq!(SessionId(0).as_str(), "00000000000000000000000000");
    assert_eq!(SessionId(31).as_str(), "0000000000000000000000000Z");
    assert_eq!(SessionId(32).as_str(), "00000000000000000000000010");
    assert_eq!(SessionId(u128::MAX).as_str(), "7ZZZZZZZZZZZZZZZZZZZZZZZZZ");
    assert_eq!(SessionId::parse("0000000000000000000000000z").unwrap(), SessionId(31));
    assert!(SessionId(31).as_str() < SessionId(32).as_str());
}

#[test]
fn ids_that_are_none_say_why() {
    match SessionId::parse("short").unwrap_err() {
        GrsError::NotFound(m) => assert_eq!(m, "invalid session id \"short\": invalid length"),
        other => panic!("unexpected {other:?}"),
    }
    match SessionId::parse("0000000000000000000000000U").unwrap_err() {
        GrsError::NotFound(m) => assert_eq!(
            m,
            "invalid session id \"0000000000000000000000000U\": invalid character"
        ),
        other => panic!("unexpected {other:?}"),
    }
}

#[test]
fn folder_names_give_the_id_back() {
    let id = SessionId(12345);
    assert_eq!(parse_session_folder(&id.as_str()), Some(id));
    assert_eq!(parse_session_folder(&format!("my-slug_{}", id.as_str())), Some(id));
    assert_eq!(parse_session_folder("my-slug"), None);
}

#[test]
fn snap_names_give_the_number_back() {
    assert_eq!(parse_snap_dir_name("snap-1"), Some(1));
    assert_eq!(parse_snap_dir_name("snap-4294967295"), Some(u32::MAX));
    assert_eq!(parse_snap_dir_name("snap-4294967296"), None);
    assert_eq!(parse_snap_dir_name("snap-"), None);
    assert_eq!(parse_snap_dir_name("shot-1"), None);
    let paths = GrsPaths::new(&root());
    let dir = paths.snap_dir(&SessionId(1), 17).file_name().unwrap();
    assert_eq!(parse_snap_dir_name(&dir), Some(17));
}

#[test]
fn paths_behave_like_paths() {
    assert_eq!(FsPath::parse("/a//b/./c/").text(), "/a/b/c");
    assert_eq!(FsPath::parse("/").text(), "/");
    assert_eq!(FsPath::parse("a/b").join("c").text(), "a/b/c");
    assert!(FsPath::parse("/a/b").is_under(&FsPath::parse("/a")));
    assert!(!FsPath::parse("/ab").is_under(&FsPath::parse("/a")));
    assert_eq!(FsPath::parse("/a/b.tar.gz").extension().as_deref(), Some("gz"));
    assert_eq!(FsPath::parse("/a/.bashrc").extension(), None);
    assert_eq!(FsPath::parse("/a/..").file_name(), None);
    assert_eq!(FsPath::parse("/a/b.").extension().as_deref(), Some(""));
    assert_eq!(relativize(&root(), &FsPath::parse("/elsewhere/a")), "/elsewhere/a");
    let up: Vec<String> = ancestors(&FsPath::parse("/a/b")).iter().map(|p| p.text()).collect();
    assert_eq!(up, vec!["/a/b", "/a", "/"]);
}

#[test]
fn slugs_have_a_shape() {
    for name in ["", "!!!", "Ä b", "x".repeat(100).as_str(), "A--B", "-a-"] {
        let s = slugify(name);
        assert!(!s.is_empty() && s.chars().count() <= 60);
        assert!(!s.starts_with('-') && !s.ends_with('-'), "{s:?}");
    }
    assert_eq!(slugify("A--B"), "a-b");
}

#[test]
fn the_diff_explains_the_change() {
    let d = line_diff("a\nb\nc\n", "");
    assert_eq!(d.removed_lines, vec![1, 2, 3]);
    assert!(d.added_lines.is_empty());
    let d = line_diff("a\r\nb", "a\nb");
    assert_eq!(d.added_lines, vec![1]);
    assert_eq!(d.removed_lines, vec![1]);
}

#[test]
fn names_stay_unique_and_whole_names_resolve() {
    let mut st = sessions();
    let a = st.create_with_id("abc".to_string(), 1, SessionId(1)).unwrap();
    let b = st.create_with_id("abcd".to_string(), 2, SessionId(2)).unwrap();
    assert_eq!(st.resolve("abc").unwrap().id, a.id);
    assert_eq!(st.resolve("abcd").unwrap().id, b.id);
    assert!(matches!(st.resolve("ab").unwrap_err(), GrsError::AmbiguousId(q) if q == "ab"));
    assert!(matches!(st.resolve("zzz").unwrap_err(), GrsError::NotFound(_)));
    assert_eq!(st.resolve(&b.id.as_str()).unwrap().name, "abcd");
    assert!(st.name_taken("abc"));
    st.rename("abc", "x y".to_string()).unwrap();
    assert!(!st.name_taken("abc"));
    assert!(matches!(st.rename("abcd", " ".to_string()).unwrap_err(), GrsError::InvalidName(_)));
}

#[test]
fn listing_is_newest_first_and_skips_what_cannot_be_read() {
    let mut st = sessions();
    st.create_with_id("a".to_string(), 5, SessionId(1)).unwrap();
    st.create_with_id("b".to_string(), 9, SessionId(2)).unwrap();
    st.create_with_id("c".to_string(), 7, SessionId(3)).unwrap();
    st.entries.push(SessionEntry {
        folder: SessionId(4).as_str(),
        meta: StoredSession::Malformed("bad".to_string()),
    });
    st.entries.push(SessionEntry { folder: "junk".to_string(), meta: StoredSession::Missing });
    let names: Vec<String> = st.list().iter().map(|s| s.name.clone()).collect();
    assert_eq!(names, vec!["b", "c", "a"]);
    assert!(matches!(st.get(&SessionId(4)).unwrap_err(), GrsError::Toml(m) if m == "bad"));
    assert!(matches!(st.get(&SessionId(5)).unwrap_err(), GrsError::NotFound(_)));
    st.entries.push(SessionEntry {
        folder: SessionId(6).as_str(),
        meta: StoredSession::Unreadable("denied".to_string()),
    });
    assert!(matches!(st.get(&SessionId(6)).unwrap_err(), GrsError::Io(_)));
    assert!(matches!(
        st.write_meta(&SessionMeta::new_open("n".to_string(), SessionId(8), "n".to_string(), 0))
            .unwrap_err(),
        GrsError::Io(_)
    ));
}

#[test]
fn head_round_trips_and_broken_heads_are_noticed() {
    let mut store = init();
    store.set_head(&SessionId(77));
    assert_eq!(store.head().unwrap(), Some(SessionId(77)));
    assert!(matches!(store.current_session().unwrap_err(), GrsError::NotFound(_)));
    store.head = "nonsense\n".to_string();
    assert!(store.head().is_err());
    assert!(store.rotate_open_session("n".to_string(), &Vec::new(), 1).is_ok());
    store.head = " \n".to_string();
    assert_eq!(store.head().unwrap(), None);
}

#[test]
fn faulty_configuration_names_its_file() {
    let mut d = disk(GrsEntry::Directory);
    d.config_text = "nonsense".to_string();
    d.config = Err("expected =".to_string());
    match RepoStore::open(&root(), d).unwrap_err() {
        GrsError::Config(m) => assert_eq!(m, "/home/x/proj/.grs/config.toml: expected ="),
        other => panic!("unexpected {other:?}"),
    }
    assert!(matches!(
        RepoStore::open(&root(), disk(GrsEntry::Absent)).unwrap_err(),
        GrsError::NotInitialized
    ));
}

/// The settings of a project, given what the user's and the project's files set.
fn opened_with(user: ConfigLayer, repo: ConfigLayer) -> Config {
    let mut d = disk(GrsEntry::Directory);
    d.user = user;
    d.config_text = "x".to_string();
    d.config = Ok(repo);
    RepoStore::open(&root(), d).unwrap().config
}

#[test]
fn project_settings_win_over_user_settings() {
    let mut user = ConfigLayer::default();
    user.debounce_ms = Some(50);
    user.tui_theme = Some("mine".to_string());
    user.ignore_extra = Some(vec!["*.log".to_string()]);
    let mut repo = ConfigLayer::default();
    repo.debounce_ms = Some(70);
    repo.replay_theme = Some("ours".to_string());
    repo.ignore_extra = Some(vec!["*.tmp".to_string()]);
    let c = opened_with(user, repo);
    assert_eq!(c.watcher.debounce_ms, 70);
    assert_eq!(c.watcher.ignore_extra, vec!["*.tmp".to_string()]);
    assert_eq!(c.tui.syntax_theme, "mine");
    assert_eq!(c.replay.syntax_theme, "ours");
    assert_eq!(c.replay.default_speed_ms, 600);
}

#[test]
fn a_project_setting_that_is_the_default_still_wins() {
    let user = || ConfigLayer {
        debounce_ms: Some(250),
        ignore_extra: Some(vec!["*.log".to_string()]),
        default_speed_ms: Some(900),
        replay_theme: Some("mine".to_string()),
        tui_theme: Some("mine".to_string()),
    };
    let defaults = Config::default();
    let repo = ConfigLayer {
        debounce_ms: Some(180),
        ignore_extra: Some(Vec::new()),
        default_speed_ms: Some(600),
        replay_theme: Some(defaults.replay.syntax_theme.clone()),
        tui_theme: Some(defaults.tui.syntax_theme.clone()),
    };
    let c = opened_with(user(), repo);
    assert_eq!(c.watcher.debounce_ms, 180);
    assert_eq!(c.watcher.ignore_extra, vec!["*.log".to_string()]);
    assert_eq!(c.replay.default_speed_ms, 600);
    assert_eq!(c.replay.syntax_theme, defaults.replay.syntax_theme);
    assert_eq!(c.tui.syntax_theme, defaults.tui.syntax_theme);
    let c = opened_with(user(), ConfigLayer::default());
    assert_eq!(c.watcher.debounce_ms, 250);
    assert_eq!(c.replay.default_speed_ms, 900);
    assert_eq!(c.replay.syntax_theme, "mine");
    assert_eq!(c.tui.syntax_theme, "mine");
}

#[test]
fn what_a_layer_sets_wins_in_a_merge() {
    let mut below = Config::default();
    below.watcher.debounce_ms = 7;
    let mut layer = ConfigLayer::default();
    layer.default_speed_ms = Some(8);
    let c = below.merged_with(layer);
    assert_eq!((c.watcher.debounce_ms, c.replay.default_speed_ms), (7, 8));
    let c = Config::load_user(Some((" \n".to_string(), Err("bad".to_string()))));
    assert_eq!(c.watcher.debounce_ms, 180);
    let c = Config::load_user(Some(("x".to_string(), Err("bad".to_string()))));
    assert_eq!(c.watcher.debounce_ms, 180);
}

#[test]
fn the_first_configuration_file_sets_nothing() {
    let doc = Config::default_toml().parse::<toml_edit::DocumentMut>().unwrap();
    for name in ["watcher", "replay", "tui"] {
        assert!(doc[name].as_table().unwrap().is_empty(), "{name}");
    }
    let mut d = disk(GrsEntry::Absent);
    d.user.debounce_ms = Some(250);
    let store = RepoStore::init(&root(), d, "init".to_string(), &Vec::new(), 10).unwrap();
    assert_eq!(store.config().watcher.debounce_ms, 250);
    assert_eq!(store.config().replay.default_speed_ms, 600);
}

#[test]
fn the_first_session_is_filled_under_the_default_configuration() {
    let mut d = disk(GrsEntry::Absent);
    d.user.ignore_extra = Some(vec!["*.log".to_string()]);
    d.ignore_files = vec![IgnoreFile { dir: root(), text: "a.txt\n".to_string() }];
    let tree = vec![file("a.txt", "a\n"), file("b.log", "b\n"), file("target/c", "c\n")];
    let store = RepoStore::init(&root(), d, "init".to_string(), &tree, 10).unwrap();
    let filled: Vec<&str> =
        store.snaps().file_snaps.iter().map(|s| s.snap.file_path.as_str()).collect();
    assert_eq!(filled, vec!["a.txt", "b.log"]);
    assert_eq!(store.config().watcher.ignore_extra, vec!["*.log".to_string()]);
    assert!(store.ignore_matcher().is_ignored(&FsPath::parse("b.log")));
    assert!(!store.ignore_matcher().is_ignored(&FsPath::parse("a.txt")));
}

#[test]
fn a_plain_file_in_place_of_the_directory_is_refused() {
    let name = || "n".to_string();
    for grs in [GrsEntry::File, GrsEntry::Directory] {
        assert!(matches!(
            RepoStore::init(&root(), disk(grs), name(), &Vec::new(), 1).unwrap_err(),
            GrsError::AlreadyInitialized
        ));
    }
    assert!(matches!(
        RepoStore::open_or_init(&root(), disk(GrsEntry::File), name(), &Vec::new(), 1)
            .unwrap_err(),
        GrsError::AlreadyInitialized
    ));
    assert!(matches!(
        RepoStore::open(&root(), disk(GrsEntry::File)).unwrap_err(),
        GrsError::NotInitialized
    ));
}

#[test]
fn rotation_leaves_a_broken_head_behind() {
    let mut store = init();
    let old = store.head().unwrap().unwrap();
    store.head = "nonsense\n".to_string();
    let fresh = store.rotate_open_session("next".to_string(), &Vec::new(), 50).unwrap();
    assert_eq!(store.head().unwrap(), Some(fresh.id));
    assert!(store.current_session().unwrap().is_open());
    assert!(store.sessions().get(&old).unwrap().is_open());
    store.set_head(&SessionId(77));
    let third = store.rotate_open_session("third".to_string(), &Vec::new(), 60).unwrap();
    assert_eq!(store.head().unwrap(), Some(third.id));
}

#[test]
fn rotation_counts_snaps_and_files_anew() {
    let mut store = init();
    let old = store.head().unwrap().unwrap();
    write_file_snap(&mut store, &old, "a.txt", "a\n", None, 20).unwrap();
    write_file_snap(&mut store, &old, "b.txt", "b\n", None, 21).unwrap();
    write_file_snap(&mut store, &old, "a.txt", "aa\n", None, 22).unwrap();
    let mut m = store.sessions().get(&old).unwrap().copy();
    m.snap_count = 40;
    m.file_count = 41;
    store.sessions.write_meta(&m).unwrap();
    store.rotate_open_session("next".to_string(), &Vec::new(), 50).unwrap();
    let ended = store.sessions().get(&old).unwrap();
    assert_eq!(ended.ended_at, Some(50));
    assert_eq!((ended.snap_count, ended.file_count), (3, 2));
    assert_eq!(ended.name, "init");
}

#[test]
fn a_save_reports_what_it_could_not_record() {
    let mut store = init();
    let head = store.head().unwrap().unwrap();
    let tree = vec![file("a.txt", "a\n")];
    capture_if_changed(&mut store, &head, &tree, 20).unwrap();
    assert_eq!(store.sessions().get(&head).unwrap().snap_count, 1);
    capture_if_changed(&mut store, &head, &tree, 21).unwrap();
    assert_eq!(store.snaps().count(&head), 1);
    let nobody = SessionId(5);
    assert!(matches!(
        capture_if_changed(&mut store, &nobody, &tree, 22).unwrap_err(),
        GrsError::NotFound(_)
    ));
    assert_eq!(store.snaps().count(&nobody), 1);
    store.snaps.snaps.push(StoredSnap {
        session: head,
        name: "snap-2".to_string(),
        meta: StoredMeta::Malformed("bad".to_string()),
        tree: Vec::new(),
    });
    assert!(matches!(
        capture_if_changed(&mut store, &head, &tree, 23).unwrap_err(),
        GrsError::Toml(m) if m == "bad"
    ));
    assert_eq!(store.snaps().count(&head), 2);
}

#[test]
fn a_capture_lists_each_file_once_by_path() {
    let mut snaps = SnapStore::new(GrsPaths::new(&root()), Vec::new(), Vec::new());
    let id = SessionId(9);
    let ignore = plain_matcher();
    assert_eq!(snaps.count(&id), 0);
    let mut tree = vec![file("z.txt", "zz\n"), file("a/b.txt", "b\n"), file("a.bin", "x\0y")];
    tree.push(file(".grs/HEAD", "x"));
    tree.push(WorkFile {
        path: root().join_path(&FsPath::parse("gone.txt")),
        content: FileContent::Unreadable,
    });
    let m = snaps.capture(&id, &ignore, &tree, 30);
    let listed: Vec<(&str, u64, bool)> =
        m.files.iter().map(|f| (f.path.as_str(), f.size, f.binary)).collect();
    assert_eq!(listed, vec![("a.bin", 3, true), ("a/b.txt", 2, false), ("z.txt", 3, false)]);
    assert_eq!((m.n, m.timestamp, m.file_count, m.total_bytes), (1, 30, 3, 8));
    assert_eq!(
        m.files[1].sha256,
        "0263829989b6fd954f72baaf2fc64bc2e2f01d692d4de72986ea808f6e99813f"
    );
    assert_eq!(snaps.count(&id), 1);
    let before = snaps.read_meta(&id, 1).unwrap().copy();
    assert_eq!((before.n, before.timestamp, before.file_count, before.total_bytes), (1, 30, 3, 8));
    let paths_of = |m: &SnapMeta| m.files.iter().map(|f| f.path.clone()).collect::<Vec<_>>();
    assert_eq!(paths_of(&before), paths_of(&m));
    assert_eq!(snaps.capture(&id, &ignore, &vec![file("q", "q")], 31).n, 2);
    assert_eq!(snaps.capture(&id, &ignore, &Vec::new(), 32).n, 3);
    assert_eq!(snaps.count(&id), 3);
    assert_eq!(paths_of(snaps.read_meta(&id, 1).unwrap()), paths_of(&m));
    assert!(matches!(snaps.read_meta(&id, 4).unwrap_err(), GrsError::NotFound(_)));
}

#[test]
fn configuration_paths() {
    let some = |s: &str| Some(s.to_string());
    assert_eq!(
        user_config_path(&some("/xdg"), &some("/home/x")).unwrap().text(),
        "/xdg/grs/config.toml"
    );
    assert_eq!(
        user_config_path(&some(""), &some("/home/x")).unwrap().text(),
        "/home/x/.config/grs/config.toml"
    );
    assert!(user_config_path(&None, &None).is_none());
    assert_eq!(expand_tilde("~/a", &some("/home/x")).text(), "/home/x/a");
    assert_eq!(expand_tilde("/a", &some("/home/x")).text(), "/a");
}

#[test]
fn ignore_rules_apply_by_place() {
    let nested = vec![
        IgnoreFile { dir: root(), text: "*.log\n".to_string() },
        IgnoreFile { dir: root().join("sub"), text: "only.txt\n".to_string() },
    ];
    let m = IgnoreMatcher::new(&root(), &vec!["*.tmp".to_string()], nested);
    assert!(m.is_ignored(&root().join("a.tmp")));
    assert!(m.is_ignored(&root().join("sub").join("only.txt")));
    assert!(!m.is_ignored(&root().join("only.txt")));
    assert!(m.is_ignored(&root().join("sub").join("b.log")));
    assert!(prunes_dir(".grs"));
    assert!(!prunes_dir("src"));
    assert!(decide(".grs/x", &Vec::new()));
    assert!(decide("a/b", &vec![false, true]));
    assert!(!decide("a/b", &vec![false, false]));
}

#[test]
fn capturing_the_same_tree_again_is_skipped() {
    let mut snaps = SnapStore::new(GrsPaths::new(&root()), Vec::new(), Vec::new());
    let ignore = plain_matcher();
    let id = SessionId(1);
    let tree = vec![file("b.txt", "b"), file("a.txt", "a")];
    let first = snaps.capture_if_changed(&id, &ignore, &tree, 1).unwrap().unwrap();
    assert_eq!(first.n, 1);
    let paths: Vec<String> = first.files.iter().map(|f| f.path.clone()).collect();
    assert_eq!(paths, vec!["a.txt", "b.txt"]);
    assert_eq!(
        first.files[0].sha256,
        "ca978112ca1bbdcafac231b39a23dc4da786eff8147c4e72b9807785afee48bb"
    );
    assert!(snaps.capture_if_changed(&id, &ignore, &tree, 2).unwrap().is_none());
    assert_eq!(snaps.count(&id), 1);
    let changed = vec![file("b.txt", "b"), file("a.txt", "A")];
    assert_eq!(snaps.capture_if_changed(&id, &ignore, &changed, 3).unwrap().unwrap().n, 2);
    let fewer = vec![file("b.txt", "b")];
    assert_eq!(snaps.capture_if_changed(&id, &ignore, &fewer, 4).unwrap().unwrap().n, 3);
    let gone = vec![WorkFile { path: root().join("b.txt"), content: FileContent::Unreadable }];
    assert_eq!(snaps.capture_if_changed(&id, &ignore, &gone, 5).unwrap().unwrap().n, 4);
    assert_eq!(snaps.snap(&id, 4).unwrap().tree.len(), 0);
    assert_eq!(snaps.next_n(&SessionId(2)), 1);
    snaps.remove(&id, 4);
    assert_eq!(snaps.next_n(&id), 4);
}

#[test]
fn records_that_cannot_be_had_are_errors() {
    let mut snaps = SnapStore::new(GrsPaths::new(&root()), Vec::new(), Vec::new());
    let id = SessionId(1);
    let bad = |meta| StoredSnap {
        session: SessionId(1),
        name: "snap-1".to_string(),
        meta,
        tree: Vec::new(),
    };
    assert!(matches!(snaps.read_meta(&id, 1).unwrap_err(), GrsError::NotFound(_)));
    snaps.snaps.push(bad(StoredMeta::Malformed("toml".to_string())));
    assert!(matches!(snaps.read_meta(&id, 1).unwrap_err(), GrsError::Toml(m) if m == "toml"));
    assert!(snaps.capture_if_changed(&id, &plain_matcher(), &Vec::new(), 1).is_err());
    snaps.snaps[0] = bad(StoredMeta::Unreadable("io".to_string()));
    assert!(matches!(snaps.read_meta(&id, 1).unwrap_err(), GrsError::Io(_)));
}

fn record(files: &[(&str, &str)]) -> SnapMeta {
    let files: Vec<SnapFile> = files
        .iter()
        .map(|(p, sha)| SnapFile {
            path: p.to_string(),
            sha256: sha.to_string(),
            size: 1,
            binary: false,
        })
        .collect();
    SnapMeta {
        version: 1,
        n: 1,
        timestamp: 0,
        file_count: files.len() as u32,
        total_bytes: 0,
        files,
    }
}

#[test]
fn every_file_is_accounted_for() {
    let same = record(&[("a", "1"), ("b", "2")]);
    assert_eq!(file_changes(&same, &same).len(), 0);
    let before = record(&[("a", "1"), ("b", "2"), ("c", "3")]);
    let after = record(&[("a", "9"), ("d", "2"), ("e", "5")]);
    let changes = file_changes(&before, &after);
    assert_eq!(changes.len(), 4);
    assert!(changes.iter().any(|c| matches!(c, FileChange::Modified { path, .. } if path == "a")));
    assert!(changes.iter().any(|c| matches!(c, FileChange::Removed { path, .. } if path == "c")));
    assert!(changes.iter().any(|c| matches!(c, FileChange::Added { path, .. } if path == "e")));
    assert!(changes
        .iter()
        .any(|c| matches!(c, FileChange::Renamed { from, to, .. } if from == "b" && to == "d")));
    let keys: Vec<String> = changes.iter().map(|c| c.sort_key()).collect();
    let mut sorted = keys.clone();
    sorted.sort();
    assert_eq!(keys, sorted);
    let tree = |p: &str, b: &[u8]| Content { path: p.to_string(), bytes: b.to_vec() };
    let d = diff_snap_meta(
        &record(&[("a", "1")]),
        &vec![tree("a", b"x\ny\n")],
        &record(&[("a", "2")]),
        &vec![tree("a", b"x\nz\nw\n")],
    );
    assert_eq!((d.added_lines, d.removed_lines), (2, 1));
}

#[test]
fn file_snaps_count_up_and_compare_with_the_last() {
    let mut store = init();
    let head = store.head().unwrap().unwrap();
    write_file_snap(&mut store, &head, "a", "1\n", None, 1).unwrap();
    write_file_snap(&mut store, &head, "a", "1\n2\n", None, 2).unwrap();
    let s = store.snaps().read(&head, 1).unwrap();
    assert_eq!(s.diff.added_lines, vec![2]);
    assert_eq!(s.prev_seq, Some(0));
    assert_eq!(s.timestamp_iso, "1970-01-01T00:00:00.002Z");
    assert_eq!(store.snaps().next_seq(&head), 2);
    assert!(matches!(store.snaps().read(&head, 9).unwrap_err(), GrsError::NotFound(m) if m == "snap 9"));
    assert!(matches!(
        write_file_snap(&mut store, &SessionId(5), "a", "1\n", None, 1).unwrap_err(),
        GrsError::NotFound(_)
    ));
}

#[test]
fn deleting_a_session_leaves_the_others() {
    let mut store = init();
    let first = store.head().unwrap().unwrap();
    write_file_snap(&mut store, &first, "a", "1\n", None, 1).unwrap();
    let second = store.rotate_open_session("two".to_string(), &Vec::new(), 5).unwrap();
    write_file_snap(&mut store, &second.id, "a", "1\n", None, 6).unwrap();
    store.delete_session(&first).unwrap();
    assert_eq!(store.sessions().list().len(), 1);
    assert_eq!(store.snaps().file_list(&first).len(), 0);
    assert_eq!(store.snaps().file_list(&second.id).len(), 1);
}

#[test]
fn a_session_starts_with_the_text_files() {
    let tree = vec![
        file("a.txt", "a\n"),
        file(".gitignore", "x\n"),
        file("target/o", "o\n"),
        file("b.txt", "b\n"),
    ];
    let store =
        RepoStore::init(&root(), disk(GrsEntry::Absent), "first".to_string(), &tree, 10).unwrap();
    let head = store.head().unwrap().unwrap();
    let paths: Vec<String> =
        store.snaps().file_list(&head).iter().map(|s| s.file_path.clone()).collect();
    assert_eq!(paths, vec!["a.txt", "b.txt"]);
    let s = store.sessions().get(&head).unwrap();
    assert_eq!((s.snap_count, s.file_count), (2, 2));
    assert_eq!(s.name, "first");
}

#[test]
fn locks_name_their_holder() {
    for pid in [0u32, 1, 4321, u32::MAX] {
        assert_eq!(read_pid(&Some(lock_contents(pid))), Some(pid));
    }
    assert_eq!(read_pid(&Some("x".to_string())), None);
    assert_eq!(read_pid(&None), None);
    let mut attempt = LockGuard::acquire(&FsPath::parse("/l"));
    let stale = LockFile::Present { contents: None, alive: false };
    let mut last = attempt.look(&stale);
    for _ in 0..10 {
        last = attempt.look(&stale);
    }
    assert!(matches!(last, LockAction::Refuse(GrsError::AlreadyRunning(_))));
}

#[test]
fn texts_and_binaries() {
    assert!(is_binary(&vec![b'a', 0]));
    let mut late = vec![b'a'; 10_000];
    late.push(0);
    assert!(!is_binary(&late));
    let text = FileContent::Read("héllo".as_bytes().to_vec());
    assert_eq!(read_content_or_binary_placeholder(&text).as_deref(), Some("héllo"));
    let raw = FileContent::Read(vec![0xff, 0xfe]);
    assert_eq!(
        read_content_or_binary_placeholder(&raw).as_deref(),
        Some("(binary file, 2 bytes)")
    );
    assert_eq!(read_content_or_binary_placeholder(&FileContent::Missing).as_deref(), Some(""));
    assert_eq!(read_content_or_binary_placeholder(&FileContent::Unreadable), None);
}

#[test]
fn times_in_words() {
    assert_eq!(iso(0), "1970-01-01T00:00:00.000Z");
    assert_eq!(iso(i64::MAX), "");
    assert_eq!(time_ago(0, -5), "0s ago");
    assert_eq!(time_ago(0, 40 * 86_400_000), "1mo ago");
    assert_eq!(time_ago(0, 800 * 86_400_000), "2y ago");
    assert_eq!(format_timestamp(1719236589441), "13:43:09");
    assert_eq!(format_timestamp(i64::MAX), "??:??:??");
    assert_eq!(clock_or_unknown(None), "??:??:??");
    assert_eq!(words_or_millis(None, 42), "42");
    assert_eq!(started_at_offset(1719236589441, Some(0)), "2024-06-24 13:43");
    assert_eq!(started_at_offset(1719236589441, Some(-14 * 3600)), "2024-06-23 23:43");
    assert_eq!(started_at_offset(1719236589441, Some(86_400)), "1719236589441");
    assert_eq!(started_at_offset(-5, None), "-5");
    let local = format_started(1719236589441);
    assert!(
        local.starts_with("2024-06-2") && local.len() == 16,
        "got {local:?}"
    );
    assert_eq!(format_started(LAST_MILLIS + 1), format!("{}", LAST_MILLIS + 1));
    assert_eq!(format_started(FIRST_MILLIS - 1), format!("{}", FIRST_MILLIS - 1));
    assert!(started_at_offset(LAST_MILLIS, Some(0)).ends_with("-12-31 23:59"));
    assert!(started_at_offset(FIRST_MILLIS, Some(0)).ends_with("-01-01 00:00"));
    for now in [now_ms(), fresh_now(), fresh_started_at()] {
        assert!((0..=LAST_MILLIS).contains(&now));
    }
}

#[test]
fn lines_that_are_no_patterns_are_passed_over() {
    let extra: Vec<String> =
        ["# note", "", "  ", "[z-a]", "*.log"].iter().map(|s| s.to_string()).collect();
    let m = IgnoreMatcher::new(&root(), &extra, Vec::new());
    assert!(m.is_ignored(&FsPath::parse("a.log")));
    assert!(!m.is_ignored(&FsPath::parse("# note")));
    assert!(!m.is_ignored(&FsPath::parse("z")));
}

#[test]
fn a_row_that_is_out_of_date_is_not_deleted() {
    let mut list = SessionListState::load(init());
    let first = list.selected().unwrap();
    list.on_action(KeyAction::NewSession, &Vec::new(), 20);
    for c in "init".chars() {
        list.on_action(KeyAction::FilterChar(c), &Vec::new(), 20);
    }
    list.on_action(KeyAction::Enter, &Vec::new(), 20);
    assert!(list.name_error.is_some());
    assert_eq!(list.sessions.len(), 1);
    assert!(list.store.sessions().get(&first.id).is_ok());
    list.on_action(KeyAction::Delete, &Vec::new(), 21);
    list.on_action(KeyAction::Delete, &Vec::new(), 22);
    assert!(list.store.sessions().get(&first.id).is_ok());
    list.on_action(KeyAction::Refresh, &Vec::new(), 23);
    list.on_action(KeyAction::Delete, &Vec::new(), 24);
    list.on_action(KeyAction::Delete, &Vec::new(), 25);
    assert!(list.store.sessions().get(&first.id).is_err());
    assert!(list.sessions.is_empty());
}

#[test]
fn a_snap_is_due_where_paths_or_hashes_differ() {
    let mut snaps = SnapStore::new(GrsPaths::new(&root()), Vec::new(), Vec::new());
    let id = SessionId(3);
    let ignore = plain_matcher();
    let tree = vec![file("b", "1"), file("a", "2")];
    let first = snaps.capture_if_changed(&id, &ignore, &tree, 1).unwrap().unwrap();
    assert_eq!(first.n, 1);
    assert_eq!(snaps.snaps[0].tree.len(), 2);
    assert!(snaps.snaps[0].tree.iter().any(|c| c.path == "a" && c.bytes == b"2"));
    assert!(snaps.capture_if_changed(&id, &ignore, &tree, 2).unwrap().is_none());
    let turned = vec![file("a", "2"), file("b", "1")];
    assert!(snaps.capture_if_changed(&id, &ignore, &turned, 3).unwrap().is_none());
    let swapped = vec![file("a", "1"), file("b", "2")];
    assert_eq!(snaps.capture_if_changed(&id, &ignore, &swapped, 4).unwrap().unwrap().n, 2);
    assert!(snaps.capture_if_changed(&id, &ignore, &swapped, 5).unwrap().is_none());
    assert_eq!(snaps.count(&id), 2);
}

#[test]
fn keys_are_collected() {
    let k = |c| Key { code: KeyCode::Char(c), control: false };
    let mut p = VimParser::new();
    assert!(matches!(p.feed(k('/')), KeyOutcome::Action(KeyAction::Filter)));
    for c in "abg".chars() {
        assert!(matches!(p.feed(k(c)), KeyOutcome::Action(KeyAction::FilterChar(x)) if x == c));
    }
    match p.state() {
        KeyState::PendingFilter(t) => assert_eq!(t, "abg"),
        other => panic!("unexpected {other:?}"),
    }
    assert!(matches!(
        p.feed(Key { code: KeyCode::Char('c'), control: true }),
        KeyOutcome::Action(KeyAction::Quit)
    ));
    assert!(matches!(
        p.feed(Key { code: KeyCode::Enter, control: false }),
        KeyOutcome::Action(KeyAction::ConfirmFilter)
    ));
    assert!(matches!(p.feed(k('g')), KeyOutcome::Pending(_)));
    assert!(matches!(p.feed(k('j')), KeyOutcome::Action(KeyAction::Down)));
    assert!(matches!(p.feed(k('g')), KeyOutcome::Pending(_)));
}

fn rows(body: SnapBody) -> Vec<String> {
    render_snap_stream(&body)
        .iter()
        .map(|l| l.spans.iter().map(|s| s.text.clone()).collect())
        .collect()
}

#[test]
fn snaps_are_shown_by_what_happened() {
    assert_eq!(rows(SnapBody::Unchanged), vec!["(no change)"]);
    assert_eq!(rows(SnapBody::Binary(12)), vec!["(binary file, 12 bytes)"]);
    assert_eq!(
        rows(SnapBody::Removed(Some("a\nb\n".to_string()))),
        vec!["   1 - a", "   2 - b"]
    );
    assert_eq!(rows(SnapBody::Removed(None)).len(), 0);
    assert_eq!(rows(SnapBody::Edited("a\n".to_string(), None)), vec!["   1 + a"]);
}

#[test]
fn a_diff_shows_both_texts() {
    let (old, new) = ("a\nb\nc\nd\n", "a\nX\nc\nY\nd\n");
    let all = rows(SnapBody::Edited(new.to_string(), Some(old.to_string())));
    let but = |sign: char| -> String {
        all.iter()
            .filter(|r| r.chars().nth(5) != Some(sign))
            .map(|r| format!("{}\n", r.chars().skip(7).collect::<String>()))
            .collect()
    };
    assert_eq!(but('+'), old);
    assert_eq!(but('-'), new);
}

#[test]
fn errors_say_what_is_wrong() {
    let said = |e: GrsError| e.message();
    assert_eq!(said(GrsError::NotInitialized), "no .grs/ repository found here");
    assert_eq!(
        said(GrsError::AlreadyInitialized),
        "grs is already initialized in this directory"
    );
    assert_eq!(said(GrsError::Toml("t".to_string())), "toml error: t");
    assert_eq!(said(GrsError::Ignore("t".to_string())), "ignore error: t");
    assert_eq!(said(GrsError::Config("t".to_string())), "config error: t");
    assert_eq!(said(GrsError::NotFound("t".to_string())), "not found: t");
    assert_eq!(
        said(GrsError::UnsupportedVersion(3)),
        "storage version 3 not supported by this grs build"
    );
    assert_eq!(
        said(GrsError::SessionOpen(SessionId(0))),
        "session 00000000000000000000000000 is open; close it (e.g. quit the TUI) before deleting"
    );
    assert_eq!(said(GrsError::InvalidName(" ".to_string())), "invalid session name:  ");
    assert_eq!(
        said(GrsError::AlreadyRunning("l".to_string())),
        "a TUI is already running for this project (lock: l)"
    );
}
