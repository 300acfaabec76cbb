//! The engine: configuration, diffs, ignore rules, the lock, paths, ids, sessions, snaps and
//! projects.

use grs::config::{Config, ConfigLayer};
use grs::diff::line_diff;
use grs::error::GrsError;
use grs::ignore::{IgnoreFile, IgnoreMatcher};
use grs::lockfile::{lock_contents, read_pid, LockAction, LockFile, LockGuard};
use grs::path::FsPath;
use grs::paths::{find_grs_root, relativize, slugify, GrsPaths};
use grs::session::SessionStore;
use grs::snap::{diff_snap_dirs, SnapStore, StoredSnap, WorkFile};
use grs::store::{recompute_counts, write_file_snap, Disk, GrsEntry, RepoStore};
use grs::tree_diff::FileChange;
use grs::ulid::SessionId;
use grs::util::fs::{is_binary_file, read_content_or_binary_placeholder, FileContent};
use grs::util::time::{iso, time_ago};

const ROOT: &str = "/home/x/proj";

fn root() -> FsPath {
    FsPath::parse(ROOT)
}

fn file(path: &str, content: &str) -> WorkFile {
    WorkFile {
        path: root().join_path(&FsPath::parse(path)),
        content: FileContent::Read(content.as_bytes().to_vec()),
    }
}

fn disk(grs: GrsEntry) -> Disk {
    Disk {
        grs,
        user: ConfigLayer::default(),
        config_text: String::new(),
        config: Ok(ConfigLayer::default()),
        head: String::new(),
        sessions: Vec::new(),
        snaps: Vec::new(),
        file_snaps: Vec::new(),
        ignore_files: Vec::new(),
    }
}

/// What is on disk after a project was written there.
fn written(store: RepoStore) -> Disk {
    Disk {
        grs: GrsEntry::Directory,
        user: ConfigLayer::default(),
        config_text: Config::default_toml().to_string(),
        config: Ok(ConfigLayer::default()),
        head: store.head,
        sessions: store.sessions.entries,
        snaps: store.snaps.snaps,
        file_snaps: store.snaps.file_snaps,
        ignore_files: store.ignore.ignore_files,
    }
}

fn init() -> RepoStore {
    RepoStore::init(&root(), disk(GrsEntry::Absent), "init".to_string(), &Vec::new(), 10).unwrap()
}

fn matcher(ignore_files: Vec<IgnoreFile>) -> IgnoreMatcher {
    IgnoreMatcher::new(&root(), &Vec::new(), ignore_files)
}

fn sessions() -> SessionStore {
    SessionStore::new(GrsPaths::new(&root()), Vec::new())
}

fn snaps() -> SnapStore {
    SnapStore::new(GrsPaths::new(&root()), Vec::new(), Vec::new())
}

fn pause(millis: u128) {
    let start = std::time::Instant::now();
    while start.elapsed().as_millis() < millis {}
}

fn has(snap: &StoredSnap, path: &str) -> bool {
    snap.tree.iter().any(|c| c.path == path)
}

#[test]
fn defaults() {
    let c = Config::default();
    assert_eq!(c.watcher.debounce_ms, 180);
}

#[test]
fn load_missing_is_defaults() {
    let c = Config::load_repo(&root(), "", Err("no such file".to_string())).unwrap();
    assert_eq!(c.watcher.debounce_ms, 180);
}

#[test]
fn parse_repo_config() {
    let text = "[watcher]\ndebounce_ms = 250\n";
    let parsed = text.parse::<toml::Table>().unwrap();
    let mut layer = ConfigLayer::default();
    layer.debounce_ms =
        Some(parsed["watcher"]["debounce_ms"].as_integer().unwrap() as u64);
    let c = Config::load_repo(&root(), text, Ok(layer)).unwrap();
    assert_eq!(c.watcher.debounce_ms, 250);
}

#[test]
fn no_change() {
    let d = line_diff("a\nb\nc\n", "a\nb\nc\n");
    assert!(d.added_lines.is_empty());
    assert!(d.removed_lines.is_empty());
}

#[test]
fn append_lines() {
    let d = line_diff("a\nb\n", "a\nb\nc\nd\n");
    assert_eq!(d.added_lines, vec![3, 4]);
    assert!(d.removed_lines.is_empty());
}

#[test]
fn delete_lines() {
    let d = line_diff("a\nb\nc\nd\n", "a\nd\n");
    assert!(d.added_lines.is_empty());
    assert_eq!(d.removed_lines, vec![2, 3]);
}

#[test]
fn insert_in_middle() {
    let d = line_diff("a\nb\nc\n", "a\nX\nb\nc\n");
    assert_eq!(d.added_lines, vec![2]);
    assert!(d.removed_lines.is_empty());
}

#[test]
fn replace_block() {
    let d = line_diff("a\nb\nc\nd\n", "a\nX\nY\nd\n");
    assert_eq!(d.added_lines, vec![2, 3]);
    assert_eq!(d.removed_lines, vec![2, 3]);
}

#[test]
fn first_snap_all_added() {
    let d = line_diff("", "a\nb\nc\n");
    assert_eq!(d.added_lines, vec![1, 2, 3]);
    assert!(d.removed_lines.is_empty());
}

#[test]
fn empty_to_empty() {
    let d = line_diff("", "");
    assert!(d.added_lines.is_empty());
    assert!(d.removed_lines.is_empty());
}

#[test]
fn trailing_newline_replaces_last_line() {
    let d = line_diff("a\nb", "a\nb\n");
    assert_eq!(d.added_lines, vec![2]);
    assert_eq!(d.removed_lines, vec![2]);
}

#[test]
fn grs_dir_always_ignored() {
    let m = matcher(Vec::new());
    assert!(m.is_ignored(&FsPath::parse("/home/x/proj/.grs/config.toml")));
    assert!(m.is_ignored(&FsPath::parse("/home/x/proj/.grs")));
}

#[test]
fn default_ignores_target() {
    let m = matcher(Vec::new());
    assert!(m.is_ignored(&FsPath::parse("/home/x/proj/target/a.o")));
}

#[test]
fn grsignore_is_respected() {
    let m = matcher(vec![IgnoreFile { dir: root(), text: "*.log\n".to_string() }]);
    assert!(m.is_ignored(&FsPath::parse("/home/x/proj/a.log")));
    assert!(!m.is_ignored(&FsPath::parse("/home/x/proj/a.txt")));
}

#[test]
fn files_excludes_ignored() {
    let m = matcher(vec![IgnoreFile { dir: root(), text: "*.log\n".to_string() }]);
    let found = vec![
        FsPath::parse("/home/x/proj/keep.txt"),
        FsPath::parse("/home/x/proj/drop.log"),
    ];
    let names: Vec<String> = m.files(&found).iter().filter_map(|p| p.file_name()).collect();
    assert!(names.contains(&"keep.txt".to_string()));
    assert!(!names.contains(&"drop.log".to_string()));
}

#[test]
fn lock_blocks_second_acquire_when_pid_is_self() {
    let path = FsPath::parse("/tmp/p/.lock");
    let mut first = LockGuard::acquire(&path);
    assert!(matches!(first.look(&LockFile::Absent), LockAction::Create));
    let written = lock_contents(4321);
    let mut second = LockGuard::acquire(&path);
    let held = LockFile::Present { contents: Some(written), alive: true };
    match second.look(&held) {
        LockAction::Refuse(err) => assert!(matches!(err, GrsError::AlreadyRunning(_))),
        other => panic!("expected a refusal, got {other:?}"),
    }
}

#[test]
fn lock_released_on_drop() {
    let path = FsPath::parse("/tmp/p/.lock");
    let mut first = LockGuard::acquire(&path);
    assert!(matches!(first.look(&LockFile::Absent), LockAction::Create));
    let guard = first.taken();
    assert!(guard.releases(&Some(lock_contents(4321)), 4321));
    assert!(!guard.releases(&Some(lock_contents(99)), 4321));
    let mut again = LockGuard::acquire(&path);
    assert!(matches!(again.look(&LockFile::Absent), LockAction::Create));
}

#[test]
fn stale_lock_is_removed() {
    let path = FsPath::parse("/tmp/p/.lock");
    let mut attempt = LockGuard::acquire(&path);
    let stale = LockFile::Present { contents: Some("999999\n".to_string()), alive: false };
    assert!(matches!(attempt.look(&stale), LockAction::Remove));
    assert!(matches!(attempt.look(&LockFile::Absent), LockAction::Create));
    assert_eq!(read_pid(&Some(lock_contents(4321))), Some(4321));
}

#[test]
fn finds_root_walking_up() {
    let sub = FsPath::parse("/home/x/proj/a/b/c");
    let found = find_grs_root(&sub, &vec![root()]).unwrap();
    assert_eq!(found.text(), ROOT);
}

#[test]
fn errors_when_not_initialized() {
    assert!(find_grs_root(&root(), &Vec::new()).is_err());
}

#[test]
fn relativize_forward_slashes() {
    assert_eq!(relativize(&root(), &FsPath::parse("/home/x/proj/src/a.go")), "src/a.go");
}

#[test]
fn slugify_lowercases_and_dashes() {
    assert_eq!(slugify("Refactor Auth Flow"), "refactor-auth-flow");
    assert_eq!(slugify("  hello   world  "), "hello-world");
    assert_eq!(slugify("foo!!bar##baz"), "foo-bar-baz");
    assert_eq!(slugify("___"), "session");
    let long = "a very long name that goes on and on and on and on and on and on and on";
    let slug = slugify(long);
    assert!(slug.len() <= 60, "slug too long: {} ({} chars)", slug, slug.len());
    assert!(!slug.ends_with('-'), "slug must not end with dash: {slug}");
}

#[test]
fn round_trip() {
    let id = SessionId::new();
    let s = id.as_str();
    assert_eq!(s.len(), 26);
    let back = SessionId::parse(&s).unwrap();
    assert_eq!(id, back);
}

#[test]
fn sorts_chronologically() {
    let a = SessionId::new();
    pause(2);
    let b = SessionId::new();
    assert!(a < b, "{} should sort before {}", a.as_str(), b.as_str());
    assert!(a.as_str() < b.as_str());
}

#[test]
fn parse_rejects_garbage() {
    assert!(SessionId::parse("not-a-ulid").is_err());
}

#[test]
fn create_and_get() {
    let mut st = sessions();
    let s = st.create_new("refactor".into(), 1000).unwrap();
    assert!(s.is_open());
    assert_eq!(s.name, "refactor");
    assert_eq!(s.slug, "refactor");
    let back = st.get(&s.id).unwrap();
    assert_eq!(back.name, "refactor");
    assert_eq!(back.started_at, 1000);
    assert!(back.ended_at.is_none());
}

#[test]
fn list_newest_first() {
    let mut st = sessions();
    let a = st.create_new("alpha".into(), 1000).unwrap();
    pause(2);
    let b = st.create_new("beta".into(), 2000).unwrap();
    let list = st.list();
    assert_eq!(list.len(), 2);
    assert_eq!(list[0].id, b.id);
    assert_eq!(list[1].id, a.id);
}

#[test]
fn name_must_be_unique() {
    let mut st = sessions();
    st.create_new("foo".into(), 1000).unwrap();
    let err = st.create_new("foo".into(), 2000).unwrap_err();
    assert!(matches!(err, GrsError::NameInUse(_)));
}

#[test]
fn empty_name_rejected() {
    let mut st = sessions();
    let err = st.create_new("   ".into(), 1000).unwrap_err();
    assert!(matches!(err, GrsError::InvalidName(_)));
}

#[test]
fn rename_keeps_id_and_folder() {
    let mut st = sessions();
    let s = st.create_new("old name".into(), 1000).unwrap();
    let folder = st.session_dir(&s.id).text();
    let renamed = st.rename("old name", "new name".into()).unwrap();
    assert_eq!(renamed.id, s.id);
    assert_eq!(renamed.name, "new name");
    assert_eq!(st.session_dir(&renamed.id).text(), folder, "rename must not move the folder");
    assert_eq!(st.entries.len(), 1);
    assert_eq!(st.entries[0].folder, s.id.as_str());
}

#[test]
fn rename_rejects_duplicate_name() {
    let mut st = sessions();
    st.create_new("alpha".into(), 1000).unwrap();
    st.create_new("beta".into(), 2000).unwrap();
    let err = st.rename("alpha", "beta".into()).unwrap_err();
    assert!(matches!(err, GrsError::NameInUse(_)));
}

#[test]
fn resolve_by_name_id_and_prefix() {
    let mut st = sessions();
    let s = st.create_new("refactor-auth".into(), 1000).unwrap();
    assert_eq!(st.resolve("refactor-auth").unwrap().id, s.id);
    assert_eq!(st.resolve(&s.id.as_str()).unwrap().id, s.id);
    let prefix = &s.id.as_str()[..8];
    assert_eq!(st.resolve(prefix).unwrap().id, s.id);
}

#[test]
fn finalize_sets_ended_at_and_snap_count() {
    let mut st = sessions();
    let s = st.create_new("foo".into(), 1000).unwrap();
    let fin = st.finalize(&s.id, 5000, 7).unwrap();
    assert_eq!(fin.ended_at, Some(5000));
    assert_eq!(fin.snap_count, 7);
    let back = st.get(&s.id).unwrap();
    assert!(!back.is_open());
}

#[test]
fn capture_creates_snap_with_meta() {
    let id = SessionId::new();
    let mut store = snaps();
    let ignore = matcher(Vec::new());
    let tree = vec![file("hello.txt", "hello\nworld\n"), file("src/main.rs", "fn main() {}\n")];
    let meta = store.capture(&id, &ignore, &tree, 5);
    assert_eq!(meta.n, 1);
    assert_eq!(meta.file_count, 2);
    assert!(meta.total_bytes > 0);
    let kept = store.snap(&id, 1).unwrap();
    assert!(has(kept, "hello.txt"));
    assert!(has(kept, "src/main.rs"));
}

#[test]
fn capture_increments_snap_number() {
    let id = SessionId::new();
    let mut store = snaps();
    let ignore = matcher(Vec::new());
    let tree = vec![file("a.txt", "a\n")];
    let m1 = store.capture(&id, &ignore, &tree, 1);
    let m2 = store.capture(&id, &ignore, &tree, 2);
    let m3 = store.capture(&id, &ignore, &tree, 3);
    assert_eq!((m1.n, m2.n, m3.n), (1, 2, 3));
}

#[test]
fn diff_detects_added_modified_removed_renamed() {
    let id = SessionId::new();
    let mut store = snaps();
    let ignore = matcher(Vec::new());
    let first = vec![
        file("a.txt", "alpha\nbeta\n"),
        file("b.txt", "first\n"),
        file("keep.txt", "stable\n"),
    ];
    store.capture(&id, &ignore, &first, 1);
    let second = vec![
        file("a.txt", "alpha\ngamma\ndelta\n"),
        file("c.txt", "new\n"),
        file("keep.txt", "stable\n"),
        file("moved.txt", "first\n"),
    ];
    store.capture(&id, &ignore, &second, 2);
    let paths = GrsPaths::new(&root());
    let d = diff_snap_dirs(
        store.snap(&id, 1).unwrap(),
        &paths.snap_dir(&id, 1),
        store.snap(&id, 2).unwrap(),
        &paths.snap_dir(&id, 2),
    )
    .unwrap();
    let has_rename = d.changes.iter().any(|c| {
        matches!(c, FileChange::Renamed { from, to, .. } if from == "b.txt" && to == "moved.txt")
    });
    assert!(has_rename, "expected rename of b.txt -> moved.txt, got: {:?}", d.changes);
    let has_modified =
        d.changes.iter().any(|c| matches!(c, FileChange::Modified { path, .. } if path == "a.txt"));
    assert!(has_modified, "expected a.txt modified, got: {:?}", d.changes);
    let has_added =
        d.changes.iter().any(|c| matches!(c, FileChange::Added { path, .. } if path == "c.txt"));
    assert!(has_added, "expected c.txt added, got: {:?}", d.changes);
    let has_keep = d.changes.iter().any(|c| match c {
        FileChange::Modified { path, .. }
        | FileChange::Added { path, .. }
        | FileChange::Removed { path, .. } => path == "keep.txt",
        _ => false,
    });
    assert!(!has_keep, "keep.txt should be unchanged");
}

#[test]
fn init_creates_tree_and_head() {
    let store = init();
    assert!(!store.head.is_empty());
    assert!(!Config::default_toml().is_empty());
    assert_eq!(store.ignore.ignore_files.len(), 1);
    assert_eq!(store.ignore.ignore_files[0].dir.text(), ROOT);
    assert_eq!(store.sessions.entries.len(), 1);
    let head = store.head().unwrap().expect("HEAD set");
    let session = store.sessions().get(&head).unwrap();
    assert!(session.is_open());
}

#[test]
fn init_twice_errors() {
    let first = init();
    let err = RepoStore::init(&root(), written(first), "init".to_string(), &Vec::new(), 20)
        .unwrap_err();
    assert!(matches!(err, GrsError::AlreadyInitialized));
}

#[test]
fn open_finds_existing() {
    let first = init();
    let store = RepoStore::open(&root(), written(first)).unwrap();
    assert_eq!(store.root().text(), ROOT);
}

#[test]
fn set_and_read_head() {
    let mut store = init();
    let s = store.sessions.create_new("second".to_string(), 1234).unwrap();
    store.set_head(&s.id);
    assert_eq!(store.head().unwrap().unwrap(), s.id);
}

#[test]
fn write_file_snap_first_then_diff() {
    let mut store = init();
    let head = store.head().unwrap().unwrap();
    let s0 = write_file_snap(&mut store, &head, "a.txt", "hello\n", None, 1).unwrap();
    assert_eq!(s0, 0);
    let s1 =
        write_file_snap(&mut store, &head, "a.txt", "hello world\n", Some("hello\n"), 2).unwrap();
    assert_eq!(s1, 1);
    let snap = store.snaps().read(&head, 1).unwrap();
    assert_eq!(snap.prev_seq, Some(0));
    assert_eq!(snap.content, "hello world\n");
    assert_eq!(snap.diff.removed_lines, vec![1]);
    assert_eq!(snap.diff.added_lines, vec![1]);
}

#[test]
fn write_file_snap_two_files_have_separate_seqs() {
    let mut store = init();
    let head = store.head().unwrap().unwrap();
    let a0 = write_file_snap(&mut store, &head, "a.txt", "a\n", None, 1).unwrap();
    let b0 = write_file_snap(&mut store, &head, "b.txt", "b\n", None, 2).unwrap();
    let a1 = write_file_snap(&mut store, &head, "a.txt", "a2\n", Some("a\n"), 3).unwrap();
    assert_eq!(a0, 0);
    assert_eq!(b0, 1);
    assert_eq!(a1, 2);
}

#[test]
fn recompute_counts_after_snaps() {
    let mut store = init();
    let head = store.head().unwrap().unwrap();
    write_file_snap(&mut store, &head, "a.txt", "a\n", None, 1).unwrap();
    write_file_snap(&mut store, &head, "b.txt", "b\n", None, 2).unwrap();
    write_file_snap(&mut store, &head, "a.txt", "a2\n", Some("a\n"), 3).unwrap();
    let (n, f) = recompute_counts(&store, &head);
    assert_eq!(n, 3);
    assert_eq!(f, 2);
}

#[test]
fn write_file_snap_updates_session_meta_counts() {
    let mut store = init();
    let head = store.head().unwrap().unwrap();
    write_file_snap(&mut store, &head, "a.txt", "a\n", None, 1).unwrap();
    let s = store.sessions().get(&head).unwrap();
    assert_eq!(s.snap_count, 1);
    assert_eq!(s.file_count, 1);
    write_file_snap(&mut store, &head, "a.txt", "a2\n", Some("a\n"), 2).unwrap();
    let s = store.sessions().get(&head).unwrap();
    assert_eq!(s.snap_count, 2);
    assert_eq!(s.file_count, 1);
    write_file_snap(&mut store, &head, "b.txt", "b\n", None, 3).unwrap();
    let s = store.sessions().get(&head).unwrap();
    assert_eq!(s.snap_count, 3);
    assert_eq!(s.file_count, 2);
}

#[test]
fn open_or_init_initializes_when_missing() {
    let store =
        RepoStore::open_or_init(&root(), disk(GrsEntry::Absent), "first".to_string(), &Vec::new(), 10)
            .unwrap();
    assert!(store.head().unwrap().is_some());
}

#[test]
fn open_or_init_opens_existing() {
    let first = init();
    let before = first.root().text();
    let second =
        RepoStore::open_or_init(&root(), written(first), "other".to_string(), &Vec::new(), 20)
            .unwrap();
    assert_eq!(before, second.root().text());
    assert_eq!(second.sessions().list().len(), 1);
}

#[test]
fn rotate_open_session_finalizes_old_and_creates_new() {
    let mut store = init();
    let original = store.head().unwrap().expect("HEAD set after init");
    write_file_snap(&mut store, &original, "a.txt", "a\n", None, 1).unwrap();
    let new = store.rotate_open_session("next".to_string(), &Vec::new(), 5000).unwrap();
    assert_ne!(new.id, original);
    assert!(new.is_open());
    assert_eq!(store.head().unwrap(), Some(new.id));
    let finalized = store.sessions().get(&original).unwrap();
    assert_eq!(finalized.ended_at, Some(5000));
    assert_eq!(finalized.snap_count, 1);
    assert_eq!(finalized.file_count, 1);
    assert!(!finalized.is_open());
}

#[test]
fn rotate_open_session_when_head_already_closed() {
    let mut store = init();
    let first_head = store.head().unwrap().unwrap();
    let new = store.rotate_open_session("one".to_string(), &Vec::new(), 1000).unwrap();
    assert_eq!(store.head().unwrap(), Some(new.id));
    let new2 = store.rotate_open_session("two".to_string(), &Vec::new(), 2000).unwrap();
    assert_eq!(store.head().unwrap(), Some(new2.id));
    let middle = store.sessions().get(&new.id).unwrap();
    assert!(!middle.is_open());
    assert_eq!(middle.ended_at, Some(2000));
    let original = store.sessions().get(&first_head).unwrap();
    assert_eq!(original.ended_at, Some(1000));
}

#[test]
fn rotate_open_session_with_missing_head() {
    let mut store = init();
    store.head = String::new();
    let new = store.rotate_open_session("next".to_string(), &Vec::new(), 1234).unwrap();
    assert!(new.is_open());
    assert_eq!(store.head().unwrap(), Some(new.id));
}

#[test]
fn delete_session_removes_closed() {
    let mut store = init();
    let head = store.head().unwrap().unwrap();
    write_file_snap(&mut store, &head, "a.txt", "a\n", None, 1).unwrap();
    store.rotate_open_session("next".to_string(), &Vec::new(), 1000).unwrap();
    assert!(store.sessions.entries.iter().any(|e| e.folder == head.as_str()));
    store.delete_session(&head).unwrap();
    assert!(!store.sessions.entries.iter().any(|e| e.folder == head.as_str()));
    assert!(matches!(store.sessions().get(&head).unwrap_err(), GrsError::NotFound(_)));
    assert!(matches!(store.delete_session(&head).unwrap_err(), GrsError::NotFound(_)));
}

#[test]
fn delete_session_refuses_open() {
    let mut store = init();
    let head = store.head().unwrap().unwrap();
    let err = store.delete_session(&head).unwrap_err();
    assert!(matches!(err, GrsError::SessionOpen(ref id) if id == &head));
    assert!(store.sessions.entries.iter().any(|e| e.folder == head.as_str()));
}

#[test]
fn binary_placeholder() {
    let content = FileContent::Read(vec![0xFFu8, 0xFE, 0x00, 0x01]);
    let s = read_content_or_binary_placeholder(&content).unwrap();
    assert!(s.starts_with("(binary file,"));
}

#[test]
fn is_binary_detects_nul_byte() {
    let mut bytes = vec![0x7f, b'E', b'L', b'F', 0x02, 0x01, 0x01, 0x00];
    bytes.extend(std::iter::repeat(0u8).take(64));
    assert!(is_binary_file(&FileContent::Read(bytes)));
}

#[test]
fn is_binary_returns_false_for_text() {
    let bytes = "fn main() {}\nprintln!(\"hi\");\n".as_bytes().to_vec();
    assert!(!is_binary_file(&FileContent::Read(bytes)));
}

#[test]
fn is_binary_handles_empty_file() {
    assert!(!is_binary_file(&FileContent::Read(Vec::new())));
}

#[test]
fn is_binary_returns_false_for_missing_file() {
    assert!(!is_binary_file(&FileContent::Missing));
}

#[test]
fn iso_format() {
    assert_eq!(iso(1719236589441), "2024-06-24T13:43:09.441Z");
}

#[test]
fn time_ago_buckets() {
    let now = 10_000_000;
    assert_eq!(time_ago(now - 5_000, now), "5s ago");
    assert_eq!(time_ago(now - 120_000, now), "2m ago");
    assert_eq!(time_ago(now - 3_600_000, now), "1h ago");
    assert_eq!(time_ago(now - 86_400_000, now), "yesterday");
    assert_eq!(time_ago(now - 3 * 86_400_000, now), "3d ago");
}
