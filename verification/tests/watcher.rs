//! The watcher: which events make snaps, and what the snaps hold.

use grs::config::ConfigLayer;
use grs::diff::line_diff;
use grs::path::FsPath;
use grs::snap::{diff_snap_dirs, SnapStore, StoredSnap, WorkFile};
use grs::store::{Disk, GrsEntry, RepoStore};
use grs::tree_diff::FileChange;
use grs::ulid::SessionId;
use grs::util::fs::FileContent;
use grs::watcher::{
    is_save_trigger, run_for, AccessKind, AccessMode, CreateKind, EventKind, FsEvent, StopReason,
    WatchInput, Watcher,
};

fn root() -> FsPath {
    FsPath::parse("/home/x/proj")
}

fn at(path: &str) -> FsPath {
    root().join_path(&FsPath::parse(path))
}

fn file(path: &str, content: &[u8]) -> WorkFile {
    WorkFile { path: at(path), content: FileContent::Read(content.to_vec()) }
}

fn tree(files: &[(&str, &str)]) -> Vec<WorkFile> {
    files.iter().map(|(p, c)| file(p, c.as_bytes())).collect()
}

fn disk(grs: GrsEntry) -> Disk {
    Disk {
        grs,
        user: ConfigLayer::default(),
        config_text: String::new(),
        config: Ok(ConfigLayer::default()),
        head: String::new(),
        sessions: Vec::new(),
        snaps: Vec::new(),
        file_snaps: Vec::new(),
        ignore_files: Vec::new(),
    }
}

fn init() -> RepoStore {
    RepoStore::init(&root(), disk(GrsEntry::Absent), "init".to_string(), &Vec::new(), 10).unwrap()
}

/// A project with a first session over an empty tree.
fn started(name: &str) -> (RepoStore, SessionId) {
    let mut store = init();
    let s = store.open_first_session(name.to_string(), &Vec::new(), 20).unwrap();
    (store, s.id)
}

fn event(kind: EventKind, path: &str, files: &[(&str, &str)], now: i64) -> WatchInput {
    WatchInput::Event {
        event: FsEvent { kind, paths: vec![at(path)] },
        tree: tree(files),
        now,
    }
}

fn create(path: &str, files: &[(&str, &str)], now: i64) -> WatchInput {
    event(EventKind::Create(CreateKind::File), path, files, now)
}

fn close_write(path: &str, files: &[(&str, &str)], now: i64) -> WatchInput {
    event(EventKind::Access(AccessKind::Close(AccessMode::Write)), path, files, now)
}

/// The events of one save of a new file.
fn save(path: &str, files: &[(&str, &str)], now: i64) -> Vec<WatchInput> {
    vec![
        create(path, files, now),
        event(EventKind::Modify, path, files, now),
        close_write(path, files, now),
        WatchInput::Timeout,
    ]
}

fn run(store: RepoStore, inputs: Vec<WatchInput>) -> RepoStore {
    let mut w = Watcher::new(store);
    let mut all = inputs;
    all.push(WatchInput::Stop);
    assert_eq!(w.run(&all).unwrap(), StopReason::StopRequested);
    w.store
}

fn content(snap: &StoredSnap, path: &str) -> Option<Vec<u8>> {
    snap.tree.iter().find(|c| c.path == path).map(|c| c.bytes.clone())
}

fn latest<'a>(snaps: &'a SnapStore, id: &SessionId) -> &'a StoredSnap {
    snaps.snap(id, snaps.count(id)).unwrap()
}

#[test]
fn create_event_creates_snap() {
    let (mut store, head) = started("test");
    let meta = store
        .snaps
        .capture_if_changed(&head, &store.ignore, &tree(&[("a.txt", "hello\n")]), 30)
        .unwrap();
    assert!(meta.is_some(), "expected a snap, got None (tree unchanged?)");
    let meta = meta.unwrap();
    assert!(meta.n >= 2, "expected snap >= 2, got {}", meta.n);
    assert!(content(store.snaps.snap(&head, meta.n).unwrap(), "a.txt").is_some());
}

#[test]
fn watcher_init_fails_without_open_session() {
    let mut store = init();
    store.head = String::new();
    let mut w = Watcher::new(store);
    let res = w.run(&Vec::new());
    assert!(res.is_err(), "watcher must fail without an open session");
}

#[test]
fn end_to_end_captures_snap_on_save() {
    let (store, id) = started("watch-e2e");
    let initial = store.snaps().count(&id);
    let store = run(store, save("new.txt", &[("new.txt", "hello\n")], 100));
    let after = store.snaps().count(&id);
    assert!(
        after > initial,
        "watcher should have captured at least one new snap (initial={initial}, after={after})"
    );
    let snap = store.snaps().read_meta(&id, after).unwrap();
    assert!(snap.files.iter().any(|f| f.path == "new.txt"), "new.txt should be in the latest snap");
}

#[test]
fn end_to_end_captures_snap_on_close_write() {
    let (store, id) = started("close-write");
    let initial = store.snaps().count(&id);
    let files = [("wrote.txt", "close-write content\n")];
    let store = run(store, vec![close_write("wrote.txt", &files, 100)]);
    let after = store.snaps().count(&id);
    assert!(
        after > initial,
        "watcher should have captured at least one new snap (initial={initial}, after={after})"
    );
    let snap = store.snaps().read_meta(&id, after).unwrap();
    assert!(
        snap.files.iter().any(|f| f.path == "wrote.txt"),
        "wrote.txt should be in the latest snap"
    );
}

#[test]
fn save_burst_dedupes_to_one_snap() {
    let (store, id) = started("dedupe");
    let initial = store.snaps().count(&id);
    let store = run(store, save("burst.txt", &[("burst.txt", "burst\n")], 100));
    let after = store.snaps().count(&id);
    assert_eq!(
        after,
        initial + 1,
        "save burst should produce exactly one new snap (initial={initial}, after={after})"
    );
    assert_eq!(store.sessions().get(&id).unwrap().snap_count, after);
}

#[test]
fn edits_in_ignored_dirs_do_not_snap() {
    let (store, id) = started("ignored-dir");
    let initial = store.snaps().count(&id);
    let store = run(store, save(".git/objects/abc", &[(".git/objects/abc", "data")], 100));
    let after = store.snaps().count(&id);
    assert_eq!(
        after, initial,
        "edits in .git/ should not create a snap (initial={initial}, after={after})"
    );
}

#[test]
fn watcher_capture_then_consecutive_diff() {
    let (store, id) = started("diff-test");
    let meta1 = store.snaps().read_meta(&id, 1).unwrap();
    assert_eq!(meta1.file_count, 0, "fresh dir: snap 1 has 0 files");
    let mut inputs = save("a.txt", &[("a.txt", "alpha\nbeta\ngamma\n")], 100);
    inputs.extend(save("a.txt", &[("a.txt", "alpha\nBETA\ngamma\ndelta\n")], 200));
    let store = run(store, inputs);
    let count = store.snaps().count(&id);
    assert!(count >= 3, "expected >= 3 snaps, got {count}");
    let paths = store.paths().copy();
    let between = |a: u32, b: u32| {
        diff_snap_dirs(
            store.snaps().snap(&id, a).unwrap(),
            &paths.snap_dir(&id, a),
            store.snaps().snap(&id, b).unwrap(),
            &paths.snap_dir(&id, b),
        )
        .unwrap()
    };
    let d1 = between(1, 2);
    let adds_for_a = d1
        .changes
        .iter()
        .filter(|c| matches!(c, FileChange::Added { path, .. } if path == "a.txt"))
        .count();
    assert_eq!(adds_for_a, 1, "snap 2 should add a.txt exactly once");
    assert_eq!(d1.added_lines, 3, "3 lines added in a.txt");
    let d2 = between(2, 3);
    let mods_for_a = d2
        .changes
        .iter()
        .filter(|c| matches!(c, FileChange::Modified { path, .. } if path == "a.txt"))
        .count();
    assert_eq!(mods_for_a, 1, "snap 3 should modify a.txt exactly once");
    assert_eq!(d2.added_lines, 2, "BETA replaced + delta added = 2 line changes");
    assert_eq!(d2.removed_lines, 1, "1 line removed (old 'beta')");
}

#[test]
fn headless_watcher_captures_snap_on_save() {
    let (store, id) = started("headless");
    let initial = store.snaps().count(&id);
    let store = run(store, save("hello.txt", &[("hello.txt", "world\n")], 100));
    let after = store.snaps().count(&id);
    assert!(
        after > initial,
        "headless watcher should capture at least one new snap (initial={initial}, after={after})"
    );
    let snap = latest(store.snaps(), &id);
    assert_eq!(snap.tree.len(), 1);
    assert_eq!(snap.tree[0].path, "hello.txt");
}

#[test]
fn watcher_writes_snap_when_file_changes() {
    let store = init();
    let head = store.head().unwrap().expect("head is set");
    let store = run(store, save("a.txt", &[("a.txt", "hello\n")], 100));
    assert!(store.snaps().count(&head) >= 1, "snap should appear after writing the file");
    let snap = latest(store.snaps(), &head);
    let bytes = content(snap, "a.txt").expect("a.txt is in the snap");
    let text = String::from_utf8(bytes).unwrap();
    assert!(text.contains("hello"), "snap should contain the file content");
    let d = line_diff("", &text);
    assert!(!d.added_lines.is_empty(), "snap should record added lines");
    assert!(d.removed_lines.is_empty(), "first snap should have no removed lines");
}

#[test]
fn watcher_dedups_identical_writes() {
    let store = init();
    let head = store.head().unwrap().expect("head set");
    let files = [("a.txt", "same\n")];
    let mut inputs = save("a.txt", &files, 100);
    inputs.push(close_write("a.txt", &files, 400));
    let store = run(store, inputs);
    let snap_count = store.snaps().count(&head);
    assert!(
        (1..=2).contains(&snap_count),
        "expected 1-2 snaps for 2 identical writes, got {snap_count}"
    );
    assert_eq!(snap_count, 1);
}

#[test]
fn watcher_picks_up_multiple_files() {
    let store = init();
    let head = store.head().unwrap().expect("head set");
    let mut inputs = save("a.txt", &[("a.txt", "a")], 100);
    inputs.extend(save("b.txt", &[("a.txt", "a"), ("b.txt", "b")], 400));
    inputs.extend(save("c.txt", &[("a.txt", "a"), ("b.txt", "b"), ("c.txt", "c")], 700));
    let store = run(store, inputs);
    assert!(store.snaps().count(&head) >= 3, "3 snaps should appear");
    let files: Vec<String> =
        latest(store.snaps(), &head).tree.iter().map(|c| c.path.clone()).collect();
    assert!(files.contains(&"a.txt".to_string()), "missing a.txt in {files:?}");
    assert!(files.contains(&"b.txt".to_string()), "missing b.txt in {files:?}");
    assert!(files.contains(&"c.txt".to_string()), "missing c.txt in {files:?}");
}

#[test]
fn watcher_ignores_grs_dir_writes() {
    let store = init();
    let head = store.head().unwrap().expect("head set");
    let files = [("a.txt", "a\n"), (".grs/HEAD", "x")];
    let mut inputs = save(".grs/HEAD", &files, 100);
    inputs.extend(save("a.txt", &files, 200));
    let store = run(store, inputs);
    assert_eq!(store.snaps().count(&head), 1);
    let has_grs_snap =
        latest(store.snaps(), &head).tree.iter().any(|c| c.path.contains(".grs"));
    assert!(!has_grs_snap, "watcher must not snap files under .grs/");
}

#[test]
fn watcher_skips_binary_files() {
    let mut store = init();
    let head = store.head().unwrap().expect("head set");
    let mut bytes = vec![0x7f, b'E', b'L', b'F', 0x02, 0x01, 0x01, 0x00];
    bytes.extend(std::iter::repeat(0xCCu8).take(4096));
    let found = vec![file("artifact.bin", &bytes), file("hello.txt", b"hi\n")];
    store.capture_initial_state(&head, &found, 100).unwrap();
    let snaps = store.snaps().file_list(&head);
    assert!(snaps.iter().any(|s| s.file_path == "hello.txt"), "text file should be snapped");
    for s in &snaps {
        assert!(s.file_path != "artifact.bin", "binary file must not be snapped");
    }
}

#[test]
fn only_the_end_of_a_save_triggers() {
    let store = init();
    let e = |kind: EventKind, path: &str| FsEvent { kind, paths: vec![at(path)] };
    let ignore = store.ignore_matcher();
    assert!(is_save_trigger(&e(EventKind::Create(CreateKind::File), "a.txt"), ignore));
    assert!(is_save_trigger(
        &e(EventKind::Access(AccessKind::Close(AccessMode::Write)), "a.txt"),
        ignore
    ));
    assert!(!is_save_trigger(&e(EventKind::Modify, "a.txt"), ignore));
    assert!(!is_save_trigger(&e(EventKind::Remove, "a.txt"), ignore));
    assert!(!is_save_trigger(&e(EventKind::Create(CreateKind::Folder), "a"), ignore));
    assert!(!is_save_trigger(
        &e(EventKind::Access(AccessKind::Close(AccessMode::Read)), "a.txt"),
        ignore
    ));
    let outside = FsEvent {
        kind: EventKind::Create(CreateKind::File),
        paths: vec![FsPath::parse("/elsewhere/a.txt")],
    };
    assert!(!is_save_trigger(&outside, ignore));
}

#[test]
fn watcher_stops_when_it_is_disconnected() {
    let store = init();
    let head = store.head().unwrap().unwrap();
    let mut w = Watcher::new(store);
    let mut inputs = vec![WatchInput::Fault, WatchInput::Timeout, WatchInput::Disconnected];
    inputs.extend(save("late.txt", &[("late.txt", "x")], 100));
    assert_eq!(w.run(&inputs).unwrap(), StopReason::Disconnected);
    assert_eq!(w.store.snaps().count(&head), 0);
}

#[test]
fn run_for_opens_the_project_above() {
    let store = init();
    let head = store.head().unwrap().unwrap();
    let on_disk = Disk {
        grs: GrsEntry::Directory,
        user: ConfigLayer::default(),
        config_text: String::new(),
        config: Ok(ConfigLayer::default()),
        head: store.head,
        sessions: store.sessions.entries,
        snaps: store.snaps.snaps,
        file_snaps: store.snaps.file_snaps,
        ignore_files: store.ignore.ignore_files,
    };
    let inputs = save("a.txt", &[("a.txt", "a\n")], 100);
    let (w, result) =
        run_for(&FsPath::parse("/home/x/proj/src/deep"), &vec![root()], on_disk, &inputs).unwrap();
    assert_eq!(result.unwrap(), StopReason::Disconnected);
    assert_eq!(w.store.snaps().count(&head), 1);
    assert!(run_for(&FsPath::parse("/elsewhere"), &vec![root()], disk(GrsEntry::Directory), &inputs).is_err());
}
