//! The commands: configuration, sessions, warnings, errors and output.

use grs::cli_util::{resolve_root, CommandHelper, GlobalArgs};
use grs::command_error::{CommandError, CommandErrorKind};
use grs::commands::config::{
    choose_editor, cmd_config, get_key, path_lines, set_key, unset_key, ConfigAction, ConfigArgs,
    ConfigCommand, ConfigEnv, ConfigFile, ConfigLayerArg,
};
use grs::commands::new::{cmd_new, NewArgs};
use grs::commands::replay::{replay_session, ReplayArgs};
use grs::commands::session::{
    is_yes, list, rename, rm, rm_check, view, ListArgs, RenameArgs, RmArgs, RmStep, ViewArgs,
};
use grs::commands::watch::{
    ensure_session, open_project, session_name, status_text, watch_root, WatchArgs,
};
use grs::config::{Config, ConfigLayer};
use grs::error::GrsError;
use grs::path::FsPath;
use grs::store::{Disk, GrsEntry, RepoStore};
use grs::ui::{ColorChoice, Output, Ui};
use grs::ulid::SessionId;
use grs::warnings::{check_and_warn, check_gitignore, has_grs_ignore_entry, GitignoreFile};
use toml_edit::DocumentMut;

fn root() -> FsPath {
    FsPath::parse("/home/x/proj")
}

fn disk(grs: GrsEntry) -> Disk {
    Disk {
        grs,
        user: ConfigLayer::default(),
        config_text: String::new(),
        config: Ok(ConfigLayer::default()),
        head: String::new(),
        sessions: Vec::new(),
        snaps: Vec::new(),
        file_snaps: Vec::new(),
        ignore_files: Vec::new(),
    }
}

fn init() -> RepoStore {
    RepoStore::init(&root(), disk(GrsEntry::Absent), "init".to_string(), &Vec::new(), 10).unwrap()
}

fn default_document() -> DocumentMut {
    Config::default_toml().parse::<DocumentMut>().unwrap()
}

fn reread(doc: &DocumentMut) -> toml::Table {
    doc.to_string().parse::<toml::Table>().unwrap()
}

#[test]
fn set_then_get_key() {
    let mut doc = default_document();
    set_key(&mut doc, "watcher.debounce_ms", "250").unwrap();
    let cfg = reread(&doc);
    assert_eq!(cfg["watcher"]["debounce_ms"].as_integer(), Some(250));
    assert_eq!(get_key(&doc.to_string(), "watcher.debounce_ms").unwrap().trim(), "250");
}

#[test]
fn unset_removes_key() {
    let mut doc = default_document();
    set_key(&mut doc, "watcher.debounce_ms", "999").unwrap();
    unset_key(&mut doc, "watcher.debounce_ms").unwrap();
    assert!(doc["watcher"].get("debounce_ms").is_none());
}

#[test]
fn set_string_value() {
    let mut doc = default_document();
    set_key(&mut doc, "tui.syntax_theme", "\"Dracula\"").unwrap();
    let cfg = reread(&doc);
    assert_eq!(cfg["tui"]["syntax_theme"].as_str(), Some("Dracula"));
}

#[test]
fn set_array_value() {
    let mut doc = default_document();
    set_key(&mut doc, "watcher.ignore_extra", r#"["secret.key", "*.tmp"]"#).unwrap();
    let cfg = reread(&doc);
    let got: Vec<&str> = cfg["watcher"]["ignore_extra"]
        .as_array()
        .unwrap()
        .iter()
        .map(|v| v.as_str().unwrap())
        .collect();
    assert_eq!(got, vec!["secret.key", "*.tmp"]);
}

#[test]
fn set_invalid_value_errors() {
    let mut doc = default_document();
    let err = set_key(&mut doc, "watcher.debounce_ms", "not-a-number").unwrap_err();
    assert!(err.error.starts_with("invalid TOML value: "), "got {err:?}");
}

#[test]
fn keys_lead_through_tables_only() {
    let mut doc = "a = 1\n".parse::<DocumentMut>().unwrap();
    assert_eq!(set_key(&mut doc, "a.b", "2").unwrap_err().error, "a is not a table");
    assert_eq!(unset_key(&mut doc, "a.b").unwrap_err().error, "a is not a table");
    assert_eq!(unset_key(&mut doc, "x.y").unwrap_err().error, "x is not a table");
    assert_eq!(unset_key(&mut doc, "z").unwrap_err().error, "key not found: z");
    set_key(&mut doc, "p.q.r", "true").unwrap();
    assert_eq!(reread(&doc)["p"]["q"]["r"].as_bool(), Some(true));
    assert_eq!(reread(&doc)["a"].as_integer(), Some(1));
}

#[test]
fn comments_survive_an_edit() {
    let mut doc = "# mine\n[watcher]\n# quiet time\ndebounce_ms = 180\n"
        .parse::<DocumentMut>()
        .unwrap();
    set_key(&mut doc, "watcher.debounce_ms", "250").unwrap();
    let text = doc.to_string();
    assert!(text.contains("# mine"), "got {text:?}");
    assert!(text.contains("# quiet time"), "got {text:?}");
    assert!(text.contains("debounce_ms = 250"), "got {text:?}");
}

#[test]
fn an_edit_changes_nothing_but_its_line() {
    let before = "# top\n\n[replay] # how\nsyntax_theme = \"x\"  # mine\n\n# about\n\
                  [watcher]\n# quiet\ndebounce_ms=180 # ms\nignore_extra = [ \"a\" ]\n# end\n";
    let mut doc = before.parse::<DocumentMut>().unwrap();
    set_key(&mut doc, "watcher.debounce_ms", "250").unwrap();
    assert_eq!(doc.to_string(), before.replace("180", "250"));
    set_key(&mut doc, "watcher.more", "1").unwrap();
    assert_eq!(
        doc.to_string(),
        before.replace("180", "250").replace("[ \"a\" ]\n", "[ \"a\" ]\nmore = 1\n")
    );
    unset_key(&mut doc, "watcher.more").unwrap();
    assert!(set_key(&mut doc, "watcher.debounce_ms", "not a value").is_err());
    assert!(set_key(&mut doc, "watcher.debounce_ms.deeper", "1").is_err());
    assert!(unset_key(&mut doc, "watcher.nothing").is_err());
    assert_eq!(doc.to_string(), before.replace("180", "250"));
    unset_key(&mut doc, "watcher.debounce_ms").unwrap();
    assert_eq!(doc.to_string(), before.replace("# quiet\ndebounce_ms=180 # ms\n", ""));
}

#[test]
fn get_key_finds_tables_and_values() {
    let text = "[watcher]\ndebounce_ms = 180\n";
    assert_eq!(get_key(text, "watcher.debounce_ms").unwrap().trim(), "180");
    assert_eq!(get_key(text, "watcher").unwrap(), "debounce_ms = 180\n");
    assert_eq!(get_key(text, "watcher.nope").unwrap_err().error, "key not found: watcher.nope");
    assert!(get_key("= nonsense", "a").unwrap_err().error.starts_with("parse: "));
}

fn env() -> ConfigEnv {
    ConfigEnv {
        user_path: Some(FsPath::parse("/home/x/.config/grs/config.toml")),
        user_file: ConfigFile::Missing,
        root: Some(root()),
        repo_file: ConfigFile::Text("# repo\n".to_string()),
        rendered: Ok("[watcher]\ndebounce_ms = 180\n".to_string()),
        visual: None,
        editor: Some("vi".to_string()),
    }
}

fn config(command: ConfigCommand, env: ConfigEnv) -> Result<ConfigAction, CommandError> {
    cmd_config(&ConfigArgs { command }, env)
}

fn printed(r: Result<ConfigAction, CommandError>) -> String {
    match r {
        Ok(ConfigAction::Print(t)) => t,
        other => panic!("expected text, got {other:?}"),
    }
}

#[test]
fn config_show_prints_the_layers() {
    let show = |layer| ConfigCommand::Show { layer };
    assert_eq!(
        printed(config(show(Some(ConfigLayerArg::User)), env())),
        "# /home/x/.config/grs/config.toml does not exist (using defaults)\n"
    );
    let mut e = env();
    e.user_file = ConfigFile::Unreadable("denied".to_string());
    assert_eq!(
        printed(config(show(Some(ConfigLayerArg::User)), e)),
        "# error reading /home/x/.config/grs/config.toml: denied\n"
    );
    let mut e = env();
    e.user_path = None;
    assert_eq!(
        printed(config(show(Some(ConfigLayerArg::User)), e)),
        "# no HOME set; using defaults\n"
    );
    assert_eq!(printed(config(show(Some(ConfigLayerArg::Repo)), env())), "# repo\n");
    let mut e = env();
    e.repo_file = ConfigFile::Missing;
    assert_eq!(
        printed(config(show(Some(ConfigLayerArg::Repo)), e)),
        "# /home/x/proj/.grs/config.toml does not exist (using user + defaults)\n"
    );
    let mut e = env();
    e.root = None;
    assert_eq!(
        config(show(Some(ConfigLayerArg::Repo)), e).unwrap_err().error,
        "not in a grs repo"
    );
    assert_eq!(printed(config(show(None), env())), "[watcher]\ndebounce_ms = 180\n\n");
    let mut e = env();
    e.rendered = Err("no".to_string());
    assert_eq!(printed(config(show(None), e)), "# error: no\n\n");
}

#[test]
fn config_set_starts_from_the_default_file() {
    let set = ConfigCommand::SetValue {
        key: "watcher.debounce_ms".to_string(),
        value: "250".to_string(),
    };
    match config(set, env()).unwrap() {
        ConfigAction::Write(edit) => {
            assert_eq!(edit.path.text(), "/home/x/.config/grs/config.toml");
            assert_eq!(
                edit.status,
                "Set watcher.debounce_ms = 250 in /home/x/.config/grs/config.toml"
            );
            let t = edit.contents.parse::<toml::Table>().unwrap();
            assert_eq!(t["watcher"]["debounce_ms"].as_integer(), Some(250));
        }
        other => panic!("expected a file to write, got {other:?}"),
    }
}

#[test]
fn config_unset_needs_a_file_and_a_key() {
    let unset = || ConfigCommand::Unset { key: "a.b".to_string() };
    assert_eq!(
        config(unset(), env()).unwrap_err().error,
        "user config does not exist: /home/x/.config/grs/config.toml"
    );
    let mut e = env();
    e.user_file = ConfigFile::Text("[a]\nb = 1\nc = 2\n".to_string());
    match config(unset(), e).unwrap() {
        ConfigAction::Write(edit) => {
            assert_eq!(edit.contents, "[a]\nc = 2\n");
            assert_eq!(edit.status, "Removed a.b from /home/x/.config/grs/config.toml");
        }
        other => panic!("expected a file to write, got {other:?}"),
    }
    let mut e = env();
    e.user_file = ConfigFile::Text("= broken".to_string());
    let err = config(unset(), e).unwrap_err();
    assert!(err.error.starts_with("parse /home/x/.config/grs/config.toml: "), "got {err:?}");
    let mut e = env();
    e.user_file = ConfigFile::Unreadable("denied".to_string());
    assert_eq!(config(unset(), e).unwrap_err().exit_code(), 255);
    let mut e = env();
    e.user_path = None;
    assert_eq!(
        config(unset(), e).unwrap_err().error,
        "cannot determine user config path (no HOME)"
    );
}

#[test]
fn config_path_and_edit() {
    assert_eq!(
        printed(config(ConfigCommand::Path, env())),
        "user: /home/x/.config/grs/config.toml\nrepo: /home/x/proj/.grs/config.toml\n"
    );
    assert_eq!(
        path_lines(&None, &None),
        "user: (no HOME — unset)\nrepo: (not in a grs repo)\n"
    );
    match config(ConfigCommand::Edit, env()).unwrap() {
        ConfigAction::OpenEditor { path, make, editor } => {
            assert_eq!(path.text(), "/home/x/.config/grs/config.toml");
            assert!(make);
            assert_eq!(editor.unwrap(), "vi");
        }
        other => panic!("expected an editor, got {other:?}"),
    }
    assert_eq!(
        choose_editor(&Some("code".to_string()), &Some("vi".to_string())).unwrap(),
        "code"
    );
    assert_eq!(
        choose_editor(&None, &None).unwrap_err().error,
        "set $VISUAL or $EDITOR to use `grs config edit`"
    );
    match config(ConfigCommand::Get { key: "watcher.debounce_ms".to_string() }, env()).unwrap() {
        ConfigAction::Print(t) => assert_eq!(t.trim(), "180"),
        other => panic!("expected text, got {other:?}"),
    }
}

#[test]
fn no_warning_for_non_git_repo() {
    assert!(check_gitignore(false, &GitignoreFile::Missing).is_none());
}

#[test]
fn warns_when_git_repo_has_no_gitignore() {
    assert!(check_gitignore(true, &GitignoreFile::Missing).is_some());
}

#[test]
fn warns_when_gitignore_omits_grs() {
    assert!(check_gitignore(true, &GitignoreFile::Text("target/\n".to_string())).is_some());
}

#[test]
fn silent_when_gitignore_excludes_grs() {
    assert!(check_gitignore(true, &GitignoreFile::Text(".grs/\n".to_string())).is_none());
}

#[test]
fn matches_grs_without_trailing_slash() {
    assert!(check_gitignore(true, &GitignoreFile::Text(".grs\n".to_string())).is_none());
}

#[test]
fn comments_and_blanks_are_ignored() {
    let text = "# this is a comment\n\n  # indented comment\n.grs/\n";
    assert!(check_gitignore(true, &GitignoreFile::Text(text.to_string())).is_none());
    assert!(!has_grs_ignore_entry("# .grs/\n  #.grs\n"));
}

#[test]
fn marker_suppresses_repeat_warnings() {
    let first = check_and_warn(true, &GitignoreFile::Missing, false).unwrap();
    assert!(first.contains("there's no .gitignore"), "got {first:?}");
    assert!(first.ends_with("    .grs/\n\n"));
    assert!(check_and_warn(true, &GitignoreFile::Missing, true).is_none());
}

#[test]
fn gitignore_patterns_for_grs() {
    assert!(has_grs_ignore_entry("/.grs//\n"));
    assert!(has_grs_ignore_entry("  **/.grs\n"));
    assert!(has_grs_ignore_entry("sub/.grs/\n"));
    assert!(!has_grs_ignore_entry("x.grs\n"));
    assert!(!has_grs_ignore_entry(".grs \n"));
    assert!(check_gitignore(true, &GitignoreFile::Unreadable).is_none());
}

#[test]
fn errors_have_exit_codes_and_hints() {
    let e = CommandError::user_error("bad".to_string()).hinted("try this".to_string());
    assert_eq!(e.exit_code(), 1);
    assert_eq!(e.report(), "Error: bad\nHint: try this\n");
    assert_eq!(CommandError::cli_error("x".to_string()).exit_code(), 2);
    assert_eq!(CommandError::internal_error("x".to_string()).exit_code(), 255);
    let pipe = CommandError::new(CommandErrorKind::BrokenPipe, "x".to_string());
    assert_eq!(pipe.exit_code(), 0);
    assert_eq!(pipe.report(), "");
    assert_eq!(CommandError::new(CommandErrorKind::Config, "x".to_string()).exit_code(), 1);
    assert_eq!(CommandError::user_error_with_message("io error", "gone").error, "io error: gone");
}

#[test]
fn engine_errors_are_told_to_the_user() {
    let told = |e: GrsError| {
        let c = CommandError::from_grs(&e);
        (c.error, c.hints)
    };
    assert_eq!(
        told(GrsError::NotInitialized),
        (
            "No .grs/ repository found here".to_string(),
            vec!["Run `grs` to open the TUI; it auto-initializes the repo on first run."
                .to_string()]
        )
    );
    assert_eq!(
        told(GrsError::AlreadyInitialized).0,
        "This directory is already a grs repo"
    );
    assert_eq!(told(GrsError::NotFound("gone".to_string())).0, "gone");
    assert_eq!(
        told(GrsError::AmbiguousId("01".to_string())).0,
        "id \"01\" matched multiple sessions"
    );
    assert_eq!(told(GrsError::Config("c".to_string())).0, "c");
    assert_eq!(told(GrsError::Ignore("i".to_string())).0, "i");
    assert_eq!(
        told(GrsError::UnsupportedVersion(9)),
        (
            "grs storage version 9 is not supported by this build".to_string(),
            vec!["Upgrade grs.".to_string()]
        )
    );
    assert_eq!(told(GrsError::Io("e".to_string())).0, "io error: e");
    assert_eq!(told(GrsError::Json("e".to_string())).0, "json error: e");
    assert_eq!(
        told(GrsError::NameInUse("n".to_string())).0,
        "session name \"n\" is already in use"
    );
}

#[test]
fn quiet_output_has_no_status() {
    let ui = Ui::new(false, ColorChoice::default());
    assert_eq!(ui.color, ColorChoice::Auto);
    assert!(matches!(ui.say("a"), Output::Stdout(t) if t == "a\n"));
    assert!(matches!(ui.status("a"), Output::Stderr(t) if t == "a\n"));
    assert!(matches!(ui.warning("a"), Output::Stderr(t) if t == "Warning: a\n"));
    assert!(matches!(ui.hint("a"), Output::Stderr(t) if t == "Hint: a\n"));
    assert!(matches!(ui.stderr("a"), Output::Stderr(t) if t == "a"));
    let quiet = Ui::new(true, ColorChoice::Never);
    assert!(matches!(quiet.status("a"), Output::Nothing));
    assert!(matches!(quiet.warning("a"), Output::Stderr(_)));
}

#[test]
fn session_list_prints_a_table() {
    let mut store = init();
    store.sessions.entries.clear();
    let all = ListArgs { ended: false, open: false };
    assert_eq!(list(&store, &all, 0), vec!["(no sessions)"]);
    let id = SessionId(7);
    store.sessions.create_with_id("refactor".to_string(), 0, id).unwrap();
    store.sessions.create_with_id("x".to_string(), 60_000, SessionId(9)).unwrap();
    store.sessions.finalize(&id, 100, 12).unwrap();
    assert_eq!(
        list(&store, &all, 180_000),
        vec![
            "open    x           0 snaps  started 2m ago      00000000",
            "ended   refactor   12 snaps  started 3m ago      00000000",
        ]
    );
    let ended = ListArgs { ended: true, open: false };
    assert_eq!(list(&store, &ended, 180_000).len(), 1);
    let open = ListArgs { ended: false, open: true };
    assert!(list(&store, &open, 180_000)[0].starts_with("open    x   "));
}

#[test]
fn sessions_are_renamed_and_removed() {
    let mut store = init();
    let head = store.head().unwrap().unwrap();
    let args = RenameArgs { old: "init".to_string(), new: "first".to_string() };
    assert_eq!(rename(&mut store, &args).unwrap(), "renamed to \"first\"");
    let by_name = ViewArgs { name_or_id: "first".to_string() };
    assert_eq!(view(&store, &by_name).unwrap().id, head);
    let gone = ViewArgs { name_or_id: "nobody".to_string() };
    assert_eq!(view(&store, &gone).unwrap_err().error, "no session matching \"nobody\"");
    let rm_args = |yes| RmArgs { name_or_id: "first".to_string(), yes };
    assert_eq!(
        rm_check(&store, &rm_args(true)).unwrap_err().error,
        "session \"first\" is still open; quit the TUI first"
    );
    store.sessions.finalize(&head, 50, 3).unwrap();
    match rm_check(&store, &rm_args(false)).unwrap() {
        RmStep::Ask(s, q) => {
            assert_eq!(s.id, head);
            assert_eq!(q, "Delete session \"first\" and its 3 snaps? [y/N] ");
        }
        other => panic!("expected a question, got {other:?}"),
    }
    assert!(is_yes(" Y\n"));
    assert!(is_yes("y"));
    assert!(!is_yes("yes"));
    assert!(!is_yes(""));
    match rm_check(&store, &rm_args(true)).unwrap() {
        RmStep::Go(s) => assert_eq!(rm(&mut store, &s).unwrap(), "deleted session \"first\""),
        other => panic!("expected no question, got {other:?}"),
    }
    assert_eq!(store.sessions().list().len(), 0);
}

#[test]
fn new_session_is_announced() {
    let mut store = init();
    let args = NewArgs { name: "next".to_string() };
    let said = cmd_new(&mut store, &args, &Vec::new(), 90).unwrap();
    let id = store.head().unwrap().unwrap().as_str();
    assert_eq!(said, format!("new session \"next\" ({})", &id[..10]));
    let again = cmd_new(&mut store, &args, &Vec::new(), 95).unwrap_err();
    assert_eq!(again.error, "session name \"next\" is already in use");
}

#[test]
fn replay_picks_a_session() {
    let mut store = init();
    let head = store.head().unwrap().unwrap();
    let current = ReplayArgs { session: None };
    assert_eq!(replay_session(&store, &current).unwrap().id, head);
    let named = ReplayArgs { session: Some("ini".to_string()) };
    assert_eq!(replay_session(&store, &named).unwrap().id, head);
    store.head = String::new();
    assert_eq!(
        replay_session(&store, &current).unwrap_err().error,
        "HEAD is missing; just run `grs` to open the TUI"
    );
}

fn watch_args(no_init: bool) -> WatchArgs {
    WatchArgs { root: None, no_init, session_name: None }
}

#[test]
fn watch_opens_a_project_and_a_session() {
    let cwd = FsPath::parse("/tmp");
    assert_eq!(watch_root(&watch_args(false), Some(&root()), &cwd).text(), "/home/x/proj");
    assert_eq!(watch_root(&watch_args(false), None, &cwd).text(), "/tmp");
    let given = WatchArgs { root: Some(cwd.copy()), no_init: false, session_name: None };
    assert_eq!(watch_root(&given, Some(&root()), &root()).text(), "/tmp");
    assert_eq!(session_name(&watch_args(false), &root()), "proj");
    assert_eq!(session_name(&watch_args(false), &FsPath::parse("/")), "watch");
    let err = open_project(&watch_args(true), &root(), disk(GrsEntry::Absent), &Vec::new(), 5).unwrap_err();
    assert_eq!(err.error, "no .grs/ at /home/x/proj");
    assert_eq!(
        err.hints,
        vec!["drop --no-init to auto-initialize, or run `grs` once first."]
    );
    let mut store =
        open_project(&watch_args(false), &root(), disk(GrsEntry::Absent), &Vec::new(), 5).unwrap();
    assert!(ensure_session(&mut store, &watch_args(false), &root(), &Vec::new(), 6)
        .unwrap()
        .is_none());
    let head = store.head().unwrap().unwrap();
    assert_eq!(
        status_text(&store).unwrap(),
        format!(
            "watching /home/x/proj (session {}) — press Ctrl+C to stop",
            &head.as_str()[..8]
        )
    );
    store.sessions.finalize(&head, 7, 0).unwrap();
    let other = WatchArgs { root: None, no_init: false, session_name: Some("ci".to_string()) };
    let made = ensure_session(&mut store, &other, &root(), &Vec::new(), 8).unwrap().unwrap();
    assert_eq!(made.name, "ci");
    assert_eq!(store.head().unwrap(), Some(made.id));
}

#[test]
fn helper_resolves_the_root() {
    let cwd = FsPath::parse("/home/x/proj/src");
    let repos = vec![root()];
    assert_eq!(resolve_root(&cwd, &None, &repos).unwrap().text(), "/home/x/proj");
    let repo = Some(FsPath::parse("/other"));
    assert_eq!(resolve_root(&cwd, &repo, &repos).unwrap().text(), "/other");
    assert!(resolve_root(&FsPath::parse("/elsewhere"), &None, &repos).is_none());
    let global = GlobalArgs { repo: None, quiet: false, color: None, verbose: false };
    let helper = CommandHelper::new(cwd, global, None);
    assert!(helper.root().is_none());
    assert_eq!(helper.cwd().text(), "/home/x/proj/src");
    assert!(!helper.global().quiet);
    assert!(matches!(helper.store(disk(GrsEntry::Directory)).unwrap_err(), GrsError::NotInitialized));
    assert!(helper.try_store(disk(GrsEntry::Directory)).is_none());
    assert_eq!(helper.project_root(&repos).text(), "/home/x/proj");
    assert_eq!(helper.project_root(&Vec::new()).text(), "/home/x/proj/src");
    let store = helper
        .store_or_init(&Vec::new(), disk(GrsEntry::Absent), "s".to_string(), &Vec::new(), 3)
        .unwrap();
    assert_eq!(store.root().text(), "/home/x/proj/src");
    assert_eq!(helper.user_config(None).watcher.debounce_ms, 180);
    let mut mine = ConfigLayer::default();
    mine.debounce_ms = Some(90);
    assert_eq!(
        helper.user_config(Some(("x = 1".to_string(), Ok(mine)))).watcher.debounce_ms,
        90
    );
}
