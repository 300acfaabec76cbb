# grs

Watch a project grow, one snap at a time. A session observes a directory; every save
captures the tree as a numbered snap; snaps are compared, reviewed and replayed in the
terminal.

- `src/` is the library: ids, paths, ignore rules, sessions, snaps, diffs, configuration,
  the watcher's decisions, the commands and the state of every screen. It works on values;
  what is on disk, what time it is and which key was pressed are arguments.
- `app/` is the program around it: the command line, files, the notifier and the terminal.
- `tests/` runs the library.

| Module | What it holds |
| --- | --- |
| `ulid`, `path`, `paths`, `text`, `order`, `error` | ids, paths, texts, sorting, errors |
| `ignore`, `config`, `lockfile`, `warnings` | rules of a project |
| `model`, `session`, `snap`, `file_snap`, `store` | what is recorded |
| `diff`, `tree_diff` | what changed |
| `watcher` | which events make snaps |
| `tui` | the screens: two-pane view, list of sessions, review, replay |
| `cli_util`, `command_error`, `commands`, `ui` | the commands |
