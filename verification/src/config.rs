//! Layered configuration: built-in defaults, then the user's file, then the
//! project's file.

use crate::error::GrsError;
use crate::path;
use crate::path::{FsPath, PathModel};
use crate::paths;
use crate::text;
use vstd::prelude::*;

verus! {

/// The configuration.
#[derive(Debug)]
pub struct Config {
    pub watcher: WatcherConfig,
    pub replay: ReplayConfig,
    pub tui: TuiConfig,
}

/// How files are watched.
#[derive(Debug)]
pub struct WatcherConfig {
    pub debounce_ms: u64,
    /// Ignore patterns on top of those in `.grsignore`.
    pub ignore_extra: Vec<String>,
}

/// How sessions are replayed.
#[derive(Debug)]
pub struct ReplayConfig {
    pub default_speed_ms: u64,
    pub syntax_theme: String,
}

/// How the terminal interface looks.
#[derive(Debug)]
pub struct TuiConfig {
    pub syntax_theme: String,
}

pub const DEFAULT_DEBOUNCE_MS: u64 = 180;

pub const DEFAULT_SPEED_MS: u64 = 600;

pub const DEFAULT_SYNTAX_THEME: &'static str = "base16-eighties.dark";

impl Default for WatcherConfig {
    fn default() -> (r: WatcherConfig)
        ensures
            r.is_default(),
    {
        WatcherConfig { debounce_ms: DEFAULT_DEBOUNCE_MS, ignore_extra: Vec::new() }
    }
}

impl Default for ReplayConfig {
    fn default() -> (r: ReplayConfig)
        ensures
            r.is_default(),
    {
        ReplayConfig {
            default_speed_ms: DEFAULT_SPEED_MS,
            syntax_theme: DEFAULT_SYNTAX_THEME.to_owned(),
        }
    }
}

impl Default for TuiConfig {
    fn default() -> (r: TuiConfig)
        ensures
            r.is_default(),
    {
        TuiConfig { syntax_theme: DEFAULT_SYNTAX_THEME.to_owned() }
    }
}

impl Default for Config {
    fn default() -> (r: Config)
        ensures
            r.is_default(),
    {
        Config {
            watcher: WatcherConfig::default(),
            replay: ReplayConfig::default(),
            tui: TuiConfig::default(),
        }
    }
}

impl WatcherConfig {
    /// Whether nothing is set.
    pub open spec fn is_default(self) -> bool {
        self.debounce_ms == DEFAULT_DEBOUNCE_MS && self.ignore_extra@.len() == 0
    }
}

impl ReplayConfig {
    /// Whether nothing is set.
    pub open spec fn is_default(self) -> bool {
        self.default_speed_ms == DEFAULT_SPEED_MS && self.syntax_theme@ == DEFAULT_SYNTAX_THEME@
    }
}

impl TuiConfig {
    /// Whether nothing is set.
    pub open spec fn is_default(self) -> bool {
        self.syntax_theme@ == DEFAULT_SYNTAX_THEME@
    }
}

/// What one configuration file sets. Keys that it leaves out are `None`.
#[derive(Debug)]
pub struct ConfigLayer {
    pub debounce_ms: Option<u64>,
    pub ignore_extra: Option<Vec<String>>,
    pub default_speed_ms: Option<u64>,
    pub replay_theme: Option<String>,
    pub tui_theme: Option<String>,
}

impl Default for ConfigLayer {
    fn default() -> (r: ConfigLayer)
        ensures
            r.is_empty(),
    {
        ConfigLayer {
            debounce_ms: None,
            ignore_extra: None,
            default_speed_ms: None,
            replay_theme: None,
            tui_theme: None,
        }
    }
}

impl ConfigLayer {
    /// Whether nothing is set.
    pub open spec fn is_empty(self) -> bool {
        &&& self.debounce_ms is None
        &&& self.ignore_extra is None
        &&& self.default_speed_ms is None
        &&& self.replay_theme is None
        &&& self.tui_theme is None
    }

    /// What the user's configuration file sets. One that is missing or faulty sets nothing.
    pub fn load_user(file: Option<(String, Result<ConfigLayer, String>)>) -> (r: ConfigLayer)
        ensures
            match file {
                Some((contents, Ok(c))) => if text::trim(contents@).len() == 0 {
                    r.is_empty()
                } else {
                    r == c
                },
                _ => r.is_empty(),
            },
    {
        match file {
            Some((contents, parsed)) => {
                let nowhere = FsPath { absolute: false, parts: Vec::new() };
                match Self::load_file(&nowhere, contents.as_str(), parsed) {
                    Ok(c) => c,
                    Err(_) => ConfigLayer::default(),
                }
            },
            None => ConfigLayer::default(),
        }
    }

    /// What the project's configuration file sets. The text of a missing file is empty.
    pub fn load_repo(root: &FsPath, contents: &str, parsed: Result<ConfigLayer, String>) -> (r:
        Result<ConfigLayer, GrsError>)
        ensures
            loads(repo_config_path(root@), contents@, parsed, r),
    {
        let file = root.join(paths::GRS_DIR).join(paths::CONFIG_FILE);
        Self::load_file(&file, contents, parsed)
    }

    /// What a configuration file sets, given its text and what a TOML parser made of it.
    fn load_file(file: &FsPath, contents: &str, parsed: Result<ConfigLayer, String>) -> (r: Result<
        ConfigLayer,
        GrsError,
    >)
        ensures
            loads(file@, contents@, parsed, r),
    {
        let trimmed = text::trimmed(contents);
        if text::chars_of(trimmed.as_str()).len() == 0 {
            return Ok(ConfigLayer::default());
        }
        match parsed {
            Ok(c) => Ok(c),
            Err(m) => {
                let t = text::concat3(file.text().as_str(), ": ", m.as_str());
                Err(GrsError::Config(t))
            },
        }
    }
}

/// The layer that sets nothing.
pub open spec fn nothing_set() -> ConfigLayer {
    ConfigLayer {
        debounce_ms: None,
        ignore_extra: None,
        default_speed_ms: None,
        replay_theme: None,
        tui_theme: None,
    }
}

/// What is set on top of `below`: the value that is set, or else that of `below`.
pub open spec fn over<T>(below: T, set: Option<T>) -> T {
    match set {
        Some(v) => v,
        None => below,
    }
}

/// A list on top of `below`: the one that is set, unless it is empty.
pub open spec fn list_over(below: Vec<String>, set: Option<Vec<String>>) -> Vec<String> {
    match set {
        Some(v) => if v@.len() == 0 {
            below
        } else {
            v
        },
        None => below,
    }
}

/// Whether `c` is what `layer` sets on top of `below`.
pub open spec fn layered(below: Config, layer: ConfigLayer, c: Config) -> bool {
    &&& c.watcher.debounce_ms == over(below.watcher.debounce_ms, layer.debounce_ms)
    &&& c.watcher.ignore_extra == list_over(below.watcher.ignore_extra, layer.ignore_extra)
    &&& c.replay.default_speed_ms == over(below.replay.default_speed_ms, layer.default_speed_ms)
    &&& c.replay.syntax_theme == over(below.replay.syntax_theme, layer.replay_theme)
    &&& c.tui.syntax_theme == over(below.tui.syntax_theme, layer.tui_theme)
}

/// Whether `c` is the configuration of these layers: what the project sets, or else what the
/// user sets, or else the default.
pub open spec fn in_force(user: ConfigLayer, repo: ConfigLayer, c: Config) -> bool {
    &&& c.watcher.debounce_ms == over(over(DEFAULT_DEBOUNCE_MS, user.debounce_ms), repo.debounce_ms)
    &&& c.watcher.ignore_extra@ == (match (repo.ignore_extra, user.ignore_extra) {
        (Some(r), _) if r@.len() > 0 => r@,
        (_, Some(u)) => u@,
        _ => Seq::empty(),
    })
    &&& c.replay.default_speed_ms == over(
        over(DEFAULT_SPEED_MS, user.default_speed_ms),
        repo.default_speed_ms,
    )
    &&& c.replay.syntax_theme@ == theme_in_force(user.replay_theme, repo.replay_theme)
    &&& c.tui.syntax_theme@ == theme_in_force(user.tui_theme, repo.tui_theme)
}

/// The theme that the project names, or else the user, or else the default.
pub open spec fn theme_in_force(user: Option<String>, repo: Option<String>) -> Seq<char> {
    match (repo, user) {
        (Some(t), _) => t@,
        (None, Some(t)) => t@,
        (None, None) => DEFAULT_SYNTAX_THEME@,
    }
}

/// The file that holds the configuration of a project.
pub open spec fn repo_config_path(root: PathModel) -> PathModel {
    root.child(paths::GRS_DIR@).child(paths::CONFIG_FILE@)
}

/// What reading a configuration file gives: nothing set where it holds nothing but white
/// space, what was parsed where that succeeded, and otherwise an error that names the
/// file.
pub open spec fn loads(
    file: PathModel,
    contents: Seq<char>,
    parsed: Result<ConfigLayer, String>,
    r: Result<ConfigLayer, GrsError>,
) -> bool {
    if text::trim(contents).len() == 0 {
        r is Ok && r->Ok_0.is_empty()
    } else {
        match parsed {
            Ok(c) => r == Ok::<ConfigLayer, GrsError>(c),
            Err(m) => r is Err && r->Err_0 is Config && r->Err_0->Config_0@ == file.text() + ": "@
                + m@,
        }
    }
}

impl Config {
    /// Whether every setting is the default.
    pub open spec fn is_default(self) -> bool {
        self.watcher.is_default() && self.replay.is_default() && self.tui.is_default()
    }

    /// The project's configuration on top of the defaults. The text of a missing file is
    /// empty.
    pub fn load_repo(root: &FsPath, contents: &str, parsed: Result<ConfigLayer, String>) -> (r:
        Result<Config, GrsError>)
        ensures
            match r {
                Ok(c) => if text::trim(contents@).len() == 0 {
                    c.is_default()
                } else {
                    parsed is Ok && in_force(nothing_set(), parsed->Ok_0, c)
                },
                Err(e) => loads(repo_config_path(root@), contents@, parsed, Err(e)),
            },
    {
        match ConfigLayer::load_repo(root, contents, parsed) {
            Ok(layer) => Ok(Config::of_layers(ConfigLayer::default(), layer)),
            Err(e) => Err(e),
        }
    }

    /// The user's configuration on top of the defaults. A missing or faulty file gives the
    /// defaults.
    pub fn load_user(file: Option<(String, Result<ConfigLayer, String>)>) -> (r: Config)
        ensures
            match file {
                Some((contents, Ok(c))) => if text::trim(contents@).len() == 0 {
                    r.is_default()
                } else {
                    in_force(c, nothing_set(), r)
                },
                _ => r.is_default(),
            },
    {
        Config::of_layers(ConfigLayer::load_user(file), ConfigLayer::default())
    }

    /// What a layer sets on top of this: what it sets wins.
    pub fn merged_with(self, layer: ConfigLayer) -> (r: Config)
        ensures
            layered(self, layer, r),
            layer.is_empty() ==> r == self,
    {
        Config {
            watcher: WatcherConfig {
                debounce_ms: match layer.debounce_ms {
                    Some(n) => n,
                    None => self.watcher.debounce_ms,
                },
                ignore_extra: match layer.ignore_extra {
                    Some(v) => if v.len() == 0 {
                        self.watcher.ignore_extra
                    } else {
                        v
                    },
                    None => self.watcher.ignore_extra,
                },
            },
            replay: ReplayConfig {
                default_speed_ms: match layer.default_speed_ms {
                    Some(n) => n,
                    None => self.replay.default_speed_ms,
                },
                syntax_theme: match layer.replay_theme {
                    Some(t) => t,
                    None => self.replay.syntax_theme,
                },
            },
            tui: TuiConfig {
                syntax_theme: match layer.tui_theme {
                    Some(t) => t,
                    None => self.tui.syntax_theme,
                },
            },
        }
    }

    /// The configuration of a user's and a project's layer.
    pub fn of_layers(user: ConfigLayer, repo: ConfigLayer) -> (r: Config)
        ensures
            in_force(user, repo, r),
    {
        let r = Config::default().merged_with(user).merged_with(repo);
        assert(in_force(user, repo, r)) by {
            assert(r.watcher.ignore_extra@.len() == 0 ==> r.watcher.ignore_extra@ =~= Seq::empty());
            if let Some(u) = user.ignore_extra {
                assert(u@.len() == 0 ==> u@ =~= Seq::empty());
            }
        }
        r
    }

    /// The configuration file that is written when a project is initialized.
    pub fn default_toml() -> (r: &'static str)
        ensures
            r@ == DEFAULT_TOML@,
    {
        DEFAULT_TOML
    }

    /// A second value with the same settings.
    pub fn copy(&self) -> (r: Config)
        ensures
            r.watcher.debounce_ms == self.watcher.debounce_ms,
            r.watcher.ignore_extra@ == self.watcher.ignore_extra@,
            r.replay == self.replay,
            r.tui == self.tui,
    {
        Config {
            watcher: WatcherConfig {
                debounce_ms: self.watcher.debounce_ms,
                ignore_extra: text::copy_all(&self.watcher.ignore_extra),
            },
            replay: ReplayConfig {
                default_speed_ms: self.replay.default_speed_ms,
                syntax_theme: self.replay.syntax_theme.clone(),
            },
            tui: TuiConfig { syntax_theme: self.tui.syntax_theme.clone() },
        }
    }
}

/// The configuration file that is written when a project is initialized. It shows the
/// defaults and sets nothing, so that the user's configuration still counts.
pub const DEFAULT_TOML: &'static str =
    "# grs configuration\n\n[watcher]\n# Milliseconds to wait for more events.\n# debounce_ms = 180\n# Ignore patterns on top of those in .grsignore.\n# ignore_extra = []\n\n[replay]\n# Milliseconds per snap when playing.\n# default_speed_ms = 600\n# syntax_theme = \"base16-eighties.dark\"\n\n[tui]\n# syntax_theme = \"base16-eighties.dark\"\n";

/// The user's configuration file, given `XDG_CONFIG_HOME` and `HOME`.
pub open spec fn user_path(xdg: Option<Seq<char>>, home: Option<Seq<char>>) -> Option<PathModel> {
    if xdg is Some && xdg->0.len() > 0 {
        Some(path::path_of(xdg->0).child("grs"@).child("config.toml"@))
    } else if home is Some && home->0.len() > 0 {
        Some(path::path_of(home->0).child(".config"@).child("grs"@).child("config.toml"@))
    } else {
        None
    }
}

/// The user's configuration file, given `XDG_CONFIG_HOME` and `HOME` where they are
/// set. An empty variable counts as not set.
pub fn user_config_path(xdg: &Option<String>, home: &Option<String>) -> (r: Option<FsPath>)
    ensures
        match r {
            Some(p) => user_path(text::opt_view(*xdg), text::opt_view(*home)) == Some(p@),
            None => user_path(text::opt_view(*xdg), text::opt_view(*home)) is None,
        },
{
    if let Some(dir) = xdg {
        if text::chars_of(dir.as_str()).len() > 0 {
            return Some(FsPath::parse(dir.as_str()).join("grs").join("config.toml"));
        }
    }
    if let Some(dir) = home {
        if text::chars_of(dir.as_str()).len() > 0 {
            return Some(
                FsPath::parse(dir.as_str()).join(".config").join("grs").join("config.toml"),
            );
        }
    }
    None
}

/// A path with `~/` at its front taken from the home directory, where that is known.
pub fn expand_tilde(p: &str, home: &Option<String>) -> (r: FsPath)
    ensures
        r@ == if text::has_prefix(p@, "~/"@) && home is Some {
            path::path_of(home->0@).then_path(path::path_of(p@.skip("~/"@.len() as int)))
        } else {
            path::path_of(p@)
        },
{
    if text::starts_with(p, "~/") {
        if let Some(dir) = home {
            let v = text::chars_of(p);
            let n: usize = text::chars_of("~/").len();
            let rest = text::string_between(&v, n, v.len());
            assert(rest@ =~= p@.skip("~/"@.len() as int));
            return FsPath::parse(dir.as_str()).join_path(&FsPath::parse(rest.as_str()));
        }
    }
    FsPath::parse(p)
}

/// The project's settings win over the user's, and those over the defaults, also where a
/// setting says what the default says. A list counts as set where it is not empty.
pub proof fn law_project_wins_over_user(user: ConfigLayer, repo: ConfigLayer, c: Config)
    requires
        in_force(user, repo, c),
    ensures
        repo.debounce_ms matches Some(n) ==> c.watcher.debounce_ms == n,
        repo.debounce_ms is None ==> (user.debounce_ms matches Some(n) ==> c.watcher.debounce_ms
            == n),
        repo.default_speed_ms matches Some(n) ==> c.replay.default_speed_ms == n,
        repo.default_speed_ms is None ==> (user.default_speed_ms matches Some(n)
            ==> c.replay.default_speed_ms == n),
        repo.replay_theme matches Some(t) ==> c.replay.syntax_theme@ == t@,
        repo.replay_theme is None ==> (user.replay_theme matches Some(t)
            ==> c.replay.syntax_theme@ == t@),
        repo.tui_theme matches Some(t) ==> c.tui.syntax_theme@ == t@,
        repo.tui_theme is None ==> (user.tui_theme matches Some(t) ==> c.tui.syntax_theme@ == t@),
        repo.ignore_extra matches Some(v) ==> v@.len() > 0 ==> c.watcher.ignore_extra@ == v@,
        user.is_empty() && repo.is_empty() ==> c.is_default(),
{
}

/// A key that neither file sets has its default, and a list that the project leaves out or empty
/// is the user's.
pub proof fn law_unset_keys_have_their_defaults(user: ConfigLayer, repo: ConfigLayer, c: Config)
    requires
        in_force(user, repo, c),
    ensures
        user.debounce_ms is None && repo.debounce_ms is None ==> c.watcher.debounce_ms == 180,
        user.default_speed_ms is None && repo.default_speed_ms is None ==> c.replay.default_speed_ms
            == 600,
        user.replay_theme is None && repo.replay_theme is None ==> c.replay.syntax_theme@
            == DEFAULT_SYNTAX_THEME@,
        user.tui_theme is None && repo.tui_theme is None ==> c.tui.syntax_theme@
            == DEFAULT_SYNTAX_THEME@,
        (repo.ignore_extra matches Some(v) ==> v@.len() == 0) ==> (match user.ignore_extra {
            Some(u) => c.watcher.ignore_extra@ == u@,
            None => c.watcher.ignore_extra@.len() == 0,
        }),
{
}

/// The user's file lies below the directory that the environment names for configuration, or
/// else below `.config` in the home directory. An empty variable counts as not set.
pub proof fn law_users_file_lies_below_home(xdg: Option<Seq<char>>, home: Option<Seq<char>>)
    ensures
        xdg matches Some(x) ==> x.len() > 0 ==> user_path(xdg, home) == Some(
            PathModel {
                absolute: path::path_of(x).absolute,
                parts: path::path_of(x).parts + seq!["grs"@, "config.toml"@],
            },
        ),
        (xdg matches Some(x) ==> x.len() == 0) ==> (match home {
            Some(h) => if h.len() > 0 {
                user_path(xdg, home) == Some(
                    PathModel {
                        absolute: path::path_of(h).absolute,
                        parts: path::path_of(h).parts + seq![".config"@, "grs"@, "config.toml"@],
                    },
                )
            } else {
                user_path(xdg, home) is None
            },
            None => user_path(xdg, home) is None,
        }),
{
    if let Some(x) = xdg {
        assert(path::path_of(x).parts.push("grs"@).push("config.toml"@) =~= path::path_of(x).parts
            + seq!["grs"@, "config.toml"@]);
    }
    if let Some(h) = home {
        assert(path::path_of(h).parts.push(".config"@).push("grs"@).push("config.toml"@)
            =~= path::path_of(h).parts + seq![".config"@, "grs"@, "config.toml"@]);
    }
}

/// A file without text sets nothing, one that was parsed sets what it says, and a faulty one is
/// an error that names the file and the fault.
pub proof fn law_file_is_loaded_or_its_fault_told(
    file: PathModel,
    contents: Seq<char>,
    parsed: Result<ConfigLayer, String>,
    r: Result<ConfigLayer, GrsError>,
)
    requires
        loads(file, contents, parsed, r),
    ensures
        (forall|i: int| 0 <= i < contents.len() ==> text::space(#[trigger] contents[i])) ==> r
            == Ok::<ConfigLayer, GrsError>(nothing_set()),
        (exists|i: int| 0 <= i < contents.len() && !text::space(#[trigger] contents[i])) ==> match parsed {
            Ok(c) => r == Ok::<ConfigLayer, GrsError>(c),
            Err(m) => r is Err && r->Err_0 is Config && text::has_suffix(r->Err_0->Config_0@, m@)
                && text::has_prefix(r->Err_0->Config_0@, file.text()),
        },
{
    text::law_trim_takes_white_space_from_the_ends(contents);
    let (a, b) = choose|a: int, b: int|
        0 <= a <= b <= contents.len() && text::trim(contents) == #[trigger] contents.subrange(a, b)
            && (forall|i: int|
            0 <= i < contents.len() && !(a <= i < b) ==> text::space(#[trigger] contents[i])) && (a
            < b ==> !text::space(contents[a]) && !text::space(contents[b - 1]));
    if a < b {
        assert(!text::space(contents[a]));
    }
    if let (Err(e), Err(m)) = (r, parsed) {
        if e is Config {
            let t = e->Config_0@;
            if t == file.text() + ": "@ + m@ {
                assert(t.skip(t.len() - m@.len()) =~= m@);
                assert(t.take(file.text().len() as int) =~= file.text());
            }
        }
    }
}

/// What a layer sets is what holds; the rest is as below it. A list counts as set where it is not
/// empty.
pub proof fn law_layer_wins(below: Config, layer: ConfigLayer, c: Config)
    requires
        layered(below, layer, c),
    ensures
        layer.debounce_ms matches Some(n) ==> c.watcher.debounce_ms == n,
        layer.debounce_ms is None ==> c.watcher.debounce_ms == below.watcher.debounce_ms,
        layer.default_speed_ms matches Some(n) ==> c.replay.default_speed_ms == n,
        layer.default_speed_ms is None ==> c.replay.default_speed_ms == below.replay.default_speed_ms,
        layer.replay_theme matches Some(t) ==> c.replay.syntax_theme@ == t@,
        layer.replay_theme is None ==> c.replay.syntax_theme == below.replay.syntax_theme,
        layer.tui_theme matches Some(t) ==> c.tui.syntax_theme@ == t@,
        layer.tui_theme is None ==> c.tui.syntax_theme == below.tui.syntax_theme,
        layer.ignore_extra matches Some(v) ==> v@.len() > 0 ==> c.watcher.ignore_extra@ == v@,
        (layer.ignore_extra matches Some(v) ==> v@.len() == 0) ==> c.watcher.ignore_extra@
            == below.watcher.ignore_extra@,
{
}

} // verus!
