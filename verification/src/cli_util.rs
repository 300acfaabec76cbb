//! What commands know of the world: the working directory, the global options and the root
//! of the project.

use crate::config;
use crate::config::{Config, ConfigLayer};
use crate::error::GrsError;
use crate::path::{FsPath, PathModel};
use crate::paths;
use crate::snap::WorkFile;
use crate::store;
use crate::store::{Disk, GrsEntry, RepoStore};
use crate::text;
use crate::ui::ColorChoice;
use crate::util::time::Millis;
use vstd::prelude::*;

verus! {

/// The options that every command takes.
#[derive(Debug)]
pub struct GlobalArgs {
    /// Run as if started in this directory.
    pub repo: Option<FsPath>,
    /// Print no status.
    pub quiet: bool,
    pub color: Option<ColorChoice>,
    /// Log for debugging.
    pub verbose: bool,
}

/// Access to the working directory, the global options and the project.
#[derive(Debug)]
pub struct CommandHelper {
    pub cwd: FsPath,
    pub global: GlobalArgs,
    pub root: Option<FsPath>,
}

/// The root of the project: the given directory, or else the closest directory at or above
/// the working directory with a `.grs` directory. `repos` are the directories that have
/// one.
pub fn resolve_root(cwd: &FsPath, repo: &Option<FsPath>, repos: &Vec<FsPath>) -> (r: Option<FsPath>)
    ensures
        match r {
            Some(p) => Some(p@) == match *repo {
                Some(q) => Some(q@),
                None => paths::nearest(cwd@, paths::models(repos@)),
            },
            None => *repo is None && paths::nearest(cwd@, paths::models(repos@)) is None,
        },
{
    match repo {
        Some(p) => Some(p.copy()),
        None => paths::try_find_grs_root(cwd, repos),
    }
}

/// What opening a project gives where it is initialized when it is not there.
pub open spec fn opens_or_inits(
    root: PathModel,
    disk: Disk,
    name: String,
    tree: Seq<WorkFile>,
    now: Millis,
    r: Result<RepoStore, GrsError>,
) -> bool {
    if disk.grs == GrsEntry::Directory {
        store::opens(root, disk, r)
    } else {
        store::inits(root, disk, name, tree, now, r)
    }
}

impl CommandHelper {
    /// A helper for a run.
    pub fn new(cwd: FsPath, global: GlobalArgs, root: Option<FsPath>) -> (r: CommandHelper)
        ensures
            r == (CommandHelper { cwd, global, root }),
    {
        CommandHelper { cwd, global, root }
    }

    /// The working directory.
    pub fn cwd(&self) -> (r: &FsPath)
        ensures
            *r == self.cwd,
    {
        &self.cwd
    }

    /// The global options.
    pub fn global(&self) -> (r: &GlobalArgs)
        ensures
            *r == self.global,
    {
        &self.global
    }

    /// The root of the project, if there is one.
    pub fn root(&self) -> (r: Option<&FsPath>)
        ensures
            match r {
                Some(p) => self.root == Some(*p),
                None => self.root is None,
            },
    {
        match &self.root {
            Some(p) => Some(p),
            None => None,
        }
    }

    /// The user's configuration, from what their file holds and what a TOML parser made of
    /// it. Defaults where there is none or it cannot be used.
    pub fn user_config(&self, file: Option<(String, Result<ConfigLayer, String>)>) -> (r:
        Config)
        ensures
            match file {
                Some((contents, Ok(c))) => if text::trim(contents@).len() == 0 {
                    r.is_default()
                } else {
                    config::in_force(c, config::nothing_set(), r)
                },
                _ => r.is_default(),
            },
    {
        Config::load_user(file)
    }

    /// Opens the project. `disk` is what was found at its root.
    pub fn store(&self, disk: Disk) -> (r: Result<RepoStore, GrsError>)
        ensures
            match self.root {
                Some(p) => store::opens(p@, disk, r),
                None => r is Err && r->Err_0 is NotInitialized,
            },
    {
        match &self.root {
            Some(p) => RepoStore::open(p, disk),
            None => Err(GrsError::NotInitialized),
        }
    }

    /// Opens the project where there is one that can be opened.
    pub fn try_store(&self, disk: Disk) -> (r: Option<RepoStore>)
        ensures
            match r {
                Some(s) => self.root is Some && store::opens(self.root->0@, disk, Ok(s)),
                None => self.root is Some ==> exists|e: GrsError| #[trigger]
                    store::opens(self.root->0@, disk, Err(e)),
            },
    {
        match self.store(disk) {
            Ok(s) => Some(s),
            Err(e) => {
                assert(self.root is Some ==> store::opens(self.root->0@, disk, Err(e)));
                None
            },
        }
    }

    /// Where the project is, or is to be: its root, or else the closest directory at or
    /// above the working directory with a `.grs` directory, or else the working directory.
    pub fn project_root(&self, repos: &Vec<FsPath>) -> (r: FsPath)
        ensures
            r@ == match self.root {
                Some(p) => p@,
                None => match paths::nearest(self.cwd@, paths::models(repos@)) {
                    Some(p) => p,
                    None => self.cwd@,
                },
            },
    {
        match &self.root {
            Some(p) => p.copy(),
            None => match paths::try_find_grs_root(&self.cwd, repos) {
                Some(p) => p,
                None => self.cwd.copy(),
            },
        }
    }

    /// Opens the project, and initializes it where there is none yet: with a session of the
    /// given name over `tree`. `disk` is what was found at `project_root`.
    pub fn store_or_init(
        &self,
        repos: &Vec<FsPath>,
        disk: Disk,
        name: String,
        tree: &Vec<WorkFile>,
        now: Millis,
    ) -> (r: Result<RepoStore, GrsError>)
        requires
            tree@.len() <= u32::MAX,
        ensures
            match (self.root, paths::nearest(self.cwd@, paths::models(repos@))) {
                (Some(p), _) => opens_or_inits(p@, disk, name, tree@, now, r),
                (None, Some(p)) => opens_or_inits(p, disk, name, tree@, now, r),
                (None, None) => store::inits(self.cwd@, disk, name, tree@, now, r),
            },
    {
        if let Some(root) = &self.root {
            return RepoStore::open_or_init(root, disk, name, tree, now);
        }
        if let Some(root) = paths::try_find_grs_root(&self.cwd, repos) {
            return RepoStore::open_or_init(&root, disk, name, tree, now);
        }
        RepoStore::init(&self.cwd, disk, name, tree, now)
    }
}

} // verus!
