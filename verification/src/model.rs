//! The data model.
//!
//! - A session is one observation period with a name of the user's choice.
//! - A snap is one whole project tree, captured at a moment in time.
//! - Diffs are always consecutive: snap `n` against snap `n - 1`.

use crate::ulid::SessionId;
use crate::util::time::Millis;
use vstd::prelude::*;

verus! {

/// The schema version on disk.
pub const STORAGE_VERSION: u32 = 1;

/// One observation period, stored as `meta.toml` in the session's folder.
#[derive(Debug)]
pub struct SessionMeta {
    pub version: u32,
    /// The name given by the user, unique per project.
    pub name: String,
    pub id: SessionId,
    /// Derived from the name at the start; stays when the name changes.
    pub slug: String,
    pub started_at: Millis,
    /// `None` while the session is open.
    pub ended_at: Option<Millis>,
    /// How many snaps were captured.
    pub snap_count: u32,
    /// How many distinct files were captured one by one.
    pub file_count: u32,
}

impl SessionMeta {
    /// Whether the session has not ended.
    pub open spec fn open_now(self) -> bool {
        self.ended_at is None
    }

    /// Whether the session has not ended.
    pub fn is_open(&self) -> (r: bool)
        ensures
            r == self.open_now(),
    {
        self.ended_at.is_none()
    }

    /// A session that has just been opened.
    pub fn new_open(name: String, id: SessionId, slug: String, started_at: Millis) -> (r: SessionMeta)
        ensures
            r == (SessionMeta {
                version: STORAGE_VERSION,
                name,
                id,
                slug,
                started_at,
                ended_at: None,
                snap_count: 0,
                file_count: 0,
            }),
    {
        SessionMeta {
            version: STORAGE_VERSION,
            name,
            id,
            slug,
            started_at,
            ended_at: None,
            snap_count: 0,
            file_count: 0,
        }
    }

    /// A second value with the same fields.
    pub fn copy(&self) -> (r: SessionMeta)
        ensures
            r == *self,
    {
        SessionMeta {
            version: self.version,
            name: self.name.clone(),
            id: self.id,
            slug: self.slug.clone(),
            started_at: self.started_at,
            ended_at: self.ended_at,
            snap_count: self.snap_count,
            file_count: self.file_count,
        }
    }
}

/// One file of a snap.
#[derive(Debug)]
pub struct SnapFile {
    /// Relative to the project root, with forward slashes.
    pub path: String,
    /// SHA-256 of the content, in hexadecimal.
    pub sha256: String,
    /// Size in bytes.
    pub size: u64,
    /// Whether the file looks binary.
    pub binary: bool,
}

impl SnapFile {
    /// A second value with the same fields.
    pub fn copy(&self) -> (r: SnapFile)
        ensures
            r == *self,
    {
        SnapFile {
            path: self.path.clone(),
            sha256: self.sha256.clone(),
            size: self.size,
            binary: self.binary,
        }
    }
}

/// What is recorded of one snap, stored as `meta.toml` in the snap's folder.
#[derive(Debug)]
pub struct SnapMeta {
    pub version: u32,
    /// The number of the snap in its session, counted from 1.
    pub n: u32,
    pub timestamp: Millis,
    /// How many files the snap holds.
    pub file_count: u32,
    /// The bytes of all its files together.
    pub total_bytes: u64,
    pub files: Vec<SnapFile>,
}

/// What is recorded of one file, with its texts as characters.
#[verifier::ext_equal]
pub struct FileModel {
    pub path: Seq<char>,
    pub sha256: Seq<char>,
    pub size: u64,
    pub binary: bool,
}

impl View for SnapFile {
    type V = FileModel;

    open spec fn view(&self) -> FileModel {
        FileModel {
            path: self.path@,
            sha256: self.sha256@,
            size: self.size,
            binary: self.binary,
        }
    }
}

/// What is recorded of each file.
pub open spec fn file_models(files: Seq<SnapFile>) -> Seq<FileModel> {
    files.map_values(|f: SnapFile| f@)
}

/// Copies a list of files.
pub fn copy_files(files: &Vec<SnapFile>) -> (r: Vec<SnapFile>)
    ensures
        r@ == files@,
{
    let mut r: Vec<SnapFile> = Vec::new();
    let mut i: usize = 0;
    while i < files.len()
        invariant
            i <= files.len(),
            r@ =~= files@.take(i as int),
        decreases files.len() - i,
    {
        r.push(files[i].copy());
        i += 1;
    }
    r
}

impl SnapMeta {
    /// Whether two records say the same.
    pub open spec fn says_the_same(self, other: SnapMeta) -> bool {
        &&& self.version == other.version
        &&& self.n == other.n
        &&& self.timestamp == other.timestamp
        &&& self.file_count == other.file_count
        &&& self.total_bytes == other.total_bytes
        &&& self.files@ == other.files@
    }

    /// A second record that says the same.
    pub fn copy(&self) -> (r: SnapMeta)
        ensures
            r.says_the_same(*self),
    {
        SnapMeta {
            version: self.version,
            n: self.n,
            timestamp: self.timestamp,
            file_count: self.file_count,
            total_bytes: self.total_bytes,
            files: copy_files(&self.files),
        }
    }
}

/// The lines of a text that a change added and removed, counted from 1.
#[derive(Debug)]
pub struct LineDiff {
    pub added_lines: Vec<usize>,
    pub removed_lines: Vec<usize>,
    /// The earlier snap of the same file, if there is one.
    pub prev_seq: Option<u32>,
}

} // verus!
