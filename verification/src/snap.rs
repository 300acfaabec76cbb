//! The snaps of all sessions.
//!
//! A snap is a whole project tree: every file that belongs to it, and a record of them. Snaps
//! are numbered from 1 within their session.

use crate::error::GrsError;
use crate::file_snap::FileSnap;
use crate::ignore::IgnoreMatcher;
use crate::model;
use crate::model::{FileModel, SnapFile, SnapMeta, STORAGE_VERSION};
use crate::order;
use crate::order::Ranked;
use crate::path::{FsPath, PathModel};
use crate::paths;
use crate::paths::GrsPaths;
use crate::text;
use crate::tree_diff;
use crate::tree_diff::{Content, SnapDiff};
use crate::ulid::SessionId;
use crate::util::fs;
use crate::util::fs::FileContent;
use crate::util::time::Millis;
use vstd::prelude::*;

verus! {

/// The record of a snap as it was found on disk.
#[derive(Debug)]
pub enum StoredMeta {
    Present(SnapMeta),
    /// There is no such file.
    Missing,
    /// The file could not be read, for this reason.
    Unreadable(String),
    /// The file holds no record, for this reason.
    Malformed(String),
}

/// One directory in a session's directory.
#[derive(Debug)]
pub struct StoredSnap {
    pub session: SessionId,
    /// The name of the directory.
    pub name: String,
    pub meta: StoredMeta,
    pub tree: Vec<Content>,
}

/// The snaps of all sessions.
#[derive(Debug)]
pub struct SnapStore {
    pub paths: GrsPaths,
    pub snaps: Vec<StoredSnap>,
    /// Snaps of single files.
    pub file_snaps: Vec<FileSnap>,
}

/// One snap in a listing.
#[derive(Debug)]
pub struct SnapEntry {
    pub n: u32,
    pub timestamp: i64,
    pub dir: FsPath,
}

/// What a listing says of a snap.
#[verifier::ext_equal]
pub struct EntryModel {
    pub n: u32,
    pub timestamp: i64,
    pub dir: PathModel,
}

impl View for SnapEntry {
    type V = EntryModel;

    open spec fn view(&self) -> EntryModel {
        EntryModel { n: self.n, timestamp: self.timestamp, dir: self.dir@ }
    }
}

impl Ranked for SnapEntry {
    open spec fn before(self, other: SnapEntry) -> bool {
        self.n < other.n
    }

    fn comes_before(&self, other: &SnapEntry) -> (r: bool) {
        self.n < other.n
    }
}

/// What listings say of snaps.
pub open spec fn entry_models(entries: Seq<SnapEntry>) -> Seq<EntryModel> {
    entries.map_values(|e: SnapEntry| e@)
}

/// The order of listings: by number.
pub open spec fn by_number() -> spec_fn(EntryModel, EntryModel) -> bool {
    |a: EntryModel, b: EntryModel| a.n < b.n
}

/// A file of the project as it was found: where it lies, and what came of reading it.
#[derive(Debug)]
pub struct WorkFile {
    pub path: FsPath,
    pub content: FileContent,
}

/// The SHA-256 of bytes, in lower-case hexadecimal.
pub uninterp spec fn sha256(bytes: Seq<u8>) -> Seq<char>;

/// `sha2::Sha256::digest`, printed in hexadecimal: a function of the bytes.
#[verifier::external_body]
fn sha256_hex(bytes: &Vec<u8>) -> (r: String)
    ensures
        r@ == sha256(bytes@),
{
    format!("{:x}", <sha2::Sha256 as sha2::Digest>::digest(bytes))
}

/// The number in the name of a snap's directory: `snap-` and a number.
pub open spec fn snap_number(name: Seq<char>) -> Option<u32> {
    if text::has_prefix(name, "snap-"@) {
        text::u32_in(name.skip("snap-"@.len() as int))
    } else {
        None
    }
}

/// Reads the number from the name of a snap's directory.
pub fn parse_snap_dir_name(name: &str) -> (r: Option<u32>)
    ensures
        r == snap_number(name@),
{
    if !text::starts_with(name, "snap-") {
        return None;
    }
    let v = text::chars_of(name);
    let p = text::chars_of("snap-");
    let digits = text::string_between(&v, p.len(), v.len());
    assert(digits@ =~= name@.skip("snap-"@.len() as int));
    text::parse_u32(digits.as_str())
}

/// The directory of each snap is read back as the snap's number.
pub proof fn law_snap_dir_names_give_the_number_back(n: u32)
    ensures
        snap_number(paths::snap_dir_name(n)) == Some(n),
{
    let name = paths::snap_dir_name(n);
    let d = text::decimal(n as nat);
    text::lemma_decimal_round_trip(n as nat);
    assert(name.take("snap-"@.len() as int) =~= "snap-"@);
    assert(name.skip("snap-"@.len() as int) =~= d);
    assert(text::is_digit(d[0]));
}

/// When the snap was taken, or 0 where its record cannot be had.
pub open spec fn recorded_time(meta: StoredMeta) -> i64 {
    match meta {
        StoredMeta::Present(m) => m.timestamp,
        _ => 0,
    }
}

impl SnapStore {
    /// Where the directory of a session lies.
    pub open spec fn session_path(self, id: SessionId) -> PathModel {
        self.paths.sessions_dir@.child(id.text())
    }

    /// The snaps of a session among the first `k` directories, in the order found.
    pub open spec fn found(self, id: SessionId, k: int) -> Seq<EntryModel>
        decreases k,
    {
        if k <= 0 {
            Seq::empty()
        } else {
            let s = self.snaps@[k - 1];
            let rest = self.found(id, k - 1);
            match snap_number(s.name@) {
                Some(n) => if s.session == id {
                    rest.push(
                        EntryModel {
                            n,
                            timestamp: recorded_time(s.meta),
                            dir: self.session_path(id).child(s.name@),
                        },
                    )
                } else {
                    rest
                },
                None => rest,
            }
        }
    }

    /// The snaps of a session, by number.
    pub open spec fn entries(self, id: SessionId) -> Seq<EntryModel> {
        order::sorted_by(self.found(id, self.snaps@.len() as int), by_number())
    }

    /// The record of snap `n` of a session as it was found.
    pub open spec fn stored(self, id: SessionId, n: u32, k: int) -> Option<StoredSnap>
        decreases self.snaps@.len() - k,
    {
        if k >= self.snaps@.len() {
            None
        } else if self.snaps@[k].session == id && self.snaps@[k].name@ == paths::snap_dir_name(n) {
            Some(self.snaps@[k])
        } else {
            self.stored(id, n, k + 1)
        }
    }

    /// The record of snap `n`, or what to say where it cannot be had.
    pub open spec fn meta_of(self, id: SessionId, n: u32) -> StoredMeta {
        match self.stored(id, n, 0) {
            Some(s) => s.meta,
            None => StoredMeta::Missing,
        }
    }

    /// How many snaps a session has, as the count is kept.
    pub open spec fn count_of(self, id: SessionId) -> u32 {
        self.entries(id).len() as usize as u32
    }

    /// The highest number in a session.
    pub open spec fn highest(self, id: SessionId) -> Option<u32> {
        if self.entries(id).len() == 0 {
            None
        } else {
            Some(self.entries(id).last().n)
        }
    }

    /// The number that the next snap of a session gets.
    pub open spec fn next_number(self, id: SessionId) -> int {
        match self.highest(id) {
            Some(n) => n + 1,
            None => 1,
        }
    }

    /// A store of the snaps that were found on disk.
    pub fn new(paths: GrsPaths, snaps: Vec<StoredSnap>, file_snaps: Vec<FileSnap>) -> (r: SnapStore)
        ensures
            r.paths == paths,
            r.snaps == snaps,
            r.file_snaps == file_snaps,
    {
        SnapStore { paths, snaps, file_snaps }
    }

    /// The snaps of a session, by number.
    pub fn list(&self, id: &SessionId) -> (r: Vec<SnapEntry>)
        ensures
            entry_models(r@) == self.entries(*id),
    {
        let mut out: Vec<SnapEntry> = Vec::new();
        let mut i: usize = 0;
        let dir = self.paths.session_dir(id);
        assert(entry_models(out@) =~= self.found(*id, 0));
        while i < self.snaps.len()
            invariant
                i <= self.snaps.len(),
                dir@ == self.session_path(*id),
                entry_models(out@) == self.found(*id, i as int),
            decreases self.snaps.len() - i,
        {
            let s = &self.snaps[i];
            let ghost before = out@;
            if let Some(n) = parse_snap_dir_name(s.name.as_str()) {
                if s.session == *id {
                    let timestamp: i64 = match &s.meta {
                        StoredMeta::Present(m) => m.timestamp,
                        _ => 0,
                    };
                    let e = SnapEntry { n, timestamp, dir: dir.join(s.name.as_str()) };
                    out.push(e);
                    assert(entry_models(out@) =~= entry_models(before).push(e@));
                }
            }
            i += 1;
        }
        proof {
            order::lemma_sorted_map(
                out@,
                |e: SnapEntry| e@,
                order::rank::<SnapEntry>(),
                by_number(),
            );
        }
        order::sort(out)
    }

    fn find(&self, id: &SessionId, n: u32) -> (r: Option<usize>)
        ensures
            match r {
                Some(i) => i < self.snaps@.len() && self.stored(*id, n, 0) == Some(
                    self.snaps@[i as int],
                ),
                None => self.stored(*id, n, 0) is None,
            },
    {
        let name = text::concat("snap-", text::decimal_of(n as u64).as_str());
        let mut i: usize = 0;
        while i < self.snaps.len()
            invariant
                i <= self.snaps.len(),
                name@ == paths::snap_dir_name(n),
                self.stored(*id, n, 0) == self.stored(*id, n, i as int),
            decreases self.snaps.len() - i,
        {
            if self.snaps[i].session == *id && text::same(
                self.snaps[i].name.as_str(),
                name.as_str(),
            ) {
                return Some(i);
            }
            i += 1;
        }
        None
    }

    /// The record of a snap.
    pub fn read_meta(&self, id: &SessionId, n: u32) -> (r: Result<&SnapMeta, GrsError>)
        ensures
            match r {
                Ok(m) => self.meta_of(*id, n) == StoredMeta::Present(*m),
                Err(e) => no_record(
                    self.meta_of(*id, n),
                    self.session_path(*id).child(paths::snap_dir_name(n)),
                    e,
                ),
            },
    {
        match self.find(id, n) {
            Some(i) => read_record(&self.snaps[i].meta, &self.paths.snap_dir(id, n)),
            None => Err(missing_record(&self.paths.snap_dir(id, n))),
        }
    }

    /// The record and the tree of a snap, where it has both.
    pub fn snap(&self, id: &SessionId, n: u32) -> (r: Option<&StoredSnap>)
        ensures
            match r {
                Some(s) => self.stored(*id, n, 0) == Some(*s),
                None => self.stored(*id, n, 0) is None,
            },
    {
        match self.find(id, n) {
            Some(i) => Some(&self.snaps[i]),
            None => None,
        }
    }

    /// The number that the next snap of a session gets: one more than the highest,
    /// or 1.
    pub fn next_n(&self, id: &SessionId) -> (r: u32)
        requires
            self.next_number(*id) <= u32::MAX,
        ensures
            r == self.next_number(*id),
    {
        let all = self.list(id);
        assert(entry_models(all@).len() == all@.len());
        if all.len() == 0 {
            1
        } else {
            assert(entry_models(all@).last() == all@[all@.len() - 1]@);
            all[all.len() - 1].n + 1
        }
    }

    /// How many snaps a session has.
    pub fn count(&self, id: &SessionId) -> (r: u32)
        ensures
            r == self.count_of(*id),
    {
        let all = self.list(id);
        assert(entry_models(all@).len() == all@.len());
        all.len() as u32
    }

    /// Removes the directory of a snap, where there is one.
    pub fn remove(&mut self, id: &SessionId, n: u32)
        ensures
            final(self).paths == old(self).paths,
            final(self).file_snaps == old(self).file_snaps,
            final(self).snaps@ == old(self).snaps@.filter(
                |s: StoredSnap| !(s.session == *id && s.name@ == paths::snap_dir_name(n)),
            ),
    {
        let name = text::concat("snap-", text::decimal_of(n as u64).as_str());
        let mut kept: Vec<StoredSnap> = Vec::new();
        let ghost all = self.snaps@;
        let ghost keep = |s: StoredSnap|
            !(s.session == *id && s.name@ == paths::snap_dir_name(n));
        let ghost mut done: int = 0;
        assert(all.take(0) =~= Seq::empty());
        assert(kept@ =~= all.take(0).filter(keep)) by {
            reveal(Seq::filter);
        }
        assert(all.skip(0) =~= all);
        while self.snaps.len() > 0
            invariant
                0 <= done <= all.len(),
                self.paths == old(self).paths,
                self.file_snaps == old(self).file_snaps,
                name@ == paths::snap_dir_name(n),
                self.snaps@ == all.skip(done),
                keep == (|s: StoredSnap|
                    !(s.session == *id && s.name@ == paths::snap_dir_name(n))),
                kept@ == all.take(done).filter(keep),
            decreases self.snaps.len(),
        {
            let s = self.snaps.remove(0);
            assert(s == all[done]);
            assert(self.snaps@ =~= all.skip(done + 1));
            assert(all.take(done + 1).drop_last() =~= all.take(done));
            if !(s.session == *id && text::same(s.name.as_str(), name.as_str())) {
                kept.push(s);
            }
            proof {
                reveal(Seq::filter);
                assert(kept@ == all.take(done + 1).filter(keep));
                done = done + 1;
            }
        }
        assert(all.take(done) =~= all);
        self.snaps = kept;
    }
}

/// Whether `e` is what to say of a record that cannot be had.
pub open spec fn no_record(meta: StoredMeta, dir: PathModel, e: GrsError) -> bool {
    match meta {
        StoredMeta::Present(_) => false,
        StoredMeta::Missing => e is NotFound && e->NotFound_0@ == "snap "@ + dir.text()
            + ": no meta.toml"@,
        StoredMeta::Unreadable(m) => e == GrsError::Io(m),
        StoredMeta::Malformed(m) => e == GrsError::Toml(m),
    }
}

fn missing_record(dir: &FsPath) -> (r: GrsError)
    ensures
        no_record(StoredMeta::Missing, dir@, r),
{
    GrsError::NotFound(text::concat3("snap ", dir.text().as_str(), ": no meta.toml"))
}

/// The record of a snap, or what to say where it cannot be had.
pub fn read_record<'a>(meta: &'a StoredMeta, dir: &FsPath) -> (r: Result<&'a SnapMeta, GrsError>)
    ensures
        match r {
            Ok(m) => *meta == StoredMeta::Present(*m),
            Err(e) => no_record(*meta, dir@, e),
        },
{
    match meta {
        StoredMeta::Present(m) => Ok(m),
        StoredMeta::Missing => Err(missing_record(dir)),
        StoredMeta::Unreadable(m) => Err(GrsError::Io(m.clone())),
        StoredMeta::Malformed(m) => Err(GrsError::Toml(m.clone())),
    }
}

/// The record of a snap that was found on its own, away from a store.
pub fn read_meta_pub<'a>(snap: &'a StoredSnap, dir: &FsPath) -> (r: Result<&'a SnapMeta, GrsError>)
    ensures
        match r {
            Ok(m) => snap.meta == StoredMeta::Present(*m),
            Err(e) => no_record(snap.meta, dir@, e),
        },
{
    read_record(&snap.meta, dir)
}

/// The diff between two snaps that were found on disk. The record of the older one is
/// read first.
pub fn diff_snap_dirs(prev: &StoredSnap, prev_dir: &FsPath, cur: &StoredSnap, cur_dir: &FsPath) -> (r:
    Result<SnapDiff, GrsError>)
    requires
        prev.meta is Present && cur.meta is Present ==> tree_diff::countable(
            prev.meta->Present_0.files@,
            prev.tree@,
            cur.meta->Present_0.files@,
            cur.tree@,
        ),
    ensures
        match r {
            Ok(d) => {
                &&& prev.meta is Present && cur.meta is Present
                &&& d.changes@ == tree_diff::sorted_changes(
                    prev.meta->Present_0.files@,
                    cur.meta->Present_0.files@,
                )
                &&& d.added_lines == tree_diff::added_total(
                    prev.meta->Present_0.files@,
                    prev.tree@,
                    cur.meta->Present_0.files@,
                    cur.tree@,
                )
                &&& d.removed_lines == tree_diff::removed_total(
                    prev.meta->Present_0.files@,
                    prev.tree@,
                    cur.meta->Present_0.files@,
                    cur.tree@,
                )
            },
            Err(e) => if prev.meta is Present {
                no_record(cur.meta, cur_dir@, e)
            } else {
                no_record(prev.meta, prev_dir@, e)
            },
        },
{
    let p = match read_record(&prev.meta, prev_dir) {
        Ok(m) => m,
        Err(e) => {
            return Err(e);
        },
    };
    let c = match read_record(&cur.meta, cur_dir) {
        Ok(m) => m,
        Err(e) => {
            return Err(e);
        },
    };
    Ok(tree_diff::diff_snap_meta(p, &prev.tree, c, &cur.tree))
}

impl Ranked for SnapFile {
    open spec fn before(self, other: SnapFile) -> bool {
        text::less(self.path@, other.path@)
    }

    fn comes_before(&self, other: &SnapFile) -> (r: bool) {
        text::is_less(self.path.as_str(), other.path.as_str())
    }
}

/// The order of files in a record: by path.
pub open spec fn by_path() -> spec_fn(FileModel, FileModel) -> bool {
    |a: FileModel, b: FileModel| text::less(a.path, b.path)
}

/// The path of a file relative to the root.
pub open spec fn relative(ignore: IgnoreMatcher, w: WorkFile) -> Seq<char> {
    paths::relative_text(ignore.root@, w.path@)
}

/// Whether a file is part of the project.
pub open spec fn belongs(ignore: IgnoreMatcher, w: WorkFile) -> bool {
    ignore.keeps(w.path@) && relative(ignore, w).len() > 0
}

/// What is recorded of a file.
pub open spec fn file_record(path: Seq<char>, bytes: Seq<u8>) -> FileModel {
    FileModel {
        path,
        sha256: sha256(bytes),
        size: bytes.len() as u64,
        binary: fs::looks_binary(bytes),
    }
}

/// What is recorded of the first `k` files of a tree: those that are part of the
/// project and could be read.
pub open spec fn captured(ignore: IgnoreMatcher, tree: Seq<WorkFile>, k: int) -> Seq<FileModel>
    decreases k,
{
    if k <= 0 {
        Seq::empty()
    } else {
        let w = tree[k - 1];
        let rest = captured(ignore, tree, k - 1);
        match w.content {
            FileContent::Read(bytes) => if belongs(ignore, w) {
                rest.push(file_record(relative(ignore, w), bytes@))
            } else {
                rest
            },
            _ => rest,
        }
    }
}

/// Whether a file is captured: it is part of the project and could be read.
pub open spec fn is_captured(ignore: IgnoreMatcher, w: WorkFile) -> bool {
    w.content is Read && belongs(ignore, w)
}

/// What is recorded of a file that could be read.
pub open spec fn record_of(ignore: IgnoreMatcher, w: WorkFile) -> FileModel {
    file_record(relative(ignore, w), w.content->Read_0@)
}

/// What is recorded of a tree, by path.
pub open spec fn capture_of(ignore: IgnoreMatcher, tree: Seq<WorkFile>) -> Seq<FileModel> {
    order::sorted_by(captured(ignore, tree, tree.len() as int), by_path())
}

/// The bytes of the first `k` files that are captured, together.
pub open spec fn captured_bytes(ignore: IgnoreMatcher, tree: Seq<WorkFile>, k: int) -> int
    decreases k,
{
    if k <= 0 {
        0
    } else {
        let w = tree[k - 1];
        captured_bytes(ignore, tree, k - 1) + (match w.content {
            FileContent::Read(bytes) => if belongs(ignore, w) {
                bytes@.len() as int
            } else {
                0
            },
            _ => 0,
        })
    }
}

/// The files that are copied into the snap, of the first `k`, with their content.
pub open spec fn copied(ignore: IgnoreMatcher, tree: Seq<WorkFile>, k: int) -> Seq<
    (Seq<char>, Seq<u8>),
>
    decreases k,
{
    if k <= 0 {
        Seq::empty()
    } else {
        let w = tree[k - 1];
        let rest = copied(ignore, tree, k - 1);
        match w.content {
            FileContent::Read(bytes) => if belongs(ignore, w) {
                rest.push((relative(ignore, w), bytes@))
            } else {
                rest
            },
            _ => rest,
        }
    }
}

/// The paths and contents of a stored tree.
pub open spec fn tree_view(tree: Seq<Content>) -> Seq<(Seq<char>, Seq<u8>)> {
    tree.map_values(|c: Content| (c.path@, c.bytes@))
}

proof fn lemma_captured_bytes(ignore: IgnoreMatcher, tree: Seq<WorkFile>, i: int, j: int)
    requires
        0 <= i <= j,
    ensures
        0 <= captured_bytes(ignore, tree, i) <= captured_bytes(ignore, tree, j),
    decreases j,
{
    if i < j {
        lemma_captured_bytes(ignore, tree, i, j - 1);
    } else if j > 0 {
        lemma_captured_bytes(ignore, tree, j - 1, j - 1);
    }
}

/// The path and hash of each file of a tree that is part of the project; `None`
/// where one of them could not be read.
pub open spec fn hashes(ignore: IgnoreMatcher, tree: Seq<WorkFile>, k: int) -> Option<
    Map<Seq<char>, Seq<char>>,
>
    decreases k,
{
    if k <= 0 {
        Some(Map::empty())
    } else {
        let w = tree[k - 1];
        match hashes(ignore, tree, k - 1) {
            None => None,
            Some(m) => if !belongs(ignore, w) {
                Some(m)
            } else {
                match w.content {
                    FileContent::Read(bytes) => Some(m.insert(relative(ignore, w), sha256(bytes@))),
                    _ => None,
                }
            },
        }
    }
}

/// Whether the files of a record are exactly those of a tree, with the same hashes.
pub open spec fn matches_tree(
    files: Seq<FileModel>,
    ignore: IgnoreMatcher,
    tree: Seq<WorkFile>,
) -> bool {
    match hashes(ignore, tree, tree.len() as int) {
        None => false,
        Some(m) => {
            &&& m.dom().len() == files.len()
            &&& forall|i: int|
                0 <= i < files.len() ==> m.dom().contains((#[trigger] files[i]).path)
                    && m[files[i].path] == files[i].sha256
        },
    }
}

/// The hash of each path, with one entry per path.
struct HashTable {
    entries: Vec<(String, String)>,
}

impl HashTable {
    spec fn holds(self, m: Map<Seq<char>, Seq<char>>) -> bool {
        &&& m.dom().finite()
        &&& m.dom().len() == self.entries@.len()
        &&& forall|i: int|
            0 <= i < self.entries@.len() ==> m.dom().contains((#[trigger] self.entries@[i]).0@)
                && m[self.entries@[i].0@] == self.entries@[i].1@
        &&& forall|k: Seq<char>| #[trigger]
            m.dom().contains(k) ==> exists|i: int|
                0 <= i < self.entries@.len() && (#[trigger] self.entries@[i]).0@ == k
        &&& forall|i: int, j: int|
            0 <= i < j < self.entries@.len() ==> (#[trigger] self.entries@[i]).0@ != (
            #[trigger] self.entries@[j]).0@
    }

    fn find(&self, path: &str) -> (r: Option<usize>)
        ensures
            match r {
                Some(i) => i < self.entries@.len() && self.entries@[i as int].0@ == path@,
                None => forall|i: int|
                    0 <= i < self.entries@.len() ==> (#[trigger] self.entries@[i]).0@ != path@,
            },
    {
        let mut i: usize = 0;
        while i < self.entries.len()
            invariant
                i <= self.entries.len(),
                forall|k: int| 0 <= k < i ==> (#[trigger] self.entries@[k]).0@ != path@,
            decreases self.entries.len() - i,
        {
            if text::same(self.entries[i].0.as_str(), path) {
                return Some(i);
            }
            i += 1;
        }
        None
    }

    fn insert(&mut self, path: String, sha: String, Ghost(m): Ghost<Map<Seq<char>, Seq<char>>>)
        requires
            old(self).holds(m),
        ensures
            final(self).holds(m.insert(path@, sha@)),
    {
        let ghost p = path@;
        let ghost h = sha@;
        let ghost before = self.entries@;
        let ghost next = m.insert(p, h);
        match self.find(path.as_str()) {
            Some(i) => {
                assert(m.dom().contains(p));
                self.entries.set(i, (path, sha));
                proof {
                    assert(next.dom() =~= m.dom());
                    assert forall|k: Seq<char>| #[trigger] next.dom().contains(k) implies exists|
                        q: int,
                    |
                        0 <= q < self.entries@.len() && (#[trigger] self.entries@[q]).0@ == k by {
                        let q = choose|q: int|
                            0 <= q < before.len() && (#[trigger] before[q]).0@ == k;
                        assert(self.entries@[q].0@ == k);
                    }
                    assert forall|q: int|
                        0 <= q < self.entries@.len() implies next.dom().contains(
                        (#[trigger] self.entries@[q]).0@,
                    ) && next[self.entries@[q].0@] == self.entries@[q].1@ by {
                        assert(before[q].0@ == self.entries@[q].0@);
                        if q != i {
                            if q < i {
                                assert(before[q].0@ != before[i as int].0@);
                            } else {
                                assert(before[i as int].0@ != before[q].0@);
                            }
                        }
                    }
                    assert forall|a: int, b: int| 0 <= a < b < self.entries@.len() implies (
                    #[trigger] self.entries@[a]).0@ != (#[trigger] self.entries@[b]).0@ by {
                        assert(before[a].0@ != before[b].0@);
                        assert(self.entries@[a].0@ == before[a].0@);
                        assert(self.entries@[b].0@ == before[b].0@);
                    }
                }
            },
            None => {
                assert(!m.dom().contains(p));
                self.entries.push((path, sha));
                proof {
                    assert forall|k: Seq<char>| #[trigger] next.dom().contains(k) implies exists|
                        q: int,
                    |
                        0 <= q < self.entries@.len() && (#[trigger] self.entries@[q]).0@ == k by {
                        if k == p {
                            assert(self.entries@[before.len() as int].0@ == k);
                        } else {
                            assert(m.dom().contains(k));
                            let q = choose|q: int|
                                0 <= q < before.len() && (#[trigger] before[q]).0@ == k;
                            assert(self.entries@[q].0@ == k);
                        }
                    }
                }
            },
        }
    }
}

/// Whether a tree is what the record of a snap says: the same files with the same
/// hashes, all of them readable.
fn tree_matches(files: &Vec<SnapFile>, ignore: &IgnoreMatcher, tree: &Vec<WorkFile>) -> (r: bool)
    ensures
        r == matches_tree(model::file_models(files@), *ignore, tree@),
{
    let mut table = HashTable { entries: Vec::new() };
    let mut i: usize = 0;
    let ghost mut m: Map<Seq<char>, Seq<char>> = Map::empty();
    let ghost models = model::file_models(files@);
    while i < tree.len()
        invariant
            i <= tree.len(),
            models == model::file_models(files@),
            hashes(*ignore, tree@, i as int) == Some(m),
            table.holds(m),
        decreases tree.len() - i,
    {
        let w = &tree[i];
        let rel = paths::relativize(&ignore.root, &w.path);
        let n: usize = text::chars_of(rel.as_str()).len();
        if n > 0 && ignore.is_kept(&w.path) {
            match &w.content {
                FileContent::Read(bytes) => {
                    let sha = sha256_hex(bytes);
                    let ghost next = m.insert(rel@, sha@);
                    table.insert(rel, sha, Ghost(m));
                    proof {
                        m = next;
                    }
                },
                _ => {
                    assert(hashes(*ignore, tree@, i + 1) is None);
                    proof {
                        lemma_hashes_none(*ignore, tree@, i + 1, tree@.len() as int);
                    }
                    return false;
                },
            }
        }
        i += 1;
    }
    if table.entries.len() != files.len() {
        assert(models.len() == files@.len());
        return false;
    }
    let mut j: usize = 0;
    while j < files.len()
        invariant
            j <= files.len(),
            models == model::file_models(files@),
            table.holds(m),
            hashes(*ignore, tree@, tree@.len() as int) == Some(m),
            m.dom().len() == files@.len(),
            forall|k: int|
                0 <= k < j ==> m.dom().contains((#[trigger] models[k]).path) && m[models[k].path]
                    == models[k].sha256,
        decreases files.len() - j,
    {
        assert(models[j as int] == files@[j as int]@);
        match table.find(files[j].path.as_str()) {
            Some(k) => {
                if !text::same(table.entries[k].1.as_str(), files[j].sha256.as_str()) {
                    assert(m[models[j as int].path] != models[j as int].sha256);
                    return false;
                }
            },
            None => {
                assert(!m.dom().contains(models[j as int].path));
                return false;
            },
        }
        j += 1;
    }
    true
}

proof fn lemma_hashes_none(ignore: IgnoreMatcher, tree: Seq<WorkFile>, i: int, j: int)
    requires
        0 < i <= j,
        hashes(ignore, tree, i) is None,
    ensures
        hashes(ignore, tree, j) is None,
    decreases j,
{
    if i < j {
        lemma_hashes_none(ignore, tree, i, j - 1);
    }
}

/// Whether one store came from another by capturing a tree as the next snap of a
/// session, with the record `m`.
pub open spec fn took(
    before: SnapStore,
    after: SnapStore,
    id: SessionId,
    ignore: IgnoreMatcher,
    tree: Seq<WorkFile>,
    now: Millis,
    m: SnapMeta,
) -> bool {
    let last = after.snaps@.last();
    &&& m.version == STORAGE_VERSION
    &&& m.n == before.next_number(id)
    &&& m.timestamp == now
    &&& model::file_models(m.files@) == capture_of(ignore, tree)
    &&& m.file_count == m.files@.len() as usize as u32
    &&& m.total_bytes == captured_bytes(ignore, tree, tree.len() as int)
    &&& after.paths == before.paths
    &&& after.file_snaps == before.file_snaps
    &&& after.snaps@ == before.snaps@.push(last)
    &&& last.session == id
    &&& last.name@ == paths::snap_dir_name(m.n)
    &&& last.meta is Present
    &&& last.meta->Present_0.says_the_same(m)
    &&& tree_view(last.tree@) == copied(ignore, tree, tree.len() as int)
}

impl SnapStore {
    /// Whether a tree is what the last snap of a session recorded; so it is where
    /// there is no snap yet. `None` where the last record cannot be had.
    pub open spec fn unchanged(self, id: SessionId, ignore: IgnoreMatcher, tree: Seq<WorkFile>) -> Option<
        bool,
    > {
        match self.highest(id) {
            None => Some(true),
            Some(n) => match self.meta_of(id, n) {
                StoredMeta::Present(m) => Some(
                    matches_tree(model::file_models(m.files@), ignore, tree),
                ),
                _ => None,
            },
        }
    }

    /// Whether a tree is to be captured: it is not what the last snap of a session
    /// recorded, or there is no snap yet. `None` where the last record cannot be had.
    pub open spec fn is_due(self, id: SessionId, ignore: IgnoreMatcher, tree: Seq<WorkFile>) -> Option<
        bool,
    > {
        if self.highest(id) is None {
            Some(true)
        } else {
            match self.unchanged(id, ignore, tree) {
                Some(same) => Some(!same),
                None => None,
            }
        }
    }

    /// Captures the files of a tree that are part of the project as the next snap of
    /// a session. Files that cannot be read are left out.
    pub fn capture(
        &mut self,
        id: &SessionId,
        ignore: &IgnoreMatcher,
        tree: &Vec<WorkFile>,
        now: Millis,
    ) -> (r: SnapMeta)
        requires
            old(self).next_number(*id) <= u32::MAX,
            captured_bytes(*ignore, tree@, tree@.len() as int) <= u64::MAX,
        ensures
            took(*old(self), *final(self), *id, *ignore, tree@, now, r),
    {
        let n: u32 = self.next_n(id);
        let mut files: Vec<SnapFile> = Vec::new();
        let mut contents: Vec<Content> = Vec::new();
        let mut total_bytes: u64 = 0;
        let mut i: usize = 0;
        assert(model::file_models(files@) =~= captured(*ignore, tree@, 0));
        assert(tree_view(contents@) =~= copied(*ignore, tree@, 0));
        while i < tree.len()
            invariant
                i <= tree.len(),
                captured_bytes(*ignore, tree@, tree@.len() as int) <= u64::MAX,
                model::file_models(files@) == captured(*ignore, tree@, i as int),
                tree_view(contents@) == copied(*ignore, tree@, i as int),
                total_bytes == captured_bytes(*ignore, tree@, i as int),
            decreases tree.len() - i,
        {
            let w = &tree[i];
            let rel = paths::relativize(&ignore.root, &w.path);
            let len: usize = text::chars_of(rel.as_str()).len();
            let ghost before = files@;
            let ghost kept = contents@;
            proof {
                lemma_captured_bytes(*ignore, tree@, i + 1, tree@.len() as int);
            }
            if len > 0 && ignore.is_kept(&w.path) {
                if let FileContent::Read(bytes) = &w.content {
                    let f = capture_one(rel.clone(), bytes);
                    let c = Content { path: rel, bytes: copy_bytes(bytes) };
                    total_bytes = total_bytes + f.size;
                    files.push(f);
                    contents.push(c);
                    assert(model::file_models(files@) =~= model::file_models(before).push(f@));
                    assert(tree_view(contents@) =~= tree_view(kept).push((c.path@, c.bytes@)));
                }
            }
            i += 1;
        }
        proof {
            order::lemma_sorted_map(
                files@,
                |f: SnapFile| f@,
                order::rank::<SnapFile>(),
                by_path(),
            );
        }
        let sorted = order::sort(files);
        let count: u32 = sorted.len() as u32;
        let r = SnapMeta {
            version: STORAGE_VERSION,
            n,
            timestamp: now,
            file_count: count,
            total_bytes,
            files: sorted,
        };
        let name = text::concat("snap-", text::decimal_of(n as u64).as_str());
        self.snaps.push(
            StoredSnap { session: *id, name, meta: StoredMeta::Present(r.copy()), tree: contents },
        );
        r
    }

    /// Whether a tree is what the last snap of a session recorded.
    pub fn tree_matches_last_snap(
        &self,
        id: &SessionId,
        ignore: &IgnoreMatcher,
        tree: &Vec<WorkFile>,
    ) -> (r: Result<bool, GrsError>)
        ensures
            match r {
                Ok(b) => self.unchanged(*id, *ignore, tree@) == Some(b),
                Err(e) => self.highest(*id) is Some && no_record(
                    self.meta_of(*id, self.highest(*id)->0),
                    self.session_path(*id).child(paths::snap_dir_name(self.highest(*id)->0)),
                    e,
                ),
            },
    {
        let all = self.list(id);
        assert(entry_models(all@).len() == all@.len());
        if all.len() == 0 {
            return Ok(true);
        }
        assert(entry_models(all@).last() == all@[all@.len() - 1]@);
        let n: u32 = all[all.len() - 1].n;
        match self.read_meta(id, n) {
            Ok(m) => Ok(tree_matches(&m.files, ignore, tree)),
            Err(e) => Err(e),
        }
    }

    /// Captures a tree unless it is what the last snap recorded; then no number is
    /// used up. Without a snap there is nothing to compare with, and the first is taken.
    pub fn capture_if_changed(
        &mut self,
        id: &SessionId,
        ignore: &IgnoreMatcher,
        tree: &Vec<WorkFile>,
        now: Millis,
    ) -> (r: Result<Option<SnapMeta>, GrsError>)
        requires
            old(self).next_number(*id) <= u32::MAX,
            captured_bytes(*ignore, tree@, tree@.len() as int) <= u64::MAX,
        ensures
            match r {
                Ok(None) => old(self).is_due(*id, *ignore, tree@) == Some(false) && *final(self)
                    == *old(self),
                Ok(Some(m)) => old(self).is_due(*id, *ignore, tree@) == Some(true) && took(
                    *old(self),
                    *final(self),
                    *id,
                    *ignore,
                    tree@,
                    now,
                    m,
                ),
                Err(e) => *final(self) == *old(self) && old(self).highest(*id) is Some && no_record(
                    old(self).meta_of(*id, old(self).highest(*id)->0),
                    old(self).session_path(*id).child(
                        paths::snap_dir_name(old(self).highest(*id)->0),
                    ),
                    e,
                ),
            },
    {
        let all = self.list(id);
        assert(entry_models(all@).len() == all@.len());
        let first = all.len() == 0;
        match self.tree_matches_last_snap(id, ignore, tree) {
            Ok(same) => {
                if same && !first {
                    Ok(None)
                } else {
                    Ok(Some(self.capture(id, ignore, tree, now)))
                }
            },
            Err(e) => Err(e),
        }
    }
}

/// What is recorded of one file.
fn capture_one(rel: String, bytes: &Vec<u8>) -> (r: SnapFile)
    ensures
        r@ == file_record(rel@, bytes@),
        r.size == bytes@.len(),
{
    SnapFile {
        path: rel,
        sha256: sha256_hex(bytes),
        size: bytes.len() as u64,
        binary: fs::is_binary(bytes),
    }
}

fn copy_bytes(bytes: &Vec<u8>) -> (r: Vec<u8>)
    ensures
        r@ == bytes@,
{
    let mut r: Vec<u8> = Vec::new();
    let mut i: usize = 0;
    while i < bytes.len()
        invariant
            i <= bytes.len(),
            r@ =~= bytes@.take(i as int),
        decreases bytes.len() - i,
    {
        r.push(bytes[i]);
        i += 1;
    }
    r
}

proof fn lemma_by_number_is_weak_order()
    ensures
        order::is_weak_order(by_number()),
{
    let before = by_number();
    assert forall|a: EntryModel, b: EntryModel| #[trigger] before(a, b) implies !before(b, a) by {}
    assert forall|a: EntryModel, b: EntryModel, c: EntryModel|
        !(#[trigger] before(b, a)) && !(#[trigger] before(c, b)) implies !before(c, a) by {}
}

/// A directory of the session with a number in its name is in the listing.
proof fn lemma_found_contains(s: SnapStore, id: SessionId, k: int, i: int)
    requires
        0 <= i < k <= s.snaps@.len(),
        s.snaps@[i].session == id,
        snap_number(s.snaps@[i].name@) is Some,
    ensures
        exists|e: EntryModel|
            e.n == snap_number(s.snaps@[i].name@)->0 && #[trigger] s.found(id, k).contains(e),
    decreases k,
{
    let n = snap_number(s.snaps@[i].name@)->0;
    if i == k - 1 {
        assert(s.found(id, k)[s.found(id, k).len() - 1].n == n);
        assert(s.found(id, k).contains(s.found(id, k).last()));
    } else {
        lemma_found_contains(s, id, k - 1, i);
        let e = choose|e: EntryModel| e.n == n && #[trigger] s.found(id, k - 1).contains(e);
        let rest = s.found(id, k - 1);
        let w = choose|w: int| 0 <= w < rest.len() && rest[w] == e;
        assert(s.found(id, k)[w] == e);
        assert(s.found(id, k).contains(e));
    }
}

/// No number in a listing is above the highest, and every numbered directory is in
/// the listing: the next number is free.
pub proof fn law_next_number_is_free(s: SnapStore, id: SessionId, i: int)
    requires
        0 <= i < s.snaps@.len(),
        s.snaps@[i].session == id,
        snap_number(s.snaps@[i].name@) is Some,
    ensures
        snap_number(s.snaps@[i].name@)->0 < s.next_number(id),
{
    let n = snap_number(s.snaps@[i].name@)->0;
    let raw = s.found(id, s.snaps@.len() as int);
    lemma_found_contains(s, id, s.snaps@.len() as int, i);
    let e = choose|e: EntryModel| e.n == n && #[trigger] raw.contains(e);
    lemma_by_number_is_weak_order();
    order::law_sorted(raw, by_number());
    order::lemma_sorted_contains(raw, by_number(), e);
    let all = s.entries(id);
    let w = choose|w: int| 0 <= w < all.len() && all[w] == e;
    let before = by_number();
    if w < all.len() - 1 {
        assert(!before(all[all.len() - 1], all[w]));
    }
}

proof fn lemma_found_prefix(a: SnapStore, b: SnapStore, id: SessionId, k: int)
    requires
        a.paths == b.paths,
        k <= a.snaps@.len(),
        k <= b.snaps@.len(),
        forall|i: int| 0 <= i < k ==> #[trigger] a.snaps@[i] == b.snaps@[i],
    ensures
        a.found(id, k) == b.found(id, k),
    decreases k,
{
    if k > 0 {
        lemma_found_prefix(a, b, id, k - 1);
        assert(a.snaps@[k - 1] == b.snaps@[k - 1]);
    }
}

proof fn lemma_stored_last(s: SnapStore, id: SessionId, n: u32, k: int)
    requires
        0 <= k < s.snaps@.len(),
        s.snaps@.last().session == id,
        s.snaps@.last().name@ == paths::snap_dir_name(n),
        forall|i: int|
            k <= i < s.snaps@.len() - 1 ==> !((#[trigger] s.snaps@[i]).session == id
                && s.snaps@[i].name@ == paths::snap_dir_name(n)),
    ensures
        s.stored(id, n, k) == Some(s.snaps@.last()),
    decreases s.snaps@.len() - k,
{
    if k < s.snaps@.len() - 1 {
        lemma_stored_last(s, id, n, k + 1);
    }
}

/// Capturing appends to the listing of the session: the new snap gets the next
/// number, which is then the highest, its record is the one that was returned, and
/// the other snaps stay as they were. The listings of other sessions do not change.
pub proof fn law_capture_appends(
    before: SnapStore,
    after: SnapStore,
    id: SessionId,
    ignore: IgnoreMatcher,
    tree: Seq<WorkFile>,
    now: Millis,
    m: SnapMeta,
    other: SessionId,
)
    requires
        took(before, after, id, ignore, tree, now, m),
    ensures
        after.entries(id) == before.entries(id).push(
            EntryModel {
                n: m.n,
                timestamp: now,
                dir: before.session_path(id).child(paths::snap_dir_name(m.n)),
            },
        ),
        after.highest(id) == Some(m.n),
        after.next_number(id) == m.n + 1,
        after.meta_of(id, m.n) is Present,
        after.meta_of(id, m.n)->Present_0.says_the_same(m),
        other != id ==> after.entries(other) == before.entries(other),
{
    let k = before.snaps@.len() as int;
    let e = EntryModel {
        n: m.n,
        timestamp: now,
        dir: before.session_path(id).child(paths::snap_dir_name(m.n)),
    };
    lemma_found_prefix(before, after, id, k);
    lemma_found_prefix(before, after, other, k);
    law_snap_dir_names_give_the_number_back(m.n);
    assert(after.snaps@[k] == after.snaps@.last());
    assert(after.found(id, k + 1) == before.found(id, k).push(e));
    assert(before.found(id, k).push(e).drop_last() =~= before.found(id, k));
    if before.entries(id).len() > 0 {
        assert(!by_number()(e, before.entries(id).last()));
    }
    assert forall|i: int| 0 <= i < k implies !((#[trigger] after.snaps@[i]).session == id
        && after.snaps@[i].name@ == paths::snap_dir_name(m.n)) by {
        assert(after.snaps@[i] == before.snaps@[i]);
        if before.snaps@[i].session == id && before.snaps@[i].name@ == paths::snap_dir_name(m.n) {
            law_next_number_is_free(before, id, i);
        }
    }
    lemma_stored_last(after, id, m.n, 0);
}

/// The number of snaps rises by one with each capture. A session without a snap counts none.
pub proof fn law_capture_counts_one_more(
    before: SnapStore,
    after: SnapStore,
    id: SessionId,
    ignore: IgnoreMatcher,
    tree: Seq<WorkFile>,
    now: Millis,
    m: SnapMeta,
)
    requires
        took(before, after, id, ignore, tree, now, m),
    ensures
        after.entries(id).len() == before.entries(id).len() + 1,
        before.entries(id).len() < u32::MAX ==> after.count_of(id) == before.count_of(id) + 1,
        before.highest(id) is None ==> before.count_of(id) == 0 && after.count_of(id) == 1,
{
    law_capture_appends(before, after, id, ignore, tree, now, m, id);
}

/// Reading the record of a captured snap gives back every field, the files in their order.
pub proof fn law_captured_record_reads_back(
    before: SnapStore,
    after: SnapStore,
    id: SessionId,
    ignore: IgnoreMatcher,
    tree: Seq<WorkFile>,
    now: Millis,
    m: SnapMeta,
)
    requires
        took(before, after, id, ignore, tree, now, m),
    ensures
        after.meta_of(id, m.n) matches StoredMeta::Present(read) && read.version == m.version
            && read.n == m.n && read.timestamp == now && read.file_count == m.file_count
            && read.total_bytes == m.total_bytes && read.files@ == m.files@,
{
    law_capture_appends(before, after, id, ignore, tree, now, m, id);
}

/// Reading the record of a snap that is not there says that it is not found.
pub proof fn law_missing_record_is_not_found(s: SnapStore, id: SessionId, n: u32, e: GrsError)
    requires
        s.stored(id, n, 0) is None,
        no_record(s.meta_of(id, n), s.session_path(id).child(paths::snap_dir_name(n)), e),
    ensures
        e is NotFound,
{
}

proof fn lemma_stored_prefix(a: SnapStore, b: SnapStore, id: SessionId, n: u32, k: int)
    requires
        0 <= k <= a.snaps@.len() <= b.snaps@.len(),
        forall|i: int| 0 <= i < a.snaps@.len() ==> b.snaps@[i] == #[trigger] a.snaps@[i],
        a.stored(id, n, k) is Some,
    ensures
        b.stored(id, n, k) == a.stored(id, n, k),
    decreases a.snaps@.len() - k,
{
    if k < a.snaps@.len() {
        assert(b.snaps@[k] == a.snaps@[k]);
        if !(a.snaps@[k].session == id && a.snaps@[k].name@ == paths::snap_dir_name(n)) {
            lemma_stored_prefix(a, b, id, n, k + 1);
        }
    }
}

/// Capturing leaves every snap that is there as it is, its record and its files.
pub proof fn law_capture_keeps_earlier_snaps(
    before: SnapStore,
    after: SnapStore,
    id: SessionId,
    ignore: IgnoreMatcher,
    tree: Seq<WorkFile>,
    now: Millis,
    m: SnapMeta,
    other: SessionId,
    n: u32,
)
    requires
        took(before, after, id, ignore, tree, now, m),
        before.stored(other, n, 0) is Some,
    ensures
        after.stored(other, n, 0) == before.stored(other, n, 0),
        after.meta_of(other, n) == before.meta_of(other, n),
{
    lemma_stored_prefix(before, after, other, n, 0);
}

/// Captures in a row get numbers in a row.
pub proof fn law_captures_count_up(
    s0: SnapStore,
    s1: SnapStore,
    s2: SnapStore,
    s3: SnapStore,
    id: SessionId,
    ignore: IgnoreMatcher,
    trees: (Seq<WorkFile>, Seq<WorkFile>, Seq<WorkFile>),
    times: (Millis, Millis, Millis),
    m1: SnapMeta,
    m2: SnapMeta,
    m3: SnapMeta,
)
    requires
        took(s0, s1, id, ignore, trees.0, times.0, m1),
        took(s1, s2, id, ignore, trees.1, times.1, m2),
        took(s2, s3, id, ignore, trees.2, times.2, m3),
    ensures
        m1.n == s0.next_number(id),
        m2.n == m1.n + 1,
        m3.n == m1.n + 2,
{
    law_capture_appends(s0, s1, id, ignore, trees.0, times.0, m1, id);
    law_capture_appends(s1, s2, id, ignore, trees.1, times.1, m2, id);
}

proof fn lemma_captured_is_filter(ignore: IgnoreMatcher, tree: Seq<WorkFile>, k: int)
    requires
        0 <= k <= tree.len(),
    ensures
        captured(ignore, tree, k) == tree.take(k).filter(
            |w: WorkFile| is_captured(ignore, w),
        ).map_values(|w: WorkFile| record_of(ignore, w)),
    decreases k,
{
    reveal(Seq::filter);
    let keep = |w: WorkFile| is_captured(ignore, w);
    let record = |w: WorkFile| record_of(ignore, w);
    if k > 0 {
        lemma_captured_is_filter(ignore, tree, k - 1);
        assert(tree.take(k).drop_last() =~= tree.take(k - 1));
        let rest = tree.take(k - 1).filter(keep);
        assert(rest.push(tree[k - 1]).map_values(record) =~= rest.map_values(record).push(
            record(tree[k - 1]),
        ));
    } else {
        assert(captured(ignore, tree, k) =~= tree.take(k).filter(keep).map_values(record));
    }
}

proof fn lemma_by_path_is_weak_order()
    ensures
        order::is_weak_order(by_path()),
{
    let before = by_path();
    assert forall|a: FileModel, b: FileModel| #[trigger] before(a, b) implies !before(b, a) by {
        text::lemma_less_order(a.path, b.path, a.path);
    }
    assert forall|a: FileModel, b: FileModel, c: FileModel|
        !(#[trigger] before(b, a)) && !(#[trigger] before(c, b)) implies !before(c, a) by {
        text::lemma_less_order(a.path, b.path, c.path);
    }
}

/// A capture lists one entry for each file of the project that could be read, with its
/// relative path, hash, size and whether it is binary, and no other. The entries ascend by
/// path, and the count of files is their number.
pub proof fn law_capture_lists_each_file(
    before: SnapStore,
    after: SnapStore,
    id: SessionId,
    ignore: IgnoreMatcher,
    tree: Seq<WorkFile>,
    now: Millis,
    m: SnapMeta,
)
    requires
        took(before, after, id, ignore, tree, now, m),
    ensures
        ({
            let files = model::file_models(m.files@);
            let kept = tree.filter(|w: WorkFile| is_captured(ignore, w));
            &&& files.len() == kept.len()
            &&& files.to_multiset() == kept.map_values(
                |w: WorkFile| record_of(ignore, w),
            ).to_multiset()
            &&& forall|i: int|
                0 <= i < tree.len() && is_captured(ignore, #[trigger] tree[i]) ==> files.contains(
                    record_of(ignore, tree[i]),
                )
            &&& forall|i: int, j: int|
                0 <= i < j < files.len() ==> (#[trigger] files[i]).path == (
                #[trigger] files[j]).path || text::less(files[i].path, files[j].path)
            &&& kept.len() <= u32::MAX ==> m.file_count == kept.len()
        }),
{
    let keep = |w: WorkFile| is_captured(ignore, w);
    let record = |w: WorkFile| record_of(ignore, w);
    let files = model::file_models(m.files@);
    let n = tree.len() as int;
    lemma_captured_is_filter(ignore, tree, n);
    assert(tree.take(n) =~= tree);
    order::law_sorted(captured(ignore, tree, n), by_path());
    lemma_by_path_is_weak_order();
    assert(files.len() == m.files@.len());
    let kept = tree.filter(keep);
    assert forall|i: int| 0 <= i < tree.len() && is_captured(
        ignore,
        #[trigger] tree[i],
    ) implies files.contains(record_of(ignore, tree[i])) by {
        assert(tree.contains(tree[i]));
        order::lemma_filter_keeps(tree, keep, tree[i]);
        let w = choose|w: int| 0 <= w < kept.len() && kept[w] == tree[i];
        assert(captured(ignore, tree, n)[w] == record_of(ignore, tree[i]));
        order::lemma_sorted_contains(
            captured(ignore, tree, n),
            by_path(),
            record_of(ignore, tree[i]),
        );
    }
    assert forall|i: int, j: int| 0 <= i < j < files.len() implies (#[trigger] files[i]).path == (
    #[trigger] files[j]).path || text::less(files[i].path, files[j].path) by {
        assert(!by_path()(files[j], files[i]));
        text::lemma_less_order(files[i].path, files[j].path, files[i].path);
    }
}

proof fn lemma_copied_is_filter(ignore: IgnoreMatcher, tree: Seq<WorkFile>, k: int)
    requires
        0 <= k <= tree.len(),
    ensures
        copied(ignore, tree, k) == tree.take(k).filter(
            |w: WorkFile| is_captured(ignore, w),
        ).map_values(|w: WorkFile| (relative(ignore, w), w.content->Read_0@)),
    decreases k,
{
    reveal(Seq::filter);
    let keep = |w: WorkFile| is_captured(ignore, w);
    let copy = |w: WorkFile| (relative(ignore, w), w.content->Read_0@);
    if k > 0 {
        lemma_copied_is_filter(ignore, tree, k - 1);
        assert(tree.take(k).drop_last() =~= tree.take(k - 1));
        let rest = tree.take(k - 1).filter(keep);
        assert(rest.push(tree[k - 1]).map_values(copy) =~= rest.map_values(copy).push(
            copy(tree[k - 1]),
        ));
    } else {
        assert(copied(ignore, tree, k) =~= tree.take(k).filter(keep).map_values(copy));
    }
}

/// A capture holds a copy of each file of the project that could be read, byte for byte,
/// under its relative path, and of no other.
pub proof fn law_capture_copies_each_file(
    before: SnapStore,
    after: SnapStore,
    id: SessionId,
    ignore: IgnoreMatcher,
    tree: Seq<WorkFile>,
    now: Millis,
    m: SnapMeta,
)
    requires
        took(before, after, id, ignore, tree, now, m),
    ensures
        after.stored(id, m.n, 0) matches Some(snap) && tree_view(snap.tree@) == tree.filter(
            |w: WorkFile| is_captured(ignore, w),
        ).map_values(|w: WorkFile| (relative(ignore, w), w.content->Read_0@)),
{
    let k = before.snaps@.len() as int;
    let n = tree.len() as int;
    law_snap_dir_names_give_the_number_back(m.n);
    assert forall|i: int| 0 <= i < k implies !((#[trigger] after.snaps@[i]).session == id
        && after.snaps@[i].name@ == paths::snap_dir_name(m.n)) by {
        assert(after.snaps@[i] == before.snaps@[i]);
        if before.snaps@[i].session == id && before.snaps@[i].name@ == paths::snap_dir_name(m.n) {
            law_next_number_is_free(before, id, i);
        }
    }
    lemma_stored_last(after, id, m.n, 0);
    lemma_copied_is_filter(ignore, tree, n);
    assert(tree.take(n) =~= tree);
}

/// Where the relative paths of a tree differ, so do the paths that a capture of it lists,
/// each of which then comes before the next.
pub proof fn law_capture_paths_ascend(
    before: SnapStore,
    after: SnapStore,
    id: SessionId,
    ignore: IgnoreMatcher,
    tree: Seq<WorkFile>,
    now: Millis,
    m: SnapMeta,
    i: int,
    j: int,
)
    requires
        took(before, after, id, ignore, tree, now, m),
        forall|a: int, b: int|
            0 <= a < b < tree.len() ==> relative(ignore, #[trigger] tree[a]) != relative(
                ignore,
                #[trigger] tree[b],
            ),
        0 <= i < j < m.files@.len(),
    ensures
        text::less(m.files@[i]@.path, m.files@[j]@.path),
{
    broadcast use vstd::seq_lib::group_to_multiset_ensures;

    let files = model::file_models(m.files@);
    let keep = |w: WorkFile| is_captured(ignore, w);
    let all = captured(ignore, tree, tree.len() as int);
    let kept = tree.filter(keep);
    law_capture_lists_each_file(before, after, id, ignore, tree, now, m);
    lemma_captured_is_filter(ignore, tree, tree.len() as int);
    assert(tree.take(tree.len() as int) =~= tree);
    assert forall|a: int, b: int| 0 <= a < b < all.len() implies (#[trigger] all[a]).path != (
    #[trigger] all[b]).path by {
        order::lemma_filter_places(tree, keep, a, b);
        assert(all[a] == record_of(ignore, kept[a]) && all[b] == record_of(ignore, kept[b]));
    }
    assert(all.no_duplicates());
    all.lemma_multiset_has_no_duplicates();
    order::law_sorted(all, by_path());
    files.lemma_multiset_has_no_duplicates_conv();
    assert(files[i] != files[j]);
    assert(files.contains(files[i]) && files.contains(files[j]));
    order::lemma_sorted_contains(all, by_path(), files[i]);
    order::lemma_sorted_contains(all, by_path(), files[j]);
    let a = choose|a: int| 0 <= a < all.len() && all[a] == files[i];
    let b = choose|b: int| 0 <= b < all.len() && all[b] == files[j];
    assert(a < b || b < a);
    assert(files[i].path != files[j].path);
}

/// Whether the files of a tree that are part of the project have different relative
/// paths and could all be read.
pub open spec fn clean_tree(ignore: IgnoreMatcher, tree: Seq<WorkFile>) -> bool {
    &&& forall|i: int| 0 <= i < tree.len() && belongs(ignore, #[trigger] tree[i]) ==> tree[i].content is Read
    &&& forall|i: int, j: int|
        0 <= i < j < tree.len() && belongs(ignore, #[trigger] tree[i]) && belongs(
            ignore,
            #[trigger] tree[j],
        ) ==> relative(ignore, tree[i]) != relative(ignore, tree[j])
}

proof fn lemma_hashes_of_captured(ignore: IgnoreMatcher, tree: Seq<WorkFile>, k: int)
    requires
        clean_tree(ignore, tree),
        0 <= k <= tree.len(),
    ensures
        hashes(ignore, tree, k) is Some,
        hashes(ignore, tree, k)->0.dom().finite(),
        hashes(ignore, tree, k)->0.dom().len() == captured(ignore, tree, k).len(),
        forall|i: int|
            0 <= i < captured(ignore, tree, k).len() ==> hashes(ignore, tree, k)->0.dom().contains(
                (#[trigger] captured(ignore, tree, k)[i]).path,
            ) && hashes(ignore, tree, k)->0[captured(ignore, tree, k)[i].path] == captured(
                ignore,
                tree,
                k,
            )[i].sha256,
        forall|p: Seq<char>| #[trigger]
            hashes(ignore, tree, k)->0.dom().contains(p) ==> exists|j: int|
                0 <= j < k && belongs(ignore, #[trigger] tree[j]) && relative(ignore, tree[j]) == p,
    decreases k,
{
    if k > 0 {
        lemma_hashes_of_captured(ignore, tree, k - 1);
        let w = tree[k - 1];
        let m = hashes(ignore, tree, k - 1)->0;
        if belongs(ignore, w) {
            let p = relative(ignore, w);
            if m.dom().contains(p) {
                let j = choose|j: int|
                    0 <= j < k - 1 && belongs(ignore, #[trigger] tree[j]) && relative(
                        ignore,
                        tree[j],
                    ) == p;
                assert(relative(ignore, tree[j]) != relative(ignore, tree[k - 1]));
            }
            let m2 = hashes(ignore, tree, k)->0;
            assert forall|q: Seq<char>| #[trigger] m2.dom().contains(q) implies exists|j: int|
                0 <= j < k && belongs(ignore, #[trigger] tree[j]) && relative(ignore, tree[j])
                    == q by {
                if q == p {
                    assert(belongs(ignore, tree[k - 1]));
                } else {
                    assert(m.dom().contains(q));
                }
            }
        }
    }
}

/// A tree that was just captured counts as unchanged, so that capturing it once more
/// is skipped. This is said of trees whose files could all be read and have different
/// relative paths.
pub proof fn law_captured_tree_is_unchanged(
    before: SnapStore,
    after: SnapStore,
    id: SessionId,
    ignore: IgnoreMatcher,
    tree: Seq<WorkFile>,
    now: Millis,
    m: SnapMeta,
)
    requires
        took(before, after, id, ignore, tree, now, m),
        clean_tree(ignore, tree),
    ensures
        after.unchanged(id, ignore, tree) == Some(true),
{
    law_capture_appends(before, after, id, ignore, tree, now, m, id);
    let raw = captured(ignore, tree, tree.len() as int);
    let files = capture_of(ignore, tree);
    lemma_hashes_of_captured(ignore, tree, tree.len() as int);
    order::law_sorted(raw, by_path());
    let h = hashes(ignore, tree, tree.len() as int)->0;
    assert forall|i: int| 0 <= i < files.len() implies h.dom().contains(
        (#[trigger] files[i]).path,
    ) && h[files[i].path] == files[i].sha256 by {
        assert(files.contains(files[i]));
        order::lemma_sorted_contains(raw, by_path(), files[i]);
        let w = choose|w: int| 0 <= w < raw.len() && raw[w] == files[i];
        assert(raw[w].path == files[i].path);
    }
}

/// A tree counts as unchanged exactly if its files are those of the last record with
/// the same hashes; so a file that changed, appeared or vanished is always noticed.
/// This is said of trees whose files could all be read and have different relative
/// paths, and of records with different paths.
pub proof fn law_changes_are_noticed(
    files: Seq<FileModel>,
    ignore: IgnoreMatcher,
    tree: Seq<WorkFile>,
)
    requires
        clean_tree(ignore, tree),
        forall|i: int, j: int|
            0 <= i < j < files.len() ==> (#[trigger] files[i]).path != (#[trigger] files[j]).path,
    ensures
        matches_tree(files, ignore, tree) ==> forall|k: int|
            0 <= k < captured(ignore, tree, tree.len() as int).len() ==> exists|i: int|
                0 <= i < files.len() && (#[trigger] files[i]).path == (#[trigger] captured(
                    ignore,
                    tree,
                    tree.len() as int,
                )[k]).path && files[i].sha256 == captured(ignore, tree, tree.len() as int)[k].sha256,
{
    let n = tree.len() as int;
    let raw = captured(ignore, tree, n);
    lemma_hashes_of_captured(ignore, tree, n);
    let h = hashes(ignore, tree, n)->0;
    if matches_tree(files, ignore, tree) {
        lemma_paths_len(files, files.len() as int);
        let seen = path_set(files, files.len() as int);
        assert(seen.subset_of(h.dom())) by {
            lemma_path_set(files, files.len() as int);
        }
        vstd::set_lib::lemma_subset_equality(seen, h.dom());
        assert forall|k: int| 0 <= k < raw.len() implies exists|i: int|
            0 <= i < files.len() && (#[trigger] files[i]).path == (#[trigger] raw[k]).path
                && files[i].sha256 == raw[k].sha256 by {
            assert(h.dom().contains(raw[k].path));
            assert(seen.contains(raw[k].path));
            lemma_path_set(files, files.len() as int);
            let i = choose|i: int| 0 <= i < files.len() && (#[trigger] files[i]).path == raw[k].path;
            assert(h[files[i].path] == files[i].sha256);
        }
    }
}

spec fn path_set(files: Seq<FileModel>, k: int) -> Set<Seq<char>>
    decreases k,
{
    if k <= 0 {
        Set::empty()
    } else {
        path_set(files, k - 1).insert(files[k - 1].path)
    }
}

proof fn lemma_path_set(files: Seq<FileModel>, k: int)
    requires
        0 <= k <= files.len(),
    ensures
        forall|p: Seq<char>| #[trigger]
            path_set(files, k).contains(p) <==> exists|i: int|
                0 <= i < k && (#[trigger] files[i]).path == p,
    decreases k,
{
    if k > 0 {
        lemma_path_set(files, k - 1);
        assert forall|p: Seq<char>| #[trigger] path_set(files, k).contains(p) <==> exists|i: int|
            0 <= i < k && (#[trigger] files[i]).path == p by {
            if p == files[k - 1].path {
                assert(files[k - 1].path == p);
            } else if path_set(files, k).contains(p) {
                assert(path_set(files, k - 1).contains(p));
            } else {
                assert(!path_set(files, k - 1).contains(p));
            }
        }
    }
}

proof fn lemma_paths_len(files: Seq<FileModel>, k: int)
    requires
        0 <= k <= files.len(),
        forall|i: int, j: int|
            0 <= i < j < files.len() ==> (#[trigger] files[i]).path != (#[trigger] files[j]).path,
    ensures
        path_set(files, k).finite(),
        path_set(files, k).len() == k,
    decreases k,
{
    if k > 0 {
        lemma_paths_len(files, k - 1);
        lemma_path_set(files, k - 1);
        if path_set(files, k - 1).contains(files[k - 1].path) {
            let i = choose|i: int| 0 <= i < k - 1 && (#[trigger] files[i]).path == files[k - 1].path;
            assert(files[i].path != files[k - 1].path);
        }
    }
}

/// Whether a record lists a path with a hash.
pub open spec fn lists(files: Seq<FileModel>, path: Seq<char>, sha256: Seq<char>) -> bool {
    exists|i: int|
        0 <= i < files.len() && (#[trigger] files[i]).path == path && files[i].sha256 == sha256
}

/// Whether two records list the same paths with the same hashes.
pub open spec fn same_files(a: Seq<FileModel>, b: Seq<FileModel>) -> bool {
    forall|path: Seq<char>, sha256: Seq<char>| #[trigger]
        lists(a, path, sha256) <==> lists(b, path, sha256)
}

proof fn lemma_hashed_is_captured(ignore: IgnoreMatcher, tree: Seq<WorkFile>, path: Seq<char>)
    requires
        clean_tree(ignore, tree),
        hashes(ignore, tree, tree.len() as int)->0.dom().contains(path),
    ensures
        lists(
            captured(ignore, tree, tree.len() as int),
            path,
            hashes(ignore, tree, tree.len() as int)->0[path],
        ),
{
    let n = tree.len() as int;
    let keep = |w: WorkFile| is_captured(ignore, w);
    lemma_hashes_of_captured(ignore, tree, n);
    lemma_captured_is_filter(ignore, tree, n);
    assert(tree.take(n) =~= tree);
    let raw = captured(ignore, tree, n);
    let kept = tree.filter(keep);
    let j = choose|j: int|
        0 <= j < n && belongs(ignore, #[trigger] tree[j]) && relative(ignore, tree[j]) == path;
    assert(tree.contains(tree[j]));
    order::lemma_filter_keeps(tree, keep, tree[j]);
    let w = choose|w: int| 0 <= w < kept.len() && kept[w] == tree[j];
    assert(raw[w] == record_of(ignore, tree[j]));
    assert(raw[w].path == path);
}

/// Where the files of a tree differ by path and could be read, a snap is due unless the tree
/// has exactly the paths that the last snap lists, each with the hash that it lists.
pub proof fn law_due_unless_the_files_are_the_same(
    s: SnapStore,
    id: SessionId,
    ignore: IgnoreMatcher,
    tree: Seq<WorkFile>,
    last: SnapMeta,
)
    requires
        clean_tree(ignore, tree),
        s.highest(id) is Some,
        s.meta_of(id, s.highest(id)->0) == StoredMeta::Present(last),
        forall|i: int, j: int|
            0 <= i < j < last.files@.len() ==> (#[trigger] last.files@[i])@.path != (
            #[trigger] last.files@[j])@.path,
    ensures
        s.is_due(id, ignore, tree) == Some(
            !same_files(
                model::file_models(last.files@),
                captured(ignore, tree, tree.len() as int),
            ),
        ),
{
    let files = model::file_models(last.files@);
    let n = tree.len() as int;
    let raw = captured(ignore, tree, n);
    lemma_hashes_of_captured(ignore, tree, n);
    let h = hashes(ignore, tree, n)->0;
    assert forall|i: int, j: int| 0 <= i < j < files.len() implies (#[trigger] files[i]).path != (
    #[trigger] files[j]).path by {
        assert(files[i] == last.files@[i]@ && files[j] == last.files@[j]@);
    }
    if matches_tree(files, ignore, tree) {
        law_changes_are_noticed(files, ignore, tree);
        assert forall|path: Seq<char>, sha256: Seq<char>| #[trigger]
            lists(files, path, sha256) <==> lists(raw, path, sha256) by {
            if lists(files, path, sha256) {
                let i = choose|i: int|
                    0 <= i < files.len() && (#[trigger] files[i]).path == path && files[i].sha256
                        == sha256;
                assert(h.dom().contains(files[i].path));
                lemma_hashed_is_captured(ignore, tree, path);
            }
            if lists(raw, path, sha256) {
                let k = choose|k: int|
                    0 <= k < raw.len() && (#[trigger] raw[k]).path == path && raw[k].sha256
                        == sha256;
                assert(raw[k].path == path);
            }
        }
    }
    if same_files(files, raw) {
        assert forall|i: int| 0 <= i < files.len() implies h.dom().contains(
            (#[trigger] files[i]).path,
        ) && h[files[i].path] == files[i].sha256 by {
            assert(lists(files, files[i].path, files[i].sha256));
            let k = choose|k: int|
                0 <= k < raw.len() && (#[trigger] raw[k]).path == files[i].path && raw[k].sha256
                    == files[i].sha256;
            assert(h.dom().contains(raw[k].path));
        }
        let seen = path_set(files, files.len() as int);
        lemma_path_set(files, files.len() as int);
        lemma_paths_len(files, files.len() as int);
        assert forall|path: Seq<char>| h.dom().contains(path) implies seen.contains(path) by {
            lemma_hashed_is_captured(ignore, tree, path);
            assert(lists(files, path, h[path]));
        }
        assert(seen =~= h.dom());
    }
}

/// A tree that was offered once, and has not changed, gives no snap the second time: neither
/// where the first time gave one nor where it gave none.
pub proof fn law_second_offer_gives_no_snap(
    before: SnapStore,
    after: SnapStore,
    id: SessionId,
    ignore: IgnoreMatcher,
    tree: Seq<WorkFile>,
    now: Millis,
    first: Option<SnapMeta>,
)
    requires
        clean_tree(ignore, tree),
        match first {
            Some(m) => took(before, after, id, ignore, tree, now, m),
            None => before.is_due(id, ignore, tree) == Some(false) && after == before,
        },
    ensures
        after.is_due(id, ignore, tree) == Some(false),
{
    if let Some(m) = first {
        law_captured_tree_is_unchanged(before, after, id, ignore, tree, now, m);
        law_capture_appends(before, after, id, ignore, tree, now, m, id);
    }
}

/// The bytes of the first `k` files that could be read, together.
pub open spec fn tree_bytes(tree: Seq<WorkFile>, k: int) -> int
    decreases k,
{
    if k <= 0 {
        0
    } else {
        tree_bytes(tree, k - 1) + (match tree[k - 1].content {
            FileContent::Read(bytes) => bytes@.len() as int,
            _ => 0,
        })
    }
}

/// What is captured of a tree is at most the whole of it.
pub proof fn lemma_captured_is_part(ignore: IgnoreMatcher, tree: Seq<WorkFile>, k: int)
    ensures
        captured_bytes(ignore, tree, k) <= tree_bytes(tree, k),
    decreases k,
{
    if k > 0 {
        lemma_captured_is_part(ignore, tree, k - 1);
    }
}

/// Whether every number in the names of snap directories is below `bound`.
pub open spec fn numbers_below(snaps: Seq<StoredSnap>, bound: int) -> bool {
    forall|i: int|
        0 <= i < snaps.len() ==> match snap_number((#[trigger] snaps[i]).name@) {
            Some(n) => n < bound,
            None => true,
        }
}

proof fn lemma_found_below(s: SnapStore, id: SessionId, bound: int, k: int)
    requires
        numbers_below(s.snaps@, bound),
        0 <= k <= s.snaps@.len(),
    ensures
        forall|i: int| 0 <= i < s.found(id, k).len() ==> (#[trigger] s.found(id, k)[i]).n < bound,
    decreases k,
{
    if k > 0 {
        lemma_found_below(s, id, bound, k - 1);
        let rest = s.found(id, k - 1);
        let all = s.found(id, k);
        assert(s.snaps@[k - 1] == s.snaps@[k - 1]);
        assert forall|i: int| 0 <= i < all.len() implies (#[trigger] all[i]).n < bound by {
            if i < rest.len() {
                assert(all[i] == rest[i]);
            }
        }
    }
}

/// Where all numbers are below a bound, the next number is at most that bound.
pub proof fn lemma_next_number_bounded(s: SnapStore, id: SessionId, bound: int)
    requires
        numbers_below(s.snaps@, bound),
        1 <= bound,
    ensures
        s.next_number(id) <= bound,
{
    let raw = s.found(id, s.snaps@.len() as int);
    lemma_found_below(s, id, bound, s.snaps@.len() as int);
    let all = s.entries(id);
    if all.len() > 0 {
        let e = all.last();
        assert(all.contains(e));
        order::lemma_sorted_contains(raw, by_number(), e);
        let w = choose|w: int| 0 <= w < raw.len() && raw[w] == e;
        assert(raw[w].n < bound);
    }
}

/// Whether a record entry describes a file: its path, the hash of its bytes, how many they are,
/// and whether one of the first of them is zero.
pub open spec fn describes(f: FileModel, ignore: IgnoreMatcher, w: WorkFile) -> bool {
    &&& w.content is Read
    &&& f.path == paths::relative_text(ignore.root@, w.path@)
    &&& f.sha256 == sha256(w.content->Read_0@)
    &&& f.size == w.content->Read_0@.len() as u64
    &&& f.binary == exists|i: int|
        0 <= i < w.content->Read_0@.len() && i < 8192 && #[trigger] w.content->Read_0@[i] == 0
}

/// Whether a record entry describes a file of a tree that is kept.
pub open spec fn comes_from(f: FileModel, ignore: IgnoreMatcher, tree: Seq<WorkFile>) -> bool {
    exists|i: int|
        0 <= i < tree.len() && ignore.keeps((#[trigger] tree[i]).path@) && describes(
            f,
            ignore,
            tree[i],
        )
}

/// Each file of the project that could be read is described in the record of a capture, and each
/// entry of the record describes such a file.
pub proof fn law_capture_describes_each_file(
    before: SnapStore,
    after: SnapStore,
    id: SessionId,
    ignore: IgnoreMatcher,
    tree: Seq<WorkFile>,
    now: Millis,
    m: SnapMeta,
)
    requires
        took(before, after, id, ignore, tree, now, m),
    ensures
        forall|i: int|
            0 <= i < tree.len() && (#[trigger] tree[i]).content is Read && ignore.keeps(
                tree[i].path@,
            ) && paths::relative_text(ignore.root@, tree[i].path@).len() > 0 ==> exists|j: int|
                0 <= j < m.files@.len() && describes((#[trigger] m.files@[j])@, ignore, tree[i]),
        forall|j: int|
            0 <= j < m.files@.len() ==> comes_from((#[trigger] m.files@[j])@, ignore, tree),
{
    law_capture_lists_each_file(before, after, id, ignore, tree, now, m);
    let files = model::file_models(m.files@);
    let keep = |w: WorkFile| is_captured(ignore, w);
    let n = tree.len() as int;
    let raw = captured(ignore, tree, n);
    let kept = tree.filter(keep);
    lemma_captured_is_filter(ignore, tree, n);
    assert(tree.take(n) =~= tree);
    assert forall|i: int|
        0 <= i < tree.len() && (#[trigger] tree[i]).content is Read && ignore.keeps(tree[i].path@)
            && paths::relative_text(ignore.root@, tree[i].path@).len() > 0 implies exists|j: int|
        0 <= j < m.files@.len() && describes((#[trigger] m.files@[j])@, ignore, tree[i]) by {
        assert(is_captured(ignore, tree[i]));
        assert(files.contains(record_of(ignore, tree[i])));
        let j = choose|j: int| 0 <= j < files.len() && files[j] == record_of(ignore, tree[i]);
        assert(files[j] == m.files@[j]@);
        assert(describes(m.files@[j]@, ignore, tree[i]));
    }
    assert forall|j: int| 0 <= j < m.files@.len() implies comes_from(
        (#[trigger] m.files@[j])@,
        ignore,
        tree,
    ) by {
        assert(files[j] == m.files@[j]@);
        assert(files.contains(files[j]));
        order::lemma_sorted_contains(raw, by_path(), files[j]);
        let w = choose|w: int| 0 <= w < raw.len() && raw[w] == files[j];
        order::lemma_filter_holds(tree, keep, w);
        let i = choose|i: int| 0 <= i < tree.len() && tree[i] == kept[w];
        assert(raw[w] == record_of(ignore, tree[i]));
        assert(ignore.keeps(tree[i].path@));
        assert(describes(m.files@[j]@, ignore, tree[i]));
    }
}

/// The sizes of files, together.
pub open spec fn sum_of_sizes(files: Seq<FileModel>) -> int
    decreases files.len(),
{
    if files.len() == 0 {
        0
    } else {
        sum_of_sizes(files.drop_last()) + files.last().size
    }
}

proof fn lemma_sum_insert(s: Seq<FileModel>, x: FileModel)
    ensures
        sum_of_sizes(order::insert_by(s, x, by_path())) == sum_of_sizes(s) + x.size,
    decreases s.len(),
{
    let r = order::insert_by(s, x, by_path());
    if s.len() > 0 && by_path()(x, s.last()) {
        lemma_sum_insert(s.drop_last(), x);
        assert(r.drop_last() =~= order::insert_by(s.drop_last(), x, by_path()));
    } else {
        assert(r.drop_last() =~= s);
    }
}

proof fn lemma_sum_sorted(s: Seq<FileModel>)
    ensures
        sum_of_sizes(order::sorted_by(s, by_path())) == sum_of_sizes(s),
    decreases s.len(),
{
    if s.len() > 0 {
        lemma_sum_sorted(s.drop_last());
        lemma_sum_insert(order::sorted_by(s.drop_last(), by_path()), s.last());
    }
}

proof fn lemma_sum_captured(ignore: IgnoreMatcher, tree: Seq<WorkFile>, k: int)
    requires
        0 <= k <= tree.len(),
        captured_bytes(ignore, tree, k) <= u64::MAX,
    ensures
        0 <= captured_bytes(ignore, tree, k),
        sum_of_sizes(captured(ignore, tree, k)) == captured_bytes(ignore, tree, k),
    decreases k,
{
    if k > 0 {
        lemma_captured_bytes(ignore, tree, k - 1, k);
        lemma_sum_captured(ignore, tree, k - 1);
        let rest = captured(ignore, tree, k - 1);
        let all = captured(ignore, tree, k);
        if is_captured(ignore, tree[k - 1]) {
            assert(all.drop_last() =~= rest);
        }
    }
}

/// The bytes that a record counts are the sizes of its files, together.
pub proof fn law_total_bytes_are_the_sizes(
    before: SnapStore,
    after: SnapStore,
    id: SessionId,
    ignore: IgnoreMatcher,
    tree: Seq<WorkFile>,
    now: Millis,
    m: SnapMeta,
)
    requires
        took(before, after, id, ignore, tree, now, m),
        captured_bytes(ignore, tree, tree.len() as int) <= u64::MAX,
    ensures
        m.total_bytes == sum_of_sizes(model::file_models(m.files@)),
{
    lemma_sum_captured(ignore, tree, tree.len() as int);
    lemma_sum_sorted(captured(ignore, tree, tree.len() as int));
}

proof fn lemma_found_lists(s: SnapStore, id: SessionId, k: int, e: EntryModel)
    requires
        0 <= k <= s.snaps@.len(),
    ensures
        s.found(id, k).contains(e) <==> exists|i: int|
            0 <= i < k && lists_snap(s, id, #[trigger] s.snaps@[i], e),
    decreases k,
{
    if k > 0 {
        lemma_found_lists(s, id, k - 1, e);
        let rest = s.found(id, k - 1);
        let now = s.found(id, k);
        let x = s.snaps@[k - 1];
        if now.len() > rest.len() {
            assert(now == rest.push(now.last()));
            assert(lists_snap(s, id, x, now.last()));
            assert(lists_snap(s, id, x, e) ==> e =~= now.last());
            if now.contains(e) {
                let w = choose|w: int| 0 <= w < now.len() && now[w] == e;
                if w < rest.len() {
                    assert(rest[w] == e);
                    assert(rest.contains(e));
                    let i = choose|i: int|
                        0 <= i < k - 1 && lists_snap(s, id, #[trigger] s.snaps@[i], e);
                    assert(lists_snap(s, id, s.snaps@[i], e));
                } else {
                    assert(lists_snap(s, id, s.snaps@[k - 1], e));
                }
            }
            if exists|i: int| 0 <= i < k && lists_snap(s, id, #[trigger] s.snaps@[i], e) {
                let i = choose|i: int| 0 <= i < k && lists_snap(s, id, #[trigger] s.snaps@[i], e);
                if i < k - 1 {
                    assert(rest.contains(e));
                    let w = choose|w: int| 0 <= w < rest.len() && rest[w] == e;
                    assert(now[w] == e);
                } else {
                    assert(now[rest.len() as int] == e);
                }
            }
        } else {
            assert(!lists_snap(s, id, x, e));
            if exists|i: int| 0 <= i < k && lists_snap(s, id, #[trigger] s.snaps@[i], e) {
                let i = choose|i: int| 0 <= i < k && lists_snap(s, id, #[trigger] s.snaps@[i], e);
                assert(i < k - 1);
            }
            if rest.contains(e) {
                let i = choose|i: int|
                    0 <= i < k - 1 && lists_snap(s, id, #[trigger] s.snaps@[i], e);
                assert(lists_snap(s, id, s.snaps@[i], e));
            }
        }
    }
}

/// Whether a listing entry tells of a stored snap of a session: the number in the name of its
/// directory, the time of its record, or 0 where that cannot be had, and where it lies.
pub open spec fn lists_snap(s: SnapStore, id: SessionId, x: StoredSnap, e: EntryModel) -> bool {
    &&& x.session == id
    &&& snap_number(x.name@) == Some(e.n)
    &&& match x.meta {
        StoredMeta::Present(m) => e.timestamp == m.timestamp,
        _ => e.timestamp == 0,
    }
    &&& e.dir == s.paths.sessions_dir@.child(id.text()).child(x.name@)
}

/// The listing of a session tells of each of its snaps and of nothing else, by rising numbers.
pub proof fn law_listing_tells_of_each_snap(s: SnapStore, id: SessionId, e: EntryModel)
    ensures
        s.entries(id).contains(e) <==> exists|i: int|
            0 <= i < s.snaps@.len() && lists_snap(s, id, #[trigger] s.snaps@[i], e),
        forall|a: int, b: int|
            0 <= a < b < s.entries(id).len() ==> (#[trigger] s.entries(id)[a]).n <= (
            #[trigger] s.entries(id)[b]).n,
{
    let n = s.snaps@.len() as int;
    lemma_found_lists(s, id, n, e);
    order::lemma_sorted_contains(s.found(id, n), by_number(), e);
    lemma_by_number_is_weak_order();
    order::law_sorted(s.found(id, n), by_number());
    let all = s.entries(id);
    assert forall|a: int, b: int| 0 <= a < b < all.len() implies (#[trigger] all[a]).n <= (
    #[trigger] all[b]).n by {
        assert(!by_number()(all[b], all[a]));
    }
}

/// The next number is one above all numbers in use, or 1 where there is none.
pub proof fn law_next_number_is_above_all(s: SnapStore, id: SessionId)
    ensures
        s.entries(id).len() == 0 ==> s.next_number(id) == 1,
        forall|i: int|
            0 <= i < s.snaps@.len() && (#[trigger] s.snaps@[i]).session == id ==> (snap_number(
                s.snaps@[i].name@,
            ) matches Some(n) ==> n < s.next_number(id)),
        s.entries(id).len() > 0 ==> exists|i: int|
            0 <= i < s.snaps@.len() && (#[trigger] s.snaps@[i]).session == id && snap_number(
                s.snaps@[i].name@,
            ) == Some((s.next_number(id) - 1) as u32) && s.next_number(id) >= 1,
{
    let all = s.entries(id);
    assert forall|i: int| 0 <= i < s.snaps@.len() && (#[trigger] s.snaps@[i]).session
        == id implies (snap_number(s.snaps@[i].name@) matches Some(n) ==> n < s.next_number(id)) by {
        if let Some(n) = snap_number(s.snaps@[i].name@) {
            let e = EntryModel {
                n,
                timestamp: recorded_time(s.snaps@[i].meta),
                dir: s.session_path(id).child(s.snaps@[i].name@),
            };
            assert(lists_snap(s, id, s.snaps@[i], e));
            law_listing_tells_of_each_snap(s, id, e);
            let w = choose|w: int| 0 <= w < all.len() && all[w] == e;
            assert(all[w].n <= all[all.len() - 1].n);
        }
    }
    if all.len() > 0 {
        let e = all.last();
        assert(all.contains(e));
        law_listing_tells_of_each_snap(s, id, e);
    }
}

/// The snap with a number is the first stored one of the session whose directory has the name
/// with that number.
pub proof fn law_stored_snap_is_found_by_its_name(s: SnapStore, id: SessionId, n: u32, k: int)
    requires
        0 <= k <= s.snaps@.len(),
    ensures
        match s.stored(id, n, k) {
            Some(x) => x.session == id && x.name@ == "snap-"@ + text::decimal(n as nat) && exists|i:
                int|
                k <= i < s.snaps@.len() && #[trigger] s.snaps@[i] == x && forall|j: int|
                    k <= j < i ==> !((#[trigger] s.snaps@[j]).session == id && s.snaps@[j].name@
                        == "snap-"@ + text::decimal(n as nat)),
            None => forall|i: int|
                k <= i < s.snaps@.len() ==> !((#[trigger] s.snaps@[i]).session == id
                    && s.snaps@[i].name@ == "snap-"@ + text::decimal(n as nat)),
        },
    decreases s.snaps@.len() - k,
{
    if k < s.snaps@.len() {
        if s.snaps@[k].session == id && s.snaps@[k].name@ == paths::snap_dir_name(n) {
            assert(s.snaps@[k] == s.stored(id, n, k)->0);
        } else {
            law_stored_snap_is_found_by_its_name(s, id, n, k + 1);
            if let Some(x) = s.stored(id, n, k + 1) {
                let i = choose|i: int|
                    k + 1 <= i < s.snaps@.len() && #[trigger] s.snaps@[i] == x && forall|j: int|
                        k + 1 <= j < i ==> !((#[trigger] s.snaps@[j]).session == id
                            && s.snaps@[j].name@ == "snap-"@ + text::decimal(n as nat));
                assert(s.snaps@[i] == x);
            }
        }
    }
}

/// The first snap of a session is always due. Where the last record cannot be had, nothing is said.
pub proof fn law_first_snap_is_due(
    s: SnapStore,
    id: SessionId,
    ignore: IgnoreMatcher,
    tree: Seq<WorkFile>,
)
    ensures
        s.entries(id).len() == 0 ==> s.is_due(id, ignore, tree) == Some(true),
        s.entries(id).len() > 0 && !(s.meta_of(id, s.entries(id).last().n) is Present) ==> s.is_due(
            id,
            ignore,
            tree,
        ) is None,
{
}

} // verus!
