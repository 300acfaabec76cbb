//! The diff between two snaps of a whole tree.

use crate::diff;
use crate::model::{SnapFile, SnapMeta};
use crate::order;
use crate::order::Ranked;
use crate::text;
use crate::util::fs;
use vstd::prelude::*;

verus! {

/// A change of one file between two consecutive snaps.
#[derive(Debug, PartialEq, Eq)]
pub enum FileChange {
    Added { path: String, binary: bool, size: u64 },
    Removed { path: String, binary: bool, size: u64 },
    Modified { path: String, binary: bool, old_size: u64, new_size: u64 },
    /// The same content under another path.
    Renamed { from: String, to: String, binary: bool },
    /// Another path and other content.
    RenamedAndModified { from: String, to: String, binary: bool, old_size: u64, new_size: u64 },
}

impl FileChange {
    /// What changes are ordered by: their kind, then their paths.
    pub open spec fn key(self) -> Seq<char> {
        match self {
            FileChange::Added { path, .. } => "a:"@ + path@,
            FileChange::Removed { path, .. } => "r:"@ + path@,
            FileChange::Modified { path, .. } => "m:"@ + path@,
            FileChange::Renamed { from, to, .. } => "rn:"@ + from@ + "->"@ + to@,
            FileChange::RenamedAndModified { from, to, .. } => "rm:"@ + from@ + "->"@ + to@,
        }
    }

    /// What changes are ordered by: their kind, then their paths.
    pub fn sort_key(&self) -> (r: String)
        ensures
            r@ == self.key(),
    {
        match self {
            FileChange::Added { path, .. } => text::concat("a:", path.as_str()),
            FileChange::Removed { path, .. } => text::concat("r:", path.as_str()),
            FileChange::Modified { path, .. } => text::concat("m:", path.as_str()),
            FileChange::Renamed { from, to, .. } => {
                let mut k = text::concat3("rn:", from.as_str(), "->");
                k.append(to.as_str());
                k
            },
            FileChange::RenamedAndModified { from, to, .. } => {
                let mut k = text::concat3("rm:", from.as_str(), "->");
                k.append(to.as_str());
                k
            },
        }
    }
}

impl Ranked for FileChange {
    open spec fn before(self, other: FileChange) -> bool {
        text::less(self.key(), other.key())
    }

    fn comes_before(&self, other: &FileChange) -> (r: bool) {
        text::is_less(self.sort_key().as_str(), other.sort_key().as_str())
    }
}

/// What changed from one snap to the next.
#[derive(Debug)]
pub struct SnapDiff {
    pub changes: Vec<FileChange>,
    pub added_lines: usize,
    pub removed_lines: usize,
}

/// One file of a snap's tree.
#[derive(Debug)]
pub struct Content {
    /// Relative to the project root, with forward slashes.
    pub path: String,
    pub bytes: Vec<u8>,
}

/// The bytes of the first file at `path`, or none.
pub open spec fn bytes_at(tree: Seq<Content>, path: Seq<char>) -> Seq<u8>
    decreases tree.len(),
{
    if tree.len() == 0 {
        Seq::empty()
    } else if tree[0].path@ == path {
        tree[0].bytes@
    } else {
        bytes_at(tree.skip(1), path)
    }
}

/// The text of the first file at `path`, or the empty text.
pub(crate) fn read_text(tree: &Vec<Content>, path: &str) -> (r: String)
    ensures
        r@ == text_at(tree@, path@),
        r@.len() <= bytes_at(tree@, path@).len(),
{
    let mut i: usize = 0;
    assert(tree@.skip(0) =~= tree@);
    while i < tree.len()
        invariant
            i <= tree.len(),
            bytes_at(tree@, path@) == bytes_at(tree@.skip(i as int), path@),
        decreases tree.len() - i,
    {
        assert(tree@.skip(i as int)[0] == tree@[i as int]);
        if text::same(tree[i].path.as_str(), path) {
            return fs::lossy_text(&tree[i].bytes);
        }
        assert(tree@.skip(i as int).skip(1) =~= tree@.skip(i + 1));
        i += 1;
    }
    let none: Vec<u8> = Vec::new();
    assert(none@ =~= bytes_at(tree@, path@));
    fs::lossy_text(&none)
}

/// The text of the first file at `path`, or that of no bytes.
pub open spec fn text_at(tree: Seq<Content>, path: Seq<char>) -> Seq<char> {
    fs::lossy(bytes_at(tree, path))
}

/// The last file with this path.
pub open spec fn with_path(files: Seq<SnapFile>, path: Seq<char>) -> Option<SnapFile>
    decreases files.len(),
{
    if files.len() == 0 {
        None
    } else if files.last().path@ == path {
        Some(files.last())
    } else {
        with_path(files.drop_last(), path)
    }
}

/// `with_path` gives a file with the path, where there is one.
pub proof fn lemma_with_path(files: Seq<SnapFile>, path: Seq<char>)
    ensures
        match with_path(files, path) {
            Some(f) => f.path@ == path && files.contains(f),
            None => forall|i: int| 0 <= i < files.len() ==> (#[trigger] files[i]).path@ != path,
        },
    decreases files.len(),
{
    if files.len() > 0 {
        if files.last().path@ == path {
            assert(files[files.len() - 1] == files.last());
        } else {
            lemma_with_path(files.drop_last(), path);
            if let Some(f) = with_path(files.drop_last(), path) {
                let i = choose|i: int| 0 <= i < files.len() - 1 && files.drop_last()[i] == f;
                assert(files[i] == f);
            } else {
                assert forall|i: int| 0 <= i < files.len() implies (#[trigger] files[i]).path@
                    != path by {
                    if i < files.len() - 1 {
                        assert(files.drop_last()[i] == files[i]);
                    }
                }
            }
        }
    }
}

/// Finds the last file with this path.
fn find_path<'a>(files: &'a Vec<SnapFile>, path: &str) -> (r: Option<&'a SnapFile>)
    ensures
        match r {
            Some(f) => with_path(files@, path@) == Some(*f),
            None => with_path(files@, path@) is None,
        },
{
    let mut i: usize = files.len();
    assert(files@.take(i as int) =~= files@);
    while i > 0
        invariant
            i <= files.len(),
            with_path(files@, path@) == with_path(files@.take(i as int), path@),
        decreases i,
    {
        assert(files@.take(i as int).last() == files@[i - 1]);
        assert(files@.take(i as int).drop_last() =~= files@.take(i - 1));
        if text::same(files[i - 1].path.as_str(), path) {
            return Some(&files[i - 1]);
        }
        i -= 1;
    }
    None
}

/// The files whose path is not among the paths of `others`.
pub open spec fn absent(files: Seq<SnapFile>, others: Seq<SnapFile>) -> Seq<SnapFile> {
    files.filter(|f: SnapFile| with_path(others, f.path@) is None)
}

fn absent_of(files: &Vec<SnapFile>, others: &Vec<SnapFile>) -> (r: Vec<SnapFile>)
    ensures
        r@ == absent(files@, others@),
{
    let mut r: Vec<SnapFile> = Vec::new();
    let mut i: usize = 0;
    let ghost keep = |f: SnapFile| with_path(others@, f.path@) is None;
    assert(files@.take(0) =~= Seq::empty());
    assert(r@ =~= files@.take(0).filter(keep)) by {
        reveal(Seq::filter);
    }
    while i < files.len()
        invariant
            i <= files.len(),
            keep == (|f: SnapFile| with_path(others@, f.path@) is None),
            r@ == files@.take(i as int).filter(keep),
        decreases files.len() - i,
    {
        assert(files@.take(i + 1).drop_last() =~= files@.take(i as int));
        if find_path(others, files[i].path.as_str()).is_none() {
            r.push(files[i].copy());
        }
        proof {
            reveal(Seq::filter);
            assert(r@ == files@.take(i + 1).filter(keep));
        }
        i += 1;
    }
    assert(files@.take(i as int) =~= files@);
    r
}

/// The first file with this hash.
pub open spec fn with_hash(files: Seq<SnapFile>, sha256: Seq<char>) -> Option<SnapFile>
    decreases files.len(),
{
    if files.len() == 0 {
        None
    } else if files[0].sha256@ == sha256 {
        Some(files[0])
    } else {
        with_hash(files.skip(1), sha256)
    }
}

fn find_hash<'a>(files: &'a Vec<SnapFile>, sha256: &str) -> (r: Option<&'a SnapFile>)
    ensures
        match r {
            Some(f) => with_hash(files@, sha256@) == Some(*f),
            None => with_hash(files@, sha256@) is None,
        },
{
    let mut i: usize = 0;
    assert(files@.skip(0) =~= files@);
    while i < files.len()
        invariant
            i <= files.len(),
            with_hash(files@, sha256@) == with_hash(files@.skip(i as int), sha256@),
        decreases files.len() - i,
    {
        assert(files@.skip(i as int)[0] == files@[i as int]);
        if text::same(files[i].sha256.as_str(), sha256) {
            return Some(&files[i]);
        }
        assert(files@.skip(i as int).skip(1) =~= files@.skip(i + 1));
        i += 1;
    }
    None
}

/// The files that moved: each removed file whose content turned up under a new path,
/// with the first new file of that content.
pub open spec fn moves(gone: Seq<SnapFile>, fresh: Seq<SnapFile>) -> Seq<(SnapFile, SnapFile)>
    decreases gone.len(),
{
    if gone.len() == 0 {
        Seq::empty()
    } else {
        match with_hash(fresh, gone.last().sha256@) {
            Some(f) => moves(gone.drop_last(), fresh).push((gone.last(), f)),
            None => moves(gone.drop_last(), fresh),
        }
    }
}

fn moves_of(gone: &Vec<SnapFile>, fresh: &Vec<SnapFile>) -> (r: Vec<(SnapFile, SnapFile)>)
    ensures
        r@ == moves(gone@, fresh@),
{
    let mut r: Vec<(SnapFile, SnapFile)> = Vec::new();
    let mut i: usize = 0;
    assert(gone@.take(0) =~= Seq::empty());
    while i < gone.len()
        invariant
            i <= gone.len(),
            r@ == moves(gone@.take(i as int), fresh@),
        decreases gone.len() - i,
    {
        assert(gone@.take(i + 1).drop_last() =~= gone@.take(i as int));
        if let Some(f) = find_hash(fresh, gone[i].sha256.as_str()) {
            r.push((gone[i].copy(), f.copy()));
        }
        i += 1;
    }
    assert(gone@.take(i as int) =~= gone@);
    r
}

/// Whether some move starts at this path.
pub open spec fn moved_from(pairs: Seq<(SnapFile, SnapFile)>, path: Seq<char>) -> bool {
    exists|i: int| 0 <= i < pairs.len() && (#[trigger] pairs[i]).0.path@ == path
}

/// Whether some move ends at this path.
pub open spec fn moved_to(pairs: Seq<(SnapFile, SnapFile)>, path: Seq<char>) -> bool {
    exists|i: int| 0 <= i < pairs.len() && (#[trigger] pairs[i]).1.path@ == path
}

fn is_moved_from(pairs: &Vec<(SnapFile, SnapFile)>, path: &str) -> (r: bool)
    ensures
        r == moved_from(pairs@, path@),
{
    let mut i: usize = 0;
    while i < pairs.len()
        invariant
            i <= pairs.len(),
            forall|k: int| 0 <= k < i ==> (#[trigger] pairs@[k]).0.path@ != path@,
        decreases pairs.len() - i,
    {
        if text::same(pairs[i].0.path.as_str(), path) {
            assert(pairs@[i as int].0.path@ == path@);
            return true;
        }
        i += 1;
    }
    false
}

fn is_moved_to(pairs: &Vec<(SnapFile, SnapFile)>, path: &str) -> (r: bool)
    ensures
        r == moved_to(pairs@, path@),
{
    let mut i: usize = 0;
    while i < pairs.len()
        invariant
            i <= pairs.len(),
            forall|k: int| 0 <= k < i ==> (#[trigger] pairs@[k]).1.path@ != path@,
        decreases pairs.len() - i,
    {
        if text::same(pairs[i].1.path.as_str(), path) {
            assert(pairs@[i as int].1.path@ == path@);
            return true;
        }
        i += 1;
    }
    false
}

/// The move of a file as a change.
pub open spec fn rename_change(pair: (SnapFile, SnapFile)) -> FileChange {
    FileChange::Renamed {
        from: pair.0.path,
        to: pair.1.path,
        binary: pair.0.binary || pair.1.binary,
    }
}

/// A new file as a change.
pub open spec fn add_change(f: SnapFile) -> FileChange {
    FileChange::Added { path: f.path, binary: f.binary, size: f.size }
}

/// A file that is gone as a change.
pub open spec fn remove_change(f: SnapFile) -> FileChange {
    FileChange::Removed { path: f.path, binary: f.binary, size: f.size }
}

/// Whether a file of the new snap stood in the old one with other content.
pub open spec fn is_modified(prev: Seq<SnapFile>, f: SnapFile) -> bool {
    match with_path(prev, f.path@) {
        Some(p) => p.sha256@ != f.sha256@,
        None => false,
    }
}

/// A file with other content as a change.
pub open spec fn modify_change(prev: Seq<SnapFile>, f: SnapFile) -> FileChange {
    FileChange::Modified {
        path: f.path,
        binary: f.binary,
        old_size: with_path(prev, f.path@)->0.size,
        new_size: f.size,
    }
}

/// The files of the new snap that stood in the old one with other content.
pub open spec fn modified(prev: Seq<SnapFile>, cur: Seq<SnapFile>) -> Seq<SnapFile> {
    cur.filter(|f: SnapFile| is_modified(prev, f))
}

/// The files that moved between two snaps.
pub open spec fn renames(prev: Seq<SnapFile>, cur: Seq<SnapFile>) -> Seq<(SnapFile, SnapFile)> {
    moves(absent(prev, cur), absent(cur, prev))
}

/// The new files that no file moved to.
pub open spec fn additions(prev: Seq<SnapFile>, cur: Seq<SnapFile>) -> Seq<SnapFile> {
    absent(cur, prev).filter(|f: SnapFile| !moved_to(renames(prev, cur), f.path@))
}

/// The files that are gone and moved nowhere.
pub open spec fn removals(prev: Seq<SnapFile>, cur: Seq<SnapFile>) -> Seq<SnapFile> {
    absent(prev, cur).filter(|f: SnapFile| !moved_from(renames(prev, cur), f.path@))
}

/// All changes: moves, modifications, additions, removals.
pub open spec fn changes(prev: Seq<SnapFile>, cur: Seq<SnapFile>) -> Seq<FileChange> {
    renames(prev, cur).map_values(|p: (SnapFile, SnapFile)| rename_change(p)) + modified(
        prev,
        cur,
    ).map_values(|f: SnapFile| modify_change(prev, f)) + additions(prev, cur).map_values(
        |f: SnapFile| add_change(f),
    ) + removals(prev, cur).map_values(|f: SnapFile| remove_change(f))
}

/// All changes in the order in which they are shown.
pub open spec fn sorted_changes(prev: Seq<SnapFile>, cur: Seq<SnapFile>) -> Seq<FileChange> {
    order::sorted_by(changes(prev, cur), order::rank::<FileChange>())
}

/// The changes between the file lists of two snaps, in the order in which they are
/// shown. A file that vanished while another appeared with the same hash counts as
/// moved.
pub fn file_changes(prev: &SnapMeta, cur: &SnapMeta) -> (r: Vec<FileChange>)
    ensures
        r@ == sorted_changes(prev.files@, cur.files@),
{
    let gone = absent_of(&prev.files, &cur.files);
    let fresh = absent_of(&cur.files, &prev.files);
    let pairs = moves_of(&gone, &fresh);
    let ghost p = prev.files@;
    let ghost c = cur.files@;
    let mut out: Vec<FileChange> = Vec::new();
    let mut i: usize = 0;
    let ghost moved = pairs@.map_values(|p: (SnapFile, SnapFile)| rename_change(p));
    assert(moved.take(0) =~= Seq::empty());
    while i < pairs.len()
        invariant
            i <= pairs.len(),
            moved == pairs@.map_values(|p: (SnapFile, SnapFile)| rename_change(p)),
            out@ == moved.take(i as int),
        decreases pairs.len() - i,
    {
        out.push(
            FileChange::Renamed {
                from: pairs[i].0.path.clone(),
                to: pairs[i].1.path.clone(),
                binary: pairs[i].0.binary || pairs[i].1.binary,
            },
        );
        i += 1;
        assert(out@ =~= moved.take(i as int));
    }
    assert(moved.take(i as int) =~= moved);
    let changed = modified_of(&prev.files, &cur.files);
    let mut j: usize = 0;
    let ghost mods = changed@.map_values(|f: SnapFile| modify_change(p, f));
    assert(moved + mods.take(0) =~= moved);
    while j < changed.len()
        invariant
            j <= changed.len(),
            p == prev.files@,
            mods == changed@.map_values(|f: SnapFile| modify_change(p, f)),
            changed@ == modified(p, cur.files@),
            out@ == moved + mods.take(j as int),
        decreases changed.len() - j,
    {
        let f = &changed[j];
        proof {
            order::lemma_filter_holds(cur.files@, |f: SnapFile| is_modified(p, f), j as int);
        }
        if let Some(old) = find_path(&prev.files, f.path.as_str()) {
            out.push(
                FileChange::Modified {
                    path: f.path.clone(),
                    binary: f.binary,
                    old_size: old.size,
                    new_size: f.size,
                },
            );
        }
        j += 1;
        assert(out@ =~= moved + mods.take(j as int));
    }
    assert(mods.take(j as int) =~= mods);
    let added = not_moved_to(&fresh, &pairs);
    let mut k: usize = 0;
    let ghost adds = added@.map_values(|f: SnapFile| add_change(f));
    assert(moved + mods + adds.take(0) =~= moved + mods);
    while k < added.len()
        invariant
            k <= added.len(),
            adds == added@.map_values(|f: SnapFile| add_change(f)),
            out@ == moved + mods + adds.take(k as int),
        decreases added.len() - k,
    {
        let f = &added[k];
        out.push(FileChange::Added { path: f.path.clone(), binary: f.binary, size: f.size });
        k += 1;
        assert(out@ =~= moved + mods + adds.take(k as int));
    }
    assert(adds.take(k as int) =~= adds);
    let removed = not_moved_from(&gone, &pairs);
    let mut m: usize = 0;
    let ghost removes = removed@.map_values(|f: SnapFile| remove_change(f));
    assert(moved + mods + adds + removes.take(0) =~= moved + mods + adds);
    while m < removed.len()
        invariant
            m <= removed.len(),
            removes == removed@.map_values(|f: SnapFile| remove_change(f)),
            out@ == moved + mods + adds + removes.take(m as int),
        decreases removed.len() - m,
    {
        let f = &removed[m];
        out.push(FileChange::Removed { path: f.path.clone(), binary: f.binary, size: f.size });
        m += 1;
        assert(out@ =~= moved + mods + adds + removes.take(m as int));
    }
    assert(removes.take(m as int) =~= removes);
    assert(out@ =~= changes(p, c));
    order::sort(out)
}

fn modified_of(prev: &Vec<SnapFile>, cur: &Vec<SnapFile>) -> (r: Vec<SnapFile>)
    ensures
        r@ == modified(prev@, cur@),
{
    let mut r: Vec<SnapFile> = Vec::new();
    let mut i: usize = 0;
    let ghost keep = |f: SnapFile| is_modified(prev@, f);
    assert(cur@.take(0) =~= Seq::empty());
    assert(r@ =~= cur@.take(0).filter(keep)) by {
        reveal(Seq::filter);
    }
    while i < cur.len()
        invariant
            i <= cur.len(),
            keep == (|f: SnapFile| is_modified(prev@, f)),
            r@ == cur@.take(i as int).filter(keep),
        decreases cur.len() - i,
    {
        assert(cur@.take(i + 1).drop_last() =~= cur@.take(i as int));
        if let Some(old) = find_path(prev, cur[i].path.as_str()) {
            if !text::same(old.sha256.as_str(), cur[i].sha256.as_str()) {
                r.push(cur[i].copy());
            }
        }
        proof {
            reveal(Seq::filter);
            assert(r@ == cur@.take(i + 1).filter(keep));
        }
        i += 1;
    }
    assert(cur@.take(i as int) =~= cur@);
    r
}

fn not_moved_to(files: &Vec<SnapFile>, pairs: &Vec<(SnapFile, SnapFile)>) -> (r: Vec<SnapFile>)
    ensures
        r@ == files@.filter(|f: SnapFile| !moved_to(pairs@, f.path@)),
{
    let mut r: Vec<SnapFile> = Vec::new();
    let mut i: usize = 0;
    let ghost keep = |f: SnapFile| !moved_to(pairs@, f.path@);
    assert(files@.take(0) =~= Seq::empty());
    assert(r@ =~= files@.take(0).filter(keep)) by {
        reveal(Seq::filter);
    }
    while i < files.len()
        invariant
            i <= files.len(),
            keep == (|f: SnapFile| !moved_to(pairs@, f.path@)),
            r@ == files@.take(i as int).filter(keep),
        decreases files.len() - i,
    {
        assert(files@.take(i + 1).drop_last() =~= files@.take(i as int));
        if !is_moved_to(pairs, files[i].path.as_str()) {
            r.push(files[i].copy());
        }
        proof {
            reveal(Seq::filter);
            assert(r@ == files@.take(i + 1).filter(keep));
        }
        i += 1;
    }
    assert(files@.take(i as int) =~= files@);
    r
}

fn not_moved_from(files: &Vec<SnapFile>, pairs: &Vec<(SnapFile, SnapFile)>) -> (r: Vec<SnapFile>)
    ensures
        r@ == files@.filter(|f: SnapFile| !moved_from(pairs@, f.path@)),
{
    let mut r: Vec<SnapFile> = Vec::new();
    let mut i: usize = 0;
    let ghost keep = |f: SnapFile| !moved_from(pairs@, f.path@);
    assert(files@.take(0) =~= Seq::empty());
    assert(r@ =~= files@.take(0).filter(keep)) by {
        reveal(Seq::filter);
    }
    while i < files.len()
        invariant
            i <= files.len(),
            keep == (|f: SnapFile| !moved_from(pairs@, f.path@)),
            r@ == files@.take(i as int).filter(keep),
        decreases files.len() - i,
    {
        assert(files@.take(i + 1).drop_last() =~= files@.take(i as int));
        if !is_moved_from(pairs, files[i].path.as_str()) {
            r.push(files[i].copy());
        }
        proof {
            reveal(Seq::filter);
            assert(r@ == files@.take(i + 1).filter(keep));
        }
        i += 1;
    }
    assert(files@.take(i as int) =~= files@);
    r
}

/// The lines that a modified file gained.
pub open spec fn lines_gained(old: Seq<Content>, new: Seq<Content>, f: SnapFile) -> int {
    if f.binary {
        0
    } else {
        diff::added(diff::line_ops(text_at(old, f.path@), text_at(new, f.path@))).len() as int
    }
}

/// The lines that a modified file lost.
pub open spec fn lines_lost(old: Seq<Content>, new: Seq<Content>, f: SnapFile) -> int {
    if f.binary {
        0
    } else {
        diff::removed(diff::line_ops(text_at(old, f.path@), text_at(new, f.path@))).len() as int
    }
}

/// The lines of a whole file.
pub open spec fn lines_in(tree: Seq<Content>, f: SnapFile) -> int {
    if f.binary {
        0
    } else {
        text::lines(text_at(tree, f.path@)).len() as int
    }
}

/// The sum of a number over files.
pub open spec fn total(files: Seq<SnapFile>, count: spec_fn(SnapFile) -> int) -> int
    decreases files.len(),
{
    if files.len() == 0 {
        0
    } else {
        total(files.drop_last(), count) + count(files.last())
    }
}

/// All added lines: those that modified files gained, and those of new files.
pub open spec fn added_total(
    prev: Seq<SnapFile>,
    old: Seq<Content>,
    cur: Seq<SnapFile>,
    new: Seq<Content>,
) -> int {
    total(modified(prev, cur), |f: SnapFile| lines_gained(old, new, f)) + total(
        additions(prev, cur),
        |f: SnapFile| lines_in(new, f),
    )
}

/// All removed lines: those that modified files lost, and those of files that are
/// gone.
pub open spec fn removed_total(
    prev: Seq<SnapFile>,
    old: Seq<Content>,
    cur: Seq<SnapFile>,
    new: Seq<Content>,
) -> int {
    total(modified(prev, cur), |f: SnapFile| lines_lost(old, new, f)) + total(
        removals(prev, cur),
        |f: SnapFile| lines_in(old, f),
    )
}

/// The size of a file's content.
pub open spec fn size_at(tree: Seq<Content>, f: SnapFile) -> int {
    bytes_at(tree, f.path@).len() as int
}

/// Whether the contents are small enough together for their lines to be counted.
pub open spec fn countable(
    prev: Seq<SnapFile>,
    old: Seq<Content>,
    cur: Seq<SnapFile>,
    new: Seq<Content>,
) -> bool {
    &&& total(cur, |f: SnapFile| size_at(new, f)) <= usize::MAX
    &&& total(cur, |f: SnapFile| size_at(old, f)) + total(prev, |f: SnapFile| size_at(old, f))
        <= usize::MAX
}

/// Sums over a longer part are not smaller.
proof fn lemma_total_take(files: Seq<SnapFile>, count: spec_fn(SnapFile) -> int, i: int)
    requires
        0 <= i <= files.len(),
        forall|f: SnapFile| #[trigger] count(f) >= 0,
    ensures
        0 <= total(files.take(i), count) <= total(files, count),
    decreases files.len(),
{
    if i < files.len() {
        lemma_total_take(files.drop_last(), count, i);
        assert(files.drop_last().take(i) =~= files.take(i));
        assert(count(files.last()) >= 0);
    } else {
        assert(files.take(i) =~= files);
        if files.len() > 0 {
            lemma_total_take(files.drop_last(), count, files.len() - 1);
            assert(count(files.last()) >= 0);
        }
    }
}

/// Sums over two parts that share nothing are at most the sum over the whole.
proof fn lemma_total_parts(
    files: Seq<SnapFile>,
    a: spec_fn(SnapFile) -> bool,
    b: spec_fn(SnapFile) -> bool,
    count: spec_fn(SnapFile) -> int,
)
    requires
        forall|f: SnapFile| #[trigger] count(f) >= 0,
        forall|f: SnapFile| !(#[trigger] a(f) && #[trigger] b(f)),
    ensures
        0 <= total(files.filter(a), count),
        0 <= total(files.filter(b), count),
        total(files.filter(a), count) + total(files.filter(b), count) <= total(files, count),
    decreases files.len(),
{
    reveal(Seq::filter);
    if files.len() > 0 {
        let d = files.drop_last();
        let x = files.last();
        lemma_total_parts(d, a, b, count);
        assert(count(x) >= 0);
        if a(x) {
            assert(!b(x));
            assert(d.filter(a).push(x).drop_last() =~= d.filter(a));
        } else if b(x) {
            assert(d.filter(b).push(x).drop_last() =~= d.filter(b));
        }
    }
}

/// The sizes of new and of modified files fit where those of all files do.
proof fn lemma_countable(
    prev: Seq<SnapFile>,
    old: Seq<Content>,
    cur: Seq<SnapFile>,
    new: Seq<Content>,
)
    requires
        countable(prev, old, cur, new),
    ensures
        0 <= total(modified(prev, cur), |f: SnapFile| size_at(new, f)),
        0 <= total(modified(prev, cur), |f: SnapFile| size_at(old, f)),
        0 <= total(additions(prev, cur), |f: SnapFile| size_at(new, f)),
        0 <= total(removals(prev, cur), |f: SnapFile| size_at(old, f)),
        total(modified(prev, cur), |f: SnapFile| size_at(new, f)) + total(
            additions(prev, cur),
            |f: SnapFile| size_at(new, f),
        ) <= usize::MAX,
        total(modified(prev, cur), |f: SnapFile| size_at(old, f)) + total(
            removals(prev, cur),
            |f: SnapFile| size_at(old, f),
        ) <= usize::MAX,
{
    let sn = |f: SnapFile| size_at(new, f);
    let so = |f: SnapFile| size_at(old, f);
    let is_mod = |f: SnapFile| is_modified(prev, f);
    let is_new = |f: SnapFile| with_path(prev, f.path@) is None;
    let is_gone = |f: SnapFile| with_path(cur, f.path@) is None;
    let never = |f: SnapFile| false;
    let stays_new = |f: SnapFile| !moved_to(renames(prev, cur), f.path@);
    let stays_gone = |f: SnapFile| !moved_from(renames(prev, cur), f.path@);
    lemma_total_parts(cur, is_mod, is_new, sn);
    lemma_total_parts(cur, is_mod, never, so);
    lemma_total_parts(prev, is_gone, never, so);
    lemma_total_parts(absent(cur, prev), stays_new, never, sn);
    lemma_total_parts(absent(prev, cur), stays_gone, never, so);
}

/// The lines that modified files gained and lost.
fn modified_lines(files: &Vec<SnapFile>, old: &Vec<Content>, new: &Vec<Content>) -> (r: (
    usize,
    usize,
))
    requires
        total(files@, |f: SnapFile| size_at(new@, f)) <= usize::MAX,
        total(files@, |f: SnapFile| size_at(old@, f)) <= usize::MAX,
    ensures
        r.0 == total(files@, |f: SnapFile| lines_gained(old@, new@, f)),
        r.1 == total(files@, |f: SnapFile| lines_lost(old@, new@, f)),
        r.0 <= total(files@, |f: SnapFile| size_at(new@, f)),
        r.1 <= total(files@, |f: SnapFile| size_at(old@, f)),
{
    let mut gained: usize = 0;
    let mut lost: usize = 0;
    let mut i: usize = 0;
    let ghost sn = |f: SnapFile| size_at(new@, f);
    let ghost so = |f: SnapFile| size_at(old@, f);
    let ghost g = |f: SnapFile| lines_gained(old@, new@, f);
    let ghost l = |f: SnapFile| lines_lost(old@, new@, f);
    assert(files@.take(0) =~= Seq::empty());
    while i < files.len()
        invariant
            i <= files.len(),
            sn == (|f: SnapFile| size_at(new@, f)),
            so == (|f: SnapFile| size_at(old@, f)),
            g == (|f: SnapFile| lines_gained(old@, new@, f)),
            l == (|f: SnapFile| lines_lost(old@, new@, f)),
            total(files@, sn) <= usize::MAX,
            total(files@, so) <= usize::MAX,
            gained == total(files@.take(i as int), g),
            lost == total(files@.take(i as int), l),
            gained <= total(files@.take(i as int), sn),
            lost <= total(files@.take(i as int), so),
        decreases files.len() - i,
    {
        let f = &files[i];
        proof {
            lemma_total_take(files@, sn, i + 1);
            lemma_total_take(files@, so, i + 1);
            assert(files@.take(i + 1).drop_last() =~= files@.take(i as int));
            assert(sn(*f) == size_at(new@, *f) && so(*f) == size_at(old@, *f));
            assert(g(*f) == lines_gained(old@, new@, *f) && l(*f) == lines_lost(old@, new@, *f));
        }
        if !f.binary {
            let before = read_text(old, f.path.as_str());
            let after = read_text(new, f.path.as_str());
            let d = diff::line_diff(before.as_str(), after.as_str());
            proof {
                diff::lemma_diff_lines_len(before@);
                diff::lemma_diff_lines_len(after@);
                diff::lemma_rising_len(d.added_lines@, diff::diff_lines(after@).len() as int);
                diff::lemma_rising_len(d.removed_lines@, diff::diff_lines(before@).len() as int);
            }
            gained += d.added_lines.len();
            lost += d.removed_lines.len();
        }
        i += 1;
    }
    assert(files@.take(i as int) =~= files@);
    (gained, lost)
}

/// The lines of all text files together.
fn whole_lines(files: &Vec<SnapFile>, tree: &Vec<Content>) -> (r: usize)
    requires
        total(files@, |f: SnapFile| size_at(tree@, f)) <= usize::MAX,
    ensures
        r == total(files@, |f: SnapFile| lines_in(tree@, f)),
        r <= total(files@, |f: SnapFile| size_at(tree@, f)),
{
    let mut count: usize = 0;
    let mut i: usize = 0;
    let ghost size = |f: SnapFile| size_at(tree@, f);
    let ghost c = |f: SnapFile| lines_in(tree@, f);
    assert(files@.take(0) =~= Seq::empty());
    while i < files.len()
        invariant
            i <= files.len(),
            size == (|f: SnapFile| size_at(tree@, f)),
            c == (|f: SnapFile| lines_in(tree@, f)),
            total(files@, size) <= usize::MAX,
            count == total(files@.take(i as int), c),
            count <= total(files@.take(i as int), size),
        decreases files.len() - i,
    {
        let f = &files[i];
        proof {
            lemma_total_take(files@, size, i + 1);
            assert(files@.take(i + 1).drop_last() =~= files@.take(i as int));
            assert(size(*f) == size_at(tree@, *f) && c(*f) == lines_in(tree@, *f));
        }
        if !f.binary {
            let t = read_text(tree, f.path.as_str());
            let ls = text::lines_of(t.as_str());
            proof {
                text::lemma_lines_len(t@);
                assert(text::views(ls@).len() == ls@.len());
            }
            count += ls.len();
        }
        i += 1;
    }
    assert(files@.take(i as int) =~= files@);
    count
}

/// The diff between two snaps, given their file lists and their trees.
pub fn diff_snap_meta(
    prev: &SnapMeta,
    prev_tree: &Vec<Content>,
    cur: &SnapMeta,
    cur_tree: &Vec<Content>,
) -> (r: SnapDiff)
    requires
        countable(prev.files@, prev_tree@, cur.files@, cur_tree@),
    ensures
        r.changes@ == sorted_changes(prev.files@, cur.files@),
        r.added_lines == added_total(prev.files@, prev_tree@, cur.files@, cur_tree@),
        r.removed_lines == removed_total(prev.files@, prev_tree@, cur.files@, cur_tree@),
{
    let changes = file_changes(prev, cur);
    let gone = absent_of(&prev.files, &cur.files);
    let fresh = absent_of(&cur.files, &prev.files);
    let pairs = moves_of(&gone, &fresh);
    let changed = modified_of(&prev.files, &cur.files);
    let added = not_moved_to(&fresh, &pairs);
    let removed = not_moved_from(&gone, &pairs);
    proof {
        lemma_countable(prev.files@, prev_tree@, cur.files@, cur_tree@);
    }
    let (gained, lost) = modified_lines(&changed, prev_tree, cur_tree);
    let new_lines: usize = whole_lines(&added, cur_tree);
    let old_lines: usize = whole_lines(&removed, prev_tree);
    SnapDiff { changes, added_lines: gained + new_lines, removed_lines: lost + old_lines }
}

/// Whether no two files have the same path.
pub open spec fn distinct_paths(files: Seq<SnapFile>) -> bool {
    forall|i: int, j: int|
        0 <= i < j < files.len() ==> (#[trigger] files[i]).path@ != (#[trigger] files[j]).path@
}

/// Whether two file lists hold the same paths with the same hashes.
pub open spec fn same_tree(a: Seq<SnapFile>, b: Seq<SnapFile>) -> bool {
    &&& a.len() == b.len()
    &&& forall|i: int|
        0 <= i < a.len() ==> (#[trigger] a[i]).path@ == b[i].path@ && a[i].sha256@ == b[i].sha256@
}

proof fn lemma_with_path_of(files: Seq<SnapFile>, i: int)
    requires
        distinct_paths(files),
        0 <= i < files.len(),
    ensures
        with_path(files, files[i].path@) == Some(files[i]),
{
    lemma_with_path(files, files[i].path@);
    let f = with_path(files, files[i].path@)->0;
    let w = choose|w: int| 0 <= w < files.len() && files[w] == f;
    if w < i {
        assert(files[w].path@ != files[i].path@);
    } else if i < w {
        assert(files[i].path@ != files[w].path@);
    }
}

/// Two snaps of the same tree differ in nothing: no change is listed and no line is
/// counted.
pub proof fn law_same_tree_has_no_changes(
    prev: Seq<SnapFile>,
    old: Seq<Content>,
    cur: Seq<SnapFile>,
    new: Seq<Content>,
)
    requires
        distinct_paths(prev),
        same_tree(prev, cur),
    ensures
        sorted_changes(prev, cur).len() == 0,
        added_total(prev, old, cur, new) == 0,
        removed_total(prev, old, cur, new) == 0,
{
    assert forall|i: int, j: int| 0 <= i < j < cur.len() implies (#[trigger] cur[i]).path@ != (
    #[trigger] cur[j]).path@ by {
        assert(prev[i].path@ != prev[j].path@);
    }
    assert forall|i: int| 0 <= i < cur.len() implies !is_modified(prev, #[trigger] cur[i])
        && with_path(prev, cur[i].path@) is Some by {
        lemma_with_path_of(prev, i);
        assert(prev[i].path@ == cur[i].path@);
    }
    assert forall|i: int| 0 <= i < prev.len() implies with_path(cur, (#[trigger] prev[i]).path@) is Some by {
        lemma_with_path_of(cur, i);
    }
    order::lemma_filter_none(cur, |f: SnapFile| is_modified(prev, f));
    order::lemma_filter_none(cur, |f: SnapFile| with_path(prev, f.path@) is None);
    order::lemma_filter_none(prev, |f: SnapFile| with_path(cur, f.path@) is None);
    order::lemma_filter_none(
        absent(cur, prev),
        |f: SnapFile| !moved_to(renames(prev, cur), f.path@),
    );
    order::lemma_filter_none(
        absent(prev, cur),
        |f: SnapFile| !moved_from(renames(prev, cur), f.path@),
    );
    order::law_sorted(changes(prev, cur), order::rank::<FileChange>());
}

/// Every file of two snaps is accounted for. A file that stood in both with
/// different hashes is listed as modified. A file that is new is listed as added, or
/// some file is listed as moved to its path. A file that is gone is listed as
/// removed, or as moved.
pub proof fn law_every_file_is_accounted_for(prev: Seq<SnapFile>, cur: Seq<SnapFile>, f: SnapFile)
    ensures
        cur.contains(f) && is_modified(prev, f) ==> sorted_changes(prev, cur).contains(
            modify_change(prev, f),
        ),
        cur.contains(f) && with_path(prev, f.path@) is None ==> sorted_changes(prev, cur).contains(
            add_change(f),
        ) || exists|p: (SnapFile, SnapFile)|
            p.1.path@ == f.path@ && sorted_changes(prev, cur).contains(#[trigger] rename_change(p)),
        prev.contains(f) && with_path(cur, f.path@) is None ==> sorted_changes(prev, cur).contains(
            remove_change(f),
        ) || exists|p: (SnapFile, SnapFile)|
            p.0.path@ == f.path@ && sorted_changes(prev, cur).contains(#[trigger] rename_change(p)),
{
    let all = changes(prev, cur);
    let before = order::rank::<FileChange>();
    let pairs = renames(prev, cur);
    let rs = pairs.map_values(|p: (SnapFile, SnapFile)| rename_change(p));
    let ms = modified(prev, cur).map_values(|f: SnapFile| modify_change(prev, f));
    let xs = additions(prev, cur).map_values(|f: SnapFile| add_change(f));
    let ys = removals(prev, cur).map_values(|f: SnapFile| remove_change(f));
    assert(all == rs + ms + xs + ys);
    if cur.contains(f) && is_modified(prev, f) {
        order::lemma_filter_keeps(cur, |f: SnapFile| is_modified(prev, f), f);
        let w = choose|w: int| 0 <= w < modified(prev, cur).len() && modified(prev, cur)[w] == f;
        assert(all[rs.len() + w] == modify_change(prev, f));
        order::lemma_sorted_contains(all, before, modify_change(prev, f));
    }
    if cur.contains(f) && with_path(prev, f.path@) is None {
        order::lemma_filter_keeps(cur, |f: SnapFile| with_path(prev, f.path@) is None, f);
        if moved_to(pairs, f.path@) {
            let i = choose|i: int| 0 <= i < pairs.len() && (#[trigger] pairs[i]).1.path@ == f.path@;
            assert(all[i] == rename_change(pairs[i]));
            order::lemma_sorted_contains(all, before, rename_change(pairs[i]));
        } else {
            order::lemma_filter_keeps(absent(cur, prev), |f: SnapFile| !moved_to(pairs, f.path@), f);
            let w = choose|w: int|
                0 <= w < additions(prev, cur).len() && additions(prev, cur)[w] == f;
            assert(all[rs.len() + ms.len() + w] == add_change(f));
            order::lemma_sorted_contains(all, before, add_change(f));
        }
    }
    if prev.contains(f) && with_path(cur, f.path@) is None {
        order::lemma_filter_keeps(prev, |f: SnapFile| with_path(cur, f.path@) is None, f);
        if moved_from(pairs, f.path@) {
            let i = choose|i: int| 0 <= i < pairs.len() && (#[trigger] pairs[i]).0.path@ == f.path@;
            assert(all[i] == rename_change(pairs[i]));
            order::lemma_sorted_contains(all, before, rename_change(pairs[i]));
        } else {
            order::lemma_filter_keeps(absent(prev, cur), |f: SnapFile| !moved_from(pairs, f.path@), f);
            let w = choose|w: int| 0 <= w < removals(prev, cur).len() && removals(prev, cur)[w] == f;
            assert(all[rs.len() + ms.len() + xs.len() + w] == remove_change(f));
            order::lemma_sorted_contains(all, before, remove_change(f));
        }
    }
}

proof fn lemma_with_hash(files: Seq<SnapFile>, sha256: Seq<char>)
    ensures
        with_hash(files, sha256) matches Some(f) ==> f.sha256@ == sha256 && files.contains(f),
    decreases files.len(),
{
    if files.len() > 0 {
        if files[0].sha256@ != sha256 {
            lemma_with_hash(files.skip(1), sha256);
            if let Some(f) = with_hash(files.skip(1), sha256) {
                let w = choose|w: int| 0 <= w < files.skip(1).len() && files.skip(1)[w] == f;
                assert(files[w + 1] == f);
            }
        }
    }
}

proof fn lemma_moves(gone: Seq<SnapFile>, fresh: Seq<SnapFile>, i: int)
    requires
        0 <= i < moves(gone, fresh).len(),
    ensures
        moves(gone, fresh)[i].0.sha256@ == moves(gone, fresh)[i].1.sha256@,
        gone.contains(moves(gone, fresh)[i].0),
        fresh.contains(moves(gone, fresh)[i].1),
    decreases gone.len(),
{
    if gone.len() > 0 {
        let d = gone.drop_last();
        if i < moves(d, fresh).len() {
            lemma_moves(d, fresh, i);
            let w = choose|w: int| 0 <= w < d.len() && d[w] == moves(d, fresh)[i].0;
            assert(gone[w] == d[w]);
        } else {
            lemma_with_hash(fresh, gone.last().sha256@);
            assert(gone[gone.len() - 1] == gone.last());
        }
    }
}

/// Nothing else is listed. Each change is the modification of a file that stood in
/// both snaps, the addition of one that stood only in the new snap, the removal of
/// one that stood only in the old snap, or the move of the latter to the path of the
/// former where the hashes agree.
pub proof fn law_every_change_is_one(prev: Seq<SnapFile>, cur: Seq<SnapFile>, c: FileChange)
    requires
        sorted_changes(prev, cur).contains(c),
    ensures
        match c {
            FileChange::Modified { .. } => exists|f: SnapFile|
                cur.contains(f) && is_modified(prev, f) && c == #[trigger] modify_change(prev, f),
            FileChange::Added { .. } => exists|f: SnapFile|
                cur.contains(f) && with_path(prev, f.path@) is None && c == #[trigger] add_change(f),
            FileChange::Removed { .. } => exists|f: SnapFile|
                prev.contains(f) && with_path(cur, f.path@) is None && c
                    == #[trigger] remove_change(f),
            FileChange::Renamed { .. } => exists|p: (SnapFile, SnapFile)|
                prev.contains(p.0) && with_path(cur, p.0.path@) is None && cur.contains(p.1)
                    && with_path(prev, p.1.path@) is None && p.0.sha256@ == p.1.sha256@ && c
                    == #[trigger] rename_change(p),
            FileChange::RenamedAndModified { .. } => false,
        },
{
    let all = changes(prev, cur);
    let pairs = renames(prev, cur);
    let rs = pairs.map_values(|p: (SnapFile, SnapFile)| rename_change(p));
    let ms = modified(prev, cur).map_values(|f: SnapFile| modify_change(prev, f));
    let xs = additions(prev, cur).map_values(|f: SnapFile| add_change(f));
    let ys = removals(prev, cur).map_values(|f: SnapFile| remove_change(f));
    assert(all == rs + ms + xs + ys);
    order::lemma_sorted_contains(all, order::rank::<FileChange>(), c);
    let i = choose|i: int| 0 <= i < all.len() && all[i] == c;
    let gone = |f: SnapFile| with_path(cur, f.path@) is None;
    let fresh = |f: SnapFile| with_path(prev, f.path@) is None;
    if i < rs.len() {
        assert(c == rename_change(pairs[i]));
        lemma_moves(absent(prev, cur), absent(cur, prev), i);
        let a = choose|a: int|
            0 <= a < absent(prev, cur).len() && absent(prev, cur)[a] == pairs[i].0;
        order::lemma_filter_holds(prev, gone, a);
        let b = choose|b: int|
            0 <= b < absent(cur, prev).len() && absent(cur, prev)[b] == pairs[i].1;
        order::lemma_filter_holds(cur, fresh, b);
    } else if i < rs.len() + ms.len() {
        let k = i - rs.len();
        order::lemma_filter_holds(cur, |f: SnapFile| is_modified(prev, f), k);
        assert(c == modify_change(prev, modified(prev, cur)[k]));
    } else if i < rs.len() + ms.len() + xs.len() {
        let k = i - rs.len() - ms.len();
        let f = additions(prev, cur)[k];
        order::lemma_filter_holds(absent(cur, prev), |f: SnapFile| !moved_to(pairs, f.path@), k);
        let b = choose|b: int| 0 <= b < absent(cur, prev).len() && absent(cur, prev)[b] == f;
        order::lemma_filter_holds(cur, fresh, b);
        assert(c == add_change(f));
    } else {
        let k = i - rs.len() - ms.len() - xs.len();
        let f = removals(prev, cur)[k];
        order::lemma_filter_holds(absent(prev, cur), |f: SnapFile| !moved_from(pairs, f.path@), k);
        let b = choose|b: int| 0 <= b < absent(prev, cur).len() && absent(prev, cur)[b] == f;
        order::lemma_filter_holds(prev, gone, b);
        assert(c == remove_change(f));
    }
}

/// The changes are listed by kind and path.
pub proof fn law_changes_are_sorted(prev: Seq<SnapFile>, cur: Seq<SnapFile>)
    ensures
        forall|i: int, j: int|
            0 <= i < j < sorted_changes(prev, cur).len() ==> !text::less(
                (#[trigger] sorted_changes(prev, cur)[j]).key(),
                (#[trigger] sorted_changes(prev, cur)[i]).key(),
            ),
{
    let before = order::rank::<FileChange>();
    assert forall|a: FileChange, b: FileChange| #[trigger] before(a, b) implies !before(b, a) by {
        text::lemma_less_order(a.key(), b.key(), b.key());
    }
    assert forall|a: FileChange, b: FileChange, c: FileChange|
        !(#[trigger] before(b, a)) && !(#[trigger] before(c, b)) implies !before(c, a) by {
        text::lemma_less_order(a.key(), b.key(), c.key());
    }
    order::law_sorted(changes(prev, cur), before);
    let s = sorted_changes(prev, cur);
    assert forall|i: int, j: int| 0 <= i < j < s.len() implies !text::less(
        (#[trigger] s[j]).key(),
        (#[trigger] s[i]).key(),
    ) by {
        assert(!before(s[j], s[i]));
    }
}

/// Whether no file of a list has this path.
pub open spec fn no_path(files: Seq<SnapFile>, path: Seq<char>) -> bool {
    forall|i: int| 0 <= i < files.len() ==> (#[trigger] files[i]).path@ != path
}

/// Whether no file of `files` whose path is missing in `others` has this hash.
pub open spec fn no_loose_hash(files: Seq<SnapFile>, others: Seq<SnapFile>, sha256: Seq<char>) -> bool {
    forall|i: int|
        0 <= i < files.len() && no_path(others, (#[trigger] files[i]).path@) ==> files[i].sha256@
            != sha256
}

/// Whether the first file of a tree at this path is the one in place `k`.
pub open spec fn stands_at(tree: Seq<Content>, path: Seq<char>, k: int) -> bool {
    &&& 0 <= k < tree.len()
    &&& tree[k].path@ == path
    &&& forall|i: int| 0 <= i < k ==> (#[trigger] tree[i]).path@ != path
}

/// What a tree holds at a path are the bytes of the first file that stands there.
pub proof fn law_bytes_of_a_file(tree: Seq<Content>, path: Seq<char>, k: int)
    requires
        stands_at(tree, path, k),
    ensures
        bytes_at(tree, path) == tree[k].bytes@,
        text_at(tree, path) == fs::lossy(tree[k].bytes@),
    decreases k,
{
    if k > 0 {
        let rest = tree.skip(1);
        assert(tree[0].path@ != path);
        assert forall|i: int| 0 <= i < k - 1 implies (#[trigger] rest[i]).path@ != path by {
            assert(rest[i] == tree[i + 1]);
        }
        assert(rest[k - 1] == tree[k]);
        law_bytes_of_a_file(rest, path, k - 1);
    }
}

proof fn lemma_with_path_none(files: Seq<SnapFile>, path: Seq<char>)
    ensures
        with_path(files, path) is None <==> no_path(files, path),
{
    lemma_with_path(files, path);
    if let Some(f) = with_path(files, path) {
        let w = choose|w: int| 0 <= w < files.len() && files[w] == f;
        assert(files[w].path@ == path);
    }
}

proof fn lemma_with_path_push(files: Seq<SnapFile>, f: SnapFile, path: Seq<char>)
    ensures
        with_path(files.push(f), path) == (if f.path@ == path {
            Some(f)
        } else {
            with_path(files, path)
        }),
{
    assert(files.push(f).drop_last() =~= files);
}

proof fn lemma_with_hash_push(files: Seq<SnapFile>, f: SnapFile, sha256: Seq<char>)
    ensures
        with_hash(files.push(f), sha256) == (if with_hash(files, sha256) is Some {
            with_hash(files, sha256)
        } else if f.sha256@ == sha256 {
            Some(f)
        } else {
            None
        }),
    decreases files.len(),
{
    reveal_with_fuel(with_hash, 2);
    if files.len() == 0 {
        assert(files.push(f).skip(1) =~= Seq::empty());
    } else if files[0].sha256@ != sha256 {
        lemma_with_hash_push(files.skip(1), f, sha256);
        assert(files.push(f).skip(1) =~= files.skip(1).push(f));
    }
}

proof fn lemma_with_hash_none(files: Seq<SnapFile>, sha256: Seq<char>)
    requires
        forall|i: int| 0 <= i < files.len() ==> (#[trigger] files[i]).sha256@ != sha256,
    ensures
        with_hash(files, sha256) is None,
{
    lemma_with_hash(files, sha256);
    if let Some(f) = with_hash(files, sha256) {
        let w = choose|w: int| 0 <= w < files.len() && files[w] == f;
        assert(files[w].sha256@ != sha256);
    }
}

/// What `absent` keeps stands in the list and has a path that is missing in the other.
proof fn lemma_absent(files: Seq<SnapFile>, others: Seq<SnapFile>, i: int)
    requires
        0 <= i < absent(files, others).len(),
    ensures
        files.contains(absent(files, others)[i]),
        no_path(others, absent(files, others)[i].path@),
{
    let keep = |f: SnapFile| with_path(others, f.path@) is None;
    order::lemma_filter_holds(files, keep, i);
    lemma_with_path_none(others, absent(files, others)[i].path@);
}

proof fn lemma_no_loose_hash(files: Seq<SnapFile>, others: Seq<SnapFile>, sha256: Seq<char>)
    requires
        no_loose_hash(files, others, sha256),
    ensures
        with_hash(absent(files, others), sha256) is None,
{
    let a = absent(files, others);
    assert forall|i: int| 0 <= i < a.len() implies (#[trigger] a[i]).sha256@ != sha256 by {
        lemma_absent(files, others, i);
        let w = choose|w: int| 0 <= w < files.len() && files[w] == a[i];
        assert(files[w].sha256@ != sha256);
    }
    lemma_with_hash_none(a, sha256);
}

/// One more file in the other list changes nothing for files of other paths.
proof fn lemma_absent_unmoved(files: Seq<SnapFile>, others: Seq<SnapFile>, f: SnapFile)
    requires
        no_path(files, f.path@),
    ensures
        absent(files, others.push(f)) == absent(files, others),
{
    assert forall|i: int| 0 <= i < files.len() implies (with_path(
        others.push(f),
        (#[trigger] files[i]).path@,
    ) is None) == (with_path(others, files[i].path@) is None) by {
        lemma_with_path_push(others, f, files[i].path@);
    }
    order::lemma_filter_same(
        files,
        |g: SnapFile| with_path(others.push(f), g.path@) is None,
        |g: SnapFile| with_path(others, g.path@) is None,
    );
}

proof fn lemma_modified_unmoved(prev: Seq<SnapFile>, cur: Seq<SnapFile>, f: SnapFile)
    requires
        no_path(cur, f.path@),
    ensures
        modified(prev.push(f), cur) == modified(prev, cur),
{
    assert forall|i: int| 0 <= i < cur.len() implies is_modified(prev.push(f), #[trigger] cur[i])
        == is_modified(prev, cur[i]) by {
        lemma_with_path_push(prev, f, cur[i].path@);
    }
    order::lemma_filter_same(
        cur,
        |g: SnapFile| is_modified(prev.push(f), g),
        |g: SnapFile| is_modified(prev, g),
    );
}

/// The changes of the modified files do not look at a file of another path.
proof fn lemma_modify_changes_unmoved(prev: Seq<SnapFile>, cur: Seq<SnapFile>, f: SnapFile)
    requires
        no_path(cur, f.path@),
    ensures
        modified(prev, cur).map_values(|g: SnapFile| modify_change(prev.push(f), g)) == modified(
            prev,
            cur,
        ).map_values(|g: SnapFile| modify_change(prev, g)),
{
    let m = modified(prev, cur);
    assert forall|i: int| 0 <= i < m.len() implies modify_change(prev.push(f), #[trigger] m[i])
        == modify_change(prev, m[i]) by {
        order::lemma_filter_holds(cur, |g: SnapFile| is_modified(prev, g), i);
        let w = choose|w: int| 0 <= w < cur.len() && cur[w] == m[i];
        assert(cur[w].path@ != f.path@);
        lemma_with_path_push(prev, f, m[i].path@);
    }
    assert(m.map_values(|g: SnapFile| modify_change(prev.push(f), g)) =~= m.map_values(
        |g: SnapFile| modify_change(prev, g),
    ));
}

proof fn lemma_moves_fresh_push(gone: Seq<SnapFile>, fresh: Seq<SnapFile>, f: SnapFile)
    requires
        forall|i: int| 0 <= i < gone.len() ==> (#[trigger] gone[i]).sha256@ != f.sha256@,
    ensures
        moves(gone, fresh.push(f)) == moves(gone, fresh),
    decreases gone.len(),
{
    if gone.len() > 0 {
        let d = gone.drop_last();
        assert forall|i: int| 0 <= i < d.len() implies (#[trigger] d[i]).sha256@ != f.sha256@ by {
            assert(d[i] == gone[i]);
        }
        lemma_moves_fresh_push(d, fresh, f);
        assert(gone[gone.len() - 1].sha256@ != f.sha256@);
        lemma_with_hash_push(fresh, f, gone.last().sha256@);
    }
}

proof fn lemma_absent_hashes(files: Seq<SnapFile>, others: Seq<SnapFile>, sha256: Seq<char>)
    requires
        no_loose_hash(files, others, sha256),
    ensures
        forall|i: int| 0 <= i < absent(files, others).len() ==> (
        #[trigger] absent(files, others)[i]).sha256@ != sha256,
{
    let a = absent(files, others);
    assert forall|i: int| 0 <= i < a.len() implies (#[trigger] a[i]).sha256@ != sha256 by {
        lemma_absent(files, others, i);
        let w = choose|w: int| 0 <= w < files.len() && files[w] == a[i];
        assert(files[w].sha256@ != sha256);
    }
}

proof fn lemma_moved_paths(prev: Seq<SnapFile>, cur: Seq<SnapFile>, path: Seq<char>)
    ensures
        no_path(prev, path) ==> !moved_from(renames(prev, cur), path),
        no_path(cur, path) ==> !moved_to(renames(prev, cur), path),
{
    let pairs = renames(prev, cur);
    if moved_from(pairs, path) {
        let i = choose|i: int| 0 <= i < pairs.len() && (#[trigger] pairs[i]).0.path@ == path;
        lemma_moves(absent(prev, cur), absent(cur, prev), i);
        let w = choose|w: int|
            0 <= w < absent(prev, cur).len() && absent(prev, cur)[w] == pairs[i].0;
        lemma_absent(prev, cur, w);
        let v = choose|v: int| 0 <= v < prev.len() && prev[v] == pairs[i].0;
        assert(prev[v].path@ == path);
    }
    if moved_to(pairs, path) {
        let i = choose|i: int| 0 <= i < pairs.len() && (#[trigger] pairs[i]).1.path@ == path;
        lemma_moves(absent(prev, cur), absent(cur, prev), i);
        let w = choose|w: int|
            0 <= w < absent(cur, prev).len() && absent(cur, prev)[w] == pairs[i].1;
        lemma_absent(cur, prev, w);
        let v = choose|v: int| 0 <= v < cur.len() && cur[v] == pairs[i].1;
        assert(cur[v].path@ == path);
    }
}

proof fn lemma_total_push(files: Seq<SnapFile>, f: SnapFile, count: spec_fn(SnapFile) -> int)
    ensures
        total(files.push(f), count) == total(files, count) + count(f),
{
    assert(files.push(f).drop_last() =~= files);
}

proof fn lemma_total_same(
    files: Seq<SnapFile>,
    a: spec_fn(SnapFile) -> int,
    b: spec_fn(SnapFile) -> int,
)
    requires
        forall|i: int| 0 <= i < files.len() ==> a(#[trigger] files[i]) == b(files[i]),
    ensures
        total(files, a) == total(files, b),
    decreases files.len(),
{
    if files.len() > 0 {
        let d = files.drop_last();
        assert forall|i: int| 0 <= i < d.len() implies a(#[trigger] d[i]) == b(d[i]) by {
            assert(d[i] == files[i]);
        }
        lemma_total_same(d, a, b);
        assert(a(files[files.len() - 1]) == b(files[files.len() - 1]));
    }
}

/// A list of changes that grows by one in some place holds one more change.
proof fn lemma_changes_grow(a: Seq<FileChange>, b: Seq<FileChange>, x: FileChange)
    ensures
        (a.push(x) + b).to_multiset() == (a + b).to_multiset().insert(x),
{
    broadcast use vstd::seq_lib::group_to_multiset_ensures;

    vstd::seq_lib::lemma_multiset_commutative(a.push(x), b);
    vstd::seq_lib::lemma_multiset_commutative(a, b);
    assert((a.push(x) + b).to_multiset() =~= (a + b).to_multiset().insert(x));
}

proof fn lemma_sorted_changes(prev: Seq<SnapFile>, cur: Seq<SnapFile>)
    ensures
        sorted_changes(prev, cur).to_multiset() == changes(prev, cur).to_multiset(),
{
    order::law_sorted(changes(prev, cur), order::rank::<FileChange>());
}

/// Two snaps without files differ in nothing.
pub proof fn law_empty_snaps_are_the_same(old: Seq<Content>, new: Seq<Content>)
    ensures
        sorted_changes(Seq::empty(), Seq::empty()).len() == 0,
        added_total(Seq::empty(), old, Seq::empty(), new) == 0,
        removed_total(Seq::empty(), old, Seq::empty(), new) == 0,
{
    law_same_tree_has_no_changes(Seq::empty(), old, Seq::empty(), new);
}

/// One more file in the old snap that is gone, and whose content turned up nowhere, is one
/// more removal with its path and size. Its lines are so many more removed lines, none where
/// it is binary. Nothing else changes.
pub proof fn law_one_more_removed_file(
    prev: Seq<SnapFile>,
    old: Seq<Content>,
    cur: Seq<SnapFile>,
    new: Seq<Content>,
    f: SnapFile,
    k: int,
)
    requires
        no_path(prev, f.path@),
        no_path(cur, f.path@),
        no_loose_hash(cur, prev, f.sha256@),
        stands_at(old, f.path@, k),
    ensures
        sorted_changes(prev.push(f), cur).to_multiset() == sorted_changes(
            prev,
            cur,
        ).to_multiset().insert(
            FileChange::Removed { path: f.path, binary: f.binary, size: f.size },
        ),
        added_total(prev.push(f), old, cur, new) == added_total(prev, old, cur, new),
        removed_total(prev.push(f), old, cur, new) == removed_total(prev, old, cur, new) + (
        if f.binary {
            0
        } else {
            text::lines(fs::lossy(old[k].bytes@)).len() as int
        }),
{
    let now = prev.push(f);
    let gone = absent(prev, cur);
    let fresh = absent(cur, prev);
    lemma_with_path_none(cur, f.path@);
    order::lemma_filter_push(prev, f, |g: SnapFile| with_path(cur, g.path@) is None);
    assert(absent(now, cur) == gone.push(f));
    lemma_absent_unmoved(cur, prev, f);
    lemma_no_loose_hash(cur, prev, f.sha256@);
    assert(gone.push(f).drop_last() =~= gone);
    assert(renames(now, cur) == renames(prev, cur));
    lemma_modified_unmoved(prev, cur, f);
    lemma_modify_changes_unmoved(prev, cur, f);
    lemma_moved_paths(prev, cur, f.path@);
    order::lemma_filter_push(gone, f, |g: SnapFile| !moved_from(renames(prev, cur), g.path@));
    assert(removals(now, cur) == removals(prev, cur).push(f));
    assert(additions(now, cur) == additions(prev, cur));
    law_bytes_of_a_file(old, f.path@, k);
    lemma_total_push(removals(prev, cur), f, |g: SnapFile| lines_in(old, g));
    let rest = renames(prev, cur).map_values(|p: (SnapFile, SnapFile)| rename_change(p))
        + modified(prev, cur).map_values(|g: SnapFile| modify_change(prev, g)) + additions(
        prev,
        cur,
    ).map_values(|g: SnapFile| add_change(g));
    let ys = removals(prev, cur).map_values(|g: SnapFile| remove_change(g));
    let x = FileChange::Removed { path: f.path, binary: f.binary, size: f.size };
    assert(removals(now, cur).map_values(|g: SnapFile| remove_change(g)) =~= ys.push(x));
    assert(changes(now, cur) =~= (rest + ys).push(x));
    lemma_changes_grow(rest + ys, Seq::empty(), x);
    assert((rest + ys).push(x) + Seq::empty() =~= (rest + ys).push(x));
    assert((rest + ys) + Seq::empty() =~= rest + ys);
    lemma_sorted_changes(prev, cur);
    lemma_sorted_changes(now, cur);
}

/// One more file in the new snap that was not there, and whose content is that of no file
/// that is gone, is one more addition with its path and size. Its lines are so many more
/// added lines, none where it is binary. Nothing else changes.
pub proof fn law_one_more_added_file(
    prev: Seq<SnapFile>,
    old: Seq<Content>,
    cur: Seq<SnapFile>,
    new: Seq<Content>,
    f: SnapFile,
    k: int,
)
    requires
        no_path(prev, f.path@),
        no_path(cur, f.path@),
        no_loose_hash(prev, cur, f.sha256@),
        stands_at(new, f.path@, k),
    ensures
        sorted_changes(prev, cur.push(f)).to_multiset() == sorted_changes(
            prev,
            cur,
        ).to_multiset().insert(
            FileChange::Added { path: f.path, binary: f.binary, size: f.size },
        ),
        removed_total(prev, old, cur.push(f), new) == removed_total(prev, old, cur, new),
        added_total(prev, old, cur.push(f), new) == added_total(prev, old, cur, new) + (
        if f.binary {
            0
        } else {
            text::lines(fs::lossy(new[k].bytes@)).len() as int
        }),
{
    let now = cur.push(f);
    let gone = absent(prev, cur);
    let fresh = absent(cur, prev);
    lemma_with_path_none(prev, f.path@);
    order::lemma_filter_push(cur, f, |g: SnapFile| with_path(prev, g.path@) is None);
    assert(absent(now, prev) == fresh.push(f));
    lemma_absent_unmoved(prev, cur, f);
    lemma_absent_hashes(prev, cur, f.sha256@);
    lemma_moves_fresh_push(gone, fresh, f);
    assert(renames(prev, now) == renames(prev, cur));
    order::lemma_filter_push(cur, f, |g: SnapFile| is_modified(prev, g));
    assert(modified(prev, now) == modified(prev, cur));
    lemma_moved_paths(prev, cur, f.path@);
    order::lemma_filter_push(fresh, f, |g: SnapFile| !moved_to(renames(prev, cur), g.path@));
    assert(additions(prev, now) == additions(prev, cur).push(f));
    assert(removals(prev, now) == removals(prev, cur));
    law_bytes_of_a_file(new, f.path@, k);
    lemma_total_push(additions(prev, cur), f, |g: SnapFile| lines_in(new, g));
    let head = renames(prev, cur).map_values(|p: (SnapFile, SnapFile)| rename_change(p))
        + modified(prev, cur).map_values(|g: SnapFile| modify_change(prev, g)) + additions(
        prev,
        cur,
    ).map_values(|g: SnapFile| add_change(g));
    let xs = additions(prev, cur).map_values(|g: SnapFile| add_change(g));
    let ys = removals(prev, cur).map_values(|g: SnapFile| remove_change(g));
    let x = FileChange::Added { path: f.path, binary: f.binary, size: f.size };
    assert(additions(prev, now).map_values(|g: SnapFile| add_change(g)) =~= xs.push(x));
    assert(changes(prev, now) =~= head.push(x) + ys);
    assert(changes(prev, cur) =~= head + ys);
    lemma_changes_grow(head, ys, x);
    lemma_sorted_changes(prev, cur);
    lemma_sorted_changes(prev, now);
}

proof fn lemma_pair_keeps_the_rest(
    prev: Seq<SnapFile>,
    cur: Seq<SnapFile>,
    p: SnapFile,
    c: SnapFile,
)
    requires
        no_path(prev, p.path@),
        no_path(cur, p.path@),
        c.path@ == p.path@,
    ensures
        renames(prev.push(p), cur.push(c)) == renames(prev, cur),
        additions(prev.push(p), cur.push(c)) == additions(prev, cur),
        removals(prev.push(p), cur.push(c)) == removals(prev, cur),
        modified(prev.push(p), cur.push(c)) == (if p.sha256@ != c.sha256@ {
            modified(prev, cur).push(c)
        } else {
            modified(prev, cur)
        }),
{
    let was = prev.push(p);
    let now = cur.push(c);
    lemma_with_path_push(prev, p, c.path@);
    lemma_with_path_push(cur, c, p.path@);
    order::lemma_filter_push(prev, p, |g: SnapFile| with_path(now, g.path@) is None);
    order::lemma_filter_push(cur, c, |g: SnapFile| with_path(was, g.path@) is None);
    lemma_absent_unmoved(prev, cur, c);
    lemma_absent_unmoved(cur, prev, p);
    assert(absent(was, now) == absent(prev, cur));
    assert(absent(now, was) == absent(cur, prev));
    order::lemma_filter_push(cur, c, |g: SnapFile| is_modified(was, g));
    lemma_modified_unmoved(prev, cur, p);
}

/// One more file that stands in both snaps unchanged changes nothing.
pub proof fn law_one_more_unchanged_file(
    prev: Seq<SnapFile>,
    old: Seq<Content>,
    cur: Seq<SnapFile>,
    new: Seq<Content>,
    p: SnapFile,
    c: SnapFile,
)
    requires
        no_path(prev, p.path@),
        no_path(cur, p.path@),
        c.path@ == p.path@,
        c.sha256@ == p.sha256@,
    ensures
        sorted_changes(prev.push(p), cur.push(c)) == sorted_changes(prev, cur),
        added_total(prev.push(p), old, cur.push(c), new) == added_total(prev, old, cur, new),
        removed_total(prev.push(p), old, cur.push(c), new) == removed_total(prev, old, cur, new),
{
    lemma_pair_keeps_the_rest(prev, cur, p, c);
    lemma_modify_changes_unmoved(prev, cur, p);
}

/// One more file that stands in both snaps with another hash is one more modification with
/// its path and both sizes. What the line diff of its two texts adds and removes is added and
/// removed, nothing where it is binary. Nothing else changes.
pub proof fn law_one_more_modified_file(
    prev: Seq<SnapFile>,
    old: Seq<Content>,
    cur: Seq<SnapFile>,
    new: Seq<Content>,
    p: SnapFile,
    c: SnapFile,
    i: int,
    j: int,
)
    requires
        no_path(prev, p.path@),
        no_path(cur, p.path@),
        c.path@ == p.path@,
        c.sha256@ != p.sha256@,
        stands_at(old, p.path@, i),
        stands_at(new, p.path@, j),
    ensures
        sorted_changes(prev.push(p), cur.push(c)).to_multiset() == sorted_changes(
            prev,
            cur,
        ).to_multiset().insert(
            FileChange::Modified {
                path: c.path,
                binary: c.binary,
                old_size: p.size,
                new_size: c.size,
            },
        ),
        ({
            let ops = diff::line_ops(fs::lossy(old[i].bytes@), fs::lossy(new[j].bytes@));
            &&& added_total(prev.push(p), old, cur.push(c), new) == added_total(prev, old, cur, new)
                + (if c.binary {
                0
            } else {
                diff::added(ops).len() as int
            })
            &&& removed_total(prev.push(p), old, cur.push(c), new) == removed_total(
                prev,
                old,
                cur,
                new,
            ) + (if c.binary {
                0
            } else {
                diff::removed(ops).len() as int
            })
        }),
{
    let was = prev.push(p);
    let now = cur.push(c);
    lemma_pair_keeps_the_rest(prev, cur, p, c);
    lemma_modify_changes_unmoved(prev, cur, p);
    law_bytes_of_a_file(old, p.path@, i);
    law_bytes_of_a_file(new, p.path@, j);
    lemma_total_push(modified(prev, cur), c, |g: SnapFile| lines_gained(old, new, g));
    lemma_total_push(modified(prev, cur), c, |g: SnapFile| lines_lost(old, new, g));
    lemma_with_path_push(prev, p, c.path@);
    let ms = modified(prev, cur).map_values(|g: SnapFile| modify_change(prev, g));
    let rs = renames(prev, cur).map_values(|p: (SnapFile, SnapFile)| rename_change(p));
    let rest = additions(prev, cur).map_values(|g: SnapFile| add_change(g)) + removals(
        prev,
        cur,
    ).map_values(|g: SnapFile| remove_change(g));
    let x = FileChange::Modified {
        path: c.path,
        binary: c.binary,
        old_size: p.size,
        new_size: c.size,
    };
    assert(modified(prev, cur).push(c).map_values(|g: SnapFile| modify_change(was, g))
        =~= modified(prev, cur).map_values(|g: SnapFile| modify_change(was, g)).push(x));
    assert(changes(was, now) =~= (rs + ms).push(x) + rest);
    assert(changes(prev, cur) =~= (rs + ms) + rest);
    lemma_changes_grow(rs + ms, rest, x);
    lemma_sorted_changes(prev, cur);
    lemma_sorted_changes(was, now);
}

/// One more file that is gone from one path and stands under another with the same hash, which
/// no other file that came or went has, is one more move. No line counts for it. Nothing else
/// changes.
pub proof fn law_one_more_moved_file(
    prev: Seq<SnapFile>,
    old: Seq<Content>,
    cur: Seq<SnapFile>,
    new: Seq<Content>,
    p: SnapFile,
    c: SnapFile,
)
    requires
        no_path(prev, p.path@),
        no_path(cur, p.path@),
        no_path(prev, c.path@),
        no_path(cur, c.path@),
        c.path@ != p.path@,
        c.sha256@ == p.sha256@,
        no_loose_hash(prev, cur, p.sha256@),
        no_loose_hash(cur, prev, p.sha256@),
    ensures
        sorted_changes(prev.push(p), cur.push(c)).to_multiset() == sorted_changes(
            prev,
            cur,
        ).to_multiset().insert(
            FileChange::Renamed { from: p.path, to: c.path, binary: p.binary || c.binary },
        ),
        added_total(prev.push(p), old, cur.push(c), new) == added_total(prev, old, cur, new),
        removed_total(prev.push(p), old, cur.push(c), new) == removed_total(prev, old, cur, new),
{
    let was = prev.push(p);
    let now = cur.push(c);
    let gone = absent(prev, cur);
    let fresh = absent(cur, prev);
    lemma_with_path_none(prev, c.path@);
    lemma_with_path_none(cur, p.path@);
    lemma_with_path_push(prev, p, c.path@);
    lemma_with_path_push(cur, c, p.path@);
    order::lemma_filter_push(prev, p, |g: SnapFile| with_path(now, g.path@) is None);
    order::lemma_filter_push(cur, c, |g: SnapFile| with_path(was, g.path@) is None);
    lemma_absent_unmoved(prev, cur, c);
    lemma_absent_unmoved(cur, prev, p);
    assert(absent(was, now) == gone.push(p));
    assert(absent(now, was) == fresh.push(c));
    lemma_absent_hashes(prev, cur, c.sha256@);
    lemma_moves_fresh_push(gone, fresh, c);
    lemma_no_loose_hash(cur, prev, p.sha256@);
    lemma_with_hash_push(fresh, c, p.sha256@);
    assert(gone.push(p).drop_last() =~= gone);
    let pairs = renames(prev, cur);
    assert(renames(was, now) == pairs.push((p, c)));
    lemma_moved_paths(prev, cur, p.path@);
    lemma_moved_paths(prev, cur, c.path@);
    let more = pairs.push((p, c));
    assert forall|q: Seq<char>| #[trigger] moved_from(more, q) == (moved_from(pairs, q) || q
        == p.path@) by {
        lemma_moved_push(pairs, (p, c), q);
    }
    assert forall|q: Seq<char>| #[trigger] moved_to(more, q) == (moved_to(pairs, q) || q
        == c.path@) by {
        lemma_moved_push(pairs, (p, c), q);
    }
    assert forall|i: int| 0 <= i < gone.len() implies !moved_from(more, (#[trigger] gone[i]).path@)
        == !moved_from(pairs, gone[i].path@) by {
        lemma_absent(prev, cur, i);
        let w = choose|w: int| 0 <= w < prev.len() && prev[w] == gone[i];
        assert(prev[w].path@ != p.path@);
    }
    assert forall|i: int| 0 <= i < fresh.len() implies !moved_to(more, (#[trigger] fresh[i]).path@)
        == !moved_to(pairs, fresh[i].path@) by {
        lemma_absent(cur, prev, i);
        let w = choose|w: int| 0 <= w < cur.len() && cur[w] == fresh[i];
        assert(cur[w].path@ != c.path@);
    }
    order::lemma_filter_same(
        gone,
        |g: SnapFile| !moved_from(more, g.path@),
        |g: SnapFile| !moved_from(pairs, g.path@),
    );
    order::lemma_filter_same(
        fresh,
        |g: SnapFile| !moved_to(more, g.path@),
        |g: SnapFile| !moved_to(pairs, g.path@),
    );
    order::lemma_filter_push(gone, p, |g: SnapFile| !moved_from(more, g.path@));
    order::lemma_filter_push(fresh, c, |g: SnapFile| !moved_to(more, g.path@));
    assert(removals(was, now) == removals(prev, cur));
    assert(additions(was, now) == additions(prev, cur));
    order::lemma_filter_push(cur, c, |g: SnapFile| is_modified(was, g));
    lemma_modified_unmoved(prev, cur, p);
    lemma_modify_changes_unmoved(prev, cur, p);
    assert(modified(was, now) == modified(prev, cur));
    let rs = pairs.map_values(|p: (SnapFile, SnapFile)| rename_change(p));
    let rest = modified(prev, cur).map_values(|g: SnapFile| modify_change(prev, g)) + additions(
        prev,
        cur,
    ).map_values(|g: SnapFile| add_change(g)) + removals(prev, cur).map_values(
        |g: SnapFile| remove_change(g),
    );
    let x = FileChange::Renamed { from: p.path, to: c.path, binary: p.binary || c.binary };
    assert(more.map_values(|p: (SnapFile, SnapFile)| rename_change(p)) =~= rs.push(x));
    assert(changes(was, now) =~= rs.push(x) + rest);
    assert(changes(prev, cur) =~= rs + rest);
    lemma_changes_grow(rs, rest, x);
    lemma_sorted_changes(prev, cur);
    lemma_sorted_changes(was, now);
}

proof fn lemma_moved_push(
    pairs: Seq<(SnapFile, SnapFile)>,
    pair: (SnapFile, SnapFile),
    path: Seq<char>,
)
    ensures
        moved_from(pairs.push(pair), path) == (moved_from(pairs, path) || path == pair.0.path@),
        moved_to(pairs.push(pair), path) == (moved_to(pairs, path) || path == pair.1.path@),
{
    let more = pairs.push(pair);
    assert(more[pairs.len() as int] == pair);
    if moved_from(pairs, path) {
        let i = choose|i: int| 0 <= i < pairs.len() && (#[trigger] pairs[i]).0.path@ == path;
        assert(more[i] == pairs[i]);
    }
    if moved_to(pairs, path) {
        let i = choose|i: int| 0 <= i < pairs.len() && (#[trigger] pairs[i]).1.path@ == path;
        assert(more[i] == pairs[i]);
    }
}

/// Turned round, the diff of two snaps that share no hash among the files that came and went,
/// and no path with different hashes, counts as added what it counted as removed, and the
/// other way round.
pub proof fn law_turned_round_swaps_the_lines(
    prev: Seq<SnapFile>,
    old: Seq<Content>,
    cur: Seq<SnapFile>,
    new: Seq<Content>,
)
    requires
        distinct_paths(prev),
        distinct_paths(cur),
        forall|i: int, j: int|
            0 <= i < prev.len() && 0 <= j < cur.len() && no_path(cur, (#[trigger] prev[i]).path@)
                && no_path(prev, (#[trigger] cur[j]).path@) ==> prev[i].sha256@ != cur[j].sha256@,
        forall|i: int, j: int|
            0 <= i < prev.len() && 0 <= j < cur.len() && (#[trigger] prev[i]).path@ == (
            #[trigger] cur[j]).path@ ==> prev[i].sha256@ == cur[j].sha256@,
    ensures
        added_total(prev, old, cur, new) == removed_total(cur, new, prev, old),
        removed_total(prev, old, cur, new) == added_total(cur, new, prev, old),
{
    lemma_no_moves(prev, cur);
    assert forall|i: int, j: int|
        0 <= i < cur.len() && 0 <= j < prev.len() && no_path(prev, (#[trigger] cur[i]).path@)
            && no_path(cur, (#[trigger] prev[j]).path@) implies cur[i].sha256@ != prev[j].sha256@ by {
        assert(prev[j].sha256@ != cur[i].sha256@);
    }
    lemma_no_moves(cur, prev);
    lemma_none_modified(prev, cur);
    assert forall|i: int, j: int|
        0 <= i < cur.len() && 0 <= j < prev.len() && (#[trigger] cur[i]).path@ == (
        #[trigger] prev[j]).path@ implies cur[i].sha256@ == prev[j].sha256@ by {
        assert(prev[j].path@ == cur[i].path@);
    }
    lemma_none_modified(cur, prev);
}

proof fn lemma_none_modified(prev: Seq<SnapFile>, cur: Seq<SnapFile>)
    requires
        forall|i: int, j: int|
            0 <= i < prev.len() && 0 <= j < cur.len() && (#[trigger] prev[i]).path@ == (
            #[trigger] cur[j]).path@ ==> prev[i].sha256@ == cur[j].sha256@,
    ensures
        modified(prev, cur).len() == 0,
{
    assert forall|j: int| 0 <= j < cur.len() implies !is_modified(prev, #[trigger] cur[j]) by {
        lemma_with_path(prev, cur[j].path@);
        if let Some(p) = with_path(prev, cur[j].path@) {
            let w = choose|w: int| 0 <= w < prev.len() && prev[w] == p;
            assert(prev[w].path@ == cur[j].path@);
        }
    }
    order::lemma_filter_none(cur, |f: SnapFile| is_modified(prev, f));
}

proof fn lemma_no_moves(prev: Seq<SnapFile>, cur: Seq<SnapFile>)
    requires
        forall|i: int, j: int|
            0 <= i < prev.len() && 0 <= j < cur.len() && no_path(cur, (#[trigger] prev[i]).path@)
                && no_path(prev, (#[trigger] cur[j]).path@) ==> prev[i].sha256@ != cur[j].sha256@,
    ensures
        renames(prev, cur).len() == 0,
        additions(prev, cur) == absent(cur, prev),
        removals(prev, cur) == absent(prev, cur),
{
    let pairs = renames(prev, cur);
    if pairs.len() > 0 {
        lemma_moves(absent(prev, cur), absent(cur, prev), 0);
        let a = choose|a: int|
            0 <= a < absent(prev, cur).len() && absent(prev, cur)[a] == pairs[0].0;
        let b = choose|b: int|
            0 <= b < absent(cur, prev).len() && absent(cur, prev)[b] == pairs[0].1;
        lemma_absent(prev, cur, a);
        lemma_absent(cur, prev, b);
        let i = choose|i: int| 0 <= i < prev.len() && prev[i] == pairs[0].0;
        let j = choose|j: int| 0 <= j < cur.len() && cur[j] == pairs[0].1;
        assert(prev[i].sha256@ != cur[j].sha256@);
    }
    lemma_filter_all(absent(cur, prev), |f: SnapFile| !moved_to(pairs, f.path@));
    lemma_filter_all(absent(prev, cur), |f: SnapFile| !moved_from(pairs, f.path@));
}

proof fn lemma_filter_all(files: Seq<SnapFile>, keep: spec_fn(SnapFile) -> bool)
    requires
        forall|i: int| 0 <= i < files.len() ==> keep(#[trigger] files[i]),
    ensures
        files.filter(keep) == files,
    decreases files.len(),
{
    reveal(Seq::filter);
    if files.len() > 0 {
        let d = files.drop_last();
        assert forall|i: int| 0 <= i < d.len() implies keep(#[trigger] d[i]) by {
            assert(d[i] == files[i]);
        }
        lemma_filter_all(d, keep);
        assert(keep(files[files.len() - 1]));
        assert(d.push(files.last()) =~= files);
    } else {
        assert(files.filter(keep) =~= files);
    }
}

/// The place of a kind of change in the listing.
pub open spec fn kind_place(c: FileChange) -> int {
    match c {
        FileChange::Added { .. } => 0,
        FileChange::Modified { .. } => 1,
        FileChange::Removed { .. } => 2,
        FileChange::RenamedAndModified { .. } => 3,
        FileChange::Renamed { .. } => 4,
    }
}

/// Additions are listed before modifications, these before removals, and these before moves.
/// Within the first three kinds, changes are listed by path.
pub proof fn law_changes_are_listed_by_kind_and_path(prev: Seq<SnapFile>, cur: Seq<SnapFile>, i: int, j: int)
    requires
        0 <= i < j < sorted_changes(prev, cur).len(),
    ensures
        kind_place(sorted_changes(prev, cur)[i]) <= kind_place(sorted_changes(prev, cur)[j]),
        match (sorted_changes(prev, cur)[i], sorted_changes(prev, cur)[j]) {
            (FileChange::Added { path: a, .. }, FileChange::Added { path: b, .. }) => !text::less(
                b@,
                a@,
            ),
            (
                FileChange::Modified { path: a, .. },
                FileChange::Modified { path: b, .. },
            ) => !text::less(b@, a@),
            (
                FileChange::Removed { path: a, .. },
                FileChange::Removed { path: b, .. },
            ) => !text::less(b@, a@),
            _ => true,
        },
{
    let s = sorted_changes(prev, cur);
    law_changes_are_sorted(prev, cur);
    let a = s[i].key();
    let b = s[j].key();
    assert(!text::less(b, a));
    reveal_strlit("a:");
    reveal_strlit("m:");
    reveal_strlit("r:");
    reveal_strlit("rm:");
    reveal_strlit("rn:");
    reveal_with_fuel(text::less, 3);
    assert(a.skip(1)[0] == a[1]);
    assert(b.skip(1)[0] == b[1]);
    match (s[i], s[j]) {
        (FileChange::Added { path: x, .. }, FileChange::Added { path: y, .. }) => {
            assert(a.skip(1).skip(1) =~= x@ && b.skip(1).skip(1) =~= y@);
        },
        (FileChange::Modified { path: x, .. }, FileChange::Modified { path: y, .. }) => {
            assert(a.skip(1).skip(1) =~= x@ && b.skip(1).skip(1) =~= y@);
        },
        (FileChange::Removed { path: x, .. }, FileChange::Removed { path: y, .. }) => {
            assert(a.skip(1).skip(1) =~= x@ && b.skip(1).skip(1) =~= y@);
        },
        _ => {},
    }
}

proof fn lemma_first_loose(
    files: Seq<SnapFile>,
    keep: spec_fn(SnapFile) -> bool,
    sha256: Seq<char>,
    w: int,
)
    requires
        0 <= w < files.len(),
        keep(files[w]),
        files[w].sha256@ == sha256,
        forall|v: int|
            0 <= v < w ==> !(keep(#[trigger] files[v]) && files[v].sha256@ == sha256),
    ensures
        with_hash(files.filter(keep), sha256) == Some(files[w]),
    decreases files.len(),
{
    let d = files.drop_last();
    let x = files.last();
    order::lemma_filter_push(d, x, keep);
    assert(d.push(x) =~= files);
    if w < d.len() {
        assert forall|v: int| 0 <= v < w implies !(keep(#[trigger] d[v]) && d[v].sha256@ == sha256) by {
            assert(d[v] == files[v]);
        }
        lemma_first_loose(d, keep, sha256, w);
        lemma_with_hash_push(d.filter(keep), x, sha256);
    } else {
        let k = d.filter(keep);
        assert forall|i: int| 0 <= i < k.len() implies (#[trigger] k[i]).sha256@ != sha256 by {
            order::lemma_filter_holds(d, keep, i);
            let v = choose|v: int| 0 <= v < d.len() && d[v] == k[i];
            assert(files[v] == d[v]);
        }
        lemma_with_hash_none(k, sha256);
        lemma_with_hash_push(k, x, sha256);
    }
}

proof fn lemma_moves_has(gone: Seq<SnapFile>, fresh: Seq<SnapFile>, g: SnapFile, f: SnapFile)
    requires
        gone.contains(g),
        with_hash(fresh, g.sha256@) == Some(f),
    ensures
        moves(gone, fresh).contains((g, f)),
    decreases gone.len(),
{
    let d = gone.drop_last();
    let rest = moves(d, fresh);
    let all = moves(gone, fresh);
    if gone.last() == g {
        assert(all[rest.len() as int] == (g, f));
    } else {
        let w = choose|w: int| 0 <= w < gone.len() && gone[w] == g;
        assert(d[w] == g);
        lemma_moves_has(d, fresh, g, f);
        let k = choose|k: int| 0 <= k < rest.len() && rest[k] == (g, f);
        assert(all[k] == (g, f));
    }
}

/// A file that is gone counts as moved where its content turned up under a new path, and then to
/// the first new file of that content; otherwise it counts as removed.
pub proof fn law_gone_file_is_moved_or_removed(prev: Seq<SnapFile>, cur: Seq<SnapFile>, j: int, w: int)
    requires
        0 <= j < prev.len(),
        no_path(cur, prev[j].path@),
    ensures
        0 <= w < cur.len() && no_path(prev, cur[w].path@) && cur[w].sha256@ == prev[j].sha256@ && (
        forall|v: int|
            0 <= v < w ==> !(no_path(prev, (#[trigger] cur[v]).path@) && cur[v].sha256@
                == prev[j].sha256@)) ==> sorted_changes(prev, cur).contains(
            FileChange::Renamed {
                from: prev[j].path,
                to: cur[w].path,
                binary: prev[j].binary || cur[w].binary,
            },
        ),
        no_loose_hash(cur, prev, prev[j].sha256@) && distinct_paths(prev) ==> sorted_changes(
            prev,
            cur,
        ).contains(
            FileChange::Removed {
                path: prev[j].path,
                binary: prev[j].binary,
                size: prev[j].size,
            },
        ),
{
    let gone = absent(prev, cur);
    let fresh = absent(cur, prev);
    let is_gone = |f: SnapFile| with_path(cur, f.path@) is None;
    let is_new = |f: SnapFile| with_path(prev, f.path@) is None;
    let g = prev[j];
    lemma_with_path_none(cur, g.path@);
    assert(prev.contains(g));
    order::lemma_filter_keeps(prev, is_gone, g);
    let all = changes(prev, cur);
    let before = order::rank::<FileChange>();
    let pairs = renames(prev, cur);
    let rs = pairs.map_values(|p: (SnapFile, SnapFile)| rename_change(p));
    let ms = modified(prev, cur).map_values(|f: SnapFile| modify_change(prev, f));
    let xs = additions(prev, cur).map_values(|f: SnapFile| add_change(f));
    let ys = removals(prev, cur).map_values(|f: SnapFile| remove_change(f));
    assert(all == rs + ms + xs + ys);
    if 0 <= w < cur.len() && no_path(prev, cur[w].path@) && cur[w].sha256@ == g.sha256@ && (forall|
        v: int,
    |
        0 <= v < w ==> !(no_path(prev, (#[trigger] cur[v]).path@) && cur[v].sha256@ == g.sha256@)) {
        lemma_with_path_none(prev, cur[w].path@);
        assert forall|v: int| 0 <= v < w implies !(is_new(#[trigger] cur[v]) && cur[v].sha256@
            == g.sha256@) by {
            lemma_with_path_none(prev, cur[v].path@);
        }
        lemma_first_loose(cur, is_new, g.sha256@, w);
        lemma_moves_has(gone, fresh, g, cur[w]);
        let k = choose|k: int| 0 <= k < pairs.len() && pairs[k] == (g, cur[w]);
        let x = FileChange::Renamed {
            from: g.path,
            to: cur[w].path,
            binary: g.binary || cur[w].binary,
        };
        assert(all[k] == x);
        order::lemma_sorted_contains(all, before, x);
    }
    if no_loose_hash(cur, prev, g.sha256@) && distinct_paths(prev) {
        lemma_no_loose_hash(cur, prev, g.sha256@);
        if moved_from(pairs, g.path@) {
            let i = choose|i: int| 0 <= i < pairs.len() && (#[trigger] pairs[i]).0.path@ == g.path@;
            lemma_moves(gone, fresh, i);
            let v = choose|v: int| 0 <= v < gone.len() && gone[v] == pairs[i].0;
            lemma_absent(prev, cur, v);
            let u = choose|u: int| 0 <= u < prev.len() && prev[u] == pairs[i].0;
            if u < j {
                assert(prev[u].path@ != prev[j].path@);
            } else if j < u {
                assert(prev[j].path@ != prev[u].path@);
            }
            assert(pairs[i].0 == g);
            let b = choose|b: int| 0 <= b < fresh.len() && fresh[b] == pairs[i].1;
            lemma_absent_hashes(cur, prev, g.sha256@);
            assert(fresh[b].sha256@ != g.sha256@);
        }
        let stays = |f: SnapFile| !moved_from(pairs, f.path@);
        order::lemma_filter_keeps(gone, stays, g);
        let v = choose|v: int| 0 <= v < removals(prev, cur).len() && removals(prev, cur)[v] == g;
        let x = FileChange::Removed { path: g.path, binary: g.binary, size: g.size };
        assert(all[rs.len() + ms.len() + xs.len() + v] == x);
        order::lemma_sorted_contains(all, before, x);
    }
}

/// A path at which a tree has no file holds nothing.
pub proof fn law_nothing_at_a_missing_path(tree: Seq<Content>, path: Seq<char>)
    requires
        forall|i: int| 0 <= i < tree.len() ==> (#[trigger] tree[i]).path@ != path,
    ensures
        bytes_at(tree, path).len() == 0,
    decreases tree.len(),
{
    if tree.len() > 0 {
        assert(tree[0].path@ != path);
        let rest = tree.skip(1);
        assert forall|i: int| 0 <= i < rest.len() implies (#[trigger] rest[i]).path@ != path by {
            assert(rest[i] == tree[i + 1]);
        }
        law_nothing_at_a_missing_path(rest, path);
    }
}

} // verus!
