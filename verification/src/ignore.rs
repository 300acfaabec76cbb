//! Which files are left out of snaps.
//!
//! Patterns come from built-in defaults, from the `.grsignore` files between the
//! root and the file (deeper ones later, so they override), and from the
//! configuration. Matching itself is the `ignore` crate's.

use crate::order;
use crate::path::{FsPath, PathModel};
use crate::paths;
use crate::path;
use crate::text;
use vstd::prelude::*;

verus! {

/// The `.grsignore` written when a project is first initialized.
pub const DEFAULT_GRSIGNORE: &'static str =
    "# grs defaults\n.git/\nnode_modules/\ntarget/\ndist/\nbuild/\n.grs/\n";

/// `ignore::gitignore::GitignoreBuilder`: a growing list of patterns.
#[verifier::external_type_specification]
#[verifier::external_body]
pub struct ExGitignoreBuilder(::ignore::gitignore::GitignoreBuilder);

/// `ignore::gitignore::Gitignore`: a list of patterns ready for matching.
#[verifier::external_type_specification]
#[verifier::external_body]
pub struct ExGitignore(::ignore::gitignore::Gitignore);

/// Whether a builder is what a new one for the directory becomes when it is handed these
/// lines, in order.
pub uninterp spec fn built_from(
    b: ::ignore::gitignore::GitignoreBuilder,
    root: Seq<char>,
    lines: Seq<Seq<char>>,
) -> bool;

/// Whether a matcher is what a builder for the directory gives after these lines.
pub uninterp spec fn made_of(
    m: ::ignore::gitignore::Gitignore,
    root: Seq<char>,
    lines: Seq<Seq<char>>,
) -> bool;

/// Whether the lines make a matcher.
pub uninterp spec fn builds(root: Seq<char>, lines: Seq<Seq<char>>) -> bool;

/// Whether a matcher made of these lines says that the path is to be ignored.
pub uninterp spec fn ignores(
    root: Seq<char>,
    lines: Seq<Seq<char>>,
    path: Seq<char>,
    is_dir: bool,
) -> bool;

/// `GitignoreBuilder::new`: a builder for a directory that was handed no line yet.
#[verifier::external_body]
fn new_builder(root: &str) -> (r: ::ignore::gitignore::GitignoreBuilder)
    ensures
        built_from(r, root@, Seq::<Seq<char>>::empty()),
{
    ::ignore::gitignore::GitignoreBuilder::new(root)
}

/// `GitignoreBuilder::add_line`: the builder was handed one more line. Whether the builder
/// keeps anything of it is not said: comments, blank lines and what is no pattern leave it
/// as it was. The error for what is no pattern is dropped.
#[verifier::external_body]
fn add_line(b: &mut ::ignore::gitignore::GitignoreBuilder, line: &str)
    ensures
        forall|root: Seq<char>, lines: Seq<Seq<char>>| #[trigger]
            built_from(*old(b), root, lines) ==> built_from(*final(b), root, lines.push(line@)),
{
    let _ = b.add_line(None, line);
}

/// `GitignoreBuilder::build`: whether there is a matcher, and which, follows from the
/// directory and the lines that the builder was handed.
#[verifier::external_body]
fn build(b: &::ignore::gitignore::GitignoreBuilder) -> (r: Option<::ignore::gitignore::Gitignore>)
    ensures
        forall|root: Seq<char>, lines: Seq<Seq<char>>| #[trigger]
            built_from(*b, root, lines) ==> (r is Some <==> builds(root, lines)) && (r is Some
                ==> made_of(r->0, root, lines)),
{
    b.build().ok()
}

/// `Gitignore::matched`, reduced to whether it says "ignore": it follows from the directory
/// and the lines that the matcher was made of, the path, and whether that is a directory.
#[verifier::external_body]
fn matched(m: &::ignore::gitignore::Gitignore, path: &str, is_dir: bool) -> (r: bool)
    ensures
        forall|root: Seq<char>, lines: Seq<Seq<char>>| #[trigger]
            made_of(*m, root, lines) ==> r == ignores(root, lines, path@, is_dir),
{
    m.matched(path, is_dir).is_ignore()
}

/// The text of one `.grsignore` file, with the directory it lies in.
#[derive(Debug)]
pub struct IgnoreFile {
    pub dir: FsPath,
    pub text: String,
}

/// Tells which paths of a project are ignored.
#[derive(Debug)]
pub struct IgnoreMatcher {
    pub root: FsPath,
    pub extra_patterns: Vec<String>,
    /// The `.grsignore` files of the project.
    pub ignore_files: Vec<IgnoreFile>,
}

/// Whether a trimmed line holds a pattern: it is neither empty nor a comment.
pub open spec fn is_pattern(line: Seq<char>) -> bool {
    line.len() > 0 && line[0] != '#'
}

/// The trimmed lines that hold patterns.
pub open spec fn pattern_lines(lines: Seq<Seq<char>>) -> Seq<Seq<char>>
    decreases lines.len(),
{
    if lines.len() == 0 {
        Seq::empty()
    } else if is_pattern(text::trim(lines.last())) {
        pattern_lines(lines.drop_last()).push(text::trim(lines.last()))
    } else {
        pattern_lines(lines.drop_last())
    }
}

/// The patterns of the first file that lies in `dir`.
pub open spec fn dir_patterns(files: Seq<IgnoreFile>, dir: PathModel) -> Seq<Seq<char>>
    decreases files.len(),
{
    if files.len() == 0 {
        Seq::empty()
    } else if files[0].dir@ == dir {
        pattern_lines(text::lines(files[0].text@))
    } else {
        dir_patterns(files.skip(1), dir)
    }
}

/// The patterns of the files in the directories `from` (the first `depth` of its
/// components) down to `from` itself, the upper ones first.
pub open spec fn chain_patterns(files: Seq<IgnoreFile>, from: PathModel, depth: int) -> Seq<
    Seq<char>,
>
    decreases from.parts.len() + 1 - depth,
{
    if depth > from.parts.len() {
        Seq::empty()
    } else {
        dir_patterns(
            files,
            PathModel { absolute: from.absolute, parts: from.parts.take(depth) },
        ) + chain_patterns(files, from, depth + 1)
    }
}

/// Whether the first `k` components of a path are ignored, as a directory where
/// they are not the whole path.
pub open spec fn prefix_ignored(
    root: Seq<char>,
    lines: Seq<Seq<char>>,
    q: PathModel,
    k: int,
) -> bool {
    ignores(
        root,
        lines,
        PathModel { absolute: q.absolute, parts: q.parts.take(k) }.text(),
        k < q.parts.len(),
    )
}

impl IgnoreMatcher {
    /// All patterns that bear on a path, in the order in which they are applied.
    pub open spec fn patterns(self, p: PathModel) -> Seq<Seq<char>> {
        pattern_lines(text::lines(DEFAULT_GRSIGNORE@)) + (match p.parent() {
            Some(dir) => if dir.under(self.root@) {
                chain_patterns(self.ignore_files@, dir, self.root@.parts.len() as int)
            } else {
                Seq::empty()
            },
            None => Seq::empty(),
        }) + text::views(self.extra_patterns@)
    }

    /// Whether a path is ignored: it is `.grs` or lies below it, or a pattern
    /// matches it or one of the directories it lies in.
    pub open spec fn ignored(self, p: PathModel) -> bool {
        let rel = paths::relative_text(self.root@, p);
        let q = path::path_of(rel);
        let root = self.root@.text();
        ||| rel == ".grs"@
        ||| text::has_prefix(rel, ".grs/"@)
        ||| builds(root, self.patterns(p)) && exists|k: int|
            first_prefix(q) <= k <= q.parts.len() && #[trigger] prefix_ignored(root, self.patterns(p), q, k)
    }

    /// A matcher for the project at `root`.
    pub fn new(root: &FsPath, extra_patterns: &Vec<String>, ignore_files: Vec<IgnoreFile>) -> (r:
        IgnoreMatcher)
        ensures
            r.root@ == root@,
            r.extra_patterns@ == extra_patterns@,
            r.ignore_files == ignore_files,
    {
        IgnoreMatcher {
            root: root.copy(),
            extra_patterns: text::copy_all(extra_patterns),
            ignore_files,
        }
    }

    /// The root of the project.
    pub fn root(&self) -> (r: &FsPath)
        ensures
            *r == self.root,
    {
        &self.root
    }

    /// Whether a path, absolute or relative to the root, is ignored.
    pub fn is_ignored(&self, p: &FsPath) -> (r: bool)
        ensures
            r == self.ignored(p@),
    {
        let rel = paths::relativize(&self.root, p);
        let hits = match self.build_matcher(p) {
            Some(m) => {
                let q = FsPath::parse(rel.as_str());
                let hits = prefix_hits(
                    &m,
                    &q,
                    Ghost(self.root@.text()),
                    Ghost(self.patterns(p@)),
                );
                proof {
                    let low = first_prefix(q@);
                    let lines = self.patterns(p@);
                    assert forall|k: int| low <= k <= q@.parts.len() implies hits@[k - low]
                        == #[trigger] prefix_ignored(self.root@.text(), lines, q@, k) by {}
                    if hits@.contains(true) {
                        let i = choose|i: int| 0 <= i < hits@.len() && hits@[i];
                        assert(prefix_ignored(self.root@.text(), lines, q@, i + low));
                    }
                    if exists|k: int|
                        low <= k <= q@.parts.len() && #[trigger] prefix_ignored(
                            self.root@.text(),
                            lines,
                            q@,
                            k,
                        ) {
                        let k = choose|k: int|
                            low <= k <= q@.parts.len() && #[trigger] prefix_ignored(
                                self.root@.text(),
                                lines,
                                q@,
                                k,
                            );
                        assert(hits@[k - low]);
                    }
                }
                hits
            },
            None => Vec::new(),
        };
        decide(rel.as_str(), &hits)
    }

    /// A matcher of all patterns that bear on a path.
    fn build_matcher(&self, p: &FsPath) -> (r: Option<::ignore::gitignore::Gitignore>)
        ensures
            r is Some <==> builds(self.root@.text(), self.patterns(p@)),
            r is Some ==> made_of(r->0, self.root@.text(), self.patterns(p@)),
    {
        let mut b = new_builder(self.root.text().as_str());
        let lines = self.pattern_list(p);
        let mut i: usize = 0;
        assert(text::views(lines@).take(0) =~= Seq::empty());
        while i < lines.len()
            invariant
                i <= lines.len(),
                built_from(b, self.root@.text(), text::views(lines@).take(i as int)),
            decreases lines.len() - i,
        {
            add_line(&mut b, lines[i].as_str());
            assert(text::views(lines@).take(i as int).push(lines@[i as int]@)
                =~= text::views(lines@).take(i + 1));
            i += 1;
        }
        assert(text::views(lines@).take(i as int) =~= text::views(lines@));
        build(&b)
    }

    /// All patterns that bear on a path, in the order in which they are applied.
    pub fn pattern_list(&self, p: &FsPath) -> (r: Vec<String>)
        ensures
            text::views(r@) == self.patterns(p@),
    {
        let mut r: Vec<String> = Vec::new();
        push_patterns(&mut r, DEFAULT_GRSIGNORE);
        let ghost defaults = pattern_lines(text::lines(DEFAULT_GRSIGNORE@));
        assert(text::views(r@) =~= defaults);
        let ghost mut chain: Seq<Seq<char>> = Seq::empty();
        if let Some(dir) = p.parent() {
            let dirs = ancestors_from(&self.root, &dir);
            let mut i: usize = 0;
            let ghost base = self.root@.parts.len() as int;
            while i < dirs.len()
                invariant
                    i <= dirs.len(),
                    base == self.root@.parts.len(),
                    dirs@.len() == (if dir@.under(self.root@) {
                        dir@.parts.len() - base + 1
                    } else {
                        0
                    }),
                    forall|k: int|
                        0 <= k < dirs@.len() ==> (#[trigger] dirs@[k])@ == (PathModel {
                            absolute: dir@.absolute,
                            parts: dir@.parts.take(base + k),
                        }),
                    dir@.under(self.root@) ==> defaults + chain_patterns(
                        self.ignore_files@,
                        dir@,
                        base,
                    ) == text::views(r@) + chain_patterns(self.ignore_files@, dir@, base + i),
                    !dir@.under(self.root@) ==> text::views(r@) == defaults,
                decreases dirs.len() - i,
            {
                let ghost before = text::views(r@);
                push_dir_patterns(&mut r, &self.ignore_files, &dirs[i]);
                let ghost here = dir_patterns(self.ignore_files@, dirs@[i as int]@);
                assert(before + (here + chain_patterns(self.ignore_files@, dir@, base + i + 1))
                    =~= text::views(r@) + chain_patterns(self.ignore_files@, dir@, base + i + 1));
                i += 1;
            }
            proof {
                if dir@.under(self.root@) {
                    chain = chain_patterns(self.ignore_files@, dir@, base);
                    assert(chain_patterns(self.ignore_files@, dir@, base + i) =~= Seq::empty());
                    assert(text::views(r@) =~= defaults + chain);
                }
            }
        }
        assert(text::views(r@) =~= defaults + chain);
        let ghost own = r@;
        let mut extra = text::copy_all(&self.extra_patterns);
        r.append(&mut extra);
        assert(text::views(r@) =~= text::views(own) + text::views(self.extra_patterns@));
        r
    }

    /// Which of the files found under the root belong to the project, in the order
    /// found.
    pub fn files(&self, found: &Vec<FsPath>) -> (r: Vec<FsPath>)
        ensures
            paths::models(r@) == paths::models(found@).filter(|p: PathModel| self.keeps(p)),
    {
        let mut r: Vec<FsPath> = Vec::new();
        let mut i: usize = 0;
        let ghost keep = |p: PathModel| self.keeps(p);
        assert(paths::models(found@).take(0) =~= Seq::empty());
        assert(paths::models(r@) =~= paths::models(found@).take(0).filter(keep)) by {
            reveal(Seq::filter);
        }
        while i < found.len()
            invariant
                i <= found.len(),
                keep == (|p: PathModel| self.keeps(p)),
                paths::models(r@) == paths::models(found@).take(i as int).filter(keep),
            decreases found.len() - i,
        {
            let ghost now = paths::models(found@).take(i + 1);
            let ghost before = r@;
            assert(now.drop_last() =~= paths::models(found@).take(i as int));
            assert(now.last() == found@[i as int]@);
            if self.is_kept(&found[i]) {
                r.push(found[i].copy());
                assert(paths::models(r@) =~= paths::models(before).push(now.last()));
            }
            proof {
                reveal(Seq::filter);
                assert(paths::models(r@) == now.filter(keep));
            }
            i += 1;
        }
        assert(paths::models(found@).take(i as int) =~= paths::models(found@));
        r
    }

    /// Whether a file found under the root belongs to the project: it is not
    /// ignored and lies in no directory that is never entered.
    pub open spec fn keeps(self, p: PathModel) -> bool {
        let q = p.relative_to(self.root@);
        &&& !self.ignored(p)
        &&& forall|k: int| 0 <= k < q.parts.len() - 1 ==> !pruned(#[trigger] q.parts[k])
    }

    /// Whether a file found under the root belongs to the project.
    pub fn is_kept(&self, p: &FsPath) -> (r: bool)
        ensures
            r == self.keeps(p@),
    {
        let q = p.strip(&self.root);
        let mut k: usize = 0;
        while k < q.parts.len() && k < q.parts.len() - 1
            invariant
                k <= q.parts.len(),
                q@ == p@.relative_to(self.root@),
                forall|i: int| 0 <= i < k ==> !pruned(#[trigger] q@.parts[i]),
            decreases q.parts.len() - k,
        {
            if prunes_dir(q.parts[k].as_str()) {
                assert(pruned(q@.parts[k as int]));
                return false;
            }
            k += 1;
        }
        !self.is_ignored(p)
    }
}

/// The names of directories that a walk never enters.
pub open spec fn pruned(name: Seq<char>) -> bool {
    ||| name == "target"@
    ||| name == "node_modules"@
    ||| name == "dist"@
    ||| name == "build"@
    ||| name == ".git"@
    ||| name == ".grs"@
}

/// Whether a walk does not enter directories of this name.
pub fn prunes_dir(name: &str) -> (r: bool)
    ensures
        r == pruned(name@),
{
    text::same(name, "target") || text::same(name, "node_modules") || text::same(name, "dist")
        || text::same(name, "build") || text::same(name, ".git") || text::same(name, ".grs")
}

/// The directories from `stop` down to `from`, where `from` is `stop` or lies below
/// it; none otherwise.
fn ancestors_from(stop: &FsPath, from: &FsPath) -> (r: Vec<FsPath>)
    ensures
        !from@.under(stop@) ==> r@.len() == 0,
        from@.under(stop@) ==> r@.len() == from@.parts.len() - stop@.parts.len() + 1,
        forall|k: int|
            0 <= k < r@.len() ==> (#[trigger] r@[k])@ == (PathModel {
                absolute: from@.absolute,
                parts: from@.parts.take(stop@.parts.len() + k),
            }),
{
    let mut r: Vec<FsPath> = Vec::new();
    if !from.is_under(stop) {
        return r;
    }
    let mut cur = stop.copy();
    let mut i: usize = stop.parts.len();
    assert(cur@ =~= PathModel { absolute: from@.absolute, parts: from@.parts.take(i as int) });
    while i < from.parts.len()
        invariant
            stop.parts.len() <= i <= from.parts.len(),
            cur@ == (PathModel { absolute: from@.absolute, parts: from@.parts.take(i as int) }),
            r@.len() == i - stop@.parts.len(),
            forall|k: int|
                0 <= k < r@.len() ==> (#[trigger] r@[k])@ == (PathModel {
                    absolute: from@.absolute,
                    parts: from@.parts.take(stop@.parts.len() + k),
                }),
        decreases from.parts.len() - i,
    {
        let next = cur.join(from.parts[i].as_str());
        r.push(cur);
        cur = next;
        i += 1;
        assert(cur@ =~= PathModel { absolute: from@.absolute, parts: from@.parts.take(i as int) });
    }
    r.push(cur);
    r
}

/// The fewest components of a path that are tested by themselves: the root of an
/// absolute path counts as a component of its own.
pub open spec fn first_prefix(q: PathModel) -> int {
    if q.absolute {
        0
    } else {
        1
    }
}

/// For each prefix of a path, the shortest first, whether the matcher ignores it.
fn prefix_hits(
    m: &::ignore::gitignore::Gitignore,
    q: &FsPath,
    Ghost(root): Ghost<Seq<char>>,
    Ghost(lines): Ghost<Seq<Seq<char>>>,
) -> (r: Vec<bool>)
    requires
        made_of(*m, root, lines),
    ensures
        r@.len() == q@.parts.len() + 1 - first_prefix(q@),
        forall|k: int|
            first_prefix(q@) <= k <= q@.parts.len() ==> r@[k - first_prefix(q@)]
                == #[trigger] prefix_ignored(root, lines, q@, k),
{
    let mut r: Vec<bool> = Vec::new();
    let n: usize = q.parts.len();
    let ghost low = first_prefix(q@);
    let mut acc = FsPath { absolute: q.absolute, parts: Vec::new() };
    assert(acc@ =~= PathModel { absolute: q@.absolute, parts: q@.parts.take(0) });
    if q.absolute {
        r.push(matched(m, acc.text().as_str(), 0 < n));
        assert(r@[0] == prefix_ignored(root, lines, q@, 0));
    }
    let mut i: usize = 0;
    while i < n
        invariant
            i <= n == q.parts.len(),
            made_of(*m, root, lines),
            low == first_prefix(q@),
            acc@ == (PathModel { absolute: q@.absolute, parts: q@.parts.take(i as int) }),
            r@.len() == i + 1 - low,
            forall|k: int|
                low <= k <= i ==> r@[k - low] == #[trigger] prefix_ignored(root, lines, q@, k),
        decreases n - i,
    {
        acc = acc.join(q.parts[i].as_str());
        i += 1;
        assert(acc@ =~= PathModel { absolute: q@.absolute, parts: q@.parts.take(i as int) });
        r.push(matched(m, acc.text().as_str(), i < n));
    }
    r
}

/// Whether a path, given relative to the root, is ignored: it is `.grs` or lies
/// below it, or the patterns ignore one of its prefixes.
pub fn decide(rel: &str, hits: &Vec<bool>) -> (r: bool)
    ensures
        r == (rel@ == ".grs"@ || text::has_prefix(rel@, ".grs/"@) || hits@.contains(true)),
{
    if text::same(rel, ".grs") || text::starts_with(rel, ".grs/") {
        return true;
    }
    let mut i: usize = 0;
    while i < hits.len()
        invariant
            i <= hits.len(),
            forall|k: int| 0 <= k < i ==> !hits@[k],
        decreases hits.len() - i,
    {
        if hits[i] {
            assert(hits@.contains(true));
            return true;
        }
        i += 1;
    }
    false
}

/// Appends the lines of a text that hold patterns.
fn push_patterns(r: &mut Vec<String>, t: &str)
    ensures
        text::views(final(r)@) == text::views(old(r)@) + pattern_lines(text::lines(t@)),
{
    let ls = text::lines_of(t);
    let mut i: usize = 0;
    assert(text::views(ls@).take(0) =~= Seq::empty());
    assert(text::views(r@) + pattern_lines(text::views(ls@).take(0)) =~= text::views(r@));
    while i < ls.len()
        invariant
            i <= ls.len(),
            text::views(r@) == text::views(old(r)@) + pattern_lines(
                text::views(ls@).take(i as int),
            ),
        decreases ls.len() - i,
    {
        let ghost now = text::views(ls@).take(i + 1);
        let ghost before = r@;
        assert(now.drop_last() =~= text::views(ls@).take(i as int));
        assert(now.last() == ls@[i as int]@);
        let line = text::trimmed(ls[i].as_str());
        let cs = text::chars_of(line.as_str());
        if cs.len() > 0 && cs[0] != '#' {
            r.push(line);
            assert(text::views(r@) =~= text::views(before).push(line@));
        }
        assert(text::views(r@) =~= text::views(old(r)@) + pattern_lines(now));
        i += 1;
    }
    assert(text::views(ls@).take(i as int) =~= text::views(ls@));
}

/// Appends the patterns of the first file that lies in `dir`.
fn push_dir_patterns(r: &mut Vec<String>, files: &Vec<IgnoreFile>, dir: &FsPath)
    ensures
        text::views(final(r)@) == text::views(old(r)@) + dir_patterns(files@, dir@),
{
    let mut i: usize = 0;
    assert(files@.skip(0) =~= files@);
    while i < files.len()
        invariant
            i <= files.len(),
            r@ == old(r)@,
            dir_patterns(files@, dir@) == dir_patterns(files@.skip(i as int), dir@),
        decreases files.len() - i,
    {
        assert(files@.skip(i as int)[0] == files@[i as int]);
        if files[i].dir.same(dir) {
            push_patterns(r, files[i].text.as_str());
            return;
        }
        assert(files@.skip(i as int).skip(1) =~= files@.skip(i + 1));
        i += 1;
    }
    assert(text::views(r@) + Seq::<Seq<char>>::empty() =~= text::views(r@));
}

/// The directory of the library itself is ignored with everything below it, whatever the
/// patterns say.
pub proof fn law_grs_is_ignored(m: IgnoreMatcher, p: PathModel)
    requires
        p.under(m.root@.child(".grs"@)),
    ensures
        m.ignored(p),
        !m.keeps(p),
{
    let root = m.root@;
    let n = root.parts.len() as int;
    let dir = root.child(".grs"@);
    assert(p.parts.take(n) =~= root.parts) by {
        assert(p.parts.take(n + 1).take(n) =~= p.parts.take(n));
        assert(dir.parts.take(n) =~= root.parts);
    }
    let r = p.relative_to(root).parts;
    assert(r[0] == p.parts[n]);
    assert(p.parts.take(n + 1)[n] == ".grs"@);
    assert(r[0] == ".grs"@);
    let rel = paths::relative_text(root, p);
    let plain = text::joined(r, "/"@);
    reveal_strlit(".grs");
    reveal_strlit("/");
    reveal_strlit(".grs/");
    if r.len() == 1 {
        assert(plain == ".grs"@);
        assert(rel =~= ".grs"@);
    } else {
        text::lemma_joined_head(r, "/"@);
        assert(plain.take(5) =~= ".grs/"@);
        assert forall|i: int| 0 <= i < 5 implies rel[i] == ".grs/"@[i] by {
            assert(plain[i] == plain.take(5)[i]);
        }
        assert(rel.take(5) =~= ".grs/"@);
    }
}

/// The lines of a file that count: trimmed, in their order, all that are not empty and do not
/// begin with `#`. A line that takes something back in, with a `!`, counts like any other.
pub proof fn law_every_line_counts(lines: Seq<Seq<char>>)
    ensures
        pattern_lines(lines) == lines.map_values(|l: Seq<char>| text::trim(l)).filter(
            |l: Seq<char>| l.len() > 0 && l[0] != '#',
        ),
    decreases lines.len(),
{
    reveal(Seq::filter);
    let trim = |l: Seq<char>| text::trim(l);
    let keep = |l: Seq<char>| l.len() > 0 && l[0] != '#';
    if lines.len() > 0 {
        law_every_line_counts(lines.drop_last());
        assert(lines.map_values(trim).drop_last() =~= lines.drop_last().map_values(trim));
        assert(lines.map_values(trim).last() == text::trim(lines.last()));
    } else {
        assert(lines.map_values(trim) =~= Seq::empty());
        assert(pattern_lines(lines) =~= lines.map_values(trim).filter(keep));
    }
}

/// Whether line `n` of the first `.grsignore` in a directory is this pattern, once trimmed.
pub open spec fn has_line(files: Seq<IgnoreFile>, dir: PathModel, f: int, n: int, line: Seq<char>) -> bool {
    &&& 0 <= f < files.len()
    &&& files[f].dir@ == dir
    &&& forall|i: int| 0 <= i < f ==> (#[trigger] files[i]).dir@ != dir
    &&& 0 <= n < text::lines(files[f].text@).len()
    &&& line == text::trim(text::lines(files[f].text@)[n])
    &&& line.len() > 0
    &&& line[0] != '#'
}

/// The directory of the first `depth` components of a path.
pub open spec fn upper(dir: PathModel, depth: int) -> PathModel {
    PathModel { absolute: dir.absolute, parts: dir.parts.take(depth) }
}

proof fn lemma_dir_patterns(files: Seq<IgnoreFile>, dir: PathModel, f: int)
    requires
        0 <= f < files.len(),
        files[f].dir@ == dir,
        forall|i: int| 0 <= i < f ==> (#[trigger] files[i]).dir@ != dir,
    ensures
        dir_patterns(files, dir) == pattern_lines(text::lines(files[f].text@)),
    decreases f,
{
    if f > 0 {
        assert(files[0].dir@ != dir);
        let rest = files.skip(1);
        assert forall|i: int| 0 <= i < f - 1 implies (#[trigger] rest[i]).dir@ != dir by {
            assert(rest[i] == files[i + 1]);
        }
        assert(rest[f - 1] == files[f]);
        lemma_dir_patterns(rest, dir, f - 1);
    }
}

proof fn lemma_line_is_pattern(lines: Seq<Seq<char>>, n: int)
    requires
        0 <= n < lines.len(),
        text::trim(lines[n]).len() > 0,
        text::trim(lines[n])[0] != '#',
    ensures
        pattern_lines(lines).contains(text::trim(lines[n])),
{
    law_every_line_counts(lines);
    let all = lines.map_values(|l: Seq<char>| text::trim(l));
    assert(all[n] == text::trim(lines[n]));
    order::lemma_filter_keeps(all, |l: Seq<char>| l.len() > 0 && l[0] != '#', all[n]);
}

proof fn lemma_has_line(files: Seq<IgnoreFile>, dir: PathModel, f: int, n: int, line: Seq<char>)
    requires
        has_line(files, dir, f, n, line),
    ensures
        dir_patterns(files, dir).contains(line),
{
    lemma_dir_patterns(files, dir, f);
    lemma_line_is_pattern(text::lines(files[f].text@), n);
}

/// The patterns of one directory stand together in the chain, behind those of the directories
/// above it that are part of the chain.
proof fn lemma_chain_has(
    files: Seq<IgnoreFile>,
    from: PathModel,
    depth: int,
    d: int,
) -> (at: int)
    requires
        0 <= depth <= d <= from.parts.len(),
    ensures
        0 <= at,
        at + dir_patterns(files, upper(from, d)).len() <= chain_patterns(files, from, depth).len(),
        forall|i: int|
            0 <= i < dir_patterns(files, upper(from, d)).len() ==> #[trigger] dir_patterns(
                files,
                upper(from, d),
            )[i] == chain_patterns(files, from, depth)[at + i],
        depth < d ==> at >= dir_patterns(files, upper(from, depth)).len(),
    decreases d - depth,
{
    let here = dir_patterns(files, upper(from, depth));
    let rest = chain_patterns(files, from, depth + 1);
    assert(chain_patterns(files, from, depth) == here + rest);
    if depth == d {
        assert forall|i: int| 0 <= i < here.len() implies #[trigger] here[i] == (here + rest)[i] by {}
        0
    } else {
        let at = lemma_chain_has(files, from, depth + 1, d);
        let mine = dir_patterns(files, upper(from, d));
        assert forall|i: int| 0 <= i < mine.len() implies #[trigger] mine[i] == (here + rest)[
            here.len() + at + i
        ] by {
            assert(mine[i] == rest[at + i]);
        }
        here.len() + at
    }
}

/// Every line that counts of a `.grsignore` between the root and a path bears on the path. It
/// comes behind the built-in defaults and before the patterns of the configuration.
pub proof fn law_every_ignore_file_bears_on_the_path(
    m: IgnoreMatcher,
    p: PathModel,
    d: int,
    f: int,
    n: int,
    line: Seq<char>,
)
    requires
        p.parts.len() > 0,
        p.under(m.root@),
        m.root@.parts.len() <= d < p.parts.len(),
        has_line(m.ignore_files@, upper(p, d), f, n, line),
    ensures
        exists|i: int|
            pattern_lines(text::lines(DEFAULT_GRSIGNORE@)).len() <= i < m.patterns(p).len()
                - m.extra_patterns@.len() && #[trigger] m.patterns(p)[i] == line,
{
    let dir = p.parent()->0;
    let root = m.root@.parts.len() as int;
    lemma_parent_under(p, m.root@);
    lemma_has_line(m.ignore_files@, upper(p, d), f, n, line);
    assert(upper(dir, d) =~= upper(p, d)) by {
        assert(dir.parts.take(d) =~= p.parts.take(d));
    }
    let at = lemma_chain_has(m.ignore_files@, dir, root, d);
    let mine = dir_patterns(m.ignore_files@, upper(dir, d));
    let w = choose|w: int| 0 <= w < mine.len() && mine[w] == line;
    let defaults = pattern_lines(text::lines(DEFAULT_GRSIGNORE@));
    assert(mine[w] == chain_patterns(m.ignore_files@, dir, root)[at + w]);
    assert(m.patterns(p)[defaults.len() + at + w] == line);
}

proof fn lemma_parent_under(p: PathModel, root: PathModel)
    requires
        p.parts.len() > root.parts.len(),
        p.under(root),
    ensures
        p.parent()->0.under(root),
        p.parent()->0.parts.len() == p.parts.len() - 1,
{
    assert(p.parts.drop_last().take(root.parts.len() as int) =~= p.parts.take(
        root.parts.len() as int,
    ));
}

/// The lines of a deeper `.grsignore` come behind those of an upper one, so that they
/// override them.
pub proof fn law_deeper_lines_come_later(
    m: IgnoreMatcher,
    p: PathModel,
    d1: int,
    f1: int,
    n1: int,
    line1: Seq<char>,
    d2: int,
    f2: int,
    n2: int,
    line2: Seq<char>,
)
    requires
        p.under(m.root@),
        m.root@.parts.len() <= d1 < d2 < p.parts.len(),
        has_line(m.ignore_files@, upper(p, d1), f1, n1, line1),
        has_line(m.ignore_files@, upper(p, d2), f2, n2, line2),
    ensures
        exists|i: int, j: int|
            0 <= i < j < m.patterns(p).len() && #[trigger] m.patterns(p)[i] == line1
                && #[trigger] m.patterns(p)[j] == line2,
{
    let dir = p.parent()->0;
    let root = m.root@.parts.len() as int;
    let files = m.ignore_files@;
    lemma_parent_under(p, m.root@);
    lemma_has_line(files, upper(p, d1), f1, n1, line1);
    lemma_has_line(files, upper(p, d2), f2, n2, line2);
    assert(upper(dir, d1) =~= upper(p, d1)) by {
        assert(dir.parts.take(d1) =~= p.parts.take(d1));
    }
    assert(upper(dir, d2) =~= upper(p, d2)) by {
        assert(dir.parts.take(d2) =~= p.parts.take(d2));
    }
    let one = dir_patterns(files, upper(dir, d1));
    let two = dir_patterns(files, upper(dir, d2));
    let a = lemma_chain_splits(files, dir, root, d1);
    let b = lemma_chain_has(files, dir, d1, d2);
    let w1 = choose|w: int| 0 <= w < one.len() && one[w] == line1;
    let w2 = choose|w: int| 0 <= w < two.len() && two[w] == line2;
    let below = chain_patterns(files, dir, d1);
    let chain = chain_patterns(files, dir, root);
    assert(below == one + chain_patterns(files, dir, d1 + 1));
    assert(below[w1] == line1);
    assert(two[w2] == below[b + w2]);
    assert(chain[a + w1] == below[w1]);
    assert(chain[a + b + w2] == below[b + w2]);
    let defaults = pattern_lines(text::lines(DEFAULT_GRSIGNORE@));
    assert(m.patterns(p)[defaults.len() + a + w1] == line1);
    assert(m.patterns(p)[defaults.len() + a + b + w2] == line2);
}

proof fn lemma_chain_splits(files: Seq<IgnoreFile>, from: PathModel, depth: int, d: int) -> (at: int)
    requires
        0 <= depth <= d <= from.parts.len(),
    ensures
        0 <= at,
        chain_patterns(files, from, depth).len() == at + chain_patterns(files, from, d).len(),
        forall|i: int|
            0 <= i < chain_patterns(files, from, d).len() ==> #[trigger] chain_patterns(
                files,
                from,
                d,
            )[i] == chain_patterns(files, from, depth)[at + i],
    decreases d - depth,
{
    if depth == d {
        0
    } else {
        let here = dir_patterns(files, upper(from, depth));
        let rest = chain_patterns(files, from, depth + 1);
        let low = chain_patterns(files, from, d);
        assert(chain_patterns(files, from, depth) == here + rest);
        let at = lemma_chain_splits(files, from, depth + 1, d);
        assert forall|i: int| 0 <= i < low.len() implies #[trigger] low[i] == (here + rest)[
            here.len() + at + i
        ] by {
            assert(low[i] == rest[at + i]);
        }
        here.len() + at
    }
}

/// The patterns of the configuration bear on every path, behind all others and in their order.
pub proof fn law_configured_patterns_come_last(m: IgnoreMatcher, p: PathModel, i: int)
    requires
        0 <= i < m.extra_patterns@.len(),
    ensures
        m.patterns(p).len() >= m.extra_patterns@.len(),
        m.patterns(p)[m.patterns(p).len() - m.extra_patterns@.len() + i] == m.extra_patterns@[i]@,
{
}

/// The built-in defaults bear on every path, before all other patterns.
pub proof fn law_defaults_come_first(m: IgnoreMatcher, p: PathModel, n: int)
    requires
        0 <= n < text::lines(DEFAULT_GRSIGNORE@).len(),
        text::trim(text::lines(DEFAULT_GRSIGNORE@)[n]).len() > 0,
        text::trim(text::lines(DEFAULT_GRSIGNORE@)[n])[0] != '#',
    ensures
        exists|i: int|
            0 <= i < pattern_lines(text::lines(DEFAULT_GRSIGNORE@)).len() && i < m.patterns(p).len()
                && #[trigger] m.patterns(p)[i] == text::trim(text::lines(DEFAULT_GRSIGNORE@)[n]),
{
    let lines = text::lines(DEFAULT_GRSIGNORE@);
    let defaults = pattern_lines(lines);
    lemma_line_is_pattern(lines, n);
    let w = choose|w: int| 0 <= w < defaults.len() && defaults[w] == text::trim(lines[n]);
    assert(m.patterns(p)[w] == defaults[w]);
}

/// A path is ignored where the patterns that bear on it ignore it, or a directory that it lies
/// in, and otherwise only where it is `.grs` or lies below it.
pub proof fn law_ignored_with_its_directories(m: IgnoreMatcher, p: PathModel)
    requires
        paths::relative_text(m.root@, p) != ".grs"@,
        !text::has_prefix(paths::relative_text(m.root@, p), ".grs/"@),
        !path::path_of(paths::relative_text(m.root@, p)).absolute,
    ensures
        ({
            let q = path::path_of(paths::relative_text(m.root@, p));
            let root = m.root@.text();
            m.ignored(p) <==> builds(root, m.patterns(p)) && exists|k: int|
                1 <= k <= q.parts.len() && ignores(
                    root,
                    m.patterns(p),
                    (#[trigger] upper(q, k)).text(),
                    k < q.parts.len(),
                )
        }),
{
    let rel = paths::relative_text(m.root@, p);
    let q = path::path_of(rel);
    let root = m.root@.text();
    let lines = m.patterns(p);
    if exists|k: int|
        1 <= k <= q.parts.len() && ignores(
            root,
            lines,
            (#[trigger] upper(q, k)).text(),
            k < q.parts.len(),
        ) {
        let k = choose|k: int|
            1 <= k <= q.parts.len() && ignores(
                root,
                lines,
                (#[trigger] upper(q, k)).text(),
                k < q.parts.len(),
            );
        assert(prefix_ignored(root, lines, q, k));
    }
    if m.ignored(p) {
        let k = choose|k: int|
            first_prefix(q) <= k <= q.parts.len() && #[trigger] prefix_ignored(root, lines, q, k);
        assert(ignores(root, lines, upper(q, k).text(), k < q.parts.len()));
    }
}

/// A file belongs to the project exactly if it is not ignored and lies in no directory that is
/// never entered.
pub proof fn law_kept_files(m: IgnoreMatcher, p: PathModel)
    requires
        p.under(m.root@),
    ensures
        m.keeps(p) <==> !m.ignored(p) && forall|k: int|
            m.root@.parts.len() <= k < p.parts.len() - 1 ==> {
                let name = #[trigger] p.parts[k];
                &&& name != "target"@
                &&& name != "node_modules"@
                &&& name != "dist"@
                &&& name != "build"@
                &&& name != ".git"@
                &&& name != ".grs"@
            },
{
    let q = p.relative_to(m.root@);
    let n = m.root@.parts.len() as int;
    if m.keeps(p) {
        assert forall|k: int| n <= k < p.parts.len() - 1 implies !pruned(#[trigger] p.parts[k]) by {
            assert(q.parts[k - n] == p.parts[k]);
        }
    } else if !m.ignored(p) {
        let k = choose|k: int| 0 <= k < q.parts.len() - 1 && pruned(#[trigger] q.parts[k]);
        assert(p.parts[n + k] == q.parts[k]);
    }
}

} // verus!
