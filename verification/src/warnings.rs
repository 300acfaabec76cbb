//! Warnings at the start. A project in a git repository that does not ignore `.grs/` will
//! have its snaps committed.

use crate::text;
use vstd::prelude::*;

verus! {

/// The `.gitignore` of a project as it was found.
#[derive(Debug)]
pub enum GitignoreFile {
    /// There is no such file.
    Missing,
    /// The file could not be read.
    Unreadable,
    Text(String),
}

/// `s` without the slashes at its end.
pub open spec fn no_slash_end(s: Seq<char>) -> Seq<char>
    decreases s.len(),
{
    if s.len() > 0 && s.last() == '/' {
        no_slash_end(s.drop_last())
    } else {
        s
    }
}

/// `s` without the slashes at its start.
pub open spec fn no_slash_start(s: Seq<char>) -> Seq<char>
    decreases s.len(),
{
    if s.len() > 0 && s[0] == '/' {
        no_slash_start(s.skip(1))
    } else {
        s
    }
}

/// Whether a line of a `.gitignore` is a pattern for `.grs`: neither blank nor a comment,
/// and up to slashes around it the name, alone or behind a directory.
pub open spec fn names_grs(line: Seq<char>) -> bool {
    let t = text::trim_start(line);
    let p = no_slash_start(no_slash_end(t));
    &&& t.len() > 0
    &&& t[0] != '#'
    &&& p == ".grs"@ || p == "**/.grs"@ || text::has_suffix(p, "/.grs"@)
}

/// Whether a `.gitignore` has a pattern for `.grs`.
pub open spec fn has_grs_entry(t: Seq<char>) -> bool {
    exists|i: int| 0 <= i < text::lines(t).len() && names_grs(#[trigger] text::lines(t)[i])
}

fn line_names_grs(line: &str) -> (r: bool)
    ensures
        r == names_grs(line@),
{
    let v = text::chars_of(line);
    let mut i: usize = 0;
    assert(v@.skip(0) =~= v@);
    while i < v.len() && text::is_space(v[i])
        invariant
            i <= v.len(),
            text::trim_start(v@) == text::trim_start(v@.skip(i as int)),
        decreases v.len() - i,
    {
        assert(v@.skip(i as int).skip(1) =~= v@.skip(i + 1));
        i += 1;
    }
    let ghost t = text::trim_start(v@);
    assert(t == v@.skip(i as int));
    if i == v.len() || v[i] == '#' {
        return false;
    }
    let mut j: usize = v.len();
    assert(v@.subrange(i as int, j as int) =~= t);
    while i < j && v[j - 1] == '/'
        invariant
            i <= j <= v.len(),
            no_slash_end(t) == no_slash_end(v@.subrange(i as int, j as int)),
        decreases j,
    {
        assert(v@.subrange(i as int, j as int).drop_last() =~= v@.subrange(i as int, j - 1));
        j -= 1;
    }
    let ghost e = no_slash_end(t);
    assert(e == v@.subrange(i as int, j as int));
    while i < j && v[i] == '/'
        invariant
            i <= j <= v.len(),
            no_slash_start(e) == no_slash_start(v@.subrange(i as int, j as int)),
        decreases j - i,
    {
        assert(v@.subrange(i as int, j as int).skip(1) =~= v@.subrange(i + 1, j as int));
        i += 1;
    }
    let p = text::string_between(&v, i, j);
    text::same(p.as_str(), ".grs") || text::same(p.as_str(), "**/.grs") || text::ends_with(
        p.as_str(),
        "/.grs",
    )
}

/// Whether a `.gitignore` has a pattern for `.grs`.
pub fn has_grs_ignore_entry(gitignore_text: &str) -> (r: bool)
    ensures
        r == has_grs_entry(gitignore_text@),
{
    let lines = text::lines_of(gitignore_text);
    let ghost all = text::lines(gitignore_text@);
    let mut i: usize = 0;
    while i < lines.len()
        invariant
            i <= lines.len(),
            all == text::lines(gitignore_text@),
            all == text::views(lines@),
            forall|k: int| 0 <= k < i ==> !names_grs(#[trigger] all[k]),
        decreases lines.len() - i,
    {
        assert(all[i as int] == lines@[i as int]@);
        if line_names_grs(lines[i].as_str()) {
            return true;
        }
        i += 1;
    }
    false
}

/// What is said where there is no `.gitignore`.
pub const NO_GITIGNORE: &'static str =
    "this is a git repo, but there's no .gitignore — your .grs/ folder will be committed.";

/// What is said where the `.gitignore` leaves `.grs/` in.
pub const NOT_IGNORED: &'static str =
    "this is a git repo, but .grs/ is not in .gitignore — your session data will be committed.";

/// What there is to warn about.
pub open spec fn warning_of(is_git: bool, found: GitignoreFile) -> Option<Seq<char>> {
    if !is_git {
        None
    } else {
        match found {
            GitignoreFile::Missing => Some(NO_GITIGNORE@),
            GitignoreFile::Unreadable => None,
            GitignoreFile::Text(t) => if has_grs_entry(t@) {
                None
            } else {
                Some(NOT_IGNORED@)
            },
        }
    }
}

/// What there is to warn about in a project, which is a git repository or not.
pub fn check_gitignore(is_git: bool, found: &GitignoreFile) -> (r: Option<String>)
    ensures
        text::opt_view(r) == warning_of(is_git, *found),
{
    if !is_git {
        return None;
    }
    match found {
        GitignoreFile::Missing => Some(NO_GITIGNORE.to_owned()),
        GitignoreFile::Unreadable => None,
        GitignoreFile::Text(t) => if has_grs_ignore_entry(t.as_str()) {
            None
        } else {
            Some(NOT_IGNORED.to_owned())
        },
    }
}

/// What is printed of a warning, and once only: where `warned` before, nothing.
pub open spec fn printed_warning(warning: Option<Seq<char>>, warned: bool) -> Option<Seq<char>> {
    match warning {
        Some(w) => if warned {
            None
        } else {
            Some(
                "\n\x1b[33mWarning:\x1b[0m "@ + w
                    + "\n\x1b[33mHint:\x1b[0m add a line to .gitignore:\n    .grs/\n\n"@,
            )
        },
        None => None,
    }
}

/// What to print at the start of a project. After it was printed, the project is marked as
/// warned.
pub fn check_and_warn(is_git: bool, found: &GitignoreFile, warned: bool) -> (r: Option<String>)
    ensures
        text::opt_view(r) == printed_warning(warning_of(is_git, *found), warned),
{
    match check_gitignore(is_git, found) {
        Some(w) => if warned {
            None
        } else {
            Some(
                text::concat3(
                    "\n\x1b[33mWarning:\x1b[0m ",
                    w.as_str(),
                    "\n\x1b[33mHint:\x1b[0m add a line to .gitignore:\n    .grs/\n\n",
                ),
            )
        },
        None => None,
    }
}

/// A project is warned at most once: with the mark of the first warning there is no second.
pub proof fn law_warned_once(is_git: bool, found: GitignoreFile)
    ensures
        printed_warning(warning_of(is_git, found), true) is None,
        !is_git ==> warning_of(is_git, found) is None,
{
}

/// A line with the name, behind white space and with slashes around it, is a pattern for it.
pub proof fn law_line_with_the_name_counts(blank: Seq<char>, a: nat, b: nat)
    requires
        forall|i: int| 0 <= i < blank.len() ==> text::space(#[trigger] blank[i]),
    ensures
        names_grs(blank + text::repeated('/', a) + ".grs"@ + text::repeated('/', b)),
{
    reveal_strlit(".grs");
    let rest = text::repeated('/', a) + ".grs"@ + text::repeated('/', b);
    let line = blank + text::repeated('/', a) + ".grs"@ + text::repeated('/', b);
    assert(line =~= blank + rest);
    assert(rest[0] == '/' || rest[0] == '.');
    lemma_trim_start_is(blank, rest);
    lemma_no_slash_end(text::repeated('/', a) + ".grs"@, b);
    assert(rest =~= (text::repeated('/', a) + ".grs"@) + text::repeated('/', b));
    lemma_no_slash_start(".grs"@, a);
}

proof fn lemma_trim_start_is(blank: Seq<char>, rest: Seq<char>)
    requires
        forall|i: int| 0 <= i < blank.len() ==> text::space(#[trigger] blank[i]),
        rest.len() > 0,
        !text::space(rest[0]),
    ensures
        text::trim_start(blank + rest) == rest,
    decreases blank.len(),
{
    let s = blank + rest;
    if blank.len() > 0 {
        assert(s[0] == blank[0]);
        let b = blank.skip(1);
        assert forall|i: int| 0 <= i < b.len() implies text::space(#[trigger] b[i]) by {
            assert(b[i] == blank[i + 1]);
        }
        lemma_trim_start_is(b, rest);
        assert(s.skip(1) =~= b + rest);
    } else {
        assert(s =~= rest);
    }
}

proof fn lemma_no_slash_end(s: Seq<char>, n: nat)
    requires
        s.len() > 0,
        s.last() != '/',
    ensures
        no_slash_end(s + text::repeated('/', n)) == s,
    decreases n,
{
    let t = s + text::repeated('/', n);
    if n > 0 {
        lemma_no_slash_end(s, (n - 1) as nat);
        assert(t.drop_last() =~= s + text::repeated('/', (n - 1) as nat));
    } else {
        assert(t =~= s);
    }
}

proof fn lemma_no_slash_start(s: Seq<char>, n: nat)
    requires
        s.len() > 0,
        s[0] != '/',
    ensures
        no_slash_start(text::repeated('/', n) + s) == s,
    decreases n,
{
    let t = text::repeated('/', n) + s;
    if n > 0 {
        lemma_no_slash_start(s, (n - 1) as nat);
        assert(t.skip(1) =~= text::repeated('/', (n - 1) as nat) + s);
    } else {
        assert(t =~= s);
    }
}

/// A comment, and a line that does not hold the name at all, are no patterns for it.
pub proof fn law_other_lines_do_not_count(line: Seq<char>)
    ensures
        text::trim_start(line).len() == 0 ==> !names_grs(line),
        text::trim_start(line).len() > 0 && text::trim_start(line)[0] == '#' ==> !names_grs(line),
{
}

/// In a git repository there is a warning where the file is missing or has no line for the
/// name, and none where it has one or cannot be read. The first time it is printed.
pub proof fn law_missing_entry_is_warned_of(t: String, i: int)
    ensures
        warning_of(true, GitignoreFile::Missing) is Some,
        warning_of(true, GitignoreFile::Unreadable) is None,
        0 <= i < text::lines(t@).len() && names_grs(text::lines(t@)[i]) ==> warning_of(
            true,
            GitignoreFile::Text(t),
        ) is None,
        (forall|k: int| 0 <= k < text::lines(t@).len() ==> !names_grs(#[trigger] text::lines(t@)[k]))
            ==> warning_of(true, GitignoreFile::Text(t)) is Some && printed_warning(
            warning_of(true, GitignoreFile::Text(t)),
            false,
        ) is Some,
{
}

proof fn lemma_no_slash_end_is(s: Seq<char>)
    ensures
        no_slash_end(s).len() <= s.len(),
        no_slash_end(s) == s.take(no_slash_end(s).len() as int),
        forall|i: int| no_slash_end(s).len() <= i < s.len() ==> #[trigger] s[i] == '/',
    decreases s.len(),
{
    if s.len() > 0 && s.last() == '/' {
        let d = s.drop_last();
        lemma_no_slash_end_is(d);
        assert(no_slash_end(s) =~= s.take(no_slash_end(s).len() as int));
        assert forall|i: int| no_slash_end(s).len() <= i < s.len() implies #[trigger] s[i] == '/' by {
            if i < d.len() {
                assert(d[i] == s[i]);
            }
        }
    } else {
        assert(s.take(s.len() as int) =~= s);
    }
}

proof fn lemma_no_slash_start_is(s: Seq<char>)
    ensures
        no_slash_start(s).len() <= s.len(),
        no_slash_start(s) == s.skip(s.len() - no_slash_start(s).len()),
        forall|i: int| 0 <= i < s.len() - no_slash_start(s).len() ==> #[trigger] s[i] == '/',
    decreases s.len(),
{
    if s.len() > 0 && s[0] == '/' {
        let d = s.skip(1);
        lemma_no_slash_start_is(d);
        assert(no_slash_start(s) =~= s.skip(s.len() - no_slash_start(s).len()));
        assert forall|i: int| 0 <= i < s.len() - no_slash_start(s).len() implies #[trigger] s[i] == '/' by {
            if i > 0 {
                assert(d[i - 1] == s[i]);
            }
        }
    } else {
        assert(s.skip(0) =~= s);
    }
}

/// A line that counts ends with the name, but for slashes behind it, and the name stands at the
/// start of the line or behind a slash or white space.
pub proof fn law_only_lines_with_the_name_count(line: Seq<char>)
    requires
        names_grs(line),
    ensures
        exists|a: int|
            0 <= a && a + 4 <= line.len() && #[trigger] line.subrange(a, a + 4) == ".grs"@ && (
            forall|i: int| a + 4 <= i < line.len() ==> #[trigger] line[i] == '/') && (a == 0
                || line[a - 1] == '/' || text::space(line[a - 1])),
{
    reveal_strlit(".grs");
    reveal_strlit("**/.grs");
    reveal_strlit("/.grs");
    text::lemma_trim_start(line);
    let t = text::trim_start(line);
    let off = line.len() - t.len();
    let e = no_slash_end(t);
    let p = no_slash_start(e);
    lemma_no_slash_end_is(t);
    lemma_no_slash_start_is(e);
    let lead = e.len() - p.len();
    let a = off + lead + p.len() - 4;
    if p == "**/.grs"@ {
        assert(p.skip(3) =~= ".grs"@);
    } else if p != ".grs"@ {
        assert(p.skip(p.len() - 5) == "/.grs"@);
        assert forall|i: int| 0 <= i < 4 implies p[p.len() - 4 + i] == ".grs"@[i] by {
            assert(p.skip(p.len() - 5)[i + 1] == "/.grs"@[i + 1]);
        }
    }
    assert forall|i: int| 0 <= i < p.len() implies line[off + lead + i] == p[i] by {
        assert(p[i] == e[lead + i]);
        assert(e[lead + i] == t[lead + i]);
        assert(t[lead + i] == line[off + lead + i]);
    }
    assert(line.subrange(a, a + 4) =~= ".grs"@);
    assert forall|i: int| a + 4 <= i < line.len() implies #[trigger] line[i] == '/' by {
        assert(t[i - off] == line[i]);
    }
    if a > 0 {
        if p.len() > 4 {
            assert(line[a - 1] == p[p.len() - 5]);
            if p != "**/.grs"@ {
                assert(p.skip(p.len() - 5)[0] == '/');
            }
        } else if lead > 0 {
            assert(e[lead - 1] == '/');
            assert(e[lead - 1] == t[lead - 1]);
            assert(t[lead - 1] == line[a - 1]);
        } else {
            assert(text::space(line[off - 1]));
        }
    }
}

} // verus!
