//! Where things lie under `.grs/`, and how the project root is found.
//!
//! ```text
//! <project>/
//!   .grs/
//!     HEAD                     the id of the open session
//!     config.toml
//!     .lock
//!     sessions/
//!       <ulid>/                one session
//!         meta.toml
//!         snap-1/, snap-2/, .. one tree per snap
//!   .grsignore
//! ```

use crate::error::GrsError;
use crate::order;
use crate::path::{FsPath, PathModel};
use crate::text;
use crate::ulid;
use crate::ulid::SessionId;
use vstd::prelude::*;

verus! {

pub const GRS_DIR: &'static str = ".grs";

pub const CONFIG_FILE: &'static str = "config.toml";

pub const SESSIONS_DIR: &'static str = "sessions";

pub const LOCK_FILE: &'static str = ".lock";

pub const META_FILE: &'static str = "meta.toml";

/// The paths that a list of paths stands for.
pub open spec fn models(dirs: Seq<FsPath>) -> Seq<PathModel> {
    Seq::new(dirs.len(), |i: int| dirs[i]@)
}

/// The closest directory at or above `p` that is among `dirs`.
pub open spec fn nearest(p: PathModel, dirs: Seq<PathModel>) -> Option<PathModel>
    decreases p.parts.len(),
{
    if dirs.contains(p) {
        Some(p)
    } else if p.parts.len() == 0 {
        None
    } else {
        nearest(PathModel { absolute: p.absolute, parts: p.parts.drop_last() }, dirs)
    }
}

/// The directory `up` levels above `p`.
pub open spec fn above(p: PathModel, up: int) -> PathModel {
    PathModel { absolute: p.absolute, parts: p.parts.take(p.parts.len() - up) }
}

/// `nearest` is the first hit on the way up: it is among `dirs`, and no directory
/// below it on the way is; it is `None` only where no directory on the way is.
pub proof fn law_nearest_is_first_on_the_way_up(p: PathModel, dirs: Seq<PathModel>)
    ensures
        match nearest(p, dirs) {
            Some(root) => exists|up: int|
                0 <= up <= p.parts.len() && root == #[trigger] above(p, up) && dirs.contains(root)
                    && forall|k: int| 0 <= k < up ==> !dirs.contains(#[trigger] above(p, k)),
            None => forall|k: int| 0 <= k <= p.parts.len() ==> !dirs.contains(#[trigger] above(p, k)),
        },
    decreases p.parts.len(),
{
    assert(above(p, 0) =~= p);
    if dirs.contains(p) {
    } else if p.parts.len() == 0 {
        assert forall|k: int| 0 <= k <= p.parts.len() implies !dirs.contains(
            #[trigger] above(p, k),
        ) by {
            assert(above(p, k) =~= p);
        }
    } else {
        let q = PathModel { absolute: p.absolute, parts: p.parts.drop_last() };
        law_nearest_is_first_on_the_way_up(q, dirs);
        assert forall|k: int| 1 <= k <= p.parts.len() implies above(p, k) == #[trigger] above(
            q,
            k - 1,
        ) by {
            assert(above(p, k) =~= above(q, k - 1));
        }
        match nearest(q, dirs) {
            Some(root) => {
                let up = choose|up: int|
                    0 <= up <= q.parts.len() && root == #[trigger] above(q, up) && dirs.contains(root)
                        && forall|k: int| 0 <= k < up ==> !dirs.contains(#[trigger] above(q, k));
                assert(above(p, up + 1) == above(q, up + 1 - 1));
                assert forall|k: int| 0 <= k < up + 1 implies !dirs.contains(
                    #[trigger] above(p, k),
                ) by {
                    if k > 0 {
                        assert(above(p, k) == above(q, k - 1));
                    }
                }
            },
            None => {
                assert forall|k: int| 0 <= k <= p.parts.len() implies !dirs.contains(
                    #[trigger] above(p, k),
                ) by {
                    if k > 0 {
                        assert(above(p, k) == above(q, k - 1));
                    }
                }
            },
        }
    }
}

fn holds(dirs: &Vec<FsPath>, p: &FsPath) -> (r: bool)
    ensures
        r == models(dirs@).contains(p@),
{
    let mut i: usize = 0;
    while i < dirs.len()
        invariant
            i <= dirs.len(),
            forall|k: int| 0 <= k < i ==> models(dirs@)[k] != p@,
        decreases dirs.len() - i,
    {
        if dirs[i].same(p) {
            assert(models(dirs@)[i as int] == p@);
            return true;
        }
        i += 1;
    }
    false
}

/// The closest directory at or above `start` that holds a `.grs/` directory.
/// `repos` are the directories that do.
pub fn find_grs_root(start: &FsPath, repos: &Vec<FsPath>) -> (r: Result<FsPath, GrsError>)
    ensures
        match r {
            Ok(root) => nearest(start@, models(repos@)) == Some(root@),
            Err(e) => e is NotInitialized && nearest(start@, models(repos@)) is None,
        },
{
    let mut current = start.copy();
    loop
        invariant
            nearest(start@, models(repos@)) == nearest(current@, models(repos@)),
        decreases current.parts.len(),
    {
        if holds(repos, &current) {
            return Ok(current);
        }
        match current.parent() {
            Some(p) => {
                assert(p@.parts.len() == current@.parts.len() - 1);
                current = p;
            },
            None => {
                return Err(GrsError::NotInitialized);
            },
        }
    }
}

/// As `find_grs_root`, with `None` where there is no such directory.
pub fn try_find_grs_root(start: &FsPath, repos: &Vec<FsPath>) -> (r: Option<FsPath>)
    ensures
        match r {
            Some(root) => nearest(start@, models(repos@)) == Some(root@),
            None => nearest(start@, models(repos@)) is None,
        },
{
    match find_grs_root(start, repos) {
        Ok(root) => Some(root),
        Err(_) => None,
    }
}

/// `start` and the directories above it, the deepest first.
pub fn ancestors(start: &FsPath) -> (r: Vec<FsPath>)
    ensures
        r@.len() == start@.parts.len() + 1,
        forall|k: int| 0 <= k < r@.len() ==> (#[trigger] r@[k])@ == above(start@, k),
{
    let mut r: Vec<FsPath> = Vec::new();
    let mut current = start.copy();
    assert(above(start@, 0) =~= start@);
    loop
        invariant_except_break
            r@.len() <= start@.parts.len(),
            current@ == above(start@, r@.len() as int),
            forall|k: int| 0 <= k < r@.len() ==> (#[trigger] r@[k])@ == above(start@, k),
        ensures
            r@.len() == start@.parts.len() + 1,
            forall|k: int| 0 <= k < r@.len() ==> (#[trigger] r@[k])@ == above(start@, k),
        decreases current.parts.len(),
    {
        match current.parent() {
            Some(p) => {
                assert(p@ =~= above(start@, r@.len() as int + 1));
                r.push(current);
                current = p;
            },
            None => {
                r.push(current);
                break;
            },
        }
    }
    r
}

/// The well-known paths under a project root.
#[derive(Debug)]
pub struct GrsPaths {
    pub root: FsPath,
    pub grs_dir: FsPath,
    pub head: FsPath,
    pub config: FsPath,
    pub sessions_dir: FsPath,
    pub lock: FsPath,
}

/// `snap-<n>`.
pub open spec fn snap_dir_name(n: u32) -> Seq<char> {
    "snap-"@ + text::decimal(n as nat)
}

/// `snap-<n>.json`, the number with at least four digits.
pub open spec fn snap_file_name(n: u32) -> Seq<char> {
    "snap-"@ + text::pad_left(text::decimal(n as nat), '0', 4) + ".json"@
}

impl GrsPaths {
    /// Whether every path lies where it belongs under the root.
    pub open spec fn wf(self) -> bool {
        let dir = self.root@.child(GRS_DIR@);
        &&& self.grs_dir@ == dir
        &&& self.head@ == dir.child("HEAD"@)
        &&& self.config@ == dir.child(CONFIG_FILE@)
        &&& self.sessions_dir@ == dir.child(SESSIONS_DIR@)
        &&& self.lock@ == dir.child(LOCK_FILE@)
    }

    /// The paths under `root`.
    pub fn new(root: &FsPath) -> (r: GrsPaths)
        ensures
            r.wf(),
            r.root@ == root@,
    {
        let grs_dir = root.join(GRS_DIR);
        GrsPaths {
            root: root.copy(),
            head: grs_dir.join("HEAD"),
            lock: grs_dir.join(LOCK_FILE),
            config: grs_dir.join(CONFIG_FILE),
            sessions_dir: grs_dir.join(SESSIONS_DIR),
            grs_dir,
        }
    }

    /// A second value with the same paths.
    pub fn copy(&self) -> (r: GrsPaths)
        ensures
            r.root@ == self.root@,
            r.grs_dir@ == self.grs_dir@,
            r.head@ == self.head@,
            r.config@ == self.config@,
            r.sessions_dir@ == self.sessions_dir@,
            r.lock@ == self.lock@,
            self.wf() ==> r.wf(),
    {
        GrsPaths {
            root: self.root.copy(),
            grs_dir: self.grs_dir.copy(),
            head: self.head.copy(),
            config: self.config.copy(),
            sessions_dir: self.sessions_dir.copy(),
            lock: self.lock.copy(),
        }
    }

    /// Where one session lies.
    pub fn session_dir(&self, id: &SessionId) -> (r: FsPath)
        ensures
            r@ == self.sessions_dir@.child(id.text()),
    {
        self.sessions_dir.join(id.as_str().as_str())
    }

    /// Where the record of one session lies.
    pub fn session_meta(&self, id: &SessionId) -> (r: FsPath)
        ensures
            r@ == self.sessions_dir@.child(id.text()).child(META_FILE@),
    {
        self.session_dir(id).join(META_FILE)
    }

    /// Where a snap that is kept as one file lies.
    pub fn snap_file(&self, id: &SessionId, n: u32) -> (r: FsPath)
        ensures
            r@ == self.sessions_dir@.child(id.text()).child(snap_file_name(n)),
    {
        let digits = text::padded_left(text::decimal_of(n as u64).as_str(), '0', 4);
        let name = text::concat3("snap-", digits.as_str(), ".json");
        self.session_dir(id).join(name.as_str())
    }

    /// Where the tree of a snap lies.
    pub fn snap_dir(&self, id: &SessionId, n: u32) -> (r: FsPath)
        ensures
            r@ == self.sessions_dir@.child(id.text()).child(snap_dir_name(n)),
    {
        let name = text::concat("snap-", text::decimal_of(n as u64).as_str());
        self.session_dir(id).join(name.as_str())
    }
}

/// The path of a file relative to the root, with forward slashes.
pub open spec fn relative_text(root: PathModel, abs: PathModel) -> Seq<char> {
    text::replaced(abs.relative_to(root).text(), '\\', '/')
}

/// The path of a file relative to the root, with forward slashes.
pub fn relativize(root: &FsPath, abs: &FsPath) -> (r: String)
    ensures
        r@ == relative_text(root@, abs@),
{
    text::replace_char(abs.strip(root).text().as_str(), '\\', '/')
}

/// The part of a folder name that should be an id: all of 26 characters, or the
/// last 26 behind a slug and an underscore.
pub open spec fn folder_id_part(folder: Seq<char>) -> Option<Seq<char>> {
    let n = folder.len();
    if n == 26 {
        Some(folder)
    } else if n > 27 && folder[n - 27] == '_' {
        Some(folder.skip(n - 26))
    } else {
        None
    }
}

/// The id that a folder name holds.
pub open spec fn folder_id(folder: Seq<char>) -> Option<SessionId> {
    match folder_id_part(folder) {
        Some(part) => if ulid::ulid_fault(part) is None {
            Some(SessionId((ulid::base32_number(part) % ulid::two_pow_128()) as u128))
        } else {
            None
        },
        None => None,
    }
}

/// Reads the id of a session from the name of its folder: a bare id, or a slug, an
/// underscore and an id.
pub fn parse_session_folder(folder: &str) -> (r: Option<SessionId>)
    ensures
        r == folder_id(folder@),
{
    let v = text::chars_of(folder);
    let n: usize = v.len();
    let part = if n == 26 {
        folder.to_owned()
    } else if n > 27 && v[n - 27] == '_' {
        text::string_between(&v, n - 26, n)
    } else {
        return None;
    };
    assert(n != 26 ==> part@ =~= folder@.skip(n - 26));
    match SessionId::parse(part.as_str()) {
        Ok(id) => Some(id),
        Err(_) => None,
    }
}

/// The folder name made of an id alone is read back as that id, and so is one
/// with a slug and an underscore in front.
pub proof fn law_folder_names_give_the_id_back(id: SessionId, slug: Seq<char>)
    requires
        slug.len() > 0,
    ensures
        folder_id(id.text()) == Some(id),
        folder_id(slug + "_"@ + id.text()) == Some(id),
{
    ulid::law_round_trip(id);
    ulid::lemma_text_len(id);
    let f = slug + "_"@ + id.text();
    reveal_strlit("_");
    assert(f.skip(f.len() - 26) =~= id.text());
    assert(f[f.len() - 27] == '_');
}

/// Whether `c` is an ASCII letter or digit.
pub open spec fn alphanumeric(c: char) -> bool {
    ('a' <= c <= 'z') || ('A' <= c <= 'Z') || ('0' <= c <= '9')
}

/// Letters and digits in lower case, and a dash for each run of anything else.
pub open spec fn dashed(s: Seq<char>) -> Seq<char>
    decreases s.len(),
{
    if s.len() == 0 {
        Seq::empty()
    } else {
        let before = dashed(s.drop_last());
        if alphanumeric(s.last()) {
            before.push(text::lower(s.last()))
        } else if before.len() > 0 && before.last() == '-' {
            before
        } else {
            before.push('-')
        }
    }
}

/// `s` without dashes at its front.
pub open spec fn undash_start(s: Seq<char>) -> Seq<char>
    decreases s.len(),
{
    if s.len() > 0 && s[0] == '-' {
        undash_start(s.skip(1))
    } else {
        s
    }
}

/// `s` without dashes at its end.
pub open spec fn undash_end(s: Seq<char>) -> Seq<char>
    decreases s.len(),
{
    if s.len() > 0 && s.last() == '-' {
        undash_end(s.drop_last())
    } else {
        s
    }
}

/// The slug of a name: lower-case letters and digits with single dashes between
/// them, at most 60 characters, `session` where nothing is left.
pub open spec fn slug(name: Seq<char>) -> Seq<char> {
    let s = undash_end(undash_start(dashed(name)));
    if s.len() == 0 {
        "session"@
    } else if s.len() > 60 {
        undash_end(s.take(60))
    } else {
        s
    }
}

/// Whether every character may stand in a slug.
pub open spec fn slug_chars(s: Seq<char>) -> bool {
    forall|i: int|
        0 <= i < s.len() ==> 'a' <= #[trigger] s[i] <= 'z' || '0' <= s[i] <= '9' || s[i] == '-'
}

/// Whether no two dashes stand side by side.
pub open spec fn single_dashes(s: Seq<char>) -> bool {
    forall|i: int, j: int|
        0 <= i < s.len() && j == i + 1 && j < s.len() ==> !(#[trigger] s[i] == '-' && #[trigger] s[j]
            == '-')
}

proof fn lemma_dashed(s: Seq<char>)
    ensures
        slug_chars(dashed(s)),
        single_dashes(dashed(s)),
    decreases s.len(),
{
    if s.len() > 0 {
        lemma_dashed(s.drop_last());
    }
}

proof fn lemma_undash_start(s: Seq<char>)
    ensures
        undash_start(s).len() > 0 ==> undash_start(s)[0] != '-',
        slug_chars(s) ==> slug_chars(undash_start(s)),
        single_dashes(s) ==> single_dashes(undash_start(s)),
    decreases s.len(),
{
    if s.len() > 0 && s[0] == '-' {
        lemma_undash_start(s.skip(1));
    }
}

proof fn lemma_undash_end(s: Seq<char>)
    ensures
        undash_end(s).len() <= s.len(),
        undash_end(s).len() > 0 ==> undash_end(s).last() != '-',
        s.len() > 0 && s[0] != '-' ==> undash_end(s).len() > 0 && undash_end(s)[0] == s[0],
        slug_chars(s) ==> slug_chars(undash_end(s)),
        single_dashes(s) ==> single_dashes(undash_end(s)),
    decreases s.len(),
{
    if s.len() > 0 && s.last() == '-' {
        lemma_undash_end(s.drop_last());
    }
}

/// A slug is never empty, has at most 60 characters, all of them lower-case
/// letters, digits or dashes, never two dashes in a row, and none at its ends.
pub proof fn law_slug_shape(name: Seq<char>)
    ensures
        1 <= slug(name).len() <= 60,
        slug_chars(slug(name)),
        single_dashes(slug(name)),
        slug(name)[0] != '-',
        slug(name).last() != '-',
{
    reveal_strlit("session");
    let d = dashed(name);
    lemma_dashed(name);
    lemma_undash_start(d);
    lemma_undash_end(undash_start(d));
    let s = undash_end(undash_start(d));
    lemma_undash_end(s.take(60));
}

/// Turns a name into a slug that any file system takes.
pub fn slugify(name: &str) -> (r: String)
    ensures
        r@ == slug(name@),
        1 <= r@.len() <= 60,
{
    let v = text::chars_of(name);
    let mut d: Vec<char> = Vec::new();
    let mut i: usize = 0;
    assert(v@.take(0) =~= Seq::empty());
    while i < v.len()
        invariant
            i <= v.len(),
            d@ == dashed(v@.take(i as int)),
        decreases v.len() - i,
    {
        let c = v[i];
        assert(v@.take(i + 1).drop_last() =~= v@.take(i as int));
        if ('a' <= c && c <= 'z') || ('A' <= c && c <= 'Z') || ('0' <= c && c <= '9') {
            d.push(text::to_lower(c));
        } else if d.len() == 0 || d[d.len() - 1] != '-' {
            d.push('-');
        }
        i += 1;
    }
    assert(v@.take(i as int) =~= v@);
    let mut from: usize = 0;
    assert(d@.skip(0) =~= d@);
    while from < d.len() && d[from] == '-'
        invariant
            from <= d.len(),
            undash_start(d@) == undash_start(d@.skip(from as int)),
        decreases d.len() - from,
    {
        assert(d@.skip(from as int).skip(1) =~= d@.skip(from + 1));
        from += 1;
    }
    let ghost head = d@.skip(from as int);
    let to: usize = dash_end(&d, from, d.len());
    assert(d@.subrange(from as int, d@.len() as int) =~= head);
    proof {
        law_slug_shape(name@);
    }
    if from == to {
        return "session".to_owned();
    }
    if to - from > 60 {
        let cut: usize = dash_end(&d, from, from + 60);
        assert(d@.subrange(from as int, from + 60) =~= d@.subrange(from as int, to as int).take(60));
        return text::string_between(&d, from, cut);
    }
    text::string_between(&d, from, to)
}

/// Where `d[from..to]` ends without its trailing dashes.
fn dash_end(d: &Vec<char>, from: usize, to: usize) -> (r: usize)
    requires
        from <= to <= d.len(),
    ensures
        from <= r <= to,
        d@.subrange(from as int, r as int) == undash_end(d@.subrange(from as int, to as int)),
{
    let mut r: usize = to;
    while from < r && d[r - 1] == '-'
        invariant
            from <= r <= to <= d.len(),
            undash_end(d@.subrange(from as int, to as int)) == undash_end(
                d@.subrange(from as int, r as int),
            ),
        decreases r,
    {
        assert(d@.subrange(from as int, r as int).drop_last() =~= d@.subrange(from as int, r - 1));
        r -= 1;
    }
    r
}

proof fn lemma_dashed_keeps(s: Seq<char>)
    ensures
        dashed(s).filter(|c: char| c != '-') == text::lowered(s.filter(|c: char| alphanumeric(c))),
    decreases s.len(),
{
    reveal(Seq::filter);
    let letter = |c: char| c != '-';
    let alnum = |c: char| alphanumeric(c);
    if s.len() > 0 {
        let d = s.drop_last();
        lemma_dashed_keeps(d);
        let c = s.last();
        if alphanumeric(c) {
            assert(dashed(s) == dashed(d).push(text::lower(c)));
            assert(dashed(s).drop_last() =~= dashed(d));
            assert(d.filter(alnum).push(c).drop_last() =~= d.filter(alnum));
        } else if dashed(s) != dashed(d) {
            assert(dashed(s).drop_last() =~= dashed(d));
        }
    } else {
        assert(dashed(s).filter(letter) =~= text::lowered(s.filter(alnum)));
    }
}

proof fn lemma_undash_start_keeps(s: Seq<char>)
    ensures
        undash_start(s).filter(|c: char| c != '-') == s.filter(|c: char| c != '-'),
    decreases s.len(),
{
    let letter = |c: char| c != '-';
    if s.len() > 0 && s[0] == '-' {
        lemma_undash_start_keeps(s.skip(1));
        lemma_filter_first(s, letter);
    }
}

proof fn lemma_filter_first(s: Seq<char>, keep: spec_fn(char) -> bool)
    requires
        s.len() > 0,
        !keep(s[0]),
    ensures
        s.filter(keep) == s.skip(1).filter(keep),
    decreases s.len(),
{
    reveal(Seq::filter);
    if s.len() == 1 {
        assert(s.skip(1) =~= Seq::empty());
        assert(s.drop_last() =~= Seq::empty());
    } else {
        lemma_filter_first(s.drop_last(), keep);
        assert(s.drop_last().skip(1) =~= s.skip(1).drop_last());
        assert(s.skip(1).last() == s.last());
    }
}

proof fn lemma_undash_end_keeps(s: Seq<char>)
    ensures
        undash_end(s).filter(|c: char| c != '-') == s.filter(|c: char| c != '-'),
    decreases s.len(),
{
    reveal(Seq::filter);
    if s.len() > 0 && s.last() == '-' {
        lemma_undash_end_keeps(s.drop_last());
    }
}

proof fn lemma_dashed_len(s: Seq<char>)
    ensures
        dashed(s).len() <= s.len(),
    decreases s.len(),
{
    if s.len() > 0 {
        lemma_dashed_len(s.drop_last());
    }
}

proof fn lemma_undash_len(s: Seq<char>)
    ensures
        undash_start(s).len() <= s.len(),
        undash_end(s).len() <= s.len(),
    decreases s.len(),
{
    if s.len() > 0 {
        lemma_undash_len(s.skip(1));
        lemma_undash_len(s.drop_last());
    }
}

/// The slug of a short name holds its letters and digits, in lower case and in their order, and
/// besides only dashes. A name without letters and digits gets the word `session`.
pub proof fn law_slug_keeps_letters_and_digits(name: Seq<char>)
    requires
        name.len() <= 60,
    ensures
        ({
            let kept = name.filter(
                |c: char| 'a' <= c <= 'z' || 'A' <= c <= 'Z' || '0' <= c <= '9',
            );
            if kept.len() == 0 {
                slug(name) == "session"@
            } else {
                slug(name).filter(|c: char| c != '-') == text::lowered(kept)
            }
        }),
{
    let alnum = |c: char| alphanumeric(c);
    let plain = |c: char| 'a' <= c <= 'z' || 'A' <= c <= 'Z' || '0' <= c <= '9';
    order::lemma_filter_same(name, alnum, plain);
    let d = dashed(name);
    let s = undash_end(undash_start(d));
    lemma_dashed_keeps(name);
    lemma_undash_start_keeps(d);
    lemma_undash_end_keeps(undash_start(d));
    lemma_dashed_len(name);
    lemma_undash_len(d);
    lemma_undash_len(undash_start(d));
    text::law_lower_case_by_character(name.filter(plain));
    let letter = |c: char| c != '-';
    if name.filter(plain).len() == 0 {
        lemma_dashed(name);
        lemma_undash_start(d);
        lemma_undash_end(undash_start(d));
        if s.len() > 0 {
            assert(s[0] != '-') by {
                law_slug_shape(name);
            }
            order::lemma_filter_keeps(s, letter, s[0]);
        }
    } else if s.len() == 0 {
        reveal(Seq::filter);
        assert(s.filter(letter).len() == 0);
    }
}

/// The path of a file below the root, with forward slashes: what is left of its components
/// behind those of the root.
pub proof fn law_relative_path_is_what_is_left(root: PathModel, names: Seq<Seq<char>>)
    requires
        names.len() > 0,
    ensures
        relative_text(
            root,
            PathModel { absolute: root.absolute, parts: root.parts + names },
        ) == text::replaced(text::joined(names, "/"@), '\\', '/'),
{
    let p = PathModel { absolute: root.absolute, parts: root.parts + names };
    let n = root.parts.len() as int;
    assert(p.parts.take(n) =~= root.parts);
    assert(p.parts.skip(n) =~= names);
}

/// Everything of a project lies under `.grs` in its root, each thing under its own name.
pub proof fn law_everything_lies_under_its_name(p: GrsPaths, n: u32)
    requires
        p.wf(),
    ensures
        p.grs_dir@.parts == p.root@.parts + seq![".grs"@],
        p.head@.parts == p.root@.parts + seq![".grs"@, "HEAD"@],
        p.config@.parts == p.root@.parts + seq![".grs"@, "config.toml"@],
        p.sessions_dir@.parts == p.root@.parts + seq![".grs"@, "sessions"@],
        p.lock@.parts == p.root@.parts + seq![".grs"@, ".lock"@],
        p.head@.absolute == p.root@.absolute,
        snap_dir_name(n) == "snap-"@ + text::decimal(n as nat),
        snap_file_name(n) == "snap-"@ + text::pad_left(text::decimal(n as nat), '0', 4) + ".json"@,
{
    let r = p.root@.parts;
    assert(r.push(".grs"@) =~= r + seq![".grs"@]);
    assert(r.push(".grs"@).push("HEAD"@) =~= r + seq![".grs"@, "HEAD"@]);
    assert(r.push(".grs"@).push("config.toml"@) =~= r + seq![".grs"@, "config.toml"@]);
    assert(r.push(".grs"@).push("sessions"@) =~= r + seq![".grs"@, "sessions"@]);
    assert(r.push(".grs"@).push(".lock"@) =~= r + seq![".grs"@, ".lock"@]);
}

} // verus!
