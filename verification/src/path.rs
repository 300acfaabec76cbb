//! File system paths as lists of components.

use crate::text;
use vstd::prelude::*;

verus! {

/// What a path stands for: whether it starts at the root, and its components.
#[verifier::ext_equal]
pub struct PathModel {
    pub absolute: bool,
    pub parts: Seq<Seq<char>>,
}

/// A path: whether it starts at the root, and its components.
#[derive(Debug)]
pub struct FsPath {
    pub absolute: bool,
    pub parts: Vec<String>,
}

impl View for FsPath {
    type V = PathModel;

    open spec fn view(&self) -> PathModel {
        PathModel { absolute: self.absolute, parts: text::views(self.parts@) }
    }
}

impl PathModel {
    /// The path in text, with `/` between its components.
    pub open spec fn text(self) -> Seq<char> {
        if self.absolute {
            "/"@ + text::joined(self.parts, "/"@)
        } else {
            text::joined(self.parts, "/"@)
        }
    }

    /// The path one component further.
    pub open spec fn child(self, name: Seq<char>) -> PathModel {
        PathModel { absolute: self.absolute, parts: self.parts.push(name) }
    }

    /// The path without its last component.
    pub open spec fn parent(self) -> Option<PathModel> {
        if self.parts.len() == 0 {
            None
        } else {
            Some(PathModel { absolute: self.absolute, parts: self.parts.drop_last() })
        }
    }

    /// Another path taken from this one: an absolute path stands by itself, and a dot
    /// at the front of a relative one means nothing.
    pub open spec fn then_path(self, other: PathModel) -> PathModel {
        if other.absolute || (!self.absolute && self.parts.len() == 0) {
            other
        } else if other.parts.len() > 0 && other.parts[0] == "."@ {
            PathModel { absolute: self.absolute, parts: self.parts + other.parts.skip(1) }
        } else {
            PathModel { absolute: self.absolute, parts: self.parts + other.parts }
        }
    }

    /// Whether the components of `root` come first.
    pub open spec fn under(self, root: PathModel) -> bool {
        &&& self.absolute == root.absolute
        &&& root.parts.len() <= self.parts.len()
        &&& self.parts.take(root.parts.len() as int) == root.parts
    }

    /// The path that remains below `root`, or the path itself where it is not
    /// below `root`.
    pub open spec fn relative_to(self, root: PathModel) -> PathModel {
        if self.under(root) {
            PathModel { absolute: false, parts: self.parts.skip(root.parts.len() as int) }
        } else {
            self
        }
    }
}

/// The pieces that are components: neither empty nor a single dot.
pub open spec fn components(pieces: Seq<Seq<char>>) -> Seq<Seq<char>>
    decreases pieces.len(),
{
    if pieces.len() == 0 {
        Seq::empty()
    } else if pieces.last().len() == 0 || pieces.last() == "."@ {
        components(pieces.drop_last())
    } else {
        components(pieces.drop_last()).push(pieces.last())
    }
}

/// What a text means as a path. Empty components and dots mean nothing, but for a
/// dot at the front of a relative path.
pub open spec fn path_of(s: Seq<char>) -> PathModel {
    let pieces = text::split(s, '/');
    let absolute = s.len() > 0 && s[0] == '/';
    PathModel {
        absolute,
        parts: if !absolute && pieces[0] == "."@ {
            seq!["."@] + components(pieces)
        } else {
            components(pieces)
        },
    }
}

impl FsPath {
    /// Reads a path.
    pub fn parse(s: &str) -> (r: FsPath)
        ensures
            r@ == path_of(s@),
    {
        let chars = text::chars_of(s);
        let absolute = chars.len() > 0 && chars[0] == '/';
        let pieces = text::split_on(s, '/');
        let mut parts: Vec<String> = Vec::new();
        let ghost mut lead: Seq<Seq<char>> = Seq::empty();
        assert(text::views(pieces@)[0] == pieces@[0]@);
        if !absolute && text::same(pieces[0].as_str(), ".") {
            parts.push(".".to_owned());
            proof {
                lead = seq!["."@];
            }
        }
        let mut i: usize = 0;
        assert(text::views(pieces@).take(0) =~= Seq::empty());
        assert(text::views(parts@) =~= lead + components(text::views(pieces@).take(0)));
        while i < pieces.len()
            invariant
                i <= pieces.len(),
                text::views(parts@) == lead + components(text::views(pieces@).take(i as int)),
            decreases pieces.len() - i,
        {
            let ghost now = text::views(pieces@).take(i + 1);
            let ghost before = parts@;
            assert(now.drop_last() =~= text::views(pieces@).take(i as int));
            let p = &pieces[i];
            let n: usize = text::chars_of(p.as_str()).len();
            assert(now.last() == p@);
            if n > 0 && !text::same(p.as_str(), ".") {
                parts.push(p.clone());
                assert(text::views(parts@) =~= text::views(before).push(p@));
                assert(text::views(parts@) =~= lead + components(now));
            }
            i += 1;
        }
        assert(text::views(pieces@).take(i as int) =~= text::views(pieces@));
        let r = FsPath { absolute, parts };
        assert(r@ =~= path_of(s@));
        r
    }

    /// The path in text, with `/` between its components.
    pub fn text(&self) -> (r: String)
        ensures
            r@ == self@.text(),
    {
        let t = text::join(&self.parts, "/");
        if self.absolute {
            text::concat("/", t.as_str())
        } else {
            t
        }
    }

    /// A second value with the same components.
    pub fn copy(&self) -> (r: FsPath)
        ensures
            r@ == self@,
            r.absolute == self.absolute,
            r.parts@ == self.parts@,
    {
        FsPath { absolute: self.absolute, parts: text::copy_all(&self.parts) }
    }

    /// The path one component further.
    pub fn join(&self, name: &str) -> (r: FsPath)
        ensures
            r@ == self@.child(name@),
    {
        let mut parts = text::copy_all(&self.parts);
        parts.push(name.to_owned());
        let r = FsPath { absolute: self.absolute, parts };
        assert(r@.parts =~= self@.parts.push(name@));
        r
    }

    /// Another path taken from this one.
    pub fn join_path(&self, other: &FsPath) -> (r: FsPath)
        ensures
            r@ == self@.then_path(other@),
    {
        if other.absolute || (!self.absolute && self.parts.len() == 0) {
            return other.copy();
        }
        let mut parts = text::copy_all(&self.parts);
        let mut rest = text::copy_all(&other.parts);
        if rest.len() > 0 && text::same(rest[0].as_str(), ".") {
            let _dot = rest.remove(0);
            assert(text::views(rest@) =~= other@.parts.skip(1));
        } else {
            assert(rest@.len() > 0 ==> other@.parts[0] != "."@);
        }
        let ghost tail = text::views(rest@);
        parts.append(&mut rest);
        let r = FsPath { absolute: self.absolute, parts };
        assert(r@.parts =~= self@.parts + tail);
        r
    }

    /// The path without its last component.
    pub fn parent(&self) -> (r: Option<FsPath>)
        ensures
            match r {
                Some(p) => self@.parent() == Some(p@),
                None => self@.parent() is None,
            },
    {
        let mut parts = text::copy_all(&self.parts);
        if parts.len() == 0 {
            return None;
        }
        let _last = parts.pop();
        let r = FsPath { absolute: self.absolute, parts };
        assert(r@.parts =~= self@.parts.drop_last());
        Some(r)
    }

    /// Whether two paths have the same components.
    pub fn same(&self, other: &FsPath) -> (r: bool)
        ensures
            r == (self@ == other@),
    {
        let r = self.absolute == other.absolute && text::same_all(&self.parts, &other.parts);
        assert(r ==> self@ =~= other@);
        r
    }

    /// Whether the components of `root` come first.
    pub fn is_under(&self, root: &FsPath) -> (r: bool)
        ensures
            r == self@.under(root@),
    {
        if self.absolute != root.absolute || root.parts.len() > self.parts.len() {
            return false;
        }
        let mut i: usize = 0;
        while i < root.parts.len()
            invariant
                i <= root.parts.len() <= self.parts.len(),
                forall|k: int| 0 <= k < i ==> (#[trigger] self.parts@[k])@ == root.parts@[k]@,
            decreases root.parts.len() - i,
        {
            if !text::same(self.parts[i].as_str(), root.parts[i].as_str()) {
                assert(self@.parts.take(root@.parts.len() as int)[i as int] != root@.parts[i as int]);
                return false;
            }
            i += 1;
        }
        assert(self@.parts.take(root@.parts.len() as int) =~= root@.parts);
        true
    }

    /// The path that remains below `root`, or the path itself where it is not
    /// below `root`.
    pub fn strip(&self, root: &FsPath) -> (r: FsPath)
        ensures
            r@ == self@.relative_to(root@),
    {
        if !self.is_under(root) {
            return self.copy();
        }
        let mut parts: Vec<String> = Vec::new();
        let mut i: usize = root.parts.len();
        while i < self.parts.len()
            invariant
                root.parts.len() <= i <= self.parts.len(),
                parts@ =~= self.parts@.subrange(root.parts@.len() as int, i as int),
            decreases self.parts.len() - i,
        {
            parts.push(self.parts[i].clone());
            i += 1;
        }
        let r = FsPath { absolute: false, parts };
        assert(r@.parts =~= self@.parts.skip(root@.parts.len() as int));
        r
    }
}

/// The last component of a path, where it names a file.
pub open spec fn file_name_of(p: PathModel) -> Option<Seq<char>> {
    if p.parts.len() == 0 || p.parts.last() == "."@ || p.parts.last() == ".."@ {
        None
    } else {
        Some(p.parts.last())
    }
}

/// The last place of `c` among the first `k` characters, or -1.
pub open spec fn last_index(s: Seq<char>, c: char, k: int) -> int
    decreases k,
{
    if k <= 0 {
        -1
    } else if s[k - 1] == c {
        k - 1
    } else {
        last_index(s, c, k - 1)
    }
}

/// What stands behind the last dot of a file name, where something stands in front of it.
pub open spec fn extension_in(name: Seq<char>) -> Option<Seq<char>> {
    let i = last_index(name, '.', name.len() as int);
    if i <= 0 {
        None
    } else {
        Some(name.skip(i + 1))
    }
}

/// The extension of the file that a path names.
pub open spec fn extension_of(p: PathModel) -> Option<Seq<char>> {
    match file_name_of(p) {
        Some(name) => extension_in(name),
        None => None,
    }
}

impl FsPath {
    /// The last component of the path, where it names a file.
    pub fn file_name(&self) -> (r: Option<String>)
        ensures
            text::opt_view(r) == file_name_of(self@),
    {
        let n: usize = self.parts.len();
        if n == 0 {
            return None;
        }
        let last = &self.parts[n - 1];
        assert(self@.parts.last() == last@);
        if text::same(last.as_str(), ".") || text::same(last.as_str(), "..") {
            return None;
        }
        Some(last.clone())
    }

    /// The extension of the file that the path names.
    pub fn extension(&self) -> (r: Option<String>)
        ensures
            text::opt_view(r) == extension_of(self@),
    {
        let name = match self.file_name() {
            Some(n) => n,
            None => {
                return None;
            },
        };
        let v = text::chars_of(name.as_str());
        let mut i: usize = v.len();
        while i > 0 && v[i - 1] != '.'
            invariant
                i <= v.len(),
                last_index(v@, '.', v@.len() as int) == last_index(v@, '.', i as int),
            decreases i,
        {
            i -= 1;
        }
        if i <= 1 {
            return None;
        }
        let r = text::string_between(&v, i, v.len());
        assert(r@ =~= name@.skip(i as int));
        Some(r)
    }
}

proof fn lemma_components_all(pieces: Seq<Seq<char>>)
    requires
        forall|i: int| 0 <= i < pieces.len() ==> (#[trigger] pieces[i]).len() > 0 && pieces[i] != "."@,
    ensures
        components(pieces) == pieces,
    decreases pieces.len(),
{
    if pieces.len() > 0 {
        let d = pieces.drop_last();
        assert forall|i: int| 0 <= i < d.len() implies (#[trigger] d[i]).len() > 0 && d[i] != "."@ by {
            assert(d[i] == pieces[i]);
        }
        lemma_components_all(d);
        assert(pieces[pieces.len() - 1].len() > 0);
        assert(d.push(pieces.last()) =~= pieces);
    } else {
        assert(components(pieces) =~= pieces);
    }
}

proof fn lemma_components_skip(pieces: Seq<Seq<char>>)
    requires
        pieces.len() > 0,
        pieces[0].len() == 0,
    ensures
        components(pieces) == components(pieces.skip(1)),
    decreases pieces.len(),
{
    if pieces.len() == 1 {
        assert(pieces.drop_last() =~= Seq::empty());
        assert(pieces.skip(1) =~= Seq::empty());
    } else {
        lemma_components_skip(pieces.drop_last());
        assert(pieces.drop_last().skip(1) =~= pieces.skip(1).drop_last());
        assert(pieces.skip(1).last() == pieces.last());
    }
}

/// A path that is written down is read back as the same path.
pub proof fn law_written_path_is_read_back(p: PathModel)
    requires
        p.parts.len() > 0,
        forall|i: int|
            0 <= i < p.parts.len() ==> (#[trigger] p.parts[i]).len() > 0 && p.parts[i] != "."@,
        forall|i: int, j: int|
            0 <= i < p.parts.len() && 0 <= j < p.parts[i].len() ==> #[trigger] p.parts[i][j] != '/',
    ensures
        path_of(p.text()) == p,
{
    reveal_strlit("/");
    assert("/"@ =~= seq!['/']);
    text::law_splitting_undoes_joining(p.parts, '/');
    let plain = text::joined(p.parts, seq!['/']);
    let s = p.text();
    lemma_components_all(p.parts);
    assert(p.parts[0].len() > 0 && p.parts[0][0] != '/');
    if p.absolute {
        let pieces = seq![Seq::<char>::empty()] + p.parts;
        assert forall|i: int, j: int|
            0 <= i < pieces.len() && 0 <= j < pieces[i].len() implies #[trigger] pieces[i][j] != '/' by {
            assert(p.parts[i - 1][j] != '/');
        }
        text::law_splitting_undoes_joining(pieces, '/');
        text::lemma_joined_first(pieces, seq!['/']);
        assert(pieces.skip(1) =~= p.parts);
        assert(text::joined(pieces, seq!['/']) =~= s);
        lemma_components_skip(pieces);
        assert(path_of(s).parts =~= p.parts);
    } else {
        assert(s == plain);
        if p.parts.len() == 1 {
            assert(s == p.parts[0]);
        } else {
            text::lemma_joined_first(p.parts, seq!['/']);
        }
        assert(s[0] == p.parts[0][0]);
        assert(path_of(s).parts =~= p.parts);
    }
}

proof fn lemma_last_index_is(s: Seq<char>, c: char, k: int, i: int)
    requires
        0 <= i < k <= s.len(),
        s[i] == c,
        forall|j: int| i < j < k ==> s[j] != c,
    ensures
        last_index(s, c, k) == i,
    decreases k,
{
    if i < k - 1 {
        lemma_last_index_is(s, c, k - 1, i);
    }
}

/// The extension of a file is what stands behind the last dot of its name, where something
/// stands before that dot.
pub proof fn law_extension_is_behind_the_last_dot(p: PathModel, stem: Seq<char>, ext: Seq<char>)
    requires
        stem.len() > 0,
        forall|i: int| 0 <= i < ext.len() ==> ext[i] != '.',
        ext.len() > 0,
    ensures
        extension_of(p.child(stem + seq!['.'] + ext)) == Some(ext),
{
    let name = stem + seq!['.'] + ext;
    let q = p.child(name);
    assert(q.parts.last() == name);
    reveal_strlit(".");
    reveal_strlit("..");
    assert(name.len() >= 3);
    lemma_last_index_is(name, '.', name.len() as int, stem.len() as int);
    assert(name.skip(stem.len() as int + 1) =~= ext);
}

/// A path taken from another is that path with its components behind the other's; an absolute
/// path stands by itself.
pub proof fn law_path_taken_from_another(p: PathModel, q: PathModel)
    ensures
        q.absolute ==> p.then_path(q) == q,
        !q.absolute && (p.absolute || p.parts.len() > 0) && (q.parts.len() > 0 ==> q.parts[0]
            != "."@) ==> p.then_path(q).parts == p.parts + q.parts && p.then_path(q).absolute
            == p.absolute,
        p.child("x"@).parent() == Some(p),
        p.child("x"@).under(p),
{
    assert(p.parts.push("x"@).drop_last() =~= p.parts);
    assert(p.parts.push("x"@).take(p.parts.len() as int) =~= p.parts);
}

/// What lies under a directory is the directory's path with more components; what is left of it
/// there are these.
pub proof fn law_what_lies_under(root: PathModel, names: Seq<Seq<char>>)
    ensures
        ({
            let p = PathModel { absolute: root.absolute, parts: root.parts + names };
            &&& p.under(root)
            &&& p.relative_to(root).parts == names
            &&& !p.relative_to(root).absolute
        }),
{
    let p = PathModel { absolute: root.absolute, parts: root.parts + names };
    assert(p.parts.take(root.parts.len() as int) =~= root.parts);
    assert(p.parts.skip(root.parts.len() as int) =~= names);
}

} // verus!
