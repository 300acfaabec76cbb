//! Snaps of single files: the content of one file at a moment, with the lines that
//! changed since the snap of the same file before it. They are numbered from 0 within
//! their session.

use crate::diff;
use crate::error::GrsError;
use crate::model::{LineDiff, STORAGE_VERSION};
use crate::snap::SnapStore;
use crate::text;
use crate::ulid::SessionId;
use crate::util::time;
use crate::util::time::Millis;
use vstd::prelude::*;

verus! {

/// The content of one file at a moment.
#[derive(Debug)]
pub struct Snap {
    pub version: u32,
    pub seq: u32,
    pub timestamp: Millis,
    /// The same time for people.
    pub timestamp_iso: String,
    /// Relative to the project root, with forward slashes.
    pub file_path: String,
    pub content: String,
    pub diff: LineDiff,
    /// The snap of the same file before this one.
    pub prev_seq: Option<u32>,
}

/// A snap of a single file with the session it belongs to.
#[derive(Debug)]
pub struct FileSnap {
    pub session: SessionId,
    pub snap: Snap,
}

/// What a snap of a single file says.
#[verifier::ext_equal]
pub struct SnapModel {
    pub version: u32,
    pub seq: u32,
    pub timestamp: Millis,
    pub timestamp_iso: Seq<char>,
    pub file_path: Seq<char>,
    pub content: Seq<char>,
    pub added_lines: Seq<usize>,
    pub removed_lines: Seq<usize>,
    pub diff_prev_seq: Option<u32>,
    pub prev_seq: Option<u32>,
}

impl View for Snap {
    type V = SnapModel;

    open spec fn view(&self) -> SnapModel {
        SnapModel {
            version: self.version,
            seq: self.seq,
            timestamp: self.timestamp,
            timestamp_iso: self.timestamp_iso@,
            file_path: self.file_path@,
            content: self.content@,
            added_lines: self.diff.added_lines@,
            removed_lines: self.diff.removed_lines@,
            diff_prev_seq: self.diff.prev_seq,
            prev_seq: self.prev_seq,
        }
    }
}

fn copy_numbers(v: &Vec<usize>) -> (r: Vec<usize>)
    ensures
        r@ == v@,
{
    let mut r: Vec<usize> = Vec::new();
    let mut i: usize = 0;
    while i < v.len()
        invariant
            i <= v.len(),
            r@ =~= v@.take(i as int),
        decreases v.len() - i,
    {
        r.push(v[i]);
        i += 1;
    }
    r
}

impl Snap {
    /// A second value that says the same.
    pub fn copy(&self) -> (r: Snap)
        ensures
            r@ == self@,
    {
        Snap {
            version: self.version,
            seq: self.seq,
            timestamp: self.timestamp,
            timestamp_iso: self.timestamp_iso.clone(),
            file_path: self.file_path.clone(),
            content: self.content.clone(),
            diff: LineDiff {
                added_lines: copy_numbers(&self.diff.added_lines),
                removed_lines: copy_numbers(&self.diff.removed_lines),
                prev_seq: self.diff.prev_seq,
            },
            prev_seq: self.prev_seq,
        }
    }
}

/// What the snaps of single files say, each with its session.
pub open spec fn file_snap_models(snaps: Seq<FileSnap>) -> Seq<(SessionId, SnapModel)> {
    snaps.map_values(|s: FileSnap| (s.session, s.snap@))
}

/// The first snap with this number, from `k` on.
pub open spec fn seq_slot(snaps: Seq<(SessionId, SnapModel)>, id: SessionId, seq: u32, k: int) -> Option<
    int,
>
    decreases snaps.len() - k,
{
    if k >= snaps.len() {
        None
    } else if snaps[k].0 == id && snaps[k].1.seq == seq {
        Some(k)
    } else {
        seq_slot(snaps, id, seq, k + 1)
    }
}

/// `seq_slot` gives the place of such a snap, where there is one.
pub proof fn lemma_seq_slot(snaps: Seq<(SessionId, SnapModel)>, id: SessionId, seq: u32, k: int)
    requires
        0 <= k,
    ensures
        match seq_slot(snaps, id, seq, k) {
            Some(i) => k <= i < snaps.len() && snaps[i].0 == id && snaps[i].1.seq == seq,
            None => forall|i: int|
                k <= i < snaps.len() ==> !((#[trigger] snaps[i]).0 == id && snaps[i].1.seq == seq),
        },
    decreases snaps.len() - k,
{
    if k < snaps.len() && !(snaps[k].0 == id && snaps[k].1.seq == seq) {
        lemma_seq_slot(snaps, id, seq, k + 1);
    }
}

/// The snaps with one more, in the place of an earlier one with the same number where
/// there is one.
pub open spec fn with_snap(snaps: Seq<(SessionId, SnapModel)>, id: SessionId, m: SnapModel) -> Seq<
    (SessionId, SnapModel),
> {
    match seq_slot(snaps, id, m.seq, 0) {
        Some(i) => snaps.update(i, (id, m)),
        None => snaps.push((id, m)),
    }
}

/// Whether a snap belongs to a session, and to a file where one is given.
pub open spec fn concerns(s: (SessionId, SnapModel), id: SessionId, path: Option<Seq<char>>) -> bool {
    s.0 == id && match path {
        Some(p) => s.1.file_path == p,
        None => true,
    }
}

/// The highest number among the first `k` snaps of a session, of one file where one is
/// given.
pub open spec fn last_seq(
    snaps: Seq<(SessionId, SnapModel)>,
    id: SessionId,
    path: Option<Seq<char>>,
    k: int,
) -> Option<u32>
    decreases k,
{
    if k <= 0 {
        None
    } else if concerns(snaps[k - 1], id, path) {
        match last_seq(snaps, id, path, k - 1) {
            Some(n) => if n > snaps[k - 1].1.seq {
                Some(n)
            } else {
                Some(snaps[k - 1].1.seq)
            },
            None => Some(snaps[k - 1].1.seq),
        }
    } else {
        last_seq(snaps, id, path, k - 1)
    }
}

/// `last_seq` is the number of such a snap, and none of them has a higher one.
pub proof fn lemma_last_seq(
    snaps: Seq<(SessionId, SnapModel)>,
    id: SessionId,
    path: Option<Seq<char>>,
    k: int,
)
    requires
        0 <= k <= snaps.len(),
    ensures
        match last_seq(snaps, id, path, k) {
            Some(n) => (exists|i: int|
                0 <= i < k && concerns(#[trigger] snaps[i], id, path) && snaps[i].1.seq == n)
                && forall|i: int|
                0 <= i < k && concerns(#[trigger] snaps[i], id, path) ==> snaps[i].1.seq <= n,
            None => forall|i: int| 0 <= i < k ==> !concerns(#[trigger] snaps[i], id, path),
        },
    decreases k,
{
    if k > 0 {
        lemma_last_seq(snaps, id, path, k - 1);
        if concerns(snaps[k - 1], id, path) {
            assert(snaps[k - 1].1.seq == snaps[k - 1].1.seq);
        }
        if let Some(n) = last_seq(snaps, id, path, k - 1) {
            let w = choose|i: int|
                0 <= i < k - 1 && concerns(#[trigger] snaps[i], id, path) && snaps[i].1.seq == n;
            assert(concerns(snaps[w], id, path));
        }
    }
}

/// The number that the next snap of a single file gets.
pub open spec fn following_seq(snaps: Seq<(SessionId, SnapModel)>, id: SessionId) -> int {
    match last_seq(snaps, id, None, snaps.len() as int) {
        Some(n) => n + 1,
        None => 0,
    }
}

/// A number that follows all others is free.
pub proof fn law_following_seq_is_free(snaps: Seq<(SessionId, SnapModel)>, id: SessionId)
    requires
        following_seq(snaps, id) <= u32::MAX,
    ensures
        seq_slot(snaps, id, following_seq(snaps, id) as u32, 0) is None,
{
    let n = following_seq(snaps, id) as u32;
    lemma_last_seq(snaps, id, None, snaps.len() as int);
    lemma_seq_slot(snaps, id, n, 0);
    if let Some(i) = seq_slot(snaps, id, n, 0) {
        assert(concerns(snaps[i], id, None));
    }
}

/// The files that the first `k` snaps of a session are of.
pub open spec fn files_of(snaps: Seq<(SessionId, SnapModel)>, id: SessionId, k: int) -> Set<Seq<char>>
    decreases k,
{
    if k <= 0 {
        Set::empty()
    } else if snaps[k - 1].0 == id {
        files_of(snaps, id, k - 1).insert(snaps[k - 1].1.file_path)
    } else {
        files_of(snaps, id, k - 1)
    }
}

/// How many of the first `k` snaps belong to a session.
pub open spec fn snaps_of(snaps: Seq<(SessionId, SnapModel)>, id: SessionId, k: int) -> nat
    decreases k,
{
    if k <= 0 {
        0
    } else {
        snaps_of(snaps, id, k - 1) + (if snaps[k - 1].0 == id {
            1nat
        } else {
            0
        })
    }
}

/// What a new snap of a file says.
pub open spec fn built(
    seq: u32,
    file_path: Seq<char>,
    content: Seq<char>,
    added_lines: Seq<usize>,
    removed_lines: Seq<usize>,
    diff_prev_seq: Option<u32>,
    prev_seq: Option<u32>,
    now: Millis,
) -> SnapModel {
    SnapModel {
        version: STORAGE_VERSION,
        seq,
        timestamp: now,
        timestamp_iso: match time::rfc3339(now) {
            Some(t) => t,
            None => Seq::empty(),
        },
        file_path,
        content,
        added_lines,
        removed_lines,
        diff_prev_seq,
        prev_seq,
    }
}

/// The content that a new snap of a file is compared with: the given one, or that of
/// the last snap of the file, or nothing.
pub open spec fn compared_with(
    snaps: Seq<(SessionId, SnapModel)>,
    id: SessionId,
    file_path: Seq<char>,
    given: Option<Seq<char>>,
) -> Seq<char> {
    match given {
        Some(p) => p,
        None => match last_seq(snaps, id, Some(file_path), snaps.len() as int) {
            Some(n) => snaps[seq_slot(snaps, id, n, 0)->0].1.content,
            None => Seq::empty(),
        },
    }
}

/// What the next snap of a file says.
pub open spec fn next_snap(
    snaps: Seq<(SessionId, SnapModel)>,
    id: SessionId,
    file_path: Seq<char>,
    content: Seq<char>,
    given: Option<Seq<char>>,
    now: Millis,
) -> SnapModel {
    let prev_seq = last_seq(snaps, id, Some(file_path), snaps.len() as int);
    let ops = diff::line_ops(compared_with(snaps, id, file_path, given), content);
    built(
        following_seq(snaps, id) as u32,
        file_path,
        content,
        diff::added(ops),
        diff::removed(ops),
        prev_seq,
        prev_seq,
        now,
    )
}

impl SnapStore {
    /// What the snaps of single files say.
    pub open spec fn file_view(self) -> Seq<(SessionId, SnapModel)> {
        file_snap_models(self.file_snaps@)
    }

    fn find_seq(&self, id: &SessionId, seq: u32) -> (r: Option<usize>)
        ensures
            match r {
                Some(i) => i < self.file_snaps@.len() && seq_slot(self.file_view(), *id, seq, 0)
                    == Some(i as int),
                None => seq_slot(self.file_view(), *id, seq, 0) is None,
            },
    {
        let mut i: usize = 0;
        while i < self.file_snaps.len()
            invariant
                i <= self.file_snaps.len(),
                seq_slot(self.file_view(), *id, seq, 0) == seq_slot(
                    self.file_view(),
                    *id,
                    seq,
                    i as int,
                ),
            decreases self.file_snaps.len() - i,
        {
            let s = &self.file_snaps[i];
            assert(self.file_view()[i as int] == (s.session, s.snap@));
            if s.session == *id && s.snap.seq == seq {
                return Some(i);
            }
            i += 1;
        }
        None
    }

    /// The snap of a single file with this number.
    pub fn read(&self, id: &SessionId, seq: u32) -> (r: Result<&Snap, GrsError>)
        ensures
            match r {
                Ok(s) => seq_slot(self.file_view(), *id, seq, 0) is Some && s@ == self.file_view()[seq_slot(
                    self.file_view(),
                    *id,
                    seq,
                    0,
                )->0].1,
                Err(e) => seq_slot(self.file_view(), *id, seq, 0) is None && e is NotFound
                    && e->NotFound_0@ == "snap "@ + text::decimal(seq as nat),
            },
    {
        match self.find_seq(id, seq) {
            Some(i) => {
                assert(self.file_view()[i as int].1 == self.file_snaps@[i as int].snap@);
                Ok(&self.file_snaps[i].snap)
            },
            None => Err(
                GrsError::NotFound(text::concat("snap ", text::decimal_of(seq as u64).as_str())),
            ),
        }
    }

    /// The highest number of a session's snaps of one file.
    fn last_seq_of(&self, id: &SessionId, path: &str) -> (r: Option<u32>)
        ensures
            r == last_seq(
                self.file_view(),
                *id,
                Some(path@),
                self.file_view().len() as int,
            ),
    {
        let mut best: Option<u32> = None;
        let mut i: usize = 0;
        while i < self.file_snaps.len()
            invariant
                i <= self.file_snaps.len(),
                best == last_seq(self.file_view(), *id, Some(path@), i as int),
            decreases self.file_snaps.len() - i,
        {
            let s = &self.file_snaps[i];
            assert(self.file_view()[i as int] == (s.session, s.snap@));
            if s.session == *id && text::same(s.snap.file_path.as_str(), path) {
                best = match best {
                    Some(n) => if n > s.snap.seq {
                        Some(n)
                    } else {
                        Some(s.snap.seq)
                    },
                    None => Some(s.snap.seq),
                };
            }
            i += 1;
        }
        best
    }

    /// The number that the next snap of a single file gets.
    pub fn next_seq(&self, id: &SessionId) -> (r: u32)
        requires
            following_seq(self.file_view(), *id) <= u32::MAX,
        ensures
            r == following_seq(self.file_view(), *id),
    {
        let mut best: Option<u32> = None;
        let mut i: usize = 0;
        while i < self.file_snaps.len()
            invariant
                i <= self.file_snaps.len(),
                best == last_seq(self.file_view(), *id, None, i as int),
            decreases self.file_snaps.len() - i,
        {
            let s = &self.file_snaps[i];
            assert(self.file_view()[i as int] == (s.session, s.snap@));
            if s.session == *id {
                best = match best {
                    Some(n) => if n > s.snap.seq {
                        Some(n)
                    } else {
                        Some(s.snap.seq)
                    },
                    None => Some(s.snap.seq),
                };
            }
            i += 1;
        }
        match best {
            Some(n) => n + 1,
            None => 0,
        }
    }

    /// A snap of a single file, taken at `now`.
    pub fn build_snap(
        seq: u32,
        file_path: String,
        content: String,
        diff: LineDiff,
        prev_seq: Option<u32>,
        now: Millis,
    ) -> (r: Snap)
        ensures
            r@ == built(
                seq,
                file_path@,
                content@,
                diff.added_lines@,
                diff.removed_lines@,
                diff.prev_seq,
                prev_seq,
                now,
            ),
    {
        Snap {
            version: STORAGE_VERSION,
            seq,
            timestamp: now,
            timestamp_iso: time::iso(now),
            file_path,
            content,
            diff,
            prev_seq,
        }
    }

    /// Stores a snap of a single file, in the place of an earlier one with the same
    /// number where there is one.
    pub fn write(&mut self, id: &SessionId, snap: Snap)
        ensures
            final(self).paths == old(self).paths,
            final(self).snaps == old(self).snaps,
            final(self).file_view() == with_snap(old(self).file_view(), *id, snap@),
    {
        let ghost before = self.file_view();
        let ghost m = snap@;
        match self.find_seq(id, snap.seq) {
            Some(i) => {
                self.file_snaps.set(i, FileSnap { session: *id, snap });
                assert(self.file_view() =~= before.update(i as int, (*id, m)));
            },
            None => {
                self.file_snaps.push(FileSnap { session: *id, snap });
                assert(self.file_view() =~= before.push((*id, m)));
            },
        }
    }

    /// How many snaps of single files a session has, and of how many files.
    pub fn count_files(&self, id: &SessionId) -> (r: (u32, u32))
        ensures
            r.0 == snaps_of(
                self.file_view(),
                *id,
                self.file_view().len() as int,
            ) as usize as u32,
            r.1 == files_of(
                self.file_view(),
                *id,
                self.file_view().len() as int,
            ).len() as usize as u32,
    {
        let mut count: usize = 0;
        let mut seen: Vec<String> = Vec::new();
        let mut i: usize = 0;
        let ghost all = self.file_view();
        while i < self.file_snaps.len()
            invariant
                i <= self.file_snaps.len(),
                all == self.file_view(),
                count == snaps_of(all, *id, i as int),
                count <= i,
                files_of(all, *id, i as int).finite(),
                files_of(all, *id, i as int).len() == seen@.len(),
                forall|p: Seq<char>|
                    files_of(all, *id, i as int).contains(p) <==> #[trigger] text::views(
                        seen@,
                    ).contains(p),
            decreases self.file_snaps.len() - i,
        {
            let s = &self.file_snaps[i];
            assert(all[i as int] == (s.session, s.snap@));
            if s.session == *id {
                let ghost before = seen@;
                let ghost p = s.snap.file_path@;
                count = count + 1;
                if !holds_text(&seen, s.snap.file_path.as_str()) {
                    seen.push(s.snap.file_path.clone());
                    assert(text::views(seen@) =~= text::views(before).push(p));
                    assert forall|q: Seq<char>|
                        files_of(all, *id, i + 1).contains(q) <==> #[trigger] text::views(
                            seen@,
                        ).contains(q) by {
                        if q == p {
                            assert(text::views(seen@)[before.len() as int] == q);
                        } else {
                            if text::views(seen@).contains(q) {
                                let w = choose|w: int|
                                    0 <= w < text::views(seen@).len() && text::views(seen@)[w] == q;
                                assert(text::views(before)[w] == q);
                                assert(text::views(before).contains(q));
                            }
                            if text::views(before).contains(q) {
                                let w = choose|w: int|
                                    0 <= w < text::views(before).len() && text::views(before)[w]
                                        == q;
                                assert(text::views(seen@)[w] == q);
                            }
                        }
                    }
                } else {
                    assert(files_of(all, *id, i as int).contains(p));
                    assert(files_of(all, *id, i + 1) =~= files_of(all, *id, i as int));
                }
            }
            i += 1;
        }
        (count as u32, seen.len() as u32)
    }

    /// The snaps of single files of a session, in the order stored.
    pub fn file_list(&self, id: &SessionId) -> (r: Vec<Snap>)
        ensures
            snap_models(r@) == session_snaps(
                self.file_view(),
                *id,
                self.file_view().len() as int,
            ),
    {
        let mut r: Vec<Snap> = Vec::new();
        let mut i: usize = 0;
        let ghost all = self.file_view();
        assert(snap_models(r@) =~= session_snaps(all, *id, 0));
        while i < self.file_snaps.len()
            invariant
                i <= self.file_snaps.len(),
                all == self.file_view(),
                snap_models(r@) == session_snaps(all, *id, i as int),
            decreases self.file_snaps.len() - i,
        {
            let s = &self.file_snaps[i];
            assert(all[i as int] == (s.session, s.snap@));
            let ghost before = r@;
            if s.session == *id {
                r.push(s.snap.copy());
                assert(snap_models(r@) =~= snap_models(before).push(s.snap@));
            }
            i += 1;
        }
        r
    }

    /// Stores the next snap of a file. What it is compared with is the given earlier
    /// content, or else that of the last snap of the file in the session.
    pub fn write_next(
        &mut self,
        id: &SessionId,
        file_path: &str,
        content: &str,
        given: Option<&str>,
        now: Millis,
    ) -> (r: u32)
        requires
            following_seq(old(self).file_view(), *id) <= u32::MAX,
        ensures
            r == following_seq(old(self).file_view(), *id),
            final(self).paths == old(self).paths,
            final(self).snaps == old(self).snaps,
            final(self).file_view() == old(self).file_view().push(
                (
                    *id,
                    next_snap(
                        old(self).file_view(),
                        *id,
                        file_path@,
                        content@,
                        match given {
                            Some(p) => Some(p@),
                            None => None,
                        },
                        now,
                    ),
                ),
            ),
    {
        let ghost all = self.file_view();
        let prev_seq = self.last_seq_of(id, file_path);
        let against = match given {
            Some(p) => p.to_owned(),
            None => match prev_seq {
                Some(n) => {
                    proof {
                        lemma_last_seq(all, *id, Some(file_path@), all.len() as int);
                        lemma_seq_slot(all, *id, n, 0);
                    }
                    match self.read(id, n) {
                        Ok(s) => s.content.clone(),
                        Err(_) => String::new(),
                    }
                },
                None => {
                    let t = String::new();
                    assert(t@ =~= Seq::empty());
                    t
                },
            },
        };
        let mut d = diff::line_diff(against.as_str(), content);
        d.prev_seq = prev_seq;
        let seq: u32 = self.next_seq(id);
        proof {
            law_following_seq_is_free(all, *id);
        }
        let snap = SnapStore::build_snap(
            seq,
            file_path.to_owned(),
            content.to_owned(),
            d,
            prev_seq,
            now,
        );
        self.write(id, snap);
        seq
    }
}

/// What snaps say.
pub open spec fn snap_models(snaps: Seq<Snap>) -> Seq<SnapModel> {
    snaps.map_values(|s: Snap| s@)
}

/// The snaps among the first `k` that belong to a session.
pub open spec fn session_snaps(snaps: Seq<(SessionId, SnapModel)>, id: SessionId, k: int) -> Seq<
    SnapModel,
>
    decreases k,
{
    if k <= 0 {
        Seq::empty()
    } else if snaps[k - 1].0 == id {
        session_snaps(snaps, id, k - 1).push(snaps[k - 1].1)
    } else {
        session_snaps(snaps, id, k - 1)
    }
}

/// Whether a text is in a list.
pub fn holds_text(v: &Vec<String>, t: &str) -> (r: bool)
    ensures
        r == text::views(v@).contains(t@),
{
    let mut i: usize = 0;
    while i < v.len()
        invariant
            i <= v.len(),
            forall|k: int| 0 <= k < i ==> (#[trigger] text::views(v@)[k]) != t@,
        decreases v.len() - i,
    {
        if text::same(v[i].as_str(), t) {
            assert(text::views(v@)[i as int] == t@);
            return true;
        }
        i += 1;
    }
    false
}

/// The files of a session are those that some snap of it is of, each once.
pub proof fn law_files_are_those_of_the_snaps(snaps: Seq<(SessionId, SnapModel)>, id: SessionId, k: int)
    requires
        0 <= k <= snaps.len(),
    ensures
        files_of(snaps, id, k).finite(),
        forall|p: Seq<char>| #[trigger]
            files_of(snaps, id, k).contains(p) <==> exists|i: int|
                0 <= i < k && (#[trigger] snaps[i]).0 == id && snaps[i].1.file_path == p,
    decreases k,
{
    if k > 0 {
        law_files_are_those_of_the_snaps(snaps, id, k - 1);
        assert forall|p: Seq<char>| #[trigger]
            files_of(snaps, id, k).contains(p) <==> exists|i: int|
                0 <= i < k && (#[trigger] snaps[i]).0 == id && snaps[i].1.file_path == p by {
            if files_of(snaps, id, k - 1).contains(p) {
                let i = choose|i: int|
                    0 <= i < k - 1 && (#[trigger] snaps[i]).0 == id && snaps[i].1.file_path == p;
                assert(snaps[i].0 == id);
            } else if files_of(snaps, id, k).contains(p) {
                assert(snaps[k - 1].0 == id);
            }
        }
    }
}

/// Whether a snap belongs to a session.
pub open spec fn of_session(id: SessionId) -> spec_fn((SessionId, SnapModel)) -> bool {
    |s: (SessionId, SnapModel)| s.0 == id
}

/// The number of a session's snaps is how many of all snaps belong to it.
pub proof fn law_snaps_are_counted(snaps: Seq<(SessionId, SnapModel)>, id: SessionId, k: int)
    requires
        0 <= k <= snaps.len(),
    ensures
        snaps_of(snaps, id, k) == snaps.take(k).filter(of_session(id)).len(),
    decreases k,
{
    reveal(Seq::filter);
    if k > 0 {
        law_snaps_are_counted(snaps, id, k - 1);
        assert(snaps.take(k).drop_last() =~= snaps.take(k - 1));
    }
}

/// The listing of a session holds what its snaps say, in the order stored, and nothing else.
pub proof fn law_session_snaps_are_all(snaps: Seq<(SessionId, SnapModel)>, id: SessionId, k: int)
    requires
        0 <= k <= snaps.len(),
    ensures
        session_snaps(snaps, id, k) == snaps.take(k).filter(of_session(id)).map_values(
            |s: (SessionId, SnapModel)| s.1,
        ),
    decreases k,
{
    reveal(Seq::filter);
    let keep = of_session(id);
    let what = |s: (SessionId, SnapModel)| s.1;
    if k > 0 {
        law_session_snaps_are_all(snaps, id, k - 1);
        assert(snaps.take(k).drop_last() =~= snaps.take(k - 1));
        let rest = snaps.take(k - 1).filter(keep);
        assert(rest.push(snaps[k - 1]).map_values(what) =~= rest.map_values(what).push(
            snaps[k - 1].1,
        ));
    } else {
        assert(session_snaps(snaps, id, k) =~= snaps.take(k).filter(keep).map_values(what));
    }
}

/// The next snap of a file says what was written: the path, the content, the time. Its number
/// is above those of all snaps of the session, by one, or 0 where there is none. It points at
/// the last snap of the same file, where there is one, and at nothing otherwise.
pub proof fn law_next_snap_says_what_was_written(
    snaps: Seq<(SessionId, SnapModel)>,
    id: SessionId,
    file_path: Seq<char>,
    content: Seq<char>,
    given: Option<Seq<char>>,
    now: Millis,
)
    requires
        following_seq(snaps, id) <= u32::MAX,
    ensures
        ({
            let m = next_snap(snaps, id, file_path, content, given, now);
            &&& m.version == STORAGE_VERSION
            &&& m.file_path == file_path
            &&& m.content == content
            &&& m.timestamp == now
            &&& time::rfc3339(now) matches Some(t) ==> m.timestamp_iso == t
            &&& m.seq == following_seq(snaps, id)
            &&& forall|i: int|
                0 <= i < snaps.len() && (#[trigger] snaps[i]).0 == id ==> snaps[i].1.seq < m.seq
            &&& m.seq == 0 || exists|i: int|
                0 <= i < snaps.len() && (#[trigger] snaps[i]).0 == id && snaps[i].1.seq == m.seq - 1
            &&& m.diff_prev_seq == m.prev_seq
            &&& match m.prev_seq {
                Some(n) => (exists|i: int|
                    0 <= i < snaps.len() && (#[trigger] snaps[i]).0 == id && snaps[i].1.file_path
                        == file_path && snaps[i].1.seq == n) && forall|i: int|
                    0 <= i < snaps.len() && (#[trigger] snaps[i]).0 == id && snaps[i].1.file_path
                        == file_path ==> snaps[i].1.seq <= n,
                None => forall|i: int|
                    0 <= i < snaps.len() && (#[trigger] snaps[i]).0 == id ==> snaps[i].1.file_path
                        != file_path,
            }
        }),
{
    let n = snaps.len() as int;
    let m = next_snap(snaps, id, file_path, content, given, now);
    lemma_last_seq(snaps, id, None, n);
    lemma_last_seq(snaps, id, Some(file_path), n);
    assert forall|i: int| 0 <= i < snaps.len() && (#[trigger] snaps[i]).0 == id implies snaps[i].1.seq
        < m.seq by {
        assert(concerns(snaps[i], id, None));
    }
    if let Some(s) = last_seq(snaps, id, None, n) {
        let i = choose|i: int|
            0 <= i < n && concerns(#[trigger] snaps[i], id, None) && snaps[i].1.seq == s;
        assert(snaps[i].0 == id);
    }
    match m.prev_seq {
        Some(s) => {
            let i = choose|i: int|
                0 <= i < n && concerns(#[trigger] snaps[i], id, Some(file_path)) && snaps[i].1.seq
                    == s;
            assert(snaps[i].0 == id);
            assert forall|i: int|
                0 <= i < snaps.len() && (#[trigger] snaps[i]).0 == id && snaps[i].1.file_path
                    == file_path implies snaps[i].1.seq <= s by {
                assert(concerns(snaps[i], id, Some(file_path)));
            }
        },
        None => {
            assert forall|i: int| 0 <= i < snaps.len() && (#[trigger] snaps[i]).0
                == id implies snaps[i].1.file_path != file_path by {
                assert(!concerns(snaps[i], id, Some(file_path)));
            }
        },
    }
}

/// The lines of the next snap are those that its content added to and removed from the content
/// given, or else from that of the last snap of the same file, or else from nothing.
pub proof fn law_next_snap_is_compared_with_the_last(
    snaps: Seq<(SessionId, SnapModel)>,
    id: SessionId,
    file_path: Seq<char>,
    content: Seq<char>,
    given: Option<Seq<char>>,
    now: Millis,
    last: int,
)
    requires
        forall|i: int, j: int|
            0 <= i < j < snaps.len() && (#[trigger] snaps[i]).0 == id && (#[trigger] snaps[j]).0
                == id ==> snaps[i].1.seq != snaps[j].1.seq,
    ensures
        ({
            let m = next_snap(snaps, id, file_path, content, given, now);
            &&& given matches Some(g) ==> m.added_lines == diff::added(diff::line_ops(g, content))
                && m.removed_lines == diff::removed(diff::line_ops(g, content))
            &&& given is None && 0 <= last < snaps.len() && snaps[last].0 == id
                && snaps[last].1.file_path == file_path && (forall|i: int|
                0 <= i < snaps.len() && (#[trigger] snaps[i]).0 == id && snaps[i].1.file_path
                    == file_path ==> snaps[i].1.seq <= snaps[last].1.seq) ==> m.added_lines
                == diff::added(diff::line_ops(snaps[last].1.content, content)) && m.removed_lines
                == diff::removed(diff::line_ops(snaps[last].1.content, content))
            &&& given is None && (forall|i: int|
                0 <= i < snaps.len() && (#[trigger] snaps[i]).0 == id ==> snaps[i].1.file_path
                    != file_path) ==> m.added_lines == diff::added(
                diff::line_ops(Seq::empty(), content),
            ) && m.removed_lines == diff::removed(diff::line_ops(Seq::empty(), content))
        }),
{
    let n = snaps.len() as int;
    lemma_last_seq(snaps, id, Some(file_path), n);
    if let Some(s) = last_seq(snaps, id, Some(file_path), n) {
        let i = choose|i: int|
            0 <= i < n && concerns(#[trigger] snaps[i], id, Some(file_path)) && snaps[i].1.seq == s;
        assert(snaps[i].0 == id);
        lemma_seq_slot(snaps, id, s, 0);
        let w = seq_slot(snaps, id, s, 0)->0;
        assert(snaps[w].0 == id);
        assert(w == i);
        if 0 <= last < n && snaps[last].0 == id && snaps[last].1.file_path == file_path {
            assert(concerns(snaps[last], id, Some(file_path)));
            if snaps[last].1.seq == s {
                assert(last == i);
            }
        }
    } else if 0 <= last < n && snaps[last].0 == id && snaps[last].1.file_path == file_path {
        assert(!concerns(snaps[last], id, Some(file_path)));
    }
}

/// A snap that was stored is found under its number, and says what was stored. All other snaps
/// stay.
pub proof fn law_stored_snap_is_read_back(
    snaps: Seq<(SessionId, SnapModel)>,
    id: SessionId,
    m: SnapModel,
    other: SessionId,
    seq: u32,
)
    ensures
        ({
            let after = with_snap(snaps, id, m);
            &&& seq_slot(after, id, m.seq, 0) matches Some(i) && after[i] == (id, m)
            &&& (other, seq) != (id, m.seq) ==> match seq_slot(snaps, other, seq, 0) {
                Some(i) => seq_slot(after, other, seq, 0) == Some(i) && after[i] == snaps[i],
                None => seq_slot(after, other, seq, 0) is None,
            }
        }),
{
    let after = with_snap(snaps, id, m);
    lemma_seq_slot(snaps, id, m.seq, 0);
    lemma_seq_slot(snaps, other, seq, 0);
    let at = match seq_slot(snaps, id, m.seq, 0) {
        Some(i) => i,
        None => snaps.len() as int,
    };
    lemma_seq_slot_first(snaps, id, m.seq, 0);
    lemma_slot_is(after, id, m.seq, at, 0);
    if (other, seq) != (id, m.seq) {
        lemma_seq_slot_first(snaps, other, seq, 0);
        match seq_slot(snaps, other, seq, 0) {
            Some(i) => {
                lemma_slot_is(after, other, seq, i, 0);
            },
            None => {
                lemma_seq_slot(after, other, seq, 0);
                if let Some(j) = seq_slot(after, other, seq, 0) {
                    if j != at {
                        assert(after[j] == snaps[j]);
                    }
                }
            },
        }
    }
}

proof fn lemma_seq_slot_first(snaps: Seq<(SessionId, SnapModel)>, id: SessionId, seq: u32, k: int)
    requires
        0 <= k,
    ensures
        seq_slot(snaps, id, seq, k) matches Some(i) ==> forall|j: int|
            k <= j < i ==> !((#[trigger] snaps[j]).0 == id && snaps[j].1.seq == seq),
    decreases snaps.len() - k,
{
    if k < snaps.len() && !(snaps[k].0 == id && snaps[k].1.seq == seq) {
        lemma_seq_slot_first(snaps, id, seq, k + 1);
    }
}

proof fn lemma_slot_is(snaps: Seq<(SessionId, SnapModel)>, id: SessionId, seq: u32, i: int, k: int)
    requires
        0 <= k <= i < snaps.len(),
        snaps[i].0 == id,
        snaps[i].1.seq == seq,
        forall|j: int| k <= j < i ==> !((#[trigger] snaps[j]).0 == id && snaps[j].1.seq == seq),
    ensures
        seq_slot(snaps, id, seq, k) == Some(i),
    decreases i - k,
{
    if k < i {
        lemma_slot_is(snaps, id, seq, i, k + 1);
    }
}

} // verus!
