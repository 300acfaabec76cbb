//! The lock that keeps two interfaces from running on one project.
//!
//! The lock is a file with the id of the process that holds it. A file whose process
//! is gone, or that names none, is stale: it is removed and the lock tried again.

use crate::error::GrsError;
use crate::path::{FsPath, PathModel};
use crate::text;
use vstd::prelude::*;

verus! {

/// How often taking the lock is tried.
pub const MAX_ATTEMPTS: u32 = 3;

/// The process id in the text of a lock file: a number on its first line.
pub open spec fn pid_in(contents: Seq<char>) -> Option<u32> {
    if text::lines(contents).len() == 0 {
        None
    } else {
        text::u32_in(text::trim(text::lines(contents)[0]))
    }
}

/// The process that a lock file names. `None` stands for a file that cannot be read.
pub open spec fn holder(contents: Option<Seq<char>>) -> Option<u32> {
    match contents {
        Some(c) => pid_in(c),
        None => None,
    }
}

/// Reads the process id from a lock file.
pub fn read_pid(contents: &Option<String>) -> (r: Option<u32>)
    ensures
        r == holder(text::opt_view(*contents)),
{
    match contents {
        Some(c) => {
            let ls = text::lines_of(c.as_str());
            assert(text::views(ls@).len() == ls@.len());
            if ls.len() == 0 {
                return None;
            }
            assert(text::views(ls@)[0] == ls@[0]@);
            let first = text::trimmed(ls[0].as_str());
            text::parse_u32(first.as_str())
        },
        None => None,
    }
}

/// The text of a lock file held by a process.
pub open spec fn lock_text(pid: u32) -> Seq<char> {
    text::decimal(pid as nat) + "\n"@
}

/// The text to write into a lock file.
pub fn lock_contents(pid: u32) -> (r: String)
    ensures
        r@ == lock_text(pid),
{
    text::concat(text::decimal_of(pid as u64).as_str(), "\n")
}

/// What is found where the lock belongs.
#[derive(Debug)]
pub enum LockFile {
    Absent,
    /// A file, with its text where it can be read, and whether the process that it
    /// names is alive.
    Present { contents: Option<String>, alive: bool },
}

/// What to do next.
#[derive(Debug)]
pub enum LockAction {
    /// Remove the stale file and look again.
    Remove,
    /// Create the file, and fail if it exists by then.
    Create,
    /// Give up.
    Refuse(GrsError),
}

/// An attempt to take the lock.
#[derive(Debug)]
pub struct LockAttempt {
    pub path: FsPath,
    /// How many times the lock was looked at.
    pub tries: u32,
}

/// A lock that is held.
#[derive(Debug)]
pub struct LockGuard {
    pub path: FsPath,
}

/// Whether `e` says that a living process holds the lock.
pub open spec fn held_error(pid: u32, path: PathModel, e: GrsError) -> bool {
    e is AlreadyRunning && e->AlreadyRunning_0@ == "pid "@ + text::decimal(pid as nat)
        + " holds the lock at "@ + path.text()
}

/// Whether `e` says that the attempts are used up.
pub open spec fn used_up_error(path: PathModel, e: GrsError) -> bool {
    e is AlreadyRunning && e->AlreadyRunning_0@ == "could not acquire lock at "@ + path.text()
        + " after 3 attempts"@
}

/// What a look at the lock decides.
pub open spec fn looked(
    before: LockAttempt,
    after: LockAttempt,
    found: LockFile,
    r: LockAction,
) -> bool {
    &&& after.path == before.path
    &&& if before.tries == MAX_ATTEMPTS {
        after.tries == before.tries && r is Refuse && used_up_error(before.path@, r->Refuse_0)
    } else {
        after.tries == before.tries + 1 && match found {
            LockFile::Absent => r is Create,
            LockFile::Present { contents, alive } => match holder(text::opt_view(contents)) {
                Some(pid) => if alive {
                    r is Refuse && held_error(pid, before.path@, r->Refuse_0)
                } else {
                    r is Remove
                },
                None => r is Remove,
            },
        }
    }
}

impl LockAttempt {
    /// Whether no more than the allowed number of looks was taken.
    pub open spec fn wf(self) -> bool {
        self.tries <= MAX_ATTEMPTS
    }

    /// Decides by what is found where the lock belongs. Each look counts as a try, and
    /// after three of them the attempt is over. A living holder ends it at once.
    pub fn look(&mut self, found: &LockFile) -> (r: LockAction)
        requires
            old(self).wf(),
        ensures
            final(self).wf(),
            looked(*old(self), *final(self), *found, r),
    {
        if self.tries == MAX_ATTEMPTS {
            let m = text::concat3(
                "could not acquire lock at ",
                self.path.text().as_str(),
                " after 3 attempts",
            );
            return LockAction::Refuse(GrsError::AlreadyRunning(m));
        }
        self.tries = self.tries + 1;
        match found {
            LockFile::Absent => LockAction::Create,
            LockFile::Present { contents, alive } => match read_pid(contents) {
                Some(pid) => {
                    if *alive {
                        let mut m = text::concat3(
                            "pid ",
                            text::decimal_of(pid as u64).as_str(),
                            " holds the lock at ",
                        );
                        m.append(self.path.text().as_str());
                        LockAction::Refuse(GrsError::AlreadyRunning(m))
                    } else {
                        LockAction::Remove
                    }
                },
                None => LockAction::Remove,
            },
        }
    }

    /// The lock, once its file was created.
    pub fn taken(self) -> (r: LockGuard)
        ensures
            r.path == self.path,
    {
        LockGuard { path: self.path }
    }
}

/// Whether a process removes a lock file on release.
pub open spec fn lets_go(contents: Option<Seq<char>>, own_pid: u32) -> bool {
    holder(contents) == Some(own_pid)
}

impl LockGuard {
    /// The start of an attempt to take the lock.
    pub fn acquire(path: &FsPath) -> (r: LockAttempt)
        ensures
            r.wf(),
            r.path@ == path@,
            r.tries == 0,
    {
        LockAttempt { path: path.copy(), tries: 0 }
    }

    /// Where the lock lies.
    pub fn path(&self) -> (r: &FsPath)
        ensures
            *r == self.path,
    {
        &self.path
    }

    /// Whether the file is to be removed on release: only while it names the process
    /// that took the lock.
    pub fn releases(&self, contents: &Option<String>, own_pid: u32) -> (r: bool)
        ensures
            r == lets_go(text::opt_view(*contents), own_pid),
    {
        match read_pid(contents) {
            Some(pid) => pid == own_pid,
            None => false,
        }
    }
}

/// The text that a process writes into the lock file names that process, so it finds
/// its own lock held and releases it.
pub proof fn law_lock_names_its_holder(pid: u32)
    ensures
        pid_in(lock_text(pid)) == Some(pid),
{
    let d = text::decimal(pid as nat);
    let s = lock_text(pid);
    text::lemma_decimal_round_trip(pid as nat);
    reveal_strlit("\n");
    text::lemma_find(s, '\n', 0);
    assert(s[d.len() as int] == '\n');
    assert forall|i: int| 0 <= i < d.len() implies s[i] != '\n' && !text::space(s[i]) by {
        assert(s[i] == d[i]);
        assert(text::is_digit(d[i]));
    }
    assert(text::find(s, '\n', 0) == d.len());
    assert(s.take(d.len() as int) =~= d);
    assert(text::is_digit(d[d.len() - 1]));
    assert(text::is_digit(d[0]));
    assert(text::strip_cr(d) == d);
    assert(text::lines(s)[0] == d);
    assert(text::trim_start(d) == d);
    assert(text::trim_end(d) == d);
}

/// The lock of a living process is never taken: its holder is named and the attempt is over. A
/// file of a process that is gone, or that names none, is removed; where there is no file, one is
/// created. After the last attempt nothing is done.
pub proof fn law_living_holder_keeps_the_lock(
    before: LockAttempt,
    after: LockAttempt,
    pid: u32,
    alive: bool,
    contents: String,
    r: LockAction,
)
    requires
        before.wf(),
        contents@ == lock_text(pid),
        looked(before, after, LockFile::Present { contents: Some(contents), alive }, r),
    ensures
        alive ==> r is Refuse && r->Refuse_0 is AlreadyRunning,
        alive && before.tries < MAX_ATTEMPTS ==> r->Refuse_0->AlreadyRunning_0@ == "pid "@
            + text::decimal(pid as nat) + " holds the lock at "@ + before.path@.text(),
        !alive && before.tries < MAX_ATTEMPTS ==> r is Remove,
        before.tries == MAX_ATTEMPTS ==> r is Refuse,
{
    law_lock_names_its_holder(pid);
}

/// A lock that is free is taken, and one whose file says nothing of use is cleared away first.
/// Each look counts.
pub proof fn law_free_lock_is_taken(
    before: LockAttempt,
    after: LockAttempt,
    found: LockFile,
    r: LockAction,
)
    requires
        before.wf(),
        before.tries < MAX_ATTEMPTS,
        looked(before, after, found, r),
    ensures
        after.tries == before.tries + 1,
        found is Absent ==> r is Create,
        found matches LockFile::Present { contents: None, .. } ==> r is Remove,
{
}

/// A process removes its own lock on release, and never that of another.
pub proof fn law_only_the_own_lock_is_released(pid: u32, own_pid: u32)
    ensures
        lets_go(Some(lock_text(pid)), own_pid) <==> pid == own_pid,
        !lets_go(None, own_pid),
{
    law_lock_names_its_holder(pid);
}

} // verus!
