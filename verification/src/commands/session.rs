//! `grs session`: list, view, rename and remove sessions.

use crate::command_error;
use crate::command_error::CommandError;
use crate::error::GrsError;
use crate::model::SessionMeta;
use crate::session;
use crate::order;
use crate::session::{Resolution, StoredSession};
use crate::store;
use crate::store::RepoStore;
use crate::text;
use crate::util::time;
use crate::util::time::Millis;
use vstd::prelude::*;

verus! {

/// Which sessions to list.
#[derive(Clone, Copy, Debug, PartialEq, Eq, Structural)]
pub struct ListArgs {
    /// Only those that have ended.
    pub ended: bool,
    /// Only those that are open.
    pub open: bool,
}

/// Which session to view.
#[derive(Debug)]
pub struct ViewArgs {
    pub name_or_id: String,
}

/// Which session to rename, and to what.
#[derive(Debug)]
pub struct RenameArgs {
    pub old: String,
    pub new: String,
}

/// Which session to remove.
#[derive(Debug)]
pub struct RmArgs {
    pub name_or_id: String,
    /// Do not ask.
    pub yes: bool,
}

/// What to do with sessions.
#[derive(Debug)]
pub enum SessionCmd {
    List(ListArgs),
    View(ViewArgs),
    Rename(RenameArgs),
    Rm(RmArgs),
}

/// Whether a session is listed.
pub open spec fn listed(args: ListArgs, s: SessionMeta) -> bool {
    if args.ended {
        !s.open_now()
    } else if args.open {
        s.open_now()
    } else {
        true
    }
}

/// The length of the longest of the first `k` names.
pub open spec fn longest(sessions: Seq<SessionMeta>, k: int) -> nat
    decreases k,
{
    if k <= 0 {
        0
    } else if longest(sessions, k - 1) > sessions[k - 1].name@.len() {
        longest(sessions, k - 1)
    } else {
        sessions[k - 1].name@.len()
    }
}

/// The width of the column of names: that of the longest, at least 4 and at most 40.
pub open spec fn name_width(sessions: Seq<SessionMeta>) -> nat {
    let n = longest(sessions, sessions.len() as int);
    if n < 4 {
        4
    } else if n > 40 {
        40
    } else {
        n
    }
}

/// The line for a session.
pub open spec fn session_line(s: SessionMeta, width: nat, now: Millis) -> Seq<char> {
    (if s.open_now() {
        "open  "@
    } else {
        "ended "@
    }) + "  "@ + text::pad_right(s.name@, width) + "  "@ + text::pad_left(
        text::decimal(s.snap_count as nat),
        ' ',
        3,
    ) + " snaps  started "@ + text::pad_right(
        time::ago(
            if now < s.started_at {
                0
            } else {
                now - s.started_at
            },
        ),
        10,
    ) + "  "@ + text::first_chars(s.id.text(), 8)
}

/// The lines of a listing: one for each session, or a note where there is none.
pub open spec fn listing(sessions: Seq<SessionMeta>, now: Millis) -> Seq<Seq<char>> {
    if sessions.len() == 0 {
        seq!["(no sessions)"@]
    } else {
        Seq::new(
            sessions.len(),
            |i: int| session_line(sessions[i], name_width(sessions), now),
        )
    }
}

fn line_for(s: &SessionMeta, width: usize, now: Millis) -> (r: String)
    requires
        i64::MIN <= now - s.started_at <= i64::MAX,
    ensures
        r@ == session_line(*s, width as nat, now),
{
    let status = if s.is_open() {
        "open  "
    } else {
        "ended "
    };
    let mut r = text::concat3(
        status,
        "  ",
        text::padded_right(s.name.as_str(), width).as_str(),
    );
    r.append("  ");
    r.append(text::padded_left(text::decimal_of(s.snap_count as u64).as_str(), ' ', 3).as_str());
    r.append(" snaps  started ");
    r.append(text::padded_right(time::time_ago(s.started_at, now).as_str(), 10).as_str());
    r.append("  ");
    r.append(text::shorten(s.id.as_str().as_str(), 8).as_str());
    r
}

/// The sessions of a listing.
pub open spec fn chosen(all: Seq<SessionMeta>, args: ListArgs) -> Seq<SessionMeta> {
    all.filter(|s: SessionMeta| listed(args, s))
}

fn choose_listed(all: Vec<SessionMeta>, args: ListArgs) -> (r: Vec<SessionMeta>)
    ensures
        r@ == chosen(all@, args),
{
    let ghost keep = |s: SessionMeta| listed(args, s);
    let mut r: Vec<SessionMeta> = Vec::new();
    let mut i: usize = 0;
    assert(all@.take(0) =~= Seq::empty());
    assert(r@ =~= all@.take(0).filter(keep)) by {
        reveal(Seq::filter);
    }
    while i < all.len()
        invariant
            i <= all.len(),
            keep == (|s: SessionMeta| listed(args, s)),
            r@ == all@.take(i as int).filter(keep),
        decreases all.len() - i,
    {
        let s = &all[i];
        let open = s.is_open();
        let wanted = if args.ended {
            !open
        } else if args.open {
            open
        } else {
            true
        };
        assert(all@.take(i + 1).drop_last() =~= all@.take(i as int));
        if wanted {
            r.push(s.copy());
        }
        proof {
            reveal(Seq::filter);
            assert(r@ == all@.take(i + 1).filter(keep));
        }
        i += 1;
    }
    assert(all@.take(i as int) =~= all@);
    r
}

fn width_of_names(sessions: &Vec<SessionMeta>) -> (r: usize)
    ensures
        r == name_width(sessions@),
{
    let mut n: usize = 0;
    let mut i: usize = 0;
    while i < sessions.len()
        invariant
            i <= sessions.len(),
            n == longest(sessions@, i as int),
        decreases sessions.len() - i,
    {
        let k: usize = text::chars_of(sessions[i].name.as_str()).len();
        if k >= n {
            n = k;
        }
        i += 1;
    }
    if n < 4 {
        4
    } else if n > 40 {
        40
    } else {
        n
    }
}

/// The lines that `grs session list` prints at `now`.
pub fn list(store: &RepoStore, args: &ListArgs, now: Millis) -> (r: Vec<String>)
    requires
        forall|i: int|
            0 <= i < store.sessions.all().len() ==> i64::MIN <= now - (
            #[trigger] store.sessions.all()[i]).started_at <= i64::MAX,
    ensures
        text::views(r@) == listing(chosen(store.sessions.all(), *args), now),
{
    let all = store.sessions.list();
    let shown = choose_listed(all, *args);
    proof {
        assert forall|i: int| 0 <= i < shown@.len() implies i64::MIN <= now - (
        #[trigger] shown@[i]).started_at <= i64::MAX by {
            let keep = |s: SessionMeta| listed(*args, s);
            order::lemma_filter_holds(store.sessions.all(), keep, i);
            assert(store.sessions.all().contains(shown@[i]));
        }
    }
    let mut r: Vec<String> = Vec::new();
    if shown.len() == 0 {
        r.push("(no sessions)".to_owned());
        assert(text::views(r@) =~= listing(shown@, now));
        return r;
    }
    let width: usize = width_of_names(&shown);
    let mut i: usize = 0;
    let ghost want = listing(shown@, now);
    while i < shown.len()
        invariant
            i <= shown.len(),
            shown@.len() > 0,
            want == listing(shown@, now),
            width == name_width(shown@),
            forall|k: int|
                0 <= k < shown@.len() ==> i64::MIN <= now - (#[trigger] shown@[k]).started_at
                    <= i64::MAX,
            r@.len() == i,
            forall|k: int| 0 <= k < i ==> (#[trigger] r@[k])@ == want[k],
        decreases shown.len() - i,
    {
        r.push(line_for(&shown[i], width, now));
        i += 1;
    }
    assert(text::views(r@) =~= want);
    r
}

/// The session that `grs session view` shows.
pub fn view(store: &RepoStore, args: &ViewArgs) -> (r: Result<SessionMeta, CommandError>)
    ensures
        match r {
            Ok(m) => store.sessions.resolution(args.name_or_id@) == Resolution::Found(m),
            Err(e) => exists|g: GrsError| #[trigger]
                store.sessions.unresolved(args.name_or_id@, g) && e@ == command_error::told(g),
        },
{
    match store.sessions.resolve(args.name_or_id.as_str()) {
        Ok(m) => Ok(m),
        Err(g) => {
            assert(store.sessions.unresolved(args.name_or_id@, g));
            Err(CommandError::from_grs(&g))
        },
    }
}

/// Renames a session and says so.
pub fn rename(store: &mut RepoStore, args: &RenameArgs) -> (r: Result<String, CommandError>)
    ensures
        final(store).same_project(*old(store)),
        final(store).snaps == old(store).snaps,
        final(store).head == old(store).head,
        match r {
            Ok(t) => exists|m: SessionMeta| #[trigger]
                session::renames(
                    old(store).sessions,
                    final(store).sessions,
                    args.old@,
                    args.new,
                    Ok(m),
                ) && t@ == "renamed to \""@ + m.name@ + "\""@,
            Err(e) => exists|g: GrsError| #[trigger]
                session::renames(
                    old(store).sessions,
                    final(store).sessions,
                    args.old@,
                    args.new,
                    Err(g),
                ) && e@ == command_error::told(g),
        },
{
    let ghost before = store.sessions;
    match store.sessions.rename(args.old.as_str(), args.new.clone()) {
        Ok(m) => {
            assert(session::renames(before, store.sessions, args.old@, args.new, Ok(m)));
            Ok(text::concat3("renamed to \"", m.name.as_str(), "\""))
        },
        Err(g) => {
            assert(session::renames(before, store.sessions, args.old@, args.new, Err(g)));
            Err(CommandError::from_grs(&g))
        },
    }
}

/// What removing a session comes to.
#[derive(Debug)]
pub enum RmStep {
    /// The user is asked with this line first.
    Ask(SessionMeta, String),
    /// The session is removed at once.
    Go(SessionMeta),
}

/// The question before a session is removed.
pub open spec fn question(s: SessionMeta) -> Seq<char> {
    "Delete session \""@ + s.name@ + "\" and its "@ + text::decimal(s.snap_count as nat)
        + " snaps? [y/N] "@
}

/// What a check before a removal gives.
pub open spec fn checks_removal(
    store: RepoStore,
    args: RmArgs,
    r: Result<RmStep, CommandError>,
) -> bool {
    match store.sessions.resolution(args.name_or_id@) {
        Resolution::Found(m) => if m.open_now() {
            r is Err && r->Err_0@ == command_error::user(
                "session \""@ + m.name@ + "\" is still open; quit the TUI first"@,
            )
        } else if args.yes {
            r == Ok::<RmStep, CommandError>(RmStep::Go(m))
        } else {
            r is Ok && r->Ok_0 is Ask && r->Ok_0->Ask_0 == m && r->Ok_0->Ask_1@ == question(m)
        },
        _ => r is Err && exists|g: GrsError| #[trigger]
            store.sessions.unresolved(args.name_or_id@, g) && r->Err_0@ == command_error::told(g),
    }
}

/// Whether a session can be removed, and whether the user must be asked. One that is open
/// is refused.
pub fn rm_check(store: &RepoStore, args: &RmArgs) -> (r: Result<RmStep, CommandError>)
    ensures
        checks_removal(*store, *args, r),
{
    let s = match store.sessions.resolve(args.name_or_id.as_str()) {
        Ok(s) => s,
        Err(g) => {
            assert(store.sessions.unresolved(args.name_or_id@, g));
            return Err(CommandError::from_grs(&g));
        },
    };
    if s.is_open() {
        return Err(
            CommandError::user_error(
                text::concat3(
                    "session \"",
                    s.name.as_str(),
                    "\" is still open; quit the TUI first",
                ),
            ),
        );
    }
    if args.yes {
        return Ok(RmStep::Go(s));
    }
    let mut q = text::concat3("Delete session \"", s.name.as_str(), "\" and its ");
    q.append(text::decimal_of(s.snap_count as u64).as_str());
    q.append(" snaps? [y/N] ");
    Ok(RmStep::Ask(s, q))
}

/// Whether an answer is a yes: the letter, in either case, among white space.
pub open spec fn says_yes(answer: Seq<char>) -> bool {
    text::lowered(text::trim(answer)) == "y"@
}

/// Whether an answer is a yes: the letter, in either case, among white space.
pub fn is_yes(answer: &str) -> (r: bool)
    ensures
        r == says_yes(answer@),
{
    let t = text::to_lowercase(text::trimmed(answer).as_str());
    text::same(t.as_str(), "y")
}

/// Removes a session and says so.
pub fn rm(store: &mut RepoStore, s: &SessionMeta) -> (r: Result<String, CommandError>)
    ensures
        match r {
            Ok(t) => store::deletes(*old(store), *final(store), s.id, Ok(())) && t@
                == "deleted session \""@ + s.name@ + "\""@,
            Err(e) => exists|g: GrsError| #[trigger]
                store::deletes(*old(store), *final(store), s.id, Err(g)) && e@
                    == command_error::told(g),
        },
{
    let ghost before = *store;
    match store.delete_session(&s.id) {
        Ok(_) => Ok(text::concat3("deleted session \"", s.name.as_str(), "\"")),
        Err(g) => {
            assert(store::deletes(before, *store, s.id, Err(g)));
            Err(CommandError::from_grs(&g))
        },
    }
}

/// What is said where the user does not want a session removed.
pub const ABORTED: &'static str = "aborted";

/// An open session is never removed, whatever it is called by.
pub proof fn law_open_sessions_stay(store: RepoStore, after: RepoStore, m: SessionMeta, r: Result<
    (),
    GrsError,
>)
    requires
        store.sessions.record(m.id) == StoredSession::Present(m),
        m.open_now(),
        store::deletes(store, after, m.id, r),
    ensures
        after == store,
        r is Err,
{
}

/// The options choose by whether a session has ended. Without one, all are listed.
pub proof fn law_options_choose_the_sessions(all: Seq<SessionMeta>, args: ListArgs, s: SessionMeta)
    ensures
        chosen(all, args).contains(s) <==> all.contains(s) && (if args.ended {
            s.ended_at is Some
        } else if args.open {
            s.ended_at is None
        } else {
            true
        }),
{
    let keep = |x: SessionMeta| listed(args, x);
    if chosen(all, args).contains(s) {
        let i = choose|i: int| 0 <= i < chosen(all, args).len() && chosen(all, args)[i] == s;
        order::lemma_filter_holds(all, keep, i);
    }
    if all.contains(s) && keep(s) {
        order::lemma_filter_keeps(all, keep, s);
    }
}

proof fn lemma_longest(sessions: Seq<SessionMeta>, k: int)
    requires
        0 <= k <= sessions.len(),
    ensures
        forall|i: int| 0 <= i < k ==> (#[trigger] sessions[i]).name@.len() <= longest(sessions, k),
        longest(sessions, k) == 0 || exists|i: int|
            0 <= i < k && (#[trigger] sessions[i]).name@.len() == longest(sessions, k),
    decreases k,
{
    if k > 0 {
        lemma_longest(sessions, k - 1);
        if longest(sessions, k) == sessions[k - 1].name@.len() {
            assert(sessions[k - 1].name@.len() == longest(sessions, k));
        } else if longest(sessions, k) != 0 {
            let i = choose|i: int|
                0 <= i < k - 1 && (#[trigger] sessions[i]).name@.len() == longest(sessions, k - 1);
            assert(sessions[i].name@.len() == longest(sessions, k));
        }
    }
}

/// A listing has one line for each session, in their order. It says whether the session is open,
/// what it is called, how many snaps it has, how long ago it started, and how its id begins.
/// The names stand in a column that is as wide as the longest of them, within limits.
pub proof fn law_each_session_has_a_line(sessions: Seq<SessionMeta>, now: Millis, i: int)
    requires
        0 <= i < sessions.len(),
    ensures
        ({
            let s = sessions[i];
            let line = listing(sessions, now)[i];
            let width = name_width(sessions);
            &&& listing(sessions, now).len() == sessions.len()
            &&& 4 <= width <= 40
            &&& s.name@.len() <= 40 ==> s.name@.len() <= width
            &&& text::has_prefix(
                line,
                (if s.ended_at is None {
                    "open  "@
                } else {
                    "ended "@
                }) + "  "@ + s.name@,
            )
            &&& text::has_suffix(
                line,
                "  "@ + text::pad_left(text::decimal(s.snap_count as nat), ' ', 3)
                    + " snaps  started "@ + text::pad_right(
                    time::ago(
                        if s.started_at <= now {
                            now - s.started_at
                        } else {
                            0
                        },
                    ),
                    10,
                ) + "  "@ + text::first_chars(s.id.text(), 8),
            )
        }),
{
    let s = sessions[i];
    let line = listing(sessions, now)[i];
    let width = name_width(sessions);
    lemma_longest(sessions, sessions.len() as int);
    assert(s.name@.len() <= longest(sessions, sessions.len() as int));
    text::law_padding(s.name@, ' ', width);
    let state = if s.ended_at is None {
        "open  "@
    } else {
        "ended "@
    };
    let padded = text::pad_right(s.name@, width);
    let start = state + "  "@ + s.name@;
    let count = text::pad_left(text::decimal(s.snap_count as nat), ' ', 3);
    let when = text::pad_right(
        time::ago(
            if s.started_at <= now {
                now - s.started_at
            } else {
                0
            },
        ),
        10,
    );
    let short = text::first_chars(s.id.text(), 8);
    let head = state + "  "@ + padded;
    let end = "  "@ + count + " snaps  started "@ + when + "  "@ + short;
    lemma_put_together(head, "  "@, count, " snaps  started "@, when, "  "@, short);
    assert(line == head + end);
    lemma_two_parts(head, end);
    lemma_longer_start(state + "  "@, s.name@, padded, end);
}

proof fn lemma_put_together(
    h: Seq<char>,
    a: Seq<char>,
    b: Seq<char>,
    c: Seq<char>,
    d: Seq<char>,
    e: Seq<char>,
    f: Seq<char>,
)
    ensures
        h + a + b + c + d + e + f == h + (a + b + c + d + e + f),
{
    assert(h + a + b =~= h + (a + b));
    assert(h + (a + b) + c =~= h + (a + b + c));
    assert(h + (a + b + c) + d =~= h + (a + b + c + d));
    assert(h + (a + b + c + d) + e =~= h + (a + b + c + d + e));
    assert(h + (a + b + c + d + e) + f =~= h + (a + b + c + d + e + f));
}

proof fn lemma_two_parts(a: Seq<char>, b: Seq<char>)
    ensures
        text::has_suffix(a + b, b),
        text::has_prefix(a + b, a),
{
    assert((a + b).skip(a.len() as int) =~= b);
    assert((a + b).take(a.len() as int) =~= a);
}

proof fn lemma_longer_start(a: Seq<char>, b: Seq<char>, longer: Seq<char>, rest: Seq<char>)
    requires
        text::has_prefix(longer, b),
    ensures
        text::has_prefix(a + longer + rest, a + b),
{
    assert((a + longer + rest).take((a + b).len() as int) =~= a + longer.take(b.len() as int));
}

/// The question names the session and how many snaps go with it.
pub proof fn law_question_names_the_session(s: SessionMeta)
    ensures
        question(s) == "Delete session \""@ + s.name@ + "\" and its "@ + text::decimal(
            s.snap_count as nat,
        ) + " snaps? [y/N] "@,
        listing(Seq::empty(), 0) == seq!["(no sessions)"@],
{
}

/// No session goes without being asked for: an open one is refused, one that has ended goes at
/// once only where the user said so beforehand, and otherwise they are asked about that very
/// session.
pub proof fn law_removal_is_asked_for(
    store: RepoStore,
    args: RmArgs,
    r: Result<RmStep, CommandError>,
    m: SessionMeta,
)
    requires
        checks_removal(store, args, r),
        store.sessions.resolution(args.name_or_id@) == Resolution::Found(m),
    ensures
        m.ended_at is None ==> r is Err,
        m.ended_at is Some && args.yes ==> r == Ok::<RmStep, CommandError>(RmStep::Go(m)),
        m.ended_at is Some && !args.yes ==> r is Ok && r->Ok_0 is Ask && r->Ok_0->Ask_0 == m,
{
}

/// Only the letter itself is a yes, small or large, whatever white space is around it.
pub proof fn law_only_the_letter_is_a_yes(answer: Seq<char>)
    ensures
        says_yes(answer) <==> text::trim(answer) == seq!['y'] || text::trim(answer) == seq!['Y'],
{
    let t = text::trim(answer);
    reveal_strlit("y");
    text::law_lower_case_by_character(t);
    if says_yes(answer) {
        assert(t.len() == 1);
        assert(text::lowered(t)[0] == 'y');
        assert(t[0] == 'y' || t[0] == 'Y');
        assert(t =~= seq![t[0]]);
    }
    if t == seq!['y'] || t == seq!['Y'] {
        assert(text::lowered(t) =~= "y"@);
    }
}

} // verus!
