//! The error of a command: its kind, its message, and hints for the user.

use crate::error::GrsError;
use crate::text;
use vstd::prelude::*;

verus! {

/// Who or what is at fault.
#[derive(Clone, Copy, Debug, PartialEq, Eq, Structural)]
pub enum CommandErrorKind {
    User,
    Config,
    Cli,
    BrokenPipe,
    Internal,
}

/// Why a command failed.
#[derive(Debug)]
pub struct CommandError {
    pub kind: CommandErrorKind,
    pub error: String,
    pub hints: Vec<String>,
}

/// Why a command failed, as characters.
#[verifier::ext_equal]
pub struct ErrorModel {
    pub kind: CommandErrorKind,
    pub error: Seq<char>,
    pub hints: Seq<Seq<char>>,
}

impl View for CommandError {
    type V = ErrorModel;

    open spec fn view(&self) -> ErrorModel {
        ErrorModel { kind: self.kind, error: self.error@, hints: text::views(self.hints@) }
    }
}

/// An error of the user without a hint.
pub open spec fn user(error: Seq<char>) -> ErrorModel {
    ErrorModel { kind: CommandErrorKind::User, error, hints: Seq::empty() }
}

/// An error of the user with one hint.
pub open spec fn user_hinted(error: Seq<char>, hint: Seq<char>) -> ErrorModel {
    ErrorModel { kind: CommandErrorKind::User, error, hints: seq![hint] }
}

/// What the user is told of an error of the engine.
pub open spec fn told(e: GrsError) -> ErrorModel {
    match e {
        GrsError::NotInitialized => user_hinted(
            "No .grs/ repository found here"@,
            "Run `grs` to open the TUI; it auto-initializes the repo on first run."@,
        ),
        GrsError::AlreadyInitialized => user_hinted(
            "This directory is already a grs repo"@,
            "It's already initialized; just run `grs` to open the TUI."@,
        ),
        GrsError::NotFound(m) => user(m@),
        GrsError::AmbiguousId(m) => user_hinted(
            "id \""@ + m@ + "\" matched multiple sessions"@,
            "Use more characters of the ULID to disambiguate."@,
        ),
        GrsError::Config(m) => user(m@),
        GrsError::Ignore(m) => user(m@),
        GrsError::UnsupportedVersion(v) => user_hinted(
            "grs storage version "@ + text::decimal(v as nat) + " is not supported by this build"@,
            "Upgrade grs."@,
        ),
        other => user(other.text()),
    }
}

impl CommandError {
    /// An error of a kind, without hints.
    pub fn new(kind: CommandErrorKind, error: String) -> (r: CommandError)
        ensures
            r@ == (ErrorModel { kind, error: error@, hints: Seq::empty() }),
    {
        let hints: Vec<String> = Vec::new();
        assert(text::views(hints@) =~= Seq::empty());
        CommandError { kind, error, hints }
    }

    /// An error of the user.
    pub fn user_error(msg: String) -> (r: CommandError)
        ensures
            r@ == user(msg@),
    {
        CommandError::new(CommandErrorKind::User, msg)
    }

    /// An error of the user that comes from another one.
    pub fn user_error_with_message(msg: &str, source: &str) -> (r: CommandError)
        ensures
            r@ == user(msg@ + ": "@ + source@),
    {
        CommandError::new(CommandErrorKind::User, text::concat3(msg, ": ", source))
    }

    /// An error that is not the user's.
    pub fn internal_error(source: String) -> (r: CommandError)
        ensures
            r@ == (ErrorModel {
                kind: CommandErrorKind::Internal,
                error: source@,
                hints: Seq::empty(),
            }),
    {
        CommandError::new(CommandErrorKind::Internal, source)
    }

    /// An error in the arguments of a command.
    pub fn cli_error(msg: String) -> (r: CommandError)
        ensures
            r@ == (ErrorModel { kind: CommandErrorKind::Cli, error: msg@, hints: Seq::empty() }),
    {
        CommandError::new(CommandErrorKind::Cli, msg)
    }

    /// With one more hint.
    pub fn hinted(self, hint: String) -> (r: CommandError)
        ensures
            r@ == (ErrorModel { hints: self@.hints.push(hint@), ..self@ }),
    {
        let mut e = self;
        let ghost before = e.hints@;
        e.hints.push(hint);
        assert(text::views(e.hints@) =~= text::views(before).push(hint@));
        e
    }

    /// What the user is told of an error of the engine.
    pub fn from_grs(e: &GrsError) -> (r: CommandError)
        ensures
            r@ == told(*e),
    {
        let (msg, hint) = match e {
            GrsError::NotInitialized => (
                "No .grs/ repository found here".to_owned(),
                Some("Run `grs` to open the TUI; it auto-initializes the repo on first run."),
            ),
            GrsError::AlreadyInitialized => (
                "This directory is already a grs repo".to_owned(),
                Some("It's already initialized; just run `grs` to open the TUI."),
            ),
            GrsError::NotFound(m) => (m.clone(), None),
            GrsError::AmbiguousId(m) => (
                text::concat3("id \"", m.as_str(), "\" matched multiple sessions"),
                Some("Use more characters of the ULID to disambiguate."),
            ),
            GrsError::Config(m) => (m.clone(), None),
            GrsError::Ignore(m) => (m.clone(), None),
            GrsError::UnsupportedVersion(v) => (
                text::concat3(
                    "grs storage version ",
                    text::decimal_of(*v as u64).as_str(),
                    " is not supported by this build",
                ),
                Some("Upgrade grs."),
            ),
            other => (other.message(), None),
        };
        let r = CommandError::user_error(msg);
        match hint {
            Some(h) => {
                let r = r.hinted(h.to_owned());
                assert(r@.hints =~= seq![h@]);
                r
            },
            None => r,
        }
    }

    /// What is printed of the error: its message and a line for each hint. Nothing of a
    /// pipe that was closed.
    pub fn report(&self) -> (r: String)
        ensures
            r@ == reported(self@),
    {
        if self.kind == CommandErrorKind::BrokenPipe {
            let t = String::new();
            assert(t@ =~= Seq::empty());
            return t;
        }
        let mut r = text::concat3("Error: ", self.error.as_str(), "\n");
        let mut i: usize = 0;
        let ghost all = text::views(self.hints@);
        while i < self.hints.len()
            invariant
                i <= self.hints.len(),
                all == text::views(self.hints@),
                r@ == "Error: "@ + self.error@ + "\n"@ + hint_lines(all, i as int),
            decreases self.hints.len() - i,
        {
            let h = text::concat3("Hint: ", self.hints[i].as_str(), "\n");
            assert(all[i as int] == self.hints@[i as int]@);
            r.append(h.as_str());
            assert(r@ =~= "Error: "@ + self.error@ + "\n"@ + hint_lines(all, i + 1));
            i += 1;
        }
        r
    }

    /// The exit code for an error of this kind.
    pub fn exit_code(&self) -> (r: u8)
        ensures
            r == code_of(self.kind),
    {
        match self.kind {
            CommandErrorKind::User | CommandErrorKind::Config => 1,
            CommandErrorKind::Cli => 2,
            CommandErrorKind::BrokenPipe => 0,
            CommandErrorKind::Internal => 255,
        }
    }
}

/// The exit code for a kind of error.
pub open spec fn code_of(kind: CommandErrorKind) -> u8 {
    match kind {
        CommandErrorKind::User | CommandErrorKind::Config => 1,
        CommandErrorKind::Cli => 2,
        CommandErrorKind::BrokenPipe => 0,
        CommandErrorKind::Internal => 255,
    }
}

/// The lines of the first `k` hints.
pub open spec fn hint_lines(hints: Seq<Seq<char>>, k: int) -> Seq<char>
    decreases k,
{
    if k <= 0 {
        Seq::empty()
    } else {
        hint_lines(hints, k - 1) + ("Hint: "@ + hints[k - 1] + "\n"@)
    }
}

/// What is printed of an error.
pub open spec fn reported(e: ErrorModel) -> Seq<char> {
    if e.kind == CommandErrorKind::BrokenPipe {
        Seq::empty()
    } else {
        "Error: "@ + e.error + "\n"@ + hint_lines(e.hints, e.hints.len() as int)
    }
}

/// Every error of the engine is told to the user as theirs, with exit code 1, and says
/// something that is printed.
pub proof fn law_engine_errors_are_user_errors(e: GrsError)
    ensures
        told(e).kind == CommandErrorKind::User,
        code_of(told(e).kind) == 1,
        reported(told(e)) != Seq::<char>::empty(),
{
    reveal_strlit("Error: ");
    let t = reported(told(e));
    assert(t.len() >= 7);
}

/// What went wrong is told in the words of the error, and of the names and ids in it.
pub proof fn law_errors_are_told_in_their_words(e: GrsError)
    ensures
        match e {
            GrsError::NotFound(m) => told(e).error == m@,
            GrsError::Config(m) => told(e).error == m@,
            GrsError::Ignore(m) => told(e).error == m@,
            GrsError::Io(m) => told(e).error == "io error: "@ + m@,
            GrsError::Json(m) => told(e).error == "json error: "@ + m@,
            GrsError::Toml(m) => told(e).error == "toml error: "@ + m@,
            GrsError::AmbiguousId(m) => told(e).error == "id \""@ + m@
                + "\" matched multiple sessions"@ && told(e).hints.len() == 1,
            GrsError::NameInUse(m) => told(e).error == "session name \""@ + m@
                + "\" is already in use"@,
            GrsError::SessionOpen(id) => told(e).error == "session "@ + id.text()
                + " is open; close it (e.g. quit the TUI) before deleting"@,
            GrsError::InvalidName(m) => told(e).error == "invalid session name: "@ + m@,
            GrsError::UnsupportedVersion(v) => told(e).error == "grs storage version "@
                + text::decimal(v as nat) + " is not supported by this build"@,
            GrsError::AlreadyRunning(m) => told(e).error
                == "a TUI is already running for this project (lock: "@ + m@ + ")"@,
            _ => told(e).hints.len() == 1,
        },
{
}

/// A program ends well only where a pipe was closed; errors of the user, of the command line
/// and of the program itself have exit codes of their own.
pub proof fn law_exit_codes(kind: CommandErrorKind)
    ensures
        code_of(kind) == 0 <==> kind == CommandErrorKind::BrokenPipe,
        code_of(kind) == 2 <==> kind == CommandErrorKind::Cli,
        code_of(kind) == 255 <==> kind == CommandErrorKind::Internal,
        code_of(kind) == 1 <==> kind == CommandErrorKind::User || kind == CommandErrorKind::Config,
{
}

proof fn lemma_hint_lines_prefix(hints: Seq<Seq<char>>, hint: Seq<char>, k: int)
    requires
        0 <= k <= hints.len(),
    ensures
        hint_lines(hints.push(hint), k) == hint_lines(hints, k),
    decreases k,
{
    if k > 0 {
        lemma_hint_lines_prefix(hints, hint, k - 1);
    }
}

/// An error is printed with its message, and with one line for each hint in their order.
pub proof fn law_each_hint_is_a_line(e: ErrorModel, hint: Seq<char>)
    requires
        e.kind != CommandErrorKind::BrokenPipe,
    ensures
        e.hints.len() == 0 ==> reported(e) == "Error: "@ + e.error + "\n"@,
        reported(ErrorModel { hints: e.hints.push(hint), ..e }) == reported(e) + "Hint: "@ + hint
            + "\n"@,
{
    let more = ErrorModel { hints: e.hints.push(hint), ..e };
    lemma_hint_lines_prefix(e.hints, hint, e.hints.len() as int);
    assert(reported(more) =~= reported(e) + "Hint: "@ + hint + "\n"@);
    if e.hints.len() == 0 {
        assert(reported(e) =~= "Error: "@ + e.error + "\n"@);
    }
}

} // verus!
