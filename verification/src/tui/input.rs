//! A small vim-style key parser. It remembers a first `g`, the number typed after a `:`, and
//! the text typed after a `/`. The first two are forgotten when the next key is long in
//! coming.

use crate::text;
use vstd::prelude::*;

verus! {

/// A key on the keyboard.
#[derive(Clone, Copy, Debug, PartialEq, Eq, Structural)]
pub enum KeyCode {
    Char(char),
    Esc,
    Enter,
    Backspace,
    Tab,
    Up,
    Down,
    Left,
    Right,
    Other,
}

/// A key press, with or without the control key.
#[derive(Clone, Copy, Debug, PartialEq, Eq, Structural)]
pub struct Key {
    pub code: KeyCode,
    pub control: bool,
}

/// What the parser is collecting.
#[derive(Debug)]
pub enum KeyState {
    Idle,
    /// A `g` was pressed; the second one of `gg` may follow.
    PendingG,
    /// A `:` was pressed; the digits of a number are collected until Enter.
    PendingColon(String),
    /// A `/` was pressed; text is collected until Enter or Esc.
    PendingFilter(String),
}

/// How long the parser waits for the next key of `gg` or of a number, in milliseconds.
pub const SEQUENCE_TIMEOUT_MS: u64 = 500;

/// What came of a key.
#[derive(Debug)]
pub enum KeyOutcome {
    /// Something to do at once.
    Action(KeyAction),
    /// Nothing yet; more keys are awaited.
    Pending(KeyState),
    /// What was collected is dropped.
    Cleared,
}

/// All that the interface can be told to do.
#[derive(Clone, Copy, Debug, PartialEq, Eq, Structural)]
pub enum KeyAction {
    Quit,
    Back,
    Down,
    Up,
    Left,
    Right,
    /// Ten lines down.
    JumpDown10,
    /// Ten lines up.
    JumpUp10,
    /// To the top of what is shown.
    GotoFirst,
    /// To the bottom of what is shown.
    GotoLast,
    /// To the snap before.
    PrevSnap,
    /// To the snap after.
    NextSnap,
    TabFile,
    Refresh,
    Enter,
    Filter,
    ConfirmFilter,
    CancelFilter,
    FilterChar(char),
    FilterBackspace,
    /// A new session in the list; the next change in the review.
    NewSession,
    /// A new session that is opened in the list; the change before in the review.
    NewSessionAndOpen,
    Delete,
    Help,
    /// One snap forward in a replay.
    StepFwd,
    /// One snap back in a replay.
    StepBack,
    PlayPause,
    Faster,
    Slower,
    /// To the snap with this number, counted from 1.
    GotoSnap(usize),
    SideBySide,
    Nothing,
}

/// What the parser is collecting, with its text as characters.
#[verifier::ext_equal]
pub enum StateModel {
    Idle,
    PendingG,
    PendingColon(Seq<char>),
    PendingFilter(Seq<char>),
}

impl View for KeyState {
    type V = StateModel;

    open spec fn view(&self) -> StateModel {
        match self {
            KeyState::Idle => StateModel::Idle,
            KeyState::PendingG => StateModel::PendingG,
            KeyState::PendingColon(buf) => StateModel::PendingColon(buf@),
            KeyState::PendingFilter(buf) => StateModel::PendingFilter(buf@),
        }
    }
}

/// What came of a key, with texts as characters.
pub enum OutcomeModel {
    Action(KeyAction),
    Pending(StateModel),
    Cleared,
}

impl View for KeyOutcome {
    type V = OutcomeModel;

    open spec fn view(&self) -> OutcomeModel {
        match self {
            KeyOutcome::Action(a) => OutcomeModel::Action(*a),
            KeyOutcome::Pending(s) => OutcomeModel::Pending(s@),
            KeyOutcome::Cleared => OutcomeModel::Cleared,
        }
    }
}

/// What a key means by itself, outside of a filter and a number; `g`, `:` and `/` aside.
pub open spec fn meaning(code: KeyCode) -> KeyAction {
    match code {
        KeyCode::Esc => KeyAction::Quit,
        KeyCode::Enter => KeyAction::Enter,
        KeyCode::Tab => KeyAction::TabFile,
        KeyCode::Up => KeyAction::Up,
        KeyCode::Down => KeyAction::Down,
        KeyCode::Left => KeyAction::Back,
        KeyCode::Right => KeyAction::Enter,
        KeyCode::Char(c) => if c == 'q' {
            KeyAction::Quit
        } else if c == 'j' {
            KeyAction::Down
        } else if c == 'k' {
            KeyAction::Up
        } else if c == 'h' {
            KeyAction::Back
        } else if c == 'l' {
            KeyAction::Enter
        } else if c == 'J' {
            KeyAction::JumpDown10
        } else if c == 'K' {
            KeyAction::JumpUp10
        } else if c == '[' {
            KeyAction::PrevSnap
        } else if c == ']' {
            KeyAction::NextSnap
        } else if c == 'G' {
            KeyAction::GotoLast
        } else if c == 'r' {
            KeyAction::Refresh
        } else if c == 'd' {
            KeyAction::Delete
        } else if c == 'n' {
            KeyAction::NewSession
        } else if c == 'N' {
            KeyAction::NewSessionAndOpen
        } else if c == '?' {
            KeyAction::Help
        } else {
            KeyAction::Nothing
        },
        _ => KeyAction::Nothing,
    }
}

/// Whether a key press is Ctrl-C.
pub open spec fn is_interrupt(key: Key) -> bool {
    key.control && key.code == KeyCode::Char('c')
}

/// What comes of a number that is complete: the snap with that number is gone to. Nothing
/// comes of no digits, or of a number that is too large.
pub open spec fn numbered(buf: Seq<char>) -> OutcomeModel {
    match text::u32_in(buf) {
        Some(n) => OutcomeModel::Action(KeyAction::GotoSnap(n as usize)),
        None => OutcomeModel::Cleared,
    }
}

/// What a key does: the state after it, and what comes of it. Ctrl-C quits in every
/// state and leaves the state. In a filter, characters are collected. In a number, digits
/// are; Enter completes it, and every other key but Backspace drops it. Elsewhere a second
/// `g` goes to the top, `:` starts a number, `/` starts a filter, and every other key means
/// what it means and forgets a `g`.
pub open spec fn fed(state: StateModel, key: Key) -> (StateModel, OutcomeModel) {
    if is_interrupt(key) {
        (state, OutcomeModel::Action(KeyAction::Quit))
    } else {
        match state {
            StateModel::PendingFilter(buf) => match key.code {
                KeyCode::Esc => (StateModel::Idle, OutcomeModel::Action(KeyAction::CancelFilter)),
                KeyCode::Enter => (
                    StateModel::Idle,
                    OutcomeModel::Action(KeyAction::ConfirmFilter),
                ),
                KeyCode::Backspace => (
                    StateModel::PendingFilter(text::without_last(buf)),
                    OutcomeModel::Action(KeyAction::FilterBackspace),
                ),
                KeyCode::Char(c) => (
                    StateModel::PendingFilter(buf.push(c)),
                    OutcomeModel::Action(KeyAction::FilterChar(c)),
                ),
                _ => (state, OutcomeModel::Pending(state)),
            },
            StateModel::PendingColon(buf) => match key.code {
                KeyCode::Enter => (StateModel::Idle, numbered(buf)),
                KeyCode::Backspace => (
                    StateModel::PendingColon(text::without_last(buf)),
                    OutcomeModel::Pending(StateModel::PendingColon(text::without_last(buf))),
                ),
                KeyCode::Char(c) => if text::is_digit(c) {
                    (
                        StateModel::PendingColon(buf.push(c)),
                        OutcomeModel::Pending(StateModel::PendingColon(buf.push(c))),
                    )
                } else {
                    (StateModel::Idle, OutcomeModel::Cleared)
                },
                _ => (StateModel::Idle, OutcomeModel::Cleared),
            },
            _ => if key.code == KeyCode::Char('g') {
                if state is Idle {
                    (StateModel::PendingG, OutcomeModel::Pending(StateModel::PendingG))
                } else {
                    (StateModel::Idle, OutcomeModel::Action(KeyAction::GotoFirst))
                }
            } else if key.code == KeyCode::Char(':') {
                (
                    StateModel::PendingColon(Seq::empty()),
                    OutcomeModel::Pending(StateModel::PendingColon(Seq::empty())),
                )
            } else if key.code == KeyCode::Char('/') {
                (
                    StateModel::PendingFilter(Seq::empty()),
                    OutcomeModel::Action(KeyAction::Filter),
                )
            } else {
                (StateModel::Idle, OutcomeModel::Action(meaning(key.code)))
            },
        }
    }
}

/// What is left of a state when the next key comes at `now` and the last one came at `last`:
/// a `g` and a number are forgotten when too much time has passed.
pub open spec fn in_time(state: StateModel, last: u64, now: u64) -> StateModel {
    if (state is PendingG || state is PendingColon) && now - last >= SEQUENCE_TIMEOUT_MS {
        StateModel::Idle
    } else {
        state
    }
}

fn meaning_of(code: KeyCode) -> (r: KeyAction)
    ensures
        r == meaning(code),
{
    match code {
        KeyCode::Char('q') | KeyCode::Esc => KeyAction::Quit,
        KeyCode::Char('j') | KeyCode::Down => KeyAction::Down,
        KeyCode::Char('k') | KeyCode::Up => KeyAction::Up,
        KeyCode::Char('h') | KeyCode::Left => KeyAction::Back,
        KeyCode::Char('l') | KeyCode::Right => KeyAction::Enter,
        KeyCode::Char('J') => KeyAction::JumpDown10,
        KeyCode::Char('K') => KeyAction::JumpUp10,
        KeyCode::Char('[') => KeyAction::PrevSnap,
        KeyCode::Char(']') => KeyAction::NextSnap,
        KeyCode::Char('G') => KeyAction::GotoLast,
        KeyCode::Tab => KeyAction::TabFile,
        KeyCode::Char('r') => KeyAction::Refresh,
        KeyCode::Char('d') => KeyAction::Delete,
        KeyCode::Char('n') => KeyAction::NewSession,
        KeyCode::Char('N') => KeyAction::NewSessionAndOpen,
        KeyCode::Char('?') => KeyAction::Help,
        KeyCode::Enter => KeyAction::Enter,
        _ => KeyAction::Nothing,
    }
}

/// The parser.
#[derive(Debug)]
pub struct VimParser {
    pub state: KeyState,
    /// When the last key came that was taken with its time.
    pub last_key: u64,
}

impl Default for VimParser {
    fn default() -> (r: VimParser)
        ensures
            r.state@ == StateModel::Idle,
            r.last_key == 0,
    {
        VimParser::new()
    }
}

impl VimParser {
    /// A parser that collects nothing.
    pub fn new() -> (r: VimParser)
        ensures
            r.state@ == StateModel::Idle,
            r.last_key == 0,
    {
        VimParser { state: KeyState::Idle, last_key: 0 }
    }

    /// What is being collected.
    pub fn state(&self) -> (r: &KeyState)
        ensures
            *r == self.state,
    {
        &self.state
    }

    /// Drops what was collected.
    pub fn reset(&mut self)
        ensures
            final(self).state@ == StateModel::Idle,
            final(self).last_key == old(self).last_key,
    {
        self.state = KeyState::Idle;
    }

    /// Takes a key that came at `now`, in milliseconds.
    pub fn feed_at(&mut self, key: Key, now: u64) -> (r: KeyOutcome)
        ensures
            (final(self).state@, r@) == fed(
                in_time(old(self).state@, old(self).last_key, now),
                key,
            ),
            final(self).last_key == now,
    {
        let waits = match self.state {
            KeyState::PendingG => true,
            KeyState::PendingColon(_) => true,
            _ => false,
        };
        if waits && now >= self.last_key && now - self.last_key >= SEQUENCE_TIMEOUT_MS {
            self.reset();
        }
        self.last_key = now;
        self.feed(key)
    }

    /// Takes a key of a number.
    fn feed_number(&mut self, buf: String, key: Key) -> (r: KeyOutcome)
        requires
            old(self).state@ == StateModel::PendingColon(buf@),
            !is_interrupt(key),
        ensures
            (final(self).state@, r@) == fed(old(self).state@, key),
            final(self).last_key == old(self).last_key,
    {
        match key.code {
            KeyCode::Enter => {
                self.reset();
                match text::parse_u32(buf.as_str()) {
                    Some(n) => KeyOutcome::Action(KeyAction::GotoSnap(n as usize)),
                    None => KeyOutcome::Cleared,
                }
            },
            KeyCode::Backspace => {
                let shorter = text::drop_last_char(buf.as_str());
                self.state = KeyState::PendingColon(shorter.clone());
                KeyOutcome::Pending(KeyState::PendingColon(shorter))
            },
            KeyCode::Char(c) => if '0' <= c && c <= '9' {
                let mut longer = buf;
                longer.push(c);
                self.state = KeyState::PendingColon(longer.clone());
                KeyOutcome::Pending(KeyState::PendingColon(longer))
            } else {
                self.reset();
                KeyOutcome::Cleared
            },
            _ => {
                self.reset();
                KeyOutcome::Cleared
            },
        }
    }

    /// Takes a key.
    pub fn feed(&mut self, key: Key) -> (r: KeyOutcome)
        ensures
            (final(self).state@, r@) == fed(old(self).state@, key),
            final(self).last_key == old(self).last_key,
    {
        if key.control && key.code == KeyCode::Char('c') {
            return KeyOutcome::Action(KeyAction::Quit);
        }
        let number = match &self.state {
            KeyState::PendingColon(buf) => Some(buf.clone()),
            _ => None,
        };
        if let Some(buf) = number {
            return self.feed_number(buf, key);
        }
        let held = match &self.state {
            KeyState::PendingFilter(buf) => Some(buf.clone()),
            _ => None,
        };
        if let Some(buf) = held {
            return match key.code {
                KeyCode::Esc => {
                    self.reset();
                    KeyOutcome::Action(KeyAction::CancelFilter)
                },
                KeyCode::Enter => {
                    self.reset();
                    KeyOutcome::Action(KeyAction::ConfirmFilter)
                },
                KeyCode::Backspace => {
                    self.state = KeyState::PendingFilter(text::drop_last_char(buf.as_str()));
                    KeyOutcome::Action(KeyAction::FilterBackspace)
                },
                KeyCode::Char(c) => {
                    let mut longer = buf;
                    longer.push(c);
                    self.state = KeyState::PendingFilter(longer);
                    KeyOutcome::Action(KeyAction::FilterChar(c))
                },
                _ => KeyOutcome::Pending(KeyState::PendingFilter(buf)),
            };
        }
        match key.code {
            KeyCode::Char('g') => {
                let idle = match self.state {
                    KeyState::Idle => true,
                    _ => false,
                };
                if idle {
                    self.state = KeyState::PendingG;
                    KeyOutcome::Pending(KeyState::PendingG)
                } else {
                    self.reset();
                    KeyOutcome::Action(KeyAction::GotoFirst)
                }
            },
            KeyCode::Char(':') => {
                let none = String::new();
                assert(none@ =~= Seq::empty());
                self.state = KeyState::PendingColon(none.clone());
                KeyOutcome::Pending(KeyState::PendingColon(none))
            },
            KeyCode::Char('/') => {
                let none = String::new();
                assert(none@ =~= Seq::empty());
                self.state = KeyState::PendingFilter(none);
                KeyOutcome::Action(KeyAction::Filter)
            },
            code => {
                self.reset();
                KeyOutcome::Action(meaning_of(code))
            },
        }
    }
}

/// What a key means while a name is being typed.
pub open spec fn typing_meaning(key: Key) -> KeyAction {
    if is_interrupt(key) {
        KeyAction::CancelFilter
    } else {
        match key.code {
            KeyCode::Char(c) => KeyAction::FilterChar(c),
            KeyCode::Enter => KeyAction::ConfirmFilter,
            KeyCode::Esc => KeyAction::CancelFilter,
            KeyCode::Backspace => KeyAction::FilterBackspace,
            _ => KeyAction::Nothing,
        }
    }
}

/// What a key means while a name is being typed.
pub fn typing_action(key: Key) -> (r: KeyAction)
    ensures
        r == typing_meaning(key),
{
    if key.control && key.code == KeyCode::Char('c') {
        return KeyAction::CancelFilter;
    }
    match key.code {
        KeyCode::Char(c) => KeyAction::FilterChar(c),
        KeyCode::Enter => KeyAction::ConfirmFilter,
        KeyCode::Esc => KeyAction::CancelFilter,
        KeyCode::Backspace => KeyAction::FilterBackspace,
        _ => KeyAction::Nothing,
    }
}

/// The state after several keys.
pub open spec fn fed_all(state: StateModel, keys: Seq<Key>) -> StateModel
    decreases keys.len(),
{
    if keys.len() == 0 {
        state
    } else {
        fed(fed_all(state, keys.drop_last()), keys.last()).0
    }
}

/// The characters that key presses type.
pub open spec fn typed(keys: Seq<Key>) -> Seq<char>
    decreases keys.len(),
{
    if keys.len() == 0 {
        Seq::empty()
    } else {
        typed(keys.drop_last()).push(keys.last().code->Char_0)
    }
}

/// Two `g` in a row from rest go to the top and leave the parser at rest.
pub proof fn law_gg_goes_to_the_top()
    ensures
        ({
            let g = Key { code: KeyCode::Char('g'), control: false };
            let (s, first) = fed(StateModel::Idle, g);
            first is Pending && fed(s, g) == (
                StateModel::Idle,
                OutcomeModel::Action(KeyAction::GotoFirst),
            )
        }),
{
}

/// A `g` is forgotten with the next key, whatever that is but Ctrl-C or the start of a
/// number or a filter.
pub proof fn law_g_is_forgotten(key: Key)
    requires
        !is_interrupt(key),
        key.code != KeyCode::Char(':'),
        key.code != KeyCode::Char('/'),
    ensures
        fed(StateModel::PendingG, key).0 == StateModel::Idle,
{
}

/// A `g` and a number are forgotten when the next key is long in coming, and only then. A
/// filter waits for ever.
pub proof fn law_sequences_time_out(state: StateModel, last: u64, now: u64)
    ensures
        now - last < SEQUENCE_TIMEOUT_MS ==> in_time(state, last, now) == state,
        now - last >= SEQUENCE_TIMEOUT_MS && !(state is PendingFilter) ==> in_time(state, last, now)
            == StateModel::Idle,
        state is PendingFilter ==> in_time(state, last, now) == state,
{
}

proof fn lemma_digits_are_collected(start: Seq<char>, keys: Seq<Key>)
    requires
        forall|i: int|
            0 <= i < keys.len() ==> (#[trigger] keys[i]).code is Char && !keys[i].control
                && text::is_digit(keys[i].code->Char_0),
    ensures
        fed_all(StateModel::PendingColon(start), keys) == StateModel::PendingColon(
            start + typed(keys),
        ),
    decreases keys.len(),
{
    if keys.len() == 0 {
        assert(start + typed(keys) =~= start);
    } else {
        let d = keys.drop_last();
        assert forall|i: int| 0 <= i < d.len() implies (#[trigger] d[i]).code is Char
            && !d[i].control && text::is_digit(d[i].code->Char_0) by {
            assert(d[i] == keys[i]);
        }
        lemma_digits_are_collected(start, d);
        assert(keys.last() == keys[keys.len() - 1]);
        assert((start + typed(d)).push(keys.last().code->Char_0) =~= start + typed(keys));
    }
}

/// A `:`, the digits of a number and Enter go to the snap with that number, and leave the
/// parser at rest.
pub proof fn law_number_goes_to_the_snap(keys: Seq<Key>, n: u32)
    requires
        forall|i: int|
            0 <= i < keys.len() ==> (#[trigger] keys[i]).code is Char && !keys[i].control,
        typed(keys) == text::decimal(n as nat),
    ensures
        ({
            let colon = Key { code: KeyCode::Char(':'), control: false };
            let enter = Key { code: KeyCode::Enter, control: false };
            let (s, first) = fed(StateModel::Idle, colon);
            first is Pending && fed(fed_all(s, keys), enter) == (
                StateModel::Idle,
                OutcomeModel::Action(KeyAction::GotoSnap(n as usize)),
            )
        }),
{
    let d = text::decimal(n as nat);
    text::lemma_decimal_round_trip(n as nat);
    lemma_typed(keys);
    assert forall|i: int| 0 <= i < keys.len() implies (#[trigger] keys[i]).code is Char
        && !keys[i].control && text::is_digit(keys[i].code->Char_0) by {
        assert(text::is_digit(d[i]));
    }
    lemma_digits_are_collected(Seq::empty(), keys);
    assert(Seq::<char>::empty() + d =~= d);
    assert(text::is_digit(d[0]));
}

proof fn lemma_typed(keys: Seq<Key>)
    ensures
        typed(keys).len() == keys.len(),
        forall|i: int| 0 <= i < keys.len() ==> typed(keys)[i] == (#[trigger] keys[i]).code->Char_0,
    decreases keys.len(),
{
    if keys.len() > 0 {
        let d = keys.drop_last();
        lemma_typed(d);
        assert forall|i: int| 0 <= i < keys.len() implies typed(keys)[i] == (
        #[trigger] keys[i]).code->Char_0 by {
            if i < d.len() {
                assert(d[i] == keys[i]);
            }
        }
    }
}

/// Ctrl-C quits in every state.
pub proof fn law_interrupt_quits(state: StateModel)
    ensures
        fed(state, Key { code: KeyCode::Char('c'), control: true }).1 == OutcomeModel::Action(
            KeyAction::Quit,
        ),
{
}

/// What is typed into a filter is what the filter holds, letter for letter.
pub proof fn law_filter_holds_what_is_typed(start: Seq<char>, keys: Seq<Key>)
    requires
        forall|i: int|
            0 <= i < keys.len() ==> (#[trigger] keys[i]).code is Char && !keys[i].control,
    ensures
        fed_all(StateModel::PendingFilter(start), keys) == StateModel::PendingFilter(
            start + typed(keys),
        ),
    decreases keys.len(),
{
    if keys.len() == 0 {
        assert(start + typed(keys) =~= start);
    } else {
        let d = keys.drop_last();
        assert forall|i: int| 0 <= i < d.len() implies (#[trigger] d[i]).code is Char
            && !d[i].control by {
            assert(d[i] == keys[i]);
        }
        law_filter_holds_what_is_typed(start, d);
        assert((start + typed(d)).push(keys.last().code->Char_0) =~= start + typed(keys));
    }
}

/// What keys mean at rest: the letters that move, jump, step and act, and the keys with a name of
/// their own. Every other key means nothing.
pub proof fn law_keys_at_rest(c: char)
    ensures
        meaning(KeyCode::Char('j')) == KeyAction::Down && meaning(KeyCode::Down) == KeyAction::Down,
        meaning(KeyCode::Char('k')) == KeyAction::Up && meaning(KeyCode::Up) == KeyAction::Up,
        meaning(KeyCode::Char('h')) == KeyAction::Back && meaning(KeyCode::Left) == KeyAction::Back,
        meaning(KeyCode::Char('l')) == KeyAction::Enter && meaning(KeyCode::Right)
            == KeyAction::Enter,
        meaning(KeyCode::Char('J')) == KeyAction::JumpDown10 && meaning(KeyCode::Char('K'))
            == KeyAction::JumpUp10,
        meaning(KeyCode::Char('[')) == KeyAction::PrevSnap && meaning(KeyCode::Char(']'))
            == KeyAction::NextSnap,
        meaning(KeyCode::Char('G')) == KeyAction::GotoLast,
        meaning(KeyCode::Char('r')) == KeyAction::Refresh && meaning(KeyCode::Char('d'))
            == KeyAction::Delete,
        meaning(KeyCode::Char('n')) == KeyAction::NewSession && meaning(KeyCode::Char('N'))
            == KeyAction::NewSessionAndOpen,
        meaning(KeyCode::Char('?')) == KeyAction::Help && meaning(KeyCode::Char('q'))
            == KeyAction::Quit,
        meaning(KeyCode::Esc) == KeyAction::Quit && meaning(KeyCode::Enter) == KeyAction::Enter
            && meaning(KeyCode::Tab) == KeyAction::TabFile,
        !seq!['j', 'k', 'h', 'l', 'J', 'K', '[', ']', 'G', 'r', 'd', 'n', 'N', '?', 'q'].contains(c)
            ==> meaning(KeyCode::Char(c)) == KeyAction::Nothing,
{
    let known = seq!['j', 'k', 'h', 'l', 'J', 'K', '[', ']', 'G', 'r', 'd', 'n', 'N', '?', 'q'];
    if !known.contains(c) {
        assert(known[0] == 'j' && known[1] == 'k' && known[2] == 'h' && known[3] == 'l');
        assert(known[4] == 'J' && known[5] == 'K' && known[6] == '[' && known[7] == ']');
        assert(known[8] == 'G' && known[9] == 'r' && known[10] == 'd' && known[11] == 'n');
        assert(known[12] == 'N' && known[13] == '?' && known[14] == 'q');
    }
}

/// In a filter, Enter confirms, Esc cancels, and Backspace takes the last character back.
pub proof fn law_filter_keys(buf: Seq<char>, c: char)
    ensures
        ({
            let typed = StateModel::PendingFilter(buf.push(c));
            let back = Key { code: KeyCode::Backspace, control: false };
            let enter = Key { code: KeyCode::Enter, control: false };
            let esc = Key { code: KeyCode::Esc, control: false };
            &&& fed(StateModel::PendingFilter(buf), Key { code: KeyCode::Char(c), control: false })
                == (typed, OutcomeModel::Action(KeyAction::FilterChar(c)))
            &&& fed(typed, back) == (
                StateModel::PendingFilter(buf),
                OutcomeModel::Action(KeyAction::FilterBackspace),
            )
            &&& fed(typed, enter) == (
                StateModel::Idle,
                OutcomeModel::Action(KeyAction::ConfirmFilter),
            )
            &&& fed(typed, esc) == (
                StateModel::Idle,
                OutcomeModel::Action(KeyAction::CancelFilter),
            )
            &&& fed(StateModel::Idle, Key { code: KeyCode::Char('/'), control: false }) == (
                StateModel::PendingFilter(Seq::empty()),
                OutcomeModel::Action(KeyAction::Filter),
            )
        }),
{
    text::law_taking_the_last_back(buf, c);
}

/// While a name is typed, every character is one, Enter confirms, Esc and Ctrl-C give up, and
/// Backspace takes back.
pub proof fn law_typing_keys(c: char)
    ensures
        typing_meaning(Key { code: KeyCode::Char(c), control: false }) == KeyAction::FilterChar(c),
        typing_meaning(Key { code: KeyCode::Enter, control: false }) == KeyAction::ConfirmFilter,
        typing_meaning(Key { code: KeyCode::Esc, control: false }) == KeyAction::CancelFilter,
        typing_meaning(Key { code: KeyCode::Backspace, control: false })
            == KeyAction::FilterBackspace,
        typing_meaning(Key { code: KeyCode::Char('c'), control: true }) == KeyAction::CancelFilter,
        typing_meaning(Key { code: KeyCode::Up, control: false }) == KeyAction::Nothing,
{
}

} // verus!
