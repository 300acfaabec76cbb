//! Session ids: ULIDs, 26 characters that sort by time.

use crate::error::GrsError;
use crate::text;
use vstd::prelude::*;

verus! {

/// A session id: the 128 bits of a ULID.
#[derive(Clone, Copy, Debug, PartialEq, Eq, Hash, PartialOrd, Ord, Structural)]
pub struct SessionId(pub u128);

/// The Crockford base-32 symbol of a digit below 32.
pub open spec fn symbol(d: int) -> char {
    if d < 10 {
        ('0' as int + d) as char
    } else if d < 18 {
        ('A' as int + d - 10) as char
    } else if d < 20 {
        ('J' as int + d - 18) as char
    } else if d < 22 {
        ('M' as int + d - 20) as char
    } else if d < 27 {
        ('P' as int + d - 22) as char
    } else {
        ('V' as int + d - 27) as char
    }
}

/// The digit that a capital letter or a decimal digit stands for, or -1.
pub open spec fn capital_value(c: int) -> int {
    if '0' as int <= c <= '9' as int {
        c - '0' as int
    } else if 'A' as int <= c <= 'H' as int {
        c - 'A' as int + 10
    } else if 'J' as int <= c <= 'K' as int {
        c - 'J' as int + 18
    } else if 'M' as int <= c <= 'N' as int {
        c - 'M' as int + 20
    } else if 'P' as int <= c <= 'T' as int {
        c - 'P' as int + 22
    } else if 'V' as int <= c <= 'Z' as int {
        c - 'V' as int + 27
    } else {
        -1
    }
}

/// The digit that a character stands for in either case, or -1.
pub open spec fn symbol_value(c: char) -> int {
    if 'a' <= c <= 'z' {
        capital_value(c as int - 32)
    } else {
        capital_value(c as int)
    }
}

/// The last `n` base-32 digits of a number, the most significant first.
pub open spec fn base32(v: nat, n: nat) -> Seq<char>
    decreases n,
{
    if n == 0 {
        Seq::empty()
    } else {
        base32(v / 32, (n - 1) as nat).push(symbol((v % 32) as int))
    }
}

/// The number that base-32 digits stand for.
pub open spec fn base32_number(s: Seq<char>) -> int
    decreases s.len(),
{
    if s.len() == 0 {
        0
    } else {
        base32_number(s.drop_last()) * 32 + symbol_value(s.last())
    }
}

/// Whether every character is a base-32 symbol, in either case.
pub open spec fn all_symbols(s: Seq<char>) -> bool {
    forall|i: int| 0 <= i < s.len() ==> symbol_value(#[trigger] s[i]) >= 0
}

/// The number of bytes of a text in UTF-8.
pub open spec fn byte_len(s: Seq<char>) -> nat {
    vstd::utf8::encode_utf8(s).len()
}

/// `2^128`.
pub open spec fn two_pow_128() -> int {
    0x1_0000_0000_0000_0000_0000_0000_0000_0000int
}

/// What is wrong with a text that is no ULID.
pub open spec fn ulid_fault(s: Seq<char>) -> Option<Seq<char>> {
    if byte_len(s) != 26 {
        Some("invalid length"@)
    } else if !all_symbols(s) {
        Some("invalid character"@)
    } else {
        None
    }
}

/// `ulid::Ulid::new`: an id from the clock and a random number. Nothing is
/// claimed of it.
#[verifier::external_body]
fn ulid_new() -> (r: u128) {
    ::ulid::Ulid::new().0
}

/// `ulid::Ulid::to_string`: the 26 base-32 digits of the id.
#[verifier::external_body]
fn ulid_text(value: u128) -> (r: String)
    ensures
        r@ == base32(value as nat, 26),
{
    ::ulid::Ulid(value).to_string()
}

/// `ulid::Ulid::from_string`: a text of 26 bytes, all of them base-32 symbols in
/// either case, gives the number it stands for, of which the low 128 bits are
/// kept; any other text gives an error, whose message is one of two.
#[verifier::external_body]
fn ulid_from_text(s: &str) -> (r: Result<u128, String>)
    ensures
        match r {
            Ok(value) => ulid_fault(s@) is None && value == base32_number(s@) % two_pow_128(),
            Err(e) => ulid_fault(s@) == Some(e@),
        },
{
    match ::ulid::Ulid::from_string(s) {
        Ok(u) => Ok(u.0),
        Err(e) => Err(e.to_string()),
    }
}

impl SessionId {
    /// The canonical form: 26 characters.
    pub open spec fn text(self) -> Seq<char> {
        base32(self.0 as nat, 26)
    }

    /// A new id, made of the present time and a random tail.
    pub fn new() -> (r: SessionId) {
        SessionId(ulid_new())
    }

    /// The canonical form: 26 characters.
    pub fn as_str(&self) -> (r: String)
        ensures
            r@ == self.text(),
            r@.len() == 26,
    {
        proof {
            lemma_base32_len(self.0 as nat, 26);
        }
        ulid_text(self.0)
    }

    /// Reads an id from its 26-character form, in either case.
    pub fn parse(s: &str) -> (r: Result<SessionId, GrsError>)
        ensures
            match r {
                Ok(id) => ulid_fault(s@) is None && id.0 == base32_number(s@) % two_pow_128(),
                Err(e) => ulid_fault(s@) is Some && e is NotFound && e->NotFound_0@
                    == "invalid session id \""@ + s@ + "\": "@ + ulid_fault(s@)->0,
            },
    {
        match ulid_from_text(s) {
            Ok(value) => Ok(SessionId(value)),
            Err(m) => {
                let mut t = text::concat3("invalid session id \"", s, "\": ");
                t.append(m.as_str());
                Err(GrsError::NotFound(t))
            },
        }
    }
}

impl Default for SessionId {
    fn default() -> (r: SessionId) {
        SessionId::new()
    }
}

proof fn lemma_base32_len(v: nat, n: nat)
    ensures
        base32(v, n).len() == n,
    decreases n,
{
    if n > 0 {
        lemma_base32_len(v / 32, (n - 1) as nat);
    }
}

/// The canonical form of an id has 26 characters.
pub proof fn lemma_text_len(id: SessionId)
    ensures
        id.text().len() == 26,
{
    lemma_base32_len(id.0 as nat, 26);
}

spec fn pow32(n: nat) -> nat
    decreases n,
{
    if n == 0 {
        1
    } else {
        32 * pow32((n - 1) as nat)
    }
}

proof fn lemma_pow32_26()
    ensures
        two_pow_128() <= pow32(26),
{
    reveal_with_fuel(pow32, 27);
}

proof fn lemma_base32_round_trip(v: nat, n: nat)
    requires
        v < pow32(n),
    ensures
        base32_number(base32(v, n)) == v,
        all_symbols(base32(v, n)),
        forall|i: int| 0 <= i < n ==> (#[trigger] base32(v, n)[i] as int) < 128,
    decreases n,
{
    lemma_base32_len(v, n);
    if n > 0 {
        let s = base32(v / 32, (n - 1) as nat);
        assert(v / 32 < pow32((n - 1) as nat));
        lemma_base32_round_trip(v / 32, (n - 1) as nat);
        lemma_base32_len(v / 32, (n - 1) as nat);
        assert(base32(v, n).drop_last() =~= s);
    }
}

proof fn lemma_char_is_not_negative(c: char)
    ensures
        '\0' <= c,
{
}

/// ASCII text has as many bytes as characters.
pub proof fn lemma_ascii_byte_len(s: Seq<char>)
    requires
        forall|i: int| 0 <= i < s.len() ==> (#[trigger] s[i] as int) < 128,
    ensures
        byte_len(s) == s.len(),
{
    assert forall|i: int| 0 <= i < s.len() implies '\0' <= #[trigger] s[i] <= '\u{7f}' by {
        assert((s[i] as int) < 128);
        lemma_char_is_not_negative(s[i]);
    }
    vstd::utf8::is_ascii_chars_encode_utf8(s);
}

/// Reading the canonical form of an id gives the id back: `parse` succeeds on
/// it, and what it computes is the id.
pub proof fn law_round_trip(id: SessionId)
    ensures
        ulid_fault(id.text()) is None,
        base32_number(id.text()) % two_pow_128() == id.0,
{
    lemma_pow32_26();
    lemma_base32_round_trip(id.0 as nat, 26);
    lemma_base32_len(id.0 as nat, 26);
    lemma_ascii_byte_len(id.text());
}

/// Two ids with one canonical form are one id.
pub proof fn law_text_is_injective(a: SessionId, b: SessionId)
    requires
        a.text() == b.text(),
    ensures
        a == b,
{
    law_round_trip(a);
    law_round_trip(b);
}

proof fn lemma_less_push(a: Seq<char>, b: Seq<char>, c: char, d: char)
    requires
        a.len() == b.len(),
    ensures
        text::less(a.push(c), b.push(d)) <==> text::less(a, b) || (a == b && c < d),
    decreases a.len(),
{
    if a.len() == 0 {
        assert(a =~= b);
        assert(!text::less(a.push(c).skip(1), b.push(d).skip(1)));
    } else {
        assert(a.push(c).skip(1) =~= a.skip(1).push(c));
        assert(b.push(d).skip(1) =~= b.skip(1).push(d));
        lemma_less_push(a.skip(1), b.skip(1), c, d);
        if a[0] == b[0] && a.skip(1) == b.skip(1) {
            assert(a =~= seq![a[0]] + a.skip(1));
            assert(b =~= seq![b[0]] + b.skip(1));
        }
        text::lemma_less_order(a, b, b);
    }
}

proof fn lemma_base32_order(v: nat, w: nat, n: nat)
    requires
        v < pow32(n),
        w < pow32(n),
    ensures
        text::less(base32(v, n), base32(w, n)) <==> v < w,
        base32(v, n) == base32(w, n) <==> v == w,
    decreases n,
{
    lemma_base32_round_trip(v, n);
    lemma_base32_round_trip(w, n);
    if n > 0 {
        let m = (n - 1) as nat;
        assert(v / 32 < pow32(m) && w / 32 < pow32(m));
        lemma_base32_order(v / 32, w / 32, m);
        lemma_base32_len(v / 32, m);
        lemma_base32_len(w / 32, m);
        lemma_less_push(
            base32(v / 32, m),
            base32(w / 32, m),
            symbol((v % 32) as int),
            symbol((w % 32) as int),
        );
        assert(v == 32 * (v / 32) + v % 32 && w == 32 * (w / 32) + w % 32);
    }
}

/// The canonical forms sort as the ids do, so by time first.
pub proof fn law_text_sorts_as_id(a: SessionId, b: SessionId)
    ensures
        text::less(a.text(), b.text()) <==> a.0 < b.0,
{
    lemma_pow32_26();
    lemma_base32_order(a.0 as nat, b.0 as nat, 26);
}

} // verus!
