//! Text helpers over characters: the parts of string handling that the rest of
//! the library needs, each stated over `Seq<char>`.

use vstd::prelude::*;

verus! {

/// `String::push` appends one character.
pub assume_specification[ String::push ](s: &mut String, ch: char)
    ensures
        final(s)@ == old(s)@.push(ch),
;

/// The views of a sequence of strings.
pub open spec fn views(v: Seq<String>) -> Seq<Seq<char>> {
    Seq::new(v.len(), |i: int| v[i]@)
}

/// The characters with the Unicode property `White_Space`.
pub open spec fn space(c: char) -> bool {
    ||| '\u{9}' <= c <= '\u{d}'
    ||| c == ' '
    ||| c == '\u{85}'
    ||| c == '\u{a0}'
    ||| c == '\u{1680}'
    ||| '\u{2000}' <= c <= '\u{200a}'
    ||| c == '\u{2028}'
    ||| c == '\u{2029}'
    ||| c == '\u{202f}'
    ||| c == '\u{205f}'
    ||| c == '\u{3000}'
}

/// Whether `c` is white space.
pub fn is_space(c: char) -> (r: bool)
    ensures
        r == space(c),
{
    ('\u{9}' <= c && c <= '\u{d}') || c == ' ' || c == '\u{85}' || c == '\u{a0}' || c == '\u{1680}'
        || ('\u{2000}' <= c && c <= '\u{200a}') || c == '\u{2028}' || c == '\u{2029}' || c
        == '\u{202f}' || c == '\u{205f}' || c == '\u{3000}'
}

/// The characters of `s`.
pub fn chars_of(s: &str) -> (r: Vec<char>)
    ensures
        r@ == s@,
{
    let mut r: Vec<char> = Vec::new();
    for c in it: s.chars()
        invariant
            r@ =~= s@.take(it.index() as int),
            it.seq() == s@,
    {
        r.push(c);
    }
    r
}

/// The string made of the characters `v[from..to]`.
pub fn string_between(v: &Vec<char>, from: usize, to: usize) -> (r: String)
    requires
        from <= to <= v.len(),
    ensures
        r@ == v@.subrange(from as int, to as int),
{
    let mut r = String::new();
    let mut i: usize = from;
    while i < to
        invariant
            from <= i <= to <= v.len(),
            r@ =~= v@.subrange(from as int, i as int),
        decreases to - i,
    {
        r.push(v[i]);
        i += 1;
    }
    r
}

/// Whether two texts hold the same characters.
pub fn same(a: &str, b: &str) -> (r: bool)
    ensures
        r == (a@ == b@),
{
    let x = a.to_owned();
    let y = b.to_owned();
    x == y
}

/// Two texts one after the other.
pub fn concat(a: &str, b: &str) -> (r: String)
    ensures
        r@ == a@ + b@,
{
    let mut r = a.to_owned();
    r.append(b);
    r
}

/// Three texts one after the other.
pub fn concat3(a: &str, b: &str, c: &str) -> (r: String)
    ensures
        r@ == a@ + b@ + c@,
{
    let mut r = a.to_owned();
    r.append(b);
    r.append(c);
    r
}

/// The first index at or after `i` where `s` holds `c`, or the length of `s`.
pub open spec fn find(s: Seq<char>, c: char, i: int) -> int
    decreases s.len() - i,
{
    if i >= s.len() {
        s.len() as int
    } else if s[i] == c {
        i
    } else {
        find(s, c, i + 1)
    }
}

/// `find` stays in range and stops at the first hit.
pub proof fn lemma_find(s: Seq<char>, c: char, i: int)
    requires
        0 <= i <= s.len(),
    ensures
        i <= find(s, c, i) <= s.len(),
        find(s, c, i) < s.len() ==> s[find(s, c, i)] == c,
        forall|k: int| i <= k < find(s, c, i) ==> s[k] != c,
    decreases s.len() - i,
{
    if i < s.len() && s[i] != c {
        lemma_find(s, c, i + 1);
    }
}

/// Runs `find`.
pub fn find_char(v: &Vec<char>, c: char, from: usize) -> (r: usize)
    requires
        from <= v.len(),
    ensures
        r == find(v@, c, from as int),
        from <= r <= v.len(),
{
    let mut i: usize = from;
    while i < v.len() && v[i] != c
        invariant
            from <= i <= v.len(),
            find(v@, c, from as int) == find(v@, c, i as int),
        decreases v.len() - i,
    {
        i += 1;
    }
    i
}

/// A line without the carriage return that ends it.
pub open spec fn strip_cr(s: Seq<char>) -> Seq<char> {
    if s.len() > 0 && s.last() == '\r' {
        s.drop_last()
    } else {
        s
    }
}

/// The lines of a text: the pieces before each `\n`, without a `\r` in front of
/// that `\n`, and what is left after the last `\n` where it is not empty.
pub open spec fn lines(s: Seq<char>) -> Seq<Seq<char>>
    decreases s.len(),
    when 0 <= s.len()
    via lines_decreases
{
    if s.len() == 0 {
        Seq::empty()
    } else if find(s, '\n', 0) >= s.len() {
        seq![s]
    } else {
        seq![strip_cr(s.take(find(s, '\n', 0)))] + lines(s.skip(find(s, '\n', 0) + 1))
    }
}

#[via_fn]
proof fn lines_decreases(s: Seq<char>) {
    lemma_find(s, '\n', 0);
}

/// Runs `lines`.
pub fn lines_of(s: &str) -> (r: Vec<String>)
    ensures
        views(r@) == lines(s@),
{
    let v = chars_of(s);
    let mut r: Vec<String> = Vec::new();
    let mut i: usize = 0;
    assert(v@.skip(0) =~= v@);
    assert(views(r@) + lines(v@.skip(0)) =~= lines(v@));
    while i < v.len()
        invariant
            i <= v.len(),
            views(r@) + lines(v@.skip(i as int)) == lines(v@),
        decreases v.len() - i,
    {
        let n: usize = find_char(&v, '\n', i);
        let ghost rest = v@.skip(i as int);
        proof {
            lemma_find(v@, '\n', i as int);
            lemma_find_skip(v@, '\n', i as int, i as int);
        }
        if n == v.len() {
            let line = string_between(&v, i, n);
            assert(line@ =~= rest);
            let ghost before = r@;
            r.push(line);
            proof {
                assert(views(r@) =~= views(before).push(rest));
                assert(lines(rest) =~= seq![rest]);
                assert(views(before) + lines(rest) =~= views(r@));
            }
            assert(v@.skip(n as int) =~= Seq::empty());
            assert(views(r@) + lines(v@.skip(n as int)) =~= lines(v@));
            i = n;
        } else {
            let to: usize = if n > i && v[n - 1] == '\r' {
                n - 1
            } else {
                n
            };
            let line = string_between(&v, i, to);
            let ghost before = r@;
            r.push(line);
            proof {
                let k = n - i;
                assert(rest.take(k) =~= v@.subrange(i as int, n as int));
                assert(strip_cr(rest.take(k)) =~= line@);
                assert(rest.skip(k + 1) =~= v@.skip(n + 1));
                assert(views(r@) =~= views(before).push(line@));
                assert(views(before) + (seq![line@] + lines(v@.skip(n + 1))) =~= views(r@) + lines(
                    v@.skip(n + 1),
                ));
            }
            i = n + 1;
        }
    }
    assert(v@.skip(i as int) =~= Seq::empty());
    assert(views(r@) =~= lines(v@));
    r
}

/// Searching a suffix is searching the whole from there on.
pub proof fn lemma_find_skip(s: Seq<char>, c: char, off: int, i: int)
    requires
        0 <= off <= i <= s.len(),
    ensures
        find(s, c, i) == find(s.skip(off), c, i - off) + off,
    decreases s.len() - i,
{
    if i < s.len() && s[i] != c {
        lemma_find_skip(s, c, off, i + 1);
    }
}

/// The characters of `s` after its leading white space.
pub open spec fn trim_start(s: Seq<char>) -> Seq<char>
    decreases s.len(),
{
    if s.len() > 0 && space(s[0]) {
        trim_start(s.skip(1))
    } else {
        s
    }
}

/// The characters of `s` before its trailing white space.
pub open spec fn trim_end(s: Seq<char>) -> Seq<char>
    decreases s.len(),
{
    if s.len() > 0 && space(s.last()) {
        trim_end(s.drop_last())
    } else {
        s
    }
}

/// The characters of `s` without white space at its ends.
pub open spec fn trim(s: Seq<char>) -> Seq<char> {
    trim_end(trim_start(s))
}

/// Runs `trim`.
pub fn trimmed(s: &str) -> (r: String)
    ensures
        r@ == trim(s@),
{
    let v = chars_of(s);
    let mut i: usize = 0;
    assert(v@.skip(0) =~= v@);
    while i < v.len() && is_space(v[i])
        invariant
            i <= v.len(),
            trim_start(v@) == trim_start(v@.skip(i as int)),
        decreases v.len() - i,
    {
        assert(v@.skip(i as int).skip(1) =~= v@.skip(i + 1));
        i += 1;
    }
    let mut j: usize = v.len();
    assert(v@.subrange(i as int, j as int) =~= v@.skip(i as int));
    while i < j && is_space(v[j - 1])
        invariant
            i <= j <= v.len(),
            trim_end(v@.skip(i as int)) == trim_end(v@.subrange(i as int, j as int)),
        decreases j,
    {
        assert(v@.subrange(i as int, j as int).drop_last() =~= v@.subrange(i as int, j - 1));
        j -= 1;
    }
    string_between(&v, i, j)
}

/// Runs `trim_end`.
pub fn trimmed_end(s: &str) -> (r: String)
    ensures
        r@ == trim_end(s@),
{
    let v = chars_of(s);
    let mut j: usize = v.len();
    assert(v@.take(j as int) =~= v@);
    while 0 < j && is_space(v[j - 1])
        invariant
            j <= v.len(),
            trim_end(v@) == trim_end(v@.take(j as int)),
        decreases j,
    {
        assert(v@.take(j as int).drop_last() =~= v@.take(j - 1));
        j -= 1;
    }
    let r = string_between(&v, 0, j);
    assert(r@ =~= v@.take(j as int));
    r
}

/// Whether `s` begins with `p`.
pub open spec fn has_prefix(s: Seq<char>, p: Seq<char>) -> bool {
    p.len() <= s.len() && s.take(p.len() as int) == p
}

/// Whether `s` ends with `p`.
pub open spec fn has_suffix(s: Seq<char>, p: Seq<char>) -> bool {
    p.len() <= s.len() && s.skip(s.len() - p.len()) == p
}

/// Whether `s` begins with `p`.
pub fn starts_with(s: &str, p: &str) -> (r: bool)
    ensures
        r == has_prefix(s@, p@),
{
    let a = chars_of(s);
    let b = chars_of(p);
    if b.len() > a.len() {
        return false;
    }
    let mut i: usize = 0;
    while i < b.len()
        invariant
            i <= b.len() <= a.len(),
            a@ == s@,
            b@ == p@,
            forall|k: int| 0 <= k < i ==> a@[k] == b@[k],
        decreases b.len() - i,
    {
        if a[i] != b[i] {
            assert(s@.take(p@.len() as int)[i as int] != p@[i as int]);
            return false;
        }
        i += 1;
    }
    assert(s@.take(p@.len() as int) =~= p@);
    true
}

/// Whether `s` ends with `p`.
pub fn ends_with(s: &str, p: &str) -> (r: bool)
    ensures
        r == has_suffix(s@, p@),
{
    let a = chars_of(s);
    let b = chars_of(p);
    if b.len() > a.len() {
        return false;
    }
    let off: usize = a.len() - b.len();
    let mut i: usize = 0;
    while i < b.len()
        invariant
            i <= b.len() <= a.len(),
            off == a.len() - b.len(),
            a@ == s@,
            b@ == p@,
            forall|k: int| 0 <= k < i ==> a@[off + k] == b@[k],
        decreases b.len() - i,
    {
        if a[off + i] != b[i] {
            assert(s@.skip(s@.len() - p@.len())[i as int] != p@[i as int]);
            return false;
        }
        i += 1;
    }
    assert(s@.skip(s@.len() - p@.len()) =~= p@);
    true
}

/// The digit character of a number below ten.
pub open spec fn digit(d: int) -> char {
    ('0' as int + d) as char
}

/// The decimal digits of a number, without leading zeros.
pub open spec fn decimal(n: nat) -> Seq<char>
    decreases n,
{
    if n < 10 {
        seq![digit(n as int)]
    } else {
        decimal(n / 10).push(digit((n % 10) as int))
    }
}

/// The decimal form of an integer, with `-` in front where it is negative.
pub open spec fn signed_decimal(n: int) -> Seq<char> {
    if n < 0 {
        seq!['-'] + decimal((-n) as nat)
    } else {
        decimal(n as nat)
    }
}

fn digit_char(d: u64) -> (r: char)
    requires
        d < 10,
    ensures
        r == digit(d as int),
{
    match d {
        0 => '0',
        1 => '1',
        2 => '2',
        3 => '3',
        4 => '4',
        5 => '5',
        6 => '6',
        7 => '7',
        8 => '8',
        _ => '9',
    }
}

/// Runs `decimal`.
pub fn decimal_of(n: u64) -> (r: String)
    ensures
        r@ == decimal(n as nat),
    decreases n,
{
    if n < 10 {
        let mut r = String::new();
        r.push(digit_char(n));
        assert(r@ =~= seq![digit(n as int)]);
        r
    } else {
        let mut r = decimal_of(n / 10);
        r.push(digit_char(n % 10));
        r
    }
}

/// Runs `signed_decimal`.
pub fn signed_decimal_of(n: i64) -> (r: String)
    ensures
        r@ == signed_decimal(n as int),
{
    if n >= 0 {
        decimal_of(n as u64)
    } else {
        let m: u64 = if n == i64::MIN {
            0x8000_0000_0000_0000u64
        } else {
            (-n) as u64
        };
        let d = decimal_of(m);
        let mut r = String::new();
        r.push('-');
        r.append(d.as_str());
        assert(r@ =~= seq!['-'] + d@);
        r
    }
}

/// `n` copies of a character.
pub open spec fn repeated(c: char, n: nat) -> Seq<char> {
    Seq::new(n, |i: int| c)
}

/// Runs `repeated`.
pub fn repeat(c: char, n: usize) -> (r: String)
    ensures
        r@ == repeated(c, n as nat),
{
    let mut r = String::new();
    let mut i: usize = 0;
    while i < n
        invariant
            i <= n,
            r@ =~= repeated(c, i as nat),
        decreases n - i,
    {
        r.push(c);
        i += 1;
    }
    r
}

/// `s` with fill characters in front of it up to a width in characters.
pub open spec fn pad_left(s: Seq<char>, fill: char, width: nat) -> Seq<char> {
    if s.len() >= width {
        s
    } else {
        repeated(fill, (width - s.len()) as nat) + s
    }
}

/// `s` with blanks behind it up to a width in characters.
pub open spec fn pad_right(s: Seq<char>, width: nat) -> Seq<char> {
    if s.len() >= width {
        s
    } else {
        s + repeated(' ', (width - s.len()) as nat)
    }
}

/// Runs `pad_left`.
pub fn padded_left(s: &str, fill: char, width: usize) -> (r: String)
    ensures
        r@ == pad_left(s@, fill, width as nat),
{
    let v = chars_of(s);
    if v.len() >= width {
        s.to_owned()
    } else {
        let mut r = repeat(fill, width - v.len());
        r.append(s);
        r
    }
}

/// Runs `pad_right`.
pub fn padded_right(s: &str, width: usize) -> (r: String)
    ensures
        r@ == pad_right(s@, width as nat),
{
    let v = chars_of(s);
    if v.len() >= width {
        s.to_owned()
    } else {
        let p = repeat(' ', width - v.len());
        concat(s, p.as_str())
    }
}

/// Lexicographic order by code points, the order of the UTF-8 bytes.
pub open spec fn less(a: Seq<char>, b: Seq<char>) -> bool
    decreases a.len(),
{
    if b.len() == 0 {
        false
    } else if a.len() == 0 {
        true
    } else if a[0] != b[0] {
        a[0] < b[0]
    } else {
        less(a.skip(1), b.skip(1))
    }
}

/// `less` is a strict total order.
pub proof fn lemma_less_order(a: Seq<char>, b: Seq<char>, c: Seq<char>)
    ensures
        !less(a, a),
        less(a, b) ==> !less(b, a),
        less(a, b) && less(b, c) ==> less(a, c),
        a == b || less(a, b) || less(b, a),
        !less(b, a) && !less(c, b) ==> !less(c, a),
    decreases a.len() + b.len() + c.len(),
{
    if a.len() > 0 && b.len() > 0 && c.len() > 0 {
        lemma_less_order(a.skip(1), b.skip(1), c.skip(1));
        if a[0] == b[0] && a.skip(1) == b.skip(1) {
            assert(a =~= seq![a[0]] + a.skip(1));
            assert(b =~= seq![b[0]] + b.skip(1));
        }
    } else if a.len() > 0 && b.len() > 0 {
        lemma_less_order(a.skip(1), b.skip(1), c);
        if a[0] == b[0] && a.skip(1) == b.skip(1) {
            assert(a =~= seq![a[0]] + a.skip(1));
            assert(b =~= seq![b[0]] + b.skip(1));
        }
    } else if a.len() > 0 {
        lemma_less_order(a.skip(1), b, c);
    } else {
        assert(a.len() == 0 && b.len() == 0 ==> a =~= b);
    }
}

/// Runs `less`.
pub fn is_less(a: &str, b: &str) -> (r: bool)
    ensures
        r == less(a@, b@),
{
    let x = chars_of(a);
    let y = chars_of(b);
    let mut i: usize = 0;
    assert(x@.skip(0) =~= x@);
    assert(y@.skip(0) =~= y@);
    while i < x.len() && i < y.len()
        invariant
            x@ == a@,
            y@ == b@,
            i <= x.len(),
            i <= y.len(),
            less(x@, y@) == less(x@.skip(i as int), y@.skip(i as int)),
        decreases x.len() - i,
    {
        assert(x@.skip(i as int)[0] == x@[i as int] && y@.skip(i as int)[0] == y@[i as int]);
        if x[i] != y[i] {
            return x[i] < y[i];
        }
        assert(x@.skip(i as int).skip(1) =~= x@.skip(i + 1));
        assert(y@.skip(i as int).skip(1) =~= y@.skip(i + 1));
        i += 1;
    }
    i < y.len()
}

/// The pieces of `s` between the occurrences of `c`.
pub open spec fn split(s: Seq<char>, c: char) -> Seq<Seq<char>>
    decreases s.len(),
    when 0 <= s.len()
    via split_decreases
{
    if find(s, c, 0) >= s.len() {
        seq![s]
    } else {
        seq![s.take(find(s, c, 0))] + split(s.skip(find(s, c, 0) + 1), c)
    }
}

#[via_fn]
proof fn split_decreases(s: Seq<char>, c: char) {
    lemma_find(s, c, 0);
}

/// Runs `split`.
pub fn split_on(s: &str, c: char) -> (r: Vec<String>)
    ensures
        views(r@) == split(s@, c),
        r@.len() >= 1,
{
    let v = chars_of(s);
    let mut r: Vec<String> = Vec::new();
    let mut i: usize = 0;
    assert(v@.skip(0) =~= v@);
    assert(views(r@) + split(v@.skip(0), c) =~= split(v@, c));
    loop
        invariant_except_break
            i <= v.len(),
            views(r@) + split(v@.skip(i as int), c) == split(v@, c),
        ensures
            views(r@) == split(v@, c),
            r@.len() >= 1,
        decreases v.len() - i,
    {
        let n: usize = find_char(&v, c, i);
        let ghost rest = v@.skip(i as int);
        let ghost before = r@;
        proof {
            lemma_find_skip(v@, c, i as int, i as int);
        }
        let piece = string_between(&v, i, n);
        r.push(piece);
        assert(views(r@) =~= views(before).push(piece@));
        if n == v.len() {
            assert(piece@ =~= rest);
            assert(views(before) + seq![rest] =~= views(r@));
            break;
        }
        proof {
            let k = n - i;
            assert(rest.take(k) =~= piece@);
            assert(rest.skip(k + 1) =~= v@.skip(n + 1));
            assert(views(before) + (seq![piece@] + split(v@.skip(n + 1), c)) =~= views(r@) + split(
                v@.skip(n + 1),
                c,
            ));
        }
        i = n + 1;
    }
    r
}

/// The texts one after the other, with `sep` between them.
pub open spec fn joined(parts: Seq<Seq<char>>, sep: Seq<char>) -> Seq<char>
    decreases parts.len(),
{
    if parts.len() == 0 {
        Seq::empty()
    } else if parts.len() == 1 {
        parts[0]
    } else {
        joined(parts.drop_last(), sep) + sep + parts.last()
    }
}

/// Runs `joined`.
pub fn join(parts: &Vec<String>, sep: &str) -> (r: String)
    ensures
        r@ == joined(views(parts@), sep@),
{
    let mut r = String::new();
    let mut i: usize = 0;
    assert(views(parts@).take(0) =~= Seq::empty());
    while i < parts.len()
        invariant
            i <= parts.len(),
            r@ == joined(views(parts@).take(i as int), sep@),
        decreases parts.len() - i,
    {
        let ghost now = views(parts@).take(i + 1);
        assert(now.drop_last() =~= views(parts@).take(i as int));
        if i > 0 {
            r.append(sep);
        }
        r.append(parts[i].as_str());
        assert(i == 0 ==> r@ =~= now[0]);
        i += 1;
    }
    assert(views(parts@).take(i as int) =~= views(parts@));
    r
}

/// `s` with every `from` turned into `to`.
pub open spec fn replaced(s: Seq<char>, from: char, to: char) -> Seq<char> {
    s.map_values(
        |c: char|
            if c == from {
                to
            } else {
                c
            },
    )
}

/// Runs `replaced`.
pub fn replace_char(s: &str, from: char, to: char) -> (r: String)
    ensures
        r@ == replaced(s@, from, to),
{
    let v = chars_of(s);
    let mut r = String::new();
    let mut i: usize = 0;
    while i < v.len()
        invariant
            i <= v.len(),
            r@ =~= replaced(v@, from, to).take(i as int),
        decreases v.len() - i,
    {
        let c = v[i];
        r.push(
            if c == from {
                to
            } else {
                c
            },
        );
        i += 1;
    }
    assert(r@ =~= replaced(v@, from, to));
    r
}

/// A second list with the same strings.
pub fn copy_all(v: &Vec<String>) -> (r: Vec<String>)
    ensures
        r@ == v@,
{
    let mut r: Vec<String> = Vec::new();
    let mut i: usize = 0;
    while i < v.len()
        invariant
            i <= v.len(),
            r@ =~= v@.take(i as int),
        decreases v.len() - i,
    {
        r.push(v[i].clone());
        i += 1;
    }
    r
}

/// Whether two lists hold the same texts.
pub fn same_all(a: &Vec<String>, b: &Vec<String>) -> (r: bool)
    ensures
        r == (views(a@) == views(b@)),
{
    if a.len() != b.len() {
        assert(views(a@).len() != views(b@).len());
        return false;
    }
    let mut i: usize = 0;
    while i < a.len()
        invariant
            i <= a.len() == b.len(),
            forall|k: int| 0 <= k < i ==> (#[trigger] a@[k])@ == b@[k]@,
        decreases a.len() - i,
    {
        if !same(a[i].as_str(), b[i].as_str()) {
            assert(views(a@)[i as int] != views(b@)[i as int]);
            return false;
        }
        i += 1;
    }
    assert(views(a@) =~= views(b@));
    true
}

/// A text has at most as many lines as characters.
pub proof fn lemma_lines_len(s: Seq<char>)
    ensures
        lines(s).len() <= s.len(),
    decreases s.len(),
{
    if s.len() > 0 {
        lemma_find(s, '\n', 0);
        if find(s, '\n', 0) < s.len() {
            lemma_lines_len(s.skip(find(s, '\n', 0) + 1));
        }
    }
}

/// Whether `c` is an ASCII digit.
pub open spec fn is_digit(c: char) -> bool {
    '0' <= c <= '9'
}

/// Whether every character is a digit.
pub open spec fn all_digits(s: Seq<char>) -> bool {
    forall|i: int| 0 <= i < s.len() ==> is_digit(#[trigger] s[i])
}

/// The number that decimal digits stand for.
pub open spec fn decimal_value(s: Seq<char>) -> int
    decreases s.len(),
{
    if s.len() == 0 {
        0
    } else {
        decimal_value(s.drop_last()) * 10 + (s.last() as int - '0' as int)
    }
}

/// The number in a text: digits, with at most one `+` in front, that stand for a
/// number below `2^32`.
pub open spec fn u32_in(s: Seq<char>) -> Option<u32> {
    let d = if s.len() > 0 && s[0] == '+' {
        s.skip(1)
    } else {
        s
    };
    if d.len() > 0 && all_digits(d) && decimal_value(d) <= u32::MAX {
        Some(decimal_value(d) as u32)
    } else {
        None
    }
}

proof fn lemma_decimal_value_grows(s: Seq<char>, i: int)
    requires
        all_digits(s),
        0 <= i <= s.len(),
    ensures
        0 <= decimal_value(s.take(i)) <= decimal_value(s),
    decreases s.len(),
{
    if i < s.len() {
        let d = s.drop_last();
        assert forall|k: int| 0 <= k < d.len() implies is_digit(#[trigger] d[k]) by {
            assert(d[k] == s[k]);
        }
        lemma_decimal_value_grows(d, i);
        assert(d.take(i) =~= s.take(i));
        assert(is_digit(s[s.len() - 1]));
    } else {
        assert(s.take(i) =~= s);
        if s.len() > 0 {
            let d = s.drop_last();
            assert forall|k: int| 0 <= k < d.len() implies is_digit(#[trigger] d[k]) by {
                assert(d[k] == s[k]);
            }
            lemma_decimal_value_grows(d, d.len() as int);
            assert(d.take(d.len() as int) =~= d);
            assert(is_digit(s[s.len() - 1]));
        }
    }
}

/// Runs `u32_in`.
pub fn parse_u32(s: &str) -> (r: Option<u32>)
    ensures
        r == u32_in(s@),
{
    let v = chars_of(s);
    let from: usize = if v.len() > 0 && v[0] == '+' {
        1
    } else {
        0
    };
    let ghost d = v@.skip(from as int);
    assert(from == 0 ==> d =~= v@);
    if from == v.len() {
        return None;
    }
    let mut value: u64 = 0;
    let mut i: usize = from;
    assert(d.take(0) =~= Seq::empty());
    while i < v.len()
        invariant
            v@ == s@,
            from <= i <= v.len(),
            from < v.len(),
            from == (if s@.len() > 0 && s@[0] == '+' {
                1int
            } else {
                0
            }),
            d == v@.skip(from as int),
            d == (if s@.len() > 0 && s@[0] == '+' {
                s@.skip(1)
            } else {
                s@
            }),
            value <= u32::MAX,
            value == decimal_value(d.take(i - from)),
            forall|k: int| 0 <= k < i - from ==> is_digit(#[trigger] d[k]),
        decreases v.len() - i,
    {
        let c = v[i];
        assert(d[i - from] == c);
        if !('0' <= c && c <= '9') {
            assert(!is_digit(d[i - from]));
            return None;
        }
        let digit: u64 = c as u64 - '0' as u64;
        value = value * 10 + digit;
        proof {
            assert(d.take(i - from + 1).drop_last() =~= d.take(i - from));
            assert(is_digit(d[i - from]));
            if value > u32::MAX {
                if all_digits(d) {
                    lemma_decimal_value_grows(d, i - from + 1);
                }
            }
        }
        if value > u32::MAX as u64 {
            return None;
        }
        i += 1;
    }
    assert(d.take(i - from) =~= d);
    Some(value as u32)
}

proof fn lemma_digit_value(d: int)
    requires
        0 <= d < 10,
    ensures
        is_digit(digit(d)),
        digit(d) as int - '0' as int == d,
{
}

/// The decimal form of a number is read back as that number.
pub proof fn lemma_decimal_round_trip(n: nat)
    ensures
        decimal(n).len() > 0,
        all_digits(decimal(n)),
        decimal_value(decimal(n)) == n,
    decreases n,
{
    if n < 10 {
        lemma_digit_value(n as int);
        assert(decimal(n).drop_last() =~= Seq::empty());
        reveal_with_fuel(decimal_value, 2);
    } else {
        lemma_decimal_round_trip(n / 10);
        lemma_digit_value((n % 10) as int);
        assert(decimal(n).drop_last() =~= decimal(n / 10));
    }
}

/// `s` without its last character, where it has one.
pub open spec fn without_last(s: Seq<char>) -> Seq<char> {
    if s.len() == 0 {
        s
    } else {
        s.drop_last()
    }
}

/// Runs `without_last`.
pub fn drop_last_char(s: &str) -> (r: String)
    ensures
        r@ == without_last(s@),
{
    let v = chars_of(s);
    let n: usize = if v.len() == 0 {
        0
    } else {
        v.len() - 1
    };
    let r = string_between(&v, 0, n);
    assert(r@ =~= without_last(s@));
    r
}

/// The characters of an optional text.
pub open spec fn opt_view(t: Option<String>) -> Option<Seq<char>> {
    match t {
        Some(s) => Some(s@),
        None => None,
    }
}

/// The first `n` characters, or all where there are fewer.
pub open spec fn first_chars(s: Seq<char>, n: nat) -> Seq<char> {
    if s.len() < n {
        s
    } else {
        s.take(n as int)
    }
}

/// Runs `first_chars`.
pub fn shorten(s: &str, n: usize) -> (r: String)
    ensures
        r@ == first_chars(s@, n as nat),
{
    let v = chars_of(s);
    let to: usize = if v.len() < n {
        v.len()
    } else {
        n
    };
    let r = string_between(&v, 0, to);
    assert(r@ =~= first_chars(s@, n as nat));
    r
}

/// `c` in lower case, for ASCII.
pub open spec fn lower(c: char) -> char {
    if 'A' <= c <= 'Z' {
        (c as int + 32) as char
    } else {
        c
    }
}

/// Runs `lower`.
pub fn to_lower(c: char) -> (r: char)
    ensures
        r == lower(c),
{
    if 'A' <= c && c <= 'Z' {
        let n: u8 = c as u8;
        (n + 32) as char
    } else {
        c
    }
}

/// `s` in lower case, for ASCII.
pub open spec fn lowered(s: Seq<char>) -> Seq<char>
    decreases s.len(),
{
    if s.len() == 0 {
        Seq::empty()
    } else {
        lowered(s.drop_last()).push(lower(s.last()))
    }
}

/// Runs `lowered`.
pub fn to_lowercase(s: &str) -> (r: String)
    ensures
        r@ == lowered(s@),
{
    let v = chars_of(s);
    let mut r = String::new();
    let mut i: usize = 0;
    assert(v@.take(0) =~= Seq::empty());
    while i < v.len()
        invariant
            i <= v.len(),
            r@ == lowered(v@.take(i as int)),
        decreases v.len() - i,
    {
        assert(v@.take(i + 1).drop_last() =~= v@.take(i as int));
        r.push(to_lower(v[i]));
        i += 1;
    }
    assert(v@.take(i as int) =~= v@);
    r
}

/// Texts with something between them begin with the first of them and what is between.
pub proof fn lemma_joined_head(parts: Seq<Seq<char>>, sep: Seq<char>)
    requires
        parts.len() >= 2,
    ensures
        has_prefix(joined(parts, sep), parts[0] + sep),
    decreases parts.len(),
{
    let head = parts[0] + sep;
    let d = parts.drop_last();
    let s = joined(parts, sep);
    if parts.len() == 2 {
        assert(joined(d, sep) == parts[0]);
        assert(s.take(head.len() as int) =~= head);
    } else {
        lemma_joined_head(d, sep);
        assert(d[0] == parts[0]);
        assert(s.take(head.len() as int) =~= joined(d, sep).take(head.len() as int));
    }
}

/// `find` gives the first place where a text holds a character.
proof fn lemma_find_is(s: Seq<char>, c: char, i: int, k: int)
    requires
        0 <= i <= k <= s.len(),
        k < s.len() ==> s[k] == c,
        forall|j: int| i <= j < k ==> s[j] != c,
    ensures
        find(s, c, i) == k,
    decreases k - i,
{
    if i < k {
        lemma_find_is(s, c, i + 1, k);
    }
}

/// A text without a line feed is one line, and no line where it is empty.
pub proof fn law_text_without_line_feed_is_one_line(s: Seq<char>)
    requires
        forall|i: int| 0 <= i < s.len() ==> s[i] != '\n',
    ensures
        lines(s) == (if s.len() == 0 {
            Seq::<Seq<char>>::empty()
        } else {
            seq![s]
        }),
{
    lemma_find_is(s, '\n', 0, s.len() as int);
}

/// A line and its line feed in front of a text are one more line in front of its lines. One
/// carriage return in front of the line feed is part of the line end.
pub proof fn law_line_in_front_is_one_more_line(line: Seq<char>, cr: bool, rest: Seq<char>)
    requires
        forall|i: int| 0 <= i < line.len() ==> line[i] != '\n',
        !cr && line.len() > 0 ==> line.last() != '\r',
    ensures
        lines(
            line + (if cr {
                seq!['\r', '\n']
            } else {
                seq!['\n']
            }) + rest,
        ) == seq![line] + lines(rest),
{
    let end = if cr {
        seq!['\r', '\n']
    } else {
        seq!['\n']
    };
    let s = line + end + rest;
    let k = line.len() + end.len() - 1;
    assert(s[k] == '\n');
    assert forall|j: int| 0 <= j < k implies s[j] != '\n' by {
        if j < line.len() {
            assert(s[j] == line[j]);
        } else {
            assert(s[j] == '\r');
        }
    }
    lemma_find_is(s, '\n', 0, k);
    assert(s.skip(k + 1) =~= rest);
    if cr {
        assert(s.take(k) =~= line.push('\r'));
        assert(strip_cr(s.take(k)) =~= line);
    } else {
        assert(s.take(k) =~= line);
    }
}

/// What is left behind the leading white space.
pub proof fn lemma_trim_start(s: Seq<char>)
    ensures
        ({
            let r = trim_start(s);
            let a = s.len() - r.len();
            &&& 0 <= a
            &&& r == s.skip(a)
            &&& forall|i: int| 0 <= i < a ==> space(#[trigger] s[i])
            &&& r.len() > 0 ==> !space(r[0])
        }),
    decreases s.len(),
{
    if s.len() > 0 && space(s[0]) {
        let d = s.skip(1);
        lemma_trim_start(d);
        let r = trim_start(s);
        let a = s.len() - r.len();
        assert(r =~= s.skip(a));
        assert forall|i: int| 0 <= i < a implies space(#[trigger] s[i]) by {
            if i > 0 {
                assert(d[i - 1] == s[i]);
            }
        }
    } else {
        assert(s.skip(0) =~= s);
    }
}

proof fn lemma_trim_end(s: Seq<char>)
    ensures
        ({
            let r = trim_end(s);
            &&& r.len() <= s.len()
            &&& r == s.take(r.len() as int)
            &&& forall|i: int| r.len() <= i < s.len() ==> space(#[trigger] s[i])
            &&& r.len() > 0 ==> !space(r.last())
        }),
    decreases s.len(),
{
    if s.len() > 0 && space(s.last()) {
        let d = s.drop_last();
        lemma_trim_end(d);
        let r = trim_end(s);
        assert(r =~= s.take(r.len() as int));
        assert forall|i: int| r.len() <= i < s.len() implies space(#[trigger] s[i]) by {
            if i < d.len() {
                assert(d[i] == s[i]);
            }
        }
    } else {
        assert(s.take(s.len() as int) =~= s);
    }
}

/// Trimming takes white space from both ends and nothing else, and leaves none at the ends.
pub proof fn law_trim_takes_white_space_from_the_ends(s: Seq<char>)
    ensures
        exists|a: int, b: int|
            0 <= a <= b <= s.len() && trim(s) == #[trigger] s.subrange(a, b) && (forall|i: int|
                0 <= i < s.len() && !(a <= i < b) ==> space(#[trigger] s[i])) && (a < b
                ==> !space(s[a]) && !space(s[b - 1])),
{
    lemma_trim_start(s);
    let r = trim_start(s);
    lemma_trim_end(r);
    let a = s.len() - r.len();
    if trim(s).len() == 0 {
        assert(trim(s) =~= s.subrange(0, 0));
        assert forall|i: int| 0 <= i < s.len() && !(0 <= i < 0) implies space(#[trigger] s[i]) by {
            if i >= a {
                assert(r[i - a] == s[i]);
            }
        }
    } else {
        let b = a + trim(s).len();
        assert(trim(s) =~= s.subrange(a, b));
        assert forall|i: int| 0 <= i < s.len() && !(a <= i < b) implies space(#[trigger] s[i]) by {
            if i >= b {
                assert(r[i - a] == s[i]);
            }
        }
        assert(s[a] == r[0]);
        assert(s[b - 1] == trim(s).last());
    }
}

/// Trimming the end takes white space from there and nothing else, and leaves none.
pub proof fn law_trim_end_takes_white_space_from_the_end(s: Seq<char>)
    ensures
        trim_end(s).len() <= s.len(),
        trim_end(s) == s.take(trim_end(s).len() as int),
        forall|i: int| trim_end(s).len() <= i < s.len() ==> space(#[trigger] s[i]),
        trim_end(s).len() > 0 ==> !space(trim_end(s).last()),
{
    lemma_trim_end(s);
}

/// Blanks, tabs and line ends are white space; letters, digits and marks are not.
pub proof fn law_white_space(c: char)
    ensures
        c == ' ' || c == '\t' || c == '\n' || c == '\r' ==> space(c),
        '!' <= c <= '~' ==> !space(c),
{
}

/// The pieces of a text hold no separator, and with the separator between them they are the
/// text. There is always one.
pub proof fn law_split_pieces_make_the_text(s: Seq<char>, c: char)
    ensures
        split(s, c).len() >= 1,
        forall|i: int, j: int|
            0 <= i < split(s, c).len() && 0 <= j < split(s, c)[i].len() ==> #[trigger] split(
                s,
                c,
            )[i][j] != c,
        joined(split(s, c), seq![c]) == s,
    decreases s.len(),
{
    lemma_find(s, c, 0);
    let k = find(s, c, 0);
    let pieces = split(s, c);
    if k < s.len() {
        let rest = s.skip(k + 1);
        law_split_pieces_make_the_text(rest, c);
        assert forall|i: int, j: int|
            0 <= i < pieces.len() && 0 <= j < pieces[i].len() implies #[trigger] pieces[i][j] != c by {
            if i > 0 {
                assert(pieces[i] == split(rest, c)[i - 1]);
            } else {
                assert(pieces[i][j] == s[j]);
            }
        }
        lemma_joined_first(pieces, seq![c]);
        assert(pieces.skip(1) =~= split(rest, c));
        assert(s.take(k) + seq![c] + rest =~= s);
    } else {
        assert(pieces =~= seq![s]);
    }
}

/// Joining puts the first text in front of the others, with the separator between.
pub proof fn lemma_joined_first(parts: Seq<Seq<char>>, sep: Seq<char>)
    requires
        parts.len() >= 2,
    ensures
        joined(parts, sep) == parts[0] + sep + joined(parts.skip(1), sep),
    decreases parts.len(),
{
    let d = parts.drop_last();
    let r = parts.skip(1);
    if parts.len() == 2 {
        assert(joined(d, sep) == parts[0]);
        assert(r[0] == parts[1]);
        assert(joined(r, sep) == parts[1]);
    } else {
        lemma_joined_first(d, sep);
        assert(d.skip(1) =~= r.drop_last());
        assert(r.last() == parts.last());
        assert(joined(parts, sep) =~= parts[0] + sep + joined(r, sep));
    }
}

/// Joined texts are as long as all of them together, with one separator less than there are
/// texts; one more text comes behind a separator.
pub proof fn law_joining_one_more(parts: Seq<Seq<char>>, sep: Seq<char>, last: Seq<char>)
    ensures
        joined(seq![last], sep) == last,
        parts.len() > 0 ==> joined(parts.push(last), sep) == joined(parts, sep) + sep + last,
{
    assert(parts.push(last).drop_last() =~= parts);
}

/// A text comes before another where it is its beginning, or where it has the lower character
/// at the first place in which they differ.
pub proof fn law_less_by_the_first_difference(a: Seq<char>, b: Seq<char>, k: int)
    requires
        0 <= k <= a.len(),
        k <= b.len(),
        a.take(k) == b.take(k),
        k == a.len() || k == b.len() || a[k] != b[k],
    ensures
        less(a, b) == (if k < a.len() && k < b.len() {
            a[k] < b[k]
        } else {
            a.len() < b.len()
        }),
    decreases k,
{
    if k > 0 {
        assert(a.take(k)[0] == b.take(k)[0]);
        assert(a.skip(1).take(k - 1) =~= a.take(k).skip(1));
        assert(b.skip(1).take(k - 1) =~= b.take(k).skip(1));
        assert(k < a.len() ==> a.skip(1)[k - 1] == a[k]);
        assert(k < b.len() ==> b.skip(1)[k - 1] == b[k]);
        assert(a[0] == a.take(k)[0] && b[0] == b.take(k)[0]);
        law_less_by_the_first_difference(a.skip(1), b.skip(1), k - 1);
    }
}

/// A padded text has the width asked for, or its own where that is more. It stands at the end,
/// or at the beginning, with nothing but the fill beside it.
pub proof fn law_padding(s: Seq<char>, fill: char, width: nat)
    ensures
        pad_left(s, fill, width).len() == (if s.len() < width {
            width
        } else {
            s.len()
        }),
        has_suffix(pad_left(s, fill, width), s),
        forall|i: int|
            0 <= i < pad_left(s, fill, width).len() - s.len() ==> #[trigger] pad_left(
                s,
                fill,
                width,
            )[i] == fill,
        pad_right(s, width).len() == (if s.len() < width {
            width
        } else {
            s.len()
        }),
        has_prefix(pad_right(s, width), s),
        forall|i: int|
            s.len() <= i < pad_right(s, width).len() ==> #[trigger] pad_right(s, width)[i] == ' ',
{
    let l = pad_left(s, fill, width);
    let r = pad_right(s, width);
    assert(l.skip(l.len() - s.len()) =~= s);
    assert(r.take(s.len() as int) =~= s);
}

/// Lower case changes the capital letters of ASCII to the small ones, each in its place, and
/// no other character.
pub proof fn law_lower_case_by_character(s: Seq<char>)
    ensures
        lowered(s).len() == s.len(),
        forall|i: int|
            0 <= i < s.len() ==> (if 'A' <= s[i] <= 'Z' {
                #[trigger] lowered(s)[i] as int - 'a' as int == s[i] as int - 'A' as int
            } else {
                lowered(s)[i] == s[i]
            }),
    decreases s.len(),
{
    if s.len() > 0 {
        let d = s.drop_last();
        law_lower_case_by_character(d);
        assert forall|i: int| 0 <= i < s.len() implies (if 'A' <= s[i] <= 'Z' {
            #[trigger] lowered(s)[i] as int - 'a' as int == s[i] as int - 'A' as int
        } else {
            lowered(s)[i] == s[i]
        }) by {
            if i < d.len() {
                assert(lowered(s)[i] == lowered(d)[i]);
                assert(d[i] == s[i]);
            }
        }
    }
}

/// Replacing touches the character in question, everywhere, and no other.
pub proof fn law_replacing_by_character(s: Seq<char>, from: char, to: char, i: int)
    requires
        0 <= i < s.len(),
    ensures
        replaced(s, from, to).len() == s.len(),
        replaced(s, from, to)[i] == (if s[i] == from {
            to
        } else {
            s[i]
        }),
{
}

/// A shortened text is the beginning of the text, as long as asked for or the whole.
pub proof fn law_shortening(s: Seq<char>, n: nat)
    ensures
        has_prefix(s, first_chars(s, n)),
        first_chars(s, n).len() == (if s.len() < n {
            s.len()
        } else {
            n
        }),
{
    assert(s.take(s.len() as int) =~= s);
}

/// Typing a character and taking the last one back leaves the text as it was.
pub proof fn law_taking_the_last_back(s: Seq<char>, c: char)
    ensures
        without_last(s.push(c)) == s,
        without_last(Seq::<char>::empty()).len() == 0,
{
    assert(s.push(c).drop_last() =~= s);
}

/// Texts without the separator that were joined by it come apart as they were.
pub proof fn law_splitting_undoes_joining(parts: Seq<Seq<char>>, c: char)
    requires
        parts.len() > 0,
        forall|i: int, j: int|
            0 <= i < parts.len() && 0 <= j < parts[i].len() ==> #[trigger] parts[i][j] != c,
    ensures
        split(joined(parts, seq![c]), c) == parts,
    decreases parts.len(),
{
    let s = joined(parts, seq![c]);
    if parts.len() == 1 {
        assert forall|j: int| 0 <= j < s.len() implies s[j] != c by {
            assert(parts[0][j] != c);
        }
        lemma_find_is(s, c, 0, s.len() as int);
        assert(seq![s] =~= parts);
    } else {
        let rest = parts.skip(1);
        lemma_joined_first(parts, seq![c]);
        assert forall|i: int, j: int|
            0 <= i < rest.len() && 0 <= j < rest[i].len() implies #[trigger] rest[i][j] != c by {
            assert(parts[i + 1][j] != c);
        }
        law_splitting_undoes_joining(rest, c);
        let k = parts[0].len() as int;
        assert(s[k] == c);
        assert forall|j: int| 0 <= j < k implies s[j] != c by {
            assert(parts[0][j] != c);
        }
        lemma_find_is(s, c, 0, k);
        assert(s.take(k) =~= parts[0]);
        assert(s.skip(k + 1) =~= joined(rest, seq![c]));
        assert(seq![parts[0]] + rest =~= parts);
    }
}

/// Numbers are written in base ten, without zeros in front; negative ones behind a dash.
pub proof fn law_numbers_are_written_in_base_ten(n: nat)
    ensures
        n < 10 ==> decimal(n).len() == 1 && decimal(n)[0] as int == '0' as int + n,
        n >= 10 ==> decimal(n).drop_last() == decimal(n / 10) && decimal(n).last() as int == '0' as int
            + n % 10,
        decimal(n).len() > 0,
        n > 0 ==> decimal(n)[0] != '0',
        n > 0 ==> signed_decimal(-n) == seq!['-'] + decimal(n),
        signed_decimal(n as int) == decimal(n),
    decreases n,
{
    lemma_decimal_round_trip(n);
    lemma_digit_value((n % 10) as int);
    if n >= 10 {
        law_numbers_are_written_in_base_ten(n / 10);
        assert(decimal(n).drop_last() =~= decimal(n / 10));
        assert(decimal(n)[0] == decimal(n / 10)[0]);
    }
}

/// A number is read from its digits, with at most a plus in front; anything else is no number.
pub proof fn law_only_digits_are_a_number(s: Seq<char>, n: u32)
    ensures
        u32_in(decimal(n as nat)) == Some(n),
        u32_in(seq!['+'] + decimal(n as nat)) == Some(n),
        s.len() == 0 ==> u32_in(s) is None,
        (exists|i: int| 1 <= i < s.len() && !('0' <= #[trigger] s[i] <= '9')) ==> u32_in(s) is None,
{
    let d = decimal(n as nat);
    lemma_decimal_round_trip(n as nat);
    assert(is_digit(d[0]));
    let p = seq!['+'] + d;
    assert(p.skip(1) =~= d);
    if exists|i: int| 1 <= i < s.len() && !('0' <= #[trigger] s[i] <= '9') {
        let i = choose|i: int| 1 <= i < s.len() && !('0' <= #[trigger] s[i] <= '9');
        if s[0] == '+' {
            assert(s.skip(1)[i - 1] == s[i]);
            assert(!is_digit(s.skip(1)[i - 1]));
        } else {
            assert(!is_digit(s[i]));
        }
    }
}

} // verus!
