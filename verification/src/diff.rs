//! Line-level diffs.
//!
//! The edit script comes from the `similar` crate; this module turns it into the
//! 1-based numbers of the lines that were added and removed.

use crate::model::LineDiff;
use crate::text;
use vstd::prelude::*;

verus! {

/// What one step of an edit script does.
#[derive(Clone, Copy, Debug, PartialEq, Eq, Structural)]
pub enum LineTag {
    Equal,
    Delete,
    Insert,
    Replace,
}

/// One step of an edit script: lines `old_start..old_end` of the old text become
/// lines `new_start..new_end` of the new one.
#[derive(Clone, Copy, Debug, PartialEq, Eq, Structural)]
pub struct LineOp {
    pub tag: LineTag,
    pub old_start: usize,
    pub old_end: usize,
    pub new_start: usize,
    pub new_end: usize,
}

/// The first index at or after `i` that holds a line feed or a carriage return,
/// or the length.
pub open spec fn break_at(s: Seq<char>, i: int) -> int
    decreases s.len() - i,
{
    if i >= s.len() || s[i] == '\n' || s[i] == '\r' {
        i
    } else {
        break_at(s, i + 1)
    }
}

/// The length of the first line with its line end: `\n`, `\r\n` or `\r`.
pub open spec fn first_line(s: Seq<char>) -> int {
    let k = break_at(s, 0);
    if k >= s.len() {
        s.len() as int
    } else if s[k] == '\r' && k + 1 < s.len() && s[k + 1] == '\n' {
        k + 2
    } else {
        k + 1
    }
}

/// The lines of a text as the diff sees them, each with its line end.
pub open spec fn diff_lines(s: Seq<char>) -> Seq<Seq<char>>
    decreases s.len(),
    when 0 <= s.len()
    via diff_lines_decreases
{
    if s.len() == 0 {
        Seq::empty()
    } else {
        seq![s.take(first_line(s))] + diff_lines(s.skip(first_line(s)))
    }
}

proof fn lemma_break_at(s: Seq<char>, i: int)
    requires
        0 <= i <= s.len(),
    ensures
        i <= break_at(s, i) <= s.len(),
    decreases s.len() - i,
{
    if i < s.len() && s[i] != '\n' && s[i] != '\r' {
        lemma_break_at(s, i + 1);
    }
}

#[via_fn]
proof fn diff_lines_decreases(s: Seq<char>) {
    lemma_break_at(s, 0);
}

/// How many old lines the first `k` steps consume.
pub open spec fn old_pos(ops: Seq<LineOp>, k: int) -> int
    decreases k,
{
    if k <= 0 {
        0
    } else if ops[k - 1].tag == LineTag::Insert {
        old_pos(ops, k - 1)
    } else {
        old_pos(ops, k - 1) + (ops[k - 1].old_end - ops[k - 1].old_start)
    }
}

/// How many new lines the first `k` steps produce.
pub open spec fn new_pos(ops: Seq<LineOp>, k: int) -> int
    decreases k,
{
    if k <= 0 {
        0
    } else if ops[k - 1].tag == LineTag::Delete {
        new_pos(ops, k - 1)
    } else {
        new_pos(ops, k - 1) + (ops[k - 1].new_end - ops[k - 1].new_start)
    }
}

/// Whether the steps walk through both texts from the first line to the last:
/// each takes up old and new lines where the one before it stopped, and an equal
/// step pairs lines that are the same.
pub open spec fn covers(ops: Seq<LineOp>, old: Seq<Seq<char>>, new: Seq<Seq<char>>) -> bool {
    &&& forall|k: int|
        0 <= k < ops.len() && (#[trigger] ops[k]).tag != LineTag::Insert ==> ops[k].old_start
            == old_pos(ops, k) && ops[k].old_start < ops[k].old_end
    &&& forall|k: int|
        0 <= k < ops.len() && (#[trigger] ops[k]).tag != LineTag::Delete ==> ops[k].new_start
            == new_pos(ops, k) && ops[k].new_start < ops[k].new_end
    &&& forall|k: int|
        0 <= k < ops.len() && (#[trigger] ops[k]).tag == LineTag::Equal ==> ops[k].old_end
            - ops[k].old_start == ops[k].new_end - ops[k].new_start
    &&& forall|k: int, j: int|
        0 <= k < ops.len() && (#[trigger] ops[k]).tag == LineTag::Equal && 0 <= j < ops[k].old_end
            - ops[k].old_start ==> #[trigger] old[ops[k].old_start + j] == new[ops[k].new_start + j]
    &&& old_pos(ops, ops.len() as int) == old.len()
    &&& new_pos(ops, ops.len() as int) == new.len()
}

/// The edit script that `similar` finds between two texts.
pub uninterp spec fn line_ops(prev: Seq<char>, cur: Seq<char>) -> Seq<LineOp>;

/// `similar::TextDiff::from_lines` and `TextDiff::ops`: an edit script that is a
/// function of the two texts. Its steps walk through the lines of both texts in
/// order. Equal texts give equal steps only, and where one text is empty the
/// whole other text is one step.
#[verifier::external_body]
fn text_ops(prev: &str, cur: &str) -> (r: Vec<LineOp>)
    ensures
        r@ == line_ops(prev@, cur@),
        covers(r@, diff_lines(prev@), diff_lines(cur@)),
        prev@ == cur@ ==> forall|k: int| 0 <= k < r@.len() ==> (#[trigger] r@[k]).tag == LineTag::Equal,
        prev@.len() == 0 && cur@.len() > 0 ==> r@.len() == 1 && r@[0].tag == LineTag::Insert,
        prev@.len() > 0 && cur@.len() == 0 ==> r@.len() == 1 && r@[0].tag == LineTag::Delete,
{
    similar::TextDiff::from_lines(prev, cur).ops().iter().map(|op| LineOp {
        tag: match op.tag() {
            similar::DiffTag::Equal => LineTag::Equal,
            similar::DiffTag::Delete => LineTag::Delete,
            similar::DiffTag::Insert => LineTag::Insert,
            similar::DiffTag::Replace => LineTag::Replace,
        },
        old_start: op.old_range().start,
        old_end: op.old_range().end,
        new_start: op.new_range().start,
        new_end: op.new_range().end,
    }).collect()
}

/// The numbers `from + 1, .., to`.
pub open spec fn numbers(from: int, to: int) -> Seq<usize> {
    Seq::new(
        if to < from {
            0
        } else {
            (to - from) as nat
        },
        |i: int| (from + i + 1) as usize,
    )
}

/// The 1-based numbers of the new lines that the steps add.
pub open spec fn added(ops: Seq<LineOp>) -> Seq<usize>
    decreases ops.len(),
{
    if ops.len() == 0 {
        Seq::empty()
    } else {
        let op = ops.last();
        if op.tag == LineTag::Insert || op.tag == LineTag::Replace {
            added(ops.drop_last()) + numbers(op.new_start as int, op.new_end as int)
        } else {
            added(ops.drop_last())
        }
    }
}

/// The 1-based numbers of the old lines that the steps remove.
pub open spec fn removed(ops: Seq<LineOp>) -> Seq<usize>
    decreases ops.len(),
{
    if ops.len() == 0 {
        Seq::empty()
    } else {
        let op = ops.last();
        if op.tag == LineTag::Delete || op.tag == LineTag::Replace {
            removed(ops.drop_last()) + numbers(op.old_start as int, op.old_end as int)
        } else {
            removed(ops.drop_last())
        }
    }
}

fn push_numbers(v: &mut Vec<usize>, from: usize, to: usize)
    ensures
        final(v)@ == old(v)@ + numbers(from as int, to as int),
{
    let mut i: usize = from;
    assert(v@ =~= old(v)@ + numbers(from as int, from as int));
    while i < to
        invariant
            from <= i,
            from <= to ==> i <= to,
            to < from ==> i == from,
            v@ == old(v)@ + numbers(from as int, i as int),
        decreases to - i,
    {
        v.push(i + 1);
        i += 1;
        assert(v@ =~= old(v)@ + numbers(from as int, i as int));
    }
    assert(v@ =~= old(v)@ + numbers(from as int, to as int));
}

/// The line numbers that an edit script adds and removes.
pub fn line_diff_of(ops: &Vec<LineOp>) -> (r: LineDiff)
    ensures
        r.added_lines@ == added(ops@),
        r.removed_lines@ == removed(ops@),
        r.prev_seq is None,
{
    let mut added_lines: Vec<usize> = Vec::new();
    let mut removed_lines: Vec<usize> = Vec::new();
    let mut k: usize = 0;
    while k < ops.len()
        invariant
            k <= ops.len(),
            added_lines@ == added(ops@.take(k as int)),
            removed_lines@ == removed(ops@.take(k as int)),
        decreases ops.len() - k,
    {
        let op = ops[k];
        assert(ops@.take(k + 1).drop_last() =~= ops@.take(k as int));
        match op.tag {
            LineTag::Equal => {},
            LineTag::Insert => {
                push_numbers(&mut added_lines, op.new_start, op.new_end);
            },
            LineTag::Delete => {
                push_numbers(&mut removed_lines, op.old_start, op.old_end);
            },
            LineTag::Replace => {
                push_numbers(&mut added_lines, op.new_start, op.new_end);
                push_numbers(&mut removed_lines, op.old_start, op.old_end);
            },
        }
        k += 1;
    }
    assert(ops@.take(k as int) =~= ops@);
    LineDiff { added_lines, removed_lines, prev_seq: None }
}

/// Whether the numbers rise and lie in `1..=n`.
pub open spec fn rising(v: Seq<usize>, n: int) -> bool {
    &&& forall|i: int| 0 <= i < v.len() ==> 1 <= #[trigger] v[i] <= n
    &&& forall|i: int, j: int| 0 <= i < j < v.len() ==> #[trigger] v[i] < #[trigger] v[j]
}

/// The first `upto` lines without those whose 1-based number is in `v`.
pub open spec fn without(lines: Seq<Seq<char>>, v: Seq<usize>, upto: int) -> Seq<Seq<char>>
    decreases upto,
{
    if upto <= 0 {
        Seq::empty()
    } else if v.contains(upto as usize) {
        without(lines, v, upto - 1)
    } else {
        without(lines, v, upto - 1).push(lines[upto - 1])
    }
}

/// Whether a text grew into another by these added and removed lines: the numbers
/// rise, and the lines that were neither added nor removed are the same, in the
/// same order.
pub open spec fn explains(
    old: Seq<Seq<char>>,
    new: Seq<Seq<char>>,
    added_lines: Seq<usize>,
    removed_lines: Seq<usize>,
) -> bool {
    &&& rising(added_lines, new.len() as int)
    &&& rising(removed_lines, old.len() as int)
    &&& without(old, removed_lines, old.len() as int) == without(
        new,
        added_lines,
        new.len() as int,
    )
}

/// The line-level diff of `cur` against `prev`.
///
/// The lines are numbered from 1. Equal texts give no number; of an empty `prev`
/// every line of `cur` is added.
pub fn line_diff(prev: &str, cur: &str) -> (r: LineDiff)
    ensures
        r.added_lines@ == added(line_ops(prev@, cur@)),
        r.removed_lines@ == removed(line_ops(prev@, cur@)),
        r.prev_seq is None,
        explains(diff_lines(prev@), diff_lines(cur@), r.added_lines@, r.removed_lines@),
        prev@ == cur@ ==> r.added_lines@.len() == 0 && r.removed_lines@.len() == 0,
        prev@.len() == 0 ==> r.added_lines@ == numbers(0, diff_lines(cur@).len() as int)
            && r.removed_lines@.len() == 0,
        cur@.len() == 0 ==> r.removed_lines@ == numbers(0, diff_lines(prev@).len() as int)
            && r.added_lines@.len() == 0,
{
    let ops = text_ops(prev, cur);
    proof {
        lemma_explains(ops@, diff_lines(prev@), diff_lines(cur@));
        lemma_special(ops@, prev@, cur@);
    }
    line_diff_of(&ops)
}

proof fn lemma_all_equal(ops: Seq<LineOp>)
    requires
        forall|k: int| 0 <= k < ops.len() ==> (#[trigger] ops[k]).tag == LineTag::Equal,
    ensures
        added(ops).len() == 0,
        removed(ops).len() == 0,
    decreases ops.len(),
{
    if ops.len() > 0 {
        lemma_all_equal(ops.drop_last());
    }
}

proof fn lemma_special(ops: Seq<LineOp>, prev: Seq<char>, cur: Seq<char>)
    requires
        covers(ops, diff_lines(prev), diff_lines(cur)),
        prev == cur ==> forall|k: int| 0 <= k < ops.len() ==> (#[trigger] ops[k]).tag == LineTag::Equal,
        prev.len() == 0 && cur.len() > 0 ==> ops.len() == 1 && ops[0].tag == LineTag::Insert,
        prev.len() > 0 && cur.len() == 0 ==> ops.len() == 1 && ops[0].tag == LineTag::Delete,
    ensures
        prev == cur ==> added(ops).len() == 0 && removed(ops).len() == 0,
        prev.len() == 0 ==> added(ops) == numbers(0, diff_lines(cur).len() as int) && removed(
            ops,
        ).len() == 0,
        cur.len() == 0 ==> removed(ops) == numbers(0, diff_lines(prev).len() as int) && added(
            ops,
        ).len() == 0,
{
    if prev == cur {
        lemma_all_equal(ops);
    }
    if prev.len() == 0 && cur.len() == 0 {
        assert(prev =~= cur);
    } else if prev.len() == 0 || cur.len() == 0 {
        reveal_with_fuel(added, 2);
        reveal_with_fuel(removed, 2);
        reveal_with_fuel(old_pos, 2);
        reveal_with_fuel(new_pos, 2);
        assert(ops.drop_last() =~= Seq::empty());
        assert(ops.last() == ops[0]);
    }
    assert(prev.len() == 0 ==> added(ops) =~= numbers(0, diff_lines(cur).len() as int));
    assert(cur.len() == 0 ==> removed(ops) =~= numbers(0, diff_lines(prev).len() as int));
}

/// Positions never go back.
proof fn lemma_pos_monotone(ops: Seq<LineOp>, old: Seq<Seq<char>>, new: Seq<Seq<char>>, i: int, j: int)
    requires
        covers(ops, old, new),
        0 <= i <= j <= ops.len(),
    ensures
        0 <= old_pos(ops, i) <= old_pos(ops, j),
        0 <= new_pos(ops, i) <= new_pos(ops, j),
    decreases j,
{
    if i < j {
        lemma_pos_monotone(ops, old, new, i, j - 1);
        assert(ops[j - 1] == ops[j - 1]);
    } else if j > 0 {
        lemma_pos_monotone(ops, old, new, j - 1, j - 1);
        assert(ops[j - 1] == ops[j - 1]);
    }
}

/// The numbers of the first `k` steps rise and stay below the positions reached.
proof fn lemma_rising(ops: Seq<LineOp>, old: Seq<Seq<char>>, new: Seq<Seq<char>>, k: int)
    requires
        covers(ops, old, new),
        0 <= k <= ops.len(),
    ensures
        rising(added(ops.take(k)), new_pos(ops, k)),
        rising(removed(ops.take(k)), old_pos(ops, k)),
    decreases k,
{
    if k > 0 {
        lemma_rising(ops, old, new, k - 1);
        lemma_pos_monotone(ops, old, new, k - 1, k);
        assert(ops.take(k).drop_last() =~= ops.take(k - 1));
        assert(ops.take(k).last() == ops[k - 1]);
    } else {
        assert(ops.take(0) =~= Seq::empty());
    }
}

proof fn lemma_pos_fits(ops: Seq<LineOp>, old: Seq<Seq<char>>, new: Seq<Seq<char>>, k: int)
    requires
        covers(ops, old, new),
        0 <= k <= ops.len(),
    ensures
        0 <= old_pos(ops, k) <= usize::MAX,
        0 <= new_pos(ops, k) <= usize::MAX,
    decreases k,
{
    if k > 0 {
        lemma_pos_fits(ops, old, new, k - 1);
        assert(ops[k - 1] == ops[k - 1]);
    }
}

/// Numbers beyond `upto` change nothing.
proof fn lemma_without_beyond(lines: Seq<Seq<char>>, v: Seq<usize>, more: Seq<usize>, upto: int)
    requires
        0 <= upto <= usize::MAX,
        forall|i: int| 0 <= i < more.len() ==> #[trigger] more[i] > upto,
    ensures
        without(lines, v + more, upto) == without(lines, v, upto),
    decreases upto,
{
    if upto > 0 {
        lemma_without_beyond(lines, v, more, upto - 1);
        let x = upto as usize;
        if v.contains(x) {
            let w = choose|w: int| 0 <= w < v.len() && v[w] == x;
            assert((v + more)[w] == x);
        }
        if (v + more).contains(x) {
            let w = choose|w: int| 0 <= w < (v + more).len() && (v + more)[w] == x;
            if w >= v.len() {
                assert(more[w - v.len()] == x);
            }
            assert(v[w] == x);
        }
    }
}

/// A run of lines that are all listed adds nothing.
proof fn lemma_without_run(lines: Seq<Seq<char>>, v: Seq<usize>, from: int, to: int)
    requires
        0 <= from <= to <= usize::MAX,
    ensures
        without(lines, v + numbers(from, to), to) == without(lines, v + numbers(from, to), from),
{
    lemma_without_part(lines, v, from, to, to);
}

proof fn lemma_without_part(lines: Seq<Seq<char>>, v: Seq<usize>, from: int, to: int, at: int)
    requires
        0 <= from <= at <= to <= usize::MAX,
    ensures
        without(lines, v + numbers(from, to), at) == without(lines, v + numbers(from, to), from),
    decreases at,
{
    if from < at {
        lemma_without_part(lines, v, from, to, at - 1);
        assert((v + numbers(from, to))[v.len() + (at - 1 - from)] == at as usize);
    }
}

/// Two runs of lines that are the same and beyond all numbers extend both sides
/// alike.
proof fn lemma_without_paired(
    old: Seq<Seq<char>>,
    v: Seq<usize>,
    a: int,
    new: Seq<Seq<char>>,
    w: Seq<usize>,
    b: int,
    m: int,
)
    requires
        0 <= a,
        0 <= b,
        0 <= m,
        a + m <= usize::MAX,
        b + m <= usize::MAX,
        without(old, v, a) == without(new, w, b),
        rising(v, a),
        rising(w, b),
        forall|j: int| 0 <= j < m ==> #[trigger] old[a + j] == new[b + j],
    ensures
        without(old, v, a + m) == without(new, w, b + m),
    decreases m,
{
    if m > 0 {
        lemma_without_paired(old, v, a, new, w, b, m - 1);
        assert(old[a + (m - 1)] == new[b + (m - 1)]);
        assert(!v.contains((a + m) as usize));
        assert(!w.contains((b + m) as usize));
    }
}

proof fn lemma_walk(ops: Seq<LineOp>, old: Seq<Seq<char>>, new: Seq<Seq<char>>, k: int)
    requires
        covers(ops, old, new),
        0 <= k <= ops.len(),
    ensures
        without(old, removed(ops.take(k)), old_pos(ops, k)) == without(
            new,
            added(ops.take(k)),
            new_pos(ops, k),
        ),
    decreases k,
{
    if k > 0 {
        let i = k - 1;
        let op = ops[i];
        lemma_walk(ops, old, new, i);
        lemma_pos_fits(ops, old, new, k);
        lemma_pos_monotone(ops, old, new, i, k);
        lemma_rising(ops, old, new, i);
        assert(ops.take(k).drop_last() =~= ops.take(i));
        assert(ops.take(k).last() == op);
        let o = old_pos(ops, i);
        let o2 = old_pos(ops, k);
        let p = new_pos(ops, i);
        let p2 = new_pos(ops, k);
        let v = removed(ops.take(i));
        let w = added(ops.take(i));
        if op.tag == LineTag::Delete || op.tag == LineTag::Replace {
            lemma_without_run(old, v, o, o2);
            lemma_without_beyond(old, v, numbers(o, o2), o);
        }
        if op.tag == LineTag::Insert || op.tag == LineTag::Replace {
            lemma_without_run(new, w, p, p2);
            lemma_without_beyond(new, w, numbers(p, p2), p);
        }
        if op.tag == LineTag::Equal {
            let m = op.old_end - op.old_start;
            assert forall|j: int| 0 <= j < m implies #[trigger] old[o + j] == new[p + j] by {
                assert(old[ops[i].old_start + j] == new[ops[i].new_start + j]);
            }
            lemma_without_paired(old, v, o, new, w, p, m);
        }
    } else {
        assert(ops.take(0) =~= Seq::empty());
    }
}

proof fn lemma_explains(ops: Seq<LineOp>, old: Seq<Seq<char>>, new: Seq<Seq<char>>)
    requires
        covers(ops, old, new),
    ensures
        explains(old, new, added(ops), removed(ops)),
{
    let n = ops.len() as int;
    lemma_rising(ops, old, new, n);
    lemma_walk(ops, old, new, n);
    assert(ops.take(n) =~= ops);
}

/// A text has at most as many lines as characters.
pub proof fn lemma_diff_lines_len(s: Seq<char>)
    ensures
        diff_lines(s).len() <= s.len(),
    decreases s.len(),
{
    if s.len() > 0 {
        lemma_break_at(s, 0);
        lemma_diff_lines_len(s.skip(first_line(s)));
    }
}

/// Rising numbers in `1..=n` are at most `n`.
pub proof fn lemma_rising_len(v: Seq<usize>, n: int)
    requires
        rising(v, n),
        0 <= n,
    ensures
        v.len() <= n,
{
    if v.len() > 0 {
        lemma_rising_at(v, n, v.len() - 1);
    }
}

proof fn lemma_rising_at(v: Seq<usize>, n: int, i: int)
    requires
        rising(v, n),
        0 <= i < v.len(),
    ensures
        v[i] >= i + 1,
    decreases i,
{
    if i > 0 {
        lemma_rising_at(v, n, i - 1);
        assert(v[i - 1] < v[i]);
    }
}

/// Whether a line stayed, went or came.
#[derive(Clone, Copy, Debug, PartialEq, Eq, Structural)]
pub enum ChangeTag {
    Equal,
    Delete,
    Insert,
}

/// One line of a diff: its places in the old and the new text, counted from 0, and the
/// line with its line end.
#[derive(Debug)]
pub struct LineChange {
    pub tag: ChangeTag,
    pub old_index: Option<usize>,
    pub new_index: Option<usize>,
    pub value: String,
}

/// One line of a diff, its text as characters.
#[verifier::ext_equal]
pub struct ChangeModel {
    pub tag: ChangeTag,
    pub old_index: Option<usize>,
    pub new_index: Option<usize>,
    pub value: Seq<char>,
}

impl View for LineChange {
    type V = ChangeModel;

    open spec fn view(&self) -> ChangeModel {
        ChangeModel {
            tag: self.tag,
            old_index: self.old_index,
            new_index: self.new_index,
            value: self.value@,
        }
    }
}

/// The lines of a diff, their texts as characters.
pub open spec fn change_models(changes: Seq<LineChange>) -> Seq<ChangeModel> {
    Seq::new(changes.len(), |i: int| changes[i]@)
}

/// How many numbers lie from `from` up to but not including `to`.
pub open spec fn span(from: int, to: int) -> nat {
    if to < from {
        0
    } else {
        (to - from) as nat
    }
}

/// The lines `from..to` of the old text, which went.
pub open spec fn gone(old: Seq<Seq<char>>, from: int, to: int) -> Seq<ChangeModel> {
    Seq::new(
        span(from, to),
        |j: int|
            ChangeModel {
                tag: ChangeTag::Delete,
                old_index: Some((from + j) as usize),
                new_index: None,
                value: old[from + j],
            },
    )
}

/// The lines `from..to` of the new text, which came.
pub open spec fn come(new: Seq<Seq<char>>, from: int, to: int) -> Seq<ChangeModel> {
    Seq::new(
        span(from, to),
        |j: int|
            ChangeModel {
                tag: ChangeTag::Insert,
                old_index: None,
                new_index: Some((from + j) as usize),
                value: new[from + j],
            },
    )
}

/// The lines `from..to` of the old text, which stayed and stand at `at` in the new one.
pub open spec fn stayed(old: Seq<Seq<char>>, from: int, to: int, at: int) -> Seq<ChangeModel> {
    Seq::new(
        span(from, to),
        |j: int|
            ChangeModel {
                tag: ChangeTag::Equal,
                old_index: Some((from + j) as usize),
                new_index: Some((at + j) as usize),
                value: old[from + j],
            },
    )
}

/// The lines of one step of an edit script.
pub open spec fn step_changes(op: LineOp, old: Seq<Seq<char>>, new: Seq<Seq<char>>) -> Seq<
    ChangeModel,
> {
    let a = op.old_start as int;
    let b = op.old_end as int;
    let c = op.new_start as int;
    let d = op.new_end as int;
    match op.tag {
        LineTag::Equal => stayed(old, a, b, c),
        LineTag::Delete => gone(old, a, b),
        LineTag::Insert => come(new, c, d),
        LineTag::Replace => gone(old, a, b) + come(new, c, d),
    }
}

/// The lines of an edit script, step by step; where lines are replaced, those that went
/// come first.
pub open spec fn script_changes(ops: Seq<LineOp>, old: Seq<Seq<char>>, new: Seq<Seq<char>>) -> Seq<
    ChangeModel,
>
    decreases ops.len(),
{
    if ops.len() == 0 {
        Seq::empty()
    } else {
        script_changes(ops.drop_last(), old, new) + step_changes(ops.last(), old, new)
    }
}

/// The lines of the diff between two texts.
pub open spec fn text_changes(prev: Seq<char>, cur: Seq<char>) -> Seq<ChangeModel> {
    script_changes(line_ops(prev, cur), diff_lines(prev), diff_lines(cur))
}

/// `similar::TextDiff::from_lines` and `TextDiff::iter_all_changes`: the lines of the
/// edit script that `TextDiff::ops` gives, step by step, with the texts of those lines.
/// The indices are those of lines that exist.
#[verifier::external_body]
pub(crate) fn all_changes(prev: &str, cur: &str) -> (r: Vec<LineChange>)
    ensures
        change_models(r@) == text_changes(prev@, cur@),
        forall|i: int|
            0 <= i < r@.len() ==> ((#[trigger] r@[i]).old_index matches Some(k) ==> k < diff_lines(
                prev@,
            ).len()) && (r@[i].new_index matches Some(k) ==> k < diff_lines(cur@).len()),
{
    similar::TextDiff::from_lines(prev, cur).iter_all_changes().map(|c| LineChange {
        tag: match c.tag() {
            similar::ChangeTag::Equal => ChangeTag::Equal,
            similar::ChangeTag::Delete => ChangeTag::Delete,
            similar::ChangeTag::Insert => ChangeTag::Insert,
        },
        old_index: c.old_index(),
        new_index: c.new_index(),
        value: c.value().to_string(),
    }).collect()
}

/// How many lines of a diff are of one kind.
pub open spec fn how_many(changes: Seq<ChangeModel>, tag: ChangeTag) -> nat
    decreases changes.len(),
{
    if changes.len() == 0 {
        0
    } else {
        how_many(changes.drop_last(), tag) + (if changes.last().tag == tag {
            1nat
        } else {
            0
        })
    }
}

proof fn lemma_how_many_concat(a: Seq<ChangeModel>, b: Seq<ChangeModel>, tag: ChangeTag)
    ensures
        how_many(a + b, tag) == how_many(a, tag) + how_many(b, tag),
    decreases b.len(),
{
    if b.len() == 0 {
        assert(a + b =~= a);
    } else {
        lemma_how_many_concat(a, b.drop_last(), tag);
        assert((a + b).drop_last() =~= a + b.drop_last());
    }
}

proof fn lemma_how_many_uniform(s: Seq<ChangeModel>, is: ChangeTag, tag: ChangeTag)
    requires
        forall|i: int| 0 <= i < s.len() ==> (#[trigger] s[i]).tag == is,
    ensures
        how_many(s, tag) == (if is == tag {
            s.len()
        } else {
            0
        }),
    decreases s.len(),
{
    if s.len() > 0 {
        let d = s.drop_last();
        assert forall|i: int| 0 <= i < d.len() implies (#[trigger] d[i]).tag == is by {
            assert(d[i] == s[i]);
        }
        lemma_how_many_uniform(d, is, tag);
        assert(s[s.len() - 1].tag == is);
    }
}

/// The lines that a diff shows as added are as many as the numbers of added lines, and
/// likewise for removed lines.
pub proof fn law_changes_and_numbers_agree(
    ops: Seq<LineOp>,
    old: Seq<Seq<char>>,
    new: Seq<Seq<char>>,
)
    ensures
        how_many(script_changes(ops, old, new), ChangeTag::Insert) == added(ops).len(),
        how_many(script_changes(ops, old, new), ChangeTag::Delete) == removed(ops).len(),
    decreases ops.len(),
{
    if ops.len() > 0 {
        law_changes_and_numbers_agree(ops.drop_last(), old, new);
        let op = ops.last();
        let rest = script_changes(ops.drop_last(), old, new);
        let a = op.old_start as int;
        let b = op.old_end as int;
        let c = op.new_start as int;
        let d = op.new_end as int;
        let g = gone(old, a, b);
        let n = come(new, c, d);
        let e = stayed(old, a, b, c);
        lemma_how_many_uniform(g, ChangeTag::Delete, ChangeTag::Delete);
        lemma_how_many_uniform(g, ChangeTag::Delete, ChangeTag::Insert);
        lemma_how_many_uniform(n, ChangeTag::Insert, ChangeTag::Delete);
        lemma_how_many_uniform(n, ChangeTag::Insert, ChangeTag::Insert);
        lemma_how_many_uniform(e, ChangeTag::Equal, ChangeTag::Delete);
        lemma_how_many_uniform(e, ChangeTag::Equal, ChangeTag::Insert);
        lemma_how_many_concat(g, n, ChangeTag::Insert);
        lemma_how_many_concat(g, n, ChangeTag::Delete);
        lemma_how_many_concat(rest, step_changes(op, old, new), ChangeTag::Insert);
        lemma_how_many_concat(rest, step_changes(op, old, new), ChangeTag::Delete);
    }
}

/// The lines of a diff but for those of one kind.
pub open spec fn lines_but(changes: Seq<ChangeModel>, tag: ChangeTag) -> Seq<Seq<char>>
    decreases changes.len(),
{
    if changes.len() == 0 {
        Seq::empty()
    } else if changes.last().tag == tag {
        lines_but(changes.drop_last(), tag)
    } else {
        lines_but(changes.drop_last(), tag).push(changes.last().value)
    }
}

proof fn lemma_lines_but_concat(a: Seq<ChangeModel>, b: Seq<ChangeModel>, tag: ChangeTag)
    ensures
        lines_but(a + b, tag) == lines_but(a, tag) + lines_but(b, tag),
    decreases b.len(),
{
    if b.len() == 0 {
        assert(a + b =~= a);
        assert(lines_but(a, tag) + lines_but(b, tag) =~= lines_but(a, tag));
    } else {
        lemma_lines_but_concat(a, b.drop_last(), tag);
        assert((a + b).drop_last() =~= a + b.drop_last());
        assert(lines_but(a + b, tag) =~= lines_but(a, tag) + lines_but(b, tag));
    }
}

proof fn lemma_lines_but_uniform(s: Seq<ChangeModel>, is: ChangeTag, tag: ChangeTag)
    requires
        forall|i: int| 0 <= i < s.len() ==> (#[trigger] s[i]).tag == is,
    ensures
        is == tag ==> lines_but(s, tag).len() == 0,
        is != tag ==> lines_but(s, tag) == Seq::new(s.len(), |i: int| s[i].value),
    decreases s.len(),
{
    if s.len() > 0 {
        let d = s.drop_last();
        assert forall|i: int| 0 <= i < d.len() implies (#[trigger] d[i]).tag == is by {
            assert(d[i] == s[i]);
        }
        lemma_lines_but_uniform(d, is, tag);
        assert(s[s.len() - 1].tag == is);
        if is != tag {
            assert(lines_but(s, tag) =~= Seq::new(s.len(), |i: int| s[i].value));
        }
    } else if is != tag {
        assert(lines_but(s, tag) =~= Seq::new(s.len(), |i: int| s[i].value));
    }
}

proof fn lemma_positions_grow(
    ops: Seq<LineOp>,
    old: Seq<Seq<char>>,
    new: Seq<Seq<char>>,
    k: int,
    n: int,
)
    requires
        covers(ops, old, new),
        0 <= k <= n <= ops.len(),
    ensures
        0 <= old_pos(ops, k) <= old_pos(ops, n),
        0 <= new_pos(ops, k) <= new_pos(ops, n),
    decreases n,
{
    if n > 0 {
        let op = ops[n - 1];
        assert(op.tag != LineTag::Insert ==> op.old_start < op.old_end);
        assert(op.tag != LineTag::Delete ==> op.new_start < op.new_end);
        if k < n {
            lemma_positions_grow(ops, old, new, k, n - 1);
        } else {
            lemma_positions_grow(ops, old, new, k - 1, n - 1);
        }
    }
}

proof fn lemma_step_lines(op: LineOp, old: Seq<Seq<char>>, new: Seq<Seq<char>>)
    requires
        op.tag != LineTag::Insert ==> op.old_start < op.old_end <= old.len(),
        op.tag != LineTag::Delete ==> op.new_start < op.new_end <= new.len(),
        op.tag == LineTag::Equal ==> op.old_end - op.old_start == op.new_end - op.new_start
            && forall|j: int|
            0 <= j < op.old_end - op.old_start ==> #[trigger] old[op.old_start + j]
                == new[op.new_start + j],
    ensures
        lines_but(step_changes(op, old, new), ChangeTag::Insert) == (if op.tag == LineTag::Insert {
            Seq::empty()
        } else {
            old.subrange(op.old_start as int, op.old_end as int)
        }),
        lines_but(step_changes(op, old, new), ChangeTag::Delete) == (if op.tag == LineTag::Delete {
            Seq::empty()
        } else {
            new.subrange(op.new_start as int, op.new_end as int)
        }),
{
    let a = op.old_start as int;
    let b = op.old_end as int;
    let c = op.new_start as int;
    let d = op.new_end as int;
    let step = step_changes(op, old, new);
    let without_new = lines_but(step, ChangeTag::Insert);
    let without_old = lines_but(step, ChangeTag::Delete);
    if op.tag == LineTag::Equal {
        lemma_lines_but_uniform(step, ChangeTag::Equal, ChangeTag::Insert);
        lemma_lines_but_uniform(step, ChangeTag::Equal, ChangeTag::Delete);
        assert(without_new =~= old.subrange(a, b));
        assert forall|j: int| 0 <= j < d - c implies without_old[j] == new.subrange(c, d)[j] by {
            assert(old[a + j] == new[c + j]);
        }
        assert(without_old =~= new.subrange(c, d));
    } else if op.tag == LineTag::Delete {
        lemma_lines_but_uniform(step, ChangeTag::Delete, ChangeTag::Insert);
        lemma_lines_but_uniform(step, ChangeTag::Delete, ChangeTag::Delete);
        assert(without_new =~= old.subrange(a, b));
        assert(without_old =~= Seq::empty());
    } else if op.tag == LineTag::Insert {
        lemma_lines_but_uniform(step, ChangeTag::Insert, ChangeTag::Insert);
        lemma_lines_but_uniform(step, ChangeTag::Insert, ChangeTag::Delete);
        assert(without_new =~= Seq::empty());
        assert(without_old =~= new.subrange(c, d));
    } else {
        let g = gone(old, a, b);
        let n = come(new, c, d);
        lemma_lines_but_concat(g, n, ChangeTag::Insert);
        lemma_lines_but_concat(g, n, ChangeTag::Delete);
        lemma_lines_but_uniform(g, ChangeTag::Delete, ChangeTag::Insert);
        lemma_lines_but_uniform(g, ChangeTag::Delete, ChangeTag::Delete);
        lemma_lines_but_uniform(n, ChangeTag::Insert, ChangeTag::Insert);
        lemma_lines_but_uniform(n, ChangeTag::Insert, ChangeTag::Delete);
        assert(without_new =~= old.subrange(a, b));
        assert(without_old =~= new.subrange(c, d));
    }
}

/// Whether a step takes up both texts at these places, within their lengths, and pairs lines
/// that are the same where it is an equal one.
spec fn takes_up(op: LineOp, old: Seq<Seq<char>>, new: Seq<Seq<char>>, p: int, q: int) -> bool {
    &&& op.tag != LineTag::Insert ==> p == op.old_start < op.old_end <= old.len()
    &&& op.tag != LineTag::Delete ==> q == op.new_start < op.new_end <= new.len()
    &&& op.tag == LineTag::Equal ==> op.old_end - op.old_start == op.new_end - op.new_start
        && forall|j: int|
        0 <= j < op.old_end - op.old_start ==> #[trigger] old[op.old_start + j]
            == new[op.new_start + j]
}

proof fn lemma_takes_up(ops: Seq<LineOp>, old: Seq<Seq<char>>, new: Seq<Seq<char>>, k: int)
    requires
        covers(ops, old, new),
        0 <= k < ops.len(),
    ensures
        takes_up(ops[k], old, new, old_pos(ops, k), new_pos(ops, k)),
        0 <= old_pos(ops, k) <= old.len(),
        0 <= new_pos(ops, k) <= new.len(),
{
    lemma_positions_grow(ops, old, new, k, ops.len() as int);
    lemma_positions_grow(ops, old, new, k + 1, ops.len() as int);
    let op = ops[k];
    if op.tag == LineTag::Equal {
        assert forall|j: int| 0 <= j < op.old_end - op.old_start implies #[trigger] old[op.old_start
            + j] == new[op.new_start + j] by {
            assert(ops[k].tag == LineTag::Equal);
        }
    }
}

proof fn lemma_one_more_step(
    rest: Seq<ChangeModel>,
    op: LineOp,
    old: Seq<Seq<char>>,
    new: Seq<Seq<char>>,
    p: int,
    q: int,
)
    requires
        lines_but(rest, ChangeTag::Insert) == old.take(p),
        lines_but(rest, ChangeTag::Delete) == new.take(q),
        0 <= p <= old.len(),
        0 <= q <= new.len(),
        takes_up(op, old, new, p, q),
    ensures
        lines_but(rest + step_changes(op, old, new), ChangeTag::Insert) == old.take(
            if op.tag == LineTag::Insert {
                p
            } else {
                op.old_end as int
            },
        ),
        lines_but(rest + step_changes(op, old, new), ChangeTag::Delete) == new.take(
            if op.tag == LineTag::Delete {
                q
            } else {
                op.new_end as int
            },
        ),
{
    let step = step_changes(op, old, new);
    lemma_lines_but_concat(rest, step, ChangeTag::Insert);
    lemma_lines_but_concat(rest, step, ChangeTag::Delete);
    lemma_step_lines(op, old, new);
    if op.tag == LineTag::Insert {
        assert(old.take(p) + Seq::<Seq<char>>::empty() =~= old.take(p));
    } else {
        assert(old.take(p) + old.subrange(p, op.old_end as int) =~= old.take(op.old_end as int));
    }
    if op.tag == LineTag::Delete {
        assert(new.take(q) + Seq::<Seq<char>>::empty() =~= new.take(q));
    } else {
        assert(new.take(q) + new.subrange(q, op.new_end as int) =~= new.take(op.new_end as int));
    }
}

proof fn lemma_diff_shows_both(
    ops: Seq<LineOp>,
    old: Seq<Seq<char>>,
    new: Seq<Seq<char>>,
    k: int,
)
    requires
        covers(ops, old, new),
        0 <= k <= ops.len(),
    ensures
        lines_but(script_changes(ops.take(k), old, new), ChangeTag::Insert) == old.take(
            old_pos(ops, k),
        ),
        lines_but(script_changes(ops.take(k), old, new), ChangeTag::Delete) == new.take(
            new_pos(ops, k),
        ),
    decreases k,
{
    if k == 0 {
        assert(ops.take(0) =~= Seq::empty());
        assert(old.take(0) =~= Seq::empty());
        assert(new.take(0) =~= Seq::empty());
    } else {
        lemma_diff_shows_both(ops, old, new, k - 1);
        lemma_takes_up(ops, old, new, k - 1);
        let rest = script_changes(ops.take(k - 1), old, new);
        lemma_one_more_step(
            rest,
            ops[k - 1],
            old,
            new,
            old_pos(ops, k - 1),
            new_pos(ops, k - 1),
        );
        assert(ops.take(k).drop_last() =~= ops.take(k - 1));
        assert(ops.take(k).last() == ops[k - 1]);
    }
}

/// A diff shows both texts whole: its lines without the added ones are the old text, and
/// without the removed ones the new text, line by line.
pub proof fn law_diff_shows_both_texts(ops: Seq<LineOp>, old: Seq<Seq<char>>, new: Seq<Seq<char>>)
    requires
        covers(ops, old, new),
    ensures
        lines_but(script_changes(ops, old, new), ChangeTag::Insert) == old,
        lines_but(script_changes(ops, old, new), ChangeTag::Delete) == new,
{
    let n = ops.len() as int;
    lemma_diff_shows_both(ops, old, new, n);
    assert(ops.take(n) =~= ops);
    assert(old.take(old.len() as int) =~= old);
    assert(new.take(new.len() as int) =~= new);
}

/// A line without the line feeds at its end.
pub open spec fn without_feeds(s: Seq<char>) -> Seq<char>
    decreases s.len(),
{
    if s.len() > 0 && s.last() == '\n' {
        without_feeds(s.drop_last())
    } else {
        s
    }
}

/// A line without the line feeds at its end.
pub fn drop_feeds(s: &str) -> (r: String)
    ensures
        r@ == without_feeds(s@),
{
    let v = text::chars_of(s);
    let mut n: usize = v.len();
    assert(v@.take(n as int) =~= v@);
    while 0 < n && v[n - 1] == '\n'
        invariant
            n <= v.len(),
            without_feeds(v@) == without_feeds(v@.take(n as int)),
        decreases n,
    {
        assert(v@.take(n as int).drop_last() =~= v@.take(n - 1));
        n -= 1;
    }
    let r = text::string_between(&v, 0, n);
    assert(r@ =~= v@.take(n as int));
    r
}

/// A line is shown without its line feeds, and whole otherwise.
pub proof fn law_line_feeds_are_taken_from_the_end(s: Seq<char>)
    ensures
        without_feeds(s).len() <= s.len(),
        without_feeds(s) == s.take(without_feeds(s).len() as int),
        forall|i: int| without_feeds(s).len() <= i < s.len() ==> #[trigger] s[i] == '\n',
        without_feeds(s).len() > 0 ==> without_feeds(s).last() != '\n',
    decreases s.len(),
{
    if s.len() > 0 && s.last() == '\n' {
        let d = s.drop_last();
        law_line_feeds_are_taken_from_the_end(d);
        assert(without_feeds(s) =~= s.take(without_feeds(s).len() as int));
        assert forall|i: int| without_feeds(s).len() <= i < s.len() implies #[trigger] s[i] == '\n' by {
            if i < d.len() {
                assert(d[i] == s[i]);
            }
        }
    } else {
        assert(s.take(s.len() as int) =~= s);
    }
}

proof fn lemma_numbers_hold(from: int, to: int, n: usize)
    requires
        0 <= from,
        to <= usize::MAX,
    ensures
        numbers(from, to).contains(n) <==> from < n <= to,
{
    if numbers(from, to).contains(n) {
        let i = choose|i: int| 0 <= i < numbers(from, to).len() && numbers(from, to)[i] == n;
        assert(n == from + i + 1);
    }
    if from < n <= to {
        assert(numbers(from, to)[n - from - 1] == n);
    }
}

proof fn lemma_contains_concat(a: Seq<usize>, b: Seq<usize>, n: usize)
    ensures
        (a + b).contains(n) <==> a.contains(n) || b.contains(n),
{
    let s = a + b;
    if s.contains(n) {
        let i = choose|i: int| 0 <= i < s.len() && s[i] == n;
        if i < a.len() {
            assert(a[i] == n);
        } else {
            assert(b[i - a.len()] == n);
        }
    }
    if a.contains(n) {
        let i = choose|i: int| 0 <= i < a.len() && a[i] == n;
        assert(s[i] == n);
    }
    if b.contains(n) {
        let i = choose|i: int| 0 <= i < b.len() && b[i] == n;
        assert(s[a.len() + i] == n);
    }
}

/// A line of the new text counts as added exactly if a step inserts it or puts it in the place of
/// others, and a line of the old text as removed exactly if a step deletes or replaces it. Lines
/// are counted from 1.
pub proof fn law_steps_add_and_remove_lines(ops: Seq<LineOp>, n: usize)
    ensures
        added(ops).contains(n) <==> exists|k: int|
            0 <= k < ops.len() && ((#[trigger] ops[k]).tag == LineTag::Insert || ops[k].tag
                == LineTag::Replace) && ops[k].new_start < n <= ops[k].new_end,
        removed(ops).contains(n) <==> exists|k: int|
            0 <= k < ops.len() && ((#[trigger] ops[k]).tag == LineTag::Delete || ops[k].tag
                == LineTag::Replace) && ops[k].old_start < n <= ops[k].old_end,
    decreases ops.len(),
{
    if ops.len() > 0 {
        let d = ops.drop_last();
        let op = ops.last();
        law_steps_add_and_remove_lines(d, n);
        lemma_numbers_hold(op.new_start as int, op.new_end as int, n);
        lemma_numbers_hold(op.old_start as int, op.old_end as int, n);
        lemma_contains_concat(added(d), numbers(op.new_start as int, op.new_end as int), n);
        lemma_contains_concat(removed(d), numbers(op.old_start as int, op.old_end as int), n);
        assert(ops[ops.len() - 1] == op);
        if exists|k: int|
            0 <= k < d.len() && ((#[trigger] d[k]).tag == LineTag::Insert || d[k].tag
                == LineTag::Replace) && d[k].new_start < n <= d[k].new_end {
            let k = choose|k: int|
                0 <= k < d.len() && ((#[trigger] d[k]).tag == LineTag::Insert || d[k].tag
                    == LineTag::Replace) && d[k].new_start < n <= d[k].new_end;
            assert(ops[k] == d[k]);
        }
        if exists|k: int|
            0 <= k < d.len() && ((#[trigger] d[k]).tag == LineTag::Delete || d[k].tag
                == LineTag::Replace) && d[k].old_start < n <= d[k].old_end {
            let k = choose|k: int|
                0 <= k < d.len() && ((#[trigger] d[k]).tag == LineTag::Delete || d[k].tag
                    == LineTag::Replace) && d[k].old_start < n <= d[k].old_end;
            assert(ops[k] == d[k]);
        }
        if exists|k: int|
            0 <= k < ops.len() && ((#[trigger] ops[k]).tag == LineTag::Insert || ops[k].tag
                == LineTag::Replace) && ops[k].new_start < n <= ops[k].new_end {
            let k = choose|k: int|
                0 <= k < ops.len() && ((#[trigger] ops[k]).tag == LineTag::Insert || ops[k].tag
                    == LineTag::Replace) && ops[k].new_start < n <= ops[k].new_end;
            if k < d.len() {
                assert(d[k] == ops[k]);
            }
        }
        if exists|k: int|
            0 <= k < ops.len() && ((#[trigger] ops[k]).tag == LineTag::Delete || ops[k].tag
                == LineTag::Replace) && ops[k].old_start < n <= ops[k].old_end {
            let k = choose|k: int|
                0 <= k < ops.len() && ((#[trigger] ops[k]).tag == LineTag::Delete || ops[k].tag
                    == LineTag::Replace) && ops[k].old_start < n <= ops[k].old_end;
            if k < d.len() {
                assert(d[k] == ops[k]);
            }
        }
    }
}

/// The numbers of added and of removed lines rise, each stands there once, and all are numbers of
/// lines of the text they belong to.
pub proof fn law_line_numbers_rise(ops: Seq<LineOp>, old: Seq<Seq<char>>, new: Seq<Seq<char>>)
    requires
        covers(ops, old, new),
    ensures
        forall|i: int, j: int|
            0 <= i < j < added(ops).len() ==> #[trigger] added(ops)[i] < #[trigger] added(ops)[j],
        forall|i: int, j: int|
            0 <= i < j < removed(ops).len() ==> #[trigger] removed(ops)[i]
                < #[trigger] removed(ops)[j],
        forall|i: int| 0 <= i < added(ops).len() ==> 1 <= #[trigger] added(ops)[i] <= new.len(),
        forall|i: int| 0 <= i < removed(ops).len() ==> 1 <= #[trigger] removed(ops)[i] <= old.len(),
{
    lemma_explains(ops, old, new);
}

} // verus!
