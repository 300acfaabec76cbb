//! Stable sorting, and what filters keep.

use vstd::prelude::*;

verus! {

/// A sorted sequence with one more item, placed behind every item that it does not
/// come before.
pub open spec fn insert_by<T>(s: Seq<T>, x: T, before: spec_fn(T, T) -> bool) -> Seq<T>
    decreases s.len(),
{
    if s.len() > 0 && before(x, s.last()) {
        insert_by(s.drop_last(), x, before).push(s.last())
    } else {
        s.push(x)
    }
}

/// The items in order; items of which neither comes before the other stay in the
/// order in which they stood.
pub open spec fn sorted_by<T>(s: Seq<T>, before: spec_fn(T, T) -> bool) -> Seq<T>
    decreases s.len(),
{
    if s.len() == 0 {
        Seq::empty()
    } else {
        insert_by(sorted_by(s.drop_last(), before), s.last(), before)
    }
}

/// Whether no item comes before one that stands in front of it.
pub open spec fn in_order<T>(s: Seq<T>, before: spec_fn(T, T) -> bool) -> bool {
    forall|i: int, j: int| 0 <= i < j < s.len() ==> !before(#[trigger] s[j], #[trigger] s[i])
}

/// Whether `before` orders items as numbers are ordered, up to ties.
pub open spec fn is_weak_order<T>(before: spec_fn(T, T) -> bool) -> bool {
    &&& forall|a: T, b: T| #[trigger] before(a, b) ==> !before(b, a)
    &&& forall|a: T, b: T, c: T|
        !(#[trigger] before(b, a)) && !(#[trigger] before(c, b)) ==> !before(c, a)
}

proof fn lemma_insert<T>(s: Seq<T>, x: T, before: spec_fn(T, T) -> bool)
    ensures
        insert_by(s, x, before).len() == s.len() + 1,
        insert_by(s, x, before).to_multiset() == s.to_multiset().insert(x),
        is_weak_order(before) && in_order(s, before) ==> in_order(insert_by(s, x, before), before),
    decreases s.len(),
{
    broadcast use vstd::seq_lib::group_to_multiset_ensures;

    let r = insert_by(s, x, before);
    if s.len() > 0 && before(x, s.last()) {
        let d = s.drop_last();
        lemma_insert(d, x, before);
        assert(s =~= d.push(s.last()));
        assert(r.to_multiset() =~= s.to_multiset().insert(x));
        if is_weak_order(before) && in_order(s, before) {
            assert(in_order(d, before));
            let q = insert_by(d, x, before);
            assert forall|i: int, j: int| 0 <= i < j < r.len() implies !before(
                #[trigger] r[j],
                #[trigger] r[i],
            ) by {
                if j == r.len() - 1 {
                    assert(q.to_multiset().contains(q[i]));
                    assert(q.contains(q[i]));
                    assert(d.to_multiset().insert(x).contains(q[i]));
                    if q[i] != x {
                        assert(d.to_multiset().contains(q[i]));
                        assert(d.contains(q[i]));
                        let w = choose|w: int| 0 <= w < d.len() && d[w] == q[i];
                        assert(s[w] == q[i]);
                        assert(!before(s[s.len() - 1], s[w]));
                    }
                } else {
                    assert(r[i] == q[i] && r[j] == q[j]);
                }
            }
        }
    } else {
        if is_weak_order(before) && in_order(s, before) {
            assert forall|i: int, j: int| 0 <= i < j < r.len() implies !before(
                #[trigger] r[j],
                #[trigger] r[i],
            ) by {
                if j == r.len() - 1 && s.len() > 0 {
                    if i < s.len() - 1 {
                        assert(!before(s[s.len() - 1], s[i]));
                    }
                }
            }
        }
    }
}

/// Sorting keeps every item as often as it stood there, and by an order that is
/// one it puts them in order.
pub proof fn law_sorted<T>(s: Seq<T>, before: spec_fn(T, T) -> bool)
    ensures
        sorted_by(s, before).len() == s.len(),
        sorted_by(s, before).to_multiset() == s.to_multiset(),
        is_weak_order(before) ==> in_order(sorted_by(s, before), before),
    decreases s.len(),
{
    broadcast use vstd::seq_lib::group_to_multiset_ensures;

    if s.len() > 0 {
        law_sorted(s.drop_last(), before);
        lemma_insert(sorted_by(s.drop_last(), before), s.last(), before);
        assert(s =~= s.drop_last().push(s.last()));
    }
}

/// Sorting keeps exactly the items that stood there.
pub proof fn lemma_sorted_contains<T>(s: Seq<T>, before: spec_fn(T, T) -> bool, x: T)
    ensures
        sorted_by(s, before).contains(x) <==> s.contains(x),
{
    broadcast use vstd::seq_lib::group_to_multiset_ensures;

    law_sorted(s, before);
    assert(sorted_by(s, before).to_multiset().contains(x) <==> s.to_multiset().contains(x));
}

/// Sorting and taking each item for what it stands for may be done in either order.
pub proof fn lemma_sorted_map<T, M>(
    s: Seq<T>,
    f: spec_fn(T) -> M,
    before: spec_fn(T, T) -> bool,
    under: spec_fn(M, M) -> bool,
)
    requires
        forall|a: T, b: T| #[trigger] before(a, b) == under(f(a), f(b)),
    ensures
        sorted_by(s, before).map_values(f) == sorted_by(s.map_values(f), under),
    decreases s.len(),
{
    if s.len() > 0 {
        lemma_sorted_map(s.drop_last(), f, before, under);
        lemma_insert_map(sorted_by(s.drop_last(), before), s.last(), f, before, under);
        assert(s.map_values(f).drop_last() =~= s.drop_last().map_values(f));
    } else {
        assert(s.map_values(f) =~= Seq::empty());
        assert(sorted_by(s, before).map_values(f) =~= Seq::empty());
    }
}

proof fn lemma_insert_map<T, M>(
    s: Seq<T>,
    x: T,
    f: spec_fn(T) -> M,
    before: spec_fn(T, T) -> bool,
    under: spec_fn(M, M) -> bool,
)
    requires
        forall|a: T, b: T| #[trigger] before(a, b) == under(f(a), f(b)),
    ensures
        insert_by(s, x, before).map_values(f) == insert_by(s.map_values(f), f(x), under),
    decreases s.len(),
{
    let m = s.map_values(f);
    if s.len() > 0 {
        assert(before(x, s.last()) == under(f(x), m.last()));
    }
    if s.len() > 0 && before(x, s.last()) {
        lemma_insert_map(s.drop_last(), x, f, before, under);
        assert(m.drop_last() =~= s.drop_last().map_values(f));
        assert(insert_by(s, x, before).map_values(f) =~= insert_by(m.drop_last(), f(x), under).push(
            m.last(),
        ));
    } else {
        assert(insert_by(s, x, before).map_values(f) =~= m.push(f(x)));
    }
}

/// Sorting a sequence that is in order changes nothing.
pub proof fn lemma_sorted_twice<T>(s: Seq<T>, before: spec_fn(T, T) -> bool)
    requires
        in_order(s, before),
    ensures
        sorted_by(s, before) == s,
    decreases s.len(),
{
    if s.len() > 0 {
        let d = s.drop_last();
        assert(in_order(d, before));
        lemma_sorted_twice(d, before);
        if d.len() > 0 {
            assert(!before(s[s.len() - 1], s[d.len() - 1]));
        }
        assert(d.push(s.last()) =~= s);
    } else {
        assert(s =~= Seq::empty());
    }
}

/// Items that can be sorted.
pub trait Ranked: Sized {
    /// Whether one item comes before another.
    spec fn before(self, other: Self) -> bool;

    /// Whether one item comes before another.
    fn comes_before(&self, other: &Self) -> (r: bool)
        ensures
            r == self.before(*other),
    ;
}

/// The order of a type as a function.
pub open spec fn rank<T: Ranked>() -> spec_fn(T, T) -> bool {
    |a: T, b: T| a.before(b)
}

fn insert<T: Ranked>(v: &mut Vec<T>, x: T)
    ensures
        final(v)@ == insert_by(old(v)@, x, rank::<T>()),
{
    let mut i: usize = v.len();
    let ghost s = v@;
    assert(s.take(i as int) =~= s);
    assert(s.skip(i as int) =~= Seq::empty());
    assert(insert_by(s, x, rank::<T>()) =~= insert_by(s.take(i as int), x, rank::<T>()) + s.skip(
        i as int,
    ));
    while i > 0 && x.comes_before(&v[i - 1])
        invariant
            i <= v.len(),
            v@ == s,
            insert_by(s, x, rank::<T>()) == insert_by(s.take(i as int), x, rank::<T>()) + s.skip(
                i as int,
            ),
        decreases i,
    {
        let ghost t = s.take(i as int);
        proof {
            assert(t.last() == s[i - 1]);
            assert(rank::<T>()(x, t.last()));
            assert(t.drop_last() =~= s.take(i - 1));
            assert(insert_by(t, x, rank::<T>()) + s.skip(i as int) =~= insert_by(
                s.take(i - 1),
                x,
                rank::<T>(),
            ) + s.skip(i - 1));
        }
        i -= 1;
    }
    proof {
        let t = s.take(i as int);
        if i > 0 {
            assert(t.last() == s[i - 1]);
            assert(!rank::<T>()(x, t.last()));
        }
        assert(t.push(x) + s.skip(i as int) =~= s.insert(i as int, x));
    }
    v.insert(i, x);
}

/// Sorts, keeping the order of items that tie.
pub fn sort<T: Ranked>(v: Vec<T>) -> (r: Vec<T>)
    ensures
        r@ == sorted_by(v@, rank::<T>()),
{
    let mut rest = v;
    let mut r: Vec<T> = Vec::new();
    let ghost all = v@;
    let ghost mut done: int = 0;
    assert(all.take(0) =~= Seq::empty());
    while rest.len() > 0
        invariant
            0 <= done <= all.len(),
            rest@ =~= all.skip(done),
            r@ == sorted_by(all.take(done), rank::<T>()),
        decreases rest.len(),
    {
        let x = rest.remove(0);
        assert(all.take(done + 1).drop_last() =~= all.take(done));
        assert(all.take(done + 1).last() == x);
        insert(&mut r, x);
        proof {
            done = done + 1;
        }
    }
    assert(all.take(done) =~= all);
    r
}

/// Every item that a filter keeps satisfies it and comes from the sequence.
pub proof fn lemma_filter_holds<T>(s: Seq<T>, keep: spec_fn(T) -> bool, i: int)
    requires
        0 <= i < s.filter(keep).len(),
    ensures
        keep(s.filter(keep)[i]),
        s.contains(s.filter(keep)[i]),
    decreases s.len(),
{
    reveal(Seq::filter);
    if s.len() > 0 {
        let d = s.drop_last();
        if i < d.filter(keep).len() {
            lemma_filter_holds(d, keep, i);
            let w = choose|w: int| 0 <= w < d.len() && d[w] == d.filter(keep)[i];
            assert(s[w] == d[w]);
        } else {
            assert(s[s.len() - 1] == s.last());
        }
    }
}

/// What a filter keeps stands in the order in which it stood.
pub proof fn lemma_filter_places<T>(s: Seq<T>, keep: spec_fn(T) -> bool, i: int, j: int)
    requires
        0 <= i < j < s.filter(keep).len(),
    ensures
        exists|a: int, b: int|
            0 <= a < b < s.len() && #[trigger] s[a] == s.filter(keep)[i] && #[trigger] s[b]
                == s.filter(keep)[j],
    decreases s.len(),
{
    reveal(Seq::filter);
    let d = s.drop_last();
    if j < d.filter(keep).len() {
        lemma_filter_places(d, keep, i, j);
        let (a, b) = choose|a: int, b: int|
            0 <= a < b < d.len() && #[trigger] d[a] == d.filter(keep)[i] && #[trigger] d[b]
                == d.filter(keep)[j];
        assert(s[a] == d[a] && s[b] == d[b]);
    } else {
        lemma_filter_holds(d, keep, i);
        let a = choose|a: int| 0 <= a < d.len() && d[a] == d.filter(keep)[i];
        assert(s[a] == d[a] && s[s.len() - 1] == s.last());
    }
}

/// A filter keeps every item that satisfies it.
pub proof fn lemma_filter_keeps<T>(s: Seq<T>, keep: spec_fn(T) -> bool, x: T)
    requires
        s.contains(x),
        keep(x),
    ensures
        s.filter(keep).contains(x),
    decreases s.len(),
{
    reveal(Seq::filter);
    let d = s.drop_last();
    if s.last() == x {
        assert(s.filter(keep)[s.filter(keep).len() - 1] == x);
    } else {
        let w = choose|w: int| 0 <= w < s.len() && s[w] == x;
        assert(d[w] == x);
        lemma_filter_keeps(d, keep, x);
        let k = choose|k: int| 0 <= k < d.filter(keep).len() && d.filter(keep)[k] == x;
        assert(s.filter(keep)[k] == x);
    }
}

/// A filter that no item satisfies keeps nothing.
pub proof fn lemma_filter_none<T>(s: Seq<T>, keep: spec_fn(T) -> bool)
    requires
        forall|i: int| 0 <= i < s.len() ==> !keep(#[trigger] s[i]),
    ensures
        s.filter(keep).len() == 0,
    decreases s.len(),
{
    reveal(Seq::filter);
    if s.len() > 0 {
        assert forall|i: int| 0 <= i < s.drop_last().len() implies !keep(
            #[trigger] s.drop_last()[i],
        ) by {
            assert(s.drop_last()[i] == s[i]);
        }
        lemma_filter_none(s.drop_last(), keep);
        assert(!keep(s[s.len() - 1]));
    }
}

/// Filters that agree on the items of a sequence keep the same.
pub proof fn lemma_filter_same<T>(s: Seq<T>, a: spec_fn(T) -> bool, b: spec_fn(T) -> bool)
    requires
        forall|i: int| 0 <= i < s.len() ==> a(#[trigger] s[i]) == b(s[i]),
    ensures
        s.filter(a) == s.filter(b),
    decreases s.len(),
{
    reveal(Seq::filter);
    if s.len() > 0 {
        let d = s.drop_last();
        assert forall|i: int| 0 <= i < d.len() implies a(#[trigger] d[i]) == b(d[i]) by {
            assert(d[i] == s[i]);
        }
        lemma_filter_same(d, a, b);
        assert(a(s[s.len() - 1]) == b(s[s.len() - 1]));
    }
}

/// A filter takes one more item at the end by itself.
pub proof fn lemma_filter_push<T>(s: Seq<T>, x: T, keep: spec_fn(T) -> bool)
    ensures
        s.push(x).filter(keep) == (if keep(x) {
            s.filter(keep).push(x)
        } else {
            s.filter(keep)
        }),
{
    reveal(Seq::filter);
    assert(s.push(x).drop_last() =~= s);
}

proof fn lemma_insert_keeps_class<T>(
    s: Seq<T>,
    x: T,
    before: spec_fn(T, T) -> bool,
    class: spec_fn(T) -> bool,
)
    requires
        class(x) ==> forall|y: T| #[trigger] class(y) ==> !before(x, y),
    ensures
        insert_by(s, x, before).filter(class) == s.push(x).filter(class),
    decreases s.len(),
{
    lemma_filter_push(s, x, class);
    if s.len() > 0 && before(x, s.last()) {
        let d = s.drop_last();
        lemma_insert_keeps_class(d, x, before, class);
        lemma_filter_push(d, x, class);
        lemma_filter_push(insert_by(d, x, before), s.last(), class);
        lemma_filter_push(d, s.last(), class);
        assert(d.push(s.last()) =~= s);
        if class(x) {
            assert(!class(s.last()));
        }
    }
}

/// Items of which none comes before another stay in the order in which they stood.
pub proof fn law_sorting_keeps_the_order_of_equals<T>(
    s: Seq<T>,
    before: spec_fn(T, T) -> bool,
    class: spec_fn(T) -> bool,
)
    requires
        forall|x: T, y: T| #[trigger] class(x) && #[trigger] class(y) ==> !before(x, y),
    ensures
        sorted_by(s, before).filter(class) == s.filter(class),
    decreases s.len(),
{
    if s.len() > 0 {
        let d = s.drop_last();
        law_sorting_keeps_the_order_of_equals(d, before, class);
        if class(s.last()) {
            assert forall|y: T| #[trigger] class(y) implies !before(s.last(), y) by {
                assert(class(s.last()) && class(y));
            }
        }
        lemma_insert_keeps_class(sorted_by(d, before), s.last(), before, class);
        lemma_filter_push(sorted_by(d, before), s.last(), class);
        lemma_filter_push(d, s.last(), class);
        assert(d.push(s.last()) =~= s);
    }
}

} // verus!
