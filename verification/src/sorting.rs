//! Stable sorting by a strict "comes before" relation.

use vstd::prelude::*;

verus! {

/// Items with a strict order: `a.before(b)` says that `a` has to stand ahead
/// of `b`. Items of which neither is before the other tie, and a stable sort
/// leaves them as they came.
pub trait Ranked: Sized {
    spec fn before(&self, other: &Self) -> bool;

    fn comes_before(&self, other: &Self) -> (r: bool)
        ensures
            r == self.before(other),
    ;
}

/// `s` with `x` put in behind every item that does not have to follow it.
pub open spec fn insert_ranked<T: Ranked>(s: Seq<T>, x: T) -> Seq<T>
    decreases s.len(),
{
    if s.len() > 0 && x.before(&s.last()) {
        insert_ranked(s.drop_last(), x).push(s.last())
    } else {
        s.push(x)
    }
}

/// The stable sort of `s`: its items put in one by one, each behind the items
/// already there that tie with it or come before it.
pub open spec fn stable_sorted<T: Ranked>(s: Seq<T>) -> Seq<T>
    decreases s.len(),
{
    if s.len() == 0 {
        s
    } else {
        insert_ranked(stable_sorted(s.drop_last()), s.last())
    }
}

proof fn lemma_insert_at<T: Ranked>(s: Seq<T>, x: T, p: int)
    requires
        0 <= p <= s.len(),
        forall|k: int| p <= k < s.len() ==> x.before(&#[trigger] s[k]),
        p == 0 || !x.before(&s[p - 1]),
    ensures
        insert_ranked(s, x) == s.insert(p, x),
    decreases s.len(),
{
    if s.len() == 0 {
        assert(s.insert(0, x) =~= s.push(x));
    } else if p == s.len() {
        assert(s.insert(p, x) =~= s.push(x));
    } else {
        assert(x.before(&s[s.len() - 1]));
        lemma_insert_at(s.drop_last(), x, p);
        assert(s.drop_last().insert(p, x).push(s.last()) =~= s.insert(p, x));
    }
}

/// Sorts `v` in place, leaving items that tie in the order in which they came.
pub fn stable_sort<T: Ranked>(v: &mut Vec<T>)
    ensures
        final(v)@ == stable_sorted(old(v)@),
{
    let ghost orig = v@;
    let mut i: usize = 0;
    assert(orig.take(0) =~= Seq::<T>::empty());
    assert(stable_sorted(orig.take(0)) + orig.skip(0) =~= orig);
    while i < v.len()
        invariant
            i <= v.len(),
            v.len() == orig.len(),
            v@ == stable_sorted(orig.take(i as int)) + orig.skip(i as int),
            stable_sorted(orig.take(i as int)).len() == i,
        decreases v.len() - i,
    {
        let ghost done = stable_sorted(orig.take(i as int));
        let x = v.remove(i);
        assert(v@ =~= done + orig.skip(i + 1));
        assert(x == orig[i as int]);
        let mut p: usize = i;
        while p > 0 && x.comes_before(&v[p - 1])
            invariant
                p <= i <= v.len(),
                done.len() == i,
                v@ == done + orig.skip(i + 1),
                forall|k: int| p <= k < i ==> x.before(&#[trigger] done[k]),
            decreases p,
        {
            assert(v@[p - 1] == done[p - 1]);
            p = p - 1;
        }
        proof {
            if p > 0 {
                assert(v@[p - 1] == done[p - 1]);
            }
            lemma_insert_at(done, x, p as int);
            assert(orig.take(i + 1).drop_last() =~= orig.take(i as int));
            assert(orig.take(i + 1).last() == x);
        }
        v.insert(p, x);
        assert(v@ =~= stable_sorted(orig.take(i + 1)) + orig.skip(i + 1));
        i = i + 1;
    }
    assert(orig.take(i as int) =~= orig);
    assert(v@ =~= stable_sorted(orig));
}

/// `s` with `x` put in behind every item that `x` is not `before`.
pub open spec fn insert_by<M>(s: Seq<M>, x: M, before: spec_fn(M, M) -> bool) -> Seq<M>
    decreases s.len(),
{
    if s.len() > 0 && before(x, s.last()) {
        insert_by(s.drop_last(), x, before).push(s.last())
    } else {
        s.push(x)
    }
}

/// The stable sort of `s` under the strict order `before`.
pub open spec fn sorted_by<M>(s: Seq<M>, before: spec_fn(M, M) -> bool) -> Seq<M>
    decreases s.len(),
{
    if s.len() == 0 {
        s
    } else {
        insert_by(sorted_by(s.drop_last(), before), s.last(), before)
    }
}

/// `before` on the contents agrees with the rank of the items.
pub open spec fn ranks_alike<T: Ranked, M>(
    content: spec_fn(T) -> M,
    before: spec_fn(M, M) -> bool,
) -> bool {
    forall|a: T, b: T| #[trigger] a.before(&b) == before(content(a), content(b))
}

proof fn lemma_insert_commutes<T: Ranked, M>(
    s: Seq<T>,
    x: T,
    content: spec_fn(T) -> M,
    before: spec_fn(M, M) -> bool,
)
    requires
        ranks_alike(content, before),
    ensures
        insert_ranked(s, x).map_values(content) == insert_by(
            s.map_values(content),
            content(x),
            before,
        ),
    decreases s.len(),
{
    let ms = s.map_values(content);
    if s.len() > 0 && x.before(&s.last()) {
        assert(ms.last() == content(s.last()));
        assert(ms.drop_last() =~= s.drop_last().map_values(content));
        lemma_insert_commutes(s.drop_last(), x, content, before);
        assert(insert_ranked(s, x).map_values(content) =~= insert_ranked(
            s.drop_last(),
            x,
        ).map_values(content).push(content(s.last())));
    } else {
        if s.len() > 0 {
            assert(ms.last() == content(s.last()));
            assert(x.before(&s.last()) == before(content(x), content(s.last())));
        }
        assert(s.push(x).map_values(content) =~= ms.push(content(x)));
    }
}

/// Sorting items and then reading their contents gives what sorting the
/// contents gives, where the two orders agree.
pub proof fn lemma_sort_commutes<T: Ranked, M>(
    s: Seq<T>,
    content: spec_fn(T) -> M,
    before: spec_fn(M, M) -> bool,
)
    requires
        ranks_alike(content, before),
    ensures
        stable_sorted(s).map_values(content) == sorted_by(s.map_values(content), before),
    decreases s.len(),
{
    let ms = s.map_values(content);
    if s.len() == 0 {
        assert(stable_sorted(s).map_values(content) =~= ms);
    } else {
        lemma_sort_commutes(s.drop_last(), content, before);
        lemma_insert_commutes(stable_sorted(s.drop_last()), s.last(), content, before);
        assert(ms.drop_last() =~= s.drop_last().map_values(content));
        assert(ms.last() == content(s.last()));
    }
}

/// The order that the items' own `before` gives.
pub open spec fn own_order<T: Ranked>() -> spec_fn(T, T) -> bool {
    |a: T, b: T| a.before(&b)
}

/// The stable sort of items is the stable sort under their own order.
pub proof fn lemma_stable_sorted_by_own_order<T: Ranked>(s: Seq<T>)
    ensures
        stable_sorted(s) == sorted_by(s, own_order::<T>()),
{
    let same = |t: T| t;
    assert(ranks_alike(same, own_order::<T>()));
    lemma_sort_commutes(s, same, own_order::<T>());
    assert(s.map_values(same) =~= s);
    assert(stable_sorted(s).map_values(same) =~= stable_sorted(s));
}

/// `before` is a strict weak order: no two items are before each other, and
/// "not after" carries over from one item to the next.
pub open spec fn is_strict_weak_order<M>(before: spec_fn(M, M) -> bool) -> bool {
    &&& forall|a: M, b: M| #[trigger] before(a, b) ==> !before(b, a)
    &&& forall|a: M, b: M, c: M|
        !#[trigger] before(b, a) && !#[trigger] before(c, b) ==> !before(c, a)
}

/// No item stands ahead of one that is before it.
pub open spec fn in_order<M>(s: Seq<M>, before: spec_fn(M, M) -> bool) -> bool {
    forall|i: int, j: int| 0 <= i < j < s.len() ==> !#[trigger] before(s[j], s[i])
}

proof fn lemma_insert_by_len<M>(s: Seq<M>, x: M, before: spec_fn(M, M) -> bool)
    ensures
        insert_by(s, x, before).len() == s.len() + 1,
    decreases s.len(),
{
    if s.len() > 0 && before(x, s.last()) {
        lemma_insert_by_len(s.drop_last(), x, before);
    }
}

/// No item of `s` has to stand behind `y`.
spec fn none_after<M>(s: Seq<M>, y: M, before: spec_fn(M, M) -> bool) -> bool {
    forall|i: int| 0 <= i < s.len() ==> !#[trigger] before(y, s[i])
}

proof fn lemma_insert_by_none_after<M>(s: Seq<M>, x: M, y: M, before: spec_fn(M, M) -> bool)
    requires
        none_after(s, y, before),
        !before(y, x),
    ensures
        none_after(insert_by(s, x, before), y, before),
    decreases s.len(),
{
    let r = insert_by(s, x, before);
    lemma_insert_by_len(s, x, before);
    if s.len() > 0 && before(x, s.last()) {
        let head = s.drop_last();
        assert forall|i: int| 0 <= i < head.len() implies !#[trigger] before(y, head[i]) by {
            assert(!before(y, s[i]));
        }
        lemma_insert_by_none_after(head, x, y, before);
        lemma_insert_by_len(head, x, before);
        let inner = insert_by(head, x, before);
        assert forall|i: int| 0 <= i < r.len() implies !#[trigger] before(y, r[i]) by {
            if i < inner.len() {
                assert(!before(y, inner[i]));
            } else {
                assert(!before(y, s[s.len() - 1]));
            }
        }
    } else {
        assert forall|i: int| 0 <= i < r.len() implies !#[trigger] before(y, r[i]) by {
            if i < s.len() {
                assert(!before(y, s[i]));
            }
        }
    }
}

proof fn lemma_insert_by_keeps_order<M>(s: Seq<M>, x: M, before: spec_fn(M, M) -> bool)
    requires
        is_strict_weak_order(before),
        in_order(s, before),
    ensures
        in_order(insert_by(s, x, before), before),
    decreases s.len(),
{
    let r = insert_by(s, x, before);
    lemma_insert_by_len(s, x, before);
    if s.len() > 0 && before(x, s.last()) {
        let head = s.drop_last();
        let last = s.last();
        assert forall|i: int, j: int| 0 <= i < j < head.len() implies !#[trigger] before(
            head[j],
            head[i],
        ) by {
            assert(!before(s[j], s[i]));
        }
        lemma_insert_by_keeps_order(head, x, before);
        assert forall|i: int| 0 <= i < head.len() implies !#[trigger] before(last, head[i]) by {
            assert(!before(s[s.len() - 1], s[i]));
        }
        assert(!before(last, x));
        lemma_insert_by_none_after(head, x, last, before);
        lemma_insert_by_len(head, x, before);
        let inner = insert_by(head, x, before);
        assert forall|i: int, j: int| 0 <= i < j < r.len() implies !#[trigger] before(
            r[j],
            r[i],
        ) by {
            if j < inner.len() {
                assert(!before(inner[j], inner[i]));
            } else {
                assert(!before(last, inner[i]));
            }
        }
    } else {
        assert forall|i: int, j: int| 0 <= i < j < r.len() implies !#[trigger] before(
            r[j],
            r[i],
        ) by {
            if j < s.len() {
                assert(!before(s[j], s[i]));
            } else {
                assert(r[j] == x);
                assert(r[i] == s[i]);
                assert(!before(x, s.last()));
                if i < s.len() - 1 {
                    assert(!before(s[s.len() - 1], s[i]));
                }
            }
        }
    }
}

/// Under a strict weak order the sorted sequence is in order.
pub proof fn lemma_sorted_by_in_order<M>(s: Seq<M>, before: spec_fn(M, M) -> bool)
    requires
        is_strict_weak_order(before),
    ensures
        in_order(sorted_by(s, before), before),
    decreases s.len(),
{
    if s.len() > 0 {
        lemma_sorted_by_in_order(s.drop_last(), before);
        lemma_insert_by_keeps_order(sorted_by(s.drop_last(), before), s.last(), before);
    }
}

proof fn lemma_insert_by_multiset<M>(s: Seq<M>, x: M, before: spec_fn(M, M) -> bool)
    ensures
        insert_by(s, x, before).to_multiset() == s.to_multiset().insert(x),
    decreases s.len(),
{
    broadcast use vstd::seq_lib::group_to_multiset_ensures;

    if s.len() > 0 && before(x, s.last()) {
        lemma_insert_by_multiset(s.drop_last(), x, before);
        assert(s.drop_last().push(s.last()) =~= s);
        assert(insert_by(s, x, before).to_multiset() =~= s.to_multiset().insert(x));
    }
}

/// Sorting under any order rearranges: every item occurs in the result as
/// often as in the input.
pub proof fn lemma_sorted_by_permutes<M>(s: Seq<M>, before: spec_fn(M, M) -> bool)
    ensures
        sorted_by(s, before).to_multiset() == s.to_multiset(),
        sorted_by(s, before).len() == s.len(),
    decreases s.len(),
{
    broadcast use vstd::seq_lib::group_to_multiset_ensures;

    if s.len() > 0 {
        lemma_sorted_by_permutes(s.drop_last(), before);
        lemma_insert_by_multiset(sorted_by(s.drop_last(), before), s.last(), before);
        lemma_insert_by_len(sorted_by(s.drop_last(), before), s.last(), before);
        assert(s.drop_last().push(s.last()) =~= s);
    }
}

/// Neither item is before the other.
pub open spec fn tie<M>(a: M, b: M, before: spec_fn(M, M) -> bool) -> bool {
    !before(a, b) && !before(b, a)
}

/// The items of `s` that tie with `x`, in the order in which they stand.
pub open spec fn ties_with<M>(s: Seq<M>, x: M, before: spec_fn(M, M) -> bool) -> Seq<M>
    decreases s.len(),
{
    if s.len() == 0 {
        s
    } else if tie(s.last(), x, before) {
        ties_with(s.drop_last(), x, before).push(s.last())
    } else {
        ties_with(s.drop_last(), x, before)
    }
}

proof fn lemma_insert_by_keeps_ties<M>(s: Seq<M>, y: M, x: M, before: spec_fn(M, M) -> bool)
    requires
        is_strict_weak_order(before),
    ensures
        ties_with(insert_by(s, y, before), x, before) == if tie(y, x, before) {
            ties_with(s, x, before).push(y)
        } else {
            ties_with(s, x, before)
        },
    decreases s.len(),
{
    if s.len() > 0 && before(y, s.last()) {
        let head = s.drop_last();
        lemma_insert_by_keeps_ties(head, y, x, before);
        let inner = insert_by(head, y, before);
        assert(inner.push(s.last()).drop_last() =~= inner);
        if tie(y, x, before) && tie(s.last(), x, before) {
            assert(!before(s.last(), x) && !before(x, y));
            assert(!before(s.last(), y));
            assert(!before(y, x) && !before(x, s.last()));
            assert(!before(y, s.last()));
        }
    } else {
        assert(s.push(y).drop_last() =~= s);
    }
}

/// Sorting is stable: the items that tie with one another stand in the sorted
/// sequence in the order in which they came.
pub proof fn lemma_sorted_by_is_stable<M>(s: Seq<M>, x: M, before: spec_fn(M, M) -> bool)
    requires
        is_strict_weak_order(before),
    ensures
        ties_with(sorted_by(s, before), x, before) == ties_with(s, x, before),
    decreases s.len(),
{
    if s.len() > 0 {
        lemma_sorted_by_is_stable(s.drop_last(), x, before);
        lemma_insert_by_keeps_ties(sorted_by(s.drop_last(), before), s.last(), x, before);
    }
}

} // verus!
