//! Stable sorting over sequences, for any order.

use crate::text;
use vstd::prelude::*;

verus! {

/// An order in which any two items compare, one way or both ways.
pub open spec fn total_order<T>(le: spec_fn(T, T) -> bool) -> bool {
    &&& forall|a: T, b: T| #[trigger] le(a, b) || le(b, a)
    &&& forall|a: T, b: T, c: T| #[trigger] le(a, b) && #[trigger] le(b, c) ==> le(a, c)
}

/// Whether no item comes after one that it should stand before.
pub open spec fn sorted<T>(s: Seq<T>, le: spec_fn(T, T) -> bool) -> bool {
    forall|i: int, j: int| 0 <= i <= j < s.len() ==> #[trigger] le(s[i], s[j])
}

/// How many items at the start of `s` stand before `x` or level with it.
pub open spec fn insertion_point<T>(s: Seq<T>, x: T, le: spec_fn(T, T) -> bool) -> int
    decreases s.len(),
{
    if s.len() == 0 || !le(s[0], x) {
        0
    } else {
        1 + insertion_point(s.skip(1), x, le)
    }
}

/// `s` with `x` put in behind the items that stand before it or level with it.
pub open spec fn inserted<T>(s: Seq<T>, x: T, le: spec_fn(T, T) -> bool) -> Seq<T> {
    s.insert(insertion_point(s, x, le), x)
}

/// `s` in order; items that compare level keep the order they had.
pub open spec fn stable_sorted<T>(s: Seq<T>, le: spec_fn(T, T) -> bool) -> Seq<T>
    decreases s.len(),
{
    if s.len() == 0 {
        Seq::empty()
    } else {
        inserted(stable_sorted(s.drop_last(), le), s.last(), le)
    }
}

/// The insertion point lies within the sequence; what is before it stands
/// before `x` or level with it, and what is at it does not.
pub proof fn lemma_insertion_point<T>(s: Seq<T>, x: T, le: spec_fn(T, T) -> bool)
    ensures
        0 <= insertion_point(s, x, le) <= s.len(),
        forall|j: int| 0 <= j < insertion_point(s, x, le) ==> le(#[trigger] s[j], x),
        insertion_point(s, x, le) < s.len() ==> !le(s[insertion_point(s, x, le)], x),
    decreases s.len(),
{
    if s.len() > 0 && le(s[0], x) {
        lemma_insertion_point(s.skip(1), x, le);
        assert forall|j: int| 0 <= j < insertion_point(s, x, le) implies le(#[trigger] s[j], x) by {
            if j > 0 {
                assert(le(s.skip(1)[j - 1], x));
            }
        }
    }
}

/// A place with items level with `x` or before it up to there, and none such
/// at it, is the insertion point.
pub proof fn lemma_insertion_point_is<T>(s: Seq<T>, x: T, le: spec_fn(T, T) -> bool, i: int)
    requires
        0 <= i <= s.len(),
        forall|j: int| 0 <= j < i ==> le(#[trigger] s[j], x),
        i < s.len() ==> !le(s[i], x),
    ensures
        insertion_point(s, x, le) == i,
{
    lemma_insertion_point(s, x, le);
    let k = insertion_point(s, x, le);
    if k < i {
        assert(le(s[k], x));
    } else if i < k {
        assert(le(s[i], x));
    }
}

/// Inserting into an ordered sequence keeps it ordered.
pub proof fn inserted_is_sorted<T>(s: Seq<T>, x: T, le: spec_fn(T, T) -> bool)
    requires
        total_order(le),
        sorted(s, le),
    ensures
        sorted(inserted(s, x, le), le),
{
    lemma_insertion_point(s, x, le);
    let k = insertion_point(s, x, le);
    let r = inserted(s, x, le);
    assert forall|i: int, j: int| 0 <= i <= j < r.len() implies #[trigger] le(r[i], r[j]) by {
        let a = if i < k {
            i
        } else {
            i - 1
        };
        let b = if j < k {
            j
        } else {
            j - 1
        };
        assert(le(x, x));
        if i != k && j != k {
            assert(r[i] == s[a] && r[j] == s[b]);
            assert(le(s[a], s[b]));
        } else if i == k && j != k {
            assert(r[j] == s[b]);
            assert(le(s[k], s[b]));
            assert(le(x, s[k]));
        } else if i != k && j == k {
            assert(r[i] == s[a]);
        }
    }
}

/// Inserting adds exactly the one item.
pub proof fn inserted_holds<T>(s: Seq<T>, x: T, le: spec_fn(T, T) -> bool)
    ensures
        inserted(s, x, le).len() == s.len() + 1,
        inserted(s, x, le).to_multiset() == s.to_multiset().insert(x),
{
    lemma_insertion_point(s, x, le);
    broadcast use vstd::seq_lib::group_to_multiset_ensures;

    let k = insertion_point(s, x, le);
    let r = inserted(s, x, le);
    assert(r.remove(k) =~= s);
    assert(r[k] == x);
    assert(r.contains(x));
    assert(r.to_multiset() =~= s.to_multiset().insert(x));
}

/// The sorted sequence is in order.
pub proof fn stable_sorted_is_sorted<T>(s: Seq<T>, le: spec_fn(T, T) -> bool)
    requires
        total_order(le),
    ensures
        sorted(stable_sorted(s, le), le),
    decreases s.len(),
{
    if s.len() > 0 {
        stable_sorted_is_sorted(s.drop_last(), le);
        inserted_is_sorted(stable_sorted(s.drop_last(), le), s.last(), le);
    }
}

/// Sorting keeps every item, as often as it occurs, and adds none.
pub proof fn stable_sorted_holds<T>(s: Seq<T>, le: spec_fn(T, T) -> bool)
    ensures
        stable_sorted(s, le).len() == s.len(),
        stable_sorted(s, le).to_multiset() == s.to_multiset(),
    decreases s.len(),
{
    broadcast use vstd::seq_lib::group_to_multiset_ensures;

    if s.len() > 0 {
        stable_sorted_holds(s.drop_last(), le);
        inserted_holds(stable_sorted(s.drop_last(), le), s.last(), le);
        assert(s =~= s.drop_last().push(s.last()));
    } else {
        assert(s =~= Seq::<T>::empty());
    }
}

/// A type whose values have an order.
pub trait Ordered: View + Sized {
    /// The order, over the values' views.
    spec fn order() -> spec_fn(Self::V, Self::V) -> bool;

    /// The order is total.
    proof fn order_is_total()
        ensures
            total_order(Self::order()),
    ;

    /// Whether the value stands before `other` or level with it.
    fn stands_before(&self, other: &Self) -> (r: bool)
        ensures
            r == Self::order()(self@, other@),
    ;
}

/// Puts `x` into an ordered vector, behind the items that stand before it or
/// level with it.
pub fn insert_sorted<T: Ordered>(v: &mut Vec<T>, x: T)
    requires
        sorted(text::views(old(v)@), T::order()),
    ensures
        text::views(final(v)@) == inserted(text::views(old(v)@), x@, T::order()),
        sorted(text::views(final(v)@), T::order()),
{
    let ghost s = text::views(v@);
    let mut k: usize = v.len();
    while k > 0 && !v[k - 1].stands_before(&x)
        invariant
            k <= v.len(),
            s == text::views(v@),
            k < v.len() ==> !T::order()(s[k as int], x@),
        decreases k,
    {
        k = k - 1;
    }
    proof {
        T::order_is_total();
        assert forall|j: int| 0 <= j < k implies T::order()(#[trigger] s[j], x@) by {
            assert(T::order()(s[j], s[k - 1]));
        }
        lemma_insertion_point_is(s, x@, T::order(), k as int);
        inserted_is_sorted(s, x@, T::order());
    }
    v.insert(k, x);
    assert(text::views(v@) =~= s.insert(k as int, x@));
}

/// Which items are level with `x`: either may stand before the other.
pub open spec fn level_with<T>(x: T, le: spec_fn(T, T) -> bool) -> spec_fn(T) -> bool {
    |y: T| le(x, y) && le(y, x)
}

/// Items that compare level keep the order that they had.
pub proof fn level_items_keep_their_order<T>(s: Seq<T>, x: T, le: spec_fn(T, T) -> bool)
    requires
        total_order(le),
    ensures
        stable_sorted(s, le).filter(level_with(x, le)) == s.filter(level_with(x, le)),
    decreases s.len(),
{
    reveal(Seq::filter);
    if s.len() > 0 {
        let rest = s.drop_last();
        let last = s.last();
        let level = level_with(x, le);
        level_items_keep_their_order(rest, x, le);
        let before = stable_sorted(rest, le);
        stable_sorted_is_sorted(rest, le);
        lemma_insertion_point(before, last, le);
        let k = insertion_point(before, last, le);
        let head = before.take(k);
        let tail = before.skip(k);
        assert(before =~= head + tail);
        assert(before.insert(k, last) =~= head.push(last) + tail);
        Seq::filter_distributes_over_add(head.push(last), tail, level);
        Seq::filter_distributes_over_add(head, tail, level);
        assert(head.push(last).drop_last() =~= head);
        if level(last) {
            assert forall|i: int| 0 <= i < tail.len() implies !level(#[trigger] tail[i]) by {
                assert(tail[i] == before[k + i]);
                assert(le(before[k], before[k + i]));
                if level(tail[i]) {
                    assert(le(before[k], tail[i]) && le(tail[i], x) && le(x, last));
                    assert(le(before[k], x));
                    assert(le(before[k], last));
                }
            }
            lemma_none_is_kept(tail, level);
            assert(head.filter(level).push(last) + Seq::empty() =~= head.filter(level).push(last));
            assert(head.filter(level) + Seq::empty() =~= head.filter(level));
        }
    }
}

/// Where no item is wanted, none is kept.
proof fn lemma_none_is_kept<T>(s: Seq<T>, wanted: spec_fn(T) -> bool)
    requires
        forall|i: int| 0 <= i < s.len() ==> !wanted(#[trigger] s[i]),
    ensures
        s.filter(wanted) == Seq::<T>::empty(),
    decreases s.len(),
{
    reveal(Seq::filter);
    if s.len() > 0 {
        let rest = s.drop_last();
        assert forall|i: int| 0 <= i < rest.len() implies !wanted(#[trigger] rest[i]) by {
            assert(rest[i] == s[i]);
        }
        lemma_none_is_kept(rest, wanted);
        assert(!wanted(s[s.len() - 1]));
    }
}

} // verus!
