//! Sequences made from sequences.

use vstd::prelude::*;

verus! {

/// What `f` gives for the items of `s`, in order, without those for which it
/// gives nothing.
pub open spec fn filter_mapped<A, B>(s: Seq<A>, f: spec_fn(A) -> Option<B>) -> Seq<B>
    decreases s.len(),
{
    if s.len() == 0 {
        Seq::empty()
    } else {
        match f(s.last()) {
            Some(b) => filter_mapped(s.drop_last(), f).push(b),
            None => filter_mapped(s.drop_last(), f),
        }
    }
}

/// One more item adds what `f` gives for it.
pub proof fn lemma_filter_mapped_step<A, B>(s: Seq<A>, f: spec_fn(A) -> Option<B>, i: int)
    requires
        0 <= i < s.len(),
    ensures
        filter_mapped(s.take(i + 1), f) == (match f(s[i]) {
            Some(b) => filter_mapped(s.take(i), f).push(b),
            None => filter_mapped(s.take(i), f),
        }),
{
    assert(s.take(i + 1).drop_last() =~= s.take(i));
}

/// An item is kept exactly where `f` gives it for some item of `s`.
pub proof fn filter_mapped_holds<A, B>(s: Seq<A>, f: spec_fn(A) -> Option<B>, b: B)
    ensures
        filter_mapped(s, f).contains(b) <==> exists|i: int|
            0 <= i < s.len() && f(#[trigger] s[i]) == Some(b),
    decreases s.len(),
{
    if s.len() > 0 {
        let rest = s.drop_last();
        filter_mapped_holds(rest, f, b);
        let kept = filter_mapped(rest, f);
        if filter_mapped(s, f).contains(b) {
            if f(s.last()) == Some(b) {
                assert(f(s[s.len() - 1]) == Some(b));
            } else {
                let k = choose|k: int|
                    0 <= k < filter_mapped(s, f).len() && filter_mapped(s, f)[k] == b;
                assert(kept[k] == b);
                assert(kept.contains(b));
                let i = choose|i: int| 0 <= i < rest.len() && f(#[trigger] rest[i]) == Some(b);
                assert(f(s[i]) == Some(b));
            }
        }
        if exists|i: int| 0 <= i < s.len() && f(#[trigger] s[i]) == Some(b) {
            let i = choose|i: int| 0 <= i < s.len() && f(#[trigger] s[i]) == Some(b);
            if i < rest.len() {
                assert(f(rest[i]) == Some(b));
                let k = choose|k: int| 0 <= k < kept.len() && kept[k] == b;
                assert(filter_mapped(s, f)[k] == b);
            } else {
                assert(filter_mapped(s, f)[kept.len() as int] == b);
            }
        }
    }
}

/// What is kept of two sequences together is what is kept of the one and then of
/// the other.
pub proof fn filter_mapped_splits<A, B>(a: Seq<A>, b: Seq<A>, f: spec_fn(A) -> Option<B>)
    ensures
        filter_mapped(a + b, f) == filter_mapped(a, f) + filter_mapped(b, f),
    decreases b.len(),
{
    if b.len() == 0 {
        assert(a + b =~= a);
        assert(filter_mapped(a, f) + filter_mapped(b, f) =~= filter_mapped(a, f));
    } else {
        filter_mapped_splits(a, b.drop_last(), f);
        assert((a + b).drop_last() =~= a + b.drop_last());
        assert((a + b).last() == b.last());
        assert(filter_mapped(a + b, f) =~= filter_mapped(a, f) + filter_mapped(b, f));
    }
}

/// Where `f` gives something for every item, all of it is kept, each in its
/// place.
pub proof fn filter_mapped_keeps_all<A, B>(s: Seq<A>, f: spec_fn(A) -> Option<B>)
    requires
        forall|i: int| 0 <= i < s.len() ==> f(#[trigger] s[i]) is Some,
    ensures
        filter_mapped(s, f).len() == s.len(),
        forall|i: int| 0 <= i < s.len() ==> f(#[trigger] s[i]) == Some(filter_mapped(s, f)[i]),
    decreases s.len(),
{
    if s.len() > 0 {
        let rest = s.drop_last();
        assert forall|i: int| 0 <= i < rest.len() implies f(#[trigger] rest[i]) is Some by {
            assert(rest[i] == s[i]);
        }
        filter_mapped_keeps_all(rest, f);
        assert(f(s[s.len() - 1]) is Some);
        assert forall|i: int| 0 <= i < s.len() implies f(#[trigger] s[i]) == Some(
            filter_mapped(s, f)[i],
        ) by {
            if i < rest.len() {
                assert(rest[i] == s[i]);
            }
        }
    }
}

} // verus!
