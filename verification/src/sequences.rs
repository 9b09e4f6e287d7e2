//! Facts about sequences that the store and the parser lean on.

use vstd::prelude::*;

verus! {

/// The values of the elements of a sequence, in order.
pub open spec fn views<T: View>(s: Seq<T>) -> Seq<T::V> {
    s.map_values(|x: T| x@)
}

/// No two elements of `s` are the same by `same`.
pub open spec fn pairwise_different<T>(s: Seq<T>, same: spec_fn(T, T) -> bool) -> bool {
    forall|i: int, j: int| 0 <= i < j < s.len() ==> !same(#[trigger] s[i], #[trigger] s[j])
}

/// One more element of a sequence, filtered: the filter of the first `i + 1`
/// elements is that of the first `i`, with element `i` appended if it passes.
pub proof fn lemma_filter_take_next<T>(s: Seq<T>, p: spec_fn(T) -> bool, i: int)
    requires
        0 <= i < s.len(),
    ensures
        s.take(i + 1).filter(p) == if p(s[i]) {
            s.take(i).filter(p).push(s[i])
        } else {
            s.take(i).filter(p)
        },
{
    reveal(Seq::filter);
    assert(s.take(i + 1).drop_last() =~= s.take(i));
}

/// Every element that a filter keeps passes the predicate and comes from the
/// sequence.
pub proof fn lemma_filter_keeps<T>(s: Seq<T>, p: spec_fn(T) -> bool)
    ensures
        forall|i: int| 0 <= i < s.filter(p).len() ==> p(#[trigger] s.filter(p)[i]),
        forall|i: int|
            0 <= i < s.filter(p).len() ==> exists|k: int|
                0 <= k < s.len() && s[k] == #[trigger] s.filter(p)[i],
    decreases s.len(),
{
    reveal(Seq::filter);
    if s.len() > 0 {
        let rest = s.drop_last();
        lemma_filter_keeps(rest, p);
        assert forall|i: int| 0 <= i < s.filter(p).len() implies exists|k: int|
            0 <= k < s.len() && s[k] == #[trigger] s.filter(p)[i] by {
            if i < rest.filter(p).len() {
                let k = choose|k: int| 0 <= k < rest.len() && rest[k] == rest.filter(p)[i];
                assert(s[k] == s.filter(p)[i]);
            } else {
                assert(s[s.len() - 1] == s.filter(p)[i]);
            }
        }
    }
}

/// A filter that nothing passes keeps nothing.
pub proof fn lemma_filter_none<T>(s: Seq<T>, p: spec_fn(T) -> bool)
    requires
        forall|i: int| 0 <= i < s.len() ==> !p(#[trigger] s[i]),
    ensures
        s.filter(p).len() == 0,
    decreases s.len(),
{
    reveal(Seq::filter);
    if s.len() > 0 {
        let rest = s.drop_last();
        assert forall|i: int| 0 <= i < rest.len() implies !p(#[trigger] rest[i]) by {
            assert(!p(s[i]));
        }
        lemma_filter_none(rest, p);
        assert(!p(s[s.len() - 1]));
    }
}

/// A filter keeps pairwise different elements pairwise different.
pub proof fn lemma_filter_keeps_different<T>(
    s: Seq<T>,
    p: spec_fn(T) -> bool,
    same: spec_fn(T, T) -> bool,
)
    requires
        pairwise_different(s, same),
    ensures
        pairwise_different(s.filter(p), same),
    decreases s.len(),
{
    reveal(Seq::filter);
    if s.len() > 0 {
        let rest = s.drop_last();
        assert(pairwise_different(rest, same)) by {
            assert forall|i: int, j: int| 0 <= i < j < rest.len() implies !same(
                #[trigger] rest[i],
                #[trigger] rest[j],
            ) by {
                assert(!same(s[i], s[j]));
            }
        }
        lemma_filter_keeps_different(rest, p, same);
        lemma_filter_keeps(rest, p);
        let kept = s.filter(p);
        assert forall|i: int, j: int| 0 <= i < j < kept.len() implies !same(
            #[trigger] kept[i],
            #[trigger] kept[j],
        ) by {
            if j < rest.filter(p).len() {
                assert(!same(rest.filter(p)[i], rest.filter(p)[j]));
            } else {
                let k = choose|k: int| 0 <= k < rest.len() && rest[k] == rest.filter(p)[i];
                assert(!same(s[k], s[s.len() - 1]));
            }
        }
    }
}

/// What a `filter_map` holds: the images of the elements that have one, as
/// many of them as there are such elements.
pub proof fn lemma_filter_map_holds<A, B>(s: Seq<A>, f: spec_fn(A) -> Option<B>)
    ensures
        forall|b: B| #[trigger]
            s.filter_map(f).contains(b) <==> exists|i: int|
                0 <= i < s.len() && f(#[trigger] s[i]) == Some(b),
        s.filter_map(f).len() == s.filter(|a: A| f(a) is Some).len(),
    decreases s.len(),
{
    reveal(Seq::filter);
    if s.len() > 0 {
        let rest = s.drop_last();
        lemma_filter_map_holds(rest, f);
        let out = s.filter_map(f);
        let before = rest.filter_map(f);
        assert forall|b: B| #[trigger] out.contains(b) implies exists|i: int|
            0 <= i < s.len() && f(#[trigger] s[i]) == Some(b) by {
            let k = choose|k: int| 0 <= k < out.len() && out[k] == b;
            if k < before.len() {
                assert(before[k] == b);
                assert(before.contains(b));
                let i = choose|i: int| 0 <= i < rest.len() && f(#[trigger] rest[i]) == Some(b);
                assert(f(s[i]) == Some(b));
            } else {
                assert(f(s[s.len() - 1]) == Some(b));
            }
        }
        assert forall|b: B|
            (exists|i: int| 0 <= i < s.len() && f(#[trigger] s[i]) == Some(b)) implies #[trigger]
            out.contains(b) by {
            let i = choose|i: int| 0 <= i < s.len() && f(#[trigger] s[i]) == Some(b);
            if i < rest.len() {
                assert(f(rest[i]) == Some(b));
                assert(before.contains(b));
                let k = choose|k: int| 0 <= k < before.len() && before[k] == b;
                assert(out[k] == b);
            } else {
                assert(out[out.len() - 1] == b);
            }
        }
    } else {
        assert(s.filter_map(f) =~= Seq::empty());
    }
}

} // verus!
