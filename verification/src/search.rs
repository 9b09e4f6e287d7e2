//! Finding the element of a slice that a predicate accepts: the only one, or
//! the first one.

use vstd::prelude::*;
use crate::sequences::views;

verus! {

/// `i` is the only position of `s` whose element satisfies `p`.
pub open spec fn sole_match<T>(s: Seq<T>, p: spec_fn(T) -> bool, i: int) -> bool {
    &&& 0 <= i < s.len()
    &&& p(s[i])
    &&& forall|j: int| 0 <= j < s.len() && j != i ==> !p(#[trigger] s[j])
}

/// The element of `s` that satisfies `p`, where exactly one does.
pub open spec fn unique_match<T>(s: Seq<T>, p: spec_fn(T) -> bool) -> Option<T> {
    if exists|i: int| sole_match(s, p, i) {
        Some(s[choose|i: int| sole_match(s, p, i)])
    } else {
        None
    }
}

/// Where position `i` is the sole match, `unique_match` is the element there.
pub proof fn lemma_unique_match_at<T>(s: Seq<T>, p: spec_fn(T) -> bool, i: int)
    requires
        sole_match(s, p, i),
    ensures
        unique_match(s, p) == Some(s[i]),
{
    let k = choose|k: int| sole_match(s, p, k);
    assert(k == i);
}

/// Where no element matches, or two different positions do, there is no
/// unique match.
pub proof fn lemma_unique_match_none<T>(s: Seq<T>, p: spec_fn(T) -> bool)
    requires
        (forall|j: int| 0 <= j < s.len() ==> !p(#[trigger] s[j])) || (exists|a: int, b: int|
            0 <= a < b < s.len() && p(#[trigger] s[a]) && p(#[trigger] s[b])),
    ensures
        unique_match(s, p) is None,
{
    if exists|i: int| sole_match(s, p, i) {
        let i = choose|i: int| sole_match(s, p, i);
        if exists|a: int, b: int| 0 <= a < b < s.len() && p(#[trigger] s[a]) && p(#[trigger] s[b]) {
            let (a, b) = choose|a: int, b: int|
                0 <= a < b < s.len() && p(#[trigger] s[a]) && p(#[trigger] s[b]);
            assert(!p(s[a]) || !p(s[b]));
        }
    }
}

/// `i` is the first position of `s` whose element satisfies `p`.
pub open spec fn earliest_match<T>(s: Seq<T>, p: spec_fn(T) -> bool, i: int) -> bool {
    &&& 0 <= i < s.len()
    &&& p(s[i])
    &&& forall|j: int| 0 <= j < i ==> !p(#[trigger] s[j])
}

/// The first element of `s` that satisfies `p`, where any does.
pub open spec fn first_match<T>(s: Seq<T>, p: spec_fn(T) -> bool) -> Option<T> {
    if exists|i: int| earliest_match(s, p, i) {
        Some(s[choose|i: int| earliest_match(s, p, i)])
    } else {
        None
    }
}

/// Where position `i` is the earliest match, `first_match` is the element
/// there.
pub proof fn lemma_first_match_at<T>(s: Seq<T>, p: spec_fn(T) -> bool, i: int)
    requires
        earliest_match(s, p, i),
    ensures
        first_match(s, p) == Some(s[i]),
{
    let k = choose|k: int| earliest_match(s, p, k);
    assert(k == i) by {
        if k < i {
            assert(!p(s[k]));
        }
        if i < k {
            assert(!p(s[i]));
        }
    }
}

/// An element that satisfies `p` has an earliest match at or before it.
pub proof fn lemma_earliest_match_exists<T>(s: Seq<T>, p: spec_fn(T) -> bool, i: int)
    requires
        0 <= i < s.len(),
        p(s[i]),
    ensures
        exists|k: int| 0 <= k <= i && earliest_match(s, p, k),
    decreases i,
{
    if forall|j: int| 0 <= j < i ==> !p(#[trigger] s[j]) {
        assert(earliest_match(s, p, i));
    } else {
        let j = choose|j: int| 0 <= j < i && p(#[trigger] s[j]);
        lemma_earliest_match_exists(s, p, j);
    }
}

/// There is a first match exactly where some element matches, and it is an
/// element that matches.
pub proof fn lemma_first_match_exists<T>(s: Seq<T>, p: spec_fn(T) -> bool)
    ensures
        first_match(s, p) is Some <==> exists|i: int| 0 <= i < s.len() && p(#[trigger] s[i]),
        first_match(s, p) matches Some(found) ==> p(found) && s.contains(found),
{
    if exists|i: int| 0 <= i < s.len() && p(#[trigger] s[i]) {
        let i = choose|i: int| 0 <= i < s.len() && p(#[trigger] s[i]);
        lemma_earliest_match_exists(s, p, i);
    }
    if first_match(s, p) is Some {
        let k = choose|k: int| earliest_match(s, p, k);
        assert(p(s[k]));
    }
}

/// What [`search`] promises of its result `r`, over what `f` answered on the
/// elements of `v`: `Some` of an element means that `f` said yes to it and no
/// to every other one; `None` means that `f` said no to all of them, or yes to
/// at least two.
pub open spec fn search_outcome<T, P: Fn(&T) -> bool>(v: Seq<T>, f: P, r: Option<&T>) -> bool {
    match r {
        Some(found) => exists|i: int|
            0 <= i < v.len() && *found == #[trigger] v[i] && call_ensures(f, (&v[i],), true)
                && forall|j: int|
                0 <= j < v.len() && j != i ==> call_ensures(f, (&#[trigger] v[j],), false),
        None => (forall|j: int| 0 <= j < v.len() ==> call_ensures(f, (&#[trigger] v[j],), false))
            || (exists|a: int, b: int|
            0 <= a < b < v.len() && call_ensures(f, (&#[trigger] v[a],), true) && call_ensures(
                f,
                (&#[trigger] v[b],),
                true,
            )),
    }
}

/// Where `f` answers as the predicate `p` does on the elements' values, what
/// [`search`] returns is the unique match of `p` among those values.
pub proof fn lemma_search_finds_unique_match<T: View, P: Fn(&T) -> bool>(
    v: Seq<T>,
    f: P,
    r: Option<&T>,
    p: spec_fn(T::V) -> bool,
)
    requires
        search_outcome(v, f, r),
        forall|x: T, b: bool| #[trigger] call_ensures(f, (&x,), b) ==> b == p(x@),
    ensures
        match r {
            Some(found) => unique_match(views(v), p) == Some(found@),
            None => unique_match(views(v), p) is None,
        },
{
    let values = views(v);
    match r {
        Some(found) => {
            let i = choose|i: int|
                0 <= i < v.len() && *found == #[trigger] v[i] && call_ensures(f, (&v[i],), true)
                    && forall|j: int|
                    0 <= j < v.len() && j != i ==> call_ensures(f, (&#[trigger] v[j],), false);
            assert forall|j: int| 0 <= j < values.len() && j != i implies !p(
                #[trigger] values[j],
            ) by {
                assert(call_ensures(f, (&v[j],), false));
            }
            assert(p(values[i]));
            lemma_unique_match_at(values, p, i);
        },
        None => {
            if forall|j: int| 0 <= j < v.len() ==> call_ensures(f, (&#[trigger] v[j],), false) {
                assert forall|j: int| 0 <= j < values.len() implies !p(#[trigger] values[j]) by {
                    assert(call_ensures(f, (&v[j],), false));
                }
            } else {
                let (a, b) = choose|a: int, b: int|
                    0 <= a < b < v.len() && call_ensures(f, (&#[trigger] v[a],), true)
                        && call_ensures(f, (&#[trigger] v[b],), true);
                assert(p(values[a]) && p(values[b]));
            }
            lemma_unique_match_none(values, p);
        },
    }
}

/// What [`find`] promises of its result `r`, over what `f` answered on the
/// elements of `v`: `Some` of an element means that `f` said yes to it and no
/// to every one before it; `None` means that `f` said no to all of them.
pub open spec fn find_outcome<T, P: Fn(&T) -> bool>(v: Seq<T>, f: P, r: Option<&T>) -> bool {
    match r {
        Some(found) => exists|i: int|
            0 <= i < v.len() && *found == #[trigger] v[i] && call_ensures(f, (&v[i],), true)
                && forall|j: int| 0 <= j < i ==> call_ensures(f, (&#[trigger] v[j],), false),
        None => forall|j: int| 0 <= j < v.len() ==> call_ensures(f, (&#[trigger] v[j],), false),
    }
}

/// Where `f` answers as the predicate `p` does on the elements' values, what
/// [`find`] returns is the first match of `p` among those values.
pub proof fn lemma_find_finds_first_match<T: View, P: Fn(&T) -> bool>(
    v: Seq<T>,
    f: P,
    r: Option<&T>,
    p: spec_fn(T::V) -> bool,
)
    requires
        find_outcome(v, f, r),
        forall|x: T, b: bool| #[trigger] call_ensures(f, (&x,), b) ==> b == p(x@),
    ensures
        match r {
            Some(found) => first_match(views(v), p) == Some(found@),
            None => first_match(views(v), p) is None,
        },
{
    let values = views(v);
    match r {
        Some(found) => {
            let i = choose|i: int|
                0 <= i < v.len() && *found == #[trigger] v[i] && call_ensures(f, (&v[i],), true)
                    && forall|j: int| 0 <= j < i ==> call_ensures(f, (&#[trigger] v[j],), false);
            assert forall|j: int| 0 <= j < i implies !p(#[trigger] values[j]) by {
                assert(call_ensures(f, (&v[j],), false));
            }
            assert(p(values[i]));
            lemma_first_match_at(values, p, i);
        },
        None => {
            assert forall|j: int| 0 <= j < values.len() implies !p(#[trigger] values[j]) by {
                assert(call_ensures(f, (&v[j],), false));
            }
            lemma_first_match_exists(values, p);
        },
    }
}

/// Returns the first element of `v` that `f` accepts. `f` is called on each
/// element in order, up to the first that it accepts.
pub fn find<'a, T, P: Fn(&T) -> bool>(v: &'a [T], f: P) -> (r: Option<&'a T>)
    requires
        forall|i: int| 0 <= i < v@.len() ==> call_requires(f, (&#[trigger] v@[i],)),
    ensures
        find_outcome(v@, f, r),
{
    let mut i: usize = 0;
    while i < v.len()
        invariant
            0 <= i <= v@.len(),
            forall|k: int| 0 <= k < v@.len() ==> call_requires(f, (&#[trigger] v@[k],)),
            forall|j: int| 0 <= j < i ==> call_ensures(f, (&#[trigger] v@[j],), false),
        decreases v@.len() - i,
    {
        if f(&v[i]) {
            return Some(&v[i]);
        }
        i = i + 1;
    }
    None
}

/// Returns the element of `v` that `f` accepts, if it accepts exactly one.
/// `f` is called on each element in order, and no more once it has accepted
/// two.
pub fn search<'a, T, P: Fn(&T) -> bool>(v: &'a [T], f: P) -> (r: Option<&'a T>)
    requires
        forall|i: int| 0 <= i < v@.len() ==> call_requires(f, (&#[trigger] v@[i],)),
    ensures
        search_outcome(v@, f, r),
{
    let mut first: Option<usize> = None;
    let mut i: usize = 0;
    while i < v.len()
        invariant
            0 <= i <= v@.len(),
            forall|k: int| 0 <= k < v@.len() ==> call_requires(f, (&#[trigger] v@[k],)),
            match first {
                Some(at) => at < i && call_ensures(f, (&v@[at as int],), true) && forall|j: int|
                    0 <= j < i && j != at ==> call_ensures(f, (&#[trigger] v@[j],), false),
                None => forall|j: int|
                    0 <= j < i ==> call_ensures(f, (&#[trigger] v@[j],), false),
            },
        decreases v@.len() - i,
    {
        if f(&v[i]) {
            match first {
                Some(at) => {
                    assert(call_ensures(f, (&v@[at as int],), true));
                    assert(call_ensures(f, (&v@[i as int],), true));
                    return None;
                },
                None => {
                    first = Some(i);
                },
            }
        }
        i = i + 1;
    }
    match first {
        Some(at) => Some(&v[at]),
        None => None,
    }
}

} // verus!
