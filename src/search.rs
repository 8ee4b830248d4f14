//! Linear search over sequences: the first element that satisfies a predicate.
use vstd::prelude::*;

verus! {

/// The first element of `s` that satisfies `ok`.
pub open spec fn first_in<T>(s: Seq<T>, ok: spec_fn(T) -> bool) -> Option<T>
    decreases s.len(),
{
    if s.len() == 0 {
        None
    } else if ok(s[0]) {
        Some(s[0])
    } else {
        first_in(s.drop_first(), ok)
    }
}

/// Where no element before `i` satisfies `ok`, `first_in` finds element `i` if it
/// satisfies `ok`, and nothing if `i` is the end.
pub proof fn lemma_first_in<T>(s: Seq<T>, ok: spec_fn(T) -> bool, i: int)
    requires
        0 <= i <= s.len(),
        forall|j: int| 0 <= j < i ==> !ok(#[trigger] s[j]),
    ensures
        i < s.len() && ok(s[i]) ==> first_in(s, ok) == Some(s[i]),
        i == s.len() ==> first_in(s, ok) is None,
    decreases i,
{
    if i > 0 {
        assert forall|j: int| 0 <= j < i - 1 implies !ok(#[trigger] s.drop_first()[j]) by {
            assert(s.drop_first()[j] == s[j + 1]);
        }
        lemma_first_in(s.drop_first(), ok, i - 1);
    }
}

/// `first_in` finds an element of `s`.
pub proof fn lemma_first_in_found<T>(s: Seq<T>, ok: spec_fn(T) -> bool)
    ensures
        first_in(s, ok) matches Some(x) ==> ok(x) && s.contains(x),
    decreases s.len(),
{
    if s.len() > 0 && !ok(s[0]) {
        lemma_first_in_found(s.drop_first(), ok);
        if let Some(x) = first_in(s.drop_first(), ok) {
            let k = choose|k: int| 0 <= k < s.drop_first().len() && s.drop_first()[k] == x;
            assert(s[k + 1] == x);
        }
    }
}

/// Where `first_in` finds an element, it is the first element that satisfies `ok`.
pub proof fn lemma_first_in_index<T>(s: Seq<T>, ok: spec_fn(T) -> bool) -> (j: int)
    requires
        first_in(s, ok) is Some,
    ensures
        0 <= j < s.len(),
        first_in(s, ok) == Some(s[j]),
        ok(s[j]),
        forall|l: int| 0 <= l < j ==> !ok(#[trigger] s[l]),
    decreases s.len(),
{
    if ok(s[0]) {
        0
    } else {
        let j = lemma_first_in_index(s.drop_first(), ok);
        assert forall|l: int| 0 <= l < j + 1 implies !ok(#[trigger] s[l]) by {
            if l > 0 {
                assert(s[l] == s.drop_first()[l - 1]);
            }
        }
        j + 1
    }
}

} // verus!
