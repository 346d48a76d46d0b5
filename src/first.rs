use vstd::prelude::*;

verus! {

/// The index of the first element of `s` that satisfies `f`, or -1 when none does.
pub open spec fn first_match<A>(s: Seq<A>, f: spec_fn(A) -> bool) -> int
    decreases s.len(),
{
    if s.len() == 0 {
        -1
    } else {
        let r = first_match(s.drop_last(), f);
        if r >= 0 {
            r
        } else if f(s.last()) {
            s.len() - 1
        } else {
            -1
        }
    }
}

/// What `first_match` means: either no element matches, or it is the least index of a match.
pub proof fn lemma_first_match<A>(s: Seq<A>, f: spec_fn(A) -> bool)
    ensures
        -1 <= first_match(s, f) < s.len(),
        first_match(s, f) == -1 ==> forall|j: int| 0 <= j < s.len() ==> !f(#[trigger] s[j]),
        first_match(s, f) >= 0 ==> f(s[first_match(s, f)]),
        forall|j: int| 0 <= j < first_match(s, f) ==> !f(#[trigger] s[j]),
    decreases s.len(),
{
    if s.len() > 0 {
        lemma_first_match(s.drop_last(), f);
        assert forall|j: int| 0 <= j < s.len() - 1 implies s.drop_last()[j] == s[j] by {}
    }
}

/// A scan that has seen no match in `s[0..i]` and finds one at `i` has found the first match.
pub proof fn lemma_first_match_at<A>(s: Seq<A>, f: spec_fn(A) -> bool, i: int)
    requires
        0 <= i < s.len(),
        f(s[i]),
        forall|j: int| 0 <= j < i ==> !f(#[trigger] s[j]),
    ensures
        first_match(s, f) == i,
{
    lemma_first_match(s, f);
    let r = first_match(s, f);
    if r == -1 {
        assert(!f(s[i]));
    } else if r < i {
        assert(!f(s[r]));
    } else if r > i {
        assert(!f(s[i]));
    }
}

/// A scan that has seen no match anywhere in `s` knows that there is none.
pub proof fn lemma_first_match_none<A>(s: Seq<A>, f: spec_fn(A) -> bool)
    requires
        forall|j: int| 0 <= j < s.len() ==> !f(#[trigger] s[j]),
    ensures
        first_match(s, f) == -1,
{
    lemma_first_match(s, f);
    if first_match(s, f) >= 0 {
        assert(!f(s[first_match(s, f)]));
    }
}

} // verus!
