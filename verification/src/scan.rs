//! Scanning a sequence for the first occurrence of an element.

use vstd::prelude::*;

verus! {

/// Index of the first occurrence of `x`, or the length when there is none.
pub open spec fn first_index<T>(s: Seq<T>, x: T) -> int
    decreases s.len(),
{
    if s.len() == 0 {
        0
    } else if s[0] == x {
        0
    } else {
        1 + first_index(s.drop_first(), x)
    }
}

pub proof fn lemma_first_index_found<T>(s: Seq<T>, x: T, i: int)
    requires
        0 <= i < s.len(),
        s[i] == x,
        forall|j: int| 0 <= j < i ==> s[j] != x,
    ensures
        first_index(s, x) == i,
    decreases i,
{
    if i > 0 {
        let t = s.drop_first();
        assert(forall|j: int| 0 <= j < i - 1 ==> t[j] == s[j + 1] && t[j] != x);
        lemma_first_index_found(t, x, i - 1);
    }
}

pub proof fn lemma_first_index_absent<T>(s: Seq<T>, x: T)
    requires
        forall|j: int| 0 <= j < s.len() ==> s[j] != x,
    ensures
        first_index(s, x) == s.len(),
    decreases s.len(),
{
    if s.len() > 0 {
        let t = s.drop_first();
        assert(forall|j: int| 0 <= j < t.len() ==> t[j] == s[j + 1] && t[j] != x);
        lemma_first_index_absent(t, x);
    }
}

/// The first occurrence is an occurrence, and nothing before it is one.
pub proof fn lemma_first_index_properties<T>(s: Seq<T>, x: T)
    ensures
        0 <= first_index(s, x) <= s.len(),
        first_index(s, x) < s.len() ==> s[first_index(s, x)] == x,
        forall|j: int| 0 <= j < first_index(s, x) ==> s[j] != x,
    decreases s.len(),
{
    if s.len() > 0 && s[0] != x {
        let t = s.drop_first();
        lemma_first_index_properties(t, x);
        assert(forall|j: int| 0 <= j < t.len() ==> t[j] == s[j + 1]);
        assert forall|j: int| 0 <= j < first_index(s, x) implies s[j] != x by {
            if j > 0 {
                assert(s[j] == t[j - 1]);
            }
        }
    }
}

/// Everything before the first occurrence of `x`; the whole sequence when
/// there is none.
pub open spec fn before_first<T>(s: Seq<T>, x: T) -> Seq<T> {
    s.take(first_index(s, x))
}

/// Everything after the first occurrence of `x`; empty when there is none.
pub open spec fn after_first<T>(s: Seq<T>, x: T) -> Seq<T> {
    if first_index(s, x) == s.len() {
        Seq::empty()
    } else {
        s.skip(first_index(s, x) + 1)
    }
}

} // verus!
