//! The first index that satisfies a condition, as hit tests and lookups use it.

use vstd::prelude::*;

verus! {

/// The first index of `i..n` that satisfies `p`.
pub open spec fn first_from(i: int, n: int, p: spec_fn(int) -> bool) -> Option<int>
    decreases n - i,
{
    if i >= n {
        None
    } else if p(i) {
        Some(i)
    } else {
        first_from(i + 1, n, p)
    }
}

/// The first index of `0..n` that satisfies `p`.
pub open spec fn first(n: int, p: spec_fn(int) -> bool) -> Option<int> {
    first_from(0, n, p)
}

/// What `first_from` finds satisfies the condition, and nothing before it does.
pub proof fn lemma_first_from(i: int, n: int, p: spec_fn(int) -> bool)
    ensures
        match first_from(i, n, p) {
            Some(k) => i <= k < n && p(k) && (forall|j: int| i <= j < k ==> !(#[trigger] p(j))),
            None => forall|j: int| i <= j < n ==> !(#[trigger] p(j)),
        },
    decreases n - i,
{
    if i < n && !p(i) {
        lemma_first_from(i + 1, n, p);
    }
}

/// An index that satisfies the condition before every other is the first.
pub proof fn lemma_first_is(i: int, n: int, p: spec_fn(int) -> bool, k: int)
    requires
        i <= k < n,
        p(k),
        forall|j: int| i <= j < k ==> !(#[trigger] p(j)),
    ensures
        first_from(i, n, p) == Some(k),
    decreases k - i,
{
    if i < k {
        lemma_first_is(i + 1, n, p, k);
    }
}

/// Where nothing satisfies the condition, nothing is found.
pub proof fn lemma_first_none(i: int, n: int, p: spec_fn(int) -> bool)
    requires
        forall|j: int| i <= j < n ==> !(#[trigger] p(j)),
    ensures
        first_from(i, n, p) == None::<int>,
    decreases n - i,
{
    if i < n {
        lemma_first_none(i + 1, n, p);
    }
}

} // verus!
