//! Searching and counting over the index range of a fixed-size table.

use vstd::prelude::*;

verus! {

/// The least index in `i..n` that satisfies `p`.
pub open spec fn first_from(i: nat, n: nat, p: spec_fn(int) -> bool) -> Option<usize>
    decreases n - i,
{
    if i >= n {
        None
    } else if p(i as int) {
        Some(i as usize)
    } else {
        first_from(i + 1, n, p)
    }
}

/// The least index below `n` that satisfies `p`.
pub open spec fn first(n: nat, p: spec_fn(int) -> bool) -> Option<usize> {
    first_from(0, n, p)
}

/// How many indices below `n` satisfy `p`.
pub open spec fn count(n: nat, p: spec_fn(int) -> bool) -> nat
    decreases n,
{
    if n == 0 {
        0
    } else {
        count((n - 1) as nat, p) + if p(n - 1) {
            1nat
        } else {
            0nat
        }
    }
}

proof fn lemma_first_from(i: nat, n: nat, p: spec_fn(int) -> bool)
    requires
        n <= usize::MAX,
    ensures
        match first_from(i, n, p) {
            Some(k) => i <= k < n && p(k as int) && forall|j: int| i <= j < k ==> !#[trigger] p(j),
            None => forall|j: int| i <= j < n ==> !#[trigger] p(j),
        },
    decreases n - i,
{
    if i < n && !p(i as int) {
        lemma_first_from(i + 1, n, p);
    }
}

/// `first` is the least index that satisfies `p`, or there is none.
pub proof fn lemma_first(n: nat, p: spec_fn(int) -> bool)
    requires
        n <= usize::MAX,
    ensures
        match first(n, p) {
            Some(k) => k < n && p(k as int) && forall|j: int| 0 <= j < k ==> !#[trigger] p(j),
            None => forall|j: int| 0 <= j < n ==> !#[trigger] p(j),
        },
{
    lemma_first_from(0, n, p);
}

/// An index that satisfies `p`, with none below it that does, is the first.
pub proof fn lemma_first_is(n: nat, p: spec_fn(int) -> bool, k: usize)
    requires
        n <= usize::MAX,
        k < n,
        p(k as int),
        forall|j: int| 0 <= j < k ==> !#[trigger] p(j),
    ensures
        first(n, p) == Some(k),
{
    lemma_first(n, p);
}

/// Where no index satisfies `p` there is no first one.
pub proof fn lemma_first_none(n: nat, p: spec_fn(int) -> bool)
    requires
        n <= usize::MAX,
        forall|j: int| 0 <= j < n ==> !#[trigger] p(j),
    ensures
        first(n, p) is None,
{
    lemma_first(n, p);
}

/// Predicates that agree below `n` have the same first index.
pub proof fn lemma_first_same(n: nat, p: spec_fn(int) -> bool, q: spec_fn(int) -> bool)
    requires
        n <= usize::MAX,
        forall|j: int| #![trigger p(j)] #![trigger q(j)] 0 <= j < n ==> p(j) == q(j),
    ensures
        first(n, p) == first(n, q),
{
    lemma_first(n, p);
    lemma_first(n, q);
}

/// A count never exceeds the length of the range.
pub proof fn lemma_count_bound(n: nat, p: spec_fn(int) -> bool)
    ensures
        count(n, p) <= n,
    decreases n,
{
    if n > 0 {
        lemma_count_bound((n - 1) as nat, p);
    }
}

/// Predicates that agree below `n` have the same count.
pub proof fn lemma_count_same(n: nat, p: spec_fn(int) -> bool, q: spec_fn(int) -> bool)
    requires
        forall|j: int| #![trigger p(j)] #![trigger q(j)] 0 <= j < n ==> p(j) == q(j),
    ensures
        count(n, p) == count(n, q),
    decreases n,
{
    if n > 0 {
        lemma_count_same((n - 1) as nat, p, q);
    }
}

/// Adding one index to those that satisfy the predicate adds one to the count.
pub proof fn lemma_count_add(n: nat, p: spec_fn(int) -> bool, q: spec_fn(int) -> bool, k: int)
    requires
        0 <= k < n,
        !p(k),
        q(k),
        forall|j: int| #![trigger p(j)] #![trigger q(j)] 0 <= j < n && j != k ==> p(j) == q(j),
    ensures
        count(n, q) == count(n, p) + 1,
    decreases n,
{
    if k == n - 1 {
        lemma_count_same((n - 1) as nat, p, q);
    } else {
        lemma_count_add((n - 1) as nat, p, q, k);
    }
}

/// One index that satisfies the predicate makes the count positive.
pub proof fn lemma_count_positive(n: nat, p: spec_fn(int) -> bool, k: int)
    requires
        0 <= k < n,
        p(k),
    ensures
        count(n, p) >= 1,
    decreases n,
{
    if k != n - 1 {
        lemma_count_positive((n - 1) as nat, p, k);
    }
}

/// Without an index that satisfies the predicate the count is zero.
pub proof fn lemma_count_zero(n: nat, p: spec_fn(int) -> bool)
    requires
        forall|j: int| 0 <= j < n ==> !#[trigger] p(j),
    ensures
        count(n, p) == 0,
    decreases n,
{
    if n > 0 {
        lemma_count_zero((n - 1) as nat, p);
    }
}

} // verus!
