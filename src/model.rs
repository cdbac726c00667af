//! The two sequences, and what it means for a cache of them to be correct.
use vstd::prelude::*;

verus! {

/// The Fibonacci numbers: 0, 1, 1, 2, 3, 5, ...
pub open spec fn fib(n: nat) -> nat
    decreases n,
{
    if n == 0 {
        0
    } else if n == 1 {
        1
    } else {
        fib((n - 2) as nat) + fib((n - 1) as nat)
    }
}

/// The factorials: 1, 1, 2, 6, 24, ...
pub open spec fn factorial(n: nat) -> nat
    decreases n,
{
    if n == 0 {
        1
    } else {
        n * factorial((n - 1) as nat)
    }
}

/// The indices from `lo` to `hi`, both included.
pub open spec fn span(lo: int, hi: int) -> Set<int> {
    Set::new(|k: int| lo <= k <= hi)
}

/// Every term that the cache holds at a non-negative index is the Fibonacci
/// number of that index.
pub open spec fn fib_sound(c: Map<int, nat>) -> bool {
    forall|k: int| k >= 0 && #[trigger] c.contains_key(k) ==> c[k] == fib(k as nat)
}

/// Every term that the cache holds at a non-negative index is the factorial
/// of that index.
pub open spec fn factorial_sound(c: Map<int, nat>) -> bool {
    forall|k: int| k >= 0 && #[trigger] c.contains_key(k) ==> c[k] == factorial(k as nat)
}

/// The indices of `after` are those of `before` and one run from `lo` up
/// to at most `num` (possibly empty): what extending a prefix term by term,
/// and perhaps stopping early, leaves behind.
pub open spec fn grown_by_run(before: Map<int, nat>, after: Map<int, nat>, lo: int, num: int) -> bool {
    exists|j: int| (j < lo || j <= num) && #[trigger] before.dom().union(span(lo, j)) == after.dom()
}

/// The terms that a fresh Fibonacci store holds: 0 at index 0, 1 at index 1.
pub open spec fn fibonacci_seeds() -> Map<int, nat> {
    map![0int => 0nat, 1int => 1nat]
}

/// The terms that a fresh factorial store holds: 1 at indices 0 and 1.
pub open spec fn factorial_seeds() -> Map<int, nat> {
    map![0int => 1nat, 1int => 1nat]
}

/// Wherever the cache holds an index `k` of at least `lo`, it holds every
/// index from `lo` to `k`: the shape of a cache that only the engine has
/// filled.
pub open spec fn gap_free(c: Map<int, nat>, lo: int) -> bool {
    forall|k: int| #[trigger] c.contains_key(k) && k >= lo ==> span(lo, k).subset_of(c.dom())
}

} // verus!
