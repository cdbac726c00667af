//! Resolving Fibonacci numbers against a store, extending what it holds.
use vstd::prelude::*;

use crate::error::ResolveError;
use crate::model::{fib, fib_sound, fibonacci_seeds, gap_free, grown_by_run, span};
use crate::store::Store;
use crate::term::Term;

verus! {

/// What resolving index `num` does, from the cache held `before` to the one
/// held `after`, with result `r`, on a store that is `faithful` to its
/// cache or not and `reliable` or not.
///
/// Only a negative index is rejected; any other succeeds on a reliable
/// store, and indices 0 and 1, answered from the seeds, succeed on any
/// store without touching it. On a faithful store, any other index that the
/// cache holds is answered from it; the rest are derived, every index from
/// 2 to `num` is then held, and the term at `num` is the one returned. A
/// failure part-way leaves one run of new indices from 2 upward. Nothing is
/// ever removed, nothing outside 2 to `num` is written, and a correct cache
/// stays correct and yields the Fibonacci number.
pub open spec fn fibonacci_outcome(
    before: Map<int, nat>,
    after: Map<int, nat>,
    faithful: bool,
    reliable: bool,
    num: int,
    r: Result<(Term, bool), ResolveError>,
) -> bool {
    &&& (r == Err::<(Term, bool), ResolveError>(ResolveError::InvalidInput)) == (num < 0)
    &&& num >= 0 && (reliable || num <= 1) ==> r is Ok
    &&& num <= 1 ==> after == before
    &&& 0 <= num <= 1 ==> (r matches Ok((t, cached)) && cached && t@ == num)
    &&& faithful ==> {
        &&& grown_by_run(before, after, 2, num)
        &&& forall|k: int|
            #[trigger] before.contains_key(k) && !(2 <= k <= num) ==> after[k] == before[k]
        &&& fib_sound(before) ==> fib_sound(after)
        &&& r matches Ok((t, cached)) ==> {
            &&& cached == (num <= 1 || before.contains_key(num))
            &&& cached ==> after == before
            &&& cached && num > 1 ==> t@ == before[num]
            &&& !cached ==> {
                &&& after.dom() == before.dom().union(span(2, num))
                &&& after.contains_key(num)
                &&& after[num] == t@
            }
            &&& fib_sound(before) ==> t@ == fib(num as nat)
        }
    }
}

/// The Fibonacci number of `num`, and whether it was known without new
/// arithmetic.
///
/// The store is scanned upward from index 0 for the run of indices it
/// holds; the two terms at the end of that run (or the seeds 0 and 1 where
/// it holds none) start the recurrence, and each new term is written to the
/// store as soon as it is derived. A failure of the store ends the work and
/// is returned as it came.
pub fn find_nth_fibonacci<S: Store>(num: i64, store: &mut S) -> (r: Result<
    (Term, bool),
    ResolveError,
>)
    ensures
        fibonacci_outcome(
            old(store).cache(),
            final(store).cache(),
            old(store).faithful(),
            old(store).reliable(),
            num as int,
            r,
        ),
        final(store).faithful() == old(store).faithful(),
        final(store).reliable() == old(store).reliable(),
{
    proof {
        assert(old(store).cache().dom().union(span(2, 1)) =~= old(store).cache().dom());
    }
    if num < 0 {
        return Err(ResolveError::InvalidInput);
    }
    if num <= 1 {
        return if num == 0 {
            Ok((Term::zero(), true))
        } else {
            Ok((Term::one(), true))
        };
    }
    let ghost before = store.cache();
    let ghost faithful = store.faithful();
    match store.contains_key(num) {
        Err(e) => {
            return Err(ResolveError::Storage(e));
        },
        Ok(true) => match store.get(num) {
            Err(e) => {
                return Err(ResolveError::Storage(e));
            },
            Ok(Some(t)) => {
                return Ok((t, true));
            },
            Ok(None) => {},
        },
        Ok(false) => {},
    }
    // The run of held indices that starts at 0 ends just before `next`.
    let mut next: i64 = 0;
    loop
        invariant
            0 <= next <= num,
            num > 1,
            before == old(store).cache(),
            faithful == old(store).faithful(),
            store.faithful() == faithful,
            store.reliable() == old(store).reliable(),
            before.dom().union(span(2, 1)) == before.dom(),
            faithful ==> {
                &&& store.cache() == before
                &&& !before.contains_key(num as int)
                &&& forall|k: int| 0 <= k < next ==> before.contains_key(k)
            },
        ensures
            0 <= next <= num,
            store.faithful() == faithful,
            store.reliable() == old(store).reliable(),
            faithful ==> {
                &&& store.cache() == before
                &&& !before.contains_key(num as int)
                &&& forall|k: int| 0 <= k < next ==> before.contains_key(k)
            },
        decreases num - next,
    {
        match store.contains_key(next) {
            Err(e) => {
                return Err(ResolveError::Storage(e));
            },
            Ok(true) => {
                if next < num {
                    next = next + 1;
                } else {
                    break ;
                }
            },
            Ok(false) => {
                break ;
            },
        }
    }
    let m: i64 = if next >= 2 {
        next - 1
    } else {
        1
    };
    let mut current = match store.get(m) {
        Err(e) => {
            return Err(ResolveError::Storage(e));
        },
        Ok(Some(t)) => t,
        Ok(None) => Term::one(),
    };
    let mut prev = match store.get(m - 1) {
        Err(e) => {
            return Err(ResolveError::Storage(e));
        },
        Ok(Some(t)) => t,
        Ok(None) => Term::zero(),
    };
    proof {
        if faithful {
            assert(before.dom().union(span(2, m as int)) =~= before.dom());
        }
    }
    let mut n: i64 = m;
    while n < num
        invariant
            1 <= m <= n <= num,
            before == old(store).cache(),
            faithful == old(store).faithful(),
            store.faithful() == faithful,
            store.reliable() == old(store).reliable(),
            faithful ==> {
                &&& !before.contains_key(num as int)
                &&& store.cache().dom() == before.dom().union(span(2, n as int))
                &&& forall|k: int|
                    #[trigger] before.contains_key(k) && !(2 <= k <= n) ==> store.cache()[k]
                        == before[k]
                &&& n > m ==> store.cache().contains_key(n as int) && store.cache()[n as int]
                    == current@
                &&& fib_sound(before) ==> {
                    &&& fib_sound(store.cache())
                    &&& current@ == fib(n as nat)
                    &&& prev@ == fib((n - 1) as nat)
                }
            },
        decreases num - n,
    {
        n = n + 1;
        let derived = current.add(&prev);
        let ghost held = store.cache();
        match store.set(n, &derived) {
            Err(e) => {
                proof {
                    if faithful && store.cache() != held {
                        assert(store.cache().dom() =~= before.dom().union(span(2, n as int)));
                    }
                }
                return Err(ResolveError::Storage(e));
            },
            Ok(()) => {},
        }
        proof {
            if faithful {
                assert(store.cache().dom() =~= before.dom().union(span(2, n as int)));
            }
        }
        prev = current;
        current = derived;
    }
    Ok((current, false))
}

/// Writes the seeds of the sequence into `store`: 0 at index 0 and 1 at index 1.
pub fn seed_fibonacci<S: Store>(store: &mut S) -> (r: Result<(), String>)
    ensures
        final(store).faithful() == old(store).faithful(),
        final(store).reliable() == old(store).reliable(),
        old(store).reliable() ==> r is Ok,
        old(store).faithful() ==> {
            &&& r is Ok ==> final(store).cache() == old(store).cache().union_prefer_right(fibonacci_seeds())
            &&& fib_sound(old(store).cache()) ==> fib_sound(final(store).cache())
        },
{
    proof {
        reveal_with_fuel(fib, 2);
    }
    let ghost before = store.cache();
    let first = Term::zero();
    store.set(0, &first)?;
    let second = Term::one();
    store.set(1, &second)?;
    proof {
        if store.faithful() {
            assert(store.cache() =~= before.union_prefer_right(fibonacci_seeds()));
        }
    }
    Ok(())
}

/// A fresh fibonacci store is correct.
pub proof fn fibonacci_seeds_sound()
    ensures
        fib_sound(fibonacci_seeds()),
{
    reveal_with_fuel(fib, 2);
}

/// Indices 0 and 1 resolve to their seeds, reported as cached, whatever the
/// store holds and whether or not it can fail, and the store is untouched.
pub proof fn fibonacci_base_cases(
    before: Map<int, nat>,
    after: Map<int, nat>,
    faithful: bool,
    reliable: bool,
    num: int,
    r: Result<(Term, bool), ResolveError>,
)
    requires
        fibonacci_outcome(before, after, faithful, reliable, num, r),
        0 <= num <= 1,
    ensures
        r matches Ok((t, cached)) && t@ == num && cached,
        after == before,
{
}

/// A negative index is rejected as invalid input, whatever the store holds,
/// and the store is left as it was.
pub proof fn fibonacci_rejects_negative(
    before: Map<int, nat>,
    after: Map<int, nat>,
    faithful: bool,
    reliable: bool,
    num: int,
    r: Result<(Term, bool), ResolveError>,
)
    requires
        fibonacci_outcome(before, after, faithful, reliable, num, r),
        num < 0,
    ensures
        r == Err::<(Term, bool), ResolveError>(ResolveError::InvalidInput),
        after == before,
{
}

/// An index above 1 that a correct store does not hold is derived on the
/// first request and answered from the store, with the same value, on the
/// second.
pub proof fn fibonacci_second_request_cached(
    c0: Map<int, nat>,
    c1: Map<int, nat>,
    c2: Map<int, nat>,
    num: int,
    r1: Result<(Term, bool), ResolveError>,
    r2: Result<(Term, bool), ResolveError>,
)
    requires
        fib_sound(c0),
        !c0.contains_key(num),
        num > 1,
        fibonacci_outcome(c0, c1, true, true, num, r1),
        fibonacci_outcome(c1, c2, true, true, num, r2),
    ensures
        r1 matches Ok((t1, cached1)) && !cached1 && t1@ == fib(num as nat),
        r2 matches Ok((t2, cached2)) && cached2 && t2@ == fib(num as nat),
{
    assert(span(2, num).contains(num));
}

/// Once an index has resolved on a store that behaves as a map, whatever it
/// held, a second request for it (with no change to the store between)
/// answers from the store with the same term and writes nothing; on a
/// reliable store the second request succeeds.
pub proof fn fibonacci_repeat_request_same(
    c0: Map<int, nat>,
    c1: Map<int, nat>,
    c2: Map<int, nat>,
    reliable1: bool,
    reliable2: bool,
    num: int,
    r1: Result<(Term, bool), ResolveError>,
    r2: Result<(Term, bool), ResolveError>,
)
    requires
        fibonacci_outcome(c0, c1, true, reliable1, num, r1),
        r1 is Ok,
        fibonacci_outcome(c1, c2, true, reliable2, num, r2),
    ensures
        reliable2 ==> r2 is Ok,
        r1 matches Ok((t1, _)) ==> (r2 matches Ok((t2, cached2)) ==> (cached2 && t2@ == t1@
            && c2 == c1)),
{
}

/// After index `num` has resolved on a correct store that behaves as a map
/// and that only the engine has filled, a request
/// for any index from 0 to `num` answers from the store with its
/// Fibonacci number, and writes nothing; on a reliable store it succeeds.
pub proof fn fibonacci_intermediate_cached(
    c0: Map<int, nat>,
    c1: Map<int, nat>,
    c2: Map<int, nat>,
    reliable1: bool,
    reliable2: bool,
    num: int,
    k: int,
    r1: Result<(Term, bool), ResolveError>,
    r2: Result<(Term, bool), ResolveError>,
)
    requires
        fib_sound(c0),
        gap_free(c0, 2),
        fibonacci_outcome(c0, c1, true, reliable1, num, r1),
        r1 is Ok,
        0 <= k <= num,
        fibonacci_outcome(c1, c2, true, reliable2, k, r2),
    ensures
        reliable2 ==> r2 is Ok,
        r2 matches Ok((t, cached)) ==> cached && t@ == fib(k as nat) && c2 == c1,
{
    if k > 1 {
        assert(span(2, num).contains(k));
        if c0.contains_key(num) {
            assert(c0.dom().contains(k));
        }
    }
}

/// Two correct stores that behave as maps, whatever they hold (a full
/// prefix, or gaps), give the same term for the same index.
pub proof fn fibonacci_resume_agrees(
    a0: Map<int, nat>,
    a1: Map<int, nat>,
    b0: Map<int, nat>,
    b1: Map<int, nat>,
    num: int,
    ra: Result<(Term, bool), ResolveError>,
    rb: Result<(Term, bool), ResolveError>,
)
    requires
        fib_sound(a0),
        fib_sound(b0),
        num >= 0,
        fibonacci_outcome(a0, a1, true, true, num, ra),
        fibonacci_outcome(b0, b1, true, true, num, rb),
    ensures
        ra matches Ok((ta, _)) && rb matches Ok((tb, _)) && ta@ == tb@,
{
}

/// Resolving against a correct store that behaves as a map, once and then
/// again (from the same engine or another one sharing the store, for the
/// same gap or another, and whether or not either pass fails part-way),
/// never changes a term that the first pass left in the store.
pub proof fn fibonacci_rederivation_keeps_terms(
    c0: Map<int, nat>,
    c1: Map<int, nat>,
    c2: Map<int, nat>,
    reliable1: bool,
    reliable2: bool,
    n1: int,
    n2: int,
    r1: Result<(Term, bool), ResolveError>,
    r2: Result<(Term, bool), ResolveError>,
)
    requires
        fib_sound(c0),
        fibonacci_outcome(c0, c1, true, reliable1, n1, r1),
        fibonacci_outcome(c1, c2, true, reliable2, n2, r2),
    ensures
        forall|k: int| #[trigger] c1.contains_key(k) ==> c2.contains_key(k) && c2[k] == c1[k],
{
    assert forall|k: int| #[trigger] c1.contains_key(k) implies c2.contains_key(k) && c2[k]
        == c1[k] by {
        assert(c1.dom().contains(k));
        if 2 <= k <= n2 {
            assert(c2.contains_key(k));
        }
    }
}

} // verus!
