//! Resolving factorials against a store, extending what it holds.
use vstd::prelude::*;

use crate::error::ResolveError;
use crate::model::{factorial, factorial_seeds, factorial_sound, gap_free, grown_by_run, span};
use crate::store::Store;
use crate::term::Term;

verus! {

/// What resolving index `num` does, from the cache held `before` to the one
/// held `after`, with result `r`, on a store that is `faithful` to its
/// cache or not and `reliable` or not.
///
/// Only a negative index is rejected, and it leaves the store untouched;
/// any other index succeeds on a reliable store. On a faithful store, an
/// index that the cache holds is answered from it; any other is derived,
/// every index from 1 to `num` is then held, and the term at `num` is the
/// one returned. A failure part-way leaves one run of new indices from 1
/// upward. Nothing is ever removed, nothing outside 1 to `num` is written,
/// and a correct cache stays correct and yields the factorial.
pub open spec fn factorial_outcome(
    before: Map<int, nat>,
    after: Map<int, nat>,
    faithful: bool,
    reliable: bool,
    num: int,
    r: Result<(Term, bool), ResolveError>,
) -> bool {
    &&& (r == Err::<(Term, bool), ResolveError>(ResolveError::InvalidInput)) == (num < 0)
    &&& num >= 0 && reliable ==> r is Ok
    &&& num < 0 ==> after == before
    &&& faithful ==> {
        &&& grown_by_run(before, after, 1, num)
        &&& forall|k: int|
            #[trigger] before.contains_key(k) && !(1 <= k <= num) ==> after[k] == before[k]
        &&& factorial_sound(before) ==> factorial_sound(after)
        &&& r matches Ok((t, cached)) ==> {
            &&& cached == before.contains_key(num)
            &&& cached ==> after == before && t@ == before[num]
            &&& !cached ==> {
                &&& after.dom() == before.dom().union(span(1, num))
                &&& num >= 1 ==> after.contains_key(num) && after[num] == t@
            }
            &&& factorial_sound(before) ==> t@ == factorial(num as nat)
        }
    }
}

/// The factorial of `num`, and whether it was known without new arithmetic.
///
/// The store is scanned upward from index 0 for the run of indices it
/// holds; the term at the end of that run (or 1 where it holds none) starts
/// the product, and each new term is written to the store as soon as it is
/// derived. A failure of the store ends the work and is returned as it
/// came.
pub fn find_factorial<S: Store>(num: i64, store: &mut S) -> (r: Result<(Term, bool), ResolveError>)
    ensures
        factorial_outcome(
            old(store).cache(),
            final(store).cache(),
            old(store).faithful(),
            old(store).reliable(),
            num as int,
            r,
        ),
        final(store).faithful() == old(store).faithful(),
        final(store).reliable() == old(store).reliable(),
{
    proof {
        assert(old(store).cache().dom().union(span(1, 0)) =~= old(store).cache().dom());
    }
    if num < 0 {
        return Err(ResolveError::InvalidInput);
    }
    let ghost before = store.cache();
    let ghost faithful = store.faithful();
    match store.contains_key(num) {
        Err(e) => {
            return Err(ResolveError::Storage(e));
        },
        Ok(true) => match store.get(num) {
            Err(e) => {
                return Err(ResolveError::Storage(e));
            },
            Ok(Some(t)) => {
                return Ok((t, true));
            },
            Ok(None) => {},
        },
        Ok(false) => {},
    }
    // The run of held indices that starts at 0 ends just before `next`.
    let mut next: i64 = 0;
    loop
        invariant
            0 <= next <= num,
            before == old(store).cache(),
            faithful == old(store).faithful(),
            store.faithful() == faithful,
            store.reliable() == old(store).reliable(),
            before.dom().union(span(1, 0)) == before.dom(),
            faithful ==> {
                &&& store.cache() == before
                &&& !before.contains_key(num as int)
                &&& forall|k: int| 0 <= k < next ==> before.contains_key(k)
            },
        ensures
            0 <= next <= num,
            store.faithful() == faithful,
            store.reliable() == old(store).reliable(),
            faithful ==> {
                &&& store.cache() == before
                &&& !before.contains_key(num as int)
                &&& forall|k: int| 0 <= k < next ==> before.contains_key(k)
            },
        decreases num - next,
    {
        match store.contains_key(next) {
            Err(e) => {
                return Err(ResolveError::Storage(e));
            },
            Ok(true) => {
                if next < num {
                    next = next + 1;
                } else {
                    break ;
                }
            },
            Ok(false) => {
                break ;
            },
        }
    }
    let m: i64 = if next >= 1 {
        next - 1
    } else {
        0
    };
    let mut result = match store.get(m) {
        Err(e) => {
            return Err(ResolveError::Storage(e));
        },
        Ok(Some(t)) => t,
        Ok(None) => Term::one(),
    };
    proof {
        if faithful {
            assert(before.dom().union(span(1, m as int)) =~= before.dom());
        }
    }
    let mut i: i64 = m;
    while i < num
        invariant
            0 <= m <= i <= num,
            before == old(store).cache(),
            faithful == old(store).faithful(),
            store.faithful() == faithful,
            store.reliable() == old(store).reliable(),
            faithful ==> {
                &&& !before.contains_key(num as int)
                &&& store.cache().dom() == before.dom().union(span(1, i as int))
                &&& forall|k: int|
                    #[trigger] before.contains_key(k) && !(1 <= k <= i) ==> store.cache()[k]
                        == before[k]
                &&& i > m ==> store.cache().contains_key(i as int) && store.cache()[i as int]
                    == result@
                &&& factorial_sound(before) ==> {
                    &&& factorial_sound(store.cache())
                    &&& result@ == factorial(i as nat)
                }
            },
        decreases num - i,
    {
        i = i + 1;
        let ghost prior = result@;
        result = result.mul_u64(i as u64);
        proof {
            vstd::arithmetic::mul::lemma_mul_is_commutative(prior as int, i as int);
            assert(factorial(i as nat) == i * factorial((i - 1) as nat));
        }
        let ghost held = store.cache();
        match store.set(i, &result) {
            Err(e) => {
                proof {
                    if faithful && store.cache() != held {
                        assert(store.cache().dom() =~= before.dom().union(span(1, i as int)));
                    }
                }
                return Err(ResolveError::Storage(e));
            },
            Ok(()) => {},
        }
        proof {
            if faithful {
                assert(store.cache().dom() =~= before.dom().union(span(1, i as int)));
            }
        }
    }
    Ok((result, false))
}

/// Writes the seeds of the sequence into `store`: 1 at indices 0 and 1.
pub fn seed_factorial<S: Store>(store: &mut S) -> (r: Result<(), String>)
    ensures
        final(store).faithful() == old(store).faithful(),
        final(store).reliable() == old(store).reliable(),
        old(store).reliable() ==> r is Ok,
        old(store).faithful() ==> {
            &&& r is Ok ==> final(store).cache() == old(store).cache().union_prefer_right(factorial_seeds())
            &&& factorial_sound(old(store).cache()) ==> factorial_sound(final(store).cache())
        },
{
    proof {
        reveal_with_fuel(factorial, 2);
    }
    let ghost before = store.cache();
    let first = Term::one();
    store.set(0, &first)?;
    let second = Term::one();
    store.set(1, &second)?;
    proof {
        if store.faithful() {
            assert(store.cache() =~= before.union_prefer_right(factorial_seeds()));
        }
    }
    Ok(())
}

/// A fresh factorial store is correct.
pub proof fn factorial_seeds_sound()
    ensures
        factorial_sound(factorial_seeds()),
{
    reveal_with_fuel(factorial, 2);
}

/// On a fresh store that behaves as a map and does not fail, indices 0
/// and 1 resolve to 1, reported as cached, and the store is untouched.
pub proof fn factorial_base_cases(
    after: Map<int, nat>,
    num: int,
    r: Result<(Term, bool), ResolveError>,
)
    requires
        factorial_outcome(factorial_seeds(), after, true, true, num, r),
        0 <= num <= 1,
    ensures
        r matches Ok((t, cached)) && t@ == 1 && cached,
        after == factorial_seeds(),
{
}

/// A negative index is rejected as invalid input, whatever the store holds,
/// and the store is left as it was.
pub proof fn factorial_rejects_negative(
    before: Map<int, nat>,
    after: Map<int, nat>,
    faithful: bool,
    reliable: bool,
    num: int,
    r: Result<(Term, bool), ResolveError>,
)
    requires
        factorial_outcome(before, after, faithful, reliable, num, r),
        num < 0,
    ensures
        r == Err::<(Term, bool), ResolveError>(ResolveError::InvalidInput),
        after == before,
{
}

/// An index that a correct store does not hold is derived on the
/// first request and answered from the store, with the same value, on the
/// second.
pub proof fn factorial_second_request_cached(
    c0: Map<int, nat>,
    c1: Map<int, nat>,
    c2: Map<int, nat>,
    num: int,
    r1: Result<(Term, bool), ResolveError>,
    r2: Result<(Term, bool), ResolveError>,
)
    requires
        factorial_sound(c0),
        !c0.contains_key(num),
        num > 0,
        factorial_outcome(c0, c1, true, true, num, r1),
        factorial_outcome(c1, c2, true, true, num, r2),
    ensures
        r1 matches Ok((t1, cached1)) && !cached1 && t1@ == factorial(num as nat),
        r2 matches Ok((t2, cached2)) && cached2 && t2@ == factorial(num as nat),
{
    assert(span(1, num).contains(num));
}

/// Once an index has resolved on a store that behaves as a map, whatever it
/// held, a second request for it (with no change to the store between)
/// answers from the store with the same term and writes nothing; on a
/// reliable store the second request succeeds. Index 0 on a store without
/// it is the exception: its factorial comes from the identity and is not
/// written, so it is derived afresh each time.
pub proof fn factorial_repeat_request_same(
    c0: Map<int, nat>,
    c1: Map<int, nat>,
    c2: Map<int, nat>,
    reliable1: bool,
    reliable2: bool,
    num: int,
    r1: Result<(Term, bool), ResolveError>,
    r2: Result<(Term, bool), ResolveError>,
)
    requires
        num >= 1 || c0.contains_key(0),
        factorial_outcome(c0, c1, true, reliable1, num, r1),
        r1 is Ok,
        factorial_outcome(c1, c2, true, reliable2, num, r2),
    ensures
        reliable2 ==> r2 is Ok,
        r1 matches Ok((t1, _)) ==> (r2 matches Ok((t2, cached2)) ==> (cached2 && t2@ == t1@
            && c2 == c1)),
{
}

/// After index `num` has resolved on a correct store that behaves as a map
/// and that only the engine has filled and that holds index 0, a request
/// for any index from 0 to `num` answers from the store with its
/// factorial, and writes nothing; on a reliable store it succeeds.
pub proof fn factorial_intermediate_cached(
    c0: Map<int, nat>,
    c1: Map<int, nat>,
    c2: Map<int, nat>,
    reliable1: bool,
    reliable2: bool,
    num: int,
    k: int,
    r1: Result<(Term, bool), ResolveError>,
    r2: Result<(Term, bool), ResolveError>,
)
    requires
        factorial_sound(c0),
        gap_free(c0, 0),
        c0.contains_key(0),
        factorial_outcome(c0, c1, true, reliable1, num, r1),
        r1 is Ok,
        0 <= k <= num,
        factorial_outcome(c1, c2, true, reliable2, k, r2),
    ensures
        reliable2 ==> r2 is Ok,
        r2 matches Ok((t, cached)) ==> cached && t@ == factorial(k as nat) && c2 == c1,
{
    if k > 0 {
        assert(span(1, num).contains(k));
        if c0.contains_key(num) {
            assert(c0.dom().contains(k));
        }
    }
}

/// Two correct stores that behave as maps, whatever they hold (a full
/// prefix, or gaps), give the same term for the same index.
pub proof fn factorial_resume_agrees(
    a0: Map<int, nat>,
    a1: Map<int, nat>,
    b0: Map<int, nat>,
    b1: Map<int, nat>,
    num: int,
    ra: Result<(Term, bool), ResolveError>,
    rb: Result<(Term, bool), ResolveError>,
)
    requires
        factorial_sound(a0),
        factorial_sound(b0),
        num >= 0,
        factorial_outcome(a0, a1, true, true, num, ra),
        factorial_outcome(b0, b1, true, true, num, rb),
    ensures
        ra matches Ok((ta, _)) && rb matches Ok((tb, _)) && ta@ == tb@,
{
}

/// Resolving against a correct store that behaves as a map, once and then
/// again (from the same engine or another one sharing the store, for the
/// same gap or another, and whether or not either pass fails part-way),
/// never changes a term that the first pass left in the store.
pub proof fn factorial_rederivation_keeps_terms(
    c0: Map<int, nat>,
    c1: Map<int, nat>,
    c2: Map<int, nat>,
    reliable1: bool,
    reliable2: bool,
    n1: int,
    n2: int,
    r1: Result<(Term, bool), ResolveError>,
    r2: Result<(Term, bool), ResolveError>,
)
    requires
        factorial_sound(c0),
        factorial_outcome(c0, c1, true, reliable1, n1, r1),
        factorial_outcome(c1, c2, true, reliable2, n2, r2),
    ensures
        forall|k: int| #[trigger] c1.contains_key(k) ==> c2.contains_key(k) && c2[k] == c1[k],
{
    assert forall|k: int| #[trigger] c1.contains_key(k) implies c2.contains_key(k) && c2[k]
        == c1[k] by {
        assert(c1.dom().contains(k));
        if 1 <= k <= n2 {
            assert(c2.contains_key(k));
        }
    }
}

} // verus!
