//! Turning a resolved term into the reply that a caller of the service sees.
use vstd::prelude::*;

use crate::error::ResolveError;
use crate::factorial::{factorial_outcome, find_factorial};
use crate::fibonacci::{fibonacci_outcome, find_nth_fibonacci};
use crate::store::Store;
use crate::term::{decimal_of, i64_to_decimal, signed_decimal, Term};

verus! {

/// A resolved term: what happened, the term in decimal, and whether it came
/// from the store.
#[derive(Debug)]
pub struct MathResponse {
    pub message: String,
    pub result: String,
    pub cached: bool,
}

/// A request for the term at `num`; an absent index stands for 0.
#[derive(Debug)]
pub struct NumRequest {
    pub num: Option<i64>,
}

/// A reply that carries a message alone.
#[derive(Debug)]
pub struct BasicResponse {
    pub message: String,
}

/// The index that a request asks for.
pub open spec fn requested_index(request: &NumRequest) -> int {
    match request.num {
        Some(n) => n as int,
        None => 0,
    }
}

/// `reply` is what the service answers for the outcome `outcome` of
/// resolving `num`, whose message starts with `label`.
pub open spec fn reply_matches(
    label: Seq<char>,
    num: int,
    outcome: Result<(Term, bool), ResolveError>,
    reply: Result<MathResponse, BasicResponse>,
) -> bool {
    match outcome {
        Ok((t, cached)) => reply matches Ok(m) && m.cached == cached && m.result@ == decimal_of(t@)
            && m.message@ == label + signed_decimal(num) + if cached {
            " retrieved from cache"@
        } else {
            " calculated"@
        },
        Err(ResolveError::InvalidInput) => reply matches Err(b) && b.message@
            == "Number must be non-negative"@,
        Err(ResolveError::Storage(s)) => reply matches Err(b) && b.message@ == s@,
    }
}

/// The message of a live service.
pub fn health() -> (r: BasicResponse)
    ensures
        r.message@ == "Service is up and running"@,
{
    let message = String::from_str("Service is up and running");
    proof {
        reveal_strlit("Service is up and running");
    }
    BasicResponse { message }
}

/// The message for `num`, starting with `label`.
fn outcome_message(label: &str, num: i64, cached: bool) -> (r: String)
    ensures
        r@ == label@ + signed_decimal(num as int) + if cached {
            " retrieved from cache"@
        } else {
            " calculated"@
        },
{
    let mut r = String::from_str(label);
    let digits = i64_to_decimal(num);
    r.append(digits.as_str());
    if cached {
        r.append(" retrieved from cache");
        proof {
            reveal_strlit(" retrieved from cache");
        }
    } else {
        r.append(" calculated");
        proof {
            reveal_strlit(" calculated");
        }
    }
    r
}

/// The reply for the outcome of resolving `num`, whose message starts with
/// `label`.
pub fn reply_for(label: &str, num: i64, outcome: Result<(Term, bool), ResolveError>) -> (r: Result<
    MathResponse,
    BasicResponse,
>)
    ensures
        reply_matches(label@, num as int, outcome, r),
{
    match outcome {
        Ok((t, cached)) => Ok(
            MathResponse {
                message: outcome_message(label, num, cached),
                result: t.to_decimal(),
                cached,
            },
        ),
        Err(e) => Err(BasicResponse { message: e.message() }),
    }
}

/// Answers a request for a Fibonacci number against `store`.
pub fn calc_fib<S: Store>(request: &NumRequest, store: &mut S) -> (r: Result<
    MathResponse,
    BasicResponse,
>)
    ensures
        final(store).faithful() == old(store).faithful(),
        final(store).reliable() == old(store).reliable(),
        exists|o: Result<(Term, bool), ResolveError>|
            {
                &&& fibonacci_outcome(
                    old(store).cache(),
                    final(store).cache(),
                    old(store).faithful(),
                    old(store).reliable(),
                    requested_index(request),
                    o,
                )
                &&& #[trigger] reply_matches("Fibonacci number "@, requested_index(request), o, r)
            },
{
    let num: i64 = match request.num {
        Some(n) => n,
        None => 0,
    };
    let outcome = find_nth_fibonacci(num, store);
    let ghost o = outcome;
    let label = "Fibonacci number ";
    proof {
        reveal_strlit("Fibonacci number ");
    }
    let r = reply_for(label, num, outcome);
    proof {
        assert(requested_index(request) == num as int);
        assert(fibonacci_outcome(
            old(store).cache(),
            store.cache(),
            old(store).faithful(),
            old(store).reliable(),
            requested_index(request),
            o,
        ) && reply_matches("Fibonacci number "@, requested_index(request), o, r));
    }
    r
}

/// Answers a request for a factorial against `store`.
pub fn calc_factorial<S: Store>(request: &NumRequest, store: &mut S) -> (r: Result<
    MathResponse,
    BasicResponse,
>)
    ensures
        final(store).faithful() == old(store).faithful(),
        final(store).reliable() == old(store).reliable(),
        exists|o: Result<(Term, bool), ResolveError>|
            {
                &&& factorial_outcome(
                    old(store).cache(),
                    final(store).cache(),
                    old(store).faithful(),
                    old(store).reliable(),
                    requested_index(request),
                    o,
                )
                &&& #[trigger] reply_matches("Factorial of "@, requested_index(request), o, r)
            },
{
    let num: i64 = match request.num {
        Some(n) => n,
        None => 0,
    };
    let outcome = find_factorial(num, store);
    let ghost o = outcome;
    let label = "Factorial of ";
    proof {
        reveal_strlit("Factorial of ");
    }
    let r = reply_for(label, num, outcome);
    proof {
        assert(requested_index(request) == num as int);
        assert(factorial_outcome(
            old(store).cache(),
            store.cache(),
            old(store).faithful(),
            old(store).reliable(),
            requested_index(request),
            o,
        ) && reply_matches("Factorial of "@, requested_index(request), o, r));
    }
    r
}

} // verus!
