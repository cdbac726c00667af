//! Why a term could not be resolved.
use vstd::prelude::*;

verus! {

/// The ways in which resolving a term fails.
#[derive(Debug)]
pub enum ResolveError {
    /// The index was negative.
    InvalidInput,
    /// The store failed; its own words.
    Storage(String),
}

/// The message of a rejected negative index.
pub open spec fn negative_message() -> Seq<char> {
    "Number must be non-negative"@
}

impl ResolveError {
    /// The text to show a caller.
    pub fn message(&self) -> (r: String)
        ensures
            self is InvalidInput ==> r@ == negative_message(),
            self matches ResolveError::Storage(s) ==> r@ == s@,
    {
        match self {
            ResolveError::InvalidInput => {
                let s = String::from_str("Number must be non-negative");
                proof {
                    reveal_strlit("Number must be non-negative");
                }
                s
            },
            ResolveError::Storage(s) => s.clone(),
        }
    }
}

} // verus!
