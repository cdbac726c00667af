//! Memoised arbitrary-precision Fibonacci numbers and factorials over a
//! pluggable key/value store.
//!
//! A request for the term at an index scans the store for the run of terms
//! it already holds, extends that run one term at a time up to the index,
//! and writes each new term as soon as it is derived.

pub mod error;
pub mod factorial;
pub mod fibonacci;
pub mod model;
pub mod response;
pub mod store;
pub mod term;
