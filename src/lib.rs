//! Monte Carlo valuation of a portfolio of interdependent oil-and-gas
//! development projects.
//!
//! The verified core holds the project registry, the weighted draw of one
//! case per project, the recursive expansion of follow-on projects into one
//! realized trial, the repetition of trials, and nearest-rank statistics.
//! Numeric economics (shrink factors, interests, prices) are carried through
//! the model as an opaque number type chosen by the caller.

pub mod model;
pub mod sampler;
pub mod traversal;
pub mod trials;
pub mod stats;
