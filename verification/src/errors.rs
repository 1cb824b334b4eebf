//! The error taxonomy of the library.
//!
//! Structural problems (wrong lengths, incompatible inputs) are reported
//! through these variants; a cryptographically invalid but well-typed input
//! makes a verification function return `Ok(false)` instead.

use vstd::prelude::*;

verus! {

#[derive(Clone, Debug, PartialEq, Eq)]
pub enum PSError {
    /// A key supports `expected` messages but `given` messages were passed.
    UnsupportedNoOfMessages { expected: usize, given: usize },
    /// A multi-base operation was given `bases` bases and `exponents`
    /// exponents, which differ.
    UnequalNoOfBasesExponents { bases: usize, exponents: usize },
    /// Verification keys with differing numbers of `Y_tilde` elements
    /// cannot be aggregated.
    IncompatibleVerkeysForAggregation,
    /// Signatures with differing `sigma_1` (or, in the 2018 scheme,
    /// differing `m_prime`) cannot be aggregated.
    IncompatibleSigsForAggregation,
    /// Any other structural problem, described by `msg`.
    GeneralError { msg: String },
}

} // verus!
