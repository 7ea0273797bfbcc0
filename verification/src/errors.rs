//! Errors of the index build and query operations.
//!
//! Configuration errors are reported before any mutation; a failed build
//! leaves no partially linked state behind.

use vstd::prelude::*;

verus! {

/// Why a build or query call was rejected.
#[derive(Debug, Clone, Copy, PartialEq, Eq, Structural)]
pub enum HnswError {
    /// Graph parameters are unusable (zero degree, zero beam width,
    /// or a dimension outside the supported range).
    InvalidParams,
    /// A vector does not have the configured dimensionality.
    DimensionMismatch,
    /// A vector coordinate lies outside the supported coordinate range.
    VectorOutOfRange,
}

impl HnswError {
    /// Human-readable name of the error.
    pub fn describe(&self) -> (r: &'static str)
        ensures
            self is InvalidParams ==> r@ == "invalid index parameters"@,
            self is DimensionMismatch ==> r@ == "vector dimension mismatch"@,
            self is VectorOutOfRange ==> r@ == "vector coordinate out of range"@,
    {
        match self {
            HnswError::InvalidParams => "invalid index parameters",
            HnswError::DimensionMismatch => "vector dimension mismatch",
            HnswError::VectorOutOfRange => "vector coordinate out of range",
        }
    }
}

} // verus!
