//! Error kinds reported by the expansion engine.

use vstd::prelude::*;

verus! {

/// Failure kinds of the engine.
///
/// Every fallible operation reports one of these synchronously; none is
/// swallowed. Evaluating outside the nominal domain is deliberately *not* an
/// error (extrapolation is permitted, with degrading accuracy).
#[derive(Clone, Copy, Debug, PartialEq, Eq)]
pub enum LegendreError {
    /// The requested total degree would make the multi-index count (and the
    /// exact basis-coefficient arithmetic) exceed the engine's sane bound.
    InvalidDegree,
    /// A fit was requested over an empty sample collection.
    EmptyInput,
    /// A linear-index/multi-index conversion was requested outside the valid
    /// set for the configured degree.
    IndexOutOfRange,
}

impl LegendreError {
    /// A short human-readable description of the error kind.
    pub fn describe(&self) -> (r: &'static str)
        ensures
            r@ =~= match self {
                LegendreError::InvalidDegree => "total degree exceeds the supported bound"@,
                LegendreError::EmptyInput => "cannot fit from an empty sample collection"@,
                LegendreError::IndexOutOfRange => "index outside the valid multi-index set"@,
            },
    {
        match self {
            LegendreError::InvalidDegree => "total degree exceeds the supported bound",
            LegendreError::EmptyInput => "cannot fit from an empty sample collection",
            LegendreError::IndexOutOfRange => "index outside the valid multi-index set",
        }
    }
}

} // verus!
