//! Tensor-product Legendre polynomial surrogate engine.
//!
//! The library builds an orthonormal Legendre basis over `[-1, 1]`, enumerates
//! the four-dimensional multi-index space of bounded total degree with an exact
//! bidirectional mapping between linear indices and index tuples, stores the
//! coefficient vector of a fitted expansion, and prunes it by magnitude.
//!
//! Coefficient values are carried as raw IEEE 754 double bit patterns so that
//! the bookkeeping around them (counting, indexing, pruning) is exact; turning
//! sample data into coefficient estimates by quadrature is floating-point work
//! that callers perform on top of the data this crate exposes.

use vstd::prelude::*;

pub mod basis;
pub mod combinatorics;
pub mod multi_index;
pub mod error;
pub mod legendre;
pub mod magnitude;

pub use basis::LegendreBasis;
pub use error::LegendreError;
pub use legendre::Legendre4d;

verus! {

/// Largest total degree the engine accepts; beyond this the multi-index count
/// and the exact basis-coefficient arithmetic would outgrow their integer types.
pub const MAX_DEGREE: usize = 20;

} // verus!
