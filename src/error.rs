//! Errors reported by the library.

use vstd::prelude::*;

verus! {

/// Why a registration run cannot proceed.
#[derive(Debug, Clone, Copy, PartialEq, Eq, Structural)]
pub enum RegistrationError {
    /// Empty stack, mixed or unsupported pixel types, or images of
    /// different dimensions.
    InvalidInput,
    /// A crop rectangle that leaves the image or is inverted.
    BadCropBounds,
    /// A parameter outside its documented range.
    BadConfig,
    /// A singular reference motion, or a factorization that failed.
    NumericalFailure,
    /// The host cancelled the run.
    Cancelled,
}

} // verus!
