//! The ways in which a colour shift can be refused.
use vstd::prelude::*;

verus! {

/// Why a colour shift was refused.
#[derive(Clone, Copy, Debug, PartialEq, Eq, Structural)]
pub enum ShiftError {
    /// The velocity does not lie strictly between -1 and 1 (in units of the
    /// speed of light).
    Domain,
    /// The buffer is not a whole number of RGBA pixels, or does not have the
    /// stated width and height.
    Dimension,
    /// The stationary emitter matrix cannot be inverted.
    NumericDegeneracy,
}

} // verus!
