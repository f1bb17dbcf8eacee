//! What the checked entry points report.
use vstd::prelude::*;

verus! {

/// Why a checked operation refused its input.
#[derive(Clone, Copy, Debug, PartialEq, Eq, Structural)]
pub enum SimdError {
    /// A slice holds fewer elements than the vector has lanes.
    SliceTooShort,
    /// A lane index is not below the lane count.
    LaneOutOfRange,
    /// A lane of an integer vector is neither 0 nor -1, so the vector is no mask.
    InvalidMaskLane,
    /// An index table names a source lane that its input does not have.
    SourceLaneOutOfRange,
    /// An array of bytes is not as long as the bits of a mask need it to be.
    BitmaskLength,
    /// A lane of a divisor is zero.
    DivisionByZero,
    /// A lane of a vector of shift amounts is negative or not below the width
    /// of the element kind.
    ShiftOutOfRange,
    /// A lane of the lower bound of a clamp lies above that of the upper bound.
    MinAboveMax,
}

} // verus!
