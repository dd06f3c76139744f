//! Errors of the block codec.
use vstd::prelude::*;

verus! {

/// The 12-bit coefficients of a trim pass, in wire order.
#[derive(Debug, Clone, Copy, PartialEq, Eq, Structural)]
pub enum Coefficient {
    TrimSlope,
    TrimOffset,
    TrimPower,
    TrimChromaWeight,
    TrimSaturationGain,
    MsWeight,
    TargetMidContrast,
    ClipTrim,
}

#[derive(Debug, Clone, Copy, PartialEq, Eq, Structural)]
pub enum BlockError {
    /// A coefficient lies above the largest value its field can hold.
    OutOfRange { field: Coefficient, value: u16, bound: u16 },
    /// The cursor holds fewer bits than the block needs.
    Truncated { needed: u64, available: u64 },
    /// No block kind of this codec has the given level.
    UnsupportedLevel { level: u8 },
}

} // verus!
