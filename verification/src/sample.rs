use vstd::prelude::*;

verus! {

/// One track observation: a (speed, slope) pair of double-precision values,
/// each carried as its IEEE-754 binary64 bit pattern. The encoder never
/// interprets the numeric value, so the bit pattern is the whole story:
/// NaN and infinity pass through unchanged.
#[derive(Clone, Copy, PartialEq, Eq, Structural, Debug)]
pub struct TrackSample {
    /// Bit pattern of the speed value.
    pub speed_bits: u64,
    /// Bit pattern of the slope value.
    pub slope_bits: u64,
}

impl TrackSample {
    /// Builds a sample from the two bit patterns.
    pub fn new(speed_bits: u64, slope_bits: u64) -> (s: TrackSample)
        ensures
            s.speed_bits == speed_bits,
            s.slope_bits == slope_bits,
    {
        TrackSample { speed_bits, slope_bits }
    }
}

} // verus!
