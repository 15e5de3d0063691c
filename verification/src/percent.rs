//! Percentages with two decimal places, held in fixed point as a whole
//! number of hundredths so that the document values (`0.02`, `100.0`, ...)
//! round-trip exactly.

use vstd::prelude::*;

verus! {

/// A non-negative percentage with a resolution of a hundredth of a percent:
/// `hundredths == 25` stands for `0.25`.
#[derive(Clone, Copy, Debug, PartialEq, Eq, Structural)]
pub struct Percent {
    pub hundredths: u32,
}

impl Percent {
    /// The percentage worth `hundredths / 100` percent.
    pub fn from_hundredths(hundredths: u32) -> (r: Percent)
        ensures
            r.hundredths == hundredths,
    {
        Percent { hundredths }
    }

    /// The percentage worth exactly `whole` percent.
    pub fn from_whole(whole: u32) -> (r: Percent)
        requires
            whole <= u32::MAX / 100,
        ensures
            r.hundredths == whole * 100,
    {
        Percent { hundredths: whole * 100 }
    }
}

} // verus!
