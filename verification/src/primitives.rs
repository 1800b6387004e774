//! Small value types shared by the header and the decoders.
use vstd::prelude::*;

verus! {

/// A geographic angle in degrees, minutes and whole seconds.  The three
/// magnitudes are never negative: the hemisphere alone carries the sign.
#[derive(Debug, Clone, Copy, PartialEq, Eq, Structural)]
pub struct Angle {
    /// Degrees.
    pub deg: u16,
    /// Minutes.
    pub min: u8,
    /// Seconds.  The format writes whole seconds only.
    pub sec: u32,
    /// True in the southern and the western hemisphere.
    pub negative: bool,
}

impl Angle {
    /// An angle from its parts.
    pub fn new(deg: u16, min: u8, sec: u32, negative: bool) -> (r: Angle)
        ensures
            r == (Angle { deg, min, sec, negative }),
    {
        Angle { deg, min, sec, negative }
    }
}

/// One value for each of the two axes of the grid.
#[derive(Debug, Clone, Copy, PartialEq, Eq)]
pub struct AxisElement<T> {
    /// The value along the latitude axis.
    pub lat: T,
    /// The value along the longitude axis.
    pub lon: T,
}

impl<T> AxisElement<T> {
    /// A pair from its latitude and longitude values, in this order.
    pub fn new(lat: T, lon: T) -> (r: AxisElement<T>)
        ensures
            r == (AxisElement { lat, lon }),
    {
        AxisElement { lat, lon }
    }
}

} // verus!
