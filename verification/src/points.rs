use vstd::prelude::*;

verus! {

/// Largest representable point quantity, in half-point units
/// (ten million whole points).  Keeping every point value below this
/// bound lets percentages be computed without overflow.
pub const MAX_HALF_UNITS: u32 = 20_000_000;

/// A point quantity with half-point granularity, stored as a count of
/// half-point units: `Points { half_units: 5 }` is two and a half points.
/// This makes half-point arithmetic exact without floating point.
#[derive(Debug, Clone, Copy, PartialEq, Eq, Structural)]
pub struct Points {
    pub half_units: u32,
}

impl Points {
    /// The quantity in half-point units, as a mathematical integer.
    pub open spec fn halves(&self) -> int {
        self.half_units as int
    }

    /// Whether the quantity lies in the representable range of the engine.
    pub open spec fn bounded(&self) -> bool {
        self.halves() <= MAX_HALF_UNITS
    }

    pub fn zero() -> (r: Points)
        ensures
            r.halves() == 0,
    {
        Points { half_units: 0 }
    }

    /// A whole-point quantity.
    pub fn from_whole(points: u32) -> (r: Points)
        requires
            2 * points <= u32::MAX,
        ensures
            r.halves() == 2 * points,
    {
        Points { half_units: 2 * points }
    }

    /// A quantity given directly in half-point units.
    pub fn from_halves(half_units: u32) -> (r: Points)
        ensures
            r.halves() == half_units,
    {
        Points { half_units }
    }

    pub fn half_units(&self) -> (r: u32)
        ensures
            r == self.halves(),
    {
        self.half_units
    }

    /// True when the quantity is a whole number of points.
    pub fn is_whole(&self) -> (r: bool)
        ensures
            r == (self.halves() % 2 == 0),
    {
        self.half_units % 2 == 0
    }

    /// The quantity rounded to the nearest whole point, halves rounding up.
    pub fn round_to_whole(&self) -> (r: Points)
        requires
            self.halves() < u32::MAX,
        ensures
            r.halves() == self.halves() + self.halves() % 2,
            r.halves() % 2 == 0,
    {
        Points { half_units: self.half_units + self.half_units % 2 }
    }
}

} // verus!
