//! Lengths in fixed point.
//!
//! Every length the engine handles is a whole number of thousandths of a CSS
//! pixel, held in a signed 64-bit integer.  Sums and differences saturate at
//! the ends of that range, so every operation is total and none can wrap.

use vstd::prelude::*;

verus! {

/// How many units make one CSS pixel.
pub const UNITS_PER_PIXEL: i64 = 1000;

/// The nearest representable number of units to `v`.
pub open spec fn clamp(v: int) -> int {
    if v < i64::MIN {
        i64::MIN as int
    } else if v > i64::MAX {
        i64::MAX as int
    } else {
        v
    }
}

/// Whether `v` units can be held without saturating.
pub open spec fn representable(v: int) -> bool {
    i64::MIN <= v <= i64::MAX
}

/// Half of `v`, rounded towards zero.
pub open spec fn half_of(v: int) -> int {
    if v >= 0 {
        v / 2
    } else {
        -((-v) / 2)
    }
}

/// A length, in thousandths of a CSS pixel.
#[derive(Clone, Copy, Debug, PartialEq, Eq, Structural)]
pub struct Px {
    pub units: i64,
}

impl View for Px {
    type V = int;

    open spec fn view(&self) -> int {
        self.units as int
    }
}

impl Default for Px {
    fn default() -> (r: Px)
        ensures
            r@ == 0,
    {
        Px { units: 0 }
    }
}

impl Px {
    /// The length of `v` units, saturated into range.
    pub open spec fn of(v: int) -> Px {
        Px { units: clamp(v) as i64 }
    }

    /// The sum of two lengths, saturated into range.
    pub open spec fn spec_plus(self, rhs: Px) -> Px {
        Px::of(self@ + rhs@)
    }

    /// The difference of two lengths, saturated into range.
    pub open spec fn spec_minus(self, rhs: Px) -> Px {
        Px::of(self@ - rhs@)
    }

    /// Half of a length, rounded towards zero.
    pub open spec fn spec_half(self) -> Px {
        Px::of(half_of(self@))
    }

    /// The zero length.
    pub fn zero() -> (r: Px)
        ensures
            r@ == 0,
    {
        Px { units: 0 }
    }

    /// A whole number of pixels.
    pub fn from_pixels(pixels: i32) -> (r: Px)
        ensures
            r@ == pixels * UNITS_PER_PIXEL,
    {
        let wide: i64 = pixels as i64;
        Px { units: wide * UNITS_PER_PIXEL }
    }

    /// The length of `units` thousandths of a pixel.
    pub fn from_units(units: i64) -> (r: Px)
        ensures
            r@ == units,
    {
        Px { units }
    }

    /// The length of `units` thousandths of a pixel, saturated into range.
    pub fn from_wide(units: i128) -> (r: Px)
        ensures
            r == Px::of(units as int),
    {
        Px { units: narrow(units) }
    }

    /// The saturating sum of two lengths.
    #[verifier::when_used_as_spec(spec_plus)]
    pub fn plus(self, rhs: Px) -> (r: Px)
        ensures
            r == self.spec_plus(rhs),
    {
        let wide: i128 = self.units as i128 + rhs.units as i128;
        Px { units: narrow(wide) }
    }

    /// The saturating difference of two lengths.
    #[verifier::when_used_as_spec(spec_minus)]
    pub fn minus(self, rhs: Px) -> (r: Px)
        ensures
            r == self.spec_minus(rhs),
    {
        let wide: i128 = self.units as i128 - rhs.units as i128;
        Px { units: narrow(wide) }
    }

    /// Half of a length, rounded towards zero.
    #[verifier::when_used_as_spec(spec_half)]
    pub fn half(self) -> (r: Px)
        ensures
            r == self.spec_half(),
    {
        if self.units >= 0 {
            Px { units: self.units / 2 }
        } else if self.units == i64::MIN {
            Px { units: i64::MIN / 2 }
        } else {
            let positive: i64 = -self.units;
            Px { units: -(positive / 2) }
        }
    }

    /// Whether this length is strictly greater than `rhs`.
    pub fn exceeds(self, rhs: Px) -> (r: bool)
        ensures
            r == (self@ > rhs@),
    {
        self.units > rhs.units
    }

    /// Whether this length is zero or more.
    pub fn is_non_negative(self) -> (r: bool)
        ensures
            r == (self@ >= 0),
    {
        self.units >= 0
    }
}

/// Brings a wide intermediate result back into range.
fn narrow(wide: i128) -> (r: i64)
    ensures
        r == clamp(wide as int),
{
    if wide < i64::MIN as i128 {
        i64::MIN
    } else if wide > i64::MAX as i128 {
        i64::MAX
    } else {
        wide as i64
    }
}

} // verus!
