//! Lengths held exactly as a whole number of nanometres, the units they are
//! written in, and exact quotients of lengths.
use vstd::prelude::*;

verus! {

/// Nanometres in one metre.
pub const NM_PER_METER: i64 = 1_000_000_000;

/// Nanometres in one centimetre.
pub const NM_PER_CENTIMETER: i64 = 10_000_000;

/// Nanometres in one millimetre.
pub const NM_PER_MILLIMETER: i64 = 1_000_000;

/// Nanometres in one inch (25.4 mm).
pub const NM_PER_INCH: i64 = 25_400_000;

/// A unit that a length may be written in.
#[derive(Clone, Copy, Debug, PartialEq, Eq, Structural)]
pub enum Unit {
    Meter,
    Centimeter,
    Millimeter,
    Inch,
}

/// How many nanometres one of `u` is.
pub open spec fn nm_per(u: Unit) -> int {
    match u {
        Unit::Meter => NM_PER_METER as int,
        Unit::Centimeter => NM_PER_CENTIMETER as int,
        Unit::Millimeter => NM_PER_MILLIMETER as int,
        Unit::Inch => NM_PER_INCH as int,
    }
}

impl Unit {
    /// The conversion factor of this unit, in nanometres per unit.
    pub fn nanometers_per_unit(self) -> (r: i64)
        ensures
            r == nm_per(self),
            r > 0,
    {
        match self {
            Unit::Meter => NM_PER_METER,
            Unit::Centimeter => NM_PER_CENTIMETER,
            Unit::Millimeter => NM_PER_MILLIMETER,
            Unit::Inch => NM_PER_INCH,
        }
    }
}

/// An exact quotient `num / den` of two integers. A zero `den` stands for a
/// quotient that has no finite value.
#[derive(Clone, Copy, Debug, PartialEq, Eq, Structural)]
pub struct Ratio {
    pub num: i128,
    pub den: i128,
}

/// A physical length, always held in one canonical unit: nanometres.
#[derive(Clone, Copy, Debug, PartialEq, Eq, Structural)]
pub struct Length {
    pub nanometers: i64,
}

impl View for Length {
    type V = int;

    open spec fn view(&self) -> int {
        self.nanometers as int
    }
}

/// The shorter of two lengths; the first one on a tie.
pub open spec fn shorter(a: Length, b: Length) -> Length {
    if a@ <= b@ {
        a
    } else {
        b
    }
}

impl Length {
    /// A length of `nanometers` nanometres.
    pub fn from_nanometers(nanometers: i64) -> (r: Length)
        ensures
            r@ == nanometers,
    {
        Length { nanometers }
    }

    /// A length of a whole number of metres.
    pub fn from_meters(meters: i64) -> (r: Length)
        requires
            i64::MIN <= meters * NM_PER_METER <= i64::MAX,
        ensures
            r@ == meters * NM_PER_METER,
    {
        Length { nanometers: meters * NM_PER_METER }
    }

    /// The length in nanometres.
    pub fn to_nanometers(self) -> (r: i64)
        ensures
            r == self@,
    {
        self.nanometers
    }

    /// The shorter of `self` and `other`.
    pub fn min(self, other: Length) -> (r: Length)
        ensures
            r == shorter(self, other),
            r@ <= self@ && r@ <= other@,
    {
        if self.nanometers <= other.nanometers {
            self
        } else {
            other
        }
    }

    /// The length counted in `unit`: nanometres over nanometres per unit.
    pub fn to_unit(self, unit: Unit) -> (r: Ratio)
        ensures
            r.num == self@,
            r.den == nm_per(unit),
    {
        Ratio { num: self.nanometers as i128, den: unit.nanometers_per_unit() as i128 }
    }

    /// The length counted in metres.
    pub fn to_meters(self) -> (r: Ratio)
        ensures
            r.num == self@,
            r.den == NM_PER_METER,
    {
        self.to_unit(Unit::Meter)
    }

    /// The length counted in centimetres.
    pub fn to_centimeters(self) -> (r: Ratio)
        ensures
            r.num == self@,
            r.den == NM_PER_CENTIMETER,
    {
        self.to_unit(Unit::Centimeter)
    }

    /// The length scaled by `factor`.
    pub fn mul(self, factor: i64) -> (r: Length)
        requires
            i64::MIN <= self@ * factor <= i64::MAX,
        ensures
            r@ == self@ * factor,
    {
        Length { nanometers: self.nanometers * factor }
    }

    /// The dimensionless ratio of `self` to `other`. A zero-length `other`
    /// gives a zero denominator, which is not guarded against.
    pub fn div(self, other: Length) -> (r: Ratio)
        ensures
            r.num == self@,
            r.den == other@,
    {
        Ratio { num: self.nanometers as i128, den: other.nanometers as i128 }
    }
}

/// Which of two lengths is the shorter does not depend on the order in which
/// they are given.
pub proof fn lemma_min_commutative(a: Length, b: Length)
    ensures
        shorter(a, b) == shorter(b, a),
        shorter(a, b)@ <= a@ && shorter(a, b)@ <= b@,
        a@ <= b@ ==> shorter(a, b) == a,
{
}

} // verus!
