//! Real-valued quantities, held as IEEE 754 single-precision bit patterns.
//!
//! The verifier reasons about integers, so every quantity of the simulation
//! (energies, coordinates, headings, weights) is carried as the 32-bit pattern
//! of the number it stands for. This module defines on the patterns what can
//! be said of the numbers exactly: their order, and halving and doubling.
//! All other arithmetic is the business of the embedding program.

use vstd::prelude::*;

verus! {

/// Pattern of the sign bit.
pub const SIGN_BIT: u32 = 0x8000_0000;

/// Pattern of positive infinity; every larger magnitude is a NaN.
pub const INFINITY_BITS: u32 = 0x7F80_0000;

/// One step of the exponent field: patterns of normal numbers that differ
/// by it stand for numbers that differ by a factor of two.
pub const EXPONENT_STEP: u32 = 0x0080_0000;

/// Pattern of a full turn, `2π` rounded to single precision.
pub const TAU_BITS: u32 = 0x40C9_0FDB;

/// Pattern of `0.0`.
pub const ZERO_BITS: u32 = 0;

/// Pattern of `1.0`.
pub const ONE_BITS: u32 = 0x3F80_0000;

/// Pattern of `2.0`.
pub const TWO_BITS: u32 = 0x4000_0000;

/// A single-precision number, identified by its bit pattern.
#[derive(Clone, Copy, PartialEq, Eq, Structural, Debug)]
pub struct Scalar {
    pub bits: u32,
}

impl Scalar {
    /// The pattern with the sign bit cleared.
    pub open spec fn magnitude(self) -> int {
        if self.bits >= SIGN_BIT {
            self.bits - SIGN_BIT
        } else {
            self.bits as int
        }
    }

    /// Whether the sign bit is set.
    pub open spec fn sign(self) -> bool {
        self.bits >= SIGN_BIT
    }

    /// Whether the pattern encodes a NaN.
    pub open spec fn nan(self) -> bool {
        self.magnitude() > INFINITY_BITS
    }

    /// Position of the number on the number line: patterns of non-NaN values
    /// compare as their ranks do, and both zeros have rank 0.
    pub open spec fn rank(self) -> int {
        if self.sign() {
            -self.magnitude()
        } else {
            self.magnitude()
        }
    }

    /// `self < other` as numbers; false when either side is a NaN.
    pub open spec fn less(self, other: Scalar) -> bool {
        !self.nan() && !other.nan() && self.rank() < other.rank()
    }

    /// `self <= other` as numbers; false when either side is a NaN.
    pub open spec fn at_most(self, other: Scalar) -> bool {
        !self.nan() && !other.nan() && self.rank() <= other.rank()
    }

    /// `self < 0.0` as numbers.
    pub open spec fn negative(self) -> bool {
        self.less(Scalar { bits: ZERO_BITS })
    }

    /// The number with the given sign and magnitude pattern.
    pub open spec fn signed(sign: bool, magnitude: int) -> Scalar {
        Scalar {
            bits: if sign {
                (magnitude + SIGN_BIT) as u32
            } else {
                magnitude as u32
            },
        }
    }

    /// Half the number, rounded as the machine rounds: to the nearest
    /// pattern, and to the even one of two that are equally near. Where the
    /// exponent field is two or more nothing is rounded: the exponent drops
    /// by one. Infinities and NaN stay what they are.
    pub open spec fn halved(self) -> Scalar {
        let m = self.magnitude();
        if m >= INFINITY_BITS {
            self
        } else if m >= 2 * EXPONENT_STEP {
            Scalar::signed(self.sign(), m - EXPONENT_STEP)
        } else if m % 2 == 1 && (m / 2) % 2 == 1 {
            Scalar::signed(self.sign(), m / 2 + 1)
        } else {
            Scalar::signed(self.sign(), m / 2)
        }
    }

    /// The number added to itself, which is exact but for the overflow to
    /// infinity. Infinities and NaN stay what they are.
    pub open spec fn doubled(self) -> Scalar {
        let m = self.magnitude();
        if m >= INFINITY_BITS {
            self
        } else if m < EXPONENT_STEP {
            Scalar::signed(self.sign(), 2 * m)
        } else if m + EXPONENT_STEP >= INFINITY_BITS {
            Scalar::signed(self.sign(), INFINITY_BITS as int)
        } else {
            Scalar::signed(self.sign(), m + EXPONENT_STEP)
        }
    }

    pub fn from_bits(bits: u32) -> (s: Scalar)
        ensures
            s.bits == bits,
    {
        Scalar { bits }
    }

    pub fn to_bits(&self) -> (bits: u32)
        ensures
            bits == self.bits,
    {
        self.bits
    }

    pub fn zero() -> (s: Scalar)
        ensures
            s.bits == ZERO_BITS,
    {
        Scalar { bits: ZERO_BITS }
    }

    pub fn one() -> (s: Scalar)
        ensures
            s.bits == ONE_BITS,
    {
        Scalar { bits: ONE_BITS }
    }

    pub fn two() -> (s: Scalar)
        ensures
            s.bits == TWO_BITS,
    {
        Scalar { bits: TWO_BITS }
    }

    fn magnitude_bits(&self) -> (m: u32)
        ensures
            m == self.magnitude(),
    {
        if self.bits >= SIGN_BIT {
            self.bits - SIGN_BIT
        } else {
            self.bits
        }
    }

    pub fn is_nan(&self) -> (r: bool)
        ensures
            r == self.nan(),
    {
        self.magnitude_bits() > INFINITY_BITS
    }

    pub fn lt(&self, other: &Scalar) -> (r: bool)
        ensures
            r == self.less(*other),
    {
        if self.is_nan() || other.is_nan() {
            return false;
        }
        let a: u32 = self.magnitude_bits();
        let b: u32 = other.magnitude_bits();
        if self.bits >= SIGN_BIT {
            if other.bits >= SIGN_BIT {
                b < a
            } else {
                a > 0 || b > 0
            }
        } else {
            if other.bits >= SIGN_BIT {
                false
            } else {
                a < b
            }
        }
    }

    pub fn le(&self, other: &Scalar) -> (r: bool)
        ensures
            r == self.at_most(*other),
    {
        if self.is_nan() || other.is_nan() {
            return false;
        }
        !other.lt(self)
    }

    pub fn is_negative(&self) -> (r: bool)
        ensures
            r == self.negative(),
    {
        self.bits > SIGN_BIT && self.bits <= SIGN_BIT + INFINITY_BITS
    }

    fn with_magnitude(&self, magnitude: u32) -> (s: Scalar)
        requires
            magnitude < SIGN_BIT,
        ensures
            s == Scalar::signed(self.sign(), magnitude as int),
    {
        if self.bits >= SIGN_BIT {
            Scalar { bits: magnitude + SIGN_BIT }
        } else {
            Scalar { bits: magnitude }
        }
    }

    pub fn half(&self) -> (h: Scalar)
        ensures
            h == self.halved(),
    {
        let m: u32 = self.magnitude_bits();
        if m >= INFINITY_BITS {
            *self
        } else if m >= 2 * EXPONENT_STEP {
            self.with_magnitude(m - EXPONENT_STEP)
        } else if m % 2 == 1 && (m / 2) % 2 == 1 {
            self.with_magnitude(m / 2 + 1)
        } else {
            self.with_magnitude(m / 2)
        }
    }

    pub fn double(&self) -> (d: Scalar)
        ensures
            d == self.doubled(),
    {
        let m: u32 = self.magnitude_bits();
        if m >= INFINITY_BITS {
            *self
        } else if m < EXPONENT_STEP {
            self.with_magnitude(2 * m)
        } else if m >= INFINITY_BITS - EXPONENT_STEP {
            self.with_magnitude(INFINITY_BITS)
        } else {
            self.with_magnitude(m + EXPONENT_STEP)
        }
    }
}

/// Two halves make the whole: where halving does not round, the half added
/// to itself is the number again. Halving does not round where the exponent
/// field is two or more, nor on an even pattern below that.
pub proof fn lemma_halves_sum(x: Scalar)
    requires
        !x.nan(),
        x.magnitude() >= 2 * EXPONENT_STEP || x.magnitude() % 2 == 0,
    ensures
        x.halved().doubled() == x,
        x.halved().sign() == x.sign(),
        !x.halved().nan(),
{
}

/// Halving keeps a number on its side of one: the half of a number of two
/// or more is one or more.
pub proof fn lemma_half_of_two_or_more(x: Scalar)
    requires
        (Scalar { bits: TWO_BITS }).at_most(x),
    ensures
        (Scalar { bits: ONE_BITS }).at_most(x.halved()),
        !x.halved().negative(),
        x.halved().doubled() == x,
{
}

} // verus!
