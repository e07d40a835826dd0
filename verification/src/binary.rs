//! Single- and double-precision numbers, held as interchange bit patterns.

use crate::float::{Datum, Format};
use vstd::arithmetic::div_mod::*;
use vstd::arithmetic::power2::*;
use vstd::prelude::*;

verus! {

/// A single-precision number.
///
/// Equality (`==`) is identity of the bit patterns; numbers are compared with
/// [`Binary32::lt`] and [`Binary32::le`].
#[derive(Clone, Copy, Debug, PartialEq, Eq, Structural)]
pub struct Binary32 {
    /// The interchange bit pattern.
    pub bits: u32,
}

impl Binary32 {
    /// Sign and magnitude of the pattern.
    pub open spec fn datum(self) -> Datum {
        Datum {
            negative: self.bits >= 0x8000_0000,
            magnitude: if self.bits >= 0x8000_0000 {
                (self.bits - 0x8000_0000) as u64
            } else {
                self.bits as u64
            },
        }
    }

    /// The pattern of a sign and a magnitude.
    pub open spec fn of(datum: Datum) -> Binary32 {
        Binary32 {
            bits: if datum.negative {
                (datum.magnitude + 0x8000_0000) as u32
            } else {
                datum.magnitude as u32
            },
        }
    }

    fn unpack(self) -> (datum: Datum)
        ensures
            datum == self.datum(),
            datum.magnitude < 0x8000_0000,
    {
        if self.bits >= 0x8000_0000 {
            Datum { negative: true, magnitude: (self.bits - 0x8000_0000) as u64 }
        } else {
            Datum { negative: false, magnitude: self.bits as u64 }
        }
    }

    fn pack(datum: Datum) -> (number: Binary32)
        requires
            datum.magnitude < 0x8000_0000,
        ensures
            number == Binary32::of(datum),
    {
        if datum.negative {
            Binary32 { bits: datum.magnitude as u32 + 0x8000_0000 }
        } else {
            Binary32 { bits: datum.magnitude as u32 }
        }
    }

    /// The number with this bit pattern.
    pub open spec fn spec_from_bits(bits: u32) -> Binary32 {
        Binary32 { bits }
    }

    /// The number with this bit pattern.
    #[verifier::when_used_as_spec(spec_from_bits)]
    pub fn from_bits(bits: u32) -> (number: Binary32)
        ensures
            number == Binary32::spec_from_bits(bits),
    {
        Binary32 { bits }
    }

    /// Positive zero.
    pub open spec fn spec_zero() -> Binary32 {
        Binary32 { bits: 0 }
    }

    /// Positive zero.
    #[verifier::when_used_as_spec(spec_zero)]
    pub fn zero() -> (number: Binary32)
        ensures
            number == Binary32::spec_zero(),
    {
        Binary32 { bits: 0 }
    }

    /// One.
    pub open spec fn spec_one() -> Binary32 {
        Binary32 { bits: 0x3f80_0000 }
    }

    /// One.
    #[verifier::when_used_as_spec(spec_one)]
    pub fn one() -> (number: Binary32)
        ensures
            number == Binary32::spec_one(),
    {
        Binary32 { bits: 0x3f80_0000 }
    }

    /// Whether this is a number other than an infinity.
    pub open spec fn spec_is_finite(self) -> bool {
        self.datum().finite(Format::Binary32)
    }

    /// Whether this is a number other than an infinity.
    #[verifier::when_used_as_spec(spec_is_finite)]
    pub fn is_finite(self) -> (result: bool)
        ensures
            result == self.spec_is_finite(),
    {
        self.unpack().magnitude < 0x7f80_0000
    }

    /// Whether this is not a number.
    pub open spec fn spec_is_nan(self) -> bool {
        self.datum().nan(Format::Binary32)
    }

    /// Whether this is not a number.
    #[verifier::when_used_as_spec(spec_is_nan)]
    pub fn is_nan(self) -> (result: bool)
        ensures
            result == self.spec_is_nan(),
    {
        self.unpack().magnitude > 0x7f80_0000
    }

    /// Numerical `<`.
    pub open spec fn spec_lt(self, other: Binary32) -> bool {
        Datum::below(Format::Binary32, self.datum(), other.datum())
    }

    /// Numerical `<`.
    #[verifier::when_used_as_spec(spec_lt)]
    pub fn lt(self, other: Binary32) -> (result: bool)
        ensures
            result == self.spec_lt(other),
    {
        Datum::less(Format::Binary32, self.unpack(), other.unpack())
    }

    /// Numerical `<=`.
    pub open spec fn spec_le(self, other: Binary32) -> bool {
        Datum::at_most(Format::Binary32, self.datum(), other.datum())
    }

    /// Numerical `<=`.
    #[verifier::when_used_as_spec(spec_le)]
    pub fn le(self, other: Binary32) -> (result: bool)
        ensures
            result == self.spec_le(other),
    {
        Datum::less_or_equal(Format::Binary32, self.unpack(), other.unpack())
    }

    /// Numerical equality: both zeros are one number, and not-a-number equals
    /// nothing.
    pub open spec fn spec_equals(self, other: Binary32) -> bool {
        self.spec_le(other) && other.spec_le(self)
    }

    /// Numerical equality.
    #[verifier::when_used_as_spec(spec_equals)]
    pub fn equals(self, other: Binary32) -> (result: bool)
        ensures
            result == self.spec_equals(other),
    {
        self.le(other) && other.le(self)
    }

    /// Numerical equality of numbers that may be missing.
    pub open spec fn spec_same(one: Option<Binary32>, other: Option<Binary32>) -> bool {
        match (one, other) {
            (Some(one), Some(other)) => one.spec_equals(other),
            (None, None) => true,
            _ => false,
        }
    }

    /// Numerical equality of numbers that may be missing.
    #[verifier::when_used_as_spec(spec_same)]
    pub fn same(one: Option<Binary32>, other: Option<Binary32>) -> (result: bool)
        ensures
            result == Binary32::spec_same(one, other),
    {
        match (one, other) {
            (Some(one), Some(other)) => one.equals(other),
            (None, None) => true,
            _ => false,
        }
    }

    /// The number with its sign turned.
    pub open spec fn spec_neg(self) -> Binary32 {
        Binary32::of(Datum { negative: !self.datum().negative, ..self.datum() })
    }

    /// The number with its sign turned.
    #[verifier::when_used_as_spec(spec_neg)]
    pub fn neg(self) -> (result: Binary32)
        ensures
            result == self.spec_neg(),
    {
        let datum: Datum = self.unpack();
        Binary32::pack(Datum { negative: !datum.negative, magnitude: datum.magnitude })
    }

    /// The absolute value.
    pub open spec fn spec_abs(self) -> Binary32 {
        Binary32::of(Datum { negative: false, ..self.datum() })
    }

    /// The absolute value.
    #[verifier::when_used_as_spec(spec_abs)]
    pub fn abs(self) -> (result: Binary32)
        ensures
            result == self.spec_abs(),
    {
        let datum: Datum = self.unpack();
        Binary32::pack(Datum { negative: false, magnitude: datum.magnitude })
    }

    /// The larger of two numbers; a number when one of the two is not one.
    pub open spec fn spec_max(self, other: Binary32) -> Binary32 {
        if self.spec_is_nan() || self.spec_lt(other) {
            other
        } else {
            self
        }
    }

    /// The larger of two numbers; a number when one of the two is not one.
    #[verifier::when_used_as_spec(spec_max)]
    pub fn max(self, other: Binary32) -> (result: Binary32)
        ensures
            result == self.spec_max(other),
    {
        if self.is_nan() || self.lt(other) {
            other
        } else {
            self
        }
    }

    /// The smaller of two numbers; a number when one of the two is not one.
    pub open spec fn spec_min(self, other: Binary32) -> Binary32 {
        if self.spec_is_nan() || other.spec_lt(self) {
            other
        } else {
            self
        }
    }

    /// The smaller of two numbers; a number when one of the two is not one.
    #[verifier::when_used_as_spec(spec_min)]
    pub fn min(self, other: Binary32) -> (result: Binary32)
        ensures
            result == self.spec_min(other),
    {
        if self.is_nan() || other.lt(self) {
            other
        } else {
            self
        }
    }

    /// The number held between two bounds; not-a-number stays.
    pub open spec fn spec_clamp(self, low: Binary32, high: Binary32) -> Binary32 {
        if self.spec_lt(low) {
            low
        } else if high.spec_lt(self) {
            high
        } else {
            self
        }
    }

    /// The number held between two bounds; not-a-number stays.
    #[verifier::when_used_as_spec(spec_clamp)]
    pub fn clamp(self, low: Binary32, high: Binary32) -> (result: Binary32)
        ensures
            result == self.spec_clamp(low, high),
    {
        if self.lt(low) {
            low
        } else if high.lt(self) {
            high
        } else {
            self
        }
    }

    /// The rounded sum.
    #[verifier::opaque]
    pub open spec fn spec_add(self, other: Binary32) -> Binary32 {
        Binary32::of(Datum::sum(Format::Binary32, self.datum(), other.datum()))
    }

    /// The rounded sum.
    #[verifier::when_used_as_spec(spec_add)]
    pub fn add(self, other: Binary32) -> (result: Binary32)
        ensures
            result == self.spec_add(other),
    {
        proof {
            reveal(Binary32::spec_add);
        }
        Binary32::pack(Datum::plus(Format::Binary32, self.unpack(), other.unpack()))
    }

    /// The rounded difference.
    pub open spec fn spec_sub(self, other: Binary32) -> Binary32 {
        self.spec_add(other.spec_neg())
    }

    /// The rounded difference.
    #[verifier::when_used_as_spec(spec_sub)]
    pub fn sub(self, other: Binary32) -> (result: Binary32)
        ensures
            result == self.spec_sub(other),
    {
        self.add(other.neg())
    }

    /// The rounded product.
    #[verifier::opaque]
    pub open spec fn spec_mul(self, other: Binary32) -> Binary32 {
        Binary32::of(Datum::product(Format::Binary32, self.datum(), other.datum()))
    }

    /// The rounded product.
    #[verifier::when_used_as_spec(spec_mul)]
    pub fn mul(self, other: Binary32) -> (result: Binary32)
        ensures
            result == self.spec_mul(other),
    {
        proof {
            reveal(Binary32::spec_mul);
        }
        Binary32::pack(Datum::multiply(Format::Binary32, self.unpack(), other.unpack()))
    }

    /// The rounded quotient.
    #[verifier::opaque]
    pub open spec fn spec_div(self, other: Binary32) -> Binary32 {
        Binary32::of(Datum::quotient(Format::Binary32, self.datum(), other.datum()))
    }

    /// The rounded quotient.
    #[verifier::when_used_as_spec(spec_div)]
    pub fn div(self, other: Binary32) -> (result: Binary32)
        ensures
            result == self.spec_div(other),
    {
        proof {
            reveal(Binary32::spec_div);
        }
        Binary32::pack(Datum::divide(Format::Binary32, self.unpack(), other.unpack()))
    }

    /// The remainder brought to the range from zero to the divisor.
    #[verifier::opaque]
    pub open spec fn spec_rem_euclid(self, other: Binary32) -> Binary32 {
        let remainder = Binary32::of(Datum::remainder(Format::Binary32, self.datum(), other.datum()));
        if remainder.spec_lt(Binary32::spec_zero()) {
            remainder.spec_add(other.spec_abs())
        } else {
            remainder
        }
    }

    /// The remainder brought to the range from zero to the divisor.
    #[verifier::when_used_as_spec(spec_rem_euclid)]
    pub fn rem_euclid(self, other: Binary32) -> (result: Binary32)
        ensures
            result == self.spec_rem_euclid(other),
    {
        proof {
            reveal(Binary32::spec_rem_euclid);
        }
        let remainder: Binary32 = Binary32::pack(Datum::modulo(Format::Binary32, self.unpack(), other.unpack()));
        if remainder.lt(Binary32::zero()) {
            remainder.add(other.abs())
        } else {
            remainder
        }
    }

    /// The number nearest to a natural number.
    #[verifier::opaque]
    pub open spec fn spec_from_whole(whole: u64) -> Binary32 {
        Binary32::of(Datum::integer(Format::Binary32, whole as int, false))
    }

    /// The number nearest to a natural number.
    #[verifier::when_used_as_spec(spec_from_whole)]
    pub fn from_whole(whole: u64) -> (result: Binary32)
        ensures
            result == Binary32::spec_from_whole(whole),
    {
        proof {
            reveal(Binary32::spec_from_whole);
        }
        Binary32::pack(Datum::from_whole(Format::Binary32, false, whole))
    }

    /// The same number in double precision.
    #[verifier::opaque]
    pub open spec fn spec_to_double(self) -> Binary64 {
        Binary64::of(self.datum().widened())
    }

    /// The same number in double precision.
    #[verifier::when_used_as_spec(spec_to_double)]
    pub fn to_double(self) -> (result: Binary64)
        ensures
            result == self.spec_to_double(),
    {
        proof {
            reveal(Binary32::spec_to_double);
        }
        Binary64::pack(self.unpack().widen())
    }
}

/// A double-precision number.
///
/// Equality (`==`) is identity of the bit patterns; numbers are compared with
/// [`Binary64::lt`] and [`Binary64::le`].
#[derive(Clone, Copy, Debug, PartialEq, Eq, Structural)]
pub struct Binary64 {
    /// The interchange bit pattern.
    pub bits: u64,
}

impl Binary64 {
    /// Sign and magnitude of the pattern.
    pub open spec fn datum(self) -> Datum {
        Datum {
            negative: self.bits >= 0x8000_0000_0000_0000,
            magnitude: if self.bits >= 0x8000_0000_0000_0000 {
                (self.bits - 0x8000_0000_0000_0000) as u64
            } else {
                self.bits as u64
            },
        }
    }

    /// The pattern of a sign and a magnitude.
    pub open spec fn of(datum: Datum) -> Binary64 {
        Binary64 {
            bits: if datum.negative {
                (datum.magnitude + 0x8000_0000_0000_0000) as u64
            } else {
                datum.magnitude as u64
            },
        }
    }

    fn unpack(self) -> (datum: Datum)
        ensures
            datum == self.datum(),
            datum.magnitude < 0x8000_0000_0000_0000,
    {
        if self.bits >= 0x8000_0000_0000_0000 {
            Datum { negative: true, magnitude: (self.bits - 0x8000_0000_0000_0000) as u64 }
        } else {
            Datum { negative: false, magnitude: self.bits as u64 }
        }
    }

    fn pack(datum: Datum) -> (number: Binary64)
        requires
            datum.magnitude < 0x8000_0000_0000_0000,
        ensures
            number == Binary64::of(datum),
    {
        if datum.negative {
            Binary64 { bits: datum.magnitude as u64 + 0x8000_0000_0000_0000 }
        } else {
            Binary64 { bits: datum.magnitude as u64 }
        }
    }

    /// The number with this bit pattern.
    pub open spec fn spec_from_bits(bits: u64) -> Binary64 {
        Binary64 { bits }
    }

    /// The number with this bit pattern.
    #[verifier::when_used_as_spec(spec_from_bits)]
    pub fn from_bits(bits: u64) -> (number: Binary64)
        ensures
            number == Binary64::spec_from_bits(bits),
    {
        Binary64 { bits }
    }

    /// Positive zero.
    pub open spec fn spec_zero() -> Binary64 {
        Binary64 { bits: 0 }
    }

    /// Positive zero.
    #[verifier::when_used_as_spec(spec_zero)]
    pub fn zero() -> (number: Binary64)
        ensures
            number == Binary64::spec_zero(),
    {
        Binary64 { bits: 0 }
    }

    /// One.
    pub open spec fn spec_one() -> Binary64 {
        Binary64 { bits: 0x3ff0_0000_0000_0000 }
    }

    /// One.
    #[verifier::when_used_as_spec(spec_one)]
    pub fn one() -> (number: Binary64)
        ensures
            number == Binary64::spec_one(),
    {
        Binary64 { bits: 0x3ff0_0000_0000_0000 }
    }

    /// Whether this is a number other than an infinity.
    pub open spec fn spec_is_finite(self) -> bool {
        self.datum().finite(Format::Binary64)
    }

    /// Whether this is a number other than an infinity.
    #[verifier::when_used_as_spec(spec_is_finite)]
    pub fn is_finite(self) -> (result: bool)
        ensures
            result == self.spec_is_finite(),
    {
        self.unpack().magnitude < 0x7ff0_0000_0000_0000
    }

    /// Whether this is not a number.
    pub open spec fn spec_is_nan(self) -> bool {
        self.datum().nan(Format::Binary64)
    }

    /// Whether this is not a number.
    #[verifier::when_used_as_spec(spec_is_nan)]
    pub fn is_nan(self) -> (result: bool)
        ensures
            result == self.spec_is_nan(),
    {
        self.unpack().magnitude > 0x7ff0_0000_0000_0000
    }

    /// Numerical `<`.
    pub open spec fn spec_lt(self, other: Binary64) -> bool {
        Datum::below(Format::Binary64, self.datum(), other.datum())
    }

    /// Numerical `<`.
    #[verifier::when_used_as_spec(spec_lt)]
    pub fn lt(self, other: Binary64) -> (result: bool)
        ensures
            result == self.spec_lt(other),
    {
        Datum::less(Format::Binary64, self.unpack(), other.unpack())
    }

    /// Numerical `<=`.
    pub open spec fn spec_le(self, other: Binary64) -> bool {
        Datum::at_most(Format::Binary64, self.datum(), other.datum())
    }

    /// Numerical `<=`.
    #[verifier::when_used_as_spec(spec_le)]
    pub fn le(self, other: Binary64) -> (result: bool)
        ensures
            result == self.spec_le(other),
    {
        Datum::less_or_equal(Format::Binary64, self.unpack(), other.unpack())
    }

    /// Numerical equality: both zeros are one number, and not-a-number equals
    /// nothing.
    pub open spec fn spec_equals(self, other: Binary64) -> bool {
        self.spec_le(other) && other.spec_le(self)
    }

    /// Numerical equality.
    #[verifier::when_used_as_spec(spec_equals)]
    pub fn equals(self, other: Binary64) -> (result: bool)
        ensures
            result == self.spec_equals(other),
    {
        self.le(other) && other.le(self)
    }

    /// Numerical equality of numbers that may be missing.
    pub open spec fn spec_same(one: Option<Binary64>, other: Option<Binary64>) -> bool {
        match (one, other) {
            (Some(one), Some(other)) => one.spec_equals(other),
            (None, None) => true,
            _ => false,
        }
    }

    /// Numerical equality of numbers that may be missing.
    #[verifier::when_used_as_spec(spec_same)]
    pub fn same(one: Option<Binary64>, other: Option<Binary64>) -> (result: bool)
        ensures
            result == Binary64::spec_same(one, other),
    {
        match (one, other) {
            (Some(one), Some(other)) => one.equals(other),
            (None, None) => true,
            _ => false,
        }
    }

    /// The number with its sign turned.
    pub open spec fn spec_neg(self) -> Binary64 {
        Binary64::of(Datum { negative: !self.datum().negative, ..self.datum() })
    }

    /// The number with its sign turned.
    #[verifier::when_used_as_spec(spec_neg)]
    pub fn neg(self) -> (result: Binary64)
        ensures
            result == self.spec_neg(),
    {
        let datum: Datum = self.unpack();
        Binary64::pack(Datum { negative: !datum.negative, magnitude: datum.magnitude })
    }

    /// The absolute value.
    pub open spec fn spec_abs(self) -> Binary64 {
        Binary64::of(Datum { negative: false, ..self.datum() })
    }

    /// The absolute value.
    #[verifier::when_used_as_spec(spec_abs)]
    pub fn abs(self) -> (result: Binary64)
        ensures
            result == self.spec_abs(),
    {
        let datum: Datum = self.unpack();
        Binary64::pack(Datum { negative: false, magnitude: datum.magnitude })
    }

    /// The larger of two numbers; a number when one of the two is not one.
    pub open spec fn spec_max(self, other: Binary64) -> Binary64 {
        if self.spec_is_nan() || self.spec_lt(other) {
            other
        } else {
            self
        }
    }

    /// The larger of two numbers; a number when one of the two is not one.
    #[verifier::when_used_as_spec(spec_max)]
    pub fn max(self, other: Binary64) -> (result: Binary64)
        ensures
            result == self.spec_max(other),
    {
        if self.is_nan() || self.lt(other) {
            other
        } else {
            self
        }
    }

    /// The smaller of two numbers; a number when one of the two is not one.
    pub open spec fn spec_min(self, other: Binary64) -> Binary64 {
        if self.spec_is_nan() || other.spec_lt(self) {
            other
        } else {
            self
        }
    }

    /// The smaller of two numbers; a number when one of the two is not one.
    #[verifier::when_used_as_spec(spec_min)]
    pub fn min(self, other: Binary64) -> (result: Binary64)
        ensures
            result == self.spec_min(other),
    {
        if self.is_nan() || other.lt(self) {
            other
        } else {
            self
        }
    }

    /// The number held between two bounds; not-a-number stays.
    pub open spec fn spec_clamp(self, low: Binary64, high: Binary64) -> Binary64 {
        if self.spec_lt(low) {
            low
        } else if high.spec_lt(self) {
            high
        } else {
            self
        }
    }

    /// The number held between two bounds; not-a-number stays.
    #[verifier::when_used_as_spec(spec_clamp)]
    pub fn clamp(self, low: Binary64, high: Binary64) -> (result: Binary64)
        ensures
            result == self.spec_clamp(low, high),
    {
        if self.lt(low) {
            low
        } else if high.lt(self) {
            high
        } else {
            self
        }
    }

    /// The rounded sum.
    #[verifier::opaque]
    pub open spec fn spec_add(self, other: Binary64) -> Binary64 {
        Binary64::of(Datum::sum(Format::Binary64, self.datum(), other.datum()))
    }

    /// The rounded sum.
    #[verifier::when_used_as_spec(spec_add)]
    pub fn add(self, other: Binary64) -> (result: Binary64)
        ensures
            result == self.spec_add(other),
    {
        proof {
            reveal(Binary64::spec_add);
        }
        Binary64::pack(Datum::plus(Format::Binary64, self.unpack(), other.unpack()))
    }

    /// The rounded difference.
    pub open spec fn spec_sub(self, other: Binary64) -> Binary64 {
        self.spec_add(other.spec_neg())
    }

    /// The rounded difference.
    #[verifier::when_used_as_spec(spec_sub)]
    pub fn sub(self, other: Binary64) -> (result: Binary64)
        ensures
            result == self.spec_sub(other),
    {
        self.add(other.neg())
    }

    /// The rounded product.
    #[verifier::opaque]
    pub open spec fn spec_mul(self, other: Binary64) -> Binary64 {
        Binary64::of(Datum::product(Format::Binary64, self.datum(), other.datum()))
    }

    /// The rounded product.
    #[verifier::when_used_as_spec(spec_mul)]
    pub fn mul(self, other: Binary64) -> (result: Binary64)
        ensures
            result == self.spec_mul(other),
    {
        proof {
            reveal(Binary64::spec_mul);
        }
        Binary64::pack(Datum::multiply(Format::Binary64, self.unpack(), other.unpack()))
    }

    /// The rounded quotient.
    #[verifier::opaque]
    pub open spec fn spec_div(self, other: Binary64) -> Binary64 {
        Binary64::of(Datum::quotient(Format::Binary64, self.datum(), other.datum()))
    }

    /// The rounded quotient.
    #[verifier::when_used_as_spec(spec_div)]
    pub fn div(self, other: Binary64) -> (result: Binary64)
        ensures
            result == self.spec_div(other),
    {
        proof {
            reveal(Binary64::spec_div);
        }
        Binary64::pack(Datum::divide(Format::Binary64, self.unpack(), other.unpack()))
    }

    /// The remainder brought to the range from zero to the divisor.
    #[verifier::opaque]
    pub open spec fn spec_rem_euclid(self, other: Binary64) -> Binary64 {
        let remainder = Binary64::of(Datum::remainder(Format::Binary64, self.datum(), other.datum()));
        if remainder.spec_lt(Binary64::spec_zero()) {
            remainder.spec_add(other.spec_abs())
        } else {
            remainder
        }
    }

    /// The remainder brought to the range from zero to the divisor.
    #[verifier::when_used_as_spec(spec_rem_euclid)]
    pub fn rem_euclid(self, other: Binary64) -> (result: Binary64)
        ensures
            result == self.spec_rem_euclid(other),
    {
        proof {
            reveal(Binary64::spec_rem_euclid);
        }
        let remainder: Binary64 = Binary64::pack(Datum::modulo(Format::Binary64, self.unpack(), other.unpack()));
        if remainder.lt(Binary64::zero()) {
            remainder.add(other.abs())
        } else {
            remainder
        }
    }

    /// The number nearest to a natural number.
    #[verifier::opaque]
    pub open spec fn spec_from_whole(whole: u64) -> Binary64 {
        Binary64::of(Datum::integer(Format::Binary64, whole as int, false))
    }

    /// The number nearest to a natural number.
    #[verifier::when_used_as_spec(spec_from_whole)]
    pub fn from_whole(whole: u64) -> (result: Binary64)
        ensures
            result == Binary64::spec_from_whole(whole),
    {
        proof {
            reveal(Binary64::spec_from_whole);
        }
        Binary64::pack(Datum::from_whole(Format::Binary64, false, whole))
    }

    /// The number nearest to an integer.
    #[verifier::opaque]
    pub open spec fn spec_from_integer(whole: i64) -> Binary64 {
        Binary64::of(Datum::integer(Format::Binary64, whole as int, false))
    }

    /// The number nearest to an integer.
    #[verifier::when_used_as_spec(spec_from_integer)]
    pub fn from_integer(whole: i64) -> (result: Binary64)
        ensures
            result == Binary64::spec_from_integer(whole),
    {
        proof {
            reveal(Binary64::spec_from_integer);
        }
        if whole >= 0 {
            Binary64::pack(Datum::from_whole(Format::Binary64, false, whole as u64))
        } else {
            let distance: u64 = (-(whole as i128)) as u64;
            Binary64::pack(Datum::from_whole(Format::Binary64, true, distance))
        }
    }

    /// Split a finite number into a significand and a power of two.
    pub(crate) fn split(self) -> (parts: (u64, u32))
        requires
            self.spec_is_finite(),
        ensures
            self.datum().steps(Format::Binary64) == parts.0 * pow2(parts.1 as nat),
            parts.0 < 0x20_0000_0000_0000,
            parts.1 <= 2045,
    {
        proof {
            lemma2_to64();
            lemma2_to64_rest();
        }
        self.unpack().parts(Format::Binary64)
    }

    /// The largest integer not above the number.
    #[verifier::opaque]
    pub open spec fn spec_floor(self) -> Binary64 {
        Binary64::of(self.datum().floored(Format::Binary64))
    }

    /// The largest integer not above the number.
    #[verifier::when_used_as_spec(spec_floor)]
    pub fn floor(self) -> (result: Binary64)
        ensures
            result == self.spec_floor(),
    {
        proof {
            reveal(Binary64::spec_floor);
        }
        Binary64::pack(self.unpack().floor(Format::Binary64))
    }

    /// The smallest integer not below the number.
    #[verifier::opaque]
    pub open spec fn spec_ceil(self) -> Binary64 {
        Binary64::of(self.datum().ceiled(Format::Binary64))
    }

    /// The smallest integer not below the number.
    #[verifier::when_used_as_spec(spec_ceil)]
    pub fn ceil(self) -> (result: Binary64)
        ensures
            result == self.spec_ceil(),
    {
        proof {
            reveal(Binary64::spec_ceil);
        }
        Binary64::pack(self.unpack().ceil(Format::Binary64))
    }

    /// The whole number of samples that covers a duration of this many: the
    /// least one not below it.
    pub open spec fn whole_cover(self) -> int {
        self.datum().ceil_whole(Format::Binary64)
    }

    /// The whole beat that a position lies on or after: the greatest one not
    /// above it.
    pub open spec fn whole_floor(self) -> int {
        self.datum().floor_whole(Format::Binary64)
    }

    /// The least whole number not below a positive one, unless it exceeds
    /// `cap`.
    pub fn cover(self, cap: usize) -> (result: Option<usize>)
        requires
            self.spec_is_finite(),
            Binary64::spec_zero().spec_lt(self),
        ensures
            self.whole_cover() >= 1,
            result == if self.whole_cover() <= cap {
                Some(self.whole_cover() as usize)
            } else {
                None
            },
    {
        match self.unpack().ceil_count(Format::Binary64, cap as u64) {
            Some(count) => Some(count as usize),
            None => None,
        }
    }

    /// The greatest integer not above a finite number, when a signed 64-bit
    /// integer can hold it.
    pub fn floor_integer(self) -> (result: Option<i64>)
        requires
            self.spec_is_finite(),
        ensures
            result == if i64::MIN <= self.whole_floor() <= i64::MAX {
                Some(self.whole_floor() as i64)
            } else {
                None
            },
    {
        self.unpack().floor_integer(Format::Binary64)
    }

    /// The nearest integer, ties away from zero.
    #[verifier::opaque]
    pub open spec fn spec_round(self) -> Binary64 {
        Binary64::of(self.datum().half_away(Format::Binary64))
    }

    /// The nearest integer, ties away from zero.
    #[verifier::when_used_as_spec(spec_round)]
    pub fn round(self) -> (result: Binary64)
        ensures
            result == self.spec_round(),
    {
        proof {
            reveal(Binary64::spec_round);
        }
        Binary64::pack(self.unpack().round(Format::Binary64))
    }

    /// The number truncated to a count that a machine word can hold.
    #[verifier::opaque]
    pub open spec fn spec_to_usize(self) -> usize {
        self.datum().saturated(Format::Binary64, 0, usize::MAX as int) as usize
    }

    /// The number truncated to a count that a machine word can hold.
    #[verifier::when_used_as_spec(spec_to_usize)]
    pub fn to_usize(self) -> (result: usize)
        ensures
            result == self.spec_to_usize(),
    {
        proof {
            reveal(Binary64::spec_to_usize);
        }
        self.unpack().to_unsigned(Format::Binary64, usize::MAX as u64) as usize
    }

    /// The number truncated to a signed integer.
    #[verifier::opaque]
    pub open spec fn spec_to_i64(self) -> i64 {
        self.datum().saturated(Format::Binary64, i64::MIN as int, i64::MAX as int) as i64
    }

    /// The number truncated to a signed integer.
    #[verifier::when_used_as_spec(spec_to_i64)]
    pub fn to_i64(self) -> (result: i64)
        ensures
            result == self.spec_to_i64(),
    {
        proof {
            reveal(Binary64::spec_to_i64);
        }
        self.unpack().to_signed(Format::Binary64)
    }

    /// The nearest single-precision number.
    #[verifier::opaque]
    pub open spec fn spec_to_single(self) -> Binary32 {
        Binary32::of(self.datum().narrowed())
    }

    /// The nearest single-precision number.
    #[verifier::when_used_as_spec(spec_to_single)]
    pub fn to_single(self) -> (result: Binary32)
        ensures
            result == self.spec_to_single(),
    {
        proof {
            reveal(Binary64::spec_to_single);
        }
        Binary32::pack(self.unpack().narrow())
    }

    /// A product with a finite factor other than zero is a number.
    pub(crate) proof fn lemma_mul_is_number(self, factor: Binary64)
        requires
            !self.spec_is_nan(),
            factor.spec_is_finite(),
            factor.datum().magnitude > 0,
        ensures
            !self.spec_mul(factor).spec_is_nan(),
            self.spec_mul(factor).datum().negative == (self.datum().negative
                != factor.datum().negative),
    {
        reveal(Binary64::spec_mul);
    }

    /// A quotient by a finite divisor other than zero is a number.
    pub(crate) proof fn lemma_div_is_number(self, divisor: Binary64)
        requires
            !self.spec_is_nan(),
            divisor.spec_is_finite(),
            divisor.datum().magnitude > 0,
        ensures
            !self.spec_div(divisor).spec_is_nan(),
            self.spec_div(divisor).datum().negative == (self.datum().negative
                != divisor.datum().negative),
    {
        reveal(Binary64::spec_div);
    }

    /// The nearest integer of a number is a number.
    pub(crate) proof fn lemma_round_is_number(self)
        requires
            !self.spec_is_nan(),
            !self.datum().negative,
        ensures
            !self.spec_round().spec_is_nan(),
            !self.spec_round().datum().negative,
    {
        reveal(Binary64::spec_round);
        let datum = self.datum();
        let one = Format::Binary64.one();
        lemma_pow2_pos(1074);
        lemma_div_pos_is_pos((2 * datum.steps(Format::Binary64) + one) as int, (2 * one) as int);
        assert(!datum.half_away(Format::Binary64).negative);
    }

    /// An integer is a number.
    pub(crate) proof fn lemma_integer_is_number(whole: i64)
        ensures
            !Binary64::spec_from_integer(whole).spec_is_nan(),
    {
        reveal(Binary64::spec_from_integer);
    }
}

impl Binary32 {
    /// The steps of a finite single are a single's digits at some power of two.
    proof fn lemma_digits(self) -> (split: (nat, nat))
        requires
            self.spec_is_finite(),
        ensures
            split.0 < pow2(53),
            self.datum().steps(Format::Binary32) == split.0 * pow2(split.1),
    {
        lemma2_to64();
        lemma2_to64_rest();
        let magnitude = self.datum().magnitude as nat;
        assert((24 - 1) as nat == 23);
        assert(pow2(23) == 0x80_0000);
        let field = magnitude / 0x80_0000;
        if field <= 1 {
            assert(magnitude * pow2(0) == magnitude);
            (magnitude, 0)
        } else {
            (magnitude % 0x80_0000 + 0x80_0000, (field - 1) as nat)
        }
    }

    /// The double of a finite single is finite and has the same value.
    pub(crate) proof fn lemma_double_is_exact(self)
        requires
            self.spec_is_finite(),
        ensures
            self.spec_to_double().spec_is_finite(),
            self.spec_to_double().datum().negative == self.datum().negative,
            self.spec_to_double().datum().steps(Format::Binary64) == self.datum().steps(
                Format::Binary32,
            ) * pow2(925),
            self.datum().magnitude == 0 ==> self.spec_to_double().datum().magnitude == 0,
    {
        reveal(Binary32::spec_to_double);
        lemma2_to64();
        lemma2_to64_rest();
        let steps = self.datum().steps(Format::Binary32);
        let (digits, power) = self.lemma_digits();
        let wide = steps * pow2(925);
        lemma_pow2_adds(power, 925);
        assert(wide == digits * pow2(power + 925)) by (nonlinear_arith)
            requires
                wide == (digits * pow2(power)) * pow2(925),
                pow2(power + 925) == pow2(power) * pow2(925),
        ;
        crate::rounding::encoding_is_exact(digits, power + 925, 53);

        // Every finite single lies below the double that stands for 2^128.
        let magnitude = self.datum().magnitude as nat;
        let limit: nat = 0x47f0_0000_0000_0000;
        assert((24 - 1) as nat == 23);
        assert((53 - 1) as nat == 52);
        crate::rounding::decoding_preserves_order(magnitude, 0x7f80_0000, 24);
        assert(crate::rounding::decoded_steps(0x7f80_0000, 24) == pow2(23) * pow2(254));
        assert(crate::rounding::decoded_steps(limit, 53) == pow2(52) * pow2(1150));
        lemma_pow2_adds(23, 254);
        lemma_pow2_adds(277, 925);
        lemma_pow2_adds(52, 1150);
        assert(wide * 1 <= pow2(1202) * 1) by (nonlinear_arith)
            requires
                wide == steps * pow2(925),
                steps < pow2(277),
                pow2(1202) == pow2(277) * pow2(925),
        ;
        crate::rounding::encoding_preserves_order(wide, 1, pow2(1202), 1, 53);
        crate::rounding::decoding_round_trips(limit, 53);
        if magnitude == 0 {
            assert(crate::rounding::decoded_steps(0, 53) == 0);
            assert(steps == 0);
            assert(wide == 0) by (nonlinear_arith)
                requires
                    wide == steps * pow2(925),
                    steps == 0,
            ;
            crate::rounding::decoding_round_trips(0, 53);
        }
    }

    /// A single that is a number comes back from double precision unchanged.
    pub proof fn widening_is_undone(self)
        requires
            !self.is_nan(),
        ensures
            self.to_double().to_single() == self,
    {
        reveal(Binary64::spec_to_single);
        if self.is_finite() {
            self.lemma_double_is_exact();
            let steps = self.datum().steps(Format::Binary32);
            let magnitude = self.datum().magnitude as nat;
            lemma_pow2_pos(925);
            assert((steps * pow2(925)) * 1 == steps * pow2(925));
            crate::rounding::encoding_preserves_order(steps * pow2(925), pow2(925), steps, 1, 24);
            crate::rounding::encoding_preserves_order(steps, 1, steps * pow2(925), pow2(925), 24);
            crate::rounding::decoding_round_trips(magnitude, 24);
        } else {
            reveal(Binary32::spec_to_double);
        }
    }
}

impl Binary64 {
    /// Bringing two numbers to single precision keeps their order.
    pub proof fn narrowing_preserves_order(self, other: Binary64)
        requires
            self.le(other),
        ensures
            self.to_single().le(other.to_single()),
    {
        reveal(Binary64::spec_to_single);
        let low = self.datum();
        let high = other.datum();
        if self.is_finite() && other.is_finite() {
            if low.negative && high.negative {
                lemma_narrowed_in_order(high.magnitude as nat, low.magnitude as nat);
            } else if !low.negative && !high.negative {
                lemma_narrowed_in_order(low.magnitude as nat, high.magnitude as nat);
            } else if high.negative {
                lemma_zero_is_narrowed();
            }
        }
    }
}

proof fn lemma_zero_is_narrowed()
    ensures
        crate::rounding::encoded_ratio(crate::rounding::decoded_steps(0, 53), pow2(925), 24) == 0,
{
    lemma_pow2_pos(925);
    lemma_pow2_pos(52);
    lemma_pow2_pos(23);
    assert((53 - 1) as nat == 52);
    assert((24 - 1) as nat == 23);
    assert(crate::rounding::decoded_steps(0, 53) == 0);
    assert(crate::rounding::decoded_steps(0, 24) == 0);
    crate::rounding::encoding_preserves_order(0, pow2(925), 0, 1, 24);
    crate::rounding::decoding_round_trips(0, 24);
}

proof fn lemma_narrowed_in_order(low: nat, high: nat)
    requires
        low <= high,
    ensures
        crate::rounding::encoded_ratio(
            crate::rounding::decoded_steps(low, 53),
            pow2(925),
            24,
        ) <= crate::rounding::encoded_ratio(
            crate::rounding::decoded_steps(high, 53),
            pow2(925),
            24,
        ),
{
    if low < high {
        crate::rounding::decoding_preserves_order(low, high, 53);
    }
    let low_steps = crate::rounding::decoded_steps(low, 53);
    let high_steps = crate::rounding::decoded_steps(high, 53);
    lemma_pow2_pos(925);
    assert(low_steps * pow2(925) <= high_steps * pow2(925)) by (nonlinear_arith)
        requires
            low_steps <= high_steps,
    ;
    crate::rounding::encoding_preserves_order(low_steps, pow2(925), high_steps, pow2(925), 24);
}

} // verus!
