//! Sums, products and quotients are rounded to the nearest number.

use crate::binary::{Binary32, Binary64};
use crate::float::{Datum, Format};
use vstd::arithmetic::power2::*;
use vstd::prelude::*;

verus! {

/// No finite number lies nearer to a signed ratio than the one that it is
/// rounded to.
proof fn lemma_nearest(format: Format, negative: bool, num: nat, den: nat, other: Datum)
    requires
        den > 0,
        Datum::rounded(format, negative, num, den).finite(format),
        other.finite(format),
    ensures
        crate::rounding::distance(
            crate::float::signed(negative, num),
            Datum::rounded(format, negative, num, den).value(format) * den,
        ) <= crate::rounding::distance(
            crate::float::signed(negative, num),
            other.value(format) * den,
        ),
{
    let precision = format.precision();
    let result = Datum::rounded(format, negative, num, den);
    let kept = result.steps(format);
    let rival = other.steps(format);
    crate::rounding::rounding_takes_the_nearest(num, den, precision, other.magnitude as nat);
    crate::rounding::rounding_takes_the_nearest(num, den, precision, 0);
    lemma_pow2_pos((precision - 1) as nat);
    assert(crate::rounding::decoded_steps(0, precision) == 0);
    assert((-(kept as int)) * den == -(kept * den)) by (nonlinear_arith);
    assert((-(rival as int)) * den == -(rival * den)) by (nonlinear_arith);
    assert(0 * den == 0);
    assert(0 <= rival * den) by (nonlinear_arith);
}

proof fn lemma_sum(format: Format, a: Datum, b: Datum, other: Datum)
    requires
        a.finite(format),
        b.finite(format),
        other.finite(format),
        Datum::sum(format, a, b).finite(format),
    ensures
        ({
            let exact = a.value(format) + b.value(format);
            crate::rounding::distance(exact, Datum::sum(format, a, b).value(format))
                <= crate::rounding::distance(exact, other.value(format))
        }),
{
    let exact = a.value(format) + b.value(format);
    lemma_pow2_pos((format.precision() - 1) as nat);
    assert(crate::rounding::decoded_steps(0, format.precision()) == 0);
    if exact < 0 {
        lemma_nearest(format, true, (-exact) as nat, 1, other);
    } else if exact > 0 {
        lemma_nearest(format, false, exact as nat, 1, other);
    }
}

proof fn lemma_product(format: Format, a: Datum, b: Datum, other: Datum)
    requires
        a.finite(format),
        b.finite(format),
        other.finite(format),
        Datum::product(format, a, b).finite(format),
    ensures
        ({
            let exact = a.value(format) * b.value(format);
            crate::rounding::distance(
                exact,
                Datum::product(format, a, b).value(format) * format.one(),
            ) <= crate::rounding::distance(exact, other.value(format) * format.one())
        }),
{
    let negative = a.negative != b.negative;
    let left = a.steps(format);
    let right = b.steps(format);
    lemma_pow2_pos(format.one_exponent());
    lemma_nearest(format, negative, left * right, format.one(), other);
    assert((-(left as int)) * right == -(left * right) && left * (-(right as int)) == -(left
        * right) && (-(left as int)) * (-(right as int)) == left * right) by (nonlinear_arith);
}

proof fn lemma_quotient(format: Format, a: Datum, b: Datum, other: Datum)
    requires
        a.finite(format),
        b.finite(format),
        b.magnitude > 0,
        other.finite(format),
        Datum::quotient(format, a, b).finite(format),
    ensures
        ({
            let exact = a.value(format) * format.one();
            crate::rounding::distance(
                exact,
                Datum::quotient(format, a, b).value(format) * b.value(format),
            ) <= crate::rounding::distance(exact, other.value(format) * b.value(format))
        }),
{
    let negative = a.negative != b.negative;
    let dividend = a.steps(format);
    let divisor = b.steps(format);
    let one = format.one();
    let result = Datum::quotient(format, a, b).value(format);
    let rival = other.value(format);
    lemma_pow2_pos(format.one_exponent());
    lemma_pow2_pos((format.precision() - 1) as nat);
    assert(crate::rounding::decoded_steps(0, format.precision()) == 0);
    crate::rounding::decoding_preserves_order(0, b.magnitude as nat, format.precision());
    lemma_nearest(format, negative, dividend * one, divisor, other);
    assert((-(dividend as int)) * one == -(dividend * one)) by (nonlinear_arith);
    assert(result * (-(divisor as int)) == -(result * divisor)) by (nonlinear_arith);
    assert(rival * (-(divisor as int)) == -(rival * divisor)) by (nonlinear_arith);
}

impl Binary32 {
    /// No number lies nearer to the exact sum of two numbers than their sum.
    pub proof fn sums_are_nearest(self, other: Binary32, rival: Binary32)
        requires
            self.is_finite(),
            other.is_finite(),
            rival.is_finite(),
            self.add(other).is_finite(),
        ensures
            ({
                let format = Format::Binary32;
                let exact = self.datum().value(format) + other.datum().value(format);
                crate::rounding::distance(exact, self.add(other).datum().value(format)) <= crate::rounding::distance(
                    exact,
                    rival.datum().value(format),
                )
            }),
    {
        reveal(Binary32::spec_add);
        lemma_sum(Format::Binary32, self.datum(), other.datum(), rival.datum());
    }

    /// No number lies nearer to the exact product of two numbers than their
    /// product.
    pub proof fn products_are_nearest(self, other: Binary32, rival: Binary32)
        requires
            self.is_finite(),
            other.is_finite(),
            rival.is_finite(),
            self.mul(other).is_finite(),
        ensures
            ({
                let format = Format::Binary32;
                let one = format.one();
                let exact = self.datum().value(format) * other.datum().value(format);
                crate::rounding::distance(exact, self.mul(other).datum().value(format) * one) <= crate::rounding::distance(
                    exact,
                    rival.datum().value(format) * one,
                )
            }),
    {
        reveal(Binary32::spec_mul);
        lemma_product(Format::Binary32, self.datum(), other.datum(), rival.datum());
    }

    /// No number lies nearer to the exact quotient of two numbers than their
    /// quotient.
    pub proof fn quotients_are_nearest(self, divisor: Binary32, rival: Binary32)
        requires
            self.is_finite(),
            divisor.is_finite(),
            divisor.datum().magnitude > 0,
            rival.is_finite(),
            self.div(divisor).is_finite(),
        ensures
            ({
                let format = Format::Binary32;
                let exact = self.datum().value(format) * format.one();
                let by = divisor.datum().value(format);
                crate::rounding::distance(exact, self.div(divisor).datum().value(format) * by) <= crate::rounding::distance(
                    exact,
                    rival.datum().value(format) * by,
                )
            }),
    {
        reveal(Binary32::spec_div);
        lemma_quotient(Format::Binary32, self.datum(), divisor.datum(), rival.datum());
    }

    /// Numbers are in the order of their values.
    pub proof fn order_is_that_of_values(self, other: Binary32)
        requires
            self.is_finite(),
            other.is_finite(),
        ensures
            self.lt(other) <==> self.datum().value(Format::Binary32) < other.datum().value(
                Format::Binary32,
            ),
            self.le(other) <==> self.datum().value(Format::Binary32) <= other.datum().value(
                Format::Binary32,
            ),
    {
        lemma_order(Format::Binary32, self.datum(), other.datum());
    }
}

proof fn lemma_order(format: Format, a: Datum, b: Datum)
    ensures
        a.key() < b.key() <==> a.value(format) < b.value(format),
        a.key() <= b.key() <==> a.value(format) <= b.value(format),
{
    let precision = format.precision();
    lemma_pow2_pos((precision - 1) as nat);
    assert(crate::rounding::decoded_steps(0, precision) == 0);
    if a.magnitude > 0 {
        crate::rounding::decoding_preserves_order(0, a.magnitude as nat, precision);
    }
    if b.magnitude > 0 {
        crate::rounding::decoding_preserves_order(0, b.magnitude as nat, precision);
    }
    if a.magnitude < b.magnitude {
        crate::rounding::decoding_preserves_order(
            a.magnitude as nat,
            b.magnitude as nat,
            precision,
        );
    }
    if b.magnitude < a.magnitude {
        crate::rounding::decoding_preserves_order(
            b.magnitude as nat,
            a.magnitude as nat,
            precision,
        );
    }
}

impl Binary64 {
    /// No number lies nearer to the exact sum of two numbers than their sum.
    pub proof fn sums_are_nearest(self, other: Binary64, rival: Binary64)
        requires
            self.is_finite(),
            other.is_finite(),
            rival.is_finite(),
            self.add(other).is_finite(),
        ensures
            ({
                let format = Format::Binary64;
                let exact = self.datum().value(format) + other.datum().value(format);
                crate::rounding::distance(exact, self.add(other).datum().value(format)) <= crate::rounding::distance(
                    exact,
                    rival.datum().value(format),
                )
            }),
    {
        reveal(Binary64::spec_add);
        lemma_sum(Format::Binary64, self.datum(), other.datum(), rival.datum());
    }

    /// No number lies nearer to the exact product of two numbers than their
    /// product.
    pub proof fn products_are_nearest(self, other: Binary64, rival: Binary64)
        requires
            self.is_finite(),
            other.is_finite(),
            rival.is_finite(),
            self.mul(other).is_finite(),
        ensures
            ({
                let format = Format::Binary64;
                let one = format.one();
                let exact = self.datum().value(format) * other.datum().value(format);
                crate::rounding::distance(exact, self.mul(other).datum().value(format) * one) <= crate::rounding::distance(
                    exact,
                    rival.datum().value(format) * one,
                )
            }),
    {
        reveal(Binary64::spec_mul);
        lemma_product(Format::Binary64, self.datum(), other.datum(), rival.datum());
    }

    /// No number lies nearer to the exact quotient of two numbers than their
    /// quotient.
    pub proof fn quotients_are_nearest(self, divisor: Binary64, rival: Binary64)
        requires
            self.is_finite(),
            divisor.is_finite(),
            divisor.datum().magnitude > 0,
            rival.is_finite(),
            self.div(divisor).is_finite(),
        ensures
            ({
                let format = Format::Binary64;
                let exact = self.datum().value(format) * format.one();
                let by = divisor.datum().value(format);
                crate::rounding::distance(exact, self.div(divisor).datum().value(format) * by) <= crate::rounding::distance(
                    exact,
                    rival.datum().value(format) * by,
                )
            }),
    {
        reveal(Binary64::spec_div);
        lemma_quotient(Format::Binary64, self.datum(), divisor.datum(), rival.datum());
    }

    /// Numbers are in the order of their values.
    pub proof fn order_is_that_of_values(self, other: Binary64)
        requires
            self.is_finite(),
            other.is_finite(),
        ensures
            self.lt(other) <==> self.datum().value(Format::Binary64) < other.datum().value(
                Format::Binary64,
            ),
            self.le(other) <==> self.datum().value(Format::Binary64) <= other.datum().value(
                Format::Binary64,
            ),
    {
        lemma_order(Format::Binary64, self.datum(), other.datum());
    }
}

/// A whole number of few enough digits is held exactly.
proof fn lemma_whole(format: Format, whole: nat, negative: bool)
    requires
        0 < whole < pow2(format.precision()),
    ensures
        ({
            let result = Datum::rounded(format, negative, whole * format.one(), 1);
            &&& result.finite(format)
            &&& result.negative == negative
            &&& result.steps(format) == whole * format.one()
        }),
{
    let one = format.one();
    let exponent = format.one_exponent();
    let precision = format.precision();
    lemma2_to64();
    lemma2_to64_rest();
    lemma_pow2_pos(exponent);
    crate::rounding::encoding_is_exact(whole, exponent, precision);
    assert(whole * one <= pow2(precision) * one) by (nonlinear_arith)
        requires
            whole < pow2(precision),
    ;
    lemma_pow2_adds(precision, exponent);
    let limit: nat = match format {
        Format::Binary32 => 0x4b80_0000,
        Format::Binary64 => 0x4340_0000_0000_0000,
    };
    assert((24 - 1) as nat == 23);
    assert((53 - 1) as nat == 52);
    lemma_pow2_adds(23, 150);
    lemma_pow2_adds(52, 1075);
    assert(crate::rounding::decoded_steps(limit, precision) == pow2(precision + exponent));
    crate::rounding::encoding_preserves_order(
        whole * one,
        1,
        pow2(precision + exponent),
        1,
        precision,
    );
    crate::rounding::decoding_round_trips(limit, precision);
}

impl Binary32 {
    /// Whole numbers below 2^24 are held exactly.
    pub proof fn whole_numbers_are_held_exactly(whole: u64)
        requires
            whole < 0x100_0000,
        ensures
            Binary32::from_whole(whole).is_finite(),
            Binary32::from_whole(whole).datum().value(Format::Binary32) == whole
                * Format::Binary32.one(),
    {
        reveal(Binary32::spec_from_whole);
        lemma2_to64();
        lemma2_to64_rest();
        lemma_pow2_pos(23);
        assert((24 - 1) as nat == 23);
        assert(crate::rounding::decoded_steps(0, 24) == 0);
        assert(0 * Format::Binary32.one() == 0);
        if whole > 0 {
            lemma_whole(Format::Binary32, whole as nat, false);
        }
    }

    /// The sign of a number turns and goes without a change of its size.
    pub proof fn signs_turn_and_go(self)
        requires
            self.is_finite(),
        ensures
            self.neg().is_finite(),
            self.neg().datum().value(Format::Binary32) == -self.datum().value(Format::Binary32),
            self.abs().is_finite(),
            self.abs().datum().value(Format::Binary32) == crate::rounding::distance(
                0,
                self.datum().value(Format::Binary32),
            ),
    {
    }

    /// The larger and the smaller of two numbers are one of them each, and lie
    /// on their side of both; a clamped number lies between its bounds, and is
    /// the number itself where it lies there already.
    pub proof fn larger_and_smaller_are_ordered(self, other: Binary32, high: Binary32)
        requires
            !self.is_nan(),
            !other.is_nan(),
            other.le(high),
        ensures
            self.le(self.max(other)) && other.le(self.max(other)),
            self.max(other) == self || self.max(other) == other,
            self.min(other).le(self) && self.min(other).le(other),
            self.min(other) == self || self.min(other) == other,
            other.le(self.clamp(other, high)) && self.clamp(other, high).le(high),
            other.le(self) && self.le(high) ==> self.clamp(other, high) == self,
            self.lt(other) ==> self.clamp(other, high) == other,
            high.lt(self) ==> self.clamp(other, high) == high,
    {
    }
}

impl Binary64 {
    /// Whole numbers below 2^53 are held exactly.
    pub proof fn whole_numbers_are_held_exactly(whole: u64)
        requires
            whole < 0x20_0000_0000_0000,
        ensures
            Binary64::from_whole(whole).is_finite(),
            Binary64::from_whole(whole).datum().value(Format::Binary64) == whole
                * Format::Binary64.one(),
    {
        reveal(Binary64::spec_from_whole);
        lemma2_to64();
        lemma2_to64_rest();
        lemma_pow2_pos(52);
        assert((53 - 1) as nat == 52);
        assert(crate::rounding::decoded_steps(0, 53) == 0);
        assert(0 * Format::Binary64.one() == 0);
        if whole > 0 {
            lemma_whole(Format::Binary64, whole as nat, false);
        }
    }

    /// Integers within 2^53 of zero are held exactly.
    pub proof fn integers_are_held_exactly(whole: i64)
        requires
            -0x20_0000_0000_0000 < whole < 0x20_0000_0000_0000,
        ensures
            Binary64::from_integer(whole).is_finite(),
            Binary64::from_integer(whole).datum().value(Format::Binary64) == whole
                * Format::Binary64.one(),
    {
        reveal(Binary64::spec_from_integer);
        lemma2_to64();
        lemma2_to64_rest();
        lemma_pow2_pos(52);
        assert((53 - 1) as nat == 52);
        assert(crate::rounding::decoded_steps(0, 53) == 0);
        let one = Format::Binary64.one();
        assert(0 * one == 0);
        if whole > 0 {
            lemma_whole(Format::Binary64, whole as nat, false);
        } else if whole < 0 {
            lemma_whole(Format::Binary64, (-whole) as nat, true);
            assert(whole * one == -((-whole) * one)) by (nonlinear_arith);
        }
    }

    /// The sign of a number turns and goes without a change of its size.
    pub proof fn signs_turn_and_go(self)
        requires
            self.is_finite(),
        ensures
            self.neg().is_finite(),
            self.neg().datum().value(Format::Binary64) == -self.datum().value(Format::Binary64),
            self.abs().is_finite(),
            self.abs().datum().value(Format::Binary64) == crate::rounding::distance(
                0,
                self.datum().value(Format::Binary64),
            ),
    {
    }

    /// The larger and the smaller of two numbers are one of them each, and lie
    /// on their side of both; a clamped number lies between its bounds, and is
    /// the number itself where it lies there already.
    pub proof fn larger_and_smaller_are_ordered(self, other: Binary64, high: Binary64)
        requires
            !self.is_nan(),
            !other.is_nan(),
            other.le(high),
        ensures
            self.le(self.max(other)) && other.le(self.max(other)),
            self.max(other) == self || self.max(other) == other,
            self.min(other).le(self) && self.min(other).le(other),
            self.min(other) == self || self.min(other) == other,
            other.le(self.clamp(other, high)) && self.clamp(other, high).le(high),
            other.le(self) && self.le(high) ==> self.clamp(other, high) == self,
            self.lt(other) ==> self.clamp(other, high) == other,
            high.lt(self) ==> self.clamp(other, high) == high,
    {
    }

    /// No single-precision number lies nearer to a number than the one that it is
    /// brought to.
    pub proof fn singles_are_nearest(self, rival: Binary32)
        requires
            self.is_finite(),
            self.to_single().is_finite(),
            rival.is_finite(),
        ensures
            crate::rounding::distance(
                self.datum().value(Format::Binary64),
                self.to_single().datum().value(Format::Binary32) * pow2(925),
            ) <= crate::rounding::distance(
                self.datum().value(Format::Binary64),
                rival.datum().value(Format::Binary32) * pow2(925),
            ),
    {
        reveal(Binary64::spec_to_single);
        lemma_pow2_pos(925);
        lemma_nearest(
            Format::Binary32,
            self.datum().negative,
            self.datum().steps(Format::Binary64),
            pow2(925),
            rival.datum(),
        );
    }
}

/// What is no number compares with nothing, and is passed over where the larger
/// or the smaller of two is asked for.
pub proof fn what_is_no_number_compares_with_nothing(nothing: Binary64, number: Binary64)
    requires
        nothing.is_nan(),
        !number.is_nan(),
    ensures
        !nothing.lt(number) && !number.lt(nothing),
        !nothing.le(number) && !number.le(nothing),
        !nothing.le(nothing),
        nothing.max(number) == number && number.max(nothing) == number,
        nothing.min(number) == number && number.min(nothing) == number,
{
}

/// The same in single precision.
pub proof fn what_is_no_single_compares_with_nothing(nothing: Binary32, number: Binary32)
    requires
        nothing.is_nan(),
        !number.is_nan(),
    ensures
        !nothing.lt(number) && !number.lt(nothing),
        !nothing.le(number) && !number.le(nothing),
        !nothing.le(nothing),
        nothing.max(number) == number && number.max(nothing) == number,
        nothing.min(number) == number && number.min(nothing) == number,
{
}

} // verus!
