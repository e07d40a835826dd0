//! Rounded arithmetic keeps the order of numbers.

use crate::binary::Binary32;
use crate::float::{Datum, Format};
use vstd::arithmetic::power2::*;
use vstd::prelude::*;

verus! {

/// The datum nearest to a value in steps.
spec fn nearest(format: Format, exact: int) -> Datum {
    if exact < 0 {
        Datum::rounded(format, true, (-exact) as nat, 1)
    } else {
        Datum::rounded(format, false, exact as nat, 1)
    }
}

proof fn lemma_zero(format: Format)
    ensures
        crate::rounding::decoded_steps(0, format.precision()) == 0,
        crate::rounding::encoded_ratio(0, 1, format.precision()) == 0,
{
    lemma_pow2_pos((format.precision() - 1) as nat);
    crate::rounding::decoding_round_trips(0, format.precision());
}

/// Larger magnitudes stand for at least as many steps.
pub(crate) proof fn lemma_steps_in_order(format: Format, low: u64, high: u64)
    requires
        low <= high,
    ensures
        crate::rounding::decoded_steps(low as nat, format.precision())
            <= crate::rounding::decoded_steps(high as nat, format.precision()),
{
    if low < high {
        crate::rounding::decoding_preserves_order(low as nat, high as nat, format.precision());
    }
}

/// Numbers in order have values in order.
pub(crate) proof fn lemma_values_in_order(format: Format, low: Datum, high: Datum)
    requires
        low.key() <= high.key(),
    ensures
        low.value(format) <= high.value(format),
{
    if low.negative && high.negative {
        lemma_steps_in_order(format, high.magnitude, low.magnitude);
    } else if !low.negative && !high.negative {
        lemma_steps_in_order(format, low.magnitude, high.magnitude);
    } else if !low.negative {
        lemma_zero(format);
    }
}

/// Values in order round to numbers in order.
proof fn lemma_nearest_in_order(format: Format, low: int, high: int)
    requires
        low <= high,
    ensures
        nearest(format, low).key() <= nearest(format, high).key(),
        nearest(format, low).magnitude <= format.infinity(),
        low >= 0 ==> nearest(format, low).key() >= 0,
        high <= 0 ==> nearest(format, high).key() <= 0,
{
    lemma_zero(format);
    if high < 0 {
        crate::rounding::encoding_preserves_order(
            (-high) as nat,
            1,
            (-low) as nat,
            1,
            format.precision(),
        );
    } else if low >= 0 {
        crate::rounding::encoding_preserves_order(
            low as nat,
            1,
            high as nat,
            1,
            format.precision(),
        );
    }
}

/// A number is its own nearest one.
proof fn lemma_nearest_of_value(format: Format, datum: Datum)
    requires
        datum.finite(format),
    ensures
        nearest(format, datum.value(format)).key() == datum.key(),
{
    lemma_zero(format);
    crate::rounding::decoding_round_trips(datum.magnitude as nat, format.precision());
    if datum.magnitude > 0 {
        crate::rounding::decoding_preserves_order(0, datum.magnitude as nat, format.precision());
    }
}

proof fn lemma_sum_is_nearest(format: Format, a: Datum, b: Datum)
    requires
        a.finite(format),
        b.finite(format),
    ensures
        Datum::sum(format, a, b).key() == nearest(format, a.value(format) + b.value(format)).key(),
        Datum::sum(format, a, b).magnitude <= format.infinity(),
{
    lemma_zero(format);
    lemma_nearest_in_order(
        format,
        a.value(format) + b.value(format),
        a.value(format) + b.value(format),
    );
}

impl Binary32 {
    /// Adding to one number keeps the order of two others.
    pub proof fn sums_keep_their_order(self, low: Binary32, high: Binary32)
        requires
            self.is_finite(),
            low.is_finite(),
            high.is_finite(),
            low.le(high),
        ensures
            self.add(low).le(self.add(high)),
    {
        reveal(Binary32::spec_add);
        let format = Format::Binary32;
        lemma_values_in_order(format, low.datum(), high.datum());
        lemma_sum_is_nearest(format, self.datum(), low.datum());
        lemma_sum_is_nearest(format, self.datum(), high.datum());
        lemma_nearest_in_order(
            format,
            self.datum().value(format) + low.datum().value(format),
            self.datum().value(format) + high.datum().value(format),
        );
    }

    /// Adding what is not negative does not lead below.
    pub proof fn sums_do_not_fall(self, more: Binary32)
        requires
            self.is_finite(),
            more.is_finite(),
            Binary32::zero().le(more),
        ensures
            self.le(self.add(more)),
    {
        reveal(Binary32::spec_add);
        let format = Format::Binary32;
        lemma_zero(format);
        lemma_values_in_order(format, Binary32::zero().datum(), more.datum());
        lemma_sum_is_nearest(format, self.datum(), more.datum());
        lemma_nearest_of_value(format, self.datum());
        lemma_nearest_in_order(
            format,
            self.datum().value(format),
            self.datum().value(format) + more.datum().value(format),
        );
    }

    /// A sum that is at most a number held exactly does not round above it.
    pub(crate) proof fn lemma_sum_at_most(self, other: Binary32, bound: Binary32)
        requires
            self.is_finite(),
            other.is_finite(),
            bound.is_finite(),
            self.datum().value(Format::Binary32) + other.datum().value(Format::Binary32)
                <= bound.datum().value(Format::Binary32),
        ensures
            self.add(other).le(bound),
    {
        reveal(Binary32::spec_add);
        let format = Format::Binary32;
        lemma_sum_is_nearest(format, self.datum(), other.datum());
        lemma_nearest_of_value(format, bound.datum());
        lemma_nearest_in_order(
            format,
            self.datum().value(format) + other.datum().value(format),
            bound.datum().value(format),
        );
    }

    /// A sum that is at least a number held exactly does not round below it.
    pub(crate) proof fn lemma_sum_at_least(self, other: Binary32, bound: Binary32)
        requires
            self.is_finite(),
            other.is_finite(),
            bound.is_finite(),
            self.datum().value(Format::Binary32) + other.datum().value(Format::Binary32)
                >= bound.datum().value(Format::Binary32),
        ensures
            bound.le(self.add(other)),
    {
        reveal(Binary32::spec_add);
        let format = Format::Binary32;
        lemma_sum_is_nearest(format, self.datum(), other.datum());
        lemma_nearest_of_value(format, bound.datum());
        lemma_nearest_in_order(
            format,
            bound.datum().value(format),
            self.datum().value(format) + other.datum().value(format),
        );
    }

    /// A share of a number that is not negative lies between zero and the
    /// number.
    pub proof fn shares_do_not_exceed_the_whole(self, whole: Binary32)
        requires
            Binary32::zero().le(self),
            self.le(Binary32::one()),
            whole.is_finite(),
            Binary32::zero().le(whole),
        ensures
            self.mul(whole).is_finite(),
            Binary32::zero().le(self.mul(whole)),
            self.mul(whole).le(whole),
    {
        reveal(Binary32::spec_mul);
        let format = Format::Binary32;
        let one = format.one();
        lemma_pow2_pos(149);
        crate::offset::lemma_one();
        lemma_zero(format);
        let steps = self.datum().steps(format);
        let most = whole.datum().steps(format);
        if self.datum().negative {
            assert(steps == 0);
        } else {
            lemma_steps_in_order(format, self.datum().magnitude, 0x3f80_0000);
        }
        assert((steps * most) * 1 <= most * one) by (nonlinear_arith)
            requires
                steps <= one,
        ;
        crate::rounding::encoding_preserves_order(steps * most, one, most, 1, 24);
        crate::rounding::decoding_round_trips(whole.datum().magnitude as nat, 24);
        if self.datum().negative != whole.datum().negative {
            if self.datum().negative {
                assert(steps * most == 0) by (nonlinear_arith)
                    requires
                        steps == 0,
                ;
            } else {
                assert(most == 0);
                assert(steps * most == 0) by (nonlinear_arith)
                    requires
                        most == 0,
                ;
            }
            crate::rounding::encoding_preserves_order(0, one, 0, 1, 24);
        }
    }
}

/// The steps of a finite number are so many digits at some power of two.
pub(crate) proof fn lemma_digits(format: Format, magnitude: nat) -> (split: (nat, nat))
    ensures
        split.0 < pow2(format.precision()),
        crate::rounding::decoded_steps(magnitude, format.precision()) == split.0 * pow2(split.1),
{
    let precision = format.precision();
    let lead = pow2((precision - 1) as nat);
    lemma_pow2_pos((precision - 1) as nat);
    lemma_pow2_unfold(precision);
    lemma2_to64();
    let field = magnitude / lead;
    vstd::arithmetic::div_mod::lemma_fundamental_div_mod(magnitude as int, lead as int);
    vstd::arithmetic::div_mod::lemma_mod_bound(magnitude as int, lead as int);
    if field <= 1 {
        let rest = magnitude % lead;
        assert(lead * field <= lead) by (nonlinear_arith)
            requires
                field <= 1,
        ;
        assert(magnitude == lead * field + rest);
        assert(magnitude * pow2(0) == magnitude);
        (magnitude, 0)
    } else {
        ((magnitude % lead + lead) as nat, (field - 1) as nat)
    }
}

/// What a number has over a multiple of a power of two is held exactly.
pub(crate) proof fn lemma_remainder_is_exact(format: Format, magnitude: nat, exponent: nat)
    ensures
        ({
            let steps = crate::rounding::decoded_steps(magnitude, format.precision());
            let rest = steps % pow2(exponent);
            crate::rounding::decoded_steps(
                crate::rounding::encoded_ratio(rest, 1, format.precision()),
                format.precision(),
            ) == rest
        }),
{
    let (digits, power) = lemma_digits(format, magnitude);
    let steps = crate::rounding::decoded_steps(magnitude, format.precision());
    lemma_pow2_pos(exponent);
    lemma_pow2_pos(power);
    if power >= exponent {
        let more = (power - exponent) as nat;
        lemma_pow2_adds(more, exponent);
        assert(steps == (digits * pow2(more)) * pow2(exponent)) by (nonlinear_arith)
            requires
                steps == digits * pow2(power),
                pow2(power) == pow2(more) * pow2(exponent),
        ;
        vstd::arithmetic::div_mod::lemma_mod_multiples_basic(
            (digits * pow2(more)) as int,
            pow2(exponent) as int,
        );
        lemma_zero(format);
    } else {
        let less = (exponent - power) as nat;
        lemma_pow2_adds(less, power);
        lemma_pow2_pos(less);
        let kept = digits % pow2(less);
        vstd::arithmetic::div_mod::lemma_mod_bound(digits as int, pow2(less) as int);
        assert(kept <= digits) by {
            vstd::arithmetic::div_mod::lemma_mod_decreases(digits, pow2(less));
        }
        assert(steps % pow2(exponent) == kept * pow2(power)) by {
            assert(pow2(power) * digits == steps) by (nonlinear_arith)
                requires
                    steps == digits * pow2(power),
            ;
            assert(pow2(power) * pow2(less) == pow2(exponent)) by (nonlinear_arith)
                requires
                    pow2(exponent) == pow2(less) * pow2(power),
            ;
            vstd::arithmetic::div_mod::lemma_truncate_middle(
                digits as int,
                pow2(power) as int,
                pow2(less) as int,
            );
            assert(pow2(power) * kept == kept * pow2(power)) by (nonlinear_arith);
        }
        crate::rounding::encoding_is_exact(kept, power, format.precision());
    }
}

} // verus!
