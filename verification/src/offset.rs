//! The horizontal offset of the waveform and its readout.

use crate::binary::{Binary32, Binary64};
use crate::decimal::{push_decimal, push_two_decimals};
use crate::float::{Datum, Format};
use crate::timing::DEFAULT_SAMPLE_RATE;
use vstd::arithmetic::div_mod::*;
use vstd::arithmetic::power2::*;
use vstd::prelude::*;
use vstd::string::*;

verus! {

/// The bit pattern of one half.
const HALF: u64 = 0x3fe0_0000_0000_0000;

/// The bit pattern of a hundred.
const HUNDRED: u64 = 0x4059_0000_0000_0000;

/// The bit pattern of a thousand.
const THOUSAND: u64 = 0x408f_4000_0000_0000;

/// A drag of the waveform in progress. `==` compares the numbers.
#[derive(Clone, Copy, Debug)]
pub struct WaveformOffsetDrag {
    /// The offset that the drag started from.
    pub origin_offset: Binary32,
    /// Where the pointer was, as a share of the chart's width.
    pub start_pointer_x: Binary32,
}

impl PartialEq for WaveformOffsetDrag {
    fn eq(&self, other: &WaveformOffsetDrag) -> (same: bool) {
        self.origin_offset.equals(other.origin_offset) && self.start_pointer_x.equals(
            other.start_pointer_x,
        )
    }
}

impl vstd::std_specs::cmp::PartialEqSpecImpl for WaveformOffsetDrag {
    open spec fn obeys_eq_spec() -> bool {
        true
    }

    open spec fn eq_spec(&self, other: &WaveformOffsetDrag) -> bool {
        &&& self.origin_offset.equals(other.origin_offset)
        &&& self.start_pointer_x.equals(other.start_pointer_x)
    }
}

/// The share of a window, from zero up to one, that an offset comes to.
pub open spec fn spec_normalize_waveform_offset(offset: Binary32) -> Binary32 {
    if offset.is_finite() {
        offset.rem_euclid(Binary32::one())
    } else {
        Binary32::zero()
    }
}

/// Bring an offset to the range of one window.
#[verifier::when_used_as_spec(spec_normalize_waveform_offset)]
pub fn normalize_waveform_offset(offset: Binary32) -> (normalized: Binary32)
    ensures
        normalized == spec_normalize_waveform_offset(offset),
{
    if offset.is_finite() {
        offset.rem_euclid(Binary32::one())
    } else {
        Binary32::zero()
    }
}

/// The encoding of one in single precision.
pub(crate) proof fn lemma_one()
    ensures
        crate::rounding::decoded_steps(0x3f80_0000, 24) == Format::Binary32.one(),
        crate::rounding::encoded_ratio(Format::Binary32.one(), 1, 24) == 0x3f80_0000,
{
    lemma2_to64();
    lemma2_to64_rest();
    assert((24 - 1) as nat == 23);
    lemma_pow2_adds(23, 126);
    crate::rounding::decoding_round_trips(0x3f80_0000, 24);
}

/// No more steps than one has are encoded as more than one.
proof fn lemma_at_most_one(steps: nat)
    requires
        steps <= Format::Binary32.one(),
    ensures
        crate::rounding::encoded_ratio(steps, 1, 24) <= 0x3f80_0000,
{
    lemma_one();
    crate::rounding::encoding_preserves_order(steps, 1, Format::Binary32.one(), 1, 24);
}

/// A normalized offset is a share of a window: at least zero, at most one.
pub proof fn offsets_stay_within_a_window(offset: Binary32)
    ensures
        normalize_waveform_offset(offset).is_finite(),
        Binary32::zero().le(normalize_waveform_offset(offset)),
        normalize_waveform_offset(offset).le(Binary32::one()),
{
    if offset.is_finite() {
        reveal(Binary32::spec_rem_euclid);
        reveal(Binary32::spec_add);
        let format = Format::Binary32;
        let one = format.one();
        let datum = offset.datum();
        let steps = datum.steps(format);
        lemma_pow2_pos(149);
        lemma_one();
        lemma_mod_bound(steps as int, one as int);
        lemma_at_most_one(steps % one);
        let remainder = Datum::remainder(format, datum, Binary32::one().datum());
        assert(remainder.magnitude <= 0x3f80_0000);
        let kept = remainder.steps(format);
        if remainder.magnitude < 0x3f80_0000 {
            crate::rounding::decoding_preserves_order(
                remainder.magnitude as nat,
                0x3f80_0000,
                24,
            );
        }
        assert(kept <= one);
        assert(Binary32::of(remainder).datum() == remainder);
        lemma_at_most_one((one - kept) as nat);
    }
}

/// True zero is its own normalized offset.
pub proof fn true_zero_is_normalized()
    ensures
        normalize_waveform_offset(Binary32::zero()) == Binary32::zero(),
{
    reveal(Binary32::spec_rem_euclid);
    lemma2_to64();
    lemma2_to64_rest();
    lemma_pow2_pos(149);
    lemma_pow2_pos(24);
    assert((24 - 1) as nat == 23);
    lemma_one();
    lemma_small_mod(0, Format::Binary32.one());
    assert(crate::rounding::decoded_steps(0, 24) == 0);
    crate::rounding::decoding_round_trips(0, 24);
    let remainder = Datum::remainder(
        Format::Binary32,
        Binary32::zero().datum(),
        Binary32::one().datum(),
    );
    assert(remainder == Datum::zero(false));
}

/// An offset from zero up to one, one excluded, is its own normalized offset.
pub proof fn normalized_offsets_are_kept(offset: Binary32)
    requires
        Binary32::zero().le(offset),
        offset.lt(Binary32::one()),
    ensures
        normalize_waveform_offset(offset) == offset,
{
    reveal(Binary32::spec_rem_euclid);
    let format = Format::Binary32;
    let one = format.one();
    let datum = offset.datum();
    let magnitude = datum.magnitude as nat;
    lemma_pow2_pos(149);
    lemma_one();
    crate::rounding::decoding_preserves_order(magnitude, 0x3f80_0000, 24);
    lemma_small_mod(datum.steps(format), one);
    crate::rounding::decoding_round_trips(magnitude, 24);
    assert(Datum::remainder(format, datum, Binary32::one().datum()) == datum);
}

/// The distance from true zero, at most half a window either way.
pub open spec fn spec_signed_waveform_offset(offset: Binary32) -> Binary64 {
    let normalized = normalize_waveform_offset(offset).to_double();
    if Binary64::from_bits(0x3fe0_0000_0000_0000).lt(normalized) {
        normalized.sub(Binary64::one())
    } else {
        normalized
    }
}

/// Return the distance of an offset from true zero.
#[verifier::when_used_as_spec(spec_signed_waveform_offset)]
pub fn signed_waveform_offset(offset: Binary32) -> (distance: Binary64)
    ensures
        distance == spec_signed_waveform_offset(offset),
{
    let normalized: Binary64 = normalize_waveform_offset(offset).to_double();
    if Binary64::from_bits(HALF).lt(normalized) {
        normalized.sub(Binary64::one())
    } else {
        normalized
    }
}

/// Where a column lands when the waveform is shifted; what leaves the chart on
/// the right comes back on the left.
pub open spec fn spec_shifted_waveform_x(source_x: Binary32, offset: Binary32) -> Binary32 {
    let translated = source_x.add(normalize_waveform_offset(offset));
    if translated.le(Binary32::one()) {
        translated
    } else {
        translated.rem_euclid(Binary32::one())
    }
}

/// Shift a column by an offset.
#[verifier::when_used_as_spec(spec_shifted_waveform_x)]
pub fn shifted_waveform_x(source_x: Binary32, offset: Binary32) -> (x: Binary32)
    ensures
        x == spec_shifted_waveform_x(source_x, offset),
{
    let translated: Binary32 = source_x.add(normalize_waveform_offset(offset));
    if translated.le(Binary32::one()) {
        translated
    } else {
        translated.rem_euclid(Binary32::one())
    }
}

/// An offset in whole samples of a window.
pub open spec fn offset_samples(offset: Binary32, sample_count: usize) -> i64 {
    signed_waveform_offset(offset).mul(Binary64::from_whole(sample_count as u64)).round().to_i64()
}

/// The duration of a number of samples in milliseconds without its sign, to
/// two decimals. A rate that is not positive counts as the default one.
pub open spec fn offset_milliseconds(samples: i64, sample_rate: Binary64) -> Binary64 {
    let rate = if sample_rate.is_finite() && Binary64::zero().lt(sample_rate) {
        sample_rate
    } else {
        Binary64::from_bits(DEFAULT_SAMPLE_RATE)
    };
    Binary64::from_integer(samples).div(rate).mul(
        Binary64::from_bits(0x408f_4000_0000_0000),
    ).abs().mul(Binary64::from_bits(0x4059_0000_0000_0000)).round().div(
        Binary64::from_bits(0x4059_0000_0000_0000),
    )
}

/// The readout of an offset: signed samples and signed milliseconds.
pub open spec fn offset_text(offset: Binary32, sample_count: usize, sample_rate: Binary64) -> Seq<
    char,
> {
    let samples = offset_samples(offset, sample_count);
    let milliseconds = offset_milliseconds(samples, sample_rate);
    let sign = if samples < 0 {
        "-"@
    } else {
        "+"@
    };
    if samples == 0 {
        "0 samples · 0.00 ms"@
    } else {
        sign + crate::decimal::decimal_text(
            if samples < 0 {
                -samples as nat
            } else {
                samples as nat
            },
        ) + " samples · "@ + (if Binary64::zero().lt(milliseconds) {
            sign + milliseconds.two_decimals()
        } else {
            "0.00"@
        }) + " ms"@
    }
}

/// The readout's milliseconds are a number without a sign.
proof fn lemma_milliseconds(samples: i64, sample_rate: Binary64)
    ensures
        !offset_milliseconds(samples, sample_rate).is_nan(),
        !offset_milliseconds(samples, sample_rate).datum().negative,
{
    let rate = if sample_rate.is_finite() && Binary64::zero().lt(sample_rate) {
        sample_rate
    } else {
        Binary64::from_bits(DEFAULT_SAMPLE_RATE)
    };
    let thousand = Binary64::from_bits(0x408f_4000_0000_0000);
    let hundred = Binary64::from_bits(0x4059_0000_0000_0000);
    let whole = Binary64::from_integer(samples);
    Binary64::lemma_integer_is_number(samples);
    whole.lemma_div_is_number(rate);
    whole.div(rate).lemma_mul_is_number(thousand);
    let distance = whole.div(rate).mul(thousand).abs();
    distance.lemma_mul_is_number(hundred);
    distance.mul(hundred).lemma_round_is_number();
    distance.mul(hundred).round().lemma_div_is_number(hundred);
}

/// Describe an offset as signed samples and rounded milliseconds.
pub fn format_waveform_offset(offset: Binary32, sample_count: usize, sample_rate: Binary64) -> (text:
    String)
    ensures
        text@ == offset_text(offset, sample_count, sample_rate),
{
    let samples: i64 = signed_waveform_offset(offset).mul(
        Binary64::from_whole(sample_count as u64),
    ).round().to_i64();
    if samples == 0 {
        return String::from_str("0 samples · 0.00 ms");
    }
    let rate: Binary64 = if sample_rate.is_finite() && Binary64::zero().lt(sample_rate) {
        sample_rate
    } else {
        Binary64::from_bits(DEFAULT_SAMPLE_RATE)
    };
    let milliseconds: Binary64 = Binary64::from_integer(samples).div(rate).mul(
        Binary64::from_bits(THOUSAND),
    );
    let rounded_milliseconds: Binary64 = milliseconds.abs().mul(
        Binary64::from_bits(HUNDRED),
    ).round().div(Binary64::from_bits(HUNDRED));
    let sign: &str = if samples < 0 {
        "-"
    } else {
        "+"
    };
    let distance: u64 = if samples < 0 {
        (-(samples as i128)) as u64
    } else {
        samples as u64
    };
    let mut text: String = String::from_str(sign);
    push_decimal(&mut text, distance);
    text.append(" samples · ");
    if Binary64::zero().lt(rounded_milliseconds) {
        proof {
            lemma_milliseconds(samples, sample_rate);
        }
        let mut part: String = String::from_str(sign);
        push_two_decimals(&mut part, rounded_milliseconds);
        text.append(part.as_str());
    } else {
        text.append("0.00");
    }
    text.append(" ms");
    text
}

/// What an offset that is not negative has over whole windows is its normalized
/// offset, exactly: offsets a whole number of windows apart are the same.
pub proof fn whole_windows_do_not_count(offset: Binary32)
    requires
        offset.is_finite(),
        Binary32::zero().le(offset),
    ensures
        ({
            let one = Format::Binary32.one() as int;
            let normalized = normalize_waveform_offset(offset);
            &&& normalized.is_finite()
            &&& normalized.datum().value(Format::Binary32) == offset.datum().value(
                Format::Binary32,
            ) % one
        }),
{
    reveal(Binary32::spec_rem_euclid);
    let format = Format::Binary32;
    let one = format.one();
    let datum = offset.datum();
    let magnitude = datum.magnitude as nat;
    let steps = datum.steps(format);
    lemma_pow2_pos(149);
    lemma_one();
    lemma_pow2_pos(23);
    assert((24 - 1) as nat == 23);
    assert(crate::rounding::decoded_steps(0, 24) == 0);
    crate::ordering::lemma_remainder_is_exact(format, magnitude, 149);
    lemma_mod_bound(steps as int, one as int);
    lemma_at_most_one(steps % one);
    let remainder = Datum::remainder(format, datum, Binary32::one().datum());
    assert(Binary32::of(remainder).datum() == remainder);
    if datum.negative {
        lemma_small_mod(0, one);
        crate::rounding::decoding_round_trips(0, 24);
    }
}

/// An offset to the left is what is left of a window after the same offset to
/// the right.
pub proof fn offsets_to_the_left_come_from_the_right(offset: Binary32)
    requires
        offset.is_finite(),
        Binary32::zero().lt(offset),
    ensures
        ({
            let right = normalize_waveform_offset(offset);
            let left = normalize_waveform_offset(offset.neg());
            if Binary32::zero().lt(right) {
                left == Binary32::one().sub(right)
            } else {
                left.datum().value(Format::Binary32) == 0
            }
        }),
{
    reveal(Binary32::spec_rem_euclid);
    reveal(Binary32::spec_add);
    let format = Format::Binary32;
    let one = format.one();
    let datum = offset.datum();
    let magnitude = datum.magnitude as nat;
    let steps = datum.steps(format);
    lemma_pow2_pos(149);
    lemma_one();
    lemma_pow2_pos(23);
    assert((24 - 1) as nat == 23);
    assert(crate::rounding::decoded_steps(0, 24) == 0);
    crate::ordering::lemma_remainder_is_exact(format, magnitude, 149);
    lemma_mod_bound(steps as int, one as int);
    lemma_at_most_one(steps % one);
    let right = Datum::remainder(format, datum, Binary32::one().datum());
    let left = Datum::remainder(format, offset.neg().datum(), Binary32::one().datum());
    assert(offset.neg().datum() == Datum { negative: true, magnitude: datum.magnitude });
    assert(Binary32::of(right).datum() == right);
    assert(Binary32::of(left).datum() == left);
    assert(left.magnitude == right.magnitude);
    assert(right.steps(format) == steps % one);
    if right.magnitude > 0 {
        crate::rounding::decoding_preserves_order(0, right.magnitude as nat, 24);
        assert(Binary32::of(left).lt(Binary32::zero()));
        assert(Binary32::of(left).datum().value(format) == -(right.steps(format) as int));
        assert(Binary32::of(right).neg().datum() == left);
    }
}

/// An offset that is no finite number counts as none.
pub proof fn offsets_that_are_no_numbers_count_as_none(offset: Binary32)
    requires
        !offset.is_finite(),
    ensures
        normalize_waveform_offset(offset) == Binary32::zero(),
{
}

/// The distance of an offset from true zero is the shorter way there, to the
/// right up to half a window and to the left from there on, exactly.
pub proof fn distances_take_the_shorter_way(offset: Binary32)
    ensures
        ({
            let share = normalize_waveform_offset(offset).datum().value(Format::Binary32);
            let distance = signed_waveform_offset(offset);
            let window = Format::Binary32.one() as int;
            &&& distance.is_finite()
            &&& distance.datum().value(Format::Binary64) == pow2(925) * (if 2 * share <= window {
                share
            } else {
                share - window
            })
        }),
{
    let format = Format::Binary32;
    let double = Format::Binary64;
    let normalized = normalize_waveform_offset(offset);
    let wide = normalized.to_double();
    offsets_stay_within_a_window(offset);
    normalized.lemma_double_is_exact();
    lemma_one();
    lemma2_to64();
    lemma2_to64_rest();
    assert((24 - 1) as nat == 23);
    assert((53 - 1) as nat == 52);
    lemma_pow2_pos(925);
    lemma_pow2_pos(149);
    lemma_pow2_pos(52);
    lemma_pow2_pos(23);
    assert(crate::rounding::decoded_steps(0, 24) == 0);
    assert(crate::rounding::decoded_steps(0, 53) == 0);
    let unit = format.one();
    let share = normalized.datum().value(format);
    let steps = normalized.datum().steps(format);
    // Half and one in both precisions.
    lemma_pow2_adds(23, 125);
    lemma_pow2_adds(52, 1021);
    lemma_pow2_adds(148, 925);
    lemma_pow2_adds(1, 148);
    lemma_pow2_adds(52, 1022);
    lemma_pow2_adds(149, 925);
    assert(crate::rounding::decoded_steps(0x3f00_0000, 24) == pow2(148));
    assert(crate::rounding::decoded_steps(0x3fe0_0000_0000_0000, 53) == pow2(1073));
    assert(crate::rounding::decoded_steps(0x3ff0_0000_0000_0000, 53) == pow2(1074));
    let half = Binary64::from_bits(0x3fe0_0000_0000_0000);
    if normalized.datum().negative {
        assert(steps == 0);
    } else {
        crate::ordering::lemma_steps_in_order(format, normalized.datum().magnitude, 0x3f80_0000);
    }
    assert(share == steps);
    assert(wide.datum().value(double) == steps * pow2(925));
    assert(pow2(925) * share == steps * pow2(925)) by (nonlinear_arith)
        requires
            share == steps,
    ;
    if 2 * share <= unit {
        assert(steps * pow2(925) <= pow2(1073)) by (nonlinear_arith)
            requires
                2 * steps <= 2 * pow2(148),
                pow2(1073) == pow2(148) * pow2(925),
        ;
        if half.lt(wide) {
            crate::rounding::decoding_preserves_order(
                0x3fe0_0000_0000_0000,
                wide.datum().magnitude as nat,
                53,
            );
        }
    } else {
        assert(steps * pow2(925) > pow2(1073)) by (nonlinear_arith)
            requires
                steps > pow2(148),
                pow2(1073) == pow2(148) * pow2(925),
                pow2(925) > 0,
        ;
        if wide.le(half) {
            crate::ordering::lemma_steps_in_order(
                double,
                wide.datum().magnitude,
                0x3fe0_0000_0000_0000,
            );
        }
        assert(half.lt(wide));
        lemma_rest_of_a_window(normalized);
    }
}

/// What is left of a window after more than half of it is held exactly.
proof fn lemma_rest_of_a_window(share: Binary32)
    requires
        !share.datum().negative,
        pow2(148) < share.datum().steps(Format::Binary32) <= Format::Binary32.one(),
        share.is_finite(),
    ensures
        share.to_double().sub(Binary64::one()).is_finite(),
        share.to_double().sub(Binary64::one()).datum().value(Format::Binary64) == pow2(925) * (
        share.datum().steps(Format::Binary32) - Format::Binary32.one()),
{
    reveal(Binary64::spec_add);
    let format = Format::Binary32;
    let double = Format::Binary64;
    let steps = share.datum().steps(format);
    let unit = format.one();
    let magnitude = share.datum().magnitude as nat;
    share.lemma_double_is_exact();
    lemma_one();
    lemma2_to64();
    lemma2_to64_rest();
    assert((24 - 1) as nat == 23);
    assert((53 - 1) as nat == 52);
    lemma_pow2_pos(925);
    lemma_pow2_pos(1050);
    lemma_pow2_adds(23, 125);
    lemma_pow2_adds(24, 125);
    lemma_pow2_adds(52, 1022);
    lemma_pow2_adds(149, 925);
    lemma_pow2_adds(125, 925);
    lemma_pow2_adds(24, 1050);
    assert(crate::rounding::decoded_steps(0x3f00_0000, 24) == pow2(148));
    assert(crate::rounding::decoded_steps(0x3ff0_0000_0000_0000, 53) == pow2(1074));
    if magnitude <= 0x3f00_0000 {
        crate::ordering::lemma_steps_in_order(format, share.datum().magnitude, 0x3f00_0000);
    }
    if magnitude > 0x3f80_0000 {
        crate::rounding::decoding_preserves_order(0x3f80_0000, magnitude, 24);
    }
    assert(0x3f00_0000 < magnitude <= 0x3f80_0000);
    let digits: nat = if magnitude == 0x3f80_0000 {
        0x100_0000
    } else {
        (magnitude % 0x80_0000 + 0x80_0000) as nat
    };
    assert(pow2(23) == 0x80_0000);
    assert(pow2(24) == 0x100_0000);
    assert(steps == digits * pow2(125)) by {
        if magnitude < 0x3f80_0000 {
            assert(magnitude / 0x80_0000 == 126);
        }
    }
    let left = (0x100_0000 - digits) as nat;
    let wide = share.to_double();
    let minus = Binary64::one().neg();
    assert(minus.datum().value(double) == -(pow2(1074) as int));
    let exact = wide.datum().value(double) + minus.datum().value(double);
    assert(unit - steps == left * pow2(125)) by (nonlinear_arith)
        requires
            steps == digits * pow2(125),
            unit == 0x100_0000 * pow2(125),
            left == 0x100_0000 - digits,
    ;
    assert(exact == -((left * pow2(1050)) as int)) by (nonlinear_arith)
        requires
            exact == steps * pow2(925) - pow2(1074),
            pow2(1074) == unit * pow2(925),
            unit - steps == left * pow2(125),
            pow2(1050) == pow2(125) * pow2(925),
    ;
    assert(exact == pow2(925) * (steps - unit)) by (nonlinear_arith)
        requires
            exact == steps * pow2(925) - pow2(1074),
            pow2(1074) == unit * pow2(925),
    ;
    lemma_pow2_pos(52);
    assert(crate::rounding::decoded_steps(0, 53) == 0);
    if exact != 0 {
        lemma_pow2_strictly_increases(24, 53);
        crate::rounding::encoding_is_exact(left, 1050, 53);
        // What is left is less than one.
        assert((left * pow2(1050)) * 1 <= pow2(1074) * 1) by (nonlinear_arith)
            requires
                left <= 0x100_0000,
                pow2(1074) == 0x100_0000 * pow2(1050),
        ;
        crate::rounding::encoding_preserves_order(left * pow2(1050), 1, pow2(1074), 1, 53);
        crate::rounding::decoding_round_trips(0x3ff0_0000_0000_0000, 53);
    }
}

/// A shifted column lies where its place and the offset come to, and what they
/// come to beyond the chart is counted from its left edge again.
pub proof fn shifted_columns_come_back_on_the_left(source_x: Binary32, offset: Binary32)
    requires
        source_x.is_finite(),
        Binary32::zero().le(source_x),
    ensures
        ({
            let one = Format::Binary32.one() as int;
            let place = source_x.add(normalize_waveform_offset(offset));
            let shifted = shifted_waveform_x(source_x, offset);
            &&& place.le(Binary32::one()) ==> shifted == place
            &&& Binary32::one().lt(place) && place.is_finite() ==> shifted.datum().value(
                Format::Binary32,
            ) == place.datum().value(Format::Binary32) % one
        }),
{
    let place = source_x.add(normalize_waveform_offset(offset));
    if Binary32::one().lt(place) && place.is_finite() {
        whole_windows_do_not_count(place);
        assert(normalize_waveform_offset(place) == place.rem_euclid(Binary32::one()));
    }
}

/// The samples that a readout tells are the whole number nearest to the offset's
/// distance from true zero, in samples of the window.
pub proof fn readouts_tell_the_nearest_sample(offset: Binary32, sample_count: usize)
    requires
        ({
            let exact = signed_waveform_offset(offset).mul(
                Binary64::from_whole(sample_count as u64),
            );
            exact.is_finite() && exact.datum().steps(Format::Binary64)
                < 0x10_0000_0000_0000 * Format::Binary64.one()
        }),
    ensures
        ({
            let one = Format::Binary64.one();
            let exact = signed_waveform_offset(offset).mul(
                Binary64::from_whole(sample_count as u64),
            ).datum().value(Format::Binary64);
            let told = offset_samples(offset, sample_count) * one;
            &&& 2 * (exact - told) <= one
            &&& 2 * (told - exact) <= one
        }),
{
    reveal(Binary64::spec_round);
    reveal(Binary64::spec_to_i64);
    let format = Format::Binary64;
    let one = format.one();
    let product = signed_waveform_offset(offset).mul(Binary64::from_whole(sample_count as u64));
    let steps = product.datum().steps(format);
    let negative = product.datum().negative;
    lemma_pow2_pos(1074);
    lemma_pow2_pos(52);
    assert((53 - 1) as nat == 52);
    lemma2_to64();
    lemma2_to64_rest();
    let nearest = (2 * steps + one) / (2 * one);
    lemma_fundamental_div_mod((2 * steps + one) as int, (2 * one) as int);
    lemma_mod_bound((2 * steps + one) as int, (2 * one) as int);
    let rest = (2 * steps + one) % (2 * one);
    assert(2 * steps + one == 2 * (one * nearest) + rest) by (nonlinear_arith)
        requires
            2 * steps + one == (2 * one) * nearest + rest,
    ;
    assert(one * nearest == nearest * one) by (nonlinear_arith);
    let most = 0x10_0000_0000_0000nat;
    assert(nearest <= most) by (nonlinear_arith)
        requires
            2 * steps + one == 2 * (one * nearest) + rest,
            0 <= rest,
            steps < most * one,
            one > 0,
    ;
    let whole = product.round();
    assert(crate::rounding::decoded_steps(0, 53) == 0);
    if nearest > 0 {
        crate::rounding::encoding_is_exact(nearest, 1074, 53);
        lemma_pow2_adds(53, 1074);
        lemma_pow2_adds(52, 1075);
        let limit: nat = 0x4340_0000_0000_0000;
        assert(crate::rounding::decoded_steps(limit, 53) == pow2(52) * pow2(1075));
        assert(nearest * one <= pow2(53) * one) by (nonlinear_arith)
            requires
                nearest <= pow2(53),
        ;
        crate::rounding::encoding_preserves_order(nearest * one, 1, pow2(1127), 1, 53);
        crate::rounding::decoding_round_trips(limit, 53);
        assert(crate::float::signed(negative, nearest) != 0);
    }
    assert(whole.is_finite());
    assert(whole.datum().steps(format) == nearest * one);
    lemma_div_by_multiple(nearest as int, one as int);
    assert(whole.datum().whole(format) == nearest);
    let told = offset_samples(offset, sample_count);
    assert(told == crate::float::signed(negative, nearest));
    if negative {
        assert((-(nearest as int)) * one == -(nearest * one)) by (nonlinear_arith);
    }
}

/// A readout without a whole sample tells nothing of a direction; any other
/// tells its direction, its samples and the milliseconds that they take at the
/// sample rate, in hundredths. A sample rate that cannot be used counts as 48
/// kHz.
pub proof fn readouts_tell_samples_and_milliseconds(
    offset: Binary32,
    sample_count: usize,
    sample_rate: Binary64,
)
    ensures
        ({
            let samples = offset_samples(offset, sample_count);
            let rate = if sample_rate.is_finite() && Binary64::zero().lt(sample_rate) {
                sample_rate
            } else {
                Binary64 { bits: 0x40e7_7000_0000_0000 }
            };
            let hundred = Binary64 { bits: 0x4059_0000_0000_0000 };
            let milliseconds = Binary64::from_integer(samples).div(rate).mul(
                Binary64 { bits: 0x408f_4000_0000_0000 },
            ).abs().mul(hundred).round().div(hundred);
            let sign = if samples < 0 {
                "-"@
            } else {
                "+"@
            };
            let distance = if samples < 0 {
                -samples
            } else {
                samples as int
            };
            &&& samples == 0 ==> offset_text(offset, sample_count, sample_rate)
                == "0 samples · 0.00 ms"@
            &&& samples != 0 && Binary64::zero().lt(milliseconds) ==> offset_text(
                offset,
                sample_count,
                sample_rate,
            ) == sign + crate::decimal::decimal_text(distance as nat) + " samples · "@ + (sign
                + milliseconds.two_decimals()) + " ms"@
            &&& samples != 0 && !Binary64::zero().lt(milliseconds) ==> offset_text(
                offset,
                sample_count,
                sample_rate,
            ) == sign + crate::decimal::decimal_text(distance as nat) + " samples · "@ + "0.00"@
                + " ms"@
        }),
{
}

} // verus!
