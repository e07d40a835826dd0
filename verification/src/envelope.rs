//! Peak-preserving min/max envelopes of captured stereo samples.

use crate::binary::Binary32;
use vstd::prelude::*;

verus! {

/// Number of peak-preserving min/max columns sent to the retained editor.
pub const ENVELOPE_BINS: usize = 1024;

/// The bit pattern of minus one.
const MINUS_ONE: u32 = 0xbf80_0000;

/// One vertical min/max envelope column. `==` compares the numbers.
#[derive(Clone, Copy, Debug)]
pub struct EnvelopePoint {
    /// Lowest sample in this envelope column.
    pub min: Binary32,
    /// Highest sample in this envelope column.
    pub max: Binary32,
}

impl PartialEq for EnvelopePoint {
    fn eq(&self, other: &EnvelopePoint) -> (same: bool) {
        self.min.equals(other.min) && self.max.equals(other.max)
    }
}

impl vstd::std_specs::cmp::PartialEqSpecImpl for EnvelopePoint {
    open spec fn obeys_eq_spec() -> bool {
        true
    }

    open spec fn eq_spec(&self, other: &EnvelopePoint) -> bool {
        self.spec_same(*other)
    }
}

impl EnvelopePoint {
    /// Both columns have the same numbers.
    pub open spec fn spec_same(self, other: EnvelopePoint) -> bool {
        self.min.equals(other.min) && self.max.equals(other.max)
    }
}

impl Default for EnvelopePoint {
    fn default() -> (point: EnvelopePoint)
        ensures
            point == EnvelopePoint::spec_flat(),
    {
        EnvelopePoint::flat()
    }
}

impl EnvelopePoint {
    /// The column drawn where nothing was captured.
    pub open spec fn spec_flat() -> EnvelopePoint {
        EnvelopePoint { min: Binary32::from_bits(0), max: Binary32::from_bits(0) }
    }

    /// The column drawn where nothing was captured.
    #[verifier::when_used_as_spec(spec_flat)]
    pub fn flat() -> (point: EnvelopePoint)
        ensures
            point == EnvelopePoint::spec_flat(),
    {
        EnvelopePoint { min: Binary32::zero(), max: Binary32::zero() }
    }

    /// The column that every sample narrows: lowest above highest.
    pub open spec fn spec_unfilled() -> EnvelopePoint {
        EnvelopePoint { min: Binary32::from_bits(0x3f80_0000), max: Binary32::from_bits(0xbf80_0000) }
    }

    /// The column that every sample narrows: lowest above highest.
    #[verifier::when_used_as_spec(spec_unfilled)]
    pub fn unfilled() -> (point: EnvelopePoint)
        ensures
            point == EnvelopePoint::spec_unfilled(),
    {
        EnvelopePoint { min: Binary32::one(), max: Binary32::from_bits(MINUS_ONE) }
    }

    /// This column, or a flat one when its lowest is not below its highest.
    pub open spec fn spec_displayable(self) -> EnvelopePoint {
        if self.min.le(self.max) {
            self
        } else {
            EnvelopePoint::flat()
        }
    }

    /// This column, or a flat one when its lowest is not below its highest.
    #[verifier::when_used_as_spec(spec_displayable)]
    pub fn displayable(self) -> (point: EnvelopePoint)
        ensures
            point == self.spec_displayable(),
    {
        if self.min.le(self.max) {
            self
        } else {
            EnvelopePoint::flat()
        }
    }

    /// This column with one more stereo sample in it.
    pub open spec fn widened(self, left: Binary32, right: Binary32) -> EnvelopePoint {
        EnvelopePoint {
            min: self.min.min(left).min(right),
            max: self.max.max(left).max(right),
        }
    }
}

/// An envelope with nothing captured in it.
pub open spec fn blank_envelope() -> Seq<EnvelopePoint> {
    Seq::new(ENVELOPE_BINS as nat, |bin: int| EnvelopePoint::unfilled())
}

/// The column of a sample in a window of `sample_count` samples.
pub open spec fn envelope_bin(sample_index: usize, sample_count: usize) -> int {
    let product = sample_index * ENVELOPE_BINS;
    let scaled = if product > usize::MAX {
        usize::MAX as int
    } else {
        product
    };
    let bin = scaled / (if sample_count == 0 {
        1
    } else {
        sample_count as int
    });
    if bin < ENVELOPE_BINS {
        bin
    } else {
        ENVELOPE_BINS - 1
    }
}

/// A sample held to the range from minus one to one; a sample that is not
/// finite counts as silence.
pub open spec fn spec_sanitize_sample(sample: Binary32) -> Binary32 {
    if sample.is_finite() {
        sample.clamp(Binary32::from_bits(0xbf80_0000), Binary32::one())
    } else {
        Binary32::zero()
    }
}

/// Hold a sample to the range from minus one to one.
#[verifier::when_used_as_spec(spec_sanitize_sample)]
pub fn sanitize_sample(sample: Binary32) -> (result: Binary32)
    ensures
        result == spec_sanitize_sample(sample),
{
    if sample.is_finite() {
        sample.clamp(Binary32::from_bits(MINUS_ONE), Binary32::one())
    } else {
        Binary32::zero()
    }
}

/// The envelope after one more stereo sample.
pub open spec fn accumulated(
    envelope: Seq<EnvelopePoint>,
    sample_index: usize,
    sample_count: usize,
    left: Binary32,
    right: Binary32,
) -> Seq<EnvelopePoint> {
    let bin = envelope_bin(sample_index, sample_count);
    envelope.update(
        bin,
        envelope[bin].widened(sanitize_sample(left), sanitize_sample(right)),
    )
}

/// Forget everything captured in an envelope.
pub fn clear_capture_envelope(envelope: &mut [EnvelopePoint; ENVELOPE_BINS])
    ensures
        final(envelope)@ == blank_envelope(),
{
    *envelope = [EnvelopePoint::unfilled(); ENVELOPE_BINS];
    assert(envelope@ =~= blank_envelope());
}

/// Widen the column of one stereo sample to hold it.
pub fn accumulate_capture_envelope(
    envelope: &mut [EnvelopePoint; ENVELOPE_BINS],
    sample_index: usize,
    sample_count: usize,
    left: Binary32,
    right: Binary32,
)
    ensures
        final(envelope)@ == accumulated(old(envelope)@, sample_index, sample_count, left, right),
{
    let scaled: usize = match sample_index.checked_mul(ENVELOPE_BINS) {
        Some(product) => product,
        None => usize::MAX,
    };
    let divisor: usize = if sample_count == 0 {
        1
    } else {
        sample_count
    };
    let bin: usize = if scaled / divisor < ENVELOPE_BINS {
        scaled / divisor
    } else {
        ENVELOPE_BINS - 1
    };
    let left: Binary32 = sanitize_sample(left);
    let right: Binary32 = sanitize_sample(right);
    let point: EnvelopePoint = envelope[bin];
    envelope[bin] = EnvelopePoint {
        min: point.min.min(left).min(right),
        max: point.max.max(left).max(right),
    };
}

/// The envelope of samples captured into a window of `target` samples.
pub open spec fn gathered(samples: Seq<(Binary32, Binary32)>, target: usize) -> Seq<EnvelopePoint>
    decreases samples.len(),
{
    if samples.len() == 0 {
        blank_envelope()
    } else {
        let sample = samples.last();
        accumulated(
            gathered(samples.drop_last(), target),
            (samples.len() - 1) as usize,
            target,
            sample.0,
            sample.1,
        )
    }
}

/// A sanitized sample is a number.
proof fn lemma_sanitized_is_number(sample: Binary32)
    ensures
        !sanitize_sample(sample).is_nan(),
{
}

/// Columns hold numbers, and there are as many as there are bins.
proof fn lemma_gathered_is_envelope(samples: Seq<(Binary32, Binary32)>, target: usize)
    ensures
        gathered(samples, target).len() == ENVELOPE_BINS,
        forall|bin: int|
            0 <= bin < ENVELOPE_BINS ==> !(#[trigger] gathered(samples, target)[bin]).min.is_nan()
                && !gathered(samples, target)[bin].max.is_nan(),
    decreases samples.len(),
{
    if samples.len() > 0 {
        lemma_gathered_is_envelope(samples.drop_last(), target);
        lemma_sanitized_is_number(samples.last().0);
        lemma_sanitized_is_number(samples.last().1);
    }
}

/// A column stands for the samples in it: none of them lies outside.
pub proof fn peaks_are_preserved(
    samples: Seq<(Binary32, Binary32)>,
    target: usize,
    index: int,
)
    requires
        0 <= index < samples.len() <= usize::MAX,
    ensures
        ({
            let column = gathered(samples, target)[envelope_bin(index as usize, target)];
            let left = sanitize_sample(samples[index].0);
            let right = sanitize_sample(samples[index].1);
            &&& column.min.le(left) && left.le(column.max)
            &&& column.min.le(right) && right.le(column.max)
        }),
    decreases samples.len(),
{
    let rest = samples.drop_last();
    let before = gathered(rest, target);
    lemma_gathered_is_envelope(rest, target);
    lemma_sanitized_is_number(samples.last().0);
    lemma_sanitized_is_number(samples.last().1);
    lemma_sanitized_is_number(samples[index].0);
    lemma_sanitized_is_number(samples[index].1);
    let bin = envelope_bin((samples.len() - 1) as usize, target);
    lemma_bin_in_range((samples.len() - 1) as usize, target);
    lemma_bin_in_range(index as usize, target);
    if index < samples.len() - 1 {
        peaks_are_preserved(rest, target, index);
        assert(rest[index] == samples[index]);
    }
}

proof fn lemma_bin_in_range(sample_index: usize, sample_count: usize)
    ensures
        0 <= envelope_bin(sample_index, sample_count) < ENVELOPE_BINS,
{
    let product = sample_index * ENVELOPE_BINS;
    let scaled = if product > usize::MAX {
        usize::MAX as int
    } else {
        product
    };
    let divisor = if sample_count == 0 {
        1
    } else {
        sample_count as int
    };
    vstd::arithmetic::div_mod::lemma_div_pos_is_pos(scaled, divisor);
}

/// The bounds of a column are those of samples in it, or those of a column
/// that nothing was captured in.
pub proof fn extremes_are_attained(
    samples: Seq<(Binary32, Binary32)>,
    target: usize,
    bin: int,
)
    requires
        samples.len() <= usize::MAX,
        0 <= bin < ENVELOPE_BINS,
    ensures
        ({
            let column = gathered(samples, target)[bin];
            &&& column.min == EnvelopePoint::unfilled().min || exists|index: int|
                0 <= index < samples.len() && #[trigger] envelope_bin(index as usize, target) == bin
                    && is_either(column.min, samples[index])
            &&& column.max == EnvelopePoint::unfilled().max || exists|index: int|
                0 <= index < samples.len() && #[trigger] envelope_bin(index as usize, target) == bin
                    && is_either(column.max, samples[index])
        }),
    decreases samples.len(),
{
    if samples.len() > 0 {
        let rest = samples.drop_last();
        let last = samples.len() - 1;
        extremes_are_attained(rest, target, bin);
        lemma_gathered_is_envelope(rest, target);
        let before = gathered(rest, target)[bin];
        let column = gathered(samples, target)[bin];
        if column.min == before.min && before.min != EnvelopePoint::unfilled().min {
            let index = choose|index: int|
                0 <= index < rest.len() && #[trigger] envelope_bin(index as usize, target) == bin
                    && is_either(before.min, rest[index]);
            assert(rest[index] == samples[index]);
            assert(envelope_bin(index as usize, target) == bin && is_either(
                column.min,
                samples[index],
            ));
        } else if column.min != before.min {
            assert(envelope_bin(last as usize, target) == bin);
            assert(is_either(column.min, samples[last]));
        }
        if column.max == before.max && before.max != EnvelopePoint::unfilled().max {
            let index = choose|index: int|
                0 <= index < rest.len() && #[trigger] envelope_bin(index as usize, target) == bin
                    && is_either(before.max, rest[index]);
            assert(rest[index] == samples[index]);
            assert(envelope_bin(index as usize, target) == bin && is_either(
                column.max,
                samples[index],
            ));
        } else if column.max != before.max {
            assert(envelope_bin(last as usize, target) == bin);
            assert(is_either(column.max, samples[last]));
        }
    }
}

/// A level is that of either channel of a sample.
pub open spec fn is_either(level: Binary32, sample: (Binary32, Binary32)) -> bool {
    level == sanitize_sample(sample.0) || level == sanitize_sample(sample.1)
}

/// A column that a sample was captured in is drawn as it is.
pub proof fn filled_columns_are_drawn(
    samples: Seq<(Binary32, Binary32)>,
    target: usize,
    index: int,
)
    requires
        0 <= index < samples.len() <= usize::MAX,
    ensures
        ({
            let column = gathered(samples, target)[envelope_bin(index as usize, target)];
            column.displayable() == column
        }),
{
    peaks_are_preserved(samples, target, index);
}

/// A sample is held between minus one and one: one in that range is left
/// alone, one beyond it is cut to the nearer end, and one that is no finite
/// number counts as silence.
pub proof fn samples_are_held_to_full_scale(sample: Binary32)
    ensures
        ({
            let minus_one = Binary32 { bits: 0xbf80_0000 };
            let one = Binary32 { bits: 0x3f80_0000 };
            let held = sanitize_sample(sample);
            &&& held.is_finite()
            &&& minus_one.le(held) && held.le(one)
            &&& minus_one.le(sample) && sample.le(one) ==> held == sample
            &&& sample.is_finite() && one.lt(sample) ==> held == one
            &&& sample.is_finite() && sample.lt(minus_one) ==> held == minus_one
            &&& !sample.is_finite() ==> held == (Binary32 { bits: 0 })
        }),
{
}

/// The whole number of columns before a share of a window is the only one that
/// fits.
proof fn lemma_column_is_unique(sample_index: usize, sample_count: usize, column: int)
    requires
        sample_count > 0,
        sample_index * 1024 <= usize::MAX,
        column * sample_count <= sample_index * 1024 < (column + 1) * sample_count,
        0 <= column < 1024,
    ensures
        envelope_bin(sample_index, sample_count) == column,
{
    let product = sample_index * 1024;
    let count = sample_count as int;
    assert((column + 1) * count == column * count + count && count * column == column * count)
        by (nonlinear_arith);
    vstd::arithmetic::div_mod::lemma_fundamental_div_mod_converse(
        product,
        count,
        column,
        product - column * count,
    );
}

/// A sample belongs to the column that holds its share of the window: the
/// window is cut into 1024 equal parts, and the sample's part is widened to
/// the sample, by no more than it takes. All other columns stay.
pub proof fn samples_widen_the_column_of_their_share(
    envelope: Seq<EnvelopePoint>,
    sample_index: usize,
    sample_count: usize,
    left: Binary32,
    right: Binary32,
    column: int,
)
    requires
        envelope.len() == 1024,
        sample_count > 0,
        sample_index * 1024 <= usize::MAX,
        column * sample_count <= sample_index * 1024 < (column + 1) * sample_count,
        0 <= column < 1024,
        !envelope[column].min.is_nan(),
        !envelope[column].max.is_nan(),
    ensures
        ({
            let after = accumulated(envelope, sample_index, sample_count, left, right);
            let before = envelope[column];
            let low = after[column].min;
            let high = after[column].max;
            let one = sanitize_sample(left);
            let other = sanitize_sample(right);
            &&& after.len() == 1024
            &&& forall|bin: int|
                0 <= bin < 1024 && bin != column ==> #[trigger] after[bin] == envelope[bin]
            &&& low.le(before.min) && low.le(one) && low.le(other)
            &&& low == before.min || low == one || low == other
            &&& before.max.le(high) && one.le(high) && other.le(high)
            &&& high == before.max || high == one || high == other
        }),
{
    lemma_column_is_unique(sample_index, sample_count, column);
}

/// Every sample inside a window has a column, and those of later samples do not
/// lie before those of earlier ones.
pub proof fn columns_follow_the_window(earlier: usize, later: usize, sample_count: usize)
    requires
        earlier <= later < sample_count,
    ensures
        0 <= envelope_bin(earlier, sample_count) <= envelope_bin(later, sample_count) < 1024,
        later * 1024 <= usize::MAX ==> {
            let column = envelope_bin(later, sample_count);
            column * sample_count <= later * 1024 < (column + 1) * sample_count
        },
        later * 1024 > usize::MAX ==> {
            let column = envelope_bin(later, sample_count);
            column * sample_count <= usize::MAX < (column + 1) * sample_count
        },
{
    let one = if earlier * 1024 > usize::MAX {
        usize::MAX as int
    } else {
        earlier * 1024
    };
    let other = if later * 1024 > usize::MAX {
        usize::MAX as int
    } else {
        later * 1024
    };
    let count = sample_count as int;
    lemma_bin_in_range(earlier, sample_count);
    lemma_bin_in_range(later, sample_count);
    vstd::arithmetic::div_mod::lemma_div_is_ordered(one, other, count);
    vstd::arithmetic::div_mod::lemma_fundamental_div_mod(other, count);
    vstd::arithmetic::div_mod::lemma_mod_bound(other, count);
    let column = other / count;
    assert(column < 1024 && column * count <= other < (column + 1) * count) by (nonlinear_arith)
        requires
            other == count * column + other % count,
            0 <= other % count < count,
            other < 1024 * count,
    ;
}

/// Samples past the end of a window, or of no window at all, fall into the last
/// column.
pub proof fn samples_past_the_window_fall_into_the_last_column(
    sample_index: usize,
    sample_count: usize,
)
    requires
        0 < sample_index,
        sample_count <= sample_index,
        sample_index * 1024 <= usize::MAX,
    ensures
        envelope_bin(sample_index, sample_count) == 1023,
{
    let product = sample_index * 1024;
    if sample_count > 0 {
        let count = sample_count as int;
        assert(1024 * count <= product && count * 1024 == 1024 * count);
        vstd::arithmetic::div_mod::lemma_div_is_ordered(1024 * count, product, count);
        vstd::arithmetic::div_mod::lemma_div_multiples_vanish(1024, count);
    }
}

/// A column shows its share of a window and nothing else: it spans every
/// sample in its part of the window, both ends are those of such samples, and
/// a column whose part holds no sample is empty.
pub proof fn columns_show_their_share_of_a_window(
    samples: Seq<(Binary32, Binary32)>,
    target: usize,
    bin: int,
)
    requires
        samples.len() <= target,
        target * 1024 <= usize::MAX,
        0 <= bin < 1024,
    ensures
        ({
            let column = gathered(samples, target)[bin];
            &&& forall|index: int|
                0 <= index < samples.len() && bin * target <= index * 1024 < (bin + 1) * target
                    ==> {
                    &&& column.min.le(sanitize_sample((#[trigger] samples[index]).0))
                    &&& sanitize_sample(samples[index].0).le(column.max)
                    &&& column.min.le(sanitize_sample(samples[index].1))
                    &&& sanitize_sample(samples[index].1).le(column.max)
                }
            &&& column.min == (Binary32 { bits: 0x3f80_0000 }) || exists|index: int|
                0 <= index < samples.len() && bin * target <= index * 1024 < (bin + 1) * target
                    && is_either(column.min, #[trigger] samples[index])
            &&& column.max == (Binary32 { bits: 0xbf80_0000 }) || exists|index: int|
                0 <= index < samples.len() && bin * target <= index * 1024 < (bin + 1) * target
                    && is_either(column.max, #[trigger] samples[index])
        }),
{
    let column = gathered(samples, target)[bin];
    assert forall|index: int|
        0 <= index < samples.len() && bin * target <= index * 1024 < (bin + 1) * target implies {
        &&& column.min.le(sanitize_sample((#[trigger] samples[index]).0))
        &&& sanitize_sample(samples[index].0).le(column.max)
        &&& column.min.le(sanitize_sample(samples[index].1))
        &&& sanitize_sample(samples[index].1).le(column.max)
    } by {
        lemma_column_is_unique(index as usize, target, bin);
        peaks_are_preserved(samples, target, index);
    }
    extremes_are_attained(samples, target, bin);
    if column.min != (Binary32 { bits: 0x3f80_0000 }) {
        let index = choose|index: int|
            0 <= index < samples.len() && #[trigger] envelope_bin(index as usize, target) == bin
                && is_either(column.min, samples[index]);
        columns_follow_the_window(index as usize, index as usize, target);
        assert(is_either(column.min, samples[index]));
    }
    if column.max != (Binary32 { bits: 0xbf80_0000 }) {
        let index = choose|index: int|
            0 <= index < samples.len() && #[trigger] envelope_bin(index as usize, target) == bin
                && is_either(column.max, samples[index]);
        columns_follow_the_window(index as usize, index as usize, target);
        assert(is_either(column.max, samples[index]));
    }
}

/// A full window of at least as many samples as there are columns leaves no
/// column empty: every one spans a sample of its part of the window, and is
/// drawn as it is.
pub proof fn full_windows_fill_every_column(
    samples: Seq<(Binary32, Binary32)>,
    target: usize,
    bin: int,
)
    requires
        samples.len() == target,
        1024 <= target,
        target * 1024 <= usize::MAX,
        0 <= bin < 1024,
    ensures
        ({
            let column = gathered(samples, target)[bin];
            &&& exists|index: int|
                0 <= index < samples.len() && bin * target <= index * 1024 < (bin + 1) * target
                    && column.min.le(sanitize_sample((#[trigger] samples[index]).0))
                    && sanitize_sample(samples[index].0).le(column.max)
            &&& column.min.le(column.max)
            &&& column.displayable() == column
        }),
{
    let size = target as int;
    // The first sample at or after the start of the part.
    let index = (bin * size + 1023) / 1024;
    assert(bin * size <= index * 1024 <= bin * size + 1023);
    assert(0 <= bin * size && (bin + 1) * size == bin * size + size && bin * size + size <= 1024
        * size) by (nonlinear_arith)
        requires
            0 <= bin < 1024,
            size >= 0,
    ;
    assert(0 <= index < samples.len());
    columns_show_their_share_of_a_window(samples, target, bin);
    assert(samples[index] == samples[index]);
    lemma_column_is_unique(index as usize, target, bin);
    filled_columns_are_drawn(samples, target, index);
    peaks_are_preserved(samples, target, index);
}

/// Columns are equal exactly when both ends are the same numbers.
pub proof fn equal_columns_have_equal_ends(one: EnvelopePoint, other: EnvelopePoint)
    ensures
        vstd::std_specs::cmp::PartialEqSpec::eq_spec(&one, &other) <==> {
            &&& one.min.le(other.min) && other.min.le(one.min)
            &&& one.max.le(other.max) && other.max.le(one.max)
        },
{
}

} // verus!
