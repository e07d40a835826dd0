//! The waveform chart: where it lies and the lines drawn in it.

use crate::binary::Binary32;
use crate::float::Format;
use crate::envelope::{EnvelopePoint, ENVELOPE_BINS};
use crate::geometry::{Point, Rect};
use crate::offset::normalize_waveform_offset;
use vstd::arithmetic::power2::*;
use vstd::prelude::*;

verus! {

/// The bit pattern of one half.
const HALF: u32 = 0x3f00_0000;

/// The bit pattern of two.
const TWO: u32 = 0x4000_0000;

/// The bit pattern of three.
const THREE: u32 = 0x4040_0000;

/// The bit pattern of four.
const FOUR: u32 = 0x4080_0000;

/// The bit pattern of the chart's margin, sixteen.
const MARGIN: u32 = 0x4180_0000;

/// The bit pattern of both margins, thirty-two.
const MARGINS: u32 = 0x4200_0000;

/// The bit pattern of the tallest header, thirty-four.
const HEADER_HEIGHT: u32 = 0x4208_0000;

/// The bit pattern of the header's share of a low editor, a fifth.
const HEADER_SHARE: u32 = 0x3e4c_cccd;

/// The bit pattern of the tallest footer, twenty-eight.
const FOOTER_HEIGHT: u32 = 0x41e0_0000;

/// The bit pattern of the footer's share of a low editor, 0.12.
const FOOTER_SHARE: u32 = 0x3df5_c28f;

/// The bit pattern of minus one.
const MINUS_ONE: u32 = 0xbf80_0000;

/// The height of the header above the chart.
pub open spec fn spec_header_height(height: Binary32) -> Binary32 {
    Binary32::from_bits(0x4208_0000).min(height.mul(Binary32::from_bits(0x3e4c_cccd)))
}

/// The height of the header above the chart.
#[verifier::when_used_as_spec(spec_header_height)]
pub fn header_height(height: Binary32) -> (header: Binary32)
    ensures
        header == spec_header_height(height),
{
    Binary32::from_bits(HEADER_HEIGHT).min(height.mul(Binary32::from_bits(HEADER_SHARE)))
}

/// The height of the footer below the chart.
pub open spec fn spec_footer_height(height: Binary32) -> Binary32 {
    Binary32::from_bits(0x41e0_0000).min(height.mul(Binary32::from_bits(0x3df5_c28f)))
}

/// The height of the footer below the chart.
#[verifier::when_used_as_spec(spec_footer_height)]
pub fn footer_height(height: Binary32) -> (footer: Binary32)
    ensures
        footer == spec_footer_height(height),
{
    Binary32::from_bits(FOOTER_HEIGHT).min(height.mul(Binary32::from_bits(FOOTER_SHARE)))
}

/// The chart inside an editor: below the header, above the footer, with a
/// margin on either side, and at least one unit wide and high.
pub open spec fn spec_chart_rect(bounds: Rect) -> Rect {
    let width = bounds.width().max(Binary32::one());
    let height = bounds.height().max(Binary32::one());
    let header = header_height(height);
    let margin = Binary32::from_bits(0x4180_0000);
    Rect::from_xy_size(
        bounds.min.x.add(margin),
        bounds.min.y.add(header),
        width.sub(Binary32::from_bits(0x4200_0000)).max(Binary32::one()),
        height.sub(header).sub(footer_height(height)).sub(margin).max(Binary32::one()),
    )
}

/// Lay the chart out inside an editor.
#[verifier::when_used_as_spec(spec_chart_rect)]
pub fn chart_rect(bounds: Rect) -> (chart: Rect)
    ensures
        chart == spec_chart_rect(bounds),
{
    let width: Binary32 = bounds.width().max(Binary32::one());
    let height: Binary32 = bounds.height().max(Binary32::one());
    let header: Binary32 = header_height(height);
    let footer: Binary32 = footer_height(height);
    let margin: Binary32 = Binary32::from_bits(MARGIN);
    Rect::from_xy_size(
        bounds.min.x.add(margin),
        bounds.min.y.add(header),
        width.sub(Binary32::from_bits(MARGINS)).max(Binary32::one()),
        height.sub(header).sub(footer).sub(margin).max(Binary32::one()),
    )
}

/// Where a pointer is, as a share of the chart's width.
pub open spec fn spec_pointer_offset(bounds: Rect, position: Point) -> Binary32 {
    let chart = chart_rect(bounds);
    position.x.sub(chart.min.x).div(chart.width().max(Binary32::one()))
}

/// Return where a pointer is, as a share of the chart's width.
#[verifier::when_used_as_spec(spec_pointer_offset)]
pub fn pointer_offset(bounds: Rect, position: Point) -> (share: Binary32)
    ensures
        share == spec_pointer_offset(bounds, position),
{
    let chart: Rect = chart_rect(bounds);
    position.x.sub(chart.min.x).div(chart.width().max(Binary32::one()))
}

/// The mark at the chart's origin.
pub open spec fn spec_zero_marker_rect(chart: Rect) -> Rect {
    Rect::from_xy_size(
        chart.min.x.sub(Binary32::from_bits(0x4000_0000)),
        chart.max.y.sub(Binary32::from_bits(0x4040_0000)),
        Binary32::from_bits(0x4080_0000),
        Binary32::from_bits(0x4040_0000),
    )
}

/// Place the mark at the chart's origin.
#[verifier::when_used_as_spec(spec_zero_marker_rect)]
pub fn zero_marker_rect(chart: Rect) -> (marker: Rect)
    ensures
        marker == spec_zero_marker_rect(chart),
{
    Rect::from_xy_size(
        chart.min.x.sub(Binary32::from_bits(TWO)),
        chart.max.y.sub(Binary32::from_bits(THREE)),
        Binary32::from_bits(FOUR),
        Binary32::from_bits(THREE),
    )
}

/// A level held to the range from minus one to one.
pub open spec fn spec_level(sample: Binary32) -> Binary32 {
    sample.clamp(Binary32::from_bits(0xbf80_0000), Binary32::one())
}

/// Hold a level to the range from minus one to one.
#[verifier::when_used_as_spec(spec_level)]
pub fn level(sample: Binary32) -> (level: Binary32)
    ensures
        level == spec_level(sample),
{
    sample.clamp(Binary32::from_bits(MINUS_ONE), Binary32::one())
}

/// The height of a level in the chart: one at the top, minus one at the bottom.
pub open spec fn spec_level_y(sample: Binary32, chart: Rect) -> Binary32 {
    chart.min.y.add(
        Binary32::one().sub(level(sample)).mul(chart.height()).mul(
            Binary32::from_bits(0x3f00_0000),
        ),
    )
}

/// Return the height of a level in the chart.
#[verifier::when_used_as_spec(spec_level_y)]
pub fn level_y(sample: Binary32, chart: Rect) -> (y: Binary32)
    ensures
        y == spec_level_y(sample, chart),
{
    chart.min.y.add(
        Binary32::one().sub(level(sample)).mul(chart.height()).mul(Binary32::from_bits(HALF)),
    )
}

/// Return the heights of a column's highest and lowest level.
pub fn waveform_y_points(point: EnvelopePoint, chart: Rect) -> (heights: (Binary32, Binary32))
    ensures
        heights.0 == level_y(point.max, chart),
        heights.1 == level_y(point.min, chart),
{
    (level_y(point.max, chart), level_y(point.min, chart))
}

/// Where an unshifted column lies, as a share of the chart's width.
pub open spec fn spec_column_x(index: usize) -> Binary32 {
    Binary32::from_whole(index as u64).div(Binary32::from_whole((ENVELOPE_BINS - 1) as u64))
}

/// Return where an unshifted column lies, as a share of the chart's width.
#[verifier::when_used_as_spec(spec_column_x)]
pub fn column_x(index: usize) -> (x: Binary32)
    ensures
        x == spec_column_x(index),
{
    Binary32::from_whole(index as u64).div(Binary32::from_whole((ENVELOPE_BINS - 1) as u64))
}

/// Where a column lies once shifted, before it is wrapped around.
pub open spec fn translated_x(index: usize, offset: Binary32) -> Binary32 {
    if index == 0 {
        offset
    } else {
        column_x(index).add(offset)
    }
}

/// The upper and lower outline of one unbroken piece of the waveform.
#[verifier::ext_equal]
pub struct Outline {
    /// The upper line, from left to right.
    pub top: Seq<Point>,
    /// The lower line, from left to right.
    pub bottom: Seq<Point>,
}

impl Outline {
    /// The outline with one more column.
    pub open spec fn extended(self, x: Binary32, top: Binary32, bottom: Binary32) -> Outline {
        Outline {
            top: self.top.push(Point::new(x, top)),
            bottom: self.bottom.push(Point::new(x, bottom)),
        }
    }

    /// An outline without columns.
    pub open spec fn empty() -> Outline {
        Outline { top: Seq::empty(), bottom: Seq::empty() }
    }
}

/// The share of the way from one column to the next at which the chart ends.
pub open spec fn seam_fraction(before: Binary32, after: Binary32) -> Binary32 {
    Binary32::one().sub(before).div(after.sub(before)).clamp(Binary32::zero(), Binary32::one())
}

/// A height on the way between two.
pub open spec fn between(from: Binary32, to: Binary32, fraction: Binary32) -> Binary32 {
    from.add(to.sub(from).mul(fraction))
}

/// The pieces that the first `count` columns form once shifted by `offset`.
/// Columns past the right edge come back on the left; where the line crosses
/// the edge it is cut, and both pieces meet the edge at the same height.
pub open spec fn outlines(
    source: Seq<EnvelopePoint>,
    chart: Rect,
    offset: Binary32,
    count: nat,
) -> Seq<Outline>
    decreases count,
{
    if count == 0 {
        seq![]
    } else {
        let index = (count - 1) as usize;
        let x = translated_x(index, offset);
        let top = level_y(source[index as int].max, chart);
        let bottom = level_y(source[index as int].min, chart);
        if index == 0 {
            seq![
                Outline::empty().extended(chart.min.x.add(x.mul(chart.width())), top, bottom),
            ]
        } else {
            let before = outlines(source, chart, offset, index as nat);
            let last = before.last();
            let previous_x = translated_x((index - 1) as usize, offset);
            let wrapped = chart.min.x.add(x.sub(Binary32::one()).mul(chart.width()));
            if x.le(Binary32::one()) {
                before.drop_last().push(
                    last.extended(chart.min.x.add(x.mul(chart.width())), top, bottom),
                )
            } else if previous_x.le(Binary32::one()) {
                let fraction = seam_fraction(previous_x, x);
                let previous = source[index - 1];
                let seam_top = between(level_y(previous.max, chart), top, fraction);
                let seam_bottom = between(level_y(previous.min, chart), bottom, fraction);
                before.drop_last().push(last.extended(chart.max.x, seam_top, seam_bottom)).push(
                    Outline::empty().extended(chart.min.x, seam_top, seam_bottom).extended(
                        wrapped,
                        top,
                        bottom,
                    ),
                )
            } else {
                before.drop_last().push(last.extended(wrapped, top, bottom))
            }
        }
    }
}

/// One unbroken piece of the waveform.
pub struct WaveformSegment {
    /// The upper line, from left to right.
    pub top: Vec<Point>,
    /// The lower line, from left to right.
    pub bottom: Vec<Point>,
}

impl View for WaveformSegment {
    type V = Outline;

    open spec fn view(&self) -> Outline {
        Outline { top: self.top@, bottom: self.bottom@ }
    }
}

impl WaveformSegment {
    fn new() -> (segment: WaveformSegment)
        ensures
            segment@ == Outline::empty(),
    {
        WaveformSegment { top: Vec::new(), bottom: Vec::new() }
    }

    fn extend(&mut self, x: Binary32, top: Binary32, bottom: Binary32)
        ensures
            final(self)@ == old(self)@.extended(x, top, bottom),
    {
        self.top.push(Point::new(x, top));
        self.bottom.push(Point::new(x, bottom));
    }
}

/// The outlines of segments.
pub open spec fn segment_outlines(segments: Seq<WaveformSegment>) -> Seq<Outline> {
    Seq::new(segments.len(), |at: int| segments[at]@)
}

/// Cut the waveform into the pieces that an offset leaves on the chart.
pub fn shifted_waveform_segments(
    source: &[EnvelopePoint],
    chart: Rect,
    offset: Binary32,
) -> (segments: Vec<WaveformSegment>)
    ensures
        segment_outlines(segments@) == outlines(
            source@,
            chart,
            normalize_waveform_offset(offset),
            source@.len(),
        ),
{
    let mut segments: Vec<WaveformSegment> = Vec::new();
    if source.len() == 0 {
        assert(segment_outlines(segments@) =~= seq![]);
        return segments;
    }
    let offset: Binary32 = normalize_waveform_offset(offset);
    let mut previous_x: Binary32 = offset;
    let (mut previous_top, mut previous_bottom): (Binary32, Binary32) = waveform_y_points(
        source[0],
        chart,
    );
    let mut current: WaveformSegment = WaveformSegment::new();
    current.extend(chart.min.x.add(offset.mul(chart.width())), previous_top, previous_bottom);
    let mut index: usize = 1;
    assert(segment_outlines(segments@).push(current@) =~= outlines(source@, chart, offset, 1));
    while index < source.len()
        invariant
            1 <= index <= source@.len(),
            previous_x == translated_x((index - 1) as usize, offset),
            previous_top == level_y(source@[index - 1].max, chart),
            previous_bottom == level_y(source@[index - 1].min, chart),
            segment_outlines(segments@).push(current@) == outlines(
                source@,
                chart,
                offset,
                index as nat,
            ),
        decreases source@.len() - index,
    {
        let ghost done = segment_outlines(segments@);
        let ghost last = current@;
        let x: Binary32 = column_x(index).add(offset);
        let (top, bottom): (Binary32, Binary32) = waveform_y_points(source[index], chart);
        assert(done.push(last).drop_last() =~= done);
        assert(done.push(last).last() == last);
        if x.le(Binary32::one()) {
            current.extend(chart.min.x.add(x.mul(chart.width())), top, bottom);
        } else if previous_x.le(Binary32::one()) {
            let fraction: Binary32 = Binary32::one().sub(previous_x).div(x.sub(previous_x)).clamp(
                Binary32::zero(),
                Binary32::one(),
            );
            let seam_top: Binary32 = previous_top.add(top.sub(previous_top).mul(fraction));
            let seam_bottom: Binary32 = previous_bottom.add(
                bottom.sub(previous_bottom).mul(fraction),
            );
            current.extend(chart.max.x, seam_top, seam_bottom);
            let mut wrapped: WaveformSegment = WaveformSegment::new();
            wrapped.extend(chart.min.x, seam_top, seam_bottom);
            wrapped.extend(
                chart.min.x.add(x.sub(Binary32::one()).mul(chart.width())),
                top,
                bottom,
            );
            let ghost finished = current@;
            segments.push(current);
            current = wrapped;
            assert(segment_outlines(segments@) =~= done.push(finished));
        } else {
            current.extend(
                chart.min.x.add(x.sub(Binary32::one()).mul(chart.width())),
                top,
                bottom,
            );
        }
        previous_x = x;
        previous_top = top;
        previous_bottom = bottom;
        index = index + 1;
    }
    let ghost done = segment_outlines(segments@);
    let ghost last = current@;
    segments.push(current);
    assert(segment_outlines(segments@) =~= done.push(last));
    segments
}

/// A natural number is held as a finite number, and larger ones are not held
/// as smaller ones.
proof fn lemma_whole_numbers(low: u64, high: u64)
    requires
        low <= high,
    ensures
        ({
            let format = Format::Binary32;
            let one = Binary32::from_whole(low).datum();
            let other = Binary32::from_whole(high).datum();
            &&& !one.negative && !other.negative
            &&& one.finite(format) && other.finite(format)
            &&& one.magnitude <= other.magnitude
            &&& low > 0 ==> one.magnitude >= 0x3f80_0000
        }),
{
    reveal(Binary32::spec_from_whole);
    let unit = Format::Binary32.one();
    lemma_pow2_pos(149);
    crate::offset::lemma_one();
    lemma2_to64();
    lemma2_to64_rest();
    // The largest natural number is below 2^64, which is held exactly.
    assert((24 - 1) as nat == 23);
    lemma_pow2_adds(23, 190);
    lemma_pow2_adds(64, 149);
    let huge: nat = 0x5f80_0000;
    assert(crate::rounding::decoded_steps(huge, 24) == pow2(64) * unit);
    crate::rounding::decoding_round_trips(huge, 24);
    assert(low as nat * unit <= high as nat * unit) by (nonlinear_arith)
        requires
            low <= high,
    ;
    assert(high as nat * unit <= pow2(64) * unit) by (nonlinear_arith)
        requires
            high < pow2(64),
    ;
    crate::rounding::encoding_preserves_order(low as nat * unit, 1, high as nat * unit, 1, 24);
    crate::rounding::encoding_preserves_order(high as nat * unit, 1, pow2(64) * unit, 1, 24);
    if low > 0 {
        assert(unit <= low as nat * unit) by (nonlinear_arith)
            requires
                low >= 1,
        ;
        crate::rounding::encoding_preserves_order(unit, 1, low as nat * unit, 1, 24);
    }
}

/// Later columns do not lie before earlier ones.
proof fn lemma_columns_in_order(low: usize, high: usize)
    requires
        low <= high,
    ensures
        ({
            let format = Format::Binary32;
            let one = column_x(low).datum();
            let other = column_x(high).datum();
            &&& !one.negative && !other.negative
            &&& one.finite(format) && other.finite(format)
            &&& one.magnitude <= other.magnitude
        }),
{
    reveal(Binary32::spec_div);
    let format = Format::Binary32;
    let unit = format.one();
    lemma_pow2_pos(149);
    crate::offset::lemma_one();
    lemma_whole_numbers(low as u64, high as u64);
    lemma_whole_numbers(high as u64, high as u64);
    lemma_whole_numbers(1023, 1023);
    let first = Binary32::from_whole(low as u64).datum();
    let second = Binary32::from_whole(high as u64).datum();
    let divisor = Binary32::from_whole(1023).datum();
    lemma_steps_in_order(first.magnitude as nat, second.magnitude as nat);
    lemma_steps_in_order(0x3f80_0000, divisor.magnitude as nat);
    let first_steps = first.steps(format);
    let second_steps = second.steps(format);
    let divisor_steps = divisor.steps(format);
    assert((first_steps * unit) * divisor_steps <= (second_steps * unit) * divisor_steps)
        by (nonlinear_arith)
        requires
            first_steps <= second_steps,
    ;
    crate::rounding::encoding_preserves_order(
        first_steps * unit,
        divisor_steps,
        second_steps * unit,
        divisor_steps,
        24,
    );
    assert((second_steps * unit) * 1 <= second_steps * divisor_steps) by (nonlinear_arith)
        requires
            unit <= divisor_steps,
    ;
    crate::rounding::encoding_preserves_order(
        second_steps * unit,
        divisor_steps,
        second_steps,
        1,
        24,
    );
    crate::rounding::decoding_round_trips(second.magnitude as nat, 24);
}

proof fn lemma_steps_in_order(low: nat, high: nat)
    requires
        low <= high,
    ensures
        crate::rounding::decoded_steps(low, 24) <= crate::rounding::decoded_steps(high, 24),
{
    if low < high {
        crate::rounding::decoding_preserves_order(low, high, 24);
    }
}

/// Shifted columns keep their order.
proof fn lemma_translated_in_order(index: usize, offset: Binary32)
    requires
        index < usize::MAX,
        offset.is_finite(),
        Binary32::zero().le(offset),
    ensures
        translated_x((index + 1) as usize, offset).le(Binary32::one()) ==> translated_x(
            index,
            offset,
        ).le(Binary32::one()),
{
    reveal(Binary32::spec_add);
    let format = Format::Binary32;
    let next = (index + 1) as usize;
    lemma_columns_in_order(index, next);
    let here = column_x(index).datum();
    let there = column_x(next).datum();
    let shift = offset.datum();
    lemma_steps_in_order(here.magnitude as nat, there.magnitude as nat);
    let zero_steps = crate::rounding::decoded_steps(0, 24);
    lemma_pow2_pos(23);
    assert((24 - 1) as nat == 23);
    assert(zero_steps == 0);
    let low = here.steps(format) + shift.steps(format);
    let high = there.steps(format) + shift.steps(format);
    crate::rounding::encoding_preserves_order(low, 1, high, 1, 24);
    crate::rounding::encoding_preserves_order(shift.steps(format), 1, high, 1, 24);
    crate::rounding::decoding_round_trips(shift.magnitude as nat, 24);
    crate::rounding::decoding_round_trips(0, 24);
    crate::rounding::encoding_preserves_order(0, 1, low, 1, 24);
}

/// A shifted waveform has at most two pieces: it leaves the chart on the right
/// once and comes back on the left.
pub proof fn at_most_two_pieces(
    source: Seq<EnvelopePoint>,
    chart: Rect,
    offset: Binary32,
    count: nat,
)
    requires
        0 < count <= usize::MAX,
    ensures
        ({
            let shift = normalize_waveform_offset(offset);
            outlines(source, chart, shift, count).len() == if translated_x(
                (count - 1) as usize,
                shift,
            ).le(Binary32::one()) {
                1nat
            } else {
                2nat
            }
        }),
    decreases count,
{
    crate::offset::offsets_stay_within_a_window(offset);
    let shift = normalize_waveform_offset(offset);
    if count > 1 {
        at_most_two_pieces(source, chart, offset, (count - 1) as nat);
        lemma_translated_in_order((count - 2) as usize, shift);
    }
}

/// How far along the chart a column lies once it is shifted, before it wraps
/// around: its own share, counted in steps of one in 1023, and the shift.
pub open spec fn shifted_share(index: usize, shift: Binary32) -> Binary32 {
    if index == 0 {
        shift
    } else {
        Binary32::from_whole(index as u64).div(Binary32::from_whole(1023)).add(shift)
    }
}

/// The height that a level is drawn at: full scale at the top, silence in the
/// middle and minus full scale at the bottom of the chart.
pub open spec fn drawn_height(level: Binary32, chart: Rect) -> Binary32 {
    let held = level.clamp(Binary32 { bits: 0xbf80_0000 }, Binary32 { bits: 0x3f80_0000 });
    chart.min.y.add(
        Binary32::one().sub(held).mul(chart.max.y.sub(chart.min.y)).mul(
            Binary32 { bits: 0x3f00_0000 },
        ),
    )
}

/// A point is where a column's level belongs at some share of the chart's width.
pub open spec fn is_drawn_at(
    point: Point,
    level: Binary32,
    chart: Rect,
    share: Binary32,
) -> bool {
    &&& point.x == chart.min.x.add(share.mul(chart.max.x.sub(chart.min.x)))
    &&& point.y == drawn_height(level, chart)
}

/// A column before the edge of the chart is drawn at its own share.
spec fn holds_unwrapped(
    source: Seq<EnvelopePoint>,
    chart: Rect,
    shift: Binary32,
    piece: Outline,
    index: int,
) -> bool {
    let share = shifted_share(index as usize, shift);
    &&& share.le(Binary32::one())
    &&& is_drawn_at(piece.top[index], source[index].max, chart, share)
    &&& is_drawn_at(piece.bottom[index], source[index].min, chart, share)
}

/// A column past the edge is drawn at what its share has over one.
spec fn holds_wrapped(
    source: Seq<EnvelopePoint>,
    chart: Rect,
    shift: Binary32,
    piece: Outline,
    at: int,
    index: int,
) -> bool {
    let share = shifted_share(index as usize, shift);
    &&& !share.le(Binary32::one())
    &&& is_drawn_at(piece.top[at], source[index].max, chart, share.sub(Binary32::one()))
    &&& is_drawn_at(piece.bottom[at], source[index].min, chart, share.sub(Binary32::one()))
}

/// The columns before the edge of the chart form one piece, in order and each
/// at its own share.
spec fn is_unwrapped(
    source: Seq<EnvelopePoint>,
    chart: Rect,
    shift: Binary32,
    piece: Outline,
    count: nat,
) -> bool {
    &&& piece.top.len() >= count
    &&& piece.bottom.len() == piece.top.len()
    &&& forall|index: int|
        0 <= index < count ==> #[trigger] holds_unwrapped(source, chart, shift, piece, index)
}

/// The columns past the edge form another piece, behind its first point, each
/// at what its share has over one.
spec fn is_wrapped(
    source: Seq<EnvelopePoint>,
    chart: Rect,
    shift: Binary32,
    piece: Outline,
    cut: nat,
    count: nat,
) -> bool {
    &&& piece.top.len() == count - cut + 1
    &&& piece.bottom.len() == piece.top.len()
    &&& forall|index: int|
        cut <= index < count ==> #[trigger] holds_wrapped(
            source,
            chart,
            shift,
            piece,
            index - cut + 1,
            index,
        )
}

/// The share of the way from one column to the next at which the right edge of
/// the chart lies.
pub open spec fn edge_fraction(before: Binary32, after: Binary32) -> Binary32 {
    let one = Binary32 { bits: 0x3f80_0000 };
    one.sub(before).div(after.sub(before)).clamp(Binary32 { bits: 0 }, one)
}

/// A height lies on the straight line between the heights of two levels.
pub open spec fn is_between(
    height: Binary32,
    from: Binary32,
    to: Binary32,
    chart: Rect,
    fraction: Binary32,
) -> bool {
    height == drawn_height(from, chart).add(
        drawn_height(to, chart).sub(drawn_height(from, chart)).mul(fraction),
    )
}

/// Both pieces end where they meet: at the right and the left edge, at the same
/// heights, on the lines from the last column before the edge to the first one
/// past it.
spec fn meet_at_the_edge(
    source: Seq<EnvelopePoint>,
    chart: Rect,
    shift: Binary32,
    first: Outline,
    second: Outline,
    cut: nat,
) -> bool {
    let fraction = edge_fraction(
        shifted_share((cut - 1) as usize, shift),
        shifted_share(cut as usize, shift),
    );
    &&& first.top.last().x == chart.max.x && first.bottom.last().x == chart.max.x
    &&& second.top[0].x == chart.min.x && second.bottom[0].x == chart.min.x
    &&& first.top.last().y == second.top[0].y
    &&& first.bottom.last().y == second.bottom[0].y
    &&& is_between(second.top[0].y, source[cut - 1].max, source[cut as int].max, chart, fraction)
    &&& is_between(
        second.bottom[0].y,
        source[cut - 1].min,
        source[cut as int].min,
        chart,
        fraction,
    )
}

proof fn lemma_pieces(source: Seq<EnvelopePoint>, chart: Rect, shift: Binary32, count: nat)
    requires
        0 < count <= usize::MAX,
        shift.is_finite(),
        Binary32::zero().le(shift),
        shift.le(Binary32::one()),
    ensures
        ({
            let pieces = outlines(source, chart, shift, count);
            if shifted_share((count - 1) as usize, shift).le(Binary32::one()) {
                &&& pieces.len() == 1
                &&& pieces[0].top.len() == count
                &&& is_unwrapped(source, chart, shift, pieces[0], count)
            } else {
                &&& pieces.len() == 2
                &&& 2 <= pieces[0].top.len() <= count
                &&& is_unwrapped(
                    source,
                    chart,
                    shift,
                    pieces[0],
                    (pieces[0].top.len() - 1) as nat,
                )
                &&& is_wrapped(
                    source,
                    chart,
                    shift,
                    pieces[1],
                    (pieces[0].top.len() - 1) as nat,
                    count,
                )
                &&& meet_at_the_edge(
                    source,
                    chart,
                    shift,
                    pieces[0],
                    pieces[1],
                    (pieces[0].top.len() - 1) as nat,
                )
            }
        }),
    decreases count,
{
    let index = (count - 1) as usize;
    assert(shifted_share(index, shift) == translated_x(index, shift));
    if count > 1 {
        let before = outlines(source, chart, shift, index as nat);
        lemma_pieces(source, chart, shift, index as nat);
        lemma_translated_in_order((index - 1) as usize, shift);
        assert(shifted_share((index - 1) as usize, shift) == translated_x(
            (index - 1) as usize,
            shift,
        ));
        let pieces = outlines(source, chart, shift, count);
        let last = before.last();
        if shifted_share(index, shift).le(Binary32::one()) {
            assert(before.len() == 1);
            assert(pieces =~= seq![pieces[0]]);
            assert forall|at: int| 0 <= at < count implies #[trigger] holds_unwrapped(
                source,
                chart,
                shift,
                pieces[0],
                at,
            ) by {
                if at < index {
                    assert(holds_unwrapped(source, chart, shift, before[0], at));
                    assert(pieces[0].top[at] == before[0].top[at]);
                    assert(pieces[0].bottom[at] == before[0].bottom[at]);
                }
            }
            assert(is_unwrapped(source, chart, shift, pieces[0], count));
        } else if shifted_share((index - 1) as usize, shift).le(Binary32::one()) {
            assert(before.len() == 1);
            assert(pieces.len() == 2);
            assert forall|at: int| 0 <= at < index implies #[trigger] holds_unwrapped(
                source,
                chart,
                shift,
                pieces[0],
                at,
            ) by {
                assert(holds_unwrapped(source, chart, shift, before[0], at));
                assert(pieces[0].top[at] == before[0].top[at]);
                assert(pieces[0].bottom[at] == before[0].bottom[at]);
            }
            assert(pieces[0].top.len() == count);
            assert(is_unwrapped(source, chart, shift, pieces[0], index as nat));
            assert(is_wrapped(source, chart, shift, pieces[1], index as nat, count));
            assert(meet_at_the_edge(
                source,
                chart,
                shift,
                pieces[0],
                pieces[1],
                index as nat,
            ));
        } else {
            assert(before.len() == 2);
            assert(pieces.len() == 2);
            assert(pieces[0] == before[0]);
            let cut = (pieces[0].top.len() - 1) as nat;
            assert forall|from: int| cut <= from < count implies #[trigger] holds_wrapped(
                source,
                chart,
                shift,
                pieces[1],
                from - cut + 1,
                from,
            ) by {
                if from < index {
                    let at = from - cut + 1;
                    assert(holds_wrapped(source, chart, shift, before[1], at, from));
                    assert(pieces[1].top[at] == before[1].top[at]);
                    assert(pieces[1].bottom[at] == before[1].bottom[at]);
                }
            }
            assert(is_wrapped(source, chart, shift, pieces[1], cut, count));
            assert(meet_at_the_edge(source, chart, shift, pieces[0], pieces[1], cut));
        }
    } else {
        let pieces = outlines(source, chart, shift, count);
        assert(is_unwrapped(source, chart, shift, pieces[0], count));
    }
}

/// Every column is drawn once. Columns that the shift leaves on the chart form
/// the first piece, in order, each at its share of the width; columns that it
/// moves past the right edge come back on the left and form the second, each at
/// what its share has over one. The pieces are cut where they meet the edges.
pub proof fn columns_wrap_around_the_chart(
    source: Seq<EnvelopePoint>,
    chart: Rect,
    offset: Binary32,
    index: int,
)
    requires
        0 <= index < source.len() <= usize::MAX,
    ensures
        ({
            let shift = normalize_waveform_offset(offset);
            let share = shifted_share(index as usize, shift);
            let pieces = outlines(source, chart, shift, source.len());
            let cut = pieces[0].top.len() - 1;
            if share.le(Binary32::one()) {
                &&& index < pieces[0].top.len()
                &&& is_drawn_at(pieces[0].top[index], source[index].max, chart, share)
                &&& is_drawn_at(pieces[0].bottom[index], source[index].min, chart, share)
            } else {
                let over = share.sub(Binary32::one());
                &&& pieces.len() == 2
                &&& 0 < cut <= index
                &&& index - cut + 1 < pieces[1].top.len()
                &&& is_drawn_at(pieces[1].top[index - cut + 1], source[index].max, chart, over)
                &&& is_drawn_at(pieces[1].bottom[index - cut + 1], source[index].min, chart, over)
            }
        }),
        ({
            let shift = normalize_waveform_offset(offset);
            let pieces = outlines(source, chart, shift, source.len());
            if pieces.len() == 1 {
                pieces[0].top.len() == source.len() && pieces[0].bottom.len() == source.len()
            } else {
                &&& pieces.len() == 2
                &&& pieces[0].top.len() + pieces[1].top.len() == source.len() + 2
                &&& pieces[0].bottom.len() == pieces[0].top.len()
                &&& pieces[1].bottom.len() == pieces[1].top.len()
                &&& pieces[0].top.last().x == chart.max.x
                &&& pieces[0].bottom.last().x == chart.max.x
                &&& pieces[1].top.first().x == chart.min.x
                &&& pieces[1].bottom.first().x == chart.min.x
                &&& pieces[0].top.last().y == pieces[1].top.first().y
                &&& pieces[0].bottom.last().y == pieces[1].bottom.first().y
                &&& is_between(
                    pieces[1].top.first().y,
                    source[pieces[0].top.len() - 2].max,
                    source[pieces[0].top.len() - 1].max,
                    chart,
                    edge_fraction(
                        shifted_share((pieces[0].top.len() - 2) as usize, shift),
                        shifted_share((pieces[0].top.len() - 1) as usize, shift),
                    ),
                )
                &&& is_between(
                    pieces[1].bottom.first().y,
                    source[pieces[0].top.len() - 2].min,
                    source[pieces[0].top.len() - 1].min,
                    chart,
                    edge_fraction(
                        shifted_share((pieces[0].top.len() - 2) as usize, shift),
                        shifted_share((pieces[0].top.len() - 1) as usize, shift),
                    ),
                )
            }
        }),
{
    crate::offset::offsets_stay_within_a_window(offset);
    let shift = normalize_waveform_offset(offset);
    lemma_pieces(source, chart, shift, source.len());
    let pieces = outlines(source, chart, shift, source.len());
    let cut = pieces[0].top.len() - 1;
    if index < cut || pieces.len() == 1 {
        assert(holds_unwrapped(source, chart, shift, pieces[0], index));
    } else {
        assert(holds_wrapped(source, chart, shift, pieces[1], index - cut + 1, index));
    }
}

/// The shares of the columns reach from zero to one, and with a shift from zero
/// to two.
proof fn lemma_shares(index: usize, shift: Binary32)
    requires
        index <= 1023,
        shift.is_finite(),
        Binary32::zero().le(shift),
        shift.le(Binary32::one()),
    ensures
        shifted_share(index, shift).is_finite(),
        Binary32::zero().le(shifted_share(index, shift)),
        !shifted_share(index, shift).le(Binary32::one()) ==> {
            let over = shifted_share(index, shift).sub(Binary32::one());
            &&& Binary32::zero().le(over)
            &&& over.le(Binary32::one())
        },
{
    let format = Format::Binary32;
    let unit = format.one();
    let share = shifted_share(index, shift);
    let two = Binary32 { bits: 0x4000_0000 };
    let one = Binary32::one();
    lemma_pow2_pos(149);
    crate::offset::lemma_one();
    lemma2_to64();
    lemma2_to64_rest();
    assert((24 - 1) as nat == 23);
    lemma_pow2_adds(23, 127);
    lemma_pow2_adds(1, 149);
    assert(pow2(23) == 0x80_0000);
    assert(crate::rounding::decoded_steps(0x4000_0000, 24) == pow2(23) * pow2(127));
    assert(two.datum().steps(format) == 2 * unit);
    crate::ordering::lemma_values_in_order(format, Binary32::zero().datum(), shift.datum());
    crate::ordering::lemma_values_in_order(format, shift.datum(), one.datum());
    assert(crate::rounding::decoded_steps(0, 24) == 0);
    if index > 0 {
        let column = column_x(index);
        lemma_columns_in_order(index, 1023);
        lemma_last_column();
        crate::ordering::lemma_values_in_order(format, column.datum(), one.datum());
        crate::ordering::lemma_values_in_order(format, Binary32::zero().datum(), column.datum());
        column.lemma_sum_at_most(shift, two);
        column.lemma_sum_at_least(shift, Binary32::zero());
    }
    if !share.le(one) {
        crate::ordering::lemma_values_in_order(format, share.datum(), two.datum());
        crate::ordering::lemma_values_in_order(format, one.datum(), share.datum());
        let minus = one.neg();
        assert(minus.datum().value(format) == -(unit as int));
        share.lemma_sum_at_most(minus, one);
        share.lemma_sum_at_least(minus, Binary32::zero());
    }
}

/// The last column lies at the end of the chart.
proof fn lemma_last_column()
    ensures
        column_x(1023) == Binary32::one(),
{
    reveal(Binary32::spec_div);
    let format = Format::Binary32;
    let unit = format.one();
    lemma_pow2_pos(149);
    crate::offset::lemma_one();
    lemma_whole_numbers(1023, 1023);
    lemma_whole_numbers(1, 1023);
    let last = Binary32::from_whole(1023).datum();
    let steps = last.steps(format);
    lemma_steps_in_order(0x3f80_0000, last.magnitude as nat);
    assert((steps * unit) * 1 == unit * steps) by (nonlinear_arith);
    crate::rounding::encoding_preserves_order(steps * unit, steps, unit, 1, 24);
    crate::rounding::encoding_preserves_order(unit, 1, steps * unit, steps, 24);
}

/// On a chart with finite edges, no point of any piece lies left of the chart,
/// and none lies right of it: of the right edge itself, or of the left edge
/// with the width added to it, which rounding may keep apart.
pub proof fn pieces_stay_on_the_chart(
    source: Seq<EnvelopePoint>,
    chart: Rect,
    offset: Binary32,
    piece: int,
    at: int,
)
    requires
        0 < source.len() <= 1024,
        chart.min.x.is_finite(),
        chart.max.x.is_finite(),
        chart.min.x.le(chart.max.x),
        chart.max.x.sub(chart.min.x).is_finite(),
        ({
            let pieces = outlines(
                source,
                chart,
                normalize_waveform_offset(offset),
                source.len(),
            );
            0 <= piece < pieces.len() && 0 <= at < pieces[piece].top.len()
        }),
    ensures
        ({
            let outline = outlines(
                source,
                chart,
                normalize_waveform_offset(offset),
                source.len(),
            )[piece];
            let right = chart.min.x.add(chart.max.x.sub(chart.min.x));
            &&& chart.min.x.le(outline.top[at].x)
            &&& outline.top[at].x.le(right) || outline.top[at].x == chart.max.x
            &&& outline.bottom[at].x == outline.top[at].x
        }),
{
    crate::offset::offsets_stay_within_a_window(offset);
    let shift = normalize_waveform_offset(offset);
    let format = Format::Binary32;
    lemma_pieces(source, chart, shift, source.len());
    let pieces = outlines(source, chart, shift, source.len());
    let outline = pieces[piece];
    let point = outline.top[at];
    let width = chart.max.x.sub(chart.min.x);
    let cut = pieces[0].top.len() - 1;
    lemma_pow2_pos(23);
    assert((24 - 1) as nat == 23);
    assert(crate::rounding::decoded_steps(0, 24) == 0);
    crate::ordering::lemma_values_in_order(format, chart.min.x.datum(), chart.max.x.datum());
    assert(chart.min.x.neg().datum().value(format) == -chart.min.x.datum().value(format));
    chart.max.x.lemma_sum_at_least(chart.min.x.neg(), Binary32::zero());
    let edge = pieces.len() == 2 && (piece == 0 && at == cut || piece == 1 && at == 0);
    if edge {
        if piece == 1 {
            chart.min.x.sums_do_not_fall(width);
        }
    } else {
        let index = if piece == 0 {
            at
        } else {
            cut + at - 1
        };
        let share = shifted_share(index as usize, shift);
        lemma_shares(index as usize, shift);
        let inside = if piece == 0 {
            share
        } else {
            share.sub(Binary32::one())
        };
        if piece == 0 {
            assert(holds_unwrapped(source, chart, shift, pieces[0], index));
        } else {
            assert(holds_wrapped(source, chart, shift, pieces[1], index - cut + 1, index));
        }
        inside.shares_do_not_exceed_the_whole(width);
        chart.min.x.sums_do_not_fall(inside.mul(width));
        chart.min.x.sums_keep_their_order(inside.mul(width), width);
    }
}

/// The chart keeps sixteen units from the left, the right and the footer, a
/// header of up to 34 units and a fifth of the height above, and a footer of up
/// to 28 units and 0.12 of the height below; it is never narrower or lower than
/// one unit. A pointer on it is told as a share of its width.
pub proof fn charts_leave_room_around_them(bounds: Rect, position: Point)
    ensures
        ({
            let one = Binary32 { bits: 0x3f80_0000 };
            let width = bounds.max.x.sub(bounds.min.x).max(one);
            let height = bounds.max.y.sub(bounds.min.y).max(one);
            let header = (Binary32 { bits: 0x4208_0000 }).min(
                height.mul(Binary32 { bits: 0x3e4c_cccd }),
            );
            let footer = (Binary32 { bits: 0x41e0_0000 }).min(
                height.mul(Binary32 { bits: 0x3df5_c28f }),
            );
            let chart = chart_rect(bounds);
            &&& header_height(height) == header
            &&& footer_height(height) == footer
            &&& chart.min.x == bounds.min.x.add(Binary32 { bits: 0x4180_0000 })
            &&& chart.min.y == bounds.min.y.add(header)
            &&& chart.max.x == chart.min.x.add(width.sub(Binary32 { bits: 0x4200_0000 }).max(one))
            &&& chart.max.y == chart.min.y.add(
                height.sub(header).sub(footer).sub(Binary32 { bits: 0x4180_0000 }).max(one),
            )
            &&& pointer_offset(bounds, position) == position.x.sub(chart.min.x).div(
                chart.max.x.sub(chart.min.x).max(one),
            )
        }),
{
}

/// The mark at true zero stands on the lower left corner of the chart.
pub proof fn zero_is_marked_at_the_lower_left(chart: Rect)
    ensures
        ({
            let marker = zero_marker_rect(chart);
            &&& marker.min.x == chart.min.x.sub(Binary32 { bits: 0x4000_0000 })
            &&& marker.min.y == chart.max.y.sub(Binary32 { bits: 0x4040_0000 })
            &&& marker.max.x == marker.min.x.add(Binary32 { bits: 0x4080_0000 })
            &&& marker.max.y == marker.min.y.add(Binary32 { bits: 0x4040_0000 })
        }),
{
}

} // verus!
