//! How the waveform widget is painted.

use crate::binary::{Binary32, Binary64};
use crate::chart::{
    chart_rect, column_x, level, level_y, shifted_waveform_segments, waveform_y_points,
    zero_marker_rect, Outline, WaveformSegment,
};
use crate::envelope::{EnvelopePoint, ENVELOPE_BINS};
use crate::geometry::{Point, Rect};
use crate::offset::{normalize_waveform_offset, shifted_waveform_x};
use crate::paint::{
    paint, paint_fill, paint_stroke, paint_text, Mark, PaintItem, Role, TextStyle, Tint,
};
use crate::timing::{current_phase, grid_x, window_phase};
use crate::waveform::WaveformWidget;
use crate::window::WindowLength;
use vstd::prelude::*;

verus! {

/// The bit pattern of one half.
const HALF: u32 = 0x3f00_0000;

/// The bit pattern of three quarters.
const THREE_QUARTERS: u32 = 0x3f40_0000;

/// The bit pattern of one and a half.
const ONE_AND_A_HALF: u32 = 0x3fc0_0000;

/// The bit pattern of two.
const TWO: u32 = 0x4000_0000;

/// The bit pattern of eight.
const EIGHT: u32 = 0x4100_0000;

/// The bit pattern of eleven.
const ELEVEN: u32 = 0x4130_0000;

/// The bit pattern of fourteen.
const FOURTEEN: u32 = 0x4160_0000;

/// The bit pattern of the chart's margin, sixteen.
const MARGIN: u32 = 0x4180_0000;

/// The bit pattern of both margins, thirty-two.
const MARGINS: u32 = 0x4200_0000;

/// The bit pattern of the level above which a column is a peak, 0.85.
const PEAK_LEVEL: u32 = 0x3f59_999a;

/// The bit pattern of a quarter.
const QUARTER: u64 = 0x3fd0_0000_0000_0000;

/// Choose by a condition.
pub open spec fn choice<T>(first: bool, yes: T, no: T) -> T {
    if first {
        yes
    } else {
        no
    }
}

impl WaveformWidget {
    /// The color of the waveform.
    pub open spec fn waveform_role(self) -> Role {
        if self.active_offset is Some {
            Role::BrightCyan
        } else if self.offset_hovered() {
            Role::Cyan
        } else if self.view.showing_live_preview() {
            Role::Blue
        } else if self.view.showing_retained_preview() {
            Role::Orange
        } else {
            Role::Mint
        }
    }

    /// The color of the peaks.
    pub open spec fn peak_tint(self) -> Tint {
        if self.active_offset is Some {
            Tint::with_alpha(Role::BrightCyan, 220)
        } else if self.offset_hovered() {
            Tint::with_alpha(Role::Cyan, 220)
        } else if self.view.showing_live_preview() {
            Tint::with_alpha(Role::Blue, 144)
        } else {
            Tint::with_alpha(Role::Orange, 220)
        }
    }

    /// The background, the status line, the chart's surface and border, and
    /// its center line.
    pub open spec fn frame_marks(self, bounds: Rect) -> Seq<Mark> {
        let chart = chart_rect(bounds);
        let width = bounds.width().max(Binary32::one());
        let eleven = Binary32::from_bits(0x4130_0000);
        seq![
            Mark::Fill(bounds, Tint::plain(Role::Background)),
            Mark::Text(
                self.view.status_presentation().label(),
                TextStyle {
                    rect: Rect::from_xy_size(
                        bounds.min.x.add(Binary32::from_bits(0x4180_0000)),
                        bounds.min.y.add(Binary32::from_bits(0x4100_0000)),
                        width.sub(Binary32::from_bits(0x4200_0000)),
                        Binary32::from_bits(0x4160_0000),
                    ),
                    font_size: eleven,
                    baseline: Some(eleven),
                    tint: Tint::plain(
                        if self.view.showing_live_preview() {
                            Role::BlueSoft
                        } else if self.view.showing_retained_preview() {
                            Role::Orange
                        } else {
                            Role::TextMuted
                        },
                    ),
                    centered: false,
                },
            ),
            Mark::Fill(chart, Tint::plain(Role::Surface)),
            Mark::Stroke(
                chart,
                Tint::plain(
                    if self.active_offset is Some {
                        Role::BrightCyan
                    } else if self.offset_hovered() {
                        Role::Cyan
                    } else {
                        Role::Border
                    },
                ),
                if self.active_offset is Some {
                    Binary32::from_bits(0x4000_0000)
                } else {
                    Binary32::one()
                },
            ),
            Mark::Fill(
                Rect::from_xy_size(
                    chart.min.x,
                    chart.min.y.add(chart.height().mul(Binary32::from_bits(0x3f00_0000))),
                    chart.width(),
                    Binary32::one(),
                ),
                Tint::plain(Role::GridStrong),
            ),
        ]
    }

    /// A line for every quarter of a beat, emphasized on the beat.
    pub open spec fn grid_marks(self, bounds: Rect) -> Seq<Mark> {
        let beats = self.view.displayed_window().beats();
        Seq::new(
            (4 * beats + 1) as nat,
            |at: int| grid_mark(chart_rect(bounds), beats, at as u32),
        )
    }
}

/// The line of one quarter of a beat.
pub open spec fn grid_mark(chart: Rect, beats: u32, subdivision: u32) -> Mark {
    let offset = Binary64::from_whole(subdivision as u64).mul(
        Binary64::from_bits(0x3fd0_0000_0000_0000),
    );
    let x = chart.min.x.add(grid_x(offset, Binary64::from_whole(beats as u64), chart.width()));
    Mark::Fill(
        Rect::from_xy_size(x, chart.min.y, Binary32::one(), chart.height()),
        Tint::plain(
            if subdivision % 4 == 0 {
                Role::Border
            } else {
                Role::GridSoft
            },
        ),
    )
}

/// A column reaches beyond the peak level.
pub open spec fn is_peak(point: EnvelopePoint) -> bool {
    Binary32::from_bits(0x3f59_999a).lt(level(point.max).abs().max(level(point.min).abs()))
}

/// The mark over a peak.
pub open spec fn peak_rect(point: EnvelopePoint, index: usize, chart: Rect, offset: Binary32) -> Rect {
    let x = chart.min.x.add(shifted_waveform_x(column_x(index), offset).mul(chart.width()));
    let top = level_y(point.max, chart);
    let bottom = level_y(point.min, chart);
    Rect::from_xy_size(
        x.clamp(chart.min.x, chart.max.x).sub(Binary32::from_bits(0x3f40_0000)),
        top,
        Binary32::from_bits(0x3fc0_0000),
        bottom.sub(top).max(Binary32::one()),
    )
}

/// The marks over the peaks of the first `count` columns.
pub open spec fn peak_rects(
    envelope: Seq<EnvelopePoint>,
    chart: Rect,
    offset: Binary32,
    count: nat,
) -> Seq<Rect>
    decreases count,
{
    if count == 0 {
        seq![]
    } else {
        let index = (count - 1) as nat;
        let before = peak_rects(envelope, chart, offset, index);
        if is_peak(envelope[index as int]) {
            before.push(peak_rect(envelope[index as int], index as usize, chart, offset))
        } else {
            before
        }
    }
}

/// The area and the two lines of one unbroken piece.
pub open spec fn outline_marks(outline: Outline, role: Role, live: bool, width: Binary32) -> Seq<Mark> {
    seq![
        Mark::Polygon(
            outline.top + outline.bottom.reverse(),
            Tint::with_alpha(role, choice(live, 32, 64)),
        ),
        Mark::Polyline(outline.top, Tint::with_alpha(role, choice(live, 176, 232)), width),
        Mark::Polyline(outline.bottom, Tint::with_alpha(role, choice(live, 128, 184)), width),
    ]
}

/// The areas and lines of the first `count` pieces.
pub open spec fn outlines_marks(
    outlines: Seq<Outline>,
    role: Role,
    live: bool,
    width: Binary32,
    count: nat,
) -> Seq<Mark>
    decreases count,
{
    if count == 0 {
        seq![]
    } else {
        outlines_marks(outlines, role, live, width, (count - 1) as nat) + outline_marks(
            outlines[count - 1],
            role,
            live,
            width,
        )
    }
}

impl WaveformWidget {
    /// The pieces of the waveform that the offset leaves on the chart.
    pub open spec fn pieces(self, chart: Rect) -> Seq<Outline> {
        let drawn = self.drawn();
        crate::chart::outlines(
            drawn.envelope.take(drawn.bins as int),
            chart,
            normalize_waveform_offset(self.waveform_offset),
            drawn.bins as nat,
        )
    }

    /// The marks over the peaks.
    pub open spec fn peaks(self, chart: Rect) -> Seq<Rect> {
        let drawn = self.drawn();
        peak_rects(drawn.envelope, chart, self.waveform_offset, drawn.bins as nat)
    }

    /// The waveform and its peaks.
    pub open spec fn waveform_marks(self, bounds: Rect) -> Seq<Mark> {
        let chart = chart_rect(bounds);
        let pieces = self.pieces(chart);
        let peaks = self.peaks(chart);
        let width = if self.active_offset is Some {
            Binary32::from_bits(0x3fc0_0000)
        } else {
            Binary32::one()
        };
        outlines_marks(
            pieces,
            self.waveform_role(),
            self.view.showing_live_preview(),
            width,
            pieces.len(),
        ) + (if peaks.len() > 0 {
            seq![Mark::Fills(peaks, self.peak_tint())]
        } else {
            seq![]
        })
    }

    /// The playhead, unless a retained preview is on display, and the mark at
    /// true zero.
    pub open spec fn position_marks(self, bounds: Rect) -> Seq<Mark> {
        let chart = chart_rect(bounds);
        let zero = Mark::Fill(zero_marker_rect(chart), Tint::with_alpha(Role::TextPrimary, 192));
        match window_phase(self.view.current_song_pos_beats, self.view.displayed_window()) {
            Some(phase) if !self.view.showing_retained_preview() => seq![
                Mark::Fill(
                    Rect::from_xy_size(
                        chart.min.x.add(phase.mul(chart.width())).sub(Binary32::one()),
                        chart.min.y,
                        Binary32::from_bits(0x4000_0000),
                        chart.height(),
                    ),
                    Tint::plain(Role::Orange),
                ),
                zero,
            ],
            _ => seq![zero],
        }
    }

    /// Everything that the widget paints.
    pub open spec fn painted(self, bounds: Rect) -> Seq<Mark> {
        self.frame_marks(bounds) + self.grid_marks(bounds) + self.waveform_marks(bounds)
            + self.position_marks(bounds)
    }

    /// The mark at true zero is painted last and at the same place whatever the
    /// waveform and its offset.
    pub proof fn zero_marker_is_stationary(self, bounds: Rect)
        ensures
            self.painted(bounds).len() > 0,
            self.painted(bounds).last() == Mark::Fill(
                zero_marker_rect(chart_rect(bounds)),
                Tint::with_alpha(Role::TextPrimary, 192),
            ),
    {
    }

    /// A chart whose sides have no order can only be painted while there are no
    /// peaks to hold between them.
    pub open spec fn spec_paintable(&self, bounds: Rect) -> bool {
        let chart = chart_rect(bounds);
        self.peaks(chart).len() > 0 ==> chart.min.x.le(chart.max.x)
    }

    /// Whether the widget can be painted in `bounds`.
    #[verifier::when_used_as_spec(spec_paintable)]
    pub fn paintable(&self, bounds: Rect) -> (paintable: bool)
        requires
            self.wf(),
        ensures
            paintable == self.spec_paintable(bounds),
    {
        let chart: Rect = chart_rect(bounds);
        let (drawn_bins, envelope): (usize, [EnvelopePoint; ENVELOPE_BINS]) =
            self.waveform_for_paint();
        let mut peaks: bool = false;
        let mut index: usize = 0;
        while index < drawn_bins
            invariant
                index <= drawn_bins <= ENVELOPE_BINS,
                peaks == (peak_rects(
                    envelope@,
                    chart,
                    self.waveform_offset,
                    index as nat,
                ).len() > 0),
            decreases drawn_bins - index,
        {
            let point: EnvelopePoint = envelope[index];
            if Binary32::from_bits(PEAK_LEVEL).lt(
                level(point.max).abs().max(level(point.min).abs()),
            ) {
                peaks = true;
            }
            index = index + 1;
        }
        !peaks || chart.min.x.le(chart.max.x)
    }

    /// Paint the widget.
    pub fn append_paint(&self, items: &mut Vec<PaintItem>, bounds: Rect)
        requires
            self.wf(),
            self.paintable(bounds),
        ensures
            crate::paint::marks(final(items)@) == crate::paint::marks(old(items)@) + self.painted(
                bounds,
            ),
    {
        let ghost start = crate::paint::marks(items@);
        self.paint_frame(items, bounds);
        self.paint_grid(items, bounds);
        self.paint_waveform(items, bounds);
        self.paint_position(items, bounds);
        assert(crate::paint::marks(items@) =~= start + self.painted(bounds));
    }

    fn paint_frame(&self, items: &mut Vec<PaintItem>, bounds: Rect)
        ensures
            crate::paint::marks(final(items)@) == crate::paint::marks(old(items)@)
                + self.frame_marks(bounds),
    {
        let ghost start = crate::paint::marks(items@);
        let width: Binary32 = bounds.width().max(Binary32::one());
        let chart: Rect = chart_rect(bounds);
        let offset_hovered: bool = self.offset_hovered();
        let offset_active: bool = self.active_offset.is_some();
        paint_fill(items, bounds, Tint::plain(Role::Background));
        paint_text(
            items,
            self.status_text().as_str(),
            TextStyle {
                rect: Rect::from_xy_size(
                    bounds.min.x.add(Binary32::from_bits(MARGIN)),
                    bounds.min.y.add(Binary32::from_bits(EIGHT)),
                    width.sub(Binary32::from_bits(MARGINS)),
                    Binary32::from_bits(FOURTEEN),
                ),
                font_size: Binary32::from_bits(ELEVEN),
                baseline: Some(Binary32::from_bits(ELEVEN)),
                tint: Tint::plain(
                    if self.showing_live_preview() {
                        Role::BlueSoft
                    } else if self.showing_retained_preview() {
                        Role::Orange
                    } else {
                        Role::TextMuted
                    },
                ),
                centered: false,
            },
        );
        paint_fill(items, chart, Tint::plain(Role::Surface));
        paint_stroke(
            items,
            chart,
            Tint::plain(
                if offset_active {
                    Role::BrightCyan
                } else if offset_hovered {
                    Role::Cyan
                } else {
                    Role::Border
                },
            ),
            if offset_active {
                Binary32::from_bits(TWO)
            } else {
                Binary32::one()
            },
        );
        let center_y: Binary32 = chart.min.y.add(chart.height().mul(Binary32::from_bits(HALF)));
        paint_fill(
            items,
            Rect::from_xy_size(chart.min.x, center_y, chart.width(), Binary32::one()),
            Tint::plain(Role::GridStrong),
        );
        assert(crate::paint::marks(items@) =~= start + self.frame_marks(bounds));
    }

    fn paint_grid(&self, items: &mut Vec<PaintItem>, bounds: Rect)
        ensures
            crate::paint::marks(final(items)@) == crate::paint::marks(old(items)@)
                + self.grid_marks(bounds),
    {
        let ghost start = crate::paint::marks(items@);
        let chart: Rect = chart_rect(bounds);
        let beats: u32 = self.displayed_window().beats();
        let mut subdivision: u32 = 0;
        while subdivision <= 4 * beats
            invariant
                subdivision <= 4 * beats + 1,
                beats <= 8,
                beats == self.view.displayed_window().beats(),
                chart == chart_rect(bounds),
                crate::paint::marks(items@) =~= start + self.grid_marks(bounds).take(
                    subdivision as int,
                ),
            decreases 4 * beats + 1 - subdivision,
        {
            let beat_offset: Binary64 = Binary64::from_whole(subdivision as u64).mul(
                Binary64::from_bits(QUARTER),
            );
            let x: Binary32 = chart.min.x.add(
                grid_x(beat_offset, Binary64::from_whole(beats as u64), chart.width()),
            );
            let ghost painted = self.grid_marks(bounds);
            assert(painted[subdivision as int] == grid_mark(chart, beats, subdivision));
            assert(painted.take(subdivision + 1) =~= painted.take(subdivision as int).push(
                painted[subdivision as int],
            ));
            paint_fill(
                items,
                Rect::from_xy_size(x, chart.min.y, Binary32::one(), chart.height()),
                Tint::plain(
                    if subdivision % 4 == 0 {
                        Role::Border
                    } else {
                        Role::GridSoft
                    },
                ),
            );
            subdivision = subdivision + 1;
        }
        assert(self.grid_marks(bounds).take(4 * beats + 1) =~= self.grid_marks(bounds));
    }

    fn paint_waveform(&self, items: &mut Vec<PaintItem>, bounds: Rect)
        requires
            self.wf(),
        ensures
            crate::paint::marks(final(items)@) == crate::paint::marks(old(items)@)
                + self.waveform_marks(bounds),
    {
        let ghost start = crate::paint::marks(items@);
        let chart: Rect = chart_rect(bounds);
        let (drawn_bins, envelope): (usize, [EnvelopePoint; ENVELOPE_BINS]) =
            self.waveform_for_paint();
        let offset_hovered: bool = self.offset_hovered();
        let offset_active: bool = self.active_offset.is_some();
        let show_live: bool = self.showing_live_preview();
        let show_retained: bool = self.showing_retained_preview();
        let mut peak_marks: Vec<Rect> = Vec::new();
        let mut source_points: Vec<EnvelopePoint> = Vec::new();
        let mut index: usize = 0;
        while index < drawn_bins
            invariant
                index <= drawn_bins <= ENVELOPE_BINS,
                source_points@ =~= envelope@.take(index as int),
                peak_marks@ == peak_rects(envelope@, chart, self.waveform_offset, index as nat),
            decreases drawn_bins - index,
        {
            let point: EnvelopePoint = envelope[index];
            let min: Binary32 = level(point.min);
            let max: Binary32 = level(point.max);
            let x: Binary32 = chart.min.x.add(
                shifted_waveform_x(column_x(index), self.waveform_offset).mul(chart.width()),
            );
            let (top, bottom): (Binary32, Binary32) = waveform_y_points(point, chart);
            source_points.push(point);
            if Binary32::from_bits(PEAK_LEVEL).lt(max.abs().max(min.abs())) {
                peak_marks.push(
                    Rect::from_xy_size(
                        x.clamp(chart.min.x, chart.max.x).sub(Binary32::from_bits(THREE_QUARTERS)),
                        top,
                        Binary32::from_bits(ONE_AND_A_HALF),
                        bottom.sub(top).max(Binary32::one()),
                    ),
                );
            }
            index = index + 1;
        }
        let role: Role = if offset_active {
            Role::BrightCyan
        } else if offset_hovered {
            Role::Cyan
        } else if show_live {
            Role::Blue
        } else if show_retained {
            Role::Orange
        } else {
            Role::Mint
        };
        let width: Binary32 = if offset_active {
            Binary32::from_bits(ONE_AND_A_HALF)
        } else {
            Binary32::one()
        };
        let segments: Vec<WaveformSegment> = shifted_waveform_segments(
            source_points.as_slice(),
            chart,
            self.waveform_offset,
        );
        let ghost pieces = self.pieces(chart);
        assert(crate::chart::segment_outlines(segments@) == pieces);
        paint_segments(items, &segments, role, show_live, width);
        assert(self.waveform_role() == role);
        let peak_tint: Tint = if offset_active {
            Tint::with_alpha(Role::BrightCyan, 220)
        } else if offset_hovered {
            Tint::with_alpha(Role::Cyan, 220)
        } else if show_live {
            Tint::with_alpha(Role::Blue, 144)
        } else {
            Tint::with_alpha(Role::Orange, 220)
        };
        if peak_marks.len() > 0 {
            paint(items, PaintItem::FillRects { rects: peak_marks, tint: peak_tint });
        }
        assert(crate::paint::marks(items@) =~= start + self.waveform_marks(bounds));
    }

    fn paint_position(&self, items: &mut Vec<PaintItem>, bounds: Rect)
        ensures
            crate::paint::marks(final(items)@) == crate::paint::marks(old(items)@)
                + self.position_marks(bounds),
    {
        let ghost start = crate::paint::marks(items@);
        let chart: Rect = chart_rect(bounds);
        let displayed_window: WindowLength = self.displayed_window();
        let phase: Option<Binary32> = if self.showing_retained_preview() {
            None
        } else if displayed_window == WindowLength::OneBeat {
            current_phase(self.view.current_song_pos_beats)
        } else {
            window_phase(self.view.current_song_pos_beats, displayed_window)
        };
        if let Some(phase) = phase {
            let x: Binary32 = chart.min.x.add(phase.mul(chart.width()));
            paint_fill(
                items,
                Rect::from_xy_size(
                    x.sub(Binary32::one()),
                    chart.min.y,
                    Binary32::from_bits(TWO),
                    chart.height(),
                ),
                Tint::plain(Role::Orange),
            );
        }
        paint_fill(items, zero_marker_rect(chart), Tint::with_alpha(Role::TextPrimary, 192));
        assert(crate::paint::marks(items@) =~= start + self.position_marks(bounds));
    }
}

/// Copy the points of a line.
fn copied(points: &Vec<Point>) -> (copy: Vec<Point>)
    ensures
        copy@ == points@,
{
    let mut copy: Vec<Point> = Vec::new();
    let mut index: usize = 0;
    while index < points.len()
        invariant
            index <= points@.len(),
            copy@ =~= points@.take(index as int),
        decreases points@.len() - index,
    {
        copy.push(points[index]);
        index = index + 1;
    }
    assert(points@.take(points@.len() as int) =~= points@);
    copy
}

/// The corners of the area between two lines.
fn enclosed(top: &Vec<Point>, bottom: &Vec<Point>) -> (corners: Vec<Point>)
    ensures
        corners@ == top@ + bottom@.reverse(),
{
    let mut corners: Vec<Point> = copied(top);
    let mut left: usize = bottom.len();
    while left > 0
        invariant
            left <= bottom@.len(),
            corners@ =~= top@ + bottom@.reverse().take(bottom@.len() - left),
        decreases left,
    {
        left = left - 1;
        corners.push(bottom[left]);
    }
    assert(bottom@.reverse().take(bottom@.len() as int) =~= bottom@.reverse());
    corners
}

/// Paint the unbroken pieces of the waveform.
fn paint_segments(
    items: &mut Vec<PaintItem>,
    segments: &Vec<WaveformSegment>,
    role: Role,
    live: bool,
    width: Binary32,
)
    ensures
        crate::paint::marks(final(items)@) == crate::paint::marks(old(items)@) + outlines_marks(
            crate::chart::segment_outlines(segments@),
            role,
            live,
            width,
            segments@.len(),
        ),
{
    let ghost start = crate::paint::marks(items@);
    let ghost outlines = crate::chart::segment_outlines(segments@);
    let (area, upper, lower): (u8, u8, u8) = if live {
        (32, 176, 128)
    } else {
        (64, 232, 184)
    };
    let mut index: usize = 0;
    assert(start + outlines_marks(outlines, role, live, width, 0) =~= start);
    while index < segments.len()
        invariant
            index <= segments@.len(),
            outlines == crate::chart::segment_outlines(segments@),
            area == choice::<u8>(live, 32, 64),
            upper == choice::<u8>(live, 176, 232),
            lower == choice::<u8>(live, 128, 184),
            crate::paint::marks(items@) == start + outlines_marks(
                outlines,
                role,
                live,
                width,
                index as nat,
            ),
        decreases segments@.len() - index,
    {
        let ghost before = crate::paint::marks(items@);
        let segment: &WaveformSegment = &segments[index];
        paint(
            items,
            PaintItem::FillPolygon {
                points: enclosed(&segment.top, &segment.bottom),
                tint: Tint::with_alpha(role, area),
            },
        );
        paint(
            items,
            PaintItem::StrokePolyline {
                points: copied(&segment.top),
                tint: Tint::with_alpha(role, upper),
                width,
            },
        );
        paint(
            items,
            PaintItem::StrokePolyline {
                points: copied(&segment.bottom),
                tint: Tint::with_alpha(role, lower),
                width,
            },
        );
        assert(crate::paint::marks(items@) =~= before + outline_marks(
            outlines[index as int],
            role,
            live,
            width,
        ));
        assert(before + outline_marks(outlines[index as int], role, live, width) =~= start
            + outlines_marks(outlines, role, live, width, (index + 1) as nat));
        index = index + 1;
    }
}

/// Which marks were painted for the peaks of the columns before `index`.
spec fn peaks_before(envelope: Seq<EnvelopePoint>, index: nat) -> nat
    decreases index,
{
    if index == 0 {
        0
    } else {
        peaks_before(envelope, (index - 1) as nat) + if reaches_the_peak_level(
            envelope[index - 1],
        ) {
            1nat
        } else {
            0nat
        }
    }
}

/// A column reaches beyond 0.85 of full scale, upward or downward.
pub open spec fn reaches_the_peak_level(point: EnvelopePoint) -> bool {
    let one = Binary32 { bits: 0x3f80_0000 };
    let minus_one = Binary32 { bits: 0xbf80_0000 };
    (Binary32 { bits: 0x3f59_999a }).lt(
        point.max.clamp(minus_one, one).abs().max(point.min.clamp(minus_one, one).abs()),
    )
}

/// A mark lies over a column: from its top to its bottom, one unit high at
/// least, and half on either side of where the offset moves the column to, held
/// to the chart.
pub open spec fn marks_the_column(
    mark: Rect,
    point: EnvelopePoint,
    index: usize,
    chart: Rect,
    offset: Binary32,
) -> bool {
    let share = shifted_waveform_x(
        Binary32::from_whole(index as u64).div(Binary32::from_whole(1023)),
        offset,
    );
    let x = chart.min.x.add(share.mul(chart.max.x.sub(chart.min.x)));
    let top = crate::chart::drawn_height(point.max, chart);
    let bottom = crate::chart::drawn_height(point.min, chart);
    &&& mark.min.x == x.clamp(chart.min.x, chart.max.x).sub(Binary32 { bits: 0x3f40_0000 })
    &&& mark.max.x == mark.min.x.add(Binary32 { bits: 0x3fc0_0000 })
    &&& mark.min.y == top
    &&& mark.max.y == top.add(bottom.sub(top).max(Binary32 { bits: 0x3f80_0000 }))
}

proof fn lemma_peaks(
    envelope: Seq<EnvelopePoint>,
    chart: Rect,
    offset: Binary32,
    count: nat,
    index: nat,
)
    requires
        index < count <= usize::MAX,
    ensures
        ({
            let marks = peak_rects(envelope, chart, offset, count);
            &&& marks.len() == peaks_before(envelope, count)
            &&& peaks_before(envelope, index) <= peaks_before(envelope, count)
            &&& reaches_the_peak_level(envelope[index as int]) ==> {
                &&& peaks_before(envelope, index) < marks.len()
                &&& marks_the_column(
                    marks[peaks_before(envelope, index) as int],
                    envelope[index as int],
                    index as usize,
                    chart,
                    offset,
                )
            }
        }),
    decreases count,
{
    let last = (count - 1) as nat;
    assert(is_peak(envelope[last as int]) == reaches_the_peak_level(envelope[last as int]));
    if index < last {
        lemma_peaks(envelope, chart, offset, last, index);
    } else {
        lemma_peak_count(envelope, chart, offset, last);
    }
}

proof fn lemma_peak_count(envelope: Seq<EnvelopePoint>, chart: Rect, offset: Binary32, count: nat)
    requires
        count <= usize::MAX,
    ensures
        peak_rects(envelope, chart, offset, count).len() == peaks_before(envelope, count),
    decreases count,
{
    if count > 0 {
        lemma_peak_count(envelope, chart, offset, (count - 1) as nat);
        assert(is_peak(envelope[count - 1]) == reaches_the_peak_level(envelope[count - 1]));
    }
}

impl WaveformWidget {
    /// Every drawn column that reaches beyond the peak level has its mark, and
    /// without such a column there is none.
    pub proof fn peaks_are_marked(self, chart: Rect, index: nat)
        requires
            self.wf(),
            index < self.drawn().bins,
        ensures
            reaches_the_peak_level(self.drawn().envelope[index as int]) ==> exists|at: int|
                0 <= at < self.peaks(chart).len() && marks_the_column(
                    #[trigger] self.peaks(chart)[at],
                    self.drawn().envelope[index as int],
                    index as usize,
                    chart,
                    self.waveform_offset,
                ),
            (forall|bin: int|
                0 <= bin < self.drawn().bins ==> !reaches_the_peak_level(
                    #[trigger] self.drawn().envelope[bin],
                )) ==> self.peaks(chart).len() == 0,
    {
        let drawn = self.drawn();
        lemma_peaks(drawn.envelope, chart, self.waveform_offset, drawn.bins as nat, index);
        let at = peaks_before(drawn.envelope, index) as int;
        if reaches_the_peak_level(drawn.envelope[index as int]) {
            assert(marks_the_column(
                self.peaks(chart)[at],
                drawn.envelope[index as int],
                index as usize,
                chart,
                self.waveform_offset,
            ));
        }
        if forall|bin: int|
            0 <= bin < drawn.bins ==> !reaches_the_peak_level(#[trigger] drawn.envelope[bin]) {
            lemma_no_peaks(drawn.envelope, drawn.bins as nat, drawn.bins as nat);
        }
    }

    /// The grid has a line for every quarter of a beat, both edges included,
    /// from top to bottom and at its share of the width; the lines on the beat
    /// are the strong ones.
    pub proof fn grids_have_a_line_for_every_quarter_beat(self, bounds: Rect, line: int)
        requires
            0 <= line <= 4 * self.view.displayed_window().beats(),
        ensures
            ({
                let chart = chart_rect(bounds);
                let beats = self.view.displayed_window().beats();
                let marks = self.grid_marks(bounds);
                &&& marks.len() == 4 * beats + 1
                &&& marks[line] matches Mark::Fill(rect, tint) && {
                    &&& rect.min.x == chart.min.x.add(
                        grid_x(
                            Binary64::from_whole(line as u64).mul(
                                Binary64 { bits: 0x3fd0_0000_0000_0000 },
                            ),
                            Binary64::from_whole(beats as u64),
                            chart.max.x.sub(chart.min.x),
                        ),
                    )
                    &&& rect.min.y == chart.min.y
                    &&& rect.max.x == rect.min.x.add(Binary32 { bits: 0x3f80_0000 })
                    &&& rect.max.y == chart.min.y.add(chart.max.y.sub(chart.min.y))
                    &&& tint == if line % 4 == 0 {
                        Tint::plain(Role::Border)
                    } else {
                        Tint::plain(Role::GridSoft)
                    }
                }
            }),
    {
        assert(self.grid_marks(bounds)[line] == grid_mark(
            chart_rect(bounds),
            self.view.displayed_window().beats(),
            line as u32,
        ));
    }

    /// The playhead stands at the phase of the current position in the window on
    /// display, from top to bottom. There is none without a position, and none
    /// while a preview is held.
    pub proof fn playheads_follow_the_position(self, bounds: Rect)
        ensures
            ({
                let chart = chart_rect(bounds);
                let marks = self.position_marks(bounds);
                let held = !(self.view.is_playing && self.view.live_valid
                    && self.view.live_sample_count > 0 && self.view.target_sample_count > 0)
                    && self.view.display_valid && self.view.display_sample_count > 0
                    && self.view.display_target_sample_count > 0;
                let phase = window_phase(
                    self.view.current_song_pos_beats,
                    self.view.displayed_window(),
                );
                let zero = Mark::Fill(
                    zero_marker_rect(chart),
                    Tint::with_alpha(Role::TextPrimary, 192),
                );
                if held || !crate::continuity::usable_position(self.view.current_song_pos_beats) {
                    marks == seq![zero]
                } else {
                    &&& marks.len() == 2
                    &&& marks[1] == zero
                    &&& phase is Some
                    &&& marks[0] matches Mark::Fill(rect, tint) && {
                        &&& rect.min.x == chart.min.x.add(
                            phase->0.mul(chart.max.x.sub(chart.min.x)),
                        ).sub(Binary32 { bits: 0x3f80_0000 })
                        &&& rect.max.x == rect.min.x.add(Binary32 { bits: 0x4000_0000 })
                        &&& rect.min.y == chart.min.y
                        &&& rect.max.y == chart.min.y.add(chart.max.y.sub(chart.min.y))
                        &&& tint == Tint::plain(Role::Orange)
                    }
                }
            }),
    {
    }

    /// Every piece of the waveform is painted as an area between its two lines,
    /// and as the lines; piece by piece, behind the frame and the grid.
    #[verifier::spinoff_prover]
    pub proof fn pieces_are_painted_in_order(self, bounds: Rect, piece: int)
        requires
            0 <= piece < self.pieces(chart_rect(bounds)).len(),
        ensures
            ({
                let outline = self.pieces(chart_rect(bounds))[piece];
                let marks = self.waveform_marks(bounds);
                let live = self.view.is_playing && self.view.live_valid
                    && self.view.live_sample_count > 0 && self.view.target_sample_count > 0;
                let role = self.waveform_role();
                let width = if self.active_offset is Some {
                    Binary32 { bits: 0x3fc0_0000 }
                } else {
                    Binary32 { bits: 0x3f80_0000 }
                };
                &&& marks.len() >= 3 * self.pieces(chart_rect(bounds)).len()
                &&& marks[3 * piece] == Mark::Polygon(
                    outline.top + outline.bottom.reverse(),
                    Tint::with_alpha(
                        role,
                        if live {
                            32
                        } else {
                            64
                        },
                    ),
                )
                &&& marks[3 * piece + 1] == Mark::Polyline(
                    outline.top,
                    Tint::with_alpha(
                        role,
                        if live {
                            176
                        } else {
                            232
                        },
                    ),
                    width,
                )
                &&& marks[3 * piece + 2] == Mark::Polyline(
                    outline.bottom,
                    Tint::with_alpha(
                        role,
                        if live {
                            128
                        } else {
                            184
                        },
                    ),
                    width,
                )
            }),
    {
        let pieces = self.pieces(chart_rect(bounds));
        let width = if self.active_offset is Some {
            Binary32::from_bits(0x3fc0_0000)
        } else {
            Binary32::one()
        };
        let role = self.waveform_role();
        let live = self.view.showing_live_preview();
        let peaks = self.peaks(chart_rect(bounds));
        let tail = if peaks.len() > 0 {
            seq![Mark::Fills(peaks, self.peak_tint())]
        } else {
            seq![]
        };
        lemma_marks_of_piece(pieces, role, live, width, tail, piece);
    }

    /// The color of the waveform tells what it is: a drag first, then that one
    /// can begin, then live, held and completed.
    pub proof fn colors_tell_what_is_on_display(self)
        ensures
            ({
                let live = self.view.is_playing && self.view.live_valid
                    && self.view.live_sample_count > 0 && self.view.target_sample_count > 0;
                let held = !live && self.view.display_valid && self.view.display_sample_count > 0
                    && self.view.display_target_sample_count > 0;
                let armed = self.chart_hovered && self.command_held && self.shift_held;
                let dragged = self.active_offset is Some;
                &&& dragged ==> self.waveform_role() == Role::BrightCyan
                &&& !dragged && armed ==> self.waveform_role() == Role::Cyan
                &&& !dragged && !armed && live ==> self.waveform_role() == Role::Blue
                &&& !dragged && !armed && held ==> self.waveform_role() == Role::Orange
                &&& !dragged && !armed && !live && !held ==> self.waveform_role() == Role::Mint
                &&& self.peak_tint() == if dragged {
                    Tint::with_alpha(Role::BrightCyan, 220)
                } else if armed {
                    Tint::with_alpha(Role::Cyan, 220)
                } else if live {
                    Tint::with_alpha(Role::Blue, 144)
                } else {
                    Tint::with_alpha(Role::Orange, 220)
                }
            }),
    {
    }
}

proof fn lemma_marks_of_piece(
    outlines: Seq<Outline>,
    role: Role,
    live: bool,
    width: Binary32,
    tail: Seq<Mark>,
    piece: int,
)
    requires
        0 <= piece < outlines.len(),
    ensures
        ({
            let outline = outlines[piece];
            let marks = outlines_marks(outlines, role, live, width, outlines.len()) + tail;
            &&& marks.len() >= 3 * outlines.len()
            &&& marks[3 * piece] == Mark::Polygon(
                outline.top + outline.bottom.reverse(),
                Tint::with_alpha(role, choice(live, 32, 64)),
            )
            &&& marks[3 * piece + 1] == Mark::Polyline(
                outline.top,
                Tint::with_alpha(role, choice(live, 176, 232)),
                width,
            )
            &&& marks[3 * piece + 2] == Mark::Polyline(
                outline.bottom,
                Tint::with_alpha(role, choice(live, 128, 184)),
                width,
            )
        }),
{
    lemma_piece_marks(outlines, role, live, width, outlines.len(), piece);
}

proof fn lemma_no_peaks(envelope: Seq<EnvelopePoint>, bins: nat, count: nat)
    requires
        count <= bins,
        forall|bin: int|
            0 <= bin < bins ==> !reaches_the_peak_level(#[trigger] envelope[bin]),
    ensures
        peaks_before(envelope, count) == 0,
    decreases count,
{
    if count > 0 {
        lemma_no_peaks(envelope, bins, (count - 1) as nat);
    }
}

proof fn lemma_piece_marks(
    outlines: Seq<Outline>,
    role: Role,
    live: bool,
    width: Binary32,
    count: nat,
    piece: int,
)
    requires
        0 <= piece < count,
    ensures
        ({
            let marks = outlines_marks(outlines, role, live, width, count);
            &&& marks.len() == 3 * count
            &&& marks.subrange(3 * piece, 3 * piece + 3) == outline_marks(
                outlines[piece],
                role,
                live,
                width,
            )
            &&& marks[3 * piece] == outline_marks(outlines[piece], role, live, width)[0]
            &&& marks[3 * piece + 1] == outline_marks(outlines[piece], role, live, width)[1]
            &&& marks[3 * piece + 2] == outline_marks(outlines[piece], role, live, width)[2]
        }),
    decreases count,
{
    let before = outlines_marks(outlines, role, live, width, (count - 1) as nat);
    let marks = outlines_marks(outlines, role, live, width, count);
    lemma_marks_count(outlines, role, live, width, (count - 1) as nat);
    if piece < count - 1 {
        lemma_piece_marks(outlines, role, live, width, (count - 1) as nat, piece);
        assert(marks.subrange(3 * piece, 3 * piece + 3) =~= before.subrange(
            3 * piece,
            3 * piece + 3,
        ));
    } else {
        assert(marks.subrange(3 * piece, 3 * piece + 3) =~= outline_marks(
            outlines[piece],
            role,
            live,
            width,
        ));
    }
}

proof fn lemma_marks_count(
    outlines: Seq<Outline>,
    role: Role,
    live: bool,
    width: Binary32,
    count: nat,
)
    ensures
        outlines_marks(outlines, role, live, width, count).len() == 3 * count,
    decreases count,
{
    if count > 0 {
        lemma_marks_count(outlines, role, live, width, (count - 1) as nat);
    }
}

impl WaveformWidget {
    /// Behind everything lies the background, with the status line above the
    /// chart in the color of what it announces; the chart has its surface, its
    /// border and a line through its middle.
    pub proof fn frames_hold_status_and_chart(self, bounds: Rect)
        ensures
            ({
                let chart = chart_rect(bounds);
                let marks = self.frame_marks(bounds);
                let live = self.view.is_playing && self.view.live_valid
                    && self.view.live_sample_count > 0 && self.view.target_sample_count > 0;
                let held = !live && self.view.display_valid && self.view.display_sample_count > 0
                    && self.view.display_target_sample_count > 0;
                let armed = self.chart_hovered && self.command_held && self.shift_held;
                let dragged = self.active_offset is Some;
                let one = Binary32 { bits: 0x3f80_0000 };
                &&& marks.len() == 5
                &&& marks[0] == Mark::Fill(bounds, Tint { role: Role::Background, alpha: None })
                &&& marks[1] matches Mark::Text(text, style) && {
                    &&& text == self.view.status_presentation().label()
                    &&& style.rect.min.x == bounds.min.x.add(Binary32 { bits: 0x4180_0000 })
                    &&& style.rect.min.y == bounds.min.y.add(Binary32 { bits: 0x4100_0000 })
                    &&& style.tint.role == if live {
                        Role::BlueSoft
                    } else if held {
                        Role::Orange
                    } else {
                        Role::TextMuted
                    }
                }
                &&& marks[2] == Mark::Fill(chart, Tint { role: Role::Surface, alpha: None })
                &&& marks[3] matches Mark::Stroke(rect, tint, width) && {
                    &&& rect == chart
                    &&& tint.role == if dragged {
                        Role::BrightCyan
                    } else if armed {
                        Role::Cyan
                    } else {
                        Role::Border
                    }
                    &&& width == if dragged {
                        Binary32 { bits: 0x4000_0000 }
                    } else {
                        one
                    }
                }
                &&& marks[4] matches Mark::Fill(rect, tint) && {
                    &&& rect.min.x == chart.min.x
                    &&& rect.min.y == chart.min.y.add(
                        chart.max.y.sub(chart.min.y).mul(Binary32 { bits: 0x3f00_0000 }),
                    )
                    &&& rect.max.x == chart.min.x.add(chart.max.x.sub(chart.min.x))
                    &&& rect.max.y == rect.min.y.add(one)
                    &&& tint == Tint { role: Role::GridStrong, alpha: None }
                }
            }),
    {
    }

    /// The frame is painted first, then the grid, the waveform and the marks of
    /// the position.
    pub proof fn everything_is_painted_in_order(self, bounds: Rect)
        ensures
            self.painted(bounds) == self.frame_marks(bounds) + self.grid_marks(bounds)
                + self.waveform_marks(bounds) + self.position_marks(bounds),
            self.peaks(chart_rect(bounds)).len() > 0 ==> self.waveform_marks(bounds).len() > 0
                && self.waveform_marks(bounds).last() == Mark::Fills(
                self.peaks(chart_rect(bounds)),
                self.peak_tint(),
            ),
    {
    }
}

} // verus!
