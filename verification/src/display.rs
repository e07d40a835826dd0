//! What the editor shows of a view.

use crate::binary::Binary32;
use crate::envelope::{EnvelopePoint, ENVELOPE_BINS};
use crate::view::WaveformView;
use crate::window::WindowLength;
use vstd::prelude::*;
use vstd::string::*;

verus! {

/// The state that the status line announces.
#[derive(Clone, Copy, Debug, PartialEq, Eq, Structural)]
pub enum StatusPresentation {
    /// A window is being captured.
    Live(WindowLength),
    /// The last window stays on display.
    Held(WindowLength),
    /// Nothing was captured yet.
    Waiting,
}

impl StatusPresentation {
    /// The text of the status line.
    pub open spec fn label(self) -> Seq<char> {
        match self {
            StatusPresentation::Live(window) => "LIVE · "@ + beats_label(window),
            StatusPresentation::Held(window) => "HELD · "@ + beats_label(window),
            StatusPresentation::Waiting => "WAITING"@,
        }
    }

    /// Return the text of the status line.
    pub fn text(self) -> (text: String)
        ensures
            text@ == self.label(),
    {
        match self {
            StatusPresentation::Live(window) => {
                let mut text: String = String::from_str("LIVE · ");
                text.append(concise_window_label(window));
                text
            },
            StatusPresentation::Held(window) => {
                let mut text: String = String::from_str("HELD · ");
                text.append(concise_window_label(window));
                text
            },
            StatusPresentation::Waiting => String::from_str("WAITING"),
        }
    }
}

/// A window in beats.
pub open spec fn beats_label(window: WindowLength) -> Seq<char> {
    match window {
        WindowLength::OneBeat => "1 beat"@,
        WindowLength::TwoBeats => "2 beats"@,
        WindowLength::FourBeats => "4 beats"@,
        WindowLength::EightBeats => "8 beats"@,
    }
}

/// Describe a window in beats.
pub fn concise_window_label(window: WindowLength) -> (label: &'static str)
    ensures
        label@ == beats_label(window),
{
    match window {
        WindowLength::OneBeat => "1 beat",
        WindowLength::TwoBeats => "2 beats",
        WindowLength::FourBeats => "4 beats",
        WindowLength::EightBeats => "8 beats",
    }
}

impl WaveformView {
    /// The window being captured is on display.
    pub open spec fn spec_showing_live_preview(self) -> bool {
        self.is_playing && self.live_valid && self.live_sample_count > 0 && self.target_sample_count
            > 0
    }

    /// Whether the window being captured is on display.
    #[verifier::when_used_as_spec(spec_showing_live_preview)]
    pub fn showing_live_preview(self) -> (live: bool)
        ensures
            live == self.spec_showing_live_preview(),
    {
        self.is_playing && self.live_valid && self.live_sample_count > 0 && self.target_sample_count
            > 0
    }

    /// A window that is no longer captured is on display.
    pub open spec fn spec_showing_retained_preview(self) -> bool {
        !self.spec_showing_live_preview() && self.display_valid && self.display_sample_count > 0
            && self.display_target_sample_count > 0
    }

    /// Whether a window that is no longer captured is on display.
    #[verifier::when_used_as_spec(spec_showing_retained_preview)]
    pub fn showing_retained_preview(self) -> (retained: bool)
        ensures
            retained == self.spec_showing_retained_preview(),
    {
        !self.showing_live_preview() && self.display_valid && self.display_sample_count > 0
            && self.display_target_sample_count > 0
    }

    /// The window length of what is on display.
    pub open spec fn spec_displayed_window(self) -> WindowLength {
        if self.spec_showing_live_preview() {
            self.live_window
        } else if self.spec_showing_retained_preview() {
            self.display_window
        } else {
            self.snapshot_window
        }
    }

    /// Return the window length of what is on display.
    #[verifier::when_used_as_spec(spec_displayed_window)]
    pub fn displayed_window(self) -> (window: WindowLength)
        ensures
            window == self.spec_displayed_window(),
    {
        if self.showing_live_preview() {
            self.live_window
        } else if self.showing_retained_preview() {
            self.display_window
        } else {
            self.snapshot_window
        }
    }

    /// The state that the status line announces.
    pub open spec fn spec_status_presentation(self) -> StatusPresentation {
        if self.spec_showing_live_preview() {
            StatusPresentation::Live(self.live_window)
        } else if self.spec_showing_retained_preview() {
            StatusPresentation::Held(self.display_window)
        } else if self.snapshot_revision > 0 && self.sample_count > 0 {
            StatusPresentation::Held(self.snapshot_window)
        } else {
            StatusPresentation::Waiting
        }
    }

    /// Return the state that the status line announces.
    #[verifier::when_used_as_spec(spec_status_presentation)]
    pub fn status_presentation(self) -> (status: StatusPresentation)
        ensures
            status == self.spec_status_presentation(),
    {
        if self.showing_live_preview() {
            StatusPresentation::Live(self.live_window)
        } else if self.showing_retained_preview() || (self.snapshot_revision > 0
            && self.sample_count > 0) {
            StatusPresentation::Held(self.displayed_window())
        } else {
            StatusPresentation::Waiting
        }
    }
}

/// The columns that a captured prefix reaches into.
pub open spec fn spec_captured_prefix_bins(sample_count: usize, target_sample_count: usize) -> usize {
    if sample_count == 0 || target_sample_count == 0 {
        0
    } else if sample_count >= target_sample_count {
        ENVELOPE_BINS
    } else {
        ((sample_count * ENVELOPE_BINS + target_sample_count - 1) / (target_sample_count as int)) as usize
    }
}

/// Return the number of columns that a captured prefix reaches into.
#[verifier::when_used_as_spec(spec_captured_prefix_bins)]
pub fn captured_prefix_bins(sample_count: usize, target_sample_count: usize) -> (bins: usize)
    ensures
        bins == spec_captured_prefix_bins(sample_count, target_sample_count),
        bins <= ENVELOPE_BINS,
        bins > 0 <==> sample_count > 0 && target_sample_count > 0,
{
    if sample_count == 0 || target_sample_count == 0 {
        return 0;
    }
    if sample_count >= target_sample_count {
        return ENVELOPE_BINS;
    }
    let target: u128 = target_sample_count as u128;
    let numerator: u128 = sample_count as u128 * ENVELOPE_BINS as u128 + (target - 1);
    proof {
        let bins = numerator / target;
        assert(1 <= bins <= 1024) by (nonlinear_arith)
            requires
                bins == numerator / target,
                numerator == sample_count * 1024 + (target - 1),
                1 <= sample_count < target,
        ;
    }
    (numerator / target) as usize
}

/// The columns of a captured prefix hold every captured sample.
pub proof fn prefixes_cover_their_samples(
    sample_index: usize,
    sample_count: usize,
    target_sample_count: usize,
)
    requires
        sample_index < sample_count,
        target_sample_count > 0,
    ensures
        crate::envelope::envelope_bin(sample_index, target_sample_count) < captured_prefix_bins(
            sample_count,
            target_sample_count,
        ),
{
    if sample_count < target_sample_count {
        let target = target_sample_count as int;
        let index = sample_index as int;
        let count = sample_count as int;
        let product = index * 1024;
        let scaled = if product > usize::MAX {
            usize::MAX as int
        } else {
            product
        };
        assert(scaled / target < (count * 1024 + target - 1) / target <= 1024) by (nonlinear_arith)
            requires
                0 <= scaled <= index * 1024,
                0 <= index < count < target,
        ;
    }
}

/// A longer prefix reaches into at least as many columns.
pub proof fn prefixes_grow_with_their_samples(
    earlier: usize,
    later: usize,
    target_sample_count: usize,
)
    requires
        earlier <= later,
    ensures
        captured_prefix_bins(earlier, target_sample_count) <= captured_prefix_bins(
            later,
            target_sample_count,
        ),
{
    if 0 < earlier < target_sample_count {
        let target = target_sample_count as int;
        let few = earlier as int;
        let many = later as int;
        assert(0 <= (few * 1024 + target - 1) / target <= 1024) by (nonlinear_arith)
            requires
                0 < few < target,
        ;
        if later < target_sample_count {
            assert((few * 1024 + target - 1) / target <= (many * 1024 + target - 1) / target
                <= 1024) by (nonlinear_arith)
                requires
                    0 < few <= many < target,
            ;
        }
    }
}

/// The columns to draw and how many of them.
#[verifier::ext_equal]
pub struct DrawnWaveform {
    /// How many columns are drawn.
    pub bins: usize,
    /// The columns.
    pub envelope: Seq<EnvelopePoint>,
}

/// An envelope whose first `bins` columns come from another one.
pub open spec fn overlaid(
    base: Seq<EnvelopePoint>,
    bins: usize,
    source: Seq<EnvelopePoint>,
) -> Seq<EnvelopePoint> {
    Seq::new(
        base.len(),
        |bin: int|
            if bin < bins {
                source[bin]
            } else {
                base[bin]
            },
    )
}

impl WaveformView {
    /// The columns of what is on display. A window in progress is drawn over
    /// the last completed one, when there is one.
    pub open spec fn drawn_waveform(self) -> Option<DrawnWaveform> {
        let live = self.showing_live_preview();
        let retained = self.showing_retained_preview();
        let bins = if live {
            captured_prefix_bins(self.live_sample_count, self.target_sample_count)
        } else if retained {
            captured_prefix_bins(self.display_sample_count, self.display_target_sample_count)
        } else {
            captured_prefix_bins(self.sample_count, self.sample_count)
        };
        let source = if live {
            self.live_envelope@
        } else if retained {
            self.display_envelope@
        } else {
            self.envelope@
        };
        let over_completed = (live || retained) && self.snapshot_revision > 0 && self.sample_count
            > 0;
        if bins == 0 {
            None
        } else if over_completed {
            Some(
                DrawnWaveform {
                    bins: ENVELOPE_BINS,
                    envelope: overlaid(self.envelope@, bins, source),
                },
            )
        } else {
            Some(
                DrawnWaveform {
                    bins,
                    envelope: overlaid(crate::publication::flat_envelope(), bins, source),
                },
            )
        }
    }

    /// The samples in the window on display.
    pub open spec fn spec_offset_sample_count(self) -> usize {
        if self.spec_showing_live_preview() {
            self.target_sample_count
        } else if self.spec_showing_retained_preview() {
            self.display_target_sample_count
        } else {
            self.sample_count
        }
    }
}

/// Overwrite the first columns of an envelope.
pub(crate) fn overlay(
    base: &mut [EnvelopePoint; ENVELOPE_BINS],
    bins: usize,
    source: &[EnvelopePoint; ENVELOPE_BINS],
)
    requires
        bins <= ENVELOPE_BINS,
    ensures
        final(base)@ == overlaid(old(base)@, bins, source@),
{
    let mut bin: usize = 0;
    while bin < bins
        invariant
            bin <= bins <= ENVELOPE_BINS,
            forall|done: int| 0 <= done < bin ==> #[trigger] base@[done] == source@[done],
            forall|rest: int|
                bin <= rest < ENVELOPE_BINS ==> #[trigger] base@[rest] == old(base)@[rest],
        decreases bins - bin,
    {
        base[bin] = source[bin];
        bin = bin + 1;
    }
    assert(base@ =~= overlaid(old(base)@, bins, source@));
}

/// Return the columns to draw and how many of them, when there are any.
pub fn waveform_source_for_view(view: WaveformView) -> (source: Option<
    (usize, [EnvelopePoint; ENVELOPE_BINS]),
>)
    ensures
        match source {
            Some((bins, envelope)) => view.drawn_waveform() == Some(
                DrawnWaveform { bins, envelope: envelope@ },
            ) && 1 <= bins <= ENVELOPE_BINS,
            None => view.drawn_waveform() is None,
        },
{
    let show_live: bool = view.showing_live_preview();
    let show_retained: bool = view.showing_retained_preview();
    let (sample_count, target_sample_count, source): (
        usize,
        usize,
        [EnvelopePoint; ENVELOPE_BINS],
    ) = if show_live {
        (view.live_sample_count, view.target_sample_count, view.live_envelope)
    } else if show_retained {
        (view.display_sample_count, view.display_target_sample_count, view.display_envelope)
    } else {
        (view.sample_count, view.sample_count, view.envelope)
    };
    let captured_bins: usize = captured_prefix_bins(sample_count, target_sample_count);
    if captured_bins == 0 {
        return None;
    }
    let preserve_completed_tail: bool = (show_live || show_retained) && view.snapshot_revision > 0
        && view.sample_count > 0;
    let drawn_bins: usize = if preserve_completed_tail {
        ENVELOPE_BINS
    } else {
        captured_bins
    };
    let mut envelope: [EnvelopePoint; ENVELOPE_BINS] = if preserve_completed_tail {
        view.envelope
    } else {
        [EnvelopePoint::flat(); ENVELOPE_BINS]
    };
    assert(!preserve_completed_tail ==> envelope@ =~= crate::publication::flat_envelope());
    overlay(&mut envelope, captured_bins, &source);
    Some((drawn_bins, envelope))
}

/// Return the number of samples in the window on display.
pub fn offset_sample_count(view: WaveformView) -> (count: usize)
    ensures
        count == view.spec_offset_sample_count(),
{
    if view.showing_live_preview() {
        view.target_sample_count
    } else if view.display_valid && view.display_sample_count > 0
        && view.display_target_sample_count > 0 {
        view.display_target_sample_count
    } else {
        view.sample_count
    }
}

/// The columns that a captured prefix reaches into are those whose part of the
/// window begins before the prefix ends.
pub proof fn prefixes_reach_as_far_as_they_are_captured(
    sample_count: usize,
    target_sample_count: usize,
    bin: int,
)
    requires
        target_sample_count > 0,
        0 <= bin < 1024,
    ensures
        bin < captured_prefix_bins(sample_count, target_sample_count) <==> bin
            * target_sample_count < sample_count * 1024,
        captured_prefix_bins(sample_count, target_sample_count) <= 1024,
{
    let count = sample_count as int;
    let target = target_sample_count as int;
    if sample_count == 0 {
        assert(0 <= bin * target) by (nonlinear_arith)
            requires
                0 <= bin,
                0 <= target,
        ;
    } else if sample_count >= target_sample_count {
        assert(bin * target < count * 1024) by (nonlinear_arith)
            requires
                bin < 1024,
                0 < target <= count,
        ;
    } else {
        let numerator = count * 1024 + target - 1;
        let bins = numerator / target;
        vstd::arithmetic::div_mod::lemma_fundamental_div_mod(numerator, target);
        vstd::arithmetic::div_mod::lemma_mod_bound(numerator, target);
        assert(bins <= 1024 && bins >= 0) by (nonlinear_arith)
            requires
                numerator == target * bins + numerator % target,
                0 <= numerator % target < target,
                numerator == count * 1024 + target - 1,
                0 < count < target,
        ;
        assert(bin < bins <==> bin * target < count * 1024) by (nonlinear_arith)
            requires
                numerator == target * bins + numerator % target,
                0 <= numerator % target < target,
                numerator == count * 1024 + target - 1,
                0 < target,
        ;
    }
}

impl WaveformView {
    /// The columns of a window in progress that has `count` of `target` samples
    /// and the columns `source` are drawn: column by column those of `source`
    /// as far as they are captured, and from there on those of the last
    /// completed window. Where there is none, they are drawn as far as they are
    /// captured.
    pub open spec fn draws_prefix(
        self,
        source: Seq<EnvelopePoint>,
        count: usize,
        target: usize,
    ) -> bool {
        let completed = self.snapshot_revision > 0 && self.sample_count > 0;
        &&& self.drawn_waveform() is Some
        &&& self.drawn_waveform()->0.envelope.len() == 1024
        &&& forall|bin: int|
            0 <= bin < 1024 ==> #[trigger] self.drawn_waveform()->0.envelope[bin] == if bin * target
                < count * 1024 {
                source[bin]
            } else if completed {
                self.envelope@[bin]
            } else {
                EnvelopePoint { min: Binary32 { bits: 0 }, max: Binary32 { bits: 0 } }
            }
        &&& completed ==> self.drawn_waveform()->0.bins == 1024
        &&& !completed ==> forall|bin: int|
            0 <= bin < 1024 ==> (bin < self.drawn_waveform()->0.bins <==> #[trigger] (bin * target)
                < count * 1024)
    }

    proof fn lemma_prefix(self, source: Seq<EnvelopePoint>, count: usize, target: usize)
        requires
            target > 0,
            ({
                let bins = captured_prefix_bins(count, target);
                let base = self.envelope@;
                self.drawn_waveform() == Some(
                    if self.snapshot_revision > 0 && self.sample_count > 0 {
                        DrawnWaveform {
                            bins: ENVELOPE_BINS,
                            envelope: overlaid(base, bins, source),
                        }
                    } else {
                        DrawnWaveform {
                            bins,
                            envelope: overlaid(crate::publication::flat_envelope(), bins, source),
                        }
                    },
                )
            }),
        ensures
            self.draws_prefix(source, count, target),
    {
        assert forall|bin: int| 0 <= bin < 1024 implies (bin < captured_prefix_bins(count, target)
            <==> #[trigger] (bin * target) < count * 1024) by {
            prefixes_reach_as_far_as_they_are_captured(count, target, bin);
        }
        assert forall|bin: int| 0 <= bin < 1024 implies #[trigger] self.drawn_waveform()->0.envelope[bin]
            == if bin * target < count * 1024 {
            source[bin]
        } else if self.snapshot_revision > 0 && self.sample_count > 0 {
            self.envelope@[bin]
        } else {
            EnvelopePoint { min: Binary32 { bits: 0 }, max: Binary32 { bits: 0 } }
        } by {
            prefixes_reach_as_far_as_they_are_captured(count, target, bin);
        }
    }

    /// While the host plays and the preview is live, the live preview is what
    /// is drawn, announced and measured, over the last completed window.
    pub proof fn live_previews_are_drawn_over_the_completed_window(self)
        requires
            self.is_playing,
            self.live_valid,
            self.live_sample_count > 0,
            self.target_sample_count > 0,
        ensures
            self.draws_prefix(
                self.live_envelope@,
                self.live_sample_count,
                self.target_sample_count,
            ),
            self.status_presentation() == StatusPresentation::Live(self.live_window),
            self.displayed_window() == self.live_window,
            self.spec_offset_sample_count() == self.target_sample_count,
    {
        prefixes_reach_as_far_as_they_are_captured(
            self.live_sample_count,
            self.target_sample_count,
            0,
        );
        self.lemma_prefix(self.live_envelope@, self.live_sample_count, self.target_sample_count);
    }

    /// Once the host stops, or the preview is no longer live, the last preview
    /// is drawn, announced as held and measured, over the last completed window.
    pub proof fn retained_previews_are_drawn_over_the_completed_window(self)
        requires
            !self.is_playing || !self.live_valid || self.live_sample_count == 0
                || self.target_sample_count == 0,
            self.display_valid,
            self.display_sample_count > 0,
            self.display_target_sample_count > 0,
        ensures
            self.draws_prefix(
                self.display_envelope@,
                self.display_sample_count,
                self.display_target_sample_count,
            ),
            self.status_presentation() == StatusPresentation::Held(self.display_window),
            self.displayed_window() == self.display_window,
            self.spec_offset_sample_count() == self.display_target_sample_count,
    {
        prefixes_reach_as_far_as_they_are_captured(
            self.display_sample_count,
            self.display_target_sample_count,
            0,
        );
        self.lemma_prefix(
            self.display_envelope@,
            self.display_sample_count,
            self.display_target_sample_count,
        );
    }

    /// Without a preview, the last completed window is drawn whole, announced as
    /// held and measured; without one either, nothing is drawn and the editor
    /// waits.
    pub proof fn completed_windows_are_drawn_whole(self)
        requires
            !self.is_playing || !self.live_valid || self.live_sample_count == 0
                || self.target_sample_count == 0,
            !self.display_valid || self.display_sample_count == 0
                || self.display_target_sample_count == 0,
        ensures
            self.sample_count > 0 ==> self.drawn_waveform() == Some(
                DrawnWaveform { bins: 1024, envelope: self.envelope@ },
            ),
            self.sample_count == 0 ==> self.drawn_waveform() is None,
            self.status_presentation() == if self.snapshot_revision > 0 && self.sample_count > 0 {
                StatusPresentation::Held(self.snapshot_window)
            } else {
                StatusPresentation::Waiting
            },
            self.displayed_window() == self.snapshot_window,
            self.spec_offset_sample_count() == self.sample_count,
    {
        if self.sample_count > 0 {
            let flat = crate::publication::flat_envelope();
            assert(overlaid(flat, 1024, self.envelope@) =~= self.envelope@);
        }
    }
}

/// The status line says what is going on and of how many beats.
pub proof fn status_lines_tell_state_and_beats(window: WindowLength)
    ensures
        ({
            let beats = match window {
                WindowLength::OneBeat => "1 beat"@,
                WindowLength::TwoBeats => "2 beats"@,
                WindowLength::FourBeats => "4 beats"@,
                WindowLength::EightBeats => "8 beats"@,
            };
            &&& StatusPresentation::Live(window).label() == "LIVE · "@ + beats
            &&& StatusPresentation::Held(window).label() == "HELD · "@ + beats
            &&& StatusPresentation::Waiting.label() == "WAITING"@
            &&& beats_label(window) == beats
        }),
{
}

} // verus!
