//! What a view shows of what was published.

use crate::binary::{Binary32, Binary64};
use crate::envelope::EnvelopePoint;
use crate::publication::PublicationState;
use crate::timing::TransportInfo;
use crate::view::WaveformView;
use crate::window::{SnapshotMode, WindowLength};
use vstd::prelude::*;

verus! {

/// Columns are shown as they were captured, and flat where nothing was.
pub open spec fn shown_as_captured(
    shown: Seq<EnvelopePoint>,
    captured: Seq<EnvelopePoint>,
) -> bool {
    &&& shown.len() == captured.len()
    &&& forall|bin: int|
        0 <= bin < shown.len() ==> #[trigger] shown[bin] == if captured[bin].min.le(
            captured[bin].max,
        ) {
            captured[bin]
        } else {
            EnvelopePoint { min: Binary32 { bits: 0 }, max: Binary32 { bits: 0 } }
        }
}

/// A tempo is shown in single precision when it is one that capture goes by.
pub open spec fn shown_tempo(tempo: Option<Binary64>) -> Option<Binary32> {
    if crate::continuity::usable_tempo(tempo) {
        Some(tempo->0.to_single())
    } else {
        None
    }
}

/// The completed window is shown field by field as it was before.
pub open spec fn same_completed(one: WaveformView, other: WaveformView) -> bool {
    &&& one.snapshot_revision == other.snapshot_revision
    &&& one.snapshot_mode == other.snapshot_mode
    &&& one.snapshot_window == other.snapshot_window
    &&& one.snapshot_tempo_bpm == other.snapshot_tempo_bpm
    &&& one.snapshot_beat_index == other.snapshot_beat_index
    &&& one.sample_count == other.sample_count
    &&& one.envelope@ == other.envelope@
}

/// The last preview is shown field by field as it was before.
pub open spec fn same_display(one: WaveformView, other: WaveformView) -> bool {
    &&& one.display_valid == other.display_valid
    &&& one.display_revision == other.display_revision
    &&& one.display_mode == other.display_mode
    &&& one.display_window == other.display_window
    &&& one.display_tempo_bpm == other.display_tempo_bpm
    &&& one.display_beat_index == other.display_beat_index
    &&& one.display_sample_count == other.display_sample_count
    &&& one.display_target_sample_count == other.display_target_sample_count
    &&& one.display_envelope@ == other.display_envelope@
}

/// The live preview is shown field by field as it was before.
pub open spec fn same_live(one: WaveformView, other: WaveformView) -> bool {
    &&& one.live_valid == other.live_valid
    &&& one.live_revision == other.live_revision
    &&& one.live_mode == other.live_mode
    &&& one.live_window == other.live_window
    &&& one.live_tempo_bpm == other.live_tempo_bpm
    &&& one.live_beat_index == other.live_beat_index
    &&& one.live_sample_count == other.live_sample_count
    &&& one.target_sample_count == other.target_sample_count
    &&& one.live_envelope@ == other.live_envelope@
}

/// The transport is shown field by field as it was before.
pub open spec fn same_transport(one: WaveformView, other: WaveformView) -> bool {
    &&& one.current_tempo_bpm == other.current_tempo_bpm
    &&& one.current_song_pos_beats == other.current_song_pos_beats
    &&& one.is_playing == other.is_playing
    &&& one.timeline_available == other.timeline_available
}

/// A view shows a window that was completed in every field, and nothing else of
/// it changes.
pub proof fn completed_windows_are_seen(
    state: PublicationState,
    before: WaveformView,
    after: WaveformView,
    mode: SnapshotMode,
    window: WindowLength,
    tempo_bpm: Option<Binary64>,
    beat_index: Option<i64>,
    sample_count: usize,
    envelope: Seq<EnvelopePoint>,
)
    requires
        before.shows(state.presentation()),
        after.shows(
            state.stepped().with_completed(
                mode,
                window,
                tempo_bpm,
                beat_index,
                sample_count,
                envelope,
            ).stepped().presentation(),
        ),
    ensures
        after.snapshot_revision == if before.snapshot_revision == u64::MAX {
            0
        } else {
            before.snapshot_revision + 1
        },
        after.snapshot_mode == mode,
        after.snapshot_window == window,
        after.snapshot_tempo_bpm == shown_tempo(tempo_bpm),
        after.snapshot_beat_index == beat_index,
        sample_count <= u32::MAX ==> after.sample_count == sample_count,
        shown_as_captured(after.envelope@, envelope),
        same_display(before, after),
        same_live(before, after),
        same_transport(before, after),
        after.redraw_revision == before.redraw_revision,
{
}

/// A view shows a preview that was published in every field, as live and as the
/// last one; it shows the transport, and the completed window stays.
pub proof fn published_previews_are_seen(
    state: PublicationState,
    before: WaveformView,
    after: WaveformView,
    transport: TransportInfo,
    mode: SnapshotMode,
    window: WindowLength,
    tempo_bpm: Option<Binary64>,
    beat_index: Option<i64>,
    sample_count: usize,
    target_sample_count: usize,
    envelope: Seq<EnvelopePoint>,
)
    requires
        sample_count > 0,
        target_sample_count > 0,
        before.shows(state.presentation()),
        after.shows(
            state.stepped().with_transport(transport).with_live(
                mode,
                window,
                tempo_bpm,
                beat_index,
                sample_count,
                target_sample_count,
                envelope,
            ).redrawn().stepped().presentation(),
        ),
    ensures
        after.live_valid,
        after.live_revision == if before.display_revision == u64::MAX {
            0
        } else {
            before.display_revision + 1
        },
        after.live_mode == mode,
        after.live_window == window,
        after.live_tempo_bpm == shown_tempo(tempo_bpm),
        after.live_beat_index == beat_index,
        target_sample_count <= u32::MAX ==> {
            &&& after.live_sample_count == if sample_count < target_sample_count {
                sample_count
            } else {
                target_sample_count
            }
            &&& after.target_sample_count == target_sample_count
        },
        shown_as_captured(after.live_envelope@, envelope),
        after.display_valid,
        after.display_revision == after.live_revision,
        after.display_mode == after.live_mode,
        after.display_window == after.live_window,
        after.display_tempo_bpm == after.live_tempo_bpm,
        after.display_beat_index == after.live_beat_index,
        after.display_sample_count == after.live_sample_count,
        after.display_target_sample_count == after.target_sample_count,
        after.display_envelope@ == after.live_envelope@,
        same_completed(before, after),
        shows_transport(after, transport),
        after.redraw_revision == if before.redraw_revision == u64::MAX {
            0
        } else {
            before.redraw_revision + 1
        },
{
}

/// A view shows what is usable of a transport.
pub open spec fn shows_transport(view: WaveformView, transport: TransportInfo) -> bool {
    &&& view.is_playing == transport.is_playing
    &&& view.current_tempo_bpm == shown_tempo(transport.tempo_bpm)
    &&& view.current_song_pos_beats == if crate::continuity::usable_position(
        transport.song_pos_beats,
    ) {
        transport.song_pos_beats
    } else {
        None
    }
    &&& view.timeline_available == crate::continuity::usable_position(transport.song_pos_beats)
}

/// Once a preview is invalidated, nothing is shown as live, and the last preview
/// and the completed window stay as they were.
pub proof fn invalidated_previews_are_seen_as_held(
    state: PublicationState,
    before: WaveformView,
    after: WaveformView,
    transport: TransportInfo,
)
    requires
        before.shows(state.presentation()),
        after.shows(
            state.stepped().with_transport(
                transport,
            ).with_live_cleared().redrawn().stepped().presentation(),
        ),
    ensures
        !after.live_valid,
        after.live_sample_count == 0,
        after.target_sample_count == 0,
        same_display(before, after),
        same_completed(before, after),
        shows_transport(after, transport),
        after.redraw_revision == if before.redraw_revision == u64::MAX {
            0
        } else {
            before.redraw_revision + 1
        },
{
}

/// A transport alone changes nothing of the waveforms.
pub proof fn transports_are_seen_at_once(
    state: PublicationState,
    before: WaveformView,
    after: WaveformView,
    transport: TransportInfo,
)
    requires
        before.shows(state.presentation()),
        after.shows(
            state.stepped().with_transport(transport).redrawn().stepped().presentation(),
        ),
    ensures
        shows_transport(after, transport),
        same_live(before, after),
        same_display(before, after),
        same_completed(before, after),
        after.redraw_revision == if before.redraw_revision == u64::MAX {
            0
        } else {
            before.redraw_revision + 1
        },
{
}

} // verus!
