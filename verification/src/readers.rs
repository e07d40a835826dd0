//! What readers can rely on after any calls.

use crate::binary::{Binary32, Binary64};
use crate::engine::{Capture, SyncedRun};
use crate::envelope::EnvelopePoint;
use crate::publication::{PreviewState, PublicationState, SnapshotState};
use crate::timing::TransportInfo;
use crate::window::{SnapshotMode, WindowLength};
use vstd::prelude::*;

verus! {

/// Every column can be drawn: its lowest sample is not above its highest.
pub open spec fn drawable(envelope: Seq<EnvelopePoint>) -> bool {
    forall|bin: int|
        0 <= bin < envelope.len() ==> (#[trigger] envelope[bin]).min.le(envelope[bin].max)
}

/// A tempo, when there is one, is from 20 to 300 beats per minute.
pub open spec fn sound_tempo(tempo: Option<Binary32>) -> bool {
    tempo matches Some(tempo) ==> {
        &&& tempo.is_finite()
        &&& Binary32::from_bits(0x41a0_0000).le(tempo)
        &&& tempo.le(Binary32::from_bits(0x4396_0000))
    }
}

/// What readers can rely on of a completed snapshot.
pub open spec fn sound_snapshot(snapshot: SnapshotState) -> bool {
    drawable(snapshot.envelope) && sound_tempo(snapshot.tempo)
}

/// What readers can rely on of a preview.
pub open spec fn sound_preview(preview: PreviewState) -> bool {
    &&& drawable(preview.envelope)
    &&& sound_tempo(preview.tempo)
    &&& 0 < preview.sample_count <= preview.target_sample_count
}

impl PublicationState {
    /// What readers can rely on of a publication.
    pub open spec fn sound(self) -> bool {
        &&& sound_snapshot(self.completed)
        &&& self.retained matches Some(preview) ==> sound_preview(preview)
        &&& self.live ==> self.retained is Some
        &&& sound_tempo(self.transport.tempo)
        &&& self.transport.position matches Some(position) ==> position.is_finite()
    }
}

/// A call that changes a publication between two transactions.
pub enum Call {
    /// Select a window.
    SelectWindow(WindowLength),
    /// Set the sample rate.
    SetSampleRate(Binary64),
    /// Present a transport.
    UpdateTransport(TransportInfo),
    /// Publish a preview.
    PublishPreview {
        /// The transport.
        transport: TransportInfo,
        /// How the window is captured.
        mode: SnapshotMode,
        /// The beat window in progress.
        window: WindowLength,
        /// The host tempo of the capture.
        tempo_bpm: Option<Binary64>,
        /// The beat that the window starts on.
        beat_index: Option<i64>,
        /// The number of samples captured so far.
        sample_count: usize,
        /// The number of samples in the whole window.
        target_sample_count: usize,
        /// The columns.
        envelope: Seq<EnvelopePoint>,
    },
    /// Invalidate the live preview.
    ClearPreview,
    /// Invalidate the live preview and present a transport.
    ClearPreviewWithTransport(TransportInfo),
    /// Publish a completed snapshot.
    PublishSnapshot {
        /// How the window was captured.
        mode: SnapshotMode,
        /// The beat window.
        window: WindowLength,
        /// The host tempo of the capture.
        tempo_bpm: Option<Binary64>,
        /// The beat that the window starts on.
        beat_index: Option<i64>,
        /// The number of samples.
        sample_count: usize,
        /// The columns.
        envelope: Seq<EnvelopePoint>,
    },
    /// Process a block.
    ProcessBlock {
        /// The samples of the left channel.
        left: Seq<Binary32>,
        /// The samples of the right channel.
        right: Seq<Binary32>,
        /// The transport.
        transport: TransportInfo,
    },
    /// Reset the engine.
    Reset,
}

impl Capture {
    /// The capture after a call.
    pub open spec fn after_call(self, call: Call) -> Capture {
        let state = self.publication;
        match call {
            Call::SelectWindow(window) => Capture {
                publication: if state.selected_window != window {
                    PublicationState { selected_window: window, ..state.redrawn() }
                } else {
                    state
                },
                ..self
            },
            Call::SetSampleRate(sample_rate) => Capture {
                publication: if state.sample_rate != sample_rate {
                    PublicationState { sample_rate, ..state.redrawn() }
                } else {
                    state
                },
                ..self
            },
            Call::UpdateTransport(transport) => Capture {
                publication: state.stepped().with_transport(transport).redrawn().stepped(),
                ..self
            },
            Call::PublishPreview {
                transport,
                mode,
                window,
                tempo_bpm,
                beat_index,
                sample_count,
                target_sample_count,
                envelope,
            } => Capture {
                publication: state.stepped().with_transport(transport).with_live(
                    mode,
                    window,
                    tempo_bpm,
                    beat_index,
                    sample_count,
                    target_sample_count,
                    envelope,
                ).redrawn().stepped(),
                ..self
            },
            Call::ClearPreview => Capture {
                publication: state.stepped().with_live_cleared().redrawn().stepped(),
                ..self
            },
            Call::ClearPreviewWithTransport(transport) => Capture {
                publication: state.stepped().with_transport(
                    transport,
                ).with_live_cleared().redrawn().stepped(),
                ..self
            },
            Call::PublishSnapshot {
                mode,
                window,
                tempo_bpm,
                beat_index,
                sample_count,
                envelope,
            } => Capture {
                publication: state.stepped().with_completed(
                    mode,
                    window,
                    tempo_bpm,
                    beat_index,
                    sample_count,
                    envelope,
                ).stepped(),
                ..self
            },
            Call::ProcessBlock { left, right, transport } => {
                let within = (Capture { publication: state.stepped(), ..self }).after_block(
                    left,
                    right,
                    transport,
                );
                Capture { publication: within.publication.stepped(), ..within }
            },
            Call::Reset => Capture {
                engine: self.engine.without_partial().without_continuity(),
                publication: state.stepped().with_live_cleared().redrawn().stepped(),
            },
        }
    }

    /// The capture after calls in a row.
    pub open spec fn after_calls(self, calls: Seq<Call>) -> Capture
        decreases calls.len(),
    {
        if calls.len() == 0 {
            self
        } else {
            self.after_calls(calls.drop_last()).after_call(calls.last())
        }
    }
}

proof fn lemma_published_tempo(tempo_bpm: Option<Binary64>)
    ensures
        sound_tempo(crate::publication::single_tempo(tempo_bpm)),
{
    if let Some(tempo) = crate::timing::spec_valid_tempo(tempo_bpm) {
        crate::timing::single_tempo_stays_in_range(tempo);
    }
}

proof fn lemma_drawn_envelope(envelope: Seq<EnvelopePoint>)
    ensures
        drawable(crate::publication::drawn_envelope(envelope)),
{
    let drawn = crate::publication::drawn_envelope(envelope);
    assert forall|bin: int| 0 <= bin < drawn.len() implies (#[trigger] drawn[bin]).min.le(
        drawn[bin].max,
    ) by {
        assert(drawn[bin] == envelope[bin].displayable());
    }
}

proof fn lemma_transport(state: PublicationState, transport: TransportInfo)
    requires
        state.sound(),
    ensures
        state.with_transport(transport).sound(),
{
    lemma_published_tempo(transport.tempo_bpm);
}

proof fn lemma_live(
    state: PublicationState,
    mode: SnapshotMode,
    window: WindowLength,
    tempo_bpm: Option<Binary64>,
    beat_index: Option<i64>,
    sample_count: usize,
    target_sample_count: usize,
    envelope: Seq<EnvelopePoint>,
)
    requires
        state.sound(),
    ensures
        state.with_live(
            mode,
            window,
            tempo_bpm,
            beat_index,
            sample_count,
            target_sample_count,
            envelope,
        ).sound(),
{
    lemma_published_tempo(tempo_bpm);
    lemma_drawn_envelope(envelope);
}

proof fn lemma_completed(
    state: PublicationState,
    mode: SnapshotMode,
    window: WindowLength,
    tempo_bpm: Option<Binary64>,
    beat_index: Option<i64>,
    sample_count: usize,
    envelope: Seq<EnvelopePoint>,
)
    requires
        state.sound(),
    ensures
        state.with_completed(mode, window, tempo_bpm, beat_index, sample_count, envelope).sound(),
{
    lemma_published_tempo(tempo_bpm);
    lemma_drawn_envelope(envelope);
}

proof fn lemma_synced_run(
    start: Capture,
    run: SyncedRun,
    left: Seq<Binary32>,
    right: Seq<Binary32>,
    count: nat,
)
    requires
        start.publication.sound(),
    ensures
        start.after_synced(run, left, right, count).publication.sound(),
    decreases count,
{
    if count > 0 {
        let index = (count - 1) as nat;
        lemma_synced_run(start, run, left, right, index);
        let before = start.after_synced(run, left, right, index);
        if let Some(current) = before.engine.synced_interval {
            lemma_completed(
                before.publication,
                SnapshotMode::Synced,
                run.window,
                Some(run.tempo),
                Some(current),
                run.target,
                before.engine.synced_envelope,
            );
        }
    }
}

proof fn lemma_rolling_run(
    start: Capture,
    tempo: Option<Binary64>,
    mode: SnapshotMode,
    window: WindowLength,
    left: Seq<Binary32>,
    right: Seq<Binary32>,
    count: nat,
)
    requires
        start.publication.sound(),
    ensures
        start.after_rolling(tempo, mode, window, left, right, count).publication.sound(),
    decreases count,
{
    if count > 0 {
        let index = (count - 1) as nat;
        lemma_rolling_run(start, tempo, mode, window, left, right, index);
        let before = start.after_rolling(tempo, mode, window, left, right, index);
        let engine = before.engine.with_rolling_sample(left[index as int], right[index as int]);
        lemma_completed(
            before.publication,
            mode,
            window,
            tempo,
            None,
            engine.rolling_target,
            engine.rolling_envelope,
        );
    }
}

proof fn lemma_block(
    capture: Capture,
    left: Seq<Binary32>,
    right: Seq<Binary32>,
    transport: TransportInfo,
)
    requires
        capture.publication.sound(),
    ensures
        capture.after_block(left, right, transport).publication.sound(),
{
    let frames = if left.len() < right.len() {
        left.len()
    } else {
        right.len()
    };
    let valid = transport.validated();
    lemma_transport(capture.publication, valid);
    if transport.is_playing && frames > 0 {
        let window = capture.publication.selected_window;
        let mode = crate::engine::block_mode(transport);
        let selected = capture.engine.with_frames_passed(frames).with_window_selected(window);
        let continued = !selected.interrupted_by(transport);
        let ready = Capture {
            engine: if continued {
                selected
            } else {
                selected.without_partial()
            },
            publication: capture.publication,
        };
        let captured = ready.after_samples(transport, window, left, right, frames);
        reveal(Capture::after_samples);
        if mode == SnapshotMode::Synced {
            let tempo = valid.tempo_bpm->0;
            let target = ready.engine.block_target(mode, valid.tempo_bpm, window);
            if target is Some {
                let run = SyncedRun {
                    position: valid.song_pos_beats->0,
                    tempo,
                    window,
                    increment: ready.engine.beats_per_sample(tempo),
                    target: target->0,
                };
                lemma_synced_run(ready, run, left, right, frames);
            }
        } else {
            let rolling = Capture {
                engine: ready.engine.with_rolling_target(
                    mode,
                    ready.engine.rolling_window(valid.tempo_bpm, window),
                ),
                publication: ready.publication,
            };
            lemma_rolling_run(rolling, valid.tempo_bpm, mode, window, left, right, frames);
        }
        assert(captured.publication.sound());
        reveal(Capture::after_presenting);
        lemma_transport(captured.publication, valid);
        if let Some(progress) = captured.engine.in_progress(mode, valid.tempo_bpm, window) {
            lemma_live(
                captured.publication.with_transport(valid),
                mode,
                window,
                valid.tempo_bpm,
                progress.beat_index,
                progress.sample_count,
                progress.target_sample_count,
                progress.envelope,
            );
        }
    }
}

/// A call leaves a publication on which readers can rely, with the selection
/// and the sample rate unless it sets them, and between two transactions. A
/// call that presents something asks for one redraw, a selection or a sample
/// rate for one when it changes, and a completed snapshot for none.
pub proof fn calls_keep_publications_sound(capture: Capture, call: Call)
    requires
        capture.publication.idle(),
        capture.publication.sound(),
    ensures
        ({
            let before = capture.publication;
            let after = capture.after_call(call).publication;
            &&& after.idle()
            &&& after.sound()
            &&& after.selected_window == match call {
                Call::SelectWindow(window) => window,
                _ => before.selected_window,
            }
            &&& after.sample_rate == match call {
                Call::SetSampleRate(sample_rate) => sample_rate,
                _ => before.sample_rate,
            }
            &&& after.redraw_revision == match call {
                Call::SelectWindow(window) if window == before.selected_window =>
                    before.redraw_revision,
                Call::SetSampleRate(sample_rate) if sample_rate == before.sample_rate =>
                    before.redraw_revision,
                Call::PublishSnapshot { .. } => before.redraw_revision,
                _ => crate::publication::following(before.redraw_revision),
            }
        }),
{
    let state = capture.publication;
    match call {
        Call::SelectWindow(_) => {},
        Call::SetSampleRate(_) => {},
        Call::UpdateTransport(transport) => {
            lemma_transport(state.stepped(), transport);
        },
        Call::PublishPreview {
            transport,
            mode,
            window,
            tempo_bpm,
            beat_index,
            sample_count,
            target_sample_count,
            envelope,
        } => {
            lemma_transport(state.stepped(), transport);
            lemma_live(
                state.stepped().with_transport(transport),
                mode,
                window,
                tempo_bpm,
                beat_index,
                sample_count,
                target_sample_count,
                envelope,
            );
        },
        Call::ClearPreview => {},
        Call::ClearPreviewWithTransport(transport) => {
            lemma_transport(state.stepped(), transport);
        },
        Call::PublishSnapshot { mode, window, tempo_bpm, beat_index, sample_count, envelope } => {
            lemma_completed(
                state.stepped(),
                mode,
                window,
                tempo_bpm,
                beat_index,
                sample_count,
                envelope,
            );
        },
        Call::ProcessBlock { left, right, transport } => {
            let start = Capture { publication: state.stepped(), ..capture };
            lemma_block(start, left, right, transport);
            crate::guarantees::lemma_block_keeps_settings(start, left, right, transport);
        },
        Call::Reset => {},
    }
}

/// After any calls on an empty publication, readers can rely on what they are
/// shown.
pub proof fn readers_can_rely_on_what_they_see(capture: Capture, calls: Seq<Call>)
    requires
        capture.publication == PublicationState::empty(),
    ensures
        capture.after_calls(calls).publication.idle(),
        capture.after_calls(calls).publication.sound(),
    decreases calls.len(),
{
    if calls.len() == 0 {
        assert(drawable(crate::publication::flat_envelope()));
    } else {
        readers_can_rely_on_what_they_see(capture, calls.drop_last());
        calls_keep_publications_sound(capture.after_calls(calls.drop_last()), calls.last());
    }
}

} // verus!
