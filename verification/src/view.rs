//! The coherent view that the editor draws from.

use crate::binary::{Binary32, Binary64};
use crate::envelope::{EnvelopePoint, ENVELOPE_BINS};
use crate::publication::{
    f32_from_bits_or_none, LiveSlot, PreviewState, Presentation, PublicationState, SnapshotSlot,
    SnapshotState, TransportState, WaveformPublication,
};
use crate::window::{SnapshotMode, WindowLength};
use vstd::prelude::*;

verus! {

/// How often a reader tries for a coherent view before it gives up.
pub const MAX_ENVELOPE_READ_RETRIES: usize = 4;

/// A coherent waveform and transport view copied for editor consumption. `==`
/// compares the numbers.
#[derive(Clone, Copy, Debug)]
pub struct WaveformView {
    /// Monotonic revision of the completed waveform snapshot.
    pub snapshot_revision: u64,
    /// Snapshot capture mode.
    pub snapshot_mode: SnapshotMode,
    /// Window length used by the completed snapshot.
    pub snapshot_window: WindowLength,
    /// Tempo associated with the published snapshot, if any.
    pub snapshot_tempo_bpm: Option<Binary32>,
    /// Integer beat index associated with a synced snapshot.
    pub snapshot_beat_index: Option<i64>,
    /// Number of source samples represented by the snapshot.
    pub sample_count: usize,
    /// Min/max envelope columns.
    pub envelope: [EnvelopePoint; ENVELOPE_BINS],
    /// Monotonic revision of the live in-progress preview publication.
    pub live_revision: u64,
    /// Whether the live preview currently contains captured samples.
    pub live_valid: bool,
    /// Capture mode of the live preview.
    pub live_mode: SnapshotMode,
    /// Window length used by the live preview.
    pub live_window: WindowLength,
    /// Tempo associated with the live preview, if any.
    pub live_tempo_bpm: Option<Binary32>,
    /// Integer beat index associated with the live preview, when synced.
    pub live_beat_index: Option<i64>,
    /// Number of source samples represented by the live preview.
    pub live_sample_count: usize,
    /// Number of source samples in the live preview's target window.
    pub target_sample_count: usize,
    /// Min/max envelope columns for the live preview.
    pub live_envelope: [EnvelopePoint; ENVELOPE_BINS],
    /// Monotonic revision of the last valid display-only live envelope.
    pub display_revision: u64,
    /// Whether a display-only live envelope is retained after invalidation.
    pub display_valid: bool,
    /// Capture mode of the retained display-only live envelope.
    pub display_mode: SnapshotMode,
    /// Window length used by the retained display-only live envelope.
    pub display_window: WindowLength,
    /// Tempo associated with the retained display-only live envelope, if any.
    pub display_tempo_bpm: Option<Binary32>,
    /// Integer beat index associated with the retained live envelope, when
    /// synced.
    pub display_beat_index: Option<i64>,
    /// Number of source samples represented by the retained live envelope.
    pub display_sample_count: usize,
    /// Number of source samples in the retained live envelope's target window.
    pub display_target_sample_count: usize,
    /// Min/max envelope columns retained for display after live invalidation.
    pub display_envelope: [EnvelopePoint; ENVELOPE_BINS],
    /// Current transport tempo, if valid and supplied.
    pub current_tempo_bpm: Option<Binary32>,
    /// Current transport position, if supplied.
    pub current_song_pos_beats: Option<Binary64>,
    /// Current transport playback state.
    pub is_playing: bool,
    /// Whether the current transport has musical position data.
    pub timeline_available: bool,
    /// Redraw revision, advanced for every audio block.
    pub redraw_revision: u64,
}

/// Two envelopes have the same numbers in every column.
pub open spec fn spec_same_columns(one: Seq<EnvelopePoint>, other: Seq<EnvelopePoint>) -> bool {
    forall|bin: int| 0 <= bin < ENVELOPE_BINS ==> #[trigger] one[bin].spec_same(other[bin])
}

fn same_columns(
    one: &[EnvelopePoint; ENVELOPE_BINS],
    other: &[EnvelopePoint; ENVELOPE_BINS],
) -> (same: bool)
    ensures
        same == spec_same_columns(one@, other@),
{
    let mut bin: usize = 0;
    while bin < ENVELOPE_BINS
        invariant
            bin <= ENVELOPE_BINS,
            forall|at: int| 0 <= at < bin ==> #[trigger] one@[at].spec_same(other@[at]),
        decreases ENVELOPE_BINS - bin,
    {
        if one[bin] != other[bin] {
            assert(!one@[bin as int].spec_same(other@[bin as int]));
            return false;
        }
        bin = bin + 1;
    }
    true
}

impl PartialEq for WaveformView {
    fn eq(&self, other: &WaveformView) -> (same: bool) {
        self.snapshot_revision == other.snapshot_revision
            && self.snapshot_mode == other.snapshot_mode
            && self.snapshot_window == other.snapshot_window
            && Binary32::same(self.snapshot_tempo_bpm, other.snapshot_tempo_bpm)
            && self.snapshot_beat_index == other.snapshot_beat_index
            && self.sample_count == other.sample_count
            && same_columns(&self.envelope, &other.envelope)
            && self.live_revision == other.live_revision
            && self.live_valid == other.live_valid
            && self.live_mode == other.live_mode
            && self.live_window == other.live_window
            && Binary32::same(self.live_tempo_bpm, other.live_tempo_bpm)
            && self.live_beat_index == other.live_beat_index
            && self.live_sample_count == other.live_sample_count
            && self.target_sample_count == other.target_sample_count
            && same_columns(&self.live_envelope, &other.live_envelope)
            && self.display_revision == other.display_revision
            && self.display_valid == other.display_valid
            && self.display_mode == other.display_mode
            && self.display_window == other.display_window
            && Binary32::same(self.display_tempo_bpm, other.display_tempo_bpm)
            && self.display_beat_index == other.display_beat_index
            && self.display_sample_count == other.display_sample_count
            && self.display_target_sample_count == other.display_target_sample_count
            && same_columns(&self.display_envelope, &other.display_envelope)
            && Binary32::same(self.current_tempo_bpm, other.current_tempo_bpm)
            && Binary64::same(self.current_song_pos_beats, other.current_song_pos_beats)
            && self.is_playing == other.is_playing
            && self.timeline_available == other.timeline_available
            && self.redraw_revision == other.redraw_revision
    }
}

impl vstd::std_specs::cmp::PartialEqSpecImpl for WaveformView {
    open spec fn obeys_eq_spec() -> bool {
        true
    }

    open spec fn eq_spec(&self, other: &WaveformView) -> bool {
        &&& self.snapshot_revision == other.snapshot_revision
        &&& self.snapshot_mode == other.snapshot_mode
        &&& self.snapshot_window == other.snapshot_window
        &&& Binary32::same(self.snapshot_tempo_bpm, other.snapshot_tempo_bpm)
        &&& self.snapshot_beat_index == other.snapshot_beat_index
        &&& self.sample_count == other.sample_count
        &&& spec_same_columns(self.envelope@, other.envelope@)
        &&& self.live_revision == other.live_revision
        &&& self.live_valid == other.live_valid
        &&& self.live_mode == other.live_mode
        &&& self.live_window == other.live_window
        &&& Binary32::same(self.live_tempo_bpm, other.live_tempo_bpm)
        &&& self.live_beat_index == other.live_beat_index
        &&& self.live_sample_count == other.live_sample_count
        &&& self.target_sample_count == other.target_sample_count
        &&& spec_same_columns(self.live_envelope@, other.live_envelope@)
        &&& self.display_revision == other.display_revision
        &&& self.display_valid == other.display_valid
        &&& self.display_mode == other.display_mode
        &&& self.display_window == other.display_window
        &&& Binary32::same(self.display_tempo_bpm, other.display_tempo_bpm)
        &&& self.display_beat_index == other.display_beat_index
        &&& self.display_sample_count == other.display_sample_count
        &&& self.display_target_sample_count == other.display_target_sample_count
        &&& spec_same_columns(self.display_envelope@, other.display_envelope@)
        &&& Binary32::same(self.current_tempo_bpm, other.current_tempo_bpm)
        &&& Binary64::same(self.current_song_pos_beats, other.current_song_pos_beats)
        &&& self.is_playing == other.is_playing
        &&& self.timeline_available == other.timeline_available
        &&& self.redraw_revision == other.redraw_revision
    }
}

/// The fields shown when there is no preview.
pub open spec fn no_preview() -> PreviewState {
    PreviewState {
        revision: 0,
        mode: SnapshotMode::Empty,
        window: WindowLength::DEFAULT,
        tempo: None,
        beat_index: None,
        sample_count: 0,
        target_sample_count: 0,
        envelope: crate::publication::flat_envelope(),
    }
}

impl WaveformView {
    /// The completed snapshot in the view.
    pub open spec fn completed(self) -> SnapshotState {
        SnapshotState {
            revision: self.snapshot_revision,
            mode: self.snapshot_mode,
            window: self.snapshot_window,
            tempo: self.snapshot_tempo_bpm,
            beat_index: self.snapshot_beat_index,
            sample_count: self.sample_count,
            envelope: self.envelope@,
        }
    }

    /// The live preview's fields.
    pub open spec fn live_preview(self) -> PreviewState {
        PreviewState {
            revision: self.live_revision,
            mode: self.live_mode,
            window: self.live_window,
            tempo: self.live_tempo_bpm,
            beat_index: self.live_beat_index,
            sample_count: self.live_sample_count,
            target_sample_count: self.target_sample_count,
            envelope: self.live_envelope@,
        }
    }

    /// The retained preview's fields.
    pub open spec fn display_preview(self) -> PreviewState {
        PreviewState {
            revision: self.display_revision,
            mode: self.display_mode,
            window: self.display_window,
            tempo: self.display_tempo_bpm,
            beat_index: self.display_beat_index,
            sample_count: self.display_sample_count,
            target_sample_count: self.display_target_sample_count,
            envelope: self.display_envelope@,
        }
    }

    /// Every field of the view says what a presentation holds.
    pub open spec fn shows(self, presentation: Presentation) -> bool {
        &&& self.completed() == presentation.completed
        &&& self.display_valid == (presentation.retained is Some)
        &&& self.display_preview() == match presentation.retained {
            Some(preview) => preview,
            None => no_preview(),
        }
        &&& self.live_valid == presentation.live
        &&& self.live_preview() == match presentation.retained {
            Some(preview) if presentation.live => preview,
            _ => no_preview(),
        }
        &&& self.current_tempo_bpm == presentation.transport.tempo
        &&& self.current_song_pos_beats == presentation.transport.position
        &&& self.is_playing == presentation.transport.is_playing
        &&& self.timeline_available == presentation.timeline_available
        &&& self.redraw_revision == presentation.redraw_revision
    }

    /// A view of a publication that nothing was published to.
    pub fn new() -> (view: WaveformView)
        ensures
            view.shows(PublicationState::empty().presentation()),
    {
        let view: WaveformView = WaveformView {
            snapshot_revision: 0,
            snapshot_mode: SnapshotMode::Empty,
            snapshot_window: WindowLength::OneBeat,
            snapshot_tempo_bpm: None,
            snapshot_beat_index: None,
            sample_count: 0,
            envelope: [EnvelopePoint::flat(); ENVELOPE_BINS],
            live_revision: 0,
            live_valid: false,
            live_mode: SnapshotMode::Empty,
            live_window: WindowLength::OneBeat,
            live_tempo_bpm: None,
            live_beat_index: None,
            live_sample_count: 0,
            target_sample_count: 0,
            live_envelope: [EnvelopePoint::flat(); ENVELOPE_BINS],
            display_revision: 0,
            display_valid: false,
            display_mode: SnapshotMode::Empty,
            display_window: WindowLength::OneBeat,
            display_tempo_bpm: None,
            display_beat_index: None,
            display_sample_count: 0,
            display_target_sample_count: 0,
            display_envelope: [EnvelopePoint::flat(); ENVELOPE_BINS],
            current_tempo_bpm: None,
            current_song_pos_beats: None,
            is_playing: false,
            timeline_available: false,
            redraw_revision: 0,
        };
        assert(view.envelope@ =~= crate::publication::flat_envelope());
        assert(view.live_envelope@ =~= crate::publication::flat_envelope());
        assert(view.display_envelope@ =~= crate::publication::flat_envelope());
        view
    }
}

impl Default for WaveformView {
    fn default() -> (view: WaveformView)
        ensures
            view.shows(PublicationState::empty().presentation()),
    {
        WaveformView::new()
    }
}

/// Everything that one read attempt loads from a publication, in load order.
#[derive(Clone, Copy, Debug)]
pub struct PublicationLoads {
    /// The outer sequence before anything else.
    pub presentation_sequence: u64,
    /// The active snapshot buffer.
    pub active_slot: usize,
    /// The words of that buffer, its sequence first.
    pub slot: SnapshotSlot,
    /// The buffer's sequence again.
    pub end_sequence: u64,
    /// The active snapshot buffer again.
    pub end_active_slot: usize,
    /// The active preview buffer.
    pub live_active_slot: usize,
    /// The words of that buffer, its sequence first.
    pub live_slot: LiveSlot,
    /// Whether the active preview is live.
    pub live_active_valid: u32,
    /// The preview buffer's sequence again.
    pub end_live_sequence: u64,
    /// The active preview buffer again.
    pub end_live_active_slot: usize,
    /// The bit pattern of the current tempo.
    pub current_tempo_bits: u32,
    /// Whether there is a current position.
    pub current_position_valid: u32,
    /// The bit pattern of the current position.
    pub current_position_bits: u64,
    /// Whether the host plays.
    pub is_playing: u32,
    /// Whether the host has a timeline.
    pub timeline_available: u32,
    /// The outer sequence again.
    pub end_presentation_sequence: u64,
    /// The redraw count.
    pub redraw_revision: u64,
}

impl PublicationLoads {
    /// No write was in progress or finished between the loads, as far as the
    /// sequences tell.
    pub open spec fn coherent(self) -> bool {
        &&& self.presentation_sequence % 2 == 0
        &&& self.slot.sequence % 2 == 0
        &&& self.end_sequence == self.slot.sequence
        &&& self.end_active_slot == self.active_slot
        &&& self.live_slot.sequence % 2 == 0
        &&& self.end_live_sequence == self.live_slot.sequence
        &&& self.end_live_active_slot == self.live_active_slot
        &&& self.end_presentation_sequence == self.presentation_sequence
    }

    /// What the loaded words stand for.
    pub open spec fn presentation(self) -> Presentation {
        Presentation {
            completed: self.slot.state(),
            retained: self.live_slot.state(),
            live: self.live_active_valid != 0 && self.live_slot.valid != 0,
            transport: TransportState {
                tempo: f32_from_bits_or_none(self.current_tempo_bits),
                position: if self.current_position_valid != 0 {
                    Some(Binary64::from_bits(self.current_position_bits))
                } else {
                    None
                },
                is_playing: self.is_playing != 0,
            },
            timeline_available: self.timeline_available != 0,
            redraw_revision: self.redraw_revision,
        }
    }

    /// Copy what was loaded into `view`, unless a write may have come between.
    pub fn accept(&self, view: &mut WaveformView) -> (accepted: bool)
        ensures
            accepted == self.coherent(),
            accepted ==> final(view).shows(self.presentation()),
            !accepted ==> *final(view) == *old(view),
    {
        if self.presentation_sequence % 2 != 0 || self.slot.sequence % 2 != 0 {
            return false;
        }
        if self.end_sequence != self.slot.sequence || self.end_active_slot != self.active_slot {
            return false;
        }
        if self.live_slot.sequence % 2 != 0 {
            return false;
        }
        if self.end_live_sequence != self.live_slot.sequence || self.end_live_active_slot
            != self.live_active_slot {
            return false;
        }
        if self.end_presentation_sequence != self.presentation_sequence {
            return false;
        }
        let mut candidate: WaveformView = WaveformView::new();
        candidate.snapshot_revision = self.slot.revision;
        candidate.snapshot_mode = SnapshotMode::from_raw(self.slot.mode);
        candidate.snapshot_window = WindowLength::from_raw(self.slot.window_raw);
        candidate.snapshot_tempo_bpm = f32_from_bits_or_none(self.slot.tempo_bits);
        candidate.snapshot_beat_index = self.slot.beat();
        candidate.sample_count = self.slot.sample_count as usize;
        candidate.envelope = self.slot.envelope;
        if self.live_slot.valid != 0 {
            candidate.display_valid = true;
            candidate.display_revision = self.live_slot.revision;
            candidate.display_mode = SnapshotMode::from_raw(self.live_slot.mode);
            candidate.display_window = WindowLength::from_raw(self.live_slot.window_raw);
            candidate.display_tempo_bpm = f32_from_bits_or_none(self.live_slot.tempo_bits);
            candidate.display_beat_index = self.live_slot.beat();
            candidate.display_sample_count = self.live_slot.sample_count as usize;
            candidate.display_target_sample_count = self.live_slot.target_sample_count as usize;
            candidate.display_envelope = self.live_slot.envelope;
            if self.live_active_valid != 0 {
                candidate.live_valid = true;
                candidate.live_revision = candidate.display_revision;
                candidate.live_mode = candidate.display_mode;
                candidate.live_window = candidate.display_window;
                candidate.live_tempo_bpm = candidate.display_tempo_bpm;
                candidate.live_beat_index = candidate.display_beat_index;
                candidate.live_sample_count = candidate.display_sample_count;
                candidate.target_sample_count = candidate.display_target_sample_count;
                candidate.live_envelope = candidate.display_envelope;
            }
        }
        candidate.current_tempo_bpm = f32_from_bits_or_none(self.current_tempo_bits);
        candidate.current_song_pos_beats = if self.current_position_valid != 0 {
            Some(Binary64::from_bits(self.current_position_bits))
        } else {
            None
        };
        candidate.is_playing = self.is_playing != 0;
        candidate.timeline_available = self.timeline_available != 0;
        candidate.redraw_revision = self.redraw_revision;
        *view = candidate;
        true
    }
}

/// Where a reader loads the words of a publication from.
pub trait PublicationSource {
    /// There is something to load.
    open spec fn loadable(&self) -> bool {
        true
    }

    /// What an attempt may load; attempts are counted from zero.
    open spec fn may_load(&self, attempt: usize, loads: PublicationLoads) -> bool {
        true
    }

    /// Load everything that one attempt takes, in load order.
    fn load(&self, attempt: usize) -> (loads: PublicationLoads)
        requires
            self.loadable(),
        ensures
            self.may_load(attempt, loads),
    ;
}

/// An attempt may find that a write came between its loads.
pub open spec fn may_be_disturbed<S: PublicationSource>(source: S, attempt: usize) -> bool {
    exists|loads: PublicationLoads| #[trigger]
        source.may_load(attempt, loads) && !loads.coherent()
}

/// An attempt may load words that belong together and that `view` shows.
pub open spec fn may_show<S: PublicationSource>(
    source: S,
    attempt: usize,
    view: WaveformView,
) -> bool {
    exists|loads: PublicationLoads| #[trigger]
        source.may_load(attempt, loads) && loads.coherent() && view.shows(loads.presentation())
}

/// Copy the first coherent attempt of a few into `view`. When a write may have
/// come between the loads of every one of them, `view` stays as it is.
pub fn read_from<S: PublicationSource>(source: &S, view: &mut WaveformView) -> (coherent: bool)
    requires
        source.loadable(),
    ensures
        coherent ==> exists|attempt: usize|
            attempt < MAX_ENVELOPE_READ_RETRIES && #[trigger] may_show(
                *source,
                attempt,
                *final(view),
            ) && forall|earlier: usize|
                earlier < attempt ==> #[trigger] may_be_disturbed(*source, earlier),
        !coherent ==> *final(view) == *old(view) && forall|attempt: usize|
            attempt < MAX_ENVELOPE_READ_RETRIES ==> #[trigger] may_be_disturbed(*source, attempt),
{
    let mut attempt: usize = 0;
    while attempt < MAX_ENVELOPE_READ_RETRIES
        invariant
            source.loadable(),
            *view == *old(view),
            forall|earlier: usize|
                earlier < attempt ==> #[trigger] may_be_disturbed(*source, earlier),
        decreases MAX_ENVELOPE_READ_RETRIES - attempt,
    {
        let loads: PublicationLoads = source.load(attempt);
        if loads.accept(view) {
            assert(may_show(*source, attempt, *view));
            return true;
        }
        assert(may_be_disturbed(*source, attempt));
        attempt = attempt + 1;
    }
    false
}

impl WaveformPublication {
    /// The active buffers exist.
    pub open spec fn readable(self) -> bool {
        self.active_slot < 2 && self.live_active_slot < 2
    }

    /// Nothing that a reader loads is being written.
    pub open spec fn settled(self) -> bool {
        &&& self.transport_sequence % 2 == 0
        &&& self.slots@[self.active_slot as int].sequence % 2 == 0
        &&& self.live_slots@[self.live_active_slot as int].sequence % 2 == 0
    }

    /// What the words stand for.
    pub open spec fn shown(self) -> Presentation {
        Presentation {
            live: self@.live && self@.retained is Some,
            timeline_available: self.timeline_available != 0,
            ..self@.presentation()
        }
    }

    /// Outside the functions that write it, a publication is settled exactly
    /// while no transaction is open, and its words stand for its state.
    pub proof fn readers_see_the_state(self)
        requires
            self.wf(),
        ensures
            self.readable(),
            self.settled() == self@.idle(),
            self.shown() == self@.presentation(),
    {
    }

    /// Load the words of a publication that nobody else writes meanwhile.
    pub fn loads(&self) -> (loads: PublicationLoads)
        requires
            self.readable(),
        ensures
            loads.coherent() == self.settled(),
            loads.presentation() == self.shown(),
    {
        let slot: SnapshotSlot = self.slots[self.active_slot];
        let live_slot: LiveSlot = self.live_slots[self.live_active_slot];
        PublicationLoads {
            presentation_sequence: self.transport_sequence,
            active_slot: self.active_slot,
            slot,
            end_sequence: slot.sequence,
            end_active_slot: self.active_slot,
            live_active_slot: self.live_active_slot,
            live_slot,
            live_active_valid: self.live_active_valid,
            end_live_sequence: live_slot.sequence,
            end_live_active_slot: self.live_active_slot,
            current_tempo_bits: self.current_tempo_bits,
            current_position_valid: self.current_position_valid,
            current_position_bits: self.current_position_bits,
            is_playing: self.is_playing,
            timeline_available: self.timeline_available,
            end_presentation_sequence: self.transport_sequence,
            redraw_revision: self.redraw_revision,
        }
    }

    /// Copy the latest coherent snapshot and transport metadata into `view`.
    /// While something is being written there is none, and `view` stays as it
    /// is.
    pub fn read_view(&self, view: &mut WaveformView) -> (coherent: bool)
        requires
            self.readable(),
        ensures
            coherent == self.settled(),
            coherent ==> final(view).shows(self.shown()),
            !coherent ==> *final(view) == *old(view),
            self.wf() ==> coherent == self@.idle() && self.shown() == self@.presentation(),
    {
        let coherent: bool = read_from(self, view);
        proof {
            if !coherent {
                assert(may_be_disturbed(*self, 0));
            }
        }
        coherent
    }
}

impl PublicationSource for WaveformPublication {
    open spec fn loadable(&self) -> bool {
        self.readable()
    }

    open spec fn may_load(&self, attempt: usize, loads: PublicationLoads) -> bool {
        loads.coherent() == self.settled() && loads.presentation() == self.shown()
    }

    fn load(&self, attempt: usize) -> (loads: PublicationLoads) {
        self.loads()
    }
}

/// A read that met an odd sequence, or one that changed meanwhile, or a buffer
/// that is no longer the active one, is refused; any other is taken.
pub proof fn reads_that_met_a_write_are_refused(loads: PublicationLoads)
    ensures
        loads.presentation_sequence % 2 == 1 ==> !loads.coherent(),
        loads.slot.sequence % 2 == 1 ==> !loads.coherent(),
        loads.live_slot.sequence % 2 == 1 ==> !loads.coherent(),
        loads.end_presentation_sequence != loads.presentation_sequence ==> !loads.coherent(),
        loads.end_sequence != loads.slot.sequence ==> !loads.coherent(),
        loads.end_live_sequence != loads.live_slot.sequence ==> !loads.coherent(),
        loads.end_active_slot != loads.active_slot ==> !loads.coherent(),
        loads.end_live_active_slot != loads.live_active_slot ==> !loads.coherent(),
        loads.presentation_sequence % 2 == 0 && loads.slot.sequence % 2 == 0
            && loads.live_slot.sequence % 2 == 0 && loads.end_presentation_sequence
            == loads.presentation_sequence && loads.end_sequence == loads.slot.sequence
            && loads.end_live_sequence == loads.live_slot.sequence && loads.end_active_slot
            == loads.active_slot && loads.end_live_active_slot == loads.live_active_slot
            ==> loads.coherent(),
{
}

/// What a read takes from the words: a preview only from a buffer that holds
/// one, live only while it is the one being captured, a tempo only from a word
/// that stands for one, and a position only where there is one.
pub proof fn reads_take_what_the_words_stand_for(loads: PublicationLoads, view: WaveformView)
    requires
        view.shows(loads.presentation()),
    ensures
        view.snapshot_revision == loads.slot.revision,
        view.snapshot_mode == SnapshotMode::from_raw(loads.slot.mode),
        view.snapshot_window == WindowLength::from_raw(loads.slot.window_raw),
        view.sample_count == loads.slot.sample_count,
        view.envelope@ == loads.slot.envelope@,
        view.display_valid == (loads.live_slot.valid != 0),
        view.live_valid == (loads.live_slot.valid != 0 && loads.live_active_valid != 0),
        loads.live_slot.valid != 0 ==> {
            &&& view.display_revision == loads.live_slot.revision
            &&& view.display_mode == SnapshotMode::from_raw(loads.live_slot.mode)
            &&& view.display_window == WindowLength::from_raw(loads.live_slot.window_raw)
            &&& view.display_sample_count == loads.live_slot.sample_count
            &&& view.display_target_sample_count == loads.live_slot.target_sample_count
            &&& view.display_envelope@ == loads.live_slot.envelope@
        },
        view.live_valid ==> {
            &&& view.live_revision == view.display_revision
            &&& view.live_mode == view.display_mode
            &&& view.live_window == view.display_window
            &&& view.live_sample_count == view.display_sample_count
            &&& view.target_sample_count == view.display_target_sample_count
            &&& view.live_envelope@ == view.display_envelope@
        },
        view.current_tempo_bpm == if loads.current_tempo_bits != 0 && (Binary32 {
            bits: loads.current_tempo_bits,
        }).is_finite() {
            Some(Binary32 { bits: loads.current_tempo_bits })
        } else {
            None
        },
        view.current_song_pos_beats == if loads.current_position_valid != 0 {
            Some(Binary64 { bits: loads.current_position_bits })
        } else {
            None
        },
        view.is_playing == (loads.is_playing != 0),
        view.timeline_available == (loads.timeline_available != 0),
        view.redraw_revision == loads.redraw_revision,
{
}

/// Views are equal exactly when they show the same in every field; numbers are
/// compared as numbers.
pub proof fn equal_views_show_the_same(one: WaveformView, other: WaveformView)
    ensures
        vstd::std_specs::cmp::PartialEqSpec::eq_spec(&one, &other) <==> {
            &&& one.snapshot_revision == other.snapshot_revision
            &&& one.snapshot_mode == other.snapshot_mode
            &&& one.snapshot_window == other.snapshot_window
            &&& one.snapshot_beat_index == other.snapshot_beat_index
            &&& one.sample_count == other.sample_count
            &&& one.live_revision == other.live_revision
            &&& one.live_valid == other.live_valid
            &&& one.live_mode == other.live_mode
            &&& one.live_window == other.live_window
            &&& one.live_beat_index == other.live_beat_index
            &&& one.live_sample_count == other.live_sample_count
            &&& one.target_sample_count == other.target_sample_count
            &&& one.display_revision == other.display_revision
            &&& one.display_valid == other.display_valid
            &&& one.display_mode == other.display_mode
            &&& one.display_window == other.display_window
            &&& one.display_beat_index == other.display_beat_index
            &&& one.display_sample_count == other.display_sample_count
            &&& one.display_target_sample_count == other.display_target_sample_count
            &&& one.is_playing == other.is_playing
            &&& one.timeline_available == other.timeline_available
            &&& one.redraw_revision == other.redraw_revision
            &&& same_number(one.snapshot_tempo_bpm, other.snapshot_tempo_bpm)
            &&& same_number(one.live_tempo_bpm, other.live_tempo_bpm)
            &&& same_number(one.display_tempo_bpm, other.display_tempo_bpm)
            &&& same_number(one.current_tempo_bpm, other.current_tempo_bpm)
            &&& one.current_song_pos_beats is Some == other.current_song_pos_beats is Some
            &&& one.current_song_pos_beats is Some ==> one.current_song_pos_beats->0.le(
                other.current_song_pos_beats->0,
            ) && other.current_song_pos_beats->0.le(one.current_song_pos_beats->0)
            &&& same_numbers(one.envelope@, other.envelope@)
            &&& same_numbers(one.live_envelope@, other.live_envelope@)
            &&& same_numbers(one.display_envelope@, other.display_envelope@)
        },
{
    lemma_same_columns(one.envelope@, other.envelope@);
    lemma_same_columns(one.live_envelope@, other.live_envelope@);
    lemma_same_columns(one.display_envelope@, other.display_envelope@);
}

proof fn lemma_same_columns(one: Seq<EnvelopePoint>, other: Seq<EnvelopePoint>)
    ensures
        spec_same_columns(one, other) <==> same_numbers(one, other),
{
    if spec_same_columns(one, other) {
        assert forall|bin: int| 0 <= bin < ENVELOPE_BINS implies {
            &&& (#[trigger] one[bin]).min.le(other[bin].min) && other[bin].min.le(one[bin].min)
            &&& one[bin].max.le(other[bin].max) && other[bin].max.le(one[bin].max)
        } by {
            assert(one[bin].spec_same(other[bin]));
        }
    }
}

/// Both are missing, or both are there and neither is the larger.
pub open spec fn same_number(one: Option<Binary32>, other: Option<Binary32>) -> bool {
    &&& one is Some == other is Some
    &&& one is Some ==> one->0.le(other->0) && other->0.le(one->0)
}

/// Column by column, neither end is the larger one.
pub open spec fn same_numbers(one: Seq<EnvelopePoint>, other: Seq<EnvelopePoint>) -> bool {
    forall|bin: int|
        0 <= bin < ENVELOPE_BINS ==> {
            &&& (#[trigger] one[bin]).min.le(other[bin].min) && other[bin].min.le(one[bin].min)
            &&& one[bin].max.le(other[bin].max) && other[bin].max.le(one[bin].max)
        }
}

} // verus!
