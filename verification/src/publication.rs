//! Double-buffered publication of waveforms from the audio side to the editor.
//!
//! The words of a publication are what the two sides share. The audio side
//! writes them inside transactions that keep the outer sequence odd, and a
//! reader accepts what it loaded only when every sequence it passed was even
//! and unchanged.

use crate::binary::{Binary32, Binary64};
use crate::envelope::{EnvelopePoint, ENVELOPE_BINS};
use crate::timing::{valid_position, valid_tempo, TransportInfo, DEFAULT_SAMPLE_RATE};
use crate::window::{SnapshotMode, WindowLength};
use vstd::prelude::*;

verus! {

/// A completed waveform snapshot.
#[verifier::ext_equal]
pub struct SnapshotState {
    /// How many snapshots were completed, this one included.
    pub revision: u64,
    /// How the window was captured.
    pub mode: SnapshotMode,
    /// The beat window captured.
    pub window: WindowLength,
    /// The tempo of the capture.
    pub tempo: Option<Binary32>,
    /// The beat that the window starts on.
    pub beat_index: Option<i64>,
    /// The number of samples in the window.
    pub sample_count: usize,
    /// The columns, as they are drawn.
    pub envelope: Seq<EnvelopePoint>,
}

/// The envelope of a window in progress.
#[verifier::ext_equal]
pub struct PreviewState {
    /// How many previews were published, this one included.
    pub revision: u64,
    /// How the window is captured.
    pub mode: SnapshotMode,
    /// The beat window in progress.
    pub window: WindowLength,
    /// The tempo of the capture.
    pub tempo: Option<Binary32>,
    /// The beat that the window starts on.
    pub beat_index: Option<i64>,
    /// The number of samples captured so far.
    pub sample_count: usize,
    /// The number of samples in the whole window.
    pub target_sample_count: usize,
    /// The columns, as they are drawn.
    pub envelope: Seq<EnvelopePoint>,
}

/// The transport that a publication presents.
pub struct TransportState {
    /// The tempo, when there is a valid one.
    pub tempo: Option<Binary32>,
    /// The position in beats, when there is a valid one.
    pub position: Option<Binary64>,
    /// Whether the host plays.
    pub is_playing: bool,
}

/// What a publication holds.
#[verifier::ext_equal]
pub struct PublicationState {
    /// The transaction count: odd while one is open.
    pub sequence: u64,
    /// The last completed snapshot.
    pub completed: SnapshotState,
    /// The last preview, kept for display after it is invalidated.
    pub retained: Option<PreviewState>,
    /// Whether the retained preview is still being captured.
    pub live: bool,
    /// The transport of the last block.
    pub transport: TransportState,
    /// The redraw count.
    pub redraw_revision: u64,
    /// The window that the editor selected.
    pub selected_window: WindowLength,
    /// The sample rate of the host.
    pub sample_rate: Binary64,
}

/// The envelope of columns in which nothing was captured.
pub open spec fn flat_envelope() -> Seq<EnvelopePoint> {
    Seq::new(ENVELOPE_BINS as nat, |bin: int| EnvelopePoint::flat())
}

/// The columns of a captured envelope as they are drawn.
pub open spec fn drawn_envelope(envelope: Seq<EnvelopePoint>) -> Seq<EnvelopePoint> {
    Seq::new(envelope.len(), |bin: int| envelope[bin].displayable())
}

/// The tempo that is published for a host tempo.
pub open spec fn single_tempo(tempo_bpm: Option<Binary64>) -> Option<Binary32> {
    match valid_tempo(tempo_bpm) {
        Some(tempo) => Some(tempo.to_single()),
        None => None,
    }
}

/// The count after one more; counts wrap around.
pub open spec fn following(count: u64) -> u64 {
    if count == u64::MAX {
        0
    } else {
        (count + 1) as u64
    }
}

/// A sample count held to what a published word can say.
pub open spec fn word_count(count: usize) -> usize {
    if count > u32::MAX {
        u32::MAX as usize
    } else {
        count
    }
}

/// What a reader is shown.
#[verifier::ext_equal]
pub struct Presentation {
    /// The last completed snapshot.
    pub completed: SnapshotState,
    /// The last preview.
    pub retained: Option<PreviewState>,
    /// Whether the preview is still being captured.
    pub live: bool,
    /// The transport of the last block.
    pub transport: TransportState,
    /// Whether the host has a timeline.
    pub timeline_available: bool,
    /// The redraw count.
    pub redraw_revision: u64,
}

impl PublicationState {
    /// What a reader is shown of the state.
    pub open spec fn presentation(self) -> Presentation {
        Presentation {
            completed: self.completed,
            retained: self.retained,
            live: self.live,
            transport: self.transport,
            timeline_available: self.transport.position is Some,
            redraw_revision: self.redraw_revision,
        }
    }

    /// A publication that nothing was published to.
    pub open spec fn empty() -> PublicationState {
        PublicationState {
            sequence: 0,
            completed: SnapshotState {
                revision: 0,
                mode: SnapshotMode::Empty,
                window: WindowLength::DEFAULT,
                tempo: None,
                beat_index: None,
                sample_count: 0,
                envelope: flat_envelope(),
            },
            retained: None,
            live: false,
            transport: TransportState { tempo: None, position: None, is_playing: false },
            redraw_revision: 0,
            selected_window: WindowLength::DEFAULT,
            sample_rate: Binary64::from_bits(DEFAULT_SAMPLE_RATE),
        }
    }

    /// No transaction is open.
    pub open spec fn idle(self) -> bool {
        self.sequence % 2 == 0
    }

    /// The state after the next transaction step, opening or closing one.
    pub open spec fn stepped(self) -> PublicationState {
        PublicationState { sequence: following(self.sequence), ..self }
    }

    /// The state with one more redraw requested.
    pub open spec fn redrawn(self) -> PublicationState {
        PublicationState { redraw_revision: following(self.redraw_revision), ..self }
    }

    /// The state that presents a transport.
    pub open spec fn with_transport(self, transport: TransportInfo) -> PublicationState {
        PublicationState {
            transport: TransportState {
                tempo: single_tempo(transport.tempo_bpm),
                position: valid_position(transport.song_pos_beats),
                is_playing: transport.is_playing,
            },
            ..self
        }
    }

    /// The state whose preview is no longer live.
    pub open spec fn with_live_cleared(self) -> PublicationState {
        PublicationState { live: false, ..self }
    }

    /// The revision that the next preview gets.
    pub open spec fn next_preview_revision(self) -> u64 {
        match self.retained {
            Some(preview) => following(preview.revision),
            None => 1,
        }
    }

    /// The state with a new live preview. A preview without samples only
    /// invalidates the current one.
    pub open spec fn with_live(
        self,
        mode: SnapshotMode,
        window: WindowLength,
        tempo_bpm: Option<Binary64>,
        beat_index: Option<i64>,
        sample_count: usize,
        target_sample_count: usize,
        envelope: Seq<EnvelopePoint>,
    ) -> PublicationState {
        if sample_count == 0 || target_sample_count == 0 {
            self.with_live_cleared()
        } else {
            PublicationState {
                retained: Some(
                    PreviewState {
                        revision: self.next_preview_revision(),
                        mode,
                        window,
                        tempo: single_tempo(tempo_bpm),
                        beat_index,
                        sample_count: if sample_count < target_sample_count {
                            word_count(sample_count)
                        } else {
                            word_count(target_sample_count)
                        },
                        target_sample_count: word_count(target_sample_count),
                        envelope: drawn_envelope(envelope),
                    },
                ),
                live: true,
                ..self
            }
        }
    }

    /// The state with a new completed snapshot.
    pub open spec fn with_completed(
        self,
        mode: SnapshotMode,
        window: WindowLength,
        tempo_bpm: Option<Binary64>,
        beat_index: Option<i64>,
        sample_count: usize,
        envelope: Seq<EnvelopePoint>,
    ) -> PublicationState {
        PublicationState {
            completed: SnapshotState {
                revision: following(self.completed.revision),
                mode,
                window,
                tempo: single_tempo(tempo_bpm),
                beat_index,
                sample_count: word_count(sample_count),
                envelope: drawn_envelope(envelope),
            },
            ..self
        }
    }
}

/// The tempo that a published word stands for.
pub open spec fn spec_f32_from_bits_or_none(bits: u32) -> Option<Binary32> {
    if bits != 0 && Binary32::from_bits(bits).is_finite() {
        Some(Binary32::from_bits(bits))
    } else {
        None
    }
}

/// Return the tempo that a published word stands for.
#[verifier::when_used_as_spec(spec_f32_from_bits_or_none)]
pub fn f32_from_bits_or_none(bits: u32) -> (tempo: Option<Binary32>)
    ensures
        tempo == spec_f32_from_bits_or_none(bits),
{
    if bits != 0 && Binary32::from_bits(bits).is_finite() {
        Some(Binary32::from_bits(bits))
    } else {
        None
    }
}

/// The word that a tempo is published as.
fn tempo_word(tempo_bpm: Option<Binary64>) -> (bits: u32)
    ensures
        f32_from_bits_or_none(bits) == single_tempo(tempo_bpm),
{
    match valid_tempo(tempo_bpm) {
        Some(tempo) => {
            proof {
                crate::timing::single_tempo_stays_in_range(tempo);
            }
            tempo.to_single().bits
        },
        None => 0,
    }
}

/// The beat that a published pair of words stands for.
pub open spec fn spec_beat_from_words(beat_index: u64, valid: u32) -> Option<i64> {
    if valid != 0 {
        Some(beat_index as i64)
    } else {
        None
    }
}

/// Return the beat that a published pair of words stands for.
#[verifier::when_used_as_spec(spec_beat_from_words)]
fn beat_from_words(beat_index: u64, valid: u32) -> (beat: Option<i64>)
    ensures
        beat == spec_beat_from_words(beat_index, valid),
{
    if valid != 0 {
        Some(#[verifier::truncate] (beat_index as i64))
    } else {
        None
    }
}

/// The word that a beat is published as.
fn beat_word(index: i64) -> (word: u64)
    ensures
        word as i64 == index,
{
    let word: u64 = #[verifier::truncate] (index as u64);
    assert((index as u64) as i64 == index) by (bit_vector);
    word
}

/// Hold a sample count to what a published word can say.
fn count_word(count: usize) -> (word: u32)
    ensures
        word as usize == word_count(count),
{
    if count > u32::MAX as usize {
        u32::MAX
    } else {
        count as u32
    }
}

/// Write the columns of a captured envelope as they are drawn.
fn store_envelope(
    target: &mut [EnvelopePoint; ENVELOPE_BINS],
    envelope: &[EnvelopePoint; ENVELOPE_BINS],
)
    ensures
        final(target)@ == drawn_envelope(envelope@),
{
    let mut bin: usize = 0;
    while bin < ENVELOPE_BINS
        invariant
            bin <= ENVELOPE_BINS,
            forall|done: int|
                0 <= done < bin ==> target@[done] == (#[trigger] envelope@[done]).displayable(),
        decreases ENVELOPE_BINS - bin,
    {
        target[bin] = envelope[bin].displayable();
        bin = bin + 1;
    }
    assert(target@ =~= drawn_envelope(envelope@));
}

/// The words of one completed-snapshot buffer.
#[derive(Clone, Copy, Debug)]
pub struct SnapshotSlot {
    /// Odd while the buffer is written.
    pub sequence: u64,
    /// The snapshot's revision.
    pub revision: u64,
    /// The representation of the mode.
    pub mode: u32,
    /// The representation of the window.
    pub window_raw: u32,
    /// The bit pattern of the tempo, zero for none.
    pub tempo_bits: u32,
    /// The starting beat.
    pub beat_index: u64,
    /// Nonzero when there is a starting beat.
    pub beat_index_valid: u32,
    /// The number of samples.
    pub sample_count: u32,
    /// The columns.
    pub envelope: [EnvelopePoint; ENVELOPE_BINS],
}

impl SnapshotSlot {
    /// The snapshot that the words stand for.
    pub open spec fn state(self) -> SnapshotState {
        SnapshotState {
            revision: self.revision,
            mode: SnapshotMode::from_raw(self.mode),
            window: WindowLength::from_raw(self.window_raw),
            tempo: f32_from_bits_or_none(self.tempo_bits),
            beat_index: spec_beat_from_words(self.beat_index, self.beat_index_valid),
            sample_count: self.sample_count as usize,
            envelope: self.envelope@,
        }
    }

    /// Return the starting beat.
    pub(crate) fn beat(&self) -> (beat: Option<i64>)
        ensures
            beat == self.state().beat_index,
    {
        beat_from_words(self.beat_index, self.beat_index_valid)
    }

    /// Create an empty buffer.
    pub fn new() -> (slot: SnapshotSlot)
        ensures
            slot.sequence == 0,
            slot.state() == PublicationState::empty().completed,
    {
        let slot: SnapshotSlot = SnapshotSlot {
            sequence: 0,
            revision: 0,
            mode: SnapshotMode::Empty.as_raw(),
            window_raw: WindowLength::OneBeat.as_raw(),
            tempo_bits: 0,
            beat_index: 0,
            beat_index_valid: 0,
            sample_count: 0,
            envelope: [EnvelopePoint::flat(); ENVELOPE_BINS],
        };
        assert(slot.envelope@ =~= flat_envelope());
        slot
    }
}

/// The words of one live-preview buffer.
#[derive(Clone, Copy, Debug)]
pub struct LiveSlot {
    /// Odd while the buffer is written.
    pub sequence: u64,
    /// The preview's revision.
    pub revision: u64,
    /// Nonzero once a preview was written. A valid buffer remains the
    /// display-only envelope after the current capture is invalidated by the
    /// publication-level bit.
    pub valid: u32,
    /// The representation of the mode.
    pub mode: u32,
    /// The representation of the window.
    pub window_raw: u32,
    /// The bit pattern of the tempo, zero for none.
    pub tempo_bits: u32,
    /// The starting beat.
    pub beat_index: u64,
    /// Nonzero when there is a starting beat.
    pub beat_index_valid: u32,
    /// The number of samples captured so far.
    pub sample_count: u32,
    /// The number of samples in the whole window.
    pub target_sample_count: u32,
    /// The columns.
    pub envelope: [EnvelopePoint; ENVELOPE_BINS],
}

impl LiveSlot {
    /// The preview that the words stand for.
    pub open spec fn state(self) -> Option<PreviewState> {
        if self.valid != 0 {
            Some(
                PreviewState {
                    revision: self.revision,
                    mode: SnapshotMode::from_raw(self.mode),
                    window: WindowLength::from_raw(self.window_raw),
                    tempo: f32_from_bits_or_none(self.tempo_bits),
                    beat_index: spec_beat_from_words(self.beat_index, self.beat_index_valid),
                    sample_count: self.sample_count as usize,
                    target_sample_count: self.target_sample_count as usize,
                    envelope: self.envelope@,
                },
            )
        } else {
            None
        }
    }

    /// Return the starting beat.
    pub(crate) fn beat(&self) -> (beat: Option<i64>)
        ensures
            self.state() matches Some(preview) ==> beat == preview.beat_index,
    {
        beat_from_words(self.beat_index, self.beat_index_valid)
    }

    /// Create an empty buffer.
    pub fn new() -> (slot: LiveSlot)
        ensures
            slot.sequence == 0,
            slot.revision == 0,
            slot.valid == 0,
            slot.mode == SnapshotMode::Empty.as_raw(),
            slot.window_raw == WindowLength::DEFAULT.as_raw(),
            slot.tempo_bits == 0,
            slot.beat_index == 0,
            slot.beat_index_valid == 0,
            slot.sample_count == 0,
            slot.target_sample_count == 0,
            slot.envelope@ == flat_envelope(),
            slot.state() == None::<PreviewState>,
    {
        let slot: LiveSlot = LiveSlot {
            sequence: 0,
            revision: 0,
            valid: 0,
            mode: SnapshotMode::Empty.as_raw(),
            window_raw: WindowLength::OneBeat.as_raw(),
            tempo_bits: 0,
            beat_index: 0,
            beat_index_valid: 0,
            sample_count: 0,
            target_sample_count: 0,
            envelope: [EnvelopePoint::flat(); ENVELOPE_BINS],
        };
        assert(slot.envelope@ =~= flat_envelope());
        slot
    }
}

/// The envelope of a window in progress, handed to a publication.
#[derive(Clone, Copy)]
pub struct LivePreview<'a> {
    /// How the window is captured.
    pub mode: SnapshotMode,
    /// The beat window in progress.
    pub window: WindowLength,
    /// The host tempo of the capture.
    pub tempo_bpm: Option<Binary64>,
    /// The beat that the window starts on.
    pub beat_index: Option<i64>,
    /// The number of samples captured so far.
    pub sample_count: usize,
    /// The number of samples in the whole window.
    pub target_sample_count: usize,
    /// The columns captured so far.
    pub envelope: &'a [EnvelopePoint; ENVELOPE_BINS],
}

/// What a presentation does with the live preview.
#[derive(Clone, Copy)]
pub enum LiveUpdate<'a> {
    /// Leave it as it is.
    Keep,
    /// Invalidate it.
    Clear,
    /// Replace it.
    Publish(LivePreview<'a>),
}

impl PublicationState {
    /// The state after one presentation: a transport, a change of the live
    /// preview, and one redraw.
    pub open spec fn presented(
        self,
        transport: Option<TransportInfo>,
        live: LiveUpdate<'_>,
    ) -> PublicationState {
        let carried = match transport {
            Some(transport) => self.with_transport(transport),
            None => self,
        };
        let updated = match live {
            LiveUpdate::Keep => carried,
            LiveUpdate::Clear => carried.with_live_cleared(),
            LiveUpdate::Publish(preview) => carried.with_live(
                preview.mode,
                preview.window,
                preview.tempo_bpm,
                preview.beat_index,
                preview.sample_count,
                preview.target_sample_count,
                preview.envelope@,
            ),
        };
        updated.redrawn()
    }
}

/// Return whether a window is another one than a published word stands for.
pub fn selection_changes(previous_raw: u32, window: WindowLength) -> (changes: bool)
    ensures
        changes == (WindowLength::from_raw(previous_raw) != window),
{
    WindowLength::from_raw(previous_raw) != window
}

/// Return whether a sample rate is another one than a published word stands
/// for.
pub fn sample_rate_changes(previous_bits: u64, sample_rate: Binary64) -> (changes: bool)
    ensures
        changes == (Binary64::from_bits(previous_bits) != sample_rate),
{
    previous_bits != sample_rate.bits
}

/// Return the word that says whether the active preview is live.
pub fn live_word(live: bool) -> (word: u32)
    ensures
        word == if live {
            1u32
        } else {
            0u32
        },
{
    if live {
        1
    } else {
        0
    }
}

/// Double-buffered publication shared by the audio and editor sides.
///
/// An inactive buffer can become stale while a read of it is still in
/// progress. Sequence validation then gives readers a coherent snapshot.
#[derive(Clone, Copy, Debug)]
pub struct WaveformPublication {
    /// The completed-snapshot buffers.
    pub slots: [SnapshotSlot; 2],
    /// The completed-snapshot buffer that readers take.
    pub active_slot: usize,
    /// The revision of the last completed snapshot.
    pub snapshot_revision: u64,
    /// The live-preview buffers.
    pub live_slots: [LiveSlot; 2],
    /// The live-preview buffer that readers take.
    pub live_active_slot: usize,
    /// Nonzero while the active preview is live.
    pub live_active_valid: u32,
    /// The revision of the last preview.
    pub live_revision: u64,
    /// The redraw count.
    pub redraw_revision: u64,
    /// The representation of the selected window.
    pub selected_window_raw: u32,
    /// The bit pattern of the sample rate.
    pub sample_rate_bits: u64,
    /// The transaction count: odd while one is open.
    pub transport_sequence: u64,
    /// The bit pattern of the current tempo, zero for none.
    pub current_tempo_bits: u32,
    /// The bit pattern of the current position.
    pub current_position_bits: u64,
    /// Nonzero when there is a current position.
    pub current_position_valid: u32,
    /// Nonzero while the host plays.
    pub is_playing: u32,
    /// Nonzero when the host has a timeline.
    pub timeline_available: u32,
}

impl View for WaveformPublication {
    type V = PublicationState;

    open spec fn view(&self) -> PublicationState {
        PublicationState {
            sequence: self.transport_sequence,
            completed: self.slots@[self.active_slot as int].state(),
            retained: self.live_slots@[self.live_active_slot as int].state(),
            live: self.live_active_valid != 0,
            transport: TransportState {
                tempo: f32_from_bits_or_none(self.current_tempo_bits),
                position: if self.current_position_valid != 0 {
                    Some(Binary64::from_bits(self.current_position_bits))
                } else {
                    None
                },
                is_playing: self.is_playing != 0,
            },
            redraw_revision: self.redraw_revision,
            selected_window: WindowLength::from_raw(self.selected_window_raw),
            sample_rate: Binary64::from_bits(self.sample_rate_bits),
        }
    }
}

impl WaveformPublication {
    /// What holds of the words outside the functions that write them.
    pub open spec fn wf(self) -> bool {
        &&& self.active_slot < 2
        &&& self.live_active_slot < 2
        &&& self.slots@[0].sequence % 2 == 0
        &&& self.slots@[1].sequence % 2 == 0
        &&& self.live_slots@[0].sequence % 2 == 0
        &&& self.live_slots@[1].sequence % 2 == 0
        &&& self.snapshot_revision == self@.completed.revision
        &&& match self@.retained {
            Some(preview) => self.live_revision == preview.revision,
            None => self.live_revision == 0 && !self@.live,
        }
        &&& (self.timeline_available != 0) == (self.current_position_valid != 0)
    }

    /// Create an empty publication.
    pub fn new() -> (publication: WaveformPublication)
        ensures
            publication.wf(),
            publication@ == PublicationState::empty(),
    {
        WaveformPublication {
            slots: [SnapshotSlot::new(), SnapshotSlot::new()],
            active_slot: 0,
            snapshot_revision: 0,
            live_slots: [LiveSlot::new(), LiveSlot::new()],
            live_active_slot: 0,
            live_active_valid: 0,
            live_revision: 0,
            redraw_revision: 0,
            selected_window_raw: WindowLength::OneBeat.as_raw(),
            sample_rate_bits: DEFAULT_SAMPLE_RATE,
            transport_sequence: 0,
            current_tempo_bits: 0,
            current_position_bits: 0,
            current_position_valid: 0,
            is_playing: 0,
            timeline_available: 0,
        }
    }
}

impl Default for WaveformPublication {
    fn default() -> (publication: WaveformPublication)
        ensures
            publication.wf(),
            publication@ == PublicationState::empty(),
    {
        WaveformPublication::new()
    }
}

/// The words that a transaction protects are the same in two publications.
pub open spec fn same_payload(one: WaveformPublication, other: WaveformPublication) -> bool {
    &&& one.slots == other.slots
    &&& one.active_slot == other.active_slot
    &&& one.snapshot_revision == other.snapshot_revision
    &&& one.live_slots == other.live_slots
    &&& one.live_active_slot == other.live_active_slot
    &&& one.live_active_valid == other.live_active_valid
    &&& one.live_revision == other.live_revision
    &&& one.current_tempo_bits == other.current_tempo_bits
    &&& one.current_position_bits == other.current_position_bits
    &&& one.current_position_valid == other.current_position_valid
    &&& one.is_playing == other.is_playing
    &&& one.timeline_available == other.timeline_available
}

/// What one step does to a shared publication: it moves the outer sequence by
/// one, or it leaves the sequence and, outside transactions, all that they
/// protect.
pub open spec fn shared_step(before: WaveformPublication, after: WaveformPublication) -> bool {
    ||| after.transport_sequence == following(before.transport_sequence)
    ||| {
        &&& after.transport_sequence == before.transport_sequence
        &&& before.transport_sequence % 2 == 0 ==> same_payload(before, after)
    }
}

impl WaveformPublication {
    /// The completed-snapshot buffers are those of `before`.
    pub open spec fn keeps_snapshots_of(self, before: WaveformPublication) -> bool {
        &&& self.slots == before.slots
        &&& self.active_slot == before.active_slot
    }

    /// The live-preview buffers are those of `before`.
    pub open spec fn keeps_previews_of(self, before: WaveformPublication) -> bool {
        &&& self.live_slots == before.live_slots
        &&& self.live_active_slot == before.live_active_slot
    }

    /// All buffers are those of `before`.
    pub open spec fn keeps_buffers_of(self, before: WaveformPublication) -> bool {
        &&& self.keeps_snapshots_of(before)
        &&& self.keeps_previews_of(before)
    }

    /// A completed snapshot was written since `before`. Readers now take the
    /// other buffer, whose sequence moved on by one write; the buffer that
    /// they took stays as it was.
    pub open spec fn turns_snapshots_of(self, before: WaveformPublication) -> bool {
        &&& self.active_slot == 1 - before.active_slot
        &&& self.slots@[before.active_slot as int] == before.slots@[before.active_slot as int]
        &&& self.slots@[self.active_slot as int].sequence == written(
            before.slots@[self.active_slot as int].sequence,
            1,
        )
    }

    /// A live preview was written since `before`. Readers now take the other
    /// buffer, whose sequence moved on by one write; the buffer that they took
    /// stays as it was.
    pub open spec fn turns_previews_of(self, before: WaveformPublication) -> bool {
        &&& self.live_active_slot == 1 - before.live_active_slot
        &&& self.live_slots@[before.live_active_slot as int]
            == before.live_slots@[before.live_active_slot as int]
        &&& self.live_slots@[self.live_active_slot as int].sequence == written(
            before.live_slots@[self.live_active_slot as int].sequence,
            1,
        )
    }

    /// Since `before`, the completed-snapshot buffers were written `first` and
    /// `second` times.
    pub open spec fn wrote_snapshots_since(
        self,
        before: WaveformPublication,
        first: nat,
        second: nat,
    ) -> bool {
        &&& self.slots@[0].sequence == written(before.slots@[0].sequence, first)
        &&& self.slots@[1].sequence == written(before.slots@[1].sequence, second)
        &&& first == 0 ==> self.slots@[0] == before.slots@[0]
        &&& second == 0 ==> self.slots@[1] == before.slots@[1]
    }

    /// Since `before`, no more than `most` completed snapshots were written.
    pub open spec fn within_writes_of(self, before: WaveformPublication, most: nat) -> bool {
        exists|first: nat, second: nat|
            first + second <= most && #[trigger] self.wrote_snapshots_since(before, first, second)
    }

    /// Whether a buffer was written since `before` can be told by its sequence:
    /// where that is the same, so is the buffer.
    pub open spec fn shows_writes_since(self, before: WaveformPublication) -> bool {
        forall|slot: int|
            #![trigger self.slots@[slot]]
            #![trigger self.live_slots@[slot]]
            0 <= slot < 2 ==> {
                &&& self.slots@[slot].sequence == before.slots@[slot].sequence ==> self.slots@[slot]
                    == before.slots@[slot]
                &&& self.live_slots@[slot].sequence == before.live_slots@[slot].sequence
                    ==> self.live_slots@[slot] == before.live_slots@[slot]
            }
    }
}

/// The sequence of a buffer after so many more writes. A write is a step to an
/// odd number and one to the next even one.
pub open spec fn written(sequence: u64, writes: nat) -> u64 {
    ((sequence + 2 * writes) % 0x1_0000_0000_0000_0000) as u64
}

proof fn lemma_written_twice(sequence: u64, earlier: nat, later: nat)
    ensures
        written(written(sequence, earlier), later) == written(sequence, earlier + later),
{
    let modulus = 0x1_0000_0000_0000_0000int;
    vstd::arithmetic::div_mod::lemma_add_mod_noop_right(
        2 * later as int,
        sequence + 2 * earlier,
        modulus,
    );
    assert((sequence + 2 * earlier) + 2 * later == sequence + 2 * (earlier + later));
}

/// Writes add up.
pub(crate) proof fn lemma_writes_add_up(
    before: WaveformPublication,
    between: WaveformPublication,
    after: WaveformPublication,
    earlier: nat,
    later: nat,
)
    requires
        between.within_writes_of(before, earlier),
        after.within_writes_of(between, later),
    ensures
        after.within_writes_of(before, earlier + later),
{
    let (first, second) = choose|first: nat, second: nat|
        first + second <= earlier && #[trigger] between.wrote_snapshots_since(
            before,
            first,
            second,
        );
    let (next_first, next_second) = choose|first: nat, second: nat|
        first + second <= later && #[trigger] after.wrote_snapshots_since(between, first, second);
    lemma_written_twice(before.slots@[0].sequence, first, next_first);
    lemma_written_twice(before.slots@[1].sequence, second, next_second);
    assert(after.wrote_snapshots_since(before, first + next_first, second + next_second));
}

/// A snapshot that is written, or none, is one write at most.
pub(crate) proof fn lemma_one_write(before: WaveformPublication, after: WaveformPublication)
    requires
        before.active_slot < 2,
        after.turns_snapshots_of(before) || after.keeps_snapshots_of(before),
    ensures
        after.within_writes_of(before, 1),
        after.keeps_snapshots_of(before) ==> after.within_writes_of(before, 0),
{
    if after.keeps_snapshots_of(before) {
        assert(after.wrote_snapshots_since(before, 0, 0));
    } else if before.active_slot == 0 {
        assert(after.wrote_snapshots_since(before, 0, 1));
    } else {
        assert(after.wrote_snapshots_since(before, 1, 0));
    }
}

/// Sequences tell writes as long as they do not come around.
pub(crate) proof fn lemma_sequences_show_writes(
    before: WaveformPublication,
    after: WaveformPublication,
    most: nat,
)
    requires
        before.live_active_slot < 2,
        after.within_writes_of(before, most),
        most <= i64::MAX,
        after.keeps_previews_of(before) || after.turns_previews_of(before),
    ensures
        after.shows_writes_since(before),
{
}

impl LiveUpdate<'_> {
    /// The update writes a preview that has samples.
    pub open spec fn stores(self) -> bool {
        self matches LiveUpdate::Publish(preview) && preview.sample_count > 0
            && preview.target_sample_count > 0
    }
}

/// An open publication transaction.
///
/// A publication is presented to readers only between transactions, so
/// everything written in one becomes visible together.
pub struct PublicationTransaction {
    /// The odd sequence that the transaction runs under.
    pub sequence: u64,
}

impl PublicationTransaction {
    /// The transaction is the one that a publication has open.
    pub open spec fn opens(self, publication: PublicationState) -> bool {
        self.sequence == publication.sequence && self.sequence % 2 == 1
    }
}

impl WaveformPublication {
    /// Open a transaction. Transactions must not be nested.
    pub fn begin_publication(&mut self) -> (transaction: PublicationTransaction)
        requires
            old(self).wf(),
            old(self)@.idle(),
        ensures
            final(self).wf(),
            final(self)@ == old(self)@.stepped(),
            transaction.opens(final(self)@),
            shared_step(*old(self), *final(self)),
            final(self).keeps_buffers_of(*old(self)),
    {
        self.transport_sequence = self.transport_sequence + 1;
        PublicationTransaction { sequence: self.transport_sequence }
    }

    /// Return the validated per-instance window selection.
    pub fn selected_window(&self) -> (window: WindowLength)
        ensures
            window == self@.selected_window,
    {
        WindowLength::from_raw(self.selected_window_raw)
    }

    /// Set the per-instance window selection and request one redraw when it
    /// changes.
    pub fn set_selected_window(&mut self, window: WindowLength) -> (changed: bool)
        requires
            old(self).wf(),
        ensures
            final(self).wf(),
            changed == (old(self)@.selected_window != window),
            final(self)@ == if changed {
                PublicationState { selected_window: window, ..old(self)@.redrawn() }
            } else {
                old(self)@
            },
            shared_step(*old(self), *final(self)),
            final(self).keeps_buffers_of(*old(self)),
    {
        let previous: u32 = self.selected_window_raw;
        self.selected_window_raw = window.as_raw();
        if !selection_changes(previous, window) {
            return false;
        }
        self.redraw_revision = self.redraw_revision.wrapping_add(1);
        true
    }

    /// Return the sample rate that the host last set.
    pub fn sample_rate(&self) -> (sample_rate: Binary64)
        ensures
            sample_rate == self@.sample_rate,
    {
        Binary64::from_bits(self.sample_rate_bits)
    }

    /// Set the host sample rate and request one redraw when it changes.
    pub fn set_sample_rate(&mut self, sample_rate: Binary64) -> (changed: bool)
        requires
            old(self).wf(),
        ensures
            final(self).wf(),
            changed == (old(self)@.sample_rate != sample_rate),
            final(self)@ == if changed {
                PublicationState { sample_rate, ..old(self)@.redrawn() }
            } else {
                old(self)@
            },
            shared_step(*old(self), *final(self)),
            final(self).keeps_buffers_of(*old(self)),
    {
        let previous: u64 = self.sample_rate_bits;
        self.sample_rate_bits = sample_rate.bits;
        if !sample_rate_changes(previous, sample_rate) {
            return false;
        }
        self.redraw_revision = self.redraw_revision.wrapping_add(1);
        true
    }

    /// Record current transport metadata and advance the redraw revision.
    pub fn update_transport(&mut self, transport: TransportInfo)
        requires
            old(self).wf(),
            old(self)@.idle(),
        ensures
            final(self).wf(),
            final(self)@ == old(self)@.stepped().with_transport(
                transport,
            ).redrawn().stepped(),
            final(self).keeps_buffers_of(*old(self)),
    {
        let transaction: PublicationTransaction = self.begin_publication();
        transaction.publish_presentation(self, Some(transport), LiveUpdate::Keep);
        transaction.commit(self);
    }

    /// Publish one live in-progress envelope with its transport presentation.
    pub fn publish_live_preview(
        &mut self,
        transport: TransportInfo,
        mode: SnapshotMode,
        window: WindowLength,
        tempo_bpm: Option<Binary64>,
        beat_index: Option<i64>,
        sample_count: usize,
        target_sample_count: usize,
        envelope: &[EnvelopePoint; ENVELOPE_BINS],
    )
        requires
            old(self).wf(),
            old(self)@.idle(),
        ensures
            final(self).wf(),
            final(self)@ == old(self)@.stepped().with_transport(transport).with_live(
                mode,
                window,
                tempo_bpm,
                beat_index,
                sample_count,
                target_sample_count,
                envelope@,
            ).redrawn().stepped(),
            final(self).keeps_snapshots_of(*old(self)),
            if sample_count > 0 && target_sample_count > 0 {
                final(self).turns_previews_of(*old(self))
            } else {
                final(self).keeps_previews_of(*old(self))
            },
    {
        let transaction: PublicationTransaction = self.begin_publication();
        transaction.publish_live_preview(
            self,
            transport,
            mode,
            window,
            tempo_bpm,
            beat_index,
            sample_count,
            target_sample_count,
            envelope,
        );
        transaction.commit(self);
    }

    /// Invalidate the live preview without changing the completed snapshot.
    pub fn clear_live_preview(&mut self)
        requires
            old(self).wf(),
            old(self)@.idle(),
        ensures
            final(self).wf(),
            final(self)@ == old(self)@.stepped().with_live_cleared().redrawn().stepped(),
            final(self).keeps_buffers_of(*old(self)),
    {
        let transaction: PublicationTransaction = self.begin_publication();
        transaction.publish_presentation(self, None, LiveUpdate::Clear);
        transaction.commit(self);
    }

    /// Invalidate the live preview and present a transport.
    pub fn clear_live_preview_with_transport(&mut self, transport: TransportInfo)
        requires
            old(self).wf(),
            old(self)@.idle(),
        ensures
            final(self).wf(),
            final(self)@ == old(self)@.stepped().with_transport(
                transport,
            ).with_live_cleared().redrawn().stepped(),
            final(self).keeps_buffers_of(*old(self)),
    {
        let transaction: PublicationTransaction = self.begin_publication();
        transaction.clear_live_preview_with_transport(self, transport);
        transaction.commit(self);
    }

    /// Publish a complete source window from a precomputed min/max envelope.
    ///
    /// Audio-side capture uses this form so completion of a selected window
    /// only copies the fixed envelope, rather than traversing the entire
    /// window.
    pub fn publish_envelope(
        &mut self,
        mode: SnapshotMode,
        window: WindowLength,
        tempo_bpm: Option<Binary64>,
        beat_index: Option<i64>,
        sample_count: usize,
        envelope: &[EnvelopePoint; ENVELOPE_BINS],
    )
        requires
            old(self).wf(),
            old(self)@.idle(),
        ensures
            final(self).wf(),
            final(self)@ == old(self)@.stepped().with_completed(
                mode,
                window,
                tempo_bpm,
                beat_index,
                sample_count,
                envelope@,
            ).stepped(),
            final(self).turns_snapshots_of(*old(self)),
            final(self).keeps_previews_of(*old(self)),
    {
        let transaction: PublicationTransaction = self.begin_publication();
        transaction.publish_envelope(
            self,
            mode,
            window,
            tempo_bpm,
            beat_index,
            sample_count,
            envelope,
        );
        transaction.commit(self);
    }

    /// Return the latest redraw revision without copying the envelope.
    pub fn redraw_revision(&self) -> (revision: u64)
        ensures
            revision == self@.redraw_revision,
    {
        self.redraw_revision
    }
}

/// The other of the two buffers.
fn other_slot(active: usize) -> (inactive: usize)
    requires
        active < 2,
    ensures
        inactive == 1 - active,
{
    if active == 0 {
        1
    } else {
        0
    }
}

/// The odd sequence under which a buffer is written.
fn writing(sequence: u64) -> (odd: u64)
    ensures
        odd % 2 == 1,
        sequence % 2 == 0 ==> odd == following(sequence),
{
    if sequence % 2 == 1 {
        sequence
    } else {
        sequence + 1
    }
}

impl PublicationTransaction {
    /// Present a transport, change the live preview and request one redraw.
    pub fn publish_presentation(
        &self,
        publication: &mut WaveformPublication,
        transport: Option<TransportInfo>,
        live: LiveUpdate<'_>,
    )
        requires
            old(publication).wf(),
            self.opens(old(publication)@),
        ensures
            final(publication).wf(),
            final(publication)@ == old(publication)@.presented(transport, live),
            shared_step(*old(publication), *final(publication)),
            final(publication).keeps_snapshots_of(*old(publication)),
            if live.stores() {
                final(publication).turns_previews_of(*old(publication))
            } else {
                final(publication).keeps_previews_of(*old(publication))
            },
    {
        if let Some(transport) = transport {
            self.store_transport(publication, transport);
        }
        match live {
            LiveUpdate::Keep => {},
            LiveUpdate::Clear => {
                publication.live_active_valid = live_word(false);
            },
            LiveUpdate::Publish(preview) => {
                if preview.sample_count == 0 || preview.target_sample_count == 0 {
                    // The last valid buffer stays as a display-only snapshot.
                    // The separate validity bit invalidates only the current
                    // capture, so a stop, seek or reset cannot blank a prefix
                    // before the next complete window is available.
                    publication.live_active_valid = live_word(false);
                } else {
                    self.store_preview(publication, preview);
                }
            },
        }
        publication.redraw_revision = publication.redraw_revision.wrapping_add(1);
    }

    fn store_transport(&self, publication: &mut WaveformPublication, transport: TransportInfo)
        requires
            old(publication).wf(),
        ensures
            final(publication).wf(),
            final(publication)@ == old(publication)@.with_transport(transport),
            final(publication).keeps_buffers_of(*old(publication)),
    {
        publication.current_tempo_bits = tempo_word(transport.tempo_bpm);
        match valid_position(transport.song_pos_beats) {
            Some(position) => {
                publication.current_position_bits = position.bits;
                publication.current_position_valid = 1;
                publication.timeline_available = 1;
            },
            None => {
                publication.current_position_bits = 0;
                publication.current_position_valid = 0;
                publication.timeline_available = 0;
            },
        }
        publication.is_playing = if transport.is_playing {
            1
        } else {
            0
        };
    }

    fn store_preview(&self, publication: &mut WaveformPublication, preview: LivePreview<'_>)
        requires
            old(publication).wf(),
            preview.sample_count > 0,
            preview.target_sample_count > 0,
        ensures
            final(publication).wf(),
            final(publication)@ == old(publication)@.with_live(
                preview.mode,
                preview.window,
                preview.tempo_bpm,
                preview.beat_index,
                preview.sample_count,
                preview.target_sample_count,
                preview.envelope@,
            ),
            final(publication).keeps_snapshots_of(*old(publication)),
            final(publication).turns_previews_of(*old(publication)),
    {
        let inactive: usize = other_slot(publication.live_active_slot);
        let sequence: u64 = writing(publication.live_slots[inactive].sequence);
        publication.live_slots[inactive].sequence = sequence;

        let revision: u64 = publication.live_revision.wrapping_add(1);
        publication.live_revision = revision;
        publication.live_slots[inactive].revision = revision;
        let smaller: usize = if preview.sample_count < preview.target_sample_count {
            preview.sample_count
        } else {
            preview.target_sample_count
        };
        publication.live_slots[inactive].valid = 1;
        publication.live_slots[inactive].mode = preview.mode.as_raw();
        publication.live_slots[inactive].window_raw = preview.window.as_raw();
        publication.live_slots[inactive].tempo_bits = tempo_word(preview.tempo_bpm);
        match preview.beat_index {
            Some(index) => {
                publication.live_slots[inactive].beat_index = beat_word(index);
                publication.live_slots[inactive].beat_index_valid = 1;
            },
            None => {
                publication.live_slots[inactive].beat_index_valid = 0;
            },
        }
        publication.live_slots[inactive].sample_count = count_word(smaller);
        publication.live_slots[inactive].target_sample_count = count_word(
            preview.target_sample_count,
        );
        store_envelope(&mut publication.live_slots[inactive].envelope, preview.envelope);
        publication.live_slots[inactive].sequence = sequence.wrapping_add(1);
        publication.live_active_slot = inactive;
        publication.live_active_valid = live_word(true);
    }

    /// Publish one live in-progress envelope with its transport presentation.
    pub fn publish_live_preview(
        &self,
        publication: &mut WaveformPublication,
        transport: TransportInfo,
        mode: SnapshotMode,
        window: WindowLength,
        tempo_bpm: Option<Binary64>,
        beat_index: Option<i64>,
        sample_count: usize,
        target_sample_count: usize,
        envelope: &[EnvelopePoint; ENVELOPE_BINS],
    )
        requires
            old(publication).wf(),
            self.opens(old(publication)@),
        ensures
            final(publication).wf(),
            final(publication)@ == old(publication)@.with_transport(transport).with_live(
                mode,
                window,
                tempo_bpm,
                beat_index,
                sample_count,
                target_sample_count,
                envelope@,
            ).redrawn(),
            final(publication).keeps_snapshots_of(*old(publication)),
            if sample_count > 0 && target_sample_count > 0 {
                final(publication).turns_previews_of(*old(publication))
            } else {
                final(publication).keeps_previews_of(*old(publication))
            },
    {
        let preview: LivePreview<'_> = LivePreview {
            mode,
            window,
            tempo_bpm,
            beat_index,
            sample_count,
            target_sample_count,
            envelope,
        };
        self.publish_presentation(publication, Some(transport), LiveUpdate::Publish(preview));
    }

    /// Invalidate the live preview and present a transport.
    pub fn clear_live_preview_with_transport(
        &self,
        publication: &mut WaveformPublication,
        transport: TransportInfo,
    )
        requires
            old(publication).wf(),
            self.opens(old(publication)@),
        ensures
            final(publication).wf(),
            final(publication)@ == old(publication)@.with_transport(
                transport,
            ).with_live_cleared().redrawn(),
            final(publication).keeps_buffers_of(*old(publication)),
    {
        self.publish_presentation(publication, Some(transport), LiveUpdate::Clear);
    }

    /// Publish a complete source window.
    pub fn publish_envelope(
        &self,
        publication: &mut WaveformPublication,
        mode: SnapshotMode,
        window: WindowLength,
        tempo_bpm: Option<Binary64>,
        beat_index: Option<i64>,
        sample_count: usize,
        envelope: &[EnvelopePoint; ENVELOPE_BINS],
    )
        requires
            old(publication).wf(),
            self.opens(old(publication)@),
        ensures
            final(publication).wf(),
            final(publication)@ == old(publication)@.with_completed(
                mode,
                window,
                tempo_bpm,
                beat_index,
                sample_count,
                envelope@,
            ),
            shared_step(*old(publication), *final(publication)),
            final(publication).turns_snapshots_of(*old(publication)),
            final(publication).keeps_previews_of(*old(publication)),
    {
        let inactive: usize = other_slot(publication.active_slot);
        let sequence: u64 = writing(publication.slots[inactive].sequence);
        publication.slots[inactive].sequence = sequence;

        let revision: u64 = publication.snapshot_revision.wrapping_add(1);
        publication.snapshot_revision = revision;
        publication.slots[inactive].revision = revision;
        publication.slots[inactive].mode = mode.as_raw();
        publication.slots[inactive].window_raw = window.as_raw();
        publication.slots[inactive].tempo_bits = tempo_word(tempo_bpm);
        match beat_index {
            Some(index) => {
                publication.slots[inactive].beat_index = beat_word(index);
                publication.slots[inactive].beat_index_valid = 1;
            },
            None => {
                publication.slots[inactive].beat_index_valid = 0;
            },
        }
        publication.slots[inactive].sample_count = count_word(sample_count);
        store_envelope(&mut publication.slots[inactive].envelope, envelope);
        publication.slots[inactive].sequence = sequence.wrapping_add(1);
        publication.active_slot = inactive;
    }

    /// Close the transaction and make what was written in it visible.
    pub fn commit(self, publication: &mut WaveformPublication)
        requires
            old(publication).wf(),
            self.opens(old(publication)@),
        ensures
            final(publication).wf(),
            final(publication)@ == old(publication)@.stepped(),
            final(publication)@.idle(),
            shared_step(*old(publication), *final(publication)),
            final(publication).keeps_buffers_of(*old(publication)),
    {
        publication.transport_sequence = self.sequence.wrapping_add(1);
    }
}

} // verus!
