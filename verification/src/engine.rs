//! Fixed-capacity capture of beat windows from host blocks.

use crate::binary::{Binary32, Binary64};
use crate::envelope::{
    accumulate_capture_envelope, clear_capture_envelope, EnvelopePoint, ENVELOPE_BINS,
};
use crate::publication::{
    LiveUpdate, PublicationState, PublicationTransaction, WaveformPublication,
};
use crate::timing::{
    aligned_window_start, fallback_window_samples, live_preview_cadence_samples, tempo_changed,
    valid_position, valid_tempo, window_samples, TransportInfo, EPSILON, MAX_CAPTURE_SAMPLES,
    POSITION_TOLERANCE_SAMPLES, SIXTY,
};
use crate::window::{SnapshotMode, WindowLength};
use vstd::prelude::*;

verus! {

/// The bit pattern of one half.
const HALF: u64 = 0x3fe0_0000_0000_0000;

/// What a capture engine holds.
#[verifier::ext_equal]
pub struct EngineState {
    /// The sample rate.
    pub sample_rate: Binary64,
    /// The most samples that a window may have.
    pub capacity_samples: usize,
    /// The window being captured.
    pub active_window: WindowLength,
    /// How the current run captures.
    pub capture_mode: Option<SnapshotMode>,
    /// The start of the beat window in progress.
    pub synced_interval: Option<i64>,
    /// The samples of that window so far.
    pub synced_len: usize,
    /// The columns of that window so far.
    pub synced_envelope: Seq<EnvelopePoint>,
    /// The samples in a rolling window.
    pub rolling_target: usize,
    /// The samples of the rolling window so far.
    pub rolling_len: usize,
    /// The columns of the rolling window so far.
    pub rolling_envelope: Seq<EnvelopePoint>,
    /// The frames that passed since the last preview was published, short of
    /// overflow; none when there was no preview yet.
    pub frames_since_preview: Option<usize>,
    /// The samples of the window in progress that the last preview shows; zero
    /// when it shows another window.
    pub previewed_samples: usize,
    /// Where the next block is expected to start.
    pub last_position: Option<Binary64>,
    /// The tempo of the last block.
    pub last_tempo: Option<Binary64>,
    /// Whether the last block played.
    pub last_playing: bool,
}

/// An engine together with the publication that it writes to.
#[verifier::ext_equal]
pub struct Capture {
    /// The engine.
    pub engine: EngineState,
    /// The publication.
    pub publication: PublicationState,
}

impl EngineState {
    /// A new engine.
    pub open spec fn fresh(sample_rate: Binary64, capacity: usize) -> EngineState {
        EngineState {
            sample_rate: sample_rate.max(Binary64::one()),
            capacity_samples: if capacity == 0 {
                1
            } else {
                capacity
            },
            active_window: WindowLength::DEFAULT,
            capture_mode: None,
            synced_interval: None,
            synced_len: 0,
            synced_envelope: crate::envelope::blank_envelope(),
            rolling_target: 0,
            rolling_len: 0,
            rolling_envelope: crate::envelope::blank_envelope(),
            frames_since_preview: None,
            previewed_samples: 0,
            last_position: None,
            last_tempo: None,
            last_playing: false,
        }
    }

    /// The engine with every window in progress given up.
    pub open spec fn without_partial(self) -> EngineState {
        EngineState {
            capture_mode: None,
            synced_interval: None,
            synced_len: 0,
            synced_envelope: crate::envelope::blank_envelope(),
            rolling_target: 0,
            rolling_len: 0,
            rolling_envelope: crate::envelope::blank_envelope(),
            previewed_samples: 0,
            ..self
        }
    }

    /// The engine after `frames` more frames, whatever became of them.
    pub open spec fn with_frames_passed(self, frames: nat) -> EngineState {
        EngineState {
            frames_since_preview: match self.frames_since_preview {
                Some(passed) => Some(
                    if passed + frames > usize::MAX {
                        usize::MAX
                    } else {
                        (passed + frames) as usize
                    },
                ),
                None => None,
            },
            ..self
        }
    }

    /// The engine with no expectation of the next block.
    pub open spec fn without_continuity(self) -> EngineState {
        EngineState { last_position: None, last_tempo: None, last_playing: false, ..self }
    }

    /// The beats that one sample takes at a tempo.
    pub open spec fn beats_per_sample(self, tempo: Binary64) -> Binary64 {
        tempo.div(Binary64::from_bits(SIXTY).mul(self.sample_rate))
    }

    /// The position continues the last block, within the tolerance.
    pub open spec fn continues(self, position: Option<Binary64>) -> bool {
        match (self.last_position, position, self.last_tempo) {
            (Some(expected), Some(position), Some(tempo)) => {
                let tolerance = self.beats_per_sample(tempo).mul(
                    Binary64::from_bits(POSITION_TOLERANCE_SAMPLES),
                ).max(Binary64::from_bits(EPSILON));
                position.sub(expected).abs().le(tolerance)
            },
            _ => false,
        }
    }
}

/// Fixed-capacity audio-side capture state.
#[derive(Clone, Copy, Debug)]
pub struct CaptureEngine {
    sample_rate: Binary64,
    capacity_samples: usize,
    active_window: WindowLength,
    capture_mode: Option<SnapshotMode>,
    synced_interval: Option<i64>,
    synced_len: usize,
    synced_envelope: [EnvelopePoint; ENVELOPE_BINS],
    rolling_target: usize,
    rolling_len: usize,
    rolling_envelope: [EnvelopePoint; ENVELOPE_BINS],
    frames_since_preview: Option<usize>,
    previewed_samples: usize,
    last_position: Option<Binary64>,
    last_tempo: Option<Binary64>,
    last_playing: bool,
}

impl View for CaptureEngine {
    type V = EngineState;

    closed spec fn view(&self) -> EngineState {
        EngineState {
            sample_rate: self.sample_rate,
            capacity_samples: self.capacity_samples,
            active_window: self.active_window,
            capture_mode: self.capture_mode,
            synced_interval: self.synced_interval,
            synced_len: self.synced_len,
            synced_envelope: self.synced_envelope@,
            rolling_target: self.rolling_target,
            rolling_len: self.rolling_len,
            rolling_envelope: self.rolling_envelope@,
            frames_since_preview: self.frames_since_preview,
            previewed_samples: self.previewed_samples,
            last_position: self.last_position,
            last_tempo: self.last_tempo,
            last_playing: self.last_playing,
        }
    }
}

impl CaptureEngine {
    /// Reserve the logical capture capacity during plugin activation.
    pub fn new(sample_rate: Binary64) -> (engine: CaptureEngine)
        ensures
            engine@ == EngineState::fresh(sample_rate, MAX_CAPTURE_SAMPLES),
    {
        CaptureEngine::with_capacity(sample_rate, MAX_CAPTURE_SAMPLES)
    }

    /// Construct an engine with a fixed capacity of its own.
    pub fn with_capacity(sample_rate: Binary64, capacity: usize) -> (engine: CaptureEngine)
        ensures
            engine@ == EngineState::fresh(sample_rate, capacity),
    {
        let mut engine: CaptureEngine = CaptureEngine {
            sample_rate: sample_rate.max(Binary64::one()),
            capacity_samples: if capacity == 0 {
                1
            } else {
                capacity
            },
            active_window: WindowLength::OneBeat,
            capture_mode: None,
            synced_interval: None,
            synced_len: 0,
            synced_envelope: [EnvelopePoint::unfilled(); ENVELOPE_BINS],
            rolling_target: 0,
            rolling_len: 0,
            rolling_envelope: [EnvelopePoint::unfilled(); ENVELOPE_BINS],
            frames_since_preview: None,
            previewed_samples: 0,
            last_position: None,
            last_tempo: None,
            last_playing: false,
        };
        engine.reset_partial();
        engine
    }

    /// Reset capture and transport continuity.
    pub fn reset(&mut self, publication: &mut WaveformPublication)
        requires
            old(publication).wf(),
            old(publication)@.idle(),
        ensures
            final(publication).wf(),
            final(self)@ == old(self)@.without_partial().without_continuity(),
            final(publication)@ == old(
                publication,
            )@.stepped().with_live_cleared().redrawn().stepped(),
            final(publication).keeps_buffers_of(*old(publication)),
    {
        self.reset_partial();
        self.last_position = None;
        self.last_tempo = None;
        self.last_playing = false;
        publication.clear_live_preview();
    }

    fn reset_partial(&mut self)
        ensures
            final(self)@ == old(self)@.without_partial(),
    {
        self.capture_mode = None;
        self.synced_interval = None;
        self.synced_len = 0;
        clear_capture_envelope(&mut self.synced_envelope);
        self.rolling_target = 0;
        self.rolling_len = 0;
        clear_capture_envelope(&mut self.rolling_envelope);
        self.previewed_samples = 0;
    }

    fn position_is_continuous(&self, position: Option<Binary64>) -> (continuous: bool)
        ensures
            continuous == self@.continues(position),
    {
        match (self.last_position, position, self.last_tempo) {
            (Some(expected), Some(position), Some(tempo)) => {
                let beat_per_sample: Binary64 = tempo.div(
                    Binary64::from_bits(SIXTY).mul(self.sample_rate),
                );
                let tolerance: Binary64 = beat_per_sample.mul(
                    Binary64::from_bits(POSITION_TOLERANCE_SAMPLES),
                ).max(Binary64::from_bits(EPSILON));
                position.sub(expected).abs().le(tolerance)
            },
            _ => false,
        }
    }
}

/// One run of beat-synced samples: where it starts and how fast it goes.
#[derive(Clone, Copy, Debug)]
pub struct SyncedRun {
    /// The position of the first sample in beats.
    pub position: Binary64,
    /// The host tempo.
    pub tempo: Binary64,
    /// The beat window.
    pub window: WindowLength,
    /// The beats that one sample takes.
    pub increment: Binary64,
    /// The samples in a window.
    pub target: usize,
}

impl SyncedRun {
    /// The position of a sample in beats.
    pub open spec fn beat(self, index: nat) -> Binary64 {
        self.position.add(Binary64::from_whole(index as u64).mul(self.increment))
    }

    /// The start of the window that a sample lies in.
    pub open spec fn interval(self, index: nat) -> Option<i64> {
        aligned_window_start(self.beat(index), self.window)
    }

    /// The start of the window that the sample before lies in.
    pub open spec fn previous_interval(self, index: nat) -> Option<i64> {
        if index == 0 {
            aligned_window_start(self.position, self.window)
        } else {
            self.interval((index - 1) as nat)
        }
    }

    /// A sample opens the window that it lies in: it is within half a sample
    /// of the start, or the sample before lies in another window.
    pub open spec fn opens_window(self, index: nat) -> bool {
        match self.interval(index) {
            Some(interval) => {
                ||| self.beat(index).sub(Binary64::from_integer(interval)).abs().le(
                    self.increment.abs().mul(Binary64::from_bits(0x3fe0_0000_0000_0000)),
                )
                ||| self.previous_interval(index) is Some && self.previous_interval(index) != Some(
                    interval,
                )
            },
            None => false,
        }
    }
}

impl EngineState {
    /// The engine at the start of the beat window at `interval`.
    pub open spec fn with_window_opened(self, interval: i64) -> EngineState {
        EngineState {
            synced_interval: Some(interval),
            synced_len: 0,
            synced_envelope: crate::envelope::blank_envelope(),
            previewed_samples: 0,
            ..self
        }
    }

    /// The engine outside every beat window.
    pub open spec fn with_window_lost(self) -> EngineState {
        EngineState { synced_interval: None, synced_len: 0, previewed_samples: 0, ..self }
    }

    /// The engine with one more sample in its beat window, unless the window
    /// is another one or full.
    pub open spec fn with_synced_sample(
        self,
        interval: i64,
        target: usize,
        left: Binary32,
        right: Binary32,
    ) -> EngineState {
        if self.synced_interval == Some(interval) && self.synced_len < target {
            EngineState {
                synced_envelope: crate::envelope::accumulated(
                    self.synced_envelope,
                    self.synced_len,
                    target,
                    left,
                    right,
                ),
                synced_len: (self.synced_len + 1) as usize,
                ..self
            }
        } else {
            self
        }
    }
}

impl Capture {
    /// The capture after the beat window in progress has given way to the one
    /// at `interval`. A window that is full and directly before is completed.
    pub open spec fn with_window_changed(
        self,
        run: SyncedRun,
        index: nat,
        interval: i64,
    ) -> Capture {
        let engine = self.engine;
        match engine.synced_interval {
            None => if run.opens_window(index) {
                Capture { engine: engine.with_window_opened(interval), ..self }
            } else {
                self
            },
            Some(current) => if interval == current {
                self
            } else {
                Capture {
                    engine: engine.with_window_opened(interval),
                    publication: if current + run.window.beats() == interval && engine.synced_len
                        == run.target {
                        self.publication.with_completed(
                            SnapshotMode::Synced,
                            run.window,
                            Some(run.tempo),
                            Some(current),
                            run.target,
                            engine.synced_envelope,
                        )
                    } else {
                        self.publication
                    },
                }
            },
        }
    }

    /// The capture after the first `count` samples of a run. Once a position
    /// leaves the range of beats, the rest of the run is dropped.
    pub open spec fn after_synced(
        self,
        run: SyncedRun,
        left: Seq<Binary32>,
        right: Seq<Binary32>,
        count: nat,
    ) -> Capture
        decreases count,
    {
        if count == 0 {
            self
        } else {
            let index = (count - 1) as nat;
            let before = self.after_synced(run, left, right, index);
            if run.lost_before(index) {
                before
            } else {
                match run.interval(index) {
                    Some(interval) => {
                        let changed = before.with_window_changed(run, index, interval);
                        Capture {
                            engine: changed.engine.with_synced_sample(
                                interval,
                                run.target,
                                left[index as int],
                                right[index as int],
                            ),
                            ..changed
                        }
                    },
                    None => Capture {
                        engine: EngineState {
                            synced_envelope: crate::envelope::blank_envelope(),
                            ..before.engine.with_window_lost()
                        },
                        ..before
                    },
                }
            }
        }
    }
}

impl SyncedRun {
    /// Some sample before `count` has no window to lie in.
    pub open spec fn lost_before(self, count: nat) -> bool {
        exists|index: nat| index < count && (#[trigger] self.interval(index)) is None
    }
}

impl Capture {
    /// The capture after a block of beat-synced samples.
    pub open spec fn after_synced_block(
        self,
        position: Binary64,
        tempo: Binary64,
        window: WindowLength,
        left: Seq<Binary32>,
        right: Seq<Binary32>,
        frames: nat,
    ) -> Capture {
        let engine = self.engine;
        match window_samples(engine.sample_rate, tempo, window, engine.capacity_samples) {
            Some(target) => {
                let run = SyncedRun {
                    position,
                    tempo,
                    window,
                    increment: engine.beats_per_sample(tempo),
                    target,
                };
                if aligned_window_start(position, window) is Some {
                    self.after_synced(run, left, right, frames)
                } else {
                    Capture {
                        engine: EngineState {
                            synced_envelope: crate::envelope::blank_envelope(),
                            ..engine.with_window_lost()
                        },
                        ..self
                    }
                }
            },
            None => Capture { engine: engine.with_window_lost(), ..self },
        }
    }
}

impl EngineState {
    /// The samples in a rolling window: the selected beats at a known tempo
    /// when they fit, and half a second otherwise.
    pub open spec fn rolling_window(self, tempo: Option<Binary64>, window: WindowLength) -> usize {
        let fallback = fallback_window_samples(self.sample_rate, self.capacity_samples);
        match tempo {
            Some(tempo) => match window_samples(
                self.sample_rate,
                tempo,
                window,
                self.capacity_samples,
            ) {
                Some(target) => target,
                None => fallback,
            },
            None => fallback,
        }
    }

    /// The engine ready to fill rolling windows of `target` samples.
    pub open spec fn with_rolling_target(self, mode: SnapshotMode, target: usize) -> EngineState {
        if self.capture_mode == Some(mode) && self.rolling_target == target {
            self
        } else {
            EngineState {
                capture_mode: Some(mode),
                rolling_target: target,
                ..self.without_partial()
            }
        }
    }

    /// The engine with one more sample in its rolling window; a full window
    /// gives way to a new one first.
    pub open spec fn with_rolling_sample(self, left: Binary32, right: Binary32) -> EngineState {
        let open = if self.rolling_len >= self.rolling_target {
            EngineState {
                rolling_len: 0,
                rolling_envelope: crate::envelope::blank_envelope(),
                previewed_samples: 0,
                ..self
            }
        } else {
            self
        };
        EngineState {
            rolling_envelope: crate::envelope::accumulated(
                open.rolling_envelope,
                open.rolling_len,
                open.rolling_target,
                left,
                right,
            ),
            rolling_len: (open.rolling_len + 1) as usize,
            ..open
        }
    }
}

impl Capture {
    /// The capture after `count` samples of a rolling run. A window is
    /// completed by the sample that fills it.
    pub open spec fn after_rolling(
        self,
        tempo: Option<Binary64>,
        mode: SnapshotMode,
        window: WindowLength,
        left: Seq<Binary32>,
        right: Seq<Binary32>,
        count: nat,
    ) -> Capture
        decreases count,
    {
        if count == 0 {
            self
        } else {
            let index = (count - 1) as nat;
            let before = self.after_rolling(tempo, mode, window, left, right, index);
            let engine = before.engine.with_rolling_sample(left[index as int], right[index as int]);
            Capture {
                engine,
                publication: if engine.rolling_len == engine.rolling_target {
                    before.publication.with_completed(
                        mode,
                        window,
                        tempo,
                        None,
                        engine.rolling_target,
                        engine.rolling_envelope,
                    )
                } else {
                    before.publication
                },
            }
        }
    }

    /// The capture after a block of samples without a musical position.
    pub open spec fn after_rolling_block(
        self,
        tempo: Option<Binary64>,
        mode: SnapshotMode,
        window: WindowLength,
        left: Seq<Binary32>,
        right: Seq<Binary32>,
        frames: nat,
    ) -> Capture {
        let engine = self.engine.with_rolling_target(
            mode,
            self.engine.rolling_window(tempo, window),
        );
        (Capture { engine, ..self }).after_rolling(tempo, mode, window, left, right, frames)
    }
}

/// How a block is captured: synced with a tempo and a position, rolling
/// otherwise.
pub open spec fn block_mode(transport: TransportInfo) -> SnapshotMode {
    let valid = transport.validated();
    if valid.tempo_bpm is None {
        SnapshotMode::UnsyncedFallback
    } else if valid.song_pos_beats is None {
        SnapshotMode::UnsyncedTempo
    } else {
        SnapshotMode::Synced
    }
}

/// The window in progress after a block, as it is previewed.
pub struct WindowInProgress {
    /// The beat that the window starts on.
    pub beat_index: Option<i64>,
    /// The samples so far.
    pub sample_count: usize,
    /// The samples in the whole window.
    pub target_sample_count: usize,
    /// The columns so far.
    pub envelope: Seq<EnvelopePoint>,
}

impl EngineState {
    /// The engine once it follows the selected window; a change gives up what
    /// was in progress.
    pub open spec fn with_window_selected(self, window: WindowLength) -> EngineState {
        if self.active_window == window {
            self
        } else {
            EngineState { active_window: window, ..self }.without_partial()
        }
    }

    /// A block does not continue the last one: playback started, the mode or
    /// the tempo changed, or a synced position jumped.
    #[verifier::opaque]
    pub open spec fn interrupted_by(self, transport: TransportInfo) -> bool {
        let valid = transport.validated();
        let mode = block_mode(transport);
        ||| !self.last_playing
        ||| self.capture_mode != Some(mode)
        ||| tempo_changed(self.last_tempo, valid.tempo_bpm)
        ||| mode == SnapshotMode::Synced && !self.continues(valid.song_pos_beats)
    }

    /// The window in progress, when there is one to preview.
    pub open spec fn in_progress(
        self,
        mode: SnapshotMode,
        tempo: Option<Binary64>,
        window: WindowLength,
    ) -> Option<WindowInProgress> {
        if mode == SnapshotMode::Synced {
            match (
                window_samples(self.sample_rate, tempo->0, window, self.capacity_samples),
                self.synced_interval,
            ) {
                (Some(target), Some(beat_index)) if self.synced_len > 0 && target > 0 => Some(
                    WindowInProgress {
                        beat_index: Some(beat_index),
                        sample_count: self.synced_len,
                        target_sample_count: target,
                        envelope: self.synced_envelope,
                    },
                ),
                _ => None,
            }
        } else if self.rolling_target > 0 && self.rolling_len > 0 {
            Some(
                WindowInProgress {
                    beat_index: None,
                    sample_count: self.rolling_len,
                    target_sample_count: self.rolling_target,
                    envelope: self.rolling_envelope,
                },
            )
        } else {
            None
        }
    }

    /// A preview is due: there was none yet, or a whole cadence of frames
    /// passed since the last one.
    pub open spec fn preview_due(self) -> bool {
        match self.frames_since_preview {
            Some(passed) => passed >= live_preview_cadence_samples(self.sample_rate),
            None => true,
        }
    }

    /// The window in progress is another one than the last preview shows, or
    /// holds more samples.
    pub open spec fn shows_more(self, progress: WindowInProgress) -> bool {
        progress.sample_count > self.previewed_samples
    }

    /// Where the block after one of `frames` samples is expected to start.
    #[verifier::opaque]
    pub open spec fn expected_position(
        self,
        transport: TransportInfo,
        frames: nat,
    ) -> Option<Binary64> {
        let valid = transport.validated();
        let tempo = match valid.tempo_bpm {
            Some(tempo) => tempo,
            None => Binary64::zero(),
        };
        match valid.song_pos_beats {
            Some(start) => Some(
                start.add(
                    Binary64::from_whole(frames as u64).mul(tempo).div(
                        Binary64::from_bits(SIXTY).mul(self.sample_rate),
                    ),
                ),
            ),
            None => None,
        }
    }
}

impl Capture {
    /// The capture after the samples of a block that plays.
    #[verifier::opaque]
    pub open spec fn after_samples(
        self,
        transport: TransportInfo,
        window: WindowLength,
        left: Seq<Binary32>,
        right: Seq<Binary32>,
        frames: nat,
    ) -> Capture {
        let valid = transport.validated();
        let mode = block_mode(transport);
        if mode == SnapshotMode::Synced {
            self.after_synced_block(
                valid.song_pos_beats->0,
                valid.tempo_bpm->0,
                window,
                left,
                right,
                frames,
            )
        } else {
            self.after_rolling_block(valid.tempo_bpm, mode, window, left, right, frames)
        }
    }

    /// The capture after it presented the transport and, when one is due and
    /// shows something new, a preview. Until then the last preview stays live
    /// only while it is one of the run that `continued`.
    #[verifier::opaque]
    pub open spec fn after_presenting(
        self,
        transport: TransportInfo,
        window: WindowLength,
        continued: bool,
    ) -> Capture {
        let valid = transport.validated();
        let mode = block_mode(transport);
        let carried = self.publication.with_transport(valid);
        match self.engine.in_progress(mode, valid.tempo_bpm, window) {
            Some(progress) => if self.engine.preview_due() && self.engine.shows_more(progress) {
                Capture {
                    engine: EngineState {
                        frames_since_preview: Some(0),
                        previewed_samples: progress.sample_count,
                        ..self.engine
                    },
                    publication: carried.with_live(
                        mode,
                        window,
                        valid.tempo_bpm,
                        progress.beat_index,
                        progress.sample_count,
                        progress.target_sample_count,
                        progress.envelope,
                    ).redrawn(),
                }
            } else if continued {
                Capture { publication: carried.redrawn(), ..self }
            } else {
                Capture { publication: carried.with_live_cleared().redrawn(), ..self }
            },
            None => Capture { publication: carried.with_live_cleared().redrawn(), ..self },
        }
    }

    /// The capture after one block, inside the block's transaction.
    pub open spec fn after_block(
        self,
        left: Seq<Binary32>,
        right: Seq<Binary32>,
        transport: TransportInfo,
    ) -> Capture {
        let frames = if left.len() < right.len() {
            left.len()
        } else {
            right.len()
        };
        let window = self.publication.selected_window;
        let valid = transport.validated();
        let selected = self.engine.with_frames_passed(frames).with_window_selected(window);
        if !transport.is_playing || frames == 0 {
            Capture {
                engine: EngineState {
                    last_position: valid.song_pos_beats,
                    last_tempo: valid.tempo_bpm,
                    last_playing: false,
                    ..selected.without_partial()
                },
                publication: self.publication.with_transport(valid).with_live_cleared().redrawn(),
            }
        } else {
            let continued = !selected.interrupted_by(transport);
            let ready = if continued {
                selected
            } else {
                selected.without_partial()
            };
            let presented = (Capture { engine: ready, ..self }).after_samples(
                transport,
                window,
                left,
                right,
                frames,
            ).after_presenting(transport, window, continued);
            Capture {
                engine: EngineState {
                    capture_mode: Some(block_mode(transport)),
                    last_position: presented.engine.expected_position(transport, frames),
                    last_tempo: valid.tempo_bpm,
                    last_playing: true,
                    ..presented.engine
                },
                ..presented
            }
        }
    }
}

impl CaptureEngine {
    /// Process one bounded stereo source block and publish only complete
    /// windows.
    pub fn process_block(
        &mut self,
        left: &[Binary32],
        right: &[Binary32],
        transport: TransportInfo,
        publication: &mut WaveformPublication,
    )
        requires
            old(publication).wf(),
            old(publication)@.idle(),
        ensures
            final(publication).wf(),
            ({
                let after = (Capture {
                    engine: old(self)@,
                    publication: old(publication)@.stepped(),
                }).after_block(left@, right@, transport);
                &&& final(self)@ == after.engine
                &&& final(publication)@ == after.publication.stepped()
            }),
            left@.len() <= i64::MAX || right@.len() <= i64::MAX
                ==> final(publication).shows_writes_since(*old(publication)),
    {
        // The outer sequence stays odd for this entire bounded block.
        let transaction: PublicationTransaction = publication.begin_publication();
        let ghost opened = *publication;
        let frames: usize = if left.len() < right.len() {
            left.len()
        } else {
            right.len()
        };
        self.pass_frames(frames);
        let selected_window: WindowLength = publication.selected_window();
        if selected_window != self.active_window {
            self.active_window = selected_window;
            self.reset_partial();
        }
        let tempo: Option<Binary64> = valid_tempo(transport.tempo_bpm);
        let position: Option<Binary64> = valid_position(transport.song_pos_beats);
        let mode: SnapshotMode = if tempo.is_some() && position.is_some() {
            SnapshotMode::Synced
        } else if tempo.is_some() {
            SnapshotMode::UnsyncedTempo
        } else {
            SnapshotMode::UnsyncedFallback
        };
        let presentation_transport: TransportInfo = TransportInfo {
            tempo_bpm: tempo,
            song_pos_beats: position,
            is_playing: transport.is_playing,
        };

        if !transport.is_playing || frames == 0 {
            self.reset_partial();
            self.last_position = position;
            self.last_tempo = tempo;
            self.last_playing = false;
            transaction.clear_live_preview_with_transport(publication, presentation_transport);
            transaction.commit(publication);
            return;
        }
        let continued: bool = !self.is_interrupted(presentation_transport, mode);
        if !continued {
            self.reset_partial();
        }
        let ghost ready = Capture { engine: self@, publication: publication@ };
        proof {
            reveal(EngineState::interrupted_by);
            lemma_validated(transport);
            lemma_only_valid_parts_count(
                ready,
                transport,
                selected_window,
                left@,
                right@,
                frames as nat,
            );
        }
        self.capture_samples(
            left,
            right,
            frames,
            presentation_transport,
            mode,
            selected_window,
            &transaction,
            publication,
        );
        let ghost filled = *publication;
        let ghost captured = Capture { engine: self@, publication: publication@ };
        proof {
            lemma_only_valid_parts_count(
                captured,
                transport,
                selected_window,
                left@,
                right@,
                frames as nat,
            );
        }
        self.present_block(
            presentation_transport,
            mode,
            selected_window,
            continued,
            &transaction,
            publication,
        );
        let ghost presented = Capture { engine: self@, publication: publication@ };
        proof {
            lemma_only_valid_parts_count(
                presented,
                transport,
                selected_window,
                left@,
                right@,
                frames as nat,
            );
        }
        let last_position: Option<Binary64> = self.next_position(presentation_transport, frames);
        self.capture_mode = Some(mode);
        self.last_position = last_position;
        self.last_tempo = tempo;
        self.last_playing = true;
        transaction.commit(publication);
        proof {
            let most = frames as nat;
            crate::publication::lemma_one_write(*old(publication), opened);
            crate::publication::lemma_writes_add_up(*old(publication), opened, filled, 0, most);
            crate::publication::lemma_one_write(filled, *publication);
            crate::publication::lemma_writes_add_up(
                *old(publication),
                filled,
                *publication,
                most,
                0,
            );
            if frames <= i64::MAX {
                crate::publication::lemma_sequences_show_writes(
                    *old(publication),
                    *publication,
                    most,
                );
            }
        }
    }

    fn pass_frames(&mut self, frames: usize)
        ensures
            final(self)@ == old(self)@.with_frames_passed(frames as nat),
    {
        if let Some(passed) = self.frames_since_preview {
            self.frames_since_preview = Some(passed.saturating_add(frames));
        }
    }

    fn is_interrupted(&self, transport: TransportInfo, mode: SnapshotMode) -> (interrupted: bool)
        requires
            transport.validated() == transport,
            mode == block_mode(transport),
        ensures
            interrupted == self@.interrupted_by(transport),
    {
        proof {
            reveal(EngineState::interrupted_by);
        }
        !self.last_playing || self.capture_mode != Some(mode) || tempo_changed(
            self.last_tempo,
            transport.tempo_bpm,
        ) || (mode == SnapshotMode::Synced && !self.position_is_continuous(
            transport.song_pos_beats,
        ))
    }

    fn next_position(&self, transport: TransportInfo, frames: usize) -> (position: Option<Binary64>)
        requires
            transport.validated() == transport,
        ensures
            position == self@.expected_position(transport, frames as nat),
    {
        proof {
            reveal(EngineState::expected_position);
        }
        match transport.song_pos_beats {
            Some(start) => {
                let tempo: Binary64 = match transport.tempo_bpm {
                    Some(tempo) => tempo,
                    None => Binary64::zero(),
                };
                Some(
                    start.add(
                        Binary64::from_whole(frames as u64).mul(tempo).div(
                            Binary64::from_bits(SIXTY).mul(self.sample_rate),
                        ),
                    ),
                )
            },
            None => None,
        }
    }

    fn capture_samples(
        &mut self,
        left: &[Binary32],
        right: &[Binary32],
        frames: usize,
        transport: TransportInfo,
        mode: SnapshotMode,
        window: WindowLength,
        transaction: &PublicationTransaction,
        publication: &mut WaveformPublication,
    )
        requires
            frames <= left@.len(),
            frames <= right@.len(),
            old(publication).wf(),
            transaction.opens(old(publication)@),
            transport.validated() == transport,
            mode == block_mode(transport),
        ensures
            final(publication).wf(),
            transaction.opens(final(publication)@),
            ({
                let after = (Capture {
                    engine: old(self)@,
                    publication: old(publication)@,
                }).after_samples(transport, window, left@, right@, frames as nat);
                &&& final(self)@ == after.engine
                &&& final(publication)@ == after.publication
            }),
            final(publication).within_writes_of(*old(publication), frames as nat),
            final(publication).keeps_previews_of(*old(publication)),
    {
        proof {
            reveal(Capture::after_samples);
        }
        match (transport.song_pos_beats, transport.tempo_bpm) {
            (Some(position), Some(tempo)) => {
                self.process_synced(
                    left,
                    right,
                    frames,
                    position,
                    tempo,
                    window,
                    transaction,
                    publication,
                );
            },
            _ => {
                self.process_rolling(
                    left,
                    right,
                    frames,
                    transport.tempo_bpm,
                    mode,
                    window,
                    transaction,
                    publication,
                );
            },
        }
    }

    fn present_block(
        &mut self,
        transport: TransportInfo,
        mode: SnapshotMode,
        window: WindowLength,
        continued: bool,
        transaction: &PublicationTransaction,
        publication: &mut WaveformPublication,
    )
        requires
            old(publication).wf(),
            transaction.opens(old(publication)@),
            transport.validated() == transport,
            mode == block_mode(transport),
        ensures
            final(publication).wf(),
            transaction.opens(final(publication)@),
            ({
                let after = (Capture {
                    engine: old(self)@,
                    publication: old(publication)@,
                }).after_presenting(transport, window, continued);
                &&& final(self)@ == after.engine
                &&& final(publication)@ == after.publication
            }),
            final(publication).keeps_snapshots_of(*old(publication)),
            final(publication).keeps_previews_of(*old(publication))
                || final(publication).turns_previews_of(*old(publication)),
    {
        proof {
            reveal(Capture::after_presenting);
        }
        let live_capture: Option<(Option<i64>, usize, usize, &[EnvelopePoint; ENVELOPE_BINS])> =
            match mode {
            SnapshotMode::Synced => match (transport.tempo_bpm, self.synced_interval) {
                (Some(tempo), Some(beat_index)) => match window_samples(
                    self.sample_rate,
                    tempo,
                    window,
                    self.capacity_samples,
                ) {
                    Some(target) if self.synced_len > 0 && target > 0 => Some(
                        (Some(beat_index), self.synced_len, target, &self.synced_envelope),
                    ),
                    _ => None,
                },
                _ => None,
            },
            _ => if self.rolling_target > 0 && self.rolling_len > 0 {
                Some((None, self.rolling_len, self.rolling_target, &self.rolling_envelope))
            } else {
                None
            },
        };
        match live_capture {
            Some((beat_index, sample_count, target_sample_count, envelope)) => {
                let live_is_due: bool = match self.frames_since_preview {
                    Some(passed) => passed >= live_preview_cadence_samples(self.sample_rate),
                    None => true,
                };
                if live_is_due && sample_count > self.previewed_samples {
                    transaction.publish_live_preview(
                        publication,
                        transport,
                        mode,
                        window,
                        transport.tempo_bpm,
                        beat_index,
                        sample_count,
                        target_sample_count,
                        envelope,
                    );
                    self.frames_since_preview = Some(0);
                    self.previewed_samples = sample_count;
                } else if continued {
                    transaction.publish_presentation(
                        publication,
                        Some(transport),
                        LiveUpdate::Keep,
                    );
                } else {
                    transaction.clear_live_preview_with_transport(publication, transport);
                }
            },
            None => {
                transaction.clear_live_preview_with_transport(publication, transport);
            },
        }
    }

    fn process_synced(
        &mut self,
        left: &[Binary32],
        right: &[Binary32],
        frames: usize,
        position: Binary64,
        tempo: Binary64,
        window: WindowLength,
        transaction: &PublicationTransaction,
        publication: &mut WaveformPublication,
    )
        requires
            frames <= left@.len(),
            frames <= right@.len(),
            old(publication).wf(),
            transaction.opens(old(publication)@),
        ensures
            final(publication).wf(),
            transaction.opens(final(publication)@),
            ({
                let after = (Capture {
                    engine: old(self)@,
                    publication: old(publication)@,
                }).after_synced_block(position, tempo, window, left@, right@, frames as nat);
                &&& final(self)@ == after.engine
                &&& final(publication)@ == after.publication
            }),
            final(publication).within_writes_of(*old(publication), frames as nat),
            final(publication).keeps_previews_of(*old(publication)),
    {
        proof {
            crate::publication::lemma_one_write(*publication, *publication);
        }
        let increment: Binary64 = tempo.div(Binary64::from_bits(SIXTY).mul(self.sample_rate));
        let target: usize = match window_samples(
            self.sample_rate,
            tempo,
            window,
            self.capacity_samples,
        ) {
            Some(target) => target,
            None => {
                self.lose_window();
                return;
            },
        };
        if aligned_window_start(position, window).is_none() {
            self.lose_window();
            clear_capture_envelope(&mut self.synced_envelope);
            return;
        }
        let run: SyncedRun = SyncedRun { position, tempo, window, increment, target };
        self.process_run(left, right, frames, run, transaction, publication);
    }

    fn process_run(
        &mut self,
        left: &[Binary32],
        right: &[Binary32],
        frames: usize,
        run: SyncedRun,
        transaction: &PublicationTransaction,
        publication: &mut WaveformPublication,
    )
        requires
            frames <= left@.len(),
            frames <= right@.len(),
            old(publication).wf(),
            transaction.opens(old(publication)@),
            aligned_window_start(run.position, run.window) is Some,
        ensures
            final(publication).wf(),
            transaction.opens(final(publication)@),
            ({
                let after = (Capture {
                    engine: old(self)@,
                    publication: old(publication)@,
                }).after_synced(run, left@, right@, frames as nat);
                &&& final(self)@ == after.engine
                &&& final(publication)@ == after.publication
            }),
            final(publication).within_writes_of(*old(publication), frames as nat),
            final(publication).keeps_previews_of(*old(publication)),
    {
        let ghost start = Capture { engine: old(self)@, publication: old(publication)@ };
        proof {
            crate::publication::lemma_one_write(*publication, *publication);
        }
        let mut previous_interval: Option<i64> = aligned_window_start(run.position, run.window);
        let mut index: usize = 0;
        while index < frames
            invariant
                index <= frames,
                frames <= left@.len(),
                frames <= right@.len(),
                start == (Capture { engine: old(self)@, publication: old(publication)@ }),
                previous_interval is Some,
                previous_interval == run.previous_interval(index as nat),
                !run.lost_before(index as nat),
                publication.wf(),
                transaction.opens(publication@),
                publication.within_writes_of(*old(publication), index as nat),
                publication.keeps_previews_of(*old(publication)),
                (Capture { engine: self@, publication: publication@ }) == start.after_synced(
                    run,
                    left@,
                    right@,
                    index as nat,
                ),
            decreases frames - index,
        {
            let beat: Binary64 = run.position.add(
                Binary64::from_whole(index as u64).mul(run.increment),
            );
            match aligned_window_start(beat, run.window) {
                Some(interval) => {
                    let ghost before = *publication;
                    self.change_window(
                        &run,
                        index,
                        beat,
                        interval,
                        previous_interval,
                        transaction,
                        publication,
                    );
                    proof {
                        crate::publication::lemma_writes_add_up(
                            *old(publication),
                            before,
                            *publication,
                            index as nat,
                            1,
                        );
                    }
                    self.add_synced_sample(interval, run.target, left[index], right[index]);
                    previous_interval = Some(interval);
                },
                None => {
                    self.lose_window();
                    clear_capture_envelope(&mut self.synced_envelope);
                    assert(run.interval(index as nat) is None);
                    proof {
                        lemma_lost_stays(
                            start,
                            run,
                            left@,
                            right@,
                            (index + 1) as nat,
                            frames as nat,
                        );
                    }
                    return;
                },
            }
            index = index + 1;
        }
    }

    fn change_window(
        &mut self,
        run: &SyncedRun,
        index: usize,
        beat: Binary64,
        interval: i64,
        previous_interval: Option<i64>,
        transaction: &PublicationTransaction,
        publication: &mut WaveformPublication,
    )
        requires
            old(publication).wf(),
            transaction.opens(old(publication)@),
            beat == run.beat(index as nat),
            run.interval(index as nat) == Some(interval),
            previous_interval == run.previous_interval(index as nat),
        ensures
            final(publication).wf(),
            transaction.opens(final(publication)@),
            (Capture { engine: final(self)@, publication: final(publication)@ }) == (Capture {
                engine: old(self)@,
                publication: old(publication)@,
            }).with_window_changed(*run, index as nat, interval),
            final(publication).within_writes_of(*old(publication), 1),
            final(publication).keeps_previews_of(*old(publication)),
    {
        match self.synced_interval {
            None => {
                let near_boundary: bool = beat.sub(Binary64::from_integer(interval)).abs().le(
                    run.increment.abs().mul(Binary64::from_bits(HALF)),
                );
                let crossed_boundary: bool = match previous_interval {
                    Some(previous) => previous != interval,
                    None => false,
                };
                if near_boundary || crossed_boundary {
                    self.open_window(interval);
                }
            },
            Some(current) => {
                if interval != current {
                    let follows: bool = match current.checked_add(run.window.beats() as i64) {
                        Some(next) => next == interval,
                        None => false,
                    };
                    if follows && self.synced_len == run.target {
                        transaction.publish_envelope(
                            publication,
                            SnapshotMode::Synced,
                            run.window,
                            Some(run.tempo),
                            Some(current),
                            run.target,
                            &self.synced_envelope,
                        );
                    }
                    self.open_window(interval);
                }
            },
        }
        proof {
            crate::publication::lemma_one_write(*old(publication), *publication);
        }
    }

    fn add_synced_sample(&mut self, interval: i64, target: usize, left: Binary32, right: Binary32)
        ensures
            final(self)@ == old(self)@.with_synced_sample(interval, target, left, right),
    {
        if self.synced_interval == Some(interval) && self.synced_len < target {
            accumulate_capture_envelope(
                &mut self.synced_envelope,
                self.synced_len,
                target,
                left,
                right,
            );
            self.synced_len = self.synced_len + 1;
        }
    }

    fn lose_window(&mut self)
        ensures
            final(self)@ == old(self)@.with_window_lost(),
    {
        self.synced_interval = None;
        self.synced_len = 0;
        self.previewed_samples = 0;
    }

    fn open_window(&mut self, interval: i64)
        ensures
            final(self)@ == old(self)@.with_window_opened(interval),
    {
        self.synced_interval = Some(interval);
        self.synced_len = 0;
        clear_capture_envelope(&mut self.synced_envelope);
        self.previewed_samples = 0;
    }

    fn process_rolling(
        &mut self,
        left: &[Binary32],
        right: &[Binary32],
        frames: usize,
        tempo: Option<Binary64>,
        mode: SnapshotMode,
        window: WindowLength,
        transaction: &PublicationTransaction,
        publication: &mut WaveformPublication,
    )
        requires
            frames <= left@.len(),
            frames <= right@.len(),
            old(publication).wf(),
            transaction.opens(old(publication)@),
        ensures
            final(publication).wf(),
            transaction.opens(final(publication)@),
            ({
                let after = (Capture {
                    engine: old(self)@,
                    publication: old(publication)@,
                }).after_rolling_block(tempo, mode, window, left@, right@, frames as nat);
                &&& final(self)@ == after.engine
                &&& final(publication)@ == after.publication
            }),
            final(publication).within_writes_of(*old(publication), frames as nat),
            final(publication).keeps_previews_of(*old(publication)),
    {
        let beats: Option<usize> = match tempo {
            Some(tempo) => window_samples(self.sample_rate, tempo, window, self.capacity_samples),
            None => None,
        };
        let target: usize = match beats {
            Some(target) => target,
            None => fallback_window_samples(self.sample_rate, self.capacity_samples),
        };
        if self.capture_mode != Some(mode) || self.rolling_target != target {
            self.reset_partial();
            self.capture_mode = Some(mode);
            self.rolling_target = target;
        }
        let ghost start = Capture { engine: self@, publication: publication@ };
        proof {
            crate::publication::lemma_one_write(*publication, *publication);
        }
        let mut index: usize = 0;
        while index < frames
            invariant
                index <= frames,
                frames <= left@.len(),
                frames <= right@.len(),
                target >= 1,
                self.rolling_target == target,
                publication.wf(),
                transaction.opens(publication@),
                publication.within_writes_of(*old(publication), index as nat),
                publication.keeps_previews_of(*old(publication)),
                (Capture { engine: self@, publication: publication@ }) == start.after_rolling(
                    tempo,
                    mode,
                    window,
                    left@,
                    right@,
                    index as nat,
                ),
            decreases frames - index,
        {
            let ghost before = *publication;
            if self.rolling_len >= self.rolling_target {
                self.rolling_len = 0;
                clear_capture_envelope(&mut self.rolling_envelope);
                self.previewed_samples = 0;
            }
            accumulate_capture_envelope(
                &mut self.rolling_envelope,
                self.rolling_len,
                self.rolling_target,
                left[index],
                right[index],
            );
            self.rolling_len = self.rolling_len + 1;
            if self.rolling_len == self.rolling_target {
                transaction.publish_envelope(
                    publication,
                    mode,
                    window,
                    tempo,
                    None,
                    self.rolling_target,
                    &self.rolling_envelope,
                );
            }
            proof {
                crate::publication::lemma_one_write(before, *publication);
                crate::publication::lemma_writes_add_up(
                    *old(publication),
                    before,
                    *publication,
                    index as nat,
                    1,
                );
            }
            index = index + 1;
        }
    }
}

/// Validating a transport twice is validating it once.
proof fn lemma_validated(transport: TransportInfo)
    ensures
        transport.validated().validated() == transport.validated(),
        block_mode(transport.validated()) == block_mode(transport),
        transport.validated().is_playing == transport.is_playing,
{
}

/// A block only uses the valid parts of its transport.
proof fn lemma_only_valid_parts_count(
    capture: Capture,
    transport: TransportInfo,
    window: WindowLength,
    left: Seq<Binary32>,
    right: Seq<Binary32>,
    frames: nat,
)
    ensures
        capture.after_samples(transport.validated(), window, left, right, frames)
            == capture.after_samples(transport, window, left, right, frames),
        forall|continued: bool| #[trigger]
            capture.after_presenting(transport.validated(), window, continued)
                == capture.after_presenting(transport, window, continued),
        capture.engine.expected_position(transport.validated(), frames)
            == capture.engine.expected_position(transport, frames),
{
    lemma_validated(transport);
    reveal(Capture::after_samples);
    reveal(Capture::after_presenting);
    reveal(EngineState::expected_position);
}

/// Nothing changes once a run was lost.
proof fn lemma_lost_stays(
    start: Capture,
    run: SyncedRun,
    left: Seq<Binary32>,
    right: Seq<Binary32>,
    lost: nat,
    count: nat,
)
    requires
        run.lost_before(lost),
        lost <= count,
    ensures
        start.after_synced(run, left, right, count) == start.after_synced(run, left, right, lost),
    decreases count - lost,
{
    if lost < count {
        let index = (count - 1) as nat;
        lemma_lost_stays(start, run, left, right, lost, index);
        let at = choose|at: nat| at < lost && (#[trigger] run.interval(at)) is None;
        assert(at < index && run.interval(at) is None);
        assert(run.lost_before(index));
    }
}

} // verus!
