//! What successive blocks make of one another: when a window goes on, when it
//! is given up, and what it holds once it is complete.

use crate::binary::{Binary32, Binary64};
use crate::engine::{Capture, EngineState, SyncedRun};
use crate::pacing::Block;
use crate::publication::{PublicationState, SnapshotState};
use crate::timing::{aligned_window_start, fallback_window_samples, window_samples};
use crate::window::{SnapshotMode, WindowLength};
use vstd::prelude::*;

verus! {

/// A tempo that capture goes by: between 20 and 300 beats per minute.
pub open spec fn usable_tempo(tempo: Option<Binary64>) -> bool {
    tempo matches Some(bpm) && (Binary64 { bits: 0x4034_0000_0000_0000 }).le(bpm) && bpm.le(
        Binary64 { bits: 0x4072_c000_0000_0000 },
    )
}

/// A position that capture goes by: any finite one.
pub open spec fn usable_position(position: Option<Binary64>) -> bool {
    position matches Some(beats) && beats.is_finite()
}

/// The seconds of a minute.
pub open spec fn minute() -> Binary64 {
    Binary64 { bits: 0x404e_0000_0000_0000 }
}

impl Block {
    /// The block plays samples.
    pub open spec fn sounds(self) -> bool {
        self.transport.is_playing && self.left.len() > 0 && self.right.len() > 0
    }

    /// The host tells a usable tempo.
    pub open spec fn has_tempo(self) -> bool {
        usable_tempo(self.transport.tempo_bpm)
    }

    /// The host tells a usable position.
    pub open spec fn has_position(self) -> bool {
        usable_position(self.transport.song_pos_beats)
    }

    /// The tempo that the host tells.
    pub open spec fn tempo(self) -> Binary64 {
        self.transport.tempo_bpm->0
    }

    /// The position that the host tells.
    pub open spec fn position(self) -> Binary64 {
        self.transport.song_pos_beats->0
    }

    /// Where a block ends: its position and its length in beats.
    pub open spec fn end(self, rate: Binary64) -> Binary64 {
        self.position().add(
            Binary64::from_whole(self.frames() as u64).mul(self.tempo()).div(minute().mul(rate)),
        )
    }

    /// The beats of one and a half samples, or the smallest distance that
    /// counts.
    pub open spec fn tolerance(self, rate: Binary64) -> Binary64 {
        self.tempo().div(minute().mul(rate)).mul(Binary64 { bits: 0x3ff8_0000_0000_0000 }).max(
            Binary64 { bits: 0x3cb0_0000_0000_0000 },
        )
    }

    /// The next block starts elsewhere than this one ends, by more than the
    /// tolerance.
    pub open spec fn jumps_to(self, next: Block, rate: Binary64) -> bool {
        !next.position().sub(self.end(rate)).abs().le(self.tolerance(rate))
    }

    /// The beat that the window of a sample starts on.
    pub open spec fn beat_of(self, rate: Binary64, index: nat) -> Option<i64> {
        aligned_window_start(
            self.position().add(
                Binary64::from_whole(index as u64).mul(self.tempo().div(minute().mul(rate))),
            ),
            self.window,
        )
    }

    /// The samples of both channels together.
    pub open spec fn samples(self) -> Seq<(Binary32, Binary32)> {
        Seq::new(self.frames(), |at: int| (self.left[at], self.right[at]))
    }
}

/// Whatever was being captured in the first block cannot go on in the second:
/// nothing sounded, another window was selected, the tempo changed, or came or
/// went, a position came or went, or the position jumped.
pub open spec fn breaks_off(rate: Binary64, first: Block, second: Block) -> bool {
    ||| !first.sounds()
    ||| second.window != first.window
    ||| second.has_tempo() != first.has_tempo()
    ||| first.has_tempo() && second.has_tempo() && second.tempo() != first.tempo()
    ||| first.has_tempo() && second.has_tempo() && second.has_position() != first.has_position()
    ||| first.has_tempo() && second.has_tempo() && first.has_position() && second.has_position()
        && first.jumps_to(second, rate)
}

/// An engine that captured nothing yet of any window.
pub open spec fn with_nothing_captured(engine: EngineState) -> EngineState {
    EngineState {
        capture_mode: None,
        synced_interval: None,
        synced_len: 0,
        synced_envelope: crate::envelope::blank_envelope(),
        rolling_target: 0,
        rolling_len: 0,
        rolling_envelope: crate::envelope::blank_envelope(),
        previewed_samples: 0,
        ..engine
    }
}

proof fn lemma_transport(block: Block)
    ensures
        block.transport.validated().tempo_bpm == if block.has_tempo() {
            Some(block.tempo())
        } else {
            None
        },
        block.transport.validated().song_pos_beats == if block.has_position() {
            Some(block.position())
        } else {
            None
        },
        crate::engine::block_mode(block.transport) == if !block.has_tempo() {
            SnapshotMode::UnsyncedFallback
        } else if !block.has_position() {
            SnapshotMode::UnsyncedTempo
        } else {
            SnapshotMode::Synced
        },
{
}

/// A block that sounds leaves behind how it was captured and where it ended;
/// one that does not leaves nothing captured.
pub proof fn blocks_leave_their_transport(capture: Capture, block: Block)
    ensures
        ({
            let after = capture.played(block).engine;
            &&& after.sample_rate == capture.engine.sample_rate
            &&& after.capacity_samples == capture.engine.capacity_samples
            &&& after.active_window == block.window
            &&& after.last_playing == block.sounds()
            &&& after.last_tempo == if block.has_tempo() {
                Some(block.tempo())
            } else {
                None
            }
            &&& block.sounds() ==> after.capture_mode == Some(
                if !block.has_tempo() {
                    SnapshotMode::UnsyncedFallback
                } else if !block.has_position() {
                    SnapshotMode::UnsyncedTempo
                } else {
                    SnapshotMode::Synced
                },
            )
            &&& block.sounds() && block.has_tempo() && block.has_position() ==> after.last_position
                == Some(block.end(capture.engine.sample_rate))
            &&& !block.sounds() ==> after == with_nothing_captured(after)
        }),
{
    lemma_transport(block);
    let frames = block.frames();
    let window = block.window;
    let selected = PublicationState { selected_window: window, ..capture.publication }.stepped();
    let engine = capture.engine.with_frames_passed(frames).with_window_selected(window);
    if block.sounds() {
        let continued = !engine.interrupted_by(block.transport);
        let ready = Capture {
            engine: if continued {
                engine
            } else {
                engine.without_partial()
            },
            publication: selected,
        };
        crate::guarantees::lemma_samples_keep_previews(
            ready,
            block.transport,
            window,
            block.left,
            block.right,
            frames,
        );
        reveal(Capture::after_presenting);
        reveal(EngineState::expected_position);
    }
}

/// After a stop, a seek, a loop wrap, a change of tempo or of the selected
/// window, a block acts as on an engine that captured nothing yet: nothing from
/// before has a part in any window.
pub proof fn broken_off_windows_are_given_up(capture: Capture, first: Block, second: Block)
    requires
        breaks_off(capture.engine.sample_rate, first, second),
    ensures
        ({
            let before = capture.played(first);
            before.played(second) == (Capture {
                engine: with_nothing_captured(before.engine),
                ..before
            }).played(second)
        }),
{
    let before = capture.played(first);
    blocks_leave_their_transport(capture, first);
    lemma_transport(first);
    lemma_transport(second);
    assert(with_nothing_captured(before.engine) == before.engine.without_partial());
    if first.sounds() {
        let start = Capture {
            publication: PublicationState {
                selected_window: second.window,
                ..before.publication
            }.stepped(),
            ..before
        };
        if second.window == first.window {
            assert(before.engine.interrupted_by(second.transport)) by {
                reveal(EngineState::interrupted_by);
                if first.has_tempo() && second.has_tempo() && second.tempo() != first.tempo() {
                    assert(second.tempo().bits != first.tempo().bits);
                }
            }
        }
        crate::guarantees::interruptions_drop_partial_windows(
            start,
            second.left,
            second.right,
            second.transport,
        );
    }
}

/// The first samples of a window, as many as it takes.
pub open spec fn window_of(samples: Seq<(Binary32, Binary32)>, target: usize) -> Seq<
    (Binary32, Binary32),
> {
    if samples.len() <= target {
        samples
    } else {
        samples.take(target as int)
    }
}

/// Samples that lie in the window in progress are added to it until it is full.
proof fn lemma_window_goes_on(
    start: Capture,
    held: Seq<(Binary32, Binary32)>,
    run: SyncedRun,
    left: Seq<Binary32>,
    right: Seq<Binary32>,
    from: nat,
    count: nat,
    beat: i64,
)
    requires
        from <= count,
        ({
            let before = start.after_synced(run, left, right, from);
            &&& before.engine.synced_interval == Some(beat)
            &&& before.engine.holds_synced(held, run.target)
        }),
        forall|index: nat| index < count ==> (#[trigger] run.interval(index)) is Some,
        forall|index: nat|
            from <= index < count ==> #[trigger] run.interval(index) == Some(beat),
    ensures
        ({
            let before = start.after_synced(run, left, right, from);
            let after = start.after_synced(run, left, right, count);
            let more = crate::guarantees::paired(left, right, count).skip(from as int);
            &&& after.engine.synced_interval == Some(beat)
            &&& after.engine.holds_synced(window_of(held + more, run.target), run.target)
            &&& after.publication == before.publication
        }),
    decreases count,
{
    let more = crate::guarantees::paired(left, right, count).skip(from as int);
    if from == count {
        assert(held + more =~= held);
    } else {
        let index = (count - 1) as nat;
        lemma_window_goes_on(start, held, run, left, right, from, index, beat);
        let fewer = crate::guarantees::paired(left, right, index).skip(from as int);
        let sample = (left[index as int], right[index as int]);
        assert(more =~= fewer.push(sample));
        assert(held + more =~= (held + fewer).push(sample));
        let before = window_of(held + fewer, run.target);
        let after = window_of(held + more, run.target);
        assert(run.interval(index) == Some(beat));
        if (held + fewer).len() < run.target {
            assert(after =~= before.push(sample));
            assert(before.push(sample).drop_last() =~= before);
            assert(before.push(sample).last() == sample);
        } else {
            assert(after =~= before);
        }
    }
}

/// A sample of another window opens that window.
proof fn lemma_window_opens(
    start: Capture,
    run: SyncedRun,
    left: Seq<Binary32>,
    right: Seq<Binary32>,
    index: nat,
    beat: i64,
)
    requires
        run.target > 0,
        !run.lost_before(index),
        run.interval(index) == Some(beat),
        ({
            let before = start.after_synced(run, left, right, index);
            match before.engine.synced_interval {
                Some(current) => current != beat,
                None => run.opens_window(index),
            }
        }),
    ensures
        ({
            let after = start.after_synced(run, left, right, index + 1);
            &&& after.engine.synced_interval == Some(beat)
            &&& after.engine.holds_synced(
                seq![(left[index as int], right[index as int])],
                run.target,
            )
        }),
{
    let empty: Seq<(Binary32, Binary32)> = seq![];
    let sample = (left[index as int], right[index as int]);
    assert(seq![sample].drop_last() =~= empty);
    assert(seq![sample].last() == sample);
    assert(crate::envelope::gathered(empty, run.target) == crate::envelope::blank_envelope());
}

/// Samples outside every window that is opened leave an engine without one.
proof fn lemma_nothing_opens(
    start: Capture,
    run: SyncedRun,
    left: Seq<Binary32>,
    right: Seq<Binary32>,
    count: nat,
)
    requires
        start.engine.synced_interval is None,
        forall|index: nat| index < count ==> (#[trigger] run.interval(index)) is Some,
        forall|index: nat| index < count ==> !#[trigger] run.opens_window(index),
    ensures
        start.after_synced(run, left, right, count) == start,
    decreases count,
{
    if count > 0 {
        let index = (count - 1) as nat;
        lemma_nothing_opens(start, run, left, right, index);
        assert(!run.opens_window(index));
        assert(run.interval(index) is Some);
    }
}

impl Block {
    /// The run of beat-synced samples that the block is.
    spec fn run(self, rate: Binary64, target: usize) -> SyncedRun {
        SyncedRun {
            position: self.position(),
            tempo: self.tempo(),
            window: self.window,
            increment: self.tempo().div(minute().mul(rate)),
            target,
        }
    }

    /// The samples of a beat window at the block's tempo.
    pub open spec fn beat_window(self, engine: EngineState) -> Option<usize> {
        window_samples(engine.sample_rate, self.tempo(), self.window, engine.capacity_samples)
    }

    /// A sample lies at the start of a beat window: within half a sample of it.
    pub open spec fn at_start_of(self, rate: Binary64, index: nat, beat: i64) -> bool {
        let increment = self.tempo().div(minute().mul(rate));
        self.position().add(Binary64::from_whole(index as u64).mul(increment)).sub(
            Binary64::from_integer(beat),
        ).abs().le(increment.abs().mul(Binary64 { bits: 0x3fe0_0000_0000_0000 }))
    }
}

/// The engine may go on with what it is capturing: it sounded last, in the same
/// way, with the same window and tempo, and ended where the block starts.
pub open spec fn goes_on(engine: EngineState, block: Block) -> bool {
    &&& engine.last_playing
    &&& engine.active_window == block.window
    &&& if !block.has_tempo() {
        &&& engine.capture_mode == Some(SnapshotMode::UnsyncedFallback)
        &&& engine.last_tempo is None
    } else if !block.has_position() {
        &&& engine.capture_mode == Some(SnapshotMode::UnsyncedTempo)
        &&& engine.last_tempo == Some(block.tempo())
    } else {
        &&& engine.capture_mode == Some(SnapshotMode::Synced)
        &&& engine.last_tempo == Some(block.tempo())
        &&& engine.last_position matches Some(end) && block.position().sub(end).abs().le(
            block.tolerance(engine.sample_rate),
        )
    }
}

/// What a block does to an engine that may go on.
proof fn lemma_block_goes_on(capture: Capture, block: Block)
    requires
        block.sounds(),
        goes_on(capture.engine, block),
    ensures
        ({
            let start = Capture {
                engine: capture.engine.with_frames_passed(block.frames()),
                publication: PublicationState {
                    selected_window: block.window,
                    ..capture.publication
                }.stepped(),
            };
            let filled = start.after_samples(
                block.transport,
                block.window,
                block.left,
                block.right,
                block.frames(),
            );
            same_windows(capture.played(block), filled)
        }),
{
    lemma_transport(block);
    let start = Capture {
        engine: capture.engine.with_frames_passed(block.frames()),
        publication: PublicationState {
            selected_window: block.window,
            ..capture.publication
        }.stepped(),
    };
    assert(!start.engine.interrupted_by(block.transport)) by {
        reveal(EngineState::interrupted_by);
    }
    reveal(Capture::after_presenting);
}

/// Both have the same window in progress and completed the same.
spec fn same_windows(one: Capture, other: Capture) -> bool {
    &&& one.engine.synced_interval == other.engine.synced_interval
    &&& one.engine.synced_len == other.engine.synced_len
    &&& one.engine.synced_envelope == other.engine.synced_envelope
    &&& one.engine.rolling_target == other.engine.rolling_target
    &&& one.engine.rolling_len == other.engine.rolling_len
    &&& one.engine.rolling_envelope == other.engine.rolling_envelope
    &&& one.publication.completed == other.publication.completed
}

/// What a block does to an engine that captured nothing yet.
proof fn lemma_block_starts(capture: Capture, block: Block)
    requires
        block.sounds(),
        capture.engine == with_nothing_captured(capture.engine),
    ensures
        ({
            let start = Capture {
                engine: EngineState { active_window: block.window, ..capture.engine }
                    .with_frames_passed(block.frames()),
                publication: PublicationState {
                    selected_window: block.window,
                    ..capture.publication
                }.stepped(),
            };
            let filled = start.after_samples(
                block.transport,
                block.window,
                block.left,
                block.right,
                block.frames(),
            );
            same_windows(capture.played(block), filled)
        }),
{
    let start = EngineState { active_window: block.window, ..capture.engine }.with_frames_passed(
        block.frames(),
    );
    let selected = capture.engine.with_frames_passed(block.frames()).with_window_selected(
        block.window,
    );
    assert(selected =~= start);
    assert(selected.without_partial() =~= start);
    reveal(Capture::after_presenting);
}

/// A beat window that goes on through a block holds its samples in order, and
/// where the block reaches the next window, the full one is completed: the
/// first samples since it began, as many as it takes. One that is short of
/// samples is not completed.
pub proof fn beat_windows_go_on_from_block_to_block(
    capture: Capture,
    block: Block,
    held: Seq<(Binary32, Binary32)>,
    target: usize,
    beat: i64,
    cut: nat,
)
    requires
        block.sounds(),
        block.has_tempo(),
        block.has_position(),
        goes_on(capture.engine, block),
        block.beat_window(capture.engine) == Some(target),
        aligned_window_start(block.position(), block.window) is Some,
        capture.engine.synced_interval == Some(beat),
        capture.engine.holds_synced(held, target),
        cut <= block.frames(),
        forall|index: nat|
            index < cut ==> #[trigger] block.beat_of(capture.engine.sample_rate, index) == Some(
                beat,
            ),
        beat + block.window.beats() <= i64::MAX,
        forall|index: nat|
            cut <= index < block.frames() ==> #[trigger] block.beat_of(
                capture.engine.sample_rate,
                index,
            ) == Some((beat + block.window.beats()) as i64),
    ensures
        ({
            let after = capture.played(block);
            let whole = held + block.samples().take(cut as int);
            let before = capture.publication.completed;
            let completed = after.publication.completed;
            if cut == block.frames() {
                &&& completed == before
                &&& after.engine.synced_interval == Some(beat)
                &&& after.engine.holds_synced(window_of(whole, target), target)
            } else {
                &&& after.engine.synced_interval == Some((beat + block.window.beats()) as i64)
                &&& after.engine.holds_synced(
                    window_of(block.samples().skip(cut as int), target),
                    target,
                )
                &&& if whole.len() < target {
                    completed == before
                } else {
                    &&& completed.revision == crate::publication::following(before.revision)
                    &&& completed.beat_index == Some(beat)
                    &&& crate::guarantees::is_window_of(
                        completed,
                        SnapshotMode::Synced,
                        block.window,
                        Some(block.tempo()),
                        target,
                        whole.take(target as int),
                    )
                }
            }
        }),
{
    let frames = block.frames();
    let rate = capture.engine.sample_rate;
    let run = block.run(rate, target);
    let next = (beat + block.window.beats()) as i64;
    let start = Capture {
        engine: capture.engine.with_frames_passed(frames),
        publication: PublicationState {
            selected_window: block.window,
            ..capture.publication
        }.stepped(),
    };
    lemma_transport(block);
    lemma_block_goes_on(capture, block);
    reveal(Capture::after_samples);
    assert(start.engine.holds_synced(held, target));
    assert forall|index: nat| index < frames implies #[trigger] run.interval(index)
        == block.beat_of(rate, index) by {}
    let left = block.left;
    let right = block.right;
    let all = crate::guarantees::paired(left, right, frames);
    assert(all =~= block.samples());
    lemma_window_goes_on(start, held, run, left, right, 0, cut, beat);
    assert(crate::guarantees::paired(left, right, cut).skip(0) =~= block.samples().take(
        cut as int,
    ));
    if cut < frames {
        assert(run.interval(cut) == Some(next));
        crate::timing::lemma_fitting_samples(
            crate::timing::window_duration(rate, block.tempo(), block.window),
            capture.engine.capacity_samples,
        );
        lemma_window_opens(start, run, left, right, cut, next);
        let first = seq![(left[cut as int], right[cut as int])];
        lemma_window_goes_on(start, first, run, left, right, (cut + 1), frames, next);
        assert(first + all.skip((cut + 1) as int) =~= block.samples().skip(cut as int));
        let whole = held + block.samples().take(cut as int);
        let before = start.after_synced(run, left, right, cut);
        if whole.len() >= target {
            assert(window_of(whole, target) =~= whole.take(target as int));
        }
    }
}

/// A window is captured from its own beginning only. An engine that captured
/// nothing yet leaves the samples alone until one of them lies at the start of
/// a beat window or is the first past it, and holds the samples from there on.
pub proof fn beat_windows_begin_at_their_beat(
    capture: Capture,
    block: Block,
    target: usize,
    beat: i64,
    cut: nat,
)
    requires
        block.sounds(),
        block.has_tempo(),
        block.has_position(),
        capture.engine == with_nothing_captured(capture.engine),
        block.beat_window(capture.engine) == Some(target),
        aligned_window_start(block.position(), block.window) == block.beat_of(
            capture.engine.sample_rate,
            0,
        ),
        cut <= block.frames(),
        forall|index: nat|
            index < cut ==> {
                &&& #[trigger] block.beat_of(capture.engine.sample_rate, index) == block.beat_of(
                    capture.engine.sample_rate,
                    0,
                )
                &&& block.beat_of(capture.engine.sample_rate, index) matches Some(earlier)
                    && !block.at_start_of(capture.engine.sample_rate, index, earlier)
            },
        forall|index: nat|
            cut <= index < block.frames() ==> #[trigger] block.beat_of(
                capture.engine.sample_rate,
                index,
            ) == Some(beat),
        cut < block.frames() ==> block.at_start_of(capture.engine.sample_rate, cut, beat) || (cut
            > 0 && block.beat_of(capture.engine.sample_rate, 0) != Some(beat)),
    ensures
        ({
            let after = capture.played(block);
            &&& after.publication.completed == capture.publication.completed
            &&& if cut == block.frames() {
                after.engine.synced_interval is None
            } else {
                &&& after.engine.synced_interval == Some(beat)
                &&& after.engine.holds_synced(
                    window_of(block.samples().skip(cut as int), target),
                    target,
                )
            }
        }),
{
    let frames = block.frames();
    let rate = capture.engine.sample_rate;
    let run = block.run(rate, target);
    let start = Capture {
        engine: EngineState { active_window: block.window, ..capture.engine }.with_frames_passed(
            frames,
        ),
        publication: PublicationState {
            selected_window: block.window,
            ..capture.publication
        }.stepped(),
    };
    lemma_transport(block);
    lemma_block_starts(capture, block);
    reveal(Capture::after_samples);
    assert forall|index: nat| index < frames implies #[trigger] run.interval(index)
        == block.beat_of(rate, index) by {}
    let left = block.left;
    let right = block.right;
    assert forall|index: nat| index < cut implies !#[trigger] run.opens_window(index) by {
        assert(run.interval(index) == block.beat_of(rate, index));
        if index > 0 {
            assert(run.interval((index - 1) as nat) == block.beat_of(rate, (index - 1) as nat));
        }
    }
    lemma_nothing_opens(start, run, left, right, cut);
    assert(block.beat_of(rate, 0) == run.interval(0)) by {
        assert(run.interval(0) == block.beat_of(rate, 0));
    }
    if cut < frames {
        assert(run.interval(cut) == block.beat_of(rate, cut));
        if cut > 0 {
            assert(run.interval((cut - 1) as nat) == block.beat_of(rate, (cut - 1) as nat));
        }
        assert(run.opens_window(cut));
        crate::timing::lemma_fitting_samples(
            crate::timing::window_duration(rate, block.tempo(), block.window),
            capture.engine.capacity_samples,
        );
        lemma_window_opens(start, run, left, right, cut, beat);
        let first = seq![(left[cut as int], right[cut as int])];
        lemma_window_goes_on(start, first, run, left, right, (cut + 1), frames, beat);
        let all = crate::guarantees::paired(left, right, frames);
        assert(first + all.skip((cut + 1) as int) =~= block.samples().skip(cut as int));
    } else {
        assert(start.after_synced(run, left, right, frames) == start);
    }
}

/// The samples of a rolling window: the selected beats where a tempo is known
/// and they fit, half a second otherwise.
pub open spec fn rolling_window_of(engine: EngineState, block: Block) -> usize {
    if block.has_tempo() && block.beat_window(engine) is Some {
        block.beat_window(engine)->0
    } else {
        fallback_window_samples(engine.sample_rate, engine.capacity_samples)
    }
}

/// Without a position, windows follow each other without a gap and from block
/// to block: the samples held before and those of the block, cut into windows
/// from the first one on, are completed window by window.
pub proof fn rolling_windows_go_on_from_block_to_block(
    capture: Capture,
    block: Block,
    held: Seq<(Binary32, Binary32)>,
)
    requires
        block.sounds(),
        !block.has_tempo() || !block.has_position(),
        ({
            let target = rolling_window_of(capture.engine, block);
            ||| {
                &&& goes_on(capture.engine, block)
                &&& capture.engine.rolling_target == target
                &&& capture.engine.holds_rolling(held)
                &&& held.len() < target
            }
            ||| {
                &&& capture.engine == with_nothing_captured(capture.engine)
                &&& held.len() == 0
            }
        }),
        capture.publication.completed.revision + (held.len() + block.frames())
            / rolling_window_of(capture.engine, block) as nat <= u64::MAX,
    ensures
        ({
            let target = rolling_window_of(capture.engine, block);
            let after = capture.played(block);
            let mode = if block.has_tempo() {
                SnapshotMode::UnsyncedTempo
            } else {
                SnapshotMode::UnsyncedFallback
            };
            let tempo = if block.has_tempo() {
                Some(block.tempo())
            } else {
                None
            };
            let samples = held + block.samples();
            &&& after.engine.rolling_target == target
            &&& after.engine.holds_rolling(
                crate::guarantees::window_in_progress(samples, target as nat, true),
            )
            &&& crate::guarantees::windows_completed(
                capture.publication.completed,
                after.publication.completed,
                mode,
                block.window,
                tempo,
                target,
                samples,
            )
        }),
{
    let frames = block.frames();
    let target = rolling_window_of(capture.engine, block);
    lemma_transport(block);
    let mode = crate::engine::block_mode(block.transport);
    let tempo = block.transport.validated().tempo_bpm;
    let continued = goes_on(capture.engine, block) && capture.engine.rolling_target == target
        && capture.engine.holds_rolling(held) && held.len() < target;
    let start = Capture {
        engine: EngineState { active_window: block.window, ..capture.engine }.with_frames_passed(
            frames,
        ),
        publication: PublicationState {
            selected_window: block.window,
            ..capture.publication
        }.stepped(),
    };
    if continued {
        lemma_block_goes_on(capture, block);
        assert(start.engine =~= capture.engine.with_frames_passed(frames));
    } else {
        lemma_block_starts(capture, block);
    }
    reveal(Capture::after_samples);
    let ready = Capture {
        engine: start.engine.with_rolling_target(
            mode,
            start.engine.rolling_window(tempo, block.window),
        ),
        ..start
    };
    assert(start.engine.rolling_window(tempo, block.window) == target);
    if block.has_tempo() {
        crate::timing::lemma_fitting_samples(
            crate::timing::window_duration(
                capture.engine.sample_rate,
                block.tempo(),
                block.window,
            ),
            capture.engine.capacity_samples,
        );
    }
    crate::timing::fallbacks_have_samples(
        capture.engine.sample_rate,
        capture.engine.capacity_samples,
    );
    let empty: Seq<(Binary32, Binary32)> = seq![];
    if !continued {
        assert(held =~= empty);
    }
    assert(crate::envelope::gathered(empty, target) == crate::envelope::blank_envelope());
    assert(ready.engine.holds_rolling(held));
    crate::guarantees::rolling_windows_are_back_to_back(
        ready,
        held,
        tempo,
        mode,
        block.window,
        block.left,
        block.right,
        frames,
    );
    crate::guarantees::rolling_windows_hold_their_samples(
        ready,
        held,
        tempo,
        mode,
        block.window,
        block.left,
        block.right,
        frames,
    );
    assert(crate::guarantees::paired(block.left, block.right, frames) =~= block.samples());
}

/// An engine goes on with what it is capturing exactly where nothing interrupts
/// it.
proof fn lemma_goes_on(engine: EngineState, block: Block)
    requires
        engine.active_window == block.window,
    ensures
        goes_on(engine, block) <==> !engine.interrupted_by(block.transport),
{
    reveal(EngineState::interrupted_by);
    lemma_transport(block);
    if block.has_tempo() && engine.last_tempo is Some {
        let last = engine.last_tempo->0;
        let tempo = block.tempo();
        if last.le(tempo) && tempo.le(last) {
            assert(last.bits == tempo.bits);
        }
    }
}

/// A block that the engine cannot go on into is captured as by an engine that
/// captured nothing yet.
pub proof fn blocks_that_do_not_go_on_start_over(capture: Capture, block: Block)
    requires
        !goes_on(capture.engine, block),
    ensures
        capture.played(block) == (Capture {
            engine: with_nothing_captured(capture.engine),
            ..capture
        }).played(block),
{
    assert(with_nothing_captured(capture.engine) == capture.engine.without_partial());
    let start = Capture {
        publication: PublicationState {
            selected_window: block.window,
            ..capture.publication
        }.stepped(),
        ..capture
    };
    if capture.engine.active_window == block.window {
        lemma_goes_on(capture.engine, block);
    }
    crate::guarantees::interruptions_drop_partial_windows(
        start,
        block.left,
        block.right,
        block.transport,
    );
}

/// Samples leave what a preview shows of the window in progress alone, or the
/// window gives way to another one that no preview shows anything of.
proof fn lemma_run_keeps_what_is_shown(
    start: Capture,
    run: SyncedRun,
    left: Seq<Binary32>,
    right: Seq<Binary32>,
    count: nat,
)
    ensures
        ({
            let before = start.engine;
            let after = start.after_synced(run, left, right, count).engine;
            &&& after.previewed_samples == before.previewed_samples || after.previewed_samples == 0
            &&& after.synced_interval != before.synced_interval && before.synced_interval is Some
                ==> after.previewed_samples == 0
            &&& before.synced_interval is None && before.previewed_samples == 0
                ==> after.previewed_samples == 0
        }),
    decreases count,
{
    if count > 0 {
        lemma_run_keeps_what_is_shown(start, run, left, right, (count - 1) as nat);
    }
}

proof fn lemma_rolling_keeps_what_is_shown(
    start: Capture,
    tempo: Option<Binary64>,
    mode: SnapshotMode,
    window: WindowLength,
    left: Seq<Binary32>,
    right: Seq<Binary32>,
    count: nat,
)
    ensures
        ({
            let before = start.engine;
            let after = start.after_rolling(tempo, mode, window, left, right, count).engine;
            after.previewed_samples == before.previewed_samples || after.previewed_samples == 0
        }),
    decreases count,
{
    if count > 0 {
        lemma_rolling_keeps_what_is_shown(
            start,
            tempo,
            mode,
            window,
            left,
            right,
            (count - 1) as nat,
        );
    }
}

proof fn lemma_samples_keep_what_is_shown(start: Capture, block: Block)
    requires
        start.engine.active_window == block.window,
    ensures
        ({
            let before = start.engine;
            let after = start.after_samples(
                block.transport,
                block.window,
                block.left,
                block.right,
                block.frames(),
            ).engine;
            after.previewed_samples == before.previewed_samples || after.previewed_samples == 0
        }),
{
    lemma_transport(block);
    reveal(Capture::after_samples);
    let mode = crate::engine::block_mode(block.transport);
    let valid = block.transport.validated();
    if mode == SnapshotMode::Synced {
        if block.beat_window(start.engine) is Some {
            lemma_run_keeps_what_is_shown(
                start,
                block.run(start.engine.sample_rate, block.beat_window(start.engine)->0),
                block.left,
                block.right,
                block.frames(),
            );
        }
    } else {
        let ready = Capture {
            engine: start.engine.with_rolling_target(
                mode,
                start.engine.rolling_window(valid.tempo_bpm, block.window),
            ),
            ..start
        };
        lemma_rolling_keeps_what_is_shown(
            ready,
            valid.tempo_bpm,
            mode,
            block.window,
            block.left,
            block.right,
            block.frames(),
        );
    }
}

/// The samples captured so far of the window in progress, none where there is
/// no such window.
pub open spec fn captured_so_far(engine: EngineState, block: Block) -> usize {
    if block.has_tempo() && block.has_position() {
        if engine.synced_interval is Some && block.beat_window(engine) is Some {
            engine.synced_len
        } else {
            0
        }
    } else if engine.rolling_target > 0 {
        engine.rolling_len
    } else {
        0
    }
}

/// The frames that a block lets pass make a preview due: there was none yet, or
/// as many frames passed since the last one as the pace asks for.
pub open spec fn due_after(engine: EngineState, block: Block) -> bool {
    engine.frames_since_preview matches Some(passed) ==> passed + block.frames()
        >= crate::timing::live_preview_cadence_samples(engine.sample_rate)
}

/// A preview shows the window in progress as it is after the block: its mode,
/// its window and beat, how far it is captured and its columns as they are
/// drawn.
pub proof fn previews_show_the_window_in_progress(capture: Capture, block: Block)
    requires
        capture.previews(block),
    ensures
        ({
            let after = capture.played(block);
            let engine = after.engine;
            let synced = block.has_tempo() && block.has_position();
            let target = if synced {
                block.beat_window(engine)->0
            } else {
                engine.rolling_target
            };
            let columns = if synced {
                engine.synced_envelope
            } else {
                engine.rolling_envelope
            };
            let count = captured_so_far(engine, block);
            &&& block.sounds()
            &&& after.publication.live
            &&& after.publication.retained matches Some(preview) && {
                &&& preview.mode == if synced {
                    SnapshotMode::Synced
                } else if block.has_tempo() {
                    SnapshotMode::UnsyncedTempo
                } else {
                    SnapshotMode::UnsyncedFallback
                }
                &&& preview.window == block.window
                &&& preview.tempo == if block.has_tempo() {
                    Some(block.tempo().to_single())
                } else {
                    None
                }
                &&& preview.beat_index == if synced {
                    engine.synced_interval
                } else {
                    None
                }
                &&& count > 0 && target > 0
                &&& count <= target && target <= u32::MAX ==> preview.sample_count == count
                    && preview.target_sample_count == target
                &&& preview.envelope.len() == columns.len()
                &&& forall|bin: int|
                    0 <= bin < columns.len() ==> #[trigger] preview.envelope[bin] == if columns[bin].min.le(
                        columns[bin].max,
                    ) {
                        columns[bin]
                    } else {
                        crate::envelope::EnvelopePoint {
                            min: Binary32 { bits: 0 },
                            max: Binary32 { bits: 0 },
                        }
                    }
            }
        }),
{
    lemma_transport(block);
    let frames = block.frames();
    let selected = PublicationState { selected_window: block.window, ..capture.publication };
    let engine = capture.engine.with_frames_passed(frames).with_window_selected(block.window);
    crate::pacing::blocks_preview_only_when_due(capture, block);
    let continued = !engine.interrupted_by(block.transport);
    let ready = Capture {
        engine: if continued {
            engine
        } else {
            engine.without_partial()
        },
        publication: selected.stepped(),
    };
    crate::guarantees::lemma_samples_keep_previews(
        ready,
        block.transport,
        block.window,
        block.left,
        block.right,
        frames,
    );
    reveal(Capture::after_presenting);
}

/// A preview that is due and has more to show than the last one is published;
/// and where none is, the last one stays live only while the engine goes on
/// with a window in progress.
pub proof fn due_previews_are_published(capture: Capture, block: Block)
    requires
        block.sounds(),
    ensures
        ({
            let after = capture.played(block);
            let count = captured_so_far(after.engine, block);
            let continued = goes_on(capture.engine, block);
            let shown = if continued {
                capture.engine.previewed_samples
            } else {
                0
            };
            &&& due_after(capture.engine, block) && count > shown ==> capture.previews(block)
            &&& !due_after(capture.engine, block) || count == 0 ==> !capture.previews(block)
            &&& !capture.previews(block) ==> {
                &&& after.publication.retained == capture.publication.retained
                &&& after.publication.live == (capture.publication.live && continued && count > 0)
            }
        }),
{
    lemma_transport(block);
    let frames = block.frames();
    let selected = PublicationState { selected_window: block.window, ..capture.publication };
    let engine = capture.engine.with_frames_passed(frames).with_window_selected(block.window);
    let continued = !engine.interrupted_by(block.transport);
    let ready = Capture {
        engine: if continued {
            engine
        } else {
            engine.without_partial()
        },
        publication: selected.stepped(),
    };
    if capture.engine.active_window == block.window {
        lemma_goes_on(capture.engine, block);
        assert(engine.interrupted_by(block.transport) == capture.engine.interrupted_by(
            block.transport,
        )) by {
            reveal(EngineState::interrupted_by);
        }
    } else {
        assert(engine.interrupted_by(block.transport)) by {
            reveal(EngineState::interrupted_by);
        }
    }
    assert(continued == goes_on(capture.engine, block));
    crate::guarantees::lemma_samples_keep_previews(
        ready,
        block.transport,
        block.window,
        block.left,
        block.right,
        frames,
    );
    lemma_samples_keep_what_is_shown(ready, block);
    if block.has_tempo() {
        crate::timing::lemma_fitting_samples(
            crate::timing::window_duration(
                capture.engine.sample_rate,
                block.tempo(),
                block.window,
            ),
            capture.engine.capacity_samples,
        );
    }
    reveal(Capture::after_presenting);
}

/// A new engine captures at the sample rate it is given, at one at least, holds
/// one sample at least, and captured nothing yet.
pub proof fn new_engines_captured_nothing(sample_rate: Binary64, capacity: usize)
    ensures
        ({
            let engine = EngineState::fresh(sample_rate, capacity);
            &&& engine == with_nothing_captured(engine)
            &&& engine.frames_since_preview is None
            &&& !engine.last_playing
            &&& engine.last_position is None
            &&& engine.last_tempo is None
            &&& engine.active_window == WindowLength::OneBeat
            &&& Binary64::one().le(sample_rate) ==> engine.sample_rate == sample_rate
            &&& !Binary64::one().le(sample_rate) ==> engine.sample_rate == Binary64::one()
            &&& capacity > 0 ==> engine.capacity_samples == capacity
            &&& capacity == 0 ==> engine.capacity_samples == 1
        }),
{
}

/// A reset forgets what was captured and where the last block ended, and
/// nothing else: no block goes on after it.
pub proof fn resets_forget_what_was_captured(engine: EngineState, block: Block)
    ensures
        ({
            let after = engine.without_partial().without_continuity();
            &&& after == with_nothing_captured(
                EngineState { last_position: None, last_tempo: None, last_playing: false, ..engine },
            )
            &&& !goes_on(after, block)
        }),
{
}

/// Frames are counted from preview to preview, whatever becomes of them, and as
/// far as a machine word can count.
pub proof fn frames_are_counted_between_previews(capture: Capture, block: Block)
    ensures
        ({
            let after = capture.played(block).engine;
            if capture.previews(block) {
                after.frames_since_preview == Some(0usize)
            } else {
                match capture.engine.frames_since_preview {
                    Some(passed) => after.frames_since_preview matches Some(now) && now == if passed
                        + block.frames() > usize::MAX {
                        usize::MAX as int
                    } else {
                        passed + block.frames()
                    },
                    None => after.frames_since_preview is None,
                }
            }
        }),
{
    crate::pacing::blocks_preview_only_when_due(capture, block);
}

/// A window is completed by the first sample of the window right behind it, when
/// it is full by then, and by nothing else: not by samples of its own, not by a
/// leap over a window or back, and not while samples are missing.
pub proof fn windows_complete_into_the_next_one_only(
    start: Capture,
    run: SyncedRun,
    left: Seq<Binary32>,
    right: Seq<Binary32>,
    index: nat,
)
    ensures
        ({
            let before = start.after_synced(run, left, right, index);
            let after = start.after_synced(run, left, right, index + 1);
            let position = run.position.add(Binary64::from_whole(index as u64).mul(run.increment));
            let beat = aligned_window_start(position, run.window);
            let completes = !run.lost_before(index) && beat is Some
                && before.engine.synced_interval is Some && beat->0
                == before.engine.synced_interval->0 + run.window.beats()
                && before.engine.synced_len == run.target;
            &&& completes ==> after.publication.completed.revision
                == crate::publication::following(before.publication.completed.revision)
                && after.publication.completed.beat_index == before.engine.synced_interval
                && after.publication.completed.mode == SnapshotMode::Synced
                && after.publication.completed.window == run.window
            &&& !completes ==> after.publication.completed == before.publication.completed
            &&& beat is None && !run.lost_before(index) ==> after.engine.synced_interval is None
                && after.engine.synced_len == 0
            &&& !run.lost_before(index) && beat is Some && before.engine.synced_interval is Some
                && before.engine.synced_interval != beat ==> after.engine.synced_interval == beat
        }),
{
}

/// A beat window that the capacity does not hold is not captured at all: nothing
/// is completed, nothing is in progress, and nothing is previewed or stays live.
pub proof fn windows_beyond_the_capacity_are_not_captured(capture: Capture, block: Block)
    requires
        block.sounds(),
        block.has_tempo(),
        block.has_position(),
        block.beat_window(capture.engine) is None,
    ensures
        ({
            let after = capture.played(block);
            &&& after.publication.completed == capture.publication.completed
            &&& after.publication.retained == capture.publication.retained
            &&& !after.publication.live
            &&& after.engine.synced_interval is None
            &&& after.engine.synced_len == 0
        }),
{
    lemma_transport(block);
    reveal(Capture::after_samples);
    reveal(Capture::after_presenting);
}

} // verus!
