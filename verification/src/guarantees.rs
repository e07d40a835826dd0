//! What capture and publication guarantee across blocks.

use crate::binary::{Binary32, Binary64};
use crate::engine::{Capture, EngineState, SyncedRun};
use crate::envelope::EnvelopePoint;
use crate::publication::{PreviewState, PublicationState, SnapshotState};
use crate::timing::{tempo_changed, window_samples, TransportInfo};
use crate::window::{SnapshotMode, WindowLength};
use vstd::prelude::*;

verus! {

/// A transaction that was opened is closed again.
proof fn lemma_two_steps_are_idle(state: PublicationState)
    requires
        state.idle(),
    ensures
        state.stepped().stepped().idle(),
        !state.stepped().idle(),
{
}

/// A reader gets back the snapshot that was published, under the next
/// revision, and nothing else has changed for it.
pub proof fn published_snapshots_are_read_back(
    state: PublicationState,
    mode: SnapshotMode,
    window: WindowLength,
    tempo_bpm: Option<Binary64>,
    beat_index: Option<i64>,
    sample_count: usize,
    envelope: Seq<EnvelopePoint>,
)
    requires
        state.idle(),
    ensures
        ({
            let after = state.stepped().with_completed(
                mode,
                window,
                tempo_bpm,
                beat_index,
                sample_count,
                envelope,
            ).stepped();
            let shown = after.presentation();
            &&& after.idle()
            &&& shown.completed == (SnapshotState {
                revision: crate::publication::following(state.completed.revision),
                mode,
                window,
                tempo: crate::publication::single_tempo(tempo_bpm),
                beat_index,
                sample_count: crate::publication::word_count(sample_count),
                envelope: crate::publication::drawn_envelope(envelope),
            })
            &&& shown.retained == state.retained
            &&& shown.live == state.live
            &&& shown.transport == state.transport
            &&& shown.redraw_revision == state.redraw_revision
        }),
{
    lemma_two_steps_are_idle(state);
}

/// A reader gets back the preview that was published, live and with its
/// transport, and the completed snapshot has not changed for it.
pub proof fn published_previews_are_read_back(
    state: PublicationState,
    transport: TransportInfo,
    mode: SnapshotMode,
    window: WindowLength,
    tempo_bpm: Option<Binary64>,
    beat_index: Option<i64>,
    sample_count: usize,
    target_sample_count: usize,
    envelope: Seq<EnvelopePoint>,
)
    requires
        state.idle(),
        0 < sample_count <= target_sample_count,
    ensures
        ({
            let after = state.stepped().with_transport(transport).with_live(
                mode,
                window,
                tempo_bpm,
                beat_index,
                sample_count,
                target_sample_count,
                envelope,
            ).redrawn().stepped();
            let shown = after.presentation();
            &&& after.idle()
            &&& shown.live
            &&& shown.retained == Some(
                PreviewState {
                    revision: state.next_preview_revision(),
                    mode,
                    window,
                    tempo: crate::publication::single_tempo(tempo_bpm),
                    beat_index,
                    sample_count: crate::publication::word_count(sample_count),
                    target_sample_count: crate::publication::word_count(target_sample_count),
                    envelope: crate::publication::drawn_envelope(envelope),
                },
            )
            &&& shown.completed == state.completed
            &&& shown.transport.is_playing == transport.is_playing
            &&& shown.redraw_revision == crate::publication::following(state.redraw_revision)
        }),
{
    lemma_two_steps_are_idle(state);
}

/// Invalidating the live preview leaves the completed snapshot and the last
/// preview on display.
pub proof fn cleared_previews_stay_on_display(state: PublicationState)
    requires
        state.idle(),
    ensures
        ({
            let after = state.stepped().with_live_cleared().redrawn().stepped();
            let shown = after.presentation();
            &&& after.idle()
            &&& !shown.live
            &&& shown.completed == state.completed
            &&& shown.retained == state.retained
            &&& shown.transport == state.transport
        }),
{
    lemma_two_steps_are_idle(state);
}

/// The publication between two transactions keeps what only the editor and the
/// host set.
pub open spec fn settings_kept(before: PublicationState, after: PublicationState) -> bool {
    &&& after.sequence == before.sequence
    &&& after.selected_window == before.selected_window
    &&& after.sample_rate == before.sample_rate
}

/// Samples change nothing of a publication but the completed snapshot.
pub open spec fn only_completed_changes(before: PublicationState, after: PublicationState) -> bool {
    after == (PublicationState { completed: after.completed, ..before })
}

/// A completed snapshot is one that a run has filled to the last sample.
pub open spec fn is_full_window(
    snapshot: SnapshotState,
    mode: SnapshotMode,
    window: WindowLength,
    tempo: Option<Binary64>,
    target: usize,
) -> bool {
    exists|samples: Seq<(Binary32, Binary32)>| #[trigger]
        is_window_of(snapshot, mode, window, tempo, target, samples)
}

/// A completed snapshot is the envelope of exactly these samples.
pub open spec fn is_window_of(
    snapshot: SnapshotState,
    mode: SnapshotMode,
    window: WindowLength,
    tempo: Option<Binary64>,
    target: usize,
    samples: Seq<(Binary32, Binary32)>,
) -> bool {
    &&& samples.len() == target
    &&& snapshot.mode == mode
    &&& snapshot.window == window
    &&& snapshot.tempo == crate::publication::single_tempo(tempo)
    &&& snapshot.sample_count == crate::publication::word_count(target)
    &&& snapshot.envelope == crate::publication::drawn_envelope(
        crate::envelope::gathered(samples, target),
    )
}

impl EngineState {
    /// The beat window in progress holds exactly these samples.
    pub open spec fn holds_synced(self, samples: Seq<(Binary32, Binary32)>, target: usize) -> bool {
        &&& self.synced_len == samples.len()
        &&& samples.len() <= target
        &&& self.synced_envelope == crate::envelope::gathered(samples, target)
    }

    /// The rolling window in progress holds exactly these samples.
    pub open spec fn holds_rolling(self, samples: Seq<(Binary32, Binary32)>) -> bool {
        &&& self.rolling_len == samples.len()
        &&& samples.len() <= self.rolling_target
        &&& self.rolling_envelope == crate::envelope::gathered(samples, self.rolling_target)
    }
}

/// The samples in the beat window in progress after `count` samples of a run
/// that started with `held`: those since the window was opened.
pub open spec fn synced_samples(
    start: Capture,
    held: Seq<(Binary32, Binary32)>,
    run: SyncedRun,
    left: Seq<Binary32>,
    right: Seq<Binary32>,
    count: nat,
) -> Seq<(Binary32, Binary32)>
    decreases count,
{
    if count == 0 {
        held
    } else {
        let index = (count - 1) as nat;
        let samples = synced_samples(start, held, run, left, right, index);
        let interval = run.interval(index)->0;
        let before = start.after_synced(run, left, right, index);
        let changed = before.with_window_changed(run, index, interval);
        let kept = if changed.engine.synced_interval == before.engine.synced_interval {
            samples
        } else {
            seq![]
        };
        if changed.engine.synced_interval == Some(interval) && kept.len() < run.target {
            kept.push((left[index as int], right[index as int]))
        } else {
            kept
        }
    }
}

/// A run that left the range of beats holds no window.
proof fn lemma_lost_runs_hold_nothing(
    start: Capture,
    run: SyncedRun,
    left: Seq<Binary32>,
    right: Seq<Binary32>,
    count: nat,
)
    requires
        run.lost_before(count),
    ensures
        start.after_synced(run, left, right, count).engine.synced_interval is None,
    decreases count,
{
    let index = (count - 1) as nat;
    if run.lost_before(index) {
        lemma_lost_runs_hold_nothing(start, run, left, right, index);
    } else {
        let at = choose|at: nat| at < count && (#[trigger] run.interval(at)) is None;
        assert(at == index);
    }
}

/// The beat window in progress holds the samples captured since it was opened,
/// and a snapshot that was completed on the way is the envelope of a window
/// that was full.
pub proof fn synced_windows_hold_their_samples(
    start: Capture,
    held: Seq<(Binary32, Binary32)>,
    run: SyncedRun,
    left: Seq<Binary32>,
    right: Seq<Binary32>,
    count: nat,
)
    requires
        start.engine.synced_interval is Some ==> start.engine.holds_synced(held, run.target),
    ensures
        ({
            let after = start.after_synced(run, left, right, count);
            &&& after.engine.synced_interval is Some ==> after.engine.holds_synced(
                synced_samples(start, held, run, left, right, count),
                run.target,
            )
            &&& only_completed_changes(start.publication, after.publication)
            &&& after.publication.completed == start.publication.completed || is_full_window(
                after.publication.completed,
                SnapshotMode::Synced,
                run.window,
                Some(run.tempo),
                run.target,
            )
        }),
    decreases count,
{
    if count > 0 {
        let index = (count - 1) as nat;
        synced_windows_hold_their_samples(start, held, run, left, right, index);
        if run.lost_before(index) {
            lemma_lost_runs_hold_nothing(start, run, left, right, index);
        }
        let samples = synced_samples(start, held, run, left, right, index);
        let before = start.after_synced(run, left, right, index);
        let interval = run.interval(index)->0;
        let changed = before.with_window_changed(run, index, interval);
        let empty: Seq<(Binary32, Binary32)> = seq![];
        assert(crate::envelope::gathered(empty, run.target) == crate::envelope::blank_envelope());
        let kept = if changed.engine.synced_interval == before.engine.synced_interval {
            samples
        } else {
            empty
        };
        assert(changed.engine.synced_interval is Some ==> changed.engine.holds_synced(
            kept,
            run.target,
        ));
        let sample = (left[index as int], right[index as int]);
        assert(kept.push(sample).drop_last() =~= kept);
        assert(kept.push(sample).last() == sample);
        if changed.publication.completed != before.publication.completed {
            assert(is_window_of(
                changed.publication.completed,
                SnapshotMode::Synced,
                run.window,
                Some(run.tempo),
                run.target,
                samples,
            ));
        }
    }
}

/// The samples in the rolling window in progress after `count` samples that
/// started with `held`: a full window gives way to a new one.
pub open spec fn rolling_samples(
    held: Seq<(Binary32, Binary32)>,
    target: usize,
    left: Seq<Binary32>,
    right: Seq<Binary32>,
    count: nat,
) -> Seq<(Binary32, Binary32)>
    decreases count,
{
    if count == 0 {
        held
    } else {
        let index = (count - 1) as nat;
        let before = rolling_samples(held, target, left, right, index);
        let kept = if before.len() >= target {
            seq![]
        } else {
            before
        };
        kept.push((left[index as int], right[index as int]))
    }
}

/// One more sample in a rolling window.
proof fn lemma_rolling_step(
    engine: EngineState,
    samples: Seq<(Binary32, Binary32)>,
    sample: (Binary32, Binary32),
)
    requires
        engine.rolling_target > 0,
        engine.holds_rolling(samples),
    ensures
        ({
            let kept = if samples.len() >= engine.rolling_target {
                seq![]
            } else {
                samples
            };
            let after = engine.with_rolling_sample(sample.0, sample.1);
            &&& after.holds_rolling(kept.push(sample))
            &&& after.rolling_target == engine.rolling_target
        }),
{
    let empty: Seq<(Binary32, Binary32)> = seq![];
    let kept = if samples.len() >= engine.rolling_target {
        empty
    } else {
        samples
    };
    assert(crate::envelope::gathered(empty, engine.rolling_target)
        == crate::envelope::blank_envelope());
    assert(kept.push(sample).drop_last() =~= kept);
    assert(kept.push(sample).last() == sample);
}

/// The rolling window in progress holds the samples captured since the last
/// one was full, and a snapshot that was completed on the way is the envelope
/// of a window that was full.
pub proof fn rolling_windows_hold_their_samples(
    start: Capture,
    held: Seq<(Binary32, Binary32)>,
    tempo: Option<Binary64>,
    mode: SnapshotMode,
    window: WindowLength,
    left: Seq<Binary32>,
    right: Seq<Binary32>,
    count: nat,
)
    requires
        start.engine.rolling_target > 0,
        start.engine.holds_rolling(held),
    ensures
        ({
            let target = start.engine.rolling_target;
            let after = start.after_rolling(tempo, mode, window, left, right, count);
            &&& after.engine.rolling_target == target
            &&& after.engine.holds_rolling(rolling_samples(held, target, left, right, count))
            &&& only_completed_changes(start.publication, after.publication)
            &&& after.publication.completed == start.publication.completed || is_full_window(
                after.publication.completed,
                mode,
                window,
                tempo,
                target,
            )
        }),
    decreases count,
{
    if count > 0 {
        let index = (count - 1) as nat;
        let target = start.engine.rolling_target;
        rolling_windows_hold_their_samples(
            start,
            held,
            tempo,
            mode,
            window,
            left,
            right,
            index,
        );
        let before = start.after_rolling(tempo, mode, window, left, right, index);
        let samples = rolling_samples(held, target, left, right, index);
        let sample = (left[index as int], right[index as int]);
        let kept = if samples.len() >= target {
            seq![]
        } else {
            samples
        };
        lemma_rolling_step(before.engine, samples, sample);
        let after = start.after_rolling(tempo, mode, window, left, right, count);
        assert(after.engine == before.engine.with_rolling_sample(sample.0, sample.1));
        assert(after.engine.holds_rolling(kept.push(sample)));
        if after.engine.rolling_len == target {
            assert(is_window_of(
                after.publication.completed,
                mode,
                window,
                tempo,
                target,
                kept.push(sample),
            ));
        }
    }
}

/// The samples of a block, both channels together.
pub open spec fn paired(left: Seq<Binary32>, right: Seq<Binary32>, count: nat) -> Seq<
    (Binary32, Binary32),
> {
    Seq::new(count, |at: int| (left[at], right[at]))
}

/// How one more sample changes the full windows and the rest.
proof fn lemma_one_more(total: nat, size: nat)
    requires
        size > 0,
    ensures
        ({
            let full = total / size;
            let rest = total % size;
            &&& total == full * size + rest
            &&& rest < size
            &&& (total + 1) / size == if rest + 1 == size {
                full + 1
            } else {
                full
            }
            &&& (total + 1) % size == if rest + 1 == size {
                0
            } else {
                rest + 1
            }
        }),
{
    let full = (total / size) as int;
    let rest = (total % size) as int;
    vstd::arithmetic::div_mod::lemma_fundamental_div_mod(total as int, size as int);
    vstd::arithmetic::div_mod::lemma_mod_bound(total as int, size as int);
    assert(size * full == full * size) by (nonlinear_arith);
    if rest + 1 == size {
        assert(total + 1 == (full + 1) * size) by (nonlinear_arith)
            requires
                total == full * size + rest,
                rest + 1 == size,
        ;
        vstd::arithmetic::div_mod::lemma_fundamental_div_mod_converse(
            (total + 1) as int,
            size as int,
            full + 1,
            0,
        );
    } else {
        vstd::arithmetic::div_mod::lemma_fundamental_div_mod_converse(
            (total + 1) as int,
            size as int,
            full,
            rest + 1,
        );
    }
}

/// The samples of the window in progress after these samples, cut into windows
/// of `size` from the first one on: the rest, or the last full window while
/// nothing came after it.
pub open spec fn window_in_progress(
    samples: Seq<(Binary32, Binary32)>,
    size: nat,
    grown: bool,
) -> Seq<(Binary32, Binary32)> {
    if grown && samples.len() % size == 0 {
        samples.skip(samples.len() - size)
    } else {
        samples.skip(((samples.len() / size) * size) as int)
    }
}

proof fn lemma_window_in_progress(
    earlier: Seq<(Binary32, Binary32)>,
    sample: (Binary32, Binary32),
    size: nat,
    grown: bool,
)
    requires
        size > 0,
        grown ==> earlier.len() > 0,
        !grown ==> earlier.len() < size,
    ensures
        ({
            let inside = window_in_progress(earlier, size, grown);
            let samples = earlier.push(sample);
            let full = earlier.len() / size;
            let base = (full * size) as int;
            let kept = if inside.len() >= size {
                seq![]
            } else {
                inside
            };
            &&& base <= earlier.len()
            &&& kept.push(sample) == samples.skip(base)
            &&& kept.push(sample) == window_in_progress(samples, size, true)
            &&& kept.push(sample).len() == size <==> earlier.len() % size + 1 == size
        }),
{
    let full = earlier.len() / size;
    let rest = earlier.len() % size;
    let base = (full * size) as int;
    let samples = earlier.push(sample);
    lemma_one_more(earlier.len(), size);
    if grown && rest == 0 {
        if full == 0 {
            assert(0 * size == 0) by (nonlinear_arith);
        }
        assert(base >= size) by (nonlinear_arith)
            requires
                base == full * size,
                full > 0,
        ;
    }
    assert((full + 1) * size == base + size) by (nonlinear_arith)
        requires
            base == full * size,
    ;
    let inside = window_in_progress(earlier, size, grown);
    let empty: Seq<(Binary32, Binary32)> = seq![];
    let kept = if inside.len() >= size {
        empty
    } else {
        inside
    };
    assert(kept.push(sample) =~= samples.skip(base));
}

/// What was completed of samples that are cut into windows of `size` from the
/// first one on: every full window was counted, and the last of them is the
/// last completed snapshot.
pub open spec fn windows_completed(
    first: SnapshotState,
    last: SnapshotState,
    mode: SnapshotMode,
    window: WindowLength,
    tempo: Option<Binary64>,
    target: usize,
    samples: Seq<(Binary32, Binary32)>,
) -> bool {
    let size = target as nat;
    let full = samples.len() / size;
    &&& last.revision == first.revision + full
    &&& if full > 0 {
        is_window_of(
            last,
            mode,
            window,
            tempo,
            target,
            samples.subrange((full - 1) * size, (full * size) as int),
        )
    } else {
        last == first
    }
}

proof fn lemma_windows_completed(
    first: SnapshotState,
    before: SnapshotState,
    after: SnapshotState,
    mode: SnapshotMode,
    window: WindowLength,
    tempo: Option<Binary64>,
    target: usize,
    earlier: Seq<(Binary32, Binary32)>,
    sample: (Binary32, Binary32),
)
    requires
        target > 0,
        first.revision + (earlier.len() + 1) / target as nat <= u64::MAX,
        windows_completed(first, before, mode, window, tempo, target, earlier),
        ({
            let size = target as nat;
            let base = ((earlier.len() / size) * size) as int;
            if earlier.len() % size + 1 == size {
                &&& after.revision == crate::publication::following(before.revision)
                &&& is_window_of(
                    after,
                    mode,
                    window,
                    tempo,
                    target,
                    earlier.push(sample).skip(base),
                )
            } else {
                after == before
            }
        }),
    ensures
        windows_completed(first, after, mode, window, tempo, target, earlier.push(sample)),
{
    let size = target as nat;
    let full = earlier.len() / size;
    let base = (full * size) as int;
    let samples = earlier.push(sample);
    lemma_one_more(earlier.len(), size);
    if earlier.len() % size + 1 == size {
        assert((full + 1) * size == base + size) by (nonlinear_arith)
            requires
                base == full * size,
        ;
        assert(((full + 1) - 1) * size == base) by (nonlinear_arith)
            requires
                base == full * size,
        ;
        assert(samples.subrange(base, base + size) =~= samples.skip(base));
    } else if full > 0 {
        assert(samples.drop_last() =~= earlier);
        lemma_last_window_is_inside(samples, earlier, full, size, full * size);
    }
}

/// Rolling windows follow each other without a gap: the samples held at first
/// and those of the run, cut into windows from the first one on, are completed
/// window by window, and the window in progress holds what is left of them.
pub proof fn rolling_windows_are_back_to_back(
    start: Capture,
    held: Seq<(Binary32, Binary32)>,
    tempo: Option<Binary64>,
    mode: SnapshotMode,
    window: WindowLength,
    left: Seq<Binary32>,
    right: Seq<Binary32>,
    count: nat,
)
    requires
        start.engine.holds_rolling(held),
        held.len() < start.engine.rolling_target,
        start.publication.completed.revision + (held.len() + count)
            / start.engine.rolling_target as nat <= u64::MAX,
    ensures
        ({
            let target = start.engine.rolling_target;
            let samples = held + paired(left, right, count);
            let after = start.after_rolling(tempo, mode, window, left, right, count);
            &&& after.engine.holds_rolling(window_in_progress(samples, target as nat, count > 0))
            &&& windows_completed(
                start.publication.completed,
                after.publication.completed,
                mode,
                window,
                tempo,
                target,
                samples,
            )
        }),
    decreases count,
{
    let target = start.engine.rolling_target;
    let size = target as nat;
    let samples = held + paired(left, right, count);
    if count == 0 {
        vstd::arithmetic::div_mod::lemma_basic_div(held.len() as int, size as int);
        assert(0 * size == 0) by (nonlinear_arith);
        assert(samples.skip(0) =~= held);
    } else {
        let index = (count - 1) as nat;
        let earlier = held + paired(left, right, index);
        let sample = (left[index as int], right[index as int]);
        lemma_one_more(earlier.len(), size);
        assert(earlier.push(sample) =~= samples);
        rolling_windows_are_back_to_back(start, held, tempo, mode, window, left, right, index);
        rolling_windows_hold_their_samples(start, held, tempo, mode, window, left, right, index);
        let before = start.after_rolling(tempo, mode, window, left, right, index);
        let after = start.after_rolling(tempo, mode, window, left, right, count);
        let inside = window_in_progress(earlier, size, index > 0);
        lemma_rolling_step(before.engine, inside, sample);
        lemma_window_in_progress(earlier, sample, size, index > 0);
        assert(after.engine == before.engine.with_rolling_sample(sample.0, sample.1));
        lemma_windows_completed(
            start.publication.completed,
            before.publication.completed,
            after.publication.completed,
            mode,
            window,
            tempo,
            target,
            earlier,
            sample,
        );
    }
}

/// The last full window lies in the samples before the last one already.
proof fn lemma_last_window_is_inside(
    samples: Seq<(Binary32, Binary32)>,
    earlier: Seq<(Binary32, Binary32)>,
    windows: nat,
    size: nat,
    base: nat,
)
    requires
        windows > 0,
        base == windows * size,
        earlier.len() >= base,
        samples.len() == earlier.len() + 1,
        samples.drop_last() =~= earlier,
    ensures
        samples.subrange(((windows - 1) * size) as int, (windows * size) as int)
            == earlier.subrange(((windows - 1) * size) as int, (windows * size) as int),
{
    let low = (windows - 1) * size;
    assert(0 <= low <= base) by (nonlinear_arith)
        requires
            low == (windows - 1) * size,
            base == windows * size,
            windows > 0,
    ;
    assert(samples.subrange(low as int, base as int) =~= earlier.subrange(low as int, base as int))
        by {
        assert forall|at: int| low <= at < base implies samples[at] == earlier[at] by {
            assert(samples.drop_last()[at] == samples[at]);
        }
    }
}

impl EngineState {
    /// The samples in a window that the engine captures.
    pub open spec fn block_target(
        self,
        mode: SnapshotMode,
        tempo: Option<Binary64>,
        window: WindowLength,
    ) -> Option<usize> {
        if mode == SnapshotMode::Synced {
            window_samples(self.sample_rate, tempo->0, window, self.capacity_samples)
        } else {
            Some(self.rolling_window(tempo, window))
        }
    }

    /// Whatever window is in progress holds samples of the current run only.
    pub open spec fn consistent(self) -> bool {
        match self.capture_mode {
            None => self == self.without_partial(),
            Some(SnapshotMode::Synced) => {
                &&& self.last_tempo matches Some(tempo) && crate::timing::tempo_in_range(tempo)
                &&& self.synced_interval is Some ==> {
                    &&& self.block_target(
                        SnapshotMode::Synced,
                        self.last_tempo,
                        self.active_window,
                    ) is Some
                    &&& exists|samples: Seq<(Binary32, Binary32)>| #[trigger]
                        self.holds_synced(
                            samples,
                            self.block_target(
                                SnapshotMode::Synced,
                                self.last_tempo,
                                self.active_window,
                            )->0,
                        )
                }
            },
            Some(_) => {
                &&& self.rolling_target > 0
                &&& exists|samples: Seq<(Binary32, Binary32)>| #[trigger]
                    self.holds_rolling(samples)
            },
        }
    }
}

/// A new engine has nothing in progress, and no preview is taken for its own.
pub proof fn fresh_engines_are_consistent(
    sample_rate: Binary64,
    capacity: usize,
    publication: PublicationState,
)
    ensures
        EngineState::fresh(sample_rate, capacity).consistent(),
        (Capture { engine: EngineState::fresh(sample_rate, capacity), publication }).labelled(),
{
}

/// Neither has an engine after a reset.
pub proof fn reset_engines_are_consistent(engine: EngineState, publication: PublicationState)
    ensures
        ({
            let reset = engine.without_partial().without_continuity();
            &&& reset.consistent()
            &&& (Capture { engine: reset, publication }).labelled()
        }),
{
}

/// Two tempos that compare equal and are in range are the same.
proof fn lemma_same_tempo(previous: Option<Binary64>, current: Option<Binary64>)
    requires
        !tempo_changed(previous, current),
        current matches Some(tempo) && crate::timing::tempo_in_range(tempo),
    ensures
        previous == current,
{
    let one = previous->0;
    let other = current->0;
    assert(one.bits == other.bits);
}

/// What the samples of a beat-synced block leave behind.
proof fn lemma_synced_block(
    start: Capture,
    position: Binary64,
    tempo: Binary64,
    window: WindowLength,
    left: Seq<Binary32>,
    right: Seq<Binary32>,
    frames: nat,
)
    requires
        ({
            let target = start.engine.block_target(SnapshotMode::Synced, Some(tempo), window);
            start.engine.synced_interval is Some ==> target is Some && exists|
                samples: Seq<(Binary32, Binary32)>,
            | #[trigger] start.engine.holds_synced(samples, target->0)
        }),
    ensures
        ({
            let target = start.engine.block_target(SnapshotMode::Synced, Some(tempo), window);
            let after = start.after_synced_block(position, tempo, window, left, right, frames);
            &&& after.engine.synced_interval is Some ==> target is Some && exists|
                samples: Seq<(Binary32, Binary32)>,
            | #[trigger] after.engine.holds_synced(samples, target->0)
            &&& only_completed_changes(start.publication, after.publication)
            &&& after.publication.completed == start.publication.completed || (target is Some
                && is_full_window(
                after.publication.completed,
                SnapshotMode::Synced,
                window,
                Some(tempo),
                target->0,
            ))
            &&& same_setup(start.engine, after.engine)
        }),
{
    let target = start.engine.block_target(SnapshotMode::Synced, Some(tempo), window);
    if target is Some {
        let run = SyncedRun {
            position,
            tempo,
            window,
            increment: start.engine.beats_per_sample(tempo),
            target: target->0,
        };
        if crate::timing::aligned_window_start(position, window) is Some {
            let held = if start.engine.synced_interval is Some {
                choose|samples: Seq<(Binary32, Binary32)>| #[trigger]
                    start.engine.holds_synced(samples, target->0)
            } else {
                seq![]
            };
            synced_windows_hold_their_samples(start, held, run, left, right, frames);
            lemma_setup_stays(start, run, left, right, frames);
        }
    }
}

/// The parts of an engine that samples do not change.
pub open spec fn same_setup(before: EngineState, after: EngineState) -> bool {
    &&& after.sample_rate == before.sample_rate
    &&& after.capacity_samples == before.capacity_samples
    &&& after.active_window == before.active_window
    &&& after.last_position == before.last_position
    &&& after.last_tempo == before.last_tempo
    &&& after.last_playing == before.last_playing
}

proof fn lemma_setup_stays(
    start: Capture,
    run: SyncedRun,
    left: Seq<Binary32>,
    right: Seq<Binary32>,
    count: nat,
)
    ensures
        same_setup(start.engine, start.after_synced(run, left, right, count).engine),
    decreases count,
{
    if count > 0 {
        lemma_setup_stays(start, run, left, right, (count - 1) as nat);
    }
}

proof fn lemma_rolling_setup_stays(
    start: Capture,
    tempo: Option<Binary64>,
    mode: SnapshotMode,
    window: WindowLength,
    left: Seq<Binary32>,
    right: Seq<Binary32>,
    count: nat,
)
    ensures
        same_setup(
            start.engine,
            start.after_rolling(tempo, mode, window, left, right, count).engine,
        ),
    decreases count,
{
    if count > 0 {
        lemma_rolling_setup_stays(start, tempo, mode, window, left, right, (count - 1) as nat);
    }
}

/// What the samples of a rolling block leave behind.
proof fn lemma_rolling_block(
    start: Capture,
    tempo: Option<Binary64>,
    mode: SnapshotMode,
    window: WindowLength,
    left: Seq<Binary32>,
    right: Seq<Binary32>,
    frames: nat,
)
    requires
        start.engine.capture_mode == Some(mode) ==> exists|samples: Seq<(Binary32, Binary32)>|
            #[trigger] start.engine.holds_rolling(samples),
    ensures
        ({
            let target = start.engine.rolling_window(tempo, window);
            let after = start.after_rolling_block(tempo, mode, window, left, right, frames);
            &&& after.engine.rolling_target == target > 0
            &&& exists|samples: Seq<(Binary32, Binary32)>| #[trigger]
                after.engine.holds_rolling(samples)
            &&& only_completed_changes(start.publication, after.publication)
            &&& after.publication.completed == start.publication.completed || is_full_window(
                after.publication.completed,
                mode,
                window,
                tempo,
                target,
            )
            &&& same_setup(start.engine, after.engine)
        }),
{
    let target = start.engine.rolling_window(tempo, window);
    lemma_rolling_window_is_positive(start.engine, tempo, window);
    let ready = Capture {
        engine: start.engine.with_rolling_target(mode, target),
        publication: start.publication,
    };
    let empty: Seq<(Binary32, Binary32)> = seq![];
    assert(crate::envelope::gathered(empty, target) == crate::envelope::blank_envelope());
    let held = if start.engine.capture_mode == Some(mode) && start.engine.rolling_target
        == target {
        choose|samples: Seq<(Binary32, Binary32)>| #[trigger] start.engine.holds_rolling(samples)
    } else {
        empty
    };
    assert(ready.engine.holds_rolling(held));
    rolling_windows_hold_their_samples(ready, held, tempo, mode, window, left, right, frames);
    lemma_rolling_setup_stays(ready, tempo, mode, window, left, right, frames);
    let after = ready.after_rolling(tempo, mode, window, left, right, frames);
    assert(after.engine.holds_rolling(rolling_samples(held, target, left, right, frames)));
}

/// A rolling window has at least one sample.
proof fn lemma_rolling_window_is_positive(
    engine: EngineState,
    tempo: Option<Binary64>,
    window: WindowLength,
)
    ensures
        engine.rolling_window(tempo, window) > 0,
{
    let rate = engine.sample_rate;
    let capacity = engine.capacity_samples;
    if let Some(tempo) = tempo {
        crate::timing::lemma_fitting_samples(
            crate::timing::window_duration(rate, tempo, window),
            capacity,
        );
    }
    crate::timing::lemma_fitting_samples(
        rate.mul(Binary64::from_bits(crate::timing::FALLBACK_WINDOW_SECONDS)).ceil().max(
            Binary64::one(),
        ),
        capacity,
    );
}

/// Presenting a block changes neither the completed snapshot nor a window in
/// progress.
proof fn lemma_presenting_keeps_windows(
    capture: Capture,
    transport: TransportInfo,
    window: WindowLength,
    continued: bool,
)
    ensures
        ({
            let after = capture.after_presenting(transport, window, continued);
            &&& after.publication.completed == capture.publication.completed
            &&& settings_kept(capture.publication, after.publication)
            &&& after.publication.redraw_revision == crate::publication::following(
                capture.publication.redraw_revision,
            )
            &&& after.publication.transport == capture.publication.with_transport(
                transport.validated(),
            ).transport
            &&& after.engine == (EngineState {
                frames_since_preview: after.engine.frames_since_preview,
                previewed_samples: after.engine.previewed_samples,
                ..capture.engine
            })
        }),
{
    reveal(Capture::after_presenting);
}

/// Frames that pass leave the windows in progress alone.
proof fn lemma_frames_keep_windows(engine: EngineState, frames: nat)
    requires
        engine.consistent(),
    ensures
        engine.with_frames_passed(frames).consistent(),
{
    let after = engine.with_frames_passed(frames);
    match engine.capture_mode {
        None => {},
        Some(SnapshotMode::Synced) => {
            if engine.synced_interval is Some {
                let target = engine.block_target(
                    SnapshotMode::Synced,
                    engine.last_tempo,
                    engine.active_window,
                )->0;
                let samples = choose|samples: Seq<(Binary32, Binary32)>| #[trigger]
                    engine.holds_synced(samples, target);
                assert(after.holds_synced(samples, target));
            }
        },
        Some(_) => {
            let samples = choose|samples: Seq<(Binary32, Binary32)>| #[trigger]
                engine.holds_rolling(samples);
            assert(after.holds_rolling(samples));
        },
    }
}

/// A block completes a snapshot only with a full window: the envelope of
/// exactly as many samples as the window has, captured in the mode, with the
/// window and at the tempo of the block. It presents its transport and asks for
/// one redraw. What is in progress afterwards holds samples of the same run
/// only, so this goes on from block to block.
pub proof fn blocks_complete_only_full_windows(
    capture: Capture,
    left: Seq<Binary32>,
    right: Seq<Binary32>,
    transport: TransportInfo,
)
    requires
        capture.engine.consistent(),
    ensures
        ({
            let after = capture.after_block(left, right, transport);
            let tempo = transport.validated().tempo_bpm;
            let mode = crate::engine::block_mode(transport);
            let window = capture.publication.selected_window;
            let target = capture.engine.block_target(mode, tempo, window);
            &&& after.engine.consistent()
            &&& settings_kept(capture.publication, after.publication)
            &&& after.publication.redraw_revision == crate::publication::following(
                capture.publication.redraw_revision,
            )
            &&& after.publication.transport == capture.publication.with_transport(
                transport.validated(),
            ).transport
            &&& after.publication.completed == capture.publication.completed || (target is Some
                && is_full_window(
                after.publication.completed,
                mode,
                window,
                tempo,
                target->0,
            ))
        }),
{
    let valid = transport.validated();
    let tempo = valid.tempo_bpm;
    let mode = crate::engine::block_mode(transport);
    let window = capture.publication.selected_window;
    let frames = if left.len() < right.len() {
        left.len()
    } else {
        right.len()
    };
    let selected = capture.engine.with_frames_passed(frames).with_window_selected(window);
    if transport.is_playing && frames > 0 {
        reveal(EngineState::interrupted_by);
        let interrupted = selected.interrupted_by(transport);
        let ready = Capture {
            engine: if interrupted {
                selected.without_partial()
            } else {
                selected
            },
            publication: capture.publication,
        };
        if !interrupted {
            assert(selected == capture.engine.with_frames_passed(frames));
            lemma_frames_keep_windows(capture.engine, frames);
        }
        assert(ready.engine.active_window == window);
        let captured = ready.after_samples(transport, window, left, right, frames);
        reveal(Capture::after_samples);
        lemma_presenting_keeps_windows(captured, transport, window, !interrupted);
        let presented = captured.after_presenting(transport, window, !interrupted);
        let after = capture.after_block(left, right, transport);
        let target = capture.engine.block_target(mode, tempo, window);
        assert(ready.engine.block_target(mode, tempo, window) == target);
        if mode == SnapshotMode::Synced {
            if !interrupted {
                lemma_same_tempo(capture.engine.last_tempo, tempo);
            }
            lemma_synced_block(
                ready,
                valid.song_pos_beats->0,
                tempo->0,
                window,
                left,
                right,
                frames,
            );
            if captured.engine.synced_interval is Some {
                let samples = choose|samples: Seq<(Binary32, Binary32)>| #[trigger]
                    captured.engine.holds_synced(samples, target->0);
                assert(after.engine.holds_synced(samples, target->0));
            }
            assert(after.engine.block_target(mode, after.engine.last_tempo, window) == target);
        } else {
            lemma_rolling_block(ready, tempo, mode, window, left, right, frames);
            let samples = choose|samples: Seq<(Binary32, Binary32)>| #[trigger]
                captured.engine.holds_rolling(samples);
            assert(after.engine.holds_rolling(samples));
        }
    }
}

/// A block that does not play gives up what is in progress and leaves every
/// waveform on display.
pub proof fn stopped_blocks_keep_waveforms(
    capture: Capture,
    left: Seq<Binary32>,
    right: Seq<Binary32>,
    transport: TransportInfo,
)
    requires
        !transport.is_playing || left.len() == 0 || right.len() == 0,
    ensures
        ({
            let after = capture.after_block(left, right, transport);
            &&& after.publication.completed == capture.publication.completed
            &&& after.publication.retained == capture.publication.retained
            &&& !after.publication.live
            &&& after.engine == after.engine.without_partial()
            &&& !after.engine.last_playing
        }),
{
}

/// After a stop, a seek, a change of tempo, mode or window, nothing captured
/// before has any part in what is published: a block acts as on an engine with
/// nothing in progress.
pub proof fn interruptions_drop_partial_windows(
    capture: Capture,
    left: Seq<Binary32>,
    right: Seq<Binary32>,
    transport: TransportInfo,
)
    requires
        capture.engine.active_window != capture.publication.selected_window
            || capture.engine.interrupted_by(transport),
    ensures
        capture.after_block(left, right, transport) == (Capture {
            engine: capture.engine.without_partial(),
            ..capture
        }).after_block(left, right, transport),
{
    reveal(EngineState::interrupted_by);
    let window = capture.publication.selected_window;
    let frames = if left.len() < right.len() {
        left.len()
    } else {
        right.len()
    };
    let forgetful = capture.engine.without_partial();
    let selected = capture.engine.with_frames_passed(frames).with_window_selected(window);
    let other = forgetful.with_frames_passed(frames).with_window_selected(window);
    assert(selected.without_partial() =~= other.without_partial());
    assert(selected.interrupted_by(transport));
    assert(other.interrupted_by(transport));
}

impl Capture {
    /// The live preview carries the mode and the window that are being
    /// captured.
    pub open spec fn labelled(self) -> bool {
        self.publication.live && self.engine.capture_mode is Some ==> {
            &&& self.publication.retained matches Some(preview)
                && self.engine.capture_mode == Some(preview.mode)
                && self.engine.active_window == preview.window
        }
    }
}

proof fn lemma_run_keeps_previews(
    start: Capture,
    run: SyncedRun,
    left: Seq<Binary32>,
    right: Seq<Binary32>,
    count: nat,
)
    ensures
        ({
            let after = start.after_synced(run, left, right, count);
            &&& only_completed_changes(start.publication, after.publication)
            &&& after.engine.frames_since_preview == start.engine.frames_since_preview
        }),
    decreases count,
{
    if count > 0 {
        lemma_run_keeps_previews(start, run, left, right, (count - 1) as nat);
    }
}

proof fn lemma_rolling_keeps_previews(
    start: Capture,
    tempo: Option<Binary64>,
    mode: SnapshotMode,
    window: WindowLength,
    left: Seq<Binary32>,
    right: Seq<Binary32>,
    count: nat,
)
    ensures
        ({
            let after = start.after_rolling(tempo, mode, window, left, right, count);
            &&& only_completed_changes(start.publication, after.publication)
            &&& after.engine.frames_since_preview == start.engine.frames_since_preview
        }),
    decreases count,
{
    if count > 0 {
        lemma_rolling_keeps_previews(start, tempo, mode, window, left, right, (count - 1) as nat);
    }
}

/// The samples of a block leave the previews and their pace alone.
pub(crate) proof fn lemma_samples_keep_previews(
    start: Capture,
    transport: TransportInfo,
    window: WindowLength,
    left: Seq<Binary32>,
    right: Seq<Binary32>,
    frames: nat,
)
    ensures
        ({
            let after = start.after_samples(transport, window, left, right, frames);
            &&& only_completed_changes(start.publication, after.publication)
            &&& same_setup(start.engine, after.engine)
            &&& after.engine.frames_since_preview == start.engine.frames_since_preview
        }),
{
    reveal(Capture::after_samples);
    let valid = transport.validated();
    let mode = crate::engine::block_mode(transport);
    if mode == SnapshotMode::Synced {
        let tempo = valid.tempo_bpm->0;
        let target = start.engine.block_target(mode, valid.tempo_bpm, window);
        if target is Some {
            let run = SyncedRun {
                position: valid.song_pos_beats->0,
                tempo,
                window,
                increment: start.engine.beats_per_sample(tempo),
                target: target->0,
            };
            lemma_run_keeps_previews(start, run, left, right, frames);
            lemma_setup_stays(start, run, left, right, frames);
        }
    } else {
        let ready = Capture {
            engine: start.engine.with_rolling_target(
                mode,
                start.engine.rolling_window(valid.tempo_bpm, window),
            ),
            publication: start.publication,
        };
        lemma_rolling_keeps_previews(ready, valid.tempo_bpm, mode, window, left, right, frames);
        lemma_rolling_setup_stays(ready, valid.tempo_bpm, mode, window, left, right, frames);
    }
}

/// A block changes neither the selection nor the sample rate, and it asks for
/// one redraw.
pub(crate) proof fn lemma_block_keeps_settings(
    capture: Capture,
    left: Seq<Binary32>,
    right: Seq<Binary32>,
    transport: TransportInfo,
)
    ensures
        ({
            let after = capture.after_block(left, right, transport).publication;
            &&& settings_kept(capture.publication, after)
            &&& after.redraw_revision == crate::publication::following(
                capture.publication.redraw_revision,
            )
        }),
{
    let frames = if left.len() < right.len() {
        left.len()
    } else {
        right.len()
    };
    if transport.is_playing && frames > 0 {
        let window = capture.publication.selected_window;
        let selected = capture.engine.with_frames_passed(frames).with_window_selected(window);
        let continued = !selected.interrupted_by(transport);
        let ready = Capture {
            engine: if continued {
                selected
            } else {
                selected.without_partial()
            },
            publication: capture.publication,
        };
        lemma_samples_keep_previews(ready, transport, window, left, right, frames);
        let captured = ready.after_samples(transport, window, left, right, frames);
        lemma_presenting_keeps_windows(captured, transport, window, continued);
    }
}

/// A preview is live only with the mode and the window that the engine
/// captures: one of another mode or window is replaced or invalidated by the
/// first block after the change. This goes on from block to block.
pub proof fn live_previews_are_labelled(
    capture: Capture,
    left: Seq<Binary32>,
    right: Seq<Binary32>,
    transport: TransportInfo,
)
    requires
        capture.labelled(),
    ensures
        ({
            let after = capture.after_block(left, right, transport);
            &&& after.labelled()
            &&& after.publication.live ==> {
                &&& transport.is_playing
                &&& after.publication.retained matches Some(preview)
                    && preview.mode == crate::engine::block_mode(transport)
                    && preview.window == capture.publication.selected_window
            }
            &&& after.publication.retained == capture.publication.retained
                || after.publication.live
        }),
{
    let frames = if left.len() < right.len() {
        left.len()
    } else {
        right.len()
    };
    if transport.is_playing && frames > 0 {
        let window = capture.publication.selected_window;
        let selected = capture.engine.with_frames_passed(frames).with_window_selected(window);
        let interrupted = selected.interrupted_by(transport);
        let ready = Capture {
            engine: if interrupted {
                selected.without_partial()
            } else {
                selected
            },
            publication: capture.publication,
        };
        reveal(EngineState::interrupted_by);
        reveal(Capture::after_presenting);
        lemma_samples_keep_previews(ready, transport, window, left, right, frames);
    }
}

/// Without a usable tempo or without a usable position, nothing that a block
/// completes or previews is called synced.
pub proof fn fallbacks_are_never_called_synced(
    capture: Capture,
    left: Seq<Binary32>,
    right: Seq<Binary32>,
    transport: TransportInfo,
)
    requires
        capture.engine.consistent(),
        capture.labelled(),
        transport.validated().tempo_bpm is None || transport.validated().song_pos_beats is None,
    ensures
        ({
            let after = capture.after_block(left, right, transport).publication;
            &&& after.completed == capture.publication.completed || after.completed.mode
                != SnapshotMode::Synced
            &&& after.retained == capture.publication.retained || (after.retained matches Some(
                preview,
            ) && preview.mode != SnapshotMode::Synced)
            &&& after.live ==> (after.retained matches Some(preview) && preview.mode
                != SnapshotMode::Synced)
        }),
{
    blocks_complete_only_full_windows(capture, left, right, transport);
    live_previews_are_labelled(capture, left, right, transport);
}

/// A beat window that is full when the next one begins is completed there,
/// under the next revision, with the beat that it started on and with the
/// samples that it holds, whether they came in the run or before it.
pub proof fn full_windows_are_completed(
    start: Capture,
    held: Seq<(Binary32, Binary32)>,
    run: SyncedRun,
    left: Seq<Binary32>,
    right: Seq<Binary32>,
    index: nat,
    current: i64,
)
    requires
        !run.lost_before(index),
        start.after_synced(run, left, right, index).engine.synced_interval == Some(current),
        start.after_synced(run, left, right, index).engine.synced_len == run.target,
        run.interval(index) matches Some(interval) && interval == current + run.window.beats(),
    ensures
        ({
            let before = start.after_synced(run, left, right, index).publication.completed;
            let after = start.after_synced(run, left, right, index + 1).publication.completed;
            &&& after.revision == crate::publication::following(before.revision)
            &&& after.beat_index == Some(current)
            &&& after.mode == SnapshotMode::Synced
            &&& after.sample_count == crate::publication::word_count(run.target)
            &&& (start.engine.synced_interval is Some ==> start.engine.holds_synced(
                held,
                run.target,
            )) ==> is_window_of(
                after,
                SnapshotMode::Synced,
                run.window,
                Some(run.tempo),
                run.target,
                synced_samples(start, held, run, left, right, index),
            )
        }),
{
    if start.engine.synced_interval is Some ==> start.engine.holds_synced(held, run.target) {
        synced_windows_hold_their_samples(start, held, run, left, right, index);
    }
}

/// The start of a window is a whole number of windows from project beat zero.
pub open spec fn on_boundary(start: Option<i64>, window: WindowLength) -> bool {
    start matches Some(beat) ==> beat as int % window.beats() as int == 0
}

proof fn lemma_aligned_starts_are_on_boundaries(position: Binary64, window: WindowLength)
    ensures
        on_boundary(crate::timing::aligned_window_start(position, window), window),
{
    vstd::arithmetic::div_mod::lemma_mod_multiples_basic(
        crate::timing::window_index(position, window),
        window.beats() as int,
    );
}

/// Beat windows start, and are completed, on whole multiples of their number
/// of beats only, and one is opened only by a sample on its boundary or by one
/// that crosses it.
pub proof fn synced_windows_are_aligned(
    start: Capture,
    run: SyncedRun,
    left: Seq<Binary32>,
    right: Seq<Binary32>,
    count: nat,
)
    requires
        on_boundary(start.engine.synced_interval, run.window),
    ensures
        ({
            let after = start.after_synced(run, left, right, count);
            &&& on_boundary(after.engine.synced_interval, run.window)
            &&& after.publication.completed == start.publication.completed || on_boundary(
                after.publication.completed.beat_index,
                run.window,
            )
            &&& start.engine.synced_interval is None && after.engine.synced_interval is Some
                ==> exists|index: nat| index < count && #[trigger] run.opens_window(index)
        }),
    decreases count,
{
    if count > 0 {
        let index = (count - 1) as nat;
        synced_windows_are_aligned(start, run, left, right, index);
        lemma_aligned_starts_are_on_boundaries(run.beat(index), run.window);
        let before = start.after_synced(run, left, right, index);
        let after = start.after_synced(run, left, right, count);
        if start.engine.synced_interval is None && after.engine.synced_interval is Some {
            if before.engine.synced_interval is Some {
                let at = choose|at: nat| at < index && #[trigger] run.opens_window(at);
                assert(at < count && run.opens_window(at));
            } else {
                assert(index < count && run.opens_window(index));
            }
        }
    }
}

proof fn lemma_rolling_has_no_beats(
    start: Capture,
    tempo: Option<Binary64>,
    mode: SnapshotMode,
    window: WindowLength,
    left: Seq<Binary32>,
    right: Seq<Binary32>,
    count: nat,
)
    ensures
        ({
            let after = start.after_rolling(tempo, mode, window, left, right, count);
            &&& after.engine.synced_interval == start.engine.synced_interval
            &&& after.publication.completed == start.publication.completed
                || after.publication.completed.beat_index is None
        }),
    decreases count,
{
    if count > 0 {
        lemma_rolling_has_no_beats(start, tempo, mode, window, left, right, (count - 1) as nat);
    }
}

/// From block to block, whatever beat window is in progress, completed or
/// previewed starts on a whole multiple of its number of beats from project
/// beat zero.
pub proof fn blocks_keep_windows_aligned(
    capture: Capture,
    left: Seq<Binary32>,
    right: Seq<Binary32>,
    transport: TransportInfo,
)
    requires
        on_boundary(capture.engine.synced_interval, capture.engine.active_window),
    ensures
        ({
            let after = capture.after_block(left, right, transport);
            let window = capture.publication.selected_window;
            &&& after.engine.active_window == window
            &&& on_boundary(after.engine.synced_interval, window)
            &&& after.publication.completed == capture.publication.completed || on_boundary(
                after.publication.completed.beat_index,
                window,
            )
            &&& after.publication.retained == capture.publication.retained || (
            after.publication.retained matches Some(preview) && on_boundary(
                preview.beat_index,
                window,
            ))
        }),
{
    let frames = if left.len() < right.len() {
        left.len()
    } else {
        right.len()
    };
    if transport.is_playing && frames > 0 {
        let window = capture.publication.selected_window;
        let selected = capture.engine.with_frames_passed(frames).with_window_selected(window);
        let continued = !selected.interrupted_by(transport);
        let ready = Capture {
            engine: if continued {
                selected
            } else {
                selected.without_partial()
            },
            publication: capture.publication,
        };
        let valid = transport.validated();
        let mode = crate::engine::block_mode(transport);
        lemma_samples_keep_previews(ready, transport, window, left, right, frames);
        let captured = ready.after_samples(transport, window, left, right, frames);
        reveal(Capture::after_samples);
        if mode == SnapshotMode::Synced {
            let target = ready.engine.block_target(mode, valid.tempo_bpm, window);
            if target is Some {
                let run = SyncedRun {
                    position: valid.song_pos_beats->0,
                    tempo: valid.tempo_bpm->0,
                    window,
                    increment: ready.engine.beats_per_sample(valid.tempo_bpm->0),
                    target: target->0,
                };
                synced_windows_are_aligned(ready, run, left, right, frames);
            }
        } else {
            let rolling = Capture {
                engine: ready.engine.with_rolling_target(
                    mode,
                    ready.engine.rolling_window(valid.tempo_bpm, window),
                ),
                publication: ready.publication,
            };
            lemma_rolling_has_no_beats(
                rolling,
                valid.tempo_bpm,
                mode,
                window,
                left,
                right,
                frames,
            );
        }
        lemma_presenting_keeps_windows(captured, transport, window, continued);
        reveal(Capture::after_presenting);
    }
}

} // verus!
