//! How often previews are published, over any number of blocks.

use crate::binary::Binary32;
use crate::engine::{Capture, EngineState, SyncedRun};
use crate::publication::PublicationState;
use crate::timing::{
    aligned_window_start, live_preview_cadence_samples, window_samples, TransportInfo,
};
use crate::window::{SnapshotMode, WindowLength};
use vstd::arithmetic::power2::*;
use vstd::prelude::*;

verus! {

/// One block that a host hands to an engine.
pub struct Block {
    /// The samples of the left channel.
    pub left: Seq<Binary32>,
    /// The samples of the right channel.
    pub right: Seq<Binary32>,
    /// The transport.
    pub transport: TransportInfo,
    /// The window that is selected by the time the block comes.
    pub window: WindowLength,
}

impl Block {
    /// The frames that both channels have.
    pub open spec fn frames(self) -> nat {
        if self.left.len() < self.right.len() {
            self.left.len()
        } else {
            self.right.len()
        }
    }
}

/// The frames of blocks together.
pub open spec fn frames_in(blocks: Seq<Block>) -> nat
    decreases blocks.len(),
{
    if blocks.len() == 0 {
        0
    } else {
        frames_in(blocks.drop_last()) + blocks.last().frames()
    }
}

impl PublicationState {
    /// The revision of the last preview, zero when there was none.
    pub open spec fn preview_revision(self) -> u64 {
        match self.retained {
            Some(preview) => preview.revision,
            None => 0,
        }
    }
}

impl Capture {
    /// The capture after the engine processed a block between two
    /// transactions.
    pub open spec fn played(self, block: Block) -> Capture {
        let selected = PublicationState { selected_window: block.window, ..self.publication };
        let within = (Capture {
            publication: selected.stepped(),
            ..self
        }).after_block(block.left, block.right, block.transport);
        Capture { publication: within.publication.stepped(), ..within }
    }

    /// The capture after blocks in a row.
    pub open spec fn after_blocks(self, blocks: Seq<Block>) -> Capture
        decreases blocks.len(),
    {
        if blocks.len() == 0 {
            self
        } else {
            self.after_blocks(blocks.drop_last()).played(blocks.last())
        }
    }

    /// A block publishes a preview.
    pub open spec fn previews(self, block: Block) -> bool {
        self.played(block).publication.preview_revision() != self.publication.preview_revision()
    }

    /// How many of the blocks in a row publish a preview.
    pub open spec fn preview_count(self, blocks: Seq<Block>) -> nat
        decreases blocks.len(),
    {
        if blocks.len() == 0 {
            0
        } else {
            let before = blocks.drop_last();
            self.preview_count(before) + if self.after_blocks(before).previews(blocks.last()) {
                1nat
            } else {
                0nat
            }
        }
    }
}

/// A block publishes one preview at most, only while it plays and only when one
/// is due. Nothing but a preview starts the pace anew.
pub proof fn blocks_preview_only_when_due(capture: Capture, block: Block)
    ensures
        ({
            let after = capture.played(block);
            let passed = capture.engine.with_frames_passed(block.frames());
            &&& after.engine.sample_rate == capture.engine.sample_rate
            &&& if capture.previews(block) {
                &&& passed.preview_due()
                &&& block.frames() > 0
                &&& block.transport.is_playing
                &&& after.engine.frames_since_preview == Some(0usize)
                &&& after.publication.preview_revision()
                    == capture.publication.next_preview_revision()
            } else {
                after.engine.frames_since_preview == passed.frames_since_preview
            }
        }),
{
    let frames = block.frames();
    let selected = PublicationState { selected_window: block.window, ..capture.publication };
    let start = Capture { publication: selected.stepped(), ..capture };
    if block.transport.is_playing && frames > 0 {
        let window = block.window;
        let engine = capture.engine.with_frames_passed(frames).with_window_selected(window);
        let continued = !engine.interrupted_by(block.transport);
        let ready = Capture {
            engine: if continued {
                engine
            } else {
                engine.without_partial()
            },
            publication: start.publication,
        };
        crate::guarantees::lemma_samples_keep_previews(
            ready,
            block.transport,
            window,
            block.left,
            block.right,
            frames,
        );
        reveal(Capture::after_presenting);
    }
}

/// A preview shows more of the window in progress than the last one did of it.
pub proof fn previews_show_more_samples(
    capture: Capture,
    transport: TransportInfo,
    window: WindowLength,
    continued: bool,
)
    ensures
        ({
            let after = capture.after_presenting(transport, window, continued);
            let progress = capture.engine.in_progress(
                crate::engine::block_mode(transport),
                transport.validated().tempo_bpm,
                window,
            );
            if after.publication.preview_revision() != capture.publication.preview_revision() {
                &&& progress is Some
                &&& progress->0.sample_count > capture.engine.previewed_samples
                &&& after.engine.previewed_samples == progress->0.sample_count
            } else {
                after.engine.previewed_samples == capture.engine.previewed_samples
            }
        }),
{
    reveal(Capture::after_presenting);
}

proof fn lemma_full_windows_take_nothing(
    capture: Capture,
    run: SyncedRun,
    left: Seq<Binary32>,
    right: Seq<Binary32>,
    count: nat,
    current: i64,
)
    requires
        capture.engine.synced_interval == Some(current),
        capture.engine.synced_len == run.target,
        forall|index: nat| index < count ==> #[trigger] run.interval(index) == Some(current),
    ensures
        capture.after_synced(run, left, right, count) == capture,
    decreases count,
{
    if count > 0 {
        let index = (count - 1) as nat;
        lemma_full_windows_take_nothing(capture, run, left, right, index, current);
        assert(run.interval(index) == Some(current));
    }
}

/// Once a preview shows a beat window full, a block that stays in that window
/// publishes no other, however much time passes; the preview stays live.
pub proof fn full_windows_are_previewed_once(
    capture: Capture,
    block: Block,
    run: SyncedRun,
    current: i64,
)
    requires
        block.transport.is_playing,
        block.frames() > 0,
        crate::engine::block_mode(block.transport) == SnapshotMode::Synced,
        block.window == capture.engine.active_window,
        !capture.engine.interrupted_by(block.transport),
        run == (SyncedRun {
            position: block.transport.validated().song_pos_beats->0,
            tempo: block.transport.validated().tempo_bpm->0,
            window: block.window,
            increment: capture.engine.beats_per_sample(
                block.transport.validated().tempo_bpm->0,
            ),
            target: capture.engine.synced_len,
        }),
        window_samples(
            capture.engine.sample_rate,
            run.tempo,
            run.window,
            capture.engine.capacity_samples,
        ) == Some(run.target),
        aligned_window_start(run.position, run.window) == Some(current),
        forall|index: nat|
            index < block.frames() ==> #[trigger] run.interval(index) == Some(current),
        capture.engine.synced_interval == Some(current),
        capture.engine.previewed_samples == capture.engine.synced_len,
        capture.engine.synced_len > 0,
    ensures
        !capture.previews(block),
        capture.played(block).publication.retained == capture.publication.retained,
        capture.played(block).publication.live == capture.publication.live,
        capture.played(block).engine.synced_interval == Some(current),
        capture.played(block).engine.synced_len == capture.engine.synced_len,
        capture.played(block).engine.previewed_samples == capture.engine.previewed_samples,
{
    let frames = block.frames();
    let selected = PublicationState { selected_window: block.window, ..capture.publication };
    let ready = Capture {
        engine: capture.engine.with_frames_passed(frames),
        publication: selected.stepped(),
    };
    assert(!ready.engine.interrupted_by(block.transport)) by {
        reveal(EngineState::interrupted_by);
    }
    lemma_full_windows_take_nothing(ready, run, block.left, block.right, frames, current);
    reveal(Capture::after_samples);
    reveal(Capture::after_presenting);
}

proof fn lemma_rate_stays(capture: Capture, blocks: Seq<Block>)
    ensures
        capture.after_blocks(blocks).engine.sample_rate == capture.engine.sample_rate,
    decreases blocks.len(),
{
    if blocks.len() > 0 {
        lemma_rate_stays(capture, blocks.drop_last());
        blocks_preview_only_when_due(capture.after_blocks(blocks.drop_last()), blocks.last());
    }
}

/// Since a preview, no more frames are counted than passed.
proof fn lemma_frames_since(capture: Capture, blocks: Seq<Block>, first: int, count: int)
    requires
        0 <= first < count <= blocks.len(),
        capture.after_blocks(blocks.take(first)).previews(blocks[first]),
    ensures
        capture.after_blocks(blocks.take(count)).engine.frames_since_preview matches Some(passed)
            && passed <= frames_in(blocks.subrange(first + 1, count)),
    decreases count,
{
    let run = blocks.take(count);
    assert(run.drop_last() =~= blocks.take(count - 1));
    assert(run.last() == blocks[count - 1]);
    blocks_preview_only_when_due(capture.after_blocks(blocks.take(count - 1)), blocks[count - 1]);
    if first + 1 < count {
        lemma_frames_since(capture, blocks, first, count - 1);
        let between = blocks.subrange(first + 1, count);
        assert(between.drop_last() =~= blocks.subrange(first + 1, count - 1));
        assert(between.last() == blocks[count - 1]);
    }
}

/// Two previews are at least a cadence of frames apart, whatever windows,
/// modes and interruptions lie between them.
pub proof fn previews_are_a_cadence_apart(
    capture: Capture,
    blocks: Seq<Block>,
    first: int,
    last: int,
)
    requires
        0 <= first < last < blocks.len(),
        capture.after_blocks(blocks.take(first)).previews(blocks[first]),
        capture.after_blocks(blocks.take(last)).previews(blocks[last]),
    ensures
        frames_in(blocks.subrange(first + 1, last + 1)) >= live_preview_cadence_samples(
            capture.engine.sample_rate,
        ),
{
    lemma_frames_since(capture, blocks, first, last);
    blocks_preview_only_when_due(capture.after_blocks(blocks.take(last)), blocks[last]);
    lemma_rate_stays(capture, blocks.take(last));
    let between = blocks.subrange(first + 1, last + 1);
    assert(between.drop_last() =~= blocks.subrange(first + 1, last));
    assert(between.last() == blocks[last]);
}

proof fn lemma_preview_count(capture: Capture, blocks: Seq<Block>)
    ensures
        ({
            let count = capture.preview_count(blocks);
            let cadence = live_preview_cadence_samples(capture.engine.sample_rate);
            count > 0 ==> {
                &&& capture.after_blocks(blocks).engine.frames_since_preview matches Some(passed)
                    && (count - 1) * cadence + passed < frames_in(blocks)
            }
        }),
    decreases blocks.len(),
{
    if blocks.len() > 0 {
        let before = blocks.drop_last();
        lemma_preview_count(capture, before);
        blocks_preview_only_when_due(capture.after_blocks(before), blocks.last());
        lemma_rate_stays(capture, before);
        let earlier = capture.preview_count(before) as int;
        let cadence = live_preview_cadence_samples(capture.engine.sample_rate) as int;
        assert((earlier - 1) * cadence + cadence == earlier * cadence) by (nonlinear_arith);
        assert(0 * cadence == 0);
    }
}

/// Every preview is counted.
proof fn lemma_revisions_count(capture: Capture, blocks: Seq<Block>)
    ensures
        capture.after_blocks(blocks).publication.preview_revision() == (
        capture.publication.preview_revision() + capture.preview_count(blocks))
            % 0x1_0000_0000_0000_0000,
    decreases blocks.len(),
{
    if blocks.len() > 0 {
        lemma_revisions_count(capture, blocks.drop_last());
        blocks_preview_only_when_due(capture.after_blocks(blocks.drop_last()), blocks.last());
    }
}

/// The blocks of one second publish sixty previews at most, and the preview
/// revision grows by as many, around the end of a machine word where it has to,
/// whatever the size of the blocks, the windows and the modes. A machine word
/// and a double's digits must be able to hold the frames of the second.
pub proof fn a_second_has_sixty_previews_at_most(capture: Capture, blocks: Seq<Block>)
    requires
        crate::timing::fit_in_a_second(frames_in(blocks), capture.engine.sample_rate),
        frames_in(blocks) <= 60 * usize::MAX,
        frames_in(blocks) <= pow2(51),
    ensures
        capture.preview_count(blocks) <= 60,
        capture.after_blocks(blocks).publication.preview_revision() == (
        capture.publication.preview_revision() + capture.preview_count(blocks))
            % 0x1_0000_0000_0000_0000,
{
    let count = capture.preview_count(blocks) as int;
    let cadence = live_preview_cadence_samples(capture.engine.sample_rate) as int;
    lemma_preview_count(capture, blocks);
    crate::timing::sixty_cadences_make_a_second(frames_in(blocks), capture.engine.sample_rate);
    if count > 0 {
        assert(count <= 60) by (nonlinear_arith)
            requires
                (count - 1) * cadence < 60 * cadence,
                cadence >= 0,
        ;
    }
    lemma_revisions_count(capture, blocks);
}

} // verus!
