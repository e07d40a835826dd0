//! What holds across several calls, on concrete values.

use std::cell::Cell;

use wave::aliasing::{ranges_overlap, validate_stereo_aliases};
use wave::binary::{Binary32, Binary64};
use wave::display::captured_prefix_bins;
use wave::editor::{EditorMessage, EditorState};
use wave::engine::CaptureEngine;
use wave::envelope::{
    accumulate_capture_envelope, clear_capture_envelope, sanitize_sample, EnvelopePoint,
    ENVELOPE_BINS,
};
use wave::offset::{normalize_waveform_offset, WaveformOffsetDrag};
use wave::publication::{
    f32_from_bits_or_none, live_word, sample_rate_changes, selection_changes, WaveformPublication,
};
use wave::stereo::{process_stereo_pair, Channel};
use wave::timing::{
    aligned_window_start, checked_capacity_samples, fallback_window_samples, grid_x,
    live_preview_cadence_samples, tempo_changed, valid_position, valid_tempo, window_phase, window_samples, TransportInfo, MAX_CAPTURE_SAMPLES,
};
use wave::view::{
    read_from, PublicationLoads, PublicationSource, WaveformView, MAX_ENVELOPE_READ_RETRIES,
};
use wave::window::{SnapshotMode, WindowLength};

fn double(value: f64) -> Binary64 {
    Binary64::from_bits(value.to_bits())
}

fn single(value: f32) -> Binary32 {
    Binary32::from_bits(value.to_bits())
}

fn float(value: Binary32) -> f32 {
    f32::from_bits(value.bits)
}

fn samples(values: &[f32]) -> Vec<Binary32> {
    values.iter().map(|value| single(*value)).collect()
}

fn transport(position: Option<f64>, tempo: Option<f64>, playing: bool) -> TransportInfo {
    TransportInfo {
        tempo_bpm: tempo.map(double),
        song_pos_beats: position.map(double),
        is_playing: playing,
    }
}

fn read(publication: &WaveformPublication) -> WaveformView {
    let mut view = WaveformView::new();
    assert!(publication.read_view(&mut view));
    view
}

#[test]
fn raw_words_round_trip() {
    for window in WindowLength::ALL {
        assert_eq!(WindowLength::from_raw(window.as_raw()), window);
    }
    for mode in [
        SnapshotMode::Empty,
        SnapshotMode::Synced,
        SnapshotMode::UnsyncedTempo,
        SnapshotMode::UnsyncedFallback,
    ] {
        assert_eq!(SnapshotMode::from_raw(mode.as_raw()), mode);
    }
    assert_eq!(SnapshotMode::from_raw(u32::MAX), SnapshotMode::Empty);
}

#[test]
fn tempos_are_usable_between_twenty_and_three_hundred() {
    for tempo in [20.0, 20.000_000_001, 120.0, 299.999_999_999, 300.0] {
        assert_eq!(valid_tempo(Some(double(tempo))), Some(double(tempo)));
        let kept = float(double(tempo).to_single());
        assert!((20.0..=300.0).contains(&kept));
        assert_eq!(
            f32_from_bits_or_none(double(tempo).to_single().bits),
            Some(double(tempo).to_single())
        );
    }
    for tempo in [19.999, 300.001, -120.0, f64::NAN, f64::INFINITY] {
        assert_eq!(valid_tempo(Some(double(tempo))), None);
    }
    assert_eq!(valid_tempo(None), None);
    assert_eq!(f32_from_bits_or_none(0), None);
}

#[test]
fn positions_are_usable_when_finite() {
    assert_eq!(valid_position(Some(double(-3.5))), Some(double(-3.5)));
    assert_eq!(valid_position(Some(double(f64::NAN))), None);
    assert_eq!(valid_position(Some(double(f64::NEG_INFINITY))), None);
    assert_eq!(valid_position(None), None);
}

#[test]
fn positions_lie_in_their_window() {
    for window in WindowLength::ALL {
        let beats = f64::from(window.beats());
        for position in [-1.0e9, -17.25, -1.0e-300, 0.0, 0.1, 7.999_999, 8.0, 1.0e12] {
            let start = aligned_window_start(double(position), window)
                .expect("the position has a window") as f64;
            assert!(start <= position && position < start + beats);
            assert_eq!(start % beats, 0.0);
        }
    }
    assert_eq!(
        aligned_window_start(double(1.0e300), WindowLength::OneBeat),
        None
    );
    assert_eq!(
        aligned_window_start(double(f64::NAN), WindowLength::OneBeat),
        None
    );
    assert_eq!(
        aligned_window_start(double(-5.0e-324), WindowLength::EightBeats),
        Some(0),
        "a share too small for a number rounds to the next window"
    );
}

#[test]
fn capacity_covers_the_longest_window() {
    for rate in [1.0, 44_100.0, 192_000.0] {
        for tempo in [20.0, 120.0, 300.0] {
            for window in WindowLength::ALL {
                assert!(window_samples(
                    double(rate),
                    double(tempo),
                    window,
                    MAX_CAPTURE_SAMPLES
                )
                .is_some());
            }
        }
    }
    assert_eq!(checked_capacity_samples(double(8.0), 8), Some(8));
    assert_eq!(checked_capacity_samples(double(9.0), 8), None);
    assert_eq!(checked_capacity_samples(double(f64::NAN), 8), None);
    assert_eq!(fallback_window_samples(double(-1.0), 8), 1);
    assert_eq!(fallback_window_samples(double(48_000.0), 0), 1);
}

#[test]
fn phases_and_grid_marks_are_shares() {
    for window in WindowLength::ALL {
        for position in [-1.0e-30, -7.5, 0.0, 0.999_999_999, 3.25, 1.0e17] {
            let phase = float(window_phase(Some(double(position)), window).unwrap());
            assert!((0.0..1.0).contains(&phase));
        }
        assert_eq!(window_phase(Some(double(f64::NAN)), window), None);
    }
    for offset in [-1.0, 0.0, 2.0, 9.0, 1.0e300] {
        let x = float(grid_x(double(offset), double(4.0), single(100.0)));
        assert!((0.0..=100.0).contains(&x));
    }
    assert_eq!(
        grid_x(double(2.0), double(4.0), single(100.0)),
        single(50.0)
    );
    assert_eq!(grid_x(double(2.0), double(0.0), single(100.0)), single(0.0));
    assert!(
        grid_x(double(1.0e308), double(1.0e-10), single(0.0)).is_nan(),
        "an endless share of nothing has no place"
    );
}

#[test]
fn tempos_change_with_every_difference() {
    assert!(!tempo_changed(None, None));
    assert!(!tempo_changed(Some(double(120.0)), Some(double(120.0))));
    assert!(tempo_changed(Some(double(120.0)), Some(double(120.000_001))));
    assert!(tempo_changed(Some(double(120.0)), None));
    assert!(tempo_changed(None, Some(double(120.0))));
}

#[test]
fn previews_wait_for_a_cadence() {
    assert_eq!(live_preview_cadence_samples(double(48_000.0)), 800);
    assert_eq!(live_preview_cadence_samples(double(44_100.0)), 735);
    assert_eq!(live_preview_cadence_samples(double(1.0)), 1);
}

fn previews_of_blocks(
    engine: &mut CaptureEngine,
    blocks: usize,
    frames: usize,
    transport: TransportInfo,
) -> u64 {
    let mut publication = WaveformPublication::new();
    let block = vec![single(0.5); frames];
    for _ in 0..blocks {
        engine.process_block(&block, &block, transport, &mut publication);
    }
    read(&publication).display_revision
}

#[test]
fn a_second_of_short_windows_has_sixty_previews() {
    let mut engine = CaptureEngine::new(double(48_000.0));
    let rolling = transport(None, Some(250.0), true);
    assert_eq!(previews_of_blocks(&mut engine, 600, 80, rolling), 60);

    let mut engine = CaptureEngine::with_capacity(double(120.0), 1);
    let fallback = transport(None, None, true);
    assert_eq!(previews_of_blocks(&mut engine, 120, 1, fallback), 60);

    let mut engine = CaptureEngine::new(double(48_000.0));
    let stuck = transport(Some(4.0), Some(120.0), true);
    assert_eq!(
        previews_of_blocks(&mut engine, 600, 80, stuck),
        60,
        "a seek in every block does not hurry the previews"
    );
}

#[test]
fn full_windows_are_not_previewed_again() {
    let mut engine = CaptureEngine::with_capacity(double(60.0), 120);
    let mut publication = WaveformPublication::new();
    let block = vec![single(0.5)];
    let still = transport(Some(0.0), Some(60.0), true);
    for played in 1..=200 {
        engine.process_block(&block, &block, still, &mut publication);
        let view = read(&publication);
        assert_eq!(view.display_revision, if played < 60 { played } else { 60 });
        assert!(view.live_valid);
    }
    let view = read(&publication);
    assert_eq!(view.live_sample_count, 60);
    assert_eq!(view.target_sample_count, 60);
    assert_eq!(view.snapshot_revision, 0);

    engine.process_block(&block, &block, transport(Some(1.0), Some(60.0), true), &mut publication);
    let next = read(&publication);
    assert_eq!(next.display_revision, 61, "another window is previewed at once");
    assert_eq!(next.live_sample_count, 1);
}

#[test]
fn writes_turn_the_buffers_of_one_lane() {
    let mut publication = WaveformPublication::new();
    let envelope = [EnvelopePoint::flat(); ENVELOPE_BINS];
    let sequences = |publication: &WaveformPublication| {
        (
            publication.slots.map(|slot| slot.sequence),
            publication.active_slot,
            publication.live_slots.map(|slot| slot.sequence),
            publication.live_active_slot,
        )
    };
    assert_eq!(sequences(&publication), ([0, 0], 0, [0, 0], 0));

    let (mode, window, tempo) = (SnapshotMode::Synced, WindowLength::OneBeat, Some(double(120.0)));
    publication.publish_envelope(mode, window, tempo, Some(4), 8, &envelope);
    assert_eq!(sequences(&publication), ([0, 2], 1, [0, 0], 0));
    assert_eq!(publication.slots[0].revision, 0);
    publication.publish_envelope(mode, window, tempo, Some(5), 8, &envelope);
    assert_eq!(sequences(&publication), ([2, 2], 0, [0, 0], 0));
    assert_eq!(publication.slots[1].revision, 1);

    let moving = transport(Some(5.5), Some(120.0), true);
    publication.publish_live_preview(moving, mode, window, tempo, Some(5), 3, 8, &envelope);
    assert_eq!(sequences(&publication), ([2, 2], 0, [0, 2], 1));
    publication.publish_live_preview(moving, mode, window, tempo, Some(5), 0, 8, &envelope);
    publication.update_transport(moving);
    publication.clear_live_preview();
    publication.clear_live_preview_with_transport(moving);
    assert!(publication.set_selected_window(WindowLength::FourBeats));
    assert!(publication.set_sample_rate(double(96_000.0)));
    assert_eq!(sequences(&publication), ([2, 2], 0, [0, 2], 1));

    publication.slots[1].sequence = u64::MAX - 1;
    publication.publish_envelope(mode, window, tempo, Some(6), 8, &envelope);
    assert_eq!(sequences(&publication), ([2, 0], 1, [0, 2], 1));
}

#[test]
fn blocks_show_their_writes_by_sequences() {
    let mut engine = CaptureEngine::with_capacity(double(60.0), 3);
    let mut publication = WaveformPublication::new();
    let block = vec![single(0.25); 10];
    let rolling = transport(None, None, true);
    engine.process_block(&block, &block, rolling, &mut publication);
    assert_eq!(read(&publication).snapshot_revision, 3, "three full windows of three samples");
    assert_eq!(publication.slots.map(|slot| slot.sequence), [2, 4]);
    assert_eq!(publication.live_slots.map(|slot| slot.sequence), [0, 2]);

    let stopped = transport(None, None, false);
    engine.process_block(&block, &block, stopped, &mut publication);
    engine.reset(&mut publication);
    assert_eq!(publication.slots.map(|slot| slot.sequence), [2, 4]);
    assert_eq!(publication.live_slots.map(|slot| slot.sequence), [0, 2]);
}

#[test]
fn a_change_within_the_pace_waits_without_a_live_preview() {
    let mut engine = CaptureEngine::new(double(48_000.0));
    let mut publication = WaveformPublication::new();
    let block = vec![single(0.5); 400];
    let synced = transport(Some(0.0), Some(120.0), true);
    engine.process_block(&block, &block, synced, &mut publication);
    assert_eq!(read(&publication).live_mode, SnapshotMode::Synced);

    let rolling = transport(None, Some(120.0), true);
    engine.process_block(&block, &block, rolling, &mut publication);
    let waiting = read(&publication);
    assert!(!waiting.live_valid);
    assert_eq!(waiting.display_mode, SnapshotMode::Synced);
    assert_eq!(waiting.display_revision, 1);

    engine.process_block(&block, &block, rolling, &mut publication);
    let shown = read(&publication);
    assert!(shown.live_valid);
    assert_eq!(shown.live_mode, SnapshotMode::UnsyncedTempo);
    assert_eq!(shown.live_sample_count, 800);
    assert_eq!(shown.display_revision, 2);
}

#[test]
fn envelopes_keep_and_attain_their_peaks() {
    let mut envelope = [EnvelopePoint::flat(); ENVELOPE_BINS];
    clear_capture_envelope(&mut envelope);
    assert_eq!(envelope[0], EnvelopePoint::unfilled());
    accumulate_capture_envelope(
        &mut envelope,
        0,
        2048,
        single(0.25),
        single(-0.75),
    );
    accumulate_capture_envelope(&mut envelope, 1, 2048, single(0.5), single(f32::NAN));
    assert_eq!(float(envelope[0].min), -0.75);
    assert_eq!(float(envelope[0].max), 0.5);
    assert_eq!(envelope[0].displayable(), envelope[0]);
    assert_eq!(envelope[1].displayable(), EnvelopePoint::flat());
    assert_eq!(sanitize_sample(single(f32::NAN)), single(0.0));
    assert_eq!(sanitize_sample(single(f32::INFINITY)), single(0.0));
    assert_eq!(sanitize_sample(single(1.5)), single(1.0));
    assert_eq!(sanitize_sample(single(-0.75)), single(-0.75));
}

#[test]
fn singles_come_back_from_double_precision() {
    for value in [0.0, -0.0, 1.0e-45, 0.1, -3.5, f32::MAX, f32::INFINITY] {
        assert_eq!(single(value).to_double().to_single(), single(value));
    }
    assert!(double(0.1).to_single().le(double(0.1 + 1.0e-16).to_single()));
}

#[test]
fn loads_are_taken_only_when_nothing_came_between() {
    let mut publication = WaveformPublication::new();
    publication.update_transport(transport(Some(1.5), Some(120.0), true));
    let loads = publication.loads();
    let mut view = WaveformView::new();
    assert!(loads.accept(&mut view));
    assert_eq!(view, read(&publication));
    assert_eq!(view.current_song_pos_beats, Some(double(1.5)));

    let kept = view;
    let mut torn = [loads; 7];
    torn[0].presentation_sequence += 1;
    torn[1].end_presentation_sequence += 2;
    torn[2].slot.sequence += 1;
    torn[3].end_sequence += 2;
    torn[4].end_active_slot ^= 1;
    torn[5].end_live_sequence += 2;
    torn[6].end_live_active_slot ^= 1;
    for loads in torn {
        assert!(!loads.accept(&mut view));
        assert_eq!(view, kept);
    }
}

struct Disturbed {
    loads: PublicationLoads,
    disturbances: usize,
    attempts: Cell<usize>,
}

impl PublicationSource for Disturbed {
    fn load(&self, attempt: usize) -> PublicationLoads {
        assert_eq!(attempt, self.attempts.get());
        self.attempts.set(attempt + 1);
        let mut loads = self.loads;
        if attempt < self.disturbances {
            loads.end_presentation_sequence += 2;
        }
        loads
    }
}

#[test]
fn readers_give_up_after_a_few_attempts() {
    let mut publication = WaveformPublication::new();
    publication.update_transport(transport(Some(1.5), Some(120.0), true));
    for disturbances in 0..6 {
        let source = Disturbed {
            loads: publication.loads(),
            disturbances,
            attempts: Cell::new(0),
        };
        let mut view = WaveformView::new();
        let coherent = read_from(&source, &mut view);
        assert_eq!(coherent, disturbances < MAX_ENVELOPE_READ_RETRIES);
        assert_eq!(view.is_playing, coherent);
        assert_eq!(
            source.attempts.get(),
            (disturbances + 1).min(MAX_ENVELOPE_READ_RETRIES)
        );
    }
}

#[test]
fn rolling_windows_follow_each_other_without_a_gap() {
    let mut engine = CaptureEngine::with_capacity(double(4.0), 64);
    let mut publication = WaveformPublication::new();
    let left = samples(&[0.1, 0.2, 0.3, 0.4, 0.5]);
    engine.process_block(
        &left,
        &left,
        transport(None, None, true),
        &mut publication,
    );
    let view = read(&publication);
    assert_eq!(view.snapshot_revision, 2);
    assert_eq!(view.snapshot_mode, SnapshotMode::UnsyncedFallback);
    assert_eq!(view.sample_count, 2);
    assert_eq!(view.envelope[0].max, single(0.3));
    assert_eq!(view.envelope[512].max, single(0.4));
    assert!(view.live_valid);
    assert_eq!(view.live_sample_count, 1);
    assert_eq!(view.live_envelope[0].max, single(0.5));
}

#[test]
fn fallbacks_replace_a_synced_preview() {
    let mut engine = CaptureEngine::with_capacity(double(4.0), 64);
    let mut publication = WaveformPublication::new();
    let block = samples(&[0.5, 0.5]);
    engine.process_block(
        &block,
        &block,
        transport(Some(0.0), Some(60.0), true),
        &mut publication,
    );
    let view = read(&publication);
    assert!(view.live_valid);
    assert_eq!(view.live_mode, SnapshotMode::Synced);

    engine.process_block(
        &block,
        &block,
        transport(None, Some(60.0), true),
        &mut publication,
    );
    let view = read(&publication);
    assert!(view.live_valid);
    assert_eq!(view.live_mode, SnapshotMode::UnsyncedTempo);
    assert_eq!(view.live_sample_count, 2);

    publication.set_selected_window(WindowLength::TwoBeats);
    engine.process_block(
        &block,
        &block,
        transport(None, None, true),
        &mut publication,
    );
    let view = read(&publication);
    assert_eq!(view.live_mode, SnapshotMode::UnsyncedFallback);
    assert_eq!(view.live_window, WindowLength::TwoBeats);
    assert_eq!(view.snapshot_mode, SnapshotMode::UnsyncedFallback);
}

#[test]
fn interrupted_blocks_act_as_on_an_engine_with_nothing_in_progress() {
    let first = samples(&[0.9, 0.9]);
    let second = samples(&[0.1, 0.2]);
    let mut interrupted = CaptureEngine::with_capacity(double(4.0), 64);
    let mut publication = WaveformPublication::new();
    interrupted.process_block(
        &first,
        &first,
        transport(Some(0.0), Some(60.0), true),
        &mut publication,
    );
    interrupted.process_block(
        &second,
        &second,
        transport(Some(8.0), Some(60.0), true),
        &mut publication,
    );
    let after_seek = read(&publication);

    let mut fresh = CaptureEngine::with_capacity(double(4.0), 64);
    let mut publication = WaveformPublication::new();
    fresh.process_block(
        &second,
        &second,
        transport(Some(8.0), Some(60.0), true),
        &mut publication,
    );
    let without_history = read(&publication);
    assert_eq!(after_seek.live_envelope, without_history.live_envelope);
    assert_eq!(after_seek.live_sample_count, without_history.live_sample_count);
    assert_eq!(after_seek.live_beat_index, Some(8));
    assert_eq!(after_seek.snapshot_revision, 0);
}

#[test]
fn resets_forget_what_is_in_progress() {
    let mut engine = CaptureEngine::with_capacity(double(4.0), 64);
    let mut publication = WaveformPublication::new();
    let block = samples(&[0.5]);
    engine.process_block(
        &block,
        &block,
        transport(None, None, true),
        &mut publication,
    );
    assert!(read(&publication).live_valid);
    engine.reset(&mut publication);
    let view = read(&publication);
    assert!(!view.live_valid);
    assert!(view.display_valid);
    engine.process_block(
        &block,
        &block,
        transport(None, None, true),
        &mut publication,
    );
    let view = read(&publication);
    assert_eq!(view.snapshot_revision, 0);
    assert_eq!(view.live_sample_count, 1);
}

#[test]
fn audio_passes_through_to_the_bit() {
    let input = samples(&[0.5, -0.0, f32::NAN, f32::INFINITY, 1.0e-45, 2.0]);
    let mut left = Channel {
        input: Some(input.clone()),
        output: Some(samples(&[9.0; 6])),
    };
    let mut right = Channel {
        input: Some(samples(&[0.25; 6])),
        output: None,
    };
    let mut engine = CaptureEngine::new(double(48_000.0));
    let mut publication = WaveformPublication::new();
    process_stereo_pair(
        &mut engine,
        &mut left,
        &mut right,
        transport(Some(0.0), Some(120.0), true),
        &mut publication,
    );
    assert_eq!(left.output, Some(input.clone()));
    assert_eq!(left.input, Some(input));
    assert_eq!(right.input, Some(samples(&[0.25; 6])));
}

#[test]
fn usable_blocks_share_addresses_in_place_only() {
    assert!(validate_stereo_aliases(0x1000, 0x2000, 0x1000, 0x2000, 8));
    assert!(!validate_stereo_aliases(0x1000, 0x2000, 0x1004, 0x2000, 8));
    assert!(!validate_stereo_aliases(0x1000, 0x2000, 0x2000, 0x1000, 8));
    assert!(ranges_overlap((4, 8), (7, 20)));
    assert!(!ranges_overlap((4, 8), (8, 20)));
}

#[test]
fn drags_count_from_where_they_began() {
    let mut state = EditorState::new();
    state.waveform_offset = single(0.5);
    state.reduce(EditorMessage::BeginWaveformOffset {
        pointer_x: single(0.1),
    });
    state.reduce(EditorMessage::DragWaveformOffset { delta: single(0.2) });
    state.reduce(EditorMessage::DragWaveformOffset {
        delta: single(0.25),
    });
    assert_eq!(state.waveform_offset, single(0.75));
    state.reduce(EditorMessage::CancelWaveformOffset);
    assert_eq!(state.waveform_offset, single(0.5));
    state.reduce(EditorMessage::DragWaveformOffset { delta: single(0.2) });
    assert_eq!(state.waveform_offset, single(0.5));
    state.reduce(EditorMessage::BeginWaveformOffset {
        pointer_x: single(0.1),
    });
    state.reduce(EditorMessage::SetWaveformModifiers {
        command_held: false,
        shift_held: true,
    });
    assert_eq!(state.active_waveform_offset, None);
    state.reduce(EditorMessage::ResetWaveformOffset);
    assert_eq!(state.waveform_offset, single(0.0));
}

#[test]
fn prefixes_cover_their_samples_and_grow_with_them() {
    for target in [1usize, 3, 1000, 1024, 5000] {
        let mut last = 0;
        for count in 0..=target {
            let bins = captured_prefix_bins(count, target);
            assert!(last <= bins && bins <= ENVELOPE_BINS);
            for index in [0, count / 2, count.saturating_sub(1)] {
                if index < count {
                    assert!(index * ENVELOPE_BINS / target < bins);
                }
            }
            last = bins;
        }
        assert_eq!(last, ENVELOPE_BINS);
    }
}

#[test]
fn offsets_in_range_are_their_own_normal_form() {
    for offset in [0.0, -0.0, 1.0e-45, 0.1, 0.5, 0.999_999_94] {
        assert_eq!(normalize_waveform_offset(single(offset)), single(offset));
    }
    assert_eq!(normalize_waveform_offset(single(1.0)), single(0.0));
}

#[test]
fn published_values_are_compared_as_numbers() {
    let zero = EnvelopePoint {
        min: single(0.0),
        max: single(-0.0),
    };
    assert_eq!(zero, EnvelopePoint::flat());
    let broken = EnvelopePoint {
        min: single(f32::NAN),
        max: single(0.0),
    };
    assert_ne!(broken, broken);
    assert_eq!(
        transport(Some(-0.0), None, true),
        transport(Some(0.0), None, true)
    );
    assert_ne!(
        transport(Some(f64::NAN), None, true),
        transport(Some(f64::NAN), None, true)
    );
    assert_ne!(
        transport(Some(0.0), None, true),
        transport(None, None, true)
    );
    assert_eq!(
        EditorMessage::DragWaveformOffset { delta: single(-0.0) },
        EditorMessage::DragWaveformOffset { delta: single(0.0) }
    );
    assert_ne!(
        EditorMessage::DragWaveformOffset { delta: single(0.0) },
        EditorMessage::EndWaveformOffset { delta: single(0.0) }
    );
    assert_eq!(EditorMessage::ToggleHelp, EditorMessage::ToggleHelp);
    assert_ne!(EditorMessage::ToggleHelp, EditorMessage::DismissTransient);
    let drag = WaveformOffsetDrag {
        origin_offset: single(0.0),
        start_pointer_x: single(f32::NAN),
    };
    assert_ne!(drag, drag);

    let mut view = WaveformView::new();
    view.envelope[1023].max = single(-0.0);
    assert_eq!(view, WaveformView::new());
    view.envelope[1023].max = single(0.5);
    assert_ne!(view, WaveformView::new());
    let mut view = WaveformView::new();
    view.current_tempo_bpm = Some(single(f32::NAN));
    assert_ne!(view, view);
}

#[test]
fn published_words_tell_changes() {
    assert!(!selection_changes(2, WindowLength::FourBeats));
    assert!(selection_changes(2, WindowLength::OneBeat));
    assert!(!selection_changes(99, WindowLength::OneBeat));
    assert!(!sample_rate_changes(
        44_100.0_f64.to_bits(),
        double(44_100.0)
    ));
    assert!(sample_rate_changes(
        44_100.0_f64.to_bits(),
        double(48_000.0)
    ));
    assert_eq!((live_word(false), live_word(true)), (0, 1));
}

#[test]
fn readers_can_rely_on_any_published_values() {
    let mut publication = WaveformPublication::new();
    let envelope = [EnvelopePoint::unfilled(); ENVELOPE_BINS];
    publication.publish_live_preview(
        transport(Some(f64::INFINITY), Some(1000.0), true),
        SnapshotMode::Synced,
        WindowLength::TwoBeats,
        Some(double(19.0)),
        Some(7),
        90,
        60,
        &envelope,
    );
    publication.publish_envelope(
        SnapshotMode::Synced,
        WindowLength::TwoBeats,
        Some(double(f64::NAN)),
        None,
        5,
        &envelope,
    );
    let view = read(&publication);
    assert_eq!(view.live_sample_count, 60);
    assert_eq!(view.target_sample_count, 60);
    assert_eq!(view.live_tempo_bpm, None);
    assert_eq!(view.snapshot_tempo_bpm, None);
    assert_eq!(view.current_tempo_bpm, None);
    assert_eq!(view.current_song_pos_beats, None);
    assert!(!view.timeline_available);
    assert!(view.live_envelope.iter().all(|point| point.min.le(point.max)));
    assert!(view.envelope.iter().all(|point| point.min.le(point.max)));
    assert_eq!(view.redraw_revision, 1);
    assert_eq!(publication.selected_window(), WindowLength::OneBeat);
}

#[test]
fn held_samples_count_towards_the_next_rolling_window() {
    let mut engine = CaptureEngine::with_capacity(double(8.0), 64);
    let mut publication = WaveformPublication::new();
    let rolling = transport(None, None, true);
    let first = samples(&[0.1, 0.2, 0.3]);
    engine.process_block(&first, &first, rolling, &mut publication);
    assert_eq!(read(&publication).snapshot_revision, 0);
    let more = samples(&[0.4, 0.5, 0.6, 0.7, 0.8, 0.9]);
    engine.process_block(&more, &more, rolling, &mut publication);
    let view = read(&publication);
    assert_eq!(view.snapshot_revision, 2);
    assert_eq!(view.sample_count, 4);
    assert_eq!(view.envelope[0].max, single(0.5));
    assert_eq!(view.envelope[768].max, single(0.8));
    assert_eq!(view.live_sample_count, 1);
    assert_eq!(view.live_envelope[0].max, single(0.9));
}
