//! Capture and publication, from windows and phases to whole blocks.

use wave::binary::{Binary32, Binary64};
use wave::engine::CaptureEngine;
use wave::envelope::{accumulate_capture_envelope, EnvelopePoint, ENVELOPE_BINS};
use wave::publication::{LiveUpdate, WaveformPublication};
use wave::timing::{
    aligned_window_start, current_phase, fallback_window_samples, grid_x, quarter_window_samples,
    window_phase, window_samples, TransportInfo, MAX_CAPTURE_SAMPLES,
};
use wave::view::WaveformView;
use wave::window::{SnapshotMode, WindowLength};

fn double(value: f64) -> Binary64 {
    Binary64::from_bits(value.to_bits())
}

fn single(value: f32) -> Binary32 {
    Binary32::from_bits(value.to_bits())
}

fn float(value: Binary32) -> f32 {
    f32::from_bits(value.bits)
}

fn point(min: f32, max: f32) -> EnvelopePoint {
    EnvelopePoint {
        min: single(min),
        max: single(max),
    }
}

fn transport(position: Option<f64>, tempo: Option<f64>, playing: bool) -> TransportInfo {
    TransportInfo {
        tempo_bpm: tempo.map(double),
        song_pos_beats: position.map(double),
        is_playing: playing,
    }
}

fn play(
    engine: &mut CaptureEngine,
    left: &[f32],
    right: &[f32],
    transport: TransportInfo,
    publication: &mut WaveformPublication,
) {
    let left: Vec<Binary32> = left.iter().map(|sample| single(*sample)).collect();
    let right: Vec<Binary32> = right.iter().map(|sample| single(*sample)).collect();
    engine.process_block(&left, &right, transport, publication);
}

fn read(publication: &WaveformPublication) -> WaveformView {
    let mut view = WaveformView::new();
    assert!(publication.read_view(&mut view));
    view
}

#[test]
fn quarter_and_fallback_window_math_is_bounded() {
    assert_eq!(
        quarter_window_samples(double(48_000.0), double(120.0), 100_000),
        Some(24_000)
    );
    assert_eq!(fallback_window_samples(double(48_000.0), 100_000), 24_000);
    assert_eq!(quarter_window_samples(double(48_000.0), double(10.0), 100), None);
    assert_eq!(fallback_window_samples(double(48_000.0), 100), 100);
    assert_eq!(
        window_samples(double(192_000.0), double(20.0),
            WindowLength::EightBeats,
            MAX_CAPTURE_SAMPLES,
        ),
        Some(4_608_000)
    );
    assert_eq!(
        window_samples(double(192_000.0), double(20.0), WindowLength::EightBeats, 4_607_999),
        None
    );
    assert_eq!(
        window_samples(double(192_000.0), double(20.0), WindowLength::FourBeats, 2_304_000),
        Some(2_304_000)
    );
}

#[test]
fn window_length_domain_has_stable_labels_and_validated_raw_selection() {
    assert_eq!(WindowLength::DEFAULT, WindowLength::OneBeat);
    assert_eq!(WindowLength::ALL.len(), 4);
    assert_eq!(WindowLength::OneBeat.beats(), 1);
    assert_eq!(WindowLength::TwoBeats.beats(), 2);
    assert_eq!(WindowLength::FourBeats.beats(), 4);
    assert_eq!(WindowLength::EightBeats.beats(), 8);
    let expected_order = [
        WindowLength::OneBeat,
        WindowLength::TwoBeats,
        WindowLength::FourBeats,
        WindowLength::EightBeats,
    ];
    assert_eq!(WindowLength::ALL, expected_order);
    for (window, expected_label) in expected_order.into_iter().zip(["1:4", "1:2", "1:1", "2:1"])
    {
        assert_eq!(window.label(), expected_label);
        assert_eq!(WindowLength::from_raw(window.as_raw()), window);
    }
    assert_eq!(WindowLength::from_raw(u32::MAX), WindowLength::OneBeat);

    let mut publication = WaveformPublication::new();
    assert_eq!(publication.selected_window(), WindowLength::DEFAULT);
    assert!(!publication.set_selected_window(WindowLength::OneBeat));
    assert_eq!(publication.redraw_revision(), 0);
    assert!(publication.set_selected_window(WindowLength::FourBeats));
    assert_eq!(publication.selected_window(), WindowLength::FourBeats);
    assert_eq!(publication.redraw_revision(), 1);
    assert!(!publication.set_selected_window(WindowLength::FourBeats));
    assert_eq!(publication.redraw_revision(), 1);
    for window in WindowLength::ALL {
        publication.set_selected_window(window);
        assert_eq!(publication.selected_window(), window);
    }
}

#[test]
fn multi_beat_alignment_is_floor_safe_for_negative_positions() {
    assert_eq!(
        aligned_window_start(double(-8.0), WindowLength::FourBeats),
        Some(-8)
    );
    assert_eq!(
        aligned_window_start(double(-7.99), WindowLength::FourBeats),
        Some(-8)
    );
    assert_eq!(
        aligned_window_start(double(-4.0), WindowLength::FourBeats),
        Some(-4)
    );
    assert_eq!(
        aligned_window_start(double(-0.01), WindowLength::FourBeats),
        Some(-4)
    );
    assert_eq!(aligned_window_start(double(0.0), WindowLength::FourBeats), Some(0));
    assert_eq!(aligned_window_start(double(3.99), WindowLength::FourBeats), Some(0));
    assert_eq!(aligned_window_start(double(4.0), WindowLength::FourBeats), Some(4));
    assert_eq!(aligned_window_start(double(f64::MIN), WindowLength::OneBeat), None);
    assert_eq!(
        aligned_window_start(double(i64::MAX as f64), WindowLength::EightBeats),
        None
    );
    assert_eq!(
        window_phase(Some(double(-0.25)), WindowLength::FourBeats),
        Some(single(0.9375))
    );
}

#[test]
fn grid_math_clamps_and_phase_tracks_the_current_beat() {
    assert_eq!(grid_x(double(0.0), double(1.0), single(200.0)), single(0.0));
    assert_eq!(grid_x(double(0.5), double(1.0), single(200.0)), single(100.0));
    assert_eq!(grid_x(double(2.0), double(1.0), single(200.0)), single(200.0));
    assert_eq!(current_phase(Some(double(3.25))), Some(single(0.25)));
    assert_eq!(current_phase(Some(double(-0.25))), Some(single(0.75)));
    assert_eq!(current_phase(None), None);
}

#[test]
fn publication_exposes_a_coherent_min_max_envelope() {
    let mut publication = WaveformPublication::new();
    let mut envelope = [EnvelopePoint::flat(); ENVELOPE_BINS];
    envelope[0] = point(-1.0, 0.25);
    envelope[1] = point(0.5, 0.75);
    publication.publish_envelope(
        SnapshotMode::Synced,
        WindowLength::DEFAULT,
        Some(double(120.0)),
        Some(4),
        4,
        &envelope,
    );
    let view = read(&publication);
    assert_eq!(view.snapshot_revision, 1);
    assert_eq!(view.snapshot_mode, SnapshotMode::Synced);
    assert_eq!(view.snapshot_beat_index, Some(4));
    assert_eq!(view.sample_count, 4);
    assert!(view.envelope.iter().any(|point| float(point.min) < 0.0));
    assert!(view.envelope.iter().any(|point| float(point.max) > 0.7));
}

#[test]
fn publication_keeps_window_metadata_with_each_lane() {
    let mut publication = WaveformPublication::new();
    let envelope = [point(-0.5, 0.75); ENVELOPE_BINS];
    publication.publish_envelope(
        SnapshotMode::Synced,
        WindowLength::FourBeats,
        Some(double(120.0)),
        Some(4),
        8,
        &envelope,
    );
    publication.publish_live_preview(
        transport(Some(8.25), Some(120.0), true),
        SnapshotMode::Synced,
        WindowLength::EightBeats,
        Some(double(120.0)),
        Some(8),
        4,
        16,
        &envelope,
    );

    let view = read(&publication);
    assert_eq!(view.snapshot_window, WindowLength::FourBeats);
    assert_eq!(view.live_window, WindowLength::EightBeats);
}

#[test]
fn outer_publication_sequence_rejects_completed_mutation_until_commit() {
    let mut publication = WaveformPublication::new();
    let generation_a_envelope = [point(-0.25, 0.25); ENVELOPE_BINS];
    let generation_b_envelope = [point(-0.9, 0.8); ENVELOPE_BINS];

    publication.publish_envelope(
        SnapshotMode::Synced,
        WindowLength::OneBeat,
        Some(double(60.0)),
        Some(0),
        8,
        &generation_a_envelope,
    );
    publication.update_transport(transport(Some(0.0), Some(60.0), false));
    let generation_a = read(&publication);

    let transaction = publication.begin_publication();
    transaction.publish_envelope(
        &mut publication,
        SnapshotMode::Synced,
        WindowLength::FourBeats,
        Some(double(120.0)),
        Some(8),
        32,
        &generation_b_envelope,
    );
    assert_eq!(
        publication.transport_sequence & 1,
        1
    );

    let mut retained = generation_a;
    assert!(!publication.read_view(&mut retained));
    assert_eq!(retained, generation_a);

    transaction.publish_presentation(
        &mut publication,
        Some(transport(Some(8.0), Some(120.0), true)),
        LiveUpdate::Keep,
    );
    transaction.commit(&mut publication);
    assert_eq!(
        publication.transport_sequence & 1,
        0
    );

    let generation_b = read(&publication);
    assert_eq!(generation_b.snapshot_revision, 2);
    assert_eq!(generation_b.snapshot_mode, SnapshotMode::Synced);
    assert_eq!(generation_b.snapshot_window, WindowLength::FourBeats);
    assert_eq!(generation_b.snapshot_tempo_bpm, Some(single(120.0)));
    assert_eq!(generation_b.snapshot_beat_index, Some(8));
    assert_eq!(generation_b.sample_count, 32);
    assert_eq!(generation_b.envelope, generation_b_envelope);
    assert_eq!(generation_b.current_tempo_bpm, Some(single(120.0)));
    assert_eq!(generation_b.current_song_pos_beats, Some(double(8.0)));
    assert!(generation_b.is_playing);
}

#[test]
fn live_preview_is_visible_before_a_completed_frame() {
    let mut publication = WaveformPublication::new();
    let mut engine = CaptureEngine::with_capacity(double(60.0), 120);
    play(
        &mut engine,
        &[0.25; 4],
        &[0.75; 4],
        transport(Some(0.0), Some(60.0), true),
        &mut publication,
    );

    let view = read(&publication);
    assert_eq!(view.snapshot_revision, 0);
    assert_eq!(view.live_revision, 1);
    assert!(view.live_valid);
    assert_eq!(view.live_mode, SnapshotMode::Synced);
    assert_eq!(view.live_beat_index, Some(0));
    assert_eq!(view.live_sample_count, 4);
    assert_eq!(view.target_sample_count, 60);
    assert_eq!(view.live_envelope[0].min, single(0.25));
    assert_eq!(view.live_envelope[0].max, single(0.75));
}

#[test]
fn live_preview_updates_when_amplitude_changes() {
    let mut publication = WaveformPublication::new();
    let mut engine = CaptureEngine::with_capacity(double(60.0), 120);
    play(
        &mut engine,
        &[0.1],
        &[0.1],
        transport(Some(0.0), Some(60.0), true),
        &mut publication,
    );
    let first = read(&publication);

    play(
        &mut engine,
        &[0.9],
        &[0.9],
        transport(Some(1.0 / 60.0), Some(60.0), true),
        &mut publication,
    );
    let second = read(&publication);

    assert!(second.live_revision > first.live_revision);
    assert!(second.live_envelope.iter().any(|point| float(point.max) > 0.8));
    assert_ne!(second.live_envelope, first.live_envelope);
    assert_eq!(second.snapshot_revision, first.snapshot_revision);
}

#[test]
fn live_preview_publishes_at_most_once_per_block() {
    let mut publication = WaveformPublication::new();
    let mut engine = CaptureEngine::with_capacity(double(120.0), 240);
    let block = [0.5; 8];
    play(
        &mut engine,
        &block,
        &block,
        transport(Some(0.0), Some(60.0), true),
        &mut publication,
    );
    assert_eq!(read(&publication).live_revision, 1);

    play(
        &mut engine,
        &block,
        &block,
        transport(Some(8.0 / 120.0), Some(60.0), true),
        &mut publication,
    );
    assert_eq!(read(&publication).live_revision, 2);
}

#[test]
fn live_preview_waits_for_a_full_cadence_after_immediate_publication() {
    let mut publication = WaveformPublication::new();
    let mut engine = CaptureEngine::with_capacity(double(120.0), 240);
    let initial_block = [0.5; 3];
    let sub_cadence_block = [0.5; 1];

    play(
        &mut engine,
        &initial_block,
        &initial_block,
        transport(Some(0.0), Some(60.0), true),
        &mut publication,
    );
    assert_eq!(read(&publication).live_revision, 1);

    play(
        &mut engine,
        &sub_cadence_block,
        &sub_cadence_block,
        transport(Some(3.0 / 120.0), Some(60.0), true),
        &mut publication,
    );
    assert_eq!(read(&publication).live_revision, 1);

    play(
        &mut engine,
        &sub_cadence_block,
        &sub_cadence_block,
        transport(Some(4.0 / 120.0), Some(60.0), true),
        &mut publication,
    );
    assert_eq!(read(&publication).live_revision, 2);
}

#[test]
fn completed_and_live_revisions_are_independent() {
    let mut publication = WaveformPublication::new();
    let envelope = [point(-0.25, 0.5); ENVELOPE_BINS];
    publication.publish_envelope(
        SnapshotMode::Synced,
        WindowLength::DEFAULT,
        Some(double(60.0)),
        Some(3),
        60,
        &envelope,
    );
    let completed = read(&publication);
    assert_eq!(completed.snapshot_revision, 1);
    assert_eq!(completed.live_revision, 0);

    publication.publish_live_preview(
        transport(Some(3.25), Some(60.0), true),
        SnapshotMode::Synced,
        WindowLength::DEFAULT,
        Some(double(60.0)),
        Some(3),
        12,
        60,
        &envelope,
    );
    let first_live = read(&publication);
    assert_eq!(first_live.snapshot_revision, 1);
    assert_eq!(first_live.live_revision, 1);

    publication.publish_live_preview(
        transport(Some(3.5), Some(60.0), true),
        SnapshotMode::Synced,
        WindowLength::DEFAULT,
        Some(double(60.0)),
        Some(3),
        24,
        60,
        &envelope,
    );
    let second_live = read(&publication);
    assert_eq!(second_live.snapshot_revision, 1);
    assert_eq!(second_live.live_revision, 2);
}

#[test]
fn stop_and_discontinuity_retain_live_prefix_without_publishing_completion() {
    let mut publication = WaveformPublication::new();
    let mut engine = CaptureEngine::with_capacity(double(60.0), 120);
    play(
        &mut engine,
        &[0.5; 2],
        &[0.5; 2],
        transport(Some(0.0), Some(60.0), true),
        &mut publication,
    );
    assert!(read(&publication).live_valid);

    play(
        &mut engine,
        &[],
        &[],
        transport(Some(2.0 / 60.0), Some(60.0), false),
        &mut publication,
    );
    let stopped = read(&publication);
    assert!(!stopped.live_valid);
    assert_eq!(stopped.snapshot_revision, 0);
    assert!(stopped.display_valid);
    assert_eq!(stopped.display_sample_count, 2);
    assert_eq!(stopped.display_envelope[0].min, single(0.5));
    assert_eq!(stopped.display_envelope[0].max, single(0.5));

    play(
        &mut engine,
        &[0.5],
        &[0.5],
        transport(Some(0.0), Some(60.0), true),
        &mut publication,
    );
    assert!(read(&publication).live_valid);
    play(
        &mut engine,
        &[0.5; 2],
        &[0.5; 2],
        transport(Some(3.25), Some(60.0), true),
        &mut publication,
    );
    let discontinuity = read(&publication);
    assert!(!discontinuity.live_valid);
    assert_eq!(discontinuity.snapshot_revision, 0);
    assert!(discontinuity.display_valid);
    assert_eq!(discontinuity.display_sample_count, 1);
    assert_eq!(discontinuity.display_envelope[0].min, single(0.5));
    assert_eq!(discontinuity.display_envelope[0].max, single(0.5));
}

#[test]
fn clearing_live_capture_retains_the_last_completed_envelope_for_display() {
    let mut publication = WaveformPublication::new();
    let envelope = [point(-0.75, 0.9); ENVELOPE_BINS];
    publication.publish_envelope(
        SnapshotMode::Synced,
        WindowLength::TwoBeats,
        Some(double(60.0)),
        Some(0),
        120,
        &envelope,
    );
    let completed = read(&publication);
    publication.publish_live_preview(
        transport(Some(1.25), Some(60.0), true),
        SnapshotMode::Synced,
        WindowLength::TwoBeats,
        Some(double(60.0)),
        Some(0),
        20,
        120,
        &envelope,
    );
    assert!(read(&publication).live_valid);
    publication.clear_live_preview_with_transport(transport(Some(4.0), Some(60.0), false));
    let cleared = read(&publication);
    assert!(!cleared.live_valid);
    assert_eq!(cleared.snapshot_revision, completed.snapshot_revision);
    assert_eq!(cleared.snapshot_window, WindowLength::TwoBeats);
    assert_eq!(cleared.envelope, completed.envelope);
    assert!(cleared.display_valid);
    assert_eq!(cleared.display_sample_count, 20);
    assert_eq!(cleared.display_envelope, completed.envelope);
}

#[test]
fn selection_change_resets_partial_and_live_but_retains_completed_snapshot() {
    let mut publication = WaveformPublication::new();
    let mut engine = CaptureEngine::with_capacity(double(60.0), 512);
    let block = [0.25; 60];
    play(
        &mut engine,
        &block,
        &block,
        transport(Some(0.0), Some(60.0), true),
        &mut publication,
    );
    play(
        &mut engine,
        &[0.25],
        &[0.25],
        transport(Some(1.0), Some(60.0), true),
        &mut publication,
    );
    let completed = read(&publication);
    assert_eq!(completed.snapshot_revision, 1);
    assert_eq!(completed.snapshot_window, WindowLength::OneBeat);

    publication.set_selected_window(WindowLength::TwoBeats);
    play(
        &mut engine,
        &[0.9; 4],
        &[0.9; 4],
        transport(Some(1.0), Some(60.0), true),
        &mut publication,
    );
    let after_change = read(&publication);
    assert_eq!(after_change.snapshot_revision, completed.snapshot_revision);
    assert_eq!(after_change.snapshot_window, WindowLength::OneBeat);
    assert_eq!(after_change.envelope, completed.envelope);
    assert!(!after_change.live_valid);
    assert!(after_change.display_valid);
    assert_eq!(after_change.display_window, WindowLength::OneBeat);
    assert_eq!(after_change.display_sample_count, 1);
    assert_eq!(after_change.display_target_sample_count, 60);
    assert_eq!(after_change.display_envelope[0].min, single(0.25));
    assert_eq!(after_change.display_envelope[0].max, single(0.25));
}

#[test]
fn selection_reset_retains_visible_partial_for_display_without_completed_snapshot() {
    let mut publication = WaveformPublication::new();
    let mut engine = CaptureEngine::with_capacity(double(60.0), 512);
    play(
        &mut engine,
        &[0.25; 4],
        &[0.75; 4],
        transport(Some(0.0), Some(60.0), true),
        &mut publication,
    );
    let before_change = read(&publication);
    assert_eq!(before_change.snapshot_revision, 0);
    assert!(before_change.live_valid);

    publication.set_selected_window(WindowLength::TwoBeats);
    play(
        &mut engine,
        &[0.9; 4],
        &[0.9; 4],
        transport(Some(0.25), Some(60.0), true),
        &mut publication,
    );

    let after_change = read(&publication);
    assert_eq!(after_change.snapshot_revision, 0);
    assert!(!after_change.live_valid);
    assert!(after_change.display_valid);
    assert_eq!(after_change.display_window, WindowLength::OneBeat);
    assert_eq!(after_change.display_sample_count, 4);
    assert_eq!(after_change.display_envelope[0].min, single(0.25));
    assert_eq!(after_change.display_envelope[0].max, single(0.75));
}

#[test]
fn tempo_only_rolling_capture_uses_the_selected_multi_beat_length() {
    let mut publication = WaveformPublication::new();
    publication.set_selected_window(WindowLength::FourBeats);
    let mut engine = CaptureEngine::with_capacity(double(4.0), 64);
    let target = window_samples(double(4.0), double(60.0), WindowLength::FourBeats, 64).unwrap();
    let first = vec![0.5; target - 1];
    play(
        &mut engine,
        &first,
        &first,
        transport(None, Some(60.0), true),
        &mut publication,
    );
    let live = read(&publication);
    assert_eq!(live.snapshot_revision, 0);
    assert!(live.live_valid);
    assert_eq!(live.live_window, WindowLength::FourBeats);
    assert_eq!(live.target_sample_count, target);

    play(
        &mut engine,
        &[0.5],
        &[0.5],
        transport(None, Some(60.0), true),
        &mut publication,
    );
    let completed = read(&publication);
    assert_eq!(completed.snapshot_revision, 1);
    assert_eq!(completed.snapshot_mode, SnapshotMode::UnsyncedTempo);
    assert_eq!(completed.snapshot_window, WindowLength::FourBeats);
    assert_eq!(completed.sample_count, target);
}

#[test]
fn fallback_window_stays_500_ms_and_live_cadence_remains_bounded() {
    let mut publication = WaveformPublication::new();
    publication.set_selected_window(WindowLength::EightBeats);
    let mut engine = CaptureEngine::with_capacity(double(120.0), 120);
    let block = [0.5; 3];
    play(
        &mut engine,
        &block, &block, transport(None, None, true), &mut publication);
    let live = read(&publication);
    assert!(live.live_valid);
    assert_eq!(live.live_window, WindowLength::EightBeats);
    assert_eq!(live.target_sample_count, 60);

    play(
        &mut engine,
        &[0.5; 57],
        &[0.5; 57],
        transport(None, None, true),
        &mut publication,
    );
    let completed = read(&publication);
    assert_eq!(completed.snapshot_revision, 1);
    assert_eq!(completed.snapshot_mode, SnapshotMode::UnsyncedFallback);
    assert_eq!(completed.sample_count, 60);
    assert_eq!(completed.snapshot_window, WindowLength::EightBeats);
}

#[test]
fn live_reader_retries_when_the_active_slot_is_in_progress() {
    let mut publication = WaveformPublication::new();
    let envelope = [point(-0.5, 0.75); ENVELOPE_BINS];
    publication.publish_live_preview(
        transport(Some(0.0), Some(120.0), true),
        SnapshotMode::Synced,
        WindowLength::DEFAULT,
        Some(double(120.0)),
        Some(0),
        8,
        24,
        &envelope,
    );
    let previous = read(&publication);
    let active = publication.live_active_slot;
    let sequence = publication.live_slots[active].sequence;
    publication.live_slots[active].sequence = sequence | 1;

    let mut retained = previous;
    assert!(!publication.read_view(&mut retained));
    assert_eq!(retained, previous);

    publication.live_slots[active].sequence = sequence;
    assert!(publication.read_view(&mut retained));
}

#[test]
fn high_resolution_accumulation_preserves_a_narrow_peak() {
    let mut envelope = [EnvelopePoint::unfilled(); ENVELOPE_BINS];

    accumulate_capture_envelope(&mut envelope, 600, ENVELOPE_BINS, single(1.0), single(1.0));

    assert_eq!(envelope[600].min, single(1.0));
    assert_eq!(envelope[600].max, single(1.0));
    assert_eq!(envelope[599], EnvelopePoint::unfilled());
}

fn fallback_view(left: &[f32], right: &[f32]) -> WaveformView {
    let mut publication = WaveformPublication::new();
    let mut engine = CaptureEngine::with_capacity(double(4.0), 2);
    play(
        &mut engine,
        left, right, transport(None, None, true), &mut publication);
    read(&publication)
}

#[test]
fn anti_phase_full_scale_transient_preserves_both_channel_extrema() {
    let view = fallback_view(&[0.0, 1.0], &[0.0, -1.0]);
    let point = view.envelope[ENVELOPE_BINS / 2];

    assert_eq!(view.snapshot_revision, 1);
    assert_eq!(point.min, single(-1.0));
    assert_eq!(point.max, single(1.0));
}

#[test]
fn hard_panned_impulse_preserves_the_source_channel_peak() {
    let view = fallback_view(&[0.0, 1.0], &[0.0, 0.0]);
    let point = view.envelope[ENVELOPE_BINS / 2];

    assert_eq!(view.snapshot_revision, 1);
    assert_eq!(point.min, single(0.0));
    assert_eq!(point.max, single(1.0));
}

#[test]
fn transport_publication_keeps_validity_and_state_as_one_snapshot() {
    let mut publication = WaveformPublication::new();
    publication.update_transport(transport(Some(4.0), Some(120.0), true));
    let first = read(&publication);
    assert_eq!(first.current_song_pos_beats, Some(double(4.0)));
    assert!(first.timeline_available);
    assert!(first.is_playing);

    let transaction = publication.begin_publication();
    let mut interrupted = first;
    assert!(!publication.read_view(&mut interrupted));
    assert_eq!(interrupted, first);
    transaction.commit(&mut publication);

    publication.update_transport(transport(None, None, false));
    let second = read(&publication);
    assert_eq!(second.current_song_pos_beats, None);
    assert_eq!(second.current_tempo_bpm, None);
    assert!(!second.timeline_available);
    assert!(!second.is_playing);
}

#[test]
fn synced_capture_publishes_only_a_complete_quarter() {
    let mut publication = WaveformPublication::new();
    let mut engine = CaptureEngine::with_capacity(double(8.0), 64);
    let left = [0.25; 4];
    let right = [0.75; 4];
    play(
        &mut engine,
        &left,
        &right,
        transport(Some(0.0), Some(60.0), true),
        &mut publication,
    );
    assert_eq!(read(&publication).snapshot_revision, 0);
    play(
        &mut engine,
        &left,
        &right,
        transport(Some(0.5), Some(60.0), true),
        &mut publication,
    );
    assert_eq!(read(&publication).snapshot_revision, 0);
    play(
        &mut engine,
        &left,
        &right,
        transport(Some(1.0), Some(60.0), true),
        &mut publication,
    );
    let view = read(&publication);
    assert_eq!(view.snapshot_revision, 1);
    assert_eq!(view.snapshot_beat_index, Some(0));
    assert_eq!(view.sample_count, 8);
    assert_eq!(view.snapshot_tempo_bpm, Some(single(60.0)));
    assert_eq!(view.current_tempo_bpm, Some(single(60.0)));
    assert_eq!(view.current_song_pos_beats, Some(double(1.0)));
    assert!(view.is_playing);
}

#[test]
fn synced_capture_completes_each_selected_window_at_aligned_boundaries() {
    for window in WindowLength::ALL {
        let mut publication = WaveformPublication::new();
        publication.set_selected_window(window);
        let mut engine = CaptureEngine::with_capacity(double(4.0), 64);
        let target = window_samples(double(4.0), double(60.0), window, 64).expect("test window fits");
        let block = vec![0.5; target];
        play(
        &mut engine,
        &block,
            &block,
            transport(Some(0.0), Some(60.0), true),
            &mut publication,
        );
        assert_eq!(read(&publication).snapshot_revision, 0);

        play(
        &mut engine,
        &[0.5],
            &[0.5],
            transport(Some(f64::from(window.beats())), Some(60.0), true),
            &mut publication,
        );
        let view = read(&publication);
        assert_eq!(view.snapshot_revision, 1);
        assert_eq!(view.snapshot_window, window);
        assert_eq!(view.snapshot_beat_index, Some(0));
        assert_eq!(view.sample_count, target);
    }
}

#[test]
fn synced_startup_mid_window_waits_for_the_next_aligned_boundary() {
    let mut publication = WaveformPublication::new();
    publication.set_selected_window(WindowLength::FourBeats);
    let mut engine = CaptureEngine::with_capacity(double(4.0), 64);
    play(
        &mut engine,
        &[0.5; 2],
        &[0.5; 2],
        transport(Some(1.0), Some(60.0), true),
        &mut publication,
    );
    let waiting = read(&publication);
    assert_eq!(waiting.snapshot_revision, 0);
    assert!(!waiting.live_valid);

    play(
        &mut engine,
        &[0.5; 2],
        &[0.5; 2],
        transport(Some(3.5), Some(60.0), true),
        &mut publication,
    );
    let still_waiting = read(&publication);
    assert_eq!(still_waiting.snapshot_revision, 0);
    assert!(!still_waiting.live_valid);

    play(
        &mut engine,
        &[0.5],
        &[0.5],
        transport(Some(4.0), Some(60.0), true),
        &mut publication,
    );
    let live = read(&publication);
    assert!(live.live_valid);
    assert_eq!(live.live_window, WindowLength::FourBeats);
    assert_eq!(live.live_beat_index, Some(4));
}

#[test]
fn synced_negative_window_publishes_with_its_negative_start_beat() {
    let mut publication = WaveformPublication::new();
    publication.set_selected_window(WindowLength::FourBeats);
    let mut engine = CaptureEngine::with_capacity(double(4.0), 64);
    let block = [0.5; 16];
    play(
        &mut engine,
        &block,
        &block,
        transport(Some(-4.0), Some(60.0), true),
        &mut publication,
    );
    play(
        &mut engine,
        &[0.5],
        &[0.5],
        transport(Some(0.0), Some(60.0), true),
        &mut publication,
    );
    let view = read(&publication);
    assert_eq!(view.snapshot_revision, 1);
    assert_eq!(view.snapshot_beat_index, Some(-4));
    assert_eq!(view.snapshot_window, WindowLength::FourBeats);
}

#[test]
fn seek_discards_partial_capture_and_stop_holds_last_snapshot() {
    let mut publication = WaveformPublication::new();
    let mut engine = CaptureEngine::with_capacity(double(8.0), 64);
    let left = [0.25; 4];
    let right = [0.75; 4];
    play(
        &mut engine,
        &left,
        &right,
        transport(Some(0.0), Some(60.0), true),
        &mut publication,
    );
    play(
        &mut engine,
        &left,
        &right,
        transport(Some(4.0), Some(60.0), true),
        &mut publication,
    );
    assert_eq!(read(&publication).snapshot_revision, 0);
    play(
        &mut engine,
        &left,
        &right,
        transport(Some(4.5), Some(60.0), true),
        &mut publication,
    );
    play(
        &mut engine,
        &left,
        &right,
        transport(Some(5.0), Some(60.0), true),
        &mut publication,
    );
    let revision = read(&publication).snapshot_revision;
    assert_eq!(revision, 1);
    play(
        &mut engine,
        &[],
        &[],
        transport(Some(5.0), Some(60.0), false),
        &mut publication,
    );
    assert_eq!(read(&publication).snapshot_revision, revision);
}

#[test]
fn sample_scale_seek_discards_a_sub_quarter_partial_capture() {
    let mut publication = WaveformPublication::new();
    let mut engine = CaptureEngine::with_capacity(double(8.0), 64);
    let left = [0.25; 4];
    let right = [0.75; 4];
    play(
        &mut engine,
        &left,
        &right,
        transport(Some(0.0), Some(60.0), true),
        &mut publication,
    );
    play(
        &mut engine,
        &left,
        &right,
        transport(Some(0.7), Some(60.0), true),
        &mut publication,
    );

    assert_eq!(read(&publication).snapshot_revision, 0);
}

#[test]
fn any_tempo_transition_discards_a_partial_capture() {
    let mut publication = WaveformPublication::new();
    let mut engine = CaptureEngine::with_capacity(double(8.0), 64);
    let left = [0.25; 4];
    let right = [0.75; 4];
    play(
        &mut engine,
        &left,
        &right,
        transport(Some(0.0), Some(60.0), true),
        &mut publication,
    );
    play(
        &mut engine,
        &left,
        &right,
        transport(Some(0.5), Some(60.005), true),
        &mut publication,
    );
    play(
        &mut engine,
        &left,
        &right,
        transport(Some(1.0), Some(60.005), true),
        &mut publication,
    );

    assert_eq!(read(&publication).snapshot_revision, 0);
}

#[test]
fn missing_position_and_tempo_use_explicit_unsynced_modes() {
    let mut publication = WaveformPublication::new();
    let mut engine = CaptureEngine::with_capacity(double(10.0), 32);
    let left = [0.5; 5];
    let right = [0.5; 5];
    play(
        &mut engine,
        &left,
        &right,
        transport(None, Some(120.0), true),
        &mut publication,
    );
    assert_eq!(read(&publication).snapshot_revision, 1);
    assert_eq!(
        read(&publication).snapshot_mode,
        SnapshotMode::UnsyncedTempo
    );

    play(
        &mut engine,
        &left, &right, transport(None, None, true), &mut publication);
    let view = read(&publication);
    assert_eq!(view.snapshot_revision, 2);
    assert_eq!(view.snapshot_mode, SnapshotMode::UnsyncedFallback);
    assert!(view.snapshot_tempo_bpm.is_none());
}
