//! What the editor shows, paints and does with input.

use wave::binary::{Binary32, Binary64};
use wave::chart::{chart_rect, shifted_waveform_segments, zero_marker_rect, WaveformSegment};
use wave::display::{
    captured_prefix_bins, concise_window_label, offset_sample_count, waveform_source_for_view,
    StatusPresentation,
};
use wave::editor::{
    preferred_window_size, project_surface, reduce_surface, EditorMessage, EditorState, Overlay,
    RedrawTracker, WINDOW_DROPDOWN_WIDGET_ID, WINDOW_HEIGHT, WINDOW_HELP_BUTTON_WIDGET_ID,
    WINDOW_WIDTH,
};
use wave::envelope::{EnvelopePoint, ENVELOPE_BINS};
use wave::geometry::{Point, Rect};
use wave::offset::{
    format_waveform_offset, normalize_waveform_offset, shifted_waveform_x, signed_waveform_offset,
    WaveformOffsetDrag,
};
use wave::paint::{PaintItem, Role, Tint};
use wave::panels::{
    help_row, AutomationLiveRegion, AutomationRole, WaveHelpButton, WaveHelpPanel,
    WaveformOffsetReadoutWidget, WINDOW_HELP_ROWS,
};
use wave::publication::WaveformPublication;
use wave::timing::TransportInfo;
use wave::view::WaveformView;
use wave::waveform::{PointerModifiers, PointerTarget, WaveformInput, WaveformWidget};
use wave::window::{SnapshotMode, WindowLength};

fn double(value: f64) -> Binary64 {
    Binary64::from_bits(value.to_bits())
}

fn single(value: f32) -> Binary32 {
    Binary32::from_bits(value.to_bits())
}

fn float(value: Binary32) -> f32 {
    f32::from_bits(value.bits)
}

fn point(min: f32, max: f32) -> EnvelopePoint {
    EnvelopePoint {
        min: single(min),
        max: single(max),
    }
}

fn rect(x: f32, y: f32, width: f32, height: f32) -> Rect {
    Rect::from_xy_size(single(x), single(y), single(width), single(height))
}

fn contains(rect: Rect, position: Point) -> bool {
    let (x, y) = (float(position.x), float(position.y));
    float(rect.min.x) <= x && x < float(rect.max.x) && float(rect.min.y) <= y && y < float(rect.max.y)
}

fn target(bounds: Rect, x: f32, y: f32) -> PointerTarget {
    let position = Point::new(single(x), single(y));
    PointerTarget {
        position,
        over_widget: contains(bounds, position),
        over_chart: contains(chart_rect(bounds), position),
    }
}

fn painted(widget: &WaveformWidget, bounds: Rect) -> Vec<PaintItem> {
    let mut items = Vec::new();
    widget.append_paint(&mut items, bounds);
    items
}

fn texts(items: &[PaintItem]) -> Vec<String> {
    items
        .iter()
        .filter_map(|item| match item {
            PaintItem::Text { text, .. } => Some(text.clone()),
            _ => None,
        })
        .collect()
}

fn painted_texts(widget: &WaveformWidget) -> Vec<String> {
    texts(&painted(widget, rect(0.0, 0.0, 640.0, 360.0)))
}

fn polylines(items: &[PaintItem]) -> Vec<Vec<Point>> {
    items
        .iter()
        .filter_map(|item| match item {
            PaintItem::StrokePolyline { points, .. } => Some(points.clone()),
            _ => None,
        })
        .collect()
}

fn live_view(window: WindowLength, sample_count: usize, live_revision: u64) -> WaveformView {
    WaveformView {
        live_revision,
        live_valid: true,
        live_window: window,
        live_sample_count: sample_count,
        target_sample_count: 1024,
        is_playing: true,
        ..WaveformView::default()
    }
}

#[test]
fn waveform_chart_reserves_original_footer_at_supported_sizes() {
    let widget = WaveformWidget::new(WaveformView::default());

    for (width, height) in [(640, 360), (WINDOW_WIDTH, WINDOW_HEIGHT), (1600, 1000)] {
        let bounds = rect(0.0, 0.0, width as f32, height as f32);
        let items = painted(&widget, bounds);
        let chart = items
            .iter()
            .find_map(|item| match item {
                PaintItem::StrokeRect { rect, .. } => Some(*rect),
                _ => None,
            })
            .unwrap_or_else(|| panic!("waveform chart stroke should exist at {width}x{height}"));

        let logical_height = height as f32;
        let header_height = 34.0_f32.min(logical_height * 0.2);
        let footer_height = 28.0_f32.min(logical_height * 0.12);
        let expected_height = (logical_height - header_height - footer_height - 16.0).max(1.0);

        assert!((float(chart.min.x) - 16.0).abs() < 0.001);
        assert!((float(chart.min.y) - header_height).abs() < 0.001);
        assert!((float(chart.width()) - (width as f32 - 32.0).max(1.0)).abs() < 0.001);
        assert!((float(chart.height()) - expected_height).abs() < 0.001);
    }
}

#[test]
fn status_text_is_exact_for_live_held_completed_and_waiting_presentations() {
    let live = WaveformWidget::new(live_view(WindowLength::FourBeats, 224, 1));
    assert_eq!(live.status_text(), "LIVE · 4 beats");

    let held_retained = WaveformWidget::new(WaveformView {
        display_revision: 1,
        display_valid: true,
        display_window: WindowLength::TwoBeats,
        display_sample_count: 1,
        display_target_sample_count: 1024,
        is_playing: true,
        ..WaveformView::default()
    });
    assert_eq!(held_retained.status_text(), "HELD · 2 beats");

    let held_completed = WaveformWidget::new(WaveformView {
        snapshot_revision: 1,
        snapshot_window: WindowLength::EightBeats,
        sample_count: 1024,
        is_playing: true,
        ..WaveformView::default()
    });
    assert_eq!(held_completed.status_text(), "HELD · 8 beats");

    let waiting = WaveformWidget::new(WaveformView::default());
    assert_eq!(waiting.status_text(), "WAITING");

    let waiting_for_new_capture = WaveformWidget::new(WaveformView {
        display_revision: 1,
        display_valid: true,
        display_window: WindowLength::TwoBeats,
        display_sample_count: 1,
        display_target_sample_count: 1024,
        is_playing: true,
        ..WaveformView::default()
    });
    assert_eq!(waiting_for_new_capture.status_text(), "HELD · 2 beats");

    for (widget, expected) in [
        (&live, "LIVE · 4 beats"),
        (&held_retained, "HELD · 2 beats"),
        (&held_completed, "HELD · 8 beats"),
        (&waiting, "WAITING"),
        (&waiting_for_new_capture, "HELD · 2 beats"),
    ] {
        assert_eq!(painted_texts(widget), vec![expected.to_owned()]);
    }
    for removed in [
        "RETAINED PREFIX",
        "% captured",
        "samples",
        "complete",
        "BPM",
        "NO TEMPO",
        "SYNCED",
        "UNSYNCED",
        "WAITING FOR WINDOW",
    ] {
        assert!(
            painted_texts(&live)
                .into_iter()
                .all(|text| !text.contains(removed)),
            "removed text still visible: {removed}"
        );
    }
}

#[test]
fn status_readout_semantics_are_polite_and_stable_during_progressive_live_capture() {
    let first = WaveformWidget::new(live_view(WindowLength::FourBeats, 224, 1));
    let second = WaveformWidget::new(live_view(WindowLength::FourBeats, 768, 2));

    let semantics = first.automation_semantics();
    assert_eq!(semantics.role, AutomationRole::Readout);
    assert_eq!(semantics.label, "Capture status");
    assert_eq!(semantics.value_text.as_deref(), Some("LIVE · 4 beats"));
    assert_eq!(semantics.live_region, AutomationLiveRegion::Polite);
    assert!(!semantics.focusable);

    let expected = StatusPresentation::Live(WindowLength::FourBeats);
    assert_eq!(first.status_presentation(), expected);
    assert_eq!(second.status_presentation(), expected);

    let held_stopped = WaveformWidget::new(WaveformView {
        snapshot_revision: 1,
        snapshot_window: WindowLength::FourBeats,
        sample_count: 1,
        is_playing: false,
        ..WaveformView::default()
    });
    let held_playing = WaveformWidget::new(WaveformView {
        snapshot_revision: 1,
        snapshot_window: WindowLength::FourBeats,
        sample_count: 1,
        is_playing: true,
        ..WaveformView::default()
    });
    assert_eq!(held_stopped.status_text(), "HELD · 4 beats");
    assert_eq!(held_playing.status_text(), "HELD · 4 beats");
    assert_eq!(
        held_stopped.automation_semantics().value_text.as_deref(),
        Some("HELD · 4 beats")
    );
    assert_eq!(
        held_playing.automation_semantics().value_text.as_deref(),
        Some("HELD · 4 beats")
    );
    assert_eq!(
        held_stopped.status_presentation(),
        held_playing.status_presentation()
    );

    let empty_snapshot = WaveformWidget::new(WaveformView {
        snapshot_window: WindowLength::OneBeat,
        display_window: WindowLength::TwoBeats,
        ..WaveformView::default()
    });
    let empty_display = WaveformWidget::new(WaveformView {
        snapshot_window: WindowLength::EightBeats,
        display_window: WindowLength::FourBeats,
        is_playing: true,
        ..WaveformView::default()
    });
    assert_eq!(empty_snapshot.status_text(), "WAITING");
    assert_eq!(empty_display.status_text(), "WAITING");
    assert_eq!(
        empty_snapshot.automation_semantics().value_text.as_deref(),
        Some("WAITING")
    );
    assert_eq!(
        empty_display.automation_semantics().value_text.as_deref(),
        Some("WAITING")
    );
    assert_eq!(
        empty_snapshot.status_presentation(),
        StatusPresentation::Waiting
    );
    assert_eq!(
        empty_snapshot.status_presentation(),
        empty_display.status_presentation()
    );
}

#[test]
fn waveform_offset_format_uses_signed_samples_and_rounded_milliseconds() {
    assert_eq!(
        format_waveform_offset(single(0.0), 48_000, double(48_000.0)),
        "0 samples · 0.00 ms"
    );
    assert_eq!(
        format_waveform_offset(single(0.25), 48_000, double(48_000.0)),
        "+12000 samples · +250.00 ms"
    );
    assert_eq!(
        format_waveform_offset(single(0.75), 48_000, double(48_000.0)),
        "-12000 samples · -250.00 ms"
    );
    assert_eq!(
        format_waveform_offset(single(0.5), 48_000, double(48_000.0)),
        "+24000 samples · +500.00 ms"
    );
    assert_eq!(
        format_waveform_offset(single(0.12345), 1_000, double(44_100.0)),
        "+123 samples · +2.79 ms"
    );
    assert_eq!(
        format_waveform_offset(single(0.999999), 1, double(44_100.0)),
        "0 samples · 0.00 ms"
    );
    assert_eq!(
        format_waveform_offset(single(0.999), 1_000, double(1_000_000_000.0)),
        "-1 samples · 0.00 ms"
    );
}

#[test]
fn unusable_sample_rates_are_read_out_at_the_default_one() {
    for rate in [0.0, -48_000.0, f64::NAN, f64::INFINITY] {
        assert_eq!(
            format_waveform_offset(single(0.25), 48_000, double(rate)),
            "+12000 samples · +250.00 ms"
        );
    }
}

#[test]
fn offset_sample_count_uses_the_active_waveform_window() {
    assert_eq!(
        offset_sample_count(live_view(WindowLength::FourBeats, 224, 1)),
        1024
    );
    assert_eq!(
        offset_sample_count(WaveformView {
            display_valid: true,
            display_sample_count: 240,
            display_target_sample_count: 480,
            ..WaveformView::default()
        }),
        480
    );
    assert_eq!(
        offset_sample_count(WaveformView {
            sample_count: 960,
            ..WaveformView::default()
        }),
        960
    );
}

#[test]
fn zero_marker_is_stationary_at_the_chart_origin_for_each_offset() {
    let bounds = rect(0.0, 0.0, 640.0, 360.0);
    let view = WaveformView {
        snapshot_revision: 1,
        sample_count: ENVELOPE_BINS,
        envelope: [point(-0.3, 0.5); ENVELOPE_BINS],
        ..WaveformView::default()
    };
    let chart = chart_rect(bounds);
    let expected = zero_marker_rect(chart);
    for offset in [0.0, 0.25, 0.75] {
        let widget =
            WaveformWidget::new_with_interaction(view, single(offset), false, false, None);
        let items = painted(&widget, bounds);
        let marker = items
            .iter()
            .find_map(|item| match item {
                PaintItem::FillRect { rect, .. } if *rect == expected => Some(*rect),
                _ => None,
            })
            .expect("true-zero marker should be painted");
        assert_eq!(
            (float(marker.min.x) + float(marker.max.x)) * 0.5,
            float(chart.min.x)
        );
        assert_eq!(marker.max.y, chart.max.y);
    }
}

#[test]
fn waveform_offset_readout_is_accessible_without_live_announcements_or_pointer_capture() {
    let readout = WaveformOffsetReadoutWidget::new(single(0.25), 48_000, double(48_000.0));
    let semantics = readout.automation_semantics();
    assert_eq!(semantics.role, AutomationRole::Readout);
    assert_eq!(semantics.label, "Waveform offset");
    assert_eq!(
        semantics.value_text.as_deref(),
        Some("+12000 samples · +250.00 ms")
    );
    assert_eq!(semantics.live_region, AutomationLiveRegion::Silent);
    assert!(!semantics.focusable);

    let bounds = rect(0.0, 0.0, 640.0, 360.0);
    assert!(!readout.accepts_pointer_input());
    let mut items = Vec::new();
    readout.append_paint(&mut items, bounds);
    assert!(texts(&items)
        .iter()
        .any(|text| text == "+12000 samples · +250.00 ms"));
}

#[test]
fn primary_shift_double_click_reset_is_exact_and_preserves_other_gestures() {
    let bounds = rect(0.0, 0.0, 640.0, 360.0);
    let chart = chart_rect(bounds);
    let x = float(chart.min.x) + float(chart.width()) * 0.35;
    let y = float(chart.min.y) + float(chart.height()) * 0.5;
    let exact = PointerModifiers {
        command: true,
        shift: true,
        alt: false,
    };
    let with_alt = PointerModifiers { alt: true, ..exact };
    let none = PointerModifiers {
        command: false,
        shift: false,
        alt: false,
    };
    let mut widget = WaveformWidget::new_with_interaction(
        WaveformView::default(),
        single(0.375),
        false,
        false,
        None,
    );
    let inside = target(bounds, x, y);
    let outside = target(bounds, 2.0, 2.0);
    assert!(inside.over_chart && !outside.over_chart);

    assert_eq!(
        widget.handle_input(
            bounds,
            WaveformInput::PointerDoubleClick {
                target: inside,
                primary: true,
                modifiers: exact,
            },
        ),
        Some(EditorMessage::ResetWaveformOffset)
    );
    assert_eq!(
        widget.handle_input(
            bounds,
            WaveformInput::PointerDoubleClick {
                target: inside,
                primary: true,
                modifiers: with_alt,
            },
        ),
        None
    );
    assert_eq!(
        widget.handle_input(
            bounds,
            WaveformInput::PointerDoubleClick {
                target: inside,
                primary: false,
                modifiers: exact,
            },
        ),
        None
    );
    assert_eq!(
        widget.handle_input(
            bounds,
            WaveformInput::PointerDoubleClick {
                target: inside,
                primary: true,
                modifiers: none,
            },
        ),
        None
    );
    assert_eq!(
        widget.handle_input(
            bounds,
            WaveformInput::PointerDoubleClick {
                target: outside,
                primary: true,
                modifiers: exact,
            },
        ),
        None
    );
}

#[test]
fn reset_reducer_uses_the_same_normalized_offset_path_as_dragging() {
    let mut publication = WaveformPublication::new();
    let mut state = EditorState {
        waveform_offset: single(0.25),
        ..EditorState::new()
    };
    reduce_surface(
        &mut state,
        &mut publication,
        EditorMessage::BeginWaveformOffset {
            pointer_x: single(0.2),
        },
    );
    reduce_surface(
        &mut state,
        &mut publication,
        EditorMessage::DragWaveformOffset { delta: single(0.3) },
    );
    assert!((float(state.waveform_offset) - 0.55).abs() < 1.0e-6);
    reduce_surface(
        &mut state,
        &mut publication,
        EditorMessage::ResetWaveformOffset,
    );
    assert_eq!(float(state.waveform_offset), 0.0);
    assert!(state.active_waveform_offset.is_none());
}

#[test]
fn editor_routes_exact_reset_through_the_waveform_beneath_readout_overlay() {
    let mut publication = WaveformPublication::new();
    let mut state = EditorState::new();
    state.waveform_offset = single(0.375);
    let mut plan = project_surface(&mut state, &publication);
    let bounds = rect(0.0, 45.9, 960.0, 554.1);
    let chart = chart_rect(bounds);
    let x = float(chart.min.x) + float(chart.width()) * 0.4;
    let y = float(chart.min.y) + float(chart.height()) * 0.5;
    let message = plan
        .waveform
        .handle_input(
            bounds,
            WaveformInput::PointerDoubleClick {
                target: target(bounds, x, y),
                primary: true,
                modifiers: PointerModifiers {
                    command: true,
                    shift: true,
                    alt: false,
                },
            },
        )
        .expect("an exact double-click resets");
    reduce_surface(&mut state, &mut publication, message);
    assert_eq!(float(state.waveform_offset), 0.0);
    let plan = project_surface(&mut state, &publication);
    assert_eq!(plan.readout, "0 samples · 0.00 ms");
}

#[test]
fn offset_readout_republishes_with_the_active_sample_rate() {
    let mut publication = WaveformPublication::new();
    let envelope = [point(-0.2, 0.2); ENVELOPE_BINS];
    publication.publish_envelope(
        SnapshotMode::Synced,
        WindowLength::FourBeats,
        Some(double(120.0)),
        Some(0),
        48_000,
        &envelope,
    );
    let mut state = EditorState::new();
    state.waveform_offset = single(0.25);
    let mut tracker = RedrawTracker::new();
    tracker.refresh_due(publication.redraw_revision());
    assert_eq!(
        project_surface(&mut state, &publication).readout,
        "+12000 samples · +250.00 ms"
    );

    assert!(publication.set_sample_rate(double(44_100.0)));
    assert!(tracker.needs_realtime_redraw(publication.redraw_revision()));
    assert!(tracker.refresh_due(publication.redraw_revision()));
    assert!(!tracker.needs_realtime_redraw(publication.redraw_revision()));
    assert_eq!(
        project_surface(&mut state, &publication).readout,
        "+12000 samples · +272.11 ms"
    );
    assert!(!publication.set_sample_rate(double(44_100.0)));
    assert_eq!(publication.sample_rate(), double(44_100.0));
}

#[test]
fn invalid_live_preview_keeps_drawing_the_latest_completed_envelope() {
    let view = WaveformView {
        snapshot_revision: 1,
        snapshot_mode: SnapshotMode::Synced,
        snapshot_window: WindowLength::FourBeats,
        sample_count: 12_345,
        envelope: [point(-0.35, 0.35); ENVELOPE_BINS],
        is_playing: true,
        ..WaveformView::default()
    };

    let widget = WaveformWidget::new(view);
    assert!(!widget.showing_live_preview());
    assert_eq!(widget.displayed_window(), WindowLength::FourBeats);
    assert_eq!(widget.status_text(), "HELD · 4 beats");

    let items = painted(&widget, rect(0.0, 0.0, 640.0, 360.0));
    assert!(polylines(&items).iter().any(|points| !points.is_empty()));
}

#[test]
fn invalidated_retained_prefix_draws_without_a_completed_frame() {
    let view = WaveformView {
        display_revision: 1,
        display_valid: true,
        display_mode: SnapshotMode::Synced,
        display_window: WindowLength::TwoBeats,
        display_tempo_bpm: Some(single(120.0)),
        display_beat_index: Some(4),
        display_sample_count: 1,
        display_target_sample_count: 1024,
        display_envelope: [point(-0.45, 0.8); ENVELOPE_BINS],
        is_playing: true,
        ..WaveformView::default()
    };

    let widget = WaveformWidget::new(view);
    assert!(!widget.showing_live_preview());
    assert!(widget.showing_retained_preview());
    assert_eq!(widget.displayed_window(), WindowLength::TwoBeats);
    assert_eq!(widget.status_text(), "HELD · 2 beats");

    let items = painted(&widget, rect(0.0, 0.0, 640.0, 360.0));
    let waveform_lines: Vec<usize> = polylines(&items).iter().map(Vec::len).collect();
    assert_eq!(waveform_lines, vec![1, 1]);
}

#[test]
fn invalidated_retained_prefix_overlays_completed_tail_and_keeps_display_selection() {
    let view = WaveformView {
        snapshot_revision: 7,
        snapshot_mode: SnapshotMode::Synced,
        snapshot_window: WindowLength::FourBeats,
        snapshot_tempo_bpm: Some(single(120.0)),
        snapshot_beat_index: Some(0),
        sample_count: ENVELOPE_BINS,
        envelope: [point(-0.2, 0.25); ENVELOPE_BINS],
        display_revision: 8,
        display_valid: true,
        display_mode: SnapshotMode::Synced,
        display_window: WindowLength::TwoBeats,
        display_tempo_bpm: Some(single(118.0)),
        display_beat_index: Some(4),
        display_sample_count: ENVELOPE_BINS / 2,
        display_target_sample_count: ENVELOPE_BINS,
        display_envelope: [point(-0.8, 0.7); ENVELOPE_BINS],
        is_playing: true,
        ..WaveformView::default()
    };

    let widget = WaveformWidget::new(view);
    assert!(!widget.showing_live_preview());
    assert!(widget.showing_retained_preview());
    assert_eq!(widget.displayed_window(), WindowLength::TwoBeats);
    assert_eq!(widget.status_text(), "HELD · 2 beats");

    let items = painted(&widget, rect(0.0, 0.0, 640.0, 360.0));
    let waveform_lines = polylines(&items);
    assert_eq!(waveform_lines.len(), 2);
    assert_eq!(waveform_lines[0].len(), ENVELOPE_BINS);
    assert_eq!(waveform_lines[1].len(), ENVELOPE_BINS);
    assert!(
        float(waveform_lines[0][ENVELOPE_BINS / 2 - 1].y)
            < float(waveform_lines[0][ENVELOPE_BINS / 2].y)
    );
    assert!(
        float(waveform_lines[1][ENVELOPE_BINS / 2 - 1].y)
            > float(waveform_lines[1][ENVELOPE_BINS / 2].y)
    );
}

#[test]
fn partial_live_preview_overwrites_completed_envelope_without_an_empty_tail() {
    let view = WaveformView {
        snapshot_revision: 1,
        snapshot_mode: SnapshotMode::Synced,
        snapshot_window: WindowLength::FourBeats,
        sample_count: 1024,
        envelope: [point(-0.35, 0.35); ENVELOPE_BINS],
        live_revision: 1,
        live_valid: true,
        live_mode: SnapshotMode::Synced,
        live_window: WindowLength::FourBeats,
        live_sample_count: 1,
        target_sample_count: 1024,
        live_envelope: [EnvelopePoint::default(); ENVELOPE_BINS],
        is_playing: true,
        ..WaveformView::default()
    };
    let widget = WaveformWidget::new(view);
    assert_eq!(widget.status_text(), "LIVE · 4 beats");
    let items = painted(&widget, rect(0.0, 0.0, 640.0, 360.0));
    let waveform_lines: Vec<usize> = polylines(&items).iter().map(Vec::len).collect();
    assert_eq!(waveform_lines, vec![ENVELOPE_BINS, ENVELOPE_BINS]);
}

#[test]
fn help_is_accessible_and_painted() {
    let bounds = rect(0.0, 0.0, 28.0, 28.0);
    let button = WaveHelpButton {
        pressed: false,
        hovered: false,
        focused: false,
    };
    let semantics = button.automation_semantics();
    assert_eq!(semantics.role, AutomationRole::Button);
    assert_eq!(semantics.label, "Show WAVE help");
    assert_eq!(semantics.description, Some("Open the WAVE help panel"));
    assert!(semantics.focusable);

    let mut items = Vec::new();
    button.append_paint(&mut items, bounds);
    assert_eq!(texts(&items), vec!["?".to_owned()]);
    let focused = WaveHelpButton {
        focused: true,
        ..button
    };
    let mut items = Vec::new();
    focused.append_paint(&mut items, bounds);
    assert!(items.iter().any(|item| matches!(
        item,
        PaintItem::StrokeRect { tint, .. } if *tint == Tint::plain(Role::Warning)
    )));
    let pressed = WaveHelpButton {
        pressed: true,
        ..button
    };
    let mut items = Vec::new();
    pressed.append_paint(&mut items, bounds);
    assert!(items.iter().any(|item| matches!(
        item,
        PaintItem::FillRect { tint, .. } if *tint == Tint::with_alpha(Role::Copper, 96)
    )));

    let panel = WaveHelpPanel;
    let panel_semantics = panel.automation_semantics();
    assert_eq!(panel_semantics.role, AutomationRole::Text);
    assert_eq!(panel_semantics.label, "WAVE help");
    assert_eq!(
        panel_semantics.description,
        Some("Supported WAVE keyboard and pointer interactions")
    );
    assert!(!panel_semantics.focusable);
    let mut items = Vec::new();
    panel.append_paint(&mut items, rect(0.0, 0.0, 360.0, 160.0));
    let panel_texts = texts(&items);
    assert_eq!(panel_texts.len(), 1 + 2 * WINDOW_HELP_ROWS);
    assert_eq!(panel_texts[0], "WAVE HELP");
    for row in 0..WINDOW_HELP_ROWS {
        let (key, description) = help_row(row);
        assert_eq!(panel_texts[1 + 2 * row], key);
        assert_eq!(panel_texts[2 + 2 * row], description);
    }
    assert_eq!(
        help_row(3),
        ("Command + Shift + double-click", "Reset waveform offset")
    );
    assert!(!panel_texts.iter().any(|text| text.contains("Arrow")));
    assert!(items.iter().any(|item| matches!(
        item,
        PaintItem::FillRect { rect, .. } if (float(rect.width()) - 358.0).abs() < 0.1
    )));
}

#[test]
fn window_menu_offers_all_choices_and_selects_one() {
    let mut publication = WaveformPublication::new();
    let mut state = EditorState::new();
    let plan = project_surface(&mut state, &publication);
    assert_eq!(plan.trigger_label, "1:4");
    assert!(!plan.trigger_open);
    assert_eq!(plan.overlay, Overlay::Nothing);

    reduce_surface(
        &mut state,
        &mut publication,
        EditorMessage::ToggleWindowDropdown,
    );
    let plan = project_surface(&mut state, &publication);
    assert!(plan.trigger_open);
    assert_eq!(plan.overlay, Overlay::WindowMenu);
    let labels: Vec<&str> = plan.options.iter().map(|option| option.label).collect();
    assert_eq!(labels, ["1:4", "1:2", "1:1", "2:1"]);
    let selected: Vec<bool> = plan.options.iter().map(|option| option.selected).collect();
    assert_eq!(selected, [true, false, false, false]);

    let (was_open, was_help) = state.transient_state();
    reduce_surface(
        &mut state,
        &mut publication,
        EditorMessage::SelectWindow(WindowLength::EightBeats),
    );
    assert_eq!(publication.selected_window(), WindowLength::EightBeats);
    assert_eq!(
        state.focus_after_transient_close(was_open, was_help),
        Some(WINDOW_DROPDOWN_WIDGET_ID)
    );
    let plan = project_surface(&mut state, &publication);
    assert_eq!(plan.trigger_label, "2:1");
    assert_eq!(plan.overlay, Overlay::Nothing);
    assert!(plan.options[3].selected);
}

#[test]
fn transients_are_exclusive_and_give_the_focus_back() {
    let mut publication = WaveformPublication::new();
    let mut state = EditorState::new();
    assert_eq!(state.cancel_text_entry(), (false, None));

    reduce_surface(&mut state, &mut publication, EditorMessage::ToggleHelp);
    assert!(state.help_open && !state.window_dropdown_open);
    assert_eq!(
        project_surface(&mut state, &publication).overlay,
        Overlay::Help
    );
    reduce_surface(
        &mut state,
        &mut publication,
        EditorMessage::ToggleWindowDropdown,
    );
    assert!(!state.help_open && state.window_dropdown_open);
    assert_eq!(state.focus_after_transient_close(false, true), None);
    assert_eq!(
        state.cancel_text_entry(),
        (true, Some(WINDOW_DROPDOWN_WIDGET_ID))
    );
    assert_eq!(state.transient_state(), (false, false));

    reduce_surface(&mut state, &mut publication, EditorMessage::ToggleHelp);
    assert_eq!(
        state.cancel_text_entry(),
        (true, Some(WINDOW_HELP_BUTTON_WIDGET_ID))
    );
    reduce_surface(&mut state, &mut publication, EditorMessage::ToggleHelp);
    reduce_surface(
        &mut state,
        &mut publication,
        EditorMessage::DismissTransient,
    );
    assert_eq!(state.transient_state(), (false, false));
}

#[test]
fn drags_follow_the_pointer_and_can_be_given_up() {
    let bounds = rect(0.0, 0.0, 640.0, 360.0);
    let chart = chart_rect(bounds);
    let left = float(chart.min.x);
    let y = float(chart.min.y) + 10.0;
    let keys = PointerModifiers {
        command: true,
        shift: true,
        alt: false,
    };
    let mut state = EditorState::new();
    state.waveform_offset = single(0.125);
    let mut widget = WaveformWidget::new_with_interaction(
        state.view,
        state.waveform_offset,
        false,
        false,
        None,
    );
    let begin = widget
        .handle_input(
            bounds,
            WaveformInput::PointerPress {
                target: target(bounds, left + 152.0, y),
                primary: true,
                modifiers: keys,
            },
        )
        .expect("a press with both keys starts a drag");
    assert!(widget.pressed && widget.hovered && widget.chart_hovered);
    assert_eq!(
        begin,
        EditorMessage::BeginWaveformOffset {
            pointer_x: single(0.25)
        }
    );
    assert_eq!(state.reduce(begin), None);
    let drag = WaveformOffsetDrag {
        origin_offset: single(0.125),
        start_pointer_x: single(0.25),
    };
    assert_eq!(state.active_waveform_offset, Some(drag));

    let mut widget = WaveformWidget::new_with_interaction(
        state.view,
        state.waveform_offset,
        true,
        true,
        state.active_waveform_offset,
    );
    let moved = widget
        .handle_input(
            bounds,
            WaveformInput::PointerMove {
                target: target(bounds, left + 304.0, y),
            },
        )
        .expect("a move drags on");
    assert_eq!(
        moved,
        EditorMessage::DragWaveformOffset {
            delta: single(0.25)
        }
    );
    assert!(widget.offset_hovered());
    state.reduce(moved);
    assert_eq!(state.waveform_offset, single(0.375));
    let mut given_up = state;
    let lost = widget
        .handle_input(bounds, WaveformInput::FocusChanged(false))
        .expect("losing the focus gives a drag up");
    assert_eq!(lost, EditorMessage::CancelWaveformOffset);
    given_up.reduce(lost);
    assert_eq!(given_up.waveform_offset, single(0.125));
    assert_eq!(given_up.active_waveform_offset, None);

    let ended = widget
        .handle_input(
            bounds,
            WaveformInput::PointerRelease {
                target: target(bounds, left + 456.0, y),
                primary: true,
            },
        )
        .expect("a release ends a drag");
    state.reduce(ended);
    assert_eq!(state.waveform_offset, single(0.625));
    assert_eq!(state.active_waveform_offset, None);
    assert_eq!(
        widget.handle_input(
            bounds,
            WaveformInput::PointerModifiersChanged { modifiers: keys },
        ),
        None
    );
    assert_eq!(
        widget.handle_input(
            bounds,
            WaveformInput::PointerModifiersChanged {
                modifiers: PointerModifiers {
                    shift: false,
                    ..keys
                },
            },
        ),
        Some(EditorMessage::SetWaveformModifiers {
            command_held: true,
            shift_held: false,
        })
    );
    assert_eq!(widget.handle_input(bounds, WaveformInput::Other), None);
}

#[test]
fn replaced_widgets_keep_what_was_drawn() {
    let drawn = WaveformWidget::new(WaveformView {
        snapshot_revision: 1,
        sample_count: 8,
        envelope: [point(-0.5, 0.5); ENVELOPE_BINS],
        ..WaveformView::default()
    });
    let mut next = WaveformWidget::new(WaveformView::default());
    assert_eq!(next.waveform_for_paint().0, 0);
    next.synchronize_from_previous(&drawn);
    let (bins, envelope) = next.waveform_for_paint();
    assert_eq!(bins, ENVELOPE_BINS);
    assert_eq!(envelope[7], point(-0.5, 0.5));

    let blank = WaveformWidget::new(WaveformView::default());
    next.synchronize_from_previous(&blank);
    assert_eq!(next.waveform_for_paint().0, ENVELOPE_BINS);
}

#[test]
fn prefixes_reach_into_the_columns_they_fill() {
    assert_eq!(captured_prefix_bins(0, 10), 0);
    assert_eq!(captured_prefix_bins(10, 0), 0);
    assert_eq!(captured_prefix_bins(10, 10), ENVELOPE_BINS);
    assert_eq!(captured_prefix_bins(11, 10), ENVELOPE_BINS);
    assert_eq!(captured_prefix_bins(1, 4_608_000), 1);
    assert_eq!(captured_prefix_bins(1, 3), 342);
    assert_eq!(captured_prefix_bins(usize::MAX - 1, usize::MAX), ENVELOPE_BINS);
    assert_eq!(concise_window_label(WindowLength::OneBeat), "1 beat");
    assert!(waveform_source_for_view(WaveformView::default()).is_none());
    assert_eq!(preferred_window_size(), (960, 600));
}

#[test]
fn offsets_are_shares_of_a_window() {
    assert_eq!(normalize_waveform_offset(single(1.25)), single(0.25));
    assert_eq!(normalize_waveform_offset(single(-0.25)), single(0.75));
    assert_eq!(normalize_waveform_offset(single(f32::NAN)), single(0.0));
    assert_eq!(normalize_waveform_offset(single(f32::INFINITY)), single(0.0));
    assert_eq!(normalize_waveform_offset(single(-1.0e-30)), single(1.0));
    assert_eq!(signed_waveform_offset(single(0.75)), double(-0.25));
    assert_eq!(signed_waveform_offset(single(0.5)), double(0.5));
    assert_eq!(shifted_waveform_x(single(0.5), single(0.25)), single(0.75));
    assert_eq!(shifted_waveform_x(single(0.75), single(0.5)), single(0.25));
    assert_eq!(shifted_waveform_x(single(0.75), single(0.25)), single(1.0));
}

#[test]
fn shifted_waveforms_are_cut_once_at_the_edge() {
    let chart = rect(0.0, 0.0, 1023.0, 100.0);
    let source = [point(-0.5, 0.5); ENVELOPE_BINS];
    let whole: Vec<WaveformSegment> = shifted_waveform_segments(&source, chart, single(0.0));
    assert_eq!(whole.len(), 1);
    assert_eq!(whole[0].top.len(), ENVELOPE_BINS);
    assert_eq!(whole[0].top[0], Point::new(single(0.0), single(25.0)));
    assert_eq!(whole[0].bottom[0], Point::new(single(0.0), single(75.0)));

    let cut: Vec<WaveformSegment> = shifted_waveform_segments(&source, chart, single(0.5));
    assert_eq!(cut.len(), 2);
    assert_eq!(
        cut[0].top.len() + cut[1].top.len(),
        ENVELOPE_BINS + 2,
        "both pieces meet the edge"
    );
    assert_eq!(cut[0].top.last().unwrap().x, chart.max.x);
    assert_eq!(cut[1].top[0].x, chart.min.x);
    assert_eq!(cut[0].top.last().unwrap().y, cut[1].top[0].y);
    assert!(shifted_waveform_segments(&[], chart, single(0.5)).is_empty());
}

#[test]
fn peaks_and_playhead_are_marked() {
    let mut envelope = [point(-0.1, 0.1); ENVELOPE_BINS];
    envelope[100] = point(-0.2, 0.95);
    envelope[200] = point(-1.5, 0.2);
    let view = WaveformView {
        snapshot_revision: 1,
        snapshot_window: WindowLength::TwoBeats,
        sample_count: ENVELOPE_BINS,
        envelope,
        current_song_pos_beats: Some(double(3.0)),
        ..WaveformView::default()
    };
    let bounds = rect(0.0, 0.0, 640.0, 360.0);
    let chart = chart_rect(bounds);
    let items = painted(&WaveformWidget::new(view), bounds);
    let peaks = items
        .iter()
        .find_map(|item| match item {
            PaintItem::FillRects { rects, tint } => Some((rects.clone(), *tint)),
            _ => None,
        })
        .expect("peaks are painted");
    assert_eq!(peaks.0.len(), 2);
    assert_eq!(peaks.1, Tint::with_alpha(Role::Orange, 220));
    let playhead = float(chart.min.x) + 0.5 * float(chart.width()) - 1.0;
    assert!(items.iter().any(|item| matches!(
        item,
        PaintItem::FillRect { rect, tint }
            if *tint == Tint::plain(Role::Orange) && float(rect.min.x) == playhead
    )));
    let grid = items
        .iter()
        .filter(|item| {
            matches!(
                item,
                PaintItem::FillRect { tint, .. }
                    if *tint == Tint::plain(Role::Border) || *tint == Tint::plain(Role::GridSoft)
            )
        })
        .count();
    assert_eq!(grid, 9);
}

#[test]
fn an_open_transaction_leaves_the_last_view_on_display() {
    let mut publication = WaveformPublication::new();
    publication.update_transport(TransportInfo {
        tempo_bpm: Some(double(120.0)),
        song_pos_beats: Some(double(1.0)),
        is_playing: true,
    });
    let mut state = EditorState::new();
    project_surface(&mut state, &publication);
    assert!(state.view.is_playing);
    let transaction = publication.begin_publication();
    transaction.clear_live_preview_with_transport(
        &mut publication,
        TransportInfo {
            tempo_bpm: None,
            song_pos_beats: None,
            is_playing: false,
        },
    );
    project_surface(&mut state, &publication);
    assert!(state.view.is_playing);
    transaction.commit(&mut publication);
    project_surface(&mut state, &publication);
    assert!(!state.view.is_playing);
}
