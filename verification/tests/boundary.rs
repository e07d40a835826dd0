//! The boundary to a host: buffers, channels and transport.

use wave::aliasing::{
    address_range, block_action, call_admission, ranges_overlap, raw_stereo_buffers,
    silence_valid_stereo_output, stereo_buffers, validate_stereo_aliases, Admission, BlockAction,
    BusPointers, BusShape, Layout, ProcessShape, StereoAddresses,
};
use wave::binary::{Binary32, Binary64};
use wave::engine::CaptureEngine;
use wave::envelope::{EnvelopePoint, ENVELOPE_BINS};
use wave::ports::{
    accepts_arrangements, bus_count, bus_name, check_port, BusRequest, Direction, PortRefusal,
};
use wave::publication::WaveformPublication;
use wave::stereo::{
    channel_frames, process_stereo_pair, transport_from_host, usable_sample_rate, Channel,
    HostTransport,
};
use wave::timing::TransportInfo;
use wave::view::WaveformView;
use wave::window::{SnapshotMode, WindowLength};

const BUS: Layout = Layout {
    size: 24,
    alignment: 8,
};
const POINTER: Layout = Layout {
    size: 8,
    alignment: 8,
};

fn double(value: f64) -> Binary64 {
    Binary64::from_bits(value.to_bits())
}

fn single(value: f32) -> Binary32 {
    Binary32::from_bits(value.to_bits())
}

fn samples(values: &[f32]) -> Vec<Binary32> {
    values.iter().map(|value| single(*value)).collect()
}

fn stereo_process_fixture(frames: i32) -> ProcessShape {
    ProcessShape {
        buses: BusPointers {
            num_inputs: 1,
            num_outputs: 1,
            inputs: 0x10_0000,
            outputs: 0x10_0100,
        },
        input: BusShape {
            num_channels: 2,
            channels: 0x20_0000,
        },
        output: BusShape {
            num_channels: 2,
            channels: 0x20_0100,
        },
        addresses: StereoAddresses {
            input_left: 0x30_0000,
            input_right: 0x30_1000,
            output_left: 0x30_2000,
            output_right: 0x30_3000,
        },
        num_samples: frames,
        input_silence_flags: 0b01,
    }
}

#[test]
fn exact_in_place_stereo_aliases_are_allowed() {
    let left = 0x1000usize;
    let right = 0x2000usize;
    assert!(validate_stereo_aliases(left, right, left, right, 64));
}

#[test]
fn cross_channel_aliases_are_rejected() {
    let left = 0x1000usize;
    let right = 0x2000usize;
    assert!(!validate_stereo_aliases(left, right, right, left, 64));
}

#[test]
fn partial_overlaps_are_rejected() {
    assert!(!validate_stereo_aliases(
        0x1000, 0x2000, 0x1004, 0x3000, 64
    ));
    assert!(!validate_stereo_aliases(
        0x1000, 0x1080, 0x3000, 0x4000, 64
    ));
    assert!(!validate_stereo_aliases(
        0x1000, 0x2000, 0x3000, 0x3004, 64
    ));
    assert!(validate_stereo_aliases(
        0x1000, 0x1100, 0x1200, 0x1300, 64
    ));
    assert!(!validate_stereo_aliases(0, 0x1100, 0x1200, 0x1300, 64));
    assert!(!validate_stereo_aliases(
        0x1000,
        0x1100,
        0x1200,
        usize::MAX - 3,
        64
    ));
}

#[test]
fn address_ranges_are_set_aligned_and_bounded() {
    assert_eq!(address_range(0x1000, BUS, 1), Some((0x1000, 0x1018)));
    assert_eq!(address_range(0, BUS, 1), None);
    assert_eq!(address_range(0x1001, BUS, 1), None);
    assert_eq!(address_range(0x1000, BUS, usize::MAX), None);
    assert!(ranges_overlap((0, 8), (7, 9)));
    assert!(!ranges_overlap((0, 8), (8, 9)));
}

#[test]
fn process_propagates_input_silence_flags_after_pass_through() {
    let fixture = stereo_process_fixture(8);
    let buffers =
        raw_stereo_buffers(&fixture, BUS, POINTER).expect("the fixture's buffers are valid");
    assert_eq!(call_admission(fixture.num_samples, true), Admission::Run(8));
    assert_eq!(
        block_action(8, true, Some(buffers)),
        BlockAction::PassThrough(buffers)
    );
    assert_eq!(buffers.frames, 8);
    assert_eq!(buffers.input_silence_flags, 0b01);
    assert_eq!(buffers.copies(), (true, true));

    let input_left = vec![0.0; 8];
    let input_right: Vec<f32> = (0..8).map(|sample| sample as f32 + 1.0).collect();
    let mut left = Channel {
        input: Some(samples(&input_left)),
        output: Some(samples(&[9.0; 8])),
    };
    let mut right = Channel {
        input: Some(samples(&input_right)),
        output: Some(samples(&[9.0; 8])),
    };
    let mut engine = CaptureEngine::new(double(48_000.0));
    let mut publication = WaveformPublication::new();
    process_stereo_pair(
        &mut engine,
        &mut left,
        &mut right,
        TransportInfo::default(),
        &mut publication,
    );
    assert_eq!(left.output, left.input);
    assert_eq!(right.output, right.input);
}

#[test]
fn raw_stereo_buffers_rejects_misaligned_channel_pointer_array() {
    let mut fixture = stereo_process_fixture(8);
    fixture.input.channels += 1;
    assert!(raw_stereo_buffers(&fixture, BUS, POINTER).is_none());
}

#[test]
fn process_rejects_misaligned_sample_pointer_without_touching_output() {
    let mut fixture = stereo_process_fixture(8);
    fixture.addresses.output_left += 1;
    let buffers = raw_stereo_buffers(&fixture, BUS, POINTER);
    assert_eq!(buffers, None);
    assert_eq!(block_action(8, true, buffers), BlockAction::Silence);
    assert_eq!(
        silence_valid_stereo_output(&fixture, true, BUS, POINTER),
        None
    );
}

#[test]
fn refused_blocks_silence_a_valid_output() {
    let mut fixture = stereo_process_fixture(8);
    fixture.input.num_channels = 1;
    assert_eq!(raw_stereo_buffers(&fixture, BUS, POINTER), None);
    assert_eq!(
        silence_valid_stereo_output(&fixture, true, BUS, POINTER),
        Some(8)
    );
    assert_eq!(
        silence_valid_stereo_output(&fixture, false, BUS, POINTER),
        None
    );
    fixture.addresses.output_right = fixture.addresses.output_left + 4;
    assert_eq!(
        silence_valid_stereo_output(&fixture, true, BUS, POINTER),
        None
    );
    let mut fixture = stereo_process_fixture(-1);
    assert_eq!(raw_stereo_buffers(&fixture, BUS, POINTER), None);
    assert_eq!(
        silence_valid_stereo_output(&fixture, true, BUS, POINTER),
        None
    );
    fixture.num_samples = 8;
    fixture.buses.num_outputs = 2;
    assert_eq!(
        silence_valid_stereo_output(&fixture, true, BUS, POINTER),
        None
    );
    assert!(stereo_buffers(fixture.addresses, 8, 0).is_some());
}

#[test]
fn calls_are_admitted_by_their_sample_count_and_the_runtime() {
    assert_eq!(call_admission(-1, true), Admission::Reject);
    assert_eq!(call_admission(0, false), Admission::Nothing);
    assert_eq!(call_admission(4, false), Admission::Silence);
    assert_eq!(call_admission(0, true), Admission::Run(0));
    assert_eq!(block_action(0, false, None), BlockAction::CaptureNothing);
    assert_eq!(block_action(4, false, None), BlockAction::Silence);
}

#[test]
fn stopped_processing_clears_the_live_preview_only() {
    let mut publication = WaveformPublication::new();
    let envelope = [EnvelopePoint {
        min: single(-0.5),
        max: single(0.5),
    }; ENVELOPE_BINS];
    publication.publish_envelope(
        SnapshotMode::Synced,
        WindowLength::DEFAULT,
        Some(double(60.0)),
        Some(0),
        32,
        &envelope,
    );
    publication.publish_live_preview(
        TransportInfo {
            tempo_bpm: Some(double(60.0)),
            song_pos_beats: Some(double(0.25)),
            is_playing: true,
        },
        SnapshotMode::Synced,
        WindowLength::DEFAULT,
        Some(double(60.0)),
        Some(0),
        8,
        32,
        &envelope,
    );
    let mut seeded = WaveformView::default();
    assert!(publication.read_view(&mut seeded));
    assert!(seeded.live_valid);
    let completed_revision = seeded.snapshot_revision;

    publication.clear_live_preview();

    let mut cleared = WaveformView::default();
    assert!(publication.read_view(&mut cleared));
    assert!(!cleared.live_valid);
    assert_eq!(cleared.snapshot_revision, completed_revision);
    assert!(cleared.display_valid);
    assert_eq!(cleared.display_sample_count, 8);
    assert_eq!(cleared.display_envelope, envelope);
}

#[test]
fn host_transports_are_not_completed_with_invented_facts() {
    let host = HostTransport {
        has_tempo: true,
        tempo: double(120.0),
        has_position: false,
        position: double(4.0),
        is_playing: true,
    };
    assert_eq!(
        transport_from_host(Some(host)),
        TransportInfo {
            tempo_bpm: Some(double(120.0)),
            song_pos_beats: None,
            is_playing: true,
        }
    );
    assert_eq!(
        transport_from_host(Some(HostTransport {
            has_tempo: false,
            has_position: true,
            ..host
        })),
        TransportInfo {
            tempo_bpm: None,
            song_pos_beats: Some(double(4.0)),
            is_playing: true,
        }
    );
    assert_eq!(transport_from_host(None), TransportInfo::default());
    assert!(usable_sample_rate(double(44_100.0)));
    for rate in [0.0, -1.0, f64::NAN, f64::INFINITY] {
        assert!(!usable_sample_rate(double(rate)));
    }
}

#[test]
fn channels_share_their_common_samples() {
    assert_eq!(channel_frames(Some(3), Some(5)), 3);
    assert_eq!(channel_frames(Some(5), Some(3)), 3);
    assert_eq!(channel_frames(Some(5), None), 5);
    assert_eq!(channel_frames(None, Some(3)), 3);
    assert_eq!(channel_frames(None, None), 0);
}

#[test]
fn channels_without_input_go_out_silent() {
    let mut engine = CaptureEngine::with_capacity(double(4.0), 8);
    let mut publication = WaveformPublication::new();
    let mut left = Channel {
        input: None,
        output: Some(samples(&[0.5, 0.5, 0.5])),
    };
    let mut right = Channel {
        input: Some(samples(&[0.25, -0.25])),
        output: Some(samples(&[0.5, 0.5, 0.5])),
    };
    let transport = TransportInfo {
        tempo_bpm: None,
        song_pos_beats: None,
        is_playing: true,
    };
    process_stereo_pair(
        &mut engine,
        &mut left,
        &mut right,
        transport,
        &mut publication,
    );
    assert_eq!(left.output, Some(samples(&[0.0, 0.0, 0.0])));
    assert_eq!(right.output, Some(samples(&[0.25, -0.25, 0.5])));
    let mut view = WaveformView::default();
    assert!(publication.read_view(&mut view));
    assert_eq!(view.snapshot_revision, 1);
    assert_eq!(view.sample_count, 2);
    assert_eq!(view.envelope[0].max, single(0.25));
    assert_eq!(view.envelope[ENVELOPE_BINS / 2].min, single(-0.25));

    let mut silent = Channel {
        input: None,
        output: None,
    };
    process_stereo_pair(
        &mut engine,
        &mut silent,
        &mut right,
        transport,
        &mut publication,
    );
    assert!(publication.read_view(&mut view));
    assert!(!view.live_valid);
    assert_eq!(right.output, Some(samples(&[0.25, -0.25, 0.5])));
}

#[test]
fn there_is_one_stereo_bus_on_either_side() {
    for direction in [Direction::Input, Direction::Output] {
        assert_eq!(bus_count(true, Some(direction)), 1);
        assert_eq!(bus_count(false, Some(direction)), 0);
        for (audio, index, known) in [(true, 0, true), (true, 1, false), (false, 0, false)] {
            let request = BusRequest {
                audio,
                direction: Some(direction),
                index,
            };
            assert_eq!(request.known(), known);
        }
    }
    assert_eq!(bus_count(true, None), 0);
    assert!(!BusRequest {
        audio: true,
        direction: None,
        index: 0,
    }
    .known());
    assert_eq!(bus_name(Direction::Input), "Input");
    assert_eq!(bus_name(Direction::Output), "Output");
    assert!(accepts_arrangements(1, 1, Some(true), Some(true)));
    assert!(!accepts_arrangements(2, 1, Some(true), Some(true)));
    assert!(!accepts_arrangements(1, 1, Some(false), Some(true)));
    assert!(!accepts_arrangements(1, 1, Some(true), None));
}

#[test]
fn ports_have_exactly_two_channels() {
    assert_eq!(check_port(0), Err(PortRefusal::NotStereo));
    assert_eq!(check_port(1), Err(PortRefusal::NotStereo));
    assert_eq!(check_port(2), Ok(()));
    assert_eq!(check_port(3), Err(PortRefusal::TooManyChannels));
    assert_eq!(
        PortRefusal::NotStereo.message(),
        "WAVE requires a stereo audio port"
    );
    assert_eq!(
        PortRefusal::TooManyChannels.message(),
        "WAVE accepts exactly two audio channels"
    );
}
