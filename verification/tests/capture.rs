use meetly_core::audio::capture::{
    level_due, segment_start_ms, starting_rate, CaptureLoop, HopReport,
};
use meetly_core::audio::channel::CaptureChannel;
use meetly_core::audio::speaker::ring::{
    convert_and_push_to_ringbuf, decode_samples, downmix_f32_to_ringbuf, fill_silence_gap,
    frame_count, push_f32_to_ringbuf, read_samples, sample_ring, silence_was_filled, SampleReader,
};
use meetly_core::audio::speaker::{
    names_device, probe_devices, process_id_of, DeviceProbe, BUFFER_SIZE,
};
use meetly_core::audio::status::{
    build_audio_status, channel_failures, current_channel_status, failed_channel_status,
    idle_channel_status, needs_channel, ready_channel_status, stopped_meeting,
    unsupported_microphone, AudioRunState, AudioStatus, MeetingCaptureStatus,
};

fn mixed(samples: &[f32], channels: usize) -> Vec<u32> {
    samples
        .chunks_exact(channels)
        .map(|frame| (frame.iter().sum::<f32>() / channels as f32).to_bits())
        .collect()
}

fn bits(samples: &[f32]) -> Vec<u32> {
    samples.iter().map(|sample| sample.to_bits()).collect()
}

fn drained(reader: &mut SampleReader) -> Vec<f32> {
    let mut out = vec![0u32; 64];
    let count = read_samples(reader, &mut out);
    out.truncate(count);
    out.into_iter().map(f32::from_bits).collect()
}

#[test]
fn stereo_frames_are_averaged_into_one_mono_track() {
    let (mut ring, mut reader) = sample_ring(16).unwrap();
    let samples = [1.0, 0.0, 0.6, 0.2];

    let stats = downmix_f32_to_ringbuf(&bits(&samples), 2, &mixed(&samples, 2), 8, &mut ring);

    assert_eq!((stats.pushed, stats.dropped), (2, 0));
    let out = drained(&mut reader);
    assert_eq!(out.len(), 2);
    assert!((out[0] - 0.5).abs() < 1e-6, "got {:?}", out);
    assert!((out[1] - 0.4).abs() < 1e-6, "got {:?}", out);
}

#[test]
fn mono_input_is_passed_through_untouched() {
    let (mut ring, mut reader) = sample_ring(16).unwrap();
    let samples = [0.1, 0.2, 0.3];

    let stats = downmix_f32_to_ringbuf(&bits(&samples), 1, &mixed(&samples, 1), 8, &mut ring);

    assert_eq!((stats.pushed, stats.dropped), (3, 0));
    assert_eq!(drained(&mut reader), vec![0.1, 0.2, 0.3]);
}

#[test]
fn interleaved_stereo_is_not_mistaken_for_double_the_audio() {
    let (mut ring, mut reader) = sample_ring(16).unwrap();
    let samples: Vec<f32> = [2i16, 2, 4, 4].iter().map(|&sample| sample as f32).collect();

    let stats = convert_and_push_to_ringbuf(samples.len(), 2, &mixed(&samples, 2), 8, &mut ring);

    assert_eq!((stats.pushed, stats.dropped), (2, 0));
    assert_eq!(drained(&mut reader), vec![2.0, 4.0]);
}

#[test]
fn overrun_reports_every_sample_it_could_not_store() {
    let (mut ring, mut reader) = sample_ring(2).unwrap();
    let samples = [0.1, 0.1, 0.2, 0.2, 0.3, 0.3];

    let stats = downmix_f32_to_ringbuf(&bits(&samples), 2, &mixed(&samples, 2), 8, &mut ring);

    assert_eq!(stats.pushed, 2);
    assert_eq!(stats.dropped, 1);
    assert_eq!(drained(&mut reader).len(), 2);
}

#[test]
fn what_fits_is_kept_in_order() {
    let (mut ring, mut reader) = sample_ring(8).unwrap();
    let frames: Vec<u32> = (1..=7).collect();
    let stats = convert_and_push_to_ringbuf(15, 2, &frames, 3, &mut ring);
    assert_eq!((stats.pushed, stats.dropped), (7, 1));
    let mut out = vec![0; 9];
    assert_eq!(read_samples(&mut reader, &mut out), 7);
    assert_eq!(out, vec![1, 2, 3, 4, 5, 6, 7, 0, 0]);
}

#[test]
fn a_full_ring_takes_nothing_more_until_it_is_read() {
    let (mut ring, mut reader) = sample_ring(4).unwrap();
    let stats = convert_and_push_to_ringbuf(6, 1, &[1, 2, 3, 4, 5, 6], 2, &mut ring);
    assert_eq!((stats.pushed, stats.dropped), (4, 2));
    let stats = push_f32_to_ringbuf(&[7], &mut ring);
    assert_eq!((stats.pushed, stats.dropped), (0, 1));
    let mut out = vec![0; 2];
    assert_eq!(read_samples(&mut reader, &mut out), 2);
    let stats = push_f32_to_ringbuf(&[7, 8, 9], &mut ring);
    assert_eq!((stats.pushed, stats.dropped), (2, 1));
    let mut rest = vec![0; 4];
    assert_eq!(read_samples(&mut reader, &mut rest), 4);
    assert_eq!((out, rest), (vec![1, 2], vec![3, 4, 7, 8]));
}

#[test]
fn without_room_to_work_in_samples_pass_or_wait() {
    let (mut ring, mut reader) = sample_ring(8).unwrap();
    let stats = downmix_f32_to_ringbuf(&[1, 2, 3], 2, &[9], 0, &mut ring);
    assert_eq!((stats.pushed, stats.dropped), (3, 0));
    let stats = convert_and_push_to_ringbuf(3, 2, &[9], 0, &mut ring);
    assert_eq!((stats.pushed, stats.dropped), (0, 0));
    let stats = downmix_f32_to_ringbuf(&[1, 2, 3], 2, &[9], 4, &mut ring);
    assert_eq!((stats.pushed, stats.dropped), (1, 1));
    let mut out = vec![0; 8];
    assert_eq!(read_samples(&mut reader, &mut out), 4);
    assert_eq!(&out[..4], &[1, 2, 3, 9]);
}

#[test]
fn impossible_rings_are_not_made() {
    assert!(sample_ring(0).is_none());
    assert!(sample_ring(usize::MAX).is_none());
    assert!(sample_ring(BUFFER_SIZE).is_some());
}

#[test]
fn pauses_become_silence() {
    let (mut ring, mut reader) = sample_ring(16).unwrap();
    assert_eq!(fill_silence_gap(5, 8, 48_000, 4, &mut ring), 8);
    assert_eq!(fill_silence_gap(11, 8, 48_000, 2, &mut ring), 11);
    assert_eq!(drained(&mut reader), vec![0.0, 0.0, 0.0]);
    // Far behind: the pause is passed over.
    assert_eq!(fill_silence_gap(60_000, 11, 48_000, 4, &mut ring), 60_000);
    assert!(drained(&mut reader).is_empty());
    // A full ring takes what it can.
    assert_eq!(fill_silence_gap(120, 100, 48_000, 4, &mut ring), 116);
    assert_eq!(drained(&mut reader).len(), 16);
}

#[test]
fn frames_are_counted() {
    assert_eq!(frame_count(7, 2), (3, 1));
    assert_eq!(frame_count(7, 0), (7, 0));
}

#[test]
fn samples_are_decoded_with_the_least_significant_byte_first() {
    let mut bytes = 1.5f32.to_le_bytes().to_vec();
    bytes.extend_from_slice(&(-0.25f32).to_le_bytes());
    bytes.push(7);
    assert_eq!(decode_samples(&bytes, 2), bits(&[1.5, -0.25]));
}

#[test]
fn processes_are_named_by_number() {
    assert_eq!(process_id_of(Some("pid: 42 ")), Some(42));
    assert_eq!(process_id_of(Some("pid:0")), None);
    assert_eq!(process_id_of(Some("pid:4294967296")), None);
    assert_eq!(process_id_of(Some("pid:x")), None);
    assert_eq!(process_id_of(Some("{device}")), None);
    assert_eq!(process_id_of(None), None);
    assert!(names_device(Some("{device}")));
    assert!(!names_device(Some("pid:x")));
    assert!(!names_device(None));
}

#[test]
fn possible_rates_are_accepted() {
    assert_eq!(starting_rate(48_000), Ok(48_000));
    assert_eq!(starting_rate(8_000), Ok(8_000));
    assert_eq!(starting_rate(96_001).unwrap_err(), "Invalid sample rate: 96001");
    assert_eq!(starting_rate(0).unwrap_err(), "Invalid sample rate: 0");
}

#[test]
fn a_capture_follows_its_device() {
    let mut capture = CaptureLoop::new(48_000);
    for _ in 0..1023 {
        assert_eq!(capture.take_sample(16_000), None);
        assert_eq!(capture.end_hop(), None);
    }
    assert_eq!(capture.take_sample(16_000), Some(16_000));
    assert_eq!(capture.active_rate, 16_000);
    assert_eq!(capture.end_hop(), Some(HopReport { emit: false, measure: None }));
}

#[test]
fn the_level_is_told_at_every_fourth_hop() {
    let mut capture = CaptureLoop::new(48_000);
    let mut told = Vec::new();
    let mut measured = Vec::new();
    for hop in 1..=100 {
        for _ in 0..1024 {
            assert_eq!(capture.take_sample(0), None);
        }
        let report = capture.end_hop().unwrap();
        if report.emit {
            told.push(hop);
        }
        if let Some(samples) = report.measure {
            measured.push((hop, samples));
        }
    }
    assert_eq!(&told[..3], &[4, 8, 12]);
    assert_eq!(told.len(), 25);
    // Two seconds are 96000 samples, which are complete in the 94th hop.
    assert_eq!(measured, vec![(94, 94 * 1024)]);
}

#[test]
fn a_measured_rate_is_taken_over_once() {
    let mut capture = CaptureLoop::new(48_000);
    let second = 1_000_000_000;
    assert_eq!(capture.take_measure(96_000, 2 * second, 0), None);
    // Fifteen in a hundred is not too far.
    assert_eq!(capture.take_measure(55_200, second, 0), None);
    assert_eq!(capture.take_measure(16_000, second, 1), None);
    assert_eq!(capture.take_measure(16_000, 0, 0), None);
    assert_eq!(capture.take_measure(7_000, second, 0), None);
    assert_eq!(capture.take_measure(32_001, 2 * second, 0), Some(16_001));
    assert_eq!(capture.active_rate, 16_001);
    assert_eq!(capture.take_measure(32_001, 2 * second, 0), None);
}

#[test]
fn segments_start_before_they_end() {
    assert_eq!(segment_start_ms(10_000, 48_000, 48_000), 9_000);
    assert_eq!(segment_start_ms(500, 48_000, 48_000), 0);
    assert_eq!(segment_start_ms(0, usize::MAX, 1), 0);
    assert!(!level_due(1023));
    assert!(level_due(1024));
}

fn status(
    output: Option<&str>,
    device_error: Option<&str>,
    listening: bool,
    last_error: Option<&str>,
    told: Option<AudioRunState>,
) -> AudioStatus {
    build_audio_status(
        DeviceProbe {
            input_device: Some("mic".to_string()),
            output_device: output.map(|name| name.to_string()),
            error: device_error.map(|text| text.to_string()),
        },
        "linux".to_string(),
        listening,
        Some(48_000),
        0.5f32.to_bits(),
        last_error.map(|text| text.to_string()),
        told,
    )
}

#[test]
fn the_state_is_told_with_its_reason() {
    let missing = status(None, None, true, None, None);
    assert_eq!(missing.state, AudioRunState::SetupRequired);
    assert!(missing.setup_required);
    assert_eq!(missing.message.as_deref(), Some("No default output audio device found."));

    let failed = status(Some("out"), Some("no devices"), false, Some("old"), None);
    assert_eq!(failed.state, AudioRunState::Error);
    assert_eq!(failed.message.as_deref(), Some("no devices"));

    let listening = status(Some("out"), None, true, Some("old"), None);
    assert_eq!(listening.state, AudioRunState::Listening);
    assert_eq!(listening.message.as_deref(), Some("old"));

    let idle = status(Some("out"), None, false, None, None);
    assert_eq!(idle.state, AudioRunState::Idle);
    assert_eq!(idle.message, None);
    assert_eq!(idle.output_device.as_deref(), Some("out"));

    let started = status(None, None, false, None, Some(AudioRunState::Listening));
    assert_eq!(started.state, AudioRunState::Listening);
    assert!(!started.setup_required);
    let stopped = status(None, None, false, None, Some(AudioRunState::Idle));
    assert!(stopped.setup_required);
}

#[test]
fn every_meeting_has_a_channel() {
    for remote in [true, false] {
        for record in [true, false] {
            let system = needs_channel(CaptureChannel::System, remote, record);
            let microphone = needs_channel(CaptureChannel::Microphone, remote, record);
            assert!(system || microphone);
            assert_eq!(system, remote);
        }
    }
    assert!(!needs_channel(CaptureChannel::Microphone, true, false));
}

#[test]
fn channels_that_fail_are_told() {
    let status = MeetingCaptureStatus {
        remote: true,
        system: failed_channel_status("no tap".to_string()),
        microphone: unsupported_microphone(),
    };
    let failures = channel_failures(&status);
    assert_eq!(failures.len(), 2);
    assert_eq!((failures[0].source.as_str(), failures[0].message.as_str()), ("system", "no tap"));
    assert_eq!(failures[1].source, "microphone");

    let status = MeetingCaptureStatus {
        remote: false,
        system: idle_channel_status(),
        microphone: ready_channel_status(Some(48_000), Some("mic".to_string())),
    };
    assert!(channel_failures(&status).is_empty());
    assert!(channel_failures(&stopped_meeting()).is_empty());
    assert!(current_channel_status(false, None, None).is_none());
    assert!(current_channel_status(true, Some(1), None).unwrap().ready);
}

#[test]
fn unsupported_systems_say_so() {
    let probe = probe_devices();
    assert!(probe.input_device.is_none());
    assert_eq!(
        probe.error.as_deref(),
        Some("System audio capture is only implemented on macOS and Windows.")
    );
}

#[test]
fn a_push_fills_the_room_that_there_is() {
    let (mut ring, mut reader) = sample_ring(5).unwrap();
    assert_eq!(push_f32_to_ringbuf(&[1, 2, 3], &mut ring).pushed, 3);
    let stats = downmix_f32_to_ringbuf(&[0; 9], 2, &[4, 5, 6, 7], 3, &mut ring);
    assert_eq!((stats.pushed, stats.dropped), (2, 3));
    let mut out = vec![0; 4];
    assert_eq!(read_samples(&mut reader, &mut out), 4);
    let stats = downmix_f32_to_ringbuf(&[0; 12], 2, &[8, 9, 10, 11, 12, 13], 2, &mut ring);
    assert_eq!((stats.pushed, stats.dropped), (4, 2));
}

#[test]
fn a_short_read_leaves_nothing_behind() {
    let (mut ring, mut reader) = sample_ring(8).unwrap();
    let mut out = vec![0; 3];
    assert_eq!(read_samples(&mut reader, &mut out), 0);
    assert_eq!(push_f32_to_ringbuf(&[1, 2, 3, 4, 5], &mut ring).pushed, 5);
    assert_eq!(read_samples(&mut reader, &mut out), 3);
    assert_eq!(out, vec![1, 2, 3]);
    assert_eq!(read_samples(&mut reader, &mut out), 2);
    assert_eq!(out, vec![4, 5, 3]);
    assert_eq!(read_samples(&mut reader, &mut out), 0);
    assert_eq!(read_samples(&mut reader, &mut Vec::new()), 0);
}

#[test]
fn a_pause_that_is_passed_over_is_not_filled() {
    assert!(!silence_was_filled(5, 8, 48_000, 8));
    assert!(silence_was_filled(11, 8, 48_000, 9));
    assert!(!silence_was_filled(11, 8, 48_000, 8));
    assert!(!silence_was_filled(60_000, 11, 48_000, 60_000));
}
