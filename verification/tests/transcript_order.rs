use meetly_core::audio::channel::CaptureChannel;
use meetly_core::audio::order::{TranscriptOrderGate, ORDER_HOLD_LIMIT_MS};
use meetly_core::audio::transcript::{
    finished_segment, partial_transcript, segment_id, settle_recognition, Recognition,
    TranscriptSegment,
};

const SYSTEM: CaptureChannel = CaptureChannel::System;
const MICROPHONE: CaptureChannel = CaptureChannel::Microphone;

fn segment(id: &str, start_ms: u64) -> TranscriptSegment {
    TranscriptSegment {
        id: id.to_string(),
        source: "system".to_string(),
        speaker: "interviewer".to_string(),
        text: format!("segment {}", id),
        start_ms,
        end_ms: start_ms + 1_000,
    }
}

fn ids(segments: &[TranscriptSegment]) -> Vec<&str> {
    segments.iter().map(|s| s.id.as_str()).collect()
}

#[test]
fn releases_a_second_question_only_after_the_first_one_finishes() {
    let mut gate = TranscriptOrderGate::new();
    gate.begin(SYSTEM, 0);
    gate.begin(SYSTEM, 5_000);

    assert!(ids(&gate.finish(SYSTEM, 5_000, segment("b", 5_000), 0)).is_empty());
    assert_eq!(ids(&gate.finish(SYSTEM, 0, segment("a", 0), 0)), vec!["a", "b"]);
}

#[test]
fn releases_immediately_when_nothing_earlier_is_in_flight() {
    let mut gate = TranscriptOrderGate::new();
    gate.begin(SYSTEM, 1_000);

    assert_eq!(ids(&gate.finish(SYSTEM, 1_000, segment("a", 1_000), 0)), vec!["a"]);
}

#[test]
fn an_abandoned_segment_does_not_stall_the_ones_behind_it() {
    let mut gate = TranscriptOrderGate::new();
    gate.begin(SYSTEM, 0);
    gate.begin(SYSTEM, 5_000);

    gate.abandon(SYSTEM, 0);
    assert_eq!(ids(&gate.finish(SYSTEM, 5_000, segment("b", 5_000), 0)), vec!["b"]);
}

#[test]
fn orders_segments_that_finish_in_reverse() {
    let mut gate = TranscriptOrderGate::new();
    for start_ms in [0_u64, 3_000, 6_000] {
        gate.begin(SYSTEM, start_ms);
    }

    assert!(ids(&gate.finish(SYSTEM, 6_000, segment("c", 6_000), 0)).is_empty());
    assert!(ids(&gate.finish(SYSTEM, 3_000, segment("b", 3_000), 0)).is_empty());
    assert_eq!(ids(&gate.finish(SYSTEM, 0, segment("a", 0), 0)), vec!["a", "b", "c"]);
}

#[test]
fn channels_are_ordered_independently() {
    let mut gate = TranscriptOrderGate::new();
    gate.begin(SYSTEM, 10_000);
    gate.begin(MICROPHONE, 20);

    assert_eq!(ids(&gate.finish(MICROPHONE, 20, segment("mic", 20), 0)), vec!["mic"]);
    assert_eq!(ids(&gate.finish(SYSTEM, 10_000, segment("sys", 10_000), 0)), vec!["sys"]);
}

#[test]
fn a_stalled_segment_is_released_once_the_hold_limit_passes() {
    let mut gate = TranscriptOrderGate::new();
    gate.begin(SYSTEM, 0);
    gate.begin(SYSTEM, 5_000);
    gate.finish(SYSTEM, 5_000, segment("b", 5_000), 100);

    assert!(ids(&gate.release_expired(SYSTEM, 99 + ORDER_HOLD_LIMIT_MS)).is_empty());
    assert_eq!(ids(&gate.release_expired(SYSTEM, 100 + ORDER_HOLD_LIMIT_MS)), vec!["b"]);
    assert_eq!(ids(&gate.finish(SYSTEM, 0, segment("a", 0), 0)), vec!["a"]);
}

#[test]
fn reset_drops_everything_buffered() {
    let mut gate = TranscriptOrderGate::new();
    gate.begin(SYSTEM, 0);
    gate.begin(SYSTEM, 5_000);
    gate.finish(SYSTEM, 5_000, segment("b", 5_000), 0);

    gate.reset();

    assert!(!gate.has_held(SYSTEM));
    assert_eq!(ids(&gate.finish(SYSTEM, 0, segment("a", 0), 0)), vec!["a"]);
}

#[test]
fn every_outcome_lets_the_others_go() {
    let mut gate = TranscriptOrderGate::new();
    gate.begin(SYSTEM, 0);
    gate.begin(SYSTEM, 10);
    gate.begin(SYSTEM, 20);
    assert!(gate.settle(SYSTEM, 20, Some(segment("c", 20)), 0).is_empty());
    assert!(gate.has_held(SYSTEM));
    assert!(!gate.has_held(MICROPHONE));
    assert!(gate.settle(SYSTEM, 0, None, 0).is_empty());
    assert_eq!(ids(&gate.settle(SYSTEM, 10, Some(segment("b", 10)), 0)), vec!["b", "c"]);
    assert!(!gate.has_held(SYSTEM));
}

#[test]
fn segments_are_named_by_their_time() {
    assert_eq!(segment_id(0), "seg-0");
    assert_eq!(segment_id(0xdead_beef), "seg-deadbeef");
}

#[test]
fn blank_or_late_text_makes_no_segment() {
    let made = |text: &str, active: bool| {
        finished_segment(text, active, "id".to_string(), MICROPHONE, 5, 9)
    };
    assert!(made(" \u{3000}\n", true).is_none());
    assert!(made("hi", false).is_none());
    let segment = made("  hi there \n", true).unwrap();
    assert_eq!(segment.text, "hi there");
    assert_eq!((segment.source.as_str(), segment.speaker.as_str()), ("microphone", "user"));
    assert_eq!((segment.start_ms, segment.end_ms), (5, 9));
    assert_eq!(SYSTEM.speaker(), "interviewer");
}

#[test]
fn failures_are_told_and_make_no_segment() {
    let settle = |recognition: Recognition| {
        settle_recognition(recognition, true, "id".to_string(), SYSTEM, 0, 1)
    };
    let (error, segment) = settle(Recognition::NotEncoded("too long".to_string()));
    assert_eq!(error.as_deref(), Some("Failed to encode speech segment: too long"));
    assert!(segment.is_none());
    let (error, segment) = settle(Recognition::Failed("offline".to_string()));
    assert_eq!(error.as_deref(), Some("offline"));
    assert!(segment.is_none());
    let (error, segment) = settle(Recognition::Heard(" hello".to_string()));
    assert!(error.is_none());
    assert_eq!(segment.unwrap().text, "hello");
}

#[test]
fn partial_text_is_told_while_the_capture_lasts() {
    assert!(partial_transcript("a".to_string(), false, SYSTEM, 0, 1).is_none());
    let partial = partial_transcript("a".to_string(), true, SYSTEM, 0, 1).unwrap();
    assert_eq!((partial.text.as_str(), partial.source.as_str()), ("a", "system"));
}
