//! What has been said.

use crate::audio::channel::CaptureChannel;
use crate::text::{blank, is_blank, is_white, join_two, lemma_trim, numeral, numeral_of, trim, trim_text};
use vstd::prelude::*;

verus! {

/// A piece of speech, as text.
#[derive(Debug, Clone)]
pub struct TranscriptSegment {
    pub id: String,
    pub source: String,
    pub speaker: String,
    pub text: String,
    /// When it started, in milliseconds.
    pub start_ms: u64,
    /// When it ended, in milliseconds.
    pub end_ms: u64,
}

/// A piece of speech, as it is handed on.
pub type TranscriptSegmentDto = TranscriptSegment;

/// Text that is not complete yet.
#[derive(Debug, Clone)]
pub struct TranscriptPartial {
    pub text: String,
    pub source: String,
    pub start_ms: u64,
    pub end_ms: u64,
}

/// The identifier of a segment that was made at a time, in nanoseconds.
pub fn segment_id(nanos: u128) -> (id: String)
    ensures
        id@ == "seg-"@ + numeral(nanos as nat, 16),
{
    join_two("seg-", numeral_of(nanos, 16).as_str())
}

/// The segment that a recognised text makes. A text without words makes none, and neither does one
/// that came after the capture was stopped.
pub fn finished_segment(
    text: &str,
    capture_active: bool,
    id: String,
    channel: CaptureChannel,
    start_ms: u64,
    end_ms: u64,
) -> (segment: Option<TranscriptSegment>)
    ensures
        segment is Some <==> !is_blank(text@) && capture_active,
        segment matches Some(segment) ==> {
            &&& segment.id@ == id@
            &&& segment.source@ == channel.source_name()
            &&& segment.speaker@ == channel.speaker_name()
            &&& segment.text@ == trim(text@)
            &&& segment.start_ms == start_ms
            &&& segment.end_ms == end_ms
        },
{
    if blank(text) || !capture_active {
        return None;
    }
    Some(
        TranscriptSegment {
            id,
            source: channel.source().to_owned(),
            speaker: channel.speaker().to_owned(),
            text: trim_text(text),
            start_ms,
            end_ms,
        },
    )
}

/// What came of the recognition of a segment.
#[derive(Debug)]
pub enum Recognition {
    /// The samples could not be written to a file.
    NotEncoded(String),
    /// There is no one to recognise it, or the recognition failed.
    Failed(String),
    /// What was said.
    Heard(String),
}

/// What is told where the samples of a segment cannot be written to a file, before the reason.
pub const NOT_ENCODED: &'static str = "Failed to encode speech segment: ";

/// What is done about a recognition: the error that is told, and the segment that is shown. Every
/// outcome comes to an end here, so that no later segment waits for it.
pub fn settle_recognition(
    recognition: Recognition,
    capture_active: bool,
    id: String,
    channel: CaptureChannel,
    start_ms: u64,
    end_ms: u64,
) -> (settled: (Option<String>, Option<TranscriptSegment>))
    ensures
        match recognition {
            Recognition::NotEncoded(reason) => settled.0 is Some && settled.0->0@ == NOT_ENCODED@
                + reason@ && settled.1 is None,
            Recognition::Failed(reason) => settled.0 == Some(reason) && settled.1 is None,
            Recognition::Heard(text) => {
                &&& settled.0 is None
                &&& settled.1 is Some <==> !is_blank(text@) && capture_active
                &&& settled.1 matches Some(segment) ==> {
                    &&& segment.id@ == id@
                    &&& segment.source@ == channel.source_name()
                    &&& segment.speaker@ == channel.speaker_name()
                    &&& segment.text@ == trim(text@)
                    &&& segment.start_ms == start_ms
                    &&& segment.end_ms == end_ms
                }
            },
        },
{
    match recognition {
        Recognition::NotEncoded(reason) => (Some(join_two(NOT_ENCODED, reason.as_str())), None),
        Recognition::Failed(reason) => (Some(reason), None),
        Recognition::Heard(text) => (
            None,
            finished_segment(text.as_str(), capture_active, id, channel, start_ms, end_ms),
        ),
    }
}

/// What is told of text that is not complete yet; nothing after the capture was stopped.
pub fn partial_transcript(
    text: String,
    capture_active: bool,
    channel: CaptureChannel,
    start_ms: u64,
    end_ms: u64,
) -> (partial: Option<TranscriptPartial>)
    ensures
        partial is Some <==> capture_active,
        partial matches Some(partial) ==> {
            &&& partial.text@ == text@
            &&& partial.source@ == channel.source_name()
            &&& partial.start_ms == start_ms
            &&& partial.end_ms == end_ms
        },
{
    if !capture_active {
        return None;
    }
    Some(TranscriptPartial { text, source: channel.source().to_owned(), start_ms, end_ms })
}

/// The text of a segment is never empty, and no white space stands at its ends.
pub proof fn law_shown_text_has_words(text: Seq<char>)
    requires
        !is_blank(text),
    ensures
        trim(text).len() > 0,
        !is_white(trim(text)[0]),
        !is_white(trim(text).last()),
{
    lemma_trim(text);
}

} // verus!
