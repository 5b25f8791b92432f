//! Getting a clip ready for a recogniser: 16 kHz, one channel.

use crate::audio::wav::{encode_wav, wav_file};
use crate::text::{chars_of, count_before, lemma_len_before, len_before, string_of};
use vstd::prelude::*;
use vstd::slice::slice_subrange;

verus! {

/// The rate that recognisers expect.
pub const TARGET_SAMPLE_RATE: u32 = 16_000;

/// What is left of `s` from after its last `c` on; all of it where it holds none.
pub open spec fn after_last(s: Seq<char>, c: char) -> Seq<char>
    decreases s.len(),
{
    let n = len_before(s, c);
    if n >= s.len() {
        s
    } else {
        after_last(s.skip(n as int + 1), c)
    }
}

/// What stands in `s` before its first `c`; all of it where it holds none.
pub open spec fn before_first(s: Seq<char>, c: char) -> Seq<char> {
    s.take(len_before(s, c) as int)
}

/// The subtype that a media type names, without its parameters.
pub open spec fn media_subtype(mime_type: Seq<char>) -> Option<Seq<char>> {
    let n = len_before(mime_type, '/');
    if n >= mime_type.len() {
        None
    } else {
        Some(before_first(before_first(mime_type.skip(n as int + 1), '/'), ';'))
    }
}

/// The extension of a file name: what follows its last dot, or all of it.
pub fn file_extension(filename: &str) -> (extension: String)
    ensures
        extension@ == after_last(filename@, '.'),
{
    let chars: Vec<char> = chars_of(filename);
    let mut from: usize = 0;
    assert(chars@.skip(0) =~= chars@);
    loop
        invariant
            from <= chars@.len(),
            chars@ == filename@,
            after_last(chars@.skip(from as int), '.') == after_last(chars@, '.'),
        decreases chars@.len() - from,
    {
        let count: usize = count_before(&chars, from, '.');
        if from + count == chars.len() {
            assert(chars@.subrange(from as int, chars@.len() as int) =~= chars@.skip(from as int));
            return string_of(slice_subrange(&chars, from, chars.len()));
        }
        assert(chars@.skip(from as int).skip(count + 1) =~= chars@.skip(from + count + 1));
        from = from + count + 1;
    }
}

/// The subtype that a media type names.
pub fn mime_subtype(mime_type: &str) -> (subtype: Option<String>)
    ensures
        match subtype {
            Some(subtype) => media_subtype(mime_type@) == Some(subtype@),
            None => media_subtype(mime_type@) is None,
        },
{
    let chars: Vec<char> = chars_of(mime_type);
    assert(chars@.skip(0) =~= chars@);
    let slash: usize = count_before(&chars, 0, '/');
    if slash == chars.len() {
        return None;
    }
    let ghost rest = chars@.skip(slash + 1);
    let count: usize = count_before(&chars, slash + 1, '/');
    let piece: &[char] = slice_subrange(&chars, slash + 1, slash + 1 + count);
    assert(piece@ =~= before_first(rest, '/'));
    assert(piece@.skip(0) =~= piece@);
    let end: usize = count_before(piece, 0, ';');
    assert(piece@.subrange(0, end as int) =~= before_first(piece@, ';'));
    Some(string_of(slice_subrange(piece, 0, end)))
}

// Decoding a clip packet by packet.

/// What a decoder makes of the next packet of a clip.
#[derive(Debug)]
pub enum PacketEvent {
    /// The clip has ended.
    End,
    /// The packet could not be read.
    ReadFailed,
    /// The packet belongs to another track.
    OtherTrack,
    /// The packet is damaged, and the next one may be sound.
    Damaged,
    /// The packet could not be decoded at all.
    DecodeFailed,
    /// The packet holds so many frames at this rate.
    Decoded { rate: u32, frames: usize },
}

/// What to do next.
#[derive(Debug, Clone, Copy, PartialEq, Eq, Structural)]
pub enum PacketStep {
    /// Go on to the next packet.
    Skip,
    /// Keep the frames, mixed to one channel, and go on.
    Append,
    /// The clip is complete, at this rate.
    Finish(u32),
}

/// How far the decoding of a clip has come.
#[derive(Debug)]
pub struct ClipDecoder {
    /// The rate of the frames so far.
    pub source_rate: Option<u32>,
    /// Whether any frame has been kept.
    pub has_frames: bool,
}

/// What to do next, or why the clip cannot be used.
pub open spec fn packet_step(
    source_rate: Option<u32>,
    has_frames: bool,
    event: PacketEvent,
) -> Result<PacketStep, Seq<char>> {
    match event {
        PacketEvent::End => if has_frames {
            Ok(
                PacketStep::Finish(
                    match source_rate {
                        Some(rate) => rate,
                        None => TARGET_SAMPLE_RATE,
                    },
                ),
            )
        } else {
            Err("Audio decoder returned no samples"@)
        },
        PacketEvent::ReadFailed => Err("Failed to read audio packet"@),
        PacketEvent::OtherTrack => Ok(PacketStep::Skip),
        PacketEvent::Damaged => Ok(PacketStep::Skip),
        PacketEvent::DecodeFailed => Err("Failed to decode audio packet"@),
        PacketEvent::Decoded { rate, frames } => match source_rate {
            Some(known) => if known != rate {
                Err("Audio sample rate changed during the clip"@)
            } else {
                Ok(PacketStep::Append)
            },
            None => Ok(PacketStep::Append),
        },
    }
}

impl ClipDecoder {
    /// Starts on a clip, which must not be empty.
    pub fn start(audio_bytes: &Vec<u8>) -> (decoder: Result<ClipDecoder, String>)
        ensures
            decoder is Ok <==> audio_bytes@.len() > 0,
            match decoder {
                Ok(decoder) => decoder.source_rate is None && !decoder.has_frames,
                Err(message) => message@ == "Cannot normalize empty audio."@,
            },
    {
        if audio_bytes.len() == 0 {
            return Err("Cannot normalize empty audio.".to_owned());
        }
        Ok(ClipDecoder { source_rate: None, has_frames: false })
    }

    /// Takes what the decoder made of the next packet.
    pub fn take(&mut self, event: PacketEvent) -> (step: Result<PacketStep, String>)
        ensures
            match packet_step(old(self).source_rate, old(self).has_frames, event) {
                Ok(expected) => step == Ok::<PacketStep, String>(expected),
                Err(message) => step is Err && step->Err_0@ == message,
            },
            match event {
                PacketEvent::Decoded { rate, frames } => if step is Ok {
                    &&& final(self).source_rate == Some(rate)
                    &&& final(self).has_frames == (old(self).has_frames || frames > 0)
                } else {
                    *final(self) == *old(self)
                },
                _ => *final(self) == *old(self),
            },
    {
        match event {
            PacketEvent::End => if self.has_frames {
                Ok(
                    PacketStep::Finish(
                        match self.source_rate {
                            Some(rate) => rate,
                            None => TARGET_SAMPLE_RATE,
                        },
                    ),
                )
            } else {
                Err("Audio decoder returned no samples".to_owned())
            },
            PacketEvent::ReadFailed => Err("Failed to read audio packet".to_owned()),
            PacketEvent::OtherTrack => Ok(PacketStep::Skip),
            PacketEvent::Damaged => Ok(PacketStep::Skip),
            PacketEvent::DecodeFailed => Err("Failed to decode audio packet".to_owned()),
            PacketEvent::Decoded { rate, frames } => {
                match self.source_rate {
                    Some(known) => if known != rate {
                        return Err("Audio sample rate changed during the clip".to_owned());
                    },
                    None => {},
                }
                self.source_rate = Some(rate);
                if frames > 0 {
                    self.has_frames = true;
                }
                Ok(PacketStep::Append)
            },
        }
    }
}

/// A clip that is complete has one rate throughout: once a packet has set the rate, a packet of
/// another rate ends the decoding with an error.
pub proof fn law_one_rate_per_clip(known: u32, has_frames: bool, rate: u32, frames: usize)
    ensures
        packet_step(Some(known), has_frames, PacketEvent::Decoded { rate, frames }) is Ok <==> rate
            == known,
{
}

// The probe of a connection test.

/// How many samples the probe has: a fifth of a second.
pub const PROBE_SAMPLES: usize = 3_200;

/// A short silence, as a WAV file.
pub fn silence_probe_wav() -> (file: Vec<u8>)
    ensures
        file@ == wav_file(
            TARGET_SAMPLE_RATE as int,
            Seq::new(PROBE_SAMPLES as nat, |i: int| 0i16),
        ),
{
    let mut samples: Vec<i16> = Vec::new();
    let mut i: usize = 0;
    while i < PROBE_SAMPLES
        invariant
            i <= PROBE_SAMPLES,
            samples@.len() == i,
            forall|j: int| 0 <= j < i ==> samples@[j] == 0,
        decreases PROBE_SAMPLES - i,
    {
        samples.push(0);
        i = i + 1;
    }
    assert(samples@ =~= Seq::new(PROBE_SAMPLES as nat, |i: int| 0i16));
    match encode_wav(TARGET_SAMPLE_RATE, &samples) {
        Ok(file) => file,
        Err(_) => Vec::new(),
    }
}

// What a clip is known by, and what comes of its packets.

/// The extension of a name is what follows its last dot, and all of a name without one.
pub proof fn law_extensions_follow_the_last_dot(a: Seq<char>, extension: Seq<char>)
    requires
        !extension.contains('.'),
    ensures
        after_last(extension, '.') == extension,
        after_last(a.push('.') + extension, '.') == extension,
    decreases a.len(),
{
    lemma_len_before(extension, '.');
    let m = len_before(extension, '.');
    if m < extension.len() {
        assert(extension[m as int] == '.');
    }
    let s = a.push('.') + extension;
    lemma_len_before(s, '.');
    let n = len_before(s, '.');
    assert(s[a.len() as int] == '.');
    assert(n <= a.len());
    assert(after_last(extension, '.') == extension);
    assert(after_last(s, '.') == after_last(s.skip(n as int + 1), '.'));
    if n == a.len() {
        assert(s.skip(n as int + 1) =~= extension);
    } else {
        let rest = a.skip(n as int + 1);
        law_extensions_follow_the_last_dot(rest, extension);
        assert(s.skip(n as int + 1) =~= rest.push('.') + extension);
    }
}

/// The kind of a clip is what stands between the slash and the parameters of its type.
pub proof fn law_kinds_follow_the_slash(a: Seq<char>, kind: Seq<char>, parameters: Seq<char>)
    requires
        !a.contains('/'),
        !kind.contains('/'),
        !kind.contains(';'),
    ensures
        media_subtype(a.push('/') + kind) == Some(kind),
        !parameters.contains('/') ==> media_subtype(a.push('/') + kind.push(';') + parameters) == Some(
            kind,
        ),
        media_subtype(a) is None,
{
    lemma_before(a, '/', kind);
    lemma_before_all(kind, '/');
    lemma_before_all(kind, ';');
    let s = a.push('/') + kind;
    assert(s.skip(a.len() as int + 1) =~= kind);
    assert(kind.take(kind.len() as int) =~= kind);
    lemma_before_all(a, '/');
    if !parameters.contains('/') {
        let rest = kind.push(';') + parameters;
        let t = a.push('/') + kind.push(';') + parameters;
        assert(t =~= a.push('/') + rest);
        lemma_before(a, '/', rest);
        assert(t.skip(a.len() as int + 1) =~= rest);
        assert(!rest.contains('/')) by {
            if rest.contains('/') {
                let i = choose|i: int| 0 <= i < rest.len() && rest[i] == '/';
                if i < kind.len() {
                    assert(kind[i] == '/');
                } else if i > kind.len() {
                    assert(parameters[i - kind.len() - 1] == '/');
                }
            }
        }
        lemma_before_all(rest, '/');
        assert(rest.take(rest.len() as int) =~= rest);
        lemma_before(kind, ';', parameters);
        assert(rest.take(kind.len() as int) =~= kind);
    }
}

proof fn lemma_before(a: Seq<char>, c: char, b: Seq<char>)
    requires
        !a.contains(c),
    ensures
        len_before(a.push(c) + b, c) == a.len(),
{
    let s = a.push(c) + b;
    lemma_len_before(s, c);
    let n = len_before(s, c);
    assert(s[a.len() as int] == c);
    if n < a.len() {
        assert(s[n as int] == a[n as int]);
        assert(a.contains(c));
    }
}

proof fn lemma_before_all(a: Seq<char>, c: char)
    requires
        !a.contains(c),
    ensures
        len_before(a, c) == a.len(),
{
    lemma_len_before(a, c);
    let n = len_before(a, c);
    if n < a.len() {
        assert(a[n as int] == c);
        assert(a.contains(c));
    }
}

/// A sound packet is kept as long as its rate is that of the clip; one of another track and a damaged
/// one are passed over; and a clip that has frames ends with the rate that they had.
pub proof fn law_what_comes_of_packets(
    known: Option<u32>,
    rate: u32,
    frames: usize,
    has_frames: bool,
)
    ensures
        known is None || known == Some(rate) ==> packet_step(
            known,
            has_frames,
            PacketEvent::Decoded { rate, frames },
        ) == Ok::<PacketStep, Seq<char>>(PacketStep::Append),
        packet_step(known, has_frames, PacketEvent::OtherTrack) == Ok::<PacketStep, Seq<char>>(
            PacketStep::Skip,
        ),
        packet_step(known, has_frames, PacketEvent::Damaged) == Ok::<PacketStep, Seq<char>>(
            PacketStep::Skip,
        ),
        packet_step(known, has_frames, PacketEvent::ReadFailed) is Err,
        packet_step(known, has_frames, PacketEvent::DecodeFailed) is Err,
        packet_step(Some(rate), true, PacketEvent::End) == Ok::<PacketStep, Seq<char>>(
            PacketStep::Finish(rate),
        ),
        packet_step(known, false, PacketEvent::End) is Err,
{
}

/// What goes wrong with a clip is told in these words, and a clip whose rate is not known has sixteen
/// thousand samples per second.
pub proof fn law_what_is_told_of_a_clip(
    known: u32,
    rate: u32,
    frames: usize,
    has_frames: bool,
    any: Option<u32>,
)
    ensures
        packet_step(any, has_frames, PacketEvent::ReadFailed) == Err::<PacketStep, Seq<char>>(
            "Failed to read audio packet"@,
        ),
        packet_step(any, has_frames, PacketEvent::DecodeFailed) == Err::<PacketStep, Seq<char>>(
            "Failed to decode audio packet"@,
        ),
        packet_step(any, false, PacketEvent::End) == Err::<PacketStep, Seq<char>>(
            "Audio decoder returned no samples"@,
        ),
        known != rate ==> packet_step(
            Some(known),
            has_frames,
            PacketEvent::Decoded { rate, frames },
        ) == Err::<PacketStep, Seq<char>>("Audio sample rate changed during the clip"@),
        packet_step(None, true, PacketEvent::End) == Ok::<PacketStep, Seq<char>>(
            PacketStep::Finish(16_000),
        ),
        5 * PROBE_SAMPLES == TARGET_SAMPLE_RATE,
{
}

/// What follows a second slash is no part of the kind of a clip.
pub proof fn law_kinds_end_at_a_second_slash(a: Seq<char>, kind: Seq<char>, more: Seq<char>)
    requires
        !a.contains('/'),
        !kind.contains('/'),
        !kind.contains(';'),
    ensures
        media_subtype(a.push('/') + kind.push('/') + more) == Some(kind),
{
    let rest = kind.push('/') + more;
    let s = a.push('/') + kind.push('/') + more;
    assert(s =~= a.push('/') + rest);
    lemma_before(a, '/', rest);
    assert(s.skip(a.len() as int + 1) =~= rest);
    lemma_before(kind, '/', more);
    assert(rest.take(kind.len() as int) =~= kind);
    lemma_before_all(kind, ';');
    assert(kind.take(kind.len() as int) =~= kind);
}

} // verus!
