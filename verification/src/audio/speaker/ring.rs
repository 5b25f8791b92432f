//! The ring through which captured samples travel from the thread that hears them to the one that
//! uses them.
//!
//! Samples are numbers of single precision and are kept by their bits. The reader takes samples out
//! at any time, so how many the ring can hold at a moment is not known beforehand.

use ringbuf::traits::{Consumer, Observer, Producer, Split};
use vstd::prelude::*;
use vstd::slice::slice_subrange;

verus! {

/// The end of a ring that takes samples, a `ringbuf::HeapProd`.
#[verifier::external_body]
pub struct SampleRing {
    producer: ringbuf::HeapProd<u32>,
}

/// The end of a ring that gives samples, a `ringbuf::HeapCons`.
#[verifier::external_body]
pub struct SampleReader {
    consumer: ringbuf::HeapCons<u32>,
}

/// The samples that a ring has taken through this end so far, in order.
pub uninterp spec fn taken(ring: SampleRing) -> Seq<u32>;

/// How many samples a ring was made to hold.
pub uninterp spec fn capacity(ring: SampleRing) -> nat;

/// How many of its samples a ring had given at the other end when this end last pushed.
pub uninterp spec fn freed(ring: SampleRing) -> nat;

/// The samples that a ring has given through this end so far, in order.
pub uninterp spec fn given(reader: SampleReader) -> Seq<u32>;

/// How many samples a ring had taken at the other end when this end last read.
pub uninterp spec fn arrived(reader: SampleReader) -> nat;

/// Which ring an end that takes samples is an end of. Nothing is said of the number but that the two
/// ends of a ring have the same, and keep it.
pub uninterp spec fn ring_taking(ring: SampleRing) -> int;

/// Which ring an end that gives samples is an end of.
pub uninterp spec fn ring_giving(reader: SampleReader) -> int;

/// The two ends are those of one ring.
pub open spec fn joined(ring: SampleRing, reader: SampleReader) -> bool {
    ring_taking(ring) == ring_giving(reader)
}

/// What an end has given is what the other end has taken, in the same order: at whatever moments one
/// looks at the two, one sequence is the start of the other.
pub open spec fn gives_what_was_taken(reader: SampleReader) -> bool {
    forall|ring: SampleRing| #[trigger]
        joined(ring, reader) ==> given(reader).is_prefix_of(taken(ring)) || taken(
            ring,
        ).is_prefix_of(given(reader))
}

/// How many samples there was room for in a ring before a push, by what was found to be given in it:
/// what the ring was made to hold, less what it had taken and not given.
pub open spec fn room(before: SampleRing, after: SampleRing) -> int {
    let left = capacity(before) + freed(after) - taken(before).len();
    if left < 0 {
        0
    } else {
        left
    }
}

/// The smaller of two numbers.
pub open spec fn smaller(a: int, b: int) -> int {
    if a < b {
        a
    } else {
        b
    }
}

/// `ringbuf::HeapRb::new` makes a ring, and `split` parts it into its two ends. It panics where the
/// ring is to hold nothing, or more than memory can. Nothing has been taken or given yet.
#[verifier::external_body]
fn new_ring(size: usize) -> (ends: (SampleRing, SampleReader))
    requires
        size > 0,
        size * 4 <= isize::MAX,
    ensures
        taken(ends.0).len() == 0,
        capacity(ends.0) == size,
        freed(ends.0) == 0,
        given(ends.1).len() == 0,
        arrived(ends.1) == 0,
        joined(ends.0, ends.1),
{
    let (producer, consumer) = ringbuf::HeapRb::<u32>::new(size).split();
    (SampleRing { producer }, SampleReader { consumer })
}

/// `Producer::push_slice` appends as many of the first given items as the ring has room for at the
/// moment, and tells how many. Of what was taken before, more may have been read since the last push,
/// never less, and never more than all of it.
#[verifier::external_body]
fn push_slice(ring: &mut SampleRing, samples: &[u32]) -> (pushed: usize)
    ensures
        pushed == smaller(samples@.len() as int, room(*old(ring), *final(ring))),
        freed(*old(ring)) <= freed(*final(ring)) <= taken(*old(ring)).len(),
        taken(*final(ring)).len() <= capacity(*old(ring)) + freed(*final(ring)),
        taken(*final(ring)) == taken(*old(ring)) + samples@.take(pushed as int),
        capacity(*final(ring)) == capacity(*old(ring)),
        ring_taking(*final(ring)) == ring_taking(*old(ring)),
{
    ring.producer.push_slice(samples)
}

/// `Observer::vacant_len` tells how much room the ring has at the moment: what it was made to hold
/// less what it has taken and not given, which is no more than was found at the last push. The reader
/// can make more room at any time.
#[verifier::external_body]
fn vacant_len(ring: &SampleRing) -> (room: usize)
    ensures
        room <= capacity(*ring),
        room + taken(*ring).len() >= capacity(*ring) + freed(*ring),
{
    ring.producer.vacant_len()
}

/// `Consumer::pop_slice` removes the eldest items from the ring into the first places of the given
/// ones, as many as there are places and items, and tells how many. They are those that were pushed
/// at the other end, in order. It looks once how far that end has come, which is no less far than at
/// the last read, and no less far than what was read. How far it has come since then is not said.
#[verifier::external_body]
fn pop_slice(reader: &mut SampleReader, samples: &mut Vec<u32>) -> (popped: usize)
    ensures
        arrived(*old(reader)) <= arrived(*final(reader)),
        given(*old(reader)).len() <= arrived(*final(reader)),
        popped == smaller(
            old(samples)@.len() as int,
            arrived(*final(reader)) - given(*old(reader)).len(),
        ),
        final(samples)@.len() == old(samples)@.len(),
        final(samples)@.skip(popped as int) == old(samples)@.skip(popped as int),
        given(*final(reader)) == given(*old(reader)) + final(samples)@.take(popped as int),
        ring_giving(*final(reader)) == ring_giving(*old(reader)),
        gives_what_was_taken(*final(reader)),
{
    reader.consumer.pop_slice(samples)
}

/// A ring that holds so many samples; none where there can be no such ring.
pub fn sample_ring(size: usize) -> (ends: Option<(SampleRing, SampleReader)>)
    ensures
        ends is Some <==> size > 0 && size * 4 <= isize::MAX,
        ends matches Some(ends) ==> taken(ends.0).len() == 0 && capacity(ends.0) == size && freed(
            ends.0,
        ) == 0 && given(ends.1).len() == 0 && arrived(ends.1) == 0 && joined(ends.0, ends.1),
{
    if size == 0 || size > isize::MAX as usize / 4 {
        None
    } else {
        Some(new_ring(size))
    }
}

/// Takes samples out of a ring into the first of the given places, and tells how many. They are the
/// next of those that the other end has taken, as many as have come and as there are places for. How
/// many have come by now is for that end to decide.
pub fn read_samples(reader: &mut SampleReader, samples: &mut Vec<u32>) -> (count: usize)
    ensures
        arrived(*old(reader)) <= arrived(*final(reader)),
        given(*old(reader)).len() <= arrived(*final(reader)),
        count == smaller(
            old(samples)@.len() as int,
            arrived(*final(reader)) - given(*old(reader)).len(),
        ),
        final(samples)@.len() == old(samples)@.len(),
        final(samples)@.skip(count as int) == old(samples)@.skip(count as int),
        given(*final(reader)) == given(*old(reader)) + final(samples)@.take(count as int),
        ring_giving(*final(reader)) == ring_giving(*old(reader)),
        gives_what_was_taken(*final(reader)),
{
    pop_slice(reader, samples)
}

/// A read gives back what was pushed: the samples read are those that the other end took next after
/// all that was read before, in the same order.
pub proof fn law_what_is_read_was_pushed(
    ring: SampleRing,
    before: SampleReader,
    after: SampleReader,
    read: Seq<u32>,
)
    requires
        joined(ring, after),
        gives_what_was_taken(after),
        given(after) == given(before) + read,
    ensures
        forall|i: int|
            0 <= i < read.len() && given(before).len() + i < taken(ring).len() ==> #[trigger] read[i]
                == taken(ring)[given(before).len() + i],
{
    assert forall|i: int|
        0 <= i < read.len() && given(before).len() + i < taken(ring).len() implies #[trigger] read[i]
        == taken(ring)[given(before).len() + i] by {
        let at = given(before).len() + i;
        assert(given(after)[at] == read[i]);
        if given(after).is_prefix_of(taken(ring)) {
            assert(taken(ring).subrange(0, given(after).len() as int)[at] == taken(ring)[at]);
        } else {
            assert(given(after).subrange(0, taken(ring).len() as int)[at] == given(after)[at]);
        }
    }
}

/// A read leaves nothing behind that it had a place for: one that fills fewer places than it was given
/// has given all that had arrived, and one that fills none of them found nothing.
pub proof fn law_a_short_read_empties_the_ring(
    before: SampleReader,
    after: SampleReader,
    places: int,
    read: Seq<u32>,
)
    requires
        given(before).len() <= arrived(after),
        given(after) == given(before) + read,
        read.len() == smaller(places, arrived(after) - given(before).len()),
    ensures
        read.len() < places ==> given(after).len() == arrived(after),
        read.len() == 0 && places > 0 ==> arrived(after) == given(before).len(),
        given(after).len() <= arrived(after),
{
}

/// How many samples a ring has taken and how many it had no room for.
#[derive(Debug, Clone, Copy, PartialEq, Eq, Structural)]
pub struct PushStats {
    pub pushed: usize,
    pub dropped: usize,
}

/// How many samples are worked on at a time where nothing else is said.
pub const DEFAULT_SCRATCH_LEN: usize = 8192;

/// How many frames of so many channels the given number of samples makes.
pub open spec fn frames_of(samples: int, channels: int) -> int {
    samples / if channels < 1 {
        1
    } else {
        channels
    }
}

/// How many samples are left over of the last frame.
pub open spec fn leftover_of(samples: int, channels: int) -> int {
    samples % if channels < 1 {
        1
    } else {
        channels
    }
}

/// How many whole frames of so many channels the given number of samples makes, and how many
/// samples are left over.
pub fn frame_count(samples: usize, channels: usize) -> (counts: (usize, usize))
    ensures
        counts.0 == frames_of(samples as int, channels as int),
        counts.1 == leftover_of(samples as int, channels as int),
        counts.0 + counts.1 <= samples,
{
    let channels: usize = if channels == 0 {
        1
    } else {
        channels
    };
    proof {
        vstd::arithmetic::div_mod::lemma_fundamental_div_mod(samples as int, channels as int);
        assert(channels * (samples / channels) >= samples / channels) by (nonlinear_arith)
            requires
                channels >= 1,
        ;
    }
    (samples / channels, samples % channels)
}

/// What has been pushed is the start of what was given, in order, and every sample given is counted
/// once, as pushed or as dropped. As many are pushed as the ring has room for, no more and no less.
pub open spec fn accounts(
    before: SampleRing,
    after: SampleRing,
    samples: Seq<u32>,
    leftover: int,
    stats: PushStats,
) -> bool {
    &&& stats.pushed == smaller(samples.len() as int, room(before, after))
    &&& freed(before) <= freed(after)
    &&& taken(after) == taken(before) + samples.take(stats.pushed as int)
    &&& capacity(after) == capacity(before)
    &&& ring_taking(after) == ring_taking(before)
    &&& stats.pushed + stats.dropped == samples.len() + leftover
}

/// Nothing was done.
pub open spec fn untouched(before: SampleRing, after: SampleRing, stats: PushStats) -> bool {
    after == before && stats.pushed == 0 && stats.dropped == 0
}

/// Pushes samples as they are.
pub fn push_f32_to_ringbuf(data: &[u32], ring: &mut SampleRing) -> (stats: PushStats)
    ensures
        accounts(*old(ring), *final(ring), data@, 0, stats),
{
    if data.len() == 0 {
        assert(taken(*ring) =~= taken(*ring) + data@.take(0));
        return PushStats { pushed: 0, dropped: 0 };
    }
    let pushed: usize = push_slice(ring, data);
    PushStats { pushed, dropped: data.len() - pushed }
}

/// Pushes frames in batches of `scratch_len`, and drops the rest at the first batch that does not
/// fit.
fn push_batches(frames: &[u32], leftover: usize, scratch_len: usize, ring: &mut SampleRing) -> (stats:
    PushStats)
    requires
        frames@.len() + leftover <= usize::MAX,
        scratch_len > 0,
    ensures
        accounts(*old(ring), *final(ring), frames@, leftover as int, stats),
{
    let mut offset: usize = 0;
    assert(taken(*ring) =~= taken(*ring) + frames@.take(0));
    while offset < frames.len()
        invariant
            offset <= frames@.len(),
            frames@.len() + leftover <= usize::MAX,
            scratch_len > 0,
            taken(*ring) == taken(*old(ring)) + frames@.take(offset as int),
            capacity(*ring) == capacity(*old(ring)),
            freed(*old(ring)) <= freed(*ring),
            offset > 0 ==> taken(*ring).len() <= capacity(*ring) + freed(*ring),
            ring_taking(*ring) == ring_taking(*old(ring)),
        decreases frames@.len() - offset,
    {
        let count: usize = if frames.len() - offset < scratch_len {
            frames.len() - offset
        } else {
            scratch_len
        };
        let batch: &[u32] = slice_subrange(frames, offset, offset + count);
        let pushed: usize = push_slice(ring, batch);
        assert(frames@.take(offset + pushed) =~= frames@.take(offset as int) + batch@.take(
            pushed as int,
        ));
        assert(taken(*ring) =~= taken(*old(ring)) + frames@.take(offset + pushed));
        if pushed < count {
            let total: usize = offset + pushed;
            return PushStats { pushed: total, dropped: frames.len() - total + leftover };
        }
        offset = offset + count;
    }
    PushStats { pushed: offset, dropped: leftover }
}

/// Pushes samples of several channels that have been mixed to `frames`, one for each whole frame, in
/// batches of `scratch_len`. What is left over of the last frame can form no sample and is dropped.
/// Samples of one channel are pushed as they are, and so are all where there is no room to mix in.
pub fn downmix_f32_to_ringbuf(
    samples: &[u32],
    channels: usize,
    frames: &[u32],
    scratch_len: usize,
    ring: &mut SampleRing,
) -> (stats: PushStats)
    requires
        frames@.len() == frames_of(samples@.len() as int, channels as int),
    ensures
        channels <= 1 || scratch_len == 0 ==> accounts(*old(ring), *final(ring), samples@, 0, stats),
        channels > 1 && scratch_len > 0 ==> accounts(
            *old(ring),
            *final(ring),
            frames@,
            leftover_of(samples@.len() as int, channels as int),
            stats,
        ),
{
    let (_, leftover) = frame_count(samples.len(), channels);
    if channels <= 1 || scratch_len == 0 {
        return push_f32_to_ringbuf(samples, ring);
    }
    push_batches(frames, leftover, scratch_len, ring)
}

/// Pushes so many samples of several channels that have been converted and mixed to `frames`, one
/// for each whole frame, as many of them as the ring has room for. What is left over of the last
/// frame is dropped, and so is the rest once the ring is full. Where there is nothing to convert, or
/// no room to convert in, nothing is done.
pub fn convert_and_push_to_ringbuf(
    samples: usize,
    channels: usize,
    frames: &[u32],
    scratch_len: usize,
    ring: &mut SampleRing,
) -> (stats: PushStats)
    requires
        frames@.len() == frames_of(samples as int, channels as int),
    ensures
        samples == 0 || scratch_len == 0 ==> untouched(*old(ring), *final(ring), stats),
        samples > 0 && scratch_len > 0 ==> accounts(
            *old(ring),
            *final(ring),
            frames@,
            leftover_of(samples as int, channels as int),
            stats,
        ),
{
    if scratch_len == 0 || samples == 0 {
        return PushStats { pushed: 0, dropped: 0 };
    }
    let (_, leftover) = frame_count(samples, channels);
    let mut offset: usize = 0;
    assert(taken(*ring) =~= taken(*ring) + frames@.take(0));
    while offset < frames.len()
        invariant
            offset <= frames@.len(),
            frames@.len() + leftover <= usize::MAX,
            leftover == leftover_of(samples as int, channels as int),
            scratch_len > 0,
            samples > 0,
            taken(*ring) == taken(*old(ring)) + frames@.take(offset as int),
            capacity(*ring) == capacity(*old(ring)),
            freed(*old(ring)) <= freed(*ring),
            offset > 0 ==> taken(*ring).len() <= capacity(*ring) + freed(*ring),
            ring_taking(*ring) == ring_taking(*old(ring)),
        decreases frames@.len() - offset,
    {
        let vacant: usize = vacant_len(ring);
        if vacant == 0 {
            return PushStats { pushed: offset, dropped: frames.len() - offset + leftover };
        }
        let whole: usize = if frames.len() - offset < scratch_len {
            frames.len() - offset
        } else {
            scratch_len
        };
        let count: usize = if whole < vacant {
            whole
        } else {
            vacant
        };
        let batch: &[u32] = slice_subrange(frames, offset, offset + count);
        let pushed: usize = push_slice(ring, batch);
        assert(frames@.take(offset + pushed) =~= frames@.take(offset as int) + batch@.take(
            pushed as int,
        ));
        assert(taken(*ring) =~= taken(*old(ring)) + frames@.take(offset + pushed));
        if pushed < count {
            let total: usize = offset + pushed;
            return PushStats { pushed: total, dropped: frames.len() - total + leftover };
        }
        offset = offset + count;
    }
    PushStats { pushed: offset, dropped: leftover }
}

/// As long as all that a ring has ever taken fits it, every sample is kept: none is dropped but what
/// is left over of the last frame.
pub proof fn law_what_fits_is_kept(
    before: SampleRing,
    after: SampleRing,
    samples: Seq<u32>,
    leftover: int,
    stats: PushStats,
)
    requires
        accounts(before, after, samples, leftover, stats),
        taken(before).len() + samples.len() <= capacity(before),
    ensures
        stats.pushed == samples.len(),
        stats.dropped == leftover,
        taken(after) == taken(before) + samples,
{
    assert(samples.take(samples.len() as int) =~= samples);
}

/// While nothing is read, a push takes as many samples as the ring has room for at its start: what the
/// ring was made to hold, less what it holds.
pub proof fn law_a_push_fills_the_room(
    before: SampleRing,
    after: SampleRing,
    samples: Seq<u32>,
    leftover: int,
    stats: PushStats,
)
    requires
        accounts(before, after, samples, leftover, stats),
        taken(before).len() - freed(before) <= capacity(before),
        freed(after) == freed(before),
    ensures
        stats.pushed == smaller(
            samples.len() as int,
            capacity(before) - (taken(before).len() - freed(before)),
        ),
        stats.dropped == samples.len() - stats.pushed + leftover,
        taken(after).len() - freed(after) <= capacity(after),
{
}

// Silence.

/// So many silent samples.
pub open spec fn silence(n: nat) -> Seq<u32> {
    Seq::new(n, |i: int| 0u32)
}

/// `now` is how many samples have been heard or filled in once a pause has been filled, where so many
/// should have been heard by now and so many have been. A pause of more than a second is passed over.
pub open spec fn is_filled(expected: u64, produced: u64, sample_rate: u32, now: u64) -> bool {
    if expected <= produced {
        now == produced
    } else if expected - produced > sample_rate {
        now == expected
    } else {
        produced <= now <= expected
    }
}

/// Fills a pause with silence, given how many samples should have been heard by now and how many
/// have been, and tells how many have been heard or filled in now. Where more than a second is
/// missing the clock jumped or no one reads, and the pause is passed over.
pub fn fill_silence_gap(
    expected: u64,
    produced: u64,
    sample_rate: u32,
    scratch_len: usize,
    ring: &mut SampleRing,
) -> (now: u64)
    ensures
        is_filled(expected, produced, sample_rate, now),
        taken(*final(ring)) == if expected <= produced || expected - produced > sample_rate {
            taken(*old(ring))
        } else {
            taken(*old(ring)) + silence((now - produced) as nat)
        },
        expected > produced && now < expected ==> scratch_len == 0 || taken(*final(ring)).len()
            >= capacity(*old(ring)) + freed(*final(ring)),
        freed(*old(ring)) <= freed(*final(ring)),
        capacity(*final(ring)) == capacity(*old(ring)),
        ring_taking(*final(ring)) == ring_taking(*old(ring)),
{
    if expected <= produced {
        return produced;
    }
    let deficit: u64 = expected - produced;
    if deficit > sample_rate as u64 {
        return expected;
    }
    let mut zeros: Vec<u32> = Vec::new();
    let wanted: usize = if (deficit as u128) < scratch_len as u128 {
        deficit as usize
    } else {
        scratch_len
    };
    while zeros.len() < wanted
        invariant
            zeros@.len() <= wanted,
            forall|i: int| 0 <= i < zeros@.len() ==> zeros@[i] == 0,
        decreases wanted - zeros@.len(),
    {
        zeros.push(0);
    }
    let mut pending: u64 = deficit;
    assert(taken(*ring) =~= taken(*ring) + silence(0));
    while pending > 0
        invariant
            pending <= deficit,
            deficit == expected - produced,
            expected > produced,
            deficit <= sample_rate,
            scratch_len > 0 ==> zeros@.len() > 0,
            forall|i: int| 0 <= i < zeros@.len() ==> zeros@[i] == 0,
            capacity(*ring) == capacity(*old(ring)),
            freed(*old(ring)) <= freed(*ring),
            ring_taking(*ring) == ring_taking(*old(ring)),
            taken(*ring) == taken(*old(ring)) + silence((deficit - pending) as nat),
        decreases pending,
    {
        let batch: usize = if pending < zeros.len() as u64 {
            pending as usize
        } else {
            zeros.len()
        };
        let pushed: usize = push_slice(ring, slice_subrange(&zeros, 0, batch));
        assert(taken(*ring) =~= taken(*old(ring)) + silence(
            (deficit - pending + pushed) as nat,
        ));
        if pushed == 0 {
            return expected - pending;
        }
        pending = pending - pushed as u64;
    }
    expected
}

/// Whether a pause was filled with any silence, given what is told of its filling. One that was passed
/// over was not.
pub fn silence_was_filled(expected: u64, produced: u64, sample_rate: u32, now: u64) -> (filled: bool)
    requires
        is_filled(expected, produced, sample_rate, now),
    ensures
        filled == (now > produced && expected - produced <= sample_rate),
{
    now > produced && expected - produced <= sample_rate as u64
}

/// However much silence is filled in, the stream never runs ahead of the clock, and what was heard
/// is never taken back.
pub proof fn law_silence_keeps_time(expected: u64, produced: u64, now: u64, sample_rate: u32)
    requires
        is_filled(expected, produced, sample_rate, now),
    ensures
        produced <= now,
        now <= expected || now == produced,
{
}

// Samples in a packet.

/// The number that four bytes write, the least significant first.
pub open spec fn read_le32(bytes: Seq<u8>, at: int) -> int {
    bytes[at] + 256 * bytes[at + 1] + 65536 * bytes[at + 2] + 16777216 * bytes[at + 3]
}

/// Reads so many samples of four bytes.
pub fn decode_samples(bytes: &[u8], count: usize) -> (samples: Vec<u32>)
    requires
        4 * count <= bytes@.len(),
    ensures
        samples@.len() == count,
        forall|i: int| 0 <= i < count ==> samples@[i] == read_le32(bytes@, 4 * i),
{
    let mut samples: Vec<u32> = Vec::new();
    let mut i: usize = 0;
    while i < count
        invariant
            i <= count,
            4 * count <= bytes.len(),
            bytes@.len() == bytes.len(),
            samples@.len() == i,
            forall|j: int| 0 <= j < i ==> samples@[j] == read_le32(bytes@, 4 * j),
        decreases count - i,
    {
        let at: usize = 4 * i;
        let n: u32 = bytes[at] as u32 + 256 * bytes[at + 1] as u32 + 65536 * bytes[at + 2] as u32
            + 16777216 * bytes[at + 3] as u32;
        samples.push(n);
        i = i + 1;
    }
    samples
}

// Frames, silence and bytes.

/// Frames are whole: what they hold and what is left over is all that there is, and less than a frame
/// is left over.
pub proof fn law_frames_are_whole(samples: int, channels: int)
    requires
        0 <= samples,
        0 <= channels,
    ensures
        ({
            let width = if channels == 0 {
                1
            } else {
                channels
            };
            &&& frames_of(samples, channels) * width + leftover_of(samples, channels) == samples
            &&& 0 <= leftover_of(samples, channels) < width
        }),
{
    let width = if channels == 0 {
        1
    } else {
        channels
    };
    vstd::arithmetic::div_mod::lemma_fundamental_div_mod(samples, width);
    vstd::arithmetic::div_mod::lemma_mod_bound(samples, width);
    let q = frames_of(samples, channels);
    assert(width * q == q * width) by (nonlinear_arith);
}

/// Silence is so many samples that are nothing.
pub proof fn law_silence_is_nothing(n: nat, i: int)
    ensures
        silence(n).len() == n,
        0 <= i < n ==> silence(n)[i] == 0,
{
}

/// A pause of at most a second is filled with no more than is missing, a longer one is passed over,
/// and where nothing is missing nothing is filled.
pub proof fn law_pauses_are_filled_or_passed_over(
    expected: u64,
    produced: u64,
    sample_rate: u32,
    now: u64,
)
    requires
        is_filled(expected, produced, sample_rate, now),
    ensures
        expected <= produced ==> now == produced,
        produced < expected && expected - produced > sample_rate ==> now == expected,
        produced < expected && expected - produced <= sample_rate ==> produced <= now <= expected,
{
}

/// A sample of a packet is read with its lowest byte first.
pub proof fn law_packets_are_read_low_byte_first(bytes: Seq<u8>, at: int)
    ensures
        read_le32(bytes, at) == bytes[at] + bytes[at + 1] * 256 + bytes[at + 2] * 65536 + bytes[at + 3]
            * 16777216,
{
}

/// Samples are lost at the end only, as few as there is no room for, and every one is counted, as are
/// those of a frame that is not complete.
pub proof fn law_lost_samples_are_counted(
    before: SampleRing,
    after: SampleRing,
    samples: Seq<u32>,
    leftover: int,
    stats: PushStats,
    i: int,
)
    requires
        accounts(before, after, samples, leftover, stats),
        0 <= leftover,
    ensures
        stats.pushed <= samples.len(),
        stats.pushed + stats.dropped == samples.len() + leftover,
        samples.len() <= capacity(before) + freed(after) - taken(before).len() ==> stats.pushed
            == samples.len() && stats.dropped == leftover,
        taken(after).len() == taken(before).len() + stats.pushed,
        0 <= i < taken(before).len() ==> taken(after)[i] == taken(before)[i],
        0 <= i < stats.pushed ==> taken(after)[taken(before).len() + i] == samples[i],
{
}

/// A ring that is left alone takes nothing and loses nothing.
pub proof fn law_nothing_is_taken_of_nothing(before: SampleRing, after: SampleRing, stats: PushStats)
    requires
        untouched(before, after, stats),
    ensures
        taken(after) == taken(before),
        stats.pushed == 0 && stats.dropped == 0,
{
}

} // verus!
