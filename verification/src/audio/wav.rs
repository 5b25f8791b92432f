//! WAV files of one channel of 16-bit samples.

use vstd::prelude::*;

verus! {

/// The bytes of `n`, the least significant first.
pub open spec fn le32(n: int) -> Seq<u8> {
    seq![
        (n % 256) as u8,
        (n / 256 % 256) as u8,
        (n / 65536 % 256) as u8,
        (n / 16777216 % 256) as u8,
    ]
}

/// The bytes of `n`, the least significant first.
pub open spec fn le16(n: int) -> Seq<u8> {
    seq![(n % 256) as u8, (n / 256 % 256) as u8]
}

/// A sample as a number that is not negative, in two's complement.
pub open spec fn unsigned_sample(sample: i16) -> int {
    if sample < 0 {
        sample + 65536
    } else {
        sample as int
    }
}

/// The bytes of samples, one after another.
pub open spec fn sample_bytes(samples: Seq<i16>) -> Seq<u8>
    decreases samples.len(),
{
    if samples.len() == 0 {
        Seq::empty()
    } else {
        sample_bytes(samples.drop_last()) + le16(unsigned_sample(samples.last()))
    }
}

/// The header of a file with the given rate and the given number of bytes of samples.
pub open spec fn wav_header(sample_rate: int, data_len: int) -> Seq<u8> {
    seq![0x52u8, 0x49, 0x46, 0x46] + le32(36 + data_len) + seq![
        0x57u8, 0x41, 0x56, 0x45, 0x66, 0x6d, 0x74, 0x20,
    ] + le32(16) + le16(1) + le16(1) + le32(sample_rate) + le32(sample_rate * 2) + le16(2) + le16(
        16,
    ) + seq![0x64u8, 0x61, 0x74, 0x61] + le32(data_len)
}

/// The file with the given rate and samples.
pub open spec fn wav_file(sample_rate: int, samples: Seq<i16>) -> Seq<u8> {
    wav_header(sample_rate, 2 * samples.len() as int) + sample_bytes(samples)
}

/// The sizes that the header states fit their places.
pub open spec fn fits_wav(sample_rate: int, n: int) -> bool {
    36 + 2 * n <= u32::MAX && 2 * sample_rate <= u32::MAX
}

fn push_le32(bytes: &mut Vec<u8>, n: u32)
    ensures
        final(bytes)@ == old(bytes)@ + le32(n as int),
{
    let ghost before = bytes@;
    bytes.push((n % 256) as u8);
    bytes.push((n / 256 % 256) as u8);
    bytes.push((n / 65536 % 256) as u8);
    bytes.push((n / 16777216 % 256) as u8);
    assert(bytes@ =~= before + le32(n as int));
}

fn push_le16(bytes: &mut Vec<u8>, n: u16)
    ensures
        final(bytes)@ == old(bytes)@ + le16(n as int),
{
    let ghost before = bytes@;
    bytes.push((n % 256) as u8);
    bytes.push((n / 256 % 256) as u8);
    assert(bytes@ =~= before + le16(n as int));
}

fn push_tag(bytes: &mut Vec<u8>, a: u8, b: u8, c: u8, d: u8)
    ensures
        final(bytes)@ == old(bytes)@ + seq![a, b, c, d],
{
    let ghost before = bytes@;
    bytes.push(a);
    bytes.push(b);
    bytes.push(c);
    bytes.push(d);
    assert(bytes@ =~= before + seq![a, b, c, d]);
}

/// Writes samples as a WAV file, or tells that they are too many for one.
pub fn encode_wav(sample_rate: u32, samples: &[i16]) -> (file: Result<Vec<u8>, String>)
    ensures
        file is Ok <==> fits_wav(sample_rate as int, samples@.len() as int),
        match file {
            Ok(bytes) => bytes@ == wav_file(sample_rate as int, samples@),
            Err(message) => message@ == "Audio clip is too long for a WAV file."@,
        },
{
    if sample_rate > 0x7fff_ffff || samples.len() > 0x7fff_ffed {
        return Err("Audio clip is too long for a WAV file.".to_owned());
    }
    let data_len: u32 = 2 * samples.len() as u32;
    let mut bytes: Vec<u8> = Vec::new();
    push_tag(&mut bytes, 0x52, 0x49, 0x46, 0x46);
    push_le32(&mut bytes, 36 + data_len);
    push_tag(&mut bytes, 0x57, 0x41, 0x56, 0x45);
    push_tag(&mut bytes, 0x66, 0x6d, 0x74, 0x20);
    push_le32(&mut bytes, 16);
    push_le16(&mut bytes, 1);
    push_le16(&mut bytes, 1);
    push_le32(&mut bytes, sample_rate);
    push_le32(&mut bytes, sample_rate * 2);
    push_le16(&mut bytes, 2);
    push_le16(&mut bytes, 16);
    push_tag(&mut bytes, 0x64, 0x61, 0x74, 0x61);
    push_le32(&mut bytes, data_len);
    let ghost header = wav_header(sample_rate as int, data_len as int);
    assert(bytes@ =~= header);
    let mut i: usize = 0;
    assert(bytes@ =~= header + sample_bytes(samples@.take(0)));
    while i < samples.len()
        invariant
            i <= samples@.len(),
            bytes@ == header + sample_bytes(samples@.take(i as int)),
        decreases samples@.len() - i,
    {
        let sample: i16 = samples[i];
        let raw: i32 = if sample < 0 {
            sample as i32 + 65536
        } else {
            sample as i32
        };
        let ghost before = bytes@;
        push_le16(&mut bytes, raw as u16);
        assert(samples@.take(i + 1).drop_last() =~= samples@.take(i as int));
        assert(bytes@ =~= header + sample_bytes(samples@.take(i + 1)));
        i = i + 1;
    }
    assert(samples@.take(samples@.len() as int) =~= samples@);
    Ok(bytes)
}

/// The sample that two bytes write.
pub open spec fn read_sample(low: u8, high: u8) -> int {
    let n = low + 256 * high;
    if n >= 32768 {
        n - 65536
    } else {
        n
    }
}

proof fn lemma_sample_bytes(samples: Seq<i16>, i: int)
    requires
        0 <= i < samples.len(),
    ensures
        sample_bytes(samples).len() == 2 * samples.len(),
        read_sample(sample_bytes(samples)[2 * i], sample_bytes(samples)[2 * i + 1]) == samples[i],
    decreases samples.len(),
{
    let init = samples.drop_last();
    let last = le16(unsigned_sample(samples.last()));
    assert(sample_bytes(samples) == sample_bytes(init) + last);
    if init.len() == 0 {
        assert(sample_bytes(init).len() == 0);
    } else {
        lemma_sample_bytes(
            init,
            if i < init.len() {
                i
            } else {
                0
            },
        );
    }
    if i < init.len() {
        assert(init[i] == samples[i]);
    }
}

/// A file is its header and two bytes for each sample, and each sample can be read back.
pub proof fn law_samples_are_kept(sample_rate: int, samples: Seq<i16>, i: int)
    requires
        0 <= i < samples.len(),
    ensures
        wav_file(sample_rate, samples).len() == 44 + 2 * samples.len(),
        read_sample(
            wav_file(sample_rate, samples)[44 + 2 * i],
            wav_file(sample_rate, samples)[44 + 2 * i + 1],
        ) == samples[i],
{
    lemma_sample_bytes(samples, i);
    assert(wav_header(sample_rate, 2 * samples.len() as int).len() == 44);
}

// What a file says.

proof fn lemma_le32(n: int)
    requires
        0 <= n <= u32::MAX,
    ensures
        le32(n).len() == 4,
        le32(n)[0] + 256 * le32(n)[1] + 65536 * le32(n)[2] + 16777216 * le32(n)[3] == n,
{
    let a = n % 256;
    let b = n / 256 % 256;
    let c = n / 65536 % 256;
    let d = n / 16777216 % 256;
    assert(a + 256 * b + 65536 * c + 16777216 * d == n);
}

/// The header of a file tells what it is, in its fixed places: how long the file and the sound are,
/// that the sound is of one channel with samples of sixteen bits that are not compressed, and its
/// rate. Numbers are written with their lowest byte first.
pub proof fn law_headers_tell_what_the_sound_is(sample_rate: int, samples: Seq<i16>)
    requires
        0 < sample_rate,
        fits_wav(sample_rate, samples.len() as int),
    ensures
        ({
            let file = wav_file(sample_rate, samples);
            let n = 2 * samples.len();
            &&& file.subrange(0, 4) == seq![0x52u8, 0x49, 0x46, 0x46]
            &&& file[4] + 256 * file[5] + 65536 * file[6] + 16777216 * file[7] == 36 + n
            &&& file.subrange(8, 16) == seq![0x57u8, 0x41, 0x56, 0x45, 0x66, 0x6d, 0x74, 0x20]
            &&& file[16] + 256 * file[17] + 65536 * file[18] + 16777216 * file[19] == 16
            &&& file[20] + 256 * file[21] == 1
            &&& file[22] + 256 * file[23] == 1
            &&& file[24] + 256 * file[25] + 65536 * file[26] + 16777216 * file[27] == sample_rate
            &&& file[28] + 256 * file[29] + 65536 * file[30] + 16777216 * file[31] == 2 * sample_rate
            &&& file[32] + 256 * file[33] == 2
            &&& file[34] + 256 * file[35] == 16
            &&& file.subrange(36, 40) == seq![0x64u8, 0x61, 0x74, 0x61]
            &&& file[40] + 256 * file[41] + 65536 * file[42] + 16777216 * file[43] == n
        }),
{
    let file = wav_file(sample_rate, samples);
    let n = 2 * samples.len() as int;
    lemma_le32(36 + n);
    lemma_le32(16);
    lemma_le32(sample_rate);
    lemma_le32(sample_rate * 2);
    lemma_le32(n);
    assert(file[4] == le32(36 + n)[0] && file[5] == le32(36 + n)[1] && file[6] == le32(36 + n)[2]
        && file[7] == le32(36 + n)[3]);
    assert(file[16] == le32(16)[0] && file[17] == le32(16)[1] && file[18] == le32(16)[2] && file[19]
        == le32(16)[3]);
    assert(file[24] == le32(sample_rate)[0] && file[25] == le32(sample_rate)[1] && file[26] == le32(
        sample_rate,
    )[2] && file[27] == le32(sample_rate)[3]);
    let speed = sample_rate * 2;
    assert(file[28] == le32(speed)[0] && file[29] == le32(speed)[1] && file[30] == le32(speed)[2]
        && file[31] == le32(speed)[3]);
    assert(file[40] == le32(n)[0] && file[41] == le32(n)[1] && file[42] == le32(n)[2] && file[43]
        == le32(n)[3]);
    assert(file.subrange(0, 4) =~= seq![0x52u8, 0x49, 0x46, 0x46]);
    assert(file.subrange(8, 16) =~= seq![0x57u8, 0x41, 0x56, 0x45, 0x66, 0x6d, 0x74, 0x20]);
    assert(file.subrange(36, 40) =~= seq![0x64u8, 0x61, 0x74, 0x61]);
}

/// Every sample stands in its own place, two bytes behind the one before it, with its lowest byte
/// first and a negative one as what it lacks of 65536.
pub proof fn law_samples_stand_in_their_places(sample_rate: int, samples: Seq<i16>, i: int)
    requires
        0 <= i < samples.len(),
    ensures
        ({
            let file = wav_file(sample_rate, samples);
            let written = file[44 + 2 * i] + 256 * file[44 + 2 * i + 1];
            written == if samples[i] < 0 {
                samples[i] + 65536
            } else {
                samples[i] as int
            }
        }),
{
    law_samples_are_kept(sample_rate, samples, i);
}

/// A file holds as many samples as its sizes can tell.
pub proof fn law_what_fits_a_file(sample_rate: int, n: int)
    ensures
        fits_wav(sample_rate, n) <==> 36 + 2 * n < 4294967296 && 2 * sample_rate < 4294967296,
{
}

} // verus!
