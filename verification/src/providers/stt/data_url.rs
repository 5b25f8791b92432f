//! Audio as text, for requests that carry it in their body.

use crate::text::{char_count, is_ascii_char};
use base64::Engine;
use vstd::prelude::*;

verus! {

/// The character that writes six bits.
pub open spec fn sextet(n: int) -> char {
    if n < 26 {
        ('A' as int + n) as char
    } else if n < 52 {
        ('a' as int + n - 26) as char
    } else if n < 62 {
        ('0' as int + n - 52) as char
    } else if n == 62 {
        '+'
    } else {
        '/'
    }
}

/// Bytes in Base64 with the standard alphabet: each three bytes as four characters of six bits,
/// and the last group filled up with equals signs.
pub open spec fn base64_text(bytes: Seq<u8>) -> Seq<char>
    decreases bytes.len(),
{
    if bytes.len() == 0 {
        Seq::empty()
    } else if bytes.len() == 1 {
        seq![sextet(bytes[0] as int / 4), sextet(bytes[0] as int % 4 * 16), '=', '=']
    } else if bytes.len() == 2 {
        seq![
            sextet(bytes[0] as int / 4),
            sextet(bytes[0] as int % 4 * 16 + bytes[1] as int / 16),
            sextet(bytes[1] as int % 16 * 4),
            '=',
        ]
    } else {
        seq![
            sextet(bytes[0] as int / 4),
            sextet(bytes[0] as int % 4 * 16 + bytes[1] as int / 16),
            sextet(bytes[1] as int % 16 * 4 + bytes[2] as int / 64),
            sextet(bytes[2] as int % 64),
        ] + base64_text(bytes.skip(3))
    }
}

/// How many characters `n` bytes take in Base64.
pub open spec fn base64_len(n: int) -> int {
    (n + 2) / 3 * 4
}

/// Base64 takes four characters for each three bytes begun, all of them ASCII, so that its length
/// in bytes is its length in characters.
pub proof fn law_base64_size(bytes: Seq<u8>)
    ensures
        base64_text(bytes).len() == base64_len(bytes.len() as int),
        forall|i: int|
            0 <= i < base64_text(bytes).len() ==> is_ascii_char(#[trigger] base64_text(bytes)[i]),
    decreases bytes.len(),
{
    if bytes.len() >= 3 {
        law_base64_size(bytes.skip(3));
        let rest = base64_text(bytes.skip(3));
        assert forall|i: int| 0 <= i < base64_text(bytes).len() implies is_ascii_char(
            #[trigger] base64_text(bytes)[i],
        ) by {
            if i >= 4 {
                assert(base64_text(bytes)[i] == rest[i - 4]);
            }
        }
    }
}

/// `base64::engine::general_purpose::STANDARD.encode` writes bytes in Base64 with the standard
/// alphabet and with padding. It panics where the text would be longer than memory can be.
#[verifier::external_body]
pub(crate) fn encode_base64(bytes: &[u8]) -> (text: String)
    requires
        base64_len(bytes@.len() as int) <= isize::MAX,
    ensures
        text@ == base64_text(bytes@),
{
    base64::engine::general_purpose::STANDARD.encode(bytes)
}

/// A WAV file in Base64.
pub fn audio_base64(wav: &Vec<u8>) -> (text: String)
    requires
        base64_len(wav@.len() as int) <= isize::MAX,
    ensures
        text@ == base64_text(wav@),
{
    encode_base64(wav)
}

/// How long a request lets an audio address be.
pub const MAX_AUDIO_DATA_URL_BYTES: usize = 10_000_000;

/// The address that holds a WAV file.
pub open spec fn audio_url(wav: Seq<u8>) -> Seq<char> {
    "data:audio/wav;base64,"@ + base64_text(wav)
}

/// The address that holds a WAV file, unless it is longer than a request lets it be.
pub fn audio_data_url(wav: &Vec<u8>) -> (url: Option<String>)
    ensures
        url is Some <==> audio_url(wav@).len() <= MAX_AUDIO_DATA_URL_BYTES,
        url matches Some(url) ==> url@ == audio_url(wav@),
{
    proof {
        law_base64_size(wav@);
    }
    if wav.len() > MAX_AUDIO_DATA_URL_BYTES {
        return None;
    }
    let mut url: String = "data:audio/wav;base64,".to_owned();
    url.append(encode_base64(wav).as_str());
    if char_count(url.as_str()) > MAX_AUDIO_DATA_URL_BYTES {
        None
    } else {
        Some(url)
    }
}

/// A recording of three minutes, at sixteen thousand samples a second, fits into a request.
pub proof fn law_three_minutes_fit(wav: Seq<u8>)
    requires
        wav.len() <= 44 + 2 * 16_000 * 180,
    ensures
        audio_url(wav).len() < MAX_AUDIO_DATA_URL_BYTES,
{
    reveal_strlit("data:audio/wav;base64,");
    law_base64_size(wav);
}

/// The address of a clip is its mark and then the clip, and it fits as long as it has at most ten
/// million characters.
pub proof fn law_clips_are_written_behind_their_mark(wav: Seq<u8>)
    ensures
        audio_url(wav).take("data:audio/wav;base64,"@.len() as int) == "data:audio/wav;base64,"@,
        audio_url(wav).skip("data:audio/wav;base64,"@.len() as int) == base64_text(wav),
        MAX_AUDIO_DATA_URL_BYTES == 10_000_000,
{
    let mark = "data:audio/wav;base64,"@;
    assert(audio_url(wav).take(mark.len() as int) =~= mark);
    assert(audio_url(wav).skip(mark.len() as int) =~= base64_text(wav));
}

/// Sixty-four marks stand for six bits each: the capital letters, the small ones, the digits, the plus
/// sign and the slash.
pub proof fn law_marks_stand_for_six_bits(n: int)
    ensures
        0 <= n < 26 ==> sextet(n) as int == 65 + n,
        26 <= n < 52 ==> sextet(n) as int == 97 + (n - 26),
        52 <= n < 62 ==> sextet(n) as int == 48 + (n - 52),
        sextet(62) == '+',
        sextet(63) == '/',
{
}

/// Three bytes make four marks, of six of their bits each, the highest first. One or two bytes at the
/// end are filled with bits that are not set, and equals signs stand for what is missing.
pub proof fn law_three_bytes_make_four_marks(a: u8, b: u8, c: u8, rest: Seq<u8>)
    ensures
        ({
            let n = 65536 * a + 256 * b + c;
            base64_text(seq![a, b, c] + rest) == seq![
                sextet(n / 262144),
                sextet(n / 4096 % 64),
                sextet(n / 64 % 64),
                sextet(n % 64),
            ] + base64_text(rest)
        }),
        ({
            let n = 4 * (256 * a + b);
            base64_text(seq![a, b]) == seq![
                sextet(n / 4096),
                sextet(n / 64 % 64),
                sextet(n % 64),
                '=',
            ]
        }),
        ({
            let n = 16 * a;
            base64_text(seq![a]) == seq![sextet(n / 64), sextet(n % 64), '=', '=']
        }),
        base64_text(Seq::empty()).len() == 0,
{
    let all = seq![a, b, c] + rest;
    assert(all.skip(3) =~= rest);
    assert(all[0] == a && all[1] == b && all[2] == c);
    let n = 65536 * a + 256 * b + c;
    let (x, y, z) = (a as int, b as int, c as int);
    assert(n / 262144 == x / 4);
    assert(n / 4096 % 64 == x % 4 * 16 + y / 16);
    assert(n / 64 % 64 == y % 16 * 4 + z / 64);
    assert(n % 64 == z % 64);
    let m = 4 * (256 * x + y);
    assert(m / 4096 == x / 4);
    assert(m / 64 % 64 == x % 4 * 16 + y / 16);
    assert(m % 64 == y % 16 * 4);
    assert(16 * x / 64 == x / 4);
    assert(16 * x % 64 == x % 4 * 16);
}

/// The length of the text is four marks for every three bytes or part of them.
pub proof fn law_how_long_a_clip_is_as_text(n: int)
    requires
        0 <= n,
    ensures
        base64_len(n) % 4 == 0,
        3 * base64_len(n) >= 4 * n,
        3 * base64_len(n) <= 4 * (n + 2),
{
}

} // verus!
