//! What the computer plays.

pub mod ring;

use crate::text::{
    chars_of, decimal, is_digit, is_digits, is_white, law_numbers_are_read_back,
    law_stripped_texts, parse_unsigned, starts_with, starts_with_text, string_of,
    strip_prefix, strip_prefix_text, trim, trim_chars, trim_end, trim_start, unsigned_value,
};
use vstd::prelude::*;

verus! {

/// How many samples are taken from the ring at a time: few enough to be quick, enough not to wake
/// all the time.
pub const CHUNK_SIZE: usize = 2048;

/// How many samples the ring holds, more than five seconds. Each one that it has no room for is
/// missing from the middle of what is heard.
pub const BUFFER_SIZE: usize = 262_144;

/// The devices that were found.
#[derive(Debug)]
pub struct DeviceProbe {
    pub input_device: Option<String>,
    pub output_device: Option<String>,
    pub error: Option<String>,
}

/// What is told where the sound of the computer cannot be heard.
pub const CAPTURE_UNSUPPORTED: &'static str =
    "System audio capture is only implemented on macOS and Windows.";

/// The devices of a system on which none can be heard.
pub fn probe_devices() -> (probe: DeviceProbe)
    ensures
        probe.input_device is None,
        probe.output_device is None,
        probe.error is Some,
        probe.error->0@ == CAPTURE_UNSUPPORTED@,
{
    DeviceProbe {
        input_device: None,
        output_device: None,
        error: Some(CAPTURE_UNSUPPORTED.to_owned()),
    }
}

/// The process that a device identifier names: what follows its mark, where that is a number that
/// is not zero and fits.
pub open spec fn named_process(device_id: Option<Seq<char>>) -> Option<int> {
    match device_id {
        Some(id) => match strip_prefix(id, "pid:"@) {
            Some(value) => match unsigned_value(trim(value)) {
                Some(n) => if 0 < n <= u32::MAX {
                    Some(n)
                } else {
                    None
                },
                None => None,
            },
            None => None,
        },
        None => None,
    }
}

/// The process that a device identifier names.
pub fn process_id_of(device_id: Option<&str>) -> (process: Option<u32>)
    ensures
        ({
            let named = named_process(
                match device_id {
                    Some(id) => Some(id@),
                    None => None,
                },
            );
            match process {
                Some(n) => named == Some(n as int),
                None => named is None,
            }
        }),
{
    let id: &str = match device_id {
        Some(id) => id,
        None => return None,
    };
    let chars: Vec<char> = chars_of(id);
    match strip_prefix_text(&chars, "pid:") {
        Some(value) => {
            let number: String = string_of(trim_chars(value));
            match parse_unsigned(number.as_str()) {
                Some(n) => if 0 < n && n <= 0xffff_ffff {
                    Some(n as u32)
                } else {
                    None
                },
                None => None,
            }
        },
        None => None,
    }
}

/// Whether a device identifier names a device, and not a process.
pub fn names_device(device_id: Option<&str>) -> (yes: bool)
    ensures
        yes == match device_id {
            Some(id) => !starts_with(id@, "pid:"@),
            None => false,
        },
{
    match device_id {
        Some(id) => {
            let chars: Vec<char> = chars_of(id);
            !starts_with_text(&chars, "pid:")
        },
        None => false,
    }
}

/// A process is named by its number behind its mark, and by nothing else.
pub proof fn law_processes_are_named_by_number(n: nat, id: Seq<char>)
    ensures
        0 < n <= u32::MAX ==> named_process(Some("pid:"@ + decimal(n))) == Some(n as int),
        named_process(Some("pid:"@ + decimal(0))) is None,
        n > u32::MAX ==> named_process(Some("pid:"@ + decimal(n))) is None,
        !starts_with(id, "pid:"@) ==> named_process(Some(id)) is None,
        named_process(None) is None,
{
    law_numbers_are_read_back(n);
    law_numbers_are_read_back(0);
    law_stripped_texts(decimal(n), "pid:"@);
    law_stripped_texts(decimal(0), "pid:"@);
    lemma_digits_stay(decimal(n));
    lemma_digits_stay(decimal(0));
}

proof fn lemma_digits_stay(s: Seq<char>)
    requires
        is_digits(s),
    ensures
        trim(s) == s,
{
    assert(is_digit(s[0]) && is_digit(s[s.len() - 1]));
}

} // verus!
