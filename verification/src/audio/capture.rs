//! The rules of a running capture: at what rate it is heard, when its loudness is told, and when its
//! rate is measured.

use crate::text::{decimal, decimal_of, join_two};
use vstd::prelude::*;

verus! {

/// How many samples are looked at together.
pub const HOP_SIZE: u32 = 1024;

/// The loudness is told once in so many hops: more often it looks no different.
pub const EMIT_EVERY_N_HOPS: u32 = 4;

/// The lowest rate that is possible.
pub const LOWEST_RATE: u32 = 8_000;

/// The highest rate that is possible.
pub const HIGHEST_RATE: u32 = 96_000;

/// Whether sound can be captured at a rate.
pub open spec fn possible_rate(rate: int) -> bool {
    LOWEST_RATE <= rate <= HIGHEST_RATE
}

/// The rate that a capture starts with, or why it cannot start.
pub fn starting_rate(rate: u32) -> (checked: Result<u32, String>)
    ensures
        match checked {
            Ok(same) => possible_rate(rate as int) && same == rate,
            Err(message) => !possible_rate(rate as int) && message@ == "Invalid sample rate: "@
                + decimal(rate as nat),
        },
{
    if LOWEST_RATE <= rate && rate <= HIGHEST_RATE {
        Ok(rate)
    } else {
        Err(join_two("Invalid sample rate: ", decimal_of(rate as u64).as_str()))
    }
}

/// The rate that a number of samples in a time amounts to, rounded to the nearest.
pub open spec fn measured_rate(samples: int, elapsed_nanos: int) -> int {
    (2 * samples * 1_000_000_000 + elapsed_nanos) / (2 * elapsed_nanos)
}

/// Whether a number of samples in a time differs from a rate by more than fifteen in a hundred.
pub open spec fn drifts(samples: int, elapsed_nanos: int, rate: int) -> bool {
    let heard = samples * 1_000_000_000;
    let expected = rate * elapsed_nanos;
    100 * (if heard < expected {
        expected - heard
    } else {
        heard - expected
    }) > 15 * expected
}

/// The rate that a measurement tells to go on with: the measured one, where nothing was lost
/// meanwhile, where it is far from the present one, and where it is possible.
pub open spec fn recalibrated(samples: int, elapsed_nanos: int, dropped: int, rate: int) -> Option<
    int,
> {
    let measured = measured_rate(samples, elapsed_nanos);
    if elapsed_nanos > 0 && dropped == 0 && drifts(samples, elapsed_nanos, rate) && possible_rate(
        measured,
    ) {
        Some(measured)
    } else {
        None
    }
}

/// Once a measured rate has been taken over, the same measurement changes nothing more.
pub proof fn law_measured_rate_settles(samples: int, elapsed_nanos: int, dropped: int, rate: int)
    requires
        0 <= samples,
        recalibrated(samples, elapsed_nanos, dropped, rate) is Some,
    ensures
        recalibrated(
            samples,
            elapsed_nanos,
            dropped,
            recalibrated(samples, elapsed_nanos, dropped, rate)->0,
        ) is None,
{
    let measured = measured_rate(samples, elapsed_nanos);
    let heard = samples * 1_000_000_000;
    let twice = 2 * elapsed_nanos;
    vstd::arithmetic::div_mod::lemma_fundamental_div_mod(2 * heard + elapsed_nanos, twice);
    vstd::arithmetic::div_mod::lemma_mod_bound(2 * heard + elapsed_nanos, twice);
    let expected = measured * elapsed_nanos;
    assert(twice * measured == 2 * expected) by (nonlinear_arith)
        requires
            twice == 2 * elapsed_nanos,
            expected == measured * elapsed_nanos,
    ;
    assert(expected >= 8_000 * elapsed_nanos) by (nonlinear_arith)
        requires
            measured >= 8_000,
            elapsed_nanos > 0,
            expected == measured * elapsed_nanos,
    ;
}

/// A measured rate is possible, and a measurement in which samples were lost changes nothing.
pub proof fn law_measured_rate_is_possible(samples: int, elapsed_nanos: int, dropped: int, rate: int)
    ensures
        recalibrated(samples, elapsed_nanos, dropped, rate) matches Some(measured) ==> possible_rate(
            measured,
        ) && dropped == 0,
{
}

/// A running capture.
#[derive(Debug, Clone, Copy, PartialEq, Eq, Structural)]
pub struct CaptureLoop {
    /// The rate that what is heard now has.
    pub active_rate: u32,
    /// How many samples have been heard since the rate was last looked at.
    pub since_rate_probe: u32,
    /// How many samples the present hop has.
    pub chunk_len: u32,
    /// How many samples have been heard since the rate was last measured.
    pub probe_samples: u64,
    /// How many hops have ended since the loudness was last told.
    pub emit_decimator: u32,
}

/// What is due at the end of a hop.
#[derive(Debug, Clone, Copy, PartialEq, Eq, Structural)]
pub struct HopReport {
    /// The loudness is to be told.
    pub emit: bool,
    /// The rate is to be measured, over so many samples.
    pub measure: Option<u64>,
}

impl CaptureLoop {
    /// No count has passed its end.
    pub open spec fn wf(&self) -> bool {
        &&& self.since_rate_probe < HOP_SIZE
        &&& self.chunk_len <= HOP_SIZE
        &&& self.probe_samples <= self.chunk_len + 2 * u32::MAX
        &&& self.emit_decimator < EMIT_EVERY_N_HOPS
    }

    /// How many samples are heard before the rate is measured: two seconds of them.
    pub open spec fn probe_window(&self) -> int {
        if self.active_rate == 0 {
            1
        } else {
            2 * self.active_rate
        }
    }

    /// A capture that starts.
    pub fn new(rate: u32) -> (capture: CaptureLoop)
        ensures
            capture.wf(),
            capture.active_rate == rate,
            capture.since_rate_probe == 0,
            capture.chunk_len == 0,
            capture.probe_samples == 0,
            capture.emit_decimator == 0,
    {
        CaptureLoop {
            active_rate: rate,
            since_rate_probe: 0,
            chunk_len: 0,
            probe_samples: 0,
            emit_decimator: 0,
        }
    }

    /// Counts a sample. Once in a hop the rate that the device tells is looked at, and where it
    /// tells another one it is taken over and returned: what is heard from here on has to be cut
    /// into segments anew.
    pub fn take_sample(&mut self, live_rate: u32) -> (resegment: Option<u32>)
        requires
            old(self).wf(),
            old(self).chunk_len < HOP_SIZE,
        ensures
            final(self).wf(),
            final(self).chunk_len == old(self).chunk_len + 1,
            final(self).probe_samples == old(self).probe_samples + 1,
            final(self).emit_decimator == old(self).emit_decimator,
            final(self).since_rate_probe == (old(self).since_rate_probe + 1) % (HOP_SIZE as int),
            ({
                let looks = old(self).since_rate_probe + 1 == HOP_SIZE;
                let changes = looks && live_rate > 0 && live_rate != old(self).active_rate;
                &&& resegment == if changes {
                    Some(live_rate)
                } else {
                    None
                }
                &&& final(self).active_rate == if changes {
                    live_rate
                } else {
                    old(self).active_rate
                }
            }),
    {
        self.probe_samples = self.probe_samples + 1;
        self.chunk_len = self.chunk_len + 1;
        self.since_rate_probe = self.since_rate_probe + 1;
        if self.since_rate_probe >= HOP_SIZE {
            self.since_rate_probe = 0;
            if live_rate > 0 && live_rate != self.active_rate {
                self.active_rate = live_rate;
                return Some(live_rate);
            }
        }
        None
    }

    /// Ends the hop, where it is complete, and tells what is due.
    pub fn end_hop(&mut self) -> (report: Option<HopReport>)
        requires
            old(self).wf(),
        ensures
            final(self).wf(),
            final(self).active_rate == old(self).active_rate,
            final(self).since_rate_probe == old(self).since_rate_probe,
            old(self).chunk_len < HOP_SIZE ==> report is None && *final(self) == *old(self),
            old(self).chunk_len == HOP_SIZE ==> {
                let due = old(self).probe_samples >= old(self).probe_window();
                &&& report is Some
                &&& report->0.emit == (old(self).emit_decimator + 1 == EMIT_EVERY_N_HOPS)
                &&& report->0.measure == if due {
                    Some(old(self).probe_samples)
                } else {
                    None
                }
                &&& final(self).chunk_len == 0
                &&& final(self).probe_samples == if due {
                    0
                } else {
                    old(self).probe_samples as int
                }
                &&& final(self).emit_decimator == (old(self).emit_decimator + 1) % (
                EMIT_EVERY_N_HOPS as int)
            },
    {
        if self.chunk_len < HOP_SIZE {
            return None;
        }
        self.chunk_len = 0;
        self.emit_decimator = self.emit_decimator + 1;
        let emit: bool = self.emit_decimator >= EMIT_EVERY_N_HOPS;
        if emit {
            self.emit_decimator = 0;
        }
        let window: u64 = if self.active_rate == 0 {
            1
        } else {
            2 * self.active_rate as u64
        };
        let measure: Option<u64> = if self.probe_samples >= window {
            Some(self.probe_samples)
        } else {
            None
        };
        if self.probe_samples >= window {
            self.probe_samples = 0;
        }
        Some(HopReport { emit, measure })
    }

    /// Takes a measurement: how many samples were heard in how much time, and how many were lost.
    /// Devices change their rate without telling so, and with a rate that is not that of the samples
    /// speech becomes too slow to be understood. Returns the rate to go on with, where it is another
    /// one: what is heard from here on has to be cut into segments anew.
    pub fn take_measure(&mut self, samples: u64, elapsed_nanos: u64, dropped: usize) -> (resegment:
        Option<u32>)
        ensures
            ({
                let told = recalibrated(
                    samples as int,
                    elapsed_nanos as int,
                    dropped as int,
                    old(self).active_rate as int,
                );
                &&& match resegment {
                    Some(rate) => told == Some(rate as int),
                    None => told is None,
                }
                &&& *final(self) == (CaptureLoop {
                    active_rate: match resegment {
                        Some(rate) => rate,
                        None => old(self).active_rate,
                    },
                    ..*old(self)
                })
            }),
    {
        if elapsed_nanos == 0 || dropped != 0 {
            return None;
        }
        let heard: u128 = samples as u128 * 1_000_000_000;
        assert(self.active_rate * elapsed_nanos <= u32::MAX * u64::MAX) by (nonlinear_arith)
            requires
                self.active_rate <= u32::MAX,
                elapsed_nanos <= u64::MAX,
        ;
        let expected: u128 = self.active_rate as u128 * elapsed_nanos as u128;
        let difference: u128 = if heard < expected {
            expected - heard
        } else {
            heard - expected
        };
        let measured: u128 = (2 * heard + elapsed_nanos as u128) / (2 * elapsed_nanos as u128);
        if 100 * difference > 15 * expected && LOWEST_RATE as u128 <= measured && measured
            <= HIGHEST_RATE as u128 {
            self.active_rate = measured as u32;
            Some(measured as u32)
        } else {
            None
        }
    }
}

/// Where a segment starts, given where it ends and how long it is; no earlier than the capture.
pub open spec fn start_of(end_ms: int, samples: int, rate: int) -> int {
    let length = samples * 1000 / rate;
    if end_ms < length {
        0
    } else {
        end_ms - length
    }
}

/// When a segment of so many samples started that has just ended.
pub fn segment_start_ms(end_ms: u64, samples: usize, rate: u32) -> (start_ms: u64)
    requires
        rate > 0,
    ensures
        start_ms == start_of(end_ms as int, samples as int, rate as int),
        start_ms <= end_ms,
{
    let scaled: u128 = samples as u128 * 1000;
    proof {
        vstd::arithmetic::div_mod::lemma_div_pos_is_pos(scaled as int, rate as int);
    }
    let length: u128 = scaled / rate as u128;
    if (end_ms as u128) < length {
        0
    } else {
        end_ms - length as u64
    }
}

/// Whether the loudness of the microphone is to be told: enough has been heard.
pub fn level_due(gathered: usize) -> (due: bool)
    ensures
        due == (gathered >= HOP_SIZE),
{
    gathered >= HOP_SIZE as usize
}

// What is measured.

/// The measured rate is the nearest whole number to the samples per second.
pub proof fn law_the_measured_rate_is_the_nearest(samples: int, elapsed_nanos: int)
    requires
        0 <= samples,
        0 < elapsed_nanos,
    ensures
        ({
            let off = 2 * (measured_rate(samples, elapsed_nanos) * elapsed_nanos - samples
                * 1_000_000_000);
            -elapsed_nanos < off <= elapsed_nanos
        }),
{
    let n = 2 * samples * 1_000_000_000 + elapsed_nanos;
    let d = 2 * elapsed_nanos;
    let q = measured_rate(samples, elapsed_nanos);
    vstd::arithmetic::div_mod::lemma_fundamental_div_mod(n, d);
    vstd::arithmetic::div_mod::lemma_mod_bound(n, d);
    assert(d * q == 2 * (q * elapsed_nanos)) by (nonlinear_arith)
        requires
            d == 2 * elapsed_nanos,
    ;
}

/// A rate drifts where fewer than eighty-five or more than a hundred and fifteen hundredths of what it
/// promises were heard, and not in between.
pub proof fn law_what_drifts(samples: int, elapsed_nanos: int, rate: int)
    ensures
        ({
            let heard = samples * 1_000_000_000;
            let promised = rate * elapsed_nanos;
            drifts(samples, elapsed_nanos, rate) <==> 100 * heard < 85 * promised || 100 * heard > 115
                * promised
        }),
{
}

/// A measurement is taken over where it tells of a drift, of a rate from eight to ninety-six thousand,
/// and of nothing lost; and nothing else changes the rate.
pub proof fn law_what_is_taken_over(samples: int, elapsed_nanos: int, dropped: int, rate: int)
    ensures
        ({
            let measured = measured_rate(samples, elapsed_nanos);
            let told = recalibrated(samples, elapsed_nanos, dropped, rate);
            let good = elapsed_nanos > 0 && dropped == 0 && drifts(samples, elapsed_nanos, rate)
                && 8_000 <= measured <= 96_000;
            &&& good ==> told == Some(measured)
            &&& !good ==> told is None
        }),
        possible_rate(rate) <==> 8_000 <= rate <= 96_000,
        HOP_SIZE == 1024 && EMIT_EVERY_N_HOPS == 4,
{
}

/// A segment started as long before its end as it is long, in whole milliseconds, but not before the
/// capture did.
pub proof fn law_segments_start_before_their_end(end_ms: int, samples: int, rate: int)
    requires
        0 <= end_ms,
        0 <= samples,
        0 < rate,
    ensures
        ({
            let start = start_of(end_ms, samples, rate);
            &&& 0 <= start <= end_ms
            &&& rate * (end_ms - start) <= samples * 1000
            &&& start > 0 ==> samples * 1000 < rate * (end_ms - start + 1)
        }),
{
    let length = samples * 1000 / rate;
    vstd::arithmetic::div_mod::lemma_fundamental_div_mod(samples * 1000, rate);
    vstd::arithmetic::div_mod::lemma_mod_bound(samples * 1000, rate);
    vstd::arithmetic::div_mod::lemma_div_pos_is_pos(samples * 1000, rate);
    let start = start_of(end_ms, samples, rate);
    assert(rate * (length + 1) == rate * length + rate) by (nonlinear_arith);
    if end_ms < length {
        assert(rate * end_ms <= rate * length) by (nonlinear_arith)
            requires
                0 < rate,
                end_ms < length,
        ;
    }
}

/// The rate is measured over two seconds.
pub proof fn law_rates_are_measured_over_two_seconds(capture: CaptureLoop)
    ensures
        capture.active_rate > 0 ==> capture.probe_window() == 2 * capture.active_rate,
{
}

} // verus!
