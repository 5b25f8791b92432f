//! Cutting a stream of samples into stretches of speech.
//!
//! Samples, and the loudness of stretches of them, are numbers of single precision. They are kept
//! here by their bits: samples are only moved, and the bits of numbers that are not negative have
//! the order of the numbers. What is loud enough to be speech is told from outside.

use vstd::prelude::*;
use vstd::slice::slice_subrange;

verus! {

/// When a stretch of speech begins and ends. Lengths are in samples or in hops, which are stretches
/// of `hop_size` samples.
#[derive(Debug, Clone, Copy, PartialEq, Eq, Structural)]
pub struct SegmenterConfig {
    /// How many samples are looked at together.
    pub hop_size: usize,
    /// How many silent hops in a row end a segment.
    pub silence_hops: u32,
    /// How many loud hops make a segment; a shorter one is a click.
    pub min_speech_hops: u32,
    /// How many hops before the first loud one belong to a segment, so that its first word is
    /// whole.
    pub pre_speech_hops: u32,
    /// How long a segment may become before it is cut.
    pub max_segment_samples: usize,
    /// How far back from its end a cut is looked for.
    pub trough_search_samples: usize,
}

/// What comes of a hop.
#[derive(Debug)]
pub enum HopStep {
    Nothing,
    /// Speech has started.
    SpeechStarted,
    /// Silence has ended a segment, of these samples. It had enough loud hops, or not.
    Ended { samples: Vec<u32>, long_enough: bool },
    /// The segment has become as long as it may and has to be cut.
    Full,
}

/// What is told of a stream.
#[derive(Debug)]
pub enum SegmenterEvent {
    Nothing,
    SpeechStarted,
    /// A segment is complete.
    SegmentReady(Vec<u32>),
    /// A segment was too short, or too quiet, and is dropped.
    Discarded,
}

/// The stream so far.
#[derive(Debug)]
pub struct Segmenter {
    pub config: SegmenterConfig,
    /// The samples of the hop that is being gathered.
    pub hop_buffer: Vec<u32>,
    /// The last samples before a segment.
    pub pre_speech: Vec<u32>,
    /// The samples of the segment.
    pub speech_buffer: Vec<u32>,
    pub in_speech: bool,
    pub silence_hop_count: u32,
    pub speech_hop_count: u32,
}

/// One more, unless there is no larger count.
pub open spec fn next_count(n: u32) -> u32 {
    if n < u32::MAX {
        (n + 1) as u32
    } else {
        n
    }
}

/// The last `max` samples, or all of them where there are fewer.
pub open spec fn last_samples(s: Seq<u32>, max: nat) -> Seq<u32> {
    if s.len() <= max {
        s
    } else {
        s.skip(s.len() - max)
    }
}

/// The bits of the largest number of single precision.
pub const LARGEST: u32 = 0x7f7f_ffff;

/// The window `k` is the first of the quietest.
pub open spec fn is_trough(energies: Seq<u32>, k: int) -> bool {
    &&& 0 <= k < energies.len()
    &&& energies[k] < LARGEST
    &&& forall|j: int| 0 <= j < energies.len() ==> energies[k] <= #[trigger] energies[j]
    &&& forall|j: int| 0 <= j < k ==> energies[k] < #[trigger] energies[j]
}

/// No window is quiet enough to be told from the loudest.
pub open spec fn no_trough(energies: Seq<u32>) -> bool {
    forall|j: int| 0 <= j < energies.len() ==> #[trigger] energies[j] >= LARGEST
}

impl SegmenterConfig {
    /// The length of the windows that a cut is looked for in.
    pub open spec fn window(&self) -> int {
        if self.hop_size == 0 {
            1
        } else {
            self.hop_size as int
        }
    }

    /// Where the first of the windows starts, in a segment of `len` samples.
    pub open spec fn search_start(&self, len: int) -> int {
        let reach = if self.trough_search_samples < self.window() {
            self.window()
        } else {
            self.trough_search_samples as int
        };
        if len < reach {
            0
        } else {
            len - reach
        }
    }

    /// How many windows there are.
    pub open spec fn window_count(&self, len: int) -> int {
        (len - self.search_start(len)) / self.window()
    }
}

impl Segmenter {
    /// What is kept of the stream: the samples before a segment, or those of the segment.
    pub open spec fn pending(&self) -> Seq<u32> {
        self.pre_speech@ + self.speech_buffer@
    }

    /// Outside of speech there is no segment, and inside nothing is kept before it.
    pub open spec fn wf(&self) -> bool {
        if self.in_speech {
            self.pre_speech@.len() == 0
        } else {
            &&& self.speech_buffer@.len() == 0
            &&& self.silence_hop_count == 0
            &&& self.speech_hop_count == 0
        }
    }

    /// Nothing of the stream is kept, and no one speaks.
    pub open spec fn is_idle(&self) -> bool {
        &&& !self.in_speech
        &&& self.speech_buffer@.len() == 0
        &&& self.silence_hop_count == 0
        &&& self.speech_hop_count == 0
    }

    /// A segmenter that has heard nothing.
    pub fn new(config: SegmenterConfig) -> (segmenter: Segmenter)
        ensures
            segmenter.wf(),
            segmenter.is_idle(),
            segmenter.config == config,
            segmenter.pending().len() == 0,
            segmenter.hop_buffer@.len() == 0,
    {
        Segmenter {
            config,
            hop_buffer: Vec::new(),
            pre_speech: Vec::new(),
            speech_buffer: Vec::new(),
            in_speech: false,
            silence_hop_count: 0,
            speech_hop_count: 0,
        }
    }

    /// Takes one sample. Gives the hop where it is complete.
    pub fn push(&mut self, sample: u32) -> (hop: Option<Vec<u32>>)
        requires
            old(self).wf(),
        ensures
            final(self).wf(),
            final(self).config == old(self).config,
            final(self).pre_speech == old(self).pre_speech,
            final(self).speech_buffer == old(self).speech_buffer,
            final(self).in_speech == old(self).in_speech,
            final(self).silence_hop_count == old(self).silence_hop_count,
            final(self).speech_hop_count == old(self).speech_hop_count,
            hop is Some <==> old(self).hop_buffer@.len() + 1 >= old(self).config.hop_size,
            match hop {
                Some(hop) => {
                    &&& hop@ == old(self).hop_buffer@.push(sample)
                    &&& final(self).hop_buffer@.len() == 0
                },
                None => final(self).hop_buffer@ == old(self).hop_buffer@.push(sample),
            },
    {
        self.hop_buffer.push(sample);
        if self.hop_buffer.len() < self.config.hop_size {
            return None;
        }
        let mut hop: Vec<u32> = Vec::new();
        std::mem::swap(&mut hop, &mut self.hop_buffer);
        Some(hop)
    }

    /// Takes a hop, with whether it is loud enough to be speech.
    pub fn take_hop(&mut self, hop: &Vec<u32>, is_speech: bool) -> (step: HopStep)
        requires
            old(self).wf(),
        ensures
            final(self).wf(),
            final(self).config == old(self).config,
            final(self).hop_buffer == old(self).hop_buffer,
            is_speech ==> {
                &&& final(self).in_speech
                &&& final(self).pending() == old(self).pending() + hop@
                &&& final(self).silence_hop_count == 0
                &&& final(self).speech_hop_count == next_count(old(self).speech_hop_count)
                &&& if final(self).speech_buffer@.len() >= old(self).config.max_segment_samples {
                    step is Full
                } else if !old(self).in_speech {
                    step is SpeechStarted
                } else {
                    step is Nothing
                }
            },
            !is_speech && !old(self).in_speech ==> {
                &&& step is Nothing
                &&& final(self).is_idle()
                &&& final(self).pending() == last_samples(
                    old(self).pending() + hop@,
                    (old(self).config.pre_speech_hops * old(self).config.hop_size) as nat,
                )
            },
            !is_speech && old(self).in_speech ==> if next_count(old(self).silence_hop_count)
                < old(self).config.silence_hops {
                &&& step is Nothing
                &&& final(self).in_speech
                &&& final(self).pending() == old(self).pending() + hop@
                &&& final(self).silence_hop_count == next_count(old(self).silence_hop_count)
                &&& final(self).speech_hop_count == old(self).speech_hop_count
            } else {
                &&& step is Ended
                &&& step->samples@ == old(self).pending() + hop@
                &&& step->long_enough == (old(self).speech_hop_count
                    >= old(self).config.min_speech_hops)
                &&& final(self).is_idle()
                &&& final(self).pending().len() == 0
            },
    {
        if is_speech {
            let just_started: bool = !self.in_speech;
            if just_started {
                self.in_speech = true;
                let mut before: Vec<u32> = Vec::new();
                std::mem::swap(&mut before, &mut self.pre_speech);
                self.speech_buffer.append(&mut before);
            }
            if self.speech_hop_count < u32::MAX {
                self.speech_hop_count = self.speech_hop_count + 1;
            }
            let ghost so_far = self.speech_buffer@;
            self.speech_buffer.extend_from_slice(hop);
            assert(self.speech_buffer@ =~= so_far + hop@);
            assert(self.pending() =~= old(self).pending() + hop@);
            self.silence_hop_count = 0;
            if self.speech_buffer.len() >= self.config.max_segment_samples {
                HopStep::Full
            } else if just_started {
                HopStep::SpeechStarted
            } else {
                HopStep::Nothing
            }
        } else if !self.in_speech {
            let ghost so_far = self.pre_speech@;
            self.pre_speech.extend_from_slice(hop);
            assert(self.pre_speech@ =~= so_far + hop@);
            assert(old(self).pending() + hop@ =~= so_far + hop@);
            proof {
                let hops = self.config.pre_speech_hops as int;
                let size = self.config.hop_size as int;
                assert(0 <= hops * size <= 0xffff_ffff * 0xffff_ffff_ffff_ffff)
                    by (nonlinear_arith)
                    requires
                        0 <= hops <= 0xffff_ffff,
                        0 <= size <= 0xffff_ffff_ffff_ffff,
                ;
            }
            let wide: u128 = self.config.pre_speech_hops as u128 * self.config.hop_size as u128;
            if (self.pre_speech.len() as u128) > wide {
                let max_len: usize = wide as usize;
                let ghost all = self.pre_speech@;
                let mut kept: Vec<u32> = Vec::new();
                kept.extend_from_slice(
                    slice_subrange(
                        &self.pre_speech,
                        self.pre_speech.len() - max_len,
                        self.pre_speech.len(),
                    ),
                );
                assert(kept@ =~= all.skip(all.len() - max_len));
                self.pre_speech = kept;
            }
            assert(self.pending() =~= self.pre_speech@);
            HopStep::Nothing
        } else {
            if self.silence_hop_count < u32::MAX {
                self.silence_hop_count = self.silence_hop_count + 1;
            }
            let ghost so_far = self.speech_buffer@;
            self.speech_buffer.extend_from_slice(hop);
            assert(self.speech_buffer@ =~= so_far + hop@);
            assert(self.pending() =~= old(self).pending() + hop@);
            if self.silence_hop_count < self.config.silence_hops {
                return HopStep::Nothing;
            }
            let long_enough: bool = self.speech_hop_count >= self.config.min_speech_hops;
            let samples: Vec<u32> = self.take_segment();
            assert(samples@ =~= old(self).pending() + hop@);
            HopStep::Ended { samples, long_enough }
        }
    }

    /// Takes the whole segment out.
    fn take_segment(&mut self) -> (samples: Vec<u32>)
        requires
            old(self).in_speech,
            old(self).pre_speech@.len() == 0,
        ensures
            final(self).wf(),
            final(self).is_idle(),
            final(self).config == old(self).config,
            final(self).hop_buffer == old(self).hop_buffer,
            final(self).pending().len() == 0,
            samples@ == old(self).speech_buffer@,
    {
        let mut samples: Vec<u32> = Vec::new();
        std::mem::swap(&mut samples, &mut self.speech_buffer);
        self.in_speech = false;
        self.silence_hop_count = 0;
        self.speech_hop_count = 0;
        samples
    }

    /// The windows of the segment that a cut is looked for in: where the first one starts, how long
    /// each is, and how many there are.
    pub fn windows(&self) -> (windows: (usize, usize, usize))
        ensures
            windows.0 == self.config.search_start(self.speech_buffer@.len() as int),
            windows.1 == self.config.window(),
            windows.2 == self.config.window_count(self.speech_buffer@.len() as int),
            windows.0 + windows.2 * windows.1 <= self.speech_buffer@.len(),
    {
        let len: usize = self.speech_buffer.len();
        let window: usize = if self.config.hop_size == 0 {
            1
        } else {
            self.config.hop_size
        };
        let reach: usize = if self.config.trough_search_samples < window {
            window
        } else {
            self.config.trough_search_samples
        };
        let start: usize = if len < reach {
            0
        } else {
            len - reach
        };
        let count: usize = (len - start) / window;
        proof {
            vstd::arithmetic::div_mod::lemma_fundamental_div_mod(
                (len - start) as int,
                window as int,
            );
            assert(count * window == window * count) by (nonlinear_arith);
        }
        (start, window, count)
    }

    /// Cuts a segment that has become as long as it may, given how loud each of its windows is:
    /// after the first of the quietest, so that the cut falls between words. What follows the cut
    /// stays and starts the next segment. Where the quietest window is the last, or there is none,
    /// all is taken.
    pub fn cut(&mut self, energies: &Vec<u32>) -> (samples: Vec<u32>)
        requires
            old(self).wf(),
            old(self).in_speech,
            energies@.len() == old(self).config.window_count(
                old(self).speech_buffer@.len() as int,
            ),
        ensures
            final(self).wf(),
            final(self).config == old(self).config,
            final(self).hop_buffer == old(self).hop_buffer,
            samples@ + final(self).speech_buffer@ == old(self).speech_buffer@,
            final(self).pre_speech@.len() == 0,
            forall|k: int| #[trigger]
                is_trough(energies@, k) ==> samples@.len() == old(self).config.search_start(
                    old(self).speech_buffer@.len() as int,
                ) + (k + 1) * old(self).config.window(),
            no_trough(energies@) ==> samples@.len() == old(self).speech_buffer@.len(),
            if samples@.len() == old(self).speech_buffer@.len() {
                final(self).is_idle()
            } else {
                &&& final(self).in_speech
                &&& final(self).silence_hop_count == 0
                &&& final(self).speech_hop_count == (final(self).speech_buffer@.len() as int
                    / old(self).config.window()) as u32
            },
    {
        let (start, window, count): (usize, usize, usize) = self.windows();
        let len: usize = self.speech_buffer.len();
        let mut cut_at: usize = len;
        let mut lowest: u32 = LARGEST;
        let ghost mut best: int = -1;
        let mut k: usize = 0;
        let mut offset: usize = start;
        while k < count
            invariant
                k <= count,
                count == energies@.len(),
                window > 0,
                offset == start + k * window,
                start + count * window <= len,
                -1 <= best < k,
                best == -1 ==> lowest == LARGEST && cut_at == len,
                best >= 0 ==> {
                    &&& lowest == energies@[best]
                    &&& lowest < LARGEST
                    &&& cut_at == start + (best + 1) * window
                    &&& forall|j: int| 0 <= j < best ==> energies@[best] < #[trigger] energies@[j]
                },
                forall|j: int| 0 <= j < k ==> lowest <= #[trigger] energies@[j],
            decreases count - k,
        {
            proof {
                assert((k + 1) * window == k * window + window) by (nonlinear_arith);
                assert((k + 1) * window <= count * window) by (nonlinear_arith)
                    requires
                        k + 1 <= count,
                ;
            }
            offset = offset + window;
            if energies[k] < lowest {
                lowest = energies[k];
                cut_at = offset;
                proof {
                    best = k as int;
                }
            }
            k = k + 1;
        }
        proof {
            if best >= 0 {
                assert(is_trough(energies@, best));
                assert((best + 1) * window <= count * window) by (nonlinear_arith)
                    requires
                        best + 1 <= count,
                ;
                assert forall|other: int| #[trigger] is_trough(energies@, other) implies other
                    == best by {
                    if other < best {
                        assert(energies@[best] < energies@[other]);
                        assert(energies@[other] <= energies@[best]);
                    } else if best < other {
                        assert(energies@[other] < energies@[best]);
                        assert(energies@[best] <= energies@[other]);
                    }
                }
            } else {
                assert forall|other: int| !(#[trigger] is_trough(energies@, other)) by {
                    if is_trough(energies@, other) {
                        assert(lowest <= energies@[other]);
                    }
                }
            }
        }
        if cut_at >= len {
            let samples: Vec<u32> = self.take_segment();
            assert(samples@ + self.speech_buffer@ =~= samples@);
            return samples;
        }
        let tail: Vec<u32> = self.speech_buffer.split_off(cut_at);
        let mut samples: Vec<u32> = tail;
        std::mem::swap(&mut samples, &mut self.speech_buffer);
        assert(samples@ + self.speech_buffer@ =~= old(self).speech_buffer@);
        self.silence_hop_count = 0;
        self.speech_hop_count = (self.speech_buffer.len() / window) as u32;
        samples
    }
}

/// What is told of a segment that has ended: it is ready where it is long enough and loud enough.
pub fn segment_event(samples: Vec<u32>, long_enough: bool, audible: bool) -> (event: SegmenterEvent)
    ensures
        long_enough && audible ==> event is SegmentReady && event->SegmentReady_0 == samples,
        !(long_enough && audible) ==> event is Discarded,
{
    if long_enough && audible {
        SegmenterEvent::SegmentReady(samples)
    } else {
        SegmenterEvent::Discarded
    }
}

/// Hops one after another.
pub open spec fn joined(hops: Seq<Seq<u32>>) -> Seq<u32>
    decreases hops.len(),
{
    if hops.len() == 0 {
        Seq::empty()
    } else {
        joined(hops.drop_last()) + hops.last()
    }
}

/// A segment is an unbroken stretch of the stream: as long as each hop is added to what is kept, what
/// is kept in the end is what was kept at first and every hop since, none lost, doubled or moved.
pub proof fn law_segments_are_unbroken(states: Seq<Segmenter>, hops: Seq<Seq<u32>>)
    requires
        states.len() == hops.len() + 1,
        forall|i: int|
            0 <= i < hops.len() ==> states[i + 1].pending() == states[i].pending()
                + #[trigger] hops[i],
    ensures
        states.last().pending() == states[0].pending() + joined(hops),
    decreases hops.len(),
{
    if hops.len() == 0 {
        assert(states[0].pending() + joined(hops) =~= states[0].pending());
    } else {
        let init = hops.drop_last();
        assert forall|i: int| 0 <= i < init.len() implies states.drop_last()[i + 1].pending()
            == states.drop_last()[i].pending() + #[trigger] init[i] by {
            assert(init[i] == hops[i]);
        }
        law_segments_are_unbroken(states.drop_last(), init);
        assert(hops[hops.len() - 1] == hops.last());
        assert(states[0].pending() + joined(init) + hops.last() =~= states[0].pending() + joined(
            hops,
        ));
    }
}

// The quietest of the last hops.

/// The loudness of the last hops, by root mean square and by peak.
#[derive(Debug)]
pub struct NoiseWindow {
    pub hops: Vec<(u32, u32)>,
    pub capacity: usize,
}

/// The quietest of the last hops: what is heard between words is the noise.
#[derive(Debug, Clone, Copy, PartialEq, Eq, Structural)]
pub struct NoiseMinimum {
    pub rms: u32,
    pub peak: u32,
    /// Whether enough hops have been heard to smooth the estimate.
    pub settled: bool,
}

/// How many hops are heard before the estimate is smoothed.
pub const BOOTSTRAP_HOPS: usize = 8;

/// The last `max` hops, or all of them where there are fewer.
pub open spec fn last_hops(hops: Seq<(u32, u32)>, max: nat) -> Seq<(u32, u32)> {
    if hops.len() <= max {
        hops
    } else {
        hops.skip(hops.len() - max)
    }
}

/// `least` is the least of the given levels, or the largest number where none is smaller.
pub open spec fn is_least(levels: Seq<u32>, least: u32) -> bool {
    &&& least <= LARGEST
    &&& forall|i: int| 0 <= i < levels.len() ==> least <= #[trigger] levels[i]
    &&& least == LARGEST || levels.contains(least)
}

/// The levels by root mean square.
pub open spec fn rms_levels(hops: Seq<(u32, u32)>) -> Seq<u32> {
    hops.map_values(|hop: (u32, u32)| hop.0)
}

/// The levels by peak.
pub open spec fn peak_levels(hops: Seq<(u32, u32)>) -> Seq<u32> {
    hops.map_values(|hop: (u32, u32)| hop.1)
}

impl NoiseWindow {
    /// A window that has seen no hop.
    pub fn new(capacity: usize) -> (window: NoiseWindow)
        ensures
            window.hops@.len() == 0,
            window.capacity == capacity,
    {
        NoiseWindow { hops: Vec::new(), capacity }
    }

    /// Takes the loudness of one more hop, and tells the quietest of the last ones.
    pub fn push(&mut self, rms: u32, peak: u32) -> (least: NoiseMinimum)
        ensures
            final(self).capacity == old(self).capacity,
            final(self).hops@ == last_hops(
                old(self).hops@.push((rms, peak)),
                old(self).capacity as nat,
            ),
            is_least(rms_levels(final(self).hops@), least.rms),
            is_least(peak_levels(final(self).hops@), least.peak),
            least.settled == (final(self).hops@.len() > BOOTSTRAP_HOPS),
    {
        self.hops.push((rms, peak));
        let ghost all = self.hops@;
        assert(all.skip(0) =~= all);
        let ghost mut gone: int = 0;
        while self.hops.len() > self.capacity
            invariant
                0 <= gone <= all.len(),
                self.hops@ == all.skip(gone),
                self.capacity == old(self).capacity,
                gone > 0 ==> all.len() - gone >= self.capacity,
            decreases self.hops@.len(),
        {
            self.hops.remove(0);
            assert(self.hops@ =~= all.skip(gone + 1));
            proof {
                gone = gone + 1;
            }
        }
        let mut least_rms: u32 = LARGEST;
        let mut least_peak: u32 = LARGEST;
        let mut i: usize = 0;
        let ghost rms_all = rms_levels(self.hops@);
        let ghost peak_all = peak_levels(self.hops@);
        while i < self.hops.len()
            invariant
                i <= self.hops@.len(),
                rms_all == rms_levels(self.hops@),
                peak_all == peak_levels(self.hops@),
                least_rms <= LARGEST,
                least_peak <= LARGEST,
                forall|j: int| 0 <= j < i ==> least_rms <= #[trigger] rms_all[j],
                forall|j: int| 0 <= j < i ==> least_peak <= #[trigger] peak_all[j],
                least_rms == LARGEST || rms_all.contains(least_rms),
                least_peak == LARGEST || peak_all.contains(least_peak),
            decreases self.hops@.len() - i,
        {
            let (hop_rms, hop_peak): (u32, u32) = self.hops[i];
            if hop_rms < least_rms {
                least_rms = hop_rms;
                assert(rms_all[i as int] == least_rms);
            }
            if hop_peak < least_peak {
                least_peak = hop_peak;
                assert(peak_all[i as int] == least_peak);
            }
            i = i + 1;
        }
        NoiseMinimum {
            rms: least_rms,
            peak: least_peak,
            settled: self.hops.len() > BOOTSTRAP_HOPS,
        }
    }
}

// What is kept, and where a segment is cut.

/// Of the samples before a segment the last are kept, in order: what is kept ends as all that was
/// heard ends, and is all of it where there is room for all.
pub proof fn law_the_last_samples_are_kept(before: Seq<u32>, hop: Seq<u32>, max: nat)
    ensures
        ({
            let all = before + hop;
            let kept = last_samples(all, max);
            &&& kept.len() == if all.len() <= max {
                all.len()
            } else {
                max
            }
            &&& forall|k: int|
                0 <= k < kept.len() ==> kept[kept.len() - 1 - k] == #[trigger] all[all.len() - 1 - k]
            &&& max >= hop.len() ==> forall|k: int|
                0 <= k < hop.len() ==> kept[kept.len() - 1 - k] == #[trigger] hop[hop.len() - 1 - k]
        }),
{
    let all = before + hop;
    let kept = last_samples(all, max);
    assert forall|k: int| 0 <= k < kept.len() implies kept[kept.len() - 1 - k] == #[trigger] all[all.len()
        - 1 - k] by {}
    if max >= hop.len() {
        assert forall|k: int| 0 <= k < hop.len() implies kept[kept.len() - 1 - k]
            == #[trigger] hop[hop.len() - 1 - k] by {
            assert(all[all.len() - 1 - k] == hop[hop.len() - 1 - k]);
        }
    }
}

/// What is pending is what was kept before the segment, followed by the segment.
pub proof fn law_what_is_pending(segmenter: Segmenter)
    ensures
        segmenter.pending().len() == segmenter.pre_speech@.len() + segmenter.speech_buffer@.len(),
        forall|i: int|
            0 <= i < segmenter.pre_speech@.len() ==> segmenter.pending()[i]
                == #[trigger] segmenter.pre_speech@[i],
        forall|i: int|
            0 <= i < segmenter.speech_buffer@.len() ==> segmenter.pending()[segmenter.pre_speech@.len()
                + i] == #[trigger] segmenter.speech_buffer@[i],
{
}

/// A count grows by one, and stays where it is the largest that there is.
pub proof fn law_counts_grow_by_one(n: u32)
    ensures
        n < u32::MAX ==> next_count(n) == n + 1,
        n == u32::MAX ==> next_count(n) == n,
{
}

/// A cut is looked for at the end of a segment and nowhere else, in windows of one hop that follow
/// each other and leave less than one hop at its end.
pub proof fn law_a_cut_is_looked_for_at_the_end(config: SegmenterConfig, len: int)
    requires
        0 <= len,
    ensures
        ({
            let hop = if config.hop_size == 0 {
                1int
            } else {
                config.hop_size as int
            };
            let start = config.search_start(len);
            let count = config.window_count(len);
            &&& config.window() == hop
            &&& 0 <= start <= len
            &&& start > 0 ==> len - start == config.trough_search_samples || (len - start == hop
                && config.trough_search_samples < hop)
            &&& len <= config.trough_search_samples ==> start == 0
            &&& start + count * hop <= len < start + (count + 1) * hop
        }),
{
    let hop = config.window();
    let rest = len - config.search_start(len);
    vstd::arithmetic::div_mod::lemma_fundamental_div_mod(rest, hop);
    vstd::arithmetic::div_mod::lemma_mod_bound(rest, hop);
    let count = config.window_count(len);
    assert(hop * count == count * hop) by (nonlinear_arith);
    assert((count + 1) * hop == count * hop + hop) by (nonlinear_arith);
}

/// A cut is made at the quietest window, the first of several that are equally quiet.
pub proof fn law_a_cut_is_made_where_it_is_quietest(energies: Seq<u32>, k: int, j: int)
    requires
        is_trough(energies, k),
        0 <= j < energies.len(),
    ensures
        0 <= k < energies.len(),
        energies[k] <= energies[j],
        energies[k] == energies[j] ==> k <= j,
        energies[k] < 0x7f7f_ffff,
{
}

/// Of the hops that were heard the last are remembered, in order, and the level of a hop is its own:
/// its loudness first and its peak second.
pub proof fn law_the_last_hops_are_remembered(hops: Seq<(u32, u32)>, max: nat, i: int)
    ensures
        last_hops(hops, max).len() == if hops.len() <= max {
            hops.len()
        } else {
            max
        },
        forall|k: int|
            0 <= k < last_hops(hops, max).len() ==> last_hops(hops, max)[last_hops(hops, max).len() - 1
                - k] == #[trigger] hops[hops.len() - 1 - k],
        rms_levels(hops).len() == hops.len() && peak_levels(hops).len() == hops.len(),
        0 <= i < hops.len() ==> rms_levels(hops)[i] == hops[i].0 && peak_levels(hops)[i] == hops[i].1,
{
    assert forall|k: int| 0 <= k < last_hops(hops, max).len() implies last_hops(
        hops,
        max,
    )[last_hops(hops, max).len() - 1 - k] == #[trigger] hops[hops.len() - 1 - k] by {}
}

/// The least level is that of a hop, no hop is quieter, and there is one wherever a hop was heard.
pub proof fn law_the_least_level_is_heard(levels: Seq<u32>, least: u32, i: int)
    requires
        is_least(levels, least),
        0 <= i < levels.len(),
    ensures
        least <= levels[i],
        levels[i] < 0x7f7f_ffff ==> exists|j: int| 0 <= j < levels.len() && #[trigger] levels[j] == least,
{
    if levels[i] < 0x7f7f_ffff {
        let j = choose|j: int| 0 <= j < levels.len() && levels[j] == least;
        assert(levels[j] == least);
    }
}

/// A detector that hears no speech has gathered none.
pub proof fn law_idle_detectors_hold_no_speech(segmenter: Segmenter)
    requires
        segmenter.is_idle(),
    ensures
        !segmenter.in_speech,
        segmenter.speech_buffer@.len() == 0,
        segmenter.silence_hop_count == 0,
        segmenter.speech_hop_count == 0,
{
}

/// A cut is found wherever a window can be measured, and else everything is cut off.
pub proof fn law_a_cut_is_found_where_there_is_one(energies: Seq<u32>)
    ensures
        no_trough(energies) <==> forall|j: int|
            0 <= j < energies.len() ==> #[trigger] energies[j] >= 0x7f7f_ffff,
        !no_trough(energies) ==> exists|k: int| is_trough(energies, k),
        BOOTSTRAP_HOPS == 8,
{
    if !no_trough(energies) {
        assert(energies.take(energies.len() as int) =~= energies);
        lemma_trough(energies, energies.len() as int);
    }
}

proof fn lemma_trough(energies: Seq<u32>, n: int)
    requires
        0 <= n <= energies.len(),
        !no_trough(energies.take(n)),
    ensures
        exists|k: int| is_trough(energies.take(n), k),
        n == energies.len() ==> exists|k: int| is_trough(energies, k),
    decreases n,
{
    let all = energies.take(n);
    if n > 0 {
        let first = energies.take(n - 1);
        let last = energies[n - 1];
        assert(forall|j: int| 0 <= j < n - 1 ==> first[j] == #[trigger] all[j]);
        assert(all[n - 1] == last);
        if no_trough(first) {
            let j = choose|j: int| 0 <= j < all.len() && all[j] < LARGEST;
            if j < n - 1 {
                assert(first[j] < LARGEST);
            }
            assert(last < LARGEST);
            assert forall|i: int| 0 <= i < n - 1 implies last < #[trigger] all[i] by {
                assert(first[i] >= LARGEST);
            }
            assert(is_trough(all, n - 1));
        } else {
            lemma_trough(energies, n - 1);
            let k = choose|k: int| is_trough(first, k);
            assert(first[k] == all[k]);
            if last < first[k] {
                assert forall|i: int| 0 <= i < n - 1 implies last < #[trigger] all[i] by {
                    assert(first[k] <= first[i]);
                }
                assert(is_trough(all, n - 1));
            } else {
                assert forall|i: int| 0 <= i < n implies all[k] <= #[trigger] all[i] by {
                    if i < n - 1 {
                        assert(first[k] <= first[i]);
                    }
                }
                assert forall|i: int| 0 <= i < k implies all[k] < #[trigger] all[i] by {
                    assert(first[k] < first[i]);
                }
                assert(is_trough(all, k));
            }
        }
    }
    if n == energies.len() {
        assert(all =~= energies);
    }
}

} // verus!
