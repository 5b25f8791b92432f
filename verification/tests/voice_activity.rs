use meetly_core::audio::vad::{
    segment_event, HopStep, NoiseMinimum, NoiseWindow, Segmenter, SegmenterConfig, SegmenterEvent,
    BOOTSTRAP_HOPS, LARGEST,
};

#[derive(Clone, Copy)]
struct VadConfig {
    hop_size: usize,
    sensitivity_rms: f32,
    peak_threshold: f32,
    noise_gate_threshold: f32,
    silence_hops: u32,
    min_speech_hops: u32,
    pre_speech_hops: u32,
    max_segment_samples: usize,
    noise_window_hops: usize,
    noise_floor_alpha_up: f32,
    noise_floor_alpha_down: f32,
    noise_floor_multiplier: f32,
    min_rms_threshold: f32,
    max_rms_threshold: f32,
    min_peak_threshold: f32,
    max_peak_threshold: f32,
    quiet_segment_rms: f32,
    trough_search_samples: usize,
}

impl VadConfig {
    fn from_millis(sample_rate: u32) -> Self {
        let hop_duration_ms = (1024.0_f32 / sample_rate as f32) * 1000.0;
        let hops = |ms: f32| (ms / hop_duration_ms).ceil();
        VadConfig {
            hop_size: 1024,
            sensitivity_rms: 0.012,
            peak_threshold: 0.035,
            noise_gate_threshold: 0.003,
            silence_hops: hops(1000.0) as u32,
            min_speech_hops: hops(300.0) as u32,
            pre_speech_hops: hops(300.0) as u32,
            max_segment_samples: (15.0 * sample_rate as f32) as usize,
            noise_window_hops: (hops(6_000.0) as usize).max(8),
            quiet_segment_rms: 0.003,
            trough_search_samples: (2.0 * sample_rate as f32) as usize,
            ..VadConfig::testing(1024)
        }
    }

    fn testing(hop_size: usize) -> Self {
        VadConfig {
            hop_size,
            sensitivity_rms: 0.01,
            peak_threshold: 0.01,
            noise_gate_threshold: 0.0,
            silence_hops: 2,
            min_speech_hops: 3,
            pre_speech_hops: 1,
            max_segment_samples: 1000,
            noise_window_hops: 16,
            noise_floor_alpha_up: 0.2,
            noise_floor_alpha_down: 0.05,
            noise_floor_multiplier: 3.0,
            min_rms_threshold: 0.0025,
            max_rms_threshold: 0.05,
            min_peak_threshold: 0.008,
            max_peak_threshold: 0.12,
            quiet_segment_rms: 0.003,
            trough_search_samples: hop_size * 4,
        }
    }
}

fn metrics(samples: &[f32]) -> (f32, f32) {
    if samples.is_empty() {
        return (0.0, 0.0);
    }
    let mut sum_sq = 0.0f32;
    let mut peak = 0.0f32;
    for &sample in samples {
        peak = peak.max(sample.abs());
        sum_sq += sample * sample;
    }
    ((sum_sq / samples.len() as f32).sqrt(), peak)
}

fn gate(samples: &[f32], threshold: f32) -> Vec<f32> {
    if threshold <= 0.0 {
        return samples.to_vec();
    }
    samples
        .iter()
        .map(|&sample| {
            let magnitude = sample.abs();
            if magnitude < threshold {
                sample * (magnitude / threshold).powf(1.0 / 3.0)
            } else {
                sample
            }
        })
        .collect()
}

fn bits(samples: &[f32]) -> Vec<u32> {
    samples.iter().map(|sample| sample.to_bits()).collect()
}

fn floats(samples: &[u32]) -> Vec<f32> {
    samples.iter().map(|&sample| f32::from_bits(sample)).collect()
}

fn approach(current: f32, target: f32, config: &VadConfig) -> f32 {
    let alpha = if target > current {
        config.noise_floor_alpha_up
    } else {
        config.noise_floor_alpha_down
    };
    current + (target - current) * alpha
}

/// A detector around the segmenter: it measures the loudness and tells speech from noise.
struct Detector {
    config: VadConfig,
    segmenter: Segmenter,
    window: NoiseWindow,
    rms: f32,
    peak: f32,
}

impl Detector {
    fn new(config: VadConfig) -> Self {
        Detector {
            segmenter: Segmenter::new(SegmenterConfig {
                hop_size: config.hop_size,
                silence_hops: config.silence_hops,
                min_speech_hops: config.min_speech_hops,
                pre_speech_hops: config.pre_speech_hops,
                max_segment_samples: config.max_segment_samples,
                trough_search_samples: config.trough_search_samples,
            }),
            window: NoiseWindow::new(config.noise_window_hops),
            rms: config.sensitivity_rms / config.noise_floor_multiplier,
            peak: config.peak_threshold / config.noise_floor_multiplier,
            config,
        }
    }

    fn rms_threshold(&self) -> f32 {
        (self.rms * self.config.noise_floor_multiplier)
            .clamp(self.config.min_rms_threshold, self.config.max_rms_threshold)
    }

    fn peak_threshold(&self) -> f32 {
        (self.peak * self.config.noise_floor_multiplier)
            .clamp(self.config.min_peak_threshold, self.config.max_peak_threshold)
    }

    fn audible(&self, samples: &[u32]) -> bool {
        !samples.is_empty() && metrics(&floats(samples)).0 >= self.config.quiet_segment_rms
    }

    fn push(&mut self, sample: f32) -> SegmenterEvent {
        let hop = match self.segmenter.push(sample.to_bits()) {
            Some(hop) => hop,
            None => return SegmenterEvent::Nothing,
        };
        let gated = gate(&floats(&hop), self.config.noise_gate_threshold);
        let (rms, peak) = metrics(&gated);
        let least = self.window.push(rms.to_bits(), peak.to_bits());
        if least.settled {
            self.rms = approach(self.rms, f32::from_bits(least.rms), &self.config);
            self.peak = approach(self.peak, f32::from_bits(least.peak), &self.config);
        } else {
            self.rms = f32::from_bits(least.rms);
            self.peak = f32::from_bits(least.peak);
        }
        let is_speech = rms > self.rms_threshold() || peak > self.peak_threshold();
        match self.segmenter.take_hop(&bits(&gated), is_speech) {
            HopStep::Nothing => SegmenterEvent::Nothing,
            HopStep::SpeechStarted => SegmenterEvent::SpeechStarted,
            HopStep::Ended { samples, long_enough } => {
                let audible = self.audible(&samples);
                segment_event(samples, long_enough, audible)
            }
            HopStep::Full => {
                let (start, size, count) = self.segmenter.windows();
                let held = floats(&self.segmenter.speech_buffer);
                let energies: Vec<u32> = (0..count)
                    .map(|k| {
                        let from = start + k * size;
                        metrics(&held[from..from + size]).0.to_bits()
                    })
                    .collect();
                let samples = self.segmenter.cut(&energies);
                let audible = self.audible(&samples);
                segment_event(samples, true, audible)
            }
        }
    }
}

fn silent_hop(len: usize) -> Vec<f32> {
    vec![0.0; len]
}

fn loud_hop(len: usize) -> Vec<f32> {
    vec![0.5; len]
}

/// Deterministic pseudo-noise in [-amplitude, amplitude].
fn noise(seed: u64, len: usize, amplitude: f32) -> Vec<f32> {
    let mut state = seed.wrapping_add(0x9E37_79B9_7F4A_7C15);
    (0..len)
        .map(|_| {
            state = state.wrapping_add(0x9E37_79B9_7F4A_7C15);
            let mut z = state;
            z = (z ^ (z >> 30)).wrapping_mul(0xBF58_476D_1CE4_E5B9);
            z = (z ^ (z >> 27)).wrapping_mul(0x94D0_49BB_1331_11EB);
            z ^= z >> 31;
            let unit = ((z >> 11) as f32 / (1u64 << 53) as f32) * 2.0 - 1.0;
            unit * amplitude
        })
        .collect()
}

fn feed(detector: &mut Detector, samples: &[f32]) -> Vec<SegmenterEvent> {
    let mut events = Vec::new();
    for &sample in samples {
        match detector.push(sample) {
            SegmenterEvent::Nothing => {}
            event => events.push(event),
        }
    }
    events
}

#[test]
fn discards_short_burst() {
    let mut detector = Detector::new(VadConfig::testing(4));
    let mut last_event = None;
    for hop in [loud_hop(4), silent_hop(4), silent_hop(4)] {
        for sample in hop {
            let event = detector.push(sample);
            if !matches!(event, SegmenterEvent::Nothing) {
                last_event = Some(event);
            }
        }
    }
    assert!(matches!(last_event, Some(SegmenterEvent::Discarded)));
}

#[test]
fn emits_segment_after_enough_speech_then_silence() {
    let mut config = VadConfig::testing(4);
    config.min_speech_hops = 2;
    let mut detector = Detector::new(config);
    let mut segment_ready = false;
    for hop in [loud_hop(4), loud_hop(4), silent_hop(4), silent_hop(4)] {
        for sample in hop {
            if let SegmenterEvent::SegmentReady(samples) = detector.push(sample) {
                assert!(!samples.is_empty());
                segment_ready = true;
            }
        }
    }
    assert!(segment_ready);
}

#[test]
fn force_flushes_at_max_duration() {
    let mut config = VadConfig::testing(2);
    config.silence_hops = 100;
    config.min_speech_hops = 1;
    config.max_segment_samples = 4;
    let mut detector = Detector::new(config);

    let mut segment_ready = false;
    for _ in 0..10 {
        if let SegmenterEvent::SegmentReady(_) = detector.push(0.5) {
            segment_ready = true;
            break;
        }
    }
    assert!(segment_ready);
}

#[test]
fn adapts_to_a_steady_noise_floor() {
    let mut detector = Detector::new(VadConfig::testing(8));
    let floor = noise(1, 8, 0.035);
    let mut stream = Vec::new();
    for _ in 0..200 {
        stream.extend_from_slice(&floor);
    }

    let events = feed(&mut detector, &stream);
    let segments = events
        .iter()
        .filter(|event| matches!(event, SegmenterEvent::SegmentReady(_)))
        .count();

    assert!(segments <= 1, "{} segments, {}", segments, detector.rms_threshold());
    assert!(detector.rms_threshold() > 0.012, "{}", detector.rms_threshold());
}

#[test]
fn still_detects_speech_above_an_adapted_noise_floor() {
    let mut detector = Detector::new(VadConfig::testing(8));
    let floor = noise(2, 8, 0.035);
    let speech = noise(3, 8, 0.30);

    for _ in 0..100 {
        feed(&mut detector, &floor);
    }
    let mut phrase = Vec::new();
    for _ in 0..20 {
        phrase.extend_from_slice(&speech);
    }
    for _ in 0..50 {
        phrase.extend_from_slice(&floor);
    }

    let events = feed(&mut detector, &phrase);
    assert!(events.iter().any(|event| matches!(event, SegmenterEvent::SegmentReady(_))));
}

#[test]
fn clean_silence_keeps_the_lowest_threshold() {
    let mut detector = Detector::new(VadConfig::testing(8));
    for _ in 0..100 {
        feed(&mut detector, &silent_hop(8));
    }
    let config = VadConfig::testing(8);
    assert!(
        (detector.rms_threshold() - config.min_rms_threshold).abs() < 1e-6,
        "{}",
        detector.rms_threshold()
    );
}

#[test]
fn discards_segments_that_are_only_noise() {
    let mut config = VadConfig::testing(8);
    config.min_speech_hops = 1;
    config.silence_hops = 6;
    config.quiet_segment_rms = 0.05;
    let mut detector = Detector::new(config);

    let mut stream = Vec::new();
    for _ in 0..3 {
        stream.extend_from_slice(&noise(7, 8, 0.12));
    }
    for _ in 0..6 {
        stream.extend_from_slice(&silent_hop(8));
    }
    let events = feed(&mut detector, &stream);
    assert!(
        events.iter().any(|event| matches!(event, SegmenterEvent::Discarded)),
        "{} events",
        events.len()
    );
}

#[test]
fn real_speech_survives_the_quiet_gate() {
    let mut config = VadConfig::testing(8);
    config.min_speech_hops = 2;
    config.silence_hops = 2;
    let mut detector = Detector::new(config);

    let mut stream = Vec::new();
    for _ in 0..10 {
        stream.extend_from_slice(&noise(8, 8, 0.30));
    }
    for _ in 0..4 {
        stream.extend_from_slice(&silent_hop(8));
    }
    let events = feed(&mut detector, &stream);
    assert!(events.iter().any(|event| matches!(event, SegmenterEvent::SegmentReady(_))));
}

#[test]
fn noisy_meeting_is_segmented_per_utterance() {
    const SAMPLE_RATE: u32 = 48_000;
    let config = VadConfig::from_millis(SAMPLE_RATE);
    let mut detector = Detector::new(config);

    let floor_amplitude = 0.03f32;
    let speech_amplitude = 0.30f32;
    let mut seed = 0x5eed_1234u64;
    let mut next = move || {
        seed = seed.wrapping_add(0x9E37_79B9_7F4A_7C15);
        let mut z = seed;
        z = (z ^ (z >> 30)).wrapping_mul(0xBF58_476D_1CE4_E5B9);
        z = (z ^ (z >> 27)).wrapping_mul(0x94D0_49BB_1331_11EB);
        z ^= z >> 31;
        ((z >> 11) as f32 / (1u64 << 53) as f32) * 2.0 - 1.0
    };

    let mut stream: Vec<f32> = Vec::new();
    let mut utterances = 0usize;
    let lead_in = (3.0 * SAMPLE_RATE as f32) as usize;
    for _ in 0..lead_in {
        stream.push(next() * floor_amplitude);
    }
    for index in 0..16 {
        let voiced = 2.0 + (index % 5) as f32;
        let gap = 2.0 + ((index * 7) % 4) as f32;
        for phase in 0..(voiced * SAMPLE_RATE as f32) as usize {
            let t = phase as f32 / SAMPLE_RATE as f32;
            let envelope = if (t * 4.0) % 1.0 < 0.6 { 1.0 } else { 0.02 };
            stream.push(next() * (floor_amplitude + speech_amplitude * envelope));
        }
        for _ in 0..(gap * SAMPLE_RATE as f32) as usize {
            stream.push(next() * floor_amplitude);
        }
        utterances += 1;
    }

    let mut durations = Vec::new();
    for &sample in &stream {
        if let SegmenterEvent::SegmentReady(samples) = detector.push(sample) {
            durations.push(samples.len() as f32 / SAMPLE_RATE as f32);
        }
    }

    assert!(!durations.is_empty());
    let longest = durations.iter().cloned().fold(0.0f32, f32::max);
    let average = durations.iter().sum::<f32>() / durations.len() as f32;

    assert!(
        durations.len() >= utterances && durations.len() <= utterances + 2,
        "{} utterances, {} segments",
        utterances,
        durations.len()
    );
    assert!(longest <= 16.0, "{}", longest);
    assert!(average <= 8.0, "{}", average);
}

#[test]
fn force_flush_cuts_at_the_energy_trough() {
    let mut config = VadConfig::testing(8);
    config.silence_hops = 1_000;
    config.max_segment_samples = 8 * 20;
    config.trough_search_samples = 8 * 6;
    let mut detector = Detector::new(config);

    let loud = noise(5, 8, 0.4);
    let quiet = noise(6, 8, 0.05);
    let mut stream = Vec::new();
    for _ in 0..18 {
        stream.extend_from_slice(&loud);
    }
    stream.extend_from_slice(&quiet);
    for _ in 0..6 {
        stream.extend_from_slice(&loud);
    }

    let events = feed(&mut detector, &stream);
    let mut cuts = Vec::new();
    for event in events {
        if let SegmenterEvent::SegmentReady(samples) = event {
            cuts.push(samples.len());
        }
    }
    assert!(!cuts.is_empty());
    assert_eq!(cuts[0], 8 * 19);
}

fn small() -> Segmenter {
    Segmenter::new(SegmenterConfig {
        hop_size: 2,
        silence_hops: 2,
        min_speech_hops: 1,
        pre_speech_hops: 1,
        max_segment_samples: 6,
        trough_search_samples: 4,
    })
}

#[test]
fn a_segment_holds_every_sample_from_its_lead_in_on() {
    let mut segmenter = small();
    assert_eq!(segmenter.push(1), None);
    let hop = segmenter.push(2).unwrap();
    assert_eq!(hop, vec![1, 2]);
    assert!(matches!(segmenter.take_hop(&hop, false), HopStep::Nothing));
    assert!(matches!(segmenter.take_hop(&vec![3, 4], false), HopStep::Nothing));
    assert!(matches!(segmenter.take_hop(&vec![5, 6], true), HopStep::SpeechStarted));
    assert!(matches!(segmenter.take_hop(&vec![7, 8], false), HopStep::Nothing));
    match segmenter.take_hop(&vec![9, 10], false) {
        HopStep::Ended { samples, long_enough } => {
            assert_eq!(samples, vec![3, 4, 5, 6, 7, 8, 9, 10]);
            assert!(long_enough);
        }
        step => panic!("{:?}", step),
    }
}

#[test]
fn a_cut_keeps_what_follows_the_quietest_window() {
    let mut segmenter = small();
    segmenter.take_hop(&vec![1, 2], true);
    segmenter.take_hop(&vec![3, 4], true);
    assert!(matches!(segmenter.take_hop(&vec![5, 6], true), HopStep::Full));
    assert_eq!(segmenter.windows(), (2, 2, 2));
    let samples = segmenter.cut(&vec![7, 9]);
    assert_eq!(samples, vec![1, 2, 3, 4]);
    assert_eq!(segmenter.speech_buffer, vec![5, 6]);
    assert!(segmenter.in_speech);

    let mut segmenter = small();
    segmenter.take_hop(&vec![1, 2], true);
    segmenter.take_hop(&vec![3, 4], true);
    segmenter.take_hop(&vec![5, 6], true);
    assert_eq!(segmenter.cut(&vec![9, 7]), vec![1, 2, 3, 4, 5, 6]);
    assert!(!segmenter.in_speech);
}

#[test]
fn events_tell_what_became_of_a_segment() {
    assert!(matches!(
        segment_event(vec![1], true, true),
        SegmenterEvent::SegmentReady(samples) if samples == vec![1]
    ));
    assert!(matches!(segment_event(vec![1], false, true), SegmenterEvent::Discarded));
    assert!(matches!(segment_event(vec![1], true, false), SegmenterEvent::Discarded));
}

#[test]
fn the_least_noise_of_the_window_is_told() {
    assert_eq!(LARGEST, f32::MAX.to_bits());
    let mut window = NoiseWindow::new(9);
    assert_eq!(window.push(5, 50), NoiseMinimum { rms: 5, peak: 50, settled: false });
    assert_eq!(window.push(7, 40), NoiseMinimum { rms: 5, peak: 40, settled: false });
    for _ in 2..BOOTSTRAP_HOPS {
        assert!(!window.push(9, 90).settled);
    }
    assert!(window.push(9, 90).settled);
    assert_eq!(window.push(9, 90), NoiseMinimum { rms: 7, peak: 40, settled: true });
}
