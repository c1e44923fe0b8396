use omegawhisper::signal::{
    boost_quiet_audio, find_kept_range, holds_speech, keep_recent, mix_to_mono, rank_levels,
    speech_level, trim_quiet_edges, Loudness, FRAME, MAX_GAIN, MIN_SPEECH_LEVEL, MIN_SPEECH_PEAK,
    UNCHANGED,
};

fn near(got: f32, want: f32, tolerance: f32, what: &str) {
    assert!(
        (got - want).abs() <= tolerance,
        "{what}: got {got}, wanted {want} (allowed {tolerance})"
    );
}

fn blocks(spec: &[(usize, f32)]) -> Vec<f32> {
    let mut out = Vec::new();
    for &(count, amplitude) in spec {
        for _ in 0..count {
            for i in 0..480 {
                out.push(if i % 2 == 0 { amplitude } else { -amplitude });
            }
        }
    }
    out
}

fn sine(count: usize, hz: f32, sample_rate: f32, amplitude: f32) -> Vec<f32> {
    (0..count)
        .map(|i| (2.0 * std::f32::consts::PI * hz * i as f32 / sample_rate).sin() * amplitude)
        .collect()
}

fn noise(count: usize, amplitude: f32) -> Vec<f32> {
    let mut state = 0x2545_f491_4f6c_dd1d_u64;
    (0..count)
        .map(|_| {
            state = state
                .wrapping_mul(6_364_136_223_846_793_005)
                .wrapping_add(1_442_695_040_888_963_407);
            let unit = (state >> 32) as f32 / u32::MAX as f32;
            (unit * 2.0 - 1.0) * amplitude
        })
        .collect()
}

fn peak_of(samples: &[f32]) -> f32 {
    samples.iter().fold(0.0f32, |max, s| max.max(s.abs()))
}

fn loudness(x: f32) -> Loudness {
    Loudness { key: if x > 0.0 { x.to_bits() } else { 0 } }
}

fn rms(frame: &[f32]) -> f32 {
    let sum: f32 = frame.iter().map(|s| s * s).sum();
    (sum / frame.len() as f32).sqrt()
}

fn level_of(samples: &[f32]) -> f32 {
    f32::from_bits(speech_level(samples, |frame: &[f32]| loudness(rms(frame))).key)
}

fn mono(buffer: Vec<f32>, channels: u16) -> Vec<f32> {
    mix_to_mono(buffer, channels, |frame: &[f32]| {
        frame.iter().sum::<f32>() / frame.len() as f32
    })
}

fn boost(samples: &mut [f32]) -> f32 {
    let level = level_of(samples);
    let peak = peak_of(samples);
    match boost_quiet_audio(
        loudness(level),
        loudness(peak),
        loudness(0.08 / level),
        loudness(0.95 / peak),
    ) {
        Some(gain) => {
            let gain = f32::from_bits(gain.key);
            for s in samples.iter_mut() {
                *s = (*s * gain).clamp(-1.0, 1.0);
            }
            gain
        }
        None => 1.0,
    }
}

fn trim(samples: &mut Vec<f32>) -> f32 {
    let level = level_of(samples);
    let threshold = (level * 0.25).max(0.004);
    let cut = trim_quiet_edges(samples, loudness(level), |frame: &[f32]| rms(frame) > threshold);
    cut as f32 / 16_000.0
}

#[test]
fn silence_from_an_unsigned_device_stays_silent() {
    // Scaling without shifting would turn a silent room into a steady tone.
    let quiet: Vec<f32> = vec![32768u16; 4800]
        .into_iter()
        .map(|s| (s as f32 / u16::MAX as f32) * 2.0 - 1.0)
        .collect();
    near(peak_of(&quiet), 0.0, 0.0001, "silence must stay silent");
    assert!(!holds_speech(loudness(level_of(&quiet)), loudness(peak_of(&quiet))));
}

#[test]
fn channels_are_averaged_into_one() {
    // (channels, what the device sent, what should come out, why)
    let cases: &[(u16, &[f32], &[f32], &str)] = &[
        (1, &[0.1, 0.2, 0.3], &[0.1, 0.2, 0.3], "one channel passes through"),
        (0, &[0.1, 0.2], &[0.1, 0.2], "a nonsense channel count changes nothing"),
        (2, &[1.0, 0.0, 0.5, 0.5], &[0.5, 0.5], "two channels are averaged"),
        (2, &[1.0, -1.0], &[0.0], "opposite channels cancel, they are not just dropped"),
        (3, &[0.3, 0.6, 0.9], &[0.6], "three channels are averaged"),
        (2, &[1.0, 0.0, 1.0], &[0.5, 1.0], "a half-finished frame at the end is kept"),
        (2, &[], &[], "nothing in, nothing out"),
    ];
    for &(channels, input, want, what) in cases {
        let got = mono(input.to_vec(), channels);
        assert_eq!(got.len(), want.len(), "{what}: wrong length");
        for (i, (&g, &w)) in got.iter().zip(want.iter()).enumerate() {
            near(g, w, 0.0001, &format!("{what}, sample {i}"));
        }
    }
}

#[test]
fn speech_loudness_ignores_pauses_and_single_bangs() {
    // (recording, expected loudness, why this case exists)
    let cases: &[(Vec<f32>, f32, &str)] = &[
        (Vec::new(), 0.0, "nothing recorded"),
        (vec![0.5; 100], 0.0, "shorter than one 30 ms block"),
        (blocks(&[(1, 0.3)]), 0.3, "exactly one block reports its own loudness"),
        (blocks(&[(50, 0.08)]), 0.08, "steady speech reports its loudness"),
        (
            blocks(&[(99, 0.002), (1, 0.9)]),
            0.002,
            "one door slam in a quiet minute does not count as speech",
        ),
        (blocks(&[(80, 0.002), (20, 0.08)]), 0.08, "real speech among pauses does count"),
    ];
    for (recording, want, what) in cases {
        near(level_of(recording), *want, 0.0001, what);
    }
}

#[test]
fn a_single_block_does_not_wrap_to_the_quietest_one() {
    near(level_of(&blocks(&[(1, 0.42)])), 0.42, 0.0001, "one block");
}

#[test]
fn only_real_speech_is_sent_to_the_model() {
    // (speech loudness, loudest sample, may it be sent, why)
    let cases: &[(f32, f32, bool, &str)] = &[
        (0.0, 0.0, false, "digital silence"),
        (0.0014, 0.02, false, "an empty room, as measured on this Mac"),
        (0.004, 0.60, false, "one click: loud peak, but nothing is being said"),
        (0.08, 0.02, false, "a steady hum: high average, no peaks"),
        (0.005, 0.05, true, "exactly on both thresholds"),
        (0.08, 0.50, true, "normal speech close to the microphone"),
        (0.30, 0.99, true, "loud speech"),
    ];
    for &(level, peak, want, what) in cases {
        assert_eq!(holds_speech(loudness(level), loudness(peak)), want, "{what}");
    }
}

#[test]
fn quiet_recordings_are_raised_but_an_empty_room_is_not() {
    // (recording, expected gain, why)
    // A gain of 1.0 means the recording was left exactly as it was.
    let cases: &[(Vec<f32>, f32, &str)] = &[
        (Vec::new(), 1.0, "nothing recorded"),
        (blocks(&[(10, 0.0)]), 1.0, "digital silence is never raised"),
        (
            blocks(&[(10, 0.002)]),
            1.0,
            "an empty room stays quiet - raising it is how invented sentences got typed",
        ),
        (blocks(&[(10, 0.02)]), 4.0, "quiet speech is brought up to normal"),
        (blocks(&[(10, 0.006)]), 10.0, "very quiet speech stops at ten times"),
        (blocks(&[(10, 0.2)]), 1.0, "speech that is already loud is left alone"),
    ];
    for (recording, want, what) in cases {
        let mut audio = recording.clone();
        near(boost(&mut audio), *want, 0.01, what);
    }
}

#[test]
fn raising_the_level_never_pushes_a_sample_past_the_limit() {
    let recordings: &[(Vec<f32>, &str)] = &[
        (blocks(&[(10, 0.006)]), "very quiet speech"),
        (blocks(&[(10, 0.02)]), "quiet speech"),
        (blocks(&[(99, 0.006), (1, 0.9)]), "quiet speech with one loud bang in it"),
        (sine(48_000, 220.0, 16_000.0, 0.01), "a quiet steady tone"),
        (noise(48_000, 0.01), "quiet noise"),
    ];
    for (recording, what) in recordings {
        let mut audio = recording.clone();
        boost(&mut audio);
        let peak = peak_of(&audio);
        assert!(peak <= 1.0, "{what}: loudest sample reached {peak}");
    }
}

#[test]
fn the_level_after_raising_matches_the_gain_reported() {
    let mut audio = blocks(&[(10, 0.02)]);
    let before = level_of(&audio);
    let gain = boost(&mut audio);
    let after = level_of(&audio);
    near(after, before * gain, 0.001, "reported gain matches the result");
    near(after, 0.08, 0.001, "quiet speech ends up at normal speech loudness");
}

#[test]
fn only_the_quiet_start_and_end_are_cut() {
    // 40 blocks of silence, 40 of speech, 40 of silence.
    let mut audio = blocks(&[(40, 0.0), (40, 0.1), (40, 0.0)]);
    let speech_samples_before = audio.iter().filter(|s| s.abs() > 0.05).count();

    let cut = trim(&mut audio);

    near(cut, 0.72, 0.01, "seconds removed from the front");
    assert_eq!(audio.len(), 34_560, "length after trimming");
    assert_eq!(
        audio.iter().filter(|s| s.abs() > 0.05).count(),
        speech_samples_before,
        "every spoken sample survived the trim"
    );
}

#[test]
fn a_pause_in_the_middle_of_a_sentence_is_never_cut() {
    // Cutting here would join words that were seconds apart.
    let mut audio = blocks(&[(20, 0.1), (40, 0.0), (20, 0.1)]);
    let length_before = audio.len();

    let cut = trim(&mut audio);

    near(cut, 0.0, 0.0001, "nothing cut from the front");
    assert_eq!(audio.len(), length_before, "nothing cut at all");
    assert_eq!(
        audio.iter().filter(|s| s.abs() < 0.05).count(),
        40 * 480,
        "the pause is still there, at its full length"
    );
}

#[test]
fn trimming_leaves_a_recording_with_no_speech_alone() {
    // (recording, why)
    let cases: &[(Vec<f32>, &str)] = &[
        (blocks(&[(20, 0.0)]), "digital silence"),
        (blocks(&[(20, 0.002)]), "an empty room"),
    ];
    for (recording, what) in cases {
        let mut audio = recording.clone();
        let length_before = audio.len();
        near(trim(&mut audio), 0.0, 0.0001, what);
        assert_eq!(audio.len(), length_before, "{what}: nothing should be cut");
    }
}

#[test]
fn a_quiet_tail_is_cut_without_touching_the_front() {
    let mut audio = blocks(&[(40, 0.1), (40, 0.0)]);
    let cut = trim(&mut audio);
    near(cut, 0.0, 0.0001, "nothing cut from the front");
    assert_eq!(audio.len(), 26_880, "the tail was cut");
}

#[test]
fn the_recent_sample_store_keeps_the_newest_and_stays_bounded() {
    let mut store = Vec::<f32>::new();

    // Less than the cap: everything is kept.
    keep_recent(&mut store, &[1.0, 2.0, 3.0]);
    assert_eq!(store.len(), 3);

    // Well past the cap, fed in pieces the way the microphone delivers it.
    let total = 6000usize;
    store.clear();
    for start in (0..total).step_by(1000) {
        let chunk: Vec<f32> = (start..start + 1000).map(|i| i as f32).collect();
        keep_recent(&mut store, &chunk);
    }
    assert_eq!(store.len(), 4096, "the store must not grow without limit");
    near(store[4095], 5999.0, 0.5, "the newest sample is kept");
    near(store[0], (total - 4096) as f32, 0.5, "the oldest ones are dropped");
}

#[test]
fn pieces_fill_the_store_like_the_whole() {
    let all: Vec<u32> = (0..10_000).collect();
    let mut whole = vec![7u32; 50];
    keep_recent(&mut whole, &all);
    let mut pieces = vec![7u32; 50];
    keep_recent(&mut pieces, &all[..3_333]);
    keep_recent(&mut pieces, &all[3_333..]);
    assert_eq!(whole, pieces);
    assert_eq!(whole.len(), 4096);
}

#[test]
fn the_level_one_tenth_from_the_top_is_taken() {
    assert_eq!(rank_levels(&[]), 0);
    assert_eq!(rank_levels(&[5]), 5);
    assert_eq!(rank_levels(&[3, 1, 2]), 3);
    assert_eq!(rank_levels(&[10, 9, 8, 7, 6, 5, 4, 3, 2, 1]), 10);
    let twenty: Vec<u32> = (1..=20).rev().collect();
    assert_eq!(rank_levels(&twenty), 19);
}

#[test]
fn the_thresholds_are_the_patterns_of_their_numbers() {
    assert_eq!(MIN_SPEECH_LEVEL, 0.005f32.to_bits());
    assert_eq!(MIN_SPEECH_PEAK, 0.05f32.to_bits());
    assert_eq!(UNCHANGED, 1.0f32.to_bits());
    assert_eq!(MAX_GAIN, 10.0f32.to_bits());
    assert_eq!(FRAME, 480);
}

#[test]
fn the_peak_caps_the_gain() {
    let gain = boost_quiet_audio(loudness(0.02), loudness(0.5), loudness(4.0), loudness(1.9));
    assert_eq!(gain, Some(loudness(1.9)));
    assert_eq!(
        boost_quiet_audio(loudness(0.02), loudness(0.99), loudness(4.0), loudness(0.96)),
        None
    );
}

#[test]
fn a_margin_is_kept_around_loud_frames() {
    let mut loud = vec![false; 100];
    assert_eq!(find_kept_range(&loud, 48_000), (0, 48_000));
    loud[40] = true;
    loud[60] = true;
    assert_eq!(find_kept_range(&loud, 48_000), (24 * 480, 77 * 480));
    loud[3] = true;
    loud[99] = true;
    assert_eq!(find_kept_range(&loud, 47_900), (0, 47_900));
}

#[test]
fn only_the_complete_frames_decide_the_level() {
    let recording = blocks(&[(40, 0.002), (7, 0.08), (5, 0.3)]);
    let level = level_of(&recording);
    assert!(level > 0.0);

    let shuffled = blocks(&[(5, 0.3), (20, 0.002), (7, 0.08), (20, 0.002)]);
    assert_eq!(level_of(&shuffled), level, "the order of the frames");

    for tail in [vec![0.9; 479], vec![0.0; 1]] {
        let longer = [recording.clone(), tail].concat();
        assert_eq!(level_of(&longer), level, "what follows the last complete frame");
    }
    assert_eq!(rank_levels(&[1, 5, 3, 5, 2]), rank_levels(&[5, 5, 1, 2, 3]));
}
