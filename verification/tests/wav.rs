use omegawhisper::wav::{samples_to_linear16, to_wav_bytes};

fn sample16(sample: f32) -> i16 {
    (sample.clamp(-1.0, 1.0) * i16::MAX as f32) as i16
}

#[test]
fn wav_files_have_a_correct_header() {
    let wav = to_wav_bytes(&[sample16(0.0); 10], 16_000, 1);
    assert_eq!(wav.len(), 44 + 20, "44-byte header plus 2 bytes per sample");
    assert_eq!(&wav[0..4], b"RIFF");
    assert_eq!(&wav[8..12], b"WAVE");
    assert_eq!(&wav[12..16], b"fmt ");
    assert_eq!(&wav[36..40], b"data");
    assert_eq!(u32::from_le_bytes(wav[4..8].try_into().unwrap()), 36 + 20);
    assert_eq!(u16::from_le_bytes(wav[22..24].try_into().unwrap()), 1, "channels");
    assert_eq!(u32::from_le_bytes(wav[24..28].try_into().unwrap()), 16_000, "sample rate");
    assert_eq!(u16::from_le_bytes(wav[34..36].try_into().unwrap()), 16, "bits per sample");
    assert_eq!(u32::from_le_bytes(wav[40..44].try_into().unwrap()), 20, "data size");

    // An empty recording still produces a valid, empty file.
    assert_eq!(to_wav_bytes(&[], 16_000, 1).len(), 44);
}

#[test]
fn samples_outside_the_allowed_range_are_pulled_back_in() {
    // (sample, expected 16-bit value, why)
    let cases: &[(f32, i16, &str)] = &[
        (0.0, 0, "silence"),
        (1.0, i16::MAX, "the loudest allowed value"),
        (-1.0, -i16::MAX, "the quietest allowed value"),
        (2.0, i16::MAX, "past the top: pulled back, not wrapped around"),
        (-2.0, -i16::MAX, "past the bottom: pulled back, not wrapped around"),
    ];
    for &(sample, want, what) in cases {
        let wav = to_wav_bytes(&[sample16(sample)], 16_000, 1);
        let got = i16::from_le_bytes(wav[44..46].try_into().unwrap());
        assert_eq!(got, want, "{what}");

        let pcm = samples_to_linear16(&[sample16(sample)]);
        assert_eq!(
            i16::from_le_bytes(pcm[0..2].try_into().unwrap()),
            want,
            "{what} (streaming path)"
        );
    }
    assert!(samples_to_linear16(&[]).is_empty());
    assert_eq!(samples_to_linear16(&[sample16(0.0); 5]).len(), 10, "2 bytes per sample");
}

#[test]
fn the_rest_of_the_header_follows_the_format() {
    let wav = to_wav_bytes(&[1, -2, 300], 44_100, 2);
    assert_eq!(u32::from_le_bytes(wav[16..20].try_into().unwrap()), 16);
    assert_eq!(u16::from_le_bytes(wav[20..22].try_into().unwrap()), 1);
    assert_eq!(u32::from_le_bytes(wav[28..32].try_into().unwrap()), 44_100 * 4);
    assert_eq!(u16::from_le_bytes(wav[32..34].try_into().unwrap()), 4);
    assert_eq!(&wav[44..], &[1, 0, 0xfe, 0xff, 0x2c, 0x01]);
}

#[test]
fn every_sample_is_written_low_byte_first() {
    for sample in [i16::MIN, -1, 0, 1, 255, 256, i16::MAX] {
        assert_eq!(samples_to_linear16(&[sample]), sample.to_le_bytes().to_vec());
    }
}
