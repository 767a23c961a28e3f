use novus_voice::audio::{duration_ms, pcm_bytes, wav_bytes};
use novus_voice::kokoro::Synthesis;
use novus_voice::protocol::{Body, WordTiming};
use novus_voice::session::{audio_body, can_reply};
use novus_voice::style::{parse_style_table, style_row, STYLE_DIM};

#[test]
fn samples_are_little_endian() {
    assert_eq!(
        pcm_bytes(&vec![0, 1, -1, 256, i16::MAX, i16::MIN]),
        vec![0, 0, 1, 0, 255, 255, 0, 1, 255, 127, 0, 128]
    );
}

#[test]
fn samples_are_read_back() {
    let samples = vec![-32768, -12345, -1, 0, 1, 12345, 32767];
    let bytes = pcm_bytes(&samples);
    for (k, s) in samples.iter().enumerate() {
        assert_eq!(i16::from_le_bytes([bytes[2 * k], bytes[2 * k + 1]]), *s);
    }
}

#[test]
fn durations_are_whole_milliseconds() {
    assert_eq!(duration_ms(24000, 24000), 1000);
    assert_eq!(duration_ms(1, 24000), 0);
    assert_eq!(duration_ms(29616, 24000), 1234);
    assert_eq!(duration_ms(0, 1), 0);
    assert_eq!(duration_ms(4_294_968, 1), 704);
}

fn body(samples: Vec<i16>) -> Body {
    audio_body(Synthesis {
        samples,
        sample_rate: 24000,
        words: vec![WordTiming { start_ms: 1, end_ms: 2, start_char: 3, end_char: 4 }],
    })
}

fn base64_text(samples: Vec<i16>) -> String {
    match body(samples) {
        Body::Audio { pcm_base64, .. } => pcm_base64,
        Body::Loaded { .. } => panic!("no audio"),
    }
}

#[test]
fn audio_is_sent_in_base64() {
    assert_eq!(base64_text(vec![]), "");
    assert_eq!(base64_text(vec![0]), "AAA=");
    assert_eq!(base64_text(vec![1, -1]), "AQD//w==");
    assert_eq!(base64_text(vec![-1025, -1, 0x3e3e]), "//v//z4+");
    assert_eq!(base64_text(vec![i16::MIN, 12345, i16::MAX]), "AIA5MP9/");
}

#[test]
fn base64_is_read_back() {
    let alphabet: Vec<char> =
        "ABCDEFGHIJKLMNOPQRSTUVWXYZabcdefghijklmnopqrstuvwxyz0123456789+/".chars().collect();
    let samples: Vec<i16> = (0..200).map(|k| (k * 331 - 32768) as i16).collect();
    let mut bits: u32 = 0;
    let mut held = 0;
    let mut bytes: Vec<u8> = Vec::new();
    for c in base64_text(samples.clone()).chars().filter(|c| *c != '=') {
        let v = alphabet.iter().position(|a| *a == c).unwrap() as u32;
        bits = (bits << 6) | v;
        held += 6;
        if held >= 8 {
            held -= 8;
            bytes.push((bits >> held) as u8);
            bits &= (1 << held) - 1;
        }
    }
    assert_eq!(bytes, pcm_bytes(&samples));
}

#[test]
fn audio_carries_rate_duration_and_words() {
    match body(vec![7; 48]) {
        Body::Audio { sample_rate, duration_ms, words, .. } => {
            assert_eq!(sample_rate, 24000);
            assert_eq!(duration_ms, 2);
            assert_eq!(words.len(), 1);
            assert_eq!(words[0].end_char, 4);
        }
        Body::Loaded { .. } => panic!("no audio"),
    }
}

#[test]
fn speech_without_a_rate_fits_no_reply() {
    let speech = Synthesis { samples: vec![1], sample_rate: 0, words: vec![] };
    assert!(!can_reply(&speech));
    let speech = Synthesis { samples: vec![1], sample_rate: 1, words: vec![] };
    assert!(can_reply(&speech));
}

#[test]
fn wav_files_are_exact() {
    assert_eq!(
        wav_bytes(&vec![1, -2], 24000),
        vec![
            b'R', b'I', b'F', b'F', 40, 0, 0, 0, b'W', b'A', b'V', b'E', b'f', b'm', b't', b' ',
            16, 0, 0, 0, 1, 0, 1, 0, 0xc0, 0x5d, 0, 0, 0x80, 0xbb, 0, 0, 2, 0, 16, 0, b'd', b'a',
            b't', b'a', 4, 0, 0, 0, 1, 0, 0xfe, 0xff,
        ]
    );
}

#[test]
fn an_empty_wav_file_is_a_header() {
    let file = wav_bytes(&vec![], 8000);
    assert_eq!(file.len(), 44);
    assert_eq!(&file[4..8], &[36, 0, 0, 0]);
    assert_eq!(&file[40..44], &[0, 0, 0, 0]);
}

#[test]
fn wav_headers_are_read_back() {
    let samples: Vec<i16> = (0..1000).collect();
    let file = wav_bytes(&samples, 22050);
    let word = |at: usize| u32::from_le_bytes([file[at], file[at + 1], file[at + 2], file[at + 3]]);
    assert_eq!(file.len(), 2044);
    assert_eq!(word(4), 2036);
    assert_eq!(word(24), 22050);
    assert_eq!(word(28), 44100);
    assert_eq!(word(40), 2000);
    assert_eq!(i16::from_le_bytes([file[44 + 2 * 999], file[45 + 2 * 999]]), 999);
}

#[test]
fn style_files_are_rows_of_floats() {
    let mut bytes = vec![0u8; 2 * 4 * STYLE_DIM];
    bytes[0..4].copy_from_slice(&1.5f32.to_le_bytes());
    bytes[1024..1028].copy_from_slice(&(-2.25f32).to_le_bytes());
    let table = parse_style_table(&bytes).unwrap();
    assert_eq!(table.len(), 512);
    assert_eq!(f32::from_bits(table[0]), 1.5);
    assert_eq!(f32::from_bits(table[256]), -2.25);
    bytes.pop();
    assert!(parse_style_table(&bytes).is_none());
    assert_eq!(parse_style_table(&vec![]), Some(vec![]));
}

#[test]
fn the_style_row_is_the_number_of_ids_or_the_last() {
    let table: Vec<u32> = (0..3 * STYLE_DIM as u32).collect();
    assert_eq!(style_row(&table, 0)[0], 0);
    assert_eq!(style_row(&table, 1)[0], 256);
    assert_eq!(style_row(&table, 2)[255], 767);
    assert_eq!(style_row(&table, 510)[0], 512);
    assert_eq!(style_row(&table, 510).len(), STYLE_DIM);
}
