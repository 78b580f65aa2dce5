use wackypixels::bits::BitQueue;
use wackypixels::error::{PipelineError, UnicodeError, WavError};
use wackypixels::naming::{dec_str, pad3_str};
use wackypixels::transforms::unicode::{EncodeMode, UnicodeTransform};
use wackypixels::transforms::wav::{
    qam16_demap, qam16_map, qam_decode_samples, qam_encode_samples, WavTransform,
};

fn unicode_chars(bytes: &[u8]) -> Vec<u32> {
    std::str::from_utf8(bytes).unwrap().chars().map(|c| c as u32).collect()
}

#[test]
fn unicode_round_trip_empty() {
    let encoded = UnicodeTransform.encode(Vec::new()).unwrap();
    // Header only: three CJK base codepoints, three UTF-8 bytes each.
    assert_eq!(encoded, vec![0xE4, 0xB8, 0x80, 0xE4, 0xB8, 0x80, 0xE4, 0xB8, 0x80]);
    let decoded = UnicodeTransform.decode(encoded).unwrap();
    assert_eq!(decoded, Vec::<u8>::new());
}

#[test]
fn unicode_round_trip_various() {
    let cases: Vec<Vec<u8>> = vec![
        vec![0x00],
        vec![0xFF],
        vec![0xDE, 0xAD, 0xBE, 0xEF],
        (0u16..=255).map(|b| b as u8).collect(),
        b"The quick brown fox jumps over the lazy dog".to_vec(),
        vec![0x55; 1024],
    ];
    for data in cases {
        let encoded = UnicodeTransform.encode(data.clone()).unwrap();
        let decoded = UnicodeTransform.decode(encoded).unwrap();
        assert_eq!(decoded, data);
    }
}

#[test]
fn unicode_header_declares_length() {
    // A payload of 5 bytes: the first header char carries 5, the other two
    // carry zero chunks.
    let encoded = UnicodeTransform.encode(vec![1, 2, 3, 4, 5]).unwrap();
    let chars = unicode_chars(&encoded);
    assert_eq!(chars[0], 0x4E00 + 5);
    assert_eq!(chars[1], 0x4E00);
    assert_eq!(chars[2], 0x4E00);
    let len = (chars[0] as u64 - 0x4E00)
        | ((chars[1] as u64 - 0x4E00) << 14)
        | ((chars[2] as u64 - 0x4E00) << 28);
    assert_eq!(len, 5);
    // A length needing all three chunks.
    let big_len: usize = (7 << 14) | 3;
    let encoded = UnicodeTransform.encode(vec![0xA5; big_len]).unwrap();
    let chars = unicode_chars(&encoded);
    let recovered = (chars[0] as u64 - 0x4E00)
        | ((chars[1] as u64 - 0x4E00) << 14)
        | ((chars[2] as u64 - 0x4E00) << 28);
    assert_eq!(recovered, big_len as u64);
}

#[test]
fn unicode_body_chars_fall_in_exactly_one_range() {
    let data: Vec<u8> = (0u16..=255).map(|b| b as u8).collect();
    let encoded = UnicodeTransform.encode(data).unwrap();
    let chars = unicode_chars(&encoded);
    for &cp in &chars[3..] {
        let in_cjk = (0x4E00..=0x9FFF).contains(&cp);
        let in_emoji = (0x1F600..=0x1F63F).contains(&cp);
        let in_invisible = (0xE0100..=0xE01EF).contains(&cp);
        let in_alphanum = (0x1D400..=0x1D7FF).contains(&cp);
        let count = [in_cjk, in_emoji, in_invisible, in_alphanum]
            .iter()
            .filter(|&&b| b)
            .count();
        assert_eq!(count, 1);
    }
}

#[test]
fn unicode_decode_skips_foreign_codepoints() {
    let data = b"payload".to_vec();
    let encoded = UnicodeTransform.encode(data.clone()).unwrap();
    let text = String::from_utf8(encoded).unwrap();
    let chars: Vec<char> = text.chars().collect();
    // Splice plain ASCII between the header and the body: the decoder must
    // skip it, not fail.
    let mut spliced = String::new();
    for (i, c) in chars.iter().enumerate() {
        if i == 3 {
            spliced.push_str("no-op ");
        }
        spliced.push(*c);
    }
    spliced.push('!');
    let decoded = UnicodeTransform.decode(spliced.into_bytes()).unwrap();
    assert_eq!(decoded, data);
}

#[test]
fn unicode_decode_rejects_invalid_utf8() {
    let r = UnicodeTransform.decode(vec![0xFF, 0xFE, 0xFD]);
    assert!(matches!(
        r,
        Err(PipelineError::Unicode(UnicodeError::InvalidUtf8))
    ));
}

#[test]
fn unicode_decode_rejects_missing_header() {
    let r = UnicodeTransform.decode(Vec::new());
    assert!(matches!(
        r,
        Err(PipelineError::Unicode(UnicodeError::MissingHeader))
    ));
    // Two CJK chars are one short of a header.
    let r = UnicodeTransform.decode("丂丂".as_bytes().to_vec());
    assert!(matches!(
        r,
        Err(PipelineError::Unicode(UnicodeError::MissingHeader))
    ));
}

#[test]
fn unicode_decode_rejects_low_header_char() {
    let r = UnicodeTransform.decode(b"AAA".to_vec());
    assert!(matches!(
        r,
        Err(PipelineError::Unicode(UnicodeError::InvalidHeaderChar))
    ));
}

#[test]
fn unicode_decode_rejects_declared_length_shortfall() {
    // A header declaring one byte, with no body at all.
    let mut text = String::new();
    text.push(char::from_u32(0x4E00 + 1).unwrap());
    text.push(char::from_u32(0x4E00).unwrap());
    text.push(char::from_u32(0x4E00).unwrap());
    let r = UnicodeTransform.decode(text.into_bytes());
    assert!(matches!(
        r,
        Err(PipelineError::Unicode(UnicodeError::LengthMismatch))
    ));
}

#[test]
fn encode_mode_table() {
    assert_eq!(EncodeMode::Invisible.config(), (0xE0100, 7));
    assert_eq!(EncodeMode::Cjk.config(), (0x4E00, 14));
    assert_eq!(EncodeMode::Emoji.config(), (0x1F600, 6));
    assert_eq!(EncodeMode::Alphanum.config(), (0x1D400, 10));
    assert!(matches!(EncodeMode::from_bits(0b00), EncodeMode::Invisible));
    assert!(matches!(EncodeMode::from_bits(0b01), EncodeMode::Cjk));
    assert!(matches!(EncodeMode::from_bits(0b10), EncodeMode::Emoji));
    assert!(matches!(EncodeMode::from_bits(0b11), EncodeMode::Alphanum));
    assert!(matches!(EncodeMode::from_bits(0b111), EncodeMode::Alphanum));
}

#[test]
fn qam16_constellation_round_trip() {
    for symbol in 0u8..16 {
        let (i, q) = qam16_map(symbol);
        assert_eq!(qam16_demap(i, q), symbol);
    }
    assert_eq!(qam16_map(0x0), (-96, -96));
    assert_eq!(qam16_map(0x3), (-96, 96));
    assert_eq!(qam16_map(0xF), (96, 96));
    assert_eq!(qam16_demap(-70, 10), 0x2);
}

#[test]
fn qam_sample_count_formula() {
    // 32·oversampling·2 header samples plus n·2·oversampling·2 body
    // samples, with oversampling 2.
    assert_eq!(qam_encode_samples(&Vec::new()).len(), 32 * 2 * 2);
    assert_eq!(qam_encode_samples(&vec![1, 2, 3]).len(), 32 * 2 * 2 + 3 * 2 * 2 * 2);
}

#[test]
fn qam_samples_round_trip() {
    let cases: Vec<Vec<u8>> = vec![
        Vec::new(),
        vec![0x00],
        vec![0xF0, 0x0F, 0xAA, 0x55],
        (0u16..=255).map(|b| b as u8).collect(),
    ];
    for data in cases {
        let samples = qam_encode_samples(&data);
        let decoded = qam_decode_samples(&samples).unwrap();
        assert_eq!(decoded, data);
    }
}

#[test]
fn qam_truncated_waveform_fails_with_shortfall() {
    let data = vec![0xC3, 0x3C];
    let full = qam_encode_samples(&data);
    for cut in [full.len() - 1, 130, 127, 0] {
        let truncated: Vec<i8> = full[..cut].to_vec();
        match qam_decode_samples(&truncated) {
            Err(WavError::TooFewSamples { have, need }) => {
                assert_eq!(have, cut);
                if cut >= 128 {
                    assert_eq!(need, 128 + 8 * data.len() as u64);
                }
            },
            other => panic!("expected a sample shortfall, got {:?}", other),
        }
    }
}

#[test]
fn wav_stage_round_trip() {
    let data = b"amplitude modulated".to_vec();
    let container = WavTransform.encode(data.clone()).unwrap();
    // A real WAV container, not the raw samples.
    assert_eq!(&container[0..4], b"RIFF");
    let decoded = WavTransform.decode(container).unwrap();
    assert_eq!(decoded, data);
}

#[test]
fn wav_stage_rejects_garbage_container() {
    let r = WavTransform.decode(b"not a wav file".to_vec());
    assert!(matches!(r, Err(PipelineError::Wav(_))));
}

#[test]
fn bit_queue_pads_short_reads_with_zeros() {
    let mut q = BitQueue::new();
    q.push_byte(0xA5);
    assert_eq!(q.len(), 8);
    assert_eq!(q.pop_pad(4), 0xA);
    // Four bits remain (0101); an 8-bit read pads them on the right.
    assert_eq!(q.pop_pad(8), 0x50);
    assert_eq!(q.len(), 0);
    q.push_low_bits(0b110, 3);
    assert_eq!(q.pop_pad(2), 0b11);
    assert_eq!(q.pop_pad(1), 0b0);
}

#[test]
fn decimal_and_padded_rendering() {
    assert_eq!(dec_str(0), "0");
    assert_eq!(dec_str(9), "9");
    assert_eq!(dec_str(120348), "120348");
    assert_eq!(pad3_str(0), "000");
    assert_eq!(pad3_str(7), "007");
    assert_eq!(pad3_str(42), "042");
    assert_eq!(pad3_str(123), "123");
    assert_eq!(pad3_str(12345), "12345");
}
