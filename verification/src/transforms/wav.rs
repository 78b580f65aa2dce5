//! The 16-QAM audio codec: modulates a byte stream onto a two-channel
//! (I/Q) 8-bit PCM waveform and recovers it by amplitude demodulation.
//!
//! Each 4-bit symbol maps to a fixed pair of amplitude levels, one per
//! channel, from {-96, -32, 32, 96}.  Every symbol is written twice per
//! channel (oversampling factor 2), interleaved I, Q, I, Q.  A 32-bit
//! length header precedes the body, one bit per oversampled period at
//! amplitude +127 or -127, least significant bit first.
use crate::bits::{bit_at, bits_val, lemma_bits_val_of_width_bits, lemma_shift_bit_at, width_bits};
use crate::error::{PipelineError, WavError};
use vstd::arithmetic::power2::pow2;
use vstd::prelude::*;

verus! {

/// The constellation point of a 4-bit symbol: its (I, Q) amplitude pair.
pub open spec fn qam16_map_spec(symbol: u8) -> (i8, i8) {
    if symbol == 0x0 {
        (-96i8, -96i8)
    } else if symbol == 0x1 {
        (-96i8, -32i8)
    } else if symbol == 0x2 {
        (-96i8, 32i8)
    } else if symbol == 0x3 {
        (-96i8, 96i8)
    } else if symbol == 0x4 {
        (-32i8, -96i8)
    } else if symbol == 0x5 {
        (-32i8, -32i8)
    } else if symbol == 0x6 {
        (-32i8, 32i8)
    } else if symbol == 0x7 {
        (-32i8, 96i8)
    } else if symbol == 0x8 {
        (32i8, -96i8)
    } else if symbol == 0x9 {
        (32i8, -32i8)
    } else if symbol == 0xA {
        (32i8, 32i8)
    } else if symbol == 0xB {
        (32i8, 96i8)
    } else if symbol == 0xC {
        (96i8, -96i8)
    } else if symbol == 0xD {
        (96i8, -32i8)
    } else if symbol == 0xE {
        (96i8, 32i8)
    } else {
        (96i8, 96i8)
    }
}

/// The level index (0 to 3) of one received amplitude, classified by the
/// thresholds -64, 0 and 64.
pub open spec fn level_of_value(v: i8) -> u8 {
    if v <= -64 {
        0
    } else if v <= 0 {
        1
    } else if v <= 64 {
        2
    } else {
        3
    }
}

/// The level index of an oversampled pair, classified by the sum of its two
/// samples.  Averaging the pair (integer division truncating toward zero)
/// and applying the value thresholds gives exactly these sum thresholds.
pub open spec fn level_of_sum(sum: int) -> u8 {
    if sum <= -128 {
        0
    } else if sum <= 1 {
        1
    } else if sum <= 129 {
        2
    } else {
        3
    }
}

/// The 4-bit symbol recovered from a received (I, Q) amplitude pair.
pub open spec fn qam16_demap_spec(i: i8, q: i8) -> u8 {
    (level_of_value(i) * 4 + level_of_value(q)) as u8
}

/// The high 4 bits of a byte.
pub open spec fn high_nib(b: u8) -> u8 {
    b / 16
}

/// The low 4 bits of a byte.
pub open spec fn low_nib(b: u8) -> u8 {
    b % 16
}

/// The 128 header samples declaring a payload length: bit `i` of the length
/// occupies samples 4i to 4i+3 (two oversampled periods on each of the two
/// channels) at amplitude +127 when set, -127 when clear.
pub open spec fn qam_header_samples(len: u32) -> Seq<i8> {
    Seq::new(128, |j: int| if bit_at(len as nat, (j / 4) as nat) {
        127i8
    } else {
        -127i8
    })
}

/// Body sample `j` for a payload: byte `j/8`, its high nibble in the first
/// four sample slots and its low nibble in the last four, I channel on even
/// slots and Q channel on odd ones.
pub open spec fn qam_body_sample(data: Seq<u8>, j: int) -> i8 {
    let b = data[j / 8];
    let r = j % 8;
    let nib = if r < 4 {
        high_nib(b)
    } else {
        low_nib(b)
    };
    let pair = qam16_map_spec(nib);
    if r % 2 == 0 {
        pair.0
    } else {
        pair.1
    }
}

/// All body samples of a payload: 8 samples per byte.
pub open spec fn qam_body_samples(data: Seq<u8>) -> Seq<i8> {
    Seq::new(8 * data.len(), |j: int| qam_body_sample(data, j))
}

/// The full waveform of a payload: header samples, then body samples.
pub open spec fn qam_encode_spec(data: Seq<u8>) -> Seq<i8> {
    qam_header_samples(data.len() as u32) + qam_body_samples(data)
}

/// Header bit `i` as the receiver reads it: set when the averaged I-channel
/// amplitude of bit period `i` is positive.
pub open spec fn header_bit(s: Seq<i8>, i: int) -> bool {
    s[4 * i] + s[4 * i + 2] >= 2
}

/// The payload length the receiver reads from the 32 header bit periods,
/// least significant bit first.
pub open spec fn qam_header_len(s: Seq<i8>) -> nat
    recommends
        s.len() >= 128,
{
    bits_val(Seq::new(32, |i: int| header_bit(s, 31 - i)))
}

/// Byte `k` as the receiver demodulates it: level-classify the averaged I
/// and Q amplitudes of the two nibble periods and recombine.
pub open spec fn qam_byte(s: Seq<i8>, k: int) -> u8 {
    let base = 128 + 8 * k;
    let ih = level_of_sum(s[base] + s[base + 2]);
    let qh = level_of_sum(s[base + 1] + s[base + 3]);
    let il = level_of_sum(s[base + 4] + s[base + 6]);
    let ql = level_of_sum(s[base + 5] + s[base + 7]);
    ((ih * 4 + qh) * 16 + (il * 4 + ql)) as u8
}

/// What the receiver recovers from a waveform, or `None` when the waveform
/// holds fewer samples than its header demands (or no full header at all).
pub open spec fn qam_decode_spec(s: Seq<i8>) -> Option<Seq<u8>> {
    if s.len() < 128 {
        Option::None
    } else {
        let total = qam_header_len(s);
        if s.len() < 128 + 8 * total {
            Option::None
        } else {
            Option::Some(Seq::new(total, |k: int| qam_byte(s, k)))
        }
    }
}

/// Maps a 4-bit symbol to its constellation point.
pub fn qam16_map(symbol: u8) -> (r: (i8, i8))
    requires
        symbol < 16,
    ensures
        r == qam16_map_spec(symbol),
{
    if symbol == 0x0 {
        (-96, -96)
    } else if symbol == 0x1 {
        (-96, -32)
    } else if symbol == 0x2 {
        (-96, 32)
    } else if symbol == 0x3 {
        (-96, 96)
    } else if symbol == 0x4 {
        (-32, -96)
    } else if symbol == 0x5 {
        (-32, -32)
    } else if symbol == 0x6 {
        (-32, 32)
    } else if symbol == 0x7 {
        (-32, 96)
    } else if symbol == 0x8 {
        (32, -96)
    } else if symbol == 0x9 {
        (32, -32)
    } else if symbol == 0xA {
        (32, 32)
    } else if symbol == 0xB {
        (32, 96)
    } else if symbol == 0xC {
        (96, -96)
    } else if symbol == 0xD {
        (96, -32)
    } else if symbol == 0xE {
        (96, 32)
    } else {
        (96, 96)
    }
}

/// Classifies a received (I, Q) amplitude pair back to its 4-bit symbol by
/// nearest constellation point, thresholds at -64, 0 and 64 per axis.
pub fn qam16_demap(i: i8, q: i8) -> (r: u8)
    ensures
        r == qam16_demap_spec(i, q),
        r < 16,
{
    let i_level: u8 = if i <= -64 {
        0
    } else if i <= 0 {
        1
    } else if i <= 64 {
        2
    } else {
        3
    };
    let q_level: u8 = if q <= -64 {
        0
    } else if q <= 0 {
        1
    } else if q <= 64 {
        2
    } else {
        3
    };
    i_level * 4 + q_level
}

/// Demapping the constellation point of any 4-bit symbol recovers that
/// symbol: the constellation table is invertible by level classification.
pub proof fn lemma_qam16_round_trip(symbol: u8)
    requires
        symbol < 16,
    ensures
        qam16_demap_spec(qam16_map_spec(symbol).0, qam16_map_spec(symbol).1) == symbol,
{
}

/// Modulates a byte payload into its waveform: 128 header samples carrying
/// the 32-bit length, then 8 samples per byte.
pub fn qam_encode_samples(data: &Vec<u8>) -> (r: Vec<i8>)
    requires
        data@.len() < 0x1_0000_0000,
        128 + 8 * data@.len() <= usize::MAX,
    ensures
        r@ == qam_encode_spec(data@),
{
    let len: u32 = data.len() as u32;
    let ghost hdr = qam_header_samples(len);
    let mut out: Vec<i8> = Vec::new();
    let mut i: u32 = 0;
    while i < 32
        invariant
            i <= 32,
            len == data@.len(),
            hdr == qam_header_samples(len),
            out@.len() == 4 * i,
            forall|j: int| 0 <= j < out@.len() ==> out@[j] == hdr[j],
        decreases 32 - i,
    {
        let bit = (((len as u64) >> (i as u64)) & 1) == 1;
        proof {
            lemma_shift_bit_at(len as u64, i as u64);
        }
        let val: i8 = if bit {
            127
        } else {
            -127
        };
        let ghost before = out@.len() as int;
        out.push(val);
        out.push(val);
        out.push(val);
        out.push(val);
        proof {
            assert forall|j: int| before <= j < before + 4 implies out@[j] == hdr[j] by {
                assert(j / 4 == i);
            }
        }
        i = i + 1;
    }
    proof {
        assert(out@ =~= hdr);
    }
    let mut k: usize = 0;
    while k < data.len()
        invariant
            k <= data@.len(),
            len == data@.len(),
            data@.len() < 0x1_0000_0000,
            128 + 8 * data@.len() <= usize::MAX,
            hdr == qam_header_samples(len),
            out@.len() == 128 + 8 * k,
            out@.take(128) == hdr,
            forall|j: int| 128 <= j < out@.len() ==> out@[j] == qam_body_sample(data@, j - 128),
        decreases data@.len() - k,
    {
        let b = data[k];
        let hi = b / 16;
        let lo = b % 16;
        let (ih, qh) = qam16_map(hi);
        let (il, ql) = qam16_map(lo);
        let ghost before = out@.len() as int;
        out.push(ih);
        out.push(qh);
        out.push(ih);
        out.push(qh);
        out.push(il);
        out.push(ql);
        out.push(il);
        out.push(ql);
        proof {
            assert(out@.take(128) =~= hdr);
            assert forall|j: int| before <= j < before + 8 implies out@[j] == qam_body_sample(
                data@,
                j - 128,
            ) by {
                let t = j - before;
                assert((8 * k + t) / 8 == k);
                assert((8 * k + t) % 8 == t);
                assert(data@[k as int] == b);
            }
        }
        k = k + 1;
    }
    proof {
        assert(out@ =~= qam_encode_spec(data@)) by {
            assert(qam_body_samples(data@).len() == 8 * data@.len());
            assert forall|j: int| 0 <= j < out@.len() implies out@[j] == qam_encode_spec(
                data@,
            )[j] by {
                if j < 128 {
                    assert(out@[j] == out@.take(128)[j]);
                } else {
                    assert(qam_encode_spec(data@)[j] == qam_body_samples(data@)[j - 128]);
                }
            }
        }
    }
    out
}

/// Demodulates a waveform back to its byte payload.  Fails, naming the
/// shortfall, when the waveform holds fewer samples than a full header, or
/// fewer than the header's declared length requires.
pub fn qam_decode_samples(samples: &Vec<i8>) -> (r: Result<Vec<u8>, WavError>)
    ensures
        match qam_decode_spec(samples@) {
            Option::Some(p) => r matches Ok(out) && out@ == p,
            Option::None => r matches Err(e) && e matches WavError::TooFewSamples { .. },
        },
{
    if samples.len() < 128 {
        return Err(WavError::TooFewSamples { have: samples.len(), need: 128 });
    }
    let ghost hbits = Seq::new(32, |i: int| header_bit(samples@, 31 - i));
    let mut total: u64 = 0;
    let mut k: usize = 0;
    proof {
        assert(hbits.take(0) =~= Seq::<bool>::empty());
        assert(pow2(0) == 1) by {
            vstd::arithmetic::power2::lemma2_to64();
        }
    }
    while k < 32
        invariant
            k <= 32,
            samples@.len() >= 128,
            hbits == Seq::new(32, |i: int| header_bit(samples@, 31 - i)),
            total == bits_val(hbits.take(k as int)),
            total < pow2(k as nat),
        decreases 32 - k,
    {
        let idx: usize = 4 * (31 - k);
        let sum: i32 = (samples[idx] as i32) + (samples[idx + 2] as i32);
        let bit = sum >= 2;
        proof {
            assert(bit == header_bit(samples@, 31 - k));
            assert(hbits.take(k as int + 1).drop_last() =~= hbits.take(k as int));
            assert(hbits.take(k as int + 1).last() == hbits[k as int]);
            vstd::arithmetic::power2::lemma_pow2_unfold((k + 1) as nat);
            vstd::arithmetic::power2::lemma2_to64();
            if (k + 1) < 64 {
                vstd::arithmetic::power2::lemma_pow2_strictly_increases((k + 1) as nat, 64);
            }
        }
        total = total * 2 + (if bit {
            1
        } else {
            0
        });
        k = k + 1;
    }
    proof {
        assert(hbits.take(32) =~= hbits);
        assert(total == qam_header_len(samples@));
        assert(pow2(32) == 0x1_0000_0000) by {
            vstd::arithmetic::power2::lemma2_to64();
        }
    }
    let need: u64 = 128 + 8 * total;
    if (samples.len() as u64) < need {
        return Err(WavError::TooFewSamples { have: samples.len(), need });
    }
    let count: usize = total as usize;
    let mut out: Vec<u8> = Vec::new();
    let mut k2: usize = 0;
    while k2 < count
        invariant
            k2 <= count,
            count == qam_header_len(samples@),
            samples@.len() >= 128 + 8 * count,
            samples@.len() <= usize::MAX,
            out@.len() == k2,
            forall|j: int| 0 <= j < out@.len() ==> out@[j] == qam_byte(samples@, j),
        decreases count - k2,
    {
        let base: usize = 128 + 8 * k2;
        let sih: i32 = (samples[base] as i32) + (samples[base + 2] as i32);
        let sqh: i32 = (samples[base + 1] as i32) + (samples[base + 3] as i32);
        let sil: i32 = (samples[base + 4] as i32) + (samples[base + 6] as i32);
        let sql: i32 = (samples[base + 5] as i32) + (samples[base + 7] as i32);
        let ih = level_sum(sih);
        let qh = level_sum(sqh);
        let il = level_sum(sil);
        let ql = level_sum(sql);
        let byte: u8 = (ih * 4 + qh) * 16 + (il * 4 + ql);
        proof {
            assert(byte == qam_byte(samples@, k2 as int));
        }
        out.push(byte);
        k2 = k2 + 1;
    }
    proof {
        assert(out@ =~= Seq::new(qam_header_len(samples@), |j: int| qam_byte(samples@, j)));
    }
    Ok(out)
}

/// Classifies the sum of an oversampled pair into its level index.
fn level_sum(sum: i32) -> (r: u8)
    ensures
        r == level_of_sum(sum as int),
        r < 4,
{
    if sum <= -128 {
        0
    } else if sum <= 1 {
        1
    } else if sum <= 129 {
        2
    } else {
        3
    }
}

/// The waveform of a payload of `n` bytes holds exactly
/// 32·oversampling·2 + n·2·oversampling·2 samples (oversampling 2, two
/// channels, two nibbles per byte).
pub proof fn lemma_qam_sample_count(data: Seq<u8>)
    ensures
        qam_encode_spec(data).len() == 32 * 2 * 2 + data.len() * 2 * 2 * 2,
{
}

/// Round trip of the audio codec: demodulating a modulated payload
/// recovers the payload exactly, for every buffer whose length fits the
/// 32-bit header.
pub proof fn lemma_qam_round_trip(data: Seq<u8>)
    requires
        data.len() < 0x1_0000_0000,
    ensures
        qam_decode_spec(qam_encode_spec(data)) == Some(data),
{
    let len: u32 = data.len() as u32;
    let enc = qam_encode_spec(data);
    let hdr = qam_header_samples(len);
    assert(enc.len() == 128 + 8 * data.len());
    // The receiver reads back exactly the header bits that were written.
    let hbits = Seq::new(32, |i: int| header_bit(enc, 31 - i));
    assert(hbits =~= width_bits(len as nat, 32)) by {
        assert forall|i: int| 0 <= i < 32 implies hbits[i] == width_bits(len as nat, 32)[i] by {
            let bi = 31 - i;
            assert(enc[4 * bi] == hdr[4 * bi]);
            assert(enc[4 * bi + 2] == hdr[4 * bi + 2]);
            assert((4 * bi) / 4 == bi);
            assert((4 * bi + 2) / 4 == bi);
        }
    }
    assert(pow2(32) == 0x1_0000_0000) by {
        vstd::arithmetic::power2::lemma2_to64();
    }
    lemma_bits_val_of_width_bits(len as nat, 32);
    assert(qam_header_len(enc) == len);
    // Every byte demodulates back to itself.
    let dec = Seq::new(len as nat, |k: int| qam_byte(enc, k));
    assert(dec =~= data) by {
        assert forall|k: int| 0 <= k < data.len() implies dec[k] == data[k] by {
            lemma_qam_byte_round_trip(data, k);
        }
    }
}

/// Demodulating byte period `k` of an encoded waveform recovers byte `k`.
proof fn lemma_qam_byte_round_trip(data: Seq<u8>, k: int)
    requires
        data.len() < 0x1_0000_0000,
        0 <= k < data.len(),
    ensures
        qam_byte(qam_encode_spec(data), k) == data[k],
{
    let enc = qam_encode_spec(data);
    let body = qam_body_samples(data);
    let b = data[k];
    let base = 128 + 8 * k;
    assert(enc[base + 0] == body[8 * k + 0] && enc[base + 1] == body[8 * k + 1] && enc[base + 2]
        == body[8 * k + 2] && enc[base + 3] == body[8 * k + 3] && enc[base + 4] == body[8 * k + 4]
        && enc[base + 5] == body[8 * k + 5] && enc[base + 6] == body[8 * k + 6] && enc[base + 7]
        == body[8 * k + 7]);
    assert((8 * k + 0) / 8 == k && (8 * k + 1) / 8 == k && (8 * k + 2) / 8 == k && (8 * k + 3) / 8
        == k && (8 * k + 4) / 8 == k && (8 * k + 5) / 8 == k && (8 * k + 6) / 8 == k && (8 * k + 7)
        / 8 == k);
    assert((8 * k + 0) % 8 == 0 && (8 * k + 1) % 8 == 1 && (8 * k + 2) % 8 == 2 && (8 * k + 3) % 8
        == 3 && (8 * k + 4) % 8 == 4 && (8 * k + 5) % 8 == 5 && (8 * k + 6) % 8 == 6 && (8 * k + 7)
        % 8 == 7);
    let hi = high_nib(b);
    let lo = low_nib(b);
    let ph = qam16_map_spec(hi);
    let pl = qam16_map_spec(lo);
    assert(enc[base] == ph.0 && enc[base + 2] == ph.0);
    assert(enc[base + 1] == ph.1 && enc[base + 3] == ph.1);
    assert(enc[base + 4] == pl.0 && enc[base + 6] == pl.0);
    assert(enc[base + 5] == pl.1 && enc[base + 7] == pl.1);
    assert(hi < 16 && lo < 16);
    lemma_level_sum_of_pair(ph.0);
    lemma_level_sum_of_pair(ph.1);
    lemma_level_sum_of_pair(pl.0);
    lemma_level_sum_of_pair(pl.1);
    lemma_qam16_round_trip(hi);
    lemma_qam16_round_trip(lo);
    assert(qam_byte(enc, k) == hi * 16 + lo);
    assert(hi * 16 + lo == b) by {
        vstd::arithmetic::div_mod::lemma_fundamental_div_mod(b as int, 16);
    }
}

/// Two equal samples classify by their sum exactly as one of them
/// classifies by value.
proof fn lemma_level_sum_of_pair(v: i8)
    ensures
        level_of_sum(v + v) == level_of_value(v),
{
}

/// Demodulating any strict prefix of an encoded waveform fails with a
/// sample shortfall: the header (when whole) still declares the full
/// length, which the shortened body cannot cover.
pub proof fn lemma_qam_truncated_fails(data: Seq<u8>, m: int)
    requires
        data.len() < 0x1_0000_0000,
        0 <= m < qam_encode_spec(data).len(),
    ensures
        qam_decode_spec(qam_encode_spec(data).take(m)) is None,
{
    let enc = qam_encode_spec(data);
    let t = enc.take(m);
    if m < 128 {
    } else {
        let hbits_t = Seq::new(32, |i: int| header_bit(t, 31 - i));
        let hbits_e = Seq::new(32, |i: int| header_bit(enc, 31 - i));
        assert(hbits_t =~= hbits_e) by {
            assert forall|i: int| 0 <= i < 32 implies hbits_t[i] == hbits_e[i] by {
                let bi = 31 - i;
                assert(t[4 * bi] == enc[4 * bi]);
                assert(t[4 * bi + 2] == enc[4 * bi + 2]);
            }
        }
        assert(qam_header_len(t) == qam_header_len(enc));
        let len: u32 = data.len() as u32;
        let hdr = qam_header_samples(len);
        let hbits = Seq::new(32, |i: int| header_bit(enc, 31 - i));
        assert(hbits =~= width_bits(len as nat, 32)) by {
            assert forall|i: int| 0 <= i < 32 implies hbits[i] == width_bits(
                len as nat,
                32,
            )[i] by {
                let bi = 31 - i;
                assert(enc[4 * bi] == hdr[4 * bi]);
                assert(enc[4 * bi + 2] == hdr[4 * bi + 2]);
                assert((4 * bi) / 4 == bi);
                assert((4 * bi + 2) / 4 == bi);
            }
        }
        assert(pow2(32) == 0x1_0000_0000) by {
            vstd::arithmetic::power2::lemma2_to64();
        }
        lemma_bits_val_of_width_bits(len as nat, 32);
        assert(qam_header_len(t) == data.len());
        assert(t.len() < 128 + 8 * qam_header_len(t));
    }
}

/// What the audio container parser reads out of a buffer: the signed
/// 8-bit samples of a well-formed WAV file in order, or nothing for a
/// malformed one.  Parsing is a pure function of the bytes, so its result
/// can be named.
pub uninterp spec fn wav_samples(bytes: Seq<u8>) -> Option<Seq<i8>>;

/// Relies on hound's WavWriter: writing each sample in order into a
/// 2-channel 8 kHz 8-bit integer container and finalizing yields a file
/// that reads back as exactly those samples, and writing to an in-memory
/// cursor cannot fail.  The loop only moves each sample into the
/// container.  hound counts data bytes in 32 bits (one byte per 8-bit
/// sample) and the RIFF size fields add at most 68 bytes of header, so
/// the sample count is bounded to keep both within range.
#[verifier::external_body]
fn wav_write_raw(samples: &Vec<i8>) -> (r: Result<Vec<u8>, String>)
    requires
        samples@.len() + 68 <= 0xFFFF_FFFF,
    ensures
        r is Ok,
        r matches Ok(out) ==> wav_samples(out@) == Some(samples@),
{
    let spec = hound::WavSpec {
        channels: 2,
        sample_rate: 8000,
        bits_per_sample: 8,
        sample_format: hound::SampleFormat::Int,
    };
    let mut cursor = std::io::Cursor::new(Vec::new());
    let mut writer = hound::WavWriter::new(&mut cursor, spec).map_err(|e| e.to_string())?;
    for s in samples.iter() {
        writer.write_sample(*s).map_err(|e| e.to_string())?;
    }
    writer.finalize().map_err(|e| e.to_string())?;
    Ok(cursor.into_inner())
}

/// Relies on hound's WavReader: reading a well-formed container yields
/// its samples in order, and a malformed one is rejected.
#[verifier::external_body]
fn wav_read_raw(data: &[u8]) -> (r: Result<Vec<i8>, String>)
    ensures
        match wav_samples(data@) {
            Some(s) => r matches Ok(o) && o@ == s,
            None => r is Err,
        },
{
    let mut reader = hound::WavReader::new(std::io::Cursor::new(data)).map_err(|e| e.to_string())?;
    let samples: Result<Vec<i8>, hound::Error> = reader.samples::<i8>().collect();
    samples.map_err(|e| e.to_string())
}

/// The audio stage.
#[derive(Debug)]
pub struct WavTransform;

impl WavTransform {
    /// Modulates the payload into its waveform and writes it as a WAV
    /// container: always succeeds for a payload whose waveform the
    /// container's 32-bit size fields can hold, and reading the bytes
    /// back yields the payload's waveform.
    pub fn encode(&self, data: Vec<u8>) -> (r: Result<Vec<u8>, PipelineError>)
        requires
            128 + 8 * data@.len() + 68 <= 0xFFFF_FFFF,
        ensures
            r is Ok,
            r matches Ok(out) ==> wav_samples(out@) == Some(qam_encode_spec(data@)),
    {
        proof {
            lemma_qam_sample_count(data@);
        }
        let samples = qam_encode_samples(&data);
        let written = wav_write_raw(&samples);
        proof {
            assert(written is Ok);
        }
        match written {
            Ok(v) => Ok(v),
            Err(m) => Err(PipelineError::Wav(WavError::Container(m))),
        }
    }

    /// Reads the WAV container and demodulates its samples back to the
    /// payload.  A malformed container is rejected by the reader; a
    /// truncated waveform fails with the sample shortfall.
    pub fn decode(&self, data: Vec<u8>) -> (r: Result<Vec<u8>, PipelineError>)
        ensures
            match wav_samples(data@) {
                Option::None => r matches Err(e) && e matches PipelineError::Wav(_),
                Option::Some(s) => match qam_decode_spec(s) {
                    Option::Some(p) => r matches Ok(out) && out@ == p,
                    Option::None => r matches Err(e) && e matches PipelineError::Wav(
                        WavError::TooFewSamples { .. },
                    ),
                },
            },
    {
        let samples = match wav_read_raw(data.as_slice()) {
            Ok(s) => s,
            Err(m) => {
                return Err(PipelineError::Wav(WavError::Container(m)));
            },
        };
        match qam_decode_samples(&samples) {
            Ok(v) => Ok(v),
            Err(e) => Err(PipelineError::Wav(e)),
        }
    }

    /// The stage's display name.
    pub fn name(&self) -> (r: &'static str)
        ensures
            r@ == "WAV Audio"@,
    {
        "WAV Audio"
    }

    /// The stage's file extension for intermediate artifacts.
    pub fn extension(&self) -> (r: &'static str)
        ensures
            r@ == "wav"@,
    {
        "wav"
    }
}

} // verus!
