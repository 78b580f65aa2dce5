//! The Unicode steganographic codec: packs a byte stream into codepoints
//! drawn from four disjoint Unicode blocks, where the choice of block itself
//! carries 2 bits of payload and the offset within the block carries the
//! rest.  A 3-codepoint CJK header holds the total byte length (14 bits per
//! codepoint, least significant chunk first).
use crate::bits::{
    bit_at, bits_val, byte_bits, bytes_bits, bytes_of_bits, pad_bits, width_bits, BitQueue,
    lemma_bits_val_bound, lemma_bits_val_of_width_bits, lemma_bytes_bits_append,
    lemma_bytes_bits_len, lemma_bytes_of_bits_of_bytes, lemma_width_bits_of_bits_val,
};
use crate::error::{PipelineError, UnicodeError};
use crate::utf8;
use crate::utf8::chars_of;
use vstd::arithmetic::power2::pow2;
use vstd::prelude::*;
use vstd::utf8::{decode_utf8, encode_utf8, is_scalar, valid_utf8};

verus! {

/// One of the four Unicode blocks the body encoder draws from.  The block
/// choice itself encodes a 2-bit mode value.
#[derive(Clone, Copy, Debug, PartialEq, Eq, Structural)]
pub enum EncodeMode {
    /// Invisible variation selectors; mode value 0.
    Invisible,
    /// CJK ideographs; mode value 1.
    Cjk,
    /// Emoji; mode value 2.
    Emoji,
    /// Mathematical alphanumeric symbols; mode value 3.
    Alphanum,
}

impl EncodeMode {
    /// Base codepoint of the block.
    pub open spec fn base_spec(self) -> u32 {
        match self {
            EncodeMode::Invisible => 0xE0100,
            EncodeMode::Cjk => 0x4E00,
            EncodeMode::Emoji => 0x1F600,
            EncodeMode::Alphanum => 0x1D400,
        }
    }

    /// Number of payload bits one codepoint of the block carries.
    pub open spec fn depth_spec(self) -> nat {
        match self {
            EncodeMode::Invisible => 7,
            EncodeMode::Cjk => 14,
            EncodeMode::Emoji => 6,
            EncodeMode::Alphanum => 10,
        }
    }

    /// The mode selected by a 2-bit value.
    pub open spec fn from_bits_spec(bits: u8) -> EncodeMode {
        if bits & 0b11 == 0b00 {
            EncodeMode::Invisible
        } else if bits & 0b11 == 0b01 {
            EncodeMode::Cjk
        } else if bits & 0b11 == 0b10 {
            EncodeMode::Emoji
        } else {
            EncodeMode::Alphanum
        }
    }

    /// Returns the block's (base codepoint, payload bit count).
    pub fn config(&self) -> (r: (u32, u32))
        ensures
            r.0 == self.base_spec(),
            r.1 as nat == self.depth_spec(),
    {
        match self {
            EncodeMode::Invisible => (0xE0100, 7),
            EncodeMode::Cjk => (0x4E00, 14),
            EncodeMode::Emoji => (0x1F600, 6),
            EncodeMode::Alphanum => (0x1D400, 10),
        }
    }

    /// Maps a 2-bit value to its mode.
    pub fn from_bits(bits: u8) -> (r: Self)
        ensures
            r == Self::from_bits_spec(bits),
    {
        let sel = bits & 0b11;
        if sel == 0b00 {
            EncodeMode::Invisible
        } else if sel == 0b01 {
            EncodeMode::Cjk
        } else if sel == 0b10 {
            EncodeMode::Emoji
        } else {
            EncodeMode::Alphanum
        }
    }
}

/// The mode selected by two mode bits, most significant first.
pub open spec fn mode_of_bits2(b0: bool, b1: bool) -> EncodeMode {
    if !b0 && !b1 {
        EncodeMode::Invisible
    } else if !b0 && b1 {
        EncodeMode::Cjk
    } else if b0 && !b1 {
        EncodeMode::Emoji
    } else {
        EncodeMode::Alphanum
    }
}

/// The two mode bits of a mode, most significant first.
pub open spec fn mode_bits2(m: EncodeMode) -> Seq<bool> {
    match m {
        EncodeMode::Invisible => seq![false, false],
        EncodeMode::Cjk => seq![false, true],
        EncodeMode::Emoji => seq![true, false],
        EncodeMode::Alphanum => seq![true, true],
    }
}

/// The mode that governs the next body symbol: selected by the first two
/// bits of the remaining stream, zero-padded if fewer remain.
pub open spec fn chunk_mode(s: Seq<bool>) -> EncodeMode {
    let p = pad_bits(s, 2);
    mode_of_bits2(p[0], p[1])
}

/// The bits of the remaining stream after the two mode bits.
pub open spec fn chunk_rest(s: Seq<bool>) -> Seq<bool> {
    if s.len() <= 2 {
        Seq::empty()
    } else {
        s.skip(2)
    }
}

/// The payload value of the next body symbol: the next `depth` bits after
/// the mode bits, zero-padded at the tail.
pub open spec fn chunk_payload(s: Seq<bool>) -> nat {
    bits_val(pad_bits(chunk_rest(s), chunk_mode(s).depth_spec()))
}

/// How many bits of the remaining stream the next body symbol consumes.
pub open spec fn chunk_width(s: Seq<bool>) -> int {
    vstd::math::min(s.len() as int, 2 + chunk_mode(s).depth_spec() as int)
}

/// The next body symbol: the mode's base codepoint plus the payload value.
pub open spec fn chunk_symbol(s: Seq<bool>) -> u32 {
    (chunk_mode(s).base_spec() + chunk_payload(s)) as u32
}

/// All body symbols produced from a bit stream, in order.
pub open spec fn body_symbols(s: Seq<bool>) -> Seq<u32>
    decreases s.len(),
{
    if s.len() == 0 {
        Seq::empty()
    } else {
        seq![chunk_symbol(s)] + body_symbols(s.skip(chunk_width(s)))
    }
}

/// Header codepoint `i`: the CJK base plus 14-bit chunk `i` of the length,
/// least significant chunk first.
pub open spec fn header_chunk(len: u64, i: u64) -> u32 {
    (0x4E00 + ((len >> (14u64 * i)) & 0x3FFF)) as u32
}

/// The three header codepoints carrying the total byte length.
pub open spec fn header_symbols(len: u64) -> Seq<u32> {
    seq![header_chunk(len, 0), header_chunk(len, 1), header_chunk(len, 2)]
}

/// Every codepoint the encoder emits for a payload: header, then body.
pub open spec fn unicode_symbols(data: Seq<u8>) -> Seq<u32> {
    header_symbols(data.len() as u64) + body_symbols(bytes_bits(data))
}

/// What the Unicode stage emits for a payload: the UTF-8 encoding of its
/// codepoint sequence.
pub open spec fn unicode_encode_spec(data: Seq<u8>) -> Seq<u8> {
    encode_utf8(chars_of(unicode_symbols(data)))
}

/// Which block a received codepoint falls in, if any.  The four ranges are
/// pairwise disjoint; a codepoint outside all four is skipped by the
/// decoder.
pub open spec fn classify(cp: u32) -> Option<EncodeMode> {
    if 0x4E00 <= cp && cp <= 0x9FFF {
        Some(EncodeMode::Cjk)
    } else if 0x1F600 <= cp && cp <= 0x1F63F {
        Some(EncodeMode::Emoji)
    } else if 0xE0100 <= cp && cp <= 0xE01EF {
        Some(EncodeMode::Invisible)
    } else if 0x1D400 <= cp && cp <= 0x1D7FF {
        Some(EncodeMode::Alphanum)
    } else {
        None
    }
}

/// In how many of the four blocks a codepoint lies.
pub open spec fn range_count(cp: u32) -> int {
    (if 0x4E00 <= cp && cp <= 0x9FFF {
        1int
    } else {
        0int
    }) + (if 0x1F600 <= cp && cp <= 0x1F63F {
        1int
    } else {
        0int
    }) + (if 0xE0100 <= cp && cp <= 0xE01EF {
        1int
    } else {
        0int
    }) + (if 0x1D400 <= cp && cp <= 0x1D7FF {
        1int
    } else {
        0int
    })
}

/// The bits a received codepoint contributes to the decoded stream: its
/// block's 2-bit mode value followed by its offset in the block, most
/// significant first.  A codepoint outside all blocks contributes nothing.
pub open spec fn symbol_bits(cp: u32) -> Seq<bool> {
    match classify(cp) {
        Option::None => Seq::empty(),
        Option::Some(m) => mode_bits2(m) + width_bits((cp - m.base_spec()) as nat, m.depth_spec()),
    }
}

/// The bit stream recovered from a sequence of received codepoints.
pub open spec fn stream_bits(cps: Seq<u32>) -> Seq<bool>
    decreases cps.len(),
{
    if cps.len() == 0 {
        Seq::empty()
    } else {
        symbol_bits(cps[0]) + stream_bits(cps.drop_first())
    }
}

/// The length recovered from the three header codepoints.
pub open spec fn header_len_of(cps: Seq<u32>) -> u64
    recommends
        cps.len() >= 3,
        forall|i: int| 0 <= i < 3 ==> cps[i] >= 0x4E00,
{
    ((cps[0] - 0x4E00) as u64) | (((cps[1] - 0x4E00) as u64) << 14u64) | (((cps[2]
        - 0x4E00) as u64) << 28u64)
}

/// What the Unicode stage recovers from a buffer, or `None` when it must
/// reject it: invalid UTF-8, a missing or malformed header, or fewer
/// decodable body bytes than the header declares.
pub open spec fn unicode_decode_spec(bytes: Seq<u8>) -> Option<Seq<u8>> {
    if !valid_utf8(bytes) {
        Option::None
    } else {
        let cps = decode_utf8(bytes).map_values(|c: char| c as u32);
        if cps.len() < 3 {
            Option::None
        } else if cps[0] < 0x4E00 || cps[1] < 0x4E00 || cps[2] < 0x4E00 {
            Option::None
        } else {
            let total = header_len_of(cps);
            let body = stream_bits(cps.skip(3));
            if body.len() >= 8 * total {
                Option::Some(bytes_of_bits(body.take(8 * total as int)))
            } else {
                Option::None
            }
        }
    }
}

/// Splitting a zero-padded read into two consecutive zero-padded reads.
proof fn lemma_pad_bits_split(s: Seq<bool>, a: nat, b: nat)
    ensures
        pad_bits(s, a) + pad_bits(
            if s.len() <= a {
                Seq::empty()
            } else {
                s.skip(a as int)
            },
            b,
        ) == pad_bits(s, a + b),
{
    let rest: Seq<bool> = if s.len() <= a {
        Seq::empty()
    } else {
        s.skip(a as int)
    };
    let lhs = pad_bits(s, a) + pad_bits(rest, b);
    let rhs = pad_bits(s, a + b);
    assert(lhs.len() == a + b);
    assert forall|i: int| 0 <= i < a + b implies lhs[i] == rhs[i] by {
        if i < a {
        } else {
        }
    }
    assert(lhs =~= rhs);
}

/// The value of a two-bit mode prefix.
proof fn lemma_bits_val_pair(p: Seq<bool>)
    requires
        p.len() == 2,
    ensures
        bits_val(p) == (if p[0] {
            2nat
        } else {
            0nat
        }) + (if p[1] {
            1nat
        } else {
            0nat
        }),
{
    assert(bits_val(Seq::<bool>::empty()) == 0);
    assert(bits_val(seq![p[0]]) == (if p[0] {
        1nat
    } else {
        0nat
    })) by {
        assert(seq![p[0]].drop_last() =~= Seq::<bool>::empty());
        assert(seq![p[0]].last() == p[0]);
    }
    assert(p.drop_last() =~= seq![p[0]]);
    assert(p.last() == p[1]);
    assert(bits_val(p) == bits_val(seq![p[0]]) * 2 + (if p[1] {
        1nat
    } else {
        0nat
    }));
}

/// The mode bits of the mode selected by two bits are those two bits.
proof fn lemma_mode_bits2_of(b0: bool, b1: bool)
    ensures
        mode_bits2(mode_of_bits2(b0, b1)) == seq![b0, b1],
{
    assert(mode_bits2(mode_of_bits2(b0, b1)) =~= seq![b0, b1]);
}

/// Selecting a mode from the numeric value of two mode bits agrees with
/// selecting it from the bits themselves.
proof fn lemma_from_bits_val(p: Seq<bool>)
    requires
        p.len() == 2,
    ensures
        bits_val(p) < 4,
        EncodeMode::from_bits_spec(bits_val(p) as u8) == mode_of_bits2(p[0], p[1]),
{
    lemma_bits_val_pair(p);
    assert(0u8 & 0b11 == 0 && 1u8 & 0b11 == 1 && 2u8 & 0b11 == 2 && 3u8 & 0b11 == 3)
        by (bit_vector);
}

/// Numeric facts about the four payload depths.
proof fn lemma_depth_pow2(m: EncodeMode)
    ensures
        pow2(m.depth_spec()) <= 0x4000,
        m.depth_spec() == 6 ==> pow2(m.depth_spec()) == 0x40,
        m.depth_spec() == 7 ==> pow2(m.depth_spec()) == 0x80,
        m.depth_spec() == 10 ==> pow2(m.depth_spec()) == 0x400,
        m.depth_spec() == 14 ==> pow2(m.depth_spec()) == 0x4000,
{
    vstd::arithmetic::power2::lemma2_to64();
}

/// The body symbol of a non-empty stream lies in its mode's block, lies in
/// no other block, and is a Unicode scalar.
pub proof fn lemma_chunk_symbol_classified(s: Seq<bool>)
    requires
        s.len() > 0,
    ensures
        classify(chunk_symbol(s)) == Some(chunk_mode(s)),
        range_count(chunk_symbol(s)) == 1,
        is_scalar(chunk_symbol(s)),
{
    let m = chunk_mode(s);
    let p = pad_bits(chunk_rest(s), m.depth_spec());
    assert(p.len() == m.depth_spec());
    lemma_bits_val_bound(p);
    lemma_depth_pow2(m);
}

/// The bits the decoder recovers from a body symbol are exactly the bits
/// the encoder consumed to produce it, zero-padded at the tail.
pub proof fn lemma_symbol_bits_of_chunk(s: Seq<bool>)
    requires
        s.len() > 0,
    ensures
        symbol_bits(chunk_symbol(s)) == pad_bits(s, 2 + chunk_mode(s).depth_spec()),
{
    let m = chunk_mode(s);
    let d = m.depth_spec();
    let mp = pad_bits(s, 2);
    let p = pad_bits(chunk_rest(s), d);
    lemma_chunk_symbol_classified(s);
    assert(classify(chunk_symbol(s)) == Some(m));
    lemma_bits_val_bound(p);
    lemma_depth_pow2(m);
    assert((chunk_symbol(s) - m.base_spec()) as nat == chunk_payload(s));
    assert(width_bits(chunk_payload(s), d) == p) by {
        assert(p.len() == d);
        lemma_width_bits_of_bits_val(p);
    }
    assert(mode_bits2(m) == mp) by {
        lemma_mode_bits2_of(mp[0], mp[1]);
        assert(mp.len() == 2);
        assert(seq![mp[0], mp[1]] =~= mp);
    }
    lemma_pad_bits_split(s, 2, d);
    assert(chunk_rest(s) == (if s.len() <= 2 {
        Seq::<bool>::empty()
    } else {
        s.skip(2)
    }));
}

/// The decoder's recovered bit stream for the whole body extends the bit
/// stream the encoder consumed, adding only zero padding.
pub proof fn lemma_stream_of_body(bits: Seq<bool>)
    ensures
        stream_bits(body_symbols(bits)).len() >= bits.len(),
        stream_bits(body_symbols(bits)).take(bits.len() as int) == bits,
    decreases bits.len(),
{
    if bits.len() == 0 {
        assert(body_symbols(bits) =~= Seq::<u32>::empty());
        assert(stream_bits(body_symbols(bits)).take(0) =~= bits);
    } else {
        let syms = body_symbols(bits);
        let w = chunk_width(bits);
        let tail_syms = body_symbols(bits.skip(w));
        assert(syms == seq![chunk_symbol(bits)] + tail_syms);
        assert(syms[0] == chunk_symbol(bits));
        assert(syms.drop_first() =~= tail_syms);
        assert(stream_bits(syms) == symbol_bits(chunk_symbol(bits)) + stream_bits(tail_syms));
        lemma_symbol_bits_of_chunk(bits);
        let d = chunk_mode(bits).depth_spec();
        let pad = pad_bits(bits, 2 + d);
        if bits.len() >= 2 + d {
            assert(w == 2 + d);
            assert(pad == bits.take(w));
            lemma_stream_of_body(bits.skip(w));
            let tail_stream = stream_bits(tail_syms);
            assert(tail_stream.take(bits.len() - w) == bits.skip(w));
            assert(stream_bits(syms).take(bits.len() as int) =~= bits) by {
                assert forall|i: int| 0 <= i < bits.len() implies stream_bits(syms)[i]
                    == bits[i] by {
                    if i < w {
                        assert(stream_bits(syms)[i] == pad[i]);
                        assert(pad[i] == bits.take(w)[i]);
                    } else {
                        assert(stream_bits(syms)[i] == tail_stream[i - w]);
                        assert(tail_stream[i - w] == tail_stream.take(bits.len() - w)[i - w]);
                        assert(bits.skip(w)[i - w] == bits[i]);
                    }
                }
            }
        } else {
            assert(w == bits.len());
            assert(bits.skip(w) =~= Seq::<bool>::empty());
            assert(tail_syms =~= Seq::<u32>::empty());
            assert(stream_bits(tail_syms) =~= Seq::<bool>::empty());
            assert(stream_bits(syms) =~= pad);
            assert(pad.len() == 2 + d >= bits.len());
            assert(stream_bits(syms).take(bits.len() as int) =~= bits) by {
                assert forall|i: int| 0 <= i < bits.len() implies pad[i] == bits[i] by {}
            }
        }
    }
}

/// Every codepoint the body encoder emits lies in exactly one of the four
/// blocks, and the decoder's classification of it recovers the mode that
/// produced it.
pub proof fn lemma_body_symbols_classified(bits: Seq<bool>)
    ensures
        forall|i: int|
            0 <= i < body_symbols(bits).len() ==> #[trigger] range_count(body_symbols(bits)[i])
                == 1 && classify(body_symbols(bits)[i]) is Some && is_scalar(
                body_symbols(bits)[i],
            ),
    decreases bits.len(),
{
    if bits.len() > 0 {
        let w = chunk_width(bits);
        lemma_chunk_symbol_classified(bits);
        lemma_body_symbols_classified(bits.skip(w));
        let syms = body_symbols(bits);
        let tail_syms = body_symbols(bits.skip(w));
        assert forall|i: int|
            0 <= i < syms.len() implies #[trigger] range_count(syms[i]) == 1 && classify(syms[i])
            is Some && is_scalar(syms[i]) by {
            if i == 0 {
                assert(syms[0] == chunk_symbol(bits));
            } else {
                assert(syms[i] == tail_syms[i - 1]);
                assert(range_count(tail_syms[i - 1]) == 1);
            }
        }
    }
}

/// The three header codepoints of a length below two to the 42nd lie in
/// the CJK block and decode back to exactly that length.
pub proof fn lemma_header_round_trip(len: u64)
    requires
        len < 0x400_0000_0000,
    ensures
        forall|i: int|
            0 <= i < 3 ==> 0x4E00 <= #[trigger] header_symbols(len)[i] && header_symbols(len)[i]
                <= 0x8DFF,
        header_len_of(header_symbols(len)) == len,
        forall|i: int| 0 <= i < 3 ==> is_scalar(#[trigger] header_symbols(len)[i]),
{
    let c0 = (len >> 0u64) & 0x3FFF;
    let c1 = (len >> 14u64) & 0x3FFF;
    let c2 = (len >> 28u64) & 0x3FFF;
    assert(c0 <= 0x3FFF && c1 <= 0x3FFF && c2 <= 0x3FFF && (len >> (14u64 * 0)) & 0x3FFF == c0
        && (len >> (14u64 * 1)) & 0x3FFF == c1 && (len >> (14u64 * 2)) & 0x3FFF == c2 && (c0 | (
    c1 << 14u64) | (c2 << 28u64)) == len) by (bit_vector)
        requires
            len < 0x400_0000_0000,
            c0 == (len >> 0u64) & 0x3FFF,
            c1 == (len >> 14u64) & 0x3FFF,
            c2 == (len >> 28u64) & 0x3FFF,
    ;
    let h = header_symbols(len);
    assert(h[0] == (0x4E00 + c0) as u32);
    assert(h[1] == (0x4E00 + c1) as u32);
    assert(h[2] == (0x4E00 + c2) as u32);
    assert(((h[0] - 0x4E00) as u64) == c0);
    assert(((h[1] - 0x4E00) as u64) == c1);
    assert(((h[2] - 0x4E00) as u64) == c2);
}

/// The Unicode steganographic stage.
#[derive(Debug)]
pub struct UnicodeTransform;

impl UnicodeTransform {
    /// Packs a byte payload into the UTF-8 encoding of a codepoint
    /// sequence: a 3-codepoint length header, then one codepoint per
    /// mode-selected payload chunk.
    #[verifier::rlimit(100)]
    pub fn encode(&self, data: Vec<u8>) -> (r: Result<Vec<u8>, PipelineError>)
        requires
            data@.len() < 0x400_0000_0000,
        ensures
            r is Ok,
            r matches Ok(out) ==> out@ == unicode_encode_spec(data@),
    {
        let len64: u64 = data.len() as u64;
        let ghost all_bits = bytes_bits(data@);
        let mut syms: Vec<u32> = Vec::new();
        let c0: u64 = (len64 >> (14u64 * 0)) & 0x3FFF;
        let c1: u64 = (len64 >> (14u64 * 1)) & 0x3FFF;
        let c2: u64 = (len64 >> (14u64 * 2)) & 0x3FFF;
        proof {
            assert(c0 <= 0x3FFF && c1 <= 0x3FFF && c2 <= 0x3FFF) by (bit_vector)
                requires
                    c0 == (len64 >> (14u64 * 0)) & 0x3FFF,
                    c1 == (len64 >> (14u64 * 1)) & 0x3FFF,
                    c2 == (len64 >> (14u64 * 2)) & 0x3FFF,
            ;
        }
        syms.push((0x4E00 + c0) as u32);
        syms.push((0x4E00 + c1) as u32);
        syms.push((0x4E00 + c2) as u32);
        proof {
            assert(syms@ =~= header_symbols(len64));
            lemma_header_round_trip(len64);
            assert(data@.skip(0) =~= data@);
            assert(Seq::<bool>::empty() + all_bits =~= all_bits);
            assert(syms@.skip(3) =~= Seq::<u32>::empty());
            assert(Seq::<u32>::empty() + body_symbols(all_bits) =~= body_symbols(all_bits));
        }
        let mut q = BitQueue::new();
        let mut idx: usize = 0;
        while idx < data.len() || q.len() > 0
            invariant
                idx <= data@.len(),
                data@.len() < 0x400_0000_0000,
                len64 == data@.len(),
                all_bits == bytes_bits(data@),
                q@.len() <= 25,
                syms@.len() >= 3,
                syms@.take(3) == header_symbols(len64),
                body_symbols(all_bits) == syms@.skip(3) + body_symbols(
                    q@ + bytes_bits(data@.skip(idx as int)),
                ),
                forall|i: int| 0 <= i < syms@.len() ==> is_scalar(#[trigger] syms@[i]),
            decreases 8 * (data@.len() - idx) + q@.len(),
        {
            let ghost stream0 = q@ + bytes_bits(data@.skip(idx as int));
            proof {
                lemma_bytes_bits_len(data@.skip(idx as int));
                assert(stream0.len() == q@.len() + 8 * (data@.len() - idx));
            }
            // Keep at least 18 bits buffered while input remains, so that a
            // whole mode-plus-payload chunk can be taken without padding.
            while q.len() < 18 && idx < data.len()
                invariant
                    idx <= data@.len(),
                    q@.len() <= 25,
                    q@ + bytes_bits(data@.skip(idx as int)) == stream0,
                    q@.len() + 8 * (data@.len() - idx) == stream0.len(),
                decreases data@.len() - idx,
            {
                let b = data[idx];
                proof {
                    assert(data@.skip(idx as int).drop_first() =~= data@.skip(idx as int + 1));
                    assert(data@.skip(idx as int)[0] == data@[idx as int]);
                    assert((q@ + byte_bits(b)) + bytes_bits(data@.skip(idx as int + 1)) =~= q@
                        + bytes_bits(data@.skip(idx as int)));
                }
                q.push_byte(b);
                idx = idx + 1;
                proof {
                    lemma_bytes_bits_len(data@.skip(idx as int));
                }
            }
            let ghost s = q@ + bytes_bits(data@.skip(idx as int));
            proof {
                if idx == data@.len() {
                    assert(data@.skip(idx as int) =~= Seq::<u8>::empty());
                    assert(bytes_bits(data@.skip(idx as int)) =~= Seq::<bool>::empty());
                    assert(s =~= q@);
                } else {
                    assert(q@.len() >= 18);
                    lemma_bytes_bits_len(data@.skip(idx as int));
                }
                assert(s.len() > 0);
            }
            let ghost q0 = q@;
            let m_val: u64 = q.pop_pad(2);
            proof {
                let mp = pad_bits(s, 2);
                assert(pad_bits(q0, 2) =~= mp) by {
                    if q0.len() >= 2 {
                        assert(pad_bits(q0, 2) =~= s.take(2));
                    }
                }
                lemma_from_bits_val(mp);
            }
            let mode = EncodeMode::from_bits(m_val as u8);
            let (base, depth) = mode.config();
            proof {
                assert(mode == chunk_mode(s));
            }
            let ghost q1 = q@;
            let payload: u64 = q.pop_pad(depth as usize);
            let ghost d = mode.depth_spec();
            proof {
                let rest = chunk_rest(s);
                assert(pad_bits(q1, d) =~= pad_bits(rest, d)) by {
                    if q0.len() >= 2 {
                        assert(q1 =~= q0.skip(2));
                        if idx < data@.len() {
                            // q0 is an 18-bit-or-longer prefix of s.
                            assert(q1.len() >= 16 >= d);
                            assert(pad_bits(q1, d) =~= q1.take(d as int));
                            assert(pad_bits(rest, d) =~= rest.take(d as int));
                            assert forall|i: int| 0 <= i < d implies q1[i] == rest[i] by {
                                assert(q1[i] == q0[i + 2]);
                                assert(rest[i] == s[i + 2]);
                                assert(s[i + 2] == q0[i + 2]);
                            }
                        } else {
                            assert(q1 =~= rest);
                        }
                    } else {
                        // The whole stream fit in under two bits.
                        assert(s =~= q0);
                        assert(q1 =~= Seq::<bool>::empty());
                        assert(rest =~= Seq::<bool>::empty());
                    }
                }
                assert(payload == chunk_payload(s));
                lemma_bits_val_bound(pad_bits(rest, d));
                lemma_depth_pow2(mode);
            }
            let cp: u32 = base + payload as u32;
            proof {
                assert(cp == chunk_symbol(s));
                lemma_chunk_symbol_classified(s);
                // The queue advanced by exactly the chunk width.
                let w = chunk_width(s);
                assert(q@ + bytes_bits(data@.skip(idx as int)) =~= s.skip(w)) by {
                    if idx == data@.len() {
                        assert(bytes_bits(data@.skip(idx as int)) =~= Seq::<bool>::empty());
                        assert(s =~= q0);
                        assert(q@ =~= q0.skip(
                            vstd::math::min(2, q0.len() as int),
                        ).skip(
                            vstd::math::min(
                                d as int,
                                q0.skip(vstd::math::min(2, q0.len() as int)).len() as int,
                            ),
                        ));
                        assert(q@ + bytes_bits(data@.skip(idx as int)) =~= q@);
                        assert(q@ =~= s.skip(w));
                    } else {
                        assert(q0.len() >= 18);
                        assert(q@ =~= q0.skip(2 + d as int));
                        assert(w == 2 + d);
                        assert forall|i: int| 0 <= i < s.skip(w).len() implies s.skip(w)[i] == (q@
                            + bytes_bits(data@.skip(idx as int)))[i] by {
                            if i < q@.len() {
                                assert(q@[i] == q0[i + w]);
                                assert(s[i + w] == q0[i + w]);
                            } else {
                                assert(s[i + w] == bytes_bits(data@.skip(idx as int))[i + w
                                    - q0.len()]);
                            }
                        }
                    }
                }
                // One more emitted symbol keeps the global bookkeeping.
                assert(body_symbols(s) == seq![cp] + body_symbols(s.skip(w)));
                assert(syms@.push(cp).skip(3) =~= syms@.skip(3) + seq![cp]);
                assert(syms@.push(cp).take(3) =~= syms@.take(3));
                assert((syms@.skip(3) + seq![cp]) + body_symbols(s.skip(w)) =~= syms@.skip(3)
                    + body_symbols(s));
            }
            proof {
                // The loop measure shrinks by the chunk width.
                assert(chunk_width(s) >= 1);
                lemma_bytes_bits_len(data@.skip(idx as int));
                assert(q@.len() + 8 * (data@.len() - idx) == s.len() - chunk_width(s));
                assert(s.len() == stream0.len());
            }
            syms.push(cp);
        }
        proof {
            assert(data@.skip(idx as int) =~= Seq::<u8>::empty());
            assert(bytes_bits(data@.skip(idx as int)) =~= Seq::<bool>::empty());
            assert(q@ + Seq::<bool>::empty() =~= Seq::<bool>::empty());
            assert(body_symbols(Seq::<bool>::empty()) =~= Seq::<u32>::empty());
            assert(syms@.skip(3) + Seq::<u32>::empty() =~= syms@.skip(3));
            assert(syms@ =~= syms@.take(3) + syms@.skip(3));
            assert(syms@ =~= unicode_symbols(data@));
        }
        let out = utf8::encode_scalars(&syms);
        Ok(out)
    }
}

/// Recovering a bit stream one received codepoint at a time appends that
/// codepoint's bits.
proof fn lemma_stream_bits_snoc(cps: Seq<u32>, cp: u32)
    ensures
        stream_bits(cps.push(cp)) == stream_bits(cps) + symbol_bits(cp),
    decreases cps.len(),
{
    if cps.len() == 0 {
        assert(cps.push(cp)[0] == cp);
        assert(cps.push(cp).drop_first() =~= Seq::<u32>::empty());
        assert(stream_bits(Seq::<u32>::empty()) =~= Seq::<bool>::empty());
        assert(symbol_bits(cp) + Seq::<bool>::empty() =~= symbol_bits(cp));
        assert(stream_bits(cps.push(cp)) =~= symbol_bits(cp));
        assert(stream_bits(cps) + symbol_bits(cp) =~= symbol_bits(cp));
    } else {
        assert(cps.push(cp).drop_first() =~= cps.drop_first().push(cp));
        assert(cps.push(cp)[0] == cps[0]);
        lemma_stream_bits_snoc(cps.drop_first(), cp);
        assert(stream_bits(cps.push(cp)) =~= stream_bits(cps) + symbol_bits(cp));
    }
}

impl UnicodeTransform {
    /// Recovers the byte payload from the UTF-8 buffer a Unicode stage
    /// produced: reads the 3-codepoint length header, classifies each
    /// further codepoint by block (skipping codepoints outside all four),
    /// and reassembles the payload bits.  Rejects invalid UTF-8, a missing
    /// or malformed header, and a declared length the body cannot cover.
    #[verifier::rlimit(100)]
    pub fn decode(&self, data: Vec<u8>) -> (r: Result<Vec<u8>, PipelineError>)
        ensures
            match unicode_decode_spec(data@) {
                Option::Some(p) => r matches Ok(out) && out@ == p,
                Option::None => r matches Err(e) && e matches PipelineError::Unicode(_),
            },
            !valid_utf8(data@) ==> r == Err::<Vec<u8>, PipelineError>(
                PipelineError::Unicode(UnicodeError::InvalidUtf8),
            ),
            valid_utf8(data@) && decode_utf8(data@).len() < 3 ==> r == Err::<Vec<u8>, PipelineError>(
                PipelineError::Unicode(UnicodeError::MissingHeader),
            ),
            valid_utf8(data@) && decode_utf8(data@).len() >= 3 && ((decode_utf8(
                data@,
            )[0] as u32) < 0x4E00 || (decode_utf8(data@)[1] as u32) < 0x4E00 || (decode_utf8(
                data@,
            )[2] as u32) < 0x4E00) ==> r == Err::<Vec<u8>, PipelineError>(
                PipelineError::Unicode(UnicodeError::InvalidHeaderChar),
            ),
    {
        let cps = match utf8::decode_all(&data) {
            Option::None => {
                return Err(PipelineError::Unicode(UnicodeError::InvalidUtf8));
            },
            Option::Some(c) => c,
        };
        proof {
            let chars = decode_utf8(data@);
            assert(cps@ =~= chars.map_values(|c: char| c as u32)) by {
                assert(chars_of(cps@) == chars);
                assert forall|i: int| 0 <= i < cps@.len() implies cps@[i] == chars.map_values(
                    |c: char| c as u32,
                )[i] by {
                    assert(chars_of(cps@)[i] == cps@[i] as char);
                    assert(is_scalar(cps@[i]));
                }
            }
        }
        if cps.len() < 3 {
            return Err(PipelineError::Unicode(UnicodeError::MissingHeader));
        }
        let h0 = cps[0];
        let h1 = cps[1];
        let h2 = cps[2];
        if h0 < 0x4E00 || h1 < 0x4E00 || h2 < 0x4E00 {
            return Err(PipelineError::Unicode(UnicodeError::InvalidHeaderChar));
        }
        let total: u64 = ((h0 - 0x4E00) as u64) | (((h1 - 0x4E00) as u64) << 14u64) | (((h2
            - 0x4E00) as u64) << 28u64);
        proof {
            assert(total == header_len_of(cps@));
        }
        let mut q = BitQueue::new();
        let mut out: Vec<u8> = Vec::new();
        let mut i: usize = 3;
        proof {
            assert(cps@.skip(3).take(0) =~= Seq::<u32>::empty());
            assert(bytes_bits(out@) =~= Seq::<bool>::empty());
            assert(bytes_bits(out@) + q@ =~= stream_bits(cps@.skip(3).take(0)));
        }
        while i < cps.len()
            invariant
                3 <= i <= cps@.len(),
                bytes_bits(out@) + q@ == stream_bits(cps@.skip(3).take(i as int - 3)),
                out@.len() <= total,
                out@.len() < total ==> q@.len() < 8,
            decreases cps@.len() - i,
        {
            let cp = cps[i];
            let ghost done = cps@.skip(3).take(i as int - 3);
            proof {
                assert(cps@.skip(3).take(i as int + 1 - 3) =~= done.push(cp));
                lemma_stream_bits_snoc(done, cp);
            }
            // Classify the codepoint by block, mirroring the mode values the
            // encoder spends its first two chunk bits on.
            let ghost q_pre = q@;
            if 0x4E00 <= cp && cp <= 0x9FFF {
                q.push_low_bits(0b01, 2);
                q.push_low_bits((cp - 0x4E00) as u64, 14);
                proof {
                    lemma_width_bits_mode_vals();
                    assert(q@ =~= q_pre + symbol_bits(cp));
                }
            } else if 0x1F600 <= cp && cp <= 0x1F63F {
                q.push_low_bits(0b10, 2);
                q.push_low_bits((cp - 0x1F600) as u64, 6);
                proof {
                    lemma_width_bits_mode_vals();
                    assert(q@ =~= q_pre + symbol_bits(cp));
                }
            } else if 0xE0100 <= cp && cp <= 0xE01EF {
                q.push_low_bits(0b00, 2);
                q.push_low_bits((cp - 0xE0100) as u64, 7);
                proof {
                    lemma_width_bits_mode_vals();
                    assert(q@ =~= q_pre + symbol_bits(cp));
                }
            } else if 0x1D400 <= cp && cp <= 0x1D7FF {
                q.push_low_bits(0b11, 2);
                q.push_low_bits((cp - 0x1D400) as u64, 10);
                proof {
                    lemma_width_bits_mode_vals();
                    assert(q@ =~= q_pre + symbol_bits(cp));
                }
            } else {
                proof {
                    assert(symbol_bits(cp) =~= Seq::<bool>::empty());
                    assert(q@ =~= q_pre + symbol_bits(cp));
                }
            }
            proof {
                assert(bytes_bits(out@) + q@ =~= stream_bits(done) + symbol_bits(cp));
                assert(bytes_bits(out@) + q@ == stream_bits(cps@.skip(3).take(i as int + 1 - 3)));
            }
            let ghost cur = stream_bits(cps@.skip(3).take(i as int + 1 - 3));
            while q.len() >= 8 && (out.len() as u64) < total
                invariant
                    bytes_bits(out@) + q@ == cur,
                    out@.len() <= total,
                decreases q@.len(),
            {
                let ghost q_old = q@;
                let ghost out_old = out@;
                let b = q.pop_byte();
                proof {
                    assert(pow2(8) == 256) by {
                        vstd::arithmetic::power2::lemma2_to64();
                    }
                    lemma_bits_val_bound(q_old.take(8));
                    assert(b as nat == bits_val(q_old.take(8)));
                    lemma_width_bits_of_bits_val(q_old.take(8));
                    assert(byte_bits(b) == q_old.take(8));
                    lemma_bytes_bits_append(out_old, seq![b]);
                    assert(out_old.push(b) =~= out_old + seq![b]);
                    assert(bytes_bits(seq![b]) =~= byte_bits(b)) by {
                        assert(seq![b][0] == b);
                        assert(seq![b].drop_first() =~= Seq::<u8>::empty());
                        assert(bytes_bits(Seq::<u8>::empty()) =~= Seq::<bool>::empty());
                        assert(byte_bits(b) + Seq::<bool>::empty() =~= byte_bits(b));
                    }
                    assert(bytes_bits(out_old.push(b)) + q_old.skip(8) =~= (bytes_bits(out_old)
                        + q_old.take(8)) + q_old.skip(8));
                    assert((bytes_bits(out_old) + q_old.take(8)) + q_old.skip(8) =~= bytes_bits(
                        out_old,
                    ) + q_old);
                }
                out.push(b);
            }
            i = i + 1;
        }
        proof {
            assert(cps@.skip(3).take(cps@.len() as int - 3) =~= cps@.skip(3));
        }
        if (out.len() as u64) != total {
            proof {
                let body = stream_bits(cps@.skip(3));
                lemma_bytes_bits_len(out@);
                assert(body.len() == 8 * out@.len() + q@.len());
                assert(body.len() < 8 * total);
            }
            return Err(PipelineError::Unicode(UnicodeError::LengthMismatch));
        }
        proof {
            let body = stream_bits(cps@.skip(3));
            lemma_bytes_bits_len(out@);
            assert(body.len() >= 8 * total);
            assert(body.take(8 * total as int) =~= bytes_bits(out@));
            lemma_bytes_of_bits_of_bytes(out@);
        }
        Ok(out)
    }

    /// The stage's display name.
    pub fn name(&self) -> (r: &'static str)
        ensures
            r@ == "Unicode Encoding"@,
    {
        "Unicode Encoding"
    }

    /// The stage's file extension for intermediate artifacts.
    pub fn extension(&self) -> (r: &'static str)
        ensures
            r@ == "txt"@,
    {
        "txt"
    }
}

/// The bit spellings of the four 2-bit mode values.
proof fn lemma_width_bits_mode_vals()
    ensures
        width_bits(0nat, 2) == seq![false, false],
        width_bits(1nat, 2) == seq![false, true],
        width_bits(2nat, 2) == seq![true, false],
        width_bits(3nat, 2) == seq![true, true],
{
    vstd::arithmetic::power2::lemma2_to64();
    assert(pow2(0) == 1 && pow2(1) == 2);
    assert(bit_at(0nat, 1) == false && bit_at(0nat, 0) == false);
    assert(bit_at(1nat, 1) == false && bit_at(1nat, 0) == true) by {
        assert(1nat / 2 == 0 && 1nat / 1 == 1);
    }
    assert(bit_at(2nat, 1) == true && bit_at(2nat, 0) == false) by {
        assert(2nat / 2 == 1 && 2nat / 1 == 2);
    }
    assert(bit_at(3nat, 1) == true && bit_at(3nat, 0) == true) by {
        assert(3nat / 2 == 1 && 3nat / 1 == 3);
    }
    assert(width_bits(0nat, 2) =~= seq![false, false]);
    assert(width_bits(1nat, 2) =~= seq![false, true]);
    assert(width_bits(2nat, 2) =~= seq![true, false]);
    assert(width_bits(3nat, 2) =~= seq![true, true]);
}

/// The header of an encoded payload declares exactly the payload's length:
/// the first three emitted codepoints lie in the CJK block and decode back
/// to the byte count, for any length representable in 42 bits.
pub proof fn lemma_encoded_header_declares_length(data: Seq<u8>)
    requires
        data.len() < 0x400_0000_0000,
    ensures
        unicode_symbols(data).len() >= 3,
        forall|i: int|
            0 <= i < 3 ==> 0x4E00 <= #[trigger] unicode_symbols(data)[i] && unicode_symbols(
                data,
            )[i] <= 0x8DFF,
        header_len_of(unicode_symbols(data)) == data.len(),
{
    let len64 = data.len() as u64;
    lemma_header_round_trip(len64);
    let syms = unicode_symbols(data);
    assert(syms[0] == header_symbols(len64)[0]);
    assert(syms[1] == header_symbols(len64)[1]);
    assert(syms[2] == header_symbols(len64)[2]);
}

/// Round trip of the Unicode stage: decoding an encoded payload recovers
/// the payload exactly, for every byte buffer whose length fits the 42-bit
/// header, the empty buffer included.
pub proof fn lemma_unicode_round_trip(data: Seq<u8>)
    requires
        data.len() < 0x400_0000_0000,
    ensures
        unicode_decode_spec(unicode_encode_spec(data)) == Some(data),
{
    let len64 = data.len() as u64;
    let bits = bytes_bits(data);
    let syms = unicode_symbols(data);
    let chars = chars_of(syms);
    let enc = unicode_encode_spec(data);
    lemma_header_round_trip(len64);
    lemma_body_symbols_classified(bits);
    assert forall|i: int| 0 <= i < syms.len() implies is_scalar(#[trigger] syms[i]) by {
        if i < 3 {
            assert(syms[i] == header_symbols(len64)[i]);
            assert(is_scalar(header_symbols(len64)[i]));
        } else {
            let j = i - 3;
            assert(range_count(body_symbols(bits)[j]) == 1);
            assert(is_scalar(body_symbols(bits)[j]));
            assert(syms[i] == body_symbols(bits)[j]);
        }
    }
    vstd::utf8::encode_utf8_valid_utf8(chars);
    vstd::utf8::encode_utf8_decode_utf8(chars);
    assert(valid_utf8(enc));
    assert(decode_utf8(enc) == chars);
    let cps = decode_utf8(enc).map_values(|c: char| c as u32);
    assert(cps =~= syms) by {
        assert forall|i: int| 0 <= i < syms.len() implies cps[i] == syms[i] by {
            assert(chars[i] == syms[i] as char);
            assert(is_scalar(syms[i]));
        }
    }
    assert(cps.len() >= 3);
    assert(cps[0] >= 0x4E00 && cps[1] >= 0x4E00 && cps[2] >= 0x4E00) by {
        assert(cps[0] == header_symbols(len64)[0]);
        assert(cps[1] == header_symbols(len64)[1]);
        assert(cps[2] == header_symbols(len64)[2]);
    }
    let total = header_len_of(cps);
    assert(total == len64) by {
        assert(cps[0] == header_symbols(len64)[0]);
        assert(cps[1] == header_symbols(len64)[1]);
        assert(cps[2] == header_symbols(len64)[2]);
    }
    assert(cps.skip(3) =~= body_symbols(bits));
    let body = stream_bits(cps.skip(3));
    lemma_stream_of_body(bits);
    lemma_bytes_bits_len(data);
    assert(bits.len() == 8 * data.len());
    assert(body.len() >= 8 * total);
    assert(body.take(8 * total as int) == bits);
    lemma_bytes_of_bits_of_bytes(data);
    assert(unicode_decode_spec(enc) == Some(data));
}

} // verus!
