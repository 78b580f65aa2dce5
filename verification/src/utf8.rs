//! Executable UTF-8 encoding and decoding, verified against the character
//! encoding model in `vstd::utf8`.
use vstd::prelude::*;
use vstd::utf8::{
    decode_first_scalar, decode_utf8, encode_scalar, encode_utf8, is_scalar,
    length_of_first_scalar, pop_first_scalar, valid_first_scalar, valid_utf8,
};

verus! {

/// The character sequence named by a sequence of scalar values.
pub open spec fn chars_of(cps: Seq<u32>) -> Seq<char> {
    cps.map_values(|c: u32| c as char)
}

/// Encoding distributes over concatenation of character sequences.
pub proof fn lemma_encode_utf8_append(a: Seq<char>, b: Seq<char>)
    ensures
        encode_utf8(a + b) == encode_utf8(a) + encode_utf8(b),
    decreases a.len(),
{
    if a.len() == 0 {
        assert(a + b =~= b);
        assert(encode_utf8(a) + encode_utf8(b) =~= encode_utf8(b));
    } else {
        assert((a + b).drop_first() =~= a.drop_first() + b);
        lemma_encode_utf8_append(a.drop_first(), b);
        assert(encode_utf8(a + b) =~= encode_utf8(a) + encode_utf8(b));
    }
}

/// Appends the UTF-8 encoding of one scalar value.
///
/// Relies on nothing outside this crate: the byte patterns mirror the
/// `vstd::utf8` encoding model literally.
pub fn push_scalar(out: &mut Vec<u8>, cp: u32)
    requires
        is_scalar(cp),
    ensures
        final(out)@ == old(out)@ + encode_scalar(cp),
{
    let ghost orig = out@;
    if cp <= 0x7F {
        out.push((cp & 0x7F) as u8);
        proof {
            assert(orig + encode_scalar(cp) =~= orig.push((cp & 0x7F) as u8));
        }
    } else if cp <= 0x7FF {
        let b1: u8 = 0xC0 | ((cp >> 6) & 0x1F) as u8;
        let b2: u8 = 0x80 | (cp & 0x3F) as u8;
        out.push(b1);
        out.push(b2);
        proof {
            assert(orig + encode_scalar(cp) =~= orig.push(b1).push(b2));
        }
    } else if cp <= 0xFFFF {
        let b1: u8 = 0xE0 | ((cp >> 12) & 0x0F) as u8;
        let b2: u8 = 0x80 | ((cp >> 6) & 0x3F) as u8;
        let b3: u8 = 0x80 | (cp & 0x3F) as u8;
        out.push(b1);
        out.push(b2);
        out.push(b3);
        proof {
            assert(orig + encode_scalar(cp) =~= orig.push(b1).push(b2).push(b3));
        }
    } else {
        let b1: u8 = 0xF0 | ((cp >> 18) & 0x7) as u8;
        let b2: u8 = 0x80 | ((cp >> 12) & 0x3F) as u8;
        let b3: u8 = 0x80 | ((cp >> 6) & 0x3F) as u8;
        let b4: u8 = 0x80 | (cp & 0x3F) as u8;
        out.push(b1);
        out.push(b2);
        out.push(b3);
        out.push(b4);
        proof {
            assert(orig + encode_scalar(cp) =~= orig.push(b1).push(b2).push(b3).push(b4));
        }
    }
}

/// Encodes a sequence of scalar values as UTF-8 bytes.
pub fn encode_scalars(cps: &Vec<u32>) -> (r: Vec<u8>)
    requires
        forall|i: int| 0 <= i < cps@.len() ==> is_scalar(cps@[i]),
    ensures
        r@ == encode_utf8(chars_of(cps@)),
{
    let mut out: Vec<u8> = Vec::new();
    let mut k: usize = 0;
    while k < cps.len()
        invariant
            k <= cps@.len(),
            forall|i: int| 0 <= i < cps@.len() ==> is_scalar(cps@[i]),
            out@ == encode_utf8(chars_of(cps@.take(k as int))),
        decreases cps@.len() - k,
    {
        let cp = cps[k];
        proof {
            let a = chars_of(cps@.take(k as int));
            let b = chars_of(cps@.take(k as int + 1));
            assert(b =~= a + seq![cp as char]);
            lemma_encode_utf8_append(a, seq![cp as char]);
            assert(is_scalar(cps@[k as int]));
            assert(encode_scalar((cp as char) as u32) == encode_scalar(cp));
            assert(encode_utf8(seq![cp as char]) =~= encode_scalar((cp as char) as u32)) by {
                let s1 = seq![cp as char];
                assert(s1.drop_first() =~= Seq::<char>::empty());
                assert(encode_utf8(Seq::<char>::empty()) =~= Seq::<u8>::empty());
                assert(s1[0] == cp as char);
                assert(encode_scalar((cp as char) as u32) + Seq::<u8>::empty()
                    =~= encode_scalar((cp as char) as u32));
            }
        }
        push_scalar(&mut out, cp);
        k = k + 1;
    }
    proof {
        assert(cps@.take(cps@.len() as int) =~= cps@);
    }
    out
}

/// Reads the first scalar of the UTF-8 suffix of `bytes` starting at `pos`:
/// its value and the width of its encoding, or `None` when no well-formed
/// scalar starts there.
pub fn parse_first_scalar(bytes: &Vec<u8>, pos: usize) -> (r: Option<(u32, usize)>)
    requires
        pos < bytes@.len(),
    ensures
        match r {
            Some(p) => {
                let suffix = bytes@.skip(pos as int);
                &&& valid_first_scalar(suffix)
                &&& p.0 == decode_first_scalar(suffix)
                &&& p.1 == length_of_first_scalar(suffix)
                &&& pos + p.1 <= bytes@.len()
                &&& is_scalar(p.0)
            },
            None => !valid_first_scalar(bytes@.skip(pos as int)),
        },
{
    let ghost suffix = bytes@.skip(pos as int);
    let n = bytes.len();
    let b0 = bytes[pos];
    proof {
        assert(suffix[0] == bytes@[pos as int]);
        assert(suffix.len() == n - pos);
    }
    if b0 < 0x80 {
        let cp: u32 = (b0 & 0x7F) as u32;
        proof {
            assert(cp == b0 && cp <= 0x7F) by (bit_vector)
                requires
                    b0 < 0x80,
                    cp == (b0 & 0x7F) as u32,
            ;
        }
        Some((cp, 1))
    } else if b0 < 0xC0 {
        None
    } else if b0 < 0xE0 {
        if n - pos < 2 {
            return None;
        }
        let b1 = bytes[pos + 1];
        proof {
            assert(suffix[1] == bytes@[pos as int + 1]);
        }
        if !(0x80 <= b1 && b1 <= 0xBF) {
            return None;
        }
        let cp: u32 = (((b0 & 0x1F) as u32) << 6u32) | ((b1 & 0x3F) as u32);
        proof {
            assert(cp == vstd::utf8::codepoint_width_2(b0, b1) && cp <= 0x7FF) by (bit_vector)
                requires
                    cp == (((b0 & 0x1F) as u32) << 6u32) | ((b1 & 0x3F) as u32),
            ;
        }
        if cp < 0x80 {
            return None;
        }
        Some((cp, 2))
    } else if b0 < 0xF0 {
        if n - pos < 3 {
            return None;
        }
        let b1 = bytes[pos + 1];
        let b2 = bytes[pos + 2];
        proof {
            assert(suffix[1] == bytes@[pos as int + 1]);
            assert(suffix[2] == bytes@[pos as int + 2]);
        }
        if !(0x80 <= b1 && b1 <= 0xBF) || !(0x80 <= b2 && b2 <= 0xBF) {
            return None;
        }
        let cp: u32 = (((b0 & 0x0F) as u32) << 12u32) | (((b1 & 0x3F) as u32) << 6u32) | ((b2
            & 0x3F) as u32);
        proof {
            assert(cp == vstd::utf8::codepoint_width_3(b0, b1, b2) && cp <= 0xFFFF) by (bit_vector)
                requires
                    cp == (((b0 & 0x0F) as u32) << 12u32) | (((b1 & 0x3F) as u32) << 6u32) | ((b2
                        & 0x3F) as u32),
            ;
        }
        if cp < 0x800 {
            return None;
        }
        if 0xD800 <= cp && cp <= 0xDFFF {
            return None;
        }
        Some((cp, 3))
    } else if b0 < 0xF8 {
        if n - pos < 4 {
            return None;
        }
        let b1 = bytes[pos + 1];
        let b2 = bytes[pos + 2];
        let b3 = bytes[pos + 3];
        proof {
            assert(suffix[1] == bytes@[pos as int + 1]);
            assert(suffix[2] == bytes@[pos as int + 2]);
            assert(suffix[3] == bytes@[pos as int + 3]);
        }
        if !(0x80 <= b1 && b1 <= 0xBF) || !(0x80 <= b2 && b2 <= 0xBF) || !(0x80 <= b3 && b3
            <= 0xBF) {
            return None;
        }
        let cp: u32 = (((b0 & 0x07) as u32) << 18u32) | (((b1 & 0x3F) as u32) << 12u32) | (((b2
            & 0x3F) as u32) << 6u32) | ((b3 & 0x3F) as u32);
        proof {
            assert(cp == vstd::utf8::codepoint_width_4(b0, b1, b2, b3)) by (bit_vector)
                requires
                    cp == (((b0 & 0x07) as u32) << 18u32) | (((b1 & 0x3F) as u32) << 12u32) | (((b2
                        & 0x3F) as u32) << 6u32) | ((b3 & 0x3F) as u32),
            ;
        }
        if cp < 0x10000 || cp > 0x10FFFF {
            return None;
        }
        Some((cp, 4))
    } else {
        None
    }
}

/// Decodes a whole byte buffer as UTF-8: the sequence of scalar values it
/// encodes, or `None` exactly when the buffer is not valid UTF-8.
pub fn decode_all(bytes: &Vec<u8>) -> (r: Option<Vec<u32>>)
    ensures
        match r {
            Some(cps) => {
                &&& valid_utf8(bytes@)
                &&& chars_of(cps@) == decode_utf8(bytes@)
                &&& forall|i: int| 0 <= i < cps@.len() ==> is_scalar(cps@[i])
            },
            None => !valid_utf8(bytes@),
        },
{
    let mut out: Vec<u32> = Vec::new();
    let mut pos: usize = 0;
    proof {
        assert(bytes@.skip(0) =~= bytes@);
        assert(chars_of(out@) =~= Seq::<char>::empty());
        if valid_utf8(bytes@) {
            assert(Seq::<char>::empty() + decode_utf8(bytes@) =~= decode_utf8(bytes@));
        }
    }
    while pos < bytes.len()
        invariant
            pos <= bytes@.len(),
            valid_utf8(bytes@.skip(pos as int)) ==> valid_utf8(bytes@),
            valid_utf8(bytes@) ==> valid_utf8(bytes@.skip(pos as int)),
            valid_utf8(bytes@) ==> decode_utf8(bytes@) == chars_of(out@) + decode_utf8(
                bytes@.skip(pos as int),
            ),
            forall|i: int| 0 <= i < out@.len() ==> is_scalar(out@[i]),
        decreases bytes@.len() - pos,
    {
        let ghost suffix = bytes@.skip(pos as int);
        match parse_first_scalar(bytes, pos) {
            None => {
                proof {
                    assert(suffix.len() > 0);
                    assert(!valid_utf8(suffix));
                }
                return None;
            },
            Some((cp, width)) => {
                proof {
                    assert(width == length_of_first_scalar(suffix));
                    assert(pop_first_scalar(suffix) =~= bytes@.skip(pos as int + width as int));
                    assert(valid_utf8(suffix) == valid_utf8(pop_first_scalar(suffix)));
                    if valid_utf8(bytes@) {
                        assert(decode_utf8(suffix) == seq![decode_first_scalar(suffix) as char]
                            + decode_utf8(pop_first_scalar(suffix)));
                        assert(chars_of(out@.push(cp)) =~= chars_of(out@) + seq![cp as char]);
                        assert(chars_of(out@) + seq![cp as char] + decode_utf8(
                            pop_first_scalar(suffix),
                        ) =~= chars_of(out@) + decode_utf8(suffix));
                    }
                }
                out.push(cp);
                pos = pos + width;
            },
        }
    }
    proof {
        assert(bytes@.skip(pos as int) =~= Seq::<u8>::empty());
        assert(valid_utf8(Seq::<u8>::empty()));
        if valid_utf8(bytes@) {
            assert(decode_utf8(Seq::<u8>::empty()) =~= Seq::<char>::empty());
            assert(chars_of(out@) + Seq::<char>::empty() =~= chars_of(out@));
        }
    }
    Some(out)
}

} // verus!
