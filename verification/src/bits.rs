//! Bit-level model shared by the two codecs: sequences of bits (most
//! significant first), their numeric value, and an executable FIFO bit queue
//! that bridges byte granularity and variable payload-width granularity.
use vstd::arithmetic::div_mod::{
    lemma_div_denominator, lemma_fundamental_div_mod, lemma_fundamental_div_mod_converse,
};
use vstd::arithmetic::power2::{lemma_pow2_pos, lemma_pow2_unfold, pow2};
use vstd::bits::{
    lemma_low_bits_mask_values, lemma_u64_low_bits_mask_is_mod, lemma_u64_pow2_no_overflow,
    lemma_u64_shr_is_div,
};
use vstd::prelude::*;

verus! {

/// Bit `k` (counting from the least significant, starting at 0) of `v`.
pub open spec fn bit_at(v: nat, k: nat) -> bool {
    (v / pow2(k)) % 2 == 1
}

/// The `d` bits of `v` below position `d`, most significant first.
pub open spec fn width_bits(v: nat, d: nat) -> Seq<bool> {
    Seq::new(d, |i: int| bit_at(v, (d - 1 - i) as nat))
}

/// The 8 bits of a byte, most significant first.
pub open spec fn byte_bits(b: u8) -> Seq<bool> {
    width_bits(b as nat, 8)
}

/// The numeric value of a bit sequence read most significant first.
pub open spec fn bits_val(s: Seq<bool>) -> nat
    decreases s.len(),
{
    if s.len() == 0 {
        0
    } else {
        bits_val(s.drop_last()) * 2 + (if s.last() {
            1nat
        } else {
            0nat
        })
    }
}

/// The bit stream of a byte sequence: each byte contributes its 8 bits,
/// most significant first.
pub open spec fn bytes_bits(s: Seq<u8>) -> Seq<bool>
    decreases s.len(),
{
    if s.len() == 0 {
        Seq::empty()
    } else {
        byte_bits(s[0]) + bytes_bits(s.drop_first())
    }
}

/// Regroups a bit stream into bytes, 8 bits per byte, most significant
/// first; a trailing group of fewer than 8 bits is dropped.
pub open spec fn bytes_of_bits(bits: Seq<bool>) -> Seq<u8> {
    Seq::new(bits.len() / 8, |k: int| bits_val(bits.subrange(8 * k, 8 * k + 8)) as u8)
}

/// The first `n` bits of `s`, right-padded with zero bits if `s` is shorter.
pub open spec fn pad_bits(s: Seq<bool>, n: nat) -> Seq<bool> {
    if s.len() >= n {
        s.take(n as int)
    } else {
        s + Seq::new((n - s.len()) as nat, |i: int| false)
    }
}

/// A bit value is bounded by two to the number of bits.
pub proof fn lemma_bits_val_bound(s: Seq<bool>)
    ensures
        bits_val(s) < pow2(s.len()),
    decreases s.len(),
{
    if s.len() == 0 {
        assert(pow2(0) == 1) by {
            vstd::arithmetic::power2::lemma2_to64();
        }
    } else {
        lemma_bits_val_bound(s.drop_last());
        lemma_pow2_unfold(s.len());
    }
}

/// Reading bit `k` of the value of a bit sequence gives the sequence's bit
/// at the mirrored position.
pub proof fn lemma_bit_at_of_bits_val(s: Seq<bool>, k: nat)
    requires
        k < s.len(),
    ensures
        bit_at(bits_val(s), k) == s[s.len() - 1 - k],
    decreases s.len(),
{
    let v = bits_val(s);
    let b: nat = if s.last() {
        1
    } else {
        0
    };
    assert(v == bits_val(s.drop_last()) * 2 + b);
    if k == 0 {
        assert(pow2(0) == 1) by {
            vstd::arithmetic::power2::lemma2_to64();
        }
        assert(v / 1 == v);
        assert(v % 2 == b) by {
            lemma_fundamental_div_mod_converse(v as int, 2, bits_val(s.drop_last()) as int, b as int);
        }
    } else {
        lemma_pow2_unfold(k);
        lemma_pow2_pos((k - 1) as nat);
        // v / pow2(k) == (v / 2) / pow2(k - 1)
        assert(v / (2 * pow2((k - 1) as nat)) == (v / 2) / pow2((k - 1) as nat)) by {
            lemma_div_denominator(v as int, 2, pow2((k - 1) as nat) as int);
        }
        assert(v / 2 == bits_val(s.drop_last())) by {
            lemma_fundamental_div_mod_converse(v as int, 2, bits_val(s.drop_last()) as int, b as int);
        }
        lemma_bit_at_of_bits_val(s.drop_last(), (k - 1) as nat);
        assert(s.drop_last()[s.len() - 2 - (k - 1)] == s[s.len() - 1 - k]);
    }
}

/// Spelling a value back out over as many bits as were read in recovers the
/// original bit sequence.
pub proof fn lemma_width_bits_of_bits_val(s: Seq<bool>)
    ensures
        width_bits(bits_val(s), s.len()) == s,
{
    let d = s.len();
    let w = width_bits(bits_val(s), d);
    assert forall|i: int| 0 <= i < d implies w[i] == s[i] by {
        lemma_bit_at_of_bits_val(s, (d - 1 - i) as nat);
    }
    assert(w =~= s);
}

/// The value of the bit spelling of `v` over `d` bits is `v` again, as long
/// as `v` fits in `d` bits.
pub proof fn lemma_bits_val_of_width_bits(v: nat, d: nat)
    requires
        v < pow2(d),
    ensures
        bits_val(width_bits(v, d)) == v,
    decreases d,
{
    if d == 0 {
        assert(pow2(0) == 1) by {
            vstd::arithmetic::power2::lemma2_to64();
        }
        assert(width_bits(v, 0) =~= Seq::<bool>::empty());
    } else {
        lemma_pow2_unfold(d);
        let w = width_bits(v, d);
        assert(w.drop_last() =~= width_bits(v / 2, (d - 1) as nat)) by {
            assert forall|i: int| 0 <= i < d - 1 implies w.drop_last()[i] == width_bits(
                v / 2,
                (d - 1) as nat,
            )[i] by {
                let k = (d - 2 - i) as nat;
                lemma_pow2_unfold((k + 1) as nat);
                lemma_pow2_pos(k);
                assert(v / (2 * pow2(k)) == (v / 2) / pow2(k)) by {
                    lemma_div_denominator(v as int, 2, pow2(k) as int);
                }
            }
        }
        lemma_bits_val_of_width_bits(v / 2, (d - 1) as nat);
        assert(w.last() == bit_at(v, 0));
        assert(pow2(0) == 1) by {
            vstd::arithmetic::power2::lemma2_to64();
        }
        assert(v / pow2(0) == v);
        assert(bits_val(w) == (v / 2) * 2 + (if v % 2 == 1 {
            1nat
        } else {
            0nat
        }));
        lemma_fundamental_div_mod(v as int, 2);
    }
}

/// The bit stream of a concatenation is the concatenation of the bit
/// streams.
pub proof fn lemma_bytes_bits_append(a: Seq<u8>, b: Seq<u8>)
    ensures
        bytes_bits(a + b) == bytes_bits(a) + bytes_bits(b),
    decreases a.len(),
{
    if a.len() == 0 {
        assert(a + b =~= b);
        assert(bytes_bits(a) + bytes_bits(b) =~= bytes_bits(b));
    } else {
        assert((a + b).drop_first() =~= a.drop_first() + b);
        lemma_bytes_bits_append(a.drop_first(), b);
        assert(bytes_bits(a + b) =~= bytes_bits(a) + bytes_bits(b));
    }
}

/// A byte sequence contributes exactly 8 bits per byte.
pub proof fn lemma_bytes_bits_len(s: Seq<u8>)
    ensures
        bytes_bits(s).len() == 8 * s.len(),
    decreases s.len(),
{
    if s.len() > 0 {
        lemma_bytes_bits_len(s.drop_first());
    }
}

/// The block of bits contributed by byte `k` of a byte sequence.
pub proof fn lemma_bytes_bits_block(s: Seq<u8>, k: int)
    requires
        0 <= k < s.len(),
    ensures
        bytes_bits(s).subrange(8 * k, 8 * k + 8) == byte_bits(s[k]),
    decreases k,
{
    lemma_bytes_bits_len(s);
    lemma_bytes_bits_len(s.drop_first());
    if k == 0 {
        assert(bytes_bits(s).subrange(0, 8) =~= byte_bits(s[0]));
    } else {
        lemma_bytes_bits_block(s.drop_first(), k - 1);
        assert(bytes_bits(s).subrange(8 * k, 8 * k + 8) =~= bytes_bits(s.drop_first()).subrange(
            8 * (k - 1),
            8 * (k - 1) + 8,
        ));
    }
}

/// Regrouping the bit stream of a byte sequence into bytes gives the
/// original byte sequence back.
pub proof fn lemma_bytes_of_bits_of_bytes(s: Seq<u8>)
    ensures
        bytes_of_bits(bytes_bits(s)) == s,
{
    lemma_bytes_bits_len(s);
    let r = bytes_of_bits(bytes_bits(s));
    assert forall|k: int| 0 <= k < s.len() implies r[k] == s[k] by {
        lemma_bytes_bits_block(s, k);
        assert(byte_bits(s[k]) == width_bits(s[k] as nat, 8));
        assert(pow2(8) == 256) by {
            vstd::arithmetic::power2::lemma2_to64();
        }
        lemma_bits_val_of_width_bits(s[k] as nat, 8);
    }
    assert(r =~= s);
}

/// Connects the executable shift-and-mask test for a single bit with the
/// arithmetic `bit_at` model.
pub proof fn lemma_shift_bit_at(v: u64, k: u64)
    requires
        k < 64,
    ensures
        ((v >> k) & 1 == 1) == bit_at(v as nat, k as nat),
{
    lemma_u64_shr_is_div(v, k);
    lemma_u64_pow2_no_overflow(k as nat);
    lemma_u64_low_bits_mask_is_mod(v >> k, 1);
    lemma_low_bits_mask_values();
    assert(pow2(1) == 2) by {
        vstd::arithmetic::power2::lemma2_to64();
    }
}

/// An executable first-in-first-out queue of bits.  Bits enter at the back
/// (most significant bit of a pushed value first) and leave at the front.
pub struct BitQueue {
    pub bits: Vec<bool>,
}

impl View for BitQueue {
    type V = Seq<bool>;

    open spec fn view(&self) -> Seq<bool> {
        self.bits@
    }
}

impl BitQueue {
    pub fn new() -> (q: BitQueue)
        ensures
            q@ == Seq::<bool>::empty(),
    {
        let q = BitQueue { bits: Vec::new() };
        proof {
            assert(q@ =~= Seq::<bool>::empty());
        }
        q
    }

    pub fn len(&self) -> (n: usize)
        ensures
            n == self@.len(),
    {
        self.bits.len()
    }

    /// Appends the 8 bits of `b`, most significant first.
    pub fn push_byte(&mut self, b: u8)
        ensures
            final(self)@ == old(self)@ + byte_bits(b),
    {
        self.push_low_bits(b as u64, 8);
        proof {
            assert(width_bits(b as nat, 8) == byte_bits(b));
        }
    }

    /// Appends the low `d` bits of `v`, most significant first.
    pub fn push_low_bits(&mut self, v: u64, d: usize)
        requires
            d <= 64,
        ensures
            final(self)@ == old(self)@ + width_bits(v as nat, d as nat),
    {
        let ghost orig = self@;
        let ghost w = width_bits(v as nat, d as nat);
        let mut k: usize = 0;
        while k < d
            invariant
                k <= d <= 64,
                w == width_bits(v as nat, d as nat),
                self@ == orig + w.take(k as int),
            decreases d - k,
        {
            let sh = (d - 1 - k) as u64;
            let bit = ((v >> sh) & 1) == 1;
            proof {
                lemma_shift_bit_at(v, sh);
                assert(w[k as int] == bit_at(v as nat, (d - 1 - k) as nat));
                assert(orig + w.take(k as int + 1) =~= (orig + w.take(k as int)).push(bit));
            }
            self.bits.push(bit);
            k = k + 1;
        }
        proof {
            assert(w.take(d as int) =~= w);
        }
    }

    /// Removes the first `min(n, len)` bits and returns the value they
    /// spell, right-padded with zero bits up to width `n`.
    pub fn pop_pad(&mut self, n: usize) -> (v: u64)
        requires
            n <= 64,
        ensures
            v == bits_val(pad_bits(old(self)@, n as nat)),
            final(self)@ == old(self)@.skip(vstd::math::min(n as int, old(self)@.len() as int)),
    {
        let ghost orig = self@;
        let ghost chunk = pad_bits(orig, n as nat);
        let mut v: u64 = 0;
        let mut k: usize = 0;
        proof {
            assert(chunk.len() == n);
            assert(pow2(0) == 1) by {
                vstd::arithmetic::power2::lemma2_to64();
            }
        }
        while k < n
            invariant
                k <= n <= 64,
                chunk == pad_bits(orig, n as nat),
                chunk.len() == n,
                v == bits_val(chunk.take(k as int)),
                v < pow2(k as nat),
                self@ == orig.skip(vstd::math::min(k as int, orig.len() as int)),
            decreases n - k,
        {
            let bit: bool = if self.bits.len() > 0 {
                let b = self.bits.remove(0);
                proof {
                    assert(orig.skip(vstd::math::min(k as int, orig.len() as int)).drop_first()
                        =~= orig.skip(vstd::math::min(k as int + 1, orig.len() as int)));
                }
                b
            } else {
                proof {
                    assert(orig.skip(vstd::math::min(k as int, orig.len() as int)) =~= orig.skip(
                        vstd::math::min(k as int + 1, orig.len() as int),
                    ));
                }
                false
            };
            proof {
                // The popped (or padding) bit is chunk[k].
                if k < orig.len() {
                    assert(chunk[k as int] == orig[k as int]);
                } else {
                    assert(chunk[k as int] == false);
                }
                assert(chunk.take(k as int + 1).drop_last() =~= chunk.take(k as int));
                assert(bits_val(chunk.take(k as int + 1)) == v * 2 + (if bit {
                    1nat
                } else {
                    0nat
                }));
                lemma_pow2_unfold((k + 1) as nat);
                if (k + 1) < 64 {
                    vstd::arithmetic::power2::lemma_pow2_strictly_increases((k + 1) as nat, 64);
                }
                assert(pow2(64) == 0x10000000000000000) by {
                    vstd::arithmetic::power2::lemma2_to64();
                }
            }
            v = v * 2 + (if bit {
                1
            } else {
                0
            });
            k = k + 1;
        }
        proof {
            assert(chunk.take(n as int) =~= chunk);
        }
        v
    }

    /// Removes the first 8 bits and returns them as a byte, most significant
    /// first.
    pub fn pop_byte(&mut self) -> (b: u8)
        requires
            old(self)@.len() >= 8,
        ensures
            b == bits_val(old(self)@.take(8)),
            final(self)@ == old(self)@.skip(8),
    {
        let ghost orig = self@;
        let v = self.pop_pad(8);
        proof {
            assert(pad_bits(orig, 8) == orig.take(8));
            lemma_bits_val_bound(orig.take(8));
            assert(pow2(8) == 256) by {
                vstd::arithmetic::power2::lemma2_to64();
            }
        }
        v as u8
    }
}

} // verus!
