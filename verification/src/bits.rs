//! Bit-level ground truth: how bit strings denote unsigned values and how
//! byte buffers denote bit strings.
//!
//! Every field of the chunk-metadata wire format is a fixed-width big-endian
//! unsigned integer, a raw bit string, or a single bit, so the whole format
//! is specified in terms of the two functions here: `bits_value` (the value
//! of a bit string, most significant bit first) and `ubits` (the `w`-bit
//! big-endian encoding of a value), together with `bits_of_bytes` (the
//! MSB-first bit expansion of a byte buffer).

use vstd::prelude::*;
use vstd::arithmetic::div_mod::{
    lemma_div_denominator, lemma_fundamental_div_mod, lemma_fundamental_div_mod_converse,
};
use vstd::arithmetic::power2::{
    lemma2_to64, lemma2_to64_rest, lemma_pow2_adds, lemma_pow2_pos, lemma_pow2_unfold, pow2,
};

verus! {

/// The unsigned value denoted by a bit string, most significant bit first.
pub open spec fn bits_value(s: Seq<bool>) -> nat
    decreases s.len(),
{
    if s.len() == 0 {
        0
    } else {
        2 * bits_value(s.drop_last()) + (if s.last() {
            1nat
        } else {
            0nat
        })
    }
}

/// The `w`-bit big-endian encoding of `v`: bit `i` is bit number `w - 1 - i`
/// of `v` counted from the least significant end.
pub open spec fn ubits(v: nat, w: nat) -> Seq<bool> {
    Seq::new(w, |i: int| (v / pow2((w - 1 - i) as nat)) % 2 == 1)
}

/// Bit `k` of a byte, most significant first (`k` in `0..8`).
pub open spec fn bit_of_byte(b: u8, k: int) -> bool {
    ((b as nat) / pow2((7 - k) as nat)) % 2 == 1
}

/// The MSB-first bit expansion of a byte buffer.
pub open spec fn bits_of_bytes(s: Seq<u8>) -> Seq<bool> {
    Seq::new(s.len() * 8, |i: int| bit_of_byte(s[i / 8], i % 8))
}

/// The number of bits needed to represent `n`, i.e. `ceil(log2(n + 1))`.
pub open spec fn bit_len(n: nat) -> nat
    decreases n,
{
    if n == 0 {
        0
    } else {
        1 + bit_len(n / 2)
    }
}

/// A bit string denotes a value below `2^len`.
pub proof fn lemma_bits_value_bound(s: Seq<bool>)
    ensures
        bits_value(s) < pow2(s.len()),
    decreases s.len(),
{
    if s.len() == 0 {
        lemma2_to64();
    } else {
        lemma_bits_value_bound(s.drop_last());
        lemma_pow2_unfold(s.len());
    }
}

/// Dividing twice is dividing by the product: `(v / 2) / 2^k == v / 2^(k+1)`.
proof fn lemma_halve_div_pow2(v: nat, k: nat)
    ensures
        (v / 2) / pow2(k) == v / pow2(k + 1),
{
    lemma_pow2_pos(k);
    lemma_div_denominator(v as int, 2, pow2(k) as int);
    lemma_pow2_unfold(k + 1);
    assert(2 * pow2(k) == pow2(k + 1)) by {
        lemma_pow2_adds(1, k);
        lemma2_to64();
    }
}

/// Encoding then decoding is the identity on values that fit in `w` bits.
pub proof fn lemma_ubits_value(v: nat, w: nat)
    requires
        v < pow2(w),
    ensures
        bits_value(ubits(v, w)) == v,
    decreases w,
{
    if w == 0 {
        lemma2_to64();
        assert(ubits(v, 0).len() == 0);
    } else {
        let s = ubits(v, w);
        assert(s.drop_last() =~= ubits(v / 2, (w - 1) as nat)) by {
            assert forall|i: int| 0 <= i < w - 1 implies s.drop_last()[i] == ubits(
                v / 2,
                (w - 1) as nat,
            )[i] by {
                lemma_halve_div_pow2(v, (w - 1 - i - 1) as nat);
            }
        }
        assert(v / 2 < pow2((w - 1) as nat)) by {
            lemma_pow2_unfold(w);
        }
        lemma_ubits_value(v / 2, (w - 1) as nat);
        assert(s.last() == ((v / pow2(0)) % 2 == 1));
        lemma2_to64();
        assert(v / pow2(0) == v);
        assert(v == 2 * (v / 2) + v % 2) by {
            lemma_fundamental_div_mod(v as int, 2);
        }
    }
}

/// Decoding then re-encoding is the identity on bit strings.
pub proof fn lemma_ubits_id(s: Seq<bool>)
    ensures
        ubits(bits_value(s), s.len()) =~= s,
    decreases s.len(),
{
    if s.len() > 0 {
        let v = bits_value(s);
        let w = s.len();
        lemma_ubits_id(s.drop_last());
        lemma_bits_value_bound(s.drop_last());
        assert forall|i: int| 0 <= i < w implies ubits(v, w)[i] == s[i] by {
            if i < w - 1 {
                lemma_halve_div_pow2(v, (w - 1 - i - 1) as nat);
                assert(v / 2 == bits_value(s.drop_last())) by {
                    lemma_fundamental_div_mod(v as int, 2);
                }
                assert(ubits(bits_value(s.drop_last()), (w - 1) as nat)[i] == s.drop_last()[i]);
                assert(s.drop_last()[i] == s[i]);
            } else {
                lemma2_to64();
                assert(v / pow2(0) == v);
                assert(v % 2 == (if s.last() { 1nat } else { 0nat })) by {
                    lemma_fundamental_div_mod(v as int, 2);
                }
            }
        }
    } else {
        assert(ubits(0, 0) =~= s);
    }
}

/// Everything representable in `bit_len(n)` bits includes `n` itself.
pub proof fn lemma_bit_len_bound(n: nat)
    ensures
        n < pow2(bit_len(n)),
    decreases n,
{
    if n == 0 {
        lemma2_to64();
    } else {
        lemma_bit_len_bound(n / 2);
        lemma_pow2_unfold(bit_len(n));
        lemma_fundamental_div_mod(n as int, 2);
    }
}

/// `bit_len` gives the least sufficient width: anything below `2^k` needs at
/// most `k` bits.
pub proof fn lemma_bit_len_le(n: nat, k: nat)
    requires
        n < pow2(k),
    ensures
        bit_len(n) <= k,
    decreases n,
{
    if n > 0 {
        assert(k > 0) by {
            if k == 0 {
                lemma2_to64();
            }
        }
        assert(n / 2 < pow2((k - 1) as nat)) by {
            lemma_pow2_unfold(k);
        }
        lemma_bit_len_le(n / 2, (k - 1) as nat);
    }
}

/// `bit_len` of a full range: `bit_len(2^k - 1) == k`.
pub proof fn lemma_bit_len_all_ones(k: nat)
    ensures
        bit_len((pow2(k) - 1) as nat) == k,
    decreases k,
{
    lemma_pow2_pos(k);
    lemma2_to64();
    if k > 0 {
        lemma_bit_len_all_ones((k - 1) as nat);
        lemma_pow2_unfold(k);
        lemma_pow2_pos((k - 1) as nat);
        let n = (pow2(k) - 1) as nat;
        assert(n > 0);
        assert(n == 2 * ((pow2((k - 1) as nat) - 1) as int) + 1);
        lemma_fundamental_div_mod_converse(
            n as int,
            2,
            (pow2((k - 1) as nat) - 1) as int,
            1,
        );
        assert(n / 2 == (pow2((k - 1) as nat) - 1) as nat);
        assert(bit_len(n) == 1 + bit_len(n / 2));
    }
}

/// Values of the powers of two this crate manipulates directly.
pub proof fn lemma_pow2_constants()
    ensures
        pow2(0) == 0x1,
        pow2(1) == 0x2,
        pow2(2) == 0x4,
        pow2(3) == 0x8,
        pow2(4) == 0x10,
        pow2(5) == 0x20,
        pow2(6) == 0x40,
        pow2(7) == 0x80,
        pow2(8) == 0x100,
        pow2(15) == 0x8000,
        pow2(30) == 0x4000_0000,
        pow2(16) == 0x1_0000,
        pow2(24) == 0x100_0000,
        pow2(31) == 0x8000_0000,
        pow2(32) == 0x1_0000_0000,
        pow2(63) == 0x8000_0000_0000_0000,
        pow2(64) == 0x1_0000_0000_0000_0000,
        pow2(88) == 0x100_0000_0000_0000_0000_0000,
        pow2(94) == 0x4000_0000_0000_0000_0000_0000,
        pow2(96) == 0x1_0000_0000_0000_0000_0000_0000,
        pow2(127) == 0x8000_0000_0000_0000_0000_0000_0000_0000,
        pow2(128) == 0x1_0000_0000_0000_0000_0000_0000_0000_0000,
{
    lemma2_to64();
    lemma2_to64_rest();
    lemma_pow2_adds(64, 24);
    lemma_pow2_adds(64, 30);
    lemma_pow2_adds(64, 32);
    lemma_pow2_adds(64, 63);
    lemma_pow2_adds(64, 64);
}

/// The number of bits needed to represent `x`, computed by repeated halving.
pub fn bit_length_u128(x: u128) -> (r: usize)
    ensures
        r == bit_len(x as nat),
        r <= 128,
{
    let mut m: u128 = x;
    let mut b: usize = 0;
    proof {
        lemma_pow2_constants();
        lemma_bit_len_le(x as nat, 128);
    }
    while m > 0
        invariant
            bit_len(x as nat) == b + bit_len(m as nat),
            bit_len(x as nat) <= 128,
        decreases m,
    {
        m = m / 2;
        b = b + 1;
    }
    b
}

/// `bit_length_u128` restricted to `usize` inputs, for field-width computation.
pub fn bit_length_usize(x: usize) -> (r: usize)
    ensures
        r == bit_len(x as nat),
        r <= 128,
{
    bit_length_u128(x as u128)
}

} // verus!
