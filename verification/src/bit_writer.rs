//! A bit-granular writer.
//!
//! The writer accumulates bits at a moving cursor (its view is the sequence
//! of bits written so far, and the cursor is its length), supports
//! overwrite-in-place for back-patching a known-width field, and packs the
//! accumulated bits into bytes, MSB-first within each byte, once the stream
//! is byte-aligned.

use crate::bits::{
    bit_len, bit_of_byte, bits_of_bytes, bits_value, lemma_bits_value_bound, lemma_pow2_constants,
    lemma_ubits_id, ubits,
};
use vstd::arithmetic::power2::{lemma_pow2_strictly_increases, lemma_pow2_unfold, pow2};
use vstd::prelude::*;

verus! {

broadcast use vstd::arithmetic::power2::lemma_pow2_pos;

/// The number of zero bits needed to pad a stream of length `l` to the next
/// byte boundary.
pub open spec fn pad_len(l: nat) -> nat {
    ((8 - l % 8) % 8) as nat
}

/// Writes arbitrarily wide unsigned integers and raw bit vectors at a moving
/// bit cursor.
pub struct BitWriter {
    bits: Vec<bool>,
}

impl View for BitWriter {
    type V = Seq<bool>;

    closed spec fn view(&self) -> Seq<bool> {
        self.bits@
    }
}

impl BitWriter {
    /// An empty writer.
    pub fn new() -> (r: Self)
        ensures
            r@ == Seq::<bool>::empty(),
    {
        BitWriter { bits: Vec::new() }
    }

    /// The current absolute bit offset, for callers that need to record a
    /// back-patch site.
    pub fn bit_position(&self) -> (r: usize)
        ensures
            r == self@.len(),
    {
        self.bits.len()
    }

    /// Append a single bit.
    pub fn write_one(&mut self, b: bool)
        ensures
            final(self)@ == old(self)@.push(b),
    {
        self.bits.push(b);
    }

    /// Append a raw bit vector.
    pub fn write(&mut self, bs: &Vec<bool>)
        ensures
            final(self)@ == old(self)@ + bs@,
    {
        let mut j: usize = 0;
        while j < bs.len()
            invariant
                j <= bs@.len(),
                self.bits@ == old(self)@ + bs@.subrange(0, j as int),
            decreases bs@.len() - j,
        {
            self.bits.push(bs[j]);
            proof {
                assert(bs@.subrange(0, j + 1 as int) =~= bs@.subrange(0, j as int).push(
                    bs@[j as int],
                ));
            }
            j = j + 1;
        }
        proof {
            assert(bs@.subrange(0, bs@.len() as int) =~= bs@);
        }
    }

    /// Append `v` as a big-endian `n`-bit unsigned integer.
    pub fn write_u128(&mut self, v: u128, n: usize)
        requires
            n <= 128,
            (v as nat) < pow2(n as nat),
        ensures
            final(self)@ == old(self)@ + ubits(v as nat, n as nat),
    {
        proof {
            lemma_pow2_constants();
        }
        if n == 0 {
            proof {
                assert(old(self)@ + ubits(v as nat, 0) =~= old(self)@);
            }
            return ;
        }
        let mut p: u128 = 1;
        let mut e: usize = 0;
        while e < n - 1
            invariant
                n >= 1,
                n <= 128,
                e <= n - 1,
                p == pow2(e as nat),
            decreases n - 1 - e,
        {
            proof {
                lemma_pow2_unfold((e + 1) as nat);
                if e + 1 < 127 {
                    lemma_pow2_strictly_increases((e + 1) as nat, 127);
                }
                lemma_pow2_constants();
            }
            p = p * 2;
            e = e + 1;
        }
        let ghost target = ubits(v as nat, n as nat);
        let mut j: usize = 0;
        while j < n
            invariant
                n >= 1,
                n <= 128,
                j <= n,
                (v as nat) < pow2(n as nat),
                target == ubits(v as nat, n as nat),
                self.bits@ == old(self)@ + target.subrange(0, j as int),
                j < n ==> p == pow2((n - 1 - j) as nat),
            decreases n - j,
        {
            let bit = (v / p) % 2 == 1;
            proof {
                assert(target[j as int] == ((v as nat / pow2((n - 1 - j) as nat)) % 2 == 1));
                assert(target.subrange(0, j + 1 as int) =~= target.subrange(0, j as int).push(
                    target[j as int],
                ));
            }
            self.bits.push(bit);
            proof {
                if j + 1 < n {
                    lemma_pow2_unfold((n - 1 - j) as nat);
                }
            }
            p = p / 2;
            j = j + 1;
        }
        proof {
            assert(target.subrange(0, n as int) =~= target);
        }
    }

    /// Append `v` as a big-endian `n`-bit unsigned integer.
    pub fn write_usize(&mut self, v: usize, n: usize)
        requires
            n <= 128,
            (v as nat) < pow2(n as nat),
        ensures
            final(self)@ == old(self)@ + ubits(v as nat, n as nat),
    {
        self.write_u128(v as u128, n);
    }

    /// Pad the current byte with zero bits to the next byte boundary.
    pub fn finish_byte(&mut self)
        ensures
            final(self)@ == old(self)@ + Seq::new(pad_len(old(self)@.len()), |i: int| false),
            final(self)@.len() % 8 == 0,
    {
        let len = self.bits.len();
        let pad = (8 - len % 8) % 8;
        let mut j: usize = 0;
        while j < pad
            invariant
                j <= pad,
                pad == pad_len(old(self)@.len()),
                self.bits@ == old(self)@ + Seq::new(j as nat, |i: int| false),
            decreases pad - j,
        {
            self.bits.push(false);
            proof {
                assert(Seq::new((j + 1) as nat, |i: int| false) =~= Seq::new(
                    j as nat,
                    |i: int| false,
                ).push(false));
            }
            j = j + 1;
        }
    }

    /// Back-patch a previously written `n`-bit field starting at `bit_idx`,
    /// leaving every other bit unchanged.
    pub fn overwrite_usize(&mut self, bit_idx: usize, v: usize, n: usize)
        requires
            bit_idx + n <= old(self)@.len(),
            n <= 128,
            (v as nat) < pow2(n as nat),
        ensures
            final(self)@.len() == old(self)@.len(),
            forall|k: int|
                0 <= k < old(self)@.len() && !(bit_idx <= k < bit_idx + n) ==> final(self)@[k]
                    == old(self)@[k],
            forall|k: int|
                bit_idx <= k < bit_idx + n ==> final(self)@[k] == ubits(v as nat, n as nat)[k
                    - bit_idx],
    {
        proof {
            lemma_pow2_constants();
        }
        if n == 0 {
            return ;
        }
        let mut p: u128 = 1;
        let mut e: usize = 0;
        while e < n - 1
            invariant
                n >= 1,
                n <= 128,
                e <= n - 1,
                p == pow2(e as nat),
            decreases n - 1 - e,
        {
            proof {
                lemma_pow2_unfold((e + 1) as nat);
                if e + 1 < 127 {
                    lemma_pow2_strictly_increases((e + 1) as nat, 127);
                }
                lemma_pow2_constants();
            }
            p = p * 2;
            e = e + 1;
        }
        let v128 = v as u128;
        let len = self.bits.len();
        let mut j: usize = 0;
        while j < n
            invariant
                n >= 1,
                n <= 128,
                j <= n,
                bit_idx + n <= len,
                len == old(self)@.len(),
                bit_idx + n <= old(self)@.len(),
                (v128 as nat) < pow2(n as nat),
                v128 == v as u128,
                self.bits@.len() == old(self)@.len(),
                forall|k: int|
                    0 <= k < old(self)@.len() && !(bit_idx <= k < bit_idx + j) ==> self.bits@[k]
                        == old(self)@[k],
                forall|k: int|
                    bit_idx <= k < bit_idx + j ==> self.bits@[k] == ubits(v as nat, n as nat)[k
                        - bit_idx],
                j < n ==> p == pow2((n - 1 - j) as nat),
            decreases n - j,
        {
            let bit = (v128 / p) % 2 == 1;
            proof {
                assert(ubits(v as nat, n as nat)[j as int] == ((v as nat / pow2(
                    (n - 1 - j) as nat,
                )) % 2 == 1));
            }
            self.bits.set(bit_idx + j, bit);
            proof {
                if j + 1 < n {
                    lemma_pow2_unfold((n - 1 - j) as nat);
                }
            }
            p = p / 2;
            j = j + 1;
        }
    }

    /// The accumulated stream packed into bytes, MSB-first within each byte.
    pub fn bytes(&self) -> (r: Vec<u8>)
        requires
            self@.len() % 8 == 0,
        ensures
            r@.len() * 8 == self@.len(),
            bits_of_bytes(r@) == self@,
    {
        let len = self.bits.len();
        let total = len / 8;
        let mut out: Vec<u8> = Vec::new();
        let mut i: usize = 0;
        proof {
            lemma_pow2_constants();
            vstd::arithmetic::div_mod::lemma_fundamental_div_mod(self.bits@.len() as int, 8);
        }
        while i < total
            invariant
                i <= total,
                total * 8 == len,
                len == self@.len(),
                total * 8 == self@.len(),
                out@.len() == i,
                forall|b: int, k: int|
                    0 <= b < i && 0 <= k < 8 ==> bit_of_byte(out@[b], k) == self@[8 * b + k],
            decreases total - i,
        {
            let mut acc: u8 = 0;
            let mut k: usize = 0;
            while k < 8
                invariant
                    k <= 8,
                    i < total,
                    total * 8 == len,
                    len == self@.len(),
                    total * 8 == self@.len(),
                    acc as nat == bits_value(self@.subrange(8 * i as int, 8 * i + k as int)),
                decreases 8 - k,
            {
                let ghost chunk = self@.subrange(8 * i as int, 8 * i + k as int);
                proof {
                    lemma_bits_value_bound(chunk);
                    lemma_pow2_constants();
                    assert(pow2(chunk.len()) <= pow2(7)) by {
                        if chunk.len() < 7 {
                            lemma_pow2_strictly_increases(chunk.len(), 7);
                        }
                    }
                    assert(self@.subrange(8 * i as int, 8 * i + (k + 1) as int).drop_last()
                        =~= chunk);
                }
                let b = self.bits[8 * i + k];
                acc = 2 * acc + (if b {
                    1
                } else {
                    0
                });
                k = k + 1;
            }
            let ghost chunk8 = self@.subrange(8 * i as int, 8 * i + 8 as int);
            proof {
                lemma_ubits_id(chunk8);
                assert(ubits(acc as nat, 8) =~= chunk8);
                assert forall|kk: int| 0 <= kk < 8 implies bit_of_byte(acc, kk) == self@[8 * i
                    + kk] by {
                    assert(ubits(acc as nat, 8)[kk] == ((acc as nat / pow2((7 - kk) as nat)) % 2
                        == 1));
                }
            }
            out.push(acc);
            i = i + 1;
        }
        proof {
            assert(bits_of_bytes(out@) =~= self@) by {
                assert forall|m: int| 0 <= m < self@.len() implies bits_of_bytes(out@)[m]
                    == self@[m] by {
                    vstd::arithmetic::div_mod::lemma_fundamental_div_mod(m, 8);
                }
            }
        }
        out
    }
}

} // verus!
