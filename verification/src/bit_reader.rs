//! A bit-granular reader.
//!
//! The reader is constructed from a byte buffer, which it expands into its
//! MSB-first bit stream, and then hands out arbitrarily wide unsigned
//! integers and raw bit vectors at a moving bit cursor. Every read is
//! checked: a read past the end of the buffer fails with `InsufficientData`
//! and leaves the reader unchanged.

use crate::bits::{bit_of_byte, bits_of_bytes, bits_value, lemma_bits_value_bound,
    lemma_pow2_constants};
use crate::errors::{insufficient_data_error, ErrorKind, QCompressError, QCompressResult};
use vstd::arithmetic::power2::{lemma_pow2_strictly_increases, pow2};
use vstd::prelude::*;

verus! {

/// Reads arbitrarily wide unsigned integers and raw bit vectors from a byte
/// buffer at a moving bit cursor.
pub struct BitReader {
    bits: Vec<bool>,
    i: usize,
}

impl View for BitReader {
    type V = Seq<bool>;

    closed spec fn view(&self) -> Seq<bool> {
        self.bits@
    }
}

impl BitReader {
    /// The current absolute bit offset of the cursor.
    pub closed spec fn pos(&self) -> nat {
        self.i as nat
    }

    #[verifier::type_invariant]
    spec fn cursor_in_bounds(&self) -> bool {
        self.i <= self.bits@.len()
    }

    /// A reader over the bit expansion of `bytes`, with the cursor at the
    /// start.
    pub fn from_bytes(bytes: &Vec<u8>) -> (r: Self)
        ensures
            r@ == bits_of_bytes(bytes@),
            r.pos() == 0,
    {
        let mut bits: Vec<bool> = Vec::new();
        let mut b: usize = 0;
        proof {
            lemma_pow2_constants();
        }
        while b < bytes.len()
            invariant
                b <= bytes@.len(),
                bits@.len() == 8 * b,
                forall|m: int| 0 <= m < 8 * b ==> bits@[m] == bits_of_bytes(bytes@)[m],
            decreases bytes@.len() - b,
        {
            let byte = bytes[b];
            bits.push(byte / 128 % 2 == 1);
            bits.push(byte / 64 % 2 == 1);
            bits.push(byte / 32 % 2 == 1);
            bits.push(byte / 16 % 2 == 1);
            bits.push(byte / 8 % 2 == 1);
            bits.push(byte / 4 % 2 == 1);
            bits.push(byte / 2 % 2 == 1);
            bits.push(byte % 2 == 1);
            proof {
                lemma_pow2_constants();
                assert forall|k: int| 0 <= k < 8 implies bits@[8 * b + k] == bit_of_byte(
                    bytes@[b as int],
                    k,
                ) by {
                    assert(byte as nat / 1 == byte as nat);
                }
                assert forall|k: int| 0 <= k < 8 implies bits_of_bytes(bytes@)[8 * b + k]
                    == bit_of_byte(bytes@[b as int], k) by {
                    vstd::arithmetic::div_mod::lemma_fundamental_div_mod_converse(
                        8 * b + k,
                        8,
                        b as int,
                        k,
                    );
                }
            }
            b = b + 1;
        }
        proof {
            assert(bits@ =~= bits_of_bytes(bytes@));
        }
        BitReader { bits, i: 0 }
    }

    /// The current absolute bit offset.
    pub fn bit_position(&self) -> (r: usize)
        ensures
            r == self.pos(),
    {
        self.i
    }

    /// Read a single bit.
    pub fn read_one(&mut self) -> (r: QCompressResult<bool>)
        ensures
            final(self)@ == old(self)@,
            match r {
                Ok(b) => {
                    &&& old(self).pos() + 1 <= old(self)@.len()
                    &&& b == old(self)@[old(self).pos() as int]
                    &&& final(self).pos() == old(self).pos() + 1
                },
                Err(e) => {
                    &&& old(self).pos() + 1 > old(self)@.len()
                    &&& e.kind == ErrorKind::InsufficientData
                    &&& final(self).pos() == old(self).pos()
                },
            },
    {
        proof {
            use_type_invariant(&*self);
        }
        if self.i >= self.bits.len() {
            return Err(insufficient_data_error());
        }
        let b = self.bits[self.i];
        self.i = self.i + 1;
        Ok(b)
    }

    /// Read `n` raw bits.
    pub fn read(&mut self, n: usize) -> (r: QCompressResult<Vec<bool>>)
        ensures
            final(self)@ == old(self)@,
            match r {
                Ok(v) => {
                    &&& old(self).pos() + n <= old(self)@.len()
                    &&& v@ == old(self)@.subrange(
                        old(self).pos() as int,
                        old(self).pos() + n as int,
                    )
                    &&& final(self).pos() == old(self).pos() + n
                },
                Err(e) => {
                    &&& old(self).pos() + n > old(self)@.len()
                    &&& e.kind == ErrorKind::InsufficientData
                    &&& final(self).pos() == old(self).pos()
                },
            },
    {
        proof {
            use_type_invariant(&*self);
        }
        let len = self.bits.len();
        if n > len - self.i {
            return Err(insufficient_data_error());
        }
        let mut v: Vec<bool> = Vec::new();
        let mut j: usize = 0;
        while j < n
            invariant
                j <= n,
                self.i + n <= len,
                len == self.bits@.len(),
                self.i + n <= self.bits@.len(),
                v@ == self.bits@.subrange(self.i as int, self.i + j as int),
            decreases n - j,
        {
            v.push(self.bits[self.i + j]);
            proof {
                assert(self.bits@.subrange(self.i as int, self.i + (j + 1) as int)
                    =~= self.bits@.subrange(self.i as int, self.i + j as int).push(
                    self.bits@[self.i + j as int],
                ));
            }
            j = j + 1;
        }
        self.i = self.i + n;
        Ok(v)
    }

    /// Read a big-endian `n`-bit unsigned integer, `n <= 128`.
    pub fn read_u128(&mut self, n: usize) -> (r: QCompressResult<u128>)
        requires
            n <= 128,
        ensures
            final(self)@ == old(self)@,
            match r {
                Ok(v) => {
                    &&& old(self).pos() + n <= old(self)@.len()
                    &&& v as nat == bits_value(
                        old(self)@.subrange(old(self).pos() as int, old(self).pos() + n as int),
                    )
                    &&& (v as nat) < pow2(n as nat)
                    &&& final(self).pos() == old(self).pos() + n
                },
                Err(e) => {
                    &&& old(self).pos() + n > old(self)@.len()
                    &&& e.kind == ErrorKind::InsufficientData
                    &&& final(self).pos() == old(self).pos()
                },
            },
    {
        proof {
            use_type_invariant(&*self);
        }
        let len = self.bits.len();
        if n > len - self.i {
            return Err(insufficient_data_error());
        }
        let mut acc: u128 = 0;
        let mut j: usize = 0;
        proof {
            lemma_pow2_constants();
        }
        while j < n
            invariant
                j <= n,
                n <= 128,
                self.i + n <= len,
                len == self.bits@.len(),
                self.i + n <= self.bits@.len(),
                acc as nat == bits_value(self.bits@.subrange(self.i as int, self.i + j as int)),
            decreases n - j,
        {
            let ghost chunk = self.bits@.subrange(self.i as int, self.i + j as int);
            proof {
                lemma_bits_value_bound(chunk);
                lemma_pow2_constants();
                assert(pow2(chunk.len()) <= pow2(127)) by {
                    if chunk.len() < 127 {
                        lemma_pow2_strictly_increases(chunk.len(), 127);
                    }
                }
                assert(self.bits@.subrange(self.i as int, self.i + (j + 1) as int).drop_last()
                    =~= chunk);
            }
            let b = self.bits[self.i + j];
            acc = 2 * acc + (if b {
                1
            } else {
                0
            });
            j = j + 1;
        }
        proof {
            lemma_bits_value_bound(self.bits@.subrange(self.i as int, self.i + n as int));
        }
        self.i = self.i + n;
        Ok(acc)
    }

    /// Read a big-endian `n`-bit unsigned integer into a `usize`, `n <= 32`.
    pub fn read_usize(&mut self, n: usize) -> (r: QCompressResult<usize>)
        requires
            n <= 32,
        ensures
            final(self)@ == old(self)@,
            match r {
                Ok(v) => {
                    &&& old(self).pos() + n <= old(self)@.len()
                    &&& v as nat == bits_value(
                        old(self)@.subrange(old(self).pos() as int, old(self).pos() + n as int),
                    )
                    &&& (v as nat) < pow2(n as nat)
                    &&& final(self).pos() == old(self).pos() + n
                },
                Err(e) => {
                    &&& old(self).pos() + n > old(self)@.len()
                    &&& e.kind == ErrorKind::InsufficientData
                    &&& final(self).pos() == old(self).pos()
                },
            },
    {
        let r = self.read_u128(n);
        match r {
            Ok(v) => {
                proof {
                    lemma_pow2_constants();
                    if (n as nat) < 32 {
                        lemma_pow2_strictly_increases(n as nat, 32);
                    }
                }
                Ok(v as usize)
            },
            Err(e) => Err(e),
        }
    }
}

} // verus!
