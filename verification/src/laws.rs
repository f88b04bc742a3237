//! Round-trip laws of the wire format: parsing a serialized field at its
//! position in a larger stream recovers exactly the value serialized, for
//! every well-formed value and any surrounding bits.
//!
//! Together with the exact contracts of `ChunkMetadata::write_to` (which
//! appends `ser_meta`) and `ChunkMetadata::parse_from` (which returns
//! `parse_meta`), these laws discharge the bit round trip for the fields
//! and the delta moments of a chunk-metadata section.

use crate::bits::{
    bit_len, lemma_bit_len_bound, lemma_pow2_constants, lemma_ubits_value, ubits,
};
use crate::data_types::{lemma_raw_lt_pow2, NumberKind};
use crate::wire::{
    gcd_bits, moment_fits, moment_of_raw, parse_bit, parse_gcd, parse_moments, parse_uint,
    parse_value, raw_of_moment, ser_moments, Parsed,
};
use vstd::arithmetic::power2::{lemma_pow2_unfold, pow2};
use vstd::prelude::*;

verus! {

broadcast use vstd::arithmetic::power2::lemma_pow2_pos;

/// A `w`-bit unsigned field round-trips at its position: parsing
/// `pre + ubits(v, w) + suf` at `pre.len()` yields `v` and stops right
/// after the field.
pub proof fn lemma_parse_uint_exact(pre: Seq<bool>, v: nat, w: nat, suf: Seq<bool>)
    requires
        v < pow2(w),
    ensures
        parse_uint(pre + ubits(v, w) + suf, pre.len(), w) == (Parsed::Found {
            val: v,
            end: pre.len() + w,
        }),
{
    let bits = pre + ubits(v, w) + suf;
    assert(bits.subrange(pre.len() as int, (pre.len() + w) as int) =~= ubits(v, w));
    lemma_ubits_value(v, w);
}

/// A single bit round-trips at its position.
pub proof fn lemma_parse_bit_exact(pre: Seq<bool>, b: bool, suf: Seq<bool>)
    ensures
        parse_bit(pre + seq![b] + suf, pre.len()) == (Parsed::Found {
            val: b,
            end: pre.len() + 1,
        }),
{
    let bits = pre + seq![b] + suf;
    assert(bits[pre.len() as int] == b);
}

/// A raw value of kind `rk` round-trips at its position.
pub proof fn lemma_parse_value_exact(pre: Seq<bool>, raw: nat, rk: NumberKind, suf: Seq<bool>)
    requires
        rk.raw_valid(raw),
    ensures
        parse_value(pre + ubits(raw, rk.physical_bits_spec()) + suf, pre.len(), rk) == (
        Parsed::Found { val: raw, end: pre.len() + rk.physical_bits_spec() }),
{
    lemma_raw_lt_pow2(rk, raw);
    lemma_parse_uint_exact(pre, raw, rk.physical_bits_spec(), suf);
}

/// A GCD coded against `upper_bound` round-trips at its position: a legal
/// divisor of a positive bound comes back as itself, and the canonical GCD
/// of a single-point bound takes no bits.
pub proof fn lemma_parse_gcd_exact(pre: Seq<bool>, ub: nat, g: nat, suf: Seq<bool>)
    requires
        g >= 1,
        ub == 0 ==> g == 1,
        ub > 0 ==> g <= ub,
    ensures
        parse_gcd(pre + gcd_bits(ub, g) + suf, pre.len(), ub) == (Parsed::Found {
            val: g,
            end: pre.len() + gcd_bits(ub, g).len(),
        }),
{
    if bit_len(ub) == 0 {
        assert(pre + gcd_bits(ub, g) + suf =~= pre + suf);
    } else {
        lemma_bit_len_bound(ub);
        lemma_parse_uint_exact(pre, g, bit_len(ub), suf);
    }
}

/// A two's-complement moment of width `w` round-trips through its raw
/// pattern.
pub proof fn lemma_moment_raw_round_trip(v: int, w: nat)
    requires
        w >= 1,
        moment_fits(v, w),
    ensures
        raw_of_moment(v, w) < pow2(w),
        moment_of_raw(raw_of_moment(v, w), w) == v,
{
    lemma_pow2_unfold(w);
}

/// The delta moments round-trip at their position: parsing
/// `pre + ser_moments(ms, w) + suf` at `pre.len()` yields `ms` and stops
/// right after them.
pub proof fn lemma_parse_moments_exact(pre: Seq<bool>, ms: Seq<int>, w: nat, suf: Seq<bool>)
    requires
        1 <= w,
        forall|i: int| 0 <= i < ms.len() ==> moment_fits(#[trigger] ms[i], w),
    ensures
        parse_moments(pre + ser_moments(ms, w) + suf, pre.len(), w, ms.len()) == (Parsed::Found {
            val: ms,
            end: pre.len() + ser_moments(ms, w).len(),
        }),
    decreases ms.len(),
{
    let bits = pre + ser_moments(ms, w) + suf;
    if ms.len() == 0 {
        assert(bits =~= pre + suf);
        assert(parse_moments(bits, pre.len(), w, 0) == (Parsed::Found {
            val: Seq::<int>::empty(),
            end: pre.len(),
        }));
        assert(Seq::<int>::empty() =~= ms);
    } else {
        let rest = ms.subrange(1, ms.len() as int);
        let raw0 = raw_of_moment(ms[0], w);
        let u0 = ubits(raw0, w);
        lemma_moment_raw_round_trip(ms[0], w);
        assert(ser_moments(ms, w) == u0 + ser_moments(rest, w));
        assert(bits =~= pre + u0 + (ser_moments(rest, w) + suf));
        lemma_parse_uint_exact(pre, raw0, w, ser_moments(rest, w) + suf);
        assert(bits =~= (pre + u0) + ser_moments(rest, w) + suf);
        lemma_parse_moments_exact(pre + u0, rest, w, suf);
        match parse_moments(bits, pre.len() + w, w, rest.len()) {
            Parsed::Found { val, end } => {
                assert(seq![moment_of_raw(raw0, w)] + val =~= ms);
            },
            Parsed::Fail { kind } => {},
        }
    }
}

} // verus!
