//! GCD utilities: computing a greatest common divisor, detecting a
//! chunk-wide common GCD over the prefix table, and coding a GCD value in
//! as few bits as its context permits.

use crate::bit_reader::BitReader;
use crate::bit_writer::BitWriter;
use crate::bits::{bit_len, bit_length_u128, lemma_bit_len_bound};
use crate::data_types::NumberKind;
use crate::errors::{ErrorKind, QCompressError, QCompressResult};
use crate::prefix::{models_of, Prefix};
use crate::wire::{common_gcd_from, common_gcd_model, gcd_bits, parse_gcd, Parsed};
use vstd::arithmetic::div_mod::{lemma_fundamental_div_mod, lemma_mod_multiples_vanish,
    lemma_mod_self_0};
use vstd::prelude::*;
use vstd::string::StringExecFns;

verus! {

/// `d` divides `n`.
pub open spec fn divides(d: nat, n: nat) -> bool {
    d != 0 && n % d == 0
}

/// Given `d` divides `y > 0`, `d` divides `x` exactly when `d` divides
/// `x % y`: reducing modulo a multiple of `d` keeps divisibility by `d`.
proof fn lemma_common_divisors_mod(x: nat, y: nat)
    requires
        y > 0,
    ensures
        forall|d: nat|
            (#[trigger] divides(d, y) && divides(d, (x % y) as nat)) <==> (divides(d, x) && divides(
                d,
                y,
            )),
{
    assert forall|d: nat|
        (#[trigger] divides(d, y) && divides(d, (x % y) as nat)) <==> (divides(d, x) && divides(
            d,
            y,
        )) by {
        if d != 0 && y % d == 0 {
            let q = x as int / y as int;
            let r = x as int % y as int;
            lemma_fundamental_div_mod(x as int, y as int);
            lemma_fundamental_div_mod(y as int, d as int);
            let m = y as int / d as int;
            assert(y as int == d * m);
            assert(y * q == d * (m * q)) by (nonlinear_arith)
                requires
                    y as int == d * m,
            ;
            lemma_mod_multiples_vanish(m * q, r, d as int);
            assert(x as int == d * (m * q) + r);
            assert(x as int % d as int == r % d as int);
        }
    }
}

/// The greatest common divisor: it divides both arguments, and every common
/// divisor of the arguments divides it.
pub fn gcd(a: u128, b: u128) -> (r: u128)
    requires
        a > 0 || b > 0,
    ensures
        divides(r as nat, a as nat),
        divides(r as nat, b as nat),
        forall|d: nat| divides(d, a as nat) && divides(d, b as nat) ==> divides(d, r as nat),
{
    let mut x = a;
    let mut y = b;
    while y != 0
        invariant
            x > 0 || y > 0,
            forall|d: nat|
                (#[trigger] divides(d, x as nat) && divides(d, y as nat)) <==> (divides(d, a as nat)
                    && divides(d, b as nat)),
        decreases y,
    {
        let t = x % y;
        proof {
            lemma_common_divisors_mod(x as nat, y as nat);
            assert forall|d: nat|
                (#[trigger] divides(d, y as nat) && divides(d, t as nat)) <==> (divides(d, a as nat)
                    && divides(d, b as nat)) by {
                assert((divides(d, y as nat) && divides(d, (x % y) as nat)) <==> (divides(
                    d,
                    x as nat,
                ) && divides(d, y as nat)));
                assert((divides(d, x as nat) && divides(d, y as nat)) <==> (divides(d, a as nat)
                    && divides(d, b as nat)));
            }
        }
        x = y;
        y = t;
    }
    proof {
        lemma_mod_self_0(x as int);
        assert(divides(x as nat, x as nat));
        assert(divides(x as nat, 0nat));
    }
    x
}

/// The chunk-wide GCD shared by every constrained row of the table, if one
/// exists; a row whose bounds coincide constrains nothing.
pub fn common_gcd_for_chunk_meta(prefixes: &Vec<Prefix>, rk: NumberKind) -> (r: Option<u128>)
    requires
        forall|i: int|
            0 <= i < prefixes@.len() ==> {
                &&& rk.raw_valid((#[trigger] prefixes@[i]).lower as nat)
                &&& rk.raw_valid(prefixes@[i].upper as nat)
                &&& rk.unsigned_of_raw(prefixes@[i].lower as nat) <= rk.unsigned_of_raw(
                    prefixes@[i].upper as nat,
                )
            },
    ensures
        match r {
            Option::Some(g) => common_gcd_model(models_of(prefixes@), rk) == Option::Some(
                g as nat,
            ),
            Option::None => common_gcd_model(models_of(prefixes@), rk) is None,
        },
{
    let ghost models = models_of(prefixes@);
    let mut acc: Option<u128> = Option::None;
    let mut i: usize = 0;
    proof {
        assert(models.subrange(0, models.len() as int) =~= models);
    }
    while i < prefixes.len()
        invariant
            i <= prefixes@.len(),
            models == models_of(prefixes@),
            forall|k: int|
                0 <= k < prefixes@.len() ==> {
                    &&& rk.raw_valid((#[trigger] prefixes@[k]).lower as nat)
                    &&& rk.raw_valid(prefixes@[k].upper as nat)
                    &&& rk.unsigned_of_raw(prefixes@[k].lower as nat) <= rk.unsigned_of_raw(
                        prefixes@[k].upper as nat,
                    )
                },
            common_gcd_model(models, rk) == common_gcd_from(
                models.subrange(i as int, models.len() as int),
                rk,
                match acc {
                    Option::None => Option::<nat>::None,
                    Option::Some(g) => Option::Some(g as nat),
                },
            ),
        decreases prefixes@.len() - i,
    {
        let p = &prefixes[i];
        let lower_u = rk.to_unsigned(p.lower);
        let upper_u = rk.to_unsigned(p.upper);
        let range = upper_u - lower_u;
        let ghost rest = models.subrange(i as int, models.len() as int);
        proof {
            assert(rest[0] == models[i as int]);
            assert(models[i as int] == prefixes@[i as int]@);
            assert(rest.subrange(1, rest.len() as int) =~= models.subrange(
                i + 1,
                models.len() as int,
            ));
        }
        if range != 0 {
            match acc {
                Option::None => {
                    acc = Option::Some(p.gcd);
                },
                Option::Some(g) => {
                    if p.gcd != g {
                        return Option::None;
                    }
                },
            }
        }
        i = i + 1;
    }
    proof {
        assert(models.subrange(models.len() as int, models.len() as int)
            =~= Seq::<crate::wire::PrefixModel>::empty());
    }
    acc
}

/// Read a GCD coded against `upper_bound`, in `ceil(log2(upper_bound + 1))`
/// bits. A single-point bound takes no bits and denotes the canonical GCD
/// of one; a zero GCD is corruption.
pub fn read_gcd(upper_bound: u128, reader: &mut BitReader) -> (r: QCompressResult<u128>)
    ensures
        final(reader)@ == old(reader)@,
        match r {
            Ok(g) => parse_gcd(old(reader)@, old(reader).pos(), upper_bound as nat)
                == (Parsed::Found { val: g as nat, end: final(reader).pos() }),
            Err(e) => parse_gcd(old(reader)@, old(reader).pos(), upper_bound as nat) == (
            Parsed::<nat>::Fail { kind: e.kind }),
        },
{
    let w = bit_length_u128(upper_bound);
    if w == 0 {
        return Ok(1);
    }
    match reader.read_u128(w) {
        Err(e) => Err(e),
        Ok(v) => {
            if v == 0 {
                Err(
                    QCompressError::corruption(
                        String::from_str("prefix gcd must be at least 1"),
                    ),
                )
            } else {
                Ok(v)
            }
        },
    }
}

/// Write a GCD coded against `upper_bound`, in `ceil(log2(upper_bound + 1))`
/// bits; against a single-point bound nothing is written.
pub fn write_gcd(upper_bound: u128, value: u128, writer: &mut BitWriter)
    requires
        value >= 1,
        upper_bound > 0 ==> value <= upper_bound,
    ensures
        final(writer)@ == old(writer)@ + gcd_bits(upper_bound as nat, value as nat),
{
    let w = bit_length_u128(upper_bound);
    if w == 0 {
        proof {
            assert(old(writer)@ + gcd_bits(upper_bound as nat, value as nat) =~= old(writer)@);
        }
        return ;
    }
    proof {
        lemma_bit_len_bound(upper_bound as nat);
    }
    writer.write_u128(value, w);
}

} // verus!
