//! Timestamp types: instants relative to the Unix epoch, stored as a
//! 128-bit count of parts at a type-defined resolution and serialized as a
//! 96-bit on-wire value.
//!
//! A timestamp of `parts_per_sec` resolution holds `parts` with
//! `MIN = parts_per_sec * i64::MIN` and
//! `MAX = parts_per_sec * (i64::MAX + 1) - 1`; on-wire bytes are the twelve
//! big-endian bytes of `parts - MIN`. Conversion to and from a wall-clock
//! instant rounds toward minus infinity, so `subsec_nanos` is always in
//! `[0, 10^9)`.

use crate::errors::{format_i128, format_u128, ErrorKind, QCompressError, QCompressResult};
use std::time::SystemTime;
use vstd::arithmetic::div_mod::{
    lemma_div_multiples_vanish, lemma_fundamental_div_mod, lemma_fundamental_div_mod_converse,
    lemma_mod_bound,
};
use vstd::arithmetic::power2::{
    lemma2_to64, lemma_pow2_adds, lemma_pow2_pos, lemma_pow2_strictly_increases, pow2,
};
use vstd::prelude::*;
use vstd::string::StringExecFns;

verus! {

broadcast use vstd::arithmetic::power2::lemma_pow2_pos;

/// The smallest part count of a timestamp with `pps` parts per second.
pub open spec fn ts_min(pps: int) -> int {
    -pps * 0x8000_0000_0000_0000
}

/// The largest part count of a timestamp with `pps` parts per second.
pub open spec fn ts_max(pps: int) -> int {
    pps * 0x8000_0000_0000_0000 - 1
}

/// The value of a `u64` reinterpreted as a two's-complement `i64`.
pub open spec fn wrap_to_i64(s: u64) -> int {
    if s < 0x8000_0000_0000_0000 {
        s as int
    } else {
        s - 0x1_0000_0000_0000_0000
    }
}

/// Two's-complement negation of an `i64` value.
pub open spec fn wrap_neg_i64(x: int) -> int {
    if x == -0x8000_0000_0000_0000 {
        x
    } else {
        -x
    }
}

/// Two's-complement decrement of an `i64` value.
pub open spec fn wrap_dec_i64(x: int) -> int {
    if x == -0x8000_0000_0000_0000 {
        0x7FFF_FFFF_FFFF_FFFF
    } else {
        x - 1
    }
}

/// The big-endian value of a byte string.
pub open spec fn be_bytes_value(s: Seq<u8>) -> nat
    decreases s.len(),
{
    if s.len() == 0 {
        0
    } else {
        256 * be_bytes_value(s.drop_last()) + s.last() as nat
    }
}

/// The twelve-byte big-endian form of a value below `2^96`: byte `k` holds
/// bits `8*(11-k)` and up.
pub open spec fn be_bytes_of(d: nat, w: nat) -> Seq<u8> {
    Seq::new(w, |k: int| ((d / pow2((8 * (w - 1 - k)) as nat)) % 256) as u8)
}

/// A byte string denotes a value below `256^len`.
pub proof fn lemma_be_bytes_value_bound(s: Seq<u8>)
    ensures
        be_bytes_value(s) < pow2(8 * s.len()),
    decreases s.len(),
{
    lemma2_to64();
    if s.len() > 0 {
        lemma_be_bytes_value_bound(s.drop_last());
        lemma_pow2_adds(8 * (s.len() - 1) as nat, 8);
    }
}

/// Encoding a value below `2^(8w)` as `w` big-endian bytes and reading them
/// back is the identity: the byte round-trip law.
pub proof fn lemma_be_bytes_round_trip(d: nat, w: nat)
    requires
        d < pow2(8 * w),
    ensures
        be_bytes_value(be_bytes_of(d, w)) == d,
    decreases w,
{
    lemma2_to64();
    if w == 0 {
        assert(be_bytes_of(d, 0).len() == 0);
    } else {
        let s = be_bytes_of(d, w);
        assert(s.drop_last() =~= be_bytes_of(d / 256, (w - 1) as nat)) by {
            assert forall|k: int| 0 <= k < w - 1 implies s.drop_last()[k] == be_bytes_of(
                d / 256,
                (w - 1) as nat,
            )[k] by {
                let e = (8 * (w - 1 - k - 1)) as nat;
                lemma_pow2_pos(e);
                vstd::arithmetic::div_mod::lemma_div_denominator(d as int, 256, pow2(e) as int);
                lemma_pow2_adds(8, e);
            }
        }
        assert(d / 256 < pow2(8 * (w - 1) as nat)) by {
            lemma_pow2_adds(8 * (w - 1) as nat, 8);
        }
        lemma_be_bytes_round_trip(d / 256, (w - 1) as nat);
        assert(s.last() as nat == (d / pow2(0)) % 256);
        assert(d / pow2(0) == d);
        lemma_fundamental_div_mod(d as int, 256);
    }
}

/// Declares `std::time::SystemTime` so wall-clock instants can cross the
/// library boundary; the library never looks inside one.
#[verifier::external_type_specification]
#[verifier::external_body]
pub struct ExSystemTime(SystemTime);

/// Relies on `SystemTime::duration_since(UNIX_EPOCH)`: the signed offset of
/// `t` from the epoch as (is at or after epoch, whole seconds, subsecond
/// nanoseconds), where `Duration::subsec_nanos` is below one billion.
#[verifier::external_body]
fn epoch_offset(t: &SystemTime) -> (r: (bool, u64, u32))
    ensures
        r.2 < 1_000_000_000,
{
    match t.duration_since(std::time::UNIX_EPOCH) {
        Ok(dur) => (true, dur.as_secs(), dur.subsec_nanos()),
        Err(e) => {
            let dur = e.duration();
            (false, dur.as_secs(), dur.subsec_nanos())
        },
    }
}

/// Relies on `SystemTime::checked_add` over `UNIX_EPOCH`: the instant
/// `secs` seconds and `nanos` nanoseconds after the epoch, where the
/// platform can represent it.
#[verifier::external_body]
fn epoch_plus(secs: u64, nanos: u32) -> (r: Option<SystemTime>)
    requires
        nanos < 1_000_000_000,
{
    std::time::UNIX_EPOCH.checked_add(std::time::Duration::new(secs, nanos))
}

/// Relies on `SystemTime::checked_sub` over `UNIX_EPOCH`: the instant
/// `secs` seconds and `nanos` nanoseconds before the epoch, where the
/// platform can represent it.
#[verifier::external_body]
fn epoch_minus(secs: u64, nanos: u32) -> (r: Option<SystemTime>)
    requires
        nanos < 1_000_000_000,
{
    std::time::UNIX_EPOCH.checked_sub(std::time::Duration::new(secs, nanos))
}

/// An instant at nanosecond resolution, relative to the Unix epoch; no time
/// zone is stored.
#[derive(Copy, Clone, Debug, Eq, PartialEq)]
pub struct TimestampNanos {
    parts: i128,
}

/// An instant at microsecond resolution, relative to the Unix epoch; no
/// time zone is stored.
#[derive(Copy, Clone, Debug, Eq, PartialEq)]
pub struct TimestampMicros {
    parts: i128,
}

/// Bounds of `s * pps` and `s * pps + frac` over the second range of an
/// `i64` and a fractional part below one second.
proof fn lemma_second_scaling_bounds(s: int, frac: int, pps: int)
    by (nonlinear_arith)
    requires
        -0x8000_0000_0000_0000 <= s <= 0x7FFF_FFFF_FFFF_FFFF,
        0 < pps,
        0 <= frac < pps,
    ensures
        -pps * 0x8000_0000_0000_0000 <= s * pps <= pps * 0x8000_0000_0000_0000 - pps,
        -pps * 0x8000_0000_0000_0000 <= s * pps + frac <= pps * 0x8000_0000_0000_0000 - 1,
{
}

/// A nanosecond count below one second scales down to below one second of
/// parts.
proof fn lemma_subsec_scaling(nanos: int, npp: int, pps: int)
    by (nonlinear_arith)
    requires
        0 <= nanos < 1_000_000_000,
        npp >= 1,
        pps * npp == 1_000_000_000,
    ensures
        0 <= nanos / npp < pps,
{
}

/// The part count `seconds * pps + subsec_nanos / npp`, always a valid
/// timestamp of resolution `pps`.
fn parts_from_secs_and_nanos(seconds: i64, subsec_nanos: u32, pps: i128, npp: u32) -> (r: i128)
    requires
        (pps == 1_000_000_000 && npp == 1) || (pps == 1_000_000 && npp == 1000),
        subsec_nanos < 1_000_000_000,
    ensures
        r as int == seconds as int * pps + subsec_nanos as int / npp as int,
        ts_min(pps as int) <= r as int <= ts_max(pps as int),
{
    proof {
        lemma_subsec_scaling(subsec_nanos as int, npp as int, pps as int);
        lemma_second_scaling_bounds(
            seconds as int,
            subsec_nanos as int / npp as int,
            pps as int,
        );
    }
    seconds as i128 * pps + (subsec_nanos / npp) as i128
}

/// The inverse split of a valid part count into whole seconds (rounding
/// toward minus infinity) and subsecond nanoseconds in `[0, 10^9)`.
fn secs_and_nanos_from_parts(parts: i128, pps: i128, npp: u32) -> (r: (i64, u32))
    requires
        (pps == 1_000_000_000 && npp == 1) || (pps == 1_000_000 && npp == 1000),
        ts_min(pps as int) <= parts as int <= ts_max(pps as int),
    ensures
        parts as int == r.0 as int * pps + r.1 as int / npp as int,
        r.1 < 1_000_000_000,
        r.1 as int % npp as int == 0,
{
    let min = (-pps) * 0x8000_0000_0000_0000i128;
    let diff = (parts - min) as u128;
    let pps_u = pps as u128;
    let secs_off = diff / pps_u;
    let rem = diff % pps_u;
    proof {
        lemma_fundamental_div_mod(diff as int, pps_u as int);
        lemma_mod_bound(diff as int, pps_u as int);
        lemma_split_parts(diff as int, secs_off as int, rem as int, pps as int, npp as int);
        assert((rem * npp) as int / npp as int == rem as int) by {
            lemma_div_multiples_vanish(rem as int, npp as int);
            vstd::arithmetic::mul::lemma_mul_is_commutative(npp as int, rem as int);
        }
        lemma_fundamental_div_mod_converse((rem * npp) as int, npp as int, rem as int, 0);
    }
    let seconds = (-0x8000_0000_0000_0000i128 + secs_off as i128) as i64;
    let subsec_nanos = (rem as u32) * npp;
    (seconds, subsec_nanos)
}

/// Splitting a part offset from the minimum into whole seconds and a
/// remainder: the bounds and the recombination identity.
proof fn lemma_split_parts(diff: int, secs_off: int, rem: int, pps: int, npp: int)
    by (nonlinear_arith)
    requires
        0 < pps,
        1 <= npp,
        pps * npp == 1_000_000_000,
        0 <= diff,
        diff < pps * 0x1_0000_0000_0000_0000,
        diff == pps * secs_off + rem,
        0 <= rem < pps,
    ensures
        0 <= secs_off < 0x1_0000_0000_0000_0000,
        rem * npp < 1_000_000_000,
        (-0x8000_0000_0000_0000 + secs_off) * pps == -pps * 0x8000_0000_0000_0000 + pps
            * secs_off,
{
}

/// The part count of the wall-clock offset reported by `epoch_offset`,
/// mirroring two's-complement conversion of the second count.
fn parts_from_epoch_offset(after: bool, secs: u64, nanos: u32, pps: i128, npp: u32) -> (r: i128)
    requires
        (pps == 1_000_000_000 && npp == 1) || (pps == 1_000_000 && npp == 1000),
        nanos < 1_000_000_000,
    ensures
        ts_min(pps as int) <= r as int <= ts_max(pps as int),
        after ==> r as int == wrap_to_i64(secs) * pps + nanos as int / npp as int,
        !after && nanos == 0 ==> r as int == wrap_neg_i64(wrap_to_i64(secs)) * pps,
        !after && nanos != 0 ==> r as int == wrap_dec_i64(wrap_neg_i64(wrap_to_i64(secs))) * pps
            + (1_000_000_000 - nanos as int) / npp as int,
{
    let s64: i64 = if secs < 0x8000_0000_0000_0000 {
        secs as i64
    } else {
        ((secs - 0x8000_0000_0000_0000) as i64) + (-0x8000_0000_0000_0000i64)
    };
    if after {
        parts_from_secs_and_nanos(s64, nanos, pps, npp)
    } else {
        let ceil: i64 = if s64 == -0x8000_0000_0000_0000i64 {
            -0x8000_0000_0000_0000i64
        } else {
            -s64
        };
        if nanos == 0 {
            parts_from_secs_and_nanos(ceil, 0, pps, npp)
        } else {
            let floor: i64 = if ceil == -0x8000_0000_0000_0000i64 {
                0x7FFF_FFFF_FFFF_FFFFi64
            } else {
                ceil - 1
            };
            parts_from_secs_and_nanos(floor, 1_000_000_000 - nanos, pps, npp)
        }
    }
}

impl TimestampNanos {
    /// The stored part count: billionths of a second since the epoch.
    pub closed spec fn total(self) -> int {
        self.parts as int
    }

    /// Whether the instant lies in the representable range.
    pub open spec fn is_valid(self) -> bool {
        ts_min(1_000_000_000) <= self.total() <= ts_max(1_000_000_000)
    }

    /// A timestamp of `parts` billionths of a second, rejected with
    /// `InvalidArgument` outside `[MIN, MAX]`.
    pub fn new(parts: i128) -> (r: QCompressResult<Self>)
        ensures
            match r {
                Ok(t) => t.total() == parts as int && t.is_valid(),
                Err(e) => {
                    &&& !(ts_min(1_000_000_000) <= parts as int <= ts_max(1_000_000_000))
                    &&& e.kind == ErrorKind::InvalidArgument
                },
            },
    {
        if parts > 1_000_000_000i128 * 0x8000_0000_0000_0000i128 - 1 || parts < (
        -1_000_000_000i128) * 0x8000_0000_0000_0000i128 {
            Err(QCompressError::invalid_argument(invalid_timestamp_message(parts, 1_000_000_000)))
        } else {
            Ok(TimestampNanos { parts })
        }
    }

    /// The timestamp `seconds * 10^9 + subsec_nanos` billionths of a second
    /// after the epoch.
    pub fn from_secs_and_nanos(seconds: i64, subsec_nanos: u32) -> (r: Self)
        requires
            subsec_nanos < 1_000_000_000,
        ensures
            r.total() == seconds as int * 1_000_000_000 + subsec_nanos as int,
            r.is_valid(),
    {
        TimestampNanos { parts: parts_from_secs_and_nanos(seconds, subsec_nanos, 1_000_000_000, 1) }
    }

    /// The whole seconds (rounded toward minus infinity) and the subsecond
    /// nanoseconds in `[0, 10^9)` of this instant.
    pub fn to_secs_and_nanos(self) -> (r: (i64, u32))
        requires
            self.is_valid(),
        ensures
            self.total() == r.0 as int * 1_000_000_000 + r.1 as int,
            r.1 < 1_000_000_000,
    {
        secs_and_nanos_from_parts(self.parts, 1_000_000_000, 1)
    }

    /// The stored part count.
    pub fn to_total_parts(self) -> (r: i128)
        ensures
            r as int == self.total(),
    {
        self.parts
    }

    /// The instant `t` as a timestamp, truncating toward minus infinity to
    /// this resolution.
    pub fn from_system_time(t: &SystemTime) -> (r: Self)
        ensures
            r.is_valid(),
    {
        let (after, secs, nanos) = epoch_offset(t);
        TimestampNanos { parts: parts_from_epoch_offset(after, secs, nanos, 1_000_000_000, 1) }
    }

    /// This instant as a wall-clock value, where the platform can represent
    /// it.
    pub fn to_system_time(self) -> (r: Option<SystemTime>)
        requires
            self.is_valid(),
    {
        timestamp_to_system_time(self.parts, 1_000_000_000, 1)
    }

    /// The order-preserving map into the unsigned domain: a wrapping
    /// subtraction of the least `i128`.
    pub fn to_unsigned(self) -> (r: u128)
        ensures
            r as int == self.total() + 0x8000_0000_0000_0000_0000_0000_0000_0000,
    {
        ts_unsigned_of_parts(self.parts)
    }

    /// The inverse of `to_unsigned`.
    pub fn from_unsigned(off: u128) -> (r: Self)
        ensures
            r.total() == off as int - 0x8000_0000_0000_0000_0000_0000_0000_0000,
    {
        TimestampNanos { parts: ts_parts_of_unsigned(off) }
    }

    /// The signed-delta domain: the part count itself.
    pub fn to_signed(self) -> (r: i128)
        ensures
            r as int == self.total(),
    {
        self.parts
    }

    /// The inverse of `to_signed`; the range is not rechecked here, as
    /// decoded deltas are validated at a later stage.
    pub fn from_signed(signed: i128) -> (r: Self)
        ensures
            r.total() == signed as int,
    {
        TimestampNanos { parts: signed }
    }

    /// The twelve on-wire bytes: `parts - MIN` in big-endian.
    pub fn to_bytes(self) -> (r: Vec<u8>)
        requires
            self.is_valid(),
        ensures
            r@ == be_bytes_of((self.total() - ts_min(1_000_000_000)) as nat, 12),
    {
        ts_to_bytes(self.parts, 1_000_000_000)
    }

    /// The instant denoted by twelve on-wire bytes, rejected with
    /// `InvalidArgument` when the offset exceeds `MAX - MIN`.
    pub fn from_bytes(bytes: Vec<u8>) -> (r: QCompressResult<Self>)
        requires
            bytes@.len() == 12,
        ensures
            match r {
                Ok(t) => {
                    &&& t.total() == ts_min(1_000_000_000) + be_bytes_value(bytes@)
                    &&& t.is_valid()
                },
                Err(e) => {
                    &&& ts_min(1_000_000_000) + be_bytes_value(bytes@) > ts_max(1_000_000_000)
                    &&& e.kind == ErrorKind::InvalidArgument
                },
            },
    {
        let val = ts_bytes_value(&bytes);
        proof {
            crate::bits::lemma_pow2_constants();
        }
        Self::new((-1_000_000_000i128) * 0x8000_0000_0000_0000i128 + val as i128)
    }
}

impl TimestampMicros {
    /// The stored part count: millionths of a second since the epoch.
    pub closed spec fn total(self) -> int {
        self.parts as int
    }

    /// Whether the instant lies in the representable range.
    pub open spec fn is_valid(self) -> bool {
        ts_min(1_000_000) <= self.total() <= ts_max(1_000_000)
    }

    /// A timestamp of `parts` millionths of a second, rejected with
    /// `InvalidArgument` outside `[MIN, MAX]`.
    pub fn new(parts: i128) -> (r: QCompressResult<Self>)
        ensures
            match r {
                Ok(t) => t.total() == parts as int && t.is_valid(),
                Err(e) => {
                    &&& !(ts_min(1_000_000) <= parts as int <= ts_max(1_000_000))
                    &&& e.kind == ErrorKind::InvalidArgument
                },
            },
    {
        if parts > 1_000_000i128 * 0x8000_0000_0000_0000i128 - 1 || parts < (-1_000_000i128)
            * 0x8000_0000_0000_0000i128 {
            Err(QCompressError::invalid_argument(invalid_timestamp_message(parts, 1_000_000)))
        } else {
            Ok(TimestampMicros { parts })
        }
    }

    /// The timestamp `seconds * 10^6 + subsec_nanos / 1000` millionths of a
    /// second after the epoch.
    pub fn from_secs_and_nanos(seconds: i64, subsec_nanos: u32) -> (r: Self)
        requires
            subsec_nanos < 1_000_000_000,
        ensures
            r.total() == seconds as int * 1_000_000 + subsec_nanos as int / 1000,
            r.is_valid(),
    {
        TimestampMicros { parts: parts_from_secs_and_nanos(seconds, subsec_nanos, 1_000_000, 1000) }
    }

    /// The whole seconds (rounded toward minus infinity) and the subsecond
    /// nanoseconds — a multiple of 1000 in `[0, 10^9)` — of this instant.
    pub fn to_secs_and_nanos(self) -> (r: (i64, u32))
        requires
            self.is_valid(),
        ensures
            self.total() == r.0 as int * 1_000_000 + r.1 as int / 1000,
            r.1 < 1_000_000_000,
            r.1 as int % 1000 == 0,
    {
        secs_and_nanos_from_parts(self.parts, 1_000_000, 1000)
    }

    /// The stored part count.
    pub fn to_total_parts(self) -> (r: i128)
        ensures
            r as int == self.total(),
    {
        self.parts
    }

    /// The instant `t` as a timestamp, truncating toward minus infinity to
    /// this resolution.
    pub fn from_system_time(t: &SystemTime) -> (r: Self)
        ensures
            r.is_valid(),
    {
        let (after, secs, nanos) = epoch_offset(t);
        TimestampMicros { parts: parts_from_epoch_offset(after, secs, nanos, 1_000_000, 1000) }
    }

    /// This instant as a wall-clock value, where the platform can represent
    /// it.
    pub fn to_system_time(self) -> (r: Option<SystemTime>)
        requires
            self.is_valid(),
    {
        timestamp_to_system_time(self.parts, 1_000_000, 1000)
    }

    /// The order-preserving map into the unsigned domain: a wrapping
    /// subtraction of the least `i128`.
    pub fn to_unsigned(self) -> (r: u128)
        ensures
            r as int == self.total() + 0x8000_0000_0000_0000_0000_0000_0000_0000,
    {
        ts_unsigned_of_parts(self.parts)
    }

    /// The inverse of `to_unsigned`.
    pub fn from_unsigned(off: u128) -> (r: Self)
        ensures
            r.total() == off as int - 0x8000_0000_0000_0000_0000_0000_0000_0000,
    {
        TimestampMicros { parts: ts_parts_of_unsigned(off) }
    }

    /// The signed-delta domain: the part count itself.
    pub fn to_signed(self) -> (r: i128)
        ensures
            r as int == self.total(),
    {
        self.parts
    }

    /// The inverse of `to_signed`; the range is not rechecked here, as
    /// decoded deltas are validated at a later stage.
    pub fn from_signed(signed: i128) -> (r: Self)
        ensures
            r.total() == signed as int,
    {
        TimestampMicros { parts: signed }
    }

    /// The twelve on-wire bytes: `parts - MIN` in big-endian.
    pub fn to_bytes(self) -> (r: Vec<u8>)
        requires
            self.is_valid(),
        ensures
            r@ == be_bytes_of((self.total() - ts_min(1_000_000)) as nat, 12),
    {
        ts_to_bytes(self.parts, 1_000_000)
    }

    /// The instant denoted by twelve on-wire bytes, rejected with
    /// `InvalidArgument` when the offset exceeds `MAX - MIN`.
    pub fn from_bytes(bytes: Vec<u8>) -> (r: QCompressResult<Self>)
        requires
            bytes@.len() == 12,
        ensures
            match r {
                Ok(t) => {
                    &&& t.total() == ts_min(1_000_000) + be_bytes_value(bytes@)
                    &&& t.is_valid()
                },
                Err(e) => {
                    &&& ts_min(1_000_000) + be_bytes_value(bytes@) > ts_max(1_000_000)
                    &&& e.kind == ErrorKind::InvalidArgument
                },
            },
    {
        let val = ts_bytes_value(&bytes);
        proof {
            crate::bits::lemma_pow2_constants();
        }
        Self::new((-1_000_000i128) * 0x8000_0000_0000_0000i128 + val as i128)
    }
}

/// The part count shifted by `2^127` into the unsigned domain.
fn ts_unsigned_of_parts(parts: i128) -> (r: u128)
    ensures
        r as int == parts as int + 0x8000_0000_0000_0000_0000_0000_0000_0000,
{
    if parts >= 0 {
        (parts as u128) + 0x8000_0000_0000_0000_0000_0000_0000_0000u128
    } else {
        ((parts + 0x4000_0000_0000_0000_0000_0000_0000_0000i128)
            + 0x4000_0000_0000_0000_0000_0000_0000_0000i128) as u128
    }
}

/// The inverse shift out of the unsigned domain.
fn ts_parts_of_unsigned(off: u128) -> (r: i128)
    ensures
        r as int == off as int - 0x8000_0000_0000_0000_0000_0000_0000_0000,
{
    if off >= 0x8000_0000_0000_0000_0000_0000_0000_0000u128 {
        (off - 0x8000_0000_0000_0000_0000_0000_0000_0000u128) as i128
    } else {
        ((off as i128) - 0x4000_0000_0000_0000_0000_0000_0000_0000i128)
            - 0x4000_0000_0000_0000_0000_0000_0000_0000i128
    }
}

/// The twelve on-wire bytes of a valid part count: `parts - MIN` in
/// big-endian.
fn ts_to_bytes(parts: i128, pps: i128) -> (r: Vec<u8>)
    requires
        pps == 1_000_000_000 || pps == 1_000_000,
        ts_min(pps as int) <= parts as int <= ts_max(pps as int),
    ensures
        r@ == be_bytes_of((parts as int - ts_min(pps as int)) as nat, 12),
{
    proof {
        crate::bits::lemma_pow2_constants();
        lemma_pow2_adds(64, 24);
    }
    let min = (-pps) * 0x8000_0000_0000_0000i128;
    let diff = (parts - min) as u128;
    let ghost target = be_bytes_of(diff as nat, 12);
    let mut out: Vec<u8> = Vec::new();
    let mut p: u128 = 0x100_0000_0000_0000_0000_0000;
    let mut k: usize = 0;
    proof {
        assert(pow2(88) == 0x100_0000_0000_0000_0000_0000) by {
            lemma2_to64();
            lemma_pow2_adds(64, 24);
        }
    }
    while k < 12
        invariant
            k <= 12,
            target == be_bytes_of(diff as nat, 12),
            out@ == target.subrange(0, k as int),
            k < 12 ==> p == pow2((8 * (11 - k)) as nat),
        decreases 12 - k,
    {
        let byte = ((diff / p) % 256) as u8;
        proof {
            assert(target[k as int] == ((diff as nat / pow2((8 * (11 - k)) as nat)) % 256) as u8);
            assert(target.subrange(0, k + 1 as int) =~= target.subrange(0, k as int).push(
                target[k as int],
            ));
            if k + 1 < 12 {
                vstd::arithmetic::power2::lemma_pow2_subtracts(8, (8 * (11 - k)) as nat);
                lemma2_to64();
            }
        }
        out.push(byte);
        p = p / 256;
        k = k + 1;
    }
    proof {
        assert(target.subrange(0, 12) =~= target);
    }
    out
}

/// The big-endian value of twelve on-wire bytes.
fn ts_bytes_value(bytes: &Vec<u8>) -> (r: u128)
    requires
        bytes@.len() == 12,
    ensures
        r as nat == be_bytes_value(bytes@),
        (r as nat) < pow2(96),
{
    let mut acc: u128 = 0;
    let mut i: usize = 0;
    proof {
        assert(bytes@.subrange(0, 0) =~= Seq::<u8>::empty());
    }
    while i < 12
        invariant
            i <= 12,
            bytes@.len() == 12,
            acc as nat == be_bytes_value(bytes@.subrange(0, i as int)),
        decreases 12 - i,
    {
        let ghost chunk = bytes@.subrange(0, i as int);
        proof {
            lemma_be_bytes_value_bound(chunk);
            crate::bits::lemma_pow2_constants();
            assert(pow2(8 * chunk.len()) <= pow2(88)) by {
                crate::bits::lemma_pow2_constants();
                if 8 * chunk.len() < 88 {
                    lemma_pow2_strictly_increases(8 * chunk.len(), 88);
                }
            }
            assert(bytes@.subrange(0, (i + 1) as int).drop_last() =~= chunk);
        }
        acc = 256 * acc + (bytes[i] as u128);
        i = i + 1;
    }
    proof {
        assert(bytes@.subrange(0, 12) =~= bytes@);
        lemma_be_bytes_value_bound(bytes@);
    }
    acc
}

/// The error message naming an out-of-range part count and its resolution.
fn invalid_timestamp_message(parts: i128, pps: u128) -> String {
    String::from_str("invalid timestamp with ").concat(format_i128(parts).as_str()).concat(
        "/",
    ).concat(format_u128(pps).as_str()).concat(" of a second")
}

/// A valid part count as a wall-clock instant, where the platform can
/// represent it.
fn timestamp_to_system_time(parts: i128, pps: i128, npp: u32) -> (r: Option<SystemTime>)
    requires
        (pps == 1_000_000_000 && npp == 1) || (pps == 1_000_000 && npp == 1000),
        ts_min(pps as int) <= parts as int <= ts_max(pps as int),
{
    let (seconds, subsec_nanos) = secs_and_nanos_from_parts(parts, pps, npp);
    if seconds >= 0 {
        epoch_plus(seconds as u64, subsec_nanos)
    } else if subsec_nanos == 0 {
        let neg: u64 = if seconds == -0x8000_0000_0000_0000i64 {
            0x8000_0000_0000_0000u64
        } else {
            (-seconds) as u64
        };
        epoch_minus(neg, 0)
    } else {
        let neg_minus_one: u64 = if seconds == -0x8000_0000_0000_0000i64 {
            0x7FFF_FFFF_FFFF_FFFFu64
        } else {
            ((-seconds) as u64) - 1
        };
        epoch_minus(neg_minus_one, 1_000_000_000 - subsec_nanos)
    }
}

} // verus!
