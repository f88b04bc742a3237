//! The numeric-type abstraction.
//!
//! Inside a chunk the number type is fixed, so the codec dispatches on a
//! `NumberKind` tag at the file-header boundary and thereafter works on the
//! raw `PHYSICAL_BITS`-wide wire pattern of each value, held in a `u128`.
//! Every supported type maps its raw pattern into a linearly ordered
//! unsigned domain (`unsigned_of_raw`): the identity for unsigned integers,
//! an offset by the minimum for signed integers and timestamps, and the
//! monotonic sign-magnitude transform for floats, implemented by integer
//! operations on the raw IEEE-754 bits.

use crate::bits::lemma_pow2_constants;
use vstd::arithmetic::power2::{lemma_pow2_strictly_increases, lemma_pow2_unfold, pow2};
use vstd::prelude::*;

verus! {

broadcast use vstd::arithmetic::power2::lemma_pow2_pos;

/// Parts per second of a nanosecond-precision timestamp.
pub const NANOS_PER_SEC: u128 = 1_000_000_000;

/// Parts per second of a microsecond-precision timestamp.
pub const MICROS_PER_SEC: u128 = 1_000_000;

/// The supported number types. `I128` is not a standalone chunk type: it is
/// the signed companion the timestamp types delta-encode into.
#[derive(Clone, Copy, Debug, PartialEq, Eq, Structural)]
pub enum NumberKind {
    I16,
    I32,
    I64,
    I128,
    U16,
    U32,
    U64,
    F32,
    F64,
    TimestampNanos96,
    TimestampMicros96,
}

impl NumberKind {
    /// The unique tag identifying this type in the file header. The
    /// timestamp types are fixed at 8 and 9 by the format.
    pub open spec fn header_byte_spec(self) -> u8 {
        match self {
            NumberKind::I16 => 1,
            NumberKind::I32 => 2,
            NumberKind::I64 => 3,
            NumberKind::U16 => 4,
            NumberKind::U32 => 5,
            NumberKind::U64 => 6,
            NumberKind::F32 => 7,
            NumberKind::TimestampNanos96 => 8,
            NumberKind::TimestampMicros96 => 9,
            NumberKind::F64 => 10,
            NumberKind::I128 => 11,
        }
    }

    /// Executable form of `header_byte_spec`.
    pub fn header_byte(self) -> (r: u8)
        ensures
            r == self.header_byte_spec(),
    {
        match self {
            NumberKind::I16 => 1,
            NumberKind::I32 => 2,
            NumberKind::I64 => 3,
            NumberKind::U16 => 4,
            NumberKind::U32 => 5,
            NumberKind::U64 => 6,
            NumberKind::F32 => 7,
            NumberKind::TimestampNanos96 => 8,
            NumberKind::TimestampMicros96 => 9,
            NumberKind::F64 => 10,
            NumberKind::I128 => 11,
        }
    }

    /// The serialized width of one raw value in the bitstream.
    pub open spec fn physical_bits_spec(self) -> nat {
        match self {
            NumberKind::I16 => 16,
            NumberKind::I32 => 32,
            NumberKind::I64 => 64,
            NumberKind::I128 => 128,
            NumberKind::U16 => 16,
            NumberKind::U32 => 32,
            NumberKind::U64 => 64,
            NumberKind::F32 => 32,
            NumberKind::F64 => 64,
            NumberKind::TimestampNanos96 => 96,
            NumberKind::TimestampMicros96 => 96,
        }
    }

    /// Executable form of `physical_bits_spec`.
    pub fn physical_bits(self) -> (r: usize)
        ensures
            r == self.physical_bits_spec(),
            r <= 128,
    {
        match self {
            NumberKind::I16 => 16,
            NumberKind::I32 => 32,
            NumberKind::I64 => 64,
            NumberKind::I128 => 128,
            NumberKind::U16 => 16,
            NumberKind::U32 => 32,
            NumberKind::U64 => 64,
            NumberKind::F32 => 32,
            NumberKind::F64 => 64,
            NumberKind::TimestampNanos96 => 96,
            NumberKind::TimestampMicros96 => 96,
        }
    }

    /// The width of the unsigned companion domain. The 96-bit timestamps
    /// offset into a full 128-bit unsigned domain.
    pub open spec fn unsigned_bits_spec(self) -> nat {
        match self {
            NumberKind::TimestampNanos96 => 128,
            NumberKind::TimestampMicros96 => 128,
            _ => self.physical_bits_spec(),
        }
    }

    /// Executable form of `unsigned_bits_spec`.
    pub fn unsigned_bits(self) -> (r: usize)
        ensures
            r == self.unsigned_bits_spec(),
            r <= 128,
    {
        match self {
            NumberKind::TimestampNanos96 => 128,
            NumberKind::TimestampMicros96 => 128,
            _ => self.physical_bits(),
        }
    }

    /// The signed companion type deltas of this type are expressed in.
    pub open spec fn signed_kind_spec(self) -> NumberKind {
        match self {
            NumberKind::I16 => NumberKind::I16,
            NumberKind::U16 => NumberKind::I16,
            NumberKind::I32 => NumberKind::I32,
            NumberKind::U32 => NumberKind::I32,
            NumberKind::F32 => NumberKind::I32,
            NumberKind::I64 => NumberKind::I64,
            NumberKind::U64 => NumberKind::I64,
            NumberKind::F64 => NumberKind::I64,
            NumberKind::I128 => NumberKind::I128,
            NumberKind::TimestampNanos96 => NumberKind::I128,
            NumberKind::TimestampMicros96 => NumberKind::I128,
        }
    }

    /// Executable form of `signed_kind_spec`.
    pub fn signed_kind(self) -> (r: NumberKind)
        ensures
            r == self.signed_kind_spec(),
    {
        match self {
            NumberKind::I16 => NumberKind::I16,
            NumberKind::U16 => NumberKind::I16,
            NumberKind::I32 => NumberKind::I32,
            NumberKind::U32 => NumberKind::I32,
            NumberKind::F32 => NumberKind::I32,
            NumberKind::I64 => NumberKind::I64,
            NumberKind::U64 => NumberKind::I64,
            NumberKind::F64 => NumberKind::I64,
            NumberKind::I128 => NumberKind::I128,
            NumberKind::TimestampNanos96 => NumberKind::I128,
            NumberKind::TimestampMicros96 => NumberKind::I128,
        }
    }

    /// The parts-per-second resolution of a timestamp kind.
    pub open spec fn ts_parts_per_sec_spec(self) -> nat {
        match self {
            NumberKind::TimestampNanos96 => NANOS_PER_SEC as nat,
            NumberKind::TimestampMicros96 => MICROS_PER_SEC as nat,
            _ => 0,
        }
    }

    /// Whether this kind is one of the two timestamp kinds.
    pub open spec fn is_timestamp(self) -> bool {
        self == NumberKind::TimestampNanos96 || self == NumberKind::TimestampMicros96
    }

    /// The largest raw wire pattern that denotes a value of this kind. For
    /// timestamps the raw pattern is `parts - MIN`, which spans
    /// `parts_per_sec * 2^64` instants; for every other kind any
    /// `PHYSICAL_BITS` pattern is a value.
    pub open spec fn max_raw(self) -> nat {
        if self.is_timestamp() {
            (self.ts_parts_per_sec_spec() * pow2(64) - 1) as nat
        } else {
            (pow2(self.physical_bits_spec()) - 1) as nat
        }
    }

    /// Whether `raw` denotes a value of this kind.
    pub open spec fn raw_valid(self, raw: nat) -> bool {
        raw <= self.max_raw()
    }

    /// The fixed distance between a timestamp raw pattern and its position
    /// in the 128-bit unsigned domain: `2^127 + MIN` with
    /// `MIN == -parts_per_sec * 2^63`.
    pub open spec fn ts_unsigned_offset(self) -> nat {
        (pow2(127) - self.ts_parts_per_sec_spec() * pow2(63)) as nat
    }

    /// The order-preserving map from a raw wire pattern into the unsigned
    /// domain: the identity for unsigned integers, an offset by the minimum
    /// for signed integers and timestamps, a flip of the sign bit for
    /// non-negative floats and a flip of all bits for negative floats.
    pub open spec fn unsigned_of_raw(self, raw: nat) -> nat {
        match self {
            NumberKind::U16 | NumberKind::U32 | NumberKind::U64 => raw,
            NumberKind::I16 | NumberKind::I32 | NumberKind::I64 | NumberKind::I128 => {
                let half = pow2((self.physical_bits_spec() - 1) as nat);
                if raw < half {
                    raw + half
                } else {
                    (raw - half) as nat
                }
            },
            NumberKind::F32 | NumberKind::F64 => {
                let half = pow2((self.physical_bits_spec() - 1) as nat);
                if raw < half {
                    raw + half
                } else {
                    (pow2(self.physical_bits_spec()) - 1 - raw) as nat
                }
            },
            NumberKind::TimestampNanos96 | NumberKind::TimestampMicros96 => raw
                + self.ts_unsigned_offset(),
        }
    }

    /// The inverse of `unsigned_of_raw`.
    pub open spec fn raw_of_unsigned(self, u: nat) -> nat {
        match self {
            NumberKind::U16 | NumberKind::U32 | NumberKind::U64 => u,
            NumberKind::I16 | NumberKind::I32 | NumberKind::I64 | NumberKind::I128 => {
                let half = pow2((self.physical_bits_spec() - 1) as nat);
                if u < half {
                    u + half
                } else {
                    (u - half) as nat
                }
            },
            NumberKind::F32 | NumberKind::F64 => {
                let half = pow2((self.physical_bits_spec() - 1) as nat);
                if u < half {
                    (pow2(self.physical_bits_spec()) - 1 - u) as nat
                } else {
                    (u - half) as nat
                }
            },
            NumberKind::TimestampNanos96 | NumberKind::TimestampMicros96 => (u
                - self.ts_unsigned_offset()) as nat,
        }
    }

    /// Whether `u` lies in the image of `unsigned_of_raw` for this kind.
    pub open spec fn unsigned_valid(self, u: nat) -> bool {
        if self.is_timestamp() {
            self.ts_unsigned_offset() <= u <= self.ts_unsigned_offset() + self.max_raw()
        } else {
            u < pow2(self.physical_bits_spec())
        }
    }

    /// The natural total order of this kind on raw patterns: numeric order
    /// for integers and timestamps, and the monotone bit-mapping order for
    /// floats (`NaN` patterns included).
    pub open spec fn value_le(self, a: nat, b: nat) -> bool {
        match self {
            NumberKind::I16 | NumberKind::I32 | NumberKind::I64 | NumberKind::I128 => {
                let w = self.physical_bits_spec();
                let ai: int = if a < pow2((w - 1) as nat) {
                    a as int
                } else {
                    a - pow2(w)
                };
                let bi: int = if b < pow2((w - 1) as nat) {
                    b as int
                } else {
                    b - pow2(w)
                };
                ai <= bi
            },
            NumberKind::F32 | NumberKind::F64 => self.unsigned_of_raw(a) <= self.unsigned_of_raw(
                b,
            ),
            _ => a <= b,
        }
    }

    /// The largest raw pattern of a timestamp kind, as an executable value.
    fn max_raw_exec(self) -> (r: u128)
        requires
            self.is_timestamp(),
        ensures
            r == self.max_raw(),
    {
        proof {
            lemma_pow2_constants();
        }
        match self {
            NumberKind::TimestampNanos96 => NANOS_PER_SEC * 0x1_0000_0000_0000_0000 - 1,
            _ => MICROS_PER_SEC * 0x1_0000_0000_0000_0000 - 1,
        }
    }

    /// Whether `raw` denotes a value of this kind, executably.
    pub fn check_raw_valid(self, raw: u128) -> (r: bool)
        requires
            (raw as nat) < pow2(self.physical_bits_spec()),
        ensures
            r == self.raw_valid(raw as nat),
    {
        proof {
            lemma_pow2_constants();
        }
        match self {
            NumberKind::TimestampNanos96 | NumberKind::TimestampMicros96 => raw
                <= self.max_raw_exec(),
            _ => true,
        }
    }

    /// Map a raw wire pattern into the unsigned domain.
    pub fn to_unsigned(self, raw: u128) -> (r: u128)
        requires
            self.raw_valid(raw as nat),
        ensures
            r as nat == self.unsigned_of_raw(raw as nat),
            self.unsigned_valid(r as nat),
    {
        proof {
            lemma_pow2_constants();
        }
        match self {
            NumberKind::U16 | NumberKind::U32 | NumberKind::U64 => raw,
            NumberKind::I16 => {
                if raw < 0x8000 {
                    raw + 0x8000
                } else {
                    raw - 0x8000
                }
            },
            NumberKind::I32 => {
                if raw < 0x8000_0000 {
                    raw + 0x8000_0000
                } else {
                    raw - 0x8000_0000
                }
            },
            NumberKind::I64 => {
                if raw < 0x8000_0000_0000_0000 {
                    raw + 0x8000_0000_0000_0000
                } else {
                    raw - 0x8000_0000_0000_0000
                }
            },
            NumberKind::I128 => {
                if raw < 0x8000_0000_0000_0000_0000_0000_0000_0000 {
                    raw + 0x8000_0000_0000_0000_0000_0000_0000_0000
                } else {
                    raw - 0x8000_0000_0000_0000_0000_0000_0000_0000
                }
            },
            NumberKind::F32 => {
                if raw < 0x8000_0000 {
                    raw + 0x8000_0000
                } else {
                    0xFFFF_FFFF - raw
                }
            },
            NumberKind::F64 => {
                if raw < 0x8000_0000_0000_0000 {
                    raw + 0x8000_0000_0000_0000
                } else {
                    0xFFFF_FFFF_FFFF_FFFF - raw
                }
            },
            NumberKind::TimestampNanos96 => {
                raw + (0x8000_0000_0000_0000_0000_0000_0000_0000 - NANOS_PER_SEC
                    * 0x8000_0000_0000_0000)
            },
            NumberKind::TimestampMicros96 => {
                raw + (0x8000_0000_0000_0000_0000_0000_0000_0000 - MICROS_PER_SEC
                    * 0x8000_0000_0000_0000)
            },
        }
    }

    /// Map a value of the unsigned domain back to its raw wire pattern.
    pub fn from_unsigned(self, u: u128) -> (r: u128)
        requires
            self.unsigned_valid(u as nat),
        ensures
            r as nat == self.raw_of_unsigned(u as nat),
            self.raw_valid(r as nat),
    {
        proof {
            lemma_pow2_constants();
            lemma_from_unsigned_valid(self, u as nat);
        }
        match self {
            NumberKind::U16 | NumberKind::U32 | NumberKind::U64 => u,
            NumberKind::I16 => {
                if u < 0x8000 {
                    u + 0x8000
                } else {
                    u - 0x8000
                }
            },
            NumberKind::I32 => {
                if u < 0x8000_0000 {
                    u + 0x8000_0000
                } else {
                    u - 0x8000_0000
                }
            },
            NumberKind::I64 => {
                if u < 0x8000_0000_0000_0000 {
                    u + 0x8000_0000_0000_0000
                } else {
                    u - 0x8000_0000_0000_0000
                }
            },
            NumberKind::I128 => {
                if u < 0x8000_0000_0000_0000_0000_0000_0000_0000 {
                    u + 0x8000_0000_0000_0000_0000_0000_0000_0000
                } else {
                    u - 0x8000_0000_0000_0000_0000_0000_0000_0000
                }
            },
            NumberKind::F32 => {
                if u < 0x8000_0000 {
                    0xFFFF_FFFF - u
                } else {
                    u - 0x8000_0000
                }
            },
            NumberKind::F64 => {
                if u < 0x8000_0000_0000_0000 {
                    0xFFFF_FFFF_FFFF_FFFF - u
                } else {
                    u - 0x8000_0000_0000_0000
                }
            },
            NumberKind::TimestampNanos96 => {
                u - (0x8000_0000_0000_0000_0000_0000_0000_0000 - NANOS_PER_SEC
                    * 0x8000_0000_0000_0000)
            },
            NumberKind::TimestampMicros96 => {
                u - (0x8000_0000_0000_0000_0000_0000_0000_0000 - MICROS_PER_SEC
                    * 0x8000_0000_0000_0000)
            },
        }
    }
}

/// `unsigned_of_raw` lands in the unsigned domain and `raw_of_unsigned`
/// inverts it: the map is a bijection between raw patterns and their
/// unsigned images.
pub proof fn lemma_unsigned_of_raw_bijective(kind: NumberKind, raw: nat)
    requires
        kind.raw_valid(raw),
    ensures
        kind.unsigned_valid(kind.unsigned_of_raw(raw)),
        kind.raw_of_unsigned(kind.unsigned_of_raw(raw)) == raw,
{
    lemma_pow2_constants();
    if !kind.is_timestamp() {
        lemma_pow2_unfold(kind.physical_bits_spec());
    }
}

/// `raw_of_unsigned` lands among the valid raw patterns and
/// `unsigned_of_raw` inverts it.
pub proof fn lemma_from_unsigned_valid(kind: NumberKind, u: nat)
    requires
        kind.unsigned_valid(u),
    ensures
        kind.raw_valid(kind.raw_of_unsigned(u)),
        kind.unsigned_of_raw(kind.raw_of_unsigned(u)) == u,
{
    lemma_pow2_constants();
    if !kind.is_timestamp() {
        lemma_pow2_unfold(kind.physical_bits_spec());
    }
}

/// Every valid raw pattern fits in the kind's physical width.
pub proof fn lemma_raw_lt_pow2(kind: NumberKind, raw: nat)
    requires
        kind.raw_valid(raw),
    ensures
        raw < pow2(kind.physical_bits_spec()),
{
    lemma_pow2_constants();
    if kind.is_timestamp() {
        assert(kind.ts_parts_per_sec_spec() <= pow2(30));
        vstd::arithmetic::power2::lemma_pow2_adds(30, 64);
        vstd::arithmetic::mul::lemma_mul_inequality(
            kind.ts_parts_per_sec_spec() as int,
            pow2(30) as int,
            pow2(64) as int,
        );
        lemma_pow2_strictly_increases(94, 96);
    }
}

/// Every value of the unsigned domain fits in the kind's unsigned width.
pub proof fn lemma_unsigned_lt_pow2(kind: NumberKind, u: nat)
    requires
        kind.unsigned_valid(u),
    ensures
        u < pow2(kind.unsigned_bits_spec()),
{
    lemma_pow2_constants();
    if kind.is_timestamp() {
        assert(kind.ts_parts_per_sec_spec() <= pow2(30));
        vstd::arithmetic::power2::lemma_pow2_adds(30, 63);
        vstd::arithmetic::mul::lemma_mul_inequality(
            kind.ts_parts_per_sec_spec() as int,
            pow2(30) as int,
            pow2(63) as int,
        );
        vstd::arithmetic::power2::lemma_pow2_adds(30, 64);
        vstd::arithmetic::mul::lemma_mul_inequality(
            kind.ts_parts_per_sec_spec() as int,
            pow2(30) as int,
            pow2(64) as int,
        );
        lemma_pow2_strictly_increases(93, 127);
        lemma_pow2_strictly_increases(94, 127);
        lemma_pow2_unfold(128);
    }
}

/// The map into the unsigned domain preserves each kind's natural total
/// order: `a <= b` in the kind's order exactly when
/// `unsigned_of_raw(a) <= unsigned_of_raw(b)`.
pub proof fn lemma_to_unsigned_preserves_order(kind: NumberKind, a: nat, b: nat)
    requires
        kind.raw_valid(a),
        kind.raw_valid(b),
    ensures
        kind.value_le(a, b) <==> kind.unsigned_of_raw(a) <= kind.unsigned_of_raw(b),
{
    lemma_pow2_constants();
    if !kind.is_timestamp() {
        lemma_pow2_unfold(kind.physical_bits_spec());
    }
}

} // verus!
