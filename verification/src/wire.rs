//! The bit-exact wire format of chunk metadata, as mathematics.
//!
//! `ser_meta` gives the exact bit string a well-formed chunk-metadata value
//! serializes to, and `parse_meta` gives the exact outcome of parsing any
//! bit string. The executable reader and writer in `chunk_metadata` are
//! proved equal to these functions, and `lemma_parse_ser_meta` proves that
//! parsing a serialized value recovers it.

use crate::bits::{bit_len, bits_value, ubits};
use crate::data_types::NumberKind;
use crate::errors::ErrorKind;
use crate::flags::Flags;
use vstd::arithmetic::power2::pow2;
use vstd::prelude::*;

verus! {

/// The mathematical content of one prefix-table row: raw bounds, code bits,
/// and coding parameters, free of machine widths.
pub struct PrefixModel {
    pub count: nat,
    pub code: Seq<bool>,
    pub lower: nat,
    pub upper: nat,
    pub run_len_jumpstart: Option<nat>,
    pub gcd: nat,
}

/// The mathematical content of the prefix metadata of a chunk.
pub enum PrefixMetaModel {
    Simple { prefixes: Seq<PrefixModel> },
    Delta { prefixes: Seq<PrefixModel>, moments: Seq<int> },
}

/// The mathematical content of a chunk's metadata.
pub struct MetaModel {
    pub n: nat,
    pub compressed_body_size: nat,
    pub kind: NumberKind,
    pub prefix_metadata: PrefixMetaModel,
}

/// The outcome of parsing at a bit position: a value and the position after
/// it, or the kind of failure.
pub enum Parsed<A> {
    Found { val: A, end: nat },
    Fail { kind: ErrorKind },
}

impl PrefixModel {
    /// The width of this row's offset range in the unsigned domain.
    pub open spec fn range(self, rk: NumberKind) -> nat {
        (rk.unsigned_of_raw(self.upper) - rk.unsigned_of_raw(self.lower)) as nat
    }
}

impl MetaModel {
    /// The kind the prefix table ranges over: the chunk's own kind, or its
    /// signed companion when the body is delta-encoded.
    pub open spec fn row_kind(self) -> NumberKind {
        match self.prefix_metadata {
            PrefixMetaModel::Simple { .. } => self.kind,
            PrefixMetaModel::Delta { .. } => self.kind.signed_kind_spec(),
        }
    }

    /// The rows of the prefix table.
    pub open spec fn prefixes(self) -> Seq<PrefixModel> {
        match self.prefix_metadata {
            PrefixMetaModel::Simple { prefixes } => prefixes,
            PrefixMetaModel::Delta { prefixes, .. } => prefixes,
        }
    }
}

// ---------------------------------------------------------------------------
// Serialization
// ---------------------------------------------------------------------------

/// The jumpstart field: a presence bit, then the value in 5 bits.
pub open spec fn ser_jumpstart(j: Option<nat>) -> Seq<bool> {
    match j {
        Option::None => seq![false],
        Option::Some(v) => seq![true] + ubits(v, 5),
    }
}

/// A GCD coded against upper bound `ub`, in `ceil(log2(ub + 1))` bits; a
/// single-point range needs no bits at all.
pub open spec fn gcd_bits(ub: nat, g: nat) -> Seq<bool> {
    if bit_len(ub) == 0 {
        Seq::<bool>::empty()
    } else {
        ubits(g, bit_len(ub))
    }
}

/// One prefix row: count, lower, upper, code length, code, jumpstart, and —
/// unless a chunk-wide GCD is in force — the per-row GCD.
pub open spec fn ser_prefix(p: PrefixModel, rk: NumberKind, cw: nat, has_common: bool) -> Seq<
    bool,
> {
    ubits(p.count, cw) + ubits(p.lower, rk.physical_bits_spec()) + ubits(
        p.upper,
        rk.physical_bits_spec(),
    ) + ubits(p.code.len(), 5) + p.code + ser_jumpstart(p.run_len_jumpstart) + (if has_common {
        Seq::<bool>::empty()
    } else {
        gcd_bits(p.range(rk), p.gcd)
    })
}

/// The rows of the prefix table, in order.
pub open spec fn ser_prefixes(
    ps: Seq<PrefixModel>,
    rk: NumberKind,
    cw: nat,
    has_common: bool,
) -> Seq<bool>
    decreases ps.len(),
{
    if ps.len() == 0 {
        Seq::<bool>::empty()
    } else {
        ser_prefix(ps[0], rk, cw, has_common) + ser_prefixes(
            ps.subrange(1, ps.len() as int),
            rk,
            cw,
            has_common,
        )
    }
}

/// The chunk-wide GCD shared by every constrained row, if one exists. A row
/// whose range holds a single offset contributes no constraint.
pub open spec fn common_gcd_from(
    ps: Seq<PrefixModel>,
    rk: NumberKind,
    acc: Option<nat>,
) -> Option<nat>
    decreases ps.len(),
{
    if ps.len() == 0 {
        acc
    } else {
        let rest = ps.subrange(1, ps.len() as int);
        if ps[0].range(rk) == 0 {
            common_gcd_from(rest, rk, acc)
        } else {
            match acc {
                Option::None => common_gcd_from(rest, rk, Option::Some(ps[0].gcd)),
                Option::Some(g) => if ps[0].gcd == g {
                    common_gcd_from(rest, rk, acc)
                } else {
                    Option::None
                },
            }
        }
    }
}

/// `common_gcd_from` started with no candidate.
pub open spec fn common_gcd_model(ps: Seq<PrefixModel>, rk: NumberKind) -> Option<nat> {
    common_gcd_from(ps, rk, Option::None)
}

/// Whether the rows are serialized without per-row GCDs.
pub open spec fn has_common(f: Flags, ps: Seq<PrefixModel>, rk: NumberKind) -> bool {
    !f.use_gcds || common_gcd_model(ps, rk) is Some
}

/// The gcd block: absent when GCDs are off for the file; otherwise one bit
/// for a chunk-wide GCD, and the GCD itself, coded against the unsigned
/// domain's maximum, when the bit is set.
pub open spec fn ser_gcd_block(f: Flags, ps: Seq<PrefixModel>, rk: NumberKind) -> Seq<bool> {
    if !f.use_gcds {
        Seq::<bool>::empty()
    } else {
        match common_gcd_model(ps, rk) {
            Option::Some(g) => seq![true] + ubits(g, rk.unsigned_bits_spec()),
            Option::None => seq![false],
        }
    }
}

/// The whole prefix table: row count, gcd block, rows.
pub open spec fn ser_table(ps: Seq<PrefixModel>, rk: NumberKind, f: Flags, n: nat) -> Seq<bool> {
    ubits(ps.len(), 4) + ser_gcd_block(f, ps, rk) + ser_prefixes(
        ps,
        rk,
        bit_len(n),
        has_common(f, ps, rk),
    )
}

/// Whether a signed moment is representable in `w` bits of two's complement.
pub open spec fn moment_fits(v: int, w: nat) -> bool {
    -pow2((w - 1) as nat) <= v < pow2((w - 1) as nat)
}

/// The `w`-bit two's-complement raw pattern of a signed moment.
pub open spec fn raw_of_moment(v: int, w: nat) -> nat {
    if v >= 0 {
        v as nat
    } else {
        (v + pow2(w)) as nat
    }
}

/// The signed moment denoted by a `w`-bit raw pattern.
pub open spec fn moment_of_raw(raw: nat, w: nat) -> int {
    if raw < pow2((w - 1) as nat) {
        raw as int
    } else {
        raw - pow2(w)
    }
}

/// The delta moments, each as a `w`-bit raw value.
pub open spec fn ser_moments(ms: Seq<int>, w: nat) -> Seq<bool>
    decreases ms.len(),
{
    if ms.len() == 0 {
        Seq::<bool>::empty()
    } else {
        ubits(raw_of_moment(ms[0], w), w) + ser_moments(ms.subrange(1, ms.len() as int), w)
    }
}

/// The full metadata section, before its trailing byte-alignment padding:
/// entry count, compressed body size, moments when delta encoding is on,
/// prefix table.
pub open spec fn ser_meta(m: MetaModel, f: Flags) -> Seq<bool> {
    ubits(m.n, 24) + ubits(m.compressed_body_size, 32) + (match m.prefix_metadata {
        PrefixMetaModel::Simple { prefixes } => ser_table(prefixes, m.kind, f, m.n),
        PrefixMetaModel::Delta { prefixes, moments } => ser_moments(
            moments,
            m.kind.signed_kind_spec().physical_bits_spec(),
        ) + ser_table(prefixes, m.kind.signed_kind_spec(), f, m.n),
    })
}

// ---------------------------------------------------------------------------
// Well-formedness
// ---------------------------------------------------------------------------

/// What must hold of one row for it to be expressible on the wire: bounds
/// are valid values in order, every width fits its field, and the GCD is a
/// legal divisor of the range.
pub open spec fn wf_prefix(p: PrefixModel, rk: NumberKind, cw: nat) -> bool {
    &&& p.count < pow2(cw)
    &&& rk.raw_valid(p.lower)
    &&& rk.raw_valid(p.upper)
    &&& rk.unsigned_of_raw(p.lower) <= rk.unsigned_of_raw(p.upper)
    &&& p.code.len() < 32
    &&& match p.run_len_jumpstart {
        Option::None => true,
        Option::Some(j) => j < 32,
    }
    &&& p.gcd >= 1
    &&& p.range(rk) % p.gcd == 0
}

/// What must hold of the rows' GCDs for the table to survive a round trip:
/// all ones when GCDs are off for the file; all equal to the chunk-wide GCD
/// when one is in force; and canonical (one) on unconstrained rows
/// otherwise, since no bits carry them.
pub open spec fn wf_gcds(ps: Seq<PrefixModel>, rk: NumberKind, f: Flags) -> bool {
    if !f.use_gcds {
        forall|i: int| 0 <= i < ps.len() ==> #[trigger] ps[i].gcd == 1
    } else {
        match common_gcd_model(ps, rk) {
            Option::Some(g) => forall|i: int| 0 <= i < ps.len() ==> #[trigger] ps[i].gcd == g,
            Option::None => forall|i: int|
                0 <= i < ps.len() && #[trigger] ps[i].range(rk) == 0 ==> ps[i].gcd == 1,
        }
    }
}

/// A well-formed prefix table for a chunk of `n` entries.
pub open spec fn wf_table(ps: Seq<PrefixModel>, rk: NumberKind, f: Flags, n: nat) -> bool {
    &&& ps.len() < 16
    &&& forall|i: int| 0 <= i < ps.len() ==> wf_prefix(#[trigger] ps[i], rk, bit_len(n))
    &&& wf_gcds(ps, rk, f)
}

/// A well-formed chunk-metadata value under `f`: every field fits its wire
/// width, the variant agrees with the delta encoding order, and the moments
/// fit the signed companion's width.
pub open spec fn wf_meta(m: MetaModel, f: Flags) -> bool {
    &&& f.valid()
    &&& m.n < pow2(24)
    &&& m.compressed_body_size < pow2(32)
    &&& match m.prefix_metadata {
        PrefixMetaModel::Simple { prefixes } => {
            &&& f.delta_encoding_order == 0
            &&& wf_table(prefixes, m.kind, f, m.n)
        },
        PrefixMetaModel::Delta { prefixes, moments } => {
            &&& f.delta_encoding_order >= 1
            &&& moments.len() == f.delta_encoding_order
            &&& forall|i: int|
                0 <= i < moments.len() ==> moment_fits(
                    #[trigger] moments[i],
                    m.kind.signed_kind_spec().physical_bits_spec(),
                )
            &&& wf_table(prefixes, m.kind.signed_kind_spec(), f, m.n)
        },
    }
}

// ---------------------------------------------------------------------------
// Parsing
// ---------------------------------------------------------------------------

/// Parse a `w`-bit big-endian unsigned integer.
pub open spec fn parse_uint(bits: Seq<bool>, pos: nat, w: nat) -> Parsed<nat> {
    if pos + w <= bits.len() {
        Parsed::Found {
            val: bits_value(bits.subrange(pos as int, (pos + w) as int)),
            end: pos + w,
        }
    } else {
        Parsed::Fail { kind: ErrorKind::InsufficientData }
    }
}

/// Parse a single bit.
pub open spec fn parse_bit(bits: Seq<bool>, pos: nat) -> Parsed<bool> {
    if pos + 1 <= bits.len() {
        Parsed::Found { val: bits[pos as int], end: pos + 1 }
    } else {
        Parsed::Fail { kind: ErrorKind::InsufficientData }
    }
}

/// Parse a raw value of kind `rk`: its physical bits, rejected when the
/// pattern denotes no value of the kind.
pub open spec fn parse_value(bits: Seq<bool>, pos: nat, rk: NumberKind) -> Parsed<nat> {
    match parse_uint(bits, pos, rk.physical_bits_spec()) {
        Parsed::Found { val, end } => if rk.raw_valid(val) {
            Parsed::Found { val, end }
        } else {
            Parsed::Fail { kind: ErrorKind::InvalidArgument }
        },
        Parsed::Fail { kind } => Parsed::Fail { kind },
    }
}

/// Parse a GCD coded against upper bound `ub`. A zero GCD is corruption; a
/// zero-width field denotes the canonical GCD of a single-point range.
pub open spec fn parse_gcd(bits: Seq<bool>, pos: nat, ub: nat) -> Parsed<nat> {
    if bit_len(ub) == 0 {
        Parsed::Found { val: 1, end: pos }
    } else {
        match parse_uint(bits, pos, bit_len(ub)) {
            Parsed::Found { val, end } => if val == 0 {
                Parsed::Fail { kind: ErrorKind::Corruption }
            } else {
                Parsed::Found { val, end }
            },
            Parsed::Fail { kind } => Parsed::Fail { kind },
        }
    }
}

/// Parse one prefix row. Bounds out of order, and a GCD that does not
/// divide the range, are corruption.
pub open spec fn parse_row(
    bits: Seq<bool>,
    pos: nat,
    rk: NumberKind,
    cw: nat,
    common: Option<nat>,
) -> Parsed<PrefixModel> {
    match parse_uint(bits, pos, cw) {
        Parsed::Fail { kind } => Parsed::Fail { kind },
        Parsed::Found { val: count, end: p1 } => match parse_value(bits, p1, rk) {
            Parsed::Fail { kind } => Parsed::Fail { kind },
            Parsed::Found { val: lower, end: p2 } => match parse_value(bits, p2, rk) {
                Parsed::Fail { kind } => Parsed::Fail { kind },
                Parsed::Found { val: upper, end: p3 } => if rk.unsigned_of_raw(lower)
                    > rk.unsigned_of_raw(upper) {
                    Parsed::Fail { kind: ErrorKind::Corruption }
                } else {
                    match parse_uint(bits, p3, 5) {
                        Parsed::Fail { kind } => Parsed::Fail { kind },
                        Parsed::Found { val: code_len, end: p4 } => if p4 + code_len
                            <= bits.len() {
                            parse_row_after_code(
                                bits,
                                p4 + code_len,
                                rk,
                                PrefixModel {
                                    count,
                                    code: bits.subrange(p4 as int, (p4 + code_len) as int),
                                    lower,
                                    upper,
                                    run_len_jumpstart: Option::None,
                                    gcd: 0,
                                },
                                common,
                            )
                        } else {
                            Parsed::Fail { kind: ErrorKind::InsufficientData }
                        },
                    }
                },
            },
        },
    }
}

/// The tail of a prefix row after its code bits: the jumpstart field, then
/// the row's GCD, from the chunk-wide one or from its own bits.
pub open spec fn parse_row_after_code(
    bits: Seq<bool>,
    pos: nat,
    rk: NumberKind,
    partial: PrefixModel,
    common: Option<nat>,
) -> Parsed<PrefixModel> {
    match parse_bit(bits, pos) {
        Parsed::Fail { kind } => Parsed::Fail { kind },
        Parsed::Found { val: has_jump, end: p5 } => {
            let jump_parsed: Parsed<Option<nat>> = if has_jump {
                match parse_uint(bits, p5, 5) {
                    Parsed::Fail { kind } => Parsed::Fail { kind },
                    Parsed::Found { val: j, end: p6 } => Parsed::Found {
                        val: Option::Some(j),
                        end: p6,
                    },
                }
            } else {
                Parsed::Found { val: Option::None, end: p5 }
            };
            match jump_parsed {
                Parsed::Fail { kind } => Parsed::Fail { kind },
                Parsed::Found { val: jump, end: p6 } => {
                    let range = (rk.unsigned_of_raw(partial.upper) - rk.unsigned_of_raw(
                        partial.lower,
                    )) as nat;
                    let gcd_parsed: Parsed<nat> = match common {
                        Option::Some(g) => Parsed::Found { val: g, end: p6 },
                        Option::None => parse_gcd(bits, p6, range),
                    };
                    match gcd_parsed {
                        Parsed::Fail { kind } => Parsed::Fail { kind },
                        Parsed::Found { val: g, end: p7 } => if range % g != 0 {
                            Parsed::Fail { kind: ErrorKind::Corruption }
                        } else {
                            Parsed::Found {
                                val: PrefixModel {
                                    run_len_jumpstart: jump,
                                    gcd: g,
                                    ..partial
                                },
                                end: p7,
                            }
                        },
                    }
                },
            }
        },
    }
}

/// Parse `cnt` prefix rows in order.
pub open spec fn parse_rows(
    bits: Seq<bool>,
    pos: nat,
    rk: NumberKind,
    cw: nat,
    common: Option<nat>,
    cnt: nat,
) -> Parsed<Seq<PrefixModel>>
    decreases cnt,
{
    if cnt == 0 {
        Parsed::Found { val: Seq::<PrefixModel>::empty(), end: pos }
    } else {
        match parse_row(bits, pos, rk, cw, common) {
            Parsed::Fail { kind } => Parsed::Fail { kind },
            Parsed::Found { val: p, end: e } => match parse_rows(
                bits,
                e,
                rk,
                cw,
                common,
                (cnt - 1) as nat,
            ) {
                Parsed::Fail { kind } => Parsed::Fail { kind },
                Parsed::Found { val: rest, end: e2 } => Parsed::Found {
                    val: seq![p] + rest,
                    end: e2,
                },
            },
        }
    }
}

/// Rows already parsed, prepended to the outcome of parsing the rest.
pub open spec fn rows_then(prefix: Seq<PrefixModel>, r: Parsed<Seq<PrefixModel>>) -> Parsed<
    Seq<PrefixModel>,
> {
    match r {
        Parsed::Found { val, end } => Parsed::Found { val: prefix + val, end },
        Parsed::Fail { kind } => Parsed::Fail { kind },
    }
}

/// Moments already parsed, prepended to the outcome of parsing the rest.
pub open spec fn moments_then(prefix: Seq<int>, r: Parsed<Seq<int>>) -> Parsed<Seq<int>> {
    match r {
        Parsed::Found { val, end } => Parsed::Found { val: prefix + val, end },
        Parsed::Fail { kind } => Parsed::Fail { kind },
    }
}

/// Parse the gcd block: the chunk-wide GCD in force for the rows that
/// follow, if any. With GCDs off for the file the block is empty and the
/// chunk-wide GCD is one.
pub open spec fn parse_gcd_block(bits: Seq<bool>, pos: nat, f: Flags, rk: NumberKind) -> Parsed<
    Option<nat>,
> {
    if !f.use_gcds {
        Parsed::Found { val: Option::Some(1nat), end: pos }
    } else {
        match parse_bit(bits, pos) {
            Parsed::Fail { kind } => Parsed::Fail { kind },
            Parsed::Found { val: has, end: e } => if has {
                match parse_gcd(bits, e, (pow2(rk.unsigned_bits_spec()) - 1) as nat) {
                    Parsed::Fail { kind } => Parsed::Fail { kind },
                    Parsed::Found { val: g, end: e2 } => Parsed::Found {
                        val: Option::Some(g),
                        end: e2,
                    },
                }
            } else {
                Parsed::Found { val: Option::None, end: e }
            },
        }
    }
}

/// Parse the whole prefix table of a chunk of `n` entries.
pub open spec fn parse_table(bits: Seq<bool>, pos: nat, rk: NumberKind, f: Flags, n: nat) -> Parsed<
    Seq<PrefixModel>,
> {
    match parse_uint(bits, pos, 4) {
        Parsed::Fail { kind } => Parsed::Fail { kind },
        Parsed::Found { val: n_pref, end: e } => match parse_gcd_block(bits, e, f, rk) {
            Parsed::Fail { kind } => Parsed::Fail { kind },
            Parsed::Found { val: common, end: e2 } => parse_rows(
                bits,
                e2,
                rk,
                bit_len(n),
                common,
                n_pref,
            ),
        },
    }
}

/// Parse `order` delta moments of width `w`.
pub open spec fn parse_moments(bits: Seq<bool>, pos: nat, w: nat, order: nat) -> Parsed<Seq<int>>
    decreases order,
{
    if order == 0 {
        Parsed::Found { val: Seq::<int>::empty(), end: pos }
    } else {
        match parse_uint(bits, pos, w) {
            Parsed::Fail { kind } => Parsed::Fail { kind },
            Parsed::Found { val: raw, end: e } => match parse_moments(
                bits,
                e,
                w,
                (order - 1) as nat,
            ) {
                Parsed::Fail { kind } => Parsed::Fail { kind },
                Parsed::Found { val: rest, end: e2 } => Parsed::Found {
                    val: seq![moment_of_raw(raw, w)] + rest,
                    end: e2,
                },
            },
        }
    }
}

/// The back-patch law: two serializations of the same metadata that differ
/// only in `compressed_body_size` have the same length and the same bits
/// everywhere outside the size field, which holds bits 24 to 55 of the
/// section; overwriting that field in place therefore yields exactly the
/// buffer that writing the final size from the start would have produced.
pub proof fn lemma_back_patch(m1: MetaModel, m2: MetaModel, f: Flags)
    requires
        m2.n == m1.n,
        m2.kind == m1.kind,
        m2.prefix_metadata == m1.prefix_metadata,
        m1.compressed_body_size < pow2(32),
        m2.compressed_body_size < pow2(32),
    ensures
        ser_meta(m2, f).len() == ser_meta(m1, f).len(),
        forall|k: int|
            0 <= k < ser_meta(m1, f).len() && !(24 <= k < 56) ==> ser_meta(m2, f)[k] == ser_meta(
                m1,
                f,
            )[k],
        forall|k: int|
            24 <= k < 56 ==> ser_meta(m2, f)[k] == ubits(m2.compressed_body_size, 32)[k - 24],
{
    let rest = match m1.prefix_metadata {
        PrefixMetaModel::Simple { prefixes } => ser_table(prefixes, m1.kind, f, m1.n),
        PrefixMetaModel::Delta { prefixes, moments } => ser_moments(
            moments,
            m1.kind.signed_kind_spec().physical_bits_spec(),
        ) + ser_table(prefixes, m1.kind.signed_kind_spec(), f, m1.n),
    };
    assert(ser_meta(m1, f) == ubits(m1.n, 24) + ubits(m1.compressed_body_size, 32) + rest);
    assert(ser_meta(m2, f) == ubits(m1.n, 24) + ubits(m2.compressed_body_size, 32) + rest);
    assert(ubits(m1.compressed_body_size, 32).len() == 32);
    assert(ubits(m2.compressed_body_size, 32).len() == 32);
}

/// Parse a whole chunk-metadata section of kind `kind` under flags `f`.
pub open spec fn parse_meta(bits: Seq<bool>, pos: nat, f: Flags, kind: NumberKind) -> Parsed<
    MetaModel,
> {
    match parse_uint(bits, pos, 24) {
        Parsed::Fail { kind: k } => Parsed::Fail { kind: k },
        Parsed::Found { val: n, end: e } => match parse_uint(bits, e, 32) {
            Parsed::Fail { kind: k } => Parsed::Fail { kind: k },
            Parsed::Found { val: cbs, end: e2 } => if f.delta_encoding_order == 0 {
                match parse_table(bits, e2, kind, f, n) {
                    Parsed::Fail { kind: k } => Parsed::Fail { kind: k },
                    Parsed::Found { val: ps, end: e3 } => Parsed::Found {
                        val: MetaModel {
                            n,
                            compressed_body_size: cbs,
                            kind,
                            prefix_metadata: PrefixMetaModel::Simple { prefixes: ps },
                        },
                        end: e3,
                    },
                }
            } else {
                let sk = kind.signed_kind_spec();
                match parse_moments(
                    bits,
                    e2,
                    sk.physical_bits_spec(),
                    f.delta_encoding_order as nat,
                ) {
                    Parsed::Fail { kind: k } => Parsed::Fail { kind: k },
                    Parsed::Found { val: ms, end: e3 } => match parse_table(bits, e3, sk, f, n) {
                        Parsed::Fail { kind: k } => Parsed::Fail { kind: k },
                        Parsed::Found { val: ps, end: e4 } => Parsed::Found {
                            val: MetaModel {
                                n,
                                compressed_body_size: cbs,
                                kind,
                                prefix_metadata: PrefixMetaModel::Delta {
                                    prefixes: ps,
                                    moments: ms,
                                },
                            },
                            end: e4,
                        },
                    },
                }
            },
        },
    }
}

} // verus!
