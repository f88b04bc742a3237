//! The chunk-metadata section: its data model and its bit-exact
//! (de)serialization.
//!
//! `ChunkMetadata::write_to` is proved to append exactly
//! `ser_meta(self@, flags)` followed by the byte-alignment padding, and
//! `ChunkMetadata::parse_from` is proved to return exactly what the
//! specification parser `parse_meta` returns, success and failure alike.

use crate::bit_reader::BitReader;
use crate::bit_writer::{pad_len, BitWriter};
use crate::bits::{bit_len, lemma_bit_len_all_ones, lemma_bit_len_le, lemma_pow2_constants};
use crate::data_types::{
    lemma_raw_lt_pow2, lemma_unsigned_lt_pow2, NumberKind, MICROS_PER_SEC, NANOS_PER_SEC,
};
use crate::errors::{format_i128, format_u128, ErrorKind, QCompressError, QCompressResult};
use crate::flags::{
    Flags, BITS_TO_ENCODE_COMPRESSED_BODY_SIZE, BITS_TO_ENCODE_CODE_LEN, BITS_TO_ENCODE_JUMPSTART,
    BITS_TO_ENCODE_N_ENTRIES, BITS_TO_ENCODE_N_PREFIXES,
};
use crate::gcd_utils::{common_gcd_for_chunk_meta, read_gcd, write_gcd};
use crate::prefix::{models_of, Prefix};
use crate::wire::{
    common_gcd_model, has_common, moment_fits, moment_of_raw, moments_then, parse_gcd_block,
    parse_meta, parse_moments, parse_row, parse_rows, parse_table, parse_uint, parse_value,
    raw_of_moment, rows_then, ser_gcd_block, ser_jumpstart, ser_meta, ser_moments, ser_prefix,
    ser_prefixes, ser_table, wf_meta, wf_prefix, wf_table, MetaModel, Parsed, PrefixMetaModel,
    PrefixModel,
};
use vstd::arithmetic::power2::{lemma_pow2_strictly_increases, pow2};
use vstd::prelude::*;
use vstd::string::StringExecFns;

verus! {

broadcast use vstd::arithmetic::power2::lemma_pow2_pos;

/// The ghost image of an optional chunk-wide GCD.
pub open spec fn opt_nat(o: Option<u128>) -> Option<nat> {
    match o {
        Option::None => Option::None,
        Option::Some(g) => Option::Some(g as nat),
    }
}

/// The initial state of the order-k finite-difference transform: one signed
/// moment per order, consumed by the decoder to bootstrap the inverse
/// transform by repeated prefix sums.
#[derive(Clone, Debug, PartialEq)]
pub struct DeltaMoments {
    /// The moments, in the signed companion domain of the chunk's type.
    pub moments: Vec<i128>,
}

impl View for DeltaMoments {
    type V = Seq<int>;

    open spec fn view(&self) -> Seq<int> {
        self.moments@.map_values(|m: i128| m as int)
    }
}

/// The prefix metadata of a chunk: plain prefixes when delta encoding is
/// off, or prefixes over the signed companion type plus the initial delta
/// moments when it is on.
#[derive(Clone, Debug, PartialEq)]
pub enum PrefixMetadata {
    /// Delta encoding off: the table ranges over the chunk's own type.
    Simple { prefixes: Vec<Prefix> },
    /// Delta encoding on: the table ranges over the signed companion type,
    /// in which the body's deltas are expressed.
    Delta { prefixes: Vec<Prefix>, delta_moments: DeltaMoments },
}

impl View for PrefixMetadata {
    type V = PrefixMetaModel;

    open spec fn view(&self) -> PrefixMetaModel {
        match self {
            PrefixMetadata::Simple { prefixes } => PrefixMetaModel::Simple {
                prefixes: models_of(prefixes@),
            },
            PrefixMetadata::Delta { prefixes, delta_moments } => PrefixMetaModel::Delta {
                prefixes: models_of(prefixes@),
                moments: delta_moments@,
            },
        }
    }
}

/// The metadata of one chunk: its entry count, the byte length of the
/// compressed body that follows the section, and how the body was coded.
#[derive(Clone, Debug, PartialEq)]
pub struct ChunkMetadata {
    /// The count of numbers in the chunk.
    pub n: usize,
    /// The compressed byte length of the body immediately following this
    /// section.
    pub compressed_body_size: usize,
    /// The number type of the chunk, fixed per file by the header.
    pub kind: NumberKind,
    /// How the chunk body was compressed.
    pub prefix_metadata: PrefixMetadata,
}

impl View for ChunkMetadata {
    type V = MetaModel;

    open spec fn view(&self) -> MetaModel {
        MetaModel {
            n: self.n as nat,
            compressed_body_size: self.compressed_body_size as nat,
            kind: self.kind,
            prefix_metadata: self.prefix_metadata@,
        }
    }
}

/// Sign-extend a `w`-bit raw pattern into the signed companion value, for a
/// signed integer kind.
fn moment_from_raw(kind: NumberKind, raw: u128) -> (v: i128)
    requires
        kind == NumberKind::I16 || kind == NumberKind::I32 || kind == NumberKind::I64 || kind
            == NumberKind::I128,
        (raw as nat) < pow2(kind.physical_bits_spec()),
    ensures
        v as int == moment_of_raw(raw as nat, kind.physical_bits_spec()),
        moment_fits(v as int, kind.physical_bits_spec()),
{
    proof {
        lemma_pow2_constants();
    }
    match kind {
        NumberKind::I16 => {
            if raw < 0x8000 {
                raw as i128
            } else {
                raw as i128 - 0x1_0000
            }
        },
        NumberKind::I32 => {
            if raw < 0x8000_0000 {
                raw as i128
            } else {
                raw as i128 - 0x1_0000_0000
            }
        },
        NumberKind::I64 => {
            if raw < 0x8000_0000_0000_0000 {
                raw as i128
            } else {
                raw as i128 - 0x1_0000_0000_0000_0000
            }
        },
        _ => {
            if raw < 0x8000_0000_0000_0000_0000_0000_0000_0000 {
                raw as i128
            } else {
                ((raw - 0x8000_0000_0000_0000_0000_0000_0000_0000) as i128)
                    - 0x4000_0000_0000_0000_0000_0000_0000_0000
                    - 0x4000_0000_0000_0000_0000_0000_0000_0000
            }
        },
    }
}

/// The `w`-bit two's-complement raw pattern of a signed companion value,
/// for a signed integer kind.
fn moment_to_raw(kind: NumberKind, v: i128) -> (r: u128)
    requires
        kind == NumberKind::I16 || kind == NumberKind::I32 || kind == NumberKind::I64 || kind
            == NumberKind::I128,
        moment_fits(v as int, kind.physical_bits_spec()),
    ensures
        r as nat == raw_of_moment(v as int, kind.physical_bits_spec()),
        (r as nat) < pow2(kind.physical_bits_spec()),
{
    proof {
        lemma_pow2_constants();
    }
    match kind {
        NumberKind::I16 => {
            if v >= 0 {
                v as u128
            } else {
                (v + 0x1_0000) as u128
            }
        },
        NumberKind::I32 => {
            if v >= 0 {
                v as u128
            } else {
                (v + 0x1_0000_0000) as u128
            }
        },
        NumberKind::I64 => {
            if v >= 0 {
                v as u128
            } else {
                (v + 0x1_0000_0000_0000_0000) as u128
            }
        },
        _ => {
            if v >= 0 {
                v as u128
            } else {
                let shifted = (v + 0x4000_0000_0000_0000_0000_0000_0000_0000)
                    + 0x4000_0000_0000_0000_0000_0000_0000_0000;
                (shifted as u128) + 0x8000_0000_0000_0000_0000_0000_0000_0000
            }
        },
    }
}

/// A display form of a raw bound for error messages: the signed value for
/// signed integer kinds, the instant's part count for timestamps, and the
/// raw pattern for unsigned and float kinds.
fn describe_raw(kind: NumberKind, raw: u128) -> String
    requires
        kind.raw_valid(raw as nat),
{
    proof {
        lemma_raw_lt_pow2(kind, raw as nat);
        lemma_pow2_constants();
    }
    match kind {
        NumberKind::I16 | NumberKind::I32 | NumberKind::I64 | NumberKind::I128 => format_i128(
            moment_from_raw(kind, raw),
        ),
        NumberKind::TimestampNanos96 => format_i128(
            raw as i128 - (NANOS_PER_SEC as i128) * 0x8000_0000_0000_0000i128,
        ),
        NumberKind::TimestampMicros96 => format_i128(
            raw as i128 - (MICROS_PER_SEC as i128) * 0x8000_0000_0000_0000i128,
        ),
        _ => format_u128(raw),
    }
}

/// The largest value of the unsigned domain of `rk`.
fn max_unsigned(rk: NumberKind) -> (r: u128)
    ensures
        r as nat == pow2(rk.unsigned_bits_spec()) - 1,
{
    proof {
        lemma_pow2_constants();
    }
    match rk.unsigned_bits() {
        16 => 0xFFFF,
        32 => 0xFFFF_FFFF,
        64 => 0xFFFF_FFFF_FFFF_FFFF,
        _ => 0xFFFF_FFFF_FFFF_FFFF_FFFF_FFFF_FFFF_FFFF,
    }
}

/// Read one raw value of kind `rk`: its physical bits, rejected when the
/// pattern denotes no value of the kind.
fn read_value(reader: &mut BitReader, rk: NumberKind) -> (r: QCompressResult<u128>)
    ensures
        final(reader)@ == old(reader)@,
        match r {
            Ok(v) => {
                &&& parse_value(old(reader)@, old(reader).pos(), rk) == (Parsed::Found {
                    val: v as nat,
                    end: final(reader).pos(),
                })
                &&& rk.raw_valid(v as nat)
            },
            Err(e) => parse_value(old(reader)@, old(reader).pos(), rk) == (Parsed::<nat>::Fail {
                kind: e.kind,
            }),
        },
{
    match reader.read_u128(rk.physical_bits()) {
        Err(e) => Err(e),
        Ok(v) => {
            if rk.check_raw_valid(v) {
                Ok(v)
            } else {
                proof {
                    lemma_pow2_constants();
                }
                let parts_desc = match rk {
                    NumberKind::TimestampNanos96 => format_i128(
                        v as i128 - (NANOS_PER_SEC as i128) * 0x8000_0000_0000_0000i128,
                    ),
                    NumberKind::TimestampMicros96 => format_i128(
                        v as i128 - (MICROS_PER_SEC as i128) * 0x8000_0000_0000_0000i128,
                    ),
                    _ => {
                        proof {
                            assert(false);
                        }
                        format_u128(v)
                    },
                };
                let pps = match rk {
                    NumberKind::TimestampNanos96 => NANOS_PER_SEC,
                    _ => MICROS_PER_SEC,
                };
                Err(
                    QCompressError::invalid_argument(
                        String::from_str("invalid timestamp with ").concat(
                            parts_desc.as_str(),
                        ).concat("/").concat(format_u128(pps).as_str()).concat(" of a second"),
                    ),
                )
            }
        },
    }
}

/// Write one raw value of kind `rk` as its physical bits.
fn write_value(writer: &mut BitWriter, rk: NumberKind, raw: u128)
    requires
        rk.raw_valid(raw as nat),
    ensures
        final(writer)@ == old(writer)@ + crate::bits::ubits(raw as nat, rk.physical_bits_spec()),
{
    proof {
        lemma_raw_lt_pow2(rk, raw as nat);
    }
    writer.write_u128(raw, rk.physical_bits());
}

/// Read one prefix row against the chunk-wide GCD in force, if any.
fn parse_one_prefix(
    reader: &mut BitReader,
    rk: NumberKind,
    cw: usize,
    common: Option<u128>,
) -> (r: QCompressResult<Prefix>)
    requires
        cw <= 32,
        match common {
            Option::Some(g) => g >= 1,
            Option::None => true,
        },
    ensures
        final(reader)@ == old(reader)@,
        match r {
            Ok(p) => parse_row(old(reader)@, old(reader).pos(), rk, cw as nat, opt_nat(common))
                == (Parsed::Found { val: p@, end: final(reader).pos() }),
            Err(e) => parse_row(old(reader)@, old(reader).pos(), rk, cw as nat, opt_nat(common))
                == (Parsed::<PrefixModel>::Fail { kind: e.kind }),
        },
{
    let count = match reader.read_usize(cw) {
        Ok(v) => v,
        Err(e) => {
            return Err(e);
        },
    };
    let lower = match read_value(reader, rk) {
        Ok(v) => v,
        Err(e) => {
            return Err(e);
        },
    };
    let upper = match read_value(reader, rk) {
        Ok(v) => v,
        Err(e) => {
            return Err(e);
        },
    };
    let lower_u = rk.to_unsigned(lower);
    let upper_u = rk.to_unsigned(upper);
    if lower_u > upper_u {
        return Err(
            QCompressError::corruption(
                String::from_str("prefix lower bound ").concat(
                    describe_raw(rk, lower).as_str(),
                ).concat(" may not be greater than upper bound ").concat(
                    describe_raw(rk, upper).as_str(),
                ),
            ),
        );
    }
    let code_len = match reader.read_usize(BITS_TO_ENCODE_CODE_LEN) {
        Ok(v) => v,
        Err(e) => {
            return Err(e);
        },
    };
    let code = match reader.read(code_len) {
        Ok(v) => v,
        Err(e) => {
            return Err(e);
        },
    };
    let run_len_jumpstart = match reader.read_one() {
        Ok(true) => match reader.read_usize(BITS_TO_ENCODE_JUMPSTART) {
            Ok(j) => Option::Some(j),
            Err(e) => {
                return Err(e);
            },
        },
        Ok(false) => Option::None,
        Err(e) => {
            return Err(e);
        },
    };
    let range = upper_u - lower_u;
    let gcd = match common {
        Option::Some(g) => g,
        Option::None => match read_gcd(range, reader) {
            Ok(g) => g,
            Err(e) => {
                return Err(e);
            },
        },
    };
    if range % gcd != 0 {
        return Err(
            QCompressError::corruption(
                String::from_str("prefix gcd ").concat(format_u128(gcd).as_str()).concat(
                    " does not divide the range ",
                ).concat(format_u128(range).as_str()),
            ),
        );
    }
    Ok(Prefix { count, code, lower, upper, run_len_jumpstart, gcd })
}

/// Read the gcd block: the chunk-wide GCD in force for the rows that
/// follow, if any.
fn read_gcd_block(reader: &mut BitReader, flags: &Flags, rk: NumberKind) -> (r: QCompressResult<
    Option<u128>,
>)
    ensures
        final(reader)@ == old(reader)@,
        match r {
            Ok(c) => {
                &&& parse_gcd_block(old(reader)@, old(reader).pos(), *flags, rk) == (
                Parsed::Found { val: opt_nat(c), end: final(reader).pos() })
                &&& match c {
                    Option::Some(g) => g >= 1,
                    Option::None => true,
                }
            },
            Err(e) => parse_gcd_block(old(reader)@, old(reader).pos(), *flags, rk) == (Parsed::<
                Option<nat>,
            >::Fail { kind: e.kind }),
        },
{
    if flags.use_gcds {
        match reader.read_one() {
            Ok(true) => {
                match read_gcd(max_unsigned(rk), reader) {
                    Ok(g) => Ok(Option::Some(g)),
                    Err(e) => Err(e),
                }
            },
            Ok(false) => Ok(Option::None),
            Err(e) => Err(e),
        }
    } else {
        Ok(Option::Some(1))
    }
}

/// Read the whole prefix table of a chunk of `n` entries.
#[verifier::loop_isolation(false)]
#[verifier::rlimit(100)]
fn parse_prefixes(reader: &mut BitReader, flags: &Flags, n: usize, rk: NumberKind) -> (r:
    QCompressResult<Vec<Prefix>>)
    requires
        (n as nat) < pow2(32),
    ensures
        final(reader)@ == old(reader)@,
        match r {
            Ok(ps) => parse_table(old(reader)@, old(reader).pos(), rk, *flags, n as nat) == (
            Parsed::Found { val: models_of(ps@), end: final(reader).pos() }),
            Err(e) => parse_table(old(reader)@, old(reader).pos(), rk, *flags, n as nat) == (
            Parsed::<Seq<PrefixModel>>::Fail { kind: e.kind }),
        },
{
    let ghost bits = old(reader)@;
    let ghost pos0 = old(reader).pos();
    let n_pref = match reader.read_usize(BITS_TO_ENCODE_N_PREFIXES) {
        Ok(v) => v,
        Err(e) => {
            return Err(e);
        },
    };
    let common: Option<u128> = match read_gcd_block(reader, flags, rk) {
        Ok(c) => c,
        Err(e) => {
            return Err(e);
        },
    };
    let ghost block_end = reader.pos();
    let cw = flags.bits_to_encode_count(n);
    proof {
        lemma_bit_len_le(n as nat, 32);
    }
    let mut prefixes: Vec<Prefix> = Vec::new();
    let mut i: usize = 0;
    proof {
        assert(models_of(prefixes@) =~= Seq::<PrefixModel>::empty());
        let pr = parse_rows(bits, block_end, rk, cw as nat, opt_nat(common), n_pref as nat);
        match pr {
            Parsed::Found { val, end } => {
                assert(models_of(prefixes@) + val =~= val);
            },
            Parsed::Fail { kind } => {},
        }
    }
    while i < n_pref
        invariant
            i <= n_pref,
            cw == bit_len(n as nat),
            cw <= 32,
            reader@ == bits,
            match common {
                Option::Some(g) => g >= 1,
                Option::None => true,
            },
            rows_then(
                models_of(prefixes@),
                parse_rows(bits, reader.pos(), rk, cw as nat, opt_nat(common), (n_pref - i) as nat),
            ) == parse_rows(bits, block_end, rk, cw as nat, opt_nat(common), n_pref as nat),
        decreases n_pref - i,
    {
        let ghost cur = reader.pos();
        let p = match parse_one_prefix(reader, rk, cw, common) {
            Ok(p) => p,
            Err(e) => {
                proof {
                    assert(parse_rows(bits, cur, rk, cw as nat, opt_nat(common), (n_pref
                        - i) as nat) == (Parsed::<Seq<PrefixModel>>::Fail { kind: e.kind }));
                }
                return Err(e);
            },
        };
        proof {
            let rest = parse_rows(
                bits,
                reader.pos(),
                rk,
                cw as nat,
                opt_nat(common),
                (n_pref - i - 1) as nat,
            );
            assert(parse_rows(bits, cur, rk, cw as nat, opt_nat(common), (n_pref - i) as nat)
                == rows_then(seq![p@], rest));
            assert(models_of(prefixes@.push(p)) =~= models_of(prefixes@).push(p@));
            match rest {
                Parsed::Found { val, end } => {
                    assert(models_of(prefixes@) + (seq![p@] + val) =~= models_of(
                        prefixes@.push(p),
                    ) + val);
                },
                Parsed::Fail { kind } => {},
            }
        }
        prefixes.push(p);
        i = i + 1;
    }
    proof {
        assert(parse_rows(bits, reader.pos(), rk, cw as nat, opt_nat(common), 0) == (
        Parsed::Found { val: Seq::<PrefixModel>::empty(), end: reader.pos() }));
        assert(models_of(prefixes@) + Seq::<PrefixModel>::empty() =~= models_of(prefixes@));
    }
    Ok(prefixes)
}

/// Write the whole prefix table of a chunk of `n` entries.
#[verifier::rlimit(100)]
fn write_prefixes(
    prefixes: &Vec<Prefix>,
    writer: &mut BitWriter,
    flags: &Flags,
    n: usize,
    rk: NumberKind,
)
    requires
        wf_table(models_of(prefixes@), rk, *flags, n as nat),
    ensures
        final(writer)@ == old(writer)@ + ser_table(models_of(prefixes@), rk, *flags, n as nat),
{
    let ghost models = models_of(prefixes@);
    proof {
        lemma_pow2_constants();
        assert(models.len() == prefixes@.len());
        assert forall|j: int| 0 <= j < prefixes@.len() implies {
            &&& rk.raw_valid((#[trigger] prefixes@[j]).lower as nat)
            &&& rk.raw_valid(prefixes@[j].upper as nat)
            &&& rk.unsigned_of_raw(prefixes@[j].lower as nat) <= rk.unsigned_of_raw(
                prefixes@[j].upper as nat,
            )
        } by {
            assert(wf_prefix(models[j], rk, bit_len(n as nat)));
            assert(models[j] == prefixes@[j]@);
        }
    }
    writer.write_usize(prefixes.len(), BITS_TO_ENCODE_N_PREFIXES);
    let ghost after_count = writer@;
    let common: Option<u128> = if flags.use_gcds {
        let maybe_common = common_gcd_for_chunk_meta(prefixes, rk);
        writer.write_one(maybe_common.is_some());
        if let Option::Some(g) = maybe_common {
            proof {
                lemma_common_gcd_bounds(models, rk, *flags, n as nat, g as nat);
                lemma_bit_len_all_ones(rk.unsigned_bits_spec());
            }
            write_gcd(max_unsigned(rk), g, writer);
            proof {
                assert(writer@ =~= after_count + ser_gcd_block(*flags, models, rk));
            }
        } else {
            proof {
                assert(writer@ =~= after_count + ser_gcd_block(*flags, models, rk));
            }
        }
        maybe_common
    } else {
        proof {
            assert(writer@ =~= after_count + ser_gcd_block(*flags, models, rk));
        }
        Option::Some(1)
    };
    let ghost after_block = writer@;
    let cw = flags.bits_to_encode_count(n);
    let ghost hc = has_common(*flags, models, rk);
    proof {
        assert(hc == (common is Some));
        assert(models.subrange(0, models.len() as int) =~= models);
    }
    let mut i: usize = 0;
    while i < prefixes.len()
        invariant
            i <= prefixes@.len(),
            models == models_of(prefixes@),
            cw == bit_len(n as nat),
            cw <= 128,
            wf_table(models, rk, *flags, n as nat),
            hc == has_common(*flags, models, rk),
            match common {
                Option::Some(g) => hc && (flags.use_gcds ==> common_gcd_model(models, rk)
                    == Option::Some(g as nat)) && (!flags.use_gcds ==> g == 1),
                Option::None => !hc,
            },
            writer@ + ser_prefixes(
                models.subrange(i as int, models.len() as int),
                rk,
                cw as nat,
                hc,
            ) == after_block + ser_prefixes(models, rk, cw as nat, hc),
        decreases prefixes@.len() - i,
    {
        let p = &prefixes[i];
        let ghost pm = models[i as int];
        let ghost rest = models.subrange(i as int, models.len() as int);
        proof {
            assert(rest[0] == pm);
            assert(pm == prefixes@[i as int]@);
            assert(rest.subrange(1, rest.len() as int) =~= models.subrange(
                i + 1,
                models.len() as int,
            ));
            assert(wf_prefix(pm, rk, bit_len(n as nat)));
        }
        let ghost before_row = writer@;
        writer.write_usize(p.count, cw);
        write_value(writer, rk, p.lower);
        write_value(writer, rk, p.upper);
        proof {
            lemma_pow2_constants();
        }
        writer.write_usize(p.code.len(), BITS_TO_ENCODE_CODE_LEN);
        writer.write(&p.code);
        match p.run_len_jumpstart {
            Option::None => {
                writer.write_one(false);
            },
            Option::Some(jumpstart) => {
                writer.write_one(true);
                writer.write_usize(jumpstart, BITS_TO_ENCODE_JUMPSTART);
            },
        }
        if common.is_none() {
            let lower_u = rk.to_unsigned(p.lower);
            let upper_u = rk.to_unsigned(p.upper);
            let range = upper_u - lower_u;
            proof {
                if range > 0 && pm.gcd > range as nat {
                    vstd::arithmetic::div_mod::lemma_small_mod(range as nat, pm.gcd);
                }
            }
            write_gcd(range, p.gcd, writer);
        }
        proof {
            assert(writer@ =~= before_row + ser_prefix(pm, rk, cw as nat, hc));
            assert(ser_prefixes(rest, rk, cw as nat, hc) == ser_prefix(pm, rk, cw as nat, hc)
                + ser_prefixes(
                models.subrange(i + 1, models.len() as int),
                rk,
                cw as nat,
                hc,
            ));
            assert(writer@ + ser_prefixes(
                models.subrange(i + 1, models.len() as int),
                rk,
                cw as nat,
                hc,
            ) =~= before_row + ser_prefixes(rest, rk, cw as nat, hc));
        }
        i = i + 1;
    }
    proof {
        assert(models.subrange(models.len() as int, models.len() as int) =~= Seq::<
            PrefixModel,
        >::empty());
        assert(writer@ + Seq::<bool>::empty() =~= writer@);
        assert(after_block + ser_prefixes(models, rk, cw as nat, hc) =~= old(writer)@ + ser_table(
            models,
            rk,
            *flags,
            n as nat,
        ));
    }
}

/// A chunk-wide GCD is the GCD of some constrained row, so it is at least
/// one and at most the largest value of the unsigned domain.
proof fn lemma_common_gcd_bounds(
    models: Seq<PrefixModel>,
    rk: NumberKind,
    f: Flags,
    n: nat,
    g: nat,
)
    requires
        wf_table(models, rk, f, n),
        common_gcd_model(models, rk) == Option::Some(g),
    ensures
        1 <= g,
        g <= pow2(rk.unsigned_bits_spec()) - 1,
{
    let i = lemma_common_gcd_witness(models, rk, Option::None, g);
    let p = models[i];
    assert(wf_prefix(p, rk, bit_len(n)));
    crate::data_types::lemma_unsigned_of_raw_bijective(rk, p.upper);
    lemma_unsigned_lt_pow2(rk, rk.unsigned_of_raw(p.upper));
    if p.gcd > p.range(rk) {
        vstd::arithmetic::div_mod::lemma_small_mod(p.range(rk), p.gcd);
    }
}

/// A `Some` outcome of the common-GCD scan is the GCD of some constrained
/// row, unless it was the accumulator to begin with.
proof fn lemma_common_gcd_witness(
    models: Seq<PrefixModel>,
    rk: NumberKind,
    acc: Option<nat>,
    g: nat,
) -> (i: int)
    requires
        crate::wire::common_gcd_from(models, rk, acc) == Option::Some(g),
        acc is None,
    ensures
        0 <= i < models.len(),
        models[i].range(rk) > 0,
        models[i].gcd == g,
    decreases models.len(),
{
    let rest = models.subrange(1, models.len() as int);
    if models[0].range(rk) == 0 {
        let j = lemma_common_gcd_witness(rest, rk, acc, g);
        j + 1
    } else {
        lemma_common_gcd_some_keeps(rest, rk, models[0].gcd, g);
        0
    }
}

/// Continuing the scan with accumulator `Some(a)` can only answer `a`.
proof fn lemma_common_gcd_some_keeps(models: Seq<PrefixModel>, rk: NumberKind, a: nat, g: nat)
    requires
        crate::wire::common_gcd_from(models, rk, Option::Some(a)) == Option::Some(g),
    ensures
        g == a,
    decreases models.len(),
{
    if models.len() > 0 {
        let rest = models.subrange(1, models.len() as int);
        if models[0].range(rk) == 0 || models[0].gcd == a {
            lemma_common_gcd_some_keeps(rest, rk, a, g);
        }
    }
}

impl ChunkMetadata {
    /// Parse one chunk-metadata section. The result, success or failure, is
    /// exactly what the specification parser `parse_meta` yields on the
    /// reader's bits at its cursor.
    pub fn parse_from(reader: &mut BitReader, flags: &Flags, kind: NumberKind) -> (r:
        QCompressResult<Self>)
        ensures
            final(reader)@ == old(reader)@,
            match r {
                Ok(m) => {
                    &&& parse_meta(old(reader)@, old(reader).pos(), *flags, kind) == (
                    Parsed::Found { val: m@, end: final(reader).pos() })
                    &&& m.kind == kind
                },
                Err(e) => parse_meta(old(reader)@, old(reader).pos(), *flags, kind) == (
                Parsed::<MetaModel>::Fail { kind: e.kind }),
            },
    {
        proof {
            lemma_pow2_constants();
        }
        let n = match reader.read_usize(BITS_TO_ENCODE_N_ENTRIES) {
            Ok(v) => v,
            Err(e) => {
                return Err(e);
            },
        };
        let compressed_body_size = match reader.read_usize(BITS_TO_ENCODE_COMPRESSED_BODY_SIZE) {
            Ok(v) => v,
            Err(e) => {
                return Err(e);
            },
        };
        proof {
            lemma_pow2_strictly_increases(24, 32);
        }
        if flags.delta_encoding_order == 0 {
            let prefixes = match parse_prefixes(reader, flags, n, kind) {
                Ok(ps) => ps,
                Err(e) => {
                    return Err(e);
                },
            };
            Ok(
                ChunkMetadata {
                    n,
                    compressed_body_size,
                    kind,
                    prefix_metadata: PrefixMetadata::Simple { prefixes },
                },
            )
        } else {
            let delta_moments = match DeltaMoments::parse_from(
                reader,
                flags.delta_encoding_order,
                kind,
            ) {
                Ok(m) => m,
                Err(e) => {
                    return Err(e);
                },
            };
            let prefixes = match parse_prefixes(reader, flags, n, kind.signed_kind()) {
                Ok(ps) => ps,
                Err(e) => {
                    return Err(e);
                },
            };
            Ok(
                ChunkMetadata {
                    n,
                    compressed_body_size,
                    kind,
                    prefix_metadata: PrefixMetadata::Delta { prefixes, delta_moments },
                },
            )
        }
    }

    /// Serialize this section: exactly `ser_meta(self@, flags)` followed by
    /// zero padding to the next byte boundary, so the body that follows
    /// begins byte-aligned.
    pub fn write_to(&self, writer: &mut BitWriter, flags: &Flags)
        requires
            wf_meta(self@, *flags),
        ensures
            final(writer)@ == old(writer)@ + ser_meta(self@, *flags) + Seq::new(
                pad_len((old(writer)@.len() + ser_meta(self@, *flags).len()) as nat),
                |i: int| false,
            ),
            final(writer)@.len() % 8 == 0,
    {
        proof {
            lemma_pow2_constants();
        }
        writer.write_usize(self.n, BITS_TO_ENCODE_N_ENTRIES);
        writer.write_usize(self.compressed_body_size, BITS_TO_ENCODE_COMPRESSED_BODY_SIZE);
        match &self.prefix_metadata {
            PrefixMetadata::Simple { prefixes } => {
                write_prefixes(prefixes, writer, flags, self.n, self.kind);
                proof {
                    assert(writer@ =~= old(writer)@ + ser_meta(self@, *flags));
                }
            },
            PrefixMetadata::Delta { prefixes, delta_moments } => {
                delta_moments.write_to(writer, self.kind);
                write_prefixes(prefixes, writer, flags, self.n, self.kind.signed_kind());
                proof {
                    assert(writer@ =~= old(writer)@ + ser_meta(self@, *flags));
                }
            },
        }
        writer.finish_byte();
    }

    /// Back-patch the compressed body size at a section written when the
    /// writer's cursor was at `bit_idx`, leaving every other bit unchanged.
    pub fn update_write_compressed_body_size(&self, writer: &mut BitWriter, bit_idx: usize)
        requires
            bit_idx + BITS_TO_ENCODE_N_ENTRIES + BITS_TO_ENCODE_COMPRESSED_BODY_SIZE <= old(
                writer,
            )@.len(),
            (self.compressed_body_size as nat) < pow2(32),
        ensures
            final(writer)@.len() == old(writer)@.len(),
            forall|k: int|
                0 <= k < old(writer)@.len() && !(bit_idx + 24 <= k < bit_idx + 56)
                    ==> final(writer)@[k] == old(writer)@[k],
            forall|k: int|
                bit_idx + 24 <= k < bit_idx + 56 ==> final(writer)@[k] == crate::bits::ubits(
                    self.compressed_body_size as nat,
                    32,
                )[k - bit_idx - 24],
    {
        let len = writer.bit_position();
        writer.overwrite_usize(
            bit_idx + BITS_TO_ENCODE_N_ENTRIES,
            self.compressed_body_size,
            BITS_TO_ENCODE_COMPRESSED_BODY_SIZE,
        );
    }
}

impl DeltaMoments {
    /// The order of the transform these moments bootstrap.
    pub fn order(&self) -> (r: usize)
        ensures
            r == self@.len(),
    {
        self.moments.len()
    }

    /// Parse `order` delta moments of the signed companion of `kind`.
    #[verifier::loop_isolation(false)]
    pub fn parse_from(reader: &mut BitReader, order: usize, kind: NumberKind) -> (r:
        QCompressResult<Self>)
        ensures
            final(reader)@ == old(reader)@,
            match r {
                Ok(m) => {
                    &&& parse_moments(
                        old(reader)@,
                        old(reader).pos(),
                        kind.signed_kind_spec().physical_bits_spec(),
                        order as nat,
                    ) == (Parsed::Found { val: m@, end: final(reader).pos() })
                    &&& m@.len() == order
                },
                Err(e) => parse_moments(
                    old(reader)@,
                    old(reader).pos(),
                    kind.signed_kind_spec().physical_bits_spec(),
                    order as nat,
                ) == (Parsed::<Seq<int>>::Fail { kind: e.kind }),
            },
    {
        let ghost bits = old(reader)@;
        let ghost pos0 = old(reader).pos();
        let sk = kind.signed_kind();
        let w = sk.physical_bits();
        let ghost wn = sk.physical_bits_spec();
        let mut moments: Vec<i128> = Vec::new();
        let mut i: usize = 0;
        proof {
            assert(Self::moments_view(moments@) =~= Seq::<int>::empty());
            let pr = parse_moments(bits, pos0, wn, order as nat);
            match pr {
                Parsed::Found { val, end } => {
                    assert(Self::moments_view(moments@) + val =~= val);
                },
                Parsed::Fail { kind } => {},
            }
        }
        while i < order
            invariant
                i <= order,
                reader@ == bits,
                w as nat == wn,
                wn == kind.signed_kind_spec().physical_bits_spec(),
                sk == kind.signed_kind_spec(),
                moments@.len() == i,
                moments_then(
                    Self::moments_view(moments@),
                    parse_moments(bits, reader.pos(), wn, (order - i) as nat),
                ) == parse_moments(bits, pos0, wn, order as nat),
            decreases order - i,
        {
            let ghost cur = reader.pos();
            let raw = match reader.read_u128(w) {
                Ok(v) => v,
                Err(e) => {
                    proof {
                        assert(parse_moments(bits, cur, wn, (order - i) as nat) == (Parsed::<
                            Seq<int>,
                        >::Fail { kind: e.kind }));
                    }
                    return Err(e);
                },
            };
            let v = moment_from_raw(sk, raw);
            proof {
                let rest = parse_moments(bits, reader.pos(), wn, (order - i - 1) as nat);
                assert(parse_moments(bits, cur, wn, (order - i) as nat) == moments_then(
                    seq![moment_of_raw(raw as nat, wn)],
                    rest,
                ));
                assert(Self::moments_view(moments@.push(v)) =~= Self::moments_view(
                    moments@,
                ).push(v as int));
                match rest {
                    Parsed::Found { val, end } => {
                        assert(Self::moments_view(moments@) + (seq![v as int] + val)
                            =~= Self::moments_view(moments@.push(v)) + val);
                    },
                    Parsed::Fail { kind } => {},
                }
            }
            moments.push(v);
            i = i + 1;
        }
        proof {
            assert(Self::moments_view(moments@) + Seq::<int>::empty() =~= Self::moments_view(
                moments@,
            ));
        }
        Ok(DeltaMoments { moments })
    }

    /// The view of a moment vector, for loop invariants.
    pub open spec fn moments_view(ms: Seq<i128>) -> Seq<int> {
        ms.map_values(|m: i128| m as int)
    }

    /// Write the moments, each as physical bits of the signed companion of
    /// `kind`.
    pub fn write_to(&self, writer: &mut BitWriter, kind: NumberKind)
        requires
            forall|i: int|
                0 <= i < self@.len() ==> moment_fits(
                    #[trigger] self@[i],
                    kind.signed_kind_spec().physical_bits_spec(),
                ),
        ensures
            final(writer)@ == old(writer)@ + ser_moments(
                self@,
                kind.signed_kind_spec().physical_bits_spec(),
            ),
    {
        let sk = kind.signed_kind();
        let ghost wn = sk.physical_bits_spec();
        let ghost models = self@;
        let mut i: usize = 0;
        proof {
            assert(models.subrange(0, models.len() as int) =~= models);
        }
        while i < self.moments.len()
            invariant
                i <= self.moments@.len(),
                sk == kind.signed_kind_spec(),
                wn == kind.signed_kind_spec().physical_bits_spec(),
                models == self@,
                models.len() == self.moments@.len(),
                forall|k: int| 0 <= k < models.len() ==> moment_fits(#[trigger] models[k], wn),
                writer@ + ser_moments(models.subrange(i as int, models.len() as int), wn) == old(
                    writer,
                )@ + ser_moments(models, wn),
            decreases self.moments@.len() - i,
        {
            let ghost rest = models.subrange(i as int, models.len() as int);
            proof {
                assert(rest[0] == models[i as int]);
                assert(models[i as int] == self.moments@[i as int] as int);
                assert(rest.subrange(1, rest.len() as int) =~= models.subrange(
                    i + 1,
                    models.len() as int,
                ));
            }
            let raw = moment_to_raw(sk, self.moments[i]);
            let ghost before = writer@;
            writer.write_u128(raw, sk.physical_bits());
            proof {
                assert(writer@ + ser_moments(models.subrange(i + 1, models.len() as int), wn)
                    =~= before + ser_moments(rest, wn));
            }
            i = i + 1;
        }
        proof {
            assert(models.subrange(models.len() as int, models.len() as int) =~= Seq::<
                int,
            >::empty());
            assert(writer@ + Seq::<bool>::empty() =~= writer@);
        }
    }
}

} // verus!
