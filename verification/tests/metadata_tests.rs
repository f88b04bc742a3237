use q_compress::bit_reader::BitReader;
use q_compress::bit_writer::BitWriter;
use q_compress::chunk_metadata::{ChunkMetadata, DeltaMoments, PrefixMetadata};
use q_compress::data_types::NumberKind;
use q_compress::errors::ErrorKind;
use q_compress::flags::Flags;
use q_compress::gcd_utils::gcd;
use q_compress::prefix::{validate_prefix_free, Prefix};

fn simple_flags() -> Flags {
    Flags { use_gcds: false, delta_encoding_order: 0 }
}

fn round_trip(m: &ChunkMetadata, flags: &Flags) -> (Vec<u8>, ChunkMetadata, usize) {
    let mut writer = BitWriter::new();
    m.write_to(&mut writer, flags);
    assert_eq!(writer.bit_position() % 8, 0, "writer must end byte-aligned");
    let bytes = writer.bytes();
    let mut reader = BitReader::from_bytes(&bytes);
    let parsed = ChunkMetadata::parse_from(&mut reader, flags, m.kind).unwrap();
    let end = reader.bit_position();
    (bytes, parsed, end)
}

#[test]
fn signed_i32_no_delta_no_gcd() {
    // One prefix covering [-1, 1] with code "0" and count 3.
    let m = ChunkMetadata {
        n: 3,
        compressed_body_size: 0,
        kind: NumberKind::I32,
        prefix_metadata: PrefixMetadata::Simple {
            prefixes: vec![Prefix {
                count: 3,
                code: vec![false],
                lower: (-1i32) as u32 as u128,
                upper: 1,
                run_len_jumpstart: None,
                gcd: 1,
            }],
        },
    };
    let flags = simple_flags();
    let (bytes, parsed, end) = round_trip(&m, &flags);
    assert_eq!(parsed, m);
    // n = 3 in 24 bits, body size = 0 in 32 bits.
    assert_eq!(&bytes[0..3], &[0, 0, 3]);
    assert_eq!(&bytes[3..7], &[0, 0, 0, 0]);
    // n_pref = 1 (4 bits), count = 3 (2 bits), then the top two bits of
    // lower = 0xFFFF_FFFF: byte 7 is 0001 11 11.
    assert_eq!(bytes[7], 0b0001_1111);
    // 24 + 32 + 4 + 2 + 32 + 32 + 5 + 1 + 1 bits of payload.
    assert_eq!(end, 133);
    assert_eq!(bytes.len(), 17);
}

#[test]
fn empty_chunk_round_trips() {
    // n = 0: the count field is zero bits wide and the table has no rows.
    for use_gcds in [false, true] {
        let m = ChunkMetadata {
            n: 0,
            compressed_body_size: 0,
            kind: NumberKind::U64,
            prefix_metadata: PrefixMetadata::Simple { prefixes: vec![] },
        };
        let flags = Flags { use_gcds, delta_encoding_order: 0 };
        let (_bytes, parsed, end) = round_trip(&m, &flags);
        assert_eq!(parsed, m);
        // 24 + 32 + 4 bits, plus the has_common_gcd bit when GCDs are on.
        assert_eq!(end, if use_gcds { 61 } else { 60 });
    }
}

#[test]
fn delta_order_zero_omits_moments() {
    let m = ChunkMetadata {
        n: 1,
        compressed_body_size: 9,
        kind: NumberKind::U16,
        prefix_metadata: PrefixMetadata::Simple {
            prefixes: vec![Prefix {
                count: 1,
                code: vec![],
                lower: 7,
                upper: 7,
                run_len_jumpstart: None,
                gcd: 1,
            }],
        },
    };
    let flags = simple_flags();
    let (_bytes, parsed, end) = round_trip(&m, &flags);
    assert_eq!(parsed, m);
    // 24 + 32 + 4 + 1 + 16 + 16 + 5 + 0 + 1: no moments, no gcd bits.
    assert_eq!(end, 99);
}

#[test]
fn f64_delta_order_two_reproduces_buffer() {
    // Deltas of f64 are i64; moments are signed values on 64 wire bits.
    let m = ChunkMetadata {
        n: 5,
        compressed_body_size: 77,
        kind: NumberKind::F64,
        prefix_metadata: PrefixMetadata::Delta {
            prefixes: vec![Prefix {
                count: 5,
                code: vec![true],
                lower: (-3i64) as u64 as u128,
                upper: 3,
                run_len_jumpstart: None,
                gcd: 1,
            }],
            delta_moments: DeltaMoments { moments: vec![0, 1] },
        },
    };
    let flags = Flags { use_gcds: false, delta_encoding_order: 2 };
    let (bytes, parsed, _end) = round_trip(&m, &flags);
    assert_eq!(parsed, m);
    // Writing the parsed value again reproduces the byte buffer exactly.
    let mut writer = BitWriter::new();
    parsed.write_to(&mut writer, &flags);
    assert_eq!(writer.bytes(), bytes);
}

#[test]
fn gcd_bits_omitted_when_disabled() {
    let row = Prefix {
        count: 2,
        code: vec![true, false],
        lower: 0,
        upper: 8,
        run_len_jumpstart: None,
        gcd: 1,
    };
    let m = ChunkMetadata {
        n: 2,
        compressed_body_size: 0,
        kind: NumberKind::U32,
        prefix_metadata: PrefixMetadata::Simple { prefixes: vec![row.clone()] },
    };
    let off = Flags { use_gcds: false, delta_encoding_order: 0 };
    let (_b, parsed_off, end_off) = round_trip(&m, &off);
    assert_eq!(parsed_off, m);
    // 24 + 32 + 4 + (2 + 32 + 32 + 5 + 2 + 1): not one gcd bit.
    assert_eq!(end_off, 134);
}

#[test]
fn common_gcd_detected_and_reconstructed() {
    // Two rows whose offsets are both divisible by 4.
    let rows = vec![
        Prefix {
            count: 3,
            code: vec![false],
            lower: 0,
            upper: 8,
            run_len_jumpstart: None,
            gcd: 4,
        },
        Prefix {
            count: 1,
            code: vec![true],
            lower: 10,
            upper: 14,
            run_len_jumpstart: None,
            gcd: 4,
        },
    ];
    let m = ChunkMetadata {
        n: 4,
        compressed_body_size: 0,
        kind: NumberKind::U32,
        prefix_metadata: PrefixMetadata::Simple { prefixes: rows },
    };
    let flags = Flags { use_gcds: true, delta_encoding_order: 0 };
    let (bytes, parsed, end) = round_trip(&m, &flags);
    assert_eq!(parsed, m);
    // After n (24), body size (32) and n_pref (4), the has_common_gcd bit
    // is set and the common gcd 4 follows in 32 bits.
    let mut reader = BitReader::from_bytes(&bytes);
    reader.read(60).unwrap();
    assert!(reader.read_one().unwrap());
    assert_eq!(reader.read_u128(32).unwrap(), 4);
    // Per-row gcd bits are omitted: 61 + 32 + 2 * (3 + 32 + 32 + 5 + 1 + 1).
    assert_eq!(end, 241);
    match &parsed.prefix_metadata {
        PrefixMetadata::Simple { prefixes } => {
            assert_eq!(prefixes[0].gcd, 4);
            assert_eq!(prefixes[1].gcd, 4);
        }
        _ => panic!("expected simple prefix metadata"),
    }
}

#[test]
fn per_row_gcds_when_rows_disagree() {
    let rows = vec![
        Prefix {
            count: 3,
            code: vec![false],
            lower: 0,
            upper: 8,
            run_len_jumpstart: None,
            gcd: 4,
        },
        Prefix {
            count: 1,
            code: vec![true],
            lower: 0,
            upper: 9,
            run_len_jumpstart: Some(2),
            gcd: 3,
        },
    ];
    let m = ChunkMetadata {
        n: 4,
        compressed_body_size: 1,
        kind: NumberKind::U16,
        prefix_metadata: PrefixMetadata::Simple { prefixes: rows },
    };
    let flags = Flags { use_gcds: true, delta_encoding_order: 0 };
    let (_bytes, parsed, _end) = round_trip(&m, &flags);
    assert_eq!(parsed, m);
}

#[test]
fn corruption_when_upper_below_lower() {
    // lower = 5, upper = -1 for i32: unsigned order is violated.
    let mut writer = BitWriter::new();
    writer.write_usize(3, 24);
    writer.write_usize(0, 32);
    writer.write_usize(1, 4);
    writer.write_usize(3, 2);
    writer.write_u128(5, 32);
    writer.write_u128((-1i32) as u32 as u128, 32);
    writer.finish_byte();
    let bytes = writer.bytes();
    let mut reader = BitReader::from_bytes(&bytes);
    let flags = simple_flags();
    let e = ChunkMetadata::parse_from(&mut reader, &flags, NumberKind::I32).unwrap_err();
    assert_eq!(e.kind, ErrorKind::Corruption);
    assert!(e.message.contains("5"), "message was: {}", e.message);
    assert!(e.message.contains("-1"), "message was: {}", e.message);
}

#[test]
fn truncated_buffer_reports_insufficient_data() {
    let bytes = vec![0u8, 0, 3];
    let mut reader = BitReader::from_bytes(&bytes);
    let flags = simple_flags();
    let e = ChunkMetadata::parse_from(&mut reader, &flags, NumberKind::I32).unwrap_err();
    assert_eq!(e.kind, ErrorKind::InsufficientData);
}

#[test]
fn back_patch_rewrites_only_the_body_size() {
    let m = ChunkMetadata {
        n: 3,
        compressed_body_size: 0,
        kind: NumberKind::I32,
        prefix_metadata: PrefixMetadata::Simple {
            prefixes: vec![Prefix {
                count: 3,
                code: vec![false],
                lower: (-1i32) as u32 as u128,
                upper: 1,
                run_len_jumpstart: None,
                gcd: 1,
            }],
        },
    };
    let flags = simple_flags();
    let mut writer = BitWriter::new();
    let bit_idx = writer.bit_position();
    m.write_to(&mut writer, &flags);
    let before = writer.bytes();
    let patched = ChunkMetadata { compressed_body_size: 123456, ..m.clone() };
    patched.update_write_compressed_body_size(&mut writer, bit_idx);
    let after = writer.bytes();
    let mut reader = BitReader::from_bytes(&after);
    let parsed = ChunkMetadata::parse_from(&mut reader, &flags, NumberKind::I32).unwrap();
    assert_eq!(parsed.compressed_body_size, 123456);
    assert_eq!(parsed, patched);
    // Writing with the final size from the start gives the same buffer.
    let mut writer2 = BitWriter::new();
    patched.write_to(&mut writer2, &flags);
    assert_eq!(writer2.bytes(), after);
    // Only the 32 body-size bits, bits 24..56, changed.
    for (i, (b, a)) in before.iter().zip(after.iter()).enumerate() {
        if !(3..7).contains(&i) {
            assert_eq!(b, a, "byte {} changed", i);
        }
    }
}

#[test]
fn run_len_jumpstart_round_trips() {
    let m = ChunkMetadata {
        n: 100,
        compressed_body_size: 42,
        kind: NumberKind::U64,
        prefix_metadata: PrefixMetadata::Simple {
            prefixes: vec![Prefix {
                count: 90,
                code: vec![true, true],
                lower: 1,
                upper: 1,
                run_len_jumpstart: Some(7),
                gcd: 1,
            }],
        },
    };
    let flags = simple_flags();
    let (_bytes, parsed, _end) = round_trip(&m, &flags);
    assert_eq!(parsed, m);
}

#[test]
fn timestamp_chunk_round_trips() {
    let m = ChunkMetadata {
        n: 2,
        compressed_body_size: 10,
        kind: NumberKind::TimestampNanos96,
        prefix_metadata: PrefixMetadata::Simple {
            prefixes: vec![Prefix {
                count: 2,
                code: vec![false],
                lower: 0,
                upper: 1_000_000_000,
                run_len_jumpstart: None,
                gcd: 1,
            }],
        },
    };
    let flags = simple_flags();
    let (_bytes, parsed, _end) = round_trip(&m, &flags);
    assert_eq!(parsed, m);
}

#[test]
fn prefix_freeness_checker() {
    let row = |code: Vec<bool>| Prefix {
        count: 1,
        code,
        lower: 0,
        upper: 1,
        run_len_jumpstart: None,
        gcd: 1,
    };
    // "0", "10", "11" is prefix-free.
    let free = vec![
        row(vec![false]),
        row(vec![true, false]),
        row(vec![true, true]),
    ];
    assert!(validate_prefix_free(&free));
    // "0" is a prefix of "01".
    let not_free = vec![row(vec![false]), row(vec![false, true])];
    assert!(!validate_prefix_free(&not_free));
    // An empty code is a prefix of everything.
    let empty_clash = vec![row(vec![]), row(vec![true])];
    assert!(!validate_prefix_free(&empty_clash));
    assert!(validate_prefix_free(&vec![]));
}

#[test]
fn gcd_is_greatest_common_divisor() {
    assert_eq!(gcd(12, 18), 6);
    assert_eq!(gcd(0, 5), 5);
    assert_eq!(gcd(7, 0), 7);
    assert_eq!(gcd(1_000_000_000, 1_000_000), 1_000_000);
    assert_eq!(gcd(17, 13), 1);
}

#[test]
fn number_kind_maps_preserve_order_and_invert() {
    let k = NumberKind::I32;
    let raws = [0u128, 1, 5, 0x7FFF_FFFF, 0x8000_0000, 0xFFFF_FFFF];
    for r in raws {
        assert_eq!(k.from_unsigned(k.to_unsigned(r)), r);
    }
    // -1 < 0 < 1 in i32 order.
    assert!(k.to_unsigned(0xFFFF_FFFF) < k.to_unsigned(0));
    assert!(k.to_unsigned(0) < k.to_unsigned(1));
    // Floats: -0.0 orders just below +0.0 by the monotone bit mapping.
    let f = NumberKind::F64;
    let neg_zero = (-0.0f64).to_bits() as u128;
    let pos_zero = 0.0f64.to_bits() as u128;
    let one = 1.0f64.to_bits() as u128;
    let neg_one = (-1.0f64).to_bits() as u128;
    assert!(f.to_unsigned(neg_zero) < f.to_unsigned(pos_zero));
    assert!(f.to_unsigned(pos_zero) < f.to_unsigned(one));
    assert!(f.to_unsigned(neg_one) < f.to_unsigned(neg_zero));
    let nan = f64::NAN.to_bits() as u128;
    assert_eq!(f.from_unsigned(f.to_unsigned(nan)), nan);
}
