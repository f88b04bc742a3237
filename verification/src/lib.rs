//! A verified core for a lossless numeric compression codec.
//!
//! The crate models the chunk-level data of a bit-packed compression format:
//! bit-granular readers and writers over byte buffers, the numeric-type
//! abstraction that maps every supported number into a linearly ordered
//! unsigned domain, GCD coding utilities, delta moments, and the bit-exact
//! (de)serialization of chunk metadata (the range-partitioned prefix table).
//!
//! The wire format itself is specified once, as mathematics, in `wire`:
//! `ser_meta` gives the exact bit string a well-formed chunk-metadata value
//! serializes to and `parse_meta` the exact outcome of parsing any bit
//! string. The executable serializer and parser in `chunk_metadata` are
//! proved equal to those functions, and `laws` holds the round-trip
//! theorems proved on top of them.

pub mod bit_reader;
pub mod bit_writer;
pub mod bits;
pub mod chunk_metadata;
pub mod data_types;
pub mod errors;
pub mod flags;
pub mod gcd_utils;
pub mod laws;
pub mod prefix;
pub mod timestamps;
pub mod wire;
