//! Fixed widths of the chunk-metadata wire format and the per-file flags
//! the core consumes from the file header.

use crate::bits::{bit_len, bit_length_usize};
use vstd::prelude::*;

verus! {

/// Width of the entry count `n` of a chunk.
pub const BITS_TO_ENCODE_N_ENTRIES: usize = 24;

/// Width of the compressed byte length of a chunk body.
pub const BITS_TO_ENCODE_COMPRESSED_BODY_SIZE: usize = 32;

/// Width of the prefix-table row count.
pub const BITS_TO_ENCODE_N_PREFIXES: usize = 4;

/// Width of a run-length jumpstart value.
pub const BITS_TO_ENCODE_JUMPSTART: usize = 5;

/// Width of the `code_len` field of a prefix row; bounds the prefix-code
/// length permitted in a file.
pub const BITS_TO_ENCODE_CODE_LEN: usize = 5;

/// The largest supported delta encoding order.
pub const MAX_DELTA_ENCODING_ORDER: usize = 7;

/// Per-file flags, consumed from the file header and treated as read-only
/// inputs by the core.
#[derive(Clone, Copy, Debug, PartialEq, Eq, Structural)]
pub struct Flags {
    /// Whether any GCD bits are spent in this file.
    pub use_gcds: bool,
    /// The order of the finite-difference transform, in `0..=7`.
    pub delta_encoding_order: usize,
}

impl Flags {
    /// The flag combinations the format admits.
    pub open spec fn valid(self) -> bool {
        self.delta_encoding_order <= MAX_DELTA_ENCODING_ORDER
    }

    /// Width of the `code_len` field of each prefix row in this file.
    pub fn bits_to_encode_code_len(&self) -> (r: usize)
        ensures
            r == BITS_TO_ENCODE_CODE_LEN,
    {
        BITS_TO_ENCODE_CODE_LEN
    }

    /// The minimum width representing any prefix count in `[0, n]`:
    /// `ceil(log2(n + 1))`.
    pub fn bits_to_encode_count(&self, n: usize) -> (r: usize)
        ensures
            r == bit_len(n as nat),
            r <= 128,
    {
        bit_length_usize(n)
    }
}

} // verus!
