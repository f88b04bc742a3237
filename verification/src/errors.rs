//! Error values surfaced by the codec core.
//!
//! There are no exceptions and no retries at this layer: every operation
//! that consumes the bitstream returns a result, and the first error aborts
//! parsing of the enclosing chunk metadata unchanged.

use vstd::prelude::*;
use vstd::string::StringExecFns;

verus! {

/// The kinds of failure the codec core can report.
#[derive(Clone, Copy, Debug, PartialEq, Eq, Structural)]
pub enum ErrorKind {
    /// A caller-supplied value outside its domain.
    InvalidArgument,
    /// The bitstream violates an invariant of the format.
    Corruption,
    /// A read advanced past the end of the buffer; a subcategory of
    /// corruption kept separate for diagnostics.
    InsufficientData,
}

/// An error with its kind and a human-readable message naming the offending
/// values.
#[derive(Clone, Debug, PartialEq)]
pub struct QCompressError {
    pub kind: ErrorKind,
    pub message: String,
}

/// Results of fallible codec operations.
pub type QCompressResult<T> = Result<T, QCompressError>;

/// The decimal digit character for `d` in `0..10`.
pub open spec fn digit_char(d: nat) -> char {
    if d == 0 {
        '0'
    } else if d == 1 {
        '1'
    } else if d == 2 {
        '2'
    } else if d == 3 {
        '3'
    } else if d == 4 {
        '4'
    } else if d == 5 {
        '5'
    } else if d == 6 {
        '6'
    } else if d == 7 {
        '7'
    } else if d == 8 {
        '8'
    } else {
        '9'
    }
}

/// The decimal rendering of a natural number, most significant digit first.
pub open spec fn dec_of_nat(n: nat) -> Seq<char>
    decreases n,
{
    if n < 10 {
        seq![digit_char(n)]
    } else {
        dec_of_nat(n / 10) + seq![digit_char(n % 10)]
    }
}

/// The decimal rendering of an integer, with a leading minus sign when
/// negative.
pub open spec fn dec_of_int(v: int) -> Seq<char> {
    if v < 0 {
        seq!['-'] + dec_of_nat((-v) as nat)
    } else {
        dec_of_nat(v as nat)
    }
}

/// Relies on `format!` for the decimal rendering of an unsigned integer.
#[verifier::external_body]
pub fn format_u128(v: u128) -> (r: String)
    ensures
        r@ == dec_of_nat(v as nat),
{
    format!("{}", v)
}

/// Relies on `format!` for the decimal rendering of a signed integer.
#[verifier::external_body]
pub fn format_i128(v: i128) -> (r: String)
    ensures
        r@ == dec_of_int(v as int),
{
    format!("{}", v)
}

impl QCompressError {
    /// An `InvalidArgument` error carrying `message`.
    pub fn invalid_argument(message: String) -> (r: Self)
        ensures
            r.kind == ErrorKind::InvalidArgument,
            r.message == message,
    {
        QCompressError { kind: ErrorKind::InvalidArgument, message }
    }

    /// A `Corruption` error carrying `message`.
    pub fn corruption(message: String) -> (r: Self)
        ensures
            r.kind == ErrorKind::Corruption,
            r.message == message,
    {
        QCompressError { kind: ErrorKind::Corruption, message }
    }

    /// An `InsufficientData` error carrying `message`.
    pub fn insufficient_data(message: String) -> (r: Self)
        ensures
            r.kind == ErrorKind::InsufficientData,
            r.message == message,
    {
        QCompressError { kind: ErrorKind::InsufficientData, message }
    }
}

/// The error reported when a read would run past the end of the buffer.
pub fn insufficient_data_error() -> (r: QCompressError)
    ensures
        r.kind == ErrorKind::InsufficientData,
{
    QCompressError::insufficient_data(String::from_str("ran out of data while reading"))
}

} // verus!
