//! Errors raised while encoding and decoding.
use vstd::prelude::*;

verus! {

/// Denotes a fatal error during decoding.
#[derive(Debug, Clone, PartialEq, Eq)]
pub enum DecodeError {
    /// The tape ended before the value did. For a number, `pos` is where it
    /// began (the tape does not move); for a `bool`, `pos` is one past the
    /// position of the missing byte (the tape moves forward by one in any case).
    Exhausted { pos: usize },
    /// The data at `pos` is malformed; `cause` describes how.
    Other { pos: usize, cause: String },
}

/// Denotes a fatal error during encoding.
#[derive(Debug, Clone, PartialEq, Eq)]
pub enum EncodeError {
    /// The length of an array is too large to be written in its length prefix.
    ///
    /// Here an array is any contiguous sequence of elements: the bytes of a
    /// `String` (prefix of 4 bytes) or the elements of a sized vector.
    /// `prefix_size` is the width of the prefix in bytes.
    LengthExceedsPrefix { prefix_size: u8, len: usize },
    /// Any other failure, described by `cause`.
    Other { cause: String },
}

/// The kind and position of a decoding failure, as the specifications see it.
///
/// `Exhausted` stands for `DecodeError::Exhausted` at the same position; the
/// others stand for `DecodeError::Other` at the same position, with the
/// cause that `error_matches` gives for each.
#[derive(Debug, Clone, Copy, PartialEq, Eq)]
pub enum DecodeFault {
    /// The tape ended before the value did.
    Exhausted(usize),
    /// Malformed data, with any cause.
    Other(usize),
    /// A `bool` byte that is neither `0` nor `1`.
    InvalidBool(usize),
    /// An element count above `usize::MAX`.
    CountOverflow(usize),
    /// String bytes that are not valid UTF-8.
    InvalidUtf8(usize),
    /// An enum variant tag at or above the number of variants.
    InvalidVariant(usize),
}

/// The cause of the error for a `bool` byte that is neither `0` nor `1`.
pub open spec fn invalid_bool_cause() -> Seq<char> {
    "Invalid bool byte (expected 0 or 1)"@
}

/// The cause of the error for an element count above `usize::MAX`.
pub open spec fn count_overflow_cause() -> Seq<char> {
    "Element count exceeds usize::MAX"@
}

/// The beginning of the cause of the error for string bytes that are not
/// valid UTF-8; the description of the UTF-8 error follows in parentheses.
pub open spec fn invalid_utf8_cause_prefix() -> Seq<char> {
    "Invalid UTF-8 ("@
}

/// The beginning of the cause of the error for an enum variant tag out of
/// range; the tag and the enum's name follow.
pub open spec fn invalid_variant_cause_prefix() -> Seq<char> {
    "Invalid discriminant "@
}

/// `r` is the error that `fault` stands for.
pub open spec fn error_matches(r: DecodeError, fault: DecodeFault) -> bool {
    match fault {
        DecodeFault::Exhausted(p) => r == DecodeError::Exhausted { pos: p },
        DecodeFault::Other(p) => r matches DecodeError::Other { pos, .. } && pos == p,
        DecodeFault::InvalidBool(p) => r matches DecodeError::Other { pos, cause } && pos == p
            && cause@ == invalid_bool_cause(),
        DecodeFault::CountOverflow(p) => r matches DecodeError::Other { pos, cause } && pos == p
            && cause@ == count_overflow_cause(),
        DecodeFault::InvalidUtf8(p) => r matches DecodeError::Other { pos, cause } && pos == p
            && invalid_utf8_cause_prefix().is_prefix_of(cause@),
        DecodeFault::InvalidVariant(p) => r matches DecodeError::Other { pos, cause } && pos == p
            && invalid_variant_cause_prefix().is_prefix_of(cause@),
    }
}

/// The error for a `bool` byte at `pos` that is neither `0` nor `1`.
pub(crate) fn invalid_bool(pos: usize) -> (e: DecodeError)
    ensures
        error_matches(e, DecodeFault::InvalidBool(pos)),
{
    DecodeError::Other { pos, cause: "Invalid bool byte (expected 0 or 1)".to_owned() }
}

/// The error for an element count at `pos` that exceeds `usize::MAX`.
pub(crate) fn count_overflow(pos: usize) -> (e: DecodeError)
    ensures
        error_matches(e, DecodeFault::CountOverflow(pos)),
{
    DecodeError::Other { pos, cause: "Element count exceeds usize::MAX".to_owned() }
}

/// `r` is the executable counterpart of the specified outcome `out`.
pub open spec fn decode_matches<T: DeepView>(r: Result<T, DecodeError>, out: Result<T::V, DecodeFault>) -> bool {
    match out {
        Ok(v) => r matches Ok(x) && x.deep_view() == v,
        Err(f) => r matches Err(e) && error_matches(e, f),
    }
}

/// `r` is the executable counterpart of the specified encoding error `err`.
pub open spec fn encode_matches(r: Result<(), EncodeError>, err: Option<EncodeError>) -> bool {
    match err {
        None => r is Ok,
        Some(e) => r == Err::<(), EncodeError>(e),
    }
}

} // verus!
