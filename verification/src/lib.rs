//! Deterministic little-endian binary serialization.
//!
//! Values are appended to a `Vec<u8>` and read back from a `taped::Tape`
//! cursor. The format is byte-aligned: integers are little-endian two's
//! complement of their natural width, `bool` is one byte, strings are their
//! UTF-8 bytes behind a `u32` length prefix, and the sized vectors
//! `Vec8` .. `Vec128` put their element count in a prefix of 8 to 128 bits
//! in front of the encoded elements.
use vstd::prelude::*;

pub mod error;
pub mod tape;
pub mod le;
pub mod serialize;
pub mod serializable;
pub mod serialize_num;
pub mod sized_vec;
pub mod serialize_tuple;
pub mod read_write;
pub mod variant;

pub mod laws;
pub mod format_laws;

pub use error::{DecodeError, DecodeFault, EncodeError};
pub use read_write::{Read, Write};
pub use serializable::Serializable;
pub use serialize::Serialize;
pub use sized_vec::{Vec128, Vec16, Vec32, Vec64, Vec8};

verus! {

/// The type used to represent the length of a string when serialized.
pub type StrLen = u32;

/// The size in bytes of the type used to represent the length of a string
/// when serialized.
pub const STR_LEN_SIZE: usize = 4;

/// The earlier name of `EncodeError`.
pub type SerializeError = EncodeError;

/// The earlier name of `DecodeError`.
pub type DeserializeError = DecodeError;

} // verus!
