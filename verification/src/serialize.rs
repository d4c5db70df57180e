//! The `Serialize` trait: how a value is appended to a byte buffer and read
//! back from a tape, with its implementation for `bool` and `String`.
use vstd::prelude::*;
use vstd::utf8::{decode_utf8, encode_utf8, encode_utf8_decode_utf8, encode_utf8_valid_utf8, valid_utf8};
use taped::Tape;
use std::string::FromUtf8Error;
use vstd::string::StringExecFns;
use crate::error::{decode_matches, encode_matches, invalid_bool, DecodeError, DecodeFault, EncodeError};
use crate::le::{le_bytes, lemma_pow256_values, write_le};
use crate::sized_vec::{
    decode_prefixed, items_encode, items_encode_error, lemma_prefixed_roundtrip, prefixed_decode,
    prefixed_encode, prefixed_encode_error,
};
use crate::tape::{tape_bytes, tape_next, tape_pos, tape_position};
use crate::{StrLen, STR_LEN_SIZE};

verus! {

/// A value that can be serialized to and deserialized from a byte buffer.
///
/// The format of a type is given by three specification functions over the
/// value's deep view: the bytes that encoding appends, the error that
/// encoding reports (if any), and what decoding at a position of a byte
/// string yields. Every implementation proves that a value that encodes
/// without error is read back as itself, wherever it stands in the buffer.
pub trait Serialize: Sized + DeepView {
    /// The bytes that encoding a value with view `v` appends; when encoding
    /// fails, the bytes appended before the failure.
    spec fn spec_encode(v: Self::V) -> Seq<u8>;

    /// The error that encoding a value with view `v` reports, if any.
    spec fn spec_encode_error(v: Self::V) -> Option<EncodeError>;

    /// Decoding at `pos` of `data`: the view of the value read, or the fault,
    /// and the position after the attempt.
    spec fn spec_decode(data: Seq<u8>, pos: int) -> (Result<Self::V, DecodeFault>, int);

    /// A value that encodes without error, written between any two byte
    /// strings, is read back as itself, and the read ends right after it.
    proof fn lemma_roundtrip(v: Self::V, pre: Seq<u8>, post: Seq<u8>)
        requires
            Self::spec_encode_error(v) is None,
        ensures
            Self::spec_decode(pre + Self::spec_encode(v) + post, pre.len() as int) == (
                Ok::<Self::V, DecodeFault>(v),
                (pre.len() + Self::spec_encode(v).len()) as int,
            ),
    ;

    /// Encodes this value by appending it to the buffer.
    fn encode(&self, dest: &mut Vec<u8>) -> (r: Result<(), EncodeError>)
        ensures
            final(dest)@ == old(dest)@ + Self::spec_encode(self.deep_view()),
            encode_matches(r, Self::spec_encode_error(self.deep_view())),
    ;

    /// Decodes the value by consuming the next one on the tape.
    fn decode(src: &mut Tape<'_, u8>) -> (r: Result<Self, DecodeError>)
        requires
            tape_pos(*old(src)) < usize::MAX,
            tape_bytes(*old(src)).len() < usize::MAX,
        ensures
            tape_bytes(*final(src)) == tape_bytes(*old(src)),
            ({
                let (out, end) = Self::spec_decode(tape_bytes(*old(src)), tape_pos(*old(src)) as int);
                &&& tape_pos(*final(src)) == end
                &&& decode_matches(r, out)
            }),
            r is Ok ==> tape_pos(*old(src)) <= tape_pos(*final(src)) <= tape_bytes(*old(src)).len(),
    ;
}

impl Serialize for bool {
    /// One byte: `1` for `true`, `0` for `false`.
    open spec fn spec_encode(v: bool) -> Seq<u8> {
        if v {
            seq![1u8]
        } else {
            seq![0u8]
        }
    }

    open spec fn spec_encode_error(v: bool) -> Option<EncodeError> {
        None
    }

    /// The byte at `pos`: `0` is `false`, `1` is `true`, any other byte is
    /// refused at `pos`. The position moves forward by one in every case,
    /// also at the end of the data, where the tape is exhausted at the moved
    /// position.
    open spec fn spec_decode(data: Seq<u8>, pos: int) -> (Result<bool, DecodeFault>, int) {
        if 0 <= pos < data.len() {
            if data[pos] == 0 {
                (Ok(false), pos + 1)
            } else if data[pos] == 1 {
                (Ok(true), pos + 1)
            } else {
                (Err(DecodeFault::InvalidBool(pos as usize)), pos + 1)
            }
        } else {
            (Err(DecodeFault::Exhausted((pos + 1) as usize)), pos + 1)
        }
    }

    proof fn lemma_roundtrip(v: bool, pre: Seq<u8>, post: Seq<u8>) {
        let data = pre + Self::spec_encode(v) + post;
        assert(data[pre.len() as int] == Self::spec_encode(v)[0]);
    }

    fn encode(&self, dest: &mut Vec<u8>) -> (r: Result<(), EncodeError>) {
        dest.push(if *self { 1u8 } else { 0u8 });
        Ok(())
    }

    fn decode(src: &mut Tape<'_, u8>) -> (r: Result<bool, DecodeError>) {
        let start = tape_position(src);
        match tape_next(src) {
            Some(0) => Ok(false),
            Some(1) => Ok(true),
            Some(_) => Err(invalid_bool(start)),
            None => Err(DecodeError::Exhausted { pos: tape_position(src) }),
        }
    }
}

#[verifier::external_type_specification]
#[verifier::external_body]
pub struct ExFromUtf8Error(FromUtf8Error);

/// `String::from_utf8`: succeeds exactly when the bytes are valid UTF-8,
/// and then holds the characters that the bytes encode.
#[verifier::external_body]
fn string_from_utf8(bytes: Vec<u8>) -> (r: Result<String, FromUtf8Error>)
    ensures
        r is Ok <==> valid_utf8(bytes@),
        r matches Ok(s) ==> s@ == decode_utf8(bytes@),
{
    String::from_utf8(bytes)
}

/// Each byte encodes to itself and never fails.
pub proof fn lemma_bytes_encode(bytes: Seq<u8>)
    ensures
        items_encode::<u8>(bytes) == bytes,
        items_encode_error::<u8>(bytes) is None,
    decreases bytes.len(),
{
    if bytes.len() > 0 {
        lemma_bytes_encode(bytes.drop_last());
        let b = bytes.last();
        assert((b as nat) % 256 == b as nat);
        assert(le_bytes((b as nat) / 256, 0) =~= Seq::<u8>::empty());
        assert(le_bytes(b as nat, 1) =~= seq![b]);
        assert(bytes.drop_last().push(b) =~= bytes);
    }
}

impl Serialize for String {
    /// The UTF-8 bytes of the string, behind their count as a little-endian
    /// `StrLen` (`u32`); nothing when the count exceeds `u32::MAX`.
    open spec fn spec_encode(v: Seq<char>) -> Seq<u8> {
        let bytes = encode_utf8(v);
        if bytes.len() <= StrLen::MAX {
            le_bytes(bytes.len(), STR_LEN_SIZE as nat) + bytes
        } else {
            Seq::empty()
        }
    }

    /// More than `u32::MAX` bytes do not fit in the prefix of 4 bytes.
    open spec fn spec_encode_error(v: Seq<char>) -> Option<EncodeError> {
        let bytes = encode_utf8(v);
        if bytes.len() <= StrLen::MAX {
            None
        } else {
            Some(EncodeError::LengthExceedsPrefix { prefix_size: STR_LEN_SIZE as u8, len: bytes.len() as usize })
        }
    }

    /// The bytes of a `Vec32<u8>`; when they are not valid UTF-8, the error
    /// is at the position where the string began, its cause begins with
    /// `Invalid UTF-8 (`, and the tape stays after the bytes.
    open spec fn spec_decode(data: Seq<u8>, pos: int) -> (Result<Seq<char>, DecodeFault>, int) {
        let (out, end) = prefixed_decode::<u8>(data, pos, STR_LEN_SIZE as nat);
        match out {
            Ok(bytes) => if valid_utf8(bytes) {
                (Ok(decode_utf8(bytes)), end)
            } else {
                (Err(DecodeFault::InvalidUtf8(pos as usize)), end)
            },
            Err(f) => (Err(f), end),
        }
    }

    proof fn lemma_roundtrip(v: Seq<char>, pre: Seq<u8>, post: Seq<u8>) {
        broadcast use {encode_utf8_valid_utf8, encode_utf8_decode_utf8};

        let bytes = encode_utf8(v);
        lemma_pow256_values();
        lemma_bytes_encode(bytes);
        assert(prefixed_encode::<u8>(bytes, STR_LEN_SIZE as nat) == Self::spec_encode(v));
        assert(prefixed_encode_error::<u8>(bytes, STR_LEN_SIZE as nat) is None);
        lemma_prefixed_roundtrip::<u8>(bytes, STR_LEN_SIZE as nat, pre, post);
    }

    fn encode(&self, dest: &mut Vec<u8>) -> (r: Result<(), EncodeError>) {
        let bytes: &[u8] = self.as_str().as_bytes();
        let len = bytes.len();
        if (len as u64) > (StrLen::MAX as u64) {
            return Err(EncodeError::LengthExceedsPrefix { prefix_size: STR_LEN_SIZE as u8, len });
        }
        write_le(dest, len as u128, STR_LEN_SIZE);
        let ghost start = dest@;
        let mut i: usize = 0;
        while i < len
            invariant
                i <= len,
                len == bytes@.len(),
                dest@ == start + bytes@.take(i as int),
            decreases len - i,
        {
            dest.push(bytes[i]);
            assert(bytes@.take(i + 1) =~= bytes@.take(i as int).push(bytes@[i as int]));
            i = i + 1;
        }
        assert(bytes@.take(len as int) =~= bytes@);
        Ok(())
    }

    fn decode(src: &mut Tape<'_, u8>) -> (r: Result<String, DecodeError>) {
        let start = tape_position(src);
        let bytes = match decode_prefixed::<u8>(src, STR_LEN_SIZE) {
            Ok(b) => b,
            Err(e) => return Err(e),
        };
        assert(bytes.deep_view() =~= bytes@);
        match string_from_utf8(bytes) {
            Ok(s) => Ok(s),
            Err(e) => {
                let cause = "Invalid UTF-8 (".to_owned();
                let cause = cause.concat(e.to_string().as_str());
                let cause = cause.concat(")");
                Err(DecodeError::Other { pos: start, cause })
            },
        }
    }
}

} // verus!
