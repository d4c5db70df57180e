//! `Serializable`: the earlier name of `Serialize`, with its method names
//! `write_to` and `read_from`, kept for code written against it.
use vstd::prelude::*;
use taped::Tape;
use crate::error::{decode_matches, encode_matches, DecodeError, EncodeError};
use crate::serialize::Serialize;
use crate::tape::{tape_bytes, tape_pos};

verus! {

/// A value that can be serialized to and deserialized from bytecode; every
/// `Serialize` type is one, with the same format.
pub trait Serializable: Serialize {
    /// Encodes this value to bytecode by appending it to the buffer, as
    /// `Serialize::encode` does.
    fn write_to(&self, dest: &mut Vec<u8>) -> (r: Result<(), EncodeError>)
        ensures
            final(dest)@ == old(dest)@ + Self::spec_encode(self.deep_view()),
            encode_matches(r, Self::spec_encode_error(self.deep_view())),
    {
        self.encode(dest)
    }

    /// Decodes the value from bytecode, as `Serialize::decode` does.
    fn read_from(src: &mut Tape<'_, u8>) -> (r: Result<Self, DecodeError>)
        requires
            tape_pos(*old(src)) < usize::MAX,
            tape_bytes(*old(src)).len() < usize::MAX,
        ensures
            tape_bytes(*final(src)) == tape_bytes(*old(src)),
            ({
                let (out, end) = Self::spec_decode(tape_bytes(*old(src)), tape_pos(*old(src)) as int);
                &&& tape_pos(*final(src)) == end
                &&& decode_matches(r, out)
            }),
            r is Ok ==> tape_pos(*old(src)) <= tape_pos(*final(src)) <= tape_bytes(*old(src)).len(),
    {
        Self::decode(src)
    }
}

impl<T: Serialize> Serializable for T {

}

} // verus!
