//! Convenience traits for reading values from a source and writing them to
//! a destination, implemented for `taped::Tape` and `Vec<u8>`.
use vstd::prelude::*;
use taped::Tape;
use crate::error::{decode_matches, encode_matches, DecodeError, EncodeError};
use crate::serialize::Serialize;
use crate::tape::{tape_bytes, tape_pos};

verus! {

/// A source that values can be read from, one after the other.
pub trait Read: Sized {
    /// The bytes the source runs over.
    spec fn spec_bytes(&self) -> Seq<u8>;

    /// The position at which the next value starts.
    spec fn spec_pos(&self) -> int;

    /// The source can be read from: its position and its length are below
    /// `usize::MAX`.
    spec fn spec_ready(&self) -> bool;

    /// Reads the next value of type `T`, as `T::decode` does.
    fn read<T: Serialize>(&mut self) -> (r: Result<T, DecodeError>)
        requires
            old(self).spec_ready(),
        ensures
            final(self).spec_bytes() == old(self).spec_bytes(),
            ({
                let (out, end) = T::spec_decode(old(self).spec_bytes(), old(self).spec_pos());
                &&& final(self).spec_pos() == end
                &&& decode_matches(r, out)
            }),
            r is Ok ==> final(self).spec_ready(),
    ;
}

/// A destination that values can be written to, one after the other.
pub trait Write: Sized {
    /// The bytes written so far.
    spec fn spec_written(&self) -> Seq<u8>;

    /// Appends the encoding of `value`, as `T::encode` does.
    fn write<T: Serialize>(&mut self, value: &T) -> (r: Result<(), EncodeError>)
        ensures
            final(self).spec_written() == old(self).spec_written() + T::spec_encode(value.deep_view()),
            encode_matches(r, T::spec_encode_error(value.deep_view())),
    ;
}

impl Read for Tape<'_, u8> {
    open spec fn spec_bytes(&self) -> Seq<u8> {
        tape_bytes(*self)
    }

    open spec fn spec_pos(&self) -> int {
        tape_pos(*self) as int
    }

    open spec fn spec_ready(&self) -> bool {
        tape_pos(*self) < usize::MAX && tape_bytes(*self).len() < usize::MAX
    }

    fn read<T: Serialize>(&mut self) -> (r: Result<T, DecodeError>) {
        T::decode(self)
    }
}

impl Write for Vec<u8> {
    open spec fn spec_written(&self) -> Seq<u8> {
        self@
    }

    fn write<T: Serialize>(&mut self, value: &T) -> (r: Result<(), EncodeError>) {
        value.encode(self)
    }
}

} // verus!
