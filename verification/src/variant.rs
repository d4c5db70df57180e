//! The tag of an enum's variant: one byte, the variant's index, in front of
//! the variant's fields (which follow one after the other, as the elements
//! of a tuple do). These are the pieces that an implementation of
//! `Serialize` for an enum is built from.
use vstd::prelude::*;
use vstd::string::StringExecFns;
use taped::Tape;
use crate::error::{decode_matches, DecodeError, DecodeFault};
use crate::serialize::Serialize;
use crate::tape::{tape_bytes, tape_pos, tape_position};

verus! {

/// Decoding the tag of an enum with `count` variants at `pos`: a byte below
/// `count`; a byte at or above `count` is refused at the tag's position,
/// with the tape after the tag.
pub open spec fn variant_decode(data: Seq<u8>, pos: int, count: nat) -> (Result<u8, DecodeFault>, int) {
    let (out, end) = u8::spec_decode(data, pos);
    match out {
        Ok(t) => if t < count {
            (Ok(t), end)
        } else {
            (Err(DecodeFault::InvalidVariant(pos as usize)), end)
        },
        Err(f) => (Err(f), end),
    }
}

/// A tag below the number of variants, written between any two byte
/// strings, is read back as itself, and the read ends right after it.
pub proof fn lemma_variant_roundtrip(tag: u8, count: nat, pre: Seq<u8>, post: Seq<u8>)
    requires
        tag < count,
    ensures
        variant_decode(pre + u8::spec_encode(tag) + post, pre.len() as int, count)
            == (Ok::<u8, DecodeFault>(tag), pre.len() + 1int),
{
    u8::lemma_roundtrip(tag, pre, post);
    crate::le::lemma_le_bytes_len(tag as nat, 1);
}

/// Appends the tag of the variant with index `tag`.
pub fn encode_variant(tag: u8, dest: &mut Vec<u8>)
    ensures
        final(dest)@ == old(dest)@ + u8::spec_encode(tag),
{
    let _ = tag.encode(dest);
}

/// Reads the tag of a variant of the enum `enum_name`, which has `count`
/// variants. A tag out of range is refused with the cause
/// `Invalid discriminant {tag} for enum {enum_name}`.
pub fn decode_variant(src: &mut Tape<'_, u8>, count: usize, enum_name: &str) -> (r: Result<u8, DecodeError>)
    requires
        tape_pos(*old(src)) < usize::MAX,
        tape_bytes(*old(src)).len() < usize::MAX,
    ensures
        tape_bytes(*final(src)) == tape_bytes(*old(src)),
        ({
            let (out, end) = variant_decode(tape_bytes(*old(src)), tape_pos(*old(src)) as int, count as nat);
            &&& tape_pos(*final(src)) == end
            &&& decode_matches(r, out)
        }),
        r matches Err(DecodeError::Other { cause, .. }) ==> (" for enum "@ + enum_name@).is_suffix_of(cause@),
{
    let start = tape_position(src);
    let tag = match u8::decode(src) {
        Ok(t) => t,
        Err(e) => return Err(e),
    };
    if (tag as usize) < count {
        Ok(tag)
    } else {
        let cause = "Invalid discriminant ".to_owned();
        let cause = cause.concat(tag.to_string().as_str());
        let cause = cause.concat(" for enum ");
        let cause = cause.concat(enum_name);
        Err(DecodeError::Other { pos: start, cause })
    }
}

} // verus!
