//! The byte cursor that decoding reads from: `taped::Tape`, as the
//! specifications see it.
use vstd::prelude::*;
use taped::Tape;

verus! {

#[verifier::external_type_specification]
#[verifier::external_body]
#[verifier::reject_recursive_types(T)]
pub struct ExTape<'a, T>(Tape<'a, T>);

/// The bytes a tape runs over (the slice it was made from).
pub uninterp spec fn tape_bytes(tape: Tape<'_, u8>) -> Seq<u8>;

/// The tape's current position (its public field `pos`).
pub uninterp spec fn tape_pos(tape: Tape<'_, u8>) -> usize;

/// `taped::Tape::new`: a tape over `raw`, at position 0.
#[verifier::external_body]
fn tape_new(raw: &[u8]) -> (tape: Tape<'_, u8>)
    ensures
        tape_bytes(tape) == raw@,
        tape_pos(tape) == 0,
{
    Tape::new(raw)
}

/// A tape over `bytes`, at its start.
pub fn new_tape(bytes: &[u8]) -> (tape: Tape<'_, u8>)
    ensures
        tape_bytes(tape) == bytes@,
        tape_pos(tape) == 0,
{
    tape_new(bytes)
}

/// Whether values can be decoded from the tape: its position and its
/// length are below `usize::MAX` (the `requires` of `Serialize::decode`).
pub fn tape_ready(tape: &Tape<'_, u8>) -> (ready: bool)
    ensures
        ready == (tape_pos(*tape) < usize::MAX && tape_bytes(*tape).len() < usize::MAX),
{
    tape_position(tape) < usize::MAX && tape_length(tape) < usize::MAX
}

/// The tape's current position.
pub fn position(tape: &Tape<'_, u8>) -> (pos: usize)
    ensures
        pos == tape_pos(*tape),
{
    tape_position(tape)
}

/// Reads the field `pos` of a `taped::Tape`.
#[verifier::external_body]
pub(crate) fn tape_position(tape: &Tape<'_, u8>) -> (pos: usize)
    ensures
        pos == tape_pos(*tape),
{
    tape.pos
}

/// The number of bytes a `taped::Tape` runs over: the length of the slice
/// that it dereferences to.
#[verifier::external_body]
pub(crate) fn tape_length(tape: &Tape<'_, u8>) -> (len: usize)
    ensures
        len == tape_bytes(*tape).len(),
{
    tape.len()
}

/// The byte at index `i` of the slice that a `taped::Tape` dereferences to,
/// whatever the tape's position.
#[verifier::external_body]
pub(crate) fn tape_byte(tape: &Tape<'_, u8>, i: usize) -> (b: u8)
    requires
        i < tape_bytes(*tape).len(),
    ensures
        b == tape_bytes(*tape)[i as int],
{
    tape[i]
}

/// Moves a `taped::Tape` forward by `n` bytes: `pos += n` on its public
/// field; the bytes it runs over stay as they are.
#[verifier::external_body]
pub(crate) fn tape_skip(tape: &mut Tape<'_, u8>, n: usize)
    requires
        tape_pos(*old(tape)) + n <= usize::MAX,
    ensures
        tape_bytes(*final(tape)) == tape_bytes(*old(tape)),
        tape_pos(*final(tape)) == tape_pos(*old(tape)) + n,
{
    tape.pos += n;
}

/// `taped::Tape::next`: the byte at the current position, if there is one,
/// and the position moved forward by one in either case (the source
/// increments `pos` after the lookup, also when the tape is exhausted).
#[verifier::external_body]
pub(crate) fn tape_next(tape: &mut Tape<'_, u8>) -> (b: Option<u8>)
    requires
        tape_pos(*old(tape)) < usize::MAX,
    ensures
        tape_bytes(*final(tape)) == tape_bytes(*old(tape)),
        tape_pos(*final(tape)) == tape_pos(*old(tape)) + 1,
        b == (if tape_pos(*old(tape)) < tape_bytes(*old(tape)).len() {
            Some(tape_bytes(*old(tape))[tape_pos(*old(tape)) as int])
        } else {
            None
        }),
{
    tape.next()
}

} // verus!
