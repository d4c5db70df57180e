//! Properties of the format as a whole, stated over the specifications of
//! `Serialize`.
use vstd::prelude::*;
use crate::error::DecodeFault;
use crate::serialize::Serialize;
use crate::tape::{tape_bytes, tape_pos};
use taped::Tape;

verus! {

/// A value that encodes without error decodes from its own bytes as
/// itself, and the read consumes exactly those bytes.
pub proof fn law_round_trip<T: Serialize>(v: T::V)
    requires
        T::spec_encode_error(v) is None,
    ensures
        T::spec_decode(T::spec_encode(v), 0) == (Ok::<T::V, DecodeFault>(v), T::spec_encode(v).len() as int),
{
    let empty = Seq::<u8>::empty();
    T::lemma_roundtrip(v, empty, empty);
    assert(empty + T::spec_encode(v) + empty =~= T::spec_encode(v));
}

/// Reading from a tape that starts at a value's encoding, followed by any
/// bytes, gives the value and stops exactly where the following bytes begin.
pub proof fn law_read_after_write<T: Serialize>(v: T::V, rest: Seq<u8>, tape: Tape<'_, u8>)
    requires
        T::spec_encode_error(v) is None,
        tape_bytes(tape) == T::spec_encode(v) + rest,
        tape_pos(tape) == 0,
    ensures
        T::spec_decode(tape_bytes(tape), tape_pos(tape) as int) == (
            Ok::<T::V, DecodeFault>(v),
            T::spec_encode(v).len() as int,
        ),
        tape_bytes(tape).subrange(T::spec_encode(v).len() as int, tape_bytes(tape).len() as int) == rest,
{
    let empty = Seq::<u8>::empty();
    T::lemma_roundtrip(v, empty, rest);
    assert(empty + T::spec_encode(v) + rest =~= tape_bytes(tape));
    assert(tape_bytes(tape).subrange(T::spec_encode(v).len() as int, tape_bytes(tape).len() as int) =~= rest);
}

/// Two values written one after the other, followed by any bytes, are read
/// back in the same order, each read starting where the one before ended.
pub proof fn law_sequence<A: Serialize, B: Serialize>(a: A::V, b: B::V, rest: Seq<u8>)
    requires
        A::spec_encode_error(a) is None,
        B::spec_encode_error(b) is None,
    ensures
        ({
            let ea = A::spec_encode(a);
            let eb = B::spec_encode(b);
            let data = ea + eb + rest;
            &&& A::spec_decode(data, 0) == (Ok::<A::V, DecodeFault>(a), ea.len() as int)
            &&& B::spec_decode(data, ea.len() as int) == (Ok::<B::V, DecodeFault>(b), (ea.len() + eb.len()) as int)
        }),
{
    let ea = A::spec_encode(a);
    let eb = B::spec_encode(b);
    let empty = Seq::<u8>::empty();
    let data = ea + eb + rest;
    A::lemma_roundtrip(a, empty, eb + rest);
    assert(empty + ea + (eb + rest) =~= data);
    B::lemma_roundtrip(b, ea, rest);
}

/// The output is deterministic: values with the same view are written as
/// the same bytes, with the same outcome.
pub proof fn law_deterministic<T: Serialize>(x: T, y: T)
    requires
        x.deep_view() == y.deep_view(),
    ensures
        T::spec_encode(x.deep_view()) == T::spec_encode(y.deep_view()),
        T::spec_encode_error(x.deep_view()) == T::spec_encode_error(y.deep_view()),
{
}

} // verus!
