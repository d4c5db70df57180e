# bincake

Deterministic, compact little-endian binary serialization, verified with Verus.

Values are appended to a `Vec<u8>` with `Serialize::encode` (or `Write::write`)
and read back from a `taped::Tape` with `Serialize::decode` (or `Read::read`).

- `bool`: one byte, `1` or `0`; any other byte is refused when decoding.
- Integers (`u8` .. `u128`, `i8` .. `i128`, `usize`, `isize`): little-endian
  two's complement of their natural width.
- `String`: a `u32` byte count, then the UTF-8 bytes.
- `Vec8` .. `Vec128`: the element count in a prefix of 8 to 128 bits, then the
  elements; a count that does not fit in the prefix is refused when encoding,
  and a decoded count above `usize::MAX` is refused.
- Tuples of two and three values: the elements in order.

Every format is stated as specification functions of the `Serialize` trait,
and every implementation proves that what it writes is read back unchanged,
wherever it stands in a buffer (`src/laws.rs` states this for the library as a
whole).

Layout: `src/` is the verified library; `app/` holds the error types with their
messages, floating-point values (written as the bytes of their bit patterns)
and the convenience macros; `tests/` runs the library.

There is no derive macro: an implementation of `Serialize` states its format
as specification functions and proves the round trip, which generated code
cannot supply; implement the trait by hand (in Verus) for your own types. A
struct is encoded as its fields in order (as a tuple is); an enum as a one-byte
variant tag (`variant::encode_variant`, `variant::decode_variant`, which refuses
a tag out of range) followed by the variant's fields.
