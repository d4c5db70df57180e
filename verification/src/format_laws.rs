//! The byte format of each type, stated directly: what bytes a value is
//! written as, which values are refused, and what reading gives back.
use vstd::prelude::*;
use vstd::utf8::{decode_utf8, encode_utf8, valid_utf8};
use crate::error::{DecodeFault, EncodeError};
use crate::le::{
    le_value, lemma_fixed_roundtrip, lemma_le_bytes_index, lemma_le_bytes_len, lemma_le_value_bound,
    lemma_le_value_bytes, lemma_pow256_values, lemma_untwos_fits, lemma_untwos_twos, pow256, twos, untwos,
    usize_width,
};
use crate::serialize::{lemma_bytes_encode, Serialize};
use crate::sized_vec::{
    lemma_items_encode_concat, lemma_items_encode_each, lemma_items_encode_first_error,
    lemma_items_decode_fault, lemma_prefixed_roundtrip, prefixed_encode, Vec128, Vec16, Vec32, Vec64, Vec8,
};

verus! {

/// A `u8` never fails to encode and is written as exactly 1 bytes,
/// byte `k` being the `k`-th base-256 digit of the value
/// (least significant first).
pub proof fn law_u8_encoding(v: u8)
    ensures
        <u8 as Serialize>::spec_encode_error(v) is None,
        <u8 as Serialize>::spec_encode(v).len() == 1,
        forall|k: int|
            0 <= k < 1 ==> #[trigger] <u8 as Serialize>::spec_encode(v)[k] == ((v as nat / pow256(
                k as nat,
            )) % 256) as u8,
{
    lemma_le_bytes_len(v as nat, 1);
    assert forall|k: int| 0 <= k < 1 implies #[trigger] <u8 as Serialize>::spec_encode(v)[k] == ((v as nat
        / pow256(k as nat)) % 256) as u8 by {
        lemma_le_bytes_index(v as nat, 1, k);
    }
}

/// Reading a `u8` at `pos`: with too few bytes left, the tape is exhausted
/// at `pos` and does not move; otherwise the value read is the one whose
/// encoding is the next 1 bytes, and the read ends after them.
pub proof fn law_u8_decoding(data: Seq<u8>, pos: int)
    requires
        0 <= pos,
    ensures
        pos + 1 > data.len() ==> <u8 as Serialize>::spec_decode(data, pos) == (
            Err::<u8, DecodeFault>(DecodeFault::Exhausted(pos as usize)),
            pos,
        ),
        pos + 1 <= data.len() ==> (<u8 as Serialize>::spec_decode(data, pos) matches (Ok(x), end) && end
            == pos + 1 && <u8 as Serialize>::spec_encode(x) == data.subrange(pos, pos + 1)),
{
    lemma_pow256_values();
    if pos + 1 <= data.len() {
        let s = data.subrange(pos, pos + 1);
        lemma_le_value_bound(s);
        lemma_le_value_bytes(s);
    }
}

/// A `u16` never fails to encode and is written as exactly 2 bytes,
/// byte `k` being the `k`-th base-256 digit of the value
/// (least significant first).
pub proof fn law_u16_encoding(v: u16)
    ensures
        <u16 as Serialize>::spec_encode_error(v) is None,
        <u16 as Serialize>::spec_encode(v).len() == 2,
        forall|k: int|
            0 <= k < 2 ==> #[trigger] <u16 as Serialize>::spec_encode(v)[k] == ((v as nat / pow256(
                k as nat,
            )) % 256) as u8,
{
    lemma_le_bytes_len(v as nat, 2);
    assert forall|k: int| 0 <= k < 2 implies #[trigger] <u16 as Serialize>::spec_encode(v)[k] == ((v as nat
        / pow256(k as nat)) % 256) as u8 by {
        lemma_le_bytes_index(v as nat, 2, k);
    }
}

/// Reading a `u16` at `pos`: with too few bytes left, the tape is exhausted
/// at `pos` and does not move; otherwise the value read is the one whose
/// encoding is the next 2 bytes, and the read ends after them.
pub proof fn law_u16_decoding(data: Seq<u8>, pos: int)
    requires
        0 <= pos,
    ensures
        pos + 2 > data.len() ==> <u16 as Serialize>::spec_decode(data, pos) == (
            Err::<u16, DecodeFault>(DecodeFault::Exhausted(pos as usize)),
            pos,
        ),
        pos + 2 <= data.len() ==> (<u16 as Serialize>::spec_decode(data, pos) matches (Ok(x), end) && end
            == pos + 2 && <u16 as Serialize>::spec_encode(x) == data.subrange(pos, pos + 2)),
{
    lemma_pow256_values();
    if pos + 2 <= data.len() {
        let s = data.subrange(pos, pos + 2);
        lemma_le_value_bound(s);
        lemma_le_value_bytes(s);
    }
}

/// A `u32` never fails to encode and is written as exactly 4 bytes,
/// byte `k` being the `k`-th base-256 digit of the value
/// (least significant first).
pub proof fn law_u32_encoding(v: u32)
    ensures
        <u32 as Serialize>::spec_encode_error(v) is None,
        <u32 as Serialize>::spec_encode(v).len() == 4,
        forall|k: int|
            0 <= k < 4 ==> #[trigger] <u32 as Serialize>::spec_encode(v)[k] == ((v as nat / pow256(
                k as nat,
            )) % 256) as u8,
{
    lemma_le_bytes_len(v as nat, 4);
    assert forall|k: int| 0 <= k < 4 implies #[trigger] <u32 as Serialize>::spec_encode(v)[k] == ((v as nat
        / pow256(k as nat)) % 256) as u8 by {
        lemma_le_bytes_index(v as nat, 4, k);
    }
}

/// Reading a `u32` at `pos`: with too few bytes left, the tape is exhausted
/// at `pos` and does not move; otherwise the value read is the one whose
/// encoding is the next 4 bytes, and the read ends after them.
pub proof fn law_u32_decoding(data: Seq<u8>, pos: int)
    requires
        0 <= pos,
    ensures
        pos + 4 > data.len() ==> <u32 as Serialize>::spec_decode(data, pos) == (
            Err::<u32, DecodeFault>(DecodeFault::Exhausted(pos as usize)),
            pos,
        ),
        pos + 4 <= data.len() ==> (<u32 as Serialize>::spec_decode(data, pos) matches (Ok(x), end) && end
            == pos + 4 && <u32 as Serialize>::spec_encode(x) == data.subrange(pos, pos + 4)),
{
    lemma_pow256_values();
    if pos + 4 <= data.len() {
        let s = data.subrange(pos, pos + 4);
        lemma_le_value_bound(s);
        lemma_le_value_bytes(s);
    }
}

/// A `u64` never fails to encode and is written as exactly 8 bytes,
/// byte `k` being the `k`-th base-256 digit of the value
/// (least significant first).
pub proof fn law_u64_encoding(v: u64)
    ensures
        <u64 as Serialize>::spec_encode_error(v) is None,
        <u64 as Serialize>::spec_encode(v).len() == 8,
        forall|k: int|
            0 <= k < 8 ==> #[trigger] <u64 as Serialize>::spec_encode(v)[k] == ((v as nat / pow256(
                k as nat,
            )) % 256) as u8,
{
    lemma_le_bytes_len(v as nat, 8);
    assert forall|k: int| 0 <= k < 8 implies #[trigger] <u64 as Serialize>::spec_encode(v)[k] == ((v as nat
        / pow256(k as nat)) % 256) as u8 by {
        lemma_le_bytes_index(v as nat, 8, k);
    }
}

/// Reading a `u64` at `pos`: with too few bytes left, the tape is exhausted
/// at `pos` and does not move; otherwise the value read is the one whose
/// encoding is the next 8 bytes, and the read ends after them.
pub proof fn law_u64_decoding(data: Seq<u8>, pos: int)
    requires
        0 <= pos,
    ensures
        pos + 8 > data.len() ==> <u64 as Serialize>::spec_decode(data, pos) == (
            Err::<u64, DecodeFault>(DecodeFault::Exhausted(pos as usize)),
            pos,
        ),
        pos + 8 <= data.len() ==> (<u64 as Serialize>::spec_decode(data, pos) matches (Ok(x), end) && end
            == pos + 8 && <u64 as Serialize>::spec_encode(x) == data.subrange(pos, pos + 8)),
{
    lemma_pow256_values();
    if pos + 8 <= data.len() {
        let s = data.subrange(pos, pos + 8);
        lemma_le_value_bound(s);
        lemma_le_value_bytes(s);
    }
}

/// A `u128` never fails to encode and is written as exactly 16 bytes,
/// byte `k` being the `k`-th base-256 digit of the value
/// (least significant first).
pub proof fn law_u128_encoding(v: u128)
    ensures
        <u128 as Serialize>::spec_encode_error(v) is None,
        <u128 as Serialize>::spec_encode(v).len() == 16,
        forall|k: int|
            0 <= k < 16 ==> #[trigger] <u128 as Serialize>::spec_encode(v)[k] == ((v as nat / pow256(
                k as nat,
            )) % 256) as u8,
{
    lemma_le_bytes_len(v as nat, 16);
    assert forall|k: int| 0 <= k < 16 implies #[trigger] <u128 as Serialize>::spec_encode(v)[k] == ((v as nat
        / pow256(k as nat)) % 256) as u8 by {
        lemma_le_bytes_index(v as nat, 16, k);
    }
}

/// Reading a `u128` at `pos`: with too few bytes left, the tape is exhausted
/// at `pos` and does not move; otherwise the value read is the one whose
/// encoding is the next 16 bytes, and the read ends after them.
pub proof fn law_u128_decoding(data: Seq<u8>, pos: int)
    requires
        0 <= pos,
    ensures
        pos + 16 > data.len() ==> <u128 as Serialize>::spec_decode(data, pos) == (
            Err::<u128, DecodeFault>(DecodeFault::Exhausted(pos as usize)),
            pos,
        ),
        pos + 16 <= data.len() ==> (<u128 as Serialize>::spec_decode(data, pos) matches (Ok(x), end) && end
            == pos + 16 && <u128 as Serialize>::spec_encode(x) == data.subrange(pos, pos + 16)),
{
    lemma_pow256_values();
    if pos + 16 <= data.len() {
        let s = data.subrange(pos, pos + 16);
        lemma_le_value_bound(s);
        lemma_le_value_bytes(s);
    }
}

/// A `usize` never fails to encode and is written as exactly the platform's pointer width in bytes bytes,
/// byte `k` being the `k`-th base-256 digit of the value
/// (least significant first).
pub proof fn law_usize_encoding(v: usize)
    ensures
        <usize as Serialize>::spec_encode_error(v) is None,
        <usize as Serialize>::spec_encode(v).len() == usize_width(),
        forall|k: int|
            0 <= k < usize_width() ==> #[trigger] <usize as Serialize>::spec_encode(v)[k] == ((v as nat / pow256(
                k as nat,
            )) % 256) as u8,
{
    lemma_le_bytes_len(v as nat, usize_width());
    assert forall|k: int| 0 <= k < usize_width() implies #[trigger] <usize as Serialize>::spec_encode(v)[k] == ((v as nat
        / pow256(k as nat)) % 256) as u8 by {
        lemma_le_bytes_index(v as nat, usize_width(), k);
    }
}

/// Reading a `usize` at `pos`: with too few bytes left, the tape is exhausted
/// at `pos` and does not move; otherwise the value read is the one whose
/// encoding is the next the platform's pointer width in bytes bytes, and the read ends after them.
pub proof fn law_usize_decoding(data: Seq<u8>, pos: int)
    requires
        0 <= pos,
    ensures
        pos + usize_width() > data.len() ==> <usize as Serialize>::spec_decode(data, pos) == (
            Err::<usize, DecodeFault>(DecodeFault::Exhausted(pos as usize)),
            pos,
        ),
        pos + usize_width() <= data.len() ==> (<usize as Serialize>::spec_decode(data, pos) matches (Ok(x), end) && end
            == pos + usize_width() && <usize as Serialize>::spec_encode(x) == data.subrange(pos, pos + usize_width())),
{
    lemma_pow256_values();
    if pos + usize_width() <= data.len() {
        let s = data.subrange(pos, pos + usize_width());
        lemma_le_value_bound(s);
        lemma_le_value_bytes(s);
    }
}

/// A `i8` never fails to encode and is written as exactly 1 bytes,
/// byte `k` being the `k`-th base-256 digit of the value's two's complement
/// (least significant first).
pub proof fn law_i8_encoding(v: i8)
    ensures
        <i8 as Serialize>::spec_encode_error(v) is None,
        <i8 as Serialize>::spec_encode(v).len() == 1,
        forall|k: int|
            0 <= k < 1 ==> #[trigger] <i8 as Serialize>::spec_encode(v)[k] == ((twos(v as int, 1) / pow256(
                k as nat,
            )) % 256) as u8,
{
    lemma_le_bytes_len(twos(v as int, 1), 1);
    assert forall|k: int| 0 <= k < 1 implies #[trigger] <i8 as Serialize>::spec_encode(v)[k] == ((twos(v as int, 1)
        / pow256(k as nat)) % 256) as u8 by {
        lemma_le_bytes_index(twos(v as int, 1), 1, k);
    }
}

/// Reading a `i8` at `pos`: with too few bytes left, the tape is exhausted
/// at `pos` and does not move; otherwise the value read is the one whose
/// encoding is the next 1 bytes, and the read ends after them.
pub proof fn law_i8_decoding(data: Seq<u8>, pos: int)
    requires
        0 <= pos,
    ensures
        pos + 1 > data.len() ==> <i8 as Serialize>::spec_decode(data, pos) == (
            Err::<i8, DecodeFault>(DecodeFault::Exhausted(pos as usize)),
            pos,
        ),
        pos + 1 <= data.len() ==> (<i8 as Serialize>::spec_decode(data, pos) matches (Ok(x), end) && end
            == pos + 1 && <i8 as Serialize>::spec_encode(x) == data.subrange(pos, pos + 1)),
{
    lemma_pow256_values();
    if pos + 1 <= data.len() {
        let s = data.subrange(pos, pos + 1);
        lemma_le_value_bound(s);
        lemma_le_value_bytes(s);
            lemma_untwos_fits(le_value(s), 1);
            lemma_untwos_twos(le_value(s), 1);
    }
}

/// A `i16` never fails to encode and is written as exactly 2 bytes,
/// byte `k` being the `k`-th base-256 digit of the value's two's complement
/// (least significant first).
pub proof fn law_i16_encoding(v: i16)
    ensures
        <i16 as Serialize>::spec_encode_error(v) is None,
        <i16 as Serialize>::spec_encode(v).len() == 2,
        forall|k: int|
            0 <= k < 2 ==> #[trigger] <i16 as Serialize>::spec_encode(v)[k] == ((twos(v as int, 2) / pow256(
                k as nat,
            )) % 256) as u8,
{
    lemma_le_bytes_len(twos(v as int, 2), 2);
    assert forall|k: int| 0 <= k < 2 implies #[trigger] <i16 as Serialize>::spec_encode(v)[k] == ((twos(v as int, 2)
        / pow256(k as nat)) % 256) as u8 by {
        lemma_le_bytes_index(twos(v as int, 2), 2, k);
    }
}

/// Reading a `i16` at `pos`: with too few bytes left, the tape is exhausted
/// at `pos` and does not move; otherwise the value read is the one whose
/// encoding is the next 2 bytes, and the read ends after them.
pub proof fn law_i16_decoding(data: Seq<u8>, pos: int)
    requires
        0 <= pos,
    ensures
        pos + 2 > data.len() ==> <i16 as Serialize>::spec_decode(data, pos) == (
            Err::<i16, DecodeFault>(DecodeFault::Exhausted(pos as usize)),
            pos,
        ),
        pos + 2 <= data.len() ==> (<i16 as Serialize>::spec_decode(data, pos) matches (Ok(x), end) && end
            == pos + 2 && <i16 as Serialize>::spec_encode(x) == data.subrange(pos, pos + 2)),
{
    lemma_pow256_values();
    if pos + 2 <= data.len() {
        let s = data.subrange(pos, pos + 2);
        lemma_le_value_bound(s);
        lemma_le_value_bytes(s);
            lemma_untwos_fits(le_value(s), 2);
            lemma_untwos_twos(le_value(s), 2);
    }
}

/// A `i32` never fails to encode and is written as exactly 4 bytes,
/// byte `k` being the `k`-th base-256 digit of the value's two's complement
/// (least significant first).
pub proof fn law_i32_encoding(v: i32)
    ensures
        <i32 as Serialize>::spec_encode_error(v) is None,
        <i32 as Serialize>::spec_encode(v).len() == 4,
        forall|k: int|
            0 <= k < 4 ==> #[trigger] <i32 as Serialize>::spec_encode(v)[k] == ((twos(v as int, 4) / pow256(
                k as nat,
            )) % 256) as u8,
{
    lemma_le_bytes_len(twos(v as int, 4), 4);
    assert forall|k: int| 0 <= k < 4 implies #[trigger] <i32 as Serialize>::spec_encode(v)[k] == ((twos(v as int, 4)
        / pow256(k as nat)) % 256) as u8 by {
        lemma_le_bytes_index(twos(v as int, 4), 4, k);
    }
}

/// Reading a `i32` at `pos`: with too few bytes left, the tape is exhausted
/// at `pos` and does not move; otherwise the value read is the one whose
/// encoding is the next 4 bytes, and the read ends after them.
pub proof fn law_i32_decoding(data: Seq<u8>, pos: int)
    requires
        0 <= pos,
    ensures
        pos + 4 > data.len() ==> <i32 as Serialize>::spec_decode(data, pos) == (
            Err::<i32, DecodeFault>(DecodeFault::Exhausted(pos as usize)),
            pos,
        ),
        pos + 4 <= data.len() ==> (<i32 as Serialize>::spec_decode(data, pos) matches (Ok(x), end) && end
            == pos + 4 && <i32 as Serialize>::spec_encode(x) == data.subrange(pos, pos + 4)),
{
    lemma_pow256_values();
    if pos + 4 <= data.len() {
        let s = data.subrange(pos, pos + 4);
        lemma_le_value_bound(s);
        lemma_le_value_bytes(s);
            lemma_untwos_fits(le_value(s), 4);
            lemma_untwos_twos(le_value(s), 4);
    }
}

/// A `i64` never fails to encode and is written as exactly 8 bytes,
/// byte `k` being the `k`-th base-256 digit of the value's two's complement
/// (least significant first).
pub proof fn law_i64_encoding(v: i64)
    ensures
        <i64 as Serialize>::spec_encode_error(v) is None,
        <i64 as Serialize>::spec_encode(v).len() == 8,
        forall|k: int|
            0 <= k < 8 ==> #[trigger] <i64 as Serialize>::spec_encode(v)[k] == ((twos(v as int, 8) / pow256(
                k as nat,
            )) % 256) as u8,
{
    lemma_le_bytes_len(twos(v as int, 8), 8);
    assert forall|k: int| 0 <= k < 8 implies #[trigger] <i64 as Serialize>::spec_encode(v)[k] == ((twos(v as int, 8)
        / pow256(k as nat)) % 256) as u8 by {
        lemma_le_bytes_index(twos(v as int, 8), 8, k);
    }
}

/// Reading a `i64` at `pos`: with too few bytes left, the tape is exhausted
/// at `pos` and does not move; otherwise the value read is the one whose
/// encoding is the next 8 bytes, and the read ends after them.
pub proof fn law_i64_decoding(data: Seq<u8>, pos: int)
    requires
        0 <= pos,
    ensures
        pos + 8 > data.len() ==> <i64 as Serialize>::spec_decode(data, pos) == (
            Err::<i64, DecodeFault>(DecodeFault::Exhausted(pos as usize)),
            pos,
        ),
        pos + 8 <= data.len() ==> (<i64 as Serialize>::spec_decode(data, pos) matches (Ok(x), end) && end
            == pos + 8 && <i64 as Serialize>::spec_encode(x) == data.subrange(pos, pos + 8)),
{
    lemma_pow256_values();
    if pos + 8 <= data.len() {
        let s = data.subrange(pos, pos + 8);
        lemma_le_value_bound(s);
        lemma_le_value_bytes(s);
            lemma_untwos_fits(le_value(s), 8);
            lemma_untwos_twos(le_value(s), 8);
    }
}

/// A `i128` never fails to encode and is written as exactly 16 bytes,
/// byte `k` being the `k`-th base-256 digit of the value's two's complement
/// (least significant first).
pub proof fn law_i128_encoding(v: i128)
    ensures
        <i128 as Serialize>::spec_encode_error(v) is None,
        <i128 as Serialize>::spec_encode(v).len() == 16,
        forall|k: int|
            0 <= k < 16 ==> #[trigger] <i128 as Serialize>::spec_encode(v)[k] == ((twos(v as int, 16) / pow256(
                k as nat,
            )) % 256) as u8,
{
    lemma_le_bytes_len(twos(v as int, 16), 16);
    assert forall|k: int| 0 <= k < 16 implies #[trigger] <i128 as Serialize>::spec_encode(v)[k] == ((twos(v as int, 16)
        / pow256(k as nat)) % 256) as u8 by {
        lemma_le_bytes_index(twos(v as int, 16), 16, k);
    }
}

/// Reading a `i128` at `pos`: with too few bytes left, the tape is exhausted
/// at `pos` and does not move; otherwise the value read is the one whose
/// encoding is the next 16 bytes, and the read ends after them.
pub proof fn law_i128_decoding(data: Seq<u8>, pos: int)
    requires
        0 <= pos,
    ensures
        pos + 16 > data.len() ==> <i128 as Serialize>::spec_decode(data, pos) == (
            Err::<i128, DecodeFault>(DecodeFault::Exhausted(pos as usize)),
            pos,
        ),
        pos + 16 <= data.len() ==> (<i128 as Serialize>::spec_decode(data, pos) matches (Ok(x), end) && end
            == pos + 16 && <i128 as Serialize>::spec_encode(x) == data.subrange(pos, pos + 16)),
{
    lemma_pow256_values();
    if pos + 16 <= data.len() {
        let s = data.subrange(pos, pos + 16);
        lemma_le_value_bound(s);
        lemma_le_value_bytes(s);
            lemma_untwos_fits(le_value(s), 16);
            lemma_untwos_twos(le_value(s), 16);
    }
}

/// A `isize` never fails to encode and is written as exactly the platform's pointer width in bytes bytes,
/// byte `k` being the `k`-th base-256 digit of the value's two's complement
/// (least significant first).
pub proof fn law_isize_encoding(v: isize)
    ensures
        <isize as Serialize>::spec_encode_error(v) is None,
        <isize as Serialize>::spec_encode(v).len() == usize_width(),
        forall|k: int|
            0 <= k < usize_width() ==> #[trigger] <isize as Serialize>::spec_encode(v)[k] == ((twos(v as int, usize_width()) / pow256(
                k as nat,
            )) % 256) as u8,
{
    lemma_le_bytes_len(twos(v as int, usize_width()), usize_width());
    assert forall|k: int| 0 <= k < usize_width() implies #[trigger] <isize as Serialize>::spec_encode(v)[k] == ((twos(v as int, usize_width())
        / pow256(k as nat)) % 256) as u8 by {
        lemma_le_bytes_index(twos(v as int, usize_width()), usize_width(), k);
    }
}

/// Reading a `isize` at `pos`: with too few bytes left, the tape is exhausted
/// at `pos` and does not move; otherwise the value read is the one whose
/// encoding is the next the platform's pointer width in bytes bytes, and the read ends after them.
pub proof fn law_isize_decoding(data: Seq<u8>, pos: int)
    requires
        0 <= pos,
    ensures
        pos + usize_width() > data.len() ==> <isize as Serialize>::spec_decode(data, pos) == (
            Err::<isize, DecodeFault>(DecodeFault::Exhausted(pos as usize)),
            pos,
        ),
        pos + usize_width() <= data.len() ==> (<isize as Serialize>::spec_decode(data, pos) matches (Ok(x), end) && end
            == pos + usize_width() && <isize as Serialize>::spec_encode(x) == data.subrange(pos, pos + usize_width())),
{
    lemma_pow256_values();
    if pos + usize_width() <= data.len() {
        let s = data.subrange(pos, pos + usize_width());
        lemma_le_value_bound(s);
        lemma_le_value_bytes(s);
            lemma_untwos_fits(le_value(s), usize_width());
            lemma_untwos_twos(le_value(s), usize_width());
    }
}

/// A `bool` is written as one byte, `1` for `true` and `0` for `false`.
/// Reading takes one byte: `0` is `false`, `1` is `true`, any other byte is
/// refused at its position; past the end the tape is exhausted one past
/// `pos`. The tape moves forward by one in every case.
pub proof fn law_bool_format(data: Seq<u8>, pos: int)
    requires
        0 <= pos,
    ensures
        <bool as Serialize>::spec_encode(true) == seq![1u8],
        <bool as Serialize>::spec_encode(false) == seq![0u8],
        <bool as Serialize>::spec_encode_error(true) is None,
        <bool as Serialize>::spec_encode_error(false) is None,
        pos < data.len() && data[pos] == 0 ==> <bool as Serialize>::spec_decode(data, pos) == (
            Ok::<bool, DecodeFault>(false),
            pos + 1,
        ),
        pos < data.len() && data[pos] == 1 ==> <bool as Serialize>::spec_decode(data, pos) == (
            Ok::<bool, DecodeFault>(true),
            pos + 1,
        ),
        pos < data.len() && data[pos] > 1 ==> <bool as Serialize>::spec_decode(data, pos) == (
            Err::<bool, DecodeFault>(DecodeFault::InvalidBool(pos as usize)),
            pos + 1,
        ),
        pos >= data.len() ==> <bool as Serialize>::spec_decode(data, pos) == (
            Err::<bool, DecodeFault>(DecodeFault::Exhausted((pos + 1) as usize)),
            pos + 1,
        ),
{
}

/// A string whose UTF-8 encoding has at most `u32::MAX` bytes is written as
/// that byte count, encoded as a `u32`, then the bytes; a longer one is
/// refused with a prefix size of 4 bytes, and nothing is written.
pub proof fn law_string_encoding(s: Seq<char>)
    ensures
        encode_utf8(s).len() <= 0xFFFF_FFFF ==> <String as Serialize>::spec_encode_error(s) is None
            && <String as Serialize>::spec_encode(s) == <u32 as Serialize>::spec_encode(
            encode_utf8(s).len() as u32,
        ) + encode_utf8(s),
        encode_utf8(s).len() > 0xFFFF_FFFF ==> <String as Serialize>::spec_encode_error(s) == Some(
            EncodeError::LengthExceedsPrefix { prefix_size: 4, len: encode_utf8(s).len() as usize },
        ) && <String as Serialize>::spec_encode(s) == Seq::<u8>::empty(),
{
}

/// Reading a string whose `u32` byte count is followed by that many bytes
/// gives the characters those bytes encode when they are valid UTF-8, and is
/// refused at the string's start otherwise; either way the read ends after
/// the bytes.
pub proof fn law_string_decoding(bytes: Seq<u8>, pre: Seq<u8>, post: Seq<u8>)
    requires
        bytes.len() <= 0xFFFF_FFFF,
    ensures
        ({
            let data = pre + <u32 as Serialize>::spec_encode(bytes.len() as u32) + bytes + post;
            let end = (pre.len() + 4 + bytes.len()) as int;
            &&& valid_utf8(bytes) ==> <String as Serialize>::spec_decode(data, pre.len() as int) == (
                Ok::<Seq<char>, DecodeFault>(decode_utf8(bytes)),
                end,
            )
            &&& !valid_utf8(bytes) ==> <String as Serialize>::spec_decode(data, pre.len() as int) == (
                Err::<Seq<char>, DecodeFault>(DecodeFault::InvalidUtf8(pre.len() as usize)),
                end,
            )
        }),
{
    lemma_pow256_values();
    lemma_bytes_encode(bytes);
    lemma_le_bytes_len(bytes.len(), 4);
    lemma_prefixed_roundtrip::<u8>(bytes, 4, pre, post);
    let head = <u32 as Serialize>::spec_encode(bytes.len() as u32);
    assert(prefixed_encode::<u8>(bytes, 4) == head + bytes);
    assert(pre + (head + bytes) + post =~= pre + head + bytes + post);
}

/// A `Vec8` whose elements each encode without error, and whose count fits
/// (v.len() < 0x100), is written as its count encoded as a `u8`, then the
/// encodings of its elements in index order; a count that does not fit is
/// refused with a prefix size of 1 bytes, and nothing is written.
pub proof fn law_vec8_encoding<T: Serialize>(v: Seq<T::V>)
    ensures
        v.len() < 0x100 && (forall|i: int| 0 <= i < v.len() ==> (#[trigger] T::spec_encode_error(v[i])) is None)
            ==> <Vec8<T> as Serialize>::spec_encode_error(v) is None && <Vec8<T> as Serialize>::spec_encode(v)
            == <u8 as Serialize>::spec_encode(v.len() as u8) + Seq::new(
            v.len(),
            |i: int| T::spec_encode(v[i]),
        ).flatten(),
        v.len() >= 0x100 ==> <Vec8<T> as Serialize>::spec_encode_error(v) == Some(
            EncodeError::LengthExceedsPrefix { prefix_size: 1, len: v.len() as usize },
        ) && <Vec8<T> as Serialize>::spec_encode(v) == Seq::<u8>::empty(),
        <Vec8<T> as Serialize>::spec_encode_error(v) is None ==> forall|i: int|
            0 <= i < v.len() ==> (#[trigger] T::spec_encode_error(v[i])) is None,
{
    lemma_pow256_values();
    if v.len() < 0x100 && (forall|i: int| 0 <= i < v.len() ==> (#[trigger] T::spec_encode_error(v[i])) is None) {
        lemma_items_encode_concat::<T>(v);
    }
    if <Vec8<T> as Serialize>::spec_encode_error(v) is None {
        lemma_items_encode_each::<T>(v);
    }
}

/// When element `k` of a `Vec8` whose count fits is the first that fails to
/// encode, its error is the vector's error, and the bytes written are the
/// count, the encodings of the elements before it, then what it wrote.
pub proof fn law_vec8_element_error<T: Serialize>(v: Seq<T::V>, k: int)
    requires
        v.len() < 0x100,
        0 <= k < v.len(),
        forall|j: int| 0 <= j < k ==> (#[trigger] T::spec_encode_error(v[j])) is None,
        T::spec_encode_error(v[k]) is Some,
    ensures
        <Vec8<T> as Serialize>::spec_encode_error(v) == T::spec_encode_error(v[k]),
        <Vec8<T> as Serialize>::spec_encode(v) == <u8 as Serialize>::spec_encode(v.len() as u8) + Seq::new(
            k as nat,
            |i: int| T::spec_encode(v[i]),
        ).flatten() + T::spec_encode(v[k]),
{
    lemma_pow256_values();
    lemma_items_encode_first_error::<T>(v, k);
}

/// Reading a `Vec8` from its count and the encodings of its elements in
/// index order, between any two byte strings, gives the elements in that
/// order, and the read ends right after them.
pub proof fn law_vec8_decoding<T: Serialize>(v: Seq<T::V>, pre: Seq<u8>, post: Seq<u8>)
    requires
        v.len() < 0x100,
        forall|i: int| 0 <= i < v.len() ==> (#[trigger] T::spec_encode_error(v[i])) is None,
    ensures
        ({
            let body = Seq::new(v.len(), |i: int| T::spec_encode(v[i])).flatten();
            let data = pre + <u8 as Serialize>::spec_encode(v.len() as u8) + body + post;
            <Vec8<T> as Serialize>::spec_decode(data, pre.len() as int) == (
                Ok::<Seq<T::V>, DecodeFault>(v),
                (pre.len() + 1 + body.len()) as int,
            )
        }),
{
    law_vec8_encoding::<T>(v);
    <Vec8<T> as Serialize>::lemma_roundtrip(v, pre, post);
    law_u8_encoding(v.len() as u8);
    let body = Seq::new(v.len(), |i: int| T::spec_encode(v[i])).flatten();
    let head = <u8 as Serialize>::spec_encode(v.len() as u8);
    assert(pre + (head + body) + post =~= pre + head + body + post);
}

/// A `Vec16` whose elements each encode without error, and whose count fits
/// (v.len() < 0x1_0000), is written as its count encoded as a `u16`, then the
/// encodings of its elements in index order; a count that does not fit is
/// refused with a prefix size of 2 bytes, and nothing is written.
pub proof fn law_vec16_encoding<T: Serialize>(v: Seq<T::V>)
    ensures
        v.len() < 0x1_0000 && (forall|i: int| 0 <= i < v.len() ==> (#[trigger] T::spec_encode_error(v[i])) is None)
            ==> <Vec16<T> as Serialize>::spec_encode_error(v) is None && <Vec16<T> as Serialize>::spec_encode(v)
            == <u16 as Serialize>::spec_encode(v.len() as u16) + Seq::new(
            v.len(),
            |i: int| T::spec_encode(v[i]),
        ).flatten(),
        v.len() >= 0x1_0000 ==> <Vec16<T> as Serialize>::spec_encode_error(v) == Some(
            EncodeError::LengthExceedsPrefix { prefix_size: 2, len: v.len() as usize },
        ) && <Vec16<T> as Serialize>::spec_encode(v) == Seq::<u8>::empty(),
        <Vec16<T> as Serialize>::spec_encode_error(v) is None ==> forall|i: int|
            0 <= i < v.len() ==> (#[trigger] T::spec_encode_error(v[i])) is None,
{
    lemma_pow256_values();
    if v.len() < 0x1_0000 && (forall|i: int| 0 <= i < v.len() ==> (#[trigger] T::spec_encode_error(v[i])) is None) {
        lemma_items_encode_concat::<T>(v);
    }
    if <Vec16<T> as Serialize>::spec_encode_error(v) is None {
        lemma_items_encode_each::<T>(v);
    }
}

/// When element `k` of a `Vec16` whose count fits is the first that fails to
/// encode, its error is the vector's error, and the bytes written are the
/// count, the encodings of the elements before it, then what it wrote.
pub proof fn law_vec16_element_error<T: Serialize>(v: Seq<T::V>, k: int)
    requires
        v.len() < 0x1_0000,
        0 <= k < v.len(),
        forall|j: int| 0 <= j < k ==> (#[trigger] T::spec_encode_error(v[j])) is None,
        T::spec_encode_error(v[k]) is Some,
    ensures
        <Vec16<T> as Serialize>::spec_encode_error(v) == T::spec_encode_error(v[k]),
        <Vec16<T> as Serialize>::spec_encode(v) == <u16 as Serialize>::spec_encode(v.len() as u16) + Seq::new(
            k as nat,
            |i: int| T::spec_encode(v[i]),
        ).flatten() + T::spec_encode(v[k]),
{
    lemma_pow256_values();
    lemma_items_encode_first_error::<T>(v, k);
}

/// Reading a `Vec16` from its count and the encodings of its elements in
/// index order, between any two byte strings, gives the elements in that
/// order, and the read ends right after them.
pub proof fn law_vec16_decoding<T: Serialize>(v: Seq<T::V>, pre: Seq<u8>, post: Seq<u8>)
    requires
        v.len() < 0x1_0000,
        forall|i: int| 0 <= i < v.len() ==> (#[trigger] T::spec_encode_error(v[i])) is None,
    ensures
        ({
            let body = Seq::new(v.len(), |i: int| T::spec_encode(v[i])).flatten();
            let data = pre + <u16 as Serialize>::spec_encode(v.len() as u16) + body + post;
            <Vec16<T> as Serialize>::spec_decode(data, pre.len() as int) == (
                Ok::<Seq<T::V>, DecodeFault>(v),
                (pre.len() + 2 + body.len()) as int,
            )
        }),
{
    law_vec16_encoding::<T>(v);
    <Vec16<T> as Serialize>::lemma_roundtrip(v, pre, post);
    law_u16_encoding(v.len() as u16);
    let body = Seq::new(v.len(), |i: int| T::spec_encode(v[i])).flatten();
    let head = <u16 as Serialize>::spec_encode(v.len() as u16);
    assert(pre + (head + body) + post =~= pre + head + body + post);
}

/// A `Vec32` whose elements each encode without error, and whose count fits
/// (v.len() < 0x1_0000_0000), is written as its count encoded as a `u32`, then the
/// encodings of its elements in index order; a count that does not fit is
/// refused with a prefix size of 4 bytes, and nothing is written.
pub proof fn law_vec32_encoding<T: Serialize>(v: Seq<T::V>)
    ensures
        v.len() < 0x1_0000_0000 && (forall|i: int| 0 <= i < v.len() ==> (#[trigger] T::spec_encode_error(v[i])) is None)
            ==> <Vec32<T> as Serialize>::spec_encode_error(v) is None && <Vec32<T> as Serialize>::spec_encode(v)
            == <u32 as Serialize>::spec_encode(v.len() as u32) + Seq::new(
            v.len(),
            |i: int| T::spec_encode(v[i]),
        ).flatten(),
        v.len() >= 0x1_0000_0000 ==> <Vec32<T> as Serialize>::spec_encode_error(v) == Some(
            EncodeError::LengthExceedsPrefix { prefix_size: 4, len: v.len() as usize },
        ) && <Vec32<T> as Serialize>::spec_encode(v) == Seq::<u8>::empty(),
        <Vec32<T> as Serialize>::spec_encode_error(v) is None ==> forall|i: int|
            0 <= i < v.len() ==> (#[trigger] T::spec_encode_error(v[i])) is None,
{
    lemma_pow256_values();
    if v.len() < 0x1_0000_0000 && (forall|i: int| 0 <= i < v.len() ==> (#[trigger] T::spec_encode_error(v[i])) is None) {
        lemma_items_encode_concat::<T>(v);
    }
    if <Vec32<T> as Serialize>::spec_encode_error(v) is None {
        lemma_items_encode_each::<T>(v);
    }
}

/// When element `k` of a `Vec32` whose count fits is the first that fails to
/// encode, its error is the vector's error, and the bytes written are the
/// count, the encodings of the elements before it, then what it wrote.
pub proof fn law_vec32_element_error<T: Serialize>(v: Seq<T::V>, k: int)
    requires
        v.len() < 0x1_0000_0000,
        0 <= k < v.len(),
        forall|j: int| 0 <= j < k ==> (#[trigger] T::spec_encode_error(v[j])) is None,
        T::spec_encode_error(v[k]) is Some,
    ensures
        <Vec32<T> as Serialize>::spec_encode_error(v) == T::spec_encode_error(v[k]),
        <Vec32<T> as Serialize>::spec_encode(v) == <u32 as Serialize>::spec_encode(v.len() as u32) + Seq::new(
            k as nat,
            |i: int| T::spec_encode(v[i]),
        ).flatten() + T::spec_encode(v[k]),
{
    lemma_pow256_values();
    lemma_items_encode_first_error::<T>(v, k);
}

/// Reading a `Vec32` from its count and the encodings of its elements in
/// index order, between any two byte strings, gives the elements in that
/// order, and the read ends right after them.
pub proof fn law_vec32_decoding<T: Serialize>(v: Seq<T::V>, pre: Seq<u8>, post: Seq<u8>)
    requires
        v.len() < 0x1_0000_0000,
        forall|i: int| 0 <= i < v.len() ==> (#[trigger] T::spec_encode_error(v[i])) is None,
    ensures
        ({
            let body = Seq::new(v.len(), |i: int| T::spec_encode(v[i])).flatten();
            let data = pre + <u32 as Serialize>::spec_encode(v.len() as u32) + body + post;
            <Vec32<T> as Serialize>::spec_decode(data, pre.len() as int) == (
                Ok::<Seq<T::V>, DecodeFault>(v),
                (pre.len() + 4 + body.len()) as int,
            )
        }),
{
    law_vec32_encoding::<T>(v);
    <Vec32<T> as Serialize>::lemma_roundtrip(v, pre, post);
    law_u32_encoding(v.len() as u32);
    let body = Seq::new(v.len(), |i: int| T::spec_encode(v[i])).flatten();
    let head = <u32 as Serialize>::spec_encode(v.len() as u32);
    assert(pre + (head + body) + post =~= pre + head + body + post);
}

/// A `Vec64` whose elements each encode without error, and whose count fits
/// (v.len() <= usize::MAX), is written as its count encoded as a `u64`, then the
/// encodings of its elements in index order; a count that does not fit is
/// refused with a prefix size of 8 bytes, and nothing is written.
pub proof fn law_vec64_encoding<T: Serialize>(v: Seq<T::V>)
    ensures
        v.len() <= usize::MAX && (forall|i: int| 0 <= i < v.len() ==> (#[trigger] T::spec_encode_error(v[i])) is None)
            ==> <Vec64<T> as Serialize>::spec_encode_error(v) is None && <Vec64<T> as Serialize>::spec_encode(v)
            == <u64 as Serialize>::spec_encode(v.len() as u64) + Seq::new(
            v.len(),
            |i: int| T::spec_encode(v[i]),
        ).flatten(),
        v.len() > usize::MAX ==> <Vec64<T> as Serialize>::spec_encode_error(v) == Some(
            EncodeError::LengthExceedsPrefix { prefix_size: 8, len: v.len() as usize },
        ) && <Vec64<T> as Serialize>::spec_encode(v) == Seq::<u8>::empty(),
        <Vec64<T> as Serialize>::spec_encode_error(v) is None ==> forall|i: int|
            0 <= i < v.len() ==> (#[trigger] T::spec_encode_error(v[i])) is None,
{
    lemma_pow256_values();
    if v.len() <= usize::MAX && (forall|i: int| 0 <= i < v.len() ==> (#[trigger] T::spec_encode_error(v[i])) is None) {
        lemma_items_encode_concat::<T>(v);
    }
    if <Vec64<T> as Serialize>::spec_encode_error(v) is None {
        lemma_items_encode_each::<T>(v);
    }
}

/// When element `k` of a `Vec64` whose count fits is the first that fails to
/// encode, its error is the vector's error, and the bytes written are the
/// count, the encodings of the elements before it, then what it wrote.
pub proof fn law_vec64_element_error<T: Serialize>(v: Seq<T::V>, k: int)
    requires
        v.len() <= usize::MAX,
        0 <= k < v.len(),
        forall|j: int| 0 <= j < k ==> (#[trigger] T::spec_encode_error(v[j])) is None,
        T::spec_encode_error(v[k]) is Some,
    ensures
        <Vec64<T> as Serialize>::spec_encode_error(v) == T::spec_encode_error(v[k]),
        <Vec64<T> as Serialize>::spec_encode(v) == <u64 as Serialize>::spec_encode(v.len() as u64) + Seq::new(
            k as nat,
            |i: int| T::spec_encode(v[i]),
        ).flatten() + T::spec_encode(v[k]),
{
    lemma_pow256_values();
    lemma_items_encode_first_error::<T>(v, k);
}

/// Reading a `Vec64` from its count and the encodings of its elements in
/// index order, between any two byte strings, gives the elements in that
/// order, and the read ends right after them.
pub proof fn law_vec64_decoding<T: Serialize>(v: Seq<T::V>, pre: Seq<u8>, post: Seq<u8>)
    requires
        v.len() <= usize::MAX,
        forall|i: int| 0 <= i < v.len() ==> (#[trigger] T::spec_encode_error(v[i])) is None,
    ensures
        ({
            let body = Seq::new(v.len(), |i: int| T::spec_encode(v[i])).flatten();
            let data = pre + <u64 as Serialize>::spec_encode(v.len() as u64) + body + post;
            <Vec64<T> as Serialize>::spec_decode(data, pre.len() as int) == (
                Ok::<Seq<T::V>, DecodeFault>(v),
                (pre.len() + 8 + body.len()) as int,
            )
        }),
{
    law_vec64_encoding::<T>(v);
    <Vec64<T> as Serialize>::lemma_roundtrip(v, pre, post);
    law_u64_encoding(v.len() as u64);
    let body = Seq::new(v.len(), |i: int| T::spec_encode(v[i])).flatten();
    let head = <u64 as Serialize>::spec_encode(v.len() as u64);
    assert(pre + (head + body) + post =~= pre + head + body + post);
}

/// A `Vec64` count above `usize::MAX` is refused at the vector's start, with
/// the tape after the count.
pub proof fn law_vec64_count_overflow<T: Serialize>(n: u64, pre: Seq<u8>, post: Seq<u8>)
    requires
        n > usize::MAX,
    ensures
        <Vec64<T> as Serialize>::spec_decode(
            pre + <u64 as Serialize>::spec_encode(n) + post,
            pre.len() as int,
        ) == (Err::<Seq<T::V>, DecodeFault>(DecodeFault::CountOverflow(pre.len() as usize)), (pre.len() + 8) as int),
{
    lemma_pow256_values();
    lemma_fixed_roundtrip(n as nat, 8, pre, post);
}

/// A `Vec128` whose elements each encode without error, and whose count fits
/// (v.len() <= usize::MAX), is written as its count encoded as a `u128`, then the
/// encodings of its elements in index order; a count that does not fit is
/// refused with a prefix size of 16 bytes, and nothing is written.
pub proof fn law_vec128_encoding<T: Serialize>(v: Seq<T::V>)
    ensures
        v.len() <= usize::MAX && (forall|i: int| 0 <= i < v.len() ==> (#[trigger] T::spec_encode_error(v[i])) is None)
            ==> <Vec128<T> as Serialize>::spec_encode_error(v) is None && <Vec128<T> as Serialize>::spec_encode(v)
            == <u128 as Serialize>::spec_encode(v.len() as u128) + Seq::new(
            v.len(),
            |i: int| T::spec_encode(v[i]),
        ).flatten(),
        v.len() > usize::MAX ==> <Vec128<T> as Serialize>::spec_encode_error(v) == Some(
            EncodeError::LengthExceedsPrefix { prefix_size: 16, len: v.len() as usize },
        ) && <Vec128<T> as Serialize>::spec_encode(v) == Seq::<u8>::empty(),
        <Vec128<T> as Serialize>::spec_encode_error(v) is None ==> forall|i: int|
            0 <= i < v.len() ==> (#[trigger] T::spec_encode_error(v[i])) is None,
{
    lemma_pow256_values();
    if v.len() <= usize::MAX && (forall|i: int| 0 <= i < v.len() ==> (#[trigger] T::spec_encode_error(v[i])) is None) {
        lemma_items_encode_concat::<T>(v);
    }
    if <Vec128<T> as Serialize>::spec_encode_error(v) is None {
        lemma_items_encode_each::<T>(v);
    }
}

/// When element `k` of a `Vec128` whose count fits is the first that fails to
/// encode, its error is the vector's error, and the bytes written are the
/// count, the encodings of the elements before it, then what it wrote.
pub proof fn law_vec128_element_error<T: Serialize>(v: Seq<T::V>, k: int)
    requires
        v.len() <= usize::MAX,
        0 <= k < v.len(),
        forall|j: int| 0 <= j < k ==> (#[trigger] T::spec_encode_error(v[j])) is None,
        T::spec_encode_error(v[k]) is Some,
    ensures
        <Vec128<T> as Serialize>::spec_encode_error(v) == T::spec_encode_error(v[k]),
        <Vec128<T> as Serialize>::spec_encode(v) == <u128 as Serialize>::spec_encode(v.len() as u128) + Seq::new(
            k as nat,
            |i: int| T::spec_encode(v[i]),
        ).flatten() + T::spec_encode(v[k]),
{
    lemma_pow256_values();
    lemma_items_encode_first_error::<T>(v, k);
}

/// Reading a `Vec128` from its count and the encodings of its elements in
/// index order, between any two byte strings, gives the elements in that
/// order, and the read ends right after them.
pub proof fn law_vec128_decoding<T: Serialize>(v: Seq<T::V>, pre: Seq<u8>, post: Seq<u8>)
    requires
        v.len() <= usize::MAX,
        forall|i: int| 0 <= i < v.len() ==> (#[trigger] T::spec_encode_error(v[i])) is None,
    ensures
        ({
            let body = Seq::new(v.len(), |i: int| T::spec_encode(v[i])).flatten();
            let data = pre + <u128 as Serialize>::spec_encode(v.len() as u128) + body + post;
            <Vec128<T> as Serialize>::spec_decode(data, pre.len() as int) == (
                Ok::<Seq<T::V>, DecodeFault>(v),
                (pre.len() + 16 + body.len()) as int,
            )
        }),
{
    law_vec128_encoding::<T>(v);
    <Vec128<T> as Serialize>::lemma_roundtrip(v, pre, post);
    law_u128_encoding(v.len() as u128);
    let body = Seq::new(v.len(), |i: int| T::spec_encode(v[i])).flatten();
    let head = <u128 as Serialize>::spec_encode(v.len() as u128);
    assert(pre + (head + body) + post =~= pre + head + body + post);
}

/// A `Vec128` count above `usize::MAX` is refused at the vector's start, with
/// the tape after the count.
pub proof fn law_vec128_count_overflow<T: Serialize>(n: u128, pre: Seq<u8>, post: Seq<u8>)
    requires
        n > usize::MAX,
    ensures
        <Vec128<T> as Serialize>::spec_decode(
            pre + <u128 as Serialize>::spec_encode(n) + post,
            pre.len() as int,
        ) == (Err::<Seq<T::V>, DecodeFault>(DecodeFault::CountOverflow(pre.len() as usize)), (pre.len() + 16) as int),
{
    lemma_pow256_values();
    lemma_fixed_roundtrip(n as nat, 16, pre, post);
}

/// Reading a `Vec8` whose count `n` fits, after which the first `v.len() < n`
/// elements are read back from their encodings and the next element fails:
/// the vector fails with that element's fault, where that element's read
/// left the tape.
pub proof fn law_vec8_element_fault<T: Serialize>(n: u8, v: Seq<T::V>, pre: Seq<u8>, rest: Seq<u8>)
    requires
        n < 0x100,
        v.len() < n,
        forall|i: int| 0 <= i < v.len() ==> (#[trigger] T::spec_encode_error(v[i])) is None,
        ({
            let body = Seq::new(v.len(), |i: int| T::spec_encode(v[i])).flatten();
            let data = pre + <u8 as Serialize>::spec_encode(n) + body + rest;
            T::spec_decode(data, (pre.len() + 1 + body.len()) as int).0 is Err
        }),
    ensures
        ({
            let body = Seq::new(v.len(), |i: int| T::spec_encode(v[i])).flatten();
            let data = pre + <u8 as Serialize>::spec_encode(n) + body + rest;
            let (r, e) = T::spec_decode(data, (pre.len() + 1 + body.len()) as int);
            <Vec8<T> as Serialize>::spec_decode(data, pre.len() as int) == (
                Err::<Seq<T::V>, DecodeFault>(r->Err_0),
                e,
            )
        }),
{
    lemma_pow256_values();
    law_u8_encoding(n);
    lemma_items_encode_concat::<T>(v);
    let head = <u8 as Serialize>::spec_encode(n);
    let body = Seq::new(v.len(), |i: int| T::spec_encode(v[i])).flatten();
    let data = pre + head + body + rest;
    lemma_fixed_roundtrip(n as nat, 1, pre, body + rest);
    assert(pre + head + (body + rest) =~= data);
    assert(pre + head + body + rest =~= data);
    lemma_items_decode_fault::<T>(v, n as nat, pre + head, rest);
}

/// Reading a `Vec16` whose count `n` fits, after which the first `v.len() < n`
/// elements are read back from their encodings and the next element fails:
/// the vector fails with that element's fault, where that element's read
/// left the tape.
pub proof fn law_vec16_element_fault<T: Serialize>(n: u16, v: Seq<T::V>, pre: Seq<u8>, rest: Seq<u8>)
    requires
        n < 0x1_0000,
        v.len() < n,
        forall|i: int| 0 <= i < v.len() ==> (#[trigger] T::spec_encode_error(v[i])) is None,
        ({
            let body = Seq::new(v.len(), |i: int| T::spec_encode(v[i])).flatten();
            let data = pre + <u16 as Serialize>::spec_encode(n) + body + rest;
            T::spec_decode(data, (pre.len() + 2 + body.len()) as int).0 is Err
        }),
    ensures
        ({
            let body = Seq::new(v.len(), |i: int| T::spec_encode(v[i])).flatten();
            let data = pre + <u16 as Serialize>::spec_encode(n) + body + rest;
            let (r, e) = T::spec_decode(data, (pre.len() + 2 + body.len()) as int);
            <Vec16<T> as Serialize>::spec_decode(data, pre.len() as int) == (
                Err::<Seq<T::V>, DecodeFault>(r->Err_0),
                e,
            )
        }),
{
    lemma_pow256_values();
    law_u16_encoding(n);
    lemma_items_encode_concat::<T>(v);
    let head = <u16 as Serialize>::spec_encode(n);
    let body = Seq::new(v.len(), |i: int| T::spec_encode(v[i])).flatten();
    let data = pre + head + body + rest;
    lemma_fixed_roundtrip(n as nat, 2, pre, body + rest);
    assert(pre + head + (body + rest) =~= data);
    assert(pre + head + body + rest =~= data);
    lemma_items_decode_fault::<T>(v, n as nat, pre + head, rest);
}

/// Reading a `Vec32` whose count `n` fits, after which the first `v.len() < n`
/// elements are read back from their encodings and the next element fails:
/// the vector fails with that element's fault, where that element's read
/// left the tape.
pub proof fn law_vec32_element_fault<T: Serialize>(n: u32, v: Seq<T::V>, pre: Seq<u8>, rest: Seq<u8>)
    requires
        n < 0x1_0000_0000,
        v.len() < n,
        forall|i: int| 0 <= i < v.len() ==> (#[trigger] T::spec_encode_error(v[i])) is None,
        ({
            let body = Seq::new(v.len(), |i: int| T::spec_encode(v[i])).flatten();
            let data = pre + <u32 as Serialize>::spec_encode(n) + body + rest;
            T::spec_decode(data, (pre.len() + 4 + body.len()) as int).0 is Err
        }),
    ensures
        ({
            let body = Seq::new(v.len(), |i: int| T::spec_encode(v[i])).flatten();
            let data = pre + <u32 as Serialize>::spec_encode(n) + body + rest;
            let (r, e) = T::spec_decode(data, (pre.len() + 4 + body.len()) as int);
            <Vec32<T> as Serialize>::spec_decode(data, pre.len() as int) == (
                Err::<Seq<T::V>, DecodeFault>(r->Err_0),
                e,
            )
        }),
{
    lemma_pow256_values();
    law_u32_encoding(n);
    lemma_items_encode_concat::<T>(v);
    let head = <u32 as Serialize>::spec_encode(n);
    let body = Seq::new(v.len(), |i: int| T::spec_encode(v[i])).flatten();
    let data = pre + head + body + rest;
    lemma_fixed_roundtrip(n as nat, 4, pre, body + rest);
    assert(pre + head + (body + rest) =~= data);
    assert(pre + head + body + rest =~= data);
    lemma_items_decode_fault::<T>(v, n as nat, pre + head, rest);
}

/// Reading a `Vec64` whose count `n` fits, after which the first `v.len() < n`
/// elements are read back from their encodings and the next element fails:
/// the vector fails with that element's fault, where that element's read
/// left the tape.
pub proof fn law_vec64_element_fault<T: Serialize>(n: u64, v: Seq<T::V>, pre: Seq<u8>, rest: Seq<u8>)
    requires
        n <= usize::MAX,
        v.len() < n,
        forall|i: int| 0 <= i < v.len() ==> (#[trigger] T::spec_encode_error(v[i])) is None,
        ({
            let body = Seq::new(v.len(), |i: int| T::spec_encode(v[i])).flatten();
            let data = pre + <u64 as Serialize>::spec_encode(n) + body + rest;
            T::spec_decode(data, (pre.len() + 8 + body.len()) as int).0 is Err
        }),
    ensures
        ({
            let body = Seq::new(v.len(), |i: int| T::spec_encode(v[i])).flatten();
            let data = pre + <u64 as Serialize>::spec_encode(n) + body + rest;
            let (r, e) = T::spec_decode(data, (pre.len() + 8 + body.len()) as int);
            <Vec64<T> as Serialize>::spec_decode(data, pre.len() as int) == (
                Err::<Seq<T::V>, DecodeFault>(r->Err_0),
                e,
            )
        }),
{
    lemma_pow256_values();
    law_u64_encoding(n);
    lemma_items_encode_concat::<T>(v);
    let head = <u64 as Serialize>::spec_encode(n);
    let body = Seq::new(v.len(), |i: int| T::spec_encode(v[i])).flatten();
    let data = pre + head + body + rest;
    lemma_fixed_roundtrip(n as nat, 8, pre, body + rest);
    assert(pre + head + (body + rest) =~= data);
    assert(pre + head + body + rest =~= data);
    lemma_items_decode_fault::<T>(v, n as nat, pre + head, rest);
}

/// Reading a `Vec128` whose count `n` fits, after which the first `v.len() < n`
/// elements are read back from their encodings and the next element fails:
/// the vector fails with that element's fault, where that element's read
/// left the tape.
pub proof fn law_vec128_element_fault<T: Serialize>(n: u128, v: Seq<T::V>, pre: Seq<u8>, rest: Seq<u8>)
    requires
        n <= usize::MAX,
        v.len() < n,
        forall|i: int| 0 <= i < v.len() ==> (#[trigger] T::spec_encode_error(v[i])) is None,
        ({
            let body = Seq::new(v.len(), |i: int| T::spec_encode(v[i])).flatten();
            let data = pre + <u128 as Serialize>::spec_encode(n) + body + rest;
            T::spec_decode(data, (pre.len() + 16 + body.len()) as int).0 is Err
        }),
    ensures
        ({
            let body = Seq::new(v.len(), |i: int| T::spec_encode(v[i])).flatten();
            let data = pre + <u128 as Serialize>::spec_encode(n) + body + rest;
            let (r, e) = T::spec_decode(data, (pre.len() + 16 + body.len()) as int);
            <Vec128<T> as Serialize>::spec_decode(data, pre.len() as int) == (
                Err::<Seq<T::V>, DecodeFault>(r->Err_0),
                e,
            )
        }),
{
    lemma_pow256_values();
    law_u128_encoding(n);
    lemma_items_encode_concat::<T>(v);
    let head = <u128 as Serialize>::spec_encode(n);
    let body = Seq::new(v.len(), |i: int| T::spec_encode(v[i])).flatten();
    let data = pre + head + body + rest;
    lemma_fixed_roundtrip(n as nat, 16, pre, body + rest);
    assert(pre + head + (body + rest) =~= data);
    assert(pre + head + body + rest =~= data);
    lemma_items_decode_fault::<T>(v, n as nat, pre + head, rest);
}

/// Reading a pair fails where its first element fails; when the first
/// element is read, it fails where the second element, read from there,
/// fails.
pub proof fn law_pair_decoding_fault<A: Serialize, B: Serialize>(data: Seq<u8>, pos: int)
    ensures
        ({
            let (ra, p) = A::spec_decode(data, pos);
            &&& ra is Err ==> <(A, B) as Serialize>::spec_decode(data, pos) == (
                Err::<(A::V, B::V), DecodeFault>(ra->Err_0),
                p,
            )
            &&& ra is Ok && B::spec_decode(data, p).0 is Err ==> <(A, B) as Serialize>::spec_decode(data, pos)
                == (Err::<(A::V, B::V), DecodeFault>(B::spec_decode(data, p).0->Err_0), B::spec_decode(data, p).1)
        }),
{
}

/// A pair is written as its first element's encoding, then its second's,
/// stopping after the first element that fails, whose error is the pair's.
pub proof fn law_pair_encoding<A: Serialize, B: Serialize>(a: A::V, b: B::V)
    ensures
        A::spec_encode_error(a) is None && B::spec_encode_error(b) is None ==> <(A, B) as Serialize>::spec_encode_error((a, b)) is None
            && <(A, B) as Serialize>::spec_encode((a, b)) == A::spec_encode(a) + B::spec_encode(b),
        A::spec_encode_error(a) is Some ==> <(A, B) as Serialize>::spec_encode_error((a, b)) == A::spec_encode_error(a)
            && <(A, B) as Serialize>::spec_encode((a, b)) == A::spec_encode(a),
        A::spec_encode_error(a) is None && B::spec_encode_error(b) is Some ==> <(A, B) as Serialize>::spec_encode_error((a, b))
            == B::spec_encode_error(b) && <(A, B) as Serialize>::spec_encode((a, b)) == A::spec_encode(a) + B::spec_encode(b),
{
}

/// Reading a pair from its elements' encodings in order, between any two
/// byte strings, gives the pair, and the read ends right after them.
pub proof fn law_pair_decoding<A: Serialize, B: Serialize>(a: A::V, b: B::V, pre: Seq<u8>, post: Seq<u8>)
    requires
        A::spec_encode_error(a) is None,
        B::spec_encode_error(b) is None,
    ensures
        <(A, B) as Serialize>::spec_decode(pre + A::spec_encode(a) + B::spec_encode(b) + post, pre.len() as int) == (
            Ok::<(A::V, B::V), DecodeFault>((a, b)),
            (pre.len() + A::spec_encode(a).len() + B::spec_encode(b).len()) as int,
        ),
{
    law_pair_encoding::<A, B>(a, b);
    <(A, B) as Serialize>::lemma_roundtrip((a, b), pre, post);
    let (ea, eb) = (A::spec_encode(a), B::spec_encode(b));
    assert(pre + (ea + eb) + post =~= pre + ea + eb + post);
}

/// Reading a triple fails where its first failing element fails, each
/// element read from where the one before ended.
pub proof fn law_triple_decoding_fault<A: Serialize, B: Serialize, C: Serialize>(data: Seq<u8>, pos: int)
    ensures
        ({
            let (ra, p) = A::spec_decode(data, pos);
            let (rb, q) = B::spec_decode(data, p);
            let (rc, t) = C::spec_decode(data, q);
            &&& ra is Err ==> <(A, B, C) as Serialize>::spec_decode(data, pos) == (
                Err::<(A::V, B::V, C::V), DecodeFault>(ra->Err_0),
                p,
            )
            &&& ra is Ok && rb is Err ==> <(A, B, C) as Serialize>::spec_decode(data, pos) == (
                Err::<(A::V, B::V, C::V), DecodeFault>(rb->Err_0),
                q,
            )
            &&& ra is Ok && rb is Ok && rc is Err ==> <(A, B, C) as Serialize>::spec_decode(data, pos) == (
                Err::<(A::V, B::V, C::V), DecodeFault>(rc->Err_0),
                t,
            )
        }),
{
}

/// A triple is written as its elements' encodings in order, stopping after
/// the first element that fails, whose error is the triple's.
pub proof fn law_triple_encoding<A: Serialize, B: Serialize, C: Serialize>(a: A::V, b: B::V, c: C::V)
    ensures
        A::spec_encode_error(a) is None && B::spec_encode_error(b) is None && C::spec_encode_error(c) is None
            ==> <(A, B, C) as Serialize>::spec_encode_error((a, b, c)) is None
            && <(A, B, C) as Serialize>::spec_encode((a, b, c)) == A::spec_encode(a) + B::spec_encode(b) + C::spec_encode(c),
        A::spec_encode_error(a) is Some ==> <(A, B, C) as Serialize>::spec_encode_error((a, b, c)) == A::spec_encode_error(a)
            && <(A, B, C) as Serialize>::spec_encode((a, b, c)) == A::spec_encode(a),
        A::spec_encode_error(a) is None && B::spec_encode_error(b) is Some ==> <(A, B, C) as Serialize>::spec_encode_error((a, b, c))
            == B::spec_encode_error(b) && <(A, B, C) as Serialize>::spec_encode((a, b, c)) == A::spec_encode(a) + B::spec_encode(b),
        A::spec_encode_error(a) is None && B::spec_encode_error(b) is None && C::spec_encode_error(c) is Some
            ==> <(A, B, C) as Serialize>::spec_encode_error((a, b, c)) == C::spec_encode_error(c)
            && <(A, B, C) as Serialize>::spec_encode((a, b, c)) == A::spec_encode(a) + B::spec_encode(b) + C::spec_encode(c),
{
}

/// Reading a triple from its elements' encodings in order, between any two
/// byte strings, gives the triple, and the read ends right after them.
pub proof fn law_triple_decoding<A: Serialize, B: Serialize, C: Serialize>(
    a: A::V,
    b: B::V,
    c: C::V,
    pre: Seq<u8>,
    post: Seq<u8>,
)
    requires
        A::spec_encode_error(a) is None,
        B::spec_encode_error(b) is None,
        C::spec_encode_error(c) is None,
    ensures
        <(A, B, C) as Serialize>::spec_decode(
            pre + A::spec_encode(a) + B::spec_encode(b) + C::spec_encode(c) + post,
            pre.len() as int,
        ) == (
            Ok::<(A::V, B::V, C::V), DecodeFault>((a, b, c)),
            (pre.len() + A::spec_encode(a).len() + B::spec_encode(b).len() + C::spec_encode(c).len()) as int,
        ),
{
    law_triple_encoding::<A, B, C>(a, b, c);
    <(A, B, C) as Serialize>::lemma_roundtrip((a, b, c), pre, post);
    let (ea, eb, ec) = (A::spec_encode(a), B::spec_encode(b), C::spec_encode(c));
    assert(pre + (ea + eb + ec) + post =~= pre + ea + eb + ec + post);
}

} // verus!
