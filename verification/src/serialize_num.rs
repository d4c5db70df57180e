//! `Serialize` for the integer types: each is written as the little-endian
//! two's complement bytes of its natural width (`usize` and `isize` take the
//! width of the platform's pointers).
use vstd::prelude::*;
use taped::Tape;
use crate::error::{DecodeError, DecodeFault, EncodeError};
use crate::le::{
    fixed_decode, lemma_fixed_roundtrip, lemma_le_bytes_len, lemma_le_value_bound, lemma_pow256_values,
    lemma_twos_roundtrip, lemma_untwos_fits, le_bytes, read_le, to_twos, from_twos, twos, untwos,
    usize_bytes, usize_width, write_le,
};
use crate::serialize::Serialize;
use crate::tape::{tape_bytes, tape_pos};

verus! {

impl Serialize for u8 {
    /// The little-endian bytes of the value.
    open spec fn spec_encode(v: u8) -> Seq<u8> {
        le_bytes(v as nat, 1)
    }

    open spec fn spec_encode_error(v: u8) -> Option<EncodeError> {
        None
    }

    /// The little-endian number in the next bytes, or exhaustion at `pos`
    /// when too few are left.
    open spec fn spec_decode(data: Seq<u8>, pos: int) -> (Result<u8, DecodeFault>, int) {
        let (out, end) = fixed_decode(data, pos, 1);
        (
            match out {
                Ok(x) => Ok(x as u8),
                Err(f) => Err(f),
            },
            end,
        )
    }

    proof fn lemma_roundtrip(v: u8, pre: Seq<u8>, post: Seq<u8>) {
        lemma_pow256_values();
        lemma_fixed_roundtrip(v as nat, 1, pre, post);
        lemma_le_bytes_len(v as nat, 1);
    }

    fn encode(&self, dest: &mut Vec<u8>) -> (r: Result<(), EncodeError>) {
        let n: usize = 1;
        write_le(dest, *self as u128, n);
        Ok(())
    }

    fn decode(src: &mut Tape<'_, u8>) -> (r: Result<u8, DecodeError>) {
        let ghost data = tape_bytes(*src);
        let ghost pos = tape_pos(*src) as int;
        let n: usize = 1;
        proof {
            lemma_pow256_values();
        }
        match read_le(src, n) {
            Ok(v) => {
                proof {
                    lemma_le_value_bound(data.subrange(pos, pos + n));
                }
                Ok(v as u8)
            },
            Err(e) => Err(e),
        }
    }
}

impl Serialize for u16 {
    /// The little-endian bytes of the value.
    open spec fn spec_encode(v: u16) -> Seq<u8> {
        le_bytes(v as nat, 2)
    }

    open spec fn spec_encode_error(v: u16) -> Option<EncodeError> {
        None
    }

    /// The little-endian number in the next bytes, or exhaustion at `pos`
    /// when too few are left.
    open spec fn spec_decode(data: Seq<u8>, pos: int) -> (Result<u16, DecodeFault>, int) {
        let (out, end) = fixed_decode(data, pos, 2);
        (
            match out {
                Ok(x) => Ok(x as u16),
                Err(f) => Err(f),
            },
            end,
        )
    }

    proof fn lemma_roundtrip(v: u16, pre: Seq<u8>, post: Seq<u8>) {
        lemma_pow256_values();
        lemma_fixed_roundtrip(v as nat, 2, pre, post);
        lemma_le_bytes_len(v as nat, 2);
    }

    fn encode(&self, dest: &mut Vec<u8>) -> (r: Result<(), EncodeError>) {
        let n: usize = 2;
        write_le(dest, *self as u128, n);
        Ok(())
    }

    fn decode(src: &mut Tape<'_, u8>) -> (r: Result<u16, DecodeError>) {
        let ghost data = tape_bytes(*src);
        let ghost pos = tape_pos(*src) as int;
        let n: usize = 2;
        proof {
            lemma_pow256_values();
        }
        match read_le(src, n) {
            Ok(v) => {
                proof {
                    lemma_le_value_bound(data.subrange(pos, pos + n));
                }
                Ok(v as u16)
            },
            Err(e) => Err(e),
        }
    }
}

impl Serialize for u32 {
    /// The little-endian bytes of the value.
    open spec fn spec_encode(v: u32) -> Seq<u8> {
        le_bytes(v as nat, 4)
    }

    open spec fn spec_encode_error(v: u32) -> Option<EncodeError> {
        None
    }

    /// The little-endian number in the next bytes, or exhaustion at `pos`
    /// when too few are left.
    open spec fn spec_decode(data: Seq<u8>, pos: int) -> (Result<u32, DecodeFault>, int) {
        let (out, end) = fixed_decode(data, pos, 4);
        (
            match out {
                Ok(x) => Ok(x as u32),
                Err(f) => Err(f),
            },
            end,
        )
    }

    proof fn lemma_roundtrip(v: u32, pre: Seq<u8>, post: Seq<u8>) {
        lemma_pow256_values();
        lemma_fixed_roundtrip(v as nat, 4, pre, post);
        lemma_le_bytes_len(v as nat, 4);
    }

    fn encode(&self, dest: &mut Vec<u8>) -> (r: Result<(), EncodeError>) {
        let n: usize = 4;
        write_le(dest, *self as u128, n);
        Ok(())
    }

    fn decode(src: &mut Tape<'_, u8>) -> (r: Result<u32, DecodeError>) {
        let ghost data = tape_bytes(*src);
        let ghost pos = tape_pos(*src) as int;
        let n: usize = 4;
        proof {
            lemma_pow256_values();
        }
        match read_le(src, n) {
            Ok(v) => {
                proof {
                    lemma_le_value_bound(data.subrange(pos, pos + n));
                }
                Ok(v as u32)
            },
            Err(e) => Err(e),
        }
    }
}

impl Serialize for u64 {
    /// The little-endian bytes of the value.
    open spec fn spec_encode(v: u64) -> Seq<u8> {
        le_bytes(v as nat, 8)
    }

    open spec fn spec_encode_error(v: u64) -> Option<EncodeError> {
        None
    }

    /// The little-endian number in the next bytes, or exhaustion at `pos`
    /// when too few are left.
    open spec fn spec_decode(data: Seq<u8>, pos: int) -> (Result<u64, DecodeFault>, int) {
        let (out, end) = fixed_decode(data, pos, 8);
        (
            match out {
                Ok(x) => Ok(x as u64),
                Err(f) => Err(f),
            },
            end,
        )
    }

    proof fn lemma_roundtrip(v: u64, pre: Seq<u8>, post: Seq<u8>) {
        lemma_pow256_values();
        lemma_fixed_roundtrip(v as nat, 8, pre, post);
        lemma_le_bytes_len(v as nat, 8);
    }

    fn encode(&self, dest: &mut Vec<u8>) -> (r: Result<(), EncodeError>) {
        let n: usize = 8;
        write_le(dest, *self as u128, n);
        Ok(())
    }

    fn decode(src: &mut Tape<'_, u8>) -> (r: Result<u64, DecodeError>) {
        let ghost data = tape_bytes(*src);
        let ghost pos = tape_pos(*src) as int;
        let n: usize = 8;
        proof {
            lemma_pow256_values();
        }
        match read_le(src, n) {
            Ok(v) => {
                proof {
                    lemma_le_value_bound(data.subrange(pos, pos + n));
                }
                Ok(v as u64)
            },
            Err(e) => Err(e),
        }
    }
}

impl Serialize for u128 {
    /// The little-endian bytes of the value.
    open spec fn spec_encode(v: u128) -> Seq<u8> {
        le_bytes(v as nat, 16)
    }

    open spec fn spec_encode_error(v: u128) -> Option<EncodeError> {
        None
    }

    /// The little-endian number in the next bytes, or exhaustion at `pos`
    /// when too few are left.
    open spec fn spec_decode(data: Seq<u8>, pos: int) -> (Result<u128, DecodeFault>, int) {
        let (out, end) = fixed_decode(data, pos, 16);
        (
            match out {
                Ok(x) => Ok(x as u128),
                Err(f) => Err(f),
            },
            end,
        )
    }

    proof fn lemma_roundtrip(v: u128, pre: Seq<u8>, post: Seq<u8>) {
        lemma_pow256_values();
        lemma_fixed_roundtrip(v as nat, 16, pre, post);
        lemma_le_bytes_len(v as nat, 16);
    }

    fn encode(&self, dest: &mut Vec<u8>) -> (r: Result<(), EncodeError>) {
        let n: usize = 16;
        write_le(dest, *self as u128, n);
        Ok(())
    }

    fn decode(src: &mut Tape<'_, u8>) -> (r: Result<u128, DecodeError>) {
        let ghost data = tape_bytes(*src);
        let ghost pos = tape_pos(*src) as int;
        let n: usize = 16;
        proof {
            lemma_pow256_values();
        }
        match read_le(src, n) {
            Ok(v) => {
                proof {
                    lemma_le_value_bound(data.subrange(pos, pos + n));
                }
                Ok(v as u128)
            },
            Err(e) => Err(e),
        }
    }
}

impl Serialize for usize {
    /// The little-endian bytes of the value.
    open spec fn spec_encode(v: usize) -> Seq<u8> {
        le_bytes(v as nat, usize_width())
    }

    open spec fn spec_encode_error(v: usize) -> Option<EncodeError> {
        None
    }

    /// The little-endian number in the next bytes, or exhaustion at `pos`
    /// when too few are left.
    open spec fn spec_decode(data: Seq<u8>, pos: int) -> (Result<usize, DecodeFault>, int) {
        let (out, end) = fixed_decode(data, pos, usize_width());
        (
            match out {
                Ok(x) => Ok(x as usize),
                Err(f) => Err(f),
            },
            end,
        )
    }

    proof fn lemma_roundtrip(v: usize, pre: Seq<u8>, post: Seq<u8>) {
        lemma_pow256_values();
        lemma_fixed_roundtrip(v as nat, usize_width(), pre, post);
        lemma_le_bytes_len(v as nat, usize_width());
    }

    fn encode(&self, dest: &mut Vec<u8>) -> (r: Result<(), EncodeError>) {
        let n: usize = usize_bytes();
        write_le(dest, *self as u128, n);
        Ok(())
    }

    fn decode(src: &mut Tape<'_, u8>) -> (r: Result<usize, DecodeError>) {
        let ghost data = tape_bytes(*src);
        let ghost pos = tape_pos(*src) as int;
        let n: usize = usize_bytes();
        proof {
            lemma_pow256_values();
        }
        match read_le(src, n) {
            Ok(v) => {
                proof {
                    lemma_le_value_bound(data.subrange(pos, pos + n));
                }
                Ok(v as usize)
            },
            Err(e) => Err(e),
        }
    }
}

impl Serialize for i8 {
    /// The little-endian bytes of the value's two's complement.
    open spec fn spec_encode(v: i8) -> Seq<u8> {
        le_bytes(twos(v as int, 1), 1)
    }

    open spec fn spec_encode_error(v: i8) -> Option<EncodeError> {
        None
    }

    /// The number whose two's complement is the little-endian number in the
    /// next bytes, or exhaustion at `pos` when too few are left.
    open spec fn spec_decode(data: Seq<u8>, pos: int) -> (Result<i8, DecodeFault>, int) {
        let (out, end) = fixed_decode(data, pos, 1);
        (
            match out {
                Ok(x) => Ok(untwos(x, 1) as i8),
                Err(f) => Err(f),
            },
            end,
        )
    }

    proof fn lemma_roundtrip(v: i8, pre: Seq<u8>, post: Seq<u8>) {
        lemma_pow256_values();
        lemma_twos_roundtrip(v as int, 1);
        lemma_fixed_roundtrip(twos(v as int, 1), 1, pre, post);
        lemma_le_bytes_len(twos(v as int, 1), 1);
    }

    fn encode(&self, dest: &mut Vec<u8>) -> (r: Result<(), EncodeError>) {
        let n: usize = 1;
        proof {
            lemma_pow256_values();
        }
        let u = to_twos(*self as i128, n);
        write_le(dest, u, n);
        Ok(())
    }

    fn decode(src: &mut Tape<'_, u8>) -> (r: Result<i8, DecodeError>) {
        let ghost data = tape_bytes(*src);
        let ghost pos = tape_pos(*src) as int;
        let n: usize = 1;
        proof {
            lemma_pow256_values();
        }
        match read_le(src, n) {
            Ok(v) => {
                proof {
                    lemma_le_value_bound(data.subrange(pos, pos + n));
                    lemma_untwos_fits(v as nat, n as nat);
                }
                Ok(from_twos(v, n) as i8)
            },
            Err(e) => Err(e),
        }
    }
}

impl Serialize for i16 {
    /// The little-endian bytes of the value's two's complement.
    open spec fn spec_encode(v: i16) -> Seq<u8> {
        le_bytes(twos(v as int, 2), 2)
    }

    open spec fn spec_encode_error(v: i16) -> Option<EncodeError> {
        None
    }

    /// The number whose two's complement is the little-endian number in the
    /// next bytes, or exhaustion at `pos` when too few are left.
    open spec fn spec_decode(data: Seq<u8>, pos: int) -> (Result<i16, DecodeFault>, int) {
        let (out, end) = fixed_decode(data, pos, 2);
        (
            match out {
                Ok(x) => Ok(untwos(x, 2) as i16),
                Err(f) => Err(f),
            },
            end,
        )
    }

    proof fn lemma_roundtrip(v: i16, pre: Seq<u8>, post: Seq<u8>) {
        lemma_pow256_values();
        lemma_twos_roundtrip(v as int, 2);
        lemma_fixed_roundtrip(twos(v as int, 2), 2, pre, post);
        lemma_le_bytes_len(twos(v as int, 2), 2);
    }

    fn encode(&self, dest: &mut Vec<u8>) -> (r: Result<(), EncodeError>) {
        let n: usize = 2;
        proof {
            lemma_pow256_values();
        }
        let u = to_twos(*self as i128, n);
        write_le(dest, u, n);
        Ok(())
    }

    fn decode(src: &mut Tape<'_, u8>) -> (r: Result<i16, DecodeError>) {
        let ghost data = tape_bytes(*src);
        let ghost pos = tape_pos(*src) as int;
        let n: usize = 2;
        proof {
            lemma_pow256_values();
        }
        match read_le(src, n) {
            Ok(v) => {
                proof {
                    lemma_le_value_bound(data.subrange(pos, pos + n));
                    lemma_untwos_fits(v as nat, n as nat);
                }
                Ok(from_twos(v, n) as i16)
            },
            Err(e) => Err(e),
        }
    }
}

impl Serialize for i32 {
    /// The little-endian bytes of the value's two's complement.
    open spec fn spec_encode(v: i32) -> Seq<u8> {
        le_bytes(twos(v as int, 4), 4)
    }

    open spec fn spec_encode_error(v: i32) -> Option<EncodeError> {
        None
    }

    /// The number whose two's complement is the little-endian number in the
    /// next bytes, or exhaustion at `pos` when too few are left.
    open spec fn spec_decode(data: Seq<u8>, pos: int) -> (Result<i32, DecodeFault>, int) {
        let (out, end) = fixed_decode(data, pos, 4);
        (
            match out {
                Ok(x) => Ok(untwos(x, 4) as i32),
                Err(f) => Err(f),
            },
            end,
        )
    }

    proof fn lemma_roundtrip(v: i32, pre: Seq<u8>, post: Seq<u8>) {
        lemma_pow256_values();
        lemma_twos_roundtrip(v as int, 4);
        lemma_fixed_roundtrip(twos(v as int, 4), 4, pre, post);
        lemma_le_bytes_len(twos(v as int, 4), 4);
    }

    fn encode(&self, dest: &mut Vec<u8>) -> (r: Result<(), EncodeError>) {
        let n: usize = 4;
        proof {
            lemma_pow256_values();
        }
        let u = to_twos(*self as i128, n);
        write_le(dest, u, n);
        Ok(())
    }

    fn decode(src: &mut Tape<'_, u8>) -> (r: Result<i32, DecodeError>) {
        let ghost data = tape_bytes(*src);
        let ghost pos = tape_pos(*src) as int;
        let n: usize = 4;
        proof {
            lemma_pow256_values();
        }
        match read_le(src, n) {
            Ok(v) => {
                proof {
                    lemma_le_value_bound(data.subrange(pos, pos + n));
                    lemma_untwos_fits(v as nat, n as nat);
                }
                Ok(from_twos(v, n) as i32)
            },
            Err(e) => Err(e),
        }
    }
}

impl Serialize for i64 {
    /// The little-endian bytes of the value's two's complement.
    open spec fn spec_encode(v: i64) -> Seq<u8> {
        le_bytes(twos(v as int, 8), 8)
    }

    open spec fn spec_encode_error(v: i64) -> Option<EncodeError> {
        None
    }

    /// The number whose two's complement is the little-endian number in the
    /// next bytes, or exhaustion at `pos` when too few are left.
    open spec fn spec_decode(data: Seq<u8>, pos: int) -> (Result<i64, DecodeFault>, int) {
        let (out, end) = fixed_decode(data, pos, 8);
        (
            match out {
                Ok(x) => Ok(untwos(x, 8) as i64),
                Err(f) => Err(f),
            },
            end,
        )
    }

    proof fn lemma_roundtrip(v: i64, pre: Seq<u8>, post: Seq<u8>) {
        lemma_pow256_values();
        lemma_twos_roundtrip(v as int, 8);
        lemma_fixed_roundtrip(twos(v as int, 8), 8, pre, post);
        lemma_le_bytes_len(twos(v as int, 8), 8);
    }

    fn encode(&self, dest: &mut Vec<u8>) -> (r: Result<(), EncodeError>) {
        let n: usize = 8;
        proof {
            lemma_pow256_values();
        }
        let u = to_twos(*self as i128, n);
        write_le(dest, u, n);
        Ok(())
    }

    fn decode(src: &mut Tape<'_, u8>) -> (r: Result<i64, DecodeError>) {
        let ghost data = tape_bytes(*src);
        let ghost pos = tape_pos(*src) as int;
        let n: usize = 8;
        proof {
            lemma_pow256_values();
        }
        match read_le(src, n) {
            Ok(v) => {
                proof {
                    lemma_le_value_bound(data.subrange(pos, pos + n));
                    lemma_untwos_fits(v as nat, n as nat);
                }
                Ok(from_twos(v, n) as i64)
            },
            Err(e) => Err(e),
        }
    }
}

impl Serialize for i128 {
    /// The little-endian bytes of the value's two's complement.
    open spec fn spec_encode(v: i128) -> Seq<u8> {
        le_bytes(twos(v as int, 16), 16)
    }

    open spec fn spec_encode_error(v: i128) -> Option<EncodeError> {
        None
    }

    /// The number whose two's complement is the little-endian number in the
    /// next bytes, or exhaustion at `pos` when too few are left.
    open spec fn spec_decode(data: Seq<u8>, pos: int) -> (Result<i128, DecodeFault>, int) {
        let (out, end) = fixed_decode(data, pos, 16);
        (
            match out {
                Ok(x) => Ok(untwos(x, 16) as i128),
                Err(f) => Err(f),
            },
            end,
        )
    }

    proof fn lemma_roundtrip(v: i128, pre: Seq<u8>, post: Seq<u8>) {
        lemma_pow256_values();
        lemma_twos_roundtrip(v as int, 16);
        lemma_fixed_roundtrip(twos(v as int, 16), 16, pre, post);
        lemma_le_bytes_len(twos(v as int, 16), 16);
    }

    fn encode(&self, dest: &mut Vec<u8>) -> (r: Result<(), EncodeError>) {
        let n: usize = 16;
        proof {
            lemma_pow256_values();
        }
        let u = to_twos(*self as i128, n);
        write_le(dest, u, n);
        Ok(())
    }

    fn decode(src: &mut Tape<'_, u8>) -> (r: Result<i128, DecodeError>) {
        let ghost data = tape_bytes(*src);
        let ghost pos = tape_pos(*src) as int;
        let n: usize = 16;
        proof {
            lemma_pow256_values();
        }
        match read_le(src, n) {
            Ok(v) => {
                proof {
                    lemma_le_value_bound(data.subrange(pos, pos + n));
                    lemma_untwos_fits(v as nat, n as nat);
                }
                Ok(from_twos(v, n) as i128)
            },
            Err(e) => Err(e),
        }
    }
}

impl Serialize for isize {
    /// The little-endian bytes of the value's two's complement.
    open spec fn spec_encode(v: isize) -> Seq<u8> {
        le_bytes(twos(v as int, usize_width()), usize_width())
    }

    open spec fn spec_encode_error(v: isize) -> Option<EncodeError> {
        None
    }

    /// The number whose two's complement is the little-endian number in the
    /// next bytes, or exhaustion at `pos` when too few are left.
    open spec fn spec_decode(data: Seq<u8>, pos: int) -> (Result<isize, DecodeFault>, int) {
        let (out, end) = fixed_decode(data, pos, usize_width());
        (
            match out {
                Ok(x) => Ok(untwos(x, usize_width()) as isize),
                Err(f) => Err(f),
            },
            end,
        )
    }

    proof fn lemma_roundtrip(v: isize, pre: Seq<u8>, post: Seq<u8>) {
        lemma_pow256_values();
        lemma_twos_roundtrip(v as int, usize_width());
        lemma_fixed_roundtrip(twos(v as int, usize_width()), usize_width(), pre, post);
        lemma_le_bytes_len(twos(v as int, usize_width()), usize_width());
    }

    fn encode(&self, dest: &mut Vec<u8>) -> (r: Result<(), EncodeError>) {
        let n: usize = usize_bytes();
        proof {
            lemma_pow256_values();
        }
        let u = to_twos(*self as i128, n);
        write_le(dest, u, n);
        Ok(())
    }

    fn decode(src: &mut Tape<'_, u8>) -> (r: Result<isize, DecodeError>) {
        let ghost data = tape_bytes(*src);
        let ghost pos = tape_pos(*src) as int;
        let n: usize = usize_bytes();
        proof {
            lemma_pow256_values();
        }
        match read_le(src, n) {
            Ok(v) => {
                proof {
                    lemma_le_value_bound(data.subrange(pos, pos + n));
                    lemma_untwos_fits(v as nat, n as nat);
                }
                Ok(from_twos(v, n) as isize)
            },
            Err(e) => Err(e),
        }
    }
}

} // verus!
