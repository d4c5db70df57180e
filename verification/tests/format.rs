use bincake::{
    DecodeError, EncodeError, Read, Serializable, Serialize, Vec128, Vec16, Vec32, Vec64, Vec8, Write,
    STR_LEN_SIZE,
};
use taped::Tape;

fn bytes_of<T: Serialize>(value: &T) -> Vec<u8> {
    let mut buffer: Vec<u8> = vec![];
    buffer.write(value).unwrap();
    buffer
}

#[test]
fn integers_are_little_endian_twos_complement() {
    assert_eq!(bytes_of(&0xABu8), vec![0xAB]);
    assert_eq!(bytes_of(&0x1234u16), vec![0x34, 0x12]);
    assert_eq!(bytes_of(&0x0102030405060708u64), vec![8, 7, 6, 5, 4, 3, 2, 1]);
    assert_eq!(bytes_of(&-2i16), vec![0xFE, 0xFF]);
    assert_eq!(bytes_of(&-1i32), vec![0xFF; 4]);
    assert_eq!(bytes_of(&i8::MIN), vec![0x80]);
    let mut min128 = vec![0u8; 15];
    min128.push(0x80);
    assert_eq!(bytes_of(&i128::MIN), min128);
    assert_eq!(bytes_of(&1u128).len(), 16);
    assert_eq!(bytes_of(&7usize).len(), std::mem::size_of::<usize>());
    assert_eq!(bytes_of(&-7isize).len(), std::mem::size_of::<isize>());
}

#[test]
fn integers_decode_from_bytes() {
    let data = [0x34u8, 0x12, 0xFE, 0xFF, 0xFF, 0xFF];
    let mut src = Tape::new(&data);
    assert_eq!(src.read::<u16>(), Ok(0x1234));
    assert_eq!(src.read::<i32>(), Ok(-2));
    assert_eq!(src.pos, 6);
}

#[test]
fn usize_and_isize_round_trip() {
    for v in [0usize, 1, 255, usize::MAX] {
        let buffer = bytes_of(&v);
        let mut src = Tape::new(&buffer);
        assert_eq!(src.read::<usize>(), Ok(v));
    }
    for v in [0isize, -1, isize::MIN, isize::MAX] {
        let buffer = bytes_of(&v);
        let mut src = Tape::new(&buffer);
        assert_eq!(src.read::<isize>(), Ok(v));
    }
}

#[test]
fn bool_bytes_and_strict_decoding() {
    assert_eq!(bytes_of(&true), vec![1]);
    assert_eq!(bytes_of(&false), vec![0]);
    // Only 0 and 1 are bools; any other byte is refused at its position.
    let data = [1u8, 0, 2];
    let mut src = Tape::new(&data);
    assert_eq!(src.read::<bool>(), Ok(true));
    assert_eq!(src.read::<bool>(), Ok(false));
    match src.read::<bool>() {
        Err(DecodeError::Other { pos, cause }) => {
            assert_eq!(pos, 2);
            assert_eq!(cause, "Invalid bool byte (expected 0 or 1)");
        }
        other => panic!("unexpected {:?}", other),
    }
    assert_eq!(src.pos, 3);
}

#[test]
fn vec128_count_beyond_usize_is_refused() {
    // A 128-bit count of 2^64 with no elements after it.
    let mut data = vec![0u8; 16];
    data[8] = 1;
    let mut src = Tape::new(&data);
    match src.read::<Vec128<u8>>() {
        Err(DecodeError::Other { pos, cause }) => {
            assert_eq!(pos, 0);
            assert_eq!(cause, "Element count exceeds usize::MAX");
        }
        other => panic!("unexpected {:?}", other),
    }
    assert_eq!(src.pos, 16);
}

#[test]
fn vector_mutable_access() {
    let mut v = Vec8::new(vec![1u8]);
    v.push(2);
    v.as_mut_vec().push(3);
    assert_eq!(v.into_inner(), vec![1, 2, 3]);
}

#[test]
fn verified_tape_helpers() {
    let data = [7u8, 1];
    let mut src = bincake::tape::new_tape(&data);
    assert!(bincake::tape::tape_ready(&src));
    assert_eq!(src.read::<u8>(), Ok(7));
    assert_eq!(bincake::tape::position(&src), 1);
}

#[test]
fn exhausted_bool_reports_the_advanced_position() {
    let data = [1u8];
    let mut src = Tape::new(&data);
    assert_eq!(src.read::<bool>(), Ok(true));
    assert_eq!(src.read::<bool>(), Err(DecodeError::Exhausted { pos: 2 }));
    assert_eq!(src.pos, 2);
}

#[test]
fn exhausted_number_reports_its_start_and_stays() {
    let data = [1u8, 2, 3];
    let mut src = Tape::new(&data);
    assert_eq!(src.read::<u8>(), Ok(1));
    assert_eq!(src.read::<u32>(), Err(DecodeError::Exhausted { pos: 1 }));
    assert_eq!(src.pos, 1);
    assert_eq!(src.read::<u16>(), Ok(0x0302));
}

#[test]
fn truncated_string_reports_first_missing_byte() {
    let buffer = bytes_of(&"hello".to_string());
    let mut src = Tape::new(&buffer[0..6]);
    assert_eq!(src.read::<String>(), Err(DecodeError::Exhausted { pos: 6 }));
}

#[test]
fn invalid_utf8_reports_string_start() {
    let data = [9u8, 2, 0, 0, 0, 0xFF, 0xFE];
    let mut src = Tape::new(&data);
    assert_eq!(src.read::<u8>(), Ok(9));
    match src.read::<String>() {
        Err(DecodeError::Other { pos, cause }) => {
            assert_eq!(pos, 1);
            assert!(cause.starts_with("Invalid UTF-8 ("));
            assert!(cause.ends_with(")"));
        }
        other => panic!("unexpected {:?}", other),
    }
    // The tape has moved past the bytes of the string.
    assert_eq!(src.pos, 7);
}

#[test]
fn string_is_utf8_behind_u32_prefix() {
    let buffer = bytes_of(&"é".to_string());
    assert_eq!(STR_LEN_SIZE, 4);
    assert_eq!(buffer, vec![2, 0, 0, 0, 0xC3, 0xA9]);
}

#[test]
fn vector_prefix_widths() {
    assert_eq!(bytes_of(&Vec8::new(vec![7u8])), vec![1, 7]);
    assert_eq!(bytes_of(&Vec16::new(vec![7u8])), vec![1, 0, 7]);
    assert_eq!(bytes_of(&Vec32::new(vec![7u8])), vec![1, 0, 0, 0, 7]);
    assert_eq!(bytes_of(&Vec64::new(vec![7u8])), vec![1, 0, 0, 0, 0, 0, 0, 0, 7]);
    let mut expected = vec![1u8];
    expected.extend_from_slice(&[0u8; 15]);
    expected.push(7);
    assert_eq!(bytes_of(&Vec128::new(vec![7u8])), expected);

    let buffer = bytes_of(&Vec128::new(vec![1u16, 2]));
    let mut src = Tape::new(&buffer);
    assert_eq!(src.read::<Vec128<u16>>(), Ok(Vec128::new(vec![1u16, 2])));
}

#[test]
fn vec8_length_beyond_prefix_is_refused() {
    let mut buffer: Vec<u8> = vec![];
    let result = buffer.write(&Vec8::new(vec![0u8; 256]));
    assert_eq!(result, Err(EncodeError::LengthExceedsPrefix { prefix_size: 1, len: 256 }));
    assert!(buffer.is_empty());
}

#[test]
fn vec16_length_beyond_prefix_is_refused() {
    let mut buffer: Vec<u8> = vec![];
    let result = buffer.write(&Vec16::new(vec![false; 65536]));
    assert_eq!(result, Err(EncodeError::LengthExceedsPrefix { prefix_size: 2, len: 65536 }));
    assert!(buffer.is_empty());
}

#[test]
fn element_error_stops_after_written_prefix() {
    let inner = Vec8::new(vec![0u8; 256]);
    let outer = Vec8::new(vec![Vec8::new(vec![5u8]), inner]);
    let mut buffer: Vec<u8> = vec![];
    let result = buffer.write(&outer);
    assert_eq!(result, Err(EncodeError::LengthExceedsPrefix { prefix_size: 1, len: 256 }));
    // The outer count and the first element were written before the failure.
    assert_eq!(buffer, vec![2, 1, 5]);
}

#[test]
fn tuple_error_keeps_first_element() {
    let mut buffer: Vec<u8> = vec![];
    let value = (3u8, Vec8::new(vec![1u8; 300]));
    assert_eq!(
        buffer.write(&value),
        Err(EncodeError::LengthExceedsPrefix { prefix_size: 1, len: 300 })
    );
    assert_eq!(buffer, vec![3]);
}

#[test]
fn vector_decode_stops_at_first_fault() {
    // Claims three u16 elements but holds one and a half.
    let data = [3u8, 1, 0, 2];
    let mut src = Tape::new(&data);
    assert_eq!(src.read::<Vec8<u16>>(), Err(DecodeError::Exhausted { pos: 3 }));
    assert_eq!(src.pos, 3);
}

#[test]
fn vector_conversions() {
    let v = Vec32::from(vec![1u8, 2]);
    assert_eq!(v.len(), 2);
    assert_eq!(v.as_vec(), &vec![1u8, 2]);
    let back: Vec<u8> = v.into();
    assert_eq!(back, vec![1, 2]);
}

#[test]
fn serializable_methods_match_serialize() {
    let mut a: Vec<u8> = vec![];
    let mut b: Vec<u8> = vec![];
    (7u16, "x".to_string()).write_to(&mut a).unwrap();
    (7u16, "x".to_string()).encode(&mut b).unwrap();
    assert_eq!(a, b);
    let mut src = Tape::new(&a);
    assert_eq!(<(u16, String)>::read_from(&mut src), Ok((7u16, "x".to_string())));
}

#[test]
fn deterministic_output() {
    let v = Vec16::new(vec![("a".to_string(), -5i64), ("bc".to_string(), 9i64)]);
    assert_eq!(bytes_of(&v), bytes_of(&v.clone()));
}

#[test]
fn variant_tags() {
    let mut buffer: Vec<u8> = vec![];
    bincake::variant::encode_variant(1, &mut buffer);
    buffer.write(&42u32).unwrap();
    bincake::variant::encode_variant(5, &mut buffer);

    let mut src = Tape::new(&buffer);
    assert_eq!(bincake::variant::decode_variant(&mut src, 5, "Instruction"), Ok(1));
    assert_eq!(src.read::<u32>(), Ok(42));
    match bincake::variant::decode_variant(&mut src, 5, "Instruction") {
        Err(DecodeError::Other { pos, cause }) => {
            assert_eq!(pos, 5);
            assert_eq!(cause, "Invalid discriminant 5 for enum Instruction");
        }
        other => panic!("unexpected {:?}", other),
    }
    assert_eq!(src.pos, 6);
}
