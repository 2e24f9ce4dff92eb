//! Round trips and exact wire bytes for every codec primitive.

use chat_protocol::codec::{read_i16, read_i32, read_i64, read_i8, read_string, read_u128,
    read_u16, read_u32, read_u64, read_u8, write_i16, write_i32, write_i64, write_i8,
    write_string, write_u128, write_u16, write_u32, write_u64, write_u8, DecodeError};

#[test]
fn u8_round_trip_boundaries() {
    for v in [0u8, 1, 0x7f, 0xff] {
        let mut buf: Vec<u8> = Vec::new();
        write_u8(v, &mut buf);
        assert_eq!(buf, vec![v]);
        let (back, end) = read_u8(&buf, 0).unwrap();
        assert_eq!(back, v);
        assert_eq!(end, 1);
    }
}

#[test]
fn u16_exact_bytes_and_round_trip() {
    let mut buf: Vec<u8> = Vec::new();
    write_u16(0x1234, &mut buf);
    assert_eq!(buf, vec![0x12, 0x34]);
    for v in [0u16, 1, 0x00ff, 0xff00, 0xffff] {
        let mut b: Vec<u8> = Vec::new();
        write_u16(v, &mut b);
        assert_eq!(b.len(), 2);
        let (back, end) = read_u16(&b, 0).unwrap();
        assert_eq!(back, v);
        assert_eq!(end, 2);
    }
}

#[test]
fn u32_exact_bytes_and_round_trip() {
    let mut buf: Vec<u8> = Vec::new();
    write_u32(0x0102_0304, &mut buf);
    assert_eq!(buf, vec![1, 2, 3, 4]);
    for v in [0u32, 1, 0xffff_ffff] {
        let mut b: Vec<u8> = Vec::new();
        write_u32(v, &mut b);
        let (back, _) = read_u32(&b, 0).unwrap();
        assert_eq!(back, v);
    }
}

#[test]
fn u64_round_trip() {
    for v in [0u64, 1, 0x0102_0304_0506_0708, u64::MAX] {
        let mut b: Vec<u8> = Vec::new();
        write_u64(v, &mut b);
        assert_eq!(b.len(), 8);
        let (back, end) = read_u64(&b, 0).unwrap();
        assert_eq!(back, v);
        assert_eq!(end, 8);
    }
}

#[test]
fn u128_identifier_is_sixteen_big_endian_bytes() {
    let mut b: Vec<u8> = Vec::new();
    write_u128(1, &mut b);
    let mut expected = vec![0u8; 15];
    expected.push(1);
    assert_eq!(b, expected);
    for v in [0u128, 1, u128::MAX, 0x0123_4567_89ab_cdef_0123_4567_89ab_cdef] {
        let mut buf: Vec<u8> = Vec::new();
        write_u128(v, &mut buf);
        assert_eq!(buf.len(), 16);
        let (back, end) = read_u128(&buf, 0).unwrap();
        assert_eq!(back, v);
        assert_eq!(end, 16);
    }
}

#[test]
fn signed_round_trips() {
    for v in [i8::MIN, -1, 0, 1, i8::MAX] {
        let mut b: Vec<u8> = Vec::new();
        write_i8(v, &mut b);
        assert_eq!(read_i8(&b, 0).unwrap().0, v);
    }
    for v in [i16::MIN, -1, 0, 1, i16::MAX] {
        let mut b: Vec<u8> = Vec::new();
        write_i16(v, &mut b);
        assert_eq!(read_i16(&b, 0).unwrap().0, v);
    }
    for v in [i32::MIN, -1, 0, 1, i32::MAX] {
        let mut b: Vec<u8> = Vec::new();
        write_i32(v, &mut b);
        assert_eq!(read_i32(&b, 0).unwrap().0, v);
    }
    for v in [i64::MIN, -1, 0, 1, i64::MAX] {
        let mut b: Vec<u8> = Vec::new();
        write_i64(v, &mut b);
        assert_eq!(read_i64(&b, 0).unwrap().0, v);
    }
}

#[test]
fn negative_one_is_all_ones_on_the_wire() {
    let mut b: Vec<u8> = Vec::new();
    write_i16(-1, &mut b);
    assert_eq!(b, vec![0xff, 0xff]);
}

#[test]
fn short_integer_input_is_unexpected_end() {
    let b: Vec<u8> = vec![1];
    assert_eq!(read_u16(&b, 0), Err(DecodeError::UnexpectedEnd));
    assert_eq!(read_u32(&b, 0), Err(DecodeError::UnexpectedEnd));
    assert_eq!(read_u128(&b, 0), Err(DecodeError::UnexpectedEnd));
    let empty: Vec<u8> = Vec::new();
    assert_eq!(read_u8(&empty, 0), Err(DecodeError::UnexpectedEnd));
}

#[test]
fn string_round_trip_with_length_prefix() {
    let s = String::from("hello");
    let mut b: Vec<u8> = Vec::new();
    write_string(&s, &mut b).unwrap();
    assert_eq!(b, vec![0, 5, b'h', b'e', b'l', b'l', b'o']);
    let (back, end) = read_string(&b, 0).unwrap();
    assert_eq!(back, "hello");
    assert_eq!(end, 7);
}

#[test]
fn empty_string_round_trip() {
    let s = String::new();
    let mut b: Vec<u8> = Vec::new();
    write_string(&s, &mut b).unwrap();
    assert_eq!(b, vec![0, 0]);
    let (back, end) = read_string(&b, 0).unwrap();
    assert_eq!(back, "");
    assert_eq!(end, 2);
}

#[test]
fn multibyte_text_round_trip() {
    let s = String::from("héllo ✓");
    let mut b: Vec<u8> = Vec::new();
    write_string(&s, &mut b).unwrap();
    let (back, _) = read_string(&b, 0).unwrap();
    assert_eq!(back, s);
}

#[test]
fn oversized_string_is_refused_before_writing() {
    let s = "x".repeat(70_000);
    let mut b: Vec<u8> = vec![9];
    let r = write_string(&s, &mut b);
    assert!(r.is_err());
    assert_eq!(b, vec![9]);
}

#[test]
fn string_length_prefix_beyond_input_is_unexpected_end() {
    // The prefix announces 10 bytes, the stream holds 2.
    let b: Vec<u8> = vec![0, 10, b'h', b'i'];
    assert_eq!(read_string(&b, 0), Err(DecodeError::UnexpectedEnd));
}

#[test]
fn invalid_utf8_is_invalid_encoding() {
    let b: Vec<u8> = vec![0, 2, 0xff, 0xfe];
    assert_eq!(read_string(&b, 0), Err(DecodeError::InvalidEncoding));
}

#[test]
fn reads_compose_at_positions() {
    let mut b: Vec<u8> = Vec::new();
    write_u16(7, &mut b);
    write_string(&String::from("ab"), &mut b).unwrap();
    write_u32(9, &mut b);
    let (v1, p1) = read_u16(&b, 0).unwrap();
    let (v2, p2) = read_string(&b, p1).unwrap();
    let (v3, p3) = read_u32(&b, p2).unwrap();
    assert_eq!((v1, v2.as_str(), v3), (7, "ab", 9));
    assert_eq!(p3, b.len());
}
