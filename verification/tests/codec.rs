//! Tests of the wire-codec primitives: little-endian integers, booleans
//! and nul-terminated strings.

use bananas_server::wire::{
    append_bytes, decode_bool, decode_string, decode_u16, decode_u32, decode_u64, decode_u8,
    encode_bool, encode_str, encode_u16, encode_u32, encode_u64, encode_u8, Error,
};

#[test]
fn u8_round_trip() {
    let mut out: Vec<u8> = Vec::new();
    encode_u8(&mut out, 0xAB);
    assert_eq!(out, vec![0xAB]);
    assert_eq!(decode_u8(&out, 0), Ok((0xAB, 1)));
}

#[test]
fn u16_little_endian_layout() {
    let mut out: Vec<u8> = Vec::new();
    encode_u16(&mut out, 0x1234);
    assert_eq!(out, vec![0x34, 0x12]);
    assert_eq!(decode_u16(&out, 0), Ok((0x1234, 2)));
}

#[test]
fn u32_little_endian_layout() {
    let mut out: Vec<u8> = Vec::new();
    encode_u32(&mut out, 0xDEADBEEF);
    assert_eq!(out, vec![0xEF, 0xBE, 0xAD, 0xDE]);
    assert_eq!(decode_u32(&out, 0), Ok((0xDEADBEEF, 4)));
}

#[test]
fn u64_little_endian_layout() {
    let mut out: Vec<u8> = Vec::new();
    encode_u64(&mut out, 0x0102030405060708);
    assert_eq!(out, vec![0x08, 0x07, 0x06, 0x05, 0x04, 0x03, 0x02, 0x01]);
    assert_eq!(decode_u64(&out, 0), Ok((0x0102030405060708, 8)));
}

#[test]
fn integer_decode_too_short() {
    assert_eq!(decode_u8(&[], 0), Err(Error::PacketTooShort));
    assert_eq!(decode_u16(&[0x01], 0), Err(Error::PacketTooShort));
    assert_eq!(decode_u32(&[0x01, 0x02, 0x03], 0), Err(Error::PacketTooShort));
    assert_eq!(
        decode_u64(&[0x01, 0x02, 0x03, 0x04, 0x05, 0x06, 0x07], 0),
        Err(Error::PacketTooShort)
    );
}

#[test]
fn bool_legal_values_only() {
    assert_eq!(decode_bool(&[0], 0), Ok((false, 1)));
    assert_eq!(decode_bool(&[1], 0), Ok((true, 1)));
    assert_eq!(decode_bool(&[2], 0), Err(Error::ValueOutOfRange));
    assert_eq!(decode_bool(&[0xFF], 0), Err(Error::ValueOutOfRange));
    assert_eq!(decode_bool(&[], 0), Err(Error::PacketTooShort));
    let mut out: Vec<u8> = Vec::new();
    encode_bool(&mut out, true);
    encode_bool(&mut out, false);
    assert_eq!(out, vec![1, 0]);
}

#[test]
fn string_decode_consumes_terminator() {
    let buf = b"hi\0rest";
    let (s, next) = decode_string(buf, 0).unwrap();
    assert_eq!(s, "hi");
    assert_eq!(next, 3);
}

#[test]
fn string_decode_empty_is_legal() {
    let buf = [0u8, 0x41];
    let (s, next) = decode_string(&buf, 0).unwrap();
    assert_eq!(s, "");
    assert_eq!(next, 1);
}

#[test]
fn string_decode_without_terminator_is_too_short() {
    assert_eq!(decode_string(b"abc", 0), Err(Error::PacketTooShort));
    assert_eq!(decode_string(&[], 0), Err(Error::PacketTooShort));
}

#[test]
fn string_decode_rejects_bad_utf8() {
    let buf = [0xFF, 0xFE, 0x00];
    assert_eq!(decode_string(&buf, 0), Err(Error::InvalidString));
}

#[test]
fn string_encode_appends_utf8_and_terminator() {
    let mut out: Vec<u8> = Vec::new();
    encode_str(&mut out, "h\u{e9}");
    assert_eq!(out, vec![0x68, 0xC3, 0xA9, 0x00]);
    let (s, next) = decode_string(&out, 0).unwrap();
    assert_eq!(s, "h\u{e9}");
    assert_eq!(next, 4);
}

#[test]
fn append_bytes_keeps_order() {
    let mut out: Vec<u8> = vec![1];
    append_bytes(&mut out, &[2, 3, 4]);
    assert_eq!(out, vec![1, 2, 3, 4]);
}

#[test]
fn decode_at_offset() {
    let buf = [0xAA, 0x10, 0x20];
    assert_eq!(decode_u16(&buf, 1), Ok((0x2010, 3)));
    assert_eq!(decode_u16(&buf, 2), Err(Error::PacketTooShort));
}
