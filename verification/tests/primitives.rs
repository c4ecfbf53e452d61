//! Tests of the byte source and the primitive readers.

use tinyvg::error::ErrorKind;
use tinyvg::reader::ByteReader;

/// The bytes a varint encoder would emit for `v`, for feeding back into
/// the decoder.
fn encode_varint(mut v: u32) -> Vec<u8> {
    let mut out = Vec::new();
    while v >= 128 {
        out.push(128 + (v % 128) as u8);
        v /= 128;
    }
    out.push(v as u8);
    out
}

#[test]
fn varint_decodes_300() {
    let mut r = ByteReader::new(vec![0xAC, 0x02]);
    assert_eq!(r.read_var_uint().unwrap(), 300);
    assert_eq!(r.bytes_read(), 2);
}

#[test]
fn varint_decodes_zero_as_single_byte() {
    let mut r = ByteReader::new(vec![0x00]);
    assert_eq!(r.read_var_uint().unwrap(), 0);
    assert_eq!(r.bytes_read(), 1);
}

#[test]
fn varint_round_trip_samples() {
    let samples: Vec<u32> = vec![
        0,
        1,
        42,
        127,
        128,
        129,
        300,
        16383,
        16384,
        2097151,
        2097152,
        268435455,
        268435456,
        0x7FFF_FFFF,
        0xFFFF_FFFE,
        0xFFFF_FFFF,
    ];
    for &v in &samples {
        let mut bytes = encode_varint(v);
        // Anything may follow the varint; it must not disturb the value.
        bytes.push(0xAB);
        let mut r = ByteReader::new(bytes.clone());
        assert_eq!(r.read_var_uint().unwrap(), v, "value {}", v);
        assert_eq!(r.bytes_read(), bytes.len() - 1, "size for {}", v);
    }
}

#[test]
fn varint_noncanonical_zero_is_accepted() {
    // 0x80 0x00: a continuation byte carrying zero, then a zero group.
    let mut r = ByteReader::new(vec![0x80, 0x00]);
    assert_eq!(r.read_var_uint().unwrap(), 0);
    assert_eq!(r.bytes_read(), 2);
}

#[test]
fn varint_overflow_on_fifth_byte_value() {
    // Five bytes whose top group pushes the value past 32 bits.
    let mut r = ByteReader::new(vec![0xFF, 0xFF, 0xFF, 0xFF, 0x10]);
    let e = r.read_var_uint().unwrap_err();
    assert_eq!(e.kind, ErrorKind::VarintOverflow);
    assert_eq!(e.offset, 0);
}

#[test]
fn varint_overflow_on_fifth_continuation() {
    let mut r = ByteReader::new(vec![0x80, 0x80, 0x80, 0x80, 0x80, 0x00]);
    let e = r.read_var_uint().unwrap_err();
    assert_eq!(e.kind, ErrorKind::VarintOverflow);
}

#[test]
fn varint_largest_value_accepted() {
    // 0xFFFF_FFFF encodes to FF FF FF FF 0F.
    let mut r = ByteReader::new(vec![0xFF, 0xFF, 0xFF, 0xFF, 0x0F]);
    assert_eq!(r.read_var_uint().unwrap(), 0xFFFF_FFFF);
}

#[test]
fn varint_eof_inside() {
    let mut r = ByteReader::new(vec![0x80, 0x80]);
    let e = r.read_var_uint().unwrap_err();
    assert_eq!(e.kind, ErrorKind::UnexpectedEof);
}

#[test]
fn fixed_width_little_endian_reads() {
    let mut r = ByteReader::new(vec![0x01, 0x02, 0x03, 0x04, 0x05, 0x06, 0x07]);
    assert_eq!(r.read_u8().unwrap(), 0x01);
    assert_eq!(r.read_u16le().unwrap(), 0x0302);
    assert_eq!(r.read_u32le().unwrap(), 0x07060504);
    assert_eq!(r.bytes_read(), 7);
    let e = r.read_u8().unwrap_err();
    assert_eq!(e.kind, ErrorKind::UnexpectedEof);
    assert_eq!(e.offset, 7);
}

#[test]
fn read_to_end_drains() {
    let mut r = ByteReader::new(vec![9, 8, 7]);
    assert_eq!(r.read_u8().unwrap(), 9);
    assert_eq!(r.read_to_end(), vec![8, 7]);
    assert_eq!(r.bytes_read(), 3);
    assert_eq!(r.read_to_end(), Vec::<u8>::new());
}
