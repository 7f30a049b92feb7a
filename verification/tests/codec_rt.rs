use openpid_embedded_hal::codec::{
    decode_signed, decode_unsigned, encode_le, encode_signed, encode_unsigned,
};
use openpid_embedded_hal::model::Endianness;

fn unsigned_round_trip(v: u64, nbytes: usize, e: Endianness) {
    let bytes = encode_unsigned(v, nbytes, e);
    assert_eq!(bytes.len(), nbytes);
    assert_eq!(decode_unsigned(&bytes, e), v);
}

fn signed_round_trip(x: i64, nbytes: usize, e: Endianness) {
    let bytes = encode_signed(x, nbytes, e);
    assert_eq!(bytes.len(), nbytes);
    assert_eq!(decode_signed(&bytes, e), x);
}

#[test]
fn unsigned_boundary_values_round_trip() {
    for &e in &[Endianness::BigEndian, Endianness::LittleEndian] {
        unsigned_round_trip(0, 1, e);
        unsigned_round_trip(u8::MAX as u64, 1, e);
        unsigned_round_trip(0, 2, e);
        unsigned_round_trip(u16::MAX as u64, 2, e);
        unsigned_round_trip(0, 4, e);
        unsigned_round_trip(u32::MAX as u64, 4, e);
        unsigned_round_trip(0, 8, e);
        unsigned_round_trip(u64::MAX, 8, e);
    }
}

#[test]
fn signed_boundary_values_round_trip() {
    for &e in &[Endianness::BigEndian, Endianness::LittleEndian] {
        for &x in &[0i64, -1, i8::MIN as i64, i8::MAX as i64] {
            signed_round_trip(x, 1, e);
        }
        for &x in &[0i64, -1, i16::MIN as i64, i16::MAX as i64] {
            signed_round_trip(x, 2, e);
        }
        for &x in &[0i64, -1, i32::MIN as i64, i32::MAX as i64] {
            signed_round_trip(x, 4, e);
        }
        for &x in &[0i64, -1, i64::MIN, i64::MAX] {
            signed_round_trip(x, 8, e);
        }
    }
}

#[test]
fn big_endian_puts_most_significant_first() {
    let bytes = encode_unsigned(0x1234, 2, Endianness::BigEndian);
    assert_eq!(bytes, vec![0x12, 0x34]);
}

#[test]
fn little_endian_puts_least_significant_first() {
    let bytes = encode_unsigned(0x1234, 2, Endianness::LittleEndian);
    assert_eq!(bytes, vec![0x34, 0x12]);
}

#[test]
fn minus_one_is_all_ones() {
    let bytes = encode_signed(-1, 4, Endianness::BigEndian);
    assert_eq!(bytes, vec![0xFF, 0xFF, 0xFF, 0xFF]);
}

#[test]
fn encode_truncates_modulo_width() {
    let bytes = encode_le(0x0102, 1);
    assert_eq!(bytes, vec![0x02]);
}

#[test]
fn decode_exact_value() {
    let bytes = vec![0x01, 0x00];
    assert_eq!(decode_unsigned(&bytes, Endianness::BigEndian), 256);
    assert_eq!(decode_unsigned(&bytes, Endianness::LittleEndian), 1);
}
