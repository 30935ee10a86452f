//! End-to-end reader scenarios over hand-written wire bytes.

use proto_wire::BytesReader;
use proto_wire::Error;

#[test]
fn single_uint32_field() {
    // field #1, wire type VARINT, value 150
    let bytes = [0x08u8, 0x96, 0x01];
    let mut r = BytesReader::from_bytes(&bytes);
    let tag = r.next_tag(&bytes).unwrap();
    assert_eq!(tag, 0x08);
    assert_eq!(tag >> 3, 1);
    assert_eq!(tag & 7, 0);
    assert_eq!(r.read_uint32(&bytes).unwrap(), 150);
    assert!(r.is_eof());
}

#[test]
fn string_field() {
    // field #2, wire type LENGTH_DELIMITED, value "testing"
    let bytes = [0x12u8, 0x07, 0x74, 0x65, 0x73, 0x74, 0x69, 0x6E, 0x67];
    let mut r = BytesReader::from_bytes(&bytes);
    assert_eq!(r.next_tag(&bytes).unwrap(), 0x12);
    assert_eq!(r.read_string(&bytes).unwrap(), "testing");
    assert!(r.is_eof());
}

#[test]
fn zigzag_sint32_of_minus_one() {
    let bytes = [0x01u8];
    let mut r = BytesReader::from_bytes(&bytes);
    assert_eq!(r.read_sint32(&bytes).unwrap(), -1);
}

#[test]
fn zigzag_sint64_of_minus_two() {
    let bytes = [0x03u8];
    let mut r = BytesReader::from_bytes(&bytes);
    assert_eq!(r.read_sint64(&bytes).unwrap(), -2);
}

#[test]
fn negative_int32_as_ten_byte_varint() {
    let bytes = [0xFFu8, 0xFF, 0xFF, 0xFF, 0xFF, 0xFF, 0xFF, 0xFF, 0xFF, 0x01];
    let mut r = BytesReader::from_bytes(&bytes);
    assert_eq!(r.read_int32(&bytes).unwrap(), -1);
    assert!(r.is_eof());
}

#[test]
fn negative_int64_as_ten_byte_varint() {
    let bytes = [0xFFu8, 0xFF, 0xFF, 0xFF, 0xFF, 0xFF, 0xFF, 0xFF, 0xFF, 0x01];
    let mut r = BytesReader::from_bytes(&bytes);
    assert_eq!(r.read_int64(&bytes).unwrap(), -1);
}

#[test]
fn varint32_silently_truncates_high_bits() {
    // full value 0x1_0000_0001 occupies 33 bits; the 32-bit read keeps the low 32
    let bytes = [0x81u8, 0x80, 0x80, 0x80, 0x10];
    let mut r = BytesReader::from_bytes(&bytes);
    assert_eq!(r.read_varint32(&bytes).unwrap(), 1);
    let mut r64 = BytesReader::from_bytes(&bytes);
    assert_eq!(r64.read_varint64(&bytes).unwrap(), 0x1_0000_0001);
}

#[test]
fn unknown_field_skip() {
    // field #99 wire FIXED64, then field #1 wire VARINT with value 150
    let mut bytes: Vec<u8> = vec![0x99, 0x06];
    bytes.extend_from_slice(&[0u8; 8]);
    bytes.extend_from_slice(&[0x08, 0x96, 0x01]);
    let mut r = BytesReader::from_bytes(&bytes);
    let t1 = r.next_tag(&bytes).unwrap();
    assert_eq!(t1 >> 3, 99);
    assert_eq!(t1 & 7, 1);
    r.read_unknown(&bytes, t1).unwrap();
    let t2 = r.next_tag(&bytes).unwrap();
    assert_eq!(t2, 0x08);
    assert_eq!(r.read_uint32(&bytes).unwrap(), 150);
    assert!(r.is_eof());
}

#[test]
fn malformed_wire_type() {
    let bytes = [0x0Eu8];
    let mut r = BytesReader::from_bytes(&bytes);
    let tag = r.next_tag(&bytes).unwrap();
    assert_eq!(tag & 7, 6);
    assert_eq!(r.read_unknown(&bytes, tag), Err(Error::UnknownWireType(6)));
}

#[test]
fn group_wire_types_are_deprecated() {
    let bytes = [0u8; 4];
    let mut r = BytesReader::from_bytes(&bytes);
    assert_eq!(r.read_unknown(&bytes, 3), Err(Error::Deprecated("group")));
    assert_eq!(r.read_unknown(&bytes, 4), Err(Error::Deprecated("group")));
}

#[test]
fn varint_with_zero_bytes_remaining() {
    let bytes: [u8; 0] = [];
    let mut r = BytesReader::from_bytes(&bytes);
    assert_eq!(r.read_varint32(&bytes), Err(Error::UnexpectedEndOfBuffer));
    let mut r = BytesReader::from_bytes(&bytes);
    assert_eq!(r.read_varint64(&bytes), Err(Error::UnexpectedEndOfBuffer));
}

#[test]
fn varint_cut_short_mid_encoding() {
    let bytes = [0x96u8];
    let mut r = BytesReader::from_bytes(&bytes);
    assert_eq!(r.read_uint32(&bytes), Err(Error::UnexpectedEndOfBuffer));
}

#[test]
fn varint64_tenth_byte_keeps_one_bit() {
    // the tenth byte contributes only bit 63; its other bits are dropped
    let bytes = [0xFFu8, 0xFF, 0xFF, 0xFF, 0xFF, 0xFF, 0xFF, 0xFF, 0xFF, 0x7F];
    let mut r = BytesReader::from_bytes(&bytes);
    assert_eq!(r.read_varint64(&bytes).unwrap(), u64::MAX);
}

#[test]
fn varint_longer_than_ten_bytes() {
    let bytes = [0xFFu8; 11];
    let mut r = BytesReader::from_bytes(&bytes);
    assert_eq!(r.read_varint32(&bytes), Err(Error::Varint));
    let mut r = BytesReader::from_bytes(&bytes);
    assert_eq!(r.read_varint64(&bytes), Err(Error::Varint));
}

#[test]
fn fixed_reads_with_too_few_bytes() {
    for n in 1..4 {
        let bytes = vec![0u8; n];
        let mut r = BytesReader::from_bytes(&bytes);
        assert_eq!(r.read_fixed32(&bytes), Err(Error::UnexpectedEndOfBuffer));
        let mut r = BytesReader::from_bytes(&bytes);
        assert_eq!(r.read_sfixed32(&bytes), Err(Error::UnexpectedEndOfBuffer));
    }
    for n in 1..8 {
        let bytes = vec![0u8; n];
        let mut r = BytesReader::from_bytes(&bytes);
        assert_eq!(r.read_fixed64(&bytes), Err(Error::UnexpectedEndOfBuffer));
        let mut r = BytesReader::from_bytes(&bytes);
        assert_eq!(r.read_sfixed64(&bytes), Err(Error::UnexpectedEndOfBuffer));
    }
}

#[test]
fn fixed_reads_are_little_endian() {
    let bytes = [0x78u8, 0x56, 0x34, 0x12];
    let mut r = BytesReader::from_bytes(&bytes);
    assert_eq!(r.read_fixed32(&bytes).unwrap(), 0x12345678);
    let bytes = [0xFFu8, 0xFF, 0xFF, 0xFF];
    let mut r = BytesReader::from_bytes(&bytes);
    assert_eq!(r.read_sfixed32(&bytes).unwrap(), -1);
    let bytes = [0xEFu8, 0xCD, 0xAB, 0x89, 0x67, 0x45, 0x23, 0x01];
    let mut r = BytesReader::from_bytes(&bytes);
    assert_eq!(r.read_fixed64(&bytes).unwrap(), 0x0123456789ABCDEF);
    let bytes = [0xFEu8, 0xFF, 0xFF, 0xFF, 0xFF, 0xFF, 0xFF, 0xFF];
    let mut r = BytesReader::from_bytes(&bytes);
    assert_eq!(r.read_sfixed64(&bytes).unwrap(), -2);
}

#[test]
fn length_delimited_longer_than_remaining() {
    let bytes = [0x05u8, 0x01];
    let mut r = BytesReader::from_bytes(&bytes);
    assert_eq!(r.read_bytes(&bytes), Err(Error::UnexpectedEndOfBuffer));
}

#[test]
fn unknown_skip_length_overflows_remaining() {
    // wire type LENGTH_DELIMITED whose declared length exceeds what remains
    let bytes = [0x05u8, 0x01];
    let mut r = BytesReader::from_bytes(&bytes);
    assert_eq!(r.read_unknown(&bytes, 2), Err(Error::Varint));
    // fixed skips run out the same way
    let bytes = [0u8; 3];
    let mut r = BytesReader::from_bytes(&bytes);
    assert_eq!(r.read_unknown(&bytes, 5), Err(Error::Varint));
    let mut r = BytesReader::from_bytes(&bytes);
    assert_eq!(r.read_unknown(&bytes, 1), Err(Error::Varint));
}

#[test]
fn scope_containment_after_bytes_read() {
    let bytes = [0x02u8, b'h', b'i', 0xAA];
    let mut r = BytesReader::from_bytes(&bytes);
    assert_eq!(r.len(), 4);
    let payload = r.read_bytes(&bytes).unwrap();
    assert_eq!(payload, b"hi");
    // cursor stands at start + varint length + payload length
    assert_eq!(r.len(), 1);
    assert_eq!(r.read_u8(&bytes).unwrap(), 0xAA);
    assert!(r.is_eof());
}

#[test]
fn string_with_invalid_utf8_payload() {
    let bytes = [0x02u8, 0xFF, 0xFE];
    let mut r = BytesReader::from_bytes(&bytes);
    assert_eq!(r.read_string(&bytes), Err(Error::Utf8));
}

#[test]
fn string_with_multibyte_utf8_payload() {
    let mut bytes: Vec<u8> = vec![];
    let payload = "héllo".as_bytes();
    bytes.push(payload.len() as u8);
    bytes.extend_from_slice(payload);
    let mut r = BytesReader::from_bytes(&bytes);
    assert_eq!(r.read_string(&bytes).unwrap(), "héllo");
}

#[test]
fn bool_reads() {
    let bytes = [0x00u8, 0x01, 0x96, 0x01];
    let mut r = BytesReader::from_bytes(&bytes);
    assert_eq!(r.read_bool(&bytes).unwrap(), false);
    assert_eq!(r.read_bool(&bytes).unwrap(), true);
    assert_eq!(r.read_bool(&bytes).unwrap(), true);
}

#[test]
fn enum_read_goes_through_from() {
    #[derive(Debug, PartialEq)]
    enum Mood {
        Low,
        High,
        Other,
    }
    impl From<i32> for Mood {
        fn from(v: i32) -> Mood {
            match v {
                0 => Mood::Low,
                1 => Mood::High,
                _ => Mood::Other,
            }
        }
    }
    let bytes = [0x01u8, 0x00, 0x07];
    let mut r = BytesReader::from_bytes(&bytes);
    assert_eq!(r.read_enum::<Mood>(&bytes).unwrap(), Mood::High);
    assert_eq!(r.read_enum::<Mood>(&bytes).unwrap(), Mood::Low);
    assert_eq!(r.read_enum::<Mood>(&bytes).unwrap(), Mood::Other);
}

#[test]
fn read_to_end_discards_remainder() {
    let bytes = [1u8, 2, 3];
    let mut r = BytesReader::from_bytes(&bytes);
    assert_eq!(r.read_u8(&bytes).unwrap(), 1);
    assert!(!r.is_eof());
    r.read_to_end();
    assert!(r.is_eof());
    assert_eq!(r.len(), 0);
}
