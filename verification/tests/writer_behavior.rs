//! Writer scenarios: typed writes, the bounded backend's limits, message and
//! map round trips through the reader.

use proto_wire::decode;
use proto_wire::BytesReader;
use proto_wire::BytesWriter;
use proto_wire::Error;
use proto_wire::MessageRead;
use proto_wire::MessageWrite;
use proto_wire::Writer;
use proto_wire::WriterBackend;

fn written(capacity: usize, f: impl FnOnce(&mut Writer<BytesWriter>)) -> Vec<u8> {
    let mut w = Writer::new(BytesWriter::new(vec![0u8; capacity]));
    f(&mut w);
    w.into_inner().into_inner()
}

#[test]
fn varint_round_trip_samples() {
    let samples: [u64; 9] = [0, 1, 127, 128, 150, 300, 0xFFFF_FFFF, 0x8000_0000_0000_0000, u64::MAX];
    for &v in samples.iter() {
        let mut w = Writer::new(BytesWriter::new(vec![0u8; 10]));
        w.write_varint(v).unwrap();
        let buf = w.into_inner().into_inner();
        let mut r = BytesReader::from_bytes(&buf);
        assert_eq!(r.read_varint64(&buf).unwrap(), v);
    }
}

#[test]
fn varint_length_bound() {
    // ten bytes exactly when the high bit is set
    let mut w = Writer::new(BytesWriter::new(vec![0u8; 9]));
    w.write_varint(0x7FFF_FFFF_FFFF_FFFF).unwrap();
    let mut w = Writer::new(BytesWriter::new(vec![0u8; 9]));
    assert_eq!(w.write_varint(0x8000_0000_0000_0000), Err(Error::UnexpectedEndOfBuffer));
    let mut w = Writer::new(BytesWriter::new(vec![0u8; 10]));
    w.write_varint(u64::MAX).unwrap();
}

#[test]
fn single_uint32_field_written() {
    let buf = written(3, |w| {
        w.write_tag(0x08).unwrap();
        w.write_uint32(150).unwrap();
    });
    assert_eq!(buf, vec![0x08, 0x96, 0x01]);
}

#[test]
fn write_with_tag_emits_tag_then_payload() {
    let buf = written(3, |w| {
        w.write_with_tag(0x08, |w| w.write_uint32(150)).unwrap();
    });
    assert_eq!(buf, vec![0x08, 0x96, 0x01]);
}

#[test]
fn string_field_written() {
    let buf = written(9, |w| {
        w.write_tag(0x12).unwrap();
        w.write_string("testing").unwrap();
    });
    assert_eq!(buf, vec![0x12, 0x07, 0x74, 0x65, 0x73, 0x74, 0x69, 0x6E, 0x67]);
}

#[test]
fn zigzag_sint32_of_minus_one_written() {
    let buf = written(1, |w| {
        w.write_sint32(-1).unwrap();
    });
    assert_eq!(buf, vec![0x01]);
}

#[test]
fn sint_round_trips() {
    let samples: [i32; 7] = [0, -1, 1, -2, 150, i32::MIN, i32::MAX];
    for &v in samples.iter() {
        let buf = written(10, |w| {
            w.write_sint32(v).unwrap();
        });
        let mut r = BytesReader::from_bytes(&buf);
        assert_eq!(r.read_sint32(&buf).unwrap(), v);
    }
    let samples64: [i64; 7] = [0, -1, 1, -2, 150, i64::MIN, i64::MAX];
    for &v in samples64.iter() {
        let buf = written(10, |w| {
            w.write_sint64(v).unwrap();
        });
        let mut r = BytesReader::from_bytes(&buf);
        assert_eq!(r.read_sint64(&buf).unwrap(), v);
    }
}

#[test]
fn int32_round_trips_through_ten_byte_form() {
    let buf = written(10, |w| {
        w.write_int32(-1).unwrap();
    });
    assert_eq!(buf, vec![0xFF, 0xFF, 0xFF, 0xFF, 0xFF, 0xFF, 0xFF, 0xFF, 0xFF, 0x01]);
    let mut r = BytesReader::from_bytes(&buf);
    assert_eq!(r.read_int32(&buf).unwrap(), -1);
}

#[test]
fn fixed_writes_are_little_endian() {
    let buf = written(4, |w| {
        w.write_fixed32(0x12345678).unwrap();
    });
    assert_eq!(buf, vec![0x78, 0x56, 0x34, 0x12]);
    let buf = written(8, |w| {
        w.write_fixed64(0x0123456789ABCDEF).unwrap();
    });
    assert_eq!(buf, vec![0xEF, 0xCD, 0xAB, 0x89, 0x67, 0x45, 0x23, 0x01]);
    let buf = written(4, |w| {
        w.write_sfixed32(-2).unwrap();
    });
    assert_eq!(buf, vec![0xFE, 0xFF, 0xFF, 0xFF]);
    let buf = written(8, |w| {
        w.write_sfixed64(-2).unwrap();
    });
    assert_eq!(buf, vec![0xFE, 0xFF, 0xFF, 0xFF, 0xFF, 0xFF, 0xFF, 0xFF]);
}

#[test]
fn bool_and_enum_writes() {
    let buf = written(3, |w| {
        w.write_bool(true).unwrap();
        w.write_bool(false).unwrap();
        w.write_enum(7).unwrap();
    });
    assert_eq!(buf, vec![0x01, 0x00, 0x07]);
}

#[test]
fn bytes_field_written_with_length_prefix() {
    let buf = written(4, |w| {
        w.write_bytes(&[9, 8, 7]).unwrap();
    });
    assert_eq!(buf, vec![0x03, 9, 8, 7]);
}

#[test]
fn bounded_writer_overflow() {
    // a five-byte run into a four-byte buffer fails and changes nothing
    let mut b = BytesWriter::new(vec![7u8; 4]);
    assert_eq!(b.pb_write_all(&[1, 2, 3, 4, 5]), Err(Error::UnexpectedEndOfBuffer));
    assert_eq!(b.pb_write_u64(1), Err(Error::UnexpectedEndOfBuffer));
    // the cursor did not move: a four-byte write still fits
    b.pb_write_u32(0x04030201).unwrap();
    assert_eq!(b.into_inner(), vec![1, 2, 3, 4]);
}

#[test]
fn map_round_trip() {
    // one map<string, int32> entry: {"k": 42}
    let buf = written(6, |w| {
        w.write_map(
            5,
            (1 << 3) | 2,
            |w: &mut Writer<BytesWriter>| w.write_string("k"),
            (2 << 3) | 0,
            |w: &mut Writer<BytesWriter>| w.write_int32(42),
        )
        .unwrap();
    });
    assert_eq!(buf, vec![0x05, 0x0A, 0x01, b'k', 0x10, 0x2A]);
    let mut r = BytesReader::from_bytes(&buf);
    let (k, v): (String, i32) = r
        .read_map(
            &buf,
            |r: &mut BytesReader, b: &[u8]| r.read_string(b).map(String::from),
            |r: &mut BytesReader, b: &[u8]| r.read_int32(b),
        )
        .unwrap();
    assert_eq!(k, "k");
    assert_eq!(v, 42);
    assert!(r.is_eof());
}

#[test]
fn map_entry_with_empty_payload_defaults() {
    // a zero-length entry yields both defaults
    let bytes = [0x00u8];
    let mut r = BytesReader::from_bytes(&bytes);
    let (k, v): (String, i32) = r
        .read_map(
            &bytes,
            |r: &mut BytesReader, b: &[u8]| r.read_string(b).map(String::from),
            |r: &mut BytesReader, b: &[u8]| r.read_int32(b),
        )
        .unwrap();
    assert_eq!(k, "");
    assert_eq!(v, 0);
    assert!(r.is_eof());
}

#[test]
fn map_entry_with_missing_key_defaults() {
    // only field #2 present: the key stays its type's default
    let bytes = [0x02u8, 0x10, 0x07];
    let mut r = BytesReader::from_bytes(&bytes);
    let (k, v): (String, i32) = r
        .read_map(
            &bytes,
            |r: &mut BytesReader, b: &[u8]| r.read_string(b).map(String::from),
            |r: &mut BytesReader, b: &[u8]| r.read_int32(b),
        )
        .unwrap();
    assert_eq!(k, "");
    assert_eq!(v, 7);
}

#[test]
fn map_entry_with_bad_field_number() {
    // an entry holding field #3 instead of 1 or 2
    let bytes = [0x02u8, 0x18, 0x00];
    let mut r = BytesReader::from_bytes(&bytes);
    let got: Result<(i32, i32), Error> = r.read_map(
        &bytes,
        |r: &mut BytesReader, b: &[u8]| r.read_int32(b),
        |r: &mut BytesReader, b: &[u8]| r.read_int32(b),
    );
    assert_eq!(got, Err(Error::MapField(3)));
}

#[derive(Debug, PartialEq, Default)]
struct Count {
    n: u32,
}

impl<'a> MessageRead<'a> for Count {
    fn from_reader(r: &mut BytesReader, bytes: &'a [u8]) -> Result<Count, Error> {
        let mut n = 0;
        while !r.is_eof() {
            let tag = r.next_tag(bytes)?;
            match tag {
                0x08 => n = r.read_uint32(bytes)?,
                t => r.read_unknown(bytes, t)?,
            }
        }
        Ok(Count { n })
    }
}

impl MessageWrite for Count {
    fn write_message<W: WriterBackend>(&self, w: &mut Writer<W>) -> Result<(), Error> {
        w.write_tag(0x08)?;
        w.write_uint32(self.n)
    }

    fn get_size(&self) -> usize {
        let mut v = self.n >> 7;
        let mut len = 2;
        while v > 0 {
            v >>= 7;
            len += 1;
        }
        len
    }
}

#[test]
fn decode_whole_buffer_as_message() {
    let bytes = [0x08u8, 0x96, 0x01];
    let m: Count = decode(&bytes).unwrap();
    assert_eq!(m, Count { n: 150 });
}

#[test]
fn message_round_trip() {
    let m = Count { n: 300 };
    let size = m.get_size();
    assert_eq!(size, 3);
    let mut w = Writer::new(BytesWriter::new(vec![0u8; size]));
    w.write_message(&m).unwrap();
    let buf = w.into_inner().into_inner();
    let got: Count = decode(&buf).unwrap();
    assert_eq!(got, m);
}

#[test]
fn nested_message_with_length_prefix() {
    let bytes = [0x0Au8, 0x03, 0x08, 0x96, 0x01, 0x20, 0x05];
    let mut r = BytesReader::from_bytes(&bytes);
    assert_eq!(r.next_tag(&bytes).unwrap(), 0x0A);
    let m: Count = r.read_message(&bytes).unwrap();
    assert_eq!(m, Count { n: 150 });
    // the outer scope continues just past the nested one
    assert_eq!(r.next_tag(&bytes).unwrap(), 0x20);
    assert_eq!(r.read_uint32(&bytes).unwrap(), 5);
    assert!(r.is_eof());
}

#[test]
fn nested_message_by_len() {
    let bytes = [0x08u8, 0x96, 0x01, 0x77];
    let mut r = BytesReader::from_bytes(&bytes);
    let m: Count = r.read_message_by_len(&bytes, 3).unwrap();
    assert_eq!(m, Count { n: 150 });
    assert_eq!(r.read_u8(&bytes).unwrap(), 0x77);
}

#[test]
fn nested_message_length_exceeds_remaining() {
    let bytes = [0x05u8, 0x08, 0x96];
    let mut r = BytesReader::from_bytes(&bytes);
    let got: Result<Count, Error> = r.read_message(&bytes);
    assert_eq!(got, Err(Error::UnexpectedEndOfBuffer));
}

#[test]
fn streaming_style_writes_settle_in_order() {
    let buf = written(7, |w| {
        w.write_u8(0xAB).unwrap();
        w.write_varint(300).unwrap();
        w.write_fixed32(1).unwrap();
    });
    assert_eq!(buf, vec![0xAB, 0xAC, 0x02, 0x01, 0x00, 0x00, 0x00]);
}
