use rmp::Marker;
use rmp_decode::{
    utf8_fallback, ByteStream, Deserializer, EnumAccess, Error, MapAccess, ReadRefReader,
    ReadSlice, Reference, SeqAccess, StrRef, Token, UnitVariantAccess, VariantAccess,
    DEFAULT_MAX_DEPTH,
};

struct Stream {
    data: Vec<u8>,
    at: usize,
}

impl ByteStream for Stream {
    fn read_exact_into(&mut self, buf: &mut [u8]) -> bool {
        if self.data.len() - self.at < buf.len() {
            return false;
        }
        buf.copy_from_slice(&self.data[self.at..self.at + buf.len()]);
        self.at += buf.len();
        true
    }
}

fn check(bytes: &[u8], expected: Result<Token<'_, '_>, Error>) {
    let mut de = Deserializer::from_read_ref(bytes);
    assert_eq!(de.decode_any(), expected);
}

#[test]
fn test_as_ref_reader() {
    let buf = [0, 1, 2, 3, 4, 5, 6, 7, 8, 9, 10];
    let mut rd = ReadRefReader::new(&buf);

    assert_eq!(rd.read_slice(1).unwrap(), Reference::Borrowed(&[0][..]));
    assert_eq!(rd.read_slice(6).unwrap(), Reference::Borrowed(&[1, 2, 3, 4, 5, 6][..]));
    assert!(rd.read_slice(5).is_err());
    assert_eq!(rd.read_slice(4).unwrap(), Reference::Borrowed(&[7, 8, 9, 10][..]));
}

#[test]
fn record_of_name_and_age() {
    let buf = [0x92, 0xa5, 0x42, 0x6f, 0x62, 0x62, 0x79, 0x08];
    let mut de = Deserializer::from_read_ref(&buf);
    assert_eq!(de.decode_any(), Ok(Token::ArrayLen(2)));
    let mut seq = SeqAccess::new(2);
    assert!(seq.next_element());
    assert_eq!(de.decode_any(), Ok(Token::Str(StrRef::Borrowed("Bobby"))));
    assert!(seq.next_element());
    assert_eq!(de.decode_any(), Ok(Token::U8(8)));
    assert!(!seq.next_element());
    de.end_container();
    assert_eq!(de.position(), 8);
}

#[test]
fn scalars_decode_as_written() {
    check(&[0xc0], Ok(Token::Unit));
    check(&[0xc3], Ok(Token::Bool(true)));
    check(&[0xc2], Ok(Token::Bool(false)));
    check(&[0x7f], Ok(Token::U8(127)));
    check(&[0xff], Ok(Token::I8(-1)));
    check(&[0xe0], Ok(Token::I8(-32)));
    check(&[0xcc, 0xc8], Ok(Token::U8(200)));
    check(&[0xcd, 0x12, 0x34], Ok(Token::U16(0x1234)));
    check(&[0xce, 0x12, 0x34, 0x56, 0x78], Ok(Token::U32(0x1234_5678)));
    check(&[0xcf, 0xff, 0xff, 0xff, 0xff, 0xff, 0xff, 0xff, 0xff], Ok(Token::U64(u64::MAX)));
    check(&[0xd0, 0x80], Ok(Token::I8(-128)));
    check(&[0xd1, 0xff, 0xfe], Ok(Token::I16(-2)));
    check(&[0xd2, 0x7f, 0xff, 0xff, 0xff], Ok(Token::I32(i32::MAX)));
    check(&[0xd3, 0x80, 0, 0, 0, 0, 0, 0, 0], Ok(Token::I64(i64::MIN)));
}

#[test]
fn floats_come_as_bit_patterns() {
    let buf = [0xca, 0x3f, 0x80, 0x00, 0x00];
    match Deserializer::from_read_ref(&buf).decode_any() {
        Ok(Token::F32(bits)) => assert_eq!(f32::from_bits(bits), 1.0f32),
        other => panic!("{:?}", other),
    }
    let buf = [0xcb, 0x40, 0x09, 0x21, 0xfb, 0x54, 0x44, 0x2d, 0x18];
    match Deserializer::from_read_ref(&buf).decode_any() {
        Ok(Token::F64(bits)) => assert_eq!(f64::from_bits(bits), std::f64::consts::PI),
        other => panic!("{:?}", other),
    }
}

#[test]
fn strings_and_bytes_at_every_width() {
    check(&[0xa0], Ok(Token::Str(StrRef::Borrowed(""))));
    check(&[0xd9, 0x02, b'h', b'i'], Ok(Token::Str(StrRef::Borrowed("hi"))));
    check(&[0xda, 0x00, 0x01, b'x'], Ok(Token::Str(StrRef::Borrowed("x"))));
    check(&[0xdb, 0x00, 0x00, 0x00, 0x02, b'o', b'k'], Ok(Token::Str(StrRef::Borrowed("ok"))));
    check(&[0xc4, 0x02, 0x00, 0xff], Ok(Token::Bytes(Reference::Borrowed(&[0x00, 0xff]))));
    check(&[0xc5, 0x00, 0x01, 0x07], Ok(Token::Bytes(Reference::Borrowed(&[0x07]))));
    check(&[0xc6, 0x00, 0x00, 0x00, 0x00], Ok(Token::Bytes(Reference::Borrowed(&[]))));
}

#[test]
fn containers_at_every_width() {
    check(&[0x9f], Ok(Token::ArrayLen(15)));
    check(&[0xdc, 0x01, 0x00], Ok(Token::ArrayLen(256)));
    check(&[0xdd, 0x00, 0x01, 0x00, 0x00], Ok(Token::ArrayLen(65536)));
    check(&[0x80], Ok(Token::MapLen(0)));
    check(&[0xde, 0x00, 0x10], Ok(Token::MapLen(16)));
    check(&[0xdf, 0xff, 0xff, 0xff, 0xff], Ok(Token::MapLen(u32::MAX)));
}

#[test]
fn map_pairs_decode_in_wire_order() {
    let buf = [0x82, 0xa1, b'a', 0x01, 0xa1, b'b', 0xc3];
    let mut de = Deserializer::from_read_ref(&buf);
    assert_eq!(de.decode_any(), Ok(Token::MapLen(2)));
    let mut map = MapAccess::new(2);
    assert_eq!(map.size_hint(), 2);
    assert!(map.next_key());
    assert_eq!(de.decode_any(), Ok(Token::Str(StrRef::Borrowed("a"))));
    assert_eq!(de.decode_any(), Ok(Token::U8(1)));
    assert!(map.next_key());
    assert_eq!(de.decode_any(), Ok(Token::Str(StrRef::Borrowed("b"))));
    assert_eq!(de.decode_any(), Ok(Token::Bool(true)));
    assert!(!map.next_key());
    assert_eq!(map.size_hint(), 0);
}

#[test]
fn borrowed_payloads_point_into_the_input() {
    let buf = [0xa3, b'a', b'b', b'c', 0xc4, 0x01, 0x09];
    let mut de = Deserializer::from_read_ref(&buf);
    match de.decode_any() {
        Ok(Token::Str(StrRef::Borrowed(s))) => {
            assert_eq!(s, "abc");
            assert_eq!(s.as_ptr(), buf[1..].as_ptr());
        }
        other => panic!("{:?}", other),
    }
    match de.decode_any() {
        Ok(Token::Bytes(Reference::Borrowed(b))) => {
            assert_eq!(b, &[0x09]);
            assert_eq!(b.as_ptr(), buf[6..].as_ptr());
        }
        other => panic!("{:?}", other),
    }
    assert_eq!(de.get_ref(), &buf[..]);
}

#[test]
fn invalid_utf8_falls_back_to_bytes() {
    check(&[0xa2, 0xff, 0xfe], Ok(Token::InvalidStr(Reference::Borrowed(&[0xff, 0xfe]))));
    assert_eq!(utf8_fallback(Ok(vec![0xffu8, 0xfe])), Ok(vec![0xff, 0xfe]));
    assert_eq!(
        utf8_fallback::<Vec<u8>>(Err(Error::Syntax("not bytes".to_string()))),
        Err(Error::Utf8Error)
    );
}

#[test]
fn option_reads_ahead_once() {
    let buf = [0x05];
    let mut de = Deserializer::from_read_ref(&buf);
    assert_eq!(de.decode_option(), Ok(true));
    assert_eq!(de.position(), 1);
    assert_eq!(de.decode_any(), Ok(Token::U8(5)));
    assert_eq!(de.position(), 1);

    let buf = [0xc0, 0x07];
    let mut de = Deserializer::from_read_ref(&buf);
    assert_eq!(de.decode_option(), Ok(false));
    assert_eq!(de.decode_any(), Ok(Token::U8(7)));

    let buf = [0x2a];
    let mut de = Deserializer::from_read_ref(&buf);
    assert_eq!(de.decode_option(), Ok(true));
    assert_eq!(de.decode_option(), Ok(true));
    assert_eq!(de.decode_any(), Ok(Token::U8(42)));
    assert_eq!(de.decode_any(), Err(Error::InvalidMarkerRead));
}

#[test]
fn enum_forms() {
    let buf = [0x00];
    let mut de = Deserializer::from_read_ref(&buf);
    match de.decode_enum() {
        Ok(EnumAccess::Unit(u)) => {
            assert_eq!(u.variant(), 0);
            assert_eq!(u.unit_variant(), Ok(()));
        }
        other => panic!("{:?}", other),
    }

    let buf = [0xcd, 0x01, 0x00];
    let mut de = Deserializer::from_read_ref(&buf);
    match de.decode_enum() {
        Ok(EnumAccess::Unit(u)) => assert_eq!(u.variant(), 256),
        other => panic!("{:?}", other),
    }

    let buf = [0x81, 0x00, 0x92, 0x01, 0x02];
    let mut de = Deserializer::from_read_ref(&buf);
    assert!(matches!(de.decode_enum(), Ok(EnumAccess::Keyed(_))));
    assert_eq!(de.decode_any(), Ok(Token::U8(0)));
    assert_eq!(de.decode_any(), Ok(Token::ArrayLen(2)));
    assert_eq!(de.decode_any(), Ok(Token::U8(1)));
    assert_eq!(de.decode_any(), Ok(Token::U8(2)));

    let buf = [0x82, 0x00, 0xc0, 0x01, 0xc0];
    let mut de = Deserializer::from_read_ref(&buf);
    assert_eq!(de.decode_enum().err(), Some(Error::TypeMismatch(Marker::FixMap(2))));

    let buf = [0xa1, b'x'];
    let mut de = Deserializer::from_read_ref(&buf);
    assert_eq!(de.decode_enum().err(), Some(Error::TypeMismatch(Marker::FixStr(1))));
}

#[test]
fn keyed_unit_variant_reads_an_empty_array() {
    let buf = [0x81, 0x01, 0x90, 0xc3];
    let mut de = Deserializer::from_read_ref(&buf);
    match de.decode_enum() {
        Ok(EnumAccess::Keyed(v)) => {
            assert_eq!(de.decode_any(), Ok(Token::U8(1)));
            assert_eq!(v.unit_variant(&mut de), Ok(()));
        }
        other => panic!("{:?}", other),
    }
    de.end_container();
    assert_eq!(de.decode_any(), Ok(Token::Bool(true)));

    let buf = [0xc0];
    let mut de = Deserializer::from_read_ref(&buf);
    assert_eq!(VariantAccess::new().unit_variant(&mut de), Err(Error::TypeMismatch(Marker::Null)));
}

#[test]
fn unit_variant_refuses_payloads() {
    assert_eq!(
        UnitVariantAccess::new(3).newtype_variant(),
        Err(Error::Uncategorized("expected a unit variant, got a newtype variant".to_string()))
    );
    assert_eq!(
        UnitVariantAccess::new(3).tuple_variant(2),
        Err(Error::Uncategorized("expected a unit variant, got a tuple variant".to_string()))
    );
    assert_eq!(
        UnitVariantAccess::new(3).struct_variant(2),
        Err(Error::Uncategorized("expected a unit variant, got a struct variant".to_string()))
    );
}

#[test]
fn cursors_are_single_pass() {
    let mut seq = SeqAccess::new(1);
    assert_eq!(seq.size_hint(), 1);
    assert!(seq.next_element());
    assert!(!seq.next_element());
    assert!(!seq.next_element());
    assert_eq!(seq.size_hint(), 0);
    assert!(!SeqAccess::new(0).next_element());

    let buf = [0x92, 0x01, 0x02, 0x03];
    let mut de = Deserializer::from_read_ref(&buf);
    assert_eq!(de.decode_any(), Ok(Token::ArrayLen(2)));
    let mut seq = SeqAccess::new(2);
    assert!(seq.next_element());
    assert_eq!(de.decode_any(), Ok(Token::U8(1)));
    assert_eq!(de.position(), 2);
}

#[test]
fn slices_past_the_end_fail() {
    let buf = [1, 2, 3];
    let mut rd = ReadRefReader::new(&buf);
    assert_eq!(rd.read_slice(4), Err(Error::InvalidDataRead));
    assert_eq!(rd.position(), 0);
    assert_eq!(rd.read_slice(3), Ok(Reference::Borrowed(&[1, 2, 3][..])));
    assert_eq!(rd.read_slice(1), Err(Error::InvalidDataRead));
    assert_eq!(rd.read_slice(0), Ok(Reference::Borrowed(&[][..])));

    let mut rd = ReadRefReader::new(&buf);
    let mut out = [0u8; 2];
    assert!(rd.read_exact_into(&mut out));
    assert_eq!(out, [1, 2]);
    assert!(!rd.read_exact_into(&mut out));
}

#[test]
fn each_error_kind() {
    check(&[], Err(Error::InvalidMarkerRead));
    check(&[0xcd, 0x01], Err(Error::InvalidDataRead));
    check(&[0xa3, b'a'], Err(Error::InvalidDataRead));
    check(&[0xdc, 0x00], Err(Error::InvalidDataRead));
    check(&[0xc1], Err(Error::TypeMismatch(Marker::Reserved)));
    check(&[0xd4, 0x01, 0x02], Err(Error::TypeMismatch(Marker::FixExt1)));
    check(&[0xc7, 0x00, 0x01], Err(Error::TypeMismatch(Marker::Ext8)));
}

#[test]
fn nesting_depth_is_enforced() {
    let buf = [0x91, 0x91, 0x01];
    let mut de = Deserializer::from_read_ref(&buf);
    de.set_max_depth(1);
    assert_eq!(de.decode_any(), Ok(Token::ArrayLen(1)));
    assert_eq!(de.decode_any(), Err(Error::DepthLimitExceeded));

    let buf = [0x91, 0x01, 0x91, 0x02];
    let mut de = Deserializer::from_read_ref(&buf);
    de.set_max_depth(1);
    assert_eq!(de.decode_any(), Ok(Token::ArrayLen(1)));
    assert_eq!(de.decode_any(), Ok(Token::U8(1)));
    de.end_container();
    assert_eq!(de.decode_any(), Ok(Token::ArrayLen(1)));

    let buf = [0x81];
    let mut de = Deserializer::from_read_ref(&buf);
    de.set_max_depth(0);
    assert_eq!(de.decode_enum().err(), Some(Error::DepthLimitExceeded));
    assert_eq!(DEFAULT_MAX_DEPTH, 1024);
}

#[test]
fn stream_source_copies() {
    let stream = Stream { data: vec![0xa2, b'h', b'i', 0xc4, 0x01, 0xaa, 0xcd, 0x01], at: 0 };
    let mut de = Deserializer::new(stream);
    assert_eq!(de.decode_any(), Ok(Token::Str(StrRef::Copied("hi"))));
    assert_eq!(de.decode_any(), Ok(Token::Bytes(Reference::Copied(&[0xaa]))));
    assert_eq!(de.decode_any(), Err(Error::InvalidDataRead));
    assert_eq!(de.get_ref().at, 7);
    de.get_mut().at = 0;
    assert_eq!(de.decode_any(), Ok(Token::Str(StrRef::Copied("hi"))));
    let stream = de.into_inner();
    assert_eq!(stream.at, 3);

    let empty = Stream { data: vec![], at: 0 };
    let mut de = Deserializer::from_read(empty);
    assert_eq!(de.decode_any(), Err(Error::InvalidMarkerRead));
}
