use bufcodec::Deserialize;
use bufcodec::Deserializer;
use bufcodec::Error;
use bufcodec::Serialize;
use bufcodec::Serializer;
use bufcodec::TryDeserialize;
use bufcodec::TrySerialize;

#[test]
fn round_trip_u8() {
    for v in [0u8, 1, 0x7F, u8::MAX] {
        let mut s = Serializer::new(16);
        s.store_u8(v);
        assert_eq!(s.len(), 1);
        let bytes = s.to_vec();
        let mut d = Deserializer::new(&bytes);
        assert_eq!(d.load_u8(), v);
        assert_eq!(d.cursor(), 1);
    }
}

#[test]
fn round_trip_u16() {
    for v in [0u16, 1, 0xABCD, u16::MAX] {
        let mut s = Serializer::new(16);
        s.store_u16le(v);
        assert_eq!(s.len(), 2);
        let bytes = s.to_vec();
        let mut d = Deserializer::new(&bytes);
        assert_eq!(d.load_u16le(), v);
        assert_eq!(d.cursor(), 2);
    }
}

#[test]
fn round_trip_u32() {
    for v in [0u32, 1, 0x12345678, u32::MAX] {
        let mut s = Serializer::new(16);
        s.store_u32le(v);
        assert_eq!(s.len(), 4);
        let bytes = s.to_vec();
        let mut d = Deserializer::new(&bytes);
        assert_eq!(d.load_u32le(), v);
        assert_eq!(d.cursor(), 4);
    }
}

#[test]
fn round_trip_u64() {
    for v in [0u64, 1, 0x0123_4567_89AB_CDEF, u64::MAX] {
        let mut s = Serializer::new(16);
        s.store_u64le(v);
        assert_eq!(s.len(), 8);
        let bytes = s.to_vec();
        let mut d = Deserializer::new(&bytes);
        assert_eq!(d.load_u64le(), v);
        assert_eq!(d.cursor(), 8);
    }
}

#[test]
fn round_trip_try_forms() {
    let mut s = Serializer::new(32);
    s.try_store_u8(0xAA).unwrap();
    s.try_store_u16le(0xBBCC).unwrap();
    s.try_store_u32le(0xDDEEFF00).unwrap();
    s.try_store_u64le(0x1122334455667788).unwrap();
    assert_eq!(s.len(), 15);
    let bytes = s.to_vec();
    let mut d = Deserializer::new(&bytes);
    assert_eq!(d.try_load_u8().unwrap(), 0xAA);
    assert_eq!(d.try_load_u16le().unwrap(), 0xBBCC);
    assert_eq!(d.try_load_u32le().unwrap(), 0xDDEEFF00);
    assert_eq!(d.try_load_u64le().unwrap(), 0x1122334455667788);
    assert_eq!(d.cursor(), 15);
    assert_eq!(d.remaining(), 0);
}

#[test]
fn little_endian_layout_u32() {
    let mut s = Serializer::new(4);
    s.store_u32le(0x12345678);
    assert_eq!(s.to_vec(), vec![0x78, 0x56, 0x34, 0x12]);
    let bytes = [0x78u8, 0x56, 0x34, 0x12];
    let mut d = Deserializer::new(&bytes);
    assert_eq!(d.load_u32le(), 0x12345678);
}

#[test]
fn exact_capacity_write_then_fail() {
    let mut s = Serializer::new(4);
    assert!(s.try_store_u32le(0xCAFEBABE).is_ok());
    assert_eq!(s.len(), 4);
    let e = s.try_store_u8(1).unwrap_err();
    assert_eq!(e, Error::TryStoreError("u8", 4, 4));
    assert_eq!(s.len(), 4);
}

#[test]
fn store_bounds_errors_leave_state() {
    let mut s = Serializer::new(3);
    assert_eq!(s.try_store_u32le(5).unwrap_err(), Error::TryStoreError("u32", 0, 3));
    assert_eq!(s.try_store_u64le(5).unwrap_err(), Error::TryStoreError("u64", 0, 3));
    assert_eq!(s.len(), 0);
    s.try_store_u16le(5).unwrap();
    assert_eq!(s.try_store_u16le(6).unwrap_err(), Error::TryStoreError("u16", 2, 3));
    assert_eq!(s.len(), 2);
}

#[test]
fn load_bounds_errors_leave_state() {
    let bytes = [1u8, 2, 3];
    let mut d = Deserializer::new(&bytes);
    assert_eq!(d.try_load_u32le().unwrap_err(), Error::TryFromSliceError);
    assert_eq!(d.try_load_u64le().unwrap_err(), Error::TryFromSliceError);
    assert_eq!(d.cursor(), 0);
    assert_eq!(d.try_load_u16le().unwrap(), 0x0201);
    assert_eq!(d.try_load_u16le().unwrap_err(), Error::TryFromSliceError);
    assert_eq!(d.cursor(), 2);
    assert_eq!(d.try_load_u8().unwrap(), 3);
    assert_eq!(d.try_load_u8().unwrap_err(), Error::TryFromSliceError);
    assert_eq!(d.cursor(), 3);
}

#[test]
fn deserializer_offset_and_set_cursor() {
    let bytes = [0u8; 10];
    let mut d = Deserializer::new(&bytes);
    d.try_offset(4).unwrap();
    assert_eq!(d.cursor(), 4);
    assert_eq!(d.remaining(), 6);
    let e = d.try_offset(7).unwrap_err();
    assert_eq!(e, Error::TryOffsetError(7, 4, 10));
    assert_eq!(d.cursor(), 4);
    d.try_set_cursor(10).unwrap();
    assert_eq!(d.cursor(), 10);
    let e = d.try_set_cursor(11).unwrap_err();
    assert_eq!(e, Error::TryOffsetError(11, 10, 10));
    assert_eq!(d.cursor(), 10);
    d.try_set_cursor(0).unwrap();
    assert_eq!(d.remaining(), 10);
}

#[test]
fn serializer_offset_bounds() {
    let mut s = Serializer::new(8);
    s.offset(3);
    assert_eq!(s.len(), 3);
    s.try_offset(5).unwrap();
    assert_eq!(s.len(), 8);
    let e = s.try_offset(1).unwrap_err();
    assert_eq!(e, Error::TryOffsetError(1, 8, 8));
    assert_eq!(s.len(), 8);
}

#[test]
fn offset_with_zeros_writes_zeros() {
    let mut s = Serializer::new(8);
    s.store_u32le(0xFFFFFFFF);
    let mut d = Serializer::new(8);
    d.store_u32le(0xFFFFFFFF);
    d.try_offset_with_zeros(4).unwrap();
    assert_eq!(d.len(), 8);
    assert_eq!(d.to_vec(), vec![0xFF, 0xFF, 0xFF, 0xFF, 0, 0, 0, 0]);
    let e = d.try_offset_with_zeros(1).unwrap_err();
    assert_eq!(e, Error::TryOffsetError(1, 8, 8));
    assert_eq!(d.len(), 8);
    s.offset_with_zeros(2);
    assert_eq!(s.len(), 6);
}

#[test]
fn alignment_rounds_up_to_multiple() {
    for start in 0usize..9 {
        let mut s = Serializer::new(32);
        s.offset(start);
        s.align_u32();
        let c = s.len();
        assert_eq!(c % 4, 0);
        assert!(start <= c && c < start + 4);
        let mut t = Serializer::new(32);
        t.offset(start);
        t.align_u64();
        let c = t.len();
        assert_eq!(c % 8, 0);
        assert!(start <= c && c < start + 8);
    }
}

#[test]
fn alignment_deserializer() {
    let bytes = [0u8; 16];
    for start in 0usize..9 {
        let mut d = Deserializer::new(&bytes);
        d.try_offset(start).unwrap();
        d.try_align_u32().unwrap();
        let c = d.cursor();
        assert_eq!(c % 4, 0);
        assert!(start <= c && c < start + 4);
        let mut d = Deserializer::new(&bytes);
        d.try_offset(start).unwrap();
        d.try_align(3).unwrap();
        let c = d.cursor();
        assert_eq!(c % 3, 0);
        assert!(start <= c && c < start + 3);
    }
}

#[test]
fn alignment_fails_past_end() {
    let bytes = [0u8; 6];
    let mut d = Deserializer::new(&bytes);
    d.try_offset(5).unwrap();
    assert!(d.try_align_u64().is_err());
    assert_eq!(d.cursor(), 5);
    let mut s = Serializer::new(6);
    s.offset(5);
    assert!(s.try_align_u64().is_err());
    assert_eq!(s.len(), 5);
    assert!(s.try_align_u32().is_err());
    assert_eq!(s.len(), 5);
}

#[test]
fn byte_run_round_trip() {
    let mut s = Serializer::new(10);
    s.try_store_u8_slice(&[9, 8, 7, 6]).unwrap();
    assert_eq!(s.len(), 4);
    let bytes = s.to_vec();
    let mut d = Deserializer::new(&bytes);
    let v = d.try_load_u8_vec(4).unwrap();
    assert_eq!(v, vec![9, 8, 7, 6]);
    assert_eq!(d.cursor(), 4);
}

#[test]
fn byte_run_bounds() {
    let mut s = Serializer::new(3);
    let e = s.try_store_u8_slice(&[1, 2, 3, 4]).unwrap_err();
    assert_eq!(e, Error::TryStoreSliceError(4, 0, 3));
    assert_eq!(s.len(), 0);
    let bytes = [1u8, 2];
    let mut d = Deserializer::new(&bytes);
    let e = d.try_load_u8_vec(3).unwrap_err();
    assert_eq!(e, Error::TryOffsetError(3, 0, 2));
    assert_eq!(d.cursor(), 0);
}

#[test]
fn unit_run_round_trip() {
    let mut s = Serializer::new(10);
    s.try_store_u16le_slice(&[0x1122, 0x3344]).unwrap();
    assert_eq!(s.len(), 4);
    assert_eq!(s.to_vec(), vec![0x22, 0x11, 0x44, 0x33]);
    let bytes = s.to_vec();
    let mut d = Deserializer::new(&bytes);
    let v = d.try_load_u16le_vec(2).unwrap();
    assert_eq!(v, vec![0x1122, 0x3344]);
    assert_eq!(d.cursor(), 4);
}

#[test]
fn unit_run_bounds() {
    let mut s = Serializer::new(3);
    let e = s.try_store_u16le_slice(&[1, 2]).unwrap_err();
    assert_eq!(e, Error::TryStoreSliceError(4, 0, 3));
    assert_eq!(s.len(), 0);
    let bytes = [1u8, 2, 3];
    let mut d = Deserializer::new(&bytes);
    let e = d.try_load_u16le_vec(2).unwrap_err();
    assert_eq!(e, Error::TryFromSliceError);
    assert_eq!(d.cursor(), 0);
}

#[test]
fn string_round_trip() {
    let text = String::from("Hello, world");
    let mut s = Serializer::new(64);
    s.try_store_utf16le_sz(&text).unwrap();
    assert_eq!(s.len(), 2 * (text.len() + 1));
    let bytes = s.to_vec();
    let mut d = Deserializer::new(&bytes);
    assert_eq!(d.try_load_utf16le_sz().unwrap(), text);
    assert_eq!(d.cursor(), 2 * (text.len() + 1));
}

#[test]
fn string_round_trip_empty() {
    let text = String::new();
    let mut s = Serializer::new(8);
    s.try_store_utf16le_sz(&text).unwrap();
    assert_eq!(s.len(), 2);
    assert_eq!(s.to_vec(), vec![0, 0]);
    let bytes = s.to_vec();
    let mut d = Deserializer::new(&bytes);
    assert_eq!(d.try_load_utf16le_sz().unwrap(), "");
    assert_eq!(d.cursor(), 2);
}

#[test]
fn string_store_bounds() {
    let text = String::from("abc");
    let mut s = Serializer::new(4);
    let e = s.try_store_utf16le_sz(&text).unwrap_err();
    assert_eq!(e, Error::TryStoreSliceError(8, 0, 4));
    assert_eq!(s.len(), 0);
}

#[test]
fn wide_character_is_truncated() {
    // a character above the 16-bit range loses its upper bits when
    // widened to one unit: the documented lossy behaviour
    let text = String::from("\u{10348}");
    let mut s = Serializer::new(16);
    s.try_store_utf16le_sz(&text).unwrap();
    assert_eq!(s.len(), 4);
    assert_eq!(s.to_vec(), vec![0x48, 0x03, 0, 0]);
    let bytes = s.to_vec();
    let mut d = Deserializer::new(&bytes);
    assert_eq!(d.try_load_utf16le_sz().unwrap(), "\u{0348}");
}

#[test]
fn terminator_found_at_position() {
    // units: 'H', 'i', 0, 'X' — the scan stops at the zero, consumes it,
    // and decodes exactly the units before it
    let bytes = [0x48u8, 0x00, 0x69, 0x00, 0x00, 0x00, 0x58, 0x00];
    let mut d = Deserializer::new(&bytes);
    assert_eq!(d.try_load_utf16le_sz().unwrap(), "Hi");
    assert_eq!(d.cursor(), 6);
    assert_eq!(d.remaining(), 2);
}

#[test]
fn terminator_missing() {
    let bytes = [0x41u8, 0x00];
    let mut d = Deserializer::new(&bytes);
    match d.try_load_utf16le_sz().unwrap_err() {
        Error::String(m) => assert_eq!(m, "utf16 terminator not found"),
        e => panic!("unexpected error {:?}", e),
    }
    assert_eq!(d.cursor(), 0);
}

#[test]
fn lone_surrogate_fails_decode() {
    // a lone high surrogate before the terminator is invalid UTF-16
    let bytes = [0x00u8, 0xD8, 0x00, 0x00];
    let mut d = Deserializer::new(&bytes);
    assert_eq!(d.try_load_utf16le_sz().unwrap_err(), Error::FromUtf16Error);
    assert_eq!(d.cursor(), 0);
}

#[test]
fn surrogate_pair_decodes() {
    // U+10348 encoded as the surrogate pair D800 DF48
    let bytes = [0x00u8, 0xD8, 0x48, 0xDF, 0x00, 0x00];
    let mut d = Deserializer::new(&bytes);
    assert_eq!(d.try_load_utf16le_sz().unwrap(), "\u{10348}");
    assert_eq!(d.cursor(), 6);
}

#[test]
fn as_slice_matches_to_vec() {
    let mut s = Serializer::new(8);
    s.store_u16le(0x0102);
    assert_eq!(s.as_slice(), &[0x02, 0x01]);
    assert_eq!(s.to_vec(), vec![0x02, 0x01]);
    assert_eq!(s.as_slice().len(), s.len());
}

#[test]
fn default_serializer_capacity() {
    let mut s = Serializer::default();
    assert_eq!(s.len(), 0);
    s.offset(4095);
    assert!(s.try_store_u8(1).is_ok());
    assert_eq!(s.len(), 4096);
    assert!(s.try_store_u8(1).is_err());
}

#[test]
fn generic_error_variant() {
    let e = Error::String(String::from("context"));
    assert_eq!(e, Error::String(String::from("context")));
    assert_ne!(e, Error::FromUtf16Error);
}

#[test]
fn free_functions_round_trip() {
    let mut buf = [0u8; 8];
    assert_eq!(bufcodec::store_u8(&mut buf, 0xAB), 1);
    assert_eq!(buf[0], 0xAB);
    assert_eq!(bufcodec::load_u8(&buf), 0xAB);

    assert_eq!(bufcodec::store_u16le(&mut buf, 0x1234), 2);
    assert_eq!(&buf[0..2], &[0x34, 0x12]);
    assert_eq!(bufcodec::load_u16le(&buf), 0x1234);

    assert_eq!(bufcodec::store_u32le(&mut buf, 0xDEADBEEF), 4);
    assert_eq!(&buf[0..4], &[0xEF, 0xBE, 0xAD, 0xDE]);
    assert_eq!(bufcodec::load_u32le(&buf), 0xDEADBEEF);

    assert_eq!(bufcodec::store_u64le(&mut buf, 0x0102030405060708), 8);
    assert_eq!(&buf, &[8, 7, 6, 5, 4, 3, 2, 1]);
    assert_eq!(bufcodec::load_u64le(&buf), 0x0102030405060708);
}

#[test]
fn free_store_leaves_tail() {
    let mut buf = [9u8; 4];
    bufcodec::store_u16le(&mut buf, 0xFFEE);
    assert_eq!(buf, [0xEE, 0xFF, 9, 9]);
}

struct Point {
    x: u32,
    y: u32,
}

impl Serialize for Point {
    fn serialize(&self, dest: &mut Serializer) {
        dest.store_u32le(self.x);
        dest.store_u32le(self.y);
    }
}

impl Deserialize for Point {
    fn deserialize(src: &mut Deserializer<'_>) -> Point {
        let x = src.load_u32le();
        let y = src.load_u32le();
        Point { x, y }
    }
}

impl TrySerialize for Point {
    type Error = Error;

    fn try_serialize(&self, dest: &mut Serializer) -> Result<(), Error> {
        dest.try_store_u32le(self.x)?;
        dest.try_store_u32le(self.y)?;
        Ok(())
    }
}

impl TryDeserialize for Point {
    type Error = Error;

    fn try_deserialize(src: &mut Deserializer<'_>) -> Result<Point, Error> {
        let x = src.try_load_u32le()?;
        let y = src.try_load_u32le()?;
        Ok(Point { x, y })
    }
}

#[test]
fn capability_traits_dispatch() {
    let p = Point { x: 7, y: 0xFFFF_0001 };
    let mut s = Serializer::new(16);
    s.store(&p);
    assert_eq!(s.len(), 8);
    let bytes = s.to_vec();
    let mut d = Deserializer::new(&bytes);
    let q: Point = d.load();
    assert_eq!((q.x, q.y), (7, 0xFFFF_0001));
}

#[test]
fn capability_traits_fallible_dispatch() {
    let p = Point { x: 1, y: 2 };
    let mut s = Serializer::new(8);
    s.try_store(&p).unwrap();
    assert_eq!(s.len(), 8);
    let bytes = s.to_vec();
    let mut d = Deserializer::new(&bytes);
    let q: Point = d.try_load().unwrap();
    assert_eq!((q.x, q.y), (1, 2));

    let mut small = Serializer::new(6);
    assert!(small.try_store(&p).is_err());
}
