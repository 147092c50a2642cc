use albion_packets::cursor::{
    read_compressed_int32, read_compressed_int64, read_compressed_uint32, read_compressed_uint64,
    read_string, Cursor,
};
use albion_packets::deserializer::{
    deserialize, deserialize_parameter_table, read_parameter_table, keys_equal, values_equal, PhotonValue,
};

fn read_u32_at(bytes: &[u8]) -> (u32, usize) {
    let mut c = Cursor::new(bytes);
    let v = read_compressed_uint32(&mut c);
    (v, c.position())
}

fn value(tc: u8, bytes: &[u8]) -> (PhotonValue, usize) {
    let mut c = Cursor::new(bytes);
    let v = deserialize(&mut c, tc);
    (v, c.position())
}

fn leb128(mut v: u64) -> Vec<u8> {
    let mut out = Vec::new();
    while v >= 128 {
        out.push((v % 128) as u8 | 0x80);
        v /= 128;
    }
    out.push(v as u8);
    out
}

#[test]
fn compressed_values_read_back_as_encoded() {
    for v in [0u32, 1, 127, 128, 300, 16_383, 16_384, 0x0fff_ffff, 0x1000_0000, u32::MAX] {
        let mut bytes = leb128(v as u64);
        let n = bytes.len();
        bytes.extend([0xff, 0x01]);
        let mut c = Cursor::new(&bytes);
        assert_eq!(read_compressed_uint32(&mut c), v);
        assert_eq!(c.position(), n);
    }
    for v in [0u64, 1, 128, u32::MAX as u64 + 1, 1 << 62, u64::MAX] {
        let mut bytes = leb128(v);
        let n = bytes.len();
        bytes.push(0x80);
        let mut c = Cursor::new(&bytes);
        assert_eq!(read_compressed_uint64(&mut c), v);
        assert_eq!(c.position(), n);
    }
    for x in [0i32, 1, -1, 63, -64, 64, i32::MAX, i32::MIN] {
        let z = ((x << 1) ^ (x >> 31)) as u32;
        let bytes = leb128(z as u64);
        let mut c = Cursor::new(&bytes);
        assert_eq!(read_compressed_int32(&mut c), x);
        assert_eq!(c.position(), bytes.len());
    }
    for x in [0i64, -1, i64::MAX, i64::MIN, 1 << 40] {
        let z = ((x << 1) ^ (x >> 63)) as u64;
        let bytes = leb128(z);
        let mut c = Cursor::new(&bytes);
        assert_eq!(read_compressed_int64(&mut c), x);
        assert_eq!(c.position(), bytes.len());
    }
}

#[test]
fn compressed_uint32_single_byte() {
    assert_eq!(read_u32_at(&[0x05]), (5, 1));
    assert_eq!(read_u32_at(&[0x00, 0x99]), (0, 1));
}

#[test]
fn compressed_uint32_two_bytes() {
    assert_eq!(read_u32_at(&[0xAC, 0x02]), (300, 2));
}

#[test]
fn compressed_uint32_max() {
    assert_eq!(read_u32_at(&[0xFF, 0xFF, 0xFF, 0xFF, 0x0F]), (u32::MAX, 5));
    // The fifth group keeps only its low four bits.
    assert_eq!(read_u32_at(&[0xFF, 0xFF, 0xFF, 0xFF, 0x7F]), (u32::MAX, 5));
    assert_eq!(read_u32_at(&[0x80, 0x80, 0x80, 0x80, 0x01]), (1 << 28, 5));
}

#[test]
fn compressed_uint32_cut_off_is_zero_at_end() {
    assert_eq!(read_u32_at(&[0x80]), (0, 1));
    assert_eq!(read_u32_at(&[]), (0, 0));
}

#[test]
fn compressed_uint32_too_long_is_zero() {
    assert_eq!(read_u32_at(&[0x80, 0x80, 0x80, 0x80, 0x80, 0x01]), (0, 5));
}

#[test]
fn compressed_uint64_max_and_too_long() {
    let mut bytes = vec![0xFFu8; 9];
    bytes.push(0x01);
    let mut c = Cursor::new(&bytes);
    assert_eq!(read_compressed_uint64(&mut c), u64::MAX);
    assert_eq!(c.position(), 10);
    let long = [0x80u8; 11];
    let mut c = Cursor::new(&long);
    assert_eq!(read_compressed_uint64(&mut c), 0);
    assert_eq!(c.position(), 10);
}

#[test]
fn compressed_int32_zigzag() {
    let cases: [(&[u8], i32); 5] = [(&[0x00], 0), (&[0x01], -1), (&[0x02], 1), (&[0x03], -2), (&[0xFE, 0xFF, 0xFF, 0xFF, 0x0F], i32::MAX)];
    for (bytes, expected) in cases {
        let mut c = Cursor::new(bytes);
        assert_eq!(read_compressed_int32(&mut c), expected);
    }
    let mut c = Cursor::new(&[0xFF, 0xFF, 0xFF, 0xFF, 0x0F]);
    assert_eq!(read_compressed_int32(&mut c), i32::MIN);
}

#[test]
fn compressed_int64_zigzag() {
    let mut c = Cursor::new(&[0x01]);
    assert_eq!(read_compressed_int64(&mut c), -1);
    let mut c = Cursor::new(&[0x04]);
    assert_eq!(read_compressed_int64(&mut c), 2);
}

#[test]
fn strings() {
    let mut c = Cursor::new(&[0x02, b'h', b'i', 0x33]);
    assert_eq!(read_string(&mut c), "hi");
    assert_eq!(c.position(), 3);
    // A length past the end gives the empty string and consumes only the length.
    let mut c = Cursor::new(&[0x05, b'a']);
    assert_eq!(read_string(&mut c), "");
    assert_eq!(c.position(), 1);
    let mut c = Cursor::new(&[0x00, b'a']);
    assert_eq!(read_string(&mut c), "");
    assert_eq!(c.position(), 1);
    // Invalid UTF-8 becomes the replacement character.
    let mut c = Cursor::new(&[0x01, 0xFF]);
    assert_eq!(read_string(&mut c), "\u{FFFD}");
    assert_eq!(c.position(), 2);
}

#[test]
fn scalars() {
    assert_eq!(value(2, &[1]), (PhotonValue::Bool(true), 1));
    assert_eq!(value(2, &[]), (PhotonValue::Bool(false), 0));
    assert_eq!(value(3, &[200]), (PhotonValue::Byte(200), 1));
    assert_eq!(value(4, &[0x34, 0x12]), (PhotonValue::Short(0x1234), 2));
    assert_eq!(value(4, &[0xFF, 0xFF]), (PhotonValue::Short(-1), 2));
    // A short read with one byte left gives 0 and moves to the end.
    assert_eq!(value(4, &[0x34]), (PhotonValue::Short(0), 1));
    assert_eq!(value(5, &[0, 0, 0x80, 0x3F]), (PhotonValue::Float(1.0f32.to_bits()), 4));
    assert_eq!(value(6, &[0, 0, 0, 0, 0, 0, 0xF0, 0x3F]), (PhotonValue::Double(1.0f64.to_bits()), 8));
    assert_eq!(value(7, &[0x01, b'x']), (PhotonValue::String("x".to_string()), 2));
    assert_eq!(value(9, &[0x03]), (PhotonValue::Int(-2), 1));
    assert_eq!(value(10, &[0x04]), (PhotonValue::Long(2), 1));
    assert_eq!(value(11, &[5]), (PhotonValue::Int(5), 1));
    assert_eq!(value(12, &[5]), (PhotonValue::Int(-5), 1));
    assert_eq!(value(13, &[0x34, 0x12]), (PhotonValue::Int(0x1234), 2));
    assert_eq!(value(14, &[0x34, 0x12]), (PhotonValue::Int(-0x1234), 2));
    assert_eq!(value(15, &[7]), (PhotonValue::Long(7), 1));
    assert_eq!(value(16, &[7]), (PhotonValue::Long(-7), 1));
    assert_eq!(value(17, &[0xFF, 0xFF]), (PhotonValue::Long(65535), 2));
    assert_eq!(value(18, &[0xFF, 0xFF]), (PhotonValue::Long(-65535), 2));
}

#[test]
fn constants_consume_nothing() {
    let data = [0xAAu8];
    assert_eq!(value(0, &data), (PhotonValue::Null, 0));
    assert_eq!(value(8, &data), (PhotonValue::Null, 0));
    assert_eq!(value(27, &data), (PhotonValue::Bool(false), 0));
    assert_eq!(value(28, &data), (PhotonValue::Bool(true), 0));
    assert_eq!(value(29, &data), (PhotonValue::Short(0), 0));
    assert_eq!(value(30, &data), (PhotonValue::Int(0), 0));
    assert_eq!(value(31, &data), (PhotonValue::Long(0), 0));
    assert_eq!(value(32, &data), (PhotonValue::Float(0), 0));
    assert_eq!(value(33, &data), (PhotonValue::Double(0), 0));
    assert_eq!(value(34, &data), (PhotonValue::Byte(0), 0));
    assert_eq!(value(22, &data), (PhotonValue::Null, 0));
    assert_eq!(value(35, &data), (PhotonValue::Null, 0));
}

#[test]
fn typed_bool_array() {
    assert_eq!(
        value(0x42, &[0x03, 0b101]),
        (PhotonValue::Array(vec![PhotonValue::Bool(true), PhotonValue::Bool(false), PhotonValue::Bool(true)]), 2)
    );
    // Missing packed bytes read as zeros.
    assert_eq!(value(0x42, &[0x02]), (PhotonValue::Array(vec![PhotonValue::Bool(false), PhotonValue::Bool(false)]), 1));
}

#[test]
fn typed_byte_array() {
    assert_eq!(value(0x43, &[0x02, 7, 9]), (PhotonValue::Array(vec![PhotonValue::Byte(7), PhotonValue::Byte(9)]), 3));
    assert_eq!(
        value(0x43, &[0x03, 7]),
        (PhotonValue::Array(vec![PhotonValue::Byte(0), PhotonValue::Byte(0), PhotonValue::Byte(0)]), 2)
    );
}

#[test]
fn typed_arrays_of_other_elements() {
    assert_eq!(value(0x4B, &[0x02, 5, 6]), (PhotonValue::Array(vec![PhotonValue::Int(5), PhotonValue::Int(6)]), 3));
    assert_eq!(
        value(0x47, &[0x02, 0x01, b'a', 0x01, b'b']),
        (PhotonValue::Array(vec![PhotonValue::String("a".to_string()), PhotonValue::String("b".to_string())]), 5)
    );
    assert_eq!(
        value(0x53, &[0x02, 0x09, 0x01, 0xAA, 0x00]),
        (
            PhotonValue::Array(vec![
                PhotonValue::Custom { id: 9, data: vec![0xAA] },
                PhotonValue::Custom { id: 9, data: vec![] },
            ]),
            5
        )
    );
}

#[test]
fn nested_array() {
    assert_eq!(value(0x40, &[0x02, 0x03, 7, 9]), (PhotonValue::Array(vec![PhotonValue::Byte(7), PhotonValue::Byte(9)]), 4));
    assert_eq!(value(0x40, &[0x00, 0x03]), (PhotonValue::Array(vec![]), 2));
}

#[test]
fn custom_values() {
    assert_eq!(value(0x81, &[0x02, 0xAA, 0xBB]), (PhotonValue::Custom { id: 1, data: vec![0xAA, 0xBB] }, 3));
    // A slim value whose size runs past the end takes what remains.
    assert_eq!(value(0x81, &[0x05, 0xAA]), (PhotonValue::Custom { id: 1, data: vec![0xAA] }, 2));
    assert_eq!(value(19, &[0x07, 0x01, 0xAA]), (PhotonValue::Custom { id: 7, data: vec![0xAA] }, 3));
    // A non-slim value whose size runs past the end is Null.
    assert_eq!(value(19, &[0x07, 0x05, 0xAA]), (PhotonValue::Null, 2));
}

#[test]
fn dictionary_entries_in_order() {
    let bytes = [3, 0, 2, 7, 1, 0x01, b'a', 3, 2, 9];
    let (v, pos) = value(20, &bytes);
    assert_eq!(pos, bytes.len());
    assert_eq!(
        v,
        PhotonValue::Dictionary(vec![
            (PhotonValue::Byte(1), PhotonValue::String("a".to_string())),
            (PhotonValue::Byte(2), PhotonValue::Byte(9)),
        ])
    );
    match &v {
        PhotonValue::Dictionary(e) => assert!(matches!(e[0], (PhotonValue::Byte(1), _)) && matches!(e[1], (PhotonValue::Byte(2), _))),
        other => panic!("unexpected {:?}", other),
    }
    let (h, _) = value(21, &[3, 3, 1, 4, 5]);
    assert_eq!(h, PhotonValue::Dictionary(vec![(PhotonValue::Byte(4), PhotonValue::Byte(5))]));
}

#[test]
fn dictionary_repeated_key_keeps_last_value() {
    let bytes = [3, 3, 3, 1, 10, 2, 20, 1, 30];
    let (v, pos) = value(20, &bytes);
    assert_eq!(pos, bytes.len());
    assert_eq!(
        v,
        PhotonValue::Dictionary(vec![
            (PhotonValue::Byte(1), PhotonValue::Byte(30)),
            (PhotonValue::Byte(2), PhotonValue::Byte(20)),
        ])
    );
}

#[test]
fn float_keys_are_told_apart_by_bits_and_nan_is_never_the_same_key() {
    let nan = [0x00, 0x00, 0xc0, 0x7f];
    let one = [0x00, 0x00, 0x80, 0x3f];
    let zero = [0x00, 0x00, 0x00, 0x00];
    let neg_zero = [0x00, 0x00, 0x00, 0x80];
    let table = |k1: [u8; 4], k2: [u8; 4]| {
        let mut bytes = vec![5, 3, 2];
        bytes.extend(k1);
        bytes.push(1);
        bytes.extend(k2);
        bytes.push(2);
        value(20, &bytes).0
    };
    assert_eq!(table(one, one), PhotonValue::Dictionary(vec![(PhotonValue::Float(0x3f80_0000), PhotonValue::Byte(2))]));
    match table(nan, nan) {
        PhotonValue::Dictionary(e) => {
            assert_eq!(e.len(), 2);
            assert!(matches!(e[0], (PhotonValue::Float(0x7fc0_0000), PhotonValue::Byte(1))));
            assert!(matches!(e[1], (PhotonValue::Float(0x7fc0_0000), PhotonValue::Byte(2))));
        }
        other => panic!("unexpected {:?}", other),
    }
    match table(zero, neg_zero) {
        PhotonValue::Dictionary(e) => {
            assert_eq!(e.len(), 2);
            assert!(matches!(e[0], (PhotonValue::Float(0), PhotonValue::Byte(1))));
            assert!(matches!(e[1], (PhotonValue::Float(0x8000_0000), PhotonValue::Byte(2))));
        }
        other => panic!("unexpected {:?}", other),
    }
}

#[test]
fn dictionary_keys_with_the_same_entries_in_another_order_are_one_key() {
    let bytes = [20, 3, 2, 3, 3, 2, 1, 10, 2, 20, 7, 3, 3, 2, 2, 20, 1, 10, 8];
    let (v, pos) = value(20, &bytes);
    assert_eq!(pos, bytes.len());
    let first = PhotonValue::Dictionary(vec![
        (PhotonValue::Byte(1), PhotonValue::Byte(10)),
        (PhotonValue::Byte(2), PhotonValue::Byte(20)),
    ]);
    assert_eq!(v, PhotonValue::Dictionary(vec![(first, PhotonValue::Byte(8))]));
}

#[test]
fn equality_is_numeric_and_dictionaries_compare_as_maps() {
    assert_eq!(PhotonValue::Float(0), PhotonValue::Float(0x8000_0000));
    assert_ne!(PhotonValue::Double(0x7ff8_0000_0000_0000), PhotonValue::Double(0x7ff8_0000_0000_0000));
    let a = PhotonValue::Dictionary(vec![
        (PhotonValue::Byte(1), PhotonValue::Int(5)),
        (PhotonValue::Byte(2), PhotonValue::Int(6)),
    ]);
    let b = PhotonValue::Dictionary(vec![
        (PhotonValue::Byte(2), PhotonValue::Int(6)),
        (PhotonValue::Byte(1), PhotonValue::Int(5)),
    ]);
    assert_eq!(a, b);
    assert_ne!(a, PhotonValue::Dictionary(vec![(PhotonValue::Byte(1), PhotonValue::Int(5))]));
}

#[test]
fn clone_keeps_the_value() {
    let (v, _) = value(26, &[7, 2, 1, 3, 5, 2, 0x43, 1, 0x41]);
    let c = v.clone();
    assert_eq!(c, v);
    match (&v, &c) {
        (PhotonValue::EventData { code: 7, params: p }, PhotonValue::EventData { code: 7, params: q }) => {
            assert_eq!(p.len(), 2);
            assert_eq!(p.get(&2), q.get(&2));
            assert!(matches!(q.get(&2), Some(PhotonValue::Array(a)) if a.len() == 1));
        }
        other => panic!("unexpected {:?}", other),
    }
}

#[test]
fn numbers_compare_numerically() {
    assert!(values_equal(&PhotonValue::Float(0), &PhotonValue::Float(0x8000_0000)));
    assert!(!values_equal(&PhotonValue::Float(0x7fc0_0000), &PhotonValue::Float(0x7fc0_0000)));
    assert!(values_equal(&PhotonValue::Double(1u64 << 63), &PhotonValue::Double(0)));
    assert!(!keys_equal(&PhotonValue::Float(0), &PhotonValue::Float(0x8000_0000)));
    assert!(keys_equal(&PhotonValue::Float(0x3f80_0000), &PhotonValue::Float(0x3f80_0000)));
}

#[test]
fn equality_of_values() {
    let a = PhotonValue::Array(vec![PhotonValue::Int(1), PhotonValue::String("x".to_string())]);
    let b = PhotonValue::Array(vec![PhotonValue::Int(1), PhotonValue::String("x".to_string())]);
    let c = PhotonValue::Array(vec![PhotonValue::Int(1), PhotonValue::String("y".to_string())]);
    assert!(values_equal(&a, &b));
    assert!(!values_equal(&a, &c));
    assert!(!values_equal(&PhotonValue::Int(1), &PhotonValue::Long(1)));
    let (p, _) = value(26, &[7, 1, 1, 3, 5]);
    let (q, _) = value(26, &[7, 1, 1, 3, 5]);
    let (r, _) = value(26, &[7, 1, 1, 3, 6]);
    assert!(values_equal(&p, &q));
    assert!(!values_equal(&p, &r));
}

#[test]
fn object_array() {
    assert_eq!(value(23, &[2, 3, 9, 28]), (PhotonValue::ObjectArray(vec![PhotonValue::Byte(9), PhotonValue::Bool(true)]), 4));
}

#[test]
fn nested_operations() {
    let (v, pos) = value(24, &[5, 1, 1, 3, 42]);
    assert_eq!(pos, 5);
    match v {
        PhotonValue::OperationRequest { op_code, params } => {
            assert_eq!(op_code, 5);
            assert_eq!(params.len(), 1);
            assert_eq!(params.get(&1), Some(&PhotonValue::Byte(42)));
        }
        other => panic!("unexpected {:?}", other),
    }
    let (v, pos) = value(25, &[5, 0x01, 0x00, 7, 0x01, b'x', 0]);
    assert_eq!(pos, 7);
    match v {
        PhotonValue::OperationResponse { op_code, return_code, debug_message, params } => {
            assert_eq!((op_code, return_code, debug_message.as_str(), params.len()), (5, 1, "x", 0));
        }
        other => panic!("unexpected {:?}", other),
    }
    let (v, _) = value(26, &[9, 1, 2, 28]);
    match v {
        PhotonValue::EventData { code, params } => {
            assert_eq!(code, 9);
            assert_eq!(params.get(&2), Some(&PhotonValue::Bool(true)));
        }
        other => panic!("unexpected {:?}", other),
    }
}

#[test]
fn parameter_table_later_key_wins() {
    let params = deserialize_parameter_table(&[2, 1, 3, 1, 1, 3, 2]);
    assert_eq!(params.len(), 1);
    assert_eq!(params.get(&1), Some(&PhotonValue::Byte(2)));
}

#[test]
fn parameter_table_stops_when_cut_off() {
    let params = deserialize_parameter_table(&[3, 1, 3, 5, 2]);
    assert_eq!(params.len(), 1);
    assert_eq!(params.get(&1), Some(&PhotonValue::Byte(5)));
    let mut c = Cursor::new(&[3, 1, 3, 5, 2]);
    let _ = read_parameter_table(&mut c);
    assert_eq!(c.position(), 5);
}

#[test]
fn positions_never_pass_the_end() {
    for tc in 0u8..=255 {
        for bytes in [&[][..], &[0xFF][..], &[0x85, 0x01, 0x02][..], &[0x02, 0x81, 0x02, 0x03][..]] {
            let (_, pos) = value(tc, bytes);
            assert!(pos <= bytes.len());
        }
    }
}
