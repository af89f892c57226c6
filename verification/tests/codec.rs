use nbt::codec::NBTCodec;
use nbt::error::NBTErrorKind;
use nbt::tag::Tag;
use nbt::value::Value;

#[test]
fn feature() {
    let a = NBTCodec::little_endian();

    let mut map = Value::compound();
    map.insert(
        "BSTVVL",
        Value::list_from_iter(vec![Value::Int(6969), Value::Int(696969)]),
    )
    .unwrap();

    let mut buf: Vec<u8> = Vec::with_capacity(14);

    a.write_tag(&mut buf, None, &map).unwrap();

    println!("{:?}", buf);

    let b = a.read_tag(&buf, 0);
    println!("{:?}", b);
}

#[test]
fn concrete_little_endian_bytes() {
    let codec = NBTCodec::little_endian();
    let value = Value::list_from_iter(vec![Value::Int(6969), Value::Int(696969)]);
    let mut buf: Vec<u8> = Vec::new();
    codec.write_tag(&mut buf, Some("BSTVVL"), &value).unwrap();
    let expected: Vec<u8> = vec![
        0x09, // List tag
        0x06, 0x00, // name length 6, little-endian
        0x42, 0x53, 0x54, 0x56, 0x56, 0x4C, // "BSTVVL"
        0x03, // element kind Int
        0x02, 0x00, 0x00, 0x00, // count 2, little-endian
        0x39, 0x1B, 0x00, 0x00, // 6969
        0x89, 0xA2, 0x0A, 0x00, // 696969
    ];
    assert_eq!(buf, expected);

    let ((name, decoded), end) = codec.read_tag(&buf, 0).unwrap();
    assert_eq!(name, Some(String::from("BSTVVL")));
    assert_eq!(
        decoded,
        Value::list_from_iter(vec![Value::Int(6969), Value::Int(696969)])
    );
    assert_eq!(end, expected.len());
}

#[test]
fn empty_list_round_trip_both_orders() {
    for codec in [NBTCodec::big_endian(), NBTCodec::little_endian()] {
        let mut buf: Vec<u8> = Vec::new();
        codec.write_tag(&mut buf, None, &Value::List(Vec::new())).unwrap();
        let ((name, decoded), _) = codec.read_tag(&buf, 0).unwrap();
        assert_eq!(name, None);
        assert_eq!(decoded, Value::List(Vec::new()));
    }
}

#[test]
fn heterogeneous_list_rejected() {
    let codec = NBTCodec::big_endian();
    let bad = Value::list_from_iter(vec![Value::Int(1), Value::Int(2), Value::Byte(3)]);
    let mut buf: Vec<u8> = Vec::new();
    let err = codec.write_value(&mut buf, &bad).unwrap_err();
    assert_eq!(
        err.kind,
        NBTErrorKind::ListTypeMismatch(2, Tag::Int, Tag::Byte)
    );
    assert!(buf.is_empty());
}

#[test]
fn list_count_negative_rejected() {
    let codec = NBTCodec::little_endian();
    // element kind Int, count -1 (0xFFFFFFFF), followed by stray bytes
    let buf: Vec<u8> = vec![0x03, 0xFF, 0xFF, 0xFF, 0xFF, 0x01, 0x02];
    let err = codec.read_list(&buf, 0).unwrap_err();
    assert_eq!(err.kind, NBTErrorKind::InvalidStringLength(0xFFFF_FFFF));
}

#[test]
fn list_count_too_large_rejected() {
    let codec = NBTCodec::big_endian();
    // element kind Byte, count 32768
    let buf: Vec<u8> = vec![0x01, 0x00, 0x00, 0x80, 0x00];
    let err = codec.read_list(&buf, 0).unwrap_err();
    assert_eq!(err.kind, NBTErrorKind::InvalidStringLength(32768));
}

#[test]
fn list_count_in_range_accepted() {
    let codec = NBTCodec::big_endian();
    let mut buf: Vec<u8> = vec![0x01, 0x00, 0x00, 0x00, 0x03, 7, 8, 9];
    let (decoded, end) = codec.read_list(&buf, 0).unwrap();
    assert_eq!(
        decoded,
        Value::list_from_iter(vec![Value::Byte(7), Value::Byte(8), Value::Byte(9)])
    );
    assert_eq!(end, 8);
    buf.truncate(6);
    let err = codec.read_list(&buf, 0).unwrap_err();
    assert_eq!(err.kind, NBTErrorKind::UnexpectedEOF);
}

#[test]
fn string_round_trip_utf8() {
    for codec in [NBTCodec::big_endian(), NBTCodec::little_endian()] {
        let text = "héllo, wörld ☃";
        let mut buf: Vec<u8> = Vec::new();
        codec.write_string(&mut buf, text).unwrap();
        assert_eq!(buf.len(), 2 + text.len());
        let (decoded, end) = codec.read_string(&buf, 0).unwrap();
        assert_eq!(decoded, text);
        assert_eq!(end, buf.len());
    }
}

#[test]
fn string_length_prefix_is_byte_length() {
    let codec = NBTCodec::big_endian();
    let text = "☃"; // three UTF-8 bytes
    let mut buf: Vec<u8> = Vec::new();
    codec.write_string(&mut buf, text).unwrap();
    assert_eq!(buf[0], 0x00);
    assert_eq!(buf[1], 0x03);
}

#[test]
fn malformed_utf8_rejected() {
    let codec = NBTCodec::big_endian();
    let buf: Vec<u8> = vec![0x00, 0x02, 0xFF, 0xFE];
    let err = codec.read_string(&buf, 0).unwrap_err();
    assert_eq!(err.kind, NBTErrorKind::FromUTF8);
}

#[test]
fn short_input_is_exhaustion() {
    let codec = NBTCodec::big_endian();
    let buf: Vec<u8> = vec![0x01, 0x02];
    let err = codec.read_u32(&buf, 0).unwrap_err();
    assert_eq!(err.kind, NBTErrorKind::UnexpectedEOF);
    let err = codec.read_string(&buf, 1).unwrap_err();
    assert_eq!(err.kind, NBTErrorKind::UnexpectedEOF);
}

#[test]
fn scalar_byte_orders() {
    let be = NBTCodec::big_endian();
    let le = NBTCodec::little_endian();
    let mut buf: Vec<u8> = Vec::new();
    be.write_i32(&mut buf, 0x0102_0304).unwrap();
    assert_eq!(buf, vec![0x01, 0x02, 0x03, 0x04]);
    buf.clear();
    le.write_i32(&mut buf, 0x0102_0304).unwrap();
    assert_eq!(buf, vec![0x04, 0x03, 0x02, 0x01]);
    buf.clear();
    be.write_i16(&mut buf, -2).unwrap();
    assert_eq!(buf, vec![0xFF, 0xFE]);
    let (v, _) = be.read_i16(&buf, 0).unwrap();
    assert_eq!(v, -2);
    buf.clear();
    le.write_i64(&mut buf, -1).unwrap();
    assert_eq!(buf, vec![0xFF; 8]);
    let (v, _) = le.read_i64(&buf, 0).unwrap();
    assert_eq!(v, -1);
}

#[test]
fn arrays_round_trip() {
    for codec in [NBTCodec::big_endian(), NBTCodec::little_endian()] {
        let mut buf: Vec<u8> = Vec::new();
        codec.write_byte_array(&mut buf, &[-1, 0, 127, -128]).unwrap();
        let (bytes, _) = codec.read_byte_array(&buf, 0).unwrap();
        assert_eq!(bytes, vec![-1, 0, 127, -128]);

        buf.clear();
        codec.write_int_array(&mut buf, &[1, -2, 300_000]).unwrap();
        let (ints, _) = codec.read_int_array(&buf, 0).unwrap();
        assert_eq!(ints, vec![1, -2, 300_000]);

        buf.clear();
        codec
            .write_long_array(&mut buf, &[i64::MIN, -5, i64::MAX])
            .unwrap();
        let (longs, _) = codec.read_long_array(&buf, 0).unwrap();
        assert_eq!(longs, vec![i64::MIN, -5, i64::MAX]);
    }
}

#[test]
fn byte_array_wire_shape() {
    let codec = NBTCodec::big_endian();
    let mut buf: Vec<u8> = Vec::new();
    codec.write_byte_array(&mut buf, &[-1, 2]).unwrap();
    assert_eq!(buf, vec![0x00, 0x00, 0x00, 0x02, 0xFF, 0x02]);
}

#[test]
fn nested_tree_round_trip() {
    for codec in [NBTCodec::big_endian(), NBTCodec::little_endian()] {
        let build = || {
            let mut inner = Value::compound();
            inner.insert("answer", Value::Int(42)).unwrap();
            inner.insert("name", Value::String(String::from("deep"))).unwrap();
            let mut root = Value::compound();
            root.insert("inner", inner).unwrap();
            root.insert("bytes", Value::ByteArray(vec![1, -1])).unwrap();
            root.insert(
                "longs",
                Value::list_from_iter(vec![Value::Long(-7), Value::Long(7)]),
            )
            .unwrap();
            root.insert("single", Value::Double(2.5f64.to_bits())).unwrap();
            root
        };
        let root = build();
        let mut buf: Vec<u8> = Vec::new();
        codec.write_tag(&mut buf, Some("root"), &root).unwrap();
        let ((name, decoded), end) = codec.read_tag(&buf, 0).unwrap();
        assert_eq!(name, Some(String::from("root")));
        assert_eq!(decoded, build());
        assert_eq!(end, buf.len());
    }
}

#[test]
fn float_bits_round_trip() {
    let codec = NBTCodec::big_endian();
    let v = Value::Float(1.5f32.to_bits());
    let mut buf: Vec<u8> = Vec::new();
    codec.write_tag(&mut buf, None, &v).unwrap();
    let ((_, decoded), _) = codec.read_tag(&buf, 0).unwrap();
    match decoded {
        Value::Float(bits) => assert_eq!(f32::from_bits(bits), 1.5f32),
        other => panic!("unexpected value: {:?}", other),
    }
}

#[test]
fn empty_name_reads_back_as_none() {
    let codec = NBTCodec::big_endian();
    let mut buf: Vec<u8> = Vec::new();
    codec.write_tag(&mut buf, Some(""), &Value::Byte(1)).unwrap();
    let ((name, _), _) = codec.read_tag(&buf, 0).unwrap();
    assert_eq!(name, None);

    buf.clear();
    codec.write_tag(&mut buf, None, &Value::Byte(1)).unwrap();
    let ((name, _), _) = codec.read_tag(&buf, 0).unwrap();
    assert_eq!(name, None);
}

#[test]
fn unknown_tag_byte_rejected() {
    let codec = NBTCodec::big_endian();
    // tag byte 13 is unassigned
    let buf: Vec<u8> = vec![13, 0x00, 0x00];
    let err = codec.read_tag(&buf, 0).unwrap_err();
    assert_eq!(err.kind, NBTErrorKind::InvalidTagID(13));
}

#[test]
fn structural_write_on_wrong_kind_rejected() {
    let codec = NBTCodec::big_endian();
    let mut buf: Vec<u8> = Vec::new();
    let err = codec.write_list(&mut buf, &Value::Byte(1)).unwrap_err();
    assert_eq!(err.kind, NBTErrorKind::InvalidTagID(1));
    let err = codec.write_compound(&mut buf, &Value::Short(2)).unwrap_err();
    assert_eq!(err.kind, NBTErrorKind::InvalidTagID(2));
}

#[test]
fn compound_duplicate_wire_keys_collapse_to_last() {
    let codec = NBTCodec::big_endian();
    // {a: Byte(1), a: Byte(2)} on the wire
    let buf: Vec<u8> = vec![
        0x01, 0x00, 0x01, b'a', 0x01, // Byte "a" = 1
        0x01, 0x00, 0x01, b'a', 0x02, // Byte "a" = 2
        0x00, // End
    ];
    let (decoded, end) = codec.read_compound(&buf, 0).unwrap();
    assert_eq!(end, buf.len());
    assert_eq!(
        decoded,
        Value::Compound(vec![(String::from("a"), Value::Byte(2))])
    );
}

#[test]
fn oversized_string_rejected_on_write() {
    let codec = NBTCodec::big_endian();
    let long = "x".repeat(65536);
    let mut buf: Vec<u8> = Vec::new();
    let err = codec.write_string(&mut buf, &long).unwrap_err();
    assert_eq!(err.kind, NBTErrorKind::InvalidStringLength(65536));
    let ok = "x".repeat(65535);
    codec.write_string(&mut buf, &ok).unwrap();
    assert_eq!(buf.len(), 2 + 65535);
}
