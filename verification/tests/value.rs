use nbt::error::NBTErrorKind;
use nbt::error::NBTError;
use nbt::tag::Tag;
use nbt::value::Value;

#[test]
fn tag_bijection() {
    for id in 0u8..=12 {
        let tag = Tag::identify(id).unwrap();
        assert_eq!(tag.id(), id);
    }
    for id in 13u8..=255 {
        let err = Tag::identify(id).unwrap_err();
        assert_eq!(err.kind, NBTErrorKind::InvalidTagID(id));
    }
}

#[test]
fn kind_reflection() {
    assert_eq!(Value::End.tag(), Tag::End);
    assert_eq!(Value::Byte(0).tag(), Tag::Byte);
    assert_eq!(Value::Short(0).tag(), Tag::Short);
    assert_eq!(Value::Int(0).tag(), Tag::Int);
    assert_eq!(Value::Long(0).tag(), Tag::Long);
    assert_eq!(Value::Float(0).tag(), Tag::Float);
    assert_eq!(Value::Double(0).tag(), Tag::Double);
    assert_eq!(Value::ByteArray(Vec::new()).tag(), Tag::ByteArray);
    assert_eq!(Value::String(String::new()).tag(), Tag::String);
    assert_eq!(Value::List(Vec::new()).tag(), Tag::List);
    assert_eq!(Value::Compound(Vec::new()).tag(), Tag::Compound);
    assert_eq!(Value::IntArray(Vec::new()).tag(), Tag::IntArray);
    assert_eq!(Value::LongArray(Vec::new()).tag(), Tag::LongArray);
}

#[test]
fn insert_same_key_keeps_last() {
    let mut c = Value::compound();
    c.insert("k", Value::Int(1)).unwrap();
    c.insert("other", Value::Byte(9)).unwrap();
    c.insert("k", Value::Int(2)).unwrap();
    match c {
        Value::Compound(entries) => {
            let hits: Vec<_> = entries.iter().filter(|(k, _)| k == "k").collect();
            assert_eq!(hits.len(), 1);
            assert_eq!(*hits[0], (String::from("k"), Value::Int(2)));
            assert_eq!(entries.len(), 2);
            // replacement keeps the entry's original position
            assert_eq!(entries[0].0, "k");
        },
        other => panic!("unexpected value: {:?}", other),
    }
}

#[test]
fn insert_on_non_compound_fails() {
    let mut v = Value::Int(3);
    let err = v.insert("k", Value::Byte(0)).unwrap_err();
    assert!(matches!(err, NBTError { kind: NBTErrorKind::Custom(ref m) } if m == "Not a compound"));
    assert_eq!(v, Value::Int(3));
}

#[test]
fn push_and_extend() {
    let mut l = Value::list(4);
    l.push(Value::Byte(1)).unwrap();
    l.extend(vec![Value::Byte(2), Value::Byte(3)]).unwrap();
    assert_eq!(
        l,
        Value::list_from_iter(vec![Value::Byte(1), Value::Byte(2), Value::Byte(3)])
    );

    let mut not_list = Value::compound();
    let err = not_list.push(Value::Byte(1)).unwrap_err();
    assert!(matches!(err.kind, NBTErrorKind::Custom(ref m) if m == "Not a list"));
    let err = not_list.extend(vec![Value::Byte(1)]).unwrap_err();
    assert!(matches!(err.kind, NBTErrorKind::Custom(ref m) if m == "Not a list"));
}

#[test]
fn list_tag_and_as_list() {
    let l = Value::list_from_iter(vec![Value::Short(5)]);
    assert_eq!(l.list_tag(), Some(Tag::Short));
    assert_eq!(l.as_list().unwrap().len(), 1);

    let empty = Value::list(0);
    assert_eq!(empty.list_tag(), None);
    assert_eq!(empty.as_list().unwrap().len(), 0);

    let not_list = Value::Byte(0);
    assert_eq!(not_list.list_tag(), None);
    assert!(not_list.as_list().is_none());
}

#[test]
fn error_constructors_carry_their_kind() {
    assert_eq!(NBTError::io().kind, NBTErrorKind::IO);
    assert_eq!(NBTError::unexpected_eof().kind, NBTErrorKind::UnexpectedEOF);
    assert_eq!(NBTError::from_utf8().kind, NBTErrorKind::FromUTF8);
    assert_eq!(NBTError::invalid_tag_id(99).kind, NBTErrorKind::InvalidTagID(99));
    assert_eq!(
        NBTError::invalid_string_length(70000).kind,
        NBTErrorKind::InvalidStringLength(70000)
    );
    assert_eq!(
        NBTError::custom_msg("boom").kind,
        NBTErrorKind::Custom(String::from("boom"))
    );
    assert_eq!(
        NBTError::list_type_mismatch(3, Tag::Int, Tag::Byte).kind,
        NBTErrorKind::ListTypeMismatch(3, Tag::Int, Tag::Byte)
    );
}

#[test]
fn from_conversions() {
    assert_eq!(Value::from(true), Value::Byte(1));
    assert_eq!(Value::from(false), Value::Byte(0));
    assert_eq!(Value::from(7i16), Value::Short(7));
    assert_eq!(Value::from(7i32), Value::Int(7));
    assert_eq!(Value::from(7i64), Value::Long(7));
    assert_eq!(
        Value::from(String::from("s")),
        Value::String(String::from("s"))
    );
}

#[test]
fn as_list_mut_mutates() {
    let mut l = Value::list_from_iter(vec![Value::Byte(1)]);
    l.as_list_mut().unwrap().push(Value::Byte(2));
    assert_eq!(l, Value::list_from_iter(vec![Value::Byte(1), Value::Byte(2)]));
    let mut not_list = Value::Int(0);
    assert!(not_list.as_list_mut().is_none());
}
