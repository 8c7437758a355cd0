use bson::encode::EncodeError;
use bson::ser::{ArraySerializer, Encoder, MapSerializer, StructSerializer};
use bson::value::{BinarySubtype, Value};

#[test]
fn unsigned_types_are_always_rejected() {
    assert!(matches!(
        Encoder::new().serialize_u8(0),
        Err(EncodeError::UnsupportedUnsignedType)
    ));
    assert!(matches!(
        Encoder::new().serialize_u16(1),
        Err(EncodeError::UnsupportedUnsignedType)
    ));
    assert!(matches!(
        Encoder::new().serialize_u32(u32::MAX),
        Err(EncodeError::UnsupportedUnsignedType)
    ));
    assert!(matches!(
        Encoder::new().serialize_u64(7),
        Err(EncodeError::UnsupportedUnsignedType)
    ));
}

#[test]
fn scalars_become_values() {
    assert_eq!(Encoder::new().serialize_bool(true).unwrap(), Value::Boolean(true));
    assert_eq!(Encoder::new().serialize_i8(-3).unwrap(), Value::Int32(-3));
    assert_eq!(Encoder::new().serialize_i16(300).unwrap(), Value::Int32(300));
    assert_eq!(Encoder::new().serialize_i32(1 << 20).unwrap(), Value::Int32(1 << 20));
    assert_eq!(Encoder::new().serialize_i64(1 << 40).unwrap(), Value::Int64(1 << 40));
    assert_eq!(
        Encoder::new().serialize_char('q').unwrap(),
        Value::String("q".to_string())
    );
    assert_eq!(
        Encoder::new().serialize_str("text").unwrap(),
        Value::String("text".to_string())
    );
    assert_eq!(
        Encoder::new().serialize_bytes(&[1, 2]).unwrap(),
        Value::Binary(BinarySubtype::Generic, vec![1, 2])
    );
    assert_eq!(Encoder::new().serialize_none().unwrap(), Value::Null);
    assert_eq!(Encoder::new().serialize_unit().unwrap(), Value::Null);
    assert_eq!(
        Encoder::new().serialize_unit_variant("E", 0, "North").unwrap(),
        Value::String("North".to_string())
    );
}

#[test]
fn sequences_become_arrays() {
    let mut a = ArraySerializer::new();
    a.serialize_element(Value::Int32(1)).unwrap();
    a.serialize_element(Value::Int32(2)).unwrap();
    let v = a.end().unwrap();
    match v {
        Value::Array(arr) => {
            assert_eq!(arr.len(), 2);
            assert_eq!(arr.get_at(0), Some(&Value::Int32(1)));
            assert_eq!(arr.get_at(1), Some(&Value::Int32(2)));
        },
        other => panic!("unexpected value: {:?}", other),
    }
}

#[test]
fn maps_require_string_keys() {
    let mut m = MapSerializer::new();
    let err = m.serialize_key(Value::Int32(1)).unwrap_err();
    assert!(matches!(err, EncodeError::InvalidMapKeyType(Value::Int32(1))));

    m.serialize_key(Value::String("k".to_string())).unwrap();
    m.serialize_value(Value::Boolean(true)).unwrap();
    let v = m.end().unwrap();
    match v {
        Value::Document(d) => {
            assert_eq!(d.get_bool("k"), Ok(true));
        },
        other => panic!("unexpected value: {:?}", other),
    }
}

#[test]
fn structs_become_documents_through_the_bridge() {
    let mut s = StructSerializer::new();
    s.serialize_field("a", Value::Int32(1)).unwrap();
    s.serialize_field("b", Value::Int32(2)).unwrap();
    let v = s.end().unwrap();
    match v {
        Value::Document(d) => {
            assert_eq!(d.get_i32("a"), Ok(1));
            assert_eq!(d.get_i32("b"), Ok(2));
        },
        other => panic!("unexpected value: {:?}", other),
    }

    // a struct whose fields spell a recognized shape comes back as the
    // value that shape stands for
    let mut s = StructSerializer::new();
    s.serialize_field("t", Value::Int32(0)).unwrap();
    s.serialize_field("i", Value::Int32(5)).unwrap();
    assert_eq!(s.end().unwrap(), Value::TimeStamp(5));
}

#[test]
fn newtype_variants_wrap_their_payload() {
    let v = Encoder::new()
        .serialize_newtype_variant("E", 1, "Kind", Value::Int32(9))
        .unwrap();
    match v {
        Value::Document(d) => {
            assert_eq!(d.len(), 1);
            assert_eq!(d.get_i32("Kind"), Ok(9));
        },
        other => panic!("unexpected value: {:?}", other),
    }
}

#[test]
fn decimal_index_text() {
    assert_eq!(bson::decimal::usize_to_dec_string(0), "0");
    assert_eq!(bson::decimal::usize_to_dec_string(105), "105");
    assert_eq!(bson::decimal::parse_usize_str("105"), Some(105));
    assert_eq!(bson::decimal::parse_usize_str("+7"), Some(7));
    assert_eq!(bson::decimal::parse_usize_str("007"), Some(7));
    assert_eq!(bson::decimal::parse_usize_str(""), None);
    assert_eq!(bson::decimal::parse_usize_str("+"), None);
    assert_eq!(bson::decimal::parse_usize_str("1a"), None);
    assert_eq!(bson::decimal::parse_usize_str("99999999999999999999999999"), None);
}
