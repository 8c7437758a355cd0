use bson::value::{BinarySubtype, UTCDateTime, Value};
use bson::{Document, ObjectId};

fn round(v: Value) -> Value {
    let d = v.to_extended_document();
    Value::from_extended_document(d)
}

#[test]
fn regexp_round_trip() {
    let v = Value::RegExp("^a+$".to_string(), "ix".to_string());
    assert_eq!(round(v.clone()), v);
}

#[test]
fn code_round_trip() {
    let v = Value::JavaScriptCode("function () {}".to_string());
    assert_eq!(round(v.clone()), v);
}

#[test]
fn code_with_scope_round_trip() {
    let mut scope = Document::new();
    scope.insert_value("n".to_string(), Value::Int32(4));
    let v = Value::JavaScriptCodeWithScope("f()".to_string(), scope);
    assert_eq!(round(v.clone()), v);
}

#[test]
fn timestamp_round_trip() {
    for raw in [0i64, 1, -1, 1 << 40, i64::MIN, i64::MAX, 0xFFFF_FFFF] {
        let v = Value::TimeStamp(raw);
        assert_eq!(round(v.clone()), v);
    }
}

#[test]
fn binary_round_trip() {
    let v = Value::Binary(BinarySubtype::UserDefined(0x80), vec![0xde, 0xad]);
    assert_eq!(round(v.clone()), v);
    let ext = v.to_extended_document();
    assert_eq!(ext.get_str("$binary").unwrap(), "dead");
    assert_eq!(ext.get_i64("type").unwrap(), 0x80);
}

#[test]
fn object_id_round_trip() {
    let oid = ObjectId::with_bytes([0, 1, 2, 3, 4, 5, 6, 7, 8, 9, 0xA, 0xB]);
    let v = Value::ObjectId(oid);
    assert_eq!(round(v.clone()), v);
    let ext = v.to_extended_document();
    assert_eq!(ext.get_str("$oid").unwrap(), "000102030405060708090a0b");
}

#[test]
fn datetime_round_trip() {
    let dt = UTCDateTime::from_timestamp(1_234_567_890, 123_000_000).unwrap();
    let v = Value::UTCDatetime(dt);
    assert_eq!(round(v.clone()), v);
    let ext = v.to_extended_document();
    let inner = ext.get_document("$date").unwrap();
    assert_eq!(inner.get_i64("$numberLong").unwrap(), 1_234_567_890_123);
}

#[test]
fn symbol_round_trip() {
    let v = Value::Symbol("interned".to_string());
    assert_eq!(round(v.clone()), v);
}

#[test]
fn unrecognized_shapes_stay_documents() {
    let mut d = Document::new();
    d.insert_value("x".to_string(), Value::Int32(1));
    let v = Value::from_extended_document(d.clone());
    assert_eq!(v, Value::Document(d));

    let mut two = Document::new();
    two.insert_value("t".to_string(), Value::Int32(1));
    two.insert_value("other".to_string(), Value::Int32(2));
    let v = Value::from_extended_document(two.clone());
    assert_eq!(v, Value::Document(two));
}

#[test]
fn bad_hex_shape_stays_a_document() {
    let mut d = Document::new();
    d.insert_value("$oid".to_string(), Value::String("not hex".to_string()));
    let v = Value::from_extended_document(d.clone());
    assert_eq!(v, Value::Document(d));
}

#[test]
fn int64_timestamp_shape() {
    let mut d = Document::new();
    d.insert_value("t".to_string(), Value::Int64(1));
    d.insert_value("i".to_string(), Value::Int64(2));
    let v = Value::from_extended_document(d);
    assert_eq!(v, Value::TimeStamp((1i64 << 32) | 2));
}

#[test]
fn hex_text_round_trip() {
    let bytes = vec![0u8, 0x0f, 0xf0, 0xff];
    let s = bson::hex::to_hex(&bytes);
    assert_eq!(s, "000ff0ff");
    assert_eq!(bson::hex::from_hex(&s).unwrap(), bytes);
    assert_eq!(bson::hex::from_hex("00FF").unwrap(), vec![0u8, 0xff]);
    assert!(bson::hex::from_hex("0").is_none());
    assert!(bson::hex::from_hex("zz").is_none());
}

#[test]
fn object_id_from_string() {
    let oid = ObjectId::with_string("0123456789abcdef01234567").unwrap();
    assert_eq!(oid.to_hex(), "0123456789abcdef01234567");
    assert_eq!(oid.bytes()[0], 0x01);
    assert!(ObjectId::with_string("0123").is_none());
    assert!(ObjectId::with_string("zz23456789abcdef01234567").is_none());
}
