use bson::decode::{decode_document, DecodeError};
use bson::encode::encode_document;
use bson::value::{Array, UTCDateTime, Value};
use bson::Document;

fn doc_ab() -> Document {
    let mut d = Document::new();
    d.insert_value("aa".to_string(), Value::String("bb".to_string()));
    d
}

#[test]
fn to_vec() {
    let document = doc_ab();

    let vec = document.to_vec().unwrap();

    let document2 = Document::from_slice(&vec).unwrap();

    assert_eq!(document, document2);
}

#[test]
fn encode() {
    let mut document = doc_ab();
    document.insert_value(
        "cc".to_string(),
        Value::Array(Array::from_vec(vec![
            Value::Int32(1),
            Value::Int32(2),
            Value::Int32(3),
            Value::Int32(4),
        ])),
    );

    let buf = encode_document(&document).unwrap();

    let document2 = decode_document(&buf).unwrap();

    assert_eq!(document, document2);
}

#[test]
fn length_prefix_is_buffer_length() {
    let mut document = doc_ab();
    document.insert_value(
        "cc".to_string(),
        Value::Array(Array::from_vec(vec![
            Value::Int32(1),
            Value::Int32(2),
            Value::Int32(3),
            Value::Int32(4),
        ])),
    );

    let buf = document.to_vec().unwrap();

    let prefix = u32::from_le_bytes([buf[0], buf[1], buf[2], buf[3]]);
    assert_eq!(prefix as usize, buf.len());
}

#[test]
fn all_kinds_round_trip() {
    let mut d = Document::new();
    d.insert_value("double".to_string(), Value::Double(2.5f64.to_bits()));
    d.insert_value("string".to_string(), Value::String("hi \u{00e9}".to_string()));
    d.insert_value(
        "array".to_string(),
        Value::Array(Array::from_vec(vec![Value::Null, Value::Boolean(true)])),
    );
    d.insert_value("doc".to_string(), Value::Document(doc_ab()));
    d.insert_value("bool".to_string(), Value::Boolean(false));
    d.insert_value("null".to_string(), Value::Null);
    d.insert_value(
        "re".to_string(),
        Value::RegExp("^a.*b$".to_string(), "i".to_string()),
    );
    d.insert_value("code".to_string(), Value::JavaScriptCode("x = 1".to_string()));
    d.insert_value(
        "codews".to_string(),
        Value::JavaScriptCodeWithScope("y".to_string(), doc_ab()),
    );
    d.insert_value("i32".to_string(), Value::Int32(-7));
    d.insert_value("i64".to_string(), Value::Int64(1 << 40));
    d.insert_value("ts".to_string(), Value::TimeStamp(-1));
    d.insert_value(
        "bin".to_string(),
        Value::Binary(bson::value::BinarySubtype::Md5, vec![9, 8, 7]),
    );
    d.insert_value(
        "oid".to_string(),
        Value::ObjectId(bson::ObjectId::with_bytes([1, 2, 3, 4, 5, 6, 7, 8, 9, 10, 11, 12])),
    );
    d.insert_value(
        "when".to_string(),
        Value::UTCDatetime(UTCDateTime::from_timestamp(1_500_000_000, 0).unwrap()),
    );
    d.insert_value("sym".to_string(), Value::Symbol("s".to_string()));

    let buf = d.to_vec().unwrap();
    let d2 = Document::from_slice(&buf).unwrap();
    assert_eq!(d, d2);
}

#[test]
fn duplicate_wire_keys_keep_first_position() {
    // two elements under the same key: the later value wins, the position
    // stays that of the first occurrence
    let mut body: Vec<u8> = Vec::new();
    for (k, v) in [("k", 1i32), ("m", 2), ("k", 3)] {
        body.push(0x10);
        body.extend_from_slice(k.as_bytes());
        body.push(0);
        body.extend_from_slice(&v.to_le_bytes());
    }
    body.push(0);
    let mut buf: Vec<u8> = ((body.len() + 4) as u32).to_le_bytes().to_vec();
    buf.extend_from_slice(&body);

    let d = decode_document(&buf).unwrap();
    assert_eq!(d.len(), 2);
    let (k0, v0) = d.get_index(0).unwrap();
    assert_eq!(k0.as_str(), "k");
    assert_eq!(v0, &Value::Int32(3));
    let (k1, _) = d.get_index(1).unwrap();
    assert_eq!(k1.as_str(), "m");
}

#[test]
fn string_length_two_billion_is_rejected() {
    // one string element whose declared length claims two billion bytes
    let mut buf: Vec<u8> = vec![0, 0, 0, 0];
    buf.push(0x02);
    buf.extend_from_slice(b"s\0");
    buf.extend_from_slice(&2_000_000_000i32.to_le_bytes());
    let err = decode_document(&buf).unwrap_err();
    match err {
        DecodeError::InvalidLength(l, _) => assert_eq!(l, 2_000_000_000),
        other => panic!("unexpected error: {:?}", other),
    }
}

#[test]
fn string_length_zero_and_negative_are_rejected() {
    for bad in [0i32, -5] {
        let mut buf: Vec<u8> = vec![0, 0, 0, 0];
        buf.push(0x02);
        buf.extend_from_slice(b"s\0");
        buf.extend_from_slice(&bad.to_le_bytes());
        let err = decode_document(&buf).unwrap_err();
        assert!(matches!(err, DecodeError::InvalidLength(..)), "{:?}", err);
    }
}

#[test]
fn array_key_out_of_sequence_is_rejected() {
    // an array whose second element is keyed "2" instead of "1"
    let mut arr: Vec<u8> = vec![0, 0, 0, 0];
    for (k, v) in [("0", 10i32), ("2", 20)] {
        arr.push(0x10);
        arr.extend_from_slice(k.as_bytes());
        arr.push(0);
        arr.extend_from_slice(&v.to_le_bytes());
    }
    arr.push(0);
    let n = arr.len() as u32;
    arr[..4].copy_from_slice(&n.to_le_bytes());

    let mut body: Vec<u8> = Vec::new();
    body.push(0x04);
    body.extend_from_slice(b"a\0");
    body.extend_from_slice(&arr);
    body.push(0);
    let mut buf: Vec<u8> = ((body.len() + 4) as u32).to_le_bytes().to_vec();
    buf.extend_from_slice(&body);

    let err = decode_document(&buf).unwrap_err();
    match err {
        DecodeError::InvalidArrayKey(want, got) => {
            assert_eq!(want, 1);
            assert_eq!(got.as_str(), "2");
        },
        other => panic!("unexpected error: {:?}", other),
    }
}

#[test]
fn array_key_non_numeric_is_rejected() {
    let mut arr: Vec<u8> = vec![0, 0, 0, 0];
    arr.push(0x10);
    arr.extend_from_slice(b"zero\0");
    arr.extend_from_slice(&1i32.to_le_bytes());
    arr.push(0);

    let mut body: Vec<u8> = Vec::new();
    body.push(0x04);
    body.extend_from_slice(b"a\0");
    body.extend_from_slice(&arr);
    body.push(0);
    let mut buf: Vec<u8> = ((body.len() + 4) as u32).to_le_bytes().to_vec();
    buf.extend_from_slice(&body);

    let err = decode_document(&buf).unwrap_err();
    match err {
        DecodeError::InvalidArrayKey(want, got) => {
            assert_eq!(want, 0);
            assert_eq!(got.as_str(), "zero");
        },
        other => panic!("unexpected error: {:?}", other),
    }
}

#[test]
fn unrecognized_and_reserved_tags_are_rejected() {
    for tag in [0x06u8, 0x0C, 0x7F, 0xFF, 0x55] {
        let mut buf: Vec<u8> = vec![0, 0, 0, 0];
        buf.push(tag);
        buf.extend_from_slice(b"k\0");
        let err = decode_document(&buf).unwrap_err();
        match err {
            DecodeError::UnrecognizedElementType(t) => assert_eq!(t, tag),
            other => panic!("unexpected error: {:?}", other),
        }
    }
}

#[test]
fn truncated_stream_is_rejected() {
    let document = doc_ab();
    let buf = document.to_vec().unwrap();
    let err = decode_document(&buf[..buf.len() - 3]).unwrap_err();
    assert!(matches!(err, DecodeError::EndOfStream), "{:?}", err);
}

#[test]
fn invalid_utf8_key_is_rejected() {
    let mut buf: Vec<u8> = vec![0, 0, 0, 0];
    buf.push(0x08);
    buf.push(0xFF);
    buf.push(0);
    buf.push(1);
    buf.push(0);
    let err = decode_document(&buf).unwrap_err();
    assert!(matches!(err, DecodeError::FromUtf8Error(_)), "{:?}", err);
}

#[test]
fn lossy_string_content_is_tolerated() {
    // invalid UTF-8 inside a string payload is replaced, not rejected
    let mut body: Vec<u8> = Vec::new();
    body.push(0x02);
    body.extend_from_slice(b"s\0");
    body.extend_from_slice(&3i32.to_le_bytes());
    body.push(0xFF);
    body.push(0x61);
    body.push(0);
    body.push(0);
    let mut buf: Vec<u8> = ((body.len() + 4) as u32).to_le_bytes().to_vec();
    buf.extend_from_slice(&body);

    let d = decode_document(&buf).unwrap();
    assert_eq!(d.get_str("s").unwrap(), "\u{FFFD}a");
}

#[test]
fn datetime_round_trip_and_negative_remainder() {
    let dt = UTCDateTime::from_millis(-1).unwrap();
    assert_eq!(dt.timestamp(), -1);
    assert_eq!(dt.nanosecond(), 999_000_000);
    assert_eq!(dt.millis(), -1);

    let mut d = Document::new();
    d.insert_value("at".to_string(), Value::UTCDatetime(dt));
    let buf = d.to_vec().unwrap();
    let d2 = Document::from_slice(&buf).unwrap();
    assert_eq!(d, d2);
}

#[test]
fn datetime_rejects_bad_nanoseconds() {
    assert!(UTCDateTime::from_timestamp(0, 1_000_000_000).is_none());
    assert!(UTCDateTime::from_timestamp(0, 0).is_some());
}

#[test]
fn trailing_bytes_are_ignored() {
    let document = doc_ab();
    let mut buf = document.to_vec().unwrap();
    buf.extend_from_slice(&[1, 2, 3]);
    let document2 = Document::from_slice(&buf).unwrap();
    assert_eq!(document, document2);
}
