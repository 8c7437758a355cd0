use bson::doc::Error;
use bson::value::{BinarySubtype, ElementType, Value};
use bson::Document;

#[test]
fn binary() {
    let byte = vec![1u8, 2, 3, 4];
    let mut doc = Document::new();
    doc.insert_value("aa".to_string(), Value::String("bb".to_string()));
    doc.insert_value("byte".to_string(), Value::Binary(BinarySubtype::Generic, byte.clone()));
    let byte2 = doc.get_binary("byte").unwrap();

    assert_eq!(&byte, byte2);

    let mut doc2 = Document::new();
    doc2.insert_value("aa".to_string(), Value::String("bb".to_string()));
    doc2.insert_value("byte".to_string(), Value::Binary(BinarySubtype::Generic, byte));

    assert_eq!(doc, doc2);
}

#[test]
fn binary_accessor_rejects_other_subtypes() {
    let mut doc = Document::new();
    doc.insert_value("byte".to_string(), Value::Binary(BinarySubtype::Md5, vec![1, 2, 3, 4]));
    assert_eq!(doc.get_binary("byte"), Err(Error::UnexpectedType));
}

#[test]
fn insert_same_key_twice_keeps_position() {
    let mut doc = Document::new();
    let (i1, old1) = doc.insert_value_full("a".to_string(), Value::Int32(1));
    doc.insert_value("b".to_string(), Value::Int32(2));
    let (i2, old2) = doc.insert_value_full("a".to_string(), Value::Int32(3));

    assert_eq!(i1, 0);
    assert!(old1.is_none());
    assert_eq!(i2, 0);
    assert_eq!(old2, Some(Value::Int32(1)));
    assert_eq!(doc.len(), 2);
    let (k0, v0) = doc.get_index(0).unwrap();
    assert_eq!(k0.as_str(), "a");
    assert_eq!(v0, &Value::Int32(3));
    let (k1, _) = doc.get_index(1).unwrap();
    assert_eq!(k1.as_str(), "b");
}

#[test]
fn getters_report_missing_and_mismatched() {
    let mut doc = Document::new();
    doc.insert_value("n".to_string(), Value::Int32(5));
    doc.insert_value("s".to_string(), Value::String("x".to_string()));

    assert_eq!(doc.get_i32("n"), Ok(5));
    assert_eq!(doc.get_i32("missing"), Err(Error::NotPresent));
    assert_eq!(doc.get_i32("s"), Err(Error::UnexpectedType));
    assert_eq!(doc.get_str("s"), Ok("x"));
    assert_eq!(doc.get_i64("n"), Err(Error::UnexpectedType));
    assert!(!doc.is_null("n"));
    doc.insert_value("z".to_string(), Value::Null);
    assert!(doc.is_null("z"));
}

#[test]
fn remove_keeps_order_swap_remove_does_not() {
    let mut doc = Document::new();
    for (k, v) in [("a", 1i32), ("b", 2), ("c", 3), ("d", 4)] {
        doc.insert_value(k.to_string(), Value::Int32(v));
    }

    let removed = doc.remove("b");
    assert_eq!(removed, Some(Value::Int32(2)));
    let keys: Vec<&str> = (0..doc.len()).map(|i| doc.get_index(i).unwrap().0.as_str()).collect();
    assert_eq!(keys, vec!["a", "c", "d"]);

    let removed = doc.swap_remove("a");
    assert_eq!(removed, Some(Value::Int32(1)));
    let keys: Vec<&str> = (0..doc.len()).map(|i| doc.get_index(i).unwrap().0.as_str()).collect();
    assert_eq!(keys, vec!["d", "c"]);

    assert_eq!(doc.remove("nope"), None);
}

#[test]
fn pop_and_clear() {
    let mut doc = Document::new();
    doc.insert_value("a".to_string(), Value::Int32(1));
    doc.insert_value("b".to_string(), Value::Int32(2));
    let (k, v) = doc.pop().unwrap();
    assert_eq!(k.as_str(), "b");
    assert_eq!(v, Value::Int32(2));
    doc.clear();
    assert!(doc.is_empty());
    assert_eq!(doc.pop(), None);
}

#[test]
fn get_full_and_contains() {
    let mut doc = Document::new();
    doc.insert_value("a".to_string(), Value::Boolean(true));
    doc.insert_value("b".to_string(), Value::Int64(9));

    assert!(doc.contains_key("b"));
    assert!(!doc.contains_key("c"));
    let (i, k, v) = doc.get_full("b").unwrap();
    assert_eq!(i, 1);
    assert_eq!(k.as_str(), "b");
    assert_eq!(v, &Value::Int64(9));
    assert!(doc.get_full("c").is_none());
}

#[test]
fn extend_moves_entries() {
    let mut a = Document::new();
    a.insert_value("x".to_string(), Value::Int32(1));
    let mut b = Document::new();
    b.insert_value("x".to_string(), Value::Int32(7));
    b.insert_value("y".to_string(), Value::Int32(8));
    a.extend(b);
    assert_eq!(a.len(), 2);
    assert_eq!(a.get_i32("x"), Ok(7));
    assert_eq!(a.get_i32("y"), Ok(8));
}

#[test]
fn value_accessors() {
    assert_eq!(Value::Int32(3).as_i32(), Some(3));
    assert_eq!(Value::Int32(3).as_i64(), None);
    assert_eq!(Value::Int64(4).as_i64(), Some(4));
    assert_eq!(Value::Boolean(true).as_bool(), Some(true));
    assert_eq!(Value::Null.as_null(), Some(()));
    assert_eq!(Value::String("s".to_string()).as_str(), Some("s"));
    assert_eq!(Value::Symbol("s".to_string()).as_symbol(), Some("s"));
    assert_eq!(Value::TimeStamp(8).as_timestamp(), Some(8));
    let bits = 1.5f64.to_bits();
    assert_eq!(Value::Double(bits).as_f64(), Some(bits));
    assert_eq!(f64::from_bits(Value::Double(bits).as_f64().unwrap()), 1.5);
}

#[test]
fn element_type_tags() {
    assert_eq!(Value::Int32(1).element_type(), ElementType::Int32);
    assert_eq!(Value::Null.element_type(), ElementType::NullValue);
    assert_eq!(ElementType::Double.byte(), 0x01);
    assert_eq!(ElementType::from_byte(0x10), Some(ElementType::Int32));
    assert_eq!(ElementType::from_byte(0x13), None);
    assert_eq!(ElementType::from_byte(0x06), Some(ElementType::Undefined));
}

#[test]
fn clone_is_deep() {
    let mut doc = Document::new();
    doc.insert_value("a".to_string(), Value::Int32(1));
    let mut copy = doc.clone();
    copy.insert_value("a".to_string(), Value::Int32(2));
    assert_eq!(doc.get_i32("a"), Ok(1));
    assert_eq!(copy.get_i32("a"), Ok(2));
}
