//! The value-building half of the generic serialization adapter: plain
//! scalars become values, unsigned numbers are rejected, and the builders
//! collect sequences, tuples, maps and structs.

use crate::doc::Document;
use crate::encode::EncodeError;
use crate::extended::ext_value_of;
use crate::text::char_to_string;
use crate::value::{Array, BinarySubtype, MValue, Value};
use vstd::prelude::*;

verus! {

/// Turns one plain scalar into a value; the entry point of the adapter.
pub struct Encoder;

impl Encoder {
    /// A fresh adapter.
    pub fn new() -> Encoder {
        Encoder
    }

    /// A truth value becomes a `Boolean`.
    pub fn serialize_bool(self, value: bool) -> (r: Result<Value, EncodeError>)
        ensures
            r matches Ok(v) && v == Value::Boolean(value),
    {
        Ok(Value::Boolean(value))
    }

    /// An 8-bit signed number widens to an `Int32`.
    pub fn serialize_i8(self, value: i8) -> (r: Result<Value, EncodeError>)
        ensures
            r matches Ok(v) && v == Value::Int32(value as i32),
    {
        Ok(Value::Int32(value as i32))
    }

    /// A 16-bit signed number widens to an `Int32`.
    pub fn serialize_i16(self, value: i16) -> (r: Result<Value, EncodeError>)
        ensures
            r matches Ok(v) && v == Value::Int32(value as i32),
    {
        Ok(Value::Int32(value as i32))
    }

    /// A 32-bit signed number becomes an `Int32`.
    pub fn serialize_i32(self, value: i32) -> (r: Result<Value, EncodeError>)
        ensures
            r matches Ok(v) && v == Value::Int32(value),
    {
        Ok(Value::Int32(value))
    }

    /// A 64-bit signed number becomes an `Int64`.
    pub fn serialize_i64(self, value: i64) -> (r: Result<Value, EncodeError>)
        ensures
            r matches Ok(v) && v == Value::Int64(value),
    {
        Ok(Value::Int64(value))
    }

    /// The wire format has no unsigned numbers: an 8-bit unsigned value is
    /// always rejected.
    pub fn serialize_u8(self, _value: u8) -> (r: Result<Value, EncodeError>)
        ensures
            r matches Err(EncodeError::UnsupportedUnsignedType),
    {
        Err(EncodeError::UnsupportedUnsignedType)
    }

    /// The wire format has no unsigned numbers: a 16-bit unsigned value is
    /// always rejected.
    pub fn serialize_u16(self, _value: u16) -> (r: Result<Value, EncodeError>)
        ensures
            r matches Err(EncodeError::UnsupportedUnsignedType),
    {
        Err(EncodeError::UnsupportedUnsignedType)
    }

    /// The wire format has no unsigned numbers: a 32-bit unsigned value is
    /// always rejected.
    pub fn serialize_u32(self, _value: u32) -> (r: Result<Value, EncodeError>)
        ensures
            r matches Err(EncodeError::UnsupportedUnsignedType),
    {
        Err(EncodeError::UnsupportedUnsignedType)
    }

    /// The wire format has no unsigned numbers: a 64-bit unsigned value is
    /// always rejected.
    pub fn serialize_u64(self, _value: u64) -> (r: Result<Value, EncodeError>)
        ensures
            r matches Err(EncodeError::UnsupportedUnsignedType),
    {
        Err(EncodeError::UnsupportedUnsignedType)
    }

    /// A character becomes a one-character `String`.
    pub fn serialize_char(self, value: char) -> (r: Result<Value, EncodeError>)
        ensures
            r matches Ok(v) && v.model() == MValue::String(seq![value]),
    {
        Ok(Value::String(char_to_string(value)))
    }

    /// Text becomes a `String`.
    pub fn serialize_str(self, value: &str) -> (r: Result<Value, EncodeError>)
        ensures
            r matches Ok(v) && v.model() == MValue::String(value@),
    {
        Ok(Value::String(value.to_owned()))
    }

    /// Bytes become a `Binary` of the generic subtype.
    pub fn serialize_bytes(self, value: &[u8]) -> (r: Result<Value, EncodeError>)
        ensures
            r matches Ok(v) && v.model() == MValue::Binary(0x00, value@),
    {
        let n = value.len();
        let mut data: Vec<u8> = Vec::new();
        let mut i: usize = 0;
        while i < n
            invariant
                i <= n,
                n == value@.len(),
                data@ == value@.subrange(0, i as int),
            decreases n - i,
        {
            data.push(value[i]);
            proof {
                assert(value@.subrange(0, i + 1 as int) =~= value@.subrange(0, i as int).push(
                    value@[i as int],
                ));
            }
            i += 1;
        }
        proof {
            assert(value@.subrange(0, n as int) =~= value@);
        }
        Ok(Value::Binary(BinarySubtype::Generic, data))
    }

    /// A missing value becomes `Null`.
    pub fn serialize_none(self) -> (r: Result<Value, EncodeError>)
        ensures
            r matches Ok(v) && v == Value::Null,
    {
        Ok(Value::Null)
    }

    /// The unit value becomes `Null`.
    pub fn serialize_unit(self) -> (r: Result<Value, EncodeError>)
        ensures
            r matches Ok(v) && v == Value::Null,
    {
        Ok(Value::Null)
    }

    /// A unit struct becomes `Null`.
    pub fn serialize_unit_struct(self, _name: &str) -> (r: Result<Value, EncodeError>)
        ensures
            r matches Ok(v) && v == Value::Null,
    {
        Ok(Value::Null)
    }

    /// A unit enum variant becomes the bare `String` of its name.
    pub fn serialize_unit_variant(self, _name: &str, _variant_index: u32, variant: &str) -> (r:
        Result<Value, EncodeError>)
        ensures
            r matches Ok(v) && v.model() == MValue::String(variant@),
    {
        Ok(Value::String(variant.to_owned()))
    }

    /// A data-carrying enum variant becomes a one-entry document keyed by
    /// the variant name.
    pub fn serialize_newtype_variant(self, _name: &str, _variant_index: u32, variant: &str,
        value: Value) -> (r: Result<Value, EncodeError>)
        ensures
            r matches Ok(v) && v.model() == MValue::Document(
                seq![(variant@, value.model())],
            ),
    {
        let mut doc = Document::new();
        proof {
            crate::doc::lemma_key_index(Seq::<(String, Value)>::empty(), variant@);
        }
        let ghost vm = value.model();
        doc.insert_value(variant.to_owned(), value);
        proof {
            crate::value::lemma_model_entries_len(doc.entries_spec());
            crate::value::lemma_model_entries_index(doc.entries_spec(), 0);
            assert(doc.model() =~= seq![(variant@, vm)]);
        }
        Ok(Value::Document(doc))
    }
}

/// Collects the elements of a sequence into an `Array`.
pub struct ArraySerializer {
    pub(crate) inner: Array,
}

impl ArraySerializer {
    /// The values collected so far.
    pub open(crate) spec fn model(&self) -> Seq<MValue> {
        self.inner.model()
    }

    /// An empty collector.
    pub fn new() -> (r: ArraySerializer)
        ensures
            r.model() == Seq::<MValue>::empty(),
    {
        let r = ArraySerializer { inner: Array::new() };
        proof {
            crate::value::lemma_model_seq_len(r.inner.values_spec());
            assert(r.model() =~= Seq::<MValue>::empty());
        }
        r
    }

    /// Appends one element.
    pub fn serialize_element(&mut self, value: Value) -> (r: Result<(), EncodeError>)
        ensures
            r is Ok,
            final(self).model() == old(self).model().push(value.model()),
    {
        let ghost oldvals = self.inner.values_spec();
        self.inner.push(value);
        proof {
            crate::value::lemma_model_seq_push(oldvals, value);
        }
        Ok(())
    }

    /// The collected `Array` value.
    pub fn end(self) -> (r: Result<Value, EncodeError>)
        ensures
            r matches Ok(v) && v.model() == MValue::Array(self.model()),
    {
        Ok(Value::Array(self.inner))
    }
}

/// Collects the elements of a tuple into an `Array`.
pub struct TupleSerializer {
    pub(crate) inner: Array,
}

impl TupleSerializer {
    /// The values collected so far.
    pub open(crate) spec fn model(&self) -> Seq<MValue> {
        self.inner.model()
    }

    /// An empty collector.
    pub fn new() -> (r: TupleSerializer)
        ensures
            r.model() == Seq::<MValue>::empty(),
    {
        let r = TupleSerializer { inner: Array::new() };
        proof {
            crate::value::lemma_model_seq_len(r.inner.values_spec());
            assert(r.model() =~= Seq::<MValue>::empty());
        }
        r
    }

    /// Appends one element.
    pub fn serialize_element(&mut self, value: Value) -> (r: Result<(), EncodeError>)
        ensures
            r is Ok,
            final(self).model() == old(self).model().push(value.model()),
    {
        let ghost oldvals = self.inner.values_spec();
        self.inner.push(value);
        proof {
            crate::value::lemma_model_seq_push(oldvals, value);
        }
        Ok(())
    }

    /// The collected `Array` value.
    pub fn end(self) -> (r: Result<Value, EncodeError>)
        ensures
            r matches Ok(v) && v.model() == MValue::Array(self.model()),
    {
        Ok(Value::Array(self.inner))
    }
}

/// Collects the fields of a tuple struct into an `Array`.
pub struct TupleStructSerializer {
    pub(crate) inner: Array,
}

impl TupleStructSerializer {
    /// The values collected so far.
    pub open(crate) spec fn model(&self) -> Seq<MValue> {
        self.inner.model()
    }

    /// An empty collector.
    pub fn new() -> (r: TupleStructSerializer)
        ensures
            r.model() == Seq::<MValue>::empty(),
    {
        let r = TupleStructSerializer { inner: Array::new() };
        proof {
            crate::value::lemma_model_seq_len(r.inner.values_spec());
            assert(r.model() =~= Seq::<MValue>::empty());
        }
        r
    }

    /// Appends one field.
    pub fn serialize_field(&mut self, value: Value) -> (r: Result<(), EncodeError>)
        ensures
            r is Ok,
            final(self).model() == old(self).model().push(value.model()),
    {
        let ghost oldvals = self.inner.values_spec();
        self.inner.push(value);
        proof {
            crate::value::lemma_model_seq_push(oldvals, value);
        }
        Ok(())
    }

    /// The collected `Array` value.
    pub fn end(self) -> (r: Result<Value, EncodeError>)
        ensures
            r matches Ok(v) && v.model() == MValue::Array(self.model()),
    {
        Ok(Value::Array(self.inner))
    }
}

/// Collects the fields of a tuple enum variant into an `Array` wrapped in
/// a one-entry document keyed by the variant name.
pub struct TupleVariantSerializer {
    pub(crate) inner: Array,
    pub(crate) name: String,
}

impl TupleVariantSerializer {
    /// The values collected so far.
    pub open(crate) spec fn model(&self) -> Seq<MValue> {
        self.inner.model()
    }

    /// The variant name.
    pub open(crate) spec fn name_spec(&self) -> Seq<char> {
        self.name@
    }

    /// An empty collector for the named variant.
    pub fn new(variant: &str) -> (r: TupleVariantSerializer)
        ensures
            r.model() == Seq::<MValue>::empty(),
            r.name_spec() == variant@,
    {
        let r = TupleVariantSerializer { inner: Array::new(), name: variant.to_owned() };
        proof {
            crate::value::lemma_model_seq_len(r.inner.values_spec());
            assert(r.model() =~= Seq::<MValue>::empty());
        }
        r
    }

    /// Appends one field.
    pub fn serialize_field(&mut self, value: Value) -> (r: Result<(), EncodeError>)
        ensures
            r is Ok,
            final(self).model() == old(self).model().push(value.model()),
            final(self).name_spec() == old(self).name_spec(),
    {
        let ghost oldvals = self.inner.values_spec();
        self.inner.push(value);
        proof {
            crate::value::lemma_model_seq_push(oldvals, value);
        }
        Ok(())
    }

    /// The collected value: the array under the variant name.
    pub fn end(self) -> (r: Result<Value, EncodeError>)
        ensures
            r matches Ok(v) && v.model() == MValue::Document(
                seq![(self.name_spec(), MValue::Array(self.model()))],
            ),
    {
        let mut doc = Document::new();
        proof {
            crate::doc::lemma_key_index(Seq::<(String, Value)>::empty(), self.name@);
        }
        let ghost am = self.model();
        let ghost nm = self.name_spec();
        doc.insert_value(self.name, Value::Array(self.inner));
        proof {
            crate::value::lemma_model_entries_len(doc.entries_spec());
            crate::value::lemma_model_entries_index(doc.entries_spec(), 0);
            assert(doc.model() =~= seq![(nm, MValue::Array(am))]);
        }
        Ok(Value::Document(doc))
    }
}

/// Collects the keys and values of a map into a document; only string
/// keys are accepted.
pub struct MapSerializer {
    pub(crate) inner: Document,
    pub(crate) next_key: Option<String>,
}

impl MapSerializer {
    /// The entries collected so far.
    pub open(crate) spec fn model(&self) -> Seq<(Seq<char>, MValue)> {
        self.inner.model()
    }

    /// The key waiting for its value, if any.
    pub open(crate) spec fn pending_key(&self) -> Option<Seq<char>> {
        match self.next_key {
            Some(k) => Some(k@),
            None => None,
        }
    }

    /// An empty collector.
    pub fn new() -> (r: MapSerializer)
        ensures
            r.model() == Seq::<(Seq<char>, MValue)>::empty(),
            r.pending_key() is None,
    {
        let r = MapSerializer { inner: Document::new(), next_key: None };
        proof {
            crate::value::lemma_model_entries_len(r.inner.entries_spec());
            assert(r.model() =~= Seq::<(Seq<char>, MValue)>::empty());
        }
        r
    }

    /// Takes the next key: a `String` value holds a usable key; any other
    /// value kind is rejected as a map key.
    pub fn serialize_key(&mut self, key: Value) -> (r: Result<(), EncodeError>)
        ensures
            match key {
                Value::String(s) => {
                    &&& r is Ok
                    &&& final(self).pending_key() == Some(s@)
                    &&& final(self).model() == old(self).model()
                },
                _ => {
                    &&& r matches Err(EncodeError::InvalidMapKeyType(other)) && other.model()
                        == key.model()
                    &&& final(self).model() == old(self).model()
                    &&& final(self).pending_key() == old(self).pending_key()
                },
            },
    {
        match key {
            Value::String(s) => {
                self.next_key = Some(s);
                Ok(())
            },
            other => Err(EncodeError::InvalidMapKeyType(other)),
        }
    }

    /// Inserts the pending key with its value; without a pending key the
    /// empty key is used.
    pub fn serialize_value(&mut self, value: Value) -> (r: Result<(), EncodeError>)
        ensures
            r is Ok,
            final(self).pending_key() is None,
            final(self).model() == crate::doc::m_insert(
                old(self).model(),
                match old(self).pending_key() {
                    Some(k) => k,
                    None => Seq::<char>::empty(),
                },
                value.model(),
            ),
    {
        let mut taken: Option<String> = None;
        core::mem::swap(&mut self.next_key, &mut taken);
        let key: String = match taken {
            Some(k) => k,
            None => String::new(),
        };
        let ghost oldes = self.inner.entries_spec();
        self.inner.insert_value(key, value);
        proof {
            crate::doc::lemma_insert_model(oldes, key, value);
        }
        Ok(())
    }

    /// The collected document, read back through the extended-document
    /// shapes.
    pub fn end(self) -> (r: Result<Value, EncodeError>)
        ensures
            r matches Ok(v) && v.model() == ext_value_of(self.model()),
    {
        Ok(Value::from_extended_document(self.inner))
    }
}

/// Collects the fields of a struct into a document.
pub struct StructSerializer {
    pub(crate) inner: Document,
}

impl StructSerializer {
    /// The entries collected so far.
    pub open(crate) spec fn model(&self) -> Seq<(Seq<char>, MValue)> {
        self.inner.model()
    }

    /// An empty collector.
    pub fn new() -> (r: StructSerializer)
        ensures
            r.model() == Seq::<(Seq<char>, MValue)>::empty(),
    {
        let r = StructSerializer { inner: Document::new() };
        proof {
            crate::value::lemma_model_entries_len(r.inner.entries_spec());
            assert(r.model() =~= Seq::<(Seq<char>, MValue)>::empty());
        }
        r
    }

    /// Inserts one named field.
    pub fn serialize_field(&mut self, key: &str, value: Value) -> (r: Result<(), EncodeError>)
        ensures
            r is Ok,
            final(self).model() == crate::doc::m_insert(old(self).model(), key@, value.model()),
    {
        let owned: String = key.to_owned();
        let ghost oldes = self.inner.entries_spec();
        self.inner.insert_value(owned, value);
        proof {
            crate::doc::lemma_insert_model(oldes, owned, value);
        }
        Ok(())
    }

    /// The collected document, read back through the extended-document
    /// shapes.
    pub fn end(self) -> (r: Result<Value, EncodeError>)
        ensures
            r matches Ok(v) && v.model() == ext_value_of(self.model()),
    {
        Ok(Value::from_extended_document(self.inner))
    }
}

/// Collects the fields of a struct enum variant into a document wrapped
/// in a one-entry document keyed by the variant name.
pub struct StructVariantSerializer {
    pub(crate) inner: Document,
    pub(crate) name: String,
}

impl StructVariantSerializer {
    /// The entries collected so far.
    pub open(crate) spec fn model(&self) -> Seq<(Seq<char>, MValue)> {
        self.inner.model()
    }

    /// The variant name.
    pub open(crate) spec fn name_spec(&self) -> Seq<char> {
        self.name@
    }

    /// An empty collector for the named variant.
    pub fn new(variant: &str) -> (r: StructVariantSerializer)
        ensures
            r.model() == Seq::<(Seq<char>, MValue)>::empty(),
            r.name_spec() == variant@,
    {
        let r = StructVariantSerializer { inner: Document::new(), name: variant.to_owned() };
        proof {
            crate::value::lemma_model_entries_len(r.inner.entries_spec());
            assert(r.model() =~= Seq::<(Seq<char>, MValue)>::empty());
        }
        r
    }

    /// Inserts one named field.
    pub fn serialize_field(&mut self, key: &str, value: Value) -> (r: Result<(), EncodeError>)
        ensures
            r is Ok,
            final(self).model() == crate::doc::m_insert(old(self).model(), key@, value.model()),
            final(self).name_spec() == old(self).name_spec(),
    {
        let owned: String = key.to_owned();
        let ghost oldes = self.inner.entries_spec();
        self.inner.insert_value(owned, value);
        proof {
            crate::doc::lemma_insert_model(oldes, owned, value);
        }
        Ok(())
    }

    /// The collected value: the fields, read back through the
    /// extended-document shapes, under the variant name.
    pub fn end(self) -> (r: Result<Value, EncodeError>)
        ensures
            r matches Ok(v) && v.model() == MValue::Document(
                seq![(self.name_spec(), ext_value_of(self.model()))],
            ),
    {
        let var = Value::from_extended_document(self.inner);
        let mut doc = Document::new();
        proof {
            crate::doc::lemma_key_index(Seq::<(String, Value)>::empty(), self.name@);
        }
        let ghost vm = var.model();
        let ghost nm = self.name_spec();
        doc.insert_value(self.name, var);
        proof {
            crate::value::lemma_model_entries_len(doc.entries_spec());
            crate::value::lemma_model_entries_index(doc.entries_spec(), 0);
            assert(doc.model() =~= seq![(nm, vm)]);
        }
        Ok(Value::Document(doc))
    }
}

} // verus!
