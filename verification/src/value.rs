//! The tagged value model: every kind of element the wire format carries,
//! together with its mathematical model.

use crate::calendar::{utc_in_range, utc_timestamp_check, CalendarCheck};
use crate::doc::Document;
use crate::object_id::ObjectId;
use vstd::arithmetic::div_mod::{
    lemma_div_multiples_vanish, lemma_fundamental_div_mod, lemma_fundamental_div_mod_converse,
};
use vstd::prelude::*;

verus! {

/// The wire tag of an element.
#[derive(Debug, Clone, Copy, PartialEq, Eq, Structural)]
pub enum ElementType {
    Double,
    Utf8String,
    Document,
    Array,
    Binary,
    Undefined,
    ObjectId,
    Boolean,
    UTCDatetime,
    NullValue,
    RegularExpression,
    DBPointer,
    JavaScriptCode,
    Symbol,
    JavaScriptCodeWithScope,
    Int32,
    TimeStamp,
    Int64,
    MaxKey,
    MinKey,
}

impl ElementType {
    /// The tag byte this element type is written as.
    pub open spec fn byte_spec(self) -> u8 {
        match self {
            ElementType::Double => 0x01,
            ElementType::Utf8String => 0x02,
            ElementType::Document => 0x03,
            ElementType::Array => 0x04,
            ElementType::Binary => 0x05,
            ElementType::Undefined => 0x06,
            ElementType::ObjectId => 0x07,
            ElementType::Boolean => 0x08,
            ElementType::UTCDatetime => 0x09,
            ElementType::NullValue => 0x0A,
            ElementType::RegularExpression => 0x0B,
            ElementType::DBPointer => 0x0C,
            ElementType::JavaScriptCode => 0x0D,
            ElementType::Symbol => 0x0E,
            ElementType::JavaScriptCodeWithScope => 0x0F,
            ElementType::Int32 => 0x10,
            ElementType::TimeStamp => 0x11,
            ElementType::Int64 => 0x12,
            ElementType::MaxKey => 0x7F,
            ElementType::MinKey => 0xFF,
        }
    }

    /// The element type a tag byte names, if any.
    pub open spec fn from_byte_spec(tag: u8) -> Option<ElementType> {
        if tag == 0x01 {
            Some(ElementType::Double)
        } else if tag == 0x02 {
            Some(ElementType::Utf8String)
        } else if tag == 0x03 {
            Some(ElementType::Document)
        } else if tag == 0x04 {
            Some(ElementType::Array)
        } else if tag == 0x05 {
            Some(ElementType::Binary)
        } else if tag == 0x06 {
            Some(ElementType::Undefined)
        } else if tag == 0x07 {
            Some(ElementType::ObjectId)
        } else if tag == 0x08 {
            Some(ElementType::Boolean)
        } else if tag == 0x09 {
            Some(ElementType::UTCDatetime)
        } else if tag == 0x0A {
            Some(ElementType::NullValue)
        } else if tag == 0x0B {
            Some(ElementType::RegularExpression)
        } else if tag == 0x0C {
            Some(ElementType::DBPointer)
        } else if tag == 0x0D {
            Some(ElementType::JavaScriptCode)
        } else if tag == 0x0E {
            Some(ElementType::Symbol)
        } else if tag == 0x0F {
            Some(ElementType::JavaScriptCodeWithScope)
        } else if tag == 0x10 {
            Some(ElementType::Int32)
        } else if tag == 0x11 {
            Some(ElementType::TimeStamp)
        } else if tag == 0x12 {
            Some(ElementType::Int64)
        } else if tag == 0x7F {
            Some(ElementType::MaxKey)
        } else if tag == 0xFF {
            Some(ElementType::MinKey)
        } else {
            None
        }
    }

    /// The tag byte this element type is written as.
    pub fn byte(self) -> (r: u8)
        ensures
            r == self.byte_spec(),
    {
        match self {
            ElementType::Double => 0x01,
            ElementType::Utf8String => 0x02,
            ElementType::Document => 0x03,
            ElementType::Array => 0x04,
            ElementType::Binary => 0x05,
            ElementType::Undefined => 0x06,
            ElementType::ObjectId => 0x07,
            ElementType::Boolean => 0x08,
            ElementType::UTCDatetime => 0x09,
            ElementType::NullValue => 0x0A,
            ElementType::RegularExpression => 0x0B,
            ElementType::DBPointer => 0x0C,
            ElementType::JavaScriptCode => 0x0D,
            ElementType::Symbol => 0x0E,
            ElementType::JavaScriptCodeWithScope => 0x0F,
            ElementType::Int32 => 0x10,
            ElementType::TimeStamp => 0x11,
            ElementType::Int64 => 0x12,
            ElementType::MaxKey => 0x7F,
            ElementType::MinKey => 0xFF,
        }
    }

    /// The element type a tag byte names, if any.
    pub fn from_byte(tag: u8) -> (r: Option<ElementType>)
        ensures
            r == Self::from_byte_spec(tag),
    {
        match tag {
            0x01 => Some(ElementType::Double),
            0x02 => Some(ElementType::Utf8String),
            0x03 => Some(ElementType::Document),
            0x04 => Some(ElementType::Array),
            0x05 => Some(ElementType::Binary),
            0x06 => Some(ElementType::Undefined),
            0x07 => Some(ElementType::ObjectId),
            0x08 => Some(ElementType::Boolean),
            0x09 => Some(ElementType::UTCDatetime),
            0x0A => Some(ElementType::NullValue),
            0x0B => Some(ElementType::RegularExpression),
            0x0C => Some(ElementType::DBPointer),
            0x0D => Some(ElementType::JavaScriptCode),
            0x0E => Some(ElementType::Symbol),
            0x0F => Some(ElementType::JavaScriptCodeWithScope),
            0x10 => Some(ElementType::Int32),
            0x11 => Some(ElementType::TimeStamp),
            0x12 => Some(ElementType::Int64),
            0x7F => Some(ElementType::MaxKey),
            0xFF => Some(ElementType::MinKey),
            _ => None,
        }
    }
}

/// The subtype tag of a binary payload.
#[derive(Debug, Clone, Copy, PartialEq, Eq, Structural)]
pub enum BinarySubtype {
    Generic,
    Function,
    BinaryOld,
    UuidOld,
    Uuid,
    Md5,
    UserDefined(u8),
}

impl BinarySubtype {
    /// The byte this subtype is written as.
    pub open spec fn byte_spec(self) -> u8 {
        match self {
            BinarySubtype::Generic => 0x00,
            BinarySubtype::Function => 0x01,
            BinarySubtype::BinaryOld => 0x02,
            BinarySubtype::UuidOld => 0x03,
            BinarySubtype::Uuid => 0x04,
            BinarySubtype::Md5 => 0x05,
            BinarySubtype::UserDefined(b) => b,
        }
    }

    /// The subtype a byte names.
    pub open spec fn from_byte_spec(b: u8) -> BinarySubtype {
        if b == 0x00 {
            BinarySubtype::Generic
        } else if b == 0x01 {
            BinarySubtype::Function
        } else if b == 0x02 {
            BinarySubtype::BinaryOld
        } else if b == 0x03 {
            BinarySubtype::UuidOld
        } else if b == 0x04 {
            BinarySubtype::Uuid
        } else if b == 0x05 {
            BinarySubtype::Md5
        } else {
            BinarySubtype::UserDefined(b)
        }
    }

    /// A subtype is canonical when it is the one its own byte names.
    pub open spec fn canonical(self) -> bool {
        self == Self::from_byte_spec(self.byte_spec())
    }

    /// The byte this subtype is written as.
    pub fn byte(self) -> (r: u8)
        ensures
            r == self.byte_spec(),
    {
        match self {
            BinarySubtype::Generic => 0x00,
            BinarySubtype::Function => 0x01,
            BinarySubtype::BinaryOld => 0x02,
            BinarySubtype::UuidOld => 0x03,
            BinarySubtype::Uuid => 0x04,
            BinarySubtype::Md5 => 0x05,
            BinarySubtype::UserDefined(b) => b,
        }
    }

    /// The subtype a byte names.
    pub fn from_byte(b: u8) -> (r: BinarySubtype)
        ensures
            r == Self::from_byte_spec(b),
            r.canonical(),
    {
        match b {
            0x00 => BinarySubtype::Generic,
            0x01 => BinarySubtype::Function,
            0x02 => BinarySubtype::BinaryOld,
            0x03 => BinarySubtype::UuidOld,
            0x04 => BinarySubtype::Uuid,
            0x05 => BinarySubtype::Md5,
            _ => BinarySubtype::UserDefined(b),
        }
    }
}

/// A timestamp split into its two 32-bit halves: high-order time component
/// and ordinal increment.
#[derive(Debug, Clone, Copy, PartialEq, Eq, PartialOrd, Ord, Hash, Structural)]
pub struct TimeStamp {
    pub t: u32,
    pub i: u32,
}

/// A millisecond-precision instant: seconds since the epoch and a
/// nanosecond remainder, accepted only when the calendar maps the pair to
/// exactly one instant.
#[derive(Debug, Clone, Copy, PartialEq, Eq, PartialOrd, Ord, Hash, Structural)]
pub struct UTCDateTime {
    pub(crate) secs: i64,
    pub(crate) nanos: u32,
}

/// The whole seconds of a millisecond count (floor division).
pub open spec fn ms_secs(ms: int) -> int {
    ms / 1000
}

/// The nanosecond remainder of a millisecond count (never negative).
pub open spec fn ms_nanos(ms: int) -> int {
    (ms % 1000) * 1_000_000
}

impl UTCDateTime {
    /// Seconds since the epoch.
    pub open(crate) spec fn sec_spec(self) -> i64 {
        self.secs
    }

    /// Nanoseconds within the second.
    pub open(crate) spec fn nano_spec(self) -> u32 {
        self.nanos
    }

    /// The instant in milliseconds since the epoch, rounded toward the
    /// epoch within the second.
    pub open spec fn millis_int(self) -> int {
        self.sec_spec() * 1000 + self.nano_spec() as int / 1_000_000
    }

    /// Whether the millisecond count fits a 64-bit signed integer.
    pub open spec fn millis_fits(self) -> bool {
        i64::MIN <= self.millis_int() <= i64::MAX
    }

    /// A well-formed instant: the nanosecond field is a true remainder, the
    /// millisecond count fits, and the calendar knows the instant.
    pub open spec fn wf(self) -> bool {
        &&& self.nano_spec() < 1_000_000_000
        &&& self.millis_fits()
        &&& utc_in_range(self.sec_spec() as int, self.nano_spec() as int)
    }

    /// Builds an instant from seconds and nanoseconds; `None` when the
    /// nanoseconds are no remainder, the milliseconds would not fit, or the
    /// calendar has no unique instant for the pair.
    pub fn from_timestamp(secs: i64, nanos: u32) -> (r: Option<UTCDateTime>)
        ensures
            r is Some <==> ({
                &&& nanos < 1_000_000_000
                &&& i64::MIN <= secs * 1000 + nanos as int / 1_000_000 <= i64::MAX
                &&& utc_in_range(secs as int, nanos as int)
            }),
            r matches Some(dt) ==> dt.sec_spec() == secs && dt.nano_spec() == nanos && dt.wf(),
    {
        if nanos >= 1_000_000_000 {
            return None;
        }
        let k: i64 = (nanos / 1_000_000) as i64;
        let wide: i128 = (secs as i128) * 1000 + (k as i128);
        if wide < (i64::MIN as i128) || wide > (i64::MAX as i128) {
            return None;
        }
        match utc_timestamp_check(secs, nanos) {
            CalendarCheck::Unique => Some(UTCDateTime { secs, nanos }),
            _ => None,
        }
    }

    /// Builds an instant from milliseconds since the epoch; `None` when the
    /// calendar has no unique instant for it.
    pub fn from_millis(ms: i64) -> (r: Option<UTCDateTime>)
        ensures
            r is Some <==> utc_in_range(ms_secs(ms as int), ms_nanos(ms as int)),
            r matches Some(dt) ==> {
                &&& dt.sec_spec() == ms_secs(ms as int)
                &&& dt.nano_spec() == ms_nanos(ms as int)
                &&& dt.wf()
                &&& dt.millis_int() == ms
                &&& dt.nano_spec() % 1_000_000 == 0
            },
    {
        let (s, r): (i64, i64) = if ms >= 0 {
            let m = ms as u64;
            ((m / 1000) as i64, (m % 1000) as i64)
        } else {
            let m = (-(ms as i128)) as u64;
            let q = (m / 1000) as i64;
            let rr = (m % 1000) as i64;
            if rr == 0 {
                (-q, 0)
            } else {
                (-q - 1, 1000 - rr)
            }
        };
        proof {
            lemma_fundamental_div_mod_converse(ms as int, 1000, s as int, r as int);
        }
        let nanos: u32 = (r * 1_000_000) as u32;
        proof {
            assert(nanos as int == ms_nanos(ms as int));
            assert(s as int == ms_secs(ms as int));
        }
        match utc_timestamp_check(s, nanos) {
            CalendarCheck::Unique => {
                let dt = UTCDateTime { secs: s, nanos };
                proof {
                    assert(nanos as int / 1_000_000 == r as int) by {
                        lemma_div_multiples_vanish(r as int, 1_000_000);
                    }
                    lemma_fundamental_div_mod(ms as int, 1000);
                    assert(dt.millis_int() == ms);
                }
                Some(dt)
            },
            _ => None,
        }
    }

    /// Seconds since the epoch.
    pub fn timestamp(&self) -> (r: i64)
        ensures
            r == self.sec_spec(),
    {
        self.secs
    }

    /// Nanoseconds within the second.
    pub fn nanosecond(&self) -> (r: u32)
        ensures
            r == self.nano_spec(),
    {
        self.nanos
    }

    /// The instant in milliseconds since the epoch; precision below one
    /// millisecond is dropped.
    pub fn millis(&self) -> (r: i64)
        requires
            self.millis_fits(),
            self.nano_spec() < 1_000_000_000,
        ensures
            r as int == self.millis_int(),
    {
        let k: i64 = (self.nanos / 1_000_000) as i64;
        let wide: i128 = (self.secs as i128) * 1000 + (k as i128);
        wide as i64
    }
}

/// The mathematical model of a value: the same tree over sequences and
/// plain numbers.
pub enum MValue {
    /// The bit pattern of a 64-bit IEEE-754 number.
    Double(u64),
    String(Seq<char>),
    Array(Seq<MValue>),
    Document(Seq<(Seq<char>, MValue)>),
    Boolean(bool),
    Null,
    RegExp(Seq<char>, Seq<char>),
    JavaScriptCode(Seq<char>),
    JavaScriptCodeWithScope(Seq<char>, Seq<(Seq<char>, MValue)>),
    Int32(i32),
    Int64(i64),
    TimeStamp(i64),
    /// Subtype byte and payload.
    Binary(u8, Seq<u8>),
    ObjectId(Seq<u8>),
    /// Seconds since the epoch and nanoseconds within the second.
    UTCDatetime(i64, u32),
    Symbol(Seq<char>),
}

/// A value of any kind the wire format carries.
#[derive(Debug, PartialEq)]
pub enum Value {
    /// The bit pattern of a 64-bit IEEE-754 number, exactly the eight bytes
    /// of its wire form.
    Double(u64),
    String(String),
    Array(Array),
    Document(Document),
    Boolean(bool),
    Null,
    RegExp(String, String),
    JavaScriptCode(String),
    JavaScriptCodeWithScope(String, Document),
    Int32(i32),
    Int64(i64),
    TimeStamp(i64),
    Binary(BinarySubtype, Vec<u8>),
    ObjectId(ObjectId),
    UTCDatetime(UTCDateTime),
    Symbol(String),
}

/// An ordered sequence of values; the wire format derives each element's
/// key from its position.
#[derive(Debug, PartialEq)]
pub struct Array {
    pub(crate) inner: Vec<Value>,
}

/// The model of a sequence of values.
pub open(crate) spec fn model_seq(vs: Seq<Value>) -> Seq<MValue>
    decreases vs,
{
    if vs.len() == 0 {
        Seq::empty()
    } else {
        seq![vs[0].model()] + model_seq(vs.drop_first())
    }
}

/// The model of a sequence of key-value entries.
pub open(crate) spec fn model_entries(es: Seq<(String, Value)>) -> Seq<(Seq<char>, MValue)>
    decreases es,
{
    if es.len() == 0 {
        Seq::empty()
    } else {
        seq![(es[0].0@, es[0].1.model())] + model_entries(es.drop_first())
    }
}

impl Value {
    /// The mathematical model of this value.
    pub open(crate) spec fn model(self) -> MValue
        decreases self,
    {
        match self {
            Value::Double(bits) => MValue::Double(bits),
            Value::String(s) => MValue::String(s@),
            Value::Array(a) => MValue::Array(model_seq(a.inner@)),
            Value::Document(d) => MValue::Document(model_entries(d.entries@)),
            Value::Boolean(b) => MValue::Boolean(b),
            Value::Null => MValue::Null,
            Value::RegExp(p, o) => MValue::RegExp(p@, o@),
            Value::JavaScriptCode(c) => MValue::JavaScriptCode(c@),
            Value::JavaScriptCodeWithScope(c, d) => MValue::JavaScriptCodeWithScope(
                c@,
                model_entries(d.entries@),
            ),
            Value::Int32(v) => MValue::Int32(v),
            Value::Int64(v) => MValue::Int64(v),
            Value::TimeStamp(v) => MValue::TimeStamp(v),
            Value::Binary(t, data) => MValue::Binary(t.byte_spec(), data@),
            Value::ObjectId(oid) => MValue::ObjectId(oid.bytes_spec()),
            Value::UTCDatetime(dt) => MValue::UTCDatetime(dt.secs, dt.nanos),
            Value::Symbol(s) => MValue::Symbol(s@),
        }
    }

    /// The element type this value is written as.
    pub open spec fn element_type_spec(self) -> ElementType {
        match self {
            Value::Double(..) => ElementType::Double,
            Value::String(..) => ElementType::Utf8String,
            Value::Array(..) => ElementType::Array,
            Value::Document(..) => ElementType::Document,
            Value::Boolean(..) => ElementType::Boolean,
            Value::Null => ElementType::NullValue,
            Value::RegExp(..) => ElementType::RegularExpression,
            Value::JavaScriptCode(..) => ElementType::JavaScriptCode,
            Value::JavaScriptCodeWithScope(..) => ElementType::JavaScriptCodeWithScope,
            Value::Int32(..) => ElementType::Int32,
            Value::Int64(..) => ElementType::Int64,
            Value::TimeStamp(..) => ElementType::TimeStamp,
            Value::Binary(..) => ElementType::Binary,
            Value::ObjectId(..) => ElementType::ObjectId,
            Value::UTCDatetime(..) => ElementType::UTCDatetime,
            Value::Symbol(..) => ElementType::Symbol,
        }
    }

    /// The element type this value is written as.
    pub fn element_type(&self) -> (r: ElementType)
        ensures
            r == self.element_type_spec(),
    {
        match *self {
            Value::Double(..) => ElementType::Double,
            Value::String(..) => ElementType::Utf8String,
            Value::Array(..) => ElementType::Array,
            Value::Document(..) => ElementType::Document,
            Value::Boolean(..) => ElementType::Boolean,
            Value::Null => ElementType::NullValue,
            Value::RegExp(..) => ElementType::RegularExpression,
            Value::JavaScriptCode(..) => ElementType::JavaScriptCode,
            Value::JavaScriptCodeWithScope(..) => ElementType::JavaScriptCodeWithScope,
            Value::Int32(..) => ElementType::Int32,
            Value::Int64(..) => ElementType::Int64,
            Value::TimeStamp(..) => ElementType::TimeStamp,
            Value::Binary(..) => ElementType::Binary,
            Value::ObjectId(..) => ElementType::ObjectId,
            Value::UTCDatetime(..) => ElementType::UTCDatetime,
            Value::Symbol(..) => ElementType::Symbol,
        }
    }

    /// The bit pattern of the number, if this is a `Double`.
    pub fn as_f64(&self) -> (r: Option<u64>)
        ensures
            r == (match *self {
                Value::Double(bits) => Some(bits),
                _ => None::<u64>,
            }),
    {
        match *self {
            Value::Double(bits) => Some(bits),
            _ => None,
        }
    }

    /// The text, if this is a `String`.
    pub fn as_str(&self) -> (r: Option<&str>)
        ensures
            match *self {
                Value::String(s) => r matches Some(t) && t@ == s@,
                _ => r is None,
            },
    {
        match self {
            Value::String(s) => Some(s.as_str()),
            _ => None,
        }
    }

    /// The array, if this is an `Array`.
    pub fn as_array(&self) -> (r: Option<&Array>)
        ensures
            match *self {
                Value::Array(a) => r matches Some(x) && *x == a,
                _ => r is None,
            },
    {
        match self {
            Value::Array(a) => Some(a),
            _ => None,
        }
    }

    /// The document, if this is a `Document`.
    pub fn as_document(&self) -> (r: Option<&Document>)
        ensures
            match *self {
                Value::Document(d) => r matches Some(x) && *x == d,
                _ => r is None,
            },
    {
        match self {
            Value::Document(d) => Some(d),
            _ => None,
        }
    }

    /// The truth value, if this is a `Boolean`.
    pub fn as_bool(&self) -> (r: Option<bool>)
        ensures
            r == (match *self {
                Value::Boolean(b) => Some(b),
                _ => None::<bool>,
            }),
    {
        match *self {
            Value::Boolean(b) => Some(b),
            _ => None,
        }
    }

    /// The number, if this is an `Int32`.
    pub fn as_i32(&self) -> (r: Option<i32>)
        ensures
            r == (match *self {
                Value::Int32(v) => Some(v),
                _ => None::<i32>,
            }),
    {
        match *self {
            Value::Int32(v) => Some(v),
            _ => None,
        }
    }

    /// The number, if this is an `Int64`.
    pub fn as_i64(&self) -> (r: Option<i64>)
        ensures
            r == (match *self {
                Value::Int64(v) => Some(v),
                _ => None::<i64>,
            }),
    {
        match *self {
            Value::Int64(v) => Some(v),
            _ => None,
        }
    }

    /// The identifier, if this is an `ObjectId`.
    pub fn as_object_id(&self) -> (r: Option<&ObjectId>)
        ensures
            match *self {
                Value::ObjectId(oid) => r matches Some(x) && *x == oid,
                _ => r is None,
            },
    {
        match self {
            Value::ObjectId(oid) => Some(oid),
            _ => None,
        }
    }

    /// The instant, if this is a `UTCDatetime`.
    pub fn as_utc_date_time(&self) -> (r: Option<&UTCDateTime>)
        ensures
            match *self {
                Value::UTCDatetime(dt) => r matches Some(x) && *x == dt,
                _ => r is None,
            },
    {
        match self {
            Value::UTCDatetime(dt) => Some(dt),
            _ => None,
        }
    }

    /// The text, if this is a `Symbol`.
    pub fn as_symbol(&self) -> (r: Option<&str>)
        ensures
            match *self {
                Value::Symbol(s) => r matches Some(t) && t@ == s@,
                _ => r is None,
            },
    {
        match self {
            Value::Symbol(s) => Some(s.as_str()),
            _ => None,
        }
    }

    /// The packed 64-bit value, if this is a `TimeStamp`.
    pub fn as_timestamp(&self) -> (r: Option<i64>)
        ensures
            r == (match *self {
                Value::TimeStamp(v) => Some(v),
                _ => None::<i64>,
            }),
    {
        match *self {
            Value::TimeStamp(v) => Some(v),
            _ => None,
        }
    }

    /// Present exactly when this is `Null`.
    pub fn as_null(&self) -> (r: Option<()>)
        ensures
            r is Some <==> self is Null,
    {
        match *self {
            Value::Null => Some(()),
            _ => None,
        }
    }
}

impl Array {
    /// The values, in order.
    pub open(crate) spec fn values_spec(&self) -> Seq<Value> {
        self.inner@
    }

    /// The model of the array: the models of its values in order.
    pub open(crate) spec fn model(self) -> Seq<MValue> {
        model_seq(self.inner@)
    }

    /// An empty array.
    pub fn new() -> (r: Array)
        ensures
            r.model() == Seq::<MValue>::empty(),
            r.values_spec() == Seq::<Value>::empty(),
    {
        Array { inner: Vec::new() }
    }

    /// An empty array with room reserved for `capacity` values.
    pub fn with_capacity(capacity: usize) -> (r: Array)
        ensures
            r.model() == Seq::<MValue>::empty(),
            r.values_spec() == Seq::<Value>::empty(),
    {
        Array { inner: Vec::with_capacity(capacity) }
    }

    /// Wraps a vector of values.
    pub fn from_vec(vec: Vec<Value>) -> (r: Array)
        ensures
            r.values_spec() == vec@,
    {
        Array { inner: vec }
    }

    /// How many values the array holds.
    pub fn len(&self) -> (r: usize)
        ensures
            r == self.values_spec().len(),
    {
        self.inner.len()
    }

    /// Appends a value.
    pub fn push(&mut self, value: Value)
        ensures
            final(self).values_spec() == old(self).values_spec().push(value),
    {
        self.inner.push(value);
    }

    /// The values, borrowed.
    pub fn inner(&self) -> (r: &Vec<Value>)
        ensures
            r@ == self.values_spec(),
    {
        &self.inner
    }

    /// The values, owned.
    pub fn into_inner(self) -> (r: Vec<Value>)
        ensures
            r@ == self.values_spec(),
    {
        self.inner
    }

    /// The value at a position, if any.
    pub fn get_at(&self, index: usize) -> (r: Option<&Value>)
        ensures
            index < self.values_spec().len() ==> (r matches Some(v) && *v == self.values_spec()[
                index as int
            ]),
            index >= self.values_spec().len() ==> r is None,
    {
        if index < self.inner.len() {
            Some(&self.inner[index])
        } else {
            None
        }
    }
}

/// Copies a byte vector.
fn clone_bytes(v: &Vec<u8>) -> (r: Vec<u8>)
    ensures
        r@ == v@,
{
    let mut out: Vec<u8> = Vec::new();
    let n = v.len();
    let mut i: usize = 0;
    while i < n
        invariant
            i <= n,
            n == v@.len(),
            out@ == v@.subrange(0, i as int),
        decreases n - i,
    {
        out.push(v[i]);
        proof {
            assert(v@.subrange(0, i + 1 as int) =~= v@.subrange(0, i as int).push(
                v@[i as int],
            ));
        }
        i += 1;
    }
    proof {
        assert(v@.subrange(0, n as int) =~= v@);
    }
    out
}

/// Copies a value; the copy has the same model.
pub fn clone_value(v: &Value) -> (r: Value)
    ensures
        r.model() == v.model(),
    decreases v, 1int,
{
    match v {
        Value::Double(bits) => Value::Double(*bits),
        Value::String(s) => Value::String(s.clone()),
        Value::Array(a) => Value::Array(clone_array(a)),
        Value::Document(d) => Value::Document(clone_document(d)),
        Value::Boolean(b) => Value::Boolean(*b),
        Value::Null => Value::Null,
        Value::RegExp(p, o) => Value::RegExp(p.clone(), o.clone()),
        Value::JavaScriptCode(c) => Value::JavaScriptCode(c.clone()),
        Value::JavaScriptCodeWithScope(c, d) => Value::JavaScriptCodeWithScope(
            c.clone(),
            clone_document(d),
        ),
        Value::Int32(x) => Value::Int32(*x),
        Value::Int64(x) => Value::Int64(*x),
        Value::TimeStamp(x) => Value::TimeStamp(*x),
        Value::Binary(t, data) => Value::Binary(*t, clone_bytes(data)),
        Value::ObjectId(oid) => Value::ObjectId(*oid),
        Value::UTCDatetime(dt) => Value::UTCDatetime(*dt),
        Value::Symbol(s) => Value::Symbol(s.clone()),
    }
}

/// Copies an array; the copy has the same model.
#[verifier::loop_isolation(false)]
pub fn clone_array(a: &Array) -> (r: Array)
    ensures
        r.model() == a.model(),
    decreases a, 0int,
{
    let mut out: Vec<Value> = Vec::new();
    let n = a.inner.len();
    let mut i: usize = 0;
    while i < n
        invariant
            i <= n,
            out@.len() == i,
            forall|j: int| 0 <= j < i ==> #[trigger] out@[j].model() == a.inner@[j].model(),
        decreases n - i,
    {
        let e = clone_value(&a.inner[i]);
        out.push(e);
        i += 1;
    }
    proof {
        lemma_model_seq_len(out@);
        lemma_model_seq_len(a.inner@);
        assert forall|j: int| 0 <= j < n implies model_seq(out@)[j] == model_seq(a.inner@)[j] by {
            lemma_model_seq_index(out@, j);
            lemma_model_seq_index(a.inner@, j);
        }
        assert(model_seq(out@) =~= model_seq(a.inner@));
    }
    Array { inner: out }
}

/// Copies a document; the copy has the same model.
#[verifier::loop_isolation(false)]
pub fn clone_document(d: &Document) -> (r: Document)
    ensures
        r.model() == d.model(),
    decreases d, 0int,
{
    let mut out: Vec<(String, Value)> = Vec::new();
    let n = d.entries.len();
    let mut i: usize = 0;
    while i < n
        invariant
            i <= n,
            out@.len() == i,
            forall|j: int|
                0 <= j < i ==> #[trigger] out@[j].0@ == d.entries@[j].0@ && out@[j].1.model()
                    == d.entries@[j].1.model(),
        decreases n - i,
    {
        let pair = &d.entries[i];
        let k = pair.0.clone();
        let v = clone_value(&pair.1);
        out.push((k, v));
        i += 1;
    }
    proof {
        lemma_model_entries_len(out@);
        lemma_model_entries_len(d.entries@);
        assert forall|j: int|
            0 <= j < n implies model_entries(out@)[j] == model_entries(d.entries@)[j] by {
            lemma_model_entries_index(out@, j);
            lemma_model_entries_index(d.entries@, j);
        }
        assert(model_entries(out@) =~= model_entries(d.entries@));
    }
    Document { entries: out }
}

impl Clone for Value {
    /// A copy with the same model.
    fn clone(&self) -> (r: Value)
        ensures
            r.model() == self.model(),
    {
        clone_value(self)
    }
}

impl Clone for Array {
    /// A copy with the same model.
    fn clone(&self) -> (r: Array)
        ensures
            r.model() == self.model(),
    {
        clone_array(self)
    }
}

/// The model of an array grows value by value.
pub proof fn lemma_model_seq_push(vs: Seq<Value>, v: Value)
    ensures
        model_seq(vs.push(v)) == model_seq(vs).push(v.model()),
{
    lemma_model_seq_len(vs);
    lemma_model_seq_len(vs.push(v));
    assert forall|i: int| 0 <= i < vs.len() + 1 implies model_seq(vs.push(v))[i] == model_seq(
        vs,
    ).push(v.model())[i] by {
        lemma_model_seq_index(vs.push(v), i);
        if i < vs.len() {
            lemma_model_seq_index(vs, i);
            assert(vs.push(v)[i] == vs[i]);
        } else {
            assert(vs.push(v)[i] == v);
        }
    }
    assert(model_seq(vs.push(v)) =~= model_seq(vs).push(v.model()));
}

/// The model of a sequence of values, read at one position.
pub proof fn lemma_model_seq_index(vs: Seq<Value>, i: int)
    requires
        0 <= i < vs.len(),
    ensures
        model_seq(vs).len() == vs.len(),
        model_seq(vs)[i] == vs[i].model(),
    decreases vs.len(),
{
    lemma_model_seq_len(vs);
    if i > 0 {
        lemma_model_seq_index(vs.drop_first(), i - 1);
    }
}

/// The model of a sequence of values has the same length.
pub proof fn lemma_model_seq_len(vs: Seq<Value>)
    ensures
        model_seq(vs).len() == vs.len(),
    decreases vs.len(),
{
    if vs.len() > 0 {
        lemma_model_seq_len(vs.drop_first());
    }
}

/// The model of a sequence of entries has the same length.
pub proof fn lemma_model_entries_len(es: Seq<(String, Value)>)
    ensures
        model_entries(es).len() == es.len(),
    decreases es.len(),
{
    if es.len() > 0 {
        lemma_model_entries_len(es.drop_first());
    }
}

/// The model of a sequence of entries, read at one position.
pub proof fn lemma_model_entries_index(es: Seq<(String, Value)>, i: int)
    requires
        0 <= i < es.len(),
    ensures
        model_entries(es).len() == es.len(),
        model_entries(es)[i] == (es[i].0@, es[i].1.model()),
    decreases es.len(),
{
    lemma_model_entries_len(es);
    if i > 0 {
        lemma_model_entries_index(es.drop_first(), i - 1);
    }
}

/// Dropping the first entry and taking the model commute.
pub proof fn lemma_model_entries_drop(es: Seq<(String, Value)>)
    requires
        es.len() > 0,
    ensures
        model_entries(es).drop_first() == model_entries(es.drop_first()),
{
    lemma_model_entries_len(es);
    lemma_model_entries_len(es.drop_first());
    assert forall|i: int|
        0 <= i < es.len() - 1 implies model_entries(es).drop_first()[i] == model_entries(
        es.drop_first(),
    )[i] by {
        lemma_model_entries_index(es, i + 1);
        lemma_model_entries_index(es.drop_first(), i);
        assert(es.drop_first()[i] == es[i + 1]);
    }
    assert(model_entries(es).drop_first() =~= model_entries(es.drop_first()));
}

/// The model of a sequence of entries grows entry by entry.
pub proof fn lemma_model_entries_push(es: Seq<(String, Value)>, k: String, v: Value)
    ensures
        model_entries(es.push((k, v))) == model_entries(es).push((k@, v.model())),
{
    lemma_model_entries_len(es);
    lemma_model_entries_len(es.push((k, v)));
    assert forall|i: int| 0 <= i < es.len() + 1 implies model_entries(es.push((k, v)))[i]
        == model_entries(es).push((k@, v.model()))[i] by {
        lemma_model_entries_index(es.push((k, v)), i);
        if i < es.len() {
            lemma_model_entries_index(es, i);
            assert(es.push((k, v))[i] == es[i]);
        } else {
            assert(es.push((k, v))[i] == (k, v));
        }
    }
    assert(model_entries(es.push((k, v))) =~= model_entries(es).push((k@, v.model())));
}

/// The model of a sequence of entries, with one entry's value replaced.
pub proof fn lemma_model_entries_update(es: Seq<(String, Value)>, i: int, k: String, v: Value)
    requires
        0 <= i < es.len(),
    ensures
        model_entries(es.update(i, (k, v))) == model_entries(es).update(i, (k@, v.model())),
{
    lemma_model_entries_len(es);
    lemma_model_entries_len(es.update(i, (k, v)));
    assert forall|j: int| 0 <= j < es.len() implies model_entries(es.update(i, (k, v)))[j]
        == model_entries(es).update(i, (k@, v.model()))[j] by {
        lemma_model_entries_index(es.update(i, (k, v)), j);
        if j != i {
            lemma_model_entries_index(es, j);
            assert(es.update(i, (k, v))[j] == es[j]);
        } else {
            assert(es.update(i, (k, v))[j] == (k, v));
        }
    }
    assert(model_entries(es.update(i, (k, v))) =~= model_entries(es).update(
        i,
        (k@, v.model()),
    ));
}

} // verus!
