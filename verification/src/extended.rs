//! The extended-document bridge: value kinds with no native counterpart in
//! a generic tree notation stand in as small key-tagged documents, and are
//! read back from them.

use crate::calendar::utc_in_range;
use crate::doc::{
    has_key, key_index, lemma_key_index, lemma_key_index_model, lemma_m_key_index, m_has_key,
    m_key_index, Document,
};
use crate::hex::{bytes_of_hex, from_hex, hex_of, is_hex_seq, to_hex};
use crate::object_id::ObjectId;
use crate::value::{
    clone_document, lemma_model_entries_index, ms_nanos, ms_secs, BinarySubtype, MValue,
    UTCDateTime, Value,
};
use vstd::prelude::*;

verus! {

/// The value under a key of a model document, if any.
pub open spec fn m_get(es: Seq<(Seq<char>, MValue)>, k: Seq<char>) -> Option<MValue> {
    if m_has_key(es, k) {
        Some(es[m_key_index(es, k)].1)
    } else {
        None
    }
}

/// The high half of a packed timestamp.
pub open spec fn ts_hi(v: i64) -> i32 {
    (((v as u64) >> 32) as u32) as i32
}

/// The low half of a packed timestamp.
pub open spec fn ts_lo(v: i64) -> i32 {
    ((v as u64) as u32) as i32
}

/// The two halves packed back into one timestamp.
pub open spec fn ts_compose(hi: u32, lo: u32) -> i64 {
    (((hi as u64) << 32) | (lo as u64)) as i64
}

/// Splitting a timestamp and packing the halves gives the timestamp.
pub proof fn lemma_ts_roundtrip(v: i64)
    ensures
        ts_compose(ts_hi(v) as u32, ts_lo(v) as u32) == v,
{
    assert((((((((v as u64) >> 32) as u32) as i32) as u32) as u64) << 32 | (((((v as u64) as u32)
        as i32) as u32) as u64)) as i64 == v) by (bit_vector);
}

/// The extended-document stand-in for a value kind without a native tree
/// form.
pub open spec fn ext_doc_model(m: MValue) -> Seq<(Seq<char>, MValue)> {
    match m {
        MValue::RegExp(p, o) => seq![
            ("$regex"@, MValue::String(p)),
            ("$options"@, MValue::String(o)),
        ],
        MValue::JavaScriptCode(c) => seq![("$code"@, MValue::String(c))],
        MValue::JavaScriptCodeWithScope(c, es) => seq![
            ("$code"@, MValue::String(c)),
            ("$scope"@, MValue::Document(es)),
        ],
        MValue::TimeStamp(v) => seq![
            ("t"@, MValue::Int32(ts_hi(v))),
            ("i"@, MValue::Int32(ts_lo(v))),
        ],
        MValue::Binary(t, data) => seq![
            ("$binary"@, MValue::String(hex_of(data))),
            ("type"@, MValue::Int64(t as i64)),
        ],
        MValue::ObjectId(bs) => seq![("$oid"@, MValue::String(hex_of(bs)))],
        MValue::UTCDatetime(secs, nanos) => seq![
            (
                "$date"@,
                MValue::Document(
                    seq![
                        (
                            "$numberLong"@,
                            MValue::Int64(
                                (secs * 1000 + nanos as int / 1_000_000) as i64,
                            ),
                        ),
                    ],
                ),
            ),
        ],
        MValue::Symbol(s) => seq![("$symbol"@, MValue::String(s))],
        _ => Seq::empty(),
    }
}

/// The string under a key of a model document, if any.
pub open spec fn m_get_str(es: Seq<(Seq<char>, MValue)>, k: Seq<char>) -> Option<Seq<char>> {
    match m_get(es, k) {
        Some(MValue::String(s)) => Some(s),
        _ => None,
    }
}

/// The 32-bit number under a key of a model document, if any.
pub open spec fn m_get_i32(es: Seq<(Seq<char>, MValue)>, k: Seq<char>) -> Option<i32> {
    match m_get(es, k) {
        Some(MValue::Int32(x)) => Some(x),
        _ => None,
    }
}

/// The 64-bit number under a key of a model document, if any.
pub open spec fn m_get_i64(es: Seq<(Seq<char>, MValue)>, k: Seq<char>) -> Option<i64> {
    match m_get(es, k) {
        Some(MValue::Int64(x)) => Some(x),
        _ => None,
    }
}

/// The nested document under a key of a model document, if any.
pub open spec fn m_get_doc(es: Seq<(Seq<char>, MValue)>, k: Seq<char>) -> Option<
    Seq<(Seq<char>, MValue)>,
> {
    match m_get(es, k) {
        Some(MValue::Document(d)) => Some(d),
        _ => None,
    }
}

/// The value an extended document stands for: the recognized one- and
/// two-key shapes, tried in a fixed order; a document that matches none
/// stands for itself.
pub open spec fn ext_value_of(es: Seq<(Seq<char>, MValue)>) -> MValue {
    if es.len() == 2 {
        if m_get_str(es, "$regex"@) is Some && m_get_str(es, "$options"@) is Some {
            MValue::RegExp(
                m_get_str(es, "$regex"@).unwrap(),
                m_get_str(es, "$options"@).unwrap(),
            )
        } else if m_get_str(es, "$code"@) is Some && m_get_doc(es, "$scope"@) is Some {
            MValue::JavaScriptCodeWithScope(
                m_get_str(es, "$code"@).unwrap(),
                m_get_doc(es, "$scope"@).unwrap(),
            )
        } else if m_get_i32(es, "t"@) is Some && m_get_i32(es, "i"@) is Some {
            MValue::TimeStamp(
                ts_compose(
                    m_get_i32(es, "t"@).unwrap() as u32,
                    m_get_i32(es, "i"@).unwrap() as u32,
                ),
            )
        } else if m_get_i64(es, "t"@) is Some && m_get_i64(es, "i"@) is Some {
            MValue::TimeStamp(
                ts_compose(
                    m_get_i64(es, "t"@).unwrap() as u32,
                    m_get_i64(es, "i"@).unwrap() as u32,
                ),
            )
        } else if m_get_str(es, "$binary"@) is Some && m_get_i64(es, "type"@) is Some {
            let h = m_get_str(es, "$binary"@).unwrap();
            if is_hex_seq(h) {
                MValue::Binary(m_get_i64(es, "type"@).unwrap() as u8, bytes_of_hex(h))
            } else {
                MValue::Document(es)
            }
        } else {
            MValue::Document(es)
        }
    } else if es.len() == 1 {
        if m_get_str(es, "$code"@) is Some {
            MValue::JavaScriptCode(m_get_str(es, "$code"@).unwrap())
        } else if m_get_str(es, "$oid"@) is Some {
            let h = m_get_str(es, "$oid"@).unwrap();
            if is_hex_seq(h) && h.len() == 24 {
                MValue::ObjectId(bytes_of_hex(h))
            } else {
                MValue::Document(es)
            }
        } else if m_get_doc(es, "$date"@) is Some {
            let dd = m_get_doc(es, "$date"@).unwrap();
            if m_get_i64(dd, "$numberLong"@) is Some {
                let ms = m_get_i64(dd, "$numberLong"@).unwrap();
                if utc_in_range(ms_secs(ms as int), ms_nanos(ms as int)) {
                    MValue::UTCDatetime(
                        ms_secs(ms as int) as i64,
                        ms_nanos(ms as int) as u32,
                    )
                } else {
                    MValue::Document(es)
                }
            } else {
                MValue::Document(es)
            }
        } else if m_get_str(es, "$symbol"@) is Some {
            MValue::Symbol(m_get_str(es, "$symbol"@).unwrap())
        } else {
            MValue::Document(es)
        }
    } else {
        MValue::Document(es)
    }
}

/// Whether reading the stand-in back is guaranteed to give the value: for
/// a datetime, the instant must lie on a whole millisecond the calendar
/// knows; every other kind round-trips without condition.
pub open spec fn ext_roundtrip_pre(m: MValue) -> bool {
    match m {
        MValue::UTCDatetime(secs, nanos) => nanos as int % 1_000_000 == 0 && utc_in_range(
            secs as int,
            nanos as int,
        ),
        _ => true,
    }
}

impl Value {
    /// Whether this value kind has no native form in a generic tree
    /// notation and is carried as an extended document instead.
    pub open spec fn exotic(self) -> bool {
        match self {
            Value::RegExp(..) => true,
            Value::JavaScriptCode(..) => true,
            Value::JavaScriptCodeWithScope(..) => true,
            Value::TimeStamp(..) => true,
            Value::Binary(..) => true,
            Value::ObjectId(..) => true,
            Value::UTCDatetime(..) => true,
            Value::Symbol(..) => true,
            _ => false,
        }
    }

    /// What `to_extended_document` asks of its receiver: an exotic value,
    /// with any datetime's milliseconds within the machine word.
    pub open spec fn extended_ok(self) -> bool {
        &&& self.exotic()
        &&& match self {
            Value::UTCDatetime(dt) => dt.nano_spec() < 1_000_000_000 && dt.millis_fits(),
            _ => true,
        }
    }
}

/// The value under a key of a document, when it is a string.
fn get_m_str<'a>(d: &'a Document, key: &str) -> (r: Option<&'a str>)
    ensures
        match r {
            Some(t) => m_get_str(d.model(), key@) == Some(t@),
            None => m_get_str(d.model(), key@) is None,
        },
{
    proof {
        bridge_get(d, key@);
    }
    match d.get(key) {
        Some(v) => match v {
            Value::String(s) => Some(s.as_str()),
            _ => None,
        },
        None => None,
    }
}

/// The value under a key of a document, when it is a 32-bit number.
fn get_m_i32(d: &Document, key: &str) -> (r: Option<i32>)
    ensures
        match r {
            Some(x) => m_get_i32(d.model(), key@) == Some(x),
            None => m_get_i32(d.model(), key@) is None,
        },
{
    proof {
        bridge_get(d, key@);
    }
    match d.get(key) {
        Some(v) => match v {
            Value::Int32(x) => Some(*x),
            _ => None,
        },
        None => None,
    }
}

/// The value under a key of a document, when it is a 64-bit number.
fn get_m_i64(d: &Document, key: &str) -> (r: Option<i64>)
    ensures
        match r {
            Some(x) => m_get_i64(d.model(), key@) == Some(x),
            None => m_get_i64(d.model(), key@) is None,
        },
{
    proof {
        bridge_get(d, key@);
    }
    match d.get(key) {
        Some(v) => match v {
            Value::Int64(x) => Some(*x),
            _ => None,
        },
        None => None,
    }
}

/// The value under a key of a document, when it is a nested document.
fn get_m_doc<'a>(d: &'a Document, key: &str) -> (r: Option<&'a Document>)
    ensures
        match r {
            Some(dd) => m_get_doc(d.model(), key@) == Some(dd.model()),
            None => m_get_doc(d.model(), key@) is None,
        },
{
    proof {
        bridge_get(d, key@);
    }
    match d.get(key) {
        Some(v) => match v {
            Value::Document(dd) => Some(dd),
            _ => None,
        },
        None => None,
    }
}

/// The two halves packed back into one timestamp.
fn ts_compose_exec(hi: u32, lo: u32) -> (r: i64)
    ensures
        r == ts_compose(hi, lo),
{
    (((hi as u64) << 32) | (lo as u64)) as i64
}

/// A present key is found where it stands.
proof fn lemma_m_get_at(es: Seq<(Seq<char>, MValue)>, i: int)
    requires
        0 <= i < es.len(),
        forall|j: int| 0 <= j < i ==> es[j].0 != es[i].0,
    ensures
        m_get(es, es[i].0) == Some(es[i].1),
{
    let k = es[i].0;
    lemma_m_key_index(es, k);
    let ki = m_key_index(es, k);
    if ki < i {
        assert(es[ki].0 == k);
        assert(false);
    }
    if ki > i {
        assert(es[i].0 != k);
        assert(false);
    }
}

/// An absent key is found nowhere.
proof fn lemma_m_get_none(es: Seq<(Seq<char>, MValue)>, k: Seq<char>)
    requires
        forall|j: int| 0 <= j < es.len() ==> es[j].0 != k,
    ensures
        m_get(es, k) is None,
{
    lemma_m_key_index(es, k);
}

impl Value {
    /// The extended document standing in for this value; defined for the
    /// kinds without a native tree form. Reading the stand-in back with
    /// `from_extended_document` gives the value again — for a datetime,
    /// provided the instant lies on a whole millisecond the calendar
    /// knows.
    pub fn to_extended_document(&self) -> (r: Document)
        requires
            self.extended_ok(),
        ensures
            r.model() == ext_doc_model(self.model()),
            ext_roundtrip_pre(self.model()) ==> ext_value_of(r.model()) == self.model(),
    {
        let ghost em = ext_doc_model(self.model());
        match self {
            Value::RegExp(p, o) => {
                proof {
                    reveal_strlit("$regex");
                    reveal_strlit("$options");
                    assert("$regex"@.len() == 6);
                    assert("$options"@.len() == 8);
                    assert("$regex"@ != "$options"@);
                }
                let d = doc2(
                    "$regex",
                    Value::String(p.clone()),
                    "$options",
                    Value::String(o.clone()),
                );
                proof {
                    assert(d.model() =~= em);
                    lemma_m_get_at(em, 0);
                    lemma_m_get_at(em, 1);
                }
                d
            },
            Value::JavaScriptCode(c) => {
                proof {
                    reveal_strlit("$code");
                }
                let d = doc1("$code", Value::String(c.clone()));
                proof {
                    assert(d.model() =~= em);
                    lemma_m_get_at(em, 0);
                }
                d
            },
            Value::JavaScriptCodeWithScope(c, scope) => {
                proof {
                    reveal_strlit("$code");
                    reveal_strlit("$scope");
                    reveal_strlit("$regex");
                    assert("$code"@.len() == 5 && "$scope"@.len() == 6 && "$regex"@.len()
                        == 6);
                    assert("$scope"@[1] == 's' && "$regex"@[1] == 'r');
                    assert("$code"@ != "$scope"@);
                    assert("$code"@ != "$regex"@);
                    assert("$scope"@ != "$regex"@);
                }
                let d = doc2(
                    "$code",
                    Value::String(c.clone()),
                    "$scope",
                    Value::Document(clone_document(scope)),
                );
                proof {
                    assert(d.model() =~= em);
                    lemma_m_get_none(em, "$regex"@);
                    lemma_m_get_at(em, 0);
                    lemma_m_get_at(em, 1);
                }
                d
            },
            Value::TimeStamp(v) => {
                let u = *v as u64;
                let hi = (u >> 32) as u32;
                let lo = u as u32;
                proof {
                    reveal_strlit("t");
                    reveal_strlit("i");
                    reveal_strlit("$regex");
                    reveal_strlit("$code");
                    assert("t"@.len() == 1 && "i"@.len() == 1 && "$regex"@.len() == 6
                        && "$code"@.len() == 5);
                    assert("t"@[0] == 't' && "i"@[0] == 'i');
                    assert("t"@ != "i"@);
                    assert("t"@ != "$regex"@ && "i"@ != "$regex"@);
                    assert("t"@ != "$code"@ && "i"@ != "$code"@);
                }
                let d = doc2("t", Value::Int32(hi as i32), "i", Value::Int32(lo as i32));
                proof {
                    assert(hi as i32 == ts_hi(*v) && lo as i32 == ts_lo(*v));
                    assert(d.model() =~= em);
                    lemma_m_get_none(em, "$regex"@);
                    lemma_m_get_none(em, "$code"@);
                    lemma_m_get_at(em, 0);
                    lemma_m_get_at(em, 1);
                    lemma_ts_roundtrip(*v);
                    let vv = *v;
                    assert(((((vv as u64 >> 32) as u32) as i32) as u32) == ((vv as u64 >> 32)
                        as u32)) by (bit_vector);
                    assert(((((vv as u64) as u32) as i32) as u32) == ((vv as u64)
                        as u32)) by (bit_vector);
                }
                d
            },
            Value::Binary(t, data) => {
                proof {
                    reveal_strlit("$binary");
                    reveal_strlit("type");
                    reveal_strlit("$regex");
                    reveal_strlit("$code");
                    reveal_strlit("t");
                    assert("$binary"@.len() == 7 && "type"@.len() == 4 && "$regex"@.len()
                        == 6 && "$code"@.len() == 5 && "t"@.len() == 1);
                    assert("$binary"@ != "type"@);
                    assert("$binary"@ != "$regex"@ && "type"@ != "$regex"@);
                    assert("$binary"@ != "$code"@ && "type"@ != "$code"@);
                    assert("$binary"@ != "t"@ && "type"@ != "t"@);
                }
                let d = doc2(
                    "$binary",
                    Value::String(to_hex(data.as_slice())),
                    "type",
                    Value::Int64(t.byte() as i64),
                );
                proof {
                    assert(d.model() =~= em);
                    lemma_m_get_none(em, "$regex"@);
                    lemma_m_get_none(em, "$code"@);
                    lemma_m_get_none(em, "t"@);
                    lemma_m_get_at(em, 0);
                    lemma_m_get_at(em, 1);
                    crate::hex::lemma_hex_roundtrip(data@);
                    let tb = t.byte_spec();
                    assert((tb as i64) as u8 == tb) by (bit_vector);
                }
                d
            },
            Value::ObjectId(oid) => {
                proof {
                    reveal_strlit("$oid");
                    reveal_strlit("$code");
                    assert("$oid"@.len() == 4 && "$code"@.len() == 5);
                    assert("$oid"@ != "$code"@);
                }
                let d = doc1("$oid", Value::String(oid.to_hex()));
                proof {
                    assert(d.model() =~= em);
                    lemma_m_get_none(em, "$code"@);
                    lemma_m_get_at(em, 0);
                    crate::hex::lemma_hex_roundtrip(oid.bytes_spec());
                }
                d
            },
            Value::UTCDatetime(dt) => {
                proof {
                    reveal_strlit("$numberLong");
                    reveal_strlit("$date");
                    reveal_strlit("$code");
                    reveal_strlit("$oid");
                    assert("$date"@.len() == 5 && "$code"@.len() == 5 && "$oid"@.len() == 4);
                    assert("$date"@[1] == 'd' && "$code"@[1] == 'c');
                    assert("$date"@ != "$code"@);
                    assert("$date"@ != "$oid"@);
                }
                let inner = doc1("$numberLong", Value::Int64(dt.millis()));
                let d = doc1("$date", Value::Document(inner));
                proof {
                    assert(d.model() =~= em);
                    lemma_m_get_none(em, "$code"@);
                    lemma_m_get_none(em, "$oid"@);
                    lemma_m_get_at(em, 0);
                    if ext_roundtrip_pre(self.model()) {
                        let ghost dm = em[0].1->Document_0;
                        lemma_m_get_at(dm, 0);
                        lemma_datetime_roundtrip(dt.sec_spec(), dt.nano_spec());
                    }
                }
                d
            },
            Value::Symbol(sy) => {
                proof {
                    reveal_strlit("$symbol");
                    reveal_strlit("$code");
                    reveal_strlit("$oid");
                    reveal_strlit("$date");
                    assert("$symbol"@.len() == 7 && "$code"@.len() == 5 && "$oid"@.len() == 4
                        && "$date"@.len() == 5);
                    assert("$symbol"@ != "$code"@);
                    assert("$symbol"@ != "$oid"@);
                    assert("$symbol"@ != "$date"@);
                }
                let d = doc1("$symbol", Value::String(sy.clone()));
                proof {
                    assert(d.model() =~= em);
                    lemma_m_get_none(em, "$code"@);
                    lemma_m_get_none(em, "$oid"@);
                    lemma_m_get_none(em, "$date"@);
                    lemma_m_get_at(em, 0);
                }
                d
            },
            _ => {
                proof {
                    assert(false);
                }
                Document::new()
            },
        }
    }

    /// The value an extended document stands for, exactly as
    /// `ext_value_of` reads it; a document that matches no recognized
    /// shape — ill-formed hexadecimal and out-of-range datetimes
    /// included — comes back as itself.
    pub fn from_extended_document(values: Document) -> (r: Value)
        ensures
            r.model() == ext_value_of(values.model()),
    {
        proof {
            crate::value::lemma_model_entries_len(values.entries_spec());
        }
        let n = values.len();
        if n == 2 {
            let rx_some = get_m_str(&values, "$regex").is_some();
            if rx_some {
                if let Some(o) = get_m_str(&values, "$options") {
                    let p = match get_m_str(&values, "$regex") {
                        Some(p) => p,
                        None => {
                            proof {
                                assert(false);
                            }
                            ""
                        },
                    };
                    return Value::RegExp(p.to_owned(), o.to_owned());
                }
            }
            let c_some = get_m_str(&values, "$code").is_some();
            if c_some {
                if let Some(sc) = get_m_doc(&values, "$scope") {
                    let scope = clone_document(sc);
                    let c = match get_m_str(&values, "$code") {
                        Some(c) => c,
                        None => {
                            proof {
                                assert(false);
                            }
                            ""
                        },
                    };
                    return Value::JavaScriptCodeWithScope(c.to_owned(), scope);
                }
            }
            if let Some(tv) = get_m_i32(&values, "t") {
                if let Some(iv) = get_m_i32(&values, "i") {
                    return Value::TimeStamp(ts_compose_exec(tv as u32, iv as u32));
                }
            }
            if let Some(tv) = get_m_i64(&values, "t") {
                if let Some(iv) = get_m_i64(&values, "i") {
                    return Value::TimeStamp(ts_compose_exec(tv as u32, iv as u32));
                }
            }
            let ty_opt = get_m_i64(&values, "type");
            if let Some(ty) = ty_opt {
                let data_opt = match get_m_str(&values, "$binary") {
                    Some(h) => Some(from_hex(h)),
                    None => None,
                };
                match data_opt {
                    Some(Some(data)) => {
                        let tb = BinarySubtype::from_byte(ty as u8);
                        proof {
                            assert(tb.byte_spec() == ty as u8);
                        }
                        return Value::Binary(tb, data);
                    },
                    Some(None) => {
                        return Value::Document(values);
                    },
                    None => {},
                }
            }
            return Value::Document(values);
        }
        if n == 1 {
            if let Some(c) = get_m_str(&values, "$code") {
                return Value::JavaScriptCode(c.to_owned());
            }
            let oid_r = match get_m_str(&values, "$oid") {
                Some(h) => Some(ObjectId::with_string(h)),
                None => None,
            };
            match oid_r {
                Some(Some(oid)) => {
                    return Value::ObjectId(oid);
                },
                Some(None) => {
                    return Value::Document(values);
                },
                None => {},
            }
            let ms_r = match get_m_doc(&values, "$date") {
                Some(dd) => Some(get_m_i64(dd, "$numberLong")),
                None => None,
            };
            match ms_r {
                Some(Some(ms)) => {
                    match UTCDateTime::from_millis(ms) {
                        Some(dt) => {
                            return Value::UTCDatetime(dt);
                        },
                        None => {
                            return Value::Document(values);
                        },
                    }
                },
                Some(None) => {
                    return Value::Document(values);
                },
                None => {},
            }
            if let Some(s) = get_m_str(&values, "$symbol") {
                return Value::Symbol(s.to_owned());
            }
            return Value::Document(values);
        }
        Value::Document(values)
    }
}

/// A datetime on a whole millisecond is read back from its millisecond
/// count exactly.
proof fn lemma_datetime_roundtrip(secs: i64, nanos: u32)
    requires
        nanos < 1_000_000_000,
        nanos as int % 1_000_000 == 0,
        i64::MIN <= secs * 1000 + nanos as int / 1_000_000 <= i64::MAX,
    ensures
        ms_secs(secs * 1000 + nanos as int / 1_000_000) == secs as int,
        ms_nanos(secs * 1000 + nanos as int / 1_000_000) == nanos as int,
{
    let k = nanos as int / 1_000_000;
    assert(nanos as int == k * 1_000_000) by {
        vstd::arithmetic::div_mod::lemma_fundamental_div_mod(nanos as int, 1_000_000);
    }
    assert(0 <= k < 1000);
    vstd::arithmetic::div_mod::lemma_fundamental_div_mod_converse(
        secs * 1000 + k,
        1000,
        secs as int,
        k,
    );
}

/// What `get` reports, read at the model level.
proof fn bridge_get(d: &Document, k: Seq<char>)
    ensures
        has_key(d.entries_spec(), k) == m_has_key(d.model(), k),
        has_key(d.entries_spec(), k) ==> {
            &&& m_get(d.model(), k) == Some(
                d.entries_spec()[key_index(d.entries_spec(), k)].1.model(),
            )
            &&& 0 <= key_index(d.entries_spec(), k) < d.entries_spec().len()
        },
        !has_key(d.entries_spec(), k) ==> m_get(d.model(), k) is None,
{
    lemma_key_index(d.entries_spec(), k);
    lemma_key_index_model(d.entries_spec(), k);
    if has_key(d.entries_spec(), k) {
        lemma_model_entries_index(d.entries_spec(), key_index(d.entries_spec(), k));
    }
}

impl crate::value::TimeStamp {
    /// The packed value this split timestamp stands for.
    pub fn to_value(&self) -> (r: Value)
        ensures
            r == Value::TimeStamp(ts_compose(self.t, self.i)),
    {
        Value::TimeStamp(ts_compose_exec(self.t, self.i))
    }
}

impl UTCDateTime {
    /// The instant as a value.
    pub fn to_value(self) -> (r: Value)
        ensures
            r == Value::UTCDatetime(self),
    {
        Value::UTCDatetime(self)
    }
}

/// A document of one entry.
fn doc1(k: &str, v: Value) -> (d: Document)
    ensures
        d.entries_spec().len() == 1,
        d.model() == seq![(k@, v.model())],
        d.model().len() == 1,
        d.model()[0] == (k@, v.model()),
{
    let mut d = Document::new();
    proof {
        crate::doc::lemma_key_index(Seq::<(String, Value)>::empty(), k@);
    }
    d.insert_value(k.to_owned(), v);
    proof {
        crate::value::lemma_model_entries_len(d.entries_spec());
        crate::value::lemma_model_entries_index(d.entries_spec(), 0);
        assert(d.model() =~= seq![(k@, v.model())]);
    }
    d
}

/// A document of two entries under distinct keys.
fn doc2(k1: &str, v1: Value, k2: &str, v2: Value) -> (d: Document)
    requires
        k1@ != k2@,
    ensures
        d.entries_spec().len() == 2,
        d.model() == seq![(k1@, v1.model()), (k2@, v2.model())],
        d.model().len() == 2,
        d.model()[0] == (k1@, v1.model()),
        d.model()[1] == (k2@, v2.model()),
{
    let mut d = Document::new();
    proof {
        crate::doc::lemma_key_index(Seq::<(String, Value)>::empty(), k1@);
    }
    d.insert_value(k1.to_owned(), v1);
    let ghost es1 = d.entries_spec();
    proof {
        crate::doc::lemma_key_index(es1, k2@);
    }
    d.insert_value(k2.to_owned(), v2);
    proof {
        crate::value::lemma_model_entries_len(d.entries_spec());
        crate::value::lemma_model_entries_index(d.entries_spec(), 0);
        crate::value::lemma_model_entries_index(d.entries_spec(), 1);
        assert(d.model() =~= seq![(k1@, v1.model()), (k2@, v2.model())]);
    }
    d
}

} // verus!
