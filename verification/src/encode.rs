//! The binary encoder: the wire format as spec functions over the value
//! model, and an encoder proved to produce exactly those bytes.

use crate::decimal::dec_str;
use crate::decimal::usize_to_dec_string;
use crate::doc::Document;
use crate::value::{MValue, Value};
use vstd::bytes::{
    lemma_auto_spec_u32_to_from_le_bytes, lemma_auto_spec_u64_to_from_le_bytes,
    spec_u32_to_le_bytes, spec_u64_to_le_bytes, u32_to_le_bytes, u64_to_le_bytes,
};
use vstd::prelude::*;
use vstd::utf8::encode_utf8;

verus! {

/// The largest string payload the decoder accepts, in bytes, counting the
/// closing zero byte.
pub const MAX_STRING_SIZE: usize = 16 * 1024 * 1024;

/// What encoding can report.
#[derive(Debug)]
pub enum EncodeError {
    IoError(std::io::Error),
    InvalidMapKeyType(Value),
    Unknown(String),
    UnsupportedUnsignedType,
}

#[verifier::external_type_specification]
#[verifier::external_body]
pub struct ExIoError(std::io::Error);

/// The wire tag of a model value.
pub open spec fn m_tag(v: MValue) -> u8 {
    match v {
        MValue::Double(..) => 0x01,
        MValue::String(..) => 0x02,
        MValue::Document(..) => 0x03,
        MValue::Array(..) => 0x04,
        MValue::Binary(..) => 0x05,
        MValue::ObjectId(..) => 0x07,
        MValue::Boolean(..) => 0x08,
        MValue::UTCDatetime(..) => 0x09,
        MValue::Null => 0x0A,
        MValue::RegExp(..) => 0x0B,
        MValue::JavaScriptCode(..) => 0x0D,
        MValue::Symbol(..) => 0x0E,
        MValue::JavaScriptCodeWithScope(..) => 0x0F,
        MValue::Int32(..) => 0x10,
        MValue::TimeStamp(..) => 0x11,
        MValue::Int64(..) => 0x12,
    }
}

/// A 32-bit signed number on the wire: four bytes, little-endian.
pub open spec fn ser_i32(x: i32) -> Seq<u8> {
    spec_u32_to_le_bytes(x as u32)
}

/// A 64-bit signed number on the wire: eight bytes, little-endian.
pub open spec fn ser_i64(x: i64) -> Seq<u8> {
    spec_u64_to_le_bytes(x as u64)
}

/// A key on the wire: its UTF-8 bytes closed by a zero byte.
pub open spec fn ser_cstring(s: Seq<char>) -> Seq<u8> {
    encode_utf8(s) + seq![0u8]
}

/// A string payload on the wire: byte count plus one, the UTF-8 bytes, a
/// zero byte.
pub open spec fn ser_string(s: Seq<char>) -> Seq<u8> {
    ser_i32((encode_utf8(s).len() + 1) as i32) + encode_utf8(s) + seq![0u8]
}

/// The milliseconds a datetime is written as.
pub open spec fn dt_ms(secs: i64, nanos: u32) -> int {
    secs * 1000 + nanos as int / 1_000_000
}

/// One element on the wire: tag byte, key, payload.
pub open spec fn ser_elem(k: Seq<char>, v: MValue) -> Seq<u8>
    decreases v, 3int,
{
    seq![m_tag(v)] + ser_cstring(k) + ser_value(v)
}

/// The payload of one value on the wire.
pub open spec fn ser_value(v: MValue) -> Seq<u8>
    decreases v, 2int,
{
    match v {
        MValue::Double(bits) => spec_u64_to_le_bytes(bits),
        MValue::String(s) => ser_string(s),
        MValue::Array(vs) => {
            let body = ser_arr_elems(vs, 0);
            ser_i32((body.len() + 5) as i32) + body + seq![0u8]
        },
        MValue::Document(es) => ser_doc(es),
        MValue::Boolean(b) => seq![if b { 1u8 } else { 0u8 }],
        MValue::Null => Seq::empty(),
        MValue::RegExp(p, o) => ser_cstring(p) + ser_cstring(o),
        MValue::JavaScriptCode(c) => ser_string(c),
        MValue::JavaScriptCodeWithScope(c, es) => {
            let inner = ser_string(c) + ser_doc(es);
            ser_i32((inner.len() + 4) as i32) + inner
        },
        MValue::Int32(x) => ser_i32(x),
        MValue::Int64(x) => ser_i64(x),
        MValue::TimeStamp(x) => ser_i64(x),
        MValue::Binary(t, data) => ser_i32(data.len() as i32) + seq![t] + data,
        MValue::ObjectId(bytes) => bytes,
        MValue::UTCDatetime(secs, nanos) => ser_i64(dt_ms(secs, nanos) as i64),
        MValue::Symbol(s) => ser_string(s),
    }
}

/// A whole document on the wire: length prefix, elements, a zero byte.
pub open spec fn ser_doc(es: Seq<(Seq<char>, MValue)>) -> Seq<u8>
    decreases es, 1int,
{
    let body = ser_entries(es);
    ser_i32((body.len() + 5) as i32) + body + seq![0u8]
}

/// The elements of a document on the wire, in order.
pub open spec fn ser_entries(es: Seq<(Seq<char>, MValue)>) -> Seq<u8>
    decreases es, 0int,
{
    if es.len() == 0 {
        Seq::empty()
    } else {
        ser_elem(es[0].0, es[0].1) + ser_entries(es.drop_first())
    }
}

/// The elements of an array on the wire, from position `i` on, each keyed
/// by its position in decimal.
pub open spec fn ser_arr_elems(vs: Seq<MValue>, i: int) -> Seq<u8>
    decreases vs, vs.len() - i,
{
    if i < 0 || i >= vs.len() {
        Seq::empty()
    } else {
        ser_elem(dec_str(i as nat), vs[i]) + ser_arr_elems(vs, i + 1)
    }
}

/// Whether a value can be encoded: every string payload within the size
/// bound, every length and every datetime within its machine word.
pub open spec fn enc_ok(v: MValue) -> bool
    decreases v, 1int,
{
    match v {
        MValue::String(s) => str_size_ok(s),
        MValue::Array(vs) => enc_ok_seq(vs) && ser_arr_elems(vs, 0).len() + 5 <= i32::MAX,
        MValue::Document(es) => enc_ok_entries(es) && ser_entries(es).len() + 5 <= i32::MAX,
        MValue::JavaScriptCode(c) => str_size_ok(c),
        MValue::JavaScriptCodeWithScope(c, es) => {
            &&& str_size_ok(c)
            &&& enc_ok_entries(es)
            &&& ser_entries(es).len() + 5 <= i32::MAX
            &&& ser_string(c).len() + ser_doc(es).len() + 4 <= i32::MAX
        },
        MValue::Binary(_, data) => data.len() <= i32::MAX,
        MValue::UTCDatetime(secs, nanos) => nanos < 1_000_000_000 && i64::MIN <= dt_ms(
            secs,
            nanos,
        ) <= i64::MAX,
        MValue::Symbol(s) => str_size_ok(s),
        _ => true,
    }
}

/// Whether a string payload fits the size bound.
pub open spec fn str_size_ok(s: Seq<char>) -> bool {
    encode_utf8(s).len() + 1 <= MAX_STRING_SIZE
}

/// Whether every value of a sequence can be encoded.
pub open spec fn enc_ok_seq(vs: Seq<MValue>) -> bool
    decreases vs, 0int,
{
    if vs.len() == 0 {
        true
    } else {
        enc_ok(vs[0]) && enc_ok_seq(vs.drop_first())
    }
}

/// Whether every value of a document can be encoded.
pub open spec fn enc_ok_entries(es: Seq<(Seq<char>, MValue)>) -> bool
    decreases es, 0int,
{
    if es.len() == 0 {
        true
    } else {
        enc_ok(es[0].1) && enc_ok_entries(es.drop_first())
    }
}

/// Each value of an encodable sequence is encodable.
pub proof fn lemma_enc_ok_seq_index(vs: Seq<MValue>, i: int)
    requires
        enc_ok_seq(vs),
        0 <= i < vs.len(),
    ensures
        enc_ok(vs[i]),
    decreases vs.len(),
{
    if i > 0 {
        lemma_enc_ok_seq_index(vs.drop_first(), i - 1);
    }
}

/// Each value of an encodable document is encodable.
pub proof fn lemma_enc_ok_entries_index(es: Seq<(Seq<char>, MValue)>, i: int)
    requires
        enc_ok_entries(es),
        0 <= i < es.len(),
    ensures
        enc_ok(es[i].1),
    decreases es.len(),
{
    if i > 0 {
        lemma_enc_ok_entries_index(es.drop_first(), i - 1);
    }
}

/// The wire tag of a value is the wire tag of its model.
pub proof fn lemma_value_tag(v: Value)
    ensures
        v.element_type_spec().byte_spec() == m_tag(v.model()),
{
}

/// Appends the bytes of a slice to a buffer.
fn write_bytes(buf: &mut Vec<u8>, data: &[u8])
    ensures
        final(buf)@ == old(buf)@ + data@,
{
    let n = data.len();
    let mut i: usize = 0;
    while i < n
        invariant
            i <= n,
            n == data@.len(),
            buf@ == old(buf)@ + data@.subrange(0, i as int),
        decreases n - i,
    {
        buf.push(data[i]);
        proof {
            assert(old(buf)@ + data@.subrange(0, i + 1 as int) =~= (old(buf)@ + data@.subrange(
                0,
                i as int,
            )).push(data@[i as int]));
        }
        i += 1;
    }
    proof {
        assert(data@.subrange(0, n as int) =~= data@);
    }
}

/// Writes a 32-bit signed number, little-endian.
pub fn write_i32(buf: &mut Vec<u8>, v: i32)
    ensures
        final(buf)@ == old(buf)@ + ser_i32(v),
{
    let mut tmp = u32_to_le_bytes(v as u32);
    buf.append(&mut tmp);
}

/// Writes a 64-bit signed number, little-endian.
pub fn write_i64(buf: &mut Vec<u8>, v: i64)
    ensures
        final(buf)@ == old(buf)@ + ser_i64(v),
{
    let mut tmp = u64_to_le_bytes(v as u64);
    buf.append(&mut tmp);
}

/// Writes a 64-bit unsigned number, little-endian.
pub fn write_u64(buf: &mut Vec<u8>, v: u64)
    ensures
        final(buf)@ == old(buf)@ + spec_u64_to_le_bytes(v),
{
    let mut tmp = u64_to_le_bytes(v);
    buf.append(&mut tmp);
}

/// Writes a key: its UTF-8 bytes closed by a zero byte.
pub fn write_cstring(buf: &mut Vec<u8>, s: &str)
    ensures
        final(buf)@ == old(buf)@ + ser_cstring(s@),
{
    write_bytes(buf, s.as_bytes());
    buf.push(0);
    proof {
        assert(final(buf)@ =~= old(buf)@ + ser_cstring(s@));
    }
}

/// Writes a string payload: byte count plus one, the UTF-8 bytes, a zero
/// byte.
pub fn write_string(buf: &mut Vec<u8>, s: &str)
    requires
        encode_utf8(s@).len() + 1 <= i32::MAX,
    ensures
        final(buf)@ == old(buf)@ + ser_string(s@),
{
    let n = s.len();
    write_i32(buf, (n + 1) as i32);
    write_bytes(buf, s.as_bytes());
    buf.push(0);
    proof {
        assert(final(buf)@ =~= old(buf)@ + ser_string(s@));
    }
}

/// Appends one element: tag byte, key, payload.
pub fn encode_bson(buf: &mut Vec<u8>, key: &str, val: &Value) -> (r: Result<(), EncodeError>)
    requires
        enc_ok(val.model()),
    ensures
        r is Ok,
        final(buf)@ == old(buf)@ + ser_elem(key@, val.model()),
    decreases val, 1int,
{
    buf.push(val.element_type().byte());
    proof {
        lemma_value_tag(*val);
    }
    write_cstring(buf, key);
    encode_value(buf, val);
    proof {
        assert(final(buf)@ =~= old(buf)@ + ser_elem(key@, val.model()));
    }
    Ok(())
}

/// Appends the payload of one value.
#[verifier::loop_isolation(false)]
fn encode_value(buf: &mut Vec<u8>, val: &Value)
    requires
        enc_ok(val.model()),
    ensures
        final(buf)@ == old(buf)@ + ser_value(val.model()),
    decreases val, 0int,
{
    match val {
        Value::Double(bits) => {
            write_u64(buf, *bits);
        },
        Value::String(s) => {
            write_string(buf, s);
        },
        Value::Array(a) => {
            let ghost vm = crate::value::model_seq(a.values_spec());
            let n = a.len();
            proof {
                crate::value::lemma_model_seq_len(a.values_spec());
            }
            let mut body: Vec<u8> = Vec::new();
            proof {
                assert(Seq::<u8>::empty() + ser_arr_elems(vm, 0) =~= ser_arr_elems(vm, 0));
            }
            let mut i: usize = 0;
            while i < n
                invariant
                    i <= n,
                    n == a.values_spec().len(),
                    vm == crate::value::model_seq(a.values_spec()),
                    vm.len() == n,
                    enc_ok(MValue::Array(vm)),
                    body@ + ser_arr_elems(vm, i as int) == ser_arr_elems(vm, 0),
                decreases n - i,
            {
                let v = &a.inner[i];
                proof {
                    crate::value::lemma_model_seq_index(a.values_spec(), i as int);
                    lemma_enc_ok_seq_index(vm, i as int);
                }
                let key = usize_to_dec_string(i);
                let ghost before = body@;
                buf_elem(&mut body, key.as_str(), v);
                proof {
                    assert(body@ + ser_arr_elems(vm, i + 1 as int) =~= before + (ser_elem(
                        dec_str(i as nat),
                        vm[i as int],
                    ) + ser_arr_elems(vm, i + 1 as int)));
                    assert(ser_elem(dec_str(i as nat), vm[i as int]) + ser_arr_elems(
                        vm,
                        i + 1 as int,
                    ) == ser_arr_elems(vm, i as int));
                    assert(body@ + ser_arr_elems(vm, i + 1 as int) =~= ser_arr_elems(vm, 0));
                }
                i += 1;
            }
            proof {
                assert(ser_arr_elems(vm, n as int) =~= Seq::<u8>::empty());
                assert(body@ =~= ser_arr_elems(vm, 0));
            }
            body.push(0);
            write_i32(buf, (body.len() + 4) as i32);
            write_bytes(buf, body.as_slice());
            proof {
                assert(final(buf)@ =~= old(buf)@ + ser_value(val.model()));
            }
        },
        Value::Document(d) => {
            encode_document_into(buf, d);
        },
        Value::Boolean(b) => {
            buf.push(if *b {
                1
            } else {
                0
            });
            proof {
                assert(final(buf)@ =~= old(buf)@ + ser_value(val.model()));
            }
        },
        Value::Null => {
            proof {
                assert(final(buf)@ =~= old(buf)@ + ser_value(val.model()));
            }
        },
        Value::RegExp(p, o) => {
            write_cstring(buf, p);
            write_cstring(buf, o);
            proof {
                assert(final(buf)@ =~= old(buf)@ + ser_value(val.model()));
            }
        },
        Value::JavaScriptCode(c) => {
            write_string(buf, c);
        },
        Value::JavaScriptCodeWithScope(c, scope) => {
            let mut inner: Vec<u8> = Vec::new();
            write_string(&mut inner, c);
            encode_document_into(&mut inner, scope);
            write_i32(buf, (inner.len() + 4) as i32);
            write_bytes(buf, inner.as_slice());
            proof {
                assert(final(buf)@ =~= old(buf)@ + ser_value(val.model()));
            }
        },
        Value::Int32(x) => {
            write_i32(buf, *x);
        },
        Value::Int64(x) => {
            write_i64(buf, *x);
        },
        Value::TimeStamp(x) => {
            write_i64(buf, *x);
        },
        Value::Binary(t, data) => {
            write_i32(buf, data.len() as i32);
            buf.push(t.byte());
            write_bytes(buf, data.as_slice());
            proof {
                assert(final(buf)@ =~= old(buf)@ + ser_value(val.model()));
            }
        },
        Value::ObjectId(oid) => {
            let b = oid.bytes();
            write_bytes(buf, b.as_slice());
        },
        Value::UTCDatetime(dt) => {
            write_i64(buf, dt.millis());
        },
        Value::Symbol(s) => {
            write_string(buf, s);
        },
    }
}

/// Appends a whole document: length prefix, elements, a zero byte.
#[verifier::loop_isolation(false)]
fn encode_document_into(buf: &mut Vec<u8>, d: &Document)
    requires
        enc_ok(MValue::Document(d.model())),
    ensures
        final(buf)@ == old(buf)@ + ser_doc(d.model()),
    decreases d, 2int,
{
    let ghost dm = d.model();
    let n = d.len();
    proof {
        crate::value::lemma_model_entries_len(d.entries_spec());
    }
    let mut body: Vec<u8> = Vec::new();
    proof {
        assert(dm.skip(0) =~= dm);
        assert(Seq::<u8>::empty() + ser_entries(dm) =~= ser_entries(dm));
    }
    let mut i: usize = 0;
    while i < n
        invariant
            i <= n,
            n == d.entries_spec().len(),
            dm == d.model(),
            dm.len() == n,
            enc_ok(MValue::Document(dm)),
            body@ + ser_entries(dm.skip(i as int)) == ser_entries(dm),
        decreases n - i,
    {
        let pair = &d.entries[i];
        proof {
            crate::value::lemma_model_entries_index(d.entries_spec(), i as int);
            lemma_enc_ok_entries_index(dm, i as int);
            assert(dm[i as int] == (pair.0@, pair.1.model()));
        }
        let ghost before = body@;
        buf_elem(&mut body, pair.0.as_str(), &pair.1);
        proof {
            assert(dm.skip(i as int)[0] == dm[i as int]);
            assert(dm.skip(i as int).drop_first() =~= dm.skip(i + 1 as int));
            assert(ser_entries(dm.skip(i as int)) == ser_elem(pair.0@, pair.1.model())
                + ser_entries(dm.skip(i + 1 as int)));
            assert(body@ + ser_entries(dm.skip(i + 1 as int)) =~= ser_entries(dm));
        }
        i += 1;
    }
    proof {
        assert(dm.skip(n as int) =~= Seq::<(Seq<char>, MValue)>::empty());
        assert(body@ =~= ser_entries(dm));
    }
    body.push(0);
    write_i32(buf, (body.len() + 4) as i32);
    write_bytes(buf, body.as_slice());
    proof {
        assert(final(buf)@ =~= old(buf)@ + ser_doc(dm));
    }
}

/// Appends one element to a body buffer.
fn buf_elem(body: &mut Vec<u8>, key: &str, val: &Value)
    requires
        enc_ok(val.model()),
    ensures
        final(body)@ == old(body)@ + ser_elem(key@, val.model()),
    decreases val, 1int,
{
    body.push(val.element_type().byte());
    proof {
        lemma_value_tag(*val);
    }
    write_cstring(body, key);
    encode_value(body, val);
    proof {
        assert(final(body)@ =~= old(body)@ + ser_elem(key@, val.model()));
    }
}

/// Encodes a whole document to bytes.
pub fn encode_document(d: &Document) -> (r: Result<Vec<u8>, EncodeError>)
    requires
        enc_ok(MValue::Document(d.model())),
    ensures
        r matches Ok(v) && v@ == ser_doc(d.model()),
{
    let mut buf: Vec<u8> = Vec::new();
    encode_document_into(&mut buf, d);
    Ok(buf)
}

} // verus!
