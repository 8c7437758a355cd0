//! The binary decoder: the wire format read back, as a total parsing
//! function over byte sequences, and a decoder proved to return exactly
//! what that function says.

use crate::calendar::utc_in_range;
use crate::decimal::{parse_usize_spec, parse_usize_str};
use crate::doc::{m_insert, Document};
use crate::object_id::ObjectId;
use crate::text::{lossy_utf8, string_from_utf8, string_from_utf8_lossy};
use crate::value::{ms_nanos, ms_secs, BinarySubtype, MValue, UTCDateTime, Value};
use vstd::bytes::{
    lemma_auto_spec_u32_to_from_le_bytes, lemma_auto_spec_u64_to_from_le_bytes,
    spec_u32_from_le_bytes, spec_u64_from_le_bytes, u32_from_le_bytes, u64_from_le_bytes,
};
use vstd::prelude::*;
use vstd::string::StringExecFns;
use vstd::utf8::{decode_utf8, valid_utf8};

verus! {

/// What decoding can report.
#[derive(Debug)]
pub enum DecodeError {
    IoError(std::io::Error),
    FromUtf8Error(std::string::FromUtf8Error),
    UnrecognizedElementType(u8),
    InvalidArrayKey(usize, String),
    ExpectedField(&'static str),
    UnknownField(String),
    SyntaxError(String),
    EndOfStream,
    InvalidType(String),
    InvalidLength(usize, String),
    DuplicatedField(&'static str),
    UnknownVariant(String),
    InvalidValue(String),
    InvalidTimestamp(i64),
    AmbiguousTimestamp(i64),
    Unknown(String),
}

/// How a parse can fail, at the model level.
pub enum PErr {
    /// The stream ended before the element did.
    Eof,
    /// A key was not UTF-8.
    KeyUtf8,
    /// A tag byte that names no decodable element type.
    Tag(u8),
    /// An array key out of sequence: the expected position and the key
    /// that was read.
    ArrayKey(int, Seq<char>),
    /// A string length out of bounds: the declared length, read as a
    /// machine word.
    StrLen(int),
    /// A millisecond count the calendar has no instant for.
    BadDate(i64),
}

/// The model-level failure a decode error reports, for the errors the
/// decoder itself produces.
pub open spec fn err_model(e: DecodeError) -> Option<PErr> {
    match e {
        DecodeError::EndOfStream => Some(PErr::Eof),
        DecodeError::FromUtf8Error(..) => Some(PErr::KeyUtf8),
        DecodeError::UnrecognizedElementType(t) => Some(PErr::Tag(t)),
        DecodeError::InvalidArrayKey(want, got) => Some(PErr::ArrayKey(want as int, got@)),
        DecodeError::InvalidLength(l, _) => Some(PErr::StrLen(l as int)),
        DecodeError::InvalidTimestamp(ms) => Some(PErr::BadDate(ms)),
        _ => None,
    }
}

/// The 32-bit signed number at a position, little-endian.
pub open spec fn rd_i32(b: Seq<u8>, p: int) -> i32 {
    spec_u32_from_le_bytes(b.subrange(p, p + 4)) as i32
}

/// The 64-bit unsigned number at a position, little-endian.
pub open spec fn rd_u64(b: Seq<u8>, p: int) -> u64 {
    spec_u64_from_le_bytes(b.subrange(p, p + 8))
}

/// The position of the first zero byte at or after `p`, or the length
/// when there is none.
pub open spec fn cstr_end(b: Seq<u8>, p: int) -> int
    decreases b.len() - p,
{
    if p < 0 || p >= b.len() {
        b.len() as int
    } else if b[p] == 0 {
        p
    } else {
        cstr_end(b, p + 1)
    }
}

/// Where the first zero byte stands.
pub proof fn lemma_cstr_end(b: Seq<u8>, p: int)
    requires
        0 <= p <= b.len(),
    ensures
        p <= cstr_end(b, p) <= b.len(),
        cstr_end(b, p) < b.len() ==> b[cstr_end(b, p)] == 0,
        forall|t: int| p <= t < cstr_end(b, p) ==> b[t] != 0,
    decreases b.len() - p,
{
    if p < b.len() && b[p] != 0 {
        lemma_cstr_end(b, p + 1);
    }
}

/// Scanning past leading nonzero bytes does not move the first zero.
pub proof fn lemma_cstr_end_from(b: Seq<u8>, p: int, j: int)
    requires
        0 <= p <= j <= b.len(),
        forall|t: int| p <= t < j ==> b[t] != 0,
    ensures
        cstr_end(b, p) == cstr_end(b, j),
    decreases j - p,
{
    if p < j {
        lemma_cstr_end_from(b, p + 1, j);
    }
}

/// A key on the wire: the bytes up to the first zero byte, decoded as
/// UTF-8.
pub open spec fn parse_cstring(b: Seq<u8>, p: int) -> Result<(Seq<char>, int), PErr> {
    let e = cstr_end(b, p);
    if e >= b.len() {
        Err(PErr::Eof)
    } else {
        let kb = b.subrange(p, e);
        if valid_utf8(kb) {
            Ok((decode_utf8(kb), e + 1))
        } else {
            Err(PErr::KeyUtf8)
        }
    }
}

/// A string payload on the wire: a length within bounds, that many bytes
/// less one of content recovered leniently, one closing byte.
pub open spec fn parse_string(b: Seq<u8>, p: int) -> Result<(Seq<char>, int), PErr> {
    if p < 0 || p + 4 > b.len() {
        Err(PErr::Eof)
    } else {
        let l = rd_i32(b, p);
        if l < 1 || l > 16 * 1024 * 1024 {
            Err(PErr::StrLen((l as usize) as int))
        } else if p + 4 + l > b.len() {
            Err(PErr::Eof)
        } else {
            let content = b.subrange(p + 4, p + 4 + l - 1);
            let s = if valid_utf8(content) {
                decode_utf8(content)
            } else {
                lossy_utf8(content)
            };
            Ok((s, p + 4 + l))
        }
    }
}

/// The document entries folded into a document: later values replace
/// earlier ones under the same key, which keeps its position.
pub open spec fn doc_of_pairs(ps: Seq<(Seq<char>, MValue)>) -> Seq<(Seq<char>, MValue)>
    decreases ps.len(),
{
    if ps.len() == 0 {
        Seq::empty()
    } else {
        m_insert(doc_of_pairs(ps.drop_last()), ps.last().0, ps.last().1)
    }
}

/// Folding grows pair by pair.
pub proof fn lemma_doc_of_pairs_push(ps: Seq<(Seq<char>, MValue)>, k: Seq<char>, v: MValue)
    ensures
        doc_of_pairs(ps.push((k, v))) == m_insert(doc_of_pairs(ps), k, v),
{
    assert(ps.push((k, v)).drop_last() =~= ps);
    assert(ps.push((k, v)).last() == (k, v));
}

/// A whole document on the wire: a length prefix that is read and not
/// used as a bound, elements until a zero byte, folded in read order.
pub open spec fn parse_doc(b: Seq<u8>, p: int) -> Result<(Seq<(Seq<char>, MValue)>, int), PErr>
    decreases b.len() - p, 3int,
{
    if p < 0 || p + 4 > b.len() {
        Err(PErr::Eof)
    } else {
        match parse_entries(b, p + 4) {
            Ok((pairs, q)) => Ok((doc_of_pairs(pairs), q)),
            Err(e) => Err(e),
        }
    }
}

/// The raw elements of a document on the wire, in read order.
pub open spec fn parse_entries(b: Seq<u8>, p: int) -> Result<
    (Seq<(Seq<char>, MValue)>, int),
    PErr,
>
    decreases b.len() - p, 2int,
{
    if p < 0 || p >= b.len() {
        Err(PErr::Eof)
    } else if b[p] == 0 {
        Ok((Seq::empty(), p + 1))
    } else {
        let tag = b[p];
        match parse_cstring(b, p + 1) {
            Err(e) => Err(e),
            Ok((k, q)) => {
                if q <= p || q > b.len() {
                    Err(PErr::Eof)
                } else {
                    match parse_value(b, q, tag) {
                        Err(e) => Err(e),
                        Ok((v, q2)) => {
                            if q2 <= p || q2 > b.len() {
                                Err(PErr::Eof)
                            } else {
                                match parse_entries(b, q2) {
                                    Err(e) => Err(e),
                                    Ok((rest, q3)) => Ok((seq![(k, v)] + rest, q3)),
                                }
                            }
                        },
                    }
                }
            },
        }
    }
}

/// The elements of an array on the wire from position `idx` on: each key
/// must read back as the element's position.
pub open spec fn parse_arr_items(b: Seq<u8>, p: int, idx: int) -> Result<(Seq<MValue>, int), PErr>
    decreases b.len() - p, 2int,
{
    if p < 0 || p >= b.len() {
        Err(PErr::Eof)
    } else if b[p] == 0 {
        Ok((Seq::empty(), p + 1))
    } else {
        let tag = b[p];
        match parse_cstring(b, p + 1) {
            Err(e) => Err(e),
            Ok((k, q)) => {
                if parse_usize_spec(k) != Some(idx) {
                    Err(PErr::ArrayKey(idx, k))
                } else if q <= p || q > b.len() {
                    Err(PErr::Eof)
                } else {
                    match parse_value(b, q, tag) {
                        Err(e) => Err(e),
                        Ok((v, q2)) => {
                            if q2 <= p || q2 > b.len() {
                                Err(PErr::Eof)
                            } else {
                                match parse_arr_items(b, q2, idx + 1) {
                                    Err(e) => Err(e),
                                    Ok((rest, q3)) => Ok((seq![v] + rest, q3)),
                                }
                            }
                        },
                    }
                }
            },
        }
    }
}

/// An array on the wire: a document whose keys count up from zero.
pub open spec fn parse_arr(b: Seq<u8>, p: int) -> Result<(Seq<MValue>, int), PErr>
    decreases b.len() - p, 3int,
{
    if p < 0 || p + 4 > b.len() {
        Err(PErr::Eof)
    } else {
        parse_arr_items(b, p + 4, 0)
    }
}

/// The payload of one element on the wire, by its tag byte.
pub open spec fn parse_value(b: Seq<u8>, p: int, tag: u8) -> Result<(MValue, int), PErr>
    decreases b.len() - p, 4int,
{
    if p < 0 {
        Err(PErr::Eof)
    } else if tag == 0x01 {
        if p + 8 > b.len() {
            Err(PErr::Eof)
        } else {
            Ok((MValue::Double(rd_u64(b, p)), p + 8))
        }
    } else if tag == 0x02 {
        match parse_string(b, p) {
            Ok((s, q)) => Ok((MValue::String(s), q)),
            Err(e) => Err(e),
        }
    } else if tag == 0x03 {
        match parse_doc(b, p) {
            Ok((es, q)) => Ok((MValue::Document(es), q)),
            Err(e) => Err(e),
        }
    } else if tag == 0x04 {
        match parse_arr(b, p) {
            Ok((vs, q)) => Ok((MValue::Array(vs), q)),
            Err(e) => Err(e),
        }
    } else if tag == 0x05 {
        if p + 4 > b.len() {
            Err(PErr::Eof)
        } else {
            let l = rd_i32(b, p) as usize;
            if p + 5 > b.len() || p + 5 + l > b.len() {
                Err(PErr::Eof)
            } else {
                Ok((MValue::Binary(b[p + 4], b.subrange(p + 5, p + 5 + l)), p + 5 + l))
            }
        }
    } else if tag == 0x07 {
        if p + 12 > b.len() {
            Err(PErr::Eof)
        } else {
            Ok((MValue::ObjectId(b.subrange(p, p + 12)), p + 12))
        }
    } else if tag == 0x08 {
        if p + 1 > b.len() {
            Err(PErr::Eof)
        } else {
            Ok((MValue::Boolean(b[p] != 0), p + 1))
        }
    } else if tag == 0x09 {
        if p + 8 > b.len() {
            Err(PErr::Eof)
        } else {
            let ms = rd_u64(b, p) as i64;
            if utc_in_range(ms_secs(ms as int), ms_nanos(ms as int)) {
                Ok(
                    (
                        MValue::UTCDatetime(
                            ms_secs(ms as int) as i64,
                            ms_nanos(ms as int) as u32,
                        ),
                        p + 8,
                    ),
                )
            } else {
                Err(PErr::BadDate(ms))
            }
        }
    } else if tag == 0x0A {
        Ok((MValue::Null, p))
    } else if tag == 0x0B {
        match parse_cstring(b, p) {
            Err(e) => Err(e),
            Ok((pat, q)) => match parse_cstring(b, q) {
                Err(e) => Err(e),
                Ok((opt, q2)) => Ok((MValue::RegExp(pat, opt), q2)),
            },
        }
    } else if tag == 0x0D {
        match parse_string(b, p) {
            Ok((s, q)) => Ok((MValue::JavaScriptCode(s), q)),
            Err(e) => Err(e),
        }
    } else if tag == 0x0E {
        match parse_string(b, p) {
            Ok((s, q)) => Ok((MValue::Symbol(s), q)),
            Err(e) => Err(e),
        }
    } else if tag == 0x0F {
        if p + 4 > b.len() {
            Err(PErr::Eof)
        } else {
            match parse_string(b, p + 4) {
                Err(e) => Err(e),
                Ok((c, q)) => {
                    if q <= p || q > b.len() {
                        Err(PErr::Eof)
                    } else {
                        match parse_doc(b, q) {
                            Err(e) => Err(e),
                            Ok((es, q2)) => Ok((MValue::JavaScriptCodeWithScope(c, es), q2)),
                        }
                    }
                },
            }
        }
    } else if tag == 0x10 {
        if p + 4 > b.len() {
            Err(PErr::Eof)
        } else {
            Ok((MValue::Int32(rd_i32(b, p)), p + 4))
        }
    } else if tag == 0x11 {
        if p + 8 > b.len() {
            Err(PErr::Eof)
        } else {
            Ok((MValue::TimeStamp(rd_u64(b, p) as i64), p + 8))
        }
    } else if tag == 0x12 {
        if p + 8 > b.len() {
            Err(PErr::Eof)
        } else {
            Ok((MValue::Int64(rd_u64(b, p) as i64), p + 8))
        }
    } else {
        Err(PErr::Tag(tag))
    }
}

/// Copies a byte range out of a slice.
fn bytes_range(bytes: &[u8], a: usize, b2: usize) -> (r: Vec<u8>)
    requires
        a <= b2 <= bytes@.len(),
    ensures
        r@ == bytes@.subrange(a as int, b2 as int),
{
    let mut out: Vec<u8> = Vec::new();
    let mut i = a;
    while i < b2
        invariant
            a <= i <= b2 <= bytes@.len(),
            out@ == bytes@.subrange(a as int, i as int),
        decreases b2 - i,
    {
        out.push(bytes[i]);
        proof {
            assert(bytes@.subrange(a as int, i + 1 as int) =~= bytes@.subrange(
                a as int,
                i as int,
            ).push(bytes@[i as int]));
        }
        i += 1;
    }
    out
}

/// Reads a 32-bit signed number, little-endian.
fn read_i32_at(bytes: &[u8], pos: usize) -> (r: Option<(i32, usize)>)
    requires
        pos <= bytes@.len(),
    ensures
        pos + 4 <= bytes@.len() ==> (r matches Some((v, q)) && v == rd_i32(bytes@, pos as int)
            && q == pos + 4),
        pos + 4 > bytes@.len() ==> r is None,
{
    if bytes.len() - pos < 4 {
        return None;
    }
    proof {
        lemma_auto_spec_u32_to_from_le_bytes();
    }
    let s = &bytes[pos..pos + 4];
    let u = u32_from_le_bytes(s);
    Some((u as i32, pos + 4))
}

/// Reads a 64-bit unsigned number, little-endian.
fn read_u64_at(bytes: &[u8], pos: usize) -> (r: Option<(u64, usize)>)
    requires
        pos <= bytes@.len(),
    ensures
        pos + 8 <= bytes@.len() ==> (r matches Some((v, q)) && v == rd_u64(bytes@, pos as int)
            && q == pos + 8),
        pos + 8 > bytes@.len() ==> r is None,
{
    if bytes.len() - pos < 8 {
        return None;
    }
    proof {
        lemma_auto_spec_u64_to_from_le_bytes();
    }
    let s = &bytes[pos..pos + 8];
    let u = u64_from_le_bytes(s);
    Some((u, pos + 8))
}

/// Reads a key: the bytes up to the first zero byte, validated as UTF-8.
pub fn read_cstring(bytes: &[u8], pos: usize) -> (r: Result<(String, usize), DecodeError>)
    requires
        pos <= bytes@.len(),
    ensures
        match r {
            Ok((s, q)) => parse_cstring(bytes@, pos as int) == Ok::<(Seq<char>, int), PErr>(
                (s@, q as int),
            ) && pos < q <= bytes@.len(),
            Err(e) => (parse_cstring(bytes@, pos as int) matches Err(k) && err_model(e) == Some(
                k,
            )),
        },
{
    let n = bytes.len();
    let mut j = pos;
    while j < n && bytes[j] != 0
        invariant
            pos <= j <= n,
            n == bytes@.len(),
            forall|t: int| pos <= t < j ==> bytes@[t] != 0,
        decreases n - j,
    {
        j += 1;
    }
    proof {
        lemma_cstr_end_from(bytes@, pos as int, j as int);
    }
    if j == n {
        return Err(DecodeError::EndOfStream);
    }
    let kb = bytes_range(bytes, pos, j);
    match string_from_utf8(kb) {
        Ok(s) => Ok((s, j + 1)),
        Err(e) => Err(DecodeError::FromUtf8Error(e)),
    }
}

/// Reads a string payload: length, content recovered leniently, one
/// closing byte.
pub fn read_string(bytes: &[u8], pos: usize) -> (r: Result<(String, usize), DecodeError>)
    requires
        pos <= bytes@.len(),
    ensures
        match r {
            Ok((s, q)) => parse_string(bytes@, pos as int) == Ok::<(Seq<char>, int), PErr>(
                (s@, q as int),
            ) && pos < q <= bytes@.len(),
            Err(e) => (parse_string(bytes@, pos as int) matches Err(k) && err_model(e) == Some(
                k,
            )),
        },
{
    let (l, q) = match read_i32_at(bytes, pos) {
        Some(x) => x,
        None => {
            return Err(DecodeError::EndOfStream);
        },
    };
    if l < 1 || l > 16 * 1024 * 1024 {
        return Err(
            DecodeError::InvalidLength(
                l as usize,
                <String as StringExecFns>::from_str("string length out of range"),
            ),
        );
    }
    let lu = l as usize;
    if bytes.len() - q < lu {
        return Err(DecodeError::EndOfStream);
    }
    let content = bytes_range(bytes, q, q + lu - 1);
    let s = string_from_utf8_lossy(&content);
    Ok((s, q + lu))
}

/// Reads the payload of one element, by its tag byte.
fn decode_value(bytes: &[u8], pos: usize, tag: u8) -> (r: Result<(Value, usize), DecodeError>)
    requires
        pos <= bytes@.len(),
    ensures
        match r {
            Ok((v, q)) => parse_value(bytes@, pos as int, tag) == Ok::<(MValue, int), PErr>(
                (v.model(), q as int),
            ) && pos <= q <= bytes@.len(),
            Err(e) => (parse_value(bytes@, pos as int, tag) matches Err(k) && err_model(e)
                == Some(k)),
        },
    decreases bytes@.len() - pos, 4int,
{
    if tag == 0x01 {
        match read_u64_at(bytes, pos) {
            Some((u, q)) => Ok((Value::Double(u), q)),
            None => Err(DecodeError::EndOfStream),
        }
    } else if tag == 0x02 {
        match read_string(bytes, pos) {
            Ok((s, q)) => Ok((Value::String(s), q)),
            Err(e) => Err(e),
        }
    } else if tag == 0x03 {
        match decode_document_at(bytes, pos) {
            Ok((d, q)) => Ok((Value::Document(d), q)),
            Err(e) => Err(e),
        }
    } else if tag == 0x04 {
        match decode_array_at(bytes, pos) {
            Ok((a, q)) => Ok((Value::Array(a), q)),
            Err(e) => Err(e),
        }
    } else if tag == 0x05 {
        let (l, q) = match read_i32_at(bytes, pos) {
            Some(x) => x,
            None => {
                return Err(DecodeError::EndOfStream);
            },
        };
        let lu = l as usize;
        if bytes.len() - q < 1 {
            return Err(DecodeError::EndOfStream);
        }
        let sub = bytes[q];
        if bytes.len() - (q + 1) < lu {
            return Err(DecodeError::EndOfStream);
        }
        let data = bytes_range(bytes, q + 1, q + 1 + lu);
        let t = BinarySubtype::from_byte(sub);
        proof {
            assert(t.byte_spec() == sub);
        }
        Ok((Value::Binary(t, data), q + 1 + lu))
    } else if tag == 0x07 {
        if bytes.len() - pos < 12 {
            return Err(DecodeError::EndOfStream);
        }
        let v = bytes_range(bytes, pos, pos + 12);
        let oid = ObjectId::with_bytes(
            [v[0], v[1], v[2], v[3], v[4], v[5], v[6], v[7], v[8], v[9], v[10], v[11]],
        );
        proof {
            assert(oid.bytes_spec() =~= bytes@.subrange(pos as int, pos + 12 as int));
        }
        Ok((Value::ObjectId(oid), pos + 12))
    } else if tag == 0x08 {
        if bytes.len() - pos < 1 {
            return Err(DecodeError::EndOfStream);
        }
        Ok((Value::Boolean(bytes[pos] != 0), pos + 1))
    } else if tag == 0x09 {
        let (u, q) = match read_u64_at(bytes, pos) {
            Some(x) => x,
            None => {
                return Err(DecodeError::EndOfStream);
            },
        };
        let ms = u as i64;
        match UTCDateTime::from_millis(ms) {
            Some(dt) => Ok((Value::UTCDatetime(dt), q)),
            None => Err(DecodeError::InvalidTimestamp(ms)),
        }
    } else if tag == 0x0A {
        Ok((Value::Null, pos))
    } else if tag == 0x0B {
        let (pat, q) = match read_cstring(bytes, pos) {
            Ok(x) => x,
            Err(e) => {
                return Err(e);
            },
        };
        let (opt, q2) = match read_cstring(bytes, q) {
            Ok(x) => x,
            Err(e) => {
                return Err(e);
            },
        };
        Ok((Value::RegExp(pat, opt), q2))
    } else if tag == 0x0D {
        match read_string(bytes, pos) {
            Ok((s, q)) => Ok((Value::JavaScriptCode(s), q)),
            Err(e) => Err(e),
        }
    } else if tag == 0x0E {
        match read_string(bytes, pos) {
            Ok((s, q)) => Ok((Value::Symbol(s), q)),
            Err(e) => Err(e),
        }
    } else if tag == 0x0F {
        if bytes.len() - pos < 4 {
            return Err(DecodeError::EndOfStream);
        }
        let (c, q) = match read_string(bytes, pos + 4) {
            Ok(x) => x,
            Err(e) => {
                return Err(e);
            },
        };
        let (d, q2) = match decode_document_at(bytes, q) {
            Ok(x) => x,
            Err(e) => {
                return Err(e);
            },
        };
        Ok((Value::JavaScriptCodeWithScope(c, d), q2))
    } else if tag == 0x10 {
        match read_i32_at(bytes, pos) {
            Some((v, q)) => Ok((Value::Int32(v), q)),
            None => Err(DecodeError::EndOfStream),
        }
    } else if tag == 0x11 {
        match read_u64_at(bytes, pos) {
            Some((u, q)) => Ok((Value::TimeStamp(u as i64), q)),
            None => Err(DecodeError::EndOfStream),
        }
    } else if tag == 0x12 {
        match read_u64_at(bytes, pos) {
            Some((u, q)) => Ok((Value::Int64(u as i64), q)),
            None => Err(DecodeError::EndOfStream),
        }
    } else {
        Err(DecodeError::UnrecognizedElementType(tag))
    }
}

/// Reads a whole document from a position: the length prefix is read and
/// not used as a bound; elements follow until a zero byte.
#[verifier::loop_isolation(false)]
fn decode_document_at(bytes: &[u8], pos: usize) -> (r: Result<(Document, usize), DecodeError>)
    requires
        pos <= bytes@.len(),
    ensures
        match r {
            Ok((d, q)) => parse_doc(bytes@, pos as int) == Ok::<
                (Seq<(Seq<char>, MValue)>, int),
                PErr,
            >((d.model(), q as int)) && pos < q <= bytes@.len(),
            Err(e) => (parse_doc(bytes@, pos as int) matches Err(k) && err_model(e) == Some(k)),
        },
    decreases bytes@.len() - pos, 3int,
{
    if bytes.len() - pos < 4 {
        return Err(DecodeError::EndOfStream);
    }
    let mut doc = Document::new();
    let ghost mut pairs: Seq<(Seq<char>, MValue)> = Seq::empty();
    let mut p = pos + 4;
    proof {
        assert(pairs + Seq::<(Seq<char>, MValue)>::empty() =~= pairs);
    }
    loop
        invariant
            pos + 4 <= p <= bytes@.len(),
            doc.model() == doc_of_pairs(pairs),
            (match parse_entries(bytes@, p as int) {
                Ok((rest, q)) => parse_entries(bytes@, pos + 4 as int) == Ok::<
                    (Seq<(Seq<char>, MValue)>, int),
                    PErr,
                >((pairs + rest, q)),
                Err(e2) => parse_entries(bytes@, pos + 4 as int) == Err::<
                    (Seq<(Seq<char>, MValue)>, int),
                    PErr,
                >(e2),
            }),
        decreases bytes@.len() - p,
    {
        if p == bytes.len() {
            return Err(DecodeError::EndOfStream);
        }
        let tag = bytes[p];
        if tag == 0 {
            proof {
                assert(pairs + Seq::<(Seq<char>, MValue)>::empty() =~= pairs);
            }
            return Ok((doc, p + 1));
        }
        let (k, q) = match read_cstring(bytes, p + 1) {
            Ok(x) => x,
            Err(e) => {
                return Err(e);
            },
        };
        let (v, q2) = match decode_value(bytes, q, tag) {
            Ok(x) => x,
            Err(e) => {
                return Err(e);
            },
        };
        let ghost pairs0 = pairs;
        let ghost oldes = doc.entries_spec();
        let ghost km = k@;
        let ghost vm = v.model();
        proof {
            pairs = pairs.push((km, vm));
        }
        doc.insert_value(k, v);
        proof {
            crate::doc::lemma_insert_model(oldes, k, v);
            lemma_doc_of_pairs_push(pairs0, km, vm);
            assert(doc.model() == doc_of_pairs(pairs));
            match parse_entries(bytes@, q2 as int) {
                Ok((rest, _q3)) => {
                    assert(pairs0 + (seq![(km, vm)] + rest) =~= pairs + rest);
                },
                Err(_) => {},
            }
        }
        p = q2;
    }
}

/// Reads an array from a position: a document whose keys must count up
/// from zero.
#[verifier::loop_isolation(false)]
fn decode_array_at(bytes: &[u8], pos: usize) -> (r: Result<(crate::value::Array, usize), DecodeError>)
    requires
        pos <= bytes@.len(),
    ensures
        match r {
            Ok((a, q)) => parse_arr(bytes@, pos as int) == Ok::<(Seq<MValue>, int), PErr>(
                (a.model(), q as int),
            ) && pos < q <= bytes@.len(),
            Err(e) => (parse_arr(bytes@, pos as int) matches Err(k) && err_model(e) == Some(k)),
        },
    decreases bytes@.len() - pos, 3int,
{
    if bytes.len() - pos < 4 {
        return Err(DecodeError::EndOfStream);
    }
    let mut arr = crate::value::Array::new();
    let ghost mut ms: Seq<MValue> = Seq::empty();
    let mut p = pos + 4;
    proof {
        assert(ms + Seq::<MValue>::empty() =~= ms);
    }
    loop
        invariant
            pos + 4 <= p <= bytes@.len(),
            arr.values_spec().len() == ms.len(),
            arr.model() == ms,
            (match parse_arr_items(bytes@, p as int, ms.len() as int) {
                Ok((rest, q)) => parse_arr_items(bytes@, pos + 4 as int, 0) == Ok::<
                    (Seq<MValue>, int),
                    PErr,
                >((ms + rest, q)),
                Err(e2) => parse_arr_items(bytes@, pos + 4 as int, 0) == Err::<
                    (Seq<MValue>, int),
                    PErr,
                >(e2),
            }),
        decreases bytes@.len() - p,
    {
        if p == bytes.len() {
            return Err(DecodeError::EndOfStream);
        }
        let tag = bytes[p];
        if tag == 0 {
            proof {
                assert(ms + Seq::<MValue>::empty() =~= ms);
            }
            return Ok((arr, p + 1));
        }
        let (k, q) = match read_cstring(bytes, p + 1) {
            Ok(x) => x,
            Err(e) => {
                return Err(e);
            },
        };
        let idx = arr.len();
        let key_ok = match parse_usize_str(k.as_str()) {
            Some(u) => u == idx,
            None => false,
        };
        if !key_ok {
            return Err(DecodeError::InvalidArrayKey(idx, k));
        }
        let (v, q2) = match decode_value(bytes, q, tag) {
            Ok(x) => x,
            Err(e) => {
                return Err(e);
            },
        };
        let ghost ms0 = ms;
        let ghost vm = v.model();
        proof {
            ms = ms.push(vm);
        }
        let ghost oldvals = arr.values_spec();
        arr.push(v);
        proof {
            crate::value::lemma_model_seq_push(oldvals, v);
            match parse_arr_items(bytes@, q2 as int, ms0.len() + 1 as int) {
                Ok((rest, _q3)) => {
                    assert(ms0 + (seq![vm] + rest) =~= ms + rest);
                },
                Err(_) => {},
            }
        }
        p = q2;
    }
}

/// Decodes one document from the front of a byte slice; bytes after the
/// document's terminator are left unread.
pub fn decode_document(bytes: &[u8]) -> (r: Result<Document, DecodeError>)
    ensures
        match r {
            Ok(d) => (parse_doc(bytes@, 0) matches Ok((m, q)) && d.model() == m),
            Err(e) => (parse_doc(bytes@, 0) matches Err(k) && err_model(e) == Some(k)),
        },
{
    match decode_document_at(bytes, 0) {
        Ok((d, _)) => Ok(d),
        Err(e) => Err(e),
    }
}

} // verus!
