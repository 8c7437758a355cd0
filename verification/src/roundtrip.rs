//! The laws of the codec: encoding is inverted by decoding, arrays keep
//! their positions, lengths are checked, insertion is idempotent.

use crate::calendar::utc_in_range;
use crate::decimal::{dec_str, lemma_dec_roundtrip, parse_usize_spec};
use crate::decode::{
    cstr_end, doc_of_pairs, lemma_cstr_end_from, parse_arr_items, parse_cstring, parse_doc,
    parse_entries, parse_string, parse_value, rd_i32, rd_u64, PErr,
};
use crate::doc::{lemma_m_key_index, m_has_key, m_insert, m_key_index};
use crate::encode::{
    dt_ms, enc_ok, m_tag, ser_arr_elems, ser_cstring, ser_doc, ser_elem, ser_entries, ser_i32,
    ser_string, ser_value, str_size_ok,
};
use crate::text::lemma_encode_utf8_no_zero;
use crate::value::MValue;
use vstd::arithmetic::div_mod::lemma_fundamental_div_mod_converse;
use vstd::bytes::{lemma_auto_spec_u32_to_from_le_bytes, lemma_auto_spec_u64_to_from_le_bytes};
use vstd::prelude::*;
use vstd::utf8::{encode_utf8, encode_utf8_decode_utf8, encode_utf8_valid_utf8};

verus! {

/// Text without the NUL character, as a key or a pattern must be to
/// survive the wire.
pub open spec fn nul_free(s: Seq<char>) -> bool {
    forall|i: int| 0 <= i < s.len() ==> s[i] != '\0'
}

/// Whether every key of a model document appears once.
pub open spec fn m_keys_unique(es: Seq<(Seq<char>, MValue)>) -> bool {
    forall|i: int, j: int| 0 <= i < j < es.len() ==> es[i].0 != es[j].0
}

/// A value the codec round-trips: sizes within bounds, keys and patterns
/// without NUL, keys unique, identifiers twelve bytes, datetimes on a
/// whole millisecond that the calendar knows.
pub open spec fn wf_value(v: MValue) -> bool
    decreases v, 1int,
{
    match v {
        MValue::String(s) => str_size_ok(s),
        MValue::JavaScriptCode(s) => str_size_ok(s),
        MValue::Symbol(s) => str_size_ok(s),
        MValue::RegExp(p, o) => nul_free(p) && nul_free(o),
        MValue::Array(vs) => {
            &&& wf_seq(vs)
            &&& vs.len() <= usize::MAX
            &&& ser_arr_elems(vs, 0).len() + 5 <= i32::MAX
        },
        MValue::Document(es) => {
            &&& wf_entries(es)
            &&& m_keys_unique(es)
            &&& ser_entries(es).len() + 5 <= i32::MAX
        },
        MValue::JavaScriptCodeWithScope(c, es) => {
            &&& str_size_ok(c)
            &&& wf_entries(es)
            &&& m_keys_unique(es)
            &&& ser_entries(es).len() + 5 <= i32::MAX
            &&& ser_string(c).len() + ser_doc(es).len() + 4 <= i32::MAX
        },
        MValue::Binary(_, data) => data.len() <= i32::MAX,
        MValue::ObjectId(bs) => bs.len() == 12,
        MValue::UTCDatetime(secs, nanos) => {
            &&& nanos < 1_000_000_000
            &&& nanos as int % 1_000_000 == 0
            &&& utc_in_range(secs as int, nanos as int)
            &&& i64::MIN <= dt_ms(secs, nanos) <= i64::MAX
        },
        _ => true,
    }
}

/// Whether every value of a sequence round-trips.
pub open spec fn wf_seq(vs: Seq<MValue>) -> bool
    decreases vs, 0int,
{
    if vs.len() == 0 {
        true
    } else {
        wf_value(vs[0]) && wf_seq(vs.drop_first())
    }
}

/// Whether every entry of a document round-trips: the key has no NUL and
/// the value round-trips.
pub open spec fn wf_entries(es: Seq<(Seq<char>, MValue)>) -> bool
    decreases es, 0int,
{
    if es.len() == 0 {
        true
    } else {
        nul_free(es[0].0) && wf_value(es[0].1) && wf_entries(es.drop_first())
    }
}

/// A whole document the codec round-trips.
pub open spec fn wf_doc(es: Seq<(Seq<char>, MValue)>) -> bool {
    wf_value(MValue::Document(es))
}

/// A round-trippable value can be encoded.
pub proof fn lemma_wf_enc_ok(v: MValue)
    requires
        wf_value(v),
    ensures
        enc_ok(v),
    decreases v, 1int,
{
    match v {
        MValue::Array(vs) => {
            lemma_wf_enc_ok_seq(vs);
        },
        MValue::Document(es) => {
            lemma_wf_enc_ok_entries(es);
        },
        MValue::JavaScriptCodeWithScope(_c, es) => {
            lemma_wf_enc_ok_entries(es);
        },
        _ => {},
    }
}

/// Round-trippable sequences can be encoded.
pub proof fn lemma_wf_enc_ok_seq(vs: Seq<MValue>)
    requires
        wf_seq(vs),
    ensures
        crate::encode::enc_ok_seq(vs),
    decreases vs, 0int,
{
    if vs.len() > 0 {
        lemma_wf_enc_ok(vs[0]);
        lemma_wf_enc_ok_seq(vs.drop_first());
    }
}

/// Round-trippable entries can be encoded.
pub proof fn lemma_wf_enc_ok_entries(es: Seq<(Seq<char>, MValue)>)
    requires
        wf_entries(es),
    ensures
        crate::encode::enc_ok_entries(es),
    decreases es, 0int,
{
    if es.len() > 0 {
        lemma_wf_enc_ok(es[0].1);
        lemma_wf_enc_ok_entries(es.drop_first());
    }
}

/// Each entry of a round-trippable entry sequence is round-trippable.
pub proof fn lemma_wf_entries_index(es: Seq<(Seq<char>, MValue)>, i: int)
    requires
        wf_entries(es),
        0 <= i < es.len(),
    ensures
        nul_free(es[i].0),
        wf_value(es[i].1),
    decreases es.len(),
{
    if i > 0 {
        lemma_wf_entries_index(es.drop_first(), i - 1);
    }
}

/// Each value of a round-trippable sequence is round-trippable.
pub proof fn lemma_wf_seq_index(vs: Seq<MValue>, i: int)
    requires
        wf_seq(vs),
        0 <= i < vs.len(),
    ensures
        wf_value(vs[i]),
    decreases vs.len(),
{
    if i > 0 {
        lemma_wf_seq_index(vs.drop_first(), i - 1);
    }
}

/// Reading four bytes back after writing a 32-bit number gives the
/// number.
proof fn lemma_rd_i32_inv(b: Seq<u8>, pre: Seq<u8>, v: i32, suf: Seq<u8>)
    requires
        b == pre + ser_i32(v) + suf,
    ensures
        ser_i32(v).len() == 4,
        pre.len() + 4 <= b.len(),
        rd_i32(b, pre.len() as int) == v,
{
    lemma_auto_spec_u32_to_from_le_bytes();
    assert(b.subrange(pre.len() as int, pre.len() + 4 as int) =~= ser_i32(v));
    assert((v as u32) as i32 == v) by (bit_vector);
}

/// Reading eight bytes back after writing a 64-bit number gives the
/// number.
proof fn lemma_rd_u64_inv(b: Seq<u8>, pre: Seq<u8>, v: u64, suf: Seq<u8>)
    requires
        b == pre + vstd::bytes::spec_u64_to_le_bytes(v) + suf,
    ensures
        vstd::bytes::spec_u64_to_le_bytes(v).len() == 8,
        pre.len() + 8 <= b.len(),
        rd_u64(b, pre.len() as int) == v,
{
    lemma_auto_spec_u64_to_from_le_bytes();
    assert(b.subrange(pre.len() as int, pre.len() + 8 as int) =~= vstd::bytes::spec_u64_to_le_bytes(v));
}

/// Reading a key back after writing one gives the key.
proof fn lemma_parse_cstring_inv(b: Seq<u8>, pre: Seq<u8>, k: Seq<char>, suf: Seq<u8>)
    requires
        b == pre + ser_cstring(k) + suf,
        nul_free(k),
    ensures
        parse_cstring(b, pre.len() as int) == Ok::<(Seq<char>, int), PErr>(
            (k, pre.len() + encode_utf8(k).len() + 1 as int),
        ),
        ser_cstring(k).len() == encode_utf8(k).len() + 1,
{
    let u = encode_utf8(k);
    let p = pre.len() as int;
    let e = p + u.len();
    lemma_encode_utf8_no_zero(k);
    assert forall|t: int| p <= t < e implies b[t] != 0 by {
        assert(b[t] == u[t - p]);
    }
    assert(b[e] == 0);
    lemma_cstr_end_from(b, p, e);
    assert(cstr_end(b, e) == e);
    assert(b.subrange(p, e) =~= u);
    encode_utf8_valid_utf8(k);
    encode_utf8_decode_utf8(k);
}

/// Reading a string payload back after writing one gives the text.
proof fn lemma_parse_string_inv(b: Seq<u8>, pre: Seq<u8>, s: Seq<char>, suf: Seq<u8>)
    requires
        b == pre + ser_string(s) + suf,
        str_size_ok(s),
    ensures
        parse_string(b, pre.len() as int) == Ok::<(Seq<char>, int), PErr>(
            (s, pre.len() + ser_string(s).len() as int),
        ),
        ser_string(s).len() == encode_utf8(s).len() + 5,
{
    let u = encode_utf8(s);
    let p = pre.len() as int;
    let lv = (u.len() + 1) as i32;
    assert(b =~= pre + ser_i32(lv) + (u + seq![0u8] + suf));
    lemma_rd_i32_inv(b, pre, lv, u + seq![0u8] + suf);
    assert(1 <= lv <= 16 * 1024 * 1024);
    assert(p + 4 + lv <= b.len());
    assert(b.subrange(p + 4, p + 4 + lv - 1) =~= u);
    encode_utf8_valid_utf8(s);
    encode_utf8_decode_utf8(s);
}

/// No value's wire tag is the document terminator.
proof fn lemma_m_tag_nonzero(v: MValue)
    ensures
        m_tag(v) != 0,
{
}

/// Folding entries whose keys are unique changes nothing.
pub proof fn lemma_doc_of_pairs_unique(es: Seq<(Seq<char>, MValue)>)
    requires
        m_keys_unique(es),
    ensures
        doc_of_pairs(es) == es,
    decreases es.len(),
{
    if es.len() > 0 {
        let head = es.drop_last();
        let k = es.last().0;
        let v = es.last().1;
        assert(m_keys_unique(head)) by {
            assert(forall|i: int| 0 <= i < head.len() ==> head[i] == es[i]);
        }
        lemma_doc_of_pairs_unique(head);
        lemma_m_key_index(head, k);
        if m_has_key(head, k) {
            let ki = m_key_index(head, k);
            assert(es[ki].0 == es[es.len() - 1].0);
            assert(false);
        }
        assert(doc_of_pairs(es) == m_insert(head, k, v));
        assert(head.push((k, v)) =~= es);
    }
}

/// Parsing the bytes of one well-formed value at its tag yields the
/// value.
#[verifier::rlimit(100)]
proof fn lemma_inv_value(v: MValue, pre: Seq<u8>, suf: Seq<u8>)
    requires
        wf_value(v),
    ensures
        parse_value(pre + ser_value(v) + suf, pre.len() as int, m_tag(v)) == Ok::<
            (MValue, int),
            PErr,
        >((v, pre.len() + ser_value(v).len() as int)),
    decreases v, 2int,
{
    let b = pre + ser_value(v) + suf;
    let p = pre.len() as int;
    match v {
        MValue::Double(bits) => {
            lemma_rd_u64_inv(b, pre, bits, suf);
        },
        MValue::String(s) => {
            lemma_parse_string_inv(b, pre, s, suf);
        },
        MValue::Array(vs) => {
            let body = ser_arr_elems(vs, 0);
            let lv = (body.len() + 5) as i32;
            assert(b =~= pre + ser_i32(lv) + (body + seq![0u8] + suf));
            lemma_rd_i32_inv(b, pre, lv, body + seq![0u8] + suf);
            assert(b =~= (pre + ser_i32(lv)) + body + seq![0u8] + suf);
            lemma_inv_arr(vs, 0, pre + ser_i32(lv), suf);
            assert(vs.skip(0) =~= vs);
        },
        MValue::Document(es) => {
            lemma_inv_doc(es, pre, suf);
        },
        MValue::Boolean(bv) => {
            assert(b[p] == ser_value(v)[0]);
        },
        MValue::Null => {
            assert(ser_value(v).len() == 0);
        },
        MValue::RegExp(pt, o) => {
            assert(b =~= pre + ser_cstring(pt) + (ser_cstring(o) + suf));
            lemma_parse_cstring_inv(b, pre, pt, ser_cstring(o) + suf);
            assert(b =~= (pre + ser_cstring(pt)) + ser_cstring(o) + suf);
            lemma_parse_cstring_inv(b, pre + ser_cstring(pt), o, suf);
        },
        MValue::JavaScriptCode(c) => {
            lemma_parse_string_inv(b, pre, c, suf);
        },
        MValue::JavaScriptCodeWithScope(c, es) => {
            let inner = ser_string(c) + ser_doc(es);
            let lv = (inner.len() + 4) as i32;
            assert(b =~= pre + ser_i32(lv) + (inner + suf));
            lemma_rd_i32_inv(b, pre, lv, inner + suf);
            assert(b =~= (pre + ser_i32(lv)) + ser_string(c) + (ser_doc(es) + suf));
            lemma_parse_string_inv(b, pre + ser_i32(lv), c, ser_doc(es) + suf);
            assert(b =~= (pre + ser_i32(lv) + ser_string(c)) + ser_doc(es) + suf);
            lemma_inv_doc(es, pre + ser_i32(lv) + ser_string(c), suf);
        },
        MValue::Int32(x) => {
            lemma_rd_i32_inv(b, pre, x, suf);
        },
        MValue::Int64(x) => {
            lemma_rd_u64_inv(b, pre, x as u64, suf);
            assert((x as u64) as i64 == x) by (bit_vector);
        },
        MValue::TimeStamp(x) => {
            lemma_rd_u64_inv(b, pre, x as u64, suf);
            assert((x as u64) as i64 == x) by (bit_vector);
        },
        MValue::Binary(t, data) => {
            let lv = data.len() as i32;
            assert(b =~= pre + ser_i32(lv) + (seq![t] + data + suf));
            lemma_rd_i32_inv(b, pre, lv, seq![t] + data + suf);
            assert((lv as usize) as int == data.len()) by {
                assert(0 <= data.len() <= i32::MAX);
            }
            assert(b[p + 4] == t);
            assert(b.subrange(p + 5, p + 5 + data.len() as int) =~= data);
        },
        MValue::ObjectId(bs) => {
            assert(b.subrange(p, p + 12) =~= bs);
        },
        MValue::UTCDatetime(secs, nanos) => {
            let msi = dt_ms(secs, nanos);
            let ms = msi as i64;
            lemma_rd_u64_inv(b, pre, ms as u64, suf);
            assert((ms as u64) as i64 == ms) by (bit_vector);
            let k = nanos as int / 1_000_000;
            assert(nanos as int == k * 1_000_000) by {
                vstd::arithmetic::div_mod::lemma_fundamental_div_mod(nanos as int, 1_000_000);
            }
            assert(0 <= k < 1000);
            lemma_fundamental_div_mod_converse(ms as int, 1000, secs as int, k);
            assert(crate::value::ms_secs(ms as int) == secs as int);
            assert(crate::value::ms_nanos(ms as int) == nanos as int);
        },
        MValue::Symbol(s) => {
            lemma_parse_string_inv(b, pre, s, suf);
        },
    }
}

/// Parsing the bytes of well-formed entries up to the terminator yields
/// the entries.
#[verifier::rlimit(100)]
proof fn lemma_inv_entries(es: Seq<(Seq<char>, MValue)>, pre: Seq<u8>, suf: Seq<u8>)
    requires
        wf_entries(es),
    ensures
        parse_entries(pre + ser_entries(es) + seq![0u8] + suf, pre.len() as int) == Ok::<
            (Seq<(Seq<char>, MValue)>, int),
            PErr,
        >((es, pre.len() + ser_entries(es).len() + 1 as int)),
    decreases es, 0int,
{
    let b = pre + ser_entries(es) + seq![0u8] + suf;
    let p = pre.len() as int;
    if es.len() == 0 {
        assert(b[p] == 0);
        assert(es =~= Seq::<(Seq<char>, MValue)>::empty());
    } else {
        let k0 = es[0].0;
        let v0 = es[0].1;
        let rest = es.drop_first();
        let tag = m_tag(v0);
        let u0 = ser_cstring(k0);
        let pv = ser_value(v0);
        assert(ser_entries(es) == ser_elem(k0, v0) + ser_entries(rest));
        assert(ser_elem(k0, v0) == seq![tag] + u0 + pv);
        lemma_m_tag_nonzero(v0);
        assert(b[p] == tag);
        assert(b =~= (pre + seq![tag]) + ser_cstring(k0) + (pv + ser_entries(rest) + seq![0u8]
            + suf));
        lemma_parse_cstring_inv(
            b,
            pre + seq![tag],
            k0,
            pv + ser_entries(rest) + seq![0u8] + suf,
        );
        let q = p + 1 + encode_utf8(k0).len() + 1;
        assert(b =~= (pre + seq![tag] + u0) + ser_value(v0) + (ser_entries(rest) + seq![0u8]
            + suf));
        lemma_inv_value(v0, pre + seq![tag] + u0, ser_entries(rest) + seq![0u8] + suf);
        let q2 = q + pv.len();
        assert(parse_value(b, q, tag) == Ok::<(MValue, int), PErr>((v0, q2)));
        assert(b =~= (pre + ser_elem(k0, v0)) + ser_entries(rest) + seq![0u8] + suf);
        lemma_inv_entries(rest, pre + ser_elem(k0, v0), suf);
        let q3 = p + ser_entries(es).len() + 1;
        assert(parse_entries(b, q2) == Ok::<(Seq<(Seq<char>, MValue)>, int), PErr>((rest, q3)));
        assert(q2 <= b.len());
        assert(seq![(k0, v0)] + rest =~= es);
    }
}

/// Parsing the bytes of well-formed array elements from a position
/// yields the elements from that position on.
#[verifier::rlimit(100)]
proof fn lemma_inv_arr(vs: Seq<MValue>, j: int, pre: Seq<u8>, suf: Seq<u8>)
    requires
        wf_seq(vs),
        vs.len() <= usize::MAX,
        0 <= j <= vs.len(),
    ensures
        parse_arr_items(pre + ser_arr_elems(vs, j) + seq![0u8] + suf, pre.len() as int, j)
            == Ok::<(Seq<MValue>, int), PErr>(
            (vs.skip(j), pre.len() + ser_arr_elems(vs, j).len() + 1 as int),
        ),
    decreases vs, vs.len() - j,
{
    let b = pre + ser_arr_elems(vs, j) + seq![0u8] + suf;
    let p = pre.len() as int;
    if j == vs.len() {
        assert(b[p] == 0);
        assert(vs.skip(j) =~= Seq::<MValue>::empty());
    } else {
        let v0 = vs[j];
        lemma_wf_seq_index(vs, j);
        let k0 = dec_str(j as nat);
        lemma_dec_roundtrip(j as nat);
        let rest = ser_arr_elems(vs, j + 1);
        let tag = m_tag(v0);
        let u0 = ser_cstring(k0);
        let pv = ser_value(v0);
        assert(ser_arr_elems(vs, j) == ser_elem(k0, v0) + rest);
        assert(ser_elem(k0, v0) == seq![tag] + u0 + pv);
        lemma_m_tag_nonzero(v0);
        assert(b[p] == tag);
        assert(b =~= (pre + seq![tag]) + ser_cstring(k0) + (pv + rest + seq![0u8] + suf));
        lemma_parse_cstring_inv(b, pre + seq![tag], k0, pv + rest + seq![0u8] + suf);
        let q = p + 1 + encode_utf8(k0).len() + 1;
        assert(parse_usize_spec(k0) == Some(j));
        assert(b =~= (pre + seq![tag] + u0) + ser_value(v0) + (rest + seq![0u8] + suf));
        lemma_inv_value(v0, pre + seq![tag] + u0, rest + seq![0u8] + suf);
        let q2 = q + pv.len();
        assert(b =~= (pre + ser_elem(k0, v0)) + rest + seq![0u8] + suf);
        lemma_inv_arr(vs, j + 1, pre + ser_elem(k0, v0), suf);
        assert(seq![v0] + vs.skip(j + 1) =~= vs.skip(j));
    }
}

/// Parsing the bytes of one well-formed document yields the document.
proof fn lemma_inv_doc(es: Seq<(Seq<char>, MValue)>, pre: Seq<u8>, suf: Seq<u8>)
    requires
        wf_entries(es),
        m_keys_unique(es),
    ensures
        parse_doc(pre + ser_doc(es) + suf, pre.len() as int) == Ok::<
            (Seq<(Seq<char>, MValue)>, int),
            PErr,
        >((es, pre.len() + ser_doc(es).len() as int)),
    decreases es, 1int,
{
    let b = pre + ser_doc(es) + suf;
    let p = pre.len() as int;
    let body = ser_entries(es);
    let lv = (body.len() + 5) as i32;
    assert(ser_doc(es) == ser_i32(lv) + body + seq![0u8]);
    assert(b =~= pre + ser_i32(lv) + (body + seq![0u8] + suf));
    lemma_rd_i32_inv(b, pre, lv, body + seq![0u8] + suf);
    assert(b =~= (pre + ser_i32(lv)) + body + seq![0u8] + suf);
    lemma_inv_entries(es, pre + ser_i32(lv), suf);
    lemma_doc_of_pairs_unique(es);
}

/// Law: a declared string length of zero, a negative one, or one beyond
/// the size bound stops the parse with the length error — before any
/// content is touched.
pub proof fn lemma_string_length_bound(b: Seq<u8>, p: int)
    requires
        0 <= p,
        p + 4 <= b.len(),
        rd_i32(b, p) < 1 || rd_i32(b, p) > 16 * 1024 * 1024,
    ensures
        parse_string(b, p) == Err::<(Seq<char>, int), PErr>(
            PErr::StrLen((rd_i32(b, p) as usize) as int),
        ),
{
}

/// The first position that carries the key is the match position.
proof fn lemma_m_key_index_is(es: Seq<(Seq<char>, MValue)>, k: Seq<char>, i: int)
    requires
        0 <= i <= es.len(),
        i < es.len() ==> es[i].0 == k,
        forall|j: int| 0 <= j < i ==> es[j].0 != k,
        i == es.len() ==> !m_has_key(es, k),
    ensures
        i < es.len() ==> m_key_index(es, k) == i,
    decreases i,
{
    if i > 0 && i < es.len() {
        assert(es[0].0 != k);
        lemma_m_key_index_is(es.drop_first(), k, i - 1);
        assert(forall|j: int| 0 <= j < i - 1 ==> es.drop_first()[j] == es[j + 1]);
        assert(es.drop_first()[i - 1] == es[i]);
    }
}

/// Law: inserting under the same key twice leaves what inserting the
/// second value once leaves — the value is replaced, the key's position
/// is untouched.
pub proof fn lemma_insert_idempotent(
    es: Seq<(Seq<char>, MValue)>,
    k: Seq<char>,
    v1: MValue,
    v2: MValue,
)
    ensures
        m_insert(m_insert(es, k, v1), k, v2) == m_insert(es, k, v2),
{
    lemma_m_key_index(es, k);
    let es1 = m_insert(es, k, v1);
    if m_has_key(es, k) {
        let i = m_key_index(es, k);
        assert(es1 == es.update(i, (k, v1)));
        assert(forall|j: int| 0 <= j < i ==> es1[j] == es[j]);
        lemma_m_key_index_is(es1, k, i);
        assert(m_insert(es1, k, v2) =~= m_insert(es, k, v2));
    } else {
        let n = es.len() as int;
        assert(es1 == es.push((k, v1)));
        assert(forall|j: int| 0 <= j < n ==> es1[j] == es[j]);
        assert(es1[n].0 == k);
        lemma_m_key_index_is(es1, k, n);
        assert(m_insert(es1, k, v2) =~= m_insert(es, k, v2));
    }
}

/// Parsing array elements stops at the first key that does not read back
/// as its position, with the array-key error naming both.
proof fn lemma_arr_key_mismatch_at(
    es: Seq<(Seq<char>, MValue)>,
    j: int,
    idx: int,
    pre: Seq<u8>,
    suf: Seq<u8>,
)
    requires
        wf_entries(es),
        0 <= j < es.len(),
        forall|t: int| 0 <= t < j ==> parse_usize_spec(es[t].0) == Some(idx + t),
        parse_usize_spec(es[j].0) != Some(idx + j),
    ensures
        parse_arr_items(pre + ser_entries(es) + seq![0u8] + suf, pre.len() as int, idx)
            == Err::<(Seq<MValue>, int), PErr>(PErr::ArrayKey(idx + j, es[j].0)),
    decreases j,
{
    let b = pre + ser_entries(es) + seq![0u8] + suf;
    let p = pre.len() as int;
    let k0 = es[0].0;
    let v0 = es[0].1;
    let rest = es.drop_first();
    let tag = m_tag(v0);
    let u0 = ser_cstring(k0);
    let pv = ser_value(v0);
    assert(ser_entries(es) == ser_elem(k0, v0) + ser_entries(rest));
    assert(ser_elem(k0, v0) == seq![tag] + u0 + pv);
    lemma_m_tag_nonzero(v0);
    assert(b[p] == tag);
    assert(b =~= (pre + seq![tag]) + ser_cstring(k0) + (pv + ser_entries(rest) + seq![0u8]
        + suf));
    lemma_parse_cstring_inv(b, pre + seq![tag], k0, pv + ser_entries(rest) + seq![0u8] + suf);
    if j == 0 {
        assert(parse_usize_spec(k0) != Some(idx));
    } else {
        let q = p + 1 + encode_utf8(k0).len() + 1;
        assert(parse_usize_spec(k0) == Some(idx));
        assert(b =~= (pre + seq![tag] + u0) + ser_value(v0) + (ser_entries(rest) + seq![0u8]
            + suf));
        lemma_inv_value(v0, pre + seq![tag] + u0, ser_entries(rest) + seq![0u8] + suf);
        assert(b =~= (pre + ser_elem(k0, v0)) + ser_entries(rest) + seq![0u8] + suf);
        assert(forall|t: int| 0 <= t < j - 1 ==> rest[t] == es[t + 1]);
        assert(rest[j - 1] == es[j]);
        lemma_arr_key_mismatch_at(rest, j - 1, idx + 1, pre + ser_elem(k0, v0), suf);
    }
}

/// Law: decoding a document as an array fails with the array-key error at
/// the first key that does not read back as its position — elements are
/// never silently renumbered.
pub proof fn lemma_array_key_integrity(es: Seq<(Seq<char>, MValue)>, j: int)
    requires
        wf_entries(es),
        0 <= j < es.len(),
        forall|t: int| 0 <= t < j ==> parse_usize_spec(es[t].0) == Some(t),
        parse_usize_spec(es[j].0) != Some(j),
    ensures
        crate::decode::parse_arr(ser_doc(es), 0) == Err::<(Seq<MValue>, int), PErr>(
            PErr::ArrayKey(j, es[j].0),
        ),
{
    let body = ser_entries(es);
    let lv = (body.len() + 5) as i32;
    let b = ser_doc(es);
    assert(b =~= ser_i32(lv) + ser_entries(es) + seq![0u8] + Seq::<u8>::empty());
    lemma_auto_spec_u32_to_from_le_bytes();
    lemma_arr_key_mismatch_at(es, j, 0, ser_i32(lv), Seq::empty());
}

/// Law: decoding what the encoder wrote gives the document back,
/// entry for entry and in order — for every well-formed document.
pub proof fn lemma_encode_decode(es: Seq<(Seq<char>, MValue)>)
    requires
        wf_doc(es),
    ensures
        parse_doc(ser_doc(es), 0) == Ok::<(Seq<(Seq<char>, MValue)>, int), PErr>(
            (es, ser_doc(es).len() as int),
        ),
{
    assert(Seq::<u8>::empty() + ser_doc(es) + Seq::<u8>::empty() =~= ser_doc(es));
    lemma_inv_doc(es, Seq::empty(), Seq::empty());
}

} // verus!
