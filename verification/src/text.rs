//! Bridges between byte sequences and `String`, specified through vstd's
//! UTF-8 model (`encode_utf8` / `decode_utf8`).

use vstd::prelude::*;
use vstd::utf8::{
    decode_utf8, encode_utf8, is_ascii_chars, is_ascii_chars_encode_utf8, valid_utf8,
};

verus! {

/// The text that lossy UTF-8 recovery produces for a byte sequence: a
/// function of the bytes alone (invalid sequences become replacement
/// characters by a fixed rule).
pub uninterp spec fn lossy_utf8(bytes: Seq<u8>) -> Seq<char>;

#[verifier::external_type_specification]
#[verifier::external_body]
pub struct ExFromUtf8Error(std::string::FromUtf8Error);

/// Relies on `String::from_utf8`: it succeeds exactly on valid UTF-8 input,
/// and then returns the decoded text.
#[verifier::external_body]
pub fn string_from_utf8(bytes: Vec<u8>) -> (r: Result<String, std::string::FromUtf8Error>)
    ensures
        r is Ok <==> valid_utf8(bytes@),
        r matches Ok(s) ==> s@ == decode_utf8(bytes@),
{
    String::from_utf8(bytes)
}

/// Relies on `String::from_utf8_lossy`: the result depends on the bytes
/// alone, and valid UTF-8 input is decoded without loss.
#[verifier::external_body]
pub fn string_from_utf8_lossy(bytes: &Vec<u8>) -> (r: String)
    ensures
        r@ == lossy_utf8(bytes@),
        valid_utf8(bytes@) ==> r@ == decode_utf8(bytes@),
{
    String::from_utf8_lossy(bytes).into_owned()
}

/// Relies on `char`'s `ToString`: the result is the one-character string.
#[verifier::external_body]
pub fn char_to_string(c: char) -> (r: String)
    ensures
        r@ == seq![c],
{
    c.to_string()
}

/// The UTF-8 encoding of text without the NUL character has no zero byte.
pub proof fn lemma_encode_utf8_no_zero(s: Seq<char>)
    requires
        forall|i: int| 0 <= i < s.len() ==> s[i] != '\0',
    ensures
        forall|j: int| 0 <= j < encode_utf8(s).len() ==> #[trigger] encode_utf8(s)[j] != 0,
    decreases s.len(),
{
    if s.len() > 0 {
        let c = s[0] as u32;
        vstd::utf8::char_is_scalar(s[0]);
        assert(c != 0) by {
            if c == 0 {
                vstd::utf8::char_u32_cast(s[0], c);
                assert(('\0' as u32) == 0);
                assert((0u32 as char) == '\0');
            }
        }
        let sc = vstd::utf8::encode_scalar(c);
        assert(forall|j: int| 0 <= j < sc.len() ==> #[trigger] sc[j] != 0) by {
            if vstd::utf8::has_width_1_encoding(c) {
                assert((c & 0x7F) as u8 != 0) by (bit_vector)
                    requires
                        c <= 0x7F && c != 0,
                ;
            } else {
                let z2 = ((c >> 6) & 0x1F) as u8;
                let z3 = ((c >> 12) & 0x0F) as u8;
                let z4 = ((c >> 18) & 0x7) as u8;
                let w1 = (c & 0x3F) as u8;
                let w2 = ((c >> 6) & 0x3F) as u8;
                let w3 = ((c >> 12) & 0x3F) as u8;
                assert(0xC0u8 | z2 != 0 && 0xE0u8 | z3 != 0 && 0xF0u8 | z4 != 0) by (bit_vector);
                assert(0x80u8 | w1 != 0 && 0x80u8 | w2 != 0 && 0x80u8 | w3 != 0) by (bit_vector);
            }
        }
        let rest = s.drop_first();
        assert(forall|i: int| 0 <= i < rest.len() ==> rest[i] != '\0');
        lemma_encode_utf8_no_zero(rest);
        assert(encode_utf8(s) == sc + encode_utf8(rest));
        assert forall|j: int| 0 <= j < encode_utf8(s).len() implies #[trigger] encode_utf8(s)[j]
            != 0 by {
            if j < sc.len() {
                assert(encode_utf8(s)[j] == sc[j]);
            } else {
                assert(encode_utf8(s)[j] == encode_utf8(rest)[j - sc.len()]);
            }
        }
    }
}

/// Compares two strings character for character, by way of their UTF-8
/// bytes.
pub fn str_eq(a: &str, b: &str) -> (r: bool)
    ensures
        r == (a@ == b@),
{
    proof {
        vstd::utf8::encode_utf8_decode_utf8(a@);
        vstd::utf8::encode_utf8_decode_utf8(b@);
    }
    let ab = a.as_bytes();
    let bb = b.as_bytes();
    if ab.len() != bb.len() {
        return false;
    }
    let n = ab.len();
    let mut i: usize = 0;
    while i < n
        invariant
            n == ab@.len() == bb@.len(),
            i <= n,
            ab@ == encode_utf8(a@),
            bb@ == encode_utf8(b@),
            forall|j: int| 0 <= j < i ==> ab@[j] == bb@[j],
        decreases n - i,
    {
        if ab[i] != bb[i] {
            return false;
        }
        i += 1;
    }
    proof {
        assert(ab@ =~= bb@);
    }
    true
}

/// The characters that a sequence of ASCII bytes spells.
pub open spec fn ascii_seq(bytes: Seq<u8>) -> Seq<char> {
    Seq::new(bytes.len(), |i: int| bytes[i] as char)
}

/// A sequence of ASCII bytes is the UTF-8 encoding of the characters it
/// spells.
pub proof fn lemma_ascii_encode(bytes: Seq<u8>)
    requires
        forall|i: int| 0 <= i < bytes.len() ==> bytes[i] < 0x80,
    ensures
        is_ascii_chars(ascii_seq(bytes)),
        encode_utf8(ascii_seq(bytes)) == bytes,
{
    let chars = ascii_seq(bytes);
    assert forall|i: int| 0 <= i < chars.len() implies '\0' <= #[trigger] chars[i] <= '\u{7f}' by {
        assert(bytes[i] < 0x80);
    }
    is_ascii_chars_encode_utf8(chars);
    assert(encode_utf8(chars) =~= bytes);
}

/// Builds the `String` that a sequence of ASCII bytes spells.
pub fn ascii_to_string(bytes: Vec<u8>) -> (r: String)
    requires
        forall|i: int| 0 <= i < bytes@.len() ==> bytes@[i] < 0x80,
    ensures
        r@ == ascii_seq(bytes@),
{
    proof {
        lemma_ascii_encode(bytes@);
        vstd::utf8::encode_utf8_valid_utf8(ascii_seq(bytes@));
        vstd::utf8::encode_utf8_decode_utf8(ascii_seq(bytes@));
    }
    match string_from_utf8(bytes) {
        Ok(s) => s,
        Err(_) => {
            proof {
                assert(false);
            }
            String::new()
        },
    }
}

} // verus!
