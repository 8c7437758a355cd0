//! Lowercase hexadecimal text for byte sequences, and the way back.

use crate::text::ascii_to_string;
use vstd::arithmetic::div_mod::lemma_fundamental_div_mod;
use vstd::prelude::*;

verus! {

/// The ASCII byte of one hexadecimal digit (lowercase letters).
pub open spec fn hex_digit_byte(n: u8) -> u8
    recommends
        n < 16,
{
    if n < 10 {
        (n + 0x30) as u8
    } else {
        (n + 0x57) as u8
    }
}

/// The character of one hexadecimal digit.
pub open spec fn hex_digit(n: u8) -> char {
    hex_digit_byte(n) as char
}

/// The lowercase hexadecimal spelling of a byte sequence: two digits for
/// each byte, high nibble first.
pub open spec fn hex_of(bytes: Seq<u8>) -> Seq<char> {
    Seq::new(
        bytes.len() * 2,
        |i: int|
            if i % 2 == 0 {
                hex_digit(bytes[i / 2] / 16)
            } else {
                hex_digit(bytes[i / 2] % 16)
            },
    )
}

/// The value of a hexadecimal digit character, if it is one.
pub open spec fn hex_char_val(c: char) -> Option<u8> {
    let n = c as u32;
    if 0x30 <= n <= 0x39 {
        Some((n - 0x30) as u8)
    } else if 0x61 <= n <= 0x66 {
        Some((n - 0x61 + 10) as u8)
    } else if 0x41 <= n <= 0x46 {
        Some((n - 0x41 + 10) as u8)
    } else {
        None
    }
}

/// Whether a character sequence is well-formed hexadecimal text: an even
/// number of digit characters.
pub open spec fn is_hex_seq(s: Seq<char>) -> bool {
    &&& s.len() % 2 == 0
    &&& forall|i: int| 0 <= i < s.len() ==> #[trigger] hex_char_val(s[i]) is Some
}

/// The bytes that well-formed hexadecimal text spells.
pub open spec fn bytes_of_hex(s: Seq<char>) -> Seq<u8>
    recommends
        is_hex_seq(s),
{
    Seq::new(
        s.len() / 2,
        |i: int|
            (hex_char_val(s[2 * i]).unwrap() * 16 + hex_char_val(
                s[2 * i + 1],
            ).unwrap()) as u8,
    )
}

/// Reading back the hexadecimal spelling of a byte sequence gives the bytes.
pub proof fn lemma_hex_roundtrip(bytes: Seq<u8>)
    ensures
        is_hex_seq(hex_of(bytes)),
        bytes_of_hex(hex_of(bytes)) == bytes,
{
    let s = hex_of(bytes);
    assert forall|i: int| 0 <= i < s.len() implies #[trigger] hex_char_val(s[i]) is Some by {
        let b = bytes[i / 2];
        lemma_fundamental_div_mod(b as int, 16);
        assert(b / 16 < 16 && b % 16 < 16);
    }
    assert forall|i: int| 0 <= i < bytes.len() implies #[trigger] bytes_of_hex(s)[i] == bytes[i] by {
        let b = bytes[i];
        lemma_fundamental_div_mod(b as int, 16);
        assert(s[2 * i] == hex_digit(b / 16));
        assert(s[2 * i + 1] == hex_digit(b % 16));
        assert(hex_char_val(hex_digit(b / 16)) == Some((b / 16) as u8));
        assert(hex_char_val(hex_digit(b % 16)) == Some((b % 16) as u8));
    }
    assert(bytes_of_hex(s) =~= bytes);
}

/// One hexadecimal digit as an ASCII byte.
fn hex_digit_exec(n: u8) -> (r: u8)
    requires
        n < 16,
    ensures
        r == hex_digit_byte(n),
{
    if n < 10 {
        n + 0x30
    } else {
        n + 0x57
    }
}

/// The lowercase hexadecimal spelling of a byte sequence.
pub fn to_hex(bytes: &[u8]) -> (r: String)
    ensures
        r@ == hex_of(bytes@),
{
    let n = bytes.len();
    let mut out: Vec<u8> = Vec::new();
    let mut i: usize = 0;
    while i < n
        invariant
            i <= n,
            n == bytes@.len(),
            out@.len() == 2 * i,
            forall|j: int|
                0 <= j < out@.len() ==> #[trigger] out@[j] == if j % 2 == 0 {
                    hex_digit_byte(bytes@[j / 2] / 16)
                } else {
                    hex_digit_byte(bytes@[j / 2] % 16)
                },
        decreases n - i,
    {
        let b = bytes[i];
        proof {
            lemma_fundamental_div_mod(b as int, 16);
        }
        out.push(hex_digit_exec(b / 16));
        out.push(hex_digit_exec(b % 16));
        i += 1;
    }
    proof {
        assert forall|j: int| 0 <= j < out@.len() implies out@[j] < 0x80 by {
            lemma_fundamental_div_mod(bytes@[j / 2] as int, 16);
        }
    }
    let s = ascii_to_string(out);
    proof {
        assert(s@ =~= hex_of(bytes@));
    }
    s
}

/// The value of one hexadecimal digit character given as an ASCII byte.
fn hex_val_exec(b: u8) -> (r: Option<u8>)
    requires
        b < 0x80,
    ensures
        r == hex_char_val(b as char),
{
    if 0x30 <= b && b <= 0x39 {
        Some(b - 0x30)
    } else if 0x61 <= b && b <= 0x66 {
        Some(b - 0x61 + 10)
    } else if 0x41 <= b && b <= 0x46 {
        Some(b - 0x41 + 10)
    } else {
        None
    }
}

/// The bytes that a string of hexadecimal text spells, or `None` when the
/// string is not well-formed hexadecimal.
pub fn from_hex(s: &str) -> (r: Option<Vec<u8>>)
    ensures
        r is Some <==> is_hex_seq(s@),
        r matches Some(v) ==> v@ == bytes_of_hex(s@),
{
    proof {
        vstd::utf8::encode_utf8_decode_utf8(s@);
    }
    let sb = s.as_bytes();
    let n = sb.len();
    if n % 2 != 0 {
        proof {
            // an odd number of bytes cannot spell an even number of
            // ASCII digit characters
            if is_hex_seq(s@) {
                lemma_hex_seq_ascii(s@);
                vstd::utf8::is_ascii_chars_encode_utf8(s@);
                assert(sb@.len() == s@.len());
                assert(false);
            }
        }
        return None;
    }
    let mut out: Vec<u8> = Vec::new();
    let mut i: usize = 0;
    while i < n
        invariant
            i <= n,
            i % 2 == 0,
            n % 2 == 0,
            n == sb@.len(),
            sb@ == vstd::utf8::encode_utf8(s@),
            vstd::utf8::decode_utf8(sb@) == s@,
            out@.len() == i / 2,
            forall|j: int| 0 <= j < i ==> #[trigger] sb@[j] < 0x80,
            forall|j: int| 0 <= j < i ==> #[trigger] hex_char_val(sb@[j] as char) is Some,
            forall|j: int|
                0 <= j < out@.len() ==> #[trigger] out@[j] == (hex_char_val(
                    sb@[2 * j] as char,
                ).unwrap() * 16 + hex_char_val(sb@[2 * j + 1] as char).unwrap()) as u8,
        decreases n - i,
    {
        let hi = sb[i];
        let lo = sb[i + 1];
        if hi >= 0x80 || lo >= 0x80 {
            proof {
                lemma_non_ascii_not_hex(s@, sb@);
            }
            return None;
        }
        let hv = match hex_val_exec(hi) {
            Some(v) => v,
            None => {
                proof {
                    lemma_bad_digit_not_hex(s@, sb@, i as int);
                }
                return None;
            },
        };
        let lv = match hex_val_exec(lo) {
            Some(v) => v,
            None => {
                proof {
                    lemma_bad_digit_not_hex(s@, sb@, i as int + 1);
                }
                return None;
            },
        };
        out.push(hv * 16 + lv);
        i += 2;
    }
    proof {
        crate::text::lemma_ascii_encode(sb@);
        assert(s@ =~= crate::text::ascii_seq(sb@)) by {
            vstd::utf8::encode_utf8_decode_utf8(crate::text::ascii_seq(sb@));
        }
        assert(is_hex_seq(s@));
        assert(out@ =~= bytes_of_hex(s@));
    }
    Some(out)
}

/// If some UTF-8 byte of a string is not ASCII, the string is not
/// hexadecimal text.
proof fn lemma_non_ascii_not_hex(s: Seq<char>, sb: Seq<u8>)
    requires
        sb == vstd::utf8::encode_utf8(s),
        exists|j: int| 0 <= j < sb.len() && #[trigger] sb[j] >= 0x80,
    ensures
        !is_hex_seq(s),
{
    if is_hex_seq(s) {
        lemma_hex_seq_ascii(s);
        vstd::utf8::is_ascii_chars_encode_utf8(s);
        let j = choose|j: int| 0 <= j < sb.len() && #[trigger] sb[j] >= 0x80;
        assert(sb[j] == s[j] as u8);
        assert(hex_char_val(s[j]) is Some);
    }
}

/// Hexadecimal text is ASCII text.
proof fn lemma_hex_seq_ascii(s: Seq<char>)
    requires
        is_hex_seq(s),
    ensures
        vstd::utf8::is_ascii_chars(s),
{
    assert forall|i: int| 0 <= i < s.len() implies '\0' <= #[trigger] s[i] <= '\u{7f}' by {
        assert(hex_char_val(s[i]) is Some);
        let n = s[i] as u32;
        assert((0x30 <= n && n <= 0x39) || (0x61 <= n && n <= 0x66) || (0x41 <= n && n <= 0x46));
        assert(n <= 0x7f);
        vstd::utf8::char_u32_cast(s[i], n);
        assert(s[i] == n as char);
        assert('\0' <= n as char <= '\u{7f}');
    }
}

/// If some character of an all-ASCII prefix is not a hexadecimal digit, the
/// string is not hexadecimal text.
proof fn lemma_bad_digit_not_hex(s: Seq<char>, sb: Seq<u8>, j: int)
    requires
        sb == vstd::utf8::encode_utf8(s),
        0 <= j < sb.len(),
        sb[j] < 0x80,
        hex_char_val(sb[j] as char) is None,
    ensures
        !is_hex_seq(s),
{
    if is_hex_seq(s) {
        lemma_hex_seq_ascii(s);
        vstd::utf8::is_ascii_chars_encode_utf8(s);
        assert(sb[j] == s[j] as u8);
        assert((s[j] as u32) < 0x80);
        assert((s[j] as u8) as char == s[j]) by {
            vstd::utf8::char_u32_cast(s[j], s[j] as u32);
            assert(s[j] as u32 == (s[j] as u8) as u32);
        }
        assert(hex_char_val(s[j]) is Some);
    }
}

} // verus!
