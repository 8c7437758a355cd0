//! Decimal text for array indices: printing an index, and reading an
//! unsigned number back the way the standard library's parser would.

use crate::text::{ascii_seq, ascii_to_string};
use vstd::arithmetic::div_mod::lemma_fundamental_div_mod;
use vstd::prelude::*;
use vstd::string::StrSliceExecFns;

verus! {

/// The ASCII digits of a number, most significant first.
pub open spec fn dec_bytes(n: nat) -> Seq<u8>
    decreases n,
{
    if n < 10 {
        seq![(n + 0x30) as u8]
    } else {
        dec_bytes(n / 10).push((n % 10 + 0x30) as u8)
    }
}

/// The decimal spelling of a number.
pub open spec fn dec_str(n: nat) -> Seq<char> {
    ascii_seq(dec_bytes(n))
}

/// Decimal digits are ASCII and never zero bytes.
pub proof fn lemma_dec_bytes_ascii(n: nat)
    ensures
        dec_bytes(n).len() >= 1,
        forall|i: int| 0 <= i < dec_bytes(n).len() ==> 0x30 <= #[trigger] dec_bytes(n)[i] <= 0x39,
    decreases n,
{
    if n >= 10 {
        lemma_dec_bytes_ascii(n / 10);
    }
}

/// The value of a digit character, if it is one.
pub open spec fn digit_val(c: char) -> Option<int> {
    let n = c as u32;
    if 0x30 <= n <= 0x39 {
        Some(n - 0x30)
    } else {
        None
    }
}

/// Reading digits left to right with an accumulator; `None` on a non-digit
/// or when the value would no longer fit the machine's word.
pub open spec fn parse_digits_acc(s: Seq<char>, i: int, acc: int) -> Option<int>
    decreases s.len() - i,
{
    if i < 0 || i >= s.len() {
        Some(acc)
    } else {
        match digit_val(s[i]) {
            Option::None => None,
            Option::Some(d) => {
                let acc2 = acc * 10 + d;
                if acc2 > usize::MAX {
                    None
                } else {
                    parse_digits_acc(s, i + 1, acc2)
                }
            },
        }
    }
}

/// What parsing text as an unsigned number yields: an optional leading
/// plus sign, then at least one digit, no larger than the machine's word.
pub open spec fn parse_usize_spec(s: Seq<char>) -> Option<int> {
    let t = if s.len() > 0 && s[0] == '+' {
        s.drop_first()
    } else {
        s
    };
    if t.len() == 0 {
        None
    } else {
        parse_digits_acc(t, 0, 0)
    }
}

/// Appends the decimal digits of a number to a byte buffer.
fn push_dec(out: &mut Vec<u8>, n: usize)
    ensures
        final(out)@ == old(out)@ + dec_bytes(n as nat),
    decreases n,
{
    if n >= 10 {
        push_dec(out, n / 10);
    }
    out.push((n % 10) as u8 + 0x30);
    proof {
        assert(final(out)@ =~= old(out)@ + dec_bytes(n as nat));
    }
}

/// The decimal spelling of a number.
pub fn usize_to_dec_string(n: usize) -> (r: String)
    ensures
        r@ == dec_str(n as nat),
{
    let mut out: Vec<u8> = Vec::new();
    push_dec(&mut out, n);
    proof {
        lemma_dec_bytes_ascii(n as nat);
        assert(out@ =~= dec_bytes(n as nat));
    }
    ascii_to_string(out)
}

/// Parses text as an unsigned number, as the standard library's parser
/// reads one: an optional leading plus sign, then decimal digits.
pub fn parse_usize_str(s: &str) -> (r: Option<usize>)
    ensures
        match r {
            Some(v) => parse_usize_spec(s@) == Some(v as int),
            None => parse_usize_spec(s@) is None,
        },
{
    let n = s.unicode_len();
    let start: usize = if n > 0 && s.get_char(0) == '+' {
        1
    } else {
        0
    };
    if n == start {
        return None;
    }
    let ghost t = if s@.len() > 0 && s@[0] == '+' {
        s@.drop_first()
    } else {
        s@
    };
    proof {
        if start == 1 {
            assert(t =~= s@.subrange(1, n as int));
        } else {
            assert(t =~= s@);
        }
    }
    let mut acc: usize = 0;
    let mut i: usize = start;
    while i < n
        invariant
            start <= i <= n,
            n == s@.len(),
            start == 0 || start == 1,
            t == (if s@.len() > 0 && s@[0] == '+' {
                s@.drop_first()
            } else {
                s@
            }),
            t.len() == n - start,
            forall|j: int| 0 <= j < t.len() ==> t[j] == s@[j + start],
            parse_digits_acc(t, 0, 0) == parse_digits_acc(t, i - start, acc as int),
        decreases n - i,
    {
        let c = s.get_char(i);
        let u = c as u32;
        if u < 0x30 || u > 0x39 {
            return None;
        }
        let d = (u - 0x30) as usize;
        let acc2 = match acc.checked_mul(10) {
            Some(x) => match x.checked_add(d) {
                Some(y) => y,
                None => {
                    return None;
                },
            },
            None => {
                proof {
                    assert(acc * 10 + digit_val(t[i - start]).unwrap() > usize::MAX);
                }
                return None;
            },
        };
        acc = acc2;
        i += 1;
    }
    Some(acc)
}

/// A digit-append step of the accumulator parse.
proof fn lemma_parse_digits_push(s: Seq<char>, c: char, i: int, acc: int)
    requires
        0 <= i <= s.len(),
        digit_val(c) is Some,
    ensures
        parse_digits_acc(s.push(c), i, acc) == (match parse_digits_acc(s, i, acc) {
            Option::Some(v) => if v * 10 + digit_val(c).unwrap() <= usize::MAX {
                Option::Some(v * 10 + digit_val(c).unwrap())
            } else {
                Option::None::<int>
            },
            Option::None => Option::None::<int>,
        }),
    decreases s.len() - i,
{
    reveal_with_fuel(parse_digits_acc, 3);
    if i < s.len() {
        assert(s.push(c)[i] == s[i]);
        if digit_val(s[i]) is Some {
            let acc2 = acc * 10 + digit_val(s[i]).unwrap();
            if acc2 <= usize::MAX {
                lemma_parse_digits_push(s, c, i + 1, acc2);
            }
        }
    } else {
        assert(s.push(c)[i] == c);
    }
}

/// Printing a number and parsing the text back yields the number.
pub proof fn lemma_dec_roundtrip(n: nat)
    requires
        n <= usize::MAX,
    ensures
        parse_usize_spec(dec_str(n)) == Some(n as int),
        dec_str(n).len() >= 1,
        dec_str(n)[0] != '+',
        forall|i: int| 0 <= i < dec_str(n).len() ==> #[trigger] dec_str(n)[i] != '\0',
{
    lemma_dec_bytes_ascii(n);
    lemma_digits_value(n);
    assert(dec_str(n)[0] == dec_bytes(n)[0] as char);
    assert((dec_str(n)[0] as u32) >= 0x30);
    assert(('+' as u32) == 0x2B);
    assert forall|i: int| 0 <= i < dec_str(n).len() implies #[trigger] dec_str(n)[i] != '\0' by {
        assert(dec_str(n)[i] == dec_bytes(n)[i] as char);
        assert((dec_str(n)[i] as u32) >= 0x30);
    }
}

/// Parsing the digits of a number yields the number.
proof fn lemma_digits_value(n: nat)
    requires
        n <= usize::MAX,
    ensures
        parse_digits_acc(dec_str(n), 0, 0) == Some(n as int),
    decreases n,
{
    reveal_with_fuel(parse_digits_acc, 3);
    lemma_dec_bytes_ascii(n);
    if n < 10 {
        assert(dec_str(n).len() == 1);
        assert(dec_str(n)[0] == ((n + 0x30) as u8) as char);
        assert(digit_val(dec_str(n)[0]) == Some(n as int));
    } else {
        lemma_digits_value(n / 10);
        lemma_fundamental_div_mod(n as int, 10);
        let d = ((n % 10 + 0x30) as u8) as char;
        assert(digit_val(d) == Some((n % 10) as int));
        assert(dec_str(n) =~= dec_str(n / 10).push(d)) by {
            lemma_dec_bytes_ascii(n / 10);
            assert(dec_bytes(n) == dec_bytes(n / 10).push((n % 10 + 0x30) as u8));
        }
        lemma_parse_digits_push(dec_str(n / 10), d, 0, 0);
        assert((n / 10) * 10 + n % 10 == n);
    }
}

} // verus!
