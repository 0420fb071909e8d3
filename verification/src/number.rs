//! Reading a signed decimal number, as the `exit` command needs it.

use crate::text::lemma_span;
use crate::text::lemma_span_from;
use crate::text::span;
use vstd::prelude::*;
use vstd::string::StrSliceExecFns;

verus! {

/// Why a text is not the decimal form of a 32-bit signed integer.
#[derive(Clone, Copy, Debug, PartialEq, Eq, Structural)]
pub enum NumberError {
    /// The text is empty.
    Empty,
    /// A character is no decimal digit, or a sign stands alone.
    InvalidDigit,
    /// The digits name a number above `i32::MAX`.
    TooLarge,
    /// The digits after `-` name a number below `i32::MIN`.
    TooSmall,
}

pub open spec fn is_digit(c: char) -> bool {
    0x30 <= c as u32 <= 0x39
}

pub open spec fn digit_value(c: char) -> int {
    c as u32 - 0x30
}

/// Holds of what is no decimal digit.
pub open spec fn no_digit() -> spec_fn(char) -> bool {
    |c: char| !is_digit(c)
}

/// How many decimal digits stand at the start of `s`.
pub open spec fn digit_run(s: Seq<char>) -> nat {
    span(s, no_digit())
}

/// The number that a sequence of decimal digits names; 0 for none.
pub open spec fn decimal(s: Seq<char>) -> int
    decreases s.len(),
{
    if s.len() == 0 {
        0
    } else {
        10 * decimal(s.drop_last()) + digit_value(s.last())
    }
}

/// The characters of `s` after an optional sign.
pub open spec fn magnitude(s: Seq<char>) -> Seq<char> {
    if s.len() > 0 && (s[0] == '-' || s[0] == '+') {
        s.skip(1)
    } else {
        s
    }
}

pub open spec fn is_negative(s: Seq<char>) -> bool {
    s.len() > 0 && s[0] == '-'
}

/// The 32-bit signed integer that `s` names: an optional `+` or `-`, then
/// decimal digits and nothing else.
///
/// The digits are read from the left. A number that leaves the range is
/// reported where it does so, before a later character that is no digit is
/// looked at; so the leading digits decide between the two kinds of error.
pub open spec fn parse_i32(s: Seq<char>) -> Result<i32, NumberError> {
    let body = magnitude(s);
    let value = decimal(body.take(digit_run(body) as int));
    if s.len() == 0 {
        Err(NumberError::Empty)
    } else if body.len() == 0 {
        Err(NumberError::InvalidDigit)
    } else if !is_negative(s) && value > i32::MAX {
        Err(NumberError::TooLarge)
    } else if is_negative(s) && -value < i32::MIN {
        Err(NumberError::TooSmall)
    } else if digit_run(body) < body.len() {
        Err(NumberError::InvalidDigit)
    } else if is_negative(s) {
        Ok((-value) as i32)
    } else {
        Ok(value as i32)
    }
}

/// More digits never name a smaller number.
proof fn lemma_decimal_grows(s: Seq<char>, a: int, b: int)
    requires
        0 <= a <= b <= s.len(),
        forall|i: int| 0 <= i < b ==> is_digit(#[trigger] s[i]),
    ensures
        0 <= decimal(s.take(a)) <= decimal(s.take(b)),
    decreases b,
{
    if b == 0 {
        assert(s.take(0).len() == 0);
    } else {
        assert(s.take(b).drop_last() =~= s.take(b - 1));
        assert(s.take(b).last() == s[b - 1]);
        if a < b {
            lemma_decimal_grows(s, a, b - 1);
        } else {
            lemma_decimal_grows(s, b - 1, b - 1);
        }
    }
}

/// Reads a 32-bit signed integer in decimal notation.
pub fn parse_number(text: &str) -> (number: Result<i32, NumberError>)
    ensures
        number == parse_i32(text@),
{
    let n: usize = text.unicode_len();
    if n == 0 {
        return Err(NumberError::Empty);
    }
    let first = text.get_char(0);
    let negative = first == '-';
    let signed = first == '-' || first == '+';
    if signed && n == 1 {
        return Err(NumberError::InvalidDigit);
    }
    let ghost body = magnitude(text@);
    let ghost off: int = if signed { 1 } else { 0 };
    let limit: i64 = if negative { 0x8000_0000 } else { 0x7fff_ffff };
    let mut acc: i64 = 0;
    let mut i: usize = 0;
    assert(body.take(0).len() == 0);
    for c in it: text.chars()
        invariant
            it.seq() == text@,
            n == text@.len(),
            n > 0,
            i == it.index(),
            signed == (text@[0] == '-' || text@[0] == '+'),
            negative == is_negative(text@),
            body == magnitude(text@),
            off == if signed { 1int } else { 0int },
            limit == if negative { 0x8000_0000i64 } else { 0x7fff_ffffi64 },
            0 <= acc <= limit,
            i >= off ==> acc == decimal(body.take(i - off)),
            i < off ==> acc == 0,
            forall|k: int| 0 <= k < i - off ==> is_digit(#[trigger] body[k]),
    {
        assert(c == text@[i as int]);
        if i > 0 || !signed {
            let ghost j: int = i - off;
            assert(body[j] == c);
            let code: u32 = c as u32;
            if code < 0x30 || code > 0x39 {
                proof {
                    lemma_span_from(body, no_digit(), j);
                }
                return Err(NumberError::InvalidDigit);
            }
            let digit: i64 = (code - 0x30) as i64;
            proof {
                assert(body.take(j + 1).drop_last() =~= body.take(j));
                assert(body.take(j + 1).last() == c);
            }
            acc = acc * 10 + digit;
            if acc > limit {
                proof {
                    lemma_span_from(body, no_digit(), j + 1);
                    lemma_span(body, no_digit());
                    lemma_decimal_grows(body, j + 1, digit_run(body) as int);
                }
                if negative {
                    return Err(NumberError::TooSmall);
                } else {
                    return Err(NumberError::TooLarge);
                }
            }
        }
        i = i + 1;
    }
    proof {
        lemma_span_from(body, no_digit(), n - off);
        assert(body.take(body.len() as int) =~= body);
    }
    if negative {
        Ok((-acc) as i32)
    } else {
        Ok(acc as i32)
    }
}

} // verus!
