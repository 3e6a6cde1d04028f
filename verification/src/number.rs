//! Decimal numbers in text, read with the standard library's parsers.
use vstd::prelude::*;

verus! {

/// An ASCII decimal digit.
pub open spec fn is_decimal_digit(c: char) -> bool {
    '0' <= c && c <= '9'
}

/// A non-empty run of ASCII decimal digits.
pub open spec fn all_digits(s: Seq<char>) -> bool {
    s.len() > 0 && forall|i: int| 0 <= i < s.len() ==> is_decimal_digit(#[trigger] s[i])
}

/// The value of a run of decimal digits, most significant first.
pub open spec fn digits_value(s: Seq<char>) -> int
    decreases s.len(),
{
    if s.len() == 0 {
        0
    } else {
        digits_value(s.drop_last()) * 10 + (s.last() as int - '0' as int)
    }
}

/// `s` without one leading `'+'`, if it has one.
pub open spec fn drop_plus(s: Seq<char>) -> Seq<char> {
    if s.len() > 0 && s[0] == '+' {
        s.drop_first()
    } else {
        s
    }
}

/// The `u64` written in `s`: an optional `'+'` followed by at least one digit,
/// nothing else, and a value that fits.
pub open spec fn decimal_u64(s: Seq<char>) -> Option<u64> {
    let body = drop_plus(s);
    if all_digits(body) && digits_value(body) <= u64::MAX {
        Some(digits_value(body) as u64)
    } else {
        None
    }
}

/// The `i32` written in `s`: an optional `'+'` or `'-'` followed by at least one
/// digit, nothing else, and a value that fits.
pub open spec fn decimal_i32(s: Seq<char>) -> Option<i32> {
    if s.len() > 0 && s[0] == '-' {
        let body = s.drop_first();
        if all_digits(body) && -digits_value(body) >= i32::MIN {
            Some((-digits_value(body)) as i32)
        } else {
            None
        }
    } else {
        let body = drop_plus(s);
        if all_digits(body) && digits_value(body) <= i32::MAX {
            Some(digits_value(body) as i32)
        } else {
            None
        }
    }
}

/// A character with the Unicode `White_Space` property.
pub open spec fn is_white_space(c: char) -> bool {
    ||| '\u{9}' <= c && c <= '\u{d}'
    ||| c == ' '
    ||| c == '\u{85}'
    ||| c == '\u{a0}'
    ||| c == '\u{1680}'
    ||| '\u{2000}' <= c && c <= '\u{200a}'
    ||| c == '\u{2028}'
    ||| c == '\u{2029}'
    ||| c == '\u{202f}'
    ||| c == '\u{205f}'
    ||| c == '\u{3000}'
}

/// `t` is `s` without its leading and trailing white space.
pub open spec fn is_trimmed_of(t: Seq<char>, s: Seq<char>) -> bool {
    exists|a: int, b: int|
        #![trigger s.subrange(a, b)]
        {
            &&& 0 <= a <= b <= s.len()
            &&& t == s.subrange(a, b)
            &&& forall|i: int| 0 <= i < a ==> is_white_space(#[trigger] s[i])
            &&& forall|i: int| b <= i < s.len() ==> is_white_space(#[trigger] s[i])
            &&& t.len() > 0 ==> !is_white_space(t[0]) && !is_white_space(t.last())
        }
}

/// Calls `str::parse::<u64>`; trusted to return the number written in `s` in
/// decimal (`decimal_u64`) and `None` on any other text, as the standard
/// library documents for `u64::from_str`.
#[verifier::external_body]
pub(crate) fn parse_u64(s: &str) -> (r: Option<u64>)
    ensures
        r == decimal_u64(s@),
{
    s.parse::<u64>().ok()
}

/// Calls `str::parse::<i32>`; trusted to return the number written in `s` in
/// decimal (`decimal_i32`) and `None` on any other text, as the standard
/// library documents for `i32::from_str`.
#[verifier::external_body]
pub(crate) fn parse_i32(s: &str) -> (r: Option<i32>)
    ensures
        r == decimal_i32(s@),
{
    s.parse::<i32>().ok()
}

/// Calls `str::trim`; trusted to return `s` without its leading and trailing
/// Unicode white space, as the standard library documents.
#[verifier::external_body]
pub(crate) fn trim(s: &str) -> (t: &str)
    ensures
        is_trimmed_of(t@, s@),
{
    s.trim()
}

} // verus!
