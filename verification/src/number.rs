use vstd::prelude::*;
use crate::text::chars_of;

verus! {

/// An ASCII decimal digit.
pub open spec fn is_digit(c: char) -> bool {
    '0' <= c && c <= '9'
}

/// A plus or minus sign.
pub open spec fn is_sign(c: char) -> bool {
    c == '+' || c == '-'
}

/// How many digits stand in `s` from index `i` on, without a gap.
pub open spec fn digits_len(s: Seq<char>, i: int) -> nat
    decreases s.len() - i,
{
    if 0 <= i < s.len() && is_digit(s[i]) {
        1 + digits_len(s, i + 1)
    } else {
        0
    }
}

/// Whether the text from index `d` to the end of `s` is an exponent:
/// `e` or `E`, an optional sign, and one digit or more.
pub open spec fn is_exponent(s: Seq<char>, d: int) -> bool {
    let f = if d + 1 < s.len() && is_sign(s[d + 1]) {
        d + 2
    } else {
        d + 1
    };
    &&& 0 <= d < s.len()
    &&& (s[d] == 'e' || s[d] == 'E')
    &&& digits_len(s, f) >= 1
    &&& f + digits_len(s, f) == s.len()
}

/// Whether `s` is a decimal literal that the 64-bit float grammar takes:
/// an optional sign; digits with an optional point among them, at least
/// one digit on either side of it; and an optional exponent.
pub open spec fn is_decimal_literal(s: Seq<char>) -> bool {
    let a: int = if s.len() > 0 && is_sign(s[0]) {
        1
    } else {
        0
    };
    let whole = digits_len(s, a);
    let b = a + whole;
    let pointed = b < s.len() && s[b] == '.';
    let c = if pointed {
        b + 1
    } else {
        b
    };
    let fraction = if pointed {
        digits_len(s, c)
    } else {
        0
    };
    let d = c + fraction;
    &&& whole + fraction >= 1
    &&& (d == s.len() || is_exponent(s, d))
}

/// Whether `c` is an ASCII decimal digit.
pub fn digit(c: char) -> (r: bool)
    ensures
        r == is_digit(c),
{
    '0' <= c && c <= '9'
}

/// The index behind the digits that start at `from`.
fn skip_digits(chars: &Vec<char>, from: usize) -> (to: usize)
    requires
        from <= chars@.len(),
    ensures
        to == from + digits_len(chars@, from as int),
        to <= chars@.len(),
{
    let mut to: usize = from;
    while to < chars.len() && digit(chars[to])
        invariant
            from <= to <= chars@.len(),
            to + digits_len(chars@, to as int) == from + digits_len(chars@, from as int),
        decreases chars@.len() - to,
    {
        to += 1;
    }
    to
}

/// Decides whether `chars` is a decimal literal.
pub fn decimal_literal(chars: &Vec<char>) -> (ok: bool)
    ensures
        ok == is_decimal_literal(chars@),
{
    let n: usize = chars.len();
    let a: usize = if n > 0 && (chars[0] == '+' || chars[0] == '-') {
        1
    } else {
        0
    };
    let b: usize = skip_digits(chars, a);
    let pointed = b < n && chars[b] == '.';
    let c: usize = if pointed {
        b + 1
    } else {
        b
    };
    let d: usize = if pointed {
        skip_digits(chars, c)
    } else {
        c
    };
    if d - c + (b - a) < 1 {
        return false;
    }
    if d == n {
        return true;
    }
    if chars[d] != 'e' && chars[d] != 'E' {
        return false;
    }
    let f: usize = if d + 1 < n && (chars[d + 1] == '+' || chars[d + 1] == '-') {
        d + 2
    } else {
        d + 1
    };
    let g: usize = skip_digits(chars, f);
    g > f && g == n
}

/// Decides whether `text` is a decimal literal.
pub fn is_decimal_text(text: &str) -> (ok: bool)
    ensures
        ok == is_decimal_literal(text@),
{
    let chars = chars_of(text);
    decimal_literal(&chars)
}

} // verus!
