//! The grammar of decimal floating-point literals.
//!
//! ```text
//! Literal ::= Sign? ( 'inf' | 'infinity' | 'nan' | Number )
//! Number  ::= ( Digit+ | Digit+ '.' Digit* | Digit* '.' Digit+ ) Exp?
//! Exp     ::= 'e' Sign? Digit+
//! Sign    ::= [+-]
//! Digit   ::= [0-9]
//! ```
//!
//! Letters are matched without regard to case. This is the language that the
//! standard library's `f64::from_str` accepts, so a token that passes here
//! can always be turned into a number.

use crate::text::{ascii, is_word};
use vstd::prelude::*;
use vstd::slice::slice_subrange;
use vstd::string::is_ascii;

verus! {

pub open spec fn is_digit(b: u8) -> bool {
    0x30 <= b <= 0x39
}

pub open spec fn is_sign(b: u8) -> bool {
    b == 0x2b || b == 0x2d
}

/// `b` with an upper-case ASCII letter replaced by its lower-case form.
pub open spec fn to_lower(b: u8) -> u8 {
    if 0x41 <= b <= 0x5a {
        (b + 0x20) as u8
    } else {
        b
    }
}

/// `s` with every upper-case ASCII letter replaced by its lower-case form.
pub open spec fn lowered(s: Seq<u8>) -> Seq<u8> {
    Seq::new(s.len(), |i: int| to_lower(s[i]))
}

/// The number of digits that `s` begins with.
pub open spec fn digit_run(s: Seq<u8>) -> nat
    decreases s.len(),
{
    if s.len() > 0 && is_digit(s[0]) {
        1 + digit_run(s.drop_first())
    } else {
        0
    }
}

/// `s` is one or more digits and nothing else.
pub open spec fn is_digits(s: Seq<u8>) -> bool {
    s.len() > 0 && digit_run(s) == s.len()
}

/// `Exp`: the letter e, an optional sign, one or more digits.
pub open spec fn is_exponent(s: Seq<u8>) -> bool {
    s.len() >= 2 && to_lower(s[0]) == 0x65 && if is_sign(s[1]) {
        is_digits(s.skip(2))
    } else {
        is_digits(s.skip(1))
    }
}

/// What follows the integer digits of a `Number` that has `whole` of them:
/// an optional point with its digits, at least one digit on either side
/// taken together, then an optional exponent.
pub open spec fn is_number_tail(s: Seq<u8>, whole: nat) -> bool {
    if s.len() > 0 && s[0] == 0x2e {
        let frac = digit_run(s.skip(1));
        let rest = s.skip(1 + frac as int);
        whole + frac > 0 && (rest.len() == 0 || is_exponent(rest))
    } else {
        whole > 0 && (s.len() == 0 || is_exponent(s))
    }
}

/// `Number`.
pub open spec fn is_number(s: Seq<u8>) -> bool {
    is_number_tail(s.skip(digit_run(s) as int), digit_run(s))
}

/// One of the three words for a value that is no finite number.
pub open spec fn is_special(s: Seq<u8>) -> bool {
    lowered(s) == ascii("inf"@) || lowered(s) == ascii("infinity"@) || lowered(s) == ascii("nan"@)
}

/// `Literal`.
pub open spec fn is_float_literal(s: Seq<u8>) -> bool {
    if s.len() > 0 && is_sign(s[0]) {
        is_special(s.skip(1)) || is_number(s.skip(1))
    } else {
        is_special(s) || is_number(s)
    }
}

fn lower_byte(b: u8) -> (r: u8)
    ensures
        r == to_lower(b),
{
    if 0x41 <= b && b <= 0x5a {
        b + 0x20
    } else {
        b
    }
}

fn digit_byte(b: u8) -> (r: bool)
    ensures
        r == is_digit(b),
{
    0x30 <= b && b <= 0x39
}

fn sign_byte(b: u8) -> (r: bool)
    ensures
        r == is_sign(b),
{
    b == 0x2b || b == 0x2d
}

/// Counts the digits that `s` begins with.
fn count_digits(s: &[u8]) -> (n: usize)
    ensures
        n == digit_run(s@),
        n <= s.len(),
{
    let mut n: usize = 0;
    assert(s@.skip(0) =~= s@);
    while n < s.len() && digit_byte(s[n])
        invariant
            n <= s.len(),
            digit_run(s@) == n + digit_run(s@.skip(n as int)),
        decreases s.len() - n,
    {
        assert(s@.skip(n as int).drop_first() =~= s@.skip(n + 1));
        n += 1;
    }
    n
}

fn lowercase(s: &[u8]) -> (r: Vec<u8>)
    ensures
        r@ == lowered(s@),
{
    let mut r: Vec<u8> = Vec::new();
    let mut i: usize = 0;
    while i < s.len()
        invariant
            i <= s.len(),
            r.len() == i,
            forall|j: int| 0 <= j < i ==> r@[j] == to_lower(s@[j]),
        decreases s.len() - i,
    {
        r.push(lower_byte(s[i]));
        i += 1;
    }
    assert(r@ =~= lowered(s@));
    r
}

fn check_digits(s: &[u8]) -> (r: bool)
    ensures
        r == is_digits(s@),
{
    let n = count_digits(s);
    s.len() > 0 && n == s.len()
}

fn check_exponent(s: &[u8]) -> (r: bool)
    ensures
        r == is_exponent(s@),
{
    if s.len() < 2 || lower_byte(s[0]) != 0x65 {
        return false;
    }
    if sign_byte(s[1]) {
        check_digits(slice_subrange(s, 2, s.len()))
    } else {
        check_digits(slice_subrange(s, 1, s.len()))
    }
}

fn check_number(s: &[u8]) -> (r: bool)
    ensures
        r == is_number(s@),
{
    let whole = count_digits(s);
    let tail = slice_subrange(s, whole, s.len());
    if tail.len() > 0 && tail[0] == 0x2e {
        let after_point = slice_subrange(tail, 1, tail.len());
        let frac = count_digits(after_point);
        let rest = slice_subrange(after_point, frac, after_point.len());
        assert(rest@ =~= tail@.skip(1 + frac));
        (whole > 0 || frac > 0) && (rest.len() == 0 || check_exponent(rest))
    } else {
        whole > 0 && (tail.len() == 0 || check_exponent(tail))
    }
}

fn check_special(s: &[u8]) -> (r: bool)
    ensures
        r == is_special(s@),
{
    proof {
        reveal_strlit("inf");
        reveal_strlit("infinity");
        reveal_strlit("nan");
    }
    let low = lowercase(s);
    is_word(low.as_slice(), "inf") || is_word(low.as_slice(), "infinity") || is_word(
        low.as_slice(),
        "nan",
    )
}

/// Whether `token` is a floating-point literal.
pub fn is_literal(token: &[u8]) -> (r: bool)
    ensures
        r == is_float_literal(token@),
{
    if token.len() > 0 && sign_byte(token[0]) {
        let body = slice_subrange(token, 1, token.len());
        check_special(body) || check_number(body)
    } else {
        check_special(token) || check_number(token)
    }
}

} // verus!
