//! Building display text: decimal numbers and string concatenation.

use vstd::prelude::*;
use vstd::string::*;

verus! {

/// The character that writes the digit `d`.
pub open spec fn digit_char(d: nat) -> char
    recommends
        d < 10,
{
    if d == 0 {
        '0'
    } else if d == 1 {
        '1'
    } else if d == 2 {
        '2'
    } else if d == 3 {
        '3'
    } else if d == 4 {
        '4'
    } else if d == 5 {
        '5'
    } else if d == 6 {
        '6'
    } else if d == 7 {
        '7'
    } else if d == 8 {
        '8'
    } else {
        '9'
    }
}

/// The decimal numeral of `n`, most significant digit first, without
/// leading zeros (the numeral of zero is `0`).
pub open spec fn decimal(n: nat) -> Seq<char>
    decreases n,
{
    if n < 10 {
        seq![digit_char(n)]
    } else {
        decimal(n / 10).push(digit_char(n % 10))
    }
}

/// Appends one character to a string.
///
/// Trusted: `String::push` of the standard library, which appends the given
/// character to the end of the string.
#[verifier::external_body]
pub(crate) fn push_char(s: &mut String, c: char)
    ensures
        final(s)@ == old(s)@.push(c),
{
    s.push(c);
}

fn digit(d: u8) -> (c: char)
    requires
        d < 10,
    ensures
        c == digit_char(d as nat),
{
    if d == 0 {
        '0'
    } else if d == 1 {
        '1'
    } else if d == 2 {
        '2'
    } else if d == 3 {
        '3'
    } else if d == 4 {
        '4'
    } else if d == 5 {
        '5'
    } else if d == 6 {
        '6'
    } else if d == 7 {
        '7'
    } else if d == 8 {
        '8'
    } else {
        '9'
    }
}

/// Appends the decimal numeral of `n` to `s`.
pub fn push_decimal(s: &mut String, n: u128)
    ensures
        final(s)@ == old(s)@ + decimal(n as nat),
    decreases n,
{
    if n >= 10 {
        push_decimal(s, n / 10);
    }
    let d: u8 = (n % 10) as u8;
    push_char(s, digit(d));
}

/// The decimal numeral of `n` as a string.
pub fn decimal_string(n: u128) -> (s: String)
    ensures
        s@ == decimal(n as nat),
{
    let mut s = String::new();
    push_decimal(&mut s, n);
    s
}

/// A diagnostic line for a span of byte offsets: the offset of the first
/// byte counted from one, a colon, the offset of the last byte counted
/// from one (which is the span's exclusive end), then `: error: ` and the
/// explanation.
pub open spec fn diagnostic(start: int, end: int, explanation: Seq<char>) -> Seq<char> {
    decimal((start + 1) as nat) + ":"@ + decimal(end as nat) + ": error: "@ + explanation
}

/// The diagnostic line for the span `start..end` and an explanation.
pub fn format_diagnostic(start: usize, end: usize, explanation: &str) -> (line: String)
    ensures
        line@ == diagnostic(start as int, end as int, explanation@),
{
    let mut line = String::new();
    assert(line@ + decimal((start + 1) as nat) =~= decimal((start + 1) as nat));
    push_decimal(&mut line, start as u128 + 1);
    line.append(":");
    push_decimal(&mut line, end as u128);
    line.append(": error: ");
    line.append(explanation);
    line
}

} // verus!
