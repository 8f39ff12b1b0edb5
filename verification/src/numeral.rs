//! Numbers written out in digits.

use crate::encoding::string_push;
use vstd::prelude::*;

verus! {

/// The digit for `d`, which is below sixteen: `0` to `9`, then `a` to `f`.
pub open spec fn digit_of(d: nat) -> char {
    if d < 10 {
        (48 + d) as char
    } else {
        (97 + d - 10) as char
    }
}

/// `n` written in decimal.
pub open spec fn decimal_of(n: nat) -> Seq<char>
    decreases n,
{
    if n < 10 {
        seq![digit_of(n)]
    } else {
        decimal_of(n / 10).push(digit_of(n % 10))
    }
}

/// `n` written in hexadecimal, with small letters.
pub open spec fn hex_of(n: nat) -> Seq<char>
    decreases n,
{
    if n < 16 {
        seq![digit_of(n)]
    } else {
        hex_of(n / 16).push(digit_of(n % 16))
    }
}

/// The digit for `d`.
fn digit(d: u8) -> (c: char)
    requires
        d < 16,
    ensures
        c == digit_of(d as nat),
{
    if d < 10 {
        (48u8 + d) as char
    } else {
        (97u8 + d - 10) as char
    }
}

/// Puts `n`, written in decimal, at the end of `out`.
pub fn push_decimal(out: &mut String, n: usize)
    ensures
        final(out)@ == old(out)@ + decimal_of(n as nat),
    decreases n,
{
    if n < 10 {
        string_push(out, digit(n as u8));
    } else {
        push_decimal(out, n / 10);
        string_push(out, digit((n % 10) as u8));
    }
    assert(out@ =~= old(out)@ + decimal_of(n as nat));
}

/// Puts `n`, written in hexadecimal, at the end of `out`.
pub fn push_hex(out: &mut String, n: usize)
    ensures
        final(out)@ == old(out)@ + hex_of(n as nat),
    decreases n,
{
    if n < 16 {
        string_push(out, digit(n as u8));
    } else {
        push_hex(out, n / 16);
        string_push(out, digit((n % 16) as u8));
    }
    assert(out@ =~= old(out)@ + hex_of(n as nat));
}

} // verus!
