//! Decimal and lowercase-hexadecimal rendering of integers, with exact
//! character-level specifications.

use vstd::prelude::*;
use vstd::string::StringExecFns;

use crate::strutil::char_to_string;

verus! {

/// The character for one digit value below 16, lowercase for 10..16.
pub open spec fn spec_digit_char(d: int) -> char {
    if d == 0 {
        '0'
    } else if d == 1 {
        '1'
    } else if d == 2 {
        '2'
    } else if d == 3 {
        '3'
    } else if d == 4 {
        '4'
    } else if d == 5 {
        '5'
    } else if d == 6 {
        '6'
    } else if d == 7 {
        '7'
    } else if d == 8 {
        '8'
    } else if d == 9 {
        '9'
    } else if d == 10 {
        'a'
    } else if d == 11 {
        'b'
    } else if d == 12 {
        'c'
    } else if d == 13 {
        'd'
    } else if d == 14 {
        'e'
    } else {
        'f'
    }
}

/// Decimal digits of `n`, most significant first, no leading zeros
/// (a single '0' for zero).
pub open spec fn spec_dec_digits(n: nat) -> Seq<char>
    decreases n,
{
    if n < 10 {
        seq![spec_digit_char(n as int)]
    } else {
        spec_dec_digits(n / 10).push(spec_digit_char((n % 10) as int))
    }
}

/// Decimal rendering of a signed value: a '-' sign followed by the digits
/// of the absolute value.
pub open spec fn spec_dec_signed(n: int) -> Seq<char> {
    if n < 0 {
        seq!['-'] + spec_dec_digits((-n) as nat)
    } else {
        spec_dec_digits(n as nat)
    }
}

/// Lowercase hexadecimal digits of `n`, most significant first, no leading
/// zeros (a single '0' for zero), as `format!("{:x}", n)` renders them.
pub open spec fn spec_hex_digits(n: nat) -> Seq<char>
    decreases n,
{
    if n < 16 {
        seq![spec_digit_char(n as int)]
    } else {
        spec_hex_digits(n / 16).push(spec_digit_char((n % 16) as int))
    }
}

fn digit_char(d: u64) -> (r: char)
    requires
        d < 16,
    ensures
        r == spec_digit_char(d as int),
{
    if d == 0 {
        '0'
    } else if d == 1 {
        '1'
    } else if d == 2 {
        '2'
    } else if d == 3 {
        '3'
    } else if d == 4 {
        '4'
    } else if d == 5 {
        '5'
    } else if d == 6 {
        '6'
    } else if d == 7 {
        '7'
    } else if d == 8 {
        '8'
    } else if d == 9 {
        '9'
    } else if d == 10 {
        'a'
    } else if d == 11 {
        'b'
    } else if d == 12 {
        'c'
    } else if d == 13 {
        'd'
    } else if d == 14 {
        'e'
    } else {
        'f'
    }
}

/// Renders `n` in decimal.
pub fn dec_u64(n: u64) -> (r: String)
    ensures
        r@ == spec_dec_digits(n as nat),
    decreases n,
{
    if n < 10 {
        char_to_string(digit_char(n))
    } else {
        let mut s = dec_u64(n / 10);
        let t = char_to_string(digit_char(n % 10));
        s.append(t.as_str());
        proof {
            assert(s@ =~= spec_dec_digits(n as nat));
        }
        s
    }
}

/// Renders `n` in decimal with a leading '-' when negative.
pub fn dec_i64(n: i64) -> (r: String)
    ensures
        r@ == spec_dec_signed(n as int),
{
    if n >= 0 {
        dec_u64(n as u64)
    } else {
        let abs: u64 = (-(n as i128)) as u64;
        let mut s = char_to_string('-');
        let t = dec_u64(abs);
        s.append(t.as_str());
        proof {
            assert(s@ =~= spec_dec_signed(n as int));
        }
        s
    }
}

/// Renders `n` in lowercase hexadecimal, as `format!("{:x}", n)` does.
pub fn hex_u64(n: u64) -> (r: String)
    ensures
        r@ == spec_hex_digits(n as nat),
    decreases n,
{
    if n < 16 {
        char_to_string(digit_char(n))
    } else {
        let mut s = hex_u64(n / 16);
        let t = char_to_string(digit_char(n % 16));
        s.append(t.as_str());
        proof {
            assert(s@ =~= spec_hex_digits(n as nat));
        }
        s
    }
}

/// Renders `n` in decimal (usize argument).
pub fn dec_usize(n: usize) -> (r: String)
    ensures
        r@ == spec_dec_digits(n as nat),
{
    dec_u64(n as u64)
}

} // verus!
