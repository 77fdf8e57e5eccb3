//! Human-readable byte-size labels for capture summaries ("2.50 KB"),
//! rendered with two fixed decimal places in integer arithmetic.

use vstd::prelude::*;
use vstd::string::StringExecFns;

use crate::numfmt::{dec_u64, spec_dec_digits, spec_digit_char};
use crate::strutil::push_char;

verus! {

pub const KB: usize = 1024;

pub const MB: usize = 1048576;

pub const GB: usize = 1073741824;

/// `size * 100 / div`, rounded to the nearest integer, ties to even.
pub open spec fn spec_hundredths(size: nat, div: nat) -> nat
    recommends
        div > 0,
{
    let q = size * 100 / div;
    let r = size * 100 % div;
    if 2 * r < div {
        q
    } else if 2 * r > div {
        q + 1
    } else if q % 2 == 0 {
        q
    } else {
        q + 1
    }
}

/// "W.FF": the quotient `h / 100` in decimal, a dot, then the remainder as
/// exactly two digits.
pub open spec fn spec_fixed2(h: nat) -> Seq<char> {
    spec_dec_digits(h / 100) + seq!['.', spec_digit_char((h % 100 / 10) as int), spec_digit_char(
        (h % 10) as int,
    )]
}

/// The size label: bytes below 1024 are exact ("123 B"); above that the
/// size is scaled to KB, MB or GB with two decimal places.
pub open spec fn spec_format_size(size: nat) -> Seq<char> {
    if size < KB {
        spec_dec_digits(size) + seq![' ', 'B']
    } else if size < MB {
        spec_fixed2(spec_hundredths(size, KB as nat)) + seq![' ', 'K', 'B']
    } else if size < GB {
        spec_fixed2(spec_hundredths(size, MB as nat)) + seq![' ', 'M', 'B']
    } else {
        spec_fixed2(spec_hundredths(size, GB as nat)) + seq![' ', 'G', 'B']
    }
}

/// `size * 100 / div`, rounded to the nearest integer, ties to even.
fn hundredths(size: usize, div: usize) -> (h: u64)
    requires
        1024 <= div <= 1073741824,
        size >= div,
    ensures
        h == spec_hundredths(size as nat, div as nat),
{
    let wide: u128 = (size as u128) * 100;
    let q: u128 = wide / (div as u128);
    let r: u128 = wide % (div as u128);
    proof {
        assert(q * (div as u128) + r == wide) by (nonlinear_arith)
            requires
                q == wide / (div as u128),
                r == wide % (div as u128),
                0 < div,
        ;
        assert(wide <= usize::MAX as u128 * 100);
        assert(q <= wide) by (nonlinear_arith)
            requires
                q == wide / (div as u128),
                0 < (div as u128),
        ;
    }
    let rounded: u128 = if 2 * r < div as u128 {
        q
    } else if 2 * r > div as u128 {
        q + 1
    } else if q % 2 == 0 {
        q
    } else {
        q + 1
    };
    proof {
        assert(q * 1024 <= wide) by (nonlinear_arith)
            requires
                q * (div as u128) + r == wide,
                1024 <= (div as u128),
                r >= 0,
                q >= 0,
        ;
        assert(wide < 1024 * (u64::MAX as u128));
        assert(rounded <= q + 1);
        assert(rounded <= u64::MAX);
    }
    rounded as u64
}

/// Renders `h` hundredths as "W.FF".
fn fixed2(h: u64) -> (r: String)
    ensures
        r@ == spec_fixed2(h as nat),
{
    let mut s = dec_u64(h / 100);
    push_char(&mut s, '.');
    let tens = (h % 100) / 10;
    let ones = h % 10;
    push_char(&mut s, digit_of(tens));
    push_char(&mut s, digit_of(ones));
    proof {
        assert(s@ =~= spec_fixed2(h as nat));
    }
    s
}

fn digit_of(d: u64) -> (c: char)
    requires
        d < 10,
    ensures
        c == spec_digit_char(d as int),
{
    match d {
        0 => '0',
        1 => '1',
        2 => '2',
        3 => '3',
        4 => '4',
        5 => '5',
        6 => '6',
        7 => '7',
        8 => '8',
        _ => '9',
    }
}

/// The human-readable label of a byte count.
pub fn format_size(size: usize) -> (r: String)
    ensures
        r@ == spec_format_size(size as nat),
{
    if size < KB {
        let mut s = dec_u64(size as u64);
        s.append(" B");
        proof {
            reveal_strlit(" B");
            assert(s@ =~= spec_format_size(size as nat));
        }
        s
    } else if size < MB {
        let mut s = fixed2(hundredths(size, KB));
        s.append(" KB");
        proof {
            reveal_strlit(" KB");
            assert(s@ =~= spec_format_size(size as nat));
        }
        s
    } else if size < GB {
        let mut s = fixed2(hundredths(size, MB));
        s.append(" MB");
        proof {
            reveal_strlit(" MB");
            assert(s@ =~= spec_format_size(size as nat));
        }
        s
    } else {
        let mut s = fixed2(hundredths(size, GB));
        s.append(" GB");
        proof {
            reveal_strlit(" GB");
            assert(s@ =~= spec_format_size(size as nat));
        }
        s
    }
}

/// The parenthesized size annotation appended to file summaries: " (label)".
pub open spec fn spec_size_annotation(size: nat) -> Seq<char> {
    seq![' ', '('] + spec_format_size(size) + seq![')']
}

/// The " (label)" annotation for a byte count.
pub fn size_annotation(size: usize) -> (r: String)
    ensures
        r@ == spec_size_annotation(size as nat),
{
    let mut s = String::from_str(" (");
    let label = format_size(size);
    s.append(label.as_str());
    push_char(&mut s, ')');
    proof {
        reveal_strlit(" (");
        assert(s@ =~= spec_size_annotation(size as nat));
    }
    s
}

} // verus!
