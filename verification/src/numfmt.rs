//! Rendering of integers as decimal and lowercase-hexadecimal text, used to
//! build canonical event identifiers.

use vstd::prelude::*;
use crate::text::push_char;

verus! {

/// The character for a single decimal digit value.
pub open spec fn dec_digit(d: int) -> char {
    seq!['0', '1', '2', '3', '4', '5', '6', '7', '8', '9'][d]
}

/// The character for a single hexadecimal digit value, lower case.
pub open spec fn hex_digit(d: int) -> char {
    seq!['0', '1', '2', '3', '4', '5', '6', '7', '8', '9', 'a', 'b', 'c', 'd', 'e', 'f'][d]
}

/// The decimal rendering of a natural number, without leading zeros.
pub open spec fn spec_dec_nat(n: nat) -> Seq<char>
    decreases n,
{
    if n < 10 {
        seq![dec_digit(n as int)]
    } else {
        spec_dec_nat(n / 10).push(dec_digit((n % 10) as int))
    }
}

/// The decimal rendering of an integer: a leading minus sign when negative.
pub open spec fn spec_dec_int(n: int) -> Seq<char> {
    if n < 0 {
        seq!['-'] + spec_dec_nat((-n) as nat)
    } else {
        spec_dec_nat(n as nat)
    }
}

/// The lowercase hexadecimal rendering of a natural number, without leading
/// zeros.
pub open spec fn spec_hex_nat(n: nat) -> Seq<char>
    decreases n,
{
    if n < 16 {
        seq![hex_digit(n as int)]
    } else {
        spec_hex_nat(n / 16).push(hex_digit((n % 16) as int))
    }
}

fn dec_digit_char(d: u64) -> (r: char)
    requires
        d < 10,
    ensures
        r == dec_digit(d as int),
{
    if d == 0 {
        '0'
    } else if d == 1 {
        '1'
    } else if d == 2 {
        '2'
    } else if d == 3 {
        '3'
    } else if d == 4 {
        '4'
    } else if d == 5 {
        '5'
    } else if d == 6 {
        '6'
    } else if d == 7 {
        '7'
    } else if d == 8 {
        '8'
    } else {
        '9'
    }
}

fn hex_digit_char(d: u64) -> (r: char)
    requires
        d < 16,
    ensures
        r == hex_digit(d as int),
{
    if d < 10 {
        dec_digit_char(d)
    } else if d == 10 {
        'a'
    } else if d == 11 {
        'b'
    } else if d == 12 {
        'c'
    } else if d == 13 {
        'd'
    } else if d == 14 {
        'e'
    } else {
        'f'
    }
}

/// Renders `n` in decimal.
pub fn dec_u64(n: u64) -> (r: String)
    ensures
        r@ == spec_dec_nat(n as nat),
    decreases n,
{
    if n < 10 {
        let mut s = String::new();
        push_char(&mut s, dec_digit_char(n));
        proof {
            assert(s@ =~= seq![dec_digit(n as int)]);
        }
        s
    } else {
        let mut s = dec_u64(n / 10);
        push_char(&mut s, dec_digit_char(n % 10));
        s
    }
}

/// Renders `n` in decimal, with a leading minus sign when negative.
pub fn dec_i64(n: i64) -> (r: String)
    ensures
        r@ == spec_dec_int(n as int),
{
    if n >= 0 {
        dec_u64(n as u64)
    } else {
        let m: u64 = ((-(n + 1)) as u64) + 1;
        proof {
            assert(m as nat == (-(n as int)) as nat);
        }
        let mut s = String::from_str("-");
        proof {
            reveal_strlit("-");
            assert(s@ =~= seq!['-']);
        }
        let digits = dec_u64(m);
        s.append(digits.as_str());
        s
    }
}

/// Renders `n` in lowercase hexadecimal.
pub fn hex_u64(n: u64) -> (r: String)
    ensures
        r@ == spec_hex_nat(n as nat),
    decreases n,
{
    if n < 16 {
        let mut s = String::new();
        push_char(&mut s, hex_digit_char(n));
        proof {
            assert(s@ =~= seq![hex_digit(n as int)]);
        }
        s
    } else {
        let mut s = hex_u64(n / 16);
        push_char(&mut s, hex_digit_char(n % 16));
        s
    }
}

} // verus!
