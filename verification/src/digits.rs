//! Rendering of numbers as text: lower-case hexadecimal for integrity tags
//! and decimal for content lengths.

use vstd::prelude::*;
use vstd::string::StringExecFns;

verus! {

/// The lower-case hexadecimal digit for a value below 16.
pub open spec fn hex_digit(v: int) -> char {
    if v == 0 {
        '0'
    } else if v == 1 {
        '1'
    } else if v == 2 {
        '2'
    } else if v == 3 {
        '3'
    } else if v == 4 {
        '4'
    } else if v == 5 {
        '5'
    } else if v == 6 {
        '6'
    } else if v == 7 {
        '7'
    } else if v == 8 {
        '8'
    } else if v == 9 {
        '9'
    } else if v == 10 {
        'a'
    } else if v == 11 {
        'b'
    } else if v == 12 {
        'c'
    } else if v == 13 {
        'd'
    } else if v == 14 {
        'e'
    } else {
        'f'
    }
}

/// The lower-case hexadecimal rendering of `v`, without leading zeros
/// (a single `0` for zero).
pub open spec fn spec_hex(v: int) -> Seq<char>
    decreases v,
    when v >= 0
{
    if v < 16 {
        seq![hex_digit(v)]
    } else {
        spec_hex(v / 16) + seq![hex_digit(v % 16)]
    }
}

/// The decimal rendering of `v`, without leading zeros (a single `0` for
/// zero).
pub open spec fn spec_decimal(v: int) -> Seq<char>
    decreases v,
    when v >= 0
{
    if v < 10 {
        seq![hex_digit(v)]
    } else {
        spec_decimal(v / 10) + seq![hex_digit(v % 10)]
    }
}

fn hex_digit_str(v: u32) -> (r: &'static str)
    requires
        v < 16,
    ensures
        r@ == seq![hex_digit(v as int)],
{
    proof {
        reveal_strlit("0");
        reveal_strlit("1");
        reveal_strlit("2");
        reveal_strlit("3");
        reveal_strlit("4");
        reveal_strlit("5");
        reveal_strlit("6");
        reveal_strlit("7");
        reveal_strlit("8");
        reveal_strlit("9");
        reveal_strlit("a");
        reveal_strlit("b");
        reveal_strlit("c");
        reveal_strlit("d");
        reveal_strlit("e");
        reveal_strlit("f");
    }
    let r: &'static str = if v == 0 {
        "0"
    } else if v == 1 {
        "1"
    } else if v == 2 {
        "2"
    } else if v == 3 {
        "3"
    } else if v == 4 {
        "4"
    } else if v == 5 {
        "5"
    } else if v == 6 {
        "6"
    } else if v == 7 {
        "7"
    } else if v == 8 {
        "8"
    } else if v == 9 {
        "9"
    } else if v == 10 {
        "a"
    } else if v == 11 {
        "b"
    } else if v == 12 {
        "c"
    } else if v == 13 {
        "d"
    } else if v == 14 {
        "e"
    } else {
        "f"
    };
    proof {
        assert(r@ =~= seq![hex_digit(v as int)]);
    }
    r
}

/// Renders `v` in lower-case hexadecimal.
pub fn hex_u32(v: u32) -> (r: String)
    ensures
        r@ == spec_hex(v as int),
    decreases v,
{
    if v < 16 {
        hex_digit_str(v).to_owned()
    } else {
        let mut r = hex_u32(v / 16);
        r.append(hex_digit_str(v % 16));
        r
    }
}

/// Renders `v` in decimal.
pub fn decimal_usize(v: usize) -> (r: String)
    ensures
        r@ == spec_decimal(v as int),
    decreases v,
{
    if v < 10 {
        let d: u32 = (v as u32) % 16;
        proof {
            assert(d == v as int);
        }
        hex_digit_str(d).to_owned()
    } else {
        let mut r = decimal_usize(v / 10);
        let d: u32 = ((v % 10) as u32);
        r.append(hex_digit_str(d));
        r
    }
}

} // verus!
