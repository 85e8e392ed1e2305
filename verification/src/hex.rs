//! Hexadecimal rendering of 16-bit values, handy when logging USB ids.
//!
//! The rendering uses lower-case digits and no prefix, and pads a single
//! digit to two, so a byte-sized value always prints as two digits.

use vstd::prelude::*;

verus! {

/// The character of one hex digit, lower case.
pub open spec fn hex_digit_char(d: int) -> char
    recommends
        0 <= d < 16,
{
    if d < 10 {
        ((48 + d) as u8) as char
    } else {
        ((87 + d) as u8) as char
    }
}

/// The hex digits of a value, most significant first, no leading zeros.
pub open spec fn hex_digits(n: int) -> Seq<char>
    recommends
        n >= 0,
    decreases n,
{
    if n < 16 {
        seq![hex_digit_char(n)]
    } else {
        hex_digits(n / 16) + seq![hex_digit_char(n % 16)]
    }
}

/// The rendering of a value: its hex digits, padded to at least two.
pub open spec fn hex_str_spec(n: int) -> Seq<char>
    recommends
        n >= 0,
{
    if n < 16 {
        seq!['0', hex_digit_char(n)]
    } else {
        hex_digits(n)
    }
}

/// One hex digit as a string slice.
fn hex_digit_str(d: u16) -> (r: &'static str)
    requires
        d < 16,
    ensures
        r@ == seq![hex_digit_char(d as int)],
{
    proof {
        reveal_strlit("0");
        reveal_strlit("1");
        reveal_strlit("2");
        reveal_strlit("3");
        reveal_strlit("4");
        reveal_strlit("5");
        reveal_strlit("6");
        reveal_strlit("7");
        reveal_strlit("8");
        reveal_strlit("9");
        reveal_strlit("a");
        reveal_strlit("b");
        reveal_strlit("c");
        reveal_strlit("d");
        reveal_strlit("e");
        reveal_strlit("f");
        assert("0"@ =~= seq!['0']);
        assert("1"@ =~= seq!['1']);
        assert("2"@ =~= seq!['2']);
        assert("3"@ =~= seq!['3']);
        assert("4"@ =~= seq!['4']);
        assert("5"@ =~= seq!['5']);
        assert("6"@ =~= seq!['6']);
        assert("7"@ =~= seq!['7']);
        assert("8"@ =~= seq!['8']);
        assert("9"@ =~= seq!['9']);
        assert("a"@ =~= seq!['a']);
        assert("b"@ =~= seq!['b']);
        assert("c"@ =~= seq!['c']);
        assert("d"@ =~= seq!['d']);
        assert("e"@ =~= seq!['e']);
        assert("f"@ =~= seq!['f']);
    }
    match d {
        0 => "0",
        1 => "1",
        2 => "2",
        3 => "3",
        4 => "4",
        5 => "5",
        6 => "6",
        7 => "7",
        8 => "8",
        9 => "9",
        10 => "a",
        11 => "b",
        12 => "c",
        13 => "d",
        14 => "e",
        _ => "f",
    }
}

fn hex_digits_exec(n: u16) -> (r: String)
    ensures
        r@ == hex_digits(n as int),
    decreases n,
{
    if n < 16 {
        String::from_str(hex_digit_str(n))
    } else {
        let mut s = hex_digits_exec(n / 16);
        s.append(hex_digit_str(n % 16));
        s
    }
}

/// Renders a value in lower-case hex, padded to at least two digits,
/// exactly as [`hex_str_spec`] says.
pub fn to_hex_str(n: u16) -> (r: String)
    ensures
        r@ == hex_str_spec(n as int),
{
    if n < 16 {
        proof {
            reveal_strlit("0");
            assert("0"@ =~= seq!['0']);
        }
        let mut s = String::from_str("0");
        s.append(hex_digit_str(n));
        proof {
            assert(s@ =~= hex_str_spec(n as int));
        }
        s
    } else {
        hex_digits_exec(n)
    }
}

} // verus!
