//! Numbers as text: decimal, lower-case hexadecimal, and decimal with one
//! fractional digit.

use vstd::prelude::*;

verus! {

/// The digit that stands for `d`, for `d` below sixteen; digits above nine
/// are lower-case letters.
pub open spec fn digit_char(d: int) -> char {
    if d == 0 {
        '0'
    } else if d == 1 {
        '1'
    } else if d == 2 {
        '2'
    } else if d == 3 {
        '3'
    } else if d == 4 {
        '4'
    } else if d == 5 {
        '5'
    } else if d == 6 {
        '6'
    } else if d == 7 {
        '7'
    } else if d == 8 {
        '8'
    } else if d == 9 {
        '9'
    } else if d == 10 {
        'a'
    } else if d == 11 {
        'b'
    } else if d == 12 {
        'c'
    } else if d == 13 {
        'd'
    } else if d == 14 {
        'e'
    } else {
        'f'
    }
}

/// `n` in decimal, without leading zeros.
pub open spec fn decimal_text(n: nat) -> Seq<char>
    decreases n,
{
    if n < 10 {
        seq![digit_char(n as int)]
    } else {
        decimal_text(n / 10).push(digit_char((n % 10) as int))
    }
}

/// `n` in lower-case hexadecimal, without a prefix or leading zeros.
pub open spec fn hex_text(n: nat) -> Seq<char>
    decreases n,
{
    if n < 16 {
        seq![digit_char(n as int)]
    } else {
        hex_text(n / 16).push(digit_char((n % 16) as int))
    }
}

/// A number of tenths written as a decimal with one fractional digit:
/// `-123` is `-12.3`, `5` is `0.5`.
pub open spec fn tenths_text(tenths: int) -> Seq<char> {
    let magnitude: int = if tenths < 0 {
        -tenths
    } else {
        tenths
    };
    let sign: Seq<char> = if tenths < 0 {
        seq!['-']
    } else {
        Seq::empty()
    };
    sign + decimal_text((magnitude / 10) as nat) + seq!['.', digit_char(magnitude % 10)]
}

/// The one-character string for a digit.
fn digit_str(d: u32) -> (s: &'static str)
    requires
        d < 16,
    ensures
        s@ == seq![digit_char(d as int)],
{
    proof {
        reveal_strlit("0");
        reveal_strlit("1");
        reveal_strlit("2");
        reveal_strlit("3");
        reveal_strlit("4");
        reveal_strlit("5");
        reveal_strlit("6");
        reveal_strlit("7");
        reveal_strlit("8");
        reveal_strlit("9");
        reveal_strlit("a");
        reveal_strlit("b");
        reveal_strlit("c");
        reveal_strlit("d");
        reveal_strlit("e");
        reveal_strlit("f");
    }
    let s: &'static str = if d == 0 {
        "0"
    } else if d == 1 {
        "1"
    } else if d == 2 {
        "2"
    } else if d == 3 {
        "3"
    } else if d == 4 {
        "4"
    } else if d == 5 {
        "5"
    } else if d == 6 {
        "6"
    } else if d == 7 {
        "7"
    } else if d == 8 {
        "8"
    } else if d == 9 {
        "9"
    } else if d == 10 {
        "a"
    } else if d == 11 {
        "b"
    } else if d == 12 {
        "c"
    } else if d == 13 {
        "d"
    } else if d == 14 {
        "e"
    } else {
        "f"
    };
    assert(s@ =~= seq![digit_char(d as int)]);
    s
}

/// Writes `n` in decimal.
pub fn decimal(n: u32) -> (text: String)
    ensures
        text@ == decimal_text(n as nat),
    decreases n,
{
    if n < 10 {
        String::from_str(digit_str(n))
    } else {
        let mut text: String = decimal(n / 10);
        text.append(digit_str(n % 10));
        assert(text@ =~= decimal_text(n as nat));
        text
    }
}

/// Writes `n` in lower-case hexadecimal, as `{:x}` does.
pub fn hex(n: u8) -> (text: String)
    ensures
        text@ == hex_text(n as nat),
{
    if n < 16 {
        String::from_str(digit_str(n as u32))
    } else {
        let mut text: String = String::from_str(digit_str(n as u32 / 16));
        text.append(digit_str(n as u32 % 16));
        assert(text@ =~= hex_text(n as nat)) by {
            reveal_with_fuel(hex_text, 2);
        }
        text
    }
}

/// Writes a number of tenths as a decimal with one fractional digit, as
/// `{:.1}` does for the number itself.
pub fn tenths(value: i32) -> (text: String)
    ensures
        text@ == tenths_text(value as int),
{
    let magnitude: u32 = if value < 0 {
        (-(value as i64)) as u32
    } else {
        value as u32
    };
    let mut text: String = if value < 0 {
        String::from_str("-")
    } else {
        String::new()
    };
    proof {
        reveal_strlit("-");
        reveal_strlit(".");
    }
    let whole: String = decimal(magnitude / 10);
    text.append(whole.as_str());
    text.append(".");
    text.append(digit_str(magnitude % 10));
    assert(text@ =~= tenths_text(value as int));
    text
}

} // verus!
