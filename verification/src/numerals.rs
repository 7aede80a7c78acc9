//! Decimal numerals as character sequences, for file names and error
//! messages.

use vstd::prelude::*;
use vstd::string::StringExecFns;

verus! {

/// The character of a single decimal digit.
pub open spec fn digit_char(digit: nat) -> char {
    if digit == 0 {
        '0'
    } else if digit == 1 {
        '1'
    } else if digit == 2 {
        '2'
    } else if digit == 3 {
        '3'
    } else if digit == 4 {
        '4'
    } else if digit == 5 {
        '5'
    } else if digit == 6 {
        '6'
    } else if digit == 7 {
        '7'
    } else if digit == 8 {
        '8'
    } else {
        '9'
    }
}

/// The decimal numeral of `number`, most significant digit first, with no
/// leading zeroes (a single `0` for zero).
pub open spec fn decimal_digits(number: nat) -> Seq<char>
    decreases number,
{
    if number < 10 {
        seq![digit_char(number)]
    } else {
        decimal_digits(number / 10).push(digit_char(number % 10))
    }
}

/// The decimal numeral of `number`, with a leading minus sign when it is
/// negative.
pub open spec fn signed_decimal_digits(number: int) -> Seq<char> {
    if number < 0 {
        seq!['-'] + decimal_digits((-number) as nat)
    } else {
        decimal_digits(number as nat)
    }
}

fn digit_str(digit: u32) -> (s: &'static str)
    requires
        digit < 10,
    ensures
        s@ == seq![digit_char(digit as nat)],
{
    proof {
        reveal_strlit("0");
        reveal_strlit("1");
        reveal_strlit("2");
        reveal_strlit("3");
        reveal_strlit("4");
        reveal_strlit("5");
        reveal_strlit("6");
        reveal_strlit("7");
        reveal_strlit("8");
        reveal_strlit("9");
    }
    if digit == 0 {
        "0"
    } else if digit == 1 {
        "1"
    } else if digit == 2 {
        "2"
    } else if digit == 3 {
        "3"
    } else if digit == 4 {
        "4"
    } else if digit == 5 {
        "5"
    } else if digit == 6 {
        "6"
    } else if digit == 7 {
        "7"
    } else if digit == 8 {
        "8"
    } else {
        "9"
    }
}

/// Writes `number` in decimal.
pub fn decimal_string(number: u32) -> (s: String)
    ensures
        s@ == decimal_digits(number as nat),
    decreases number,
{
    if number < 10 {
        String::from_str(digit_str(number))
    } else {
        let mut s = decimal_string(number / 10);
        s.append(digit_str(number % 10));
        proof {
            assert(s@ =~= decimal_digits(number as nat));
        }
        s
    }
}

/// Writes `number` in decimal, with a leading minus sign when it is
/// negative.
pub fn signed_decimal_string(number: i32) -> (s: String)
    ensures
        s@ == signed_decimal_digits(number as int),
{
    if number >= 0 {
        decimal_string(number as u32)
    } else {
        let mut s = String::from_str("-");
        let magnitude: i64 = -(number as i64);
        s.append(decimal_string(magnitude as u32).as_str());
        proof {
            reveal_strlit("-");
            assert(s@ =~= signed_decimal_digits(number as int));
        }
        s
    }
}

} // verus!
