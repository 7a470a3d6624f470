//! Decimal rendering of machine integers, verified against a spec-level
//! definition of the digit sequence.
use vstd::prelude::*;

verus! {

/// The character for a single decimal digit.
pub open spec fn spec_digit_char(d: nat) -> char {
    if d == 0 {
        '0'
    } else if d == 1 {
        '1'
    } else if d == 2 {
        '2'
    } else if d == 3 {
        '3'
    } else if d == 4 {
        '4'
    } else if d == 5 {
        '5'
    } else if d == 6 {
        '6'
    } else if d == 7 {
        '7'
    } else if d == 8 {
        '8'
    } else {
        '9'
    }
}

/// Decimal digit sequence of a non-negative integer, most significant first.
pub open spec fn spec_nat_digits(n: nat) -> Seq<char>
    decreases n,
{
    if n < 10 {
        seq![spec_digit_char(n)]
    } else {
        spec_nat_digits(n / 10) + seq![spec_digit_char(n % 10)]
    }
}

/// Decimal rendering of a signed integer: a `-` sign followed by the digits
/// of its magnitude, or the bare digits when it is non-negative.
pub open spec fn spec_int_digits(i: int) -> Seq<char> {
    if i >= 0 {
        spec_nat_digits(i as nat)
    } else {
        seq!['-'] + spec_nat_digits((-i) as nat)
    }
}

fn digit_str(d: usize) -> (r: &'static str)
    requires
        d < 10,
    ensures
        r@ == seq![spec_digit_char(d as nat)],
{
    proof {
        reveal_strlit("0");
        reveal_strlit("1");
        reveal_strlit("2");
        reveal_strlit("3");
        reveal_strlit("4");
        reveal_strlit("5");
        reveal_strlit("6");
        reveal_strlit("7");
        reveal_strlit("8");
        reveal_strlit("9");
    }
    match d {
        0 => "0",
        1 => "1",
        2 => "2",
        3 => "3",
        4 => "4",
        5 => "5",
        6 => "6",
        7 => "7",
        8 => "8",
        _ => "9",
    }
}

/// Renders an unsigned machine integer in decimal.
pub fn usize_to_string(n: usize) -> (r: String)
    ensures
        r@ == spec_nat_digits(n as nat),
    decreases n,
{
    if n < 10 {
        String::from_str(digit_str(n))
    } else {
        let mut s = usize_to_string(n / 10);
        s.append(digit_str(n % 10));
        s
    }
}

/// Renders a signed machine integer in decimal.
pub fn isize_to_string(v: isize) -> (r: String)
    ensures
        r@ == spec_int_digits(v as int),
{
    if v >= 0 {
        usize_to_string(v as usize)
    } else {
        let mag: usize = if v == isize::MIN {
            (isize::MAX as usize) + 1
        } else {
            (-v) as usize
        };
        proof {
            reveal_strlit("-");
        }
        let mut s = String::from_str("-");
        let digits = usize_to_string(mag);
        s.append(digits.as_str());
        s
    }
}

} // verus!
