//! Rendering money and quantities as text for receipts.
//!
//! A quantity prints as its decimal digits. An amount of cents prints as
//! whole units, with the cent part after a point only when it is not zero,
//! and with a trailing zero cent trimmed: 440 cents print as "4.4", 405 as
//! "4.05", 100 as "1".

use vstd::prelude::*;
use vstd::string::StringExecFns;

verus! {

/// The decimal digit character for `d` (meaningful for 0 through 9).
pub open spec fn digit_char(d: int) -> char {
    if d == 0 {
        '0'
    } else if d == 1 {
        '1'
    } else if d == 2 {
        '2'
    } else if d == 3 {
        '3'
    } else if d == 4 {
        '4'
    } else if d == 5 {
        '5'
    } else if d == 6 {
        '6'
    } else if d == 7 {
        '7'
    } else if d == 8 {
        '8'
    } else {
        '9'
    }
}

/// The decimal digits of `n`, most significant first.
pub open spec fn dec_digits(n: int) -> Seq<char>
    decreases n,
{
    if n < 10 {
        seq![digit_char(n)]
    } else {
        dec_digits(n / 10).push(digit_char(n % 10))
    }
}

/// Cents as text: whole units, then the non-zero cent part after a point,
/// with a trailing zero cent trimmed.
pub open spec fn money_chars(cents: int) -> Seq<char> {
    let whole = cents / 100;
    let frac = cents % 100;
    if frac == 0 {
        dec_digits(whole)
    } else if frac % 10 == 0 {
        dec_digits(whole).push('.').push(digit_char(frac / 10))
    } else {
        dec_digits(whole).push('.').push(digit_char(frac / 10)).push(digit_char(frac % 10))
    }
}

/// The one-character text of a single decimal digit.
fn digit_literal(d: u64) -> (s: &'static str)
    requires
        d < 10,
    ensures
        s@ == seq![digit_char(d as int)],
{
    proof {
        reveal_strlit("0");
        reveal_strlit("1");
        reveal_strlit("2");
        reveal_strlit("3");
        reveal_strlit("4");
        reveal_strlit("5");
        reveal_strlit("6");
        reveal_strlit("7");
        reveal_strlit("8");
        reveal_strlit("9");
    }
    let s = match d {
        0 => "0",
        1 => "1",
        2 => "2",
        3 => "3",
        4 => "4",
        5 => "5",
        6 => "6",
        7 => "7",
        8 => "8",
        _ => "9",
    };
    proof {
        assert(s@ =~= seq![digit_char(d as int)]);
    }
    s
}

/// Renders a quantity as its decimal digits.
pub fn dec_string(n: u64) -> (s: String)
    ensures
        s@ == dec_digits(n as int),
    decreases n,
{
    if n < 10 {
        digit_literal(n).to_owned()
    } else {
        let mut s = dec_string(n / 10);
        s.append(digit_literal(n % 10));
        proof {
            assert(s@ =~= dec_digits(n as int));
        }
        s
    }
}

/// Renders an amount of cents exactly as `money_chars` states it.
pub fn money_string(cents: u64) -> (s: String)
    ensures
        s@ == money_chars(cents as int),
{
    let whole = cents / 100;
    let frac = cents % 100;
    let mut s = dec_string(whole);
    if frac != 0 {
        proof {
            reveal_strlit(".");
        }
        s.append(".");
        s.append(digit_literal(frac / 10));
        if frac % 10 != 0 {
            s.append(digit_literal(frac % 10));
        }
        proof {
            assert(s@ =~= money_chars(cents as int));
        }
    }
    s
}

} // verus!
